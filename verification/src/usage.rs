//! Lightweight per-model usage counters.

use crate::outside;
use crate::text;
use vstd::prelude::*;

verus! {

#[derive(Debug, Clone, Copy, PartialEq, Eq, Structural)]
pub struct ModelUsage {
    pub requests: u64,
    pub prompt_tokens: u64,
    pub completion_tokens: u64,
    pub total_tokens: u64,
    pub errors: u64,
    pub last_used_ms: Option<i64>,
}

pub open spec fn no_usage() -> ModelUsage {
    ModelUsage {
        requests: 0,
        prompt_tokens: 0,
        completion_tokens: 0,
        total_tokens: 0,
        errors: 0,
        last_used_ms: None,
    }
}

impl Default for ModelUsage {
    fn default() -> (r: ModelUsage)
        ensures
            r == no_usage(),
    {
        ModelUsage {
            requests: 0,
            prompt_tokens: 0,
            completion_tokens: 0,
            total_tokens: 0,
            errors: 0,
            last_used_ms: None,
        }
    }
}

/// One thing to be counted.
#[derive(Clone, Copy)]
pub struct Tally {
    pub prompt_tokens: u64,
    pub completion_tokens: u64,
    /// A failure: only the failure is counted.
    pub error: bool,
    /// Whether it counts as a request.
    pub count_request: bool,
    pub now: i64,
}

/// Whether counters can take a tally without overflow.
pub open spec fn has_room(u: ModelUsage, t: Tally) -> bool {
    if t.error {
        u.errors < u64::MAX
    } else {
        &&& t.count_request ==> u.requests < u64::MAX
        &&& u.prompt_tokens + t.prompt_tokens <= u64::MAX
        &&& u.completion_tokens + t.completion_tokens <= u64::MAX
        &&& u.total_tokens + t.prompt_tokens + t.completion_tokens <= u64::MAX
    }
}

/// Counters after a tally.
pub open spec fn counted(u: ModelUsage, t: Tally) -> ModelUsage {
    if t.error {
        ModelUsage { errors: (u.errors + 1) as u64, last_used_ms: Some(t.now), ..u }
    } else {
        ModelUsage {
            requests: (u.requests + if t.count_request {
                1int
            } else {
                0
            }) as u64,
            prompt_tokens: (u.prompt_tokens + t.prompt_tokens) as u64,
            completion_tokens: (u.completion_tokens + t.completion_tokens) as u64,
            total_tokens: (u.total_tokens + t.prompt_tokens + t.completion_tokens) as u64,
            errors: u.errors,
            last_used_ms: Some(t.now),
        }
    }
}

/// Models with their counters, in the order in which they were first used.
pub type Table = Seq<(Seq<char>, ModelUsage)>;

/// Where a model stands in a table, or the table's length.
pub open spec fn model_at(table: Table, model: Seq<char>) -> int
    decreases table.len(),
{
    if table.len() == 0 || table[0].0 == model {
        0
    } else {
        1 + model_at(table.skip(1), model)
    }
}

/// The counters of a model, all zero where it was not used yet.
pub open spec fn usage_of(table: Table, model: Seq<char>) -> ModelUsage {
    if model_at(table, model) < table.len() {
        table[model_at(table, model)].1
    } else {
        no_usage()
    }
}

/// The table with the counters of a model set.
pub open spec fn table_put(table: Table, model: Seq<char>, usage: ModelUsage) -> Table {
    if model_at(table, model) < table.len() {
        table.update(model_at(table, model), (model, usage))
    } else {
        table.push((model, usage))
    }
}

/// The table after a tally for a model.
pub open spec fn table_counted(table: Table, model: Seq<char>, t: Tally) -> Table {
    table_put(table, model, counted(usage_of(table, model), t))
}

/// Whether no model comes twice.
pub open spec fn no_repeats(table: Table) -> bool {
    forall|i: int, j: int|
        0 <= i < j < table.len() ==> (#[trigger] table[i]).0 != (#[trigger] table[j]).0
}

/// The table that entries describe, a later one of a model standing for an earlier one.
pub open spec fn table_from(entries: Table) -> Table
    decreases entries.len(),
{
    if entries.len() == 0 {
        Seq::empty()
    } else {
        table_put(table_from(entries.drop_last()), entries.last().0, entries.last().1)
    }
}

/// What usage counters are.
pub struct UsageView {
    pub models: Table,
    pub total: ModelUsage,
}

/// Usage counters after a tally for a model.
pub open spec fn usage_counted(u: UsageView, model: Seq<char>, t: Tally) -> UsageView {
    UsageView { models: table_counted(u.models, model, t), total: counted(u.total, t) }
}

/// Whether usage counters can take a tally for a model without overflow.
pub open spec fn usage_has_room(u: UsageView, model: Seq<char>, t: Tally) -> bool {
    has_room(usage_of(u.models, model), t) && has_room(u.total, t)
}

// ── laws ────────────────────────────────────────────────────────────
/// The sum of one counter over all models.
pub open spec fn sum_of(table: Table, counter: spec_fn(ModelUsage) -> int) -> int
    decreases table.len(),
{
    if table.len() == 0 {
        0
    } else {
        sum_of(table.drop_last(), counter) + counter(table.last().1)
    }
}

/// Whether the totals are the sums over all models, and all tokens, in total and of each model,
/// are prompt tokens or completion tokens.
pub open spec fn adds_up(u: UsageView) -> bool {
    &&& u.total.requests == sum_of(u.models, |m: ModelUsage| m.requests as int)
    &&& u.total.prompt_tokens == sum_of(u.models, |m: ModelUsage| m.prompt_tokens as int)
    &&& u.total.completion_tokens == sum_of(u.models, |m: ModelUsage| m.completion_tokens as int)
    &&& u.total.total_tokens == sum_of(u.models, |m: ModelUsage| m.total_tokens as int)
    &&& u.total.errors == sum_of(u.models, |m: ModelUsage| m.errors as int)
    &&& u.total.total_tokens == u.total.prompt_tokens + u.total.completion_tokens
    &&& forall|i: int|
        0 <= i < u.models.len() ==> (#[trigger] u.models[i]).1.total_tokens
            == u.models[i].1.prompt_tokens + u.models[i].1.completion_tokens
}

proof fn lemma_sum_update(table: Table, at: int, entry: (Seq<char>, ModelUsage), counter: spec_fn(
    ModelUsage,
) -> int)
    requires
        0 <= at < table.len(),
    ensures
        sum_of(table.update(at, entry), counter) == sum_of(table, counter) - counter(table[at].1)
            + counter(entry.1),
    decreases table.len(),
{
    let last = table.len() - 1;
    if at == last {
        assert(table.update(at, entry).drop_last() =~= table.drop_last());
    } else {
        assert(table.update(at, entry).drop_last() =~= table.drop_last().update(at, entry));
        lemma_sum_update(table.drop_last(), at, entry, counter);
    }
}

pub proof fn lemma_model_at(table: Table, model: Seq<char>)
    ensures
        0 <= model_at(table, model) <= table.len(),
        model_at(table, model) < table.len() ==> table[model_at(table, model)].0 == model,
        forall|i: int| 0 <= i < model_at(table, model) ==> (#[trigger] table[i]).0 != model,
    decreases table.len(),
{
    if table.len() != 0 && table[0].0 != model {
        let rest = table.skip(1);
        lemma_model_at(rest, model);
        assert forall|i: int| 0 <= i < model_at(table, model) implies (#[trigger] table[i]).0
            != model by {
            if i > 0 {
                assert(table[i] == rest[i - 1]);
            }
        }
    }
}

pub proof fn lemma_model_at_is(table: Table, model: Seq<char>, at: int)
    requires
        0 <= at <= table.len(),
        forall|i: int| 0 <= i < at ==> (#[trigger] table[i]).0 != model,
        at < table.len() ==> table[at].0 == model,
    ensures
        model_at(table, model) == at,
{
    lemma_model_at(table, model);
    let f = model_at(table, model);
    if f < at {
        assert(table[f].0 == model);
    }
}

proof fn lemma_sum_counted(table: Table, model: Seq<char>, t: Tally, counter: spec_fn(
    ModelUsage,
) -> int)
    requires
        counter(no_usage()) == 0,
    ensures
        sum_of(table_counted(table, model, t), counter) == sum_of(table, counter) - counter(
            usage_of(table, model),
        ) + counter(counted(usage_of(table, model), t)),
{
    lemma_model_at(table, model);
    let at = model_at(table, model);
    let entry = (model, counted(usage_of(table, model), t));
    if at < table.len() {
        lemma_sum_update(table, at, entry, counter);
    } else {
        assert(table.push(entry).drop_last() =~= table);
    }
}

/// The totals stay the sums over all models, whatever is counted.
pub proof fn totals_keep_adding_up(u: UsageView, model: Seq<char>, t: Tally)
    requires
        adds_up(u),
        usage_has_room(u, model, t),
    ensures
        adds_up(usage_counted(u, model, t)),
{
    lemma_sum_counted(u.models, model, t, |m: ModelUsage| m.requests as int);
    lemma_sum_counted(u.models, model, t, |m: ModelUsage| m.prompt_tokens as int);
    lemma_sum_counted(u.models, model, t, |m: ModelUsage| m.completion_tokens as int);
    lemma_sum_counted(u.models, model, t, |m: ModelUsage| m.total_tokens as int);
    lemma_sum_counted(u.models, model, t, |m: ModelUsage| m.errors as int);
    lemma_model_at(u.models, model);
}

proof fn lemma_put_no_repeats(table: Table, model: Seq<char>, usage: ModelUsage)
    requires
        no_repeats(table),
    ensures
        no_repeats(table_put(table, model, usage)),
{
    lemma_model_at(table, model);
}

/// No model comes twice, whatever is counted.
pub proof fn models_stay_distinct(u: UsageView, model: Seq<char>, t: Tally)
    requires
        no_repeats(u.models),
    ensures
        no_repeats(usage_counted(u, model, t).models),
{
    lemma_put_no_repeats(u.models, model, counted(usage_of(u.models, model), t));
}

/// Entries in which no model comes twice describe the table that they are.
pub proof fn distinct_models_are_kept(table: Table)
    requires
        no_repeats(table),
    ensures
        table_from(table) == table,
    decreases table.len(),
{
    if table.len() > 0 {
        let head = table.drop_last();
        assert forall|i: int, j: int| 0 <= i < j < head.len() implies (#[trigger] head[i]).0 != (
        #[trigger] head[j]).0 by {
            assert(table[i].0 != table[j].0);
        }
        distinct_models_are_kept(head);
        lemma_model_at_is(head, table.last().0, head.len() as int);
        assert(head.push(table.last()) =~= table);
    } else {
        assert(table =~= Seq::empty());
    }
}

/// Counting for one model leaves the counters of every other as they are.
pub proof fn other_models_keep_their_counters(
    u: UsageView,
    model: Seq<char>,
    other: Seq<char>,
    t: Tally,
)
    requires
        model != other,
    ensures
        usage_of(usage_counted(u, model, t).models, other) == usage_of(u.models, other),
        usage_of(usage_counted(u, model, t).models, model) == counted(usage_of(u.models, model), t),
{
    let before = u.models;
    let after = table_counted(before, model, t);
    lemma_model_at(before, model);
    lemma_model_at(before, other);
    let i = model_at(before, other);
    if i < before.len() {
        lemma_model_at_is(after, other, i);
    } else {
        lemma_model_at_is(after, other, after.len() as int);
    }
    let j = model_at(before, model);
    lemma_model_at_is(after, model, j);
}

// ── counters ────────────────────────────────────────────────────────
/// Usage counters per model and in total.
#[derive(Debug)]
pub struct UsageStore {
    models: Vec<(String, ModelUsage)>,
    total: ModelUsage,
}

/// The table of some entries.
pub open spec fn table_of(entries: Seq<(String, ModelUsage)>) -> Table {
    Seq::new(entries.len(), |i: int| (entries[i].0@, entries[i].1))
}

impl View for UsageStore {
    type V = UsageView;

    closed spec fn view(&self) -> UsageView {
        UsageView { models: table_of(self.models@), total: self.total }
    }
}

impl Clone for UsageStore {
    fn clone(&self) -> (r: UsageStore)
        ensures
            r@ == self@,
    {
        proof {
            use_type_invariant(self);
        }
        let mut models: Vec<(String, ModelUsage)> = Vec::new();
        let mut i: usize = 0;
        while i < self.models.len()
            invariant
                i <= self.models@.len(),
                models@.len() == i,
                forall|k: int|
                    0 <= k < i ==> (#[trigger] models@[k]).0@ == self.models@[k].0@ && models@[k].1
                        == self.models@[k].1,
            decreases self.models@.len() - i,
        {
            models.push((self.models[i].0.clone(), self.models[i].1));
            i += 1;
        }
        assert(table_of(models@) =~= table_of(self.models@));
        UsageStore { models, total: self.total }
    }
}

impl Default for UsageStore {
    fn default() -> (r: UsageStore)
        ensures
            r@ == (UsageView { models: Seq::empty(), total: no_usage() }),
    {
        let r = UsageStore { models: Vec::new(), total: ModelUsage::default() };
        assert(r@.models =~= Seq::<(Seq<char>, ModelUsage)>::empty());
        r
    }
}

fn room(u: &ModelUsage, t: Tally) -> (r: bool)
    ensures
        r == has_room(*u, t),
{
    if t.error {
        u.errors < u64::MAX
    } else {
        (!t.count_request || u.requests < u64::MAX) && u.prompt_tokens <= u64::MAX
            - t.prompt_tokens && u.completion_tokens <= u64::MAX - t.completion_tokens
            && u.total_tokens <= u64::MAX - t.prompt_tokens && u.total_tokens + t.prompt_tokens
            <= u64::MAX - t.completion_tokens
    }
}

fn count(u: &ModelUsage, t: Tally) -> (r: ModelUsage)
    requires
        has_room(*u, t),
    ensures
        r == counted(*u, t),
{
    if t.error {
        ModelUsage {
            requests: u.requests,
            prompt_tokens: u.prompt_tokens,
            completion_tokens: u.completion_tokens,
            total_tokens: u.total_tokens,
            errors: u.errors + 1,
            last_used_ms: Some(t.now),
        }
    } else {
        ModelUsage {
            requests: if t.count_request {
                u.requests + 1
            } else {
                u.requests
            },
            prompt_tokens: u.prompt_tokens + t.prompt_tokens,
            completion_tokens: u.completion_tokens + t.completion_tokens,
            total_tokens: u.total_tokens + t.prompt_tokens + t.completion_tokens,
            errors: u.errors,
            last_used_ms: Some(t.now),
        }
    }
}

/// Where a model stands among entries, or their number.
fn find(entries: &Vec<(String, ModelUsage)>, model: &str) -> (r: usize)
    ensures
        r == model_at(table_of(entries@), model@),
        r <= entries@.len(),
{
    let ghost table = table_of(entries@);
    let mut i: usize = 0;
    while i < entries.len()
        invariant
            i <= entries@.len(),
            table == table_of(entries@),
            forall|k: int| 0 <= k < i ==> (#[trigger] table[k]).0 != model@,
        decreases entries@.len() - i,
    {
        if text::same(entries[i].0.as_str(), model) {
            proof {
                lemma_model_at_is(table, model@, i as int);
            }
            return i;
        }
        i += 1;
    }
    proof {
        lemma_model_at_is(table, model@, i as int);
    }
    i
}

/// Sets the counters of a model among entries.
fn put(entries: &mut Vec<(String, ModelUsage)>, model: &str, usage: ModelUsage)
    ensures
        table_of(final(entries)@) == table_put(table_of(old(entries)@), model@, usage),
{
    let ghost before = table_of(entries@);
    let at = find(entries, model);
    if at < entries.len() {
        entries.set(at, (model.to_string(), usage));
        assert(table_of(entries@) =~= before.update(at as int, (model@, usage)));
    } else {
        entries.push((model.to_string(), usage));
        assert(table_of(entries@) =~= before.push((model@, usage)));
    }
}

impl UsageStore {
    #[verifier::type_invariant]
    spec fn distinct(self) -> bool {
        no_repeats(table_of(self.models@))
    }

    /// The counters of some models and in total. A later entry of a model stands for an earlier
    /// one.
    pub fn from_parts(entries: Vec<(String, ModelUsage)>, total: ModelUsage) -> (r: UsageStore)
        ensures
            r@ == (UsageView { models: table_from(table_of(entries@)), total }),
    {
        let ghost table = table_of(entries@);
        let mut models: Vec<(String, ModelUsage)> = Vec::new();
        let mut i: usize = 0;
        assert(table_of(models@) =~= Seq::empty());
        assert(table.take(0) =~= Seq::empty());
        while i < entries.len()
            invariant
                i <= entries@.len(),
                table == table_of(entries@),
                table_of(models@) == table_from(table.take(i as int)),
                no_repeats(table_of(models@)),
            decreases entries@.len() - i,
        {
            proof {
                assert(table.take(i + 1).drop_last() =~= table.take(i as int));
                assert(table.take(i + 1).last() == table[i as int]);
                lemma_put_no_repeats(table_of(models@), table[i as int].0, table[i as int].1);
            }
            put(&mut models, entries[i].0.as_str(), entries[i].1);
            i += 1;
        }
        assert(table.take(i as int) =~= table);
        UsageStore { models, total }
    }

    /// The models with their counters. No model comes twice.
    pub fn entries(&self) -> (r: &Vec<(String, ModelUsage)>)
        ensures
            table_of(r@) == self@.models,
            no_repeats(self@.models),
    {
        proof {
            use_type_invariant(self);
        }
        &self.models
    }

    /// The counters in total.
    pub fn total(&self) -> (r: ModelUsage)
        ensures
            r == self@.total,
    {
        self.total
    }

    /// The counters of a model.
    pub fn get(&self, model: &str) -> (r: ModelUsage)
        ensures
            r == usage_of(self@.models, model@),
    {
        let at = find(&self.models, model);
        if at < self.models.len() {
            self.models[at].1
        } else {
            ModelUsage::default()
        }
    }

    /// Whether a tally can be counted without overflow.
    pub fn can_count(&self, model: &str, t: Tally) -> (r: bool)
        ensures
            r == usage_has_room(self@, model@, t),
    {
        room(&self.get(model), t) && room(&self.total, t)
    }

    /// Counts a tally for a model.
    pub fn count(&mut self, model: &str, t: Tally)
        requires
            usage_has_room(old(self)@, model@, t),
        ensures
            final(self)@ == usage_counted(old(self)@, model@, t),
    {
        proof {
            use_type_invariant(&*self);
            models_stay_distinct(self@, model@, t);
        }
        let entry = count(&self.get(model), t);
        let total = count(&self.total, t);
        let mut models: Vec<(String, ModelUsage)> = Vec::new();
        assert(table_of(models@) =~= Seq::empty());
        std::mem::swap(&mut models, &mut self.models);
        put(&mut models, model, entry);
        self.models = models;
        self.total = total;
    }
}

/// The usage of a bridge.
#[derive(Debug)]
pub struct Usage {
    inner: UsageStore,
}

impl View for Usage {
    type V = UsageView;

    closed spec fn view(&self) -> UsageView {
        self.inner@
    }
}

impl Usage {
    /// Counting on from counters that were kept.
    pub fn load(kept: Option<UsageStore>) -> (r: Usage)
        ensures
            r@ == (match kept {
                Some(store) => store@,
                None => UsageView { models: Seq::empty(), total: no_usage() },
            }),
    {
        match kept {
            Some(inner) => Usage { inner },
            None => Usage { inner: UsageStore::default() },
        }
    }

    pub fn snapshot(&self) -> (r: UsageStore)
        ensures
            r@ == self@,
    {
        self.inner.clone()
    }

    /// Counts a tally for a model, unless a counter would overflow. Says whether it did.
    pub fn record_inner(&mut self, model: &str, t: Tally) -> (r: bool)
        ensures
            r == usage_has_room(old(self)@, model@, t),
            r ==> final(self)@ == usage_counted(old(self)@, model@, t),
            !r ==> final(self)@ == old(self)@,
    {
        if self.inner.can_count(model, t) {
            self.inner.count(model, t);
            true
        } else {
            false
        }
    }

    /// Counts a request, or a failure.
    pub fn record(
        &mut self,
        model: &str,
        prompt_tokens: u64,
        completion_tokens: u64,
        error: bool,
    ) -> (r: bool)
        ensures
            exists|now: i64|
                {
                    let t = #[trigger] request_tally(prompt_tokens, completion_tokens, error, now);
                    &&& r == usage_has_room(old(self)@, model@, t)
                    &&& r ==> final(self)@ == usage_counted(old(self)@, model@, t)
                    &&& !r ==> final(self)@ == old(self)@
                },
    {
        let now = outside::now_millis();
        let t = Tally { prompt_tokens, completion_tokens, error, count_request: true, now };
        assert(t == request_tally(prompt_tokens, completion_tokens, error, now));
        self.record_inner(model, t)
    }

    /// Token-only update (do not bump request count).
    pub fn record_tokens(&mut self, model: &str, prompt_tokens: u64, completion_tokens: u64) -> (r:
        bool)
        ensures
            exists|now: i64|
                {
                    let t = #[trigger] token_tally(prompt_tokens, completion_tokens, now);
                    &&& r == usage_has_room(old(self)@, model@, t)
                    &&& r ==> final(self)@ == usage_counted(old(self)@, model@, t)
                    &&& !r ==> final(self)@ == old(self)@
                },
    {
        let now = outside::now_millis();
        let t = Tally { prompt_tokens, completion_tokens, error: false, count_request: false, now };
        assert(t == token_tally(prompt_tokens, completion_tokens, now));
        self.record_inner(model, t)
    }

    /// Counts what a note says.
    pub fn apply(&mut self, model: &str, note: UsageNote) -> (r: bool)
        ensures
            exists|now: i64|
                {
                    let t = #[trigger] tally_of(note, now);
                    &&& r == usage_has_room(old(self)@, model@, t)
                    &&& r ==> final(self)@ == usage_counted(old(self)@, model@, t)
                    &&& !r ==> final(self)@ == old(self)@
                },
    {
        let ghost before = self@;
        match note {
            UsageNote::Request { prompt_tokens, completion_tokens, error } => {
                let r = self.record(model, prompt_tokens, completion_tokens, error);
                proof {
                    let now = choose|now: i64|
                        {
                            let t = #[trigger] request_tally(
                                prompt_tokens,
                                completion_tokens,
                                error,
                                now,
                            );
                            &&& r == usage_has_room(before, model@, t)
                            &&& r ==> self@ == usage_counted(before, model@, t)
                            &&& !r ==> self@ == before
                        };
                    assert(tally_of(note, now) == request_tally(
                        prompt_tokens,
                        completion_tokens,
                        error,
                        now,
                    ));
                }
                r
            },
            UsageNote::Tokens { prompt_tokens, completion_tokens } => {
                let r = self.record_tokens(model, prompt_tokens, completion_tokens);
                proof {
                    let now = choose|now: i64|
                        {
                            let t = #[trigger] token_tally(prompt_tokens, completion_tokens, now);
                            &&& r == usage_has_room(before, model@, t)
                            &&& r ==> self@ == usage_counted(before, model@, t)
                            &&& !r ==> self@ == before
                        };
                    assert(tally_of(note, now) == token_tally(
                        prompt_tokens,
                        completion_tokens,
                        now,
                    ));
                }
                r
            },
        }
    }
}

/// Something to be counted for a model.
#[derive(Debug, Clone, Copy, PartialEq, Eq, Structural)]
pub enum UsageNote {
    /// A request with its tokens, or a failure.
    Request { prompt_tokens: u64, completion_tokens: u64, error: bool },
    /// Tokens of a request that was counted before.
    Tokens { prompt_tokens: u64, completion_tokens: u64 },
}

/// What a note counts for, at a given time.
pub open spec fn tally_of(note: UsageNote, now: i64) -> Tally {
    match note {
        UsageNote::Request { prompt_tokens, completion_tokens, error } => request_tally(
            prompt_tokens,
            completion_tokens,
            error,
            now,
        ),
        UsageNote::Tokens { prompt_tokens, completion_tokens } => token_tally(
            prompt_tokens,
            completion_tokens,
            now,
        ),
    }
}

/// A request with its tokens, or a failure.
pub open spec fn request_tally(prompt_tokens: u64, completion_tokens: u64, error: bool, now: i64) -> Tally {
    Tally { prompt_tokens, completion_tokens, error, count_request: true, now }
}

/// Tokens of a request that was counted before.
pub open spec fn token_tally(prompt_tokens: u64, completion_tokens: u64, now: i64) -> Tally {
    Tally { prompt_tokens, completion_tokens, error: false, count_request: false, now }
}

/// What counts for what: a request that went well adds one request and its tokens, a failure adds
/// one failure and nothing else, and tokens that come later add no request. The time of the last
/// use is the time of the tally.
pub proof fn everything_counts_once(u: ModelUsage, p: u64, c: u64, now: i64)
    ensures
        has_room(u, request_tally(p, c, false, now)) ==> {
            let v = counted(u, request_tally(p, c, false, now));
            &&& v.requests == u.requests + 1
            &&& v.prompt_tokens == u.prompt_tokens + p
            &&& v.completion_tokens == u.completion_tokens + c
            &&& v.total_tokens == u.total_tokens + p + c
            &&& v.errors == u.errors
            &&& v.last_used_ms == Some(now)
        },
        has_room(u, request_tally(p, c, true, now)) ==> {
            let v = counted(u, request_tally(p, c, true, now));
            &&& v.errors == u.errors + 1
            &&& v.requests == u.requests
            &&& v.prompt_tokens == u.prompt_tokens
            &&& v.completion_tokens == u.completion_tokens
            &&& v.total_tokens == u.total_tokens
            &&& v.last_used_ms == Some(now)
        },
        has_room(u, token_tally(p, c, now)) ==> {
            let v = counted(u, token_tally(p, c, now));
            &&& v.requests == u.requests
            &&& v.prompt_tokens == u.prompt_tokens + p
            &&& v.completion_tokens == u.completion_tokens + c
            &&& v.total_tokens == u.total_tokens + p + c
            &&& v.errors == u.errors
            &&& v.last_used_ms == Some(now)
        },
        u.requests < u64::MAX && u.prompt_tokens + p <= u64::MAX && u.completion_tokens + c
            <= u64::MAX && u.total_tokens + p + c <= u64::MAX ==> has_room(
            u,
            request_tally(p, c, false, now),
        ) && has_room(u, token_tally(p, c, now)),
        u.errors < u64::MAX ==> has_room(u, request_tally(p, c, true, now)),
{
}

/// What is counted for a model is counted in total too: both change by the same tally. A model that
/// was not used before starts at zero.
pub proof fn totals_follow_the_models(u: UsageView, model: Seq<char>, t: Tally)
    ensures
        usage_of(usage_counted(u, model, t).models, model) == counted(
            usage_of(u.models, model),
            t,
        ),
        usage_counted(u, model, t).total == counted(u.total, t),
        (forall|i: int| 0 <= i < u.models.len() ==> (#[trigger] u.models[i]).0 != model)
            ==> usage_of(u.models, model) == no_usage(),
        no_usage().requests == 0 && no_usage().prompt_tokens == 0 && no_usage().completion_tokens
            == 0 && no_usage().total_tokens == 0 && no_usage().errors == 0,
        forall|note: UsageNote, now: i64| #[trigger]
            tally_of(note, now) == (match note {
                UsageNote::Request { prompt_tokens, completion_tokens, error } => Tally {
                    prompt_tokens,
                    completion_tokens,
                    error,
                    count_request: true,
                    now,
                },
                UsageNote::Tokens { prompt_tokens, completion_tokens } => Tally {
                    prompt_tokens,
                    completion_tokens,
                    error: false,
                    count_request: false,
                    now,
                },
            }),
{
    let before = u.models;
    let after = table_counted(before, model, t);
    lemma_model_at(before, model);
    let j = model_at(before, model);
    lemma_model_at_is(after, model, j);
}

/// Entries are read in their order: the last entry of a model counts, and says nothing of others.
pub proof fn last_entries_count(entries: Table, entry: (Seq<char>, ModelUsage), other: Seq<char>)
    ensures
        usage_of(table_from(entries.push(entry)), entry.0) == entry.1,
        other != entry.0 ==> usage_of(table_from(entries.push(entry)), other) == usage_of(
            table_from(entries),
            other,
        ),
        usage_of(table_from(Seq::empty()), other) == no_usage(),
{
    assert(entries.push(entry).drop_last() =~= entries);
    let before = table_from(entries);
    let after = table_put(before, entry.0, entry.1);
    lemma_model_at(before, entry.0);
    lemma_model_at(before, other);
    lemma_model_at_is(after, entry.0, model_at(before, entry.0));
    if other != entry.0 {
        let i = model_at(before, other);
        if i < before.len() {
            lemma_model_at_is(after, other, i);
        } else {
            lemma_model_at_is(after, other, after.len() as int);
        }
    }
}

} // verus!
