//! Shared bridge state.

use crate::auth::{TwoFactorFlow, TwoFactorView};
use crate::json::{Json, JsonView};
use crate::storage::{Storage, StorageView};
use crate::usage::{Usage, UsageStore, UsageView};
use std::collections::VecDeque;
use crate::json;
use crate::usage;
use vstd::prelude::*;
use vstd::utf8::encode_utf8;

verus! {

// ── the log: models ─────────────────────────────────────────────────
pub const LOG_BYTE_CAP: u128 = 8_388_608;

/// How many rows the log of a bridge keeps.
pub const LOG_ROWS: usize = 200;

/// What a log is: its rows, the newest first, and how many it keeps.
#[verifier::ext_equal]
pub struct LogView {
    pub rows: Seq<JsonView>,
    pub cap: nat,
}

/// What a row counts: the bytes of its text, and some for the row itself.
pub open spec fn row_size(row: JsonView) -> nat {
    encode_utf8(json::json_text(row)).len() + 64
}

/// What some rows count together.
pub open spec fn rows_size(rows: Seq<JsonView>) -> nat
    decreases rows.len(),
{
    if rows.len() == 0 {
        0
    } else {
        rows_size(rows.drop_last()) + row_size(rows.last())
    }
}

/// The rows that stay when one of the given size is added: the oldest ones go until the new one
/// has room, or none is left.
pub open spec fn kept_rows(rows: Seq<JsonView>, size: nat, cap: nat) -> Seq<JsonView>
    decreases rows.len(),
{
    if rows.len() == 0 || (rows.len() < cap && rows_size(rows) + size <= LOG_BYTE_CAP) {
        rows
    } else {
        kept_rows(rows.drop_last(), size, cap)
    }
}

/// A log after a row was added.
pub open spec fn logged(log: LogView, row: JsonView) -> LogView {
    LogView { rows: seq![row] + kept_rows(log.rows, row_size(row), log.cap), cap: log.cap }
}

proof fn lemma_rows_size_front(row: JsonView, rows: Seq<JsonView>)
    ensures
        rows_size(seq![row] + rows) == row_size(row) + rows_size(rows),
    decreases rows.len(),
{
    let all = seq![row] + rows;
    if rows.len() == 0 {
        assert(all.drop_last() =~= Seq::<JsonView>::empty());
        reveal_with_fuel(rows_size, 2);
    } else {
        assert(all.drop_last() =~= seq![row] + rows.drop_last());
        lemma_rows_size_front(row, rows.drop_last());
    }
}

proof fn lemma_rows_size_drop(rows: Seq<JsonView>, n: int)
    requires
        0 <= n <= rows.len(),
    ensures
        rows_size(rows.take(n)) <= rows_size(rows),
    decreases rows.len(),
{
    if n < rows.len() {
        assert(rows.drop_last().take(n) =~= rows.take(n));
        lemma_rows_size_drop(rows.drop_last(), n);
    } else {
        assert(rows.take(n) =~= rows);
    }
}

proof fn lemma_kept_rows(rows: Seq<JsonView>, size: nat, cap: nat)
    ensures
        kept_rows(rows, size, cap).len() <= rows.len(),
        kept_rows(rows, size, cap) == rows.take(kept_rows(rows, size, cap).len() as int),
        kept_rows(rows, size, cap).len() > 0 ==> kept_rows(rows, size, cap).len() < cap
            && rows_size(kept_rows(rows, size, cap)) + size <= LOG_BYTE_CAP,
        forall|n: int|
            kept_rows(rows, size, cap).len() < n <= rows.len() ==> n >= cap || rows_size(
                #[trigger] rows.take(n),
            ) + size > LOG_BYTE_CAP,
    decreases rows.len(),
{
    if rows.len() == 0 || (rows.len() < cap && rows_size(rows) + size <= LOG_BYTE_CAP) {
        assert(rows.take(rows.len() as int) =~= rows);
    } else {
        let head = rows.drop_last();
        lemma_kept_rows(head, size, cap);
        let k = kept_rows(rows, size, cap).len();
        assert(head.take(k as int) =~= rows.take(k as int));
        assert forall|n: int| k < n <= rows.len() implies n >= cap || rows_size(
            #[trigger] rows.take(n),
        ) + size > LOG_BYTE_CAP by {
            if n < rows.len() {
                assert(head.take(n) =~= rows.take(n));
            } else {
                assert(rows.take(n) =~= rows);
            }
        }
    }
}

/// A log shows its newest row first, then the rows from before in their order; it holds no more
/// rows than it may, and no more bytes unless the newest row alone counts more. No row goes that
/// had room.
pub proof fn log_is_bounded(log: LogView, row: JsonView)
    ensures
        logged(log, row).rows[0] == row,
        1 <= logged(log, row).rows.len() <= log.rows.len() + 1,
        logged(log, row).rows.skip(1) == log.rows.take(logged(log, row).rows.len() - 1),
        logged(log, row).rows.len() <= log.cap || logged(log, row).rows.len() == 1,
        rows_size(logged(log, row).rows) <= 8 * 1024 * 1024 || logged(log, row).rows.len() == 1,
        logged(log, row).cap == log.cap,
        forall|n: int|
            logged(log, row).rows.len() <= n <= log.rows.len() ==> n >= log.cap || rows_size(
                #[trigger] log.rows.take(n),
            ) + row_size(row) > LOG_BYTE_CAP,
{
    let kept = kept_rows(log.rows, row_size(row), log.cap);
    lemma_kept_rows(log.rows, row_size(row), log.cap);
    lemma_rows_size_front(row, kept);
    assert((seq![row] + kept).skip(1) =~= kept);
}

// ── the log ─────────────────────────────────────────────────────────
/// The latest log rows.
#[derive(Debug)]
pub struct LogHub {
    rows: VecDeque<(u128, Json)>,
    cap: usize,
}

spec fn row_views(rows: Seq<(u128, Json)>) -> Seq<JsonView> {
    Seq::new(rows.len(), |i: int| rows[i].1@)
}

spec fn measured(rows: Seq<(u128, Json)>) -> bool {
    forall|i: int| 0 <= i < rows.len() ==> (#[trigger] rows[i]).0 == row_size(rows[i].1@)
}

impl View for LogHub {
    type V = LogView;

    closed spec fn view(&self) -> LogView {
        LogView { rows: row_views(self.rows@), cap: self.cap as nat }
    }
}

impl LogHub {
    #[verifier::type_invariant]
    spec fn bounded(self) -> bool {
        &&& measured(self.rows@)
        &&& self.rows@.len() <= 1 || rows_size(row_views(self.rows@)) <= LOG_BYTE_CAP
    }

    pub fn new(cap: usize) -> (r: LogHub)
        ensures
            r@ == (LogView { rows: Seq::empty(), cap: cap as nat }),
    {
        let r = LogHub { rows: VecDeque::new(), cap };
        assert(r@.rows =~= Seq::<JsonView>::empty());
        r
    }

    /// Adds a row.
    pub fn push(&mut self, payload: Json)
        ensures
            final(self)@ == logged(old(self)@, payload@),
    {
        proof {
            use_type_invariant(&*self);
        }
        let text = payload.to_text();
        let size: u128 = text.as_str().as_bytes().len() as u128 + 64;
        let ghost before = self@;
        let cap = self.cap;
        let mut rows: VecDeque<(u128, Json)> = VecDeque::new();
        assert(row_views(rows@) =~= Seq::<JsonView>::empty());
        std::mem::swap(&mut rows, &mut self.rows);
        let mut total: u128 = 0;
        let mut i: usize = 0;
        while i < rows.len()
            invariant
                i <= rows@.len(),
                measured(rows@),
                rows@.len() <= 1 || rows_size(row_views(rows@)) <= LOG_BYTE_CAP,
                total == rows_size(row_views(rows@).take(i as int)),
            decreases rows@.len() - i,
        {
            let ghost all = row_views(rows@);
            proof {
                assert(all.take(i + 1).drop_last() =~= all.take(i as int));
                lemma_rows_size_drop(all, i as int);
                lemma_rows_size_drop(all, i + 1);
                assert(all.take(0) =~= Seq::<JsonView>::empty());
                assert(all.take(i + 1).last() == rows@[i as int].1@);
            }
            total = total + rows[i].0;
            i += 1;
        }
        assert(row_views(rows@).take(i as int) =~= row_views(rows@));
        while rows.len() > 0 && (rows.len() >= cap || size > LOG_BYTE_CAP || total > LOG_BYTE_CAP
            - size)
            invariant
                measured(rows@),
                rows@.len() <= 1 || rows_size(row_views(rows@)) <= LOG_BYTE_CAP,
                total == rows_size(row_views(rows@)),
                kept_rows(before.rows, size as nat, cap as nat) == kept_rows(
                    row_views(rows@),
                    size as nat,
                    cap as nat,
                ),
            decreases rows@.len(),
        {
            let ghost all = row_views(rows@);
            match rows.pop_back() {
                Some((s, _)) => {
                    assert(row_views(rows@) =~= all.drop_last());
                    total = total - s;
                },
                None => {},
            }
        }
        let ghost kept = row_views(rows@);
        rows.push_front((size, payload));
        assert(row_views(rows@) =~= seq![payload@] + kept);
        proof {
            lemma_rows_size_front(payload@, kept);
        }
        self.rows = rows;
    }

    /// The rows, the newest first.
    pub fn snapshot(&self) -> (r: Vec<Json>)
        ensures
            json::trees_of(r@) == self@.rows,
    {
        let mut out: Vec<Json> = Vec::new();
        let mut i: usize = 0;
        while i < self.rows.len()
            invariant
                i <= self.rows@.len(),
                out@.len() == i,
                forall|k: int| 0 <= k < i ==> (#[trigger] out@[k])@ == self.rows@[k].1@,
            decreases self.rows@.len() - i,
        {
            out.push(self.rows[i].1.copy());
            i += 1;
        }
        assert(json::trees_of(out@) =~= self@.rows);
        out
    }
}

// ── the state ───────────────────────────────────────────────────────
/// The address that a server is bound to.
#[derive(Debug)]
pub struct BoundAddr {
    /// Host and port.
    pub text: String,
    /// Whether only this machine can reach it.
    pub loopback: bool,
}

/// What the address is that a server is bound to.
pub struct BoundAddrView {
    pub text: Seq<char>,
    pub loopback: bool,
}

impl View for BoundAddr {
    type V = BoundAddrView;

    open spec fn view(&self) -> BoundAddrView {
        BoundAddrView { text: self.text@, loopback: self.loopback }
    }
}

/// Shared state of a bridge.
#[derive(Debug)]
pub struct BridgeState {
    pub storage: Storage,
    pub usage: Usage,
    pub logs: LogHub,
    /// In-flight second-factor flow (one at a time is enough for a local bridge).
    pub two_factor: Option<TwoFactorFlow>,
    /// Admin session tokens (cookie value and when it was issued, in milliseconds).
    pub admin_sessions: Vec<(String, i64)>,
    pub bound_addr: Option<BoundAddr>,
}

/// What the state of a bridge is.
#[verifier::ext_equal]
pub struct StateView {
    pub storage: StorageView,
    pub usage: UsageView,
    pub logs: LogView,
    pub two_factor: Option<TwoFactorView>,
    pub admin_sessions: Seq<(Seq<char>, i64)>,
    pub bound_addr: Option<BoundAddrView>,
}

/// What admin sessions are.
pub open spec fn admin_views(sessions: Seq<(String, i64)>) -> Seq<(Seq<char>, i64)> {
    sessions.map_values(|s: (String, i64)| (s.0@, s.1))
}

/// What an optional second-factor flow is.
pub open spec fn opt_two_factor(flow: Option<TwoFactorFlow>) -> Option<TwoFactorView> {
    match flow {
        Some(f) => Some(f@),
        None => None,
    }
}

/// What an optional address is.
pub open spec fn opt_addr(addr: Option<BoundAddr>) -> Option<BoundAddrView> {
    match addr {
        Some(a) => Some(a@),
        None => None,
    }
}

impl View for BridgeState {
    type V = StateView;

    open spec fn view(&self) -> StateView {
        StateView {
            storage: self.storage@,
            usage: self.usage@,
            logs: self.logs@,
            two_factor: opt_two_factor(self.two_factor),
            admin_sessions: admin_views(self.admin_sessions@),
            bound_addr: opt_addr(self.bound_addr),
        }
    }
}

impl BridgeState {
    /// The state at start, with what is stored and the usage counters that were kept.
    pub fn new(storage: Storage, usage: Option<UsageStore>) -> (r: BridgeState)
        ensures
            r@.storage == storage@,
            r@.usage == (match usage {
                Some(u) => u@,
                None => UsageView { models: Seq::empty(), total: usage::no_usage() },
            }),
            r@.logs == (LogView { rows: Seq::empty(), cap: LOG_ROWS as nat }),
            r@.two_factor is None,
            r@.admin_sessions == Seq::<(Seq<char>, i64)>::empty(),
            r@.bound_addr is None,
    {
        let r = BridgeState {
            storage,
            usage: Usage::load(usage),
            logs: LogHub::new(LOG_ROWS),
            two_factor: None,
            admin_sessions: Vec::new(),
            bound_addr: None,
        };
        assert(r@.admin_sessions =~= Seq::<(Seq<char>, i64)>::empty());
        r
    }

    pub fn set_bound_addr(&mut self, addr: BoundAddr)
        ensures
            final(self)@ == (StateView { bound_addr: Some(addr@), ..old(self)@ }),
    {
        self.bound_addr = Some(addr);
    }

    pub fn clear_bound_addr(&mut self)
        ensures
            final(self)@ == (StateView { bound_addr: None, ..old(self)@ }),
    {
        self.bound_addr = None;
    }

    pub fn bound_addr(&self) -> (r: Option<BoundAddr>)
        ensures
            opt_addr(r) == self@.bound_addr,
    {
        match &self.bound_addr {
            Some(a) => Some(BoundAddr { text: a.text.clone(), loopback: a.loopback }),
            None => None,
        }
    }

    pub fn emit_log(&mut self, payload: Json)
        ensures
            final(self)@ == (StateView { logs: logged(old(self)@.logs, payload@), ..old(self)@ }),
    {
        self.logs.push(payload);
    }
}

} // verus!
