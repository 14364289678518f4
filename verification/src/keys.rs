//! The member names of a JSON object, in ascending order.

use crate::json::{JsonObject, JsonView};
use crate::json;
use crate::text;
use vstd::prelude::*;

verus! {

/// Whether a text comes before another, compared character by character.
pub open spec fn precedes(a: Seq<char>, b: Seq<char>) -> bool
    decreases a.len(),
{
    if b.len() == 0 {
        false
    } else if a.len() == 0 {
        true
    } else if a[0] == b[0] {
        precedes(a.skip(1), b.skip(1))
    } else {
        a[0] < b[0]
    }
}

/// Whether each text comes before those that follow it.
pub open spec fn ascending(keys: Seq<Seq<char>>) -> bool {
    forall|i: int, j: int| 0 <= i < j < keys.len() ==> precedes(#[trigger] keys[i], #[trigger] keys[j])
}

/// Whether a list holds the member names of an object, in ascending order.
pub open spec fn lists_keys(keys: Seq<Seq<char>>, m: Map<Seq<char>, JsonView>) -> bool {
    ascending(keys) && forall|k: Seq<char>| keys.contains(k) <==> #[trigger] m.contains_key(k)
}

/// The member names of an object, in ascending order.
pub open spec fn key_list(m: Map<Seq<char>, JsonView>) -> Seq<Seq<char>> {
    choose|keys: Seq<Seq<char>>| lists_keys(keys, m)
}

proof fn lemma_irreflexive(a: Seq<char>)
    ensures
        !precedes(a, a),
    decreases a.len(),
{
    if a.len() > 0 {
        lemma_irreflexive(a.skip(1));
    }
}

proof fn lemma_transitive(a: Seq<char>, b: Seq<char>, c: Seq<char>)
    requires
        precedes(a, b),
        precedes(b, c),
    ensures
        precedes(a, c),
    decreases a.len(),
{
    if a.len() > 0 && a[0] == b[0] && b[0] == c[0] {
        lemma_transitive(a.skip(1), b.skip(1), c.skip(1));
    }
}

proof fn lemma_total(a: Seq<char>, b: Seq<char>)
    ensures
        precedes(a, b) || a == b || precedes(b, a),
    decreases a.len(),
{
    if a.len() > 0 && b.len() > 0 {
        if a[0] == b[0] {
            lemma_total(a.skip(1), b.skip(1));
            if a.skip(1) == b.skip(1) {
                assert(a =~= seq![a[0]] + a.skip(1));
                assert(b =~= seq![b[0]] + b.skip(1));
            }
        }
    } else if a.len() == 0 && b.len() == 0 {
        assert(a =~= b);
    }
}

/// There is one list of the member names in ascending order.
proof fn lemma_one_list(a: Seq<Seq<char>>, b: Seq<Seq<char>>)
    requires
        ascending(a),
        ascending(b),
        forall|k: Seq<char>| a.contains(k) <==> b.contains(k),
    ensures
        a == b,
    decreases a.len(),
{
    if a.len() == 0 {
        if b.len() > 0 {
            assert(b.contains(b[0]));
        }
        assert(a =~= b);
    } else {
        assert(a.contains(a[0]));
        assert(b.len() > 0);
        assert(b.contains(b[0]));
        if a[0] != b[0] {
            let i = choose|i: int| 0 <= i < b.len() && b[i] == a[0];
            let j = choose|j: int| 0 <= j < a.len() && a[j] == b[0];
            assert(precedes(b[0], b[i]));
            assert(precedes(a[0], a[j]));
            lemma_transitive(a[0], b[0], a[0]);
            lemma_irreflexive(a[0]);
        }
        let ar = a.skip(1);
        let br = b.skip(1);
        assert forall|k: Seq<char>| ar.contains(k) implies br.contains(k) by {
            let i = choose|i: int| 0 <= i < ar.len() && ar[i] == k;
            assert(a[i + 1] == k);
            assert(a.contains(k));
            let j = choose|j: int| 0 <= j < b.len() && b[j] == k;
            if j == 0 {
                assert(precedes(a[0], a[i + 1]));
                lemma_irreflexive(k);
            }
            assert(br[j - 1] == k);
        }
        assert forall|k: Seq<char>| br.contains(k) implies ar.contains(k) by {
            let i = choose|i: int| 0 <= i < br.len() && br[i] == k;
            assert(b[i + 1] == k);
            assert(b.contains(k));
            let j = choose|j: int| 0 <= j < a.len() && a[j] == k;
            if j == 0 {
                assert(precedes(b[0], b[i + 1]));
                lemma_irreflexive(k);
            }
            assert(ar[j - 1] == k);
        }
        assert(ascending(ar)) by {
            assert forall|i: int, j: int| 0 <= i < j < ar.len() implies precedes(
                #[trigger] ar[i],
                #[trigger] ar[j],
            ) by {
                assert(precedes(a[i + 1], a[j + 1]));
            }
        }
        assert(ascending(br)) by {
            assert forall|i: int, j: int| 0 <= i < j < br.len() implies precedes(
                #[trigger] br[i],
                #[trigger] br[j],
            ) by {
                assert(precedes(b[i + 1], b[j + 1]));
            }
        }
        lemma_one_list(ar, br);
        assert(a =~= seq![a[0]] + ar);
        assert(b =~= seq![b[0]] + br);
    }
}

fn less(a: &str, b: &str) -> (r: bool)
    ensures
        r == precedes(a@, b@),
{
    let x = text::chars_of(a);
    let y = text::chars_of(b);
    let mut i: usize = 0;
    assert(x@.skip(0) =~= x@);
    assert(y@.skip(0) =~= y@);
    while i < x.len() && i < y.len()
        invariant
            i <= x@.len(),
            i <= y@.len(),
            precedes(a@, b@) == precedes(x@.skip(i as int), y@.skip(i as int)),
        decreases x@.len() - i,
    {
        if x[i] != y[i] {
            return x[i] < y[i];
        }
        assert(x@.skip(i as int).skip(1) =~= x@.skip(i + 1));
        assert(y@.skip(i as int).skip(1) =~= y@.skip(i + 1));
        i += 1;
    }
    i < y.len()
}

/// Puts a name in its place in an ascending list, unless it is there.
fn insert_key(keys: &mut Vec<String>, key: &str)
    requires
        ascending(text::views(old(keys)@)),
    ensures
        ascending(text::views(final(keys)@)),
        forall|k: Seq<char>|
            #[trigger] text::views(final(keys)@).contains(k) <==> (text::views(old(keys)@).contains(k) || k
                == key@),
{
    let ghost before = text::views(keys@);
    let mut at: usize = 0;
    while at < keys.len() && less(keys[at].as_str(), key)
        invariant
            at <= keys@.len(),
            before == text::views(keys@),
            forall|i: int| 0 <= i < at ==> precedes(#[trigger] before[i], key@),
        decreases keys@.len() - at,
    {
        at += 1;
    }
    if at < keys.len() && text::same(keys[at].as_str(), key) {
        assert(before[at as int] == key@);
        return;
    }
    if at < keys.len() {
        proof {
            lemma_total(before[at as int], key@);
        }
    }
    keys.insert(at, key.to_string());
    let ghost after = text::views(keys@);
    proof {
        assert(after =~= before.insert(at as int, key@));
        assert forall|i: int, j: int| 0 <= i < j < after.len() implies precedes(
            #[trigger] after[i],
            #[trigger] after[j],
        ) by {
            if i < at && j < at {
                assert(precedes(before[i], before[j]));
            } else if i < at && j == at {
            } else if i < at {
                assert(precedes(before[i], before[j - 1]));
            } else if i == at {
                assert(precedes(key@, before[at as int]));
                if j - 1 > at {
                    assert(precedes(before[at as int], before[j - 1]));
                    lemma_transitive(key@, before[at as int], before[j - 1]);
                }
            } else {
                assert(precedes(before[i - 1], before[j - 1]));
            }
        }
        assert forall|k: Seq<char>| #[trigger] after.contains(k) <==> (before.contains(k) || k
            == key@) by {
            if after.contains(k) {
                let i = choose|i: int| 0 <= i < after.len() && after[i] == k;
                if i < at {
                    assert(before[i] == k);
                } else if i > at {
                    assert(before[i - 1] == k);
                }
            }
            if before.contains(k) {
                let i = choose|i: int| 0 <= i < before.len() && before[i] == k;
                if i < at {
                    assert(after[i] == k);
                } else {
                    assert(after[i + 1] == k);
                }
            }
            if k == key@ {
                assert(after[at as int] == k);
            }
        }
    }
}

/// The member names of an object, in ascending order.
pub fn sorted_keys(object: &JsonObject) -> (r: Vec<String>)
    ensures
        lists_keys(text::views(r@), object@),
        text::views(r@) == key_list(object@),
{
    let mut keys: Vec<String> = Vec::new();
    let mut i: usize = 0;
    while i < object.entries.len()
        invariant
            i <= object.entries@.len(),
            lists_keys(text::views(keys@), json::fields_of(object.entries@.take(i as int))),
        decreases object.entries@.len() - i,
    {
        let ghost head = object.entries@.take(i + 1);
        assert(head.drop_last() =~= object.entries@.take(i as int));
        insert_key(&mut keys, object.entries[i].0.as_str());
        i += 1;
    }
    assert(object.entries@.take(i as int) =~= object.entries@);
    proof {
        let all = key_list(object@);
        assert(lists_keys(all, object@));
        assert forall|k: Seq<char>| text::views(keys@).contains(k) <==> all.contains(k) by {
            assert(object@.contains_key(k) == all.contains(k));
        }
        lemma_one_list(text::views(keys@), all);
    }
    keys
}

} // verus!
