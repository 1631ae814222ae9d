//! The ledger's positions are held as a list of `(owner, position)` entries
//! with distinct owners. This module gives such a list its map model and
//! proves how the list operations that the ledger uses move that model.
use vstd::prelude::*;
use crate::types::{AccountId, StakingPosition};

verus! {

pub type Entries = Seq<(AccountId, StakingPosition)>;

/// No owner occurs in two entries.
pub open spec fn owners_distinct(s: Entries) -> bool {
    forall|i: int, j: int| 0 <= i < s.len() && 0 <= j < s.len() && i != j ==> s[i].0 != s[j].0
}

/// Some entry belongs to `k`.
pub open spec fn has_owner(s: Entries, k: AccountId) -> bool {
    exists|i: int| 0 <= i < s.len() && #[trigger] s[i].0 == k
}

/// The map from each owner to the position of its entry.
pub open spec fn entries_map(s: Entries) -> Map<AccountId, StakingPosition> {
    Map::new(
        |k: AccountId| has_owner(s, k),
        |k: AccountId| s[choose|i: int| 0 <= i < s.len() && #[trigger] s[i].0 == k].1,
    )
}

pub proof fn lemma_lookup(s: Entries, i: int)
    requires
        owners_distinct(s),
        0 <= i < s.len(),
    ensures
        entries_map(s).contains_key(s[i].0),
        entries_map(s)[s[i].0] == s[i].1,
{
    let k = s[i].0;
    assert(has_owner(s, k));
    let j = choose|j: int| 0 <= j < s.len() && #[trigger] s[j].0 == k;
    assert(j == i);
}

pub proof fn lemma_update(s: Entries, i: int, p: StakingPosition)
    requires
        owners_distinct(s),
        0 <= i < s.len(),
    ensures
        owners_distinct(s.update(i, (s[i].0, p))),
        entries_map(s.update(i, (s[i].0, p))) == entries_map(s).insert(s[i].0, p),
{
    let t = s.update(i, (s[i].0, p));
    let m = entries_map(s).insert(s[i].0, p);
    assert forall|k: AccountId| has_owner(t, k) <==> m.contains_key(k) by {
        if has_owner(s, k) {
            let j = choose|j: int| 0 <= j < s.len() && #[trigger] s[j].0 == k;
            assert(t[j].0 == k);
        }
        if has_owner(t, k) {
            let j = choose|j: int| 0 <= j < t.len() && #[trigger] t[j].0 == k;
            assert(s[j].0 == k);
        }
    }
    assert forall|k: AccountId| #[trigger] m.contains_key(k) implies entries_map(t)[k] == m[k] by {
        let j = choose|j: int| 0 <= j < t.len() && #[trigger] t[j].0 == k;
        assert(has_owner(t, k));
        lemma_lookup(t, j);
        if j != i {
            lemma_lookup(s, j);
        }
    }
    assert(entries_map(t) =~= m);
}

pub proof fn lemma_push(s: Entries, k: AccountId, p: StakingPosition)
    requires
        owners_distinct(s),
        !entries_map(s).contains_key(k),
    ensures
        owners_distinct(s.push((k, p))),
        entries_map(s.push((k, p))) == entries_map(s).insert(k, p),
{
    let t = s.push((k, p));
    let m = entries_map(s).insert(k, p);
    assert forall|i: int| 0 <= i < s.len() implies s[i].0 != k by {
        assert(!has_owner(s, k));
    }
    assert forall|q: AccountId| has_owner(t, q) <==> m.contains_key(q) by {
        if has_owner(s, q) {
            let j = choose|j: int| 0 <= j < s.len() && #[trigger] s[j].0 == q;
            assert(t[j].0 == q);
        }
        if q == k {
            assert(t[s.len() as int].0 == q);
        }
        if has_owner(t, q) && q != k {
            let j = choose|j: int| 0 <= j < t.len() && #[trigger] t[j].0 == q;
            assert(s[j].0 == q);
        }
    }
    assert forall|q: AccountId| #[trigger] m.contains_key(q) implies entries_map(t)[q] == m[q] by {
        let j = choose|j: int| 0 <= j < t.len() && #[trigger] t[j].0 == q;
        assert(has_owner(t, q));
        lemma_lookup(t, j);
        if j < s.len() {
            lemma_lookup(s, j);
        }
    }
    assert(entries_map(t) =~= m);
}

pub proof fn lemma_remove(s: Entries, i: int)
    requires
        owners_distinct(s),
        0 <= i < s.len(),
    ensures
        owners_distinct(s.remove(i)),
        entries_map(s.remove(i)) == entries_map(s).remove(s[i].0),
{
    let t = s.remove(i);
    let m = entries_map(s).remove(s[i].0);
    assert forall|a: int, b: int|
        0 <= a < t.len() && 0 <= b < t.len() && a != b implies t[a].0 != t[b].0 by {
        let sa = if a < i { a } else { a + 1 };
        let sb = if b < i { b } else { b + 1 };
        assert(t[a] == s[sa]);
        assert(t[b] == s[sb]);
    }
    assert forall|q: AccountId| has_owner(t, q) <==> m.contains_key(q) by {
        if has_owner(s, q) && q != s[i].0 {
            let j = choose|j: int| 0 <= j < s.len() && #[trigger] s[j].0 == q;
            if j < i {
                assert(t[j].0 == q);
            } else {
                assert(t[j - 1].0 == q);
            }
        }
        if has_owner(t, q) {
            let j = choose|j: int| 0 <= j < t.len() && #[trigger] t[j].0 == q;
            let sj = if j < i { j } else { j + 1 };
            assert(s[sj].0 == q);
        }
    }
    assert forall|q: AccountId| #[trigger] m.contains_key(q) implies entries_map(t)[q] == m[q] by {
        let j = choose|j: int| 0 <= j < t.len() && #[trigger] t[j].0 == q;
        assert(has_owner(t, q));
        lemma_lookup(t, j);
        let sj = if j < i { j } else { j + 1 };
        assert(s[sj] == t[j]);
        lemma_lookup(s, sj);
    }
    assert(entries_map(t) =~= m);
}

} // verus!
