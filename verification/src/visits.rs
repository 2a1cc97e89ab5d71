//! The accounting model shared by `disk usage` and `fs tree`.
//!
//! A walk records, in order, every entry it steps onto (the visit log). An entry
//! counts towards the size totals unless an earlier entry of the same sort —
//! directory, or anything else — had the same `(st_dev, st_ino)`: hard-linked file
//! content is counted once, and a directory reached a second time is not counted
//! (nor descended into) again.

use vstd::prelude::*;
use crate::entry::{EntryMeta, cap};

verus! {

/// Whether an earlier visit of the same sort had the same identity as visit `i`.
pub open spec fn seen_before(log: Seq<EntryMeta>, i: int) -> bool {
    exists|j: int|
        0 <= j < i && #[trigger] log[j].spec_is_dir() == log[i].spec_is_dir() && log[j].spec_key()
            == log[i].spec_key()
}

/// Whether visit `i` counts towards the totals.
pub open spec fn counted(log: Seq<EntryMeta>, i: int) -> bool {
    !seen_before(log, i)
}

/// What visit `i` adds: allocated bytes, or apparent bytes when `apparent`.
pub open spec fn contribution(log: Seq<EntryMeta>, i: int, apparent: bool) -> int {
    if counted(log, i) {
        if apparent {
            log[i].len as int
        } else {
            log[i].spec_allocated() as int
        }
    } else {
        0
    }
}

/// The sum of the contributions of visits `lo..hi`.
pub open spec fn visit_sum(log: Seq<EntryMeta>, lo: int, hi: int, apparent: bool) -> int
    decreases hi - lo,
{
    if hi <= lo {
        0
    } else {
        visit_sum(log, lo, hi - 1, apparent) + contribution(log, hi - 1, apparent)
    }
}

/// The capped total of visits `lo..hi`.
pub open spec fn capped_sum(log: Seq<EntryMeta>, lo: int, hi: int, apparent: bool) -> u64 {
    cap(visit_sum(log, lo, hi, apparent))
}

/// Identities of the directories visited.
pub open spec fn dir_keys(log: Seq<EntryMeta>) -> Set<u128> {
    Set::new(
        |k: u128|
            exists|j: int| 0 <= j < log.len() && #[trigger] log[j].spec_is_dir() && log[j].spec_key() == k,
    )
}

/// Identities of the non-directories visited.
pub open spec fn other_keys(log: Seq<EntryMeta>) -> Set<u128> {
    Set::new(
        |k: u128|
            exists|j: int| 0 <= j < log.len() && !#[trigger] log[j].spec_is_dir() && log[j].spec_key() == k,
    )
}

/// The identities already used by entries of the same sort as `m`.
pub open spec fn keys_like(log: Seq<EntryMeta>, m: EntryMeta) -> Set<u128> {
    if m.spec_is_dir() {
        dir_keys(log)
    } else {
        other_keys(log)
    }
}

pub proof fn lemma_keys_push(log: Seq<EntryMeta>, m: EntryMeta)
    ensures
        dir_keys(log.push(m)) == (if m.spec_is_dir() {
            dir_keys(log).insert(m.spec_key())
        } else {
            dir_keys(log)
        }),
        other_keys(log.push(m)) == (if m.spec_is_dir() {
            other_keys(log)
        } else {
            other_keys(log).insert(m.spec_key())
        }),
{
    let l2 = log.push(m);
    let n = log.len() as int;
    assert forall|k: u128| #[trigger] dir_keys(l2).contains(k) == (if m.spec_is_dir() {
        dir_keys(log).insert(m.spec_key())
    } else {
        dir_keys(log)
    }).contains(k) by {
        if dir_keys(l2).contains(k) {
            let j = choose|j: int| 0 <= j < l2.len() && #[trigger] l2[j].spec_is_dir() && l2[j].spec_key() == k;
            if j < n {
                assert(log[j] == l2[j]);
            }
        }
        if dir_keys(log).contains(k) {
            let j = choose|j: int| 0 <= j < log.len() && #[trigger] log[j].spec_is_dir() && log[j].spec_key() == k;
            assert(l2[j] == log[j]);
        }
        if m.spec_is_dir() && k == m.spec_key() {
            assert(l2[n] == m);
        }
    }
    assert forall|k: u128| #[trigger] other_keys(l2).contains(k) == (if m.spec_is_dir() {
        other_keys(log)
    } else {
        other_keys(log).insert(m.spec_key())
    }).contains(k) by {
        if other_keys(l2).contains(k) {
            let j = choose|j: int| 0 <= j < l2.len() && !#[trigger] l2[j].spec_is_dir() && l2[j].spec_key() == k;
            if j < n {
                assert(log[j] == l2[j]);
            }
        }
        if other_keys(log).contains(k) {
            let j = choose|j: int| 0 <= j < log.len() && !#[trigger] log[j].spec_is_dir() && log[j].spec_key() == k;
            assert(l2[j] == log[j]);
        }
        if !m.spec_is_dir() && k == m.spec_key() {
            assert(l2[n] == m);
        }
    }
    assert(dir_keys(l2) =~= (if m.spec_is_dir() {
        dir_keys(log).insert(m.spec_key())
    } else {
        dir_keys(log)
    }));
    assert(other_keys(l2) =~= (if m.spec_is_dir() {
        other_keys(log)
    } else {
        other_keys(log).insert(m.spec_key())
    }));
}

/// The newly pushed visit counts exactly when no earlier visit of its sort had
/// its identity.
pub proof fn lemma_counted_last(log: Seq<EntryMeta>, m: EntryMeta)
    ensures
        counted(log.push(m), log.len() as int) == !keys_like(log, m).contains(m.spec_key()),
{
    let l2 = log.push(m);
    let n = log.len() as int;
    assert(l2[n] == m);
    if seen_before(l2, n) {
        let j = choose|j: int|
            0 <= j < n && #[trigger] l2[j].spec_is_dir() == l2[n].spec_is_dir() && l2[j].spec_key()
                == l2[n].spec_key();
        assert(log[j] == l2[j]);
        if m.spec_is_dir() {
            assert(log[j].spec_is_dir());
            assert(dir_keys(log).contains(m.spec_key()));
        } else {
            assert(!log[j].spec_is_dir());
            assert(other_keys(log).contains(m.spec_key()));
        }
    }
    if keys_like(log, m).contains(m.spec_key()) {
        if m.spec_is_dir() {
            let j = choose|j: int| 0 <= j < log.len() && #[trigger] log[j].spec_is_dir() && log[j].spec_key() == m.spec_key();
            assert(l2[j] == log[j]);
            assert(seen_before(l2, n));
        } else {
            let j = choose|j: int| 0 <= j < log.len() && !#[trigger] log[j].spec_is_dir() && log[j].spec_key() == m.spec_key();
            assert(l2[j] == log[j]);
            assert(seen_before(l2, n));
        }
    }
}

/// Appending a visit leaves the contributions of earlier visits unchanged.
pub proof fn lemma_contribution_stable(log: Seq<EntryMeta>, m: EntryMeta, i: int, apparent: bool)
    requires
        0 <= i < log.len(),
    ensures
        contribution(log.push(m), i, apparent) == contribution(log, i, apparent),
{
    let l2 = log.push(m);
    assert(l2[i] == log[i]);
    if seen_before(l2, i) {
        let j = choose|j: int|
            0 <= j < i && #[trigger] l2[j].spec_is_dir() == l2[i].spec_is_dir() && l2[j].spec_key()
                == l2[i].spec_key();
        assert(log[j] == l2[j]);
        assert(seen_before(log, i));
    }
    if seen_before(log, i) {
        let j = choose|j: int|
            0 <= j < i && #[trigger] log[j].spec_is_dir() == log[i].spec_is_dir() && log[j].spec_key()
                == log[i].spec_key();
        assert(log[j] == l2[j]);
        assert(seen_before(l2, i));
    }
}

/// Appending a visit leaves sums over earlier visits unchanged.
pub proof fn lemma_sum_stable(log: Seq<EntryMeta>, m: EntryMeta, lo: int, hi: int, apparent: bool)
    requires
        0 <= lo,
        hi <= log.len(),
    ensures
        visit_sum(log.push(m), lo, hi, apparent) == visit_sum(log, lo, hi, apparent),
    decreases hi - lo,
{
    if hi > lo {
        lemma_sum_stable(log, m, lo, hi - 1, apparent);
        lemma_contribution_stable(log, m, hi - 1, apparent);
    }
}

/// Sums over adjacent ranges add up.
pub proof fn lemma_sum_split(log: Seq<EntryMeta>, lo: int, mid: int, hi: int, apparent: bool)
    requires
        lo <= mid <= hi,
    ensures
        visit_sum(log, lo, hi, apparent) == visit_sum(log, lo, mid, apparent) + visit_sum(
            log,
            mid,
            hi,
            apparent,
        ),
    decreases hi - mid,
{
    if hi > mid {
        lemma_sum_split(log, lo, mid, hi - 1, apparent);
    }
}

/// Contributions and sums are never negative.
pub proof fn lemma_sum_nonneg(log: Seq<EntryMeta>, lo: int, hi: int, apparent: bool)
    ensures
        visit_sum(log, lo, hi, apparent) >= 0,
    decreases hi - lo,
{
    if hi > lo {
        lemma_sum_nonneg(log, lo, hi - 1, apparent);
    }
}

} // verus!

verus! {

/// A one-visit range sums to that visit's contribution, which fits in `u64`.
pub proof fn lemma_sum_one(log: Seq<EntryMeta>, i: int, apparent: bool)
    ensures
        visit_sum(log, i, i + 1, apparent) == contribution(log, i, apparent),
        0 <= contribution(log, i, apparent) <= u64::MAX,
        capped_sum(log, i, i + 1, apparent) == contribution(log, i, apparent),
{
    assert(visit_sum(log, i, i, apparent) == 0);
}

} // verus!
