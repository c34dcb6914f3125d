//! Small helpers shared by the components: saturating counters and
//! id-sequence maintenance for the cross-indexes.

use vstd::prelude::*;

verus! {

/// A statistics counter never wraps; at the top of its range it stays put.
pub open spec fn sat_inc(x: u64) -> u64 {
    if x == u64::MAX {
        u64::MAX
    } else {
        (x + 1) as u64
    }
}

/// Saturating addition of a whole count, the effect of `k` single
/// [`sat_inc`] steps.
pub open spec fn sat_add(x: u64, k: nat) -> u64 {
    if x + k > u64::MAX {
        u64::MAX
    } else {
        (x + k) as u64
    }
}

pub broadcast proof fn lemma_sat_add_zero(x: u64)
    ensures
        #[trigger] sat_add(x, 0) == x,
{
}

/// Increments a counter, saturating at the top of the range.
pub fn counter_inc(x: u64) -> (r: u64)
    ensures
        r == sat_inc(x),
{
    if x == u64::MAX {
        u64::MAX
    } else {
        x + 1
    }
}

/// What remains of an id list once every occurrence of `target` is dropped,
/// the order of the rest kept.
pub open spec fn seq_without(s: Seq<u64>, target: u64) -> Seq<u64>
    decreases s.len(),
{
    if s.len() == 0 {
        Seq::empty()
    } else {
        let rest = seq_without(s.drop_last(), target);
        if s.last() == target {
            rest
        } else {
            rest.push(s.last())
        }
    }
}

/// Membership and duplicate-freedom of [`seq_without`], spelled out.
pub proof fn lemma_seq_without(s: Seq<u64>, target: u64)
    ensures
        forall|y: u64| seq_without(s, target).contains(y) <==> s.contains(y) && y != target,
        s.no_duplicates() ==> seq_without(s, target).no_duplicates(),
        seq_without(s, target).len() <= s.len(),
        !s.contains(target) ==> seq_without(s, target) == s,
    decreases s.len(),
{
    let f = seq_without(s, target);
    if s.len() == 0 {
        assert(forall|y: u64| !s.contains(y));
    } else {
        let init = s.drop_last();
        let last = s.last();
        lemma_seq_without(init, target);
        let fi = seq_without(init, target);
        assert forall|y: u64| #[trigger] f.contains(y) implies s.contains(y) && y != target by {
            let j = choose|j: int| 0 <= j < f.len() && f[j] == y;
            if last != target && j == f.len() - 1 {
                assert(y == last);
                assert(s[s.len() - 1] == y);
            } else {
                assert(fi[j] == y);
                assert(fi.contains(y));
                assert(init.contains(y));
                let i = choose|i: int| 0 <= i < init.len() && init[i] == y;
                assert(s[i] == y);
            }
        }
        assert forall|y: u64| s.contains(y) && y != target implies #[trigger] f.contains(y) by {
            let i = choose|i: int| 0 <= i < s.len() && s[i] == y;
            if i == s.len() - 1 {
                assert(y == last);
                assert(f[f.len() - 1] == y);
            } else {
                assert(init[i] == y);
                assert(init.contains(y));
                assert(fi.contains(y));
                let j = choose|j: int| 0 <= j < fi.len() && fi[j] == y;
                assert(f[j] == y);
            }
        }
        if s.no_duplicates() {
            assert(forall|i: int, j: int|
                0 <= i < j < init.len() ==> init[i] == s[i] && init[j] == s[j]);
            assert(init.no_duplicates());
            if last != target {
                assert forall|i: int, j: int| 0 <= i < j < f.len() implies f[i] != f[j] by {
                    if j == f.len() - 1 {
                        assert(f[j] == last);
                        assert(fi.contains(fi[i]));
                        assert(init.contains(f[i]));
                        let k = choose|k: int| 0 <= k < init.len() && init[k] == f[i];
                        assert(s[k] == f[i] && s[s.len() - 1] == last);
                    } else {
                        assert(f[i] == fi[i] && f[j] == fi[j]);
                    }
                }
            }
        }
        if !s.contains(target) {
            assert(forall|i: int| 0 <= i < s.len() ==> s[i] != target);
            assert(forall|i: int| 0 <= i < init.len() ==> init[i] != target);
            assert(!init.contains(target));
            assert(last != target);
            assert(f == fi.push(last));
            assert(f =~= s);
        }
    }
}

/// Copies `v` with every occurrence of `target` removed, keeping the order
/// of the rest.
pub fn vec_without(v: &Vec<u64>, target: u64) -> (out: Vec<u64>)
    ensures
        out@ == seq_without(v@, target),
{
    let mut out: Vec<u64> = Vec::new();
    let mut i: usize = 0;
    while i < v.len()
        invariant
            i <= v.len(),
            out@ == seq_without(v@.take(i as int), target),
        decreases v.len() - i,
    {
        proof {
            let t = v@.take(i + 1);
            assert(t.drop_last() =~= v@.take(i as int));
            assert(t.last() == v@[i as int]);
        }
        if v[i] != target {
            out.push(v[i]);
        }
        i += 1;
    }
    proof {
        assert(v@.take(v@.len() as int) =~= v@);
    }
    out
}


/// Appending one id extends membership by exactly that id.
pub broadcast proof fn lemma_push_contains(s: Seq<u64>, x: u64, y: u64)
    ensures
        #[trigger] s.push(x).contains(y) <==> (s.contains(y) || y == x),
{
    if s.push(x).contains(y) {
        let j = choose|j: int| 0 <= j < s.push(x).len() && s.push(x)[j] == y;
        if j < s.len() {
            assert(s[j] == y);
        }
    }
    if s.contains(y) {
        let j = choose|j: int| 0 <= j < s.len() && s[j] == y;
        assert(s.push(x)[j] == y);
    }
    if y == x {
        assert(s.push(x)[s.len() as int] == y);
    }
}

/// Appending an id not yet present keeps an id list duplicate-free.
pub proof fn lemma_push_no_dup(s: Seq<u64>, x: u64)
    requires
        s.no_duplicates(),
        !s.contains(x),
    ensures
        s.push(x).no_duplicates(),
{
    assert forall|i: int, j: int| 0 <= i < j < s.push(x).len() implies s.push(x)[i] != s.push(
        x,
    )[j] by {
        if j == s.len() {
            assert(s.contains(s[i]));
        }
    }
}


/// Byte-exact comparison of two byte strings.
pub fn bytes_eq(a: &Vec<u8>, b: &Vec<u8>) -> (r: bool)
    ensures
        r == (a@ == b@),
{
    if a.len() != b.len() {
        return false;
    }
    let mut i: usize = 0;
    while i < a.len()
        invariant
            a@.len() == b@.len(),
            i <= a@.len(),
            forall|j: int| 0 <= j < i ==> a@[j] == b@[j],
        decreases a@.len() - i,
    {
        if a[i] != b[i] {
            return false;
        }
        i += 1;
    }
    proof {
        assert(a@ =~= b@);
    }
    true
}


pub broadcast proof fn lemma_sat_add_shift(x: u64, k: nat)
    ensures
        #[trigger] sat_add(sat_inc(x), k) == sat_add(x, k + 1),
{
}

} // verus!
