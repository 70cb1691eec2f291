//! Operations on the arrays that hold one slot per line, and on the small
//! sets of line numbers that the fold animation keeps.

use vstd::prelude::*;

verus! {

/// `s` without the slots `start..start + count`, as far as they exist.
pub open spec fn spec_without<T>(s: Seq<T>, start: int, count: int) -> Seq<T> {
    if start >= s.len() {
        s
    } else if start + count >= s.len() {
        s.subrange(0, start)
    } else {
        s.subrange(0, start) + s.subrange(start + count, s.len() as int)
    }
}

/// `s` with `count` slots that hold `value` put in front of slot `at`, or at
/// the end where `s` is shorter.
pub open spec fn spec_with_fresh<T>(s: Seq<T>, at: int, count: int, value: T) -> Seq<T> {
    let at = if at > s.len() { s.len() as int } else { at };
    s.subrange(0, at) + Seq::new(count as nat, |i: int| value) + s.subrange(at, s.len() as int)
}

/// `s` cut or filled up with `value` to the length `n`.
pub open spec fn spec_fitted<T>(s: Seq<T>, n: int, value: T) -> Seq<T> {
    if s.len() >= n {
        s.subrange(0, n)
    } else {
        s + Seq::new((n - s.len()) as nat, |i: int| value)
    }
}

/// The slots of `v`, each as a sequence.
pub open spec fn views<T>(v: Seq<Vec<T>>) -> Seq<Seq<T>> {
    Seq::new(v.len(), |i: int| v[i]@)
}

/// Removes the slots `start..start + count`, as far as they exist.
pub fn remove_slots<T>(v: &mut Vec<T>, start: usize, count: usize)
    ensures
        final(v)@ == spec_without(old(v)@, start as int, count as int),
{
    let mut k: usize = 0;
    while k < count && start < v.len()
        invariant
            k <= count,
            v@ =~= spec_without(old(v)@, start as int, k as int),
            start >= v.len() ==> v@ =~= spec_without(old(v)@, start as int, count as int),
        decreases count - k,
    {
        v.remove(start);
        k += 1;
    }
}

/// Removes the slots `start..start + count` of an array of sequences.
pub fn remove_nested_slots<T>(v: &mut Vec<Vec<T>>, start: usize, count: usize)
    ensures
        views(final(v)@) =~= spec_without(views(old(v)@), start as int, count as int),
        final(v)@ == spec_without(old(v)@, start as int, count as int),
{
    remove_slots(v, start, count);
}

/// Puts `count` slots that hold `value` in front of slot `at`.
pub fn insert_slots<T: Copy>(v: &mut Vec<T>, at: usize, count: usize, value: T)
    ensures
        final(v)@ == spec_with_fresh(old(v)@, at as int, count as int, value),
{
    let at = if at > v.len() { v.len() } else { at };
    let mut k: usize = 0;
    while k < count
        invariant
            k <= count,
            at <= old(v)@.len(),
            v@ =~= spec_with_fresh(old(v)@, at as int, k as int, value),
        decreases count - k,
    {
        v.insert(at, value);
        k += 1;
    }
}

/// Puts `count` empty slots in front of slot `at`.
pub fn insert_empty_slots<T>(v: &mut Vec<Vec<T>>, at: usize, count: usize)
    ensures
        views(final(v)@) =~= spec_with_fresh(views(old(v)@), at as int, count as int, Seq::<T>::empty()),
        final(v)@.len() == old(v)@.len() + count,
        forall|i: int|
            0 <= i < final(v)@.len() ==> {
                let at = if at > old(v)@.len() { old(v)@.len() as int } else { at as int };
                if i < at {
                    (#[trigger] final(v)@[i]) == old(v)@[i]
                } else if i < at + count {
                    final(v)@[i]@ == Seq::<T>::empty()
                } else {
                    final(v)@[i] == old(v)@[i - count]
                }
            },
{
    let at = if at > v.len() { v.len() } else { at };
    let mut k: usize = 0;
    while k < count
        invariant
            k <= count,
            at <= old(v)@.len(),
            v@.len() == old(v)@.len() + k,
            forall|i: int|
                0 <= i < v@.len() ==> if i < at {
                    (#[trigger] v@[i]) == old(v)@[i]
                } else if i < at + k {
                    v@[i]@ == Seq::<T>::empty()
                } else {
                    v@[i] == old(v)@[i - k]
                },
        decreases count - k,
    {
        v.insert(at, Vec::new());
        k += 1;
    }
}

/// Cuts `v` or fills it up with `value` to the length `n`.
pub fn fit_slots<T: Copy>(v: &mut Vec<T>, n: usize, value: T)
    ensures
        final(v)@ == spec_fitted(old(v)@, n as int, value),
        final(v)@.len() == n,
{
    if v.len() >= n {
        v.truncate(n);
    } else {
        while v.len() < n
            invariant
                old(v)@.len() <= v@.len() <= n,
                v@ =~= old(v)@ + Seq::new((v@.len() - old(v)@.len()) as nat, |i: int| value),
            decreases n - v@.len(),
        {
            v.push(value);
        }
    }
}

/// Cuts `v` or fills it up with empty slots to the length `n`.
pub fn fit_empty_slots<T>(v: &mut Vec<Vec<T>>, n: usize)
    ensures
        views(final(v)@) =~= spec_fitted(views(old(v)@), n as int, Seq::<T>::empty()),
        final(v)@.len() == n,
        forall|i: int|
            0 <= i < n ==> if i < old(v)@.len() {
                (#[trigger] final(v)@[i]) == old(v)@[i]
            } else {
                final(v)@[i]@ == Seq::<T>::empty()
            },
{
    if v.len() >= n {
        v.truncate(n);
    } else {
        while v.len() < n
            invariant
                old(v)@.len() <= v@.len() <= n,
                forall|i: int|
                    0 <= i < v@.len() ==> if i < old(v)@.len() {
                        (#[trigger] v@[i]) == old(v)@[i]
                    } else {
                        v@[i]@ == Seq::<T>::empty()
                    },
            decreases n - v@.len(),
        {
            v.push(Vec::new());
        }
    }
}

/// No line number occurs twice in `s`.
pub open spec fn distinct(s: Seq<usize>) -> bool {
    forall|i: int, j: int| 0 <= i < j < s.len() ==> s[i] != s[j]
}

/// Whether `x` occurs in `v`.
pub fn holds(v: &Vec<usize>, x: usize) -> (r: bool)
    ensures
        r == v@.contains(x),
{
    let mut i: usize = 0;
    while i < v.len()
        invariant
            i <= v.len(),
            forall|j: int| 0 <= j < i ==> v@[j] != x,
        decreases v.len() - i,
    {
        if v[i] == x {
            return true;
        }
        i += 1;
    }
    false
}

/// Takes `x` out of the set `v`.
pub fn take_out(v: &mut Vec<usize>, x: usize)
    requires
        distinct(old(v)@),
    ensures
        distinct(final(v)@),
        forall|y: usize| final(v)@.contains(y) <==> (y != x && old(v)@.contains(y)),
{
    let mut i: usize = 0;
    while i < v.len()
        invariant
            i <= v.len(),
            v@ == old(v)@,
            distinct(v@),
            forall|j: int| 0 <= j < i ==> v@[j] != x,
        decreases v.len() - i,
    {
        if v[i] == x {
            v.remove(i);
            proof {
                let a = old(v)@;
                let b = v@;
                assert(a[i as int] == x);
                assert(b =~= a.remove(i as int));
                assert forall|y: usize| b.contains(y) <==> (y != x && a.contains(y)) by {
                    if b.contains(y) {
                        let k = choose|k: int| 0 <= k < b.len() && b[k] == y;
                        if k < i {
                            assert(a[k] == y);
                        } else {
                            assert(a[k + 1] == y);
                        }
                    }
                    if y != x && a.contains(y) {
                        let k = choose|k: int| 0 <= k < a.len() && a[k] == y;
                        if k < i {
                            assert(b[k] == y);
                        } else {
                            assert(b[k - 1] == y);
                        }
                    }
                }
            }
            return ;
        }
        i += 1;
    }
}

/// Puts `x` into the set `v`.
pub fn put_in(v: &mut Vec<usize>, x: usize)
    requires
        distinct(old(v)@),
    ensures
        distinct(final(v)@),
        forall|y: usize| final(v)@.contains(y) <==> (y == x || old(v)@.contains(y)),
{
    if !holds(v, x) {
        v.push(x);
        proof {
            let a = old(v)@;
            let b = v@;
            assert(b[a.len() as int] == x);
            assert forall|y: usize| b.contains(y) <==> (y == x || a.contains(y)) by {
                if a.contains(y) {
                    let k = choose|k: int| 0 <= k < a.len() && a[k] == y;
                    assert(b[k] == y);
                }
                if b.contains(y) && y != x {
                    let k = choose|k: int| 0 <= k < b.len() && b[k] == y;
                    assert(a[k] == y);
                }
            }
        }
    }
}

} // verus!
