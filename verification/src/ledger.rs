//! Growable count vectors indexed by resource handle.
//!
//! A vector may be shorter than the number of handles in use: an entry beyond
//! its length counts as zero, and writing to such an entry first extends the
//! vector with zeros.
use vstd::prelude::*;

verus! {

/// The count that `v` records for handle `h`: zero beyond the vector's length.
pub open spec fn entry(v: Seq<usize>, h: int) -> int {
    if 0 <= h < v.len() {
        v[h] as int
    } else {
        0
    }
}

/// `v` extended with zeros so that index `h` exists; `v` itself when it does.
pub open spec fn grown(v: Seq<usize>, h: int) -> Seq<usize> {
    if h < v.len() {
        v
    } else {
        v + Seq::new((h + 1 - v.len()) as nat, |i: int| 0usize)
    }
}

/// `v` grown to hold `h`, with the entry at `h` replaced by `value`.
pub open spec fn with_entry(v: Seq<usize>, h: int, value: usize) -> Seq<usize> {
    grown(v, h).update(h, value)
}

/// The entry at `h` after adding (`add`) or subtracting `delta`.
pub open spec fn shifted(v: Seq<usize>, h: int, delta: int, add: bool) -> int {
    if add {
        entry(v, h) + delta
    } else {
        entry(v, h) - delta
    }
}

/// Writing one entry leaves every other handle's count as it was.
pub proof fn lemma_with_entry(v: Seq<usize>, h: int, value: usize, k: int)
    requires
        0 <= h,
    ensures
        entry(with_entry(v, h, value), k) == if k == h { value as int } else { entry(v, k) },
        with_entry(v, h, value).len() == if h < v.len() { v.len() as int } else { h + 1 },
{
}

/// Extends `v` with zeros until index `h` exists.
pub fn grow(v: &mut Vec<usize>, h: usize)
    requires
        h < usize::MAX,
    ensures
        final(v)@ == grown(old(v)@, h as int),
{
    while v.len() <= h
        invariant
            h < usize::MAX,
            old(v)@.len() <= v@.len(),
            v@.len() <= h + 1 || v@.len() == old(v)@.len(),
            v@.subrange(0, old(v)@.len() as int) == old(v)@,
            forall|i: int| old(v)@.len() <= i < v@.len() ==> v@[i] == 0usize,
        decreases h + 1 - v.len(),
    {
        v.push(0);
    }
    assert(v@ =~= grown(old(v)@, h as int));
}

/// Records `delta` at handle `h`: grows the vector if `h` is out of range, then
/// adds `delta` to the entry or subtracts it.
pub fn record(v: &mut Vec<usize>, h: usize, delta: usize, add: bool)
    requires
        h < usize::MAX,
        0 <= shifted(old(v)@, h as int, delta as int, add) <= usize::MAX,
    ensures
        final(v)@ == with_entry(
            old(v)@,
            h as int,
            shifted(old(v)@, h as int, delta as int, add) as usize,
        ),
{
    grow(v, h);
    let cur: usize = v[h];
    if add {
        v.set(h, cur + delta);
    } else {
        v.set(h, cur - delta);
    }
}

/// Sets the entry at `h` to `value`; the vector grows with zeros if `h` is out
/// of range.
pub fn set_entry(v: &mut Vec<usize>, h: usize, value: usize)
    requires
        h < usize::MAX,
    ensures
        final(v)@ == with_entry(old(v)@, h as int, value),
{
    grow(v, h);
    v.set(h, value);
}

/// A copy of `v`.
pub fn copy_of(v: &Vec<usize>) -> (copy: Vec<usize>)
    ensures
        copy@ == v@,
{
    let mut copy: Vec<usize> = Vec::new();
    let mut i: usize = 0;
    while i < v.len()
        invariant
            i <= v.len(),
            copy@ == v@.subrange(0, i as int),
        decreases v.len() - i,
    {
        copy.push(v[i]);
        assert(copy@ =~= v@.subrange(0, i + 1));
        i += 1;
    }
    assert(copy@ =~= v@);
    copy
}

/// The count that `v` records for handle `h`: zero beyond the vector's length.
pub fn read_entry(v: &Vec<usize>, h: usize) -> (count: usize)
    ensures
        count == entry(v@, h as int),
{
    if h < v.len() {
        v[h]
    } else {
        0
    }
}

} // verus!
