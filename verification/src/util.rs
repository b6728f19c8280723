//! Small verified helpers on vectors and slices.

use vstd::prelude::*;

verus! {

/// Appends a copy of every element of `src` to `dst`.
pub fn extend_copy<T: Copy>(dst: &mut Vec<T>, src: &[T])
    ensures
        final(dst)@ == old(dst)@ + src@,
{
    let ghost start = dst@;
    let mut i: usize = 0;
    while i < src.len()
        invariant
            i <= src@.len(),
            dst@ == start + src@.take(i as int),
        decreases src@.len() - i,
    {
        dst.push(src[i]);
        i = i + 1;
        proof {
            assert(dst@ =~= start + src@.take(i as int));
        }
    }
    proof {
        assert(src@.take(src@.len() as int) =~= src@);
    }
}

/// Appends the concatenation of `parts` to `dst`.
pub fn extend_flatten<T: Copy>(dst: &mut Vec<T>, parts: &Vec<Vec<T>>)
    ensures
        final(dst)@ == old(dst)@ + parts@.map_values(|v: Vec<T>| v@).flatten(),
{
    let ghost start = dst@;
    let ghost pv = parts@.map_values(|v: Vec<T>| v@);
    let mut i: usize = 0;
    while i < parts.len()
        invariant
            i <= parts@.len(),
            pv == parts@.map_values(|v: Vec<T>| v@),
            dst@ == start + pv.take(i as int).flatten(),
        decreases parts@.len() - i,
    {
        extend_copy(dst, parts[i].as_slice());
        proof {
            assert(pv.take(i + 1) =~= pv.take(i as int).push(pv[i as int]));
            pv.take(i as int).lemma_flatten_push(pv[i as int]);
            assert(dst@ =~= start + pv.take(i + 1).flatten());
        }
        i = i + 1;
    }
    proof {
        assert(pv.take(parts@.len() as int) =~= pv);
    }
}

} // verus!
