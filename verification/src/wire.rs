//! Byte-vector helpers shared by the command encoders and decoders.

use vstd::prelude::*;
use crate::scheduler::remove_node;

verus! {

/// A copy of `bytes` from index `start` to the end.
pub(crate) fn suffix(bytes: &Vec<u8>, start: usize) -> (out: Vec<u8>)
    requires
        start <= bytes@.len(),
    ensures
        out@ == bytes@.subrange(start as int, bytes@.len() as int),
{
    let mut out: Vec<u8> = Vec::new();
    let mut i: usize = start;
    while i < bytes.len()
        invariant
            start <= i <= bytes@.len(),
            out@ == bytes@.subrange(start as int, i as int),
        decreases bytes@.len() - i,
    {
        out.push(bytes[i]);
        i = i + 1;
        assert(out@ =~= bytes@.subrange(start as int, i as int));
    }
    out
}

/// Appends every byte of `data`, in order, to `out`.
pub(crate) fn extend(out: &mut Vec<u8>, data: &Vec<u8>)
    ensures
        final(out)@ == old(out)@ + data@,
{
    let mut i: usize = 0;
    while i < data.len()
        invariant
            0 <= i <= data@.len(),
            out@ == old(out)@ + data@.subrange(0, i as int),
        decreases data@.len() - i,
    {
        out.push(data[i]);
        i = i + 1;
        assert(out@ =~= old(out)@ + data@.subrange(0, i as int));
    }
    assert(data@.subrange(0, data@.len() as int) =~= data@);
}

/// Whether `x` occurs in `v`.
pub(crate) fn contains(v: &Vec<u8>, x: u8) -> (found: bool)
    ensures
        found == v@.contains(x),
{
    let mut i: usize = 0;
    while i < v.len()
        invariant
            0 <= i <= v@.len(),
            forall|j: int| 0 <= j < i ==> v@[j] != x,
        decreases v@.len() - i,
    {
        if v[i] == x {
            return true;
        }
        i = i + 1;
    }
    false
}

/// `v` with every occurrence of `x` taken out, the rest in their order.
pub(crate) fn without(v: &Vec<u8>, x: u8) -> (out: Vec<u8>)
    ensures
        out@ == remove_node(v@, x),
{
    let mut out: Vec<u8> = Vec::new();
    let mut i: usize = 0;
    while i < v.len()
        invariant
            0 <= i <= v@.len(),
            out@ == remove_node(v@.subrange(0, i as int), x),
        decreases v@.len() - i,
    {
        proof {
            reveal_with_fuel(Seq::<_>::filter, 1);
            assert(v@.subrange(0, i + 1).drop_last() =~= v@.subrange(0, i as int));
        }
        if v[i] != x {
            out.push(v[i]);
        }
        i = i + 1;
    }
    assert(v@.subrange(0, v@.len() as int) =~= v@);
    out
}

/// What taking every `x` out of a list does: exactly the other values stay,
/// a list without repeats stays without repeats, and a list without `x` stays
/// as it is.
pub(crate) proof fn lemma_remove_node(v: Seq<u8>, x: u8)
    ensures
        forall|y: u8| remove_node(v, x).contains(y) <==> (v.contains(y) && y != x),
        v.no_duplicates() ==> remove_node(v, x).no_duplicates(),
        !v.contains(x) ==> remove_node(v, x) == v,
    decreases v.len(),
{
    reveal_with_fuel(Seq::<_>::filter, 1);
    if v.len() > 0 {
        let w = v.drop_last();
        let l = v.last();
        lemma_remove_node(w, x);
        let fw = remove_node(w, x);
        let fv = remove_node(v, x);
        assert(v =~= w.push(l));
        assert(fv == if l != x { fw.push(l) } else { fw });
        assert forall|y: u8| fv.contains(y) <==> (v.contains(y) && y != x) by {
            lemma_push_contains(w, l, y);
            if l != x {
                lemma_push_contains(fw, l, y);
            }
        }
        if v.no_duplicates() {
            assert(w.no_duplicates());
            assert(!w.contains(l)) by {
                if w.contains(l) {
                    let k = choose|k: int| 0 <= k < w.len() && w[k] == l;
                    assert(v[k] == v[v.len() - 1]);
                }
            }
            if l != x {
                lemma_push_fresh(fw, l);
            }
        }
        if !v.contains(x) {
            assert(!w.contains(x)) by {
                if w.contains(x) {
                    let k = choose|k: int| 0 <= k < w.len() && w[k] == x;
                    assert(v[k] == x);
                }
            }
            assert(v[v.len() - 1] == l);
        }
    } else {
        assert(remove_node(v, x) =~= v);
    }
}

/// A list with a value appended holds exactly the old values and that one.
pub(crate) proof fn lemma_push_contains(v: Seq<u8>, x: u8, y: u8)
    ensures
        v.push(x).contains(y) <==> (v.contains(y) || y == x),
{
    if v.contains(y) {
        let k = choose|k: int| 0 <= k < v.len() && v[k] == y;
        assert(v.push(x)[k] == y);
    }
    if y == x {
        assert(v.push(x)[v.len() as int] == x);
    }
    if v.push(x).contains(y) && y != x {
        let k = choose|k: int| 0 <= k < v.push(x).len() && v.push(x)[k] == y;
        assert(v[k] == y);
    }
}

/// Appending a value a list does not hold keeps it without repeats.
pub(crate) proof fn lemma_push_fresh(v: Seq<u8>, x: u8)
    requires
        v.no_duplicates(),
        !v.contains(x),
    ensures
        v.push(x).no_duplicates(),
{
    assert forall|i: int, j: int| 0 <= i < j < v.push(x).len() implies v.push(x)[i] != v.push(x)[j] by {
        if j == v.len() {
            assert(v[i] == v.push(x)[i]);
        }
    }
}

} // verus!
