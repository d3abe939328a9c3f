//! Purification: the classes a segment falls into, and the byte statistics
//! its entropy is computed from.

use vstd::prelude::*;

verus! {

/// The class of a segment after purification.
#[derive(Debug, Clone, Copy, PartialEq, Eq)]
pub enum SegmentClass {
    Structured,
    Substitutable,
    Residual,
}

/// How many times `b` occurs in `data`.
pub open spec fn occurrences(data: Seq<u8>, b: u8) -> nat
    decreases data.len(),
{
    if data.len() == 0 {
        0
    } else {
        let last = data.len() - 1;
        occurrences(data.subrange(0, last), b) + if data[last] == b { 1nat } else { 0nat }
    }
}

proof fn lemma_occurrences_bound(data: Seq<u8>, b: u8)
    ensures
        occurrences(data, b) <= data.len(),
    decreases data.len(),
{
    if data.len() > 0 {
        lemma_occurrences_bound(data.subrange(0, data.len() - 1), b);
    }
}

/// The number of occurrences of every byte value in `data`, indexed by value.
pub fn byte_counts(data: &[u8]) -> (counts: Vec<usize>)
    ensures
        counts@.len() == 256,
        forall|b: u8| #[trigger] counts@[b as int] == occurrences(data@, b),
{
    let mut counts: Vec<usize> = Vec::new();
    let mut v: usize = 0;
    while v < 256
        invariant
            0 <= v <= 256,
            counts@.len() == v,
            forall|j: int| 0 <= j < v ==> counts@[j] == 0,
        decreases 256 - v,
    {
        counts.push(0);
        v = v + 1;
    }
    let n = data.len();
    let mut i: usize = 0;
    while i < n
        invariant
            n == data@.len(),
            0 <= i <= n,
            counts@.len() == 256,
            forall|b: u8| #[trigger] counts@[b as int] == occurrences(data@.subrange(0, i as int), b),
        decreases n - i,
    {
        let x = data[i];
        proof {
            lemma_occurrences_bound(data@.subrange(0, i as int), x);
            assert(data@.subrange(0, i + 1).subrange(0, i as int) =~= data@.subrange(0, i as int));
        }
        let c = counts[x as usize];
        counts.set(x as usize, c + 1);
        proof {
            assert forall|b: u8| #[trigger] counts@[b as int] == occurrences(data@.subrange(0, i + 1), b) by {
                let pre = data@.subrange(0, i + 1);
                assert(pre[i as int] == x);
            }
        }
        i = i + 1;
    }
    assert(data@.subrange(0, n as int) =~= data@);
    counts
}

} // verus!
