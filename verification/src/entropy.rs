//! The byte histogram of some data, from which its Shannon entropy is computed.
use vstd::prelude::*;

verus! {

/// How many times a byte value occurs in some data.
pub open spec fn occurrences(data: Seq<u8>, b: u8) -> nat
    decreases data.len(),
{
    if data.len() == 0 {
        0
    } else {
        occurrences(data.drop_last(), b) + if data.last() == b {
            1nat
        } else {
            0nat
        }
    }
}

proof fn lemma_occurrences_bound(data: Seq<u8>, b: u8)
    ensures
        occurrences(data, b) <= data.len(),
    decreases data.len(),
{
    if data.len() > 0 {
        lemma_occurrences_bound(data.drop_last(), b);
    }
}

/// The number of occurrences of each of the 256 byte values in some data.
pub fn byte_counts(data: &[u8]) -> (res: Vec<u32>)
    requires
        data@.len() <= u32::MAX,
    ensures
        res@.len() == 256,
        forall|b: u8| #[trigger] res@[b as int] == occurrences(data@, b),
{
    let mut counts: Vec<u32> = Vec::new();
    let mut j: usize = 0;
    while j < 256
        invariant
            j <= 256,
            counts@.len() == j,
            forall|q: int| 0 <= q < j ==> counts@[q] == 0,
        decreases 256 - j,
    {
        counts.push(0);
        j = j + 1;
    }
    let mut i: usize = 0;
    while i < data.len()
        invariant
            i <= data@.len(),
            data@.len() <= u32::MAX,
            counts@.len() == 256,
            forall|b: u8| #[trigger] counts@[b as int] == occurrences(data@.take(i as int), b),
        decreases data@.len() - i,
    {
        let byte = data[i];
        proof {
            lemma_occurrences_bound(data@.take(i as int), byte);
            assert(data@.take(i + 1).drop_last() =~= data@.take(i as int));
        }
        let c = counts[byte as usize];
        counts.set(byte as usize, c + 1);
        proof {
            assert forall|b: u8| #[trigger] counts@[b as int] == occurrences(data@.take(i + 1), b) by {
                assert(data@.take(i + 1).last() == byte);
            }
        }
        i = i + 1;
    }
    proof {
        assert(data@.take(data@.len() as int) =~= data@);
    }
    counts
}

} // verus!
