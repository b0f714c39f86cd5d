//! Builds fixed-width columnar record batches from line-oriented text
//! datasets: vocabulary construction, tokenization, id-lookup encoding
//! with unknown-token fallback, fixed-length padding/truncation, and
//! chunked column materialization for three task variants
//! (classification, text-pair similarity, sequence tagging).
use vstd::prelude::*;

pub mod classifier;
pub mod columns;
pub mod errors;
pub mod lexicon;
pub mod similarity;
pub mod tagging;
pub mod text;
pub mod traits;

verus! {

/// Sequence of ids padded with 0 on the right up to `max_length`, or
/// truncated from the right down to `max_length`.
pub open spec fn spec_pad_truncate(s: Seq<usize>, max_length: nat) -> Seq<usize> {
    if s.len() >= max_length {
        s.take(max_length as int)
    } else {
        s + Seq::new((max_length - s.len()) as nat, |i: int| 0usize)
    }
}

/// Pad with 0 on the right, or truncate from the right, so that the
/// result has exactly `max_length` entries.
pub fn pad_truncate(ids: Vec<usize>, max_length: usize) -> (r: Vec<usize>)
    ensures
        r@ == spec_pad_truncate(ids@, max_length as nat),
        r@.len() == max_length,
{
    let mut ids = ids;
    if ids.len() >= max_length {
        ids.truncate(max_length);
        assert(ids@ =~= spec_pad_truncate(ids@, max_length as nat));
        ids
    } else {
        let ghost orig = ids@;
        while ids.len() < max_length
            invariant
                orig.len() < max_length,
                orig.len() <= ids.len() <= max_length,
                ids@ == orig + Seq::new((ids@.len() - orig.len()) as nat, |i: int| 0usize),
            decreases max_length - ids.len(),
        {
            ids.push(0);
            assert(ids@ =~= orig + Seq::new((ids@.len() - orig.len()) as nat, |i: int| 0usize));
        }
        assert(ids@ =~= spec_pad_truncate(orig, max_length as nat));
        ids
    }
}

/// `spec_pad_truncate` always yields exactly `max_length` entries.
pub proof fn lemma_spec_pad_truncate_len(s: Seq<usize>, max_length: nat)
    ensures
        spec_pad_truncate(s, max_length).len() == max_length,
{
}

} // verus!
