//! Token ids between the tokenizer and the model.
//!
//! The BPE tokenizer works on `u32` ids; the model indexes with `usize`.

use vstd::prelude::*;

verus! {

/// The token of an id.
pub open spec fn ids_as_tokens(ids: Seq<u32>) -> Seq<usize> {
    ids.map_values(|id: u32| id as usize)
}

/// The id of a token: its low 32 bits.
pub open spec fn tokens_as_ids(tokens: Seq<usize>) -> Seq<u32> {
    tokens.map_values(|t: usize| t as u32)
}

/// Narrowing undoes widening: ids handed out by the tokenizer come back
/// unchanged when their tokens are handed back to it.
pub proof fn lemma_ids_round_trip(ids: Seq<u32>)
    ensures
        tokens_as_ids(ids_as_tokens(ids)) == ids,
{
    assert(tokens_as_ids(ids_as_tokens(ids)) =~= ids);
}

/// Widening keeps every id in its place and its value.
pub proof fn lemma_ids_as_tokens_keep_positions(ids: Seq<u32>)
    ensures
        ids_as_tokens(ids).len() == ids.len(),
        forall|k: int| 0 <= k < ids.len() ==> #[trigger] ids_as_tokens(ids)[k] == ids[k] as int,
{
}

/// Narrowing keeps every token in its place, cut to its low 32 bits.
pub proof fn lemma_tokens_as_ids_keep_positions(tokens: Seq<usize>)
    ensures
        tokens_as_ids(tokens).len() == tokens.len(),
        forall|k: int|
            0 <= k < tokens.len() ==> #[trigger] tokens_as_ids(tokens)[k] == tokens[k] as u32,
        forall|k: int|
            0 <= k < tokens.len() && tokens[k] <= u32::MAX ==> #[trigger] tokens_as_ids(tokens)[k]
                as int == tokens[k] as int,
{
}

/// Widens token ids to indices.
pub fn ids_to_tokens(ids: &[u32]) -> (tokens: Vec<usize>)
    ensures
        tokens@ == ids_as_tokens(ids@),
        tokens@.len() == ids@.len(),
        forall|k: int| 0 <= k < ids@.len() ==> #[trigger] tokens@[k] == ids@[k] as int,
{
    let mut tokens: Vec<usize> = Vec::with_capacity(ids.len());
    let mut i: usize = 0;
    while i < ids.len()
        invariant
            i <= ids@.len(),
            tokens@.len() == i,
            forall|k: int| 0 <= k < i ==> #[trigger] tokens@[k] == ids@[k] as usize,
        decreases ids@.len() - i,
    {
        tokens.push(ids[i] as usize);
        i = i + 1;
    }
    assert(tokens@ =~= ids_as_tokens(ids@));
    tokens
}

/// Narrows indices to token ids, keeping the low 32 bits of each.
pub fn tokens_to_ids(tokens: &[usize]) -> (ids: Vec<u32>)
    ensures
        ids@ == tokens_as_ids(tokens@),
        ids@.len() == tokens@.len(),
        forall|k: int| 0 <= k < tokens@.len() ==> #[trigger] ids@[k] == tokens@[k] as u32,
{
    let mut ids: Vec<u32> = Vec::with_capacity(tokens.len());
    let mut i: usize = 0;
    while i < tokens.len()
        invariant
            i <= tokens@.len(),
            ids@.len() == i,
            forall|k: int| 0 <= k < i ==> #[trigger] ids@[k] == tokens@[k] as u32,
        decreases tokens@.len() - i,
    {
        ids.push(tokens[i] as u32);
        i = i + 1;
    }
    assert(ids@ =~= tokens_as_ids(tokens@));
    ids
}

} // verus!
