//! Laws of the registry's operations and of its encoding, stated over the
//! registry's view and proved from the definitions that the contracts use.

use vstd::prelude::*;
use crate::format::{decoded, encoded, encodes, fits};
use crate::layer::LayerView;
use crate::parsing::{
    lemma_decoded_is_parsed, lemma_parsed_encoded, lemma_parsed_encodes, parsed,
};
use crate::registry::{
    after_downvote, after_mint, after_upvote, downvote_outcome, upvote_outcome, VoteError,
};

verus! {

/// The registry after one mint for each element of `calls`, in order. A call
/// is the pair of the owner and the locator that the mint is given.
pub open spec fn after_mints(
    registry: Seq<LayerView>,
    calls: Seq<(Seq<char>, Seq<char>)>,
) -> Seq<LayerView>
    decreases calls.len(),
{
    if calls.len() == 0 {
        registry
    } else {
        after_mint(after_mints(registry, calls.drop_last()), calls.last().0, calls.last().1)
    }
}

/// Minting appends in call order: after any sequence of mints the registry is
/// as many records longer as there were calls, the records it held are
/// untouched, and the record that the `i`-th call added carries that call's
/// owner and locator and no votes.
pub proof fn lemma_mints_append_in_call_order(
    registry: Seq<LayerView>,
    calls: Seq<(Seq<char>, Seq<char>)>,
)
    ensures
        after_mints(registry, calls).len() == registry.len() + calls.len(),
        forall|j: int|
            0 <= j < registry.len() ==> #[trigger] after_mints(registry, calls)[j] == registry[j],
        forall|j: int|
            registry.len() <= j < registry.len() + calls.len() ==> #[trigger] after_mints(
                registry,
                calls,
            )[j] == LayerView::minted(calls[j - registry.len()].0, calls[j - registry.len()].1),
    decreases calls.len(),
{
    if calls.len() > 0 {
        lemma_mints_append_in_call_order(registry, calls.drop_last());
    }
}

/// Starting from the empty registry, `k` mints give a registry of length `k`
/// whose `i`-th record carries the owner and the locator of the `i`-th call,
/// and no votes.
pub proof fn lemma_mints_from_empty(calls: Seq<(Seq<char>, Seq<char>)>)
    ensures
        after_mints(Seq::empty(), calls).len() == calls.len(),
        forall|i: int|
            0 <= i < calls.len() ==> {
                let record = #[trigger] after_mints(Seq::empty(), calls)[i];
                &&& record.owner_id == calls[i].0
                &&& record.token_uri == calls[i].1
                &&& record.upvotes == 0
                &&& record.downvotes == 0
            },
{
    lemma_mints_append_in_call_order(Seq::empty(), calls);
}

/// A vote for the record at `index`, where its `upvotes` is below the largest
/// value of an `i8`, is accepted, raises that counter by exactly one and
/// changes nothing else: not the record's `downvotes`, its owner or its
/// locator, not the number of records, and no other record.
pub proof fn lemma_upvote_changes_one_counter(registry: Seq<LayerView>, index: int)
    requires
        0 <= index < registry.len(),
        registry[index].upvotes < i8::MAX,
    ensures
        upvote_outcome(registry, index) is Ok,
        after_upvote(registry, index).len() == registry.len(),
        after_upvote(registry, index)[index].upvotes == registry[index].upvotes + 1,
        after_upvote(registry, index)[index].downvotes == registry[index].downvotes,
        after_upvote(registry, index)[index].owner_id == registry[index].owner_id,
        after_upvote(registry, index)[index].token_uri == registry[index].token_uri,
        forall|j: int|
            0 <= j < registry.len() && j != index ==> #[trigger] after_upvote(registry, index)[j]
                == registry[j],
{
}

/// A vote against the record at `index`, where its `downvotes` is below the
/// largest value of an `i8`, is accepted, raises that counter by exactly one
/// and changes nothing else.
pub proof fn lemma_downvote_changes_one_counter(registry: Seq<LayerView>, index: int)
    requires
        0 <= index < registry.len(),
        registry[index].downvotes < i8::MAX,
    ensures
        downvote_outcome(registry, index) is Ok,
        after_downvote(registry, index).len() == registry.len(),
        after_downvote(registry, index)[index].downvotes == registry[index].downvotes + 1,
        after_downvote(registry, index)[index].upvotes == registry[index].upvotes,
        after_downvote(registry, index)[index].owner_id == registry[index].owner_id,
        after_downvote(registry, index)[index].token_uri == registry[index].token_uri,
        forall|j: int|
            0 <= j < registry.len() && j != index ==> #[trigger] after_downvote(registry, index)[j]
                == registry[j],
{
}

/// A vote is accepted exactly when its index names a record whose counter is
/// below the largest value of an `i8`.
pub proof fn lemma_vote_accepted_iff(registry: Seq<LayerView>, index: int)
    ensures
        upvote_outcome(registry, index) is Ok <==> 0 <= index < registry.len()
            && registry[index].upvotes < i8::MAX,
        downvote_outcome(registry, index) is Ok <==> 0 <= index < registry.len()
            && registry[index].downvotes < i8::MAX,
{
}

/// A vote at an index that names no record, negative or past the end, is
/// rejected as out of range, whichever counter it is for, and leaves the
/// registry as it was.
pub proof fn lemma_vote_out_of_range(registry: Seq<LayerView>, index: int)
    requires
        index < 0 || index >= registry.len(),
    ensures
        upvote_outcome(registry, index) == Err::<(), VoteError>(VoteError::IndexOutOfRange),
        downvote_outcome(registry, index) == Err::<(), VoteError>(VoteError::IndexOutOfRange),
        after_upvote(registry, index) == registry,
        after_downvote(registry, index) == registry,
{
}

/// A vote for a record whose `upvotes` is already the largest value of an
/// `i8` is rejected as an overflow and leaves the registry as it was: the
/// counter never wraps.
pub proof fn lemma_upvote_at_maximum(registry: Seq<LayerView>, index: int)
    requires
        0 <= index < registry.len(),
        registry[index].upvotes == i8::MAX,
    ensures
        upvote_outcome(registry, index) == Err::<(), VoteError>(VoteError::Overflow),
        after_upvote(registry, index) == registry,
{
}

/// A vote against a record whose `downvotes` is already the largest value of
/// an `i8` is rejected as an overflow and leaves the registry as it was.
pub proof fn lemma_downvote_at_maximum(registry: Seq<LayerView>, index: int)
    requires
        0 <= index < registry.len(),
        registry[index].downvotes == i8::MAX,
    ensures
        downvote_outcome(registry, index) == Err::<(), VoteError>(VoteError::Overflow),
        after_downvote(registry, index) == registry,
{
}

/// One call on the registry.
pub enum Operation {
    /// Mint a record for `owner_id` that points at `token_uri`.
    Mint { owner_id: Seq<char>, token_uri: Seq<char> },
    /// Vote for the record at `index`.
    Upvote { index: int },
    /// Vote against the record at `index`.
    Downvote { index: int },
}

/// The registry after `operation`, accepted or rejected.
pub open spec fn after(registry: Seq<LayerView>, operation: Operation) -> Seq<LayerView> {
    match operation {
        Operation::Mint { owner_id, token_uri } => after_mint(registry, owner_id, token_uri),
        Operation::Upvote { index } => after_upvote(registry, index),
        Operation::Downvote { index } => after_downvote(registry, index),
    }
}

/// The registry after each of `operations` in turn.
pub open spec fn after_all(registry: Seq<LayerView>, operations: Seq<Operation>) -> Seq<
    LayerView,
>
    decreases operations.len(),
{
    if operations.len() == 0 {
        registry
    } else {
        after(after_all(registry, operations.drop_last()), operations.last())
    }
}

/// `later` holds every record of `earlier` at the same index, with the same
/// owner and locator and with counters that are no lower.
pub open spec fn extends(earlier: Seq<LayerView>, later: Seq<LayerView>) -> bool {
    &&& earlier.len() <= later.len()
    &&& forall|i: int|
        #![trigger later[i]]
        0 <= i < earlier.len() ==> {
            &&& later[i].owner_id == earlier[i].owner_id
            &&& later[i].token_uri == earlier[i].token_uri
            &&& later[i].upvotes >= earlier[i].upvotes
            &&& later[i].downvotes >= earlier[i].downvotes
        }
}

/// The registry is append-only: whatever calls are made, in whatever order
/// and whether accepted or rejected, no record is removed or moved, no owner
/// or locator changes, and no counter goes down.
pub proof fn lemma_operations_only_extend(registry: Seq<LayerView>, operations: Seq<Operation>)
    ensures
        extends(registry, after_all(registry, operations)),
    decreases operations.len(),
{
    if operations.len() > 0 {
        lemma_operations_only_extend(registry, operations.drop_last());
    }
}

/// Decoding inverts encoding: the encoding of a registry that can be written
/// decodes to that registry, with every record and every field as it was.
pub proof fn lemma_decoded_inverts_encoded(registry: Seq<LayerView>)
    requires
        fits(registry),
    ensures
        decoded(encoded(registry)) == Some(registry),
{
    lemma_parsed_encoded(registry);
    lemma_decoded_is_parsed(encoded(registry));
}

/// Encoding inverts decoding: bytes that decode are the encoding of the
/// registry they decode to, so no two byte strings decode to one registry and
/// no byte string encodes two.
pub proof fn lemma_encoded_inverts_decoded(bytes: Seq<u8>, registry: Seq<LayerView>)
    ensures
        decoded(bytes) == Some(registry) <==> encodes(bytes, registry),
{
    lemma_decoded_is_parsed(bytes);
    if parsed(bytes) is Some {
        lemma_parsed_encodes(bytes);
    }
    if encodes(bytes, registry) {
        lemma_parsed_encoded(registry);
    }
}

} // verus!
