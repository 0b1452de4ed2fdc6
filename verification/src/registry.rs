//! The registry and its operations.

use vstd::prelude::*;
use crate::layer::{Layer, LayerView};

verus! {

/// Why a vote was rejected.
#[derive(Debug, Clone, Copy, PartialEq, Eq, Structural)]
pub enum VoteError {
    /// The index names no record of the registry.
    IndexOutOfRange,
    /// The counter already holds the largest value it can.
    Overflow,
}

/// The registry: every record minted so far, in minting order.
#[derive(Debug)]
pub struct Welcome {
    /// The records, oldest first. A record's index never changes.
    pub layers: Vec<Layer>,
}

impl View for Welcome {
    type V = Seq<LayerView>;

    open spec fn view(&self) -> Seq<LayerView> {
        self.layers.deep_view()
    }
}

/// The registry after minting a record for `owner_id` that points at
/// `token_uri`: one record longer, the new record last.
pub open spec fn after_mint(
    registry: Seq<LayerView>,
    owner_id: Seq<char>,
    token_uri: Seq<char>,
) -> Seq<LayerView> {
    registry.push(LayerView::minted(owner_id, token_uri))
}

/// The outcome of a vote for the record at `index`: rejected as out of range
/// where `index` names no record, rejected as an overflow where the record's
/// `upvotes` is the largest value of an `i8`, accepted otherwise.
pub open spec fn upvote_outcome(registry: Seq<LayerView>, index: int) -> Result<(), VoteError> {
    if !(0 <= index < registry.len()) {
        Err(VoteError::IndexOutOfRange)
    } else if registry[index].upvotes >= i8::MAX {
        Err(VoteError::Overflow)
    } else {
        Ok(())
    }
}

/// The registry after a vote for the record at `index`: that record's
/// `upvotes` is one higher where the vote is accepted, and nothing changes
/// where it is rejected.
pub open spec fn after_upvote(registry: Seq<LayerView>, index: int) -> Seq<LayerView> {
    if upvote_outcome(registry, index) is Ok {
        registry.update(index, registry[index].upvoted())
    } else {
        registry
    }
}

/// The outcome of a vote against the record at `index`: rejected as out of
/// range where `index` names no record, rejected as an overflow where the
/// record's `downvotes` is the largest value of an `i8`, accepted otherwise.
pub open spec fn downvote_outcome(registry: Seq<LayerView>, index: int) -> Result<(), VoteError> {
    if !(0 <= index < registry.len()) {
        Err(VoteError::IndexOutOfRange)
    } else if registry[index].downvotes >= i8::MAX {
        Err(VoteError::Overflow)
    } else {
        Ok(())
    }
}

/// The registry after a vote against the record at `index`: that record's
/// `downvotes` is one higher where the vote is accepted, and nothing changes
/// where it is rejected.
pub open spec fn after_downvote(registry: Seq<LayerView>, index: int) -> Seq<LayerView> {
    if downvote_outcome(registry, index) is Ok {
        registry.update(index, registry[index].downvoted())
    } else {
        registry
    }
}

impl Default for Welcome {
    /// The empty registry.
    fn default() -> (registry: Self)
        ensures
            registry@ == Seq::<LayerView>::empty(),
    {
        Welcome { layers: Vec::new() }
    }
}

impl Welcome {
    /// Appends a record owned by `owner_id` that locates its content at
    /// `token_uri`, with both counters at zero. Any two strings are accepted,
    /// the empty string too, and a locator may occur more than once.
    pub fn mint_layer(&mut self, owner_id: String, token_uri: String)
        ensures
            final(self)@ == after_mint(old(self)@, owner_id@, token_uri@),
    {
        let layer = Layer { owner_id, token_uri, downvotes: 0, upvotes: 0 };
        self.layers.push(layer);
    }

    /// A copy of every record, in minting order. The copy is the caller's:
    /// changing it does not change the registry.
    pub fn get_layers(&self) -> (layers: Vec<Layer>)
        ensures
            layers.deep_view() == self@,
    {
        self.layers.clone()
    }

    /// The number of records.
    pub fn get_layers_length(&self) -> (length: usize)
        ensures
            length == self@.len(),
    {
        self.layers.len()
    }

    /// Adds one vote against the record at `index`. A rejected vote leaves the
    /// registry as it was; the counter never wraps.
    pub fn increment_downvotes(&mut self, index: usize) -> (outcome: Result<(), VoteError>)
        ensures
            outcome == downvote_outcome(old(self)@, index as int),
            final(self)@ == after_downvote(old(self)@, index as int),
            outcome is Err ==> *final(self) == *old(self),
    {
        if index >= self.layers.len() {
            return Err(VoteError::IndexOutOfRange);
        }
        if self.layers[index].downvotes == i8::MAX {
            return Err(VoteError::Overflow);
        }
        self.layers[index].downvotes += 1;
        Ok(())
    }

    /// Adds one vote for the record at `index`. A rejected vote leaves the
    /// registry as it was; the counter never wraps.
    pub fn increment_upvotes(&mut self, index: usize) -> (outcome: Result<(), VoteError>)
        ensures
            outcome == upvote_outcome(old(self)@, index as int),
            final(self)@ == after_upvote(old(self)@, index as int),
            outcome is Err ==> *final(self) == *old(self),
    {
        if index >= self.layers.len() {
            return Err(VoteError::IndexOutOfRange);
        }
        if self.layers[index].upvotes == i8::MAX {
            return Err(VoteError::Overflow);
        }
        self.layers[index].upvotes += 1;
        Ok(())
    }
}

} // verus!
