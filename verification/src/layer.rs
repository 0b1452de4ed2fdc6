//! The record type of the registry and its mathematical view.

use vstd::prelude::*;

verus! {

/// One record of the registry.
///
/// The owner and the locator are fixed when the record is minted; only the two
/// counters change afterwards.
#[derive(Debug)]
pub struct Layer {
    /// Account that minted the record.
    pub owner_id: String,
    /// Opaque locator of the record's content.
    pub token_uri: String,
    /// Number of votes against the record.
    pub downvotes: i8,
    /// Number of votes for the record.
    pub upvotes: i8,
}

/// What a [`Layer`] denotes: its two strings as character sequences and its
/// two counters as integers.
pub struct LayerView {
    pub owner_id: Seq<char>,
    pub token_uri: Seq<char>,
    pub downvotes: int,
    pub upvotes: int,
}

impl LayerView {
    /// The record that minting creates: both counters at zero.
    pub open spec fn minted(owner_id: Seq<char>, token_uri: Seq<char>) -> LayerView {
        LayerView { owner_id, token_uri, downvotes: 0, upvotes: 0 }
    }

    /// This record with one more vote for it.
    pub open spec fn upvoted(self) -> LayerView {
        LayerView { upvotes: self.upvotes + 1, ..self }
    }

    /// This record with one more vote against it.
    pub open spec fn downvoted(self) -> LayerView {
        LayerView { downvotes: self.downvotes + 1, ..self }
    }
}

impl View for Layer {
    type V = LayerView;

    open spec fn view(&self) -> LayerView {
        LayerView {
            owner_id: self.owner_id@,
            token_uri: self.token_uri@,
            downvotes: self.downvotes as int,
            upvotes: self.upvotes as int,
        }
    }
}

impl DeepView for Layer {
    type V = LayerView;

    open spec fn deep_view(&self) -> LayerView {
        self@
    }
}

impl Clone for Layer {
    fn clone(&self) -> (copy: Self)
        ensures
            copy == *self,
    {
        Layer {
            owner_id: self.owner_id.clone(),
            token_uri: self.token_uri.clone(),
            downvotes: self.downvotes,
            upvotes: self.upvotes,
        }
    }
}

} // verus!
