//! The registry's byte encoding.
//!
//! A registry is written as the number of its records followed by the records
//! in order. A record is its owner, its locator, its `downvotes` and its
//! `upvotes`. A string is the number of bytes of its UTF-8 form followed by
//! those bytes. A number of records or of bytes takes four bytes, least
//! significant first; a counter takes one byte, in two's complement.
//!
//! This is the layout that Borsh gives a vector of such records, so state
//! that was stored in that form is read as it stands.

use vstd::prelude::*;
use vstd::utf8::encode_utf8;
use crate::layer::LayerView;

verus! {

/// The four bytes that stand for a number of records or of bytes.
pub open spec fn length_bytes(n: nat) -> Seq<u8>
    recommends
        n <= u32::MAX,
{
    seq![
        (n % 256) as u8,
        (n / 256 % 256) as u8,
        (n / 65536 % 256) as u8,
        (n / 16777216 % 256) as u8,
    ]
}

/// The number that four bytes stand for.
pub open spec fn bytes_length(bytes: Seq<u8>) -> nat
    recommends
        bytes.len() == 4,
{
    (bytes[0] + 256 * bytes[1] + 65536 * bytes[2] + 16777216 * bytes[3]) as nat
}

/// The byte that stands for a counter.
pub open spec fn counter_byte(counter: int) -> u8
    recommends
        i8::MIN <= counter <= i8::MAX,
{
    if counter >= 0 {
        counter as u8
    } else {
        (counter + 256) as u8
    }
}

/// The counter that a byte stands for.
pub open spec fn byte_counter(byte: u8) -> int {
    if byte < 128 {
        byte as int
    } else {
        byte - 256
    }
}

/// Whether the string's UTF-8 form is short enough for its length to be
/// written.
pub open spec fn string_fits(string: Seq<char>) -> bool {
    encode_utf8(string).len() <= u32::MAX
}

/// The bytes that stand for a string.
pub open spec fn encoded_string(string: Seq<char>) -> Seq<u8>
    recommends
        string_fits(string),
{
    length_bytes(encode_utf8(string).len()) + encode_utf8(string)
}

/// Whether the record can be written: its strings fit and its counters are
/// those of an `i8`.
pub open spec fn layer_fits(layer: LayerView) -> bool {
    &&& string_fits(layer.owner_id)
    &&& string_fits(layer.token_uri)
    &&& i8::MIN <= layer.downvotes <= i8::MAX
    &&& i8::MIN <= layer.upvotes <= i8::MAX
}

/// The bytes that stand for a record.
pub open spec fn encoded_layer(layer: LayerView) -> Seq<u8>
    recommends
        layer_fits(layer),
{
    encoded_string(layer.owner_id) + encoded_string(layer.token_uri) + seq![
        counter_byte(layer.downvotes),
        counter_byte(layer.upvotes),
    ]
}

/// The bytes that stand for a run of records: those of each record, in order.
pub open spec fn encoded_layers(layers: Seq<LayerView>) -> Seq<u8>
    decreases layers.len(),
{
    if layers.len() == 0 {
        Seq::empty()
    } else {
        encoded_layers(layers.drop_last()) + encoded_layer(layers.last())
    }
}

/// Whether the registry can be written: its number of records fits and each
/// record does.
pub open spec fn fits(registry: Seq<LayerView>) -> bool {
    &&& registry.len() <= u32::MAX
    &&& forall|i: int| 0 <= i < registry.len() ==> layer_fits(#[trigger] registry[i])
}

/// The bytes that stand for a registry.
pub open spec fn encoded(registry: Seq<LayerView>) -> Seq<u8>
    recommends
        fits(registry),
{
    length_bytes(registry.len()) + encoded_layers(registry)
}

/// Whether `bytes` is the encoding of `registry`.
pub open spec fn encodes(bytes: Seq<u8>, registry: Seq<LayerView>) -> bool {
    fits(registry) && encoded(registry) == bytes
}

/// The registry that `bytes` encodes, if it encodes one.
pub open spec fn decoded(bytes: Seq<u8>) -> Option<Seq<LayerView>> {
    if exists|registry: Seq<LayerView>| encodes(bytes, registry) {
        Some(choose|registry: Seq<LayerView>| encodes(bytes, registry))
    } else {
        None
    }
}

} // verus!
