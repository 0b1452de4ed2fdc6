//! Reading the byte encoding back, and why reading inverts writing.
//!
//! The functions here say what is found at a position of a byte string. The
//! lemmas show that what was written at a position is found there, and that
//! what is found at a position was written there.

use vstd::prelude::*;
use vstd::utf8::{decode_utf8, encode_utf8, valid_utf8};
use crate::format::{
    byte_counter, bytes_length, counter_byte, decoded, encoded, encoded_layer, encoded_layers,
    encoded_string, encodes, fits, layer_fits, length_bytes, string_fits,
};
use crate::layer::LayerView;

verus! {

/// The string that starts at `at`, with the position that follows it.
pub(crate) open spec fn string_at(bytes: Seq<u8>, at: int) -> Option<(Seq<char>, int)> {
    if at + 4 > bytes.len() {
        None
    } else {
        let end = at + 4 + bytes_length(bytes.subrange(at, at + 4));
        if end > bytes.len() || !valid_utf8(bytes.subrange(at + 4, end)) {
            None
        } else {
            Some((decode_utf8(bytes.subrange(at + 4, end)), end))
        }
    }
}

/// The record that starts at `at`, with the position that follows it.
pub(crate) open spec fn layer_at(bytes: Seq<u8>, at: int) -> Option<(LayerView, int)> {
    match string_at(bytes, at) {
        None => None,
        Some((owner_id, uri_at)) => match string_at(bytes, uri_at) {
            None => None,
            Some((token_uri, votes_at)) => if votes_at + 2 > bytes.len() {
                None
            } else {
                Some(
                    (
                        LayerView {
                            owner_id,
                            token_uri,
                            downvotes: byte_counter(bytes[votes_at]),
                            upvotes: byte_counter(bytes[votes_at + 1]),
                        },
                        votes_at + 2,
                    ),
                )
            },
        },
    }
}

/// The `count` records that start at `at`, with the position that follows
/// them.
pub(crate) open spec fn layers_at(bytes: Seq<u8>, at: int, count: nat) -> Option<
    (Seq<LayerView>, int),
>
    decreases count,
{
    if count == 0 {
        Some((Seq::empty(), at))
    } else {
        match layers_at(bytes, at, (count - 1) as nat) {
            None => None,
            Some((layers, last_at)) => match layer_at(bytes, last_at) {
                None => None,
                Some((last, end)) => Some((layers.push(last), end)),
            },
        }
    }
}

/// The registry that fills `bytes` exactly.
pub(crate) open spec fn parsed(bytes: Seq<u8>) -> Option<Seq<LayerView>> {
    if bytes.len() < 4 {
        None
    } else {
        match layers_at(bytes, 4, bytes_length(bytes.subrange(0, 4))) {
            None => None,
            Some((layers, end)) => if end == bytes.len() {
                Some(layers)
            } else {
                None
            },
        }
    }
}

/// A written number is read back.
proof fn lemma_length_round_trip(n: nat)
    requires
        n <= u32::MAX,
    ensures
        length_bytes(n).len() == 4,
        bytes_length(length_bytes(n)) == n,
{
}

/// Division by 256 splits a number into its lowest digit and the rest.
proof fn lemma_split_low_digit(low: int, high: int)
    requires
        0 <= low < 256,
        0 <= high,
    ensures
        (low + 256 * high) % 256 == low,
        (low + 256 * high) / 256 == high,
{
    assert((low + 256 * high) % 256 == low && (low + 256 * high) / 256 == high)
        by (nonlinear_arith)
        requires
            0 <= low < 256,
            0 <= high,
    ;
}

/// Four bytes are the bytes of the number they stand for.
proof fn lemma_bytes_round_trip(bytes: Seq<u8>)
    requires
        bytes.len() == 4,
    ensures
        bytes_length(bytes) <= u32::MAX,
        length_bytes(bytes_length(bytes)) == bytes,
{
    let b0 = bytes[0] as int;
    let b1 = bytes[1] as int;
    let b2 = bytes[2] as int;
    let b3 = bytes[3] as int;
    let n = bytes_length(bytes) as int;
    lemma_split_low_digit(b0, b1 + 256 * b2 + 65536 * b3);
    lemma_split_low_digit(b1, b2 + 256 * b3);
    lemma_split_low_digit(b2, b3);
    assert(n / 65536 == n / 256 / 256) by (nonlinear_arith)
        requires
            n >= 0,
    ;
    assert(n / 16777216 == n / 65536 / 256) by (nonlinear_arith)
        requires
            n >= 0,
    ;
}

/// A written counter is read back.
proof fn lemma_counter_round_trip(counter: int)
    requires
        i8::MIN <= counter <= i8::MAX,
    ensures
        byte_counter(counter_byte(counter)) == counter,
{
}

/// A byte is the byte of the counter it stands for.
proof fn lemma_byte_round_trip(byte: u8)
    ensures
        i8::MIN <= byte_counter(byte) <= i8::MAX,
        counter_byte(byte_counter(byte)) == byte,
{
}

/// A written string is read back, whatever surrounds it.
proof fn lemma_string_read_back(before: Seq<u8>, string: Seq<char>, after: Seq<u8>)
    requires
        string_fits(string),
    ensures
        string_at(before + encoded_string(string) + after, before.len() as int) == Some(
            (string, (before.len() + encoded_string(string).len()) as int),
        ),
{
    broadcast use {vstd::utf8::encode_utf8_valid_utf8, vstd::utf8::encode_utf8_decode_utf8};

    let body = encode_utf8(string);
    let bytes = before + encoded_string(string) + after;
    let at = before.len() as int;
    lemma_length_round_trip(body.len());
    assert(bytes.subrange(at, at + 4) =~= length_bytes(body.len()));
    assert(bytes.subrange(at + 4, at + 4 + body.len()) =~= body);
}

/// A string that is read was written there.
pub(crate) proof fn lemma_string_was_written(bytes: Seq<u8>, at: int)
    requires
        0 <= at,
        string_at(bytes, at) is Some,
    ensures
        ({
            let (string, end) = string_at(bytes, at)->0;
            &&& string_fits(string)
            &&& at <= end <= bytes.len()
            &&& bytes.subrange(at, end) == encoded_string(string)
        }),
{
    broadcast use vstd::utf8::decode_utf8_encode_utf8;

    let (string, end) = string_at(bytes, at)->0;
    lemma_bytes_round_trip(bytes.subrange(at, at + 4));
    assert(bytes.subrange(at, end) =~= encoded_string(string));
}

/// A written record is read back, whatever surrounds it.
proof fn lemma_layer_read_back(before: Seq<u8>, layer: LayerView, after: Seq<u8>)
    requires
        layer_fits(layer),
    ensures
        layer_at(before + encoded_layer(layer) + after, before.len() as int) == Some(
            (layer, (before.len() + encoded_layer(layer).len()) as int),
        ),
{
    let owner = encoded_string(layer.owner_id);
    let uri = encoded_string(layer.token_uri);
    let votes = seq![counter_byte(layer.downvotes), counter_byte(layer.upvotes)];
    let bytes = before + encoded_layer(layer) + after;
    assert(bytes =~= before + owner + (uri + votes + after));
    lemma_string_read_back(before, layer.owner_id, uri + votes + after);
    assert(bytes =~= (before + owner) + uri + (votes + after));
    lemma_string_read_back(before + owner, layer.token_uri, votes + after);
    lemma_counter_round_trip(layer.downvotes);
    lemma_counter_round_trip(layer.upvotes);
}

/// A record that is read was written there.
pub(crate) proof fn lemma_layer_was_written(bytes: Seq<u8>, at: int)
    requires
        0 <= at,
        layer_at(bytes, at) is Some,
    ensures
        ({
            let (layer, end) = layer_at(bytes, at)->0;
            &&& layer_fits(layer)
            &&& at <= end <= bytes.len()
            &&& bytes.subrange(at, end) == encoded_layer(layer)
        }),
{
    let (_, uri_at) = string_at(bytes, at)->0;
    let (_, votes_at) = string_at(bytes, uri_at)->0;
    lemma_string_was_written(bytes, at);
    lemma_string_was_written(bytes, uri_at);
    lemma_byte_round_trip(bytes[votes_at]);
    lemma_byte_round_trip(bytes[votes_at + 1]);
    assert(bytes.subrange(at, votes_at + 2) =~= bytes.subrange(at, uri_at) + bytes.subrange(
        uri_at,
        votes_at,
    ) + seq![bytes[votes_at], bytes[votes_at + 1]]);
}

/// Written records are read back, whatever surrounds them.
proof fn lemma_layers_read_back(
    before: Seq<u8>,
    layers: Seq<LayerView>,
    after: Seq<u8>,
)
    requires
        forall|i: int| 0 <= i < layers.len() ==> layer_fits(#[trigger] layers[i]),
    ensures
        layers_at(before + encoded_layers(layers) + after, before.len() as int, layers.len())
            == Some((layers, (before.len() + encoded_layers(layers).len()) as int)),
    decreases layers.len(),
{
    let bytes = before + encoded_layers(layers) + after;
    if layers.len() > 0 {
        let front = layers.drop_last();
        let last = layers.last();
        assert(bytes =~= before + encoded_layers(front) + (encoded_layer(last) + after));
        lemma_layers_read_back(before, front, encoded_layer(last) + after);
        assert(bytes =~= (before + encoded_layers(front)) + encoded_layer(last) + after);
        lemma_layer_read_back(before + encoded_layers(front), last, after);
    }
}

/// Records that are read were written there.
proof fn lemma_layers_were_written(bytes: Seq<u8>, at: int, count: nat)
    requires
        0 <= at <= bytes.len(),
        layers_at(bytes, at, count) is Some,
    ensures
        ({
            let (layers, end) = layers_at(bytes, at, count)->0;
            &&& layers.len() == count
            &&& forall|i: int| 0 <= i < layers.len() ==> layer_fits(#[trigger] layers[i])
            &&& at <= end <= bytes.len()
            &&& bytes.subrange(at, end) == encoded_layers(layers)
        }),
    decreases count,
{
    let (layers, end) = layers_at(bytes, at, count)->0;
    if count > 0 {
        let (front, last_at) = layers_at(bytes, at, (count - 1) as nat)->0;
        lemma_layers_were_written(bytes, at, (count - 1) as nat);
        lemma_layer_was_written(bytes, last_at);
        assert(layers.drop_last() =~= front);
        assert(bytes.subrange(at, end) =~= bytes.subrange(at, last_at) + bytes.subrange(
            last_at,
            end,
        ));
    }
}

/// Where fewer records cannot be read, more cannot either.
pub(crate) proof fn lemma_layers_missing(bytes: Seq<u8>, at: int, fewer: nat, count: nat)
    requires
        fewer <= count,
        layers_at(bytes, at, fewer) is None,
    ensures
        layers_at(bytes, at, count) is None,
    decreases count,
{
    if fewer < count {
        lemma_layers_missing(bytes, at, fewer, (count - 1) as nat);
    }
}

/// An encoding parses to the registry it encodes.
pub(crate) proof fn lemma_parsed_encoded(registry: Seq<LayerView>)
    requires
        fits(registry),
    ensures
        parsed(encoded(registry)) == Some(registry),
{
    let head = length_bytes(registry.len());
    lemma_length_round_trip(registry.len());
    assert(encoded(registry) =~= head + encoded_layers(registry) + Seq::empty());
    lemma_layers_read_back(head, registry, Seq::empty());
}

/// What parses is the encoding of the registry it parses to.
pub(crate) proof fn lemma_parsed_encodes(bytes: Seq<u8>)
    requires
        parsed(bytes) is Some,
    ensures
        encodes(bytes, parsed(bytes)->0),
{
    lemma_bytes_round_trip(bytes.subrange(0, 4));
    lemma_layers_were_written(bytes, 4, bytes_length(bytes.subrange(0, 4)));
    assert(bytes =~= bytes.subrange(0, 4) + bytes.subrange(4, bytes.len() as int));
}

/// `decoded` is what parsing finds.
pub(crate) proof fn lemma_decoded_is_parsed(bytes: Seq<u8>)
    ensures
        decoded(bytes) == parsed(bytes),
{
    if parsed(bytes) is Some {
        lemma_parsed_encodes(bytes);
    }
    if exists|registry: Seq<LayerView>| encodes(bytes, registry) {
        let registry = choose|registry: Seq<LayerView>| encodes(bytes, registry);
        lemma_parsed_encoded(registry);
    }
}

} // verus!
