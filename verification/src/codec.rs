//! Writing a registry to bytes and reading it back, in the encoding that
//! [`crate::format`] defines.

use vstd::prelude::*;
use vstd::slice::{slice_subrange, slice_to_vec};
use vstd::utf8::{encode_utf8, valid_utf8};
use crate::format::{
    byte_counter, bytes_length, counter_byte, decoded, encoded_layer, encoded_layers,
    encoded_string, encodes, fits, layer_fits, length_bytes, string_fits,
};
use crate::layer::Layer;
use crate::parsing::{
    layer_at, layers_at, lemma_decoded_is_parsed, lemma_layer_was_written, lemma_layers_missing,
    lemma_string_was_written, parsed, string_at,
};
use crate::registry::Welcome;

verus! {

/// Appends the four bytes of `n`.
fn put_length(out: &mut Vec<u8>, n: u32)
    ensures
        final(out)@ == old(out)@ + length_bytes(n as nat),
{
    out.push((n % 256) as u8);
    out.push((n / 256 % 256) as u8);
    out.push((n / 65536 % 256) as u8);
    out.push((n / 16777216 % 256) as u8);
}

/// Reads the number held in the four bytes at `at`, if there are four.
fn take_length(bytes: &[u8], at: usize) -> (length: Option<u32>)
    requires
        at <= bytes@.len(),
    ensures
        match length {
            Some(n) => at + 4 <= bytes@.len() && n == bytes_length(
                bytes@.subrange(at as int, at + 4),
            ),
            None => at + 4 > bytes@.len(),
        },
{
    if bytes.len() - at < 4 {
        return None;
    }
    let b0: u32 = bytes[at] as u32;
    let b1: u32 = bytes[at + 1] as u32;
    let b2: u32 = bytes[at + 2] as u32;
    let b3: u32 = bytes[at + 3] as u32;
    Some(b0 + 256 * b1 + 65536 * b2 + 16777216 * b3)
}

/// A counter's byte.
fn counter_to_byte(counter: i8) -> (byte: u8)
    ensures
        byte == counter_byte(counter as int),
{
    if counter >= 0 {
        counter as u8
    } else {
        (counter as i16 + 256) as u8
    }
}

/// A byte's counter.
fn byte_to_counter(byte: u8) -> (counter: i8)
    ensures
        counter == byte_counter(byte),
{
    if byte < 128 {
        byte as i8
    } else {
        (byte as i16 - 256) as i8
    }
}

/// Appends the string's encoding, unless the string is too long to have one.
fn put_string(out: &mut Vec<u8>, string: &String) -> (written: bool)
    ensures
        written == string_fits(string@),
        written ==> final(out)@ == old(out)@ + encoded_string(string@),
{
    let body = string.as_str().as_bytes();
    if body.len() > u32::MAX as usize {
        return false;
    }
    put_length(out, body.len() as u32);
    out.extend_from_slice(body);
    true
}

/// Appends the record's encoding, unless one of its strings is too long. A
/// record that is not written may leave a part of itself in `out`.
fn put_layer(out: &mut Vec<u8>, layer: &Layer) -> (written: bool)
    ensures
        written == layer_fits(layer@),
        written ==> final(out)@ == old(out)@ + encoded_layer(layer@),
{
    if !put_string(out, &layer.owner_id) {
        return false;
    }
    if !put_string(out, &layer.token_uri) {
        return false;
    }
    out.push(counter_to_byte(layer.downvotes));
    out.push(counter_to_byte(layer.upvotes));
    true
}

/// Calls `String::from_utf8` of std and drops its error.
///
/// Trusted, not proved: the call returns a string exactly when the bytes are
/// valid UTF-8, and the string it returns is made of those bytes.
#[verifier::external_body]
fn string_from_utf8(bytes: Vec<u8>) -> (string: Option<String>)
    ensures
        string is Some <==> valid_utf8(bytes@),
        string matches Some(s) ==> encode_utf8(s@) == bytes@,
{
    String::from_utf8(bytes).ok()
}

/// Reads the string at `at`, with the position that follows it.
fn take_string(bytes: &[u8], at: usize) -> (taken: Option<(String, usize)>)
    requires
        at <= bytes@.len(),
    ensures
        match taken {
            Some((string, end)) => string_at(bytes@, at as int) == Some((string@, end as int)),
            None => string_at(bytes@, at as int) is None,
        },
{
    let total = bytes.len();
    let length = match take_length(bytes, at) {
        Some(n) => n as usize,
        None => {
            return None;
        },
    };
    let body_at = at + 4;
    if length > total - body_at {
        return None;
    }
    let end = body_at + length;
    let body = slice_to_vec(slice_subrange(bytes, body_at, end));
    match string_from_utf8(body) {
        Some(string) => {
            proof {
                vstd::utf8::encode_utf8_decode_utf8(string@);
            }
            Some((string, end))
        },
        None => None,
    }
}

/// Reads the record at `at`, with the position that follows it.
fn take_layer(bytes: &[u8], at: usize) -> (taken: Option<(Layer, usize)>)
    requires
        at <= bytes@.len(),
    ensures
        match taken {
            Some((layer, end)) => layer_at(bytes@, at as int) == Some((layer@, end as int)),
            None => layer_at(bytes@, at as int) is None,
        },
{
    let (owner_id, uri_at) = match take_string(bytes, at) {
        Some(taken) => taken,
        None => {
            return None;
        },
    };
    proof {
        lemma_string_was_written(bytes@, at as int);
    }
    let (token_uri, votes_at) = match take_string(bytes, uri_at) {
        Some(taken) => taken,
        None => {
            return None;
        },
    };
    proof {
        lemma_string_was_written(bytes@, uri_at as int);
    }
    if bytes.len() - votes_at < 2 {
        return None;
    }
    let downvotes = byte_to_counter(bytes[votes_at]);
    let upvotes = byte_to_counter(bytes[votes_at + 1]);
    Some((Layer { owner_id, token_uri, downvotes, upvotes }, votes_at + 2))
}

impl Welcome {
    /// The registry's encoding, or `None` where the registry cannot be
    /// written: where it holds more than `u32::MAX` records, or a string
    /// whose UTF-8 form is longer than `u32::MAX` bytes.
    pub fn try_to_vec(&self) -> (encoding: Option<Vec<u8>>)
        ensures
            match encoding {
                Some(bytes) => encodes(bytes@, self@),
                None => !fits(self@),
            },
    {
        let count = self.layers.len();
        if count > u32::MAX as usize {
            return None;
        }
        let mut out: Vec<u8> = Vec::new();
        put_length(&mut out, count as u32);
        let mut i: usize = 0;
        while i < count
            invariant
                i <= count == self.layers.len(),
                count <= u32::MAX,
                out@ == length_bytes(count as nat) + encoded_layers(self@.take(i as int)),
                forall|j: int| 0 <= j < i ==> layer_fits(#[trigger] self@[j]),
            decreases count - i,
        {
            if !put_layer(&mut out, &self.layers[i]) {
                assert(!layer_fits(self@[i as int]));
                return None;
            }
            proof {
                let next = self@.take(i + 1);
                assert(next.drop_last() =~= self@.take(i as int));
            }
            i += 1;
        }
        assert(self@.take(count as int) =~= self@);
        Some(out)
    }

    /// The registry that `bytes` encodes, or `None` where `bytes` is not the
    /// encoding of any registry: where it ends early, holds a string that is
    /// not valid UTF-8, or goes on after the last record.
    pub fn try_from_slice(bytes: &[u8]) -> (decoding: Option<Welcome>)
        ensures
            match decoding {
                Some(registry) => decoded(bytes@) == Some(registry@),
                None => decoded(bytes@) is None,
            },
    {
        proof {
            lemma_decoded_is_parsed(bytes@);
        }
        let total = bytes.len();
        let count = match take_length(bytes, 0) {
            Some(n) => n,
            None => {
                return None;
            },
        };
        let mut layers: Vec<Layer> = Vec::new();
        let mut at: usize = 4;
        let mut i: u32 = 0;
        while i < count
            invariant
                4 <= at <= total == bytes@.len(),
                i <= count == bytes_length(bytes@.subrange(0, 4)),
                layers_at(bytes@, 4, i as nat) == Some((layers.deep_view(), at as int)),
                decoded(bytes@) == parsed(bytes@),
            decreases count - i,
        {
            match take_layer(bytes, at) {
                Some((layer, end)) => {
                    proof {
                        lemma_layer_was_written(bytes@, at as int);
                    }
                    layers.push(layer);
                    at = end;
                },
                None => {
                    proof {
                        lemma_layers_missing(bytes@, 4, (i + 1) as nat, count as nat);
                    }
                    return None;
                },
            }
            i += 1;
        }
        if at != total {
            return None;
        }
        Some(Welcome { layers })
    }
}

} // verus!
