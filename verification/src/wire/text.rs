//! The byte format of strings: the UTF-8 bytes of the string, as a list of
//! bytes.

use crate::wire::{be_u64, models, parse_items, put_u64, take_u64, wire_items, Wire};
use vstd::prelude::*;
use vstd::utf8::{
    decode_utf8, decode_utf8_encode_utf8, encode_utf8, encode_utf8_decode_utf8,
    encode_utf8_valid_utf8, valid_utf8,
};

verus! {

/// `String::from_utf8`: the string whose UTF-8 encoding the bytes are, or
/// nothing where the bytes are not UTF-8.
#[verifier::external_body]
fn string_from_utf8(bytes: Vec<u8>) -> (text: Option<String>)
    ensures
        match text {
            Some(made) => encode_utf8(made@) == bytes@,
            None => !valid_utf8(bytes@),
        },
{
    String::from_utf8(bytes).ok()
}

/// The model of a list of bytes is the list.
pub proof fn lemma_byte_models(bytes: Seq<u8>)
    ensures
        models::<u8>(bytes) == bytes,
{
}

/// The bytes of a list of bytes are the list.
pub proof fn lemma_wire_bytes(bytes: Seq<u8>)
    ensures
        wire_items::<u8>(bytes) == bytes,
    decreases bytes.len(),
{
    if bytes.len() > 0 {
        lemma_wire_bytes(bytes.skip(1));
        assert(seq![bytes[0]] + bytes.skip(1) =~= bytes);
    } else {
        assert(bytes =~= Seq::<u8>::empty());
    }
}

/// The `count` bytes that `s` starts with are its first `count` bytes,
/// where it has as many.
pub proof fn lemma_parse_bytes(s: Seq<u8>, count: nat)
    ensures
        parse_items::<u8>(s, count) == if count <= s.len() {
            Some((s.take(count as int), count as int))
        } else {
            None
        },
    decreases count,
{
    if count > 0 {
        if s.len() >= 1 {
            lemma_parse_bytes(s.skip(1), (count - 1) as nat);
            if count <= s.len() {
                assert(seq![s[0]] + s.skip(1).take(count - 1) =~= s.take(count as int));
            }
        }
    } else {
        assert(s.take(0) =~= Seq::<u8>::empty());
    }
}

/// Appends the number of `bytes` and then `bytes` to `out`.
pub fn put_bytes(bytes: &[u8], out: &mut Vec<u8>)
    ensures
        Vec::<u8>::fits(bytes@),
        final(out)@ == old(out)@ + Vec::<u8>::wire(bytes@),
{
    put_u64(bytes.len() as u64, out);
    out.extend_from_slice(bytes);
    proof {
        lemma_wire_bytes(bytes@);
    }
}

/// Reads the list of bytes that starts at `pos`.
pub fn take_bytes(input: &[u8], pos: usize) -> (r: Option<(Vec<u8>, usize)>)
    requires
        pos <= input@.len(),
    ensures
        match Vec::<u8>::parse(input@.skip(pos as int)) {
            Some((m, n)) => r matches Some((v, end)) && v@ == m && end == pos + n,
            None => r is None,
        },
{
    let (count, start) = match take_u64(input, pos) {
        Some(found) => found,
        None => {
            return None;
        },
    };
    let ghost s = input@.skip(pos as int);
    proof {
        lemma_parse_bytes(s.skip(8), count as nat);
    }
    if count > (input.len() - start) as u64 {
        return None;
    }
    let end: usize = start + count as usize;
    let bytes: Vec<u8> = vstd::slice::slice_to_vec(vstd::slice::slice_subrange(input, start, end));
    Some((bytes, end))
}

impl Wire for String {
    type Model = Seq<char>;

    open spec fn model(&self) -> Seq<char> {
        self@
    }

    open spec fn fits(m: Seq<char>) -> bool {
        Vec::<u8>::fits(encode_utf8(m))
    }

    open spec fn wire(m: Seq<char>) -> Seq<u8> {
        Vec::<u8>::wire(encode_utf8(m))
    }

    open spec fn parse(s: Seq<u8>) -> Option<(Seq<char>, int)> {
        match Vec::<u8>::parse(s) {
            Some((bytes, n)) => if valid_utf8(bytes) {
                Some((decode_utf8(bytes), n))
            } else {
                None
            },
            None => None,
        }
    }

    proof fn lemma_parse_bounds(s: Seq<u8>) {
        Vec::<u8>::lemma_parse_bounds(s);
        if let Some((bytes, n)) = Vec::<u8>::parse(s) {
            if valid_utf8(bytes) {
                decode_utf8_encode_utf8(bytes);
            }
        }
    }

    proof fn lemma_round_trip(m: Seq<char>, rest: Seq<u8>) {
        Vec::<u8>::lemma_round_trip(encode_utf8(m), rest);
        encode_utf8_valid_utf8(m);
        encode_utf8_decode_utf8(m);
    }

    proof fn lemma_parse_is_wire(s: Seq<u8>) {
        Vec::<u8>::lemma_parse_is_wire(s);
        if let Some((bytes, n)) = Vec::<u8>::parse(s) {
            if valid_utf8(bytes) {
                decode_utf8_encode_utf8(bytes);
            }
        }
    }

    fn write(&self, out: &mut Vec<u8>) {
        put_bytes(self.as_str().as_bytes(), out);
    }

    fn read(input: &[u8], pos: usize) -> (r: Option<(String, usize)>) {
        match take_bytes(input, pos) {
            Some((bytes, end)) => {
                match string_from_utf8(bytes) {
                    Some(text) => {
                        proof {
                            encode_utf8_valid_utf8(text@);
                            encode_utf8_decode_utf8(text@);
                        }
                        Some((text, end))
                    },
                    None => None,
                }
            },
            None => None,
        }
    }
}

} // verus!
