//! The byte format shared by every record of this crate.
//!
//! Each encodable type names a mathematical model of its values, the bytes
//! that stand for a model (`wire`), and the value that a byte string starts
//! with (`parse`). Writing and reading are proved against these two;
//! `lemma_round_trip` states that whatever was written is read back, and
//! `lemma_parse_is_wire` that nothing else is.

pub mod list;
pub mod number;
pub mod table;
pub mod text;

pub use crate::wire::list::{
    after, all_fit, lemma_items_round_trip, lemma_parse_items_bounds, lemma_parse_items_is_wire,
    lemma_wire_items_push, models, parse_items, wire_items, write_slice,
};
pub use crate::wire::number::{
    be_u16, be_u64, be_u64_value, digit, lemma_be_u64_value, lemma_digits_of_value, put_u64,
    take_u64,
};
use vstd::prelude::*;

verus! {

/// A type with a byte format.
pub trait Wire: Sized {
    /// What a value is, apart from how it is held in memory.
    type Model;

    /// The model of this value.
    spec fn model(&self) -> Self::Model;

    /// Whether the format can hold `m`: its lengths fit their length fields.
    spec fn fits(m: Self::Model) -> bool;

    /// The bytes that stand for `m`.
    spec fn wire(m: Self::Model) -> Seq<u8>;

    /// The value that `s` starts with and the number of bytes it takes, or
    /// `None` where `s` starts with no value.
    spec fn parse(s: Seq<u8>) -> Option<(Self::Model, int)>;

    /// A parsed value takes at least one byte and no more than there are, and
    /// can be written again.
    proof fn lemma_parse_bounds(s: Seq<u8>)
        ensures
            Self::parse(s) matches Some((m, n)) ==> 0 < n <= s.len() && Self::fits(m),
    ;

    /// The bytes of `m`, followed by anything, parse as `m` and stop where
    /// the bytes of `m` end.
    proof fn lemma_round_trip(m: Self::Model, rest: Seq<u8>)
        requires
            Self::fits(m),
        ensures
            Self::parse(Self::wire(m) + rest) == Some((m, Self::wire(m).len() as int)),
    ;

    /// Each value has one byte string only: the bytes that a value was
    /// parsed from are the bytes of the value.
    proof fn lemma_parse_is_wire(s: Seq<u8>)
        ensures
            Self::parse(s) matches Some((m, n)) ==> 0 <= n <= s.len() && Self::wire(m) == s.take(n),
    ;

    /// Appends the bytes of this value to `out`. Every value held in memory
    /// can be written.
    fn write(&self, out: &mut Vec<u8>)
        ensures
            Self::fits(self.model()),
            final(out)@ == old(out)@ + Self::wire(self.model()),
    ;

    /// Reads the value that starts at `pos`, and returns it with the position
    /// behind it.
    fn read(input: &[u8], pos: usize) -> (r: Option<(Self, usize)>)
        requires
            pos <= input@.len(),
        ensures
            match Self::parse(input@.skip(pos as int)) {
                Some((m, n)) => r matches Some((v, end)) && v.model() == m && end == pos + n,
                None => r is None,
            },
    ;
}

impl<T: Wire> Wire for Option<T> {
    type Model = Option<T::Model>;

    open spec fn model(&self) -> Option<T::Model> {
        match *self {
            Some(value) => Some(value.model()),
            None => None,
        }
    }

    open spec fn fits(m: Option<T::Model>) -> bool {
        m matches Some(value) ==> T::fits(value)
    }

    open spec fn wire(m: Option<T::Model>) -> Seq<u8> {
        match m {
            Some(value) => seq![1u8] + T::wire(value),
            None => seq![0u8],
        }
    }

    open spec fn parse(s: Seq<u8>) -> Option<(Option<T::Model>, int)> {
        if s.len() >= 1 && s[0] == 0 {
            Some((None, 1))
        } else if s.len() >= 1 && s[0] == 1 {
            match T::parse(s.skip(1)) {
                Some((value, n)) => Some((Some(value), 1 + n)),
                None => None,
            }
        } else {
            None
        }
    }

    proof fn lemma_parse_bounds(s: Seq<u8>) {
        if s.len() >= 1 {
            T::lemma_parse_bounds(s.skip(1));
        }
    }

    proof fn lemma_round_trip(m: Option<T::Model>, rest: Seq<u8>) {
        let s = Self::wire(m) + rest;
        match m {
            Some(value) => {
                assert(s.skip(1) =~= T::wire(value) + rest);
                T::lemma_round_trip(value, rest);
            },
            None => {},
        }
    }

    proof fn lemma_parse_is_wire(s: Seq<u8>) {
        if s.len() >= 1 && s[0] == 0 {
            assert(seq![0u8] =~= s.take(1));
        } else if s.len() >= 1 && s[0] == 1 {
            T::lemma_parse_is_wire(s.skip(1));
            if let Some((value, n)) = T::parse(s.skip(1)) {
                assert(seq![1u8] + s.skip(1).take(n) =~= s.take(1 + n));
            }
        }
    }

    fn write(&self, out: &mut Vec<u8>) {
        match self {
            Some(value) => {
                out.push(1);
                value.write(out);
            },
            None => {
                out.push(0);
            },
        }
    }

    fn read(input: &[u8], pos: usize) -> (r: Option<(Option<T>, usize)>) {
        if pos >= input.len() {
            return None;
        }
        let tag: u8 = input[pos];
        if tag == 0 {
            Some((None, pos + 1))
        } else if tag == 1 {
            assert(input@.skip(pos as int).skip(1) =~= input@.skip(pos + 1));
            match T::read(input, pos + 1) {
                Some((value, end)) => Some((Some(value), end)),
                None => None,
            }
        } else {
            None
        }
    }
}

impl<A: Wire, B: Wire> Wire for (A, B) {
    type Model = (A::Model, B::Model);

    open spec fn model(&self) -> (A::Model, B::Model) {
        (self.0.model(), self.1.model())
    }

    open spec fn fits(m: (A::Model, B::Model)) -> bool {
        A::fits(m.0) && B::fits(m.1)
    }

    open spec fn wire(m: (A::Model, B::Model)) -> Seq<u8> {
        A::wire(m.0) + B::wire(m.1)
    }

    open spec fn parse(s: Seq<u8>) -> Option<((A::Model, B::Model), int)> {
        match A::parse(s) {
            Some((first, n)) => match B::parse(s.skip(n)) {
                Some((second, k)) => Some(((first, second), n + k)),
                None => None,
            },
            None => None,
        }
    }

    proof fn lemma_parse_bounds(s: Seq<u8>) {
        A::lemma_parse_bounds(s);
        if let Some((first, n)) = A::parse(s) {
            B::lemma_parse_bounds(s.skip(n));
        }
    }

    proof fn lemma_round_trip(m: (A::Model, B::Model), rest: Seq<u8>) {
        let s = Self::wire(m) + rest;
        assert(s =~= A::wire(m.0) + (B::wire(m.1) + rest));
        A::lemma_round_trip(m.0, B::wire(m.1) + rest);
        assert(s.skip(A::wire(m.0).len() as int) =~= B::wire(m.1) + rest);
        B::lemma_round_trip(m.1, rest);
    }

    proof fn lemma_parse_is_wire(s: Seq<u8>) {
        A::lemma_parse_is_wire(s);
        if let Some((first, n)) = A::parse(s) {
            B::lemma_parse_is_wire(s.skip(n));
        }
    }

    fn write(&self, out: &mut Vec<u8>) {
        self.0.write(out);
        self.1.write(out);
    }

    fn read(input: &[u8], pos: usize) -> (r: Option<((A, B), usize)>) {
        proof {
            A::lemma_parse_bounds(input@.skip(pos as int));
        }
        let (first, middle) = match A::read(input, pos) {
            Some(found) => found,
            None => {
                return None;
            },
        };
        assert(input@.skip(pos as int).skip(middle - pos) =~= input@.skip(middle as int));
        match B::read(input, middle) {
            Some((second, end)) => Some(((first, second), end)),
            None => None,
        }
    }
}

} // verus!
