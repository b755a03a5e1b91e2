//! The byte format of small tables: maps from a one-byte key to a value.
//!
//! The entries stand in the order of their keys, each behind a byte 1 and
//! its key, and a byte 0 ends the table. A table whose keys do not rise is
//! refused, so that each table has one byte string only.

use crate::wire::Wire;
use std::collections::HashMap;
use vstd::prelude::*;
use vstd::std_specs::hash::group_hash_axioms;

verus! {

broadcast use group_hash_axioms;

/// The models of the values of a table, by key.
pub open spec fn entry_models<V: Wire>(entries: Map<u8, V>) -> Map<u8, V::Model> {
    Map::new(|d: u8| entries.dom().contains(d), |d: u8| entries[d].model())
}

/// The entries of `m` whose keys are `from` or more.
pub open spec fn from_key<M>(m: Map<u8, M>, from: int) -> Map<u8, M> {
    Map::new(|d: u8| d >= from && m.dom().contains(d), |d: u8| m[d])
}

/// The bytes of the entries of `m` whose keys are `from` or more, and of the
/// end of the table.
pub open spec fn wire_entries<V: Wire>(m: Map<u8, V::Model>, from: int) -> Seq<u8>
    decreases 256 - from,
{
    if from >= 256 {
        seq![0u8]
    } else if m.dom().contains(from as u8) {
        seq![1u8, from as u8] + V::wire(m[from as u8]) + wire_entries::<V>(m, from + 1)
    } else {
        wire_entries::<V>(m, from + 1)
    }
}

/// The table that `s` starts with, whose keys are `low` or more, and the
/// number of bytes it takes.
pub open spec fn parse_entries<V: Wire>(s: Seq<u8>, low: int) -> Option<(Map<u8, V::Model>, int)>
    decreases 256 - low,
{
    if s.len() >= 1 && s[0] == 0 {
        Some((Map::empty(), 1))
    } else if s.len() >= 2 && s[0] == 1 && s[1] >= low && low >= 0 {
        match V::parse(s.skip(2)) {
            Some((value, n)) => match parse_entries::<V>(s.skip(2 + n), s[1] + 1) {
                Some((others, k)) => Some((others.insert(s[1], value), 2 + n + k)),
                None => None,
            },
            None => None,
        }
    } else {
        None
    }
}

/// The entries read so far, placed before an optional parse result that took
/// up where they ended.
pub open spec fn joined_tables<M>(front: Map<u8, M>, used: int, back: Option<(Map<u8, M>, int)>)
    -> Option<(Map<u8, M>, int)> {
    match back {
        Some((others, k)) => Some((front.union_prefer_right(others), used + k)),
        None => None,
    }
}

/// A parsed table has keys of `low` or more only, takes at least a byte and
/// no more bytes than there are, and can be written again.
pub proof fn lemma_parse_entries_bounds<V: Wire>(s: Seq<u8>, low: int)
    ensures
        parse_entries::<V>(s, low) matches Some((m, n)) ==> 0 < n <= s.len() && (forall|d: u8|
            #[trigger] m.dom().contains(d) ==> d >= low && V::fits(m[d])),
    decreases 256 - low,
{
    if s.len() >= 1 && s[0] == 0 {
    } else if s.len() >= 2 && s[0] == 1 && s[1] >= low && low >= 0 {
        V::lemma_parse_bounds(s.skip(2));
        if let Some((value, n)) = V::parse(s.skip(2)) {
            lemma_parse_entries_bounds::<V>(s.skip(2 + n), s[1] + 1);
            if let Some((others, k)) = parse_entries::<V>(s.skip(2 + n), s[1] + 1) {
                let m = others.insert(s[1], value);
                assert forall|d: u8| #[trigger] m.dom().contains(d) implies d >= low && V::fits(
                    m[d],
                ) by {
                    if d != s[1] {
                        assert(others.dom().contains(d));
                    }
                }
            }
        }
    }
}

/// A table that parses with keys of `low` or more parses alike where lower
/// keys are let in.
pub proof fn lemma_parse_entries_lower<V: Wire>(s: Seq<u8>, low: int, lower: int)
    requires
        0 <= lower <= low,
        parse_entries::<V>(s, low) is Some,
    ensures
        parse_entries::<V>(s, lower) == parse_entries::<V>(s, low),
{
}

/// The bytes of the entries from `from` on, followed by anything, parse as
/// those entries.
pub proof fn lemma_entries_round_trip<V: Wire>(m: Map<u8, V::Model>, from: int, rest: Seq<u8>)
    requires
        0 <= from <= 256,
        forall|d: u8| #[trigger] m.dom().contains(d) ==> V::fits(m[d]),
    ensures
        parse_entries::<V>(wire_entries::<V>(m, from) + rest, from) == Some(
            (from_key(m, from), wire_entries::<V>(m, from).len() as int),
        ),
    decreases 256 - from,
{
    let s = wire_entries::<V>(m, from) + rest;
    if from >= 256 {
        assert(s[0] == 0);
        assert(from_key(m, from) =~= Map::<u8, V::Model>::empty());
    } else if m.dom().contains(from as u8) {
        let value = m[from as u8];
        let tail = wire_entries::<V>(m, from + 1);
        let n = V::wire(value).len() as int;
        assert(s =~= seq![1u8, from as u8] + (V::wire(value) + (tail + rest)));
        assert(s[0] == 1 && s[1] == from);
        assert(s.skip(2) =~= V::wire(value) + (tail + rest));
        V::lemma_round_trip(value, tail + rest);
        assert(s.skip(2 + n) =~= tail + rest);
        lemma_entries_round_trip::<V>(m, from + 1, rest);
        assert(from_key(m, from + 1).insert(from as u8, value) =~= from_key(m, from));
    } else {
        lemma_entries_round_trip::<V>(m, from + 1, rest);
        lemma_parse_entries_lower::<V>(s, from + 1, from);
        assert(from_key(m, from + 1) =~= from_key(m, from));
    }
}

/// Tables that hold the same entries from the key `from` on have the same
/// bytes from there on.
pub proof fn lemma_wire_entries_agree<V: Wire>(
    a: Map<u8, V::Model>,
    b: Map<u8, V::Model>,
    from: int,
)
    requires
        0 <= from,
        forall|d: u8| d >= from ==> a.dom().contains(d) == b.dom().contains(d),
        forall|d: u8| d >= from && a.dom().contains(d) ==> a[d] == b[d],
    ensures
        wire_entries::<V>(a, from) == wire_entries::<V>(b, from),
    decreases 256 - from,
{
    if from < 256 {
        lemma_wire_entries_agree::<V>(a, b, from + 1);
    }
}

/// Keys that a table does not hold add nothing to its bytes.
pub proof fn lemma_wire_entries_skip<V: Wire>(m: Map<u8, V::Model>, from: int, to: int)
    requires
        0 <= from <= to <= 256,
        forall|d: u8| from <= d < to ==> !m.dom().contains(d),
    ensures
        wire_entries::<V>(m, from) == wire_entries::<V>(m, to),
    decreases to - from,
{
    if from < to {
        lemma_wire_entries_skip::<V>(m, from + 1, to);
    }
}

/// The bytes that a table was parsed from are the bytes of the table, from
/// the lowest key that was let in.
pub proof fn lemma_parse_entries_is_wire<V: Wire>(s: Seq<u8>, low: int)
    requires
        0 <= low <= 256,
    ensures
        parse_entries::<V>(s, low) matches Some((m, n)) ==> 0 <= n <= s.len() && wire_entries::<V>(
            m,
            low,
        ) == s.take(n),
    decreases 256 - low,
{
    lemma_parse_entries_bounds::<V>(s, low);
    if s.len() >= 1 && s[0] == 0 {
        let m = Map::<u8, V::Model>::empty();
        lemma_wire_entries_skip::<V>(m, low, 256);
        assert(seq![0u8] =~= s.take(1));
    } else if s.len() >= 2 && s[0] == 1 && s[1] >= low && low >= 0 {
        let d = s[1];
        V::lemma_parse_is_wire(s.skip(2));
        V::lemma_parse_bounds(s.skip(2));
        if let Some((value, n)) = V::parse(s.skip(2)) {
            lemma_parse_entries_is_wire::<V>(s.skip(2 + n), d + 1);
            lemma_parse_entries_bounds::<V>(s.skip(2 + n), d + 1);
            if let Some((others, k)) = parse_entries::<V>(s.skip(2 + n), d + 1) {
                let m = others.insert(d, value);
                assert forall|e: u8| low <= e < d implies !m.dom().contains(e) by {
                    if others.dom().contains(e) {
                        assert(e >= d + 1);
                    }
                }
                lemma_wire_entries_skip::<V>(m, low, d as int);
                lemma_wire_entries_agree::<V>(m, others, d + 1);
                assert(s.skip(2).take(n) + s.skip(2 + n).take(k) =~= s.skip(2).take(n + k));
                assert(seq![1u8, d] + s.skip(2).take(n + k) =~= s.take(2 + n + k));
                assert(seq![1u8, d] + V::wire(value) + wire_entries::<V>(m, d + 1) =~= seq![1u8, d]
                    + (s.skip(2).take(n) + s.skip(2 + n).take(k)));
            }
        }
    }
}

impl<V: Wire> Wire for HashMap<u8, V> {
    type Model = Map<u8, V::Model>;

    open spec fn model(&self) -> Map<u8, V::Model> {
        entry_models::<V>(self@)
    }

    open spec fn fits(m: Map<u8, V::Model>) -> bool {
        forall|d: u8| #[trigger] m.dom().contains(d) ==> V::fits(m[d])
    }

    open spec fn wire(m: Map<u8, V::Model>) -> Seq<u8> {
        wire_entries::<V>(m, 0)
    }

    open spec fn parse(s: Seq<u8>) -> Option<(Map<u8, V::Model>, int)> {
        parse_entries::<V>(s, 0)
    }

    proof fn lemma_parse_bounds(s: Seq<u8>) {
        lemma_parse_entries_bounds::<V>(s, 0);
    }

    proof fn lemma_round_trip(m: Map<u8, V::Model>, rest: Seq<u8>) {
        lemma_entries_round_trip::<V>(m, 0, rest);
    }

    proof fn lemma_parse_is_wire(s: Seq<u8>) {
        lemma_parse_entries_is_wire::<V>(s, 0);
    }

    fn write(&self, out: &mut Vec<u8>) {
        let ghost m = self.model();
        let mut d: u16 = 0;
        while d < 256
            invariant
                d <= 256,
                m == self.model(),
                forall|e: u8| e < d && #[trigger] m.dom().contains(e) ==> V::fits(m[e]),
                old(out)@ + wire_entries::<V>(m, 0) == out@ + wire_entries::<V>(m, d as int),
            decreases 256 - d,
        {
            let key: u8 = d as u8;
            match self.get(&key) {
                Some(value) => {
                    out.push(1);
                    out.push(key);
                    value.write(out);
                },
                None => {},
            }
            d = d + 1;
        }
        out.push(0);
    }

    fn read(input: &[u8], pos: usize) -> (r: Option<(HashMap<u8, V>, usize)>) {
        let ghost s = input@.skip(pos as int);
        let mut entries: HashMap<u8, V> = HashMap::new();
        let mut at: usize = pos;
        let mut low: u16 = 0;
        assert(s.skip(0) =~= s);
        loop
            invariant
                low <= 256,
                pos <= at <= input@.len(),
                s == input@.skip(pos as int),
                forall|d: u8| entries@.dom().contains(d) ==> d < low,
                parse_entries::<V>(s, 0) == joined_tables(
                    entry_models::<V>(entries@),
                    at - pos,
                    parse_entries::<V>(s.skip(at - pos), low as int),
                ),
            decreases 256 - low,
        {
            let ghost here = s.skip(at - pos);
            if at >= input.len() {
                return None;
            }
            let tag: u8 = input[at];
            if tag == 0 {
                proof {
                    assert(entry_models::<V>(entries@).union_prefer_right(
                        Map::<u8, V::Model>::empty(),
                    ) =~= entry_models::<V>(entries@));
                }
                return Some((entries, at + 1));
            }
            if tag != 1 || input.len() - at < 2 {
                return None;
            }
            let key: u8 = input[at + 1];
            if (key as u16) < low {
                return None;
            }
            assert(here.skip(2) =~= input@.skip(at + 2));
            proof {
                V::lemma_parse_bounds(input@.skip(at + 2));
            }
            match V::read(input, at + 2) {
                Some((value, end)) => {
                    proof {
                        let n = end - (at + 2);
                        assert(here.skip(2 + n) =~= s.skip(end - pos));
                        lemma_parse_entries_bounds::<V>(s.skip(end - pos), key + 1);
                    }
                    entries.insert(key, value);
                    at = end;
                    low = key as u16 + 1;
                },
                None => {
                    return None;
                },
            }
        }
    }
}

} // verus!
