//! The byte format of lists: the number of items as eight bytes, then the
//! items one after another.

use crate::wire::number::{
    be_u64, be_u64_value, lemma_be_u64_value, lemma_digits_of_value, put_u64, take_u64,
};
use crate::wire::Wire;
use vstd::prelude::*;

verus! {

/// The bytes of the items of `items`, one item after another.
pub open spec fn wire_items<T: Wire>(items: Seq<T::Model>) -> Seq<u8>
    decreases items.len(),
{
    if items.len() == 0 {
        Seq::empty()
    } else {
        T::wire(items[0]) + wire_items::<T>(items.skip(1))
    }
}

/// The `count` items that `s` starts with and the number of bytes they take.
pub open spec fn parse_items<T: Wire>(s: Seq<u8>, count: nat) -> Option<(Seq<T::Model>, int)>
    decreases count,
{
    if count == 0 {
        Some((Seq::empty(), 0))
    } else {
        match T::parse(s) {
            Some((head, n)) => match parse_items::<T>(s.skip(n), (count - 1) as nat) {
                Some((tail, k)) => Some((seq![head] + tail, n + k)),
                None => None,
            },
            None => None,
        }
    }
}

/// Whether the format can hold each item of `items`.
pub open spec fn all_fit<T: Wire>(items: Seq<T::Model>) -> bool {
    forall|i: int| 0 <= i < items.len() ==> T::fits(#[trigger] items[i])
}

/// The models of the items of a slice.
pub open spec fn models<T: Wire>(items: Seq<T>) -> Seq<T::Model> {
    Seq::new(items.len(), |i: int| items[i].model())
}

/// `front` placed before an optional parse result that took up where
/// `front` ended, `used` bytes into the input.
pub open spec fn after<M>(front: Seq<M>, used: int, back: Option<(Seq<M>, int)>) -> Option<
    (Seq<M>, int),
> {
    match back {
        Some((tail, k)) => Some((front + tail, used + k)),
        None => None,
    }
}

/// The bytes of a list with one more item are the bytes of the list, then
/// those of the item.
pub proof fn lemma_wire_items_push<T: Wire>(items: Seq<T::Model>, last: T::Model)
    ensures
        wire_items::<T>(items.push(last)) == wire_items::<T>(items) + T::wire(last),
    decreases items.len(),
{
    if items.len() == 0 {
        assert(wire_items::<T>(items.push(last).skip(1)) =~= Seq::<u8>::empty());
    } else {
        lemma_wire_items_push::<T>(items.skip(1), last);
        assert(items.push(last).skip(1) =~= items.skip(1).push(last));
    }
}

/// Parsed items are as many as were asked for, take at least a byte each
/// and no more bytes than there are, and can be written again.
pub proof fn lemma_parse_items_bounds<T: Wire>(s: Seq<u8>, count: nat)
    ensures
        parse_items::<T>(s, count) matches Some((items, k)) ==> items.len() == count && count <= k
            <= s.len() && all_fit::<T>(items),
    decreases count,
{
    if count > 0 {
        T::lemma_parse_bounds(s);
        if let Some((head, n)) = T::parse(s) {
            lemma_parse_items_bounds::<T>(s.skip(n), (count - 1) as nat);
        }
    }
}

/// The bytes of a list, followed by anything, parse as the list.
pub proof fn lemma_items_round_trip<T: Wire>(items: Seq<T::Model>, rest: Seq<u8>)
    requires
        all_fit::<T>(items),
    ensures
        parse_items::<T>(wire_items::<T>(items) + rest, items.len()) == Some(
            (items, wire_items::<T>(items).len() as int),
        ),
    decreases items.len(),
{
    if items.len() == 0 {
        assert(items =~= Seq::<T::Model>::empty());
    } else {
        let head = items[0];
        let tail = items.skip(1);
        let s = wire_items::<T>(items) + rest;
        let n = T::wire(head).len() as int;
        assert(s =~= T::wire(head) + (wire_items::<T>(tail) + rest));
        T::lemma_round_trip(head, wire_items::<T>(tail) + rest);
        assert(s.skip(n) =~= wire_items::<T>(tail) + rest);
        assert(all_fit::<T>(tail)) by {
            assert forall|i: int| 0 <= i < tail.len() implies T::fits(#[trigger] tail[i]) by {
                assert(tail[i] == items[i + 1]);
            }
        }
        lemma_items_round_trip::<T>(tail, rest);
        assert(seq![head] + tail =~= items);
    }
}

/// The bytes that items were parsed from are the bytes of the items.
pub proof fn lemma_parse_items_is_wire<T: Wire>(s: Seq<u8>, count: nat)
    ensures
        parse_items::<T>(s, count) matches Some((items, k)) ==> 0 <= k <= s.len()
            && wire_items::<T>(items) == s.take(k),
    decreases count,
{
    if count == 0 {
        assert(s.take(0) =~= Seq::<u8>::empty());
    } else {
        T::lemma_parse_is_wire(s);
        if let Some((head, n)) = T::parse(s) {
            lemma_parse_items_is_wire::<T>(s.skip(n), (count - 1) as nat);
            if let Some((tail, k)) = parse_items::<T>(s.skip(n), (count - 1) as nat) {
                let items = seq![head] + tail;
                assert(items[0] == head);
                assert(items.skip(1) =~= tail);
                assert(s.take(n) + s.skip(n).take(k) =~= s.take(n + k));
            }
        }
    }
}

/// Appends the count of `items` and then each item to `out`.
pub fn write_slice<T: Wire>(items: &[T], out: &mut Vec<u8>)
    ensures
        Vec::<T>::fits(models::<T>(items@)),
        final(out)@ == old(out)@ + Vec::<T>::wire(models::<T>(items@)),
{
    put_u64(items.len() as u64, out);
    let ghost all = models::<T>(items@);
    let mut i: usize = 0;
    while i < items.len()
        invariant
            i <= items@.len(),
            all == models::<T>(items@),
            all_fit::<T>(all.take(i as int)),
            out@ == old(out)@ + be_u64(items@.len() as u64) + wire_items::<T>(all.take(i as int)),
        decreases items@.len() - i,
    {
        let ghost before = out@;
        items[i].write(out);
        proof {
            lemma_wire_items_push::<T>(all.take(i as int), all[i as int]);
            assert(all.take(i as int).push(all[i as int]) =~= all.take(i as int + 1));
            assert(out@ =~= old(out)@ + be_u64(items@.len() as u64) + wire_items::<T>(
                all.take(i as int + 1),
            ));
            assert forall|j: int| 0 <= j < i + 1 implies T::fits(
                #[trigger] all.take(i as int + 1)[j],
            ) by {
                if j < i {
                    assert(all.take(i as int + 1)[j] == all.take(i as int)[j]);
                }
            }
        }
        i = i + 1;
    }
    proof {
        assert(all.take(i as int) =~= all);
        assert(out@ =~= old(out)@ + (be_u64(items@.len() as u64) + wire_items::<T>(all)));
    }
}

impl<T: Wire> Wire for Vec<T> {
    type Model = Seq<T::Model>;

    open spec fn model(&self) -> Seq<T::Model> {
        models::<T>(self@)
    }

    open spec fn fits(m: Seq<T::Model>) -> bool {
        m.len() <= u64::MAX && all_fit::<T>(m)
    }

    open spec fn wire(m: Seq<T::Model>) -> Seq<u8> {
        be_u64(m.len() as u64) + wire_items::<T>(m)
    }

    open spec fn parse(s: Seq<u8>) -> Option<(Seq<T::Model>, int)> {
        if s.len() >= 8 {
            after(Seq::empty(), 8, parse_items::<T>(s.skip(8), be_u64_value(s) as nat))
        } else {
            None
        }
    }

    proof fn lemma_parse_bounds(s: Seq<u8>) {
        if s.len() >= 8 {
            lemma_parse_items_bounds::<T>(s.skip(8), be_u64_value(s) as nat);
        }
    }

    proof fn lemma_round_trip(m: Seq<T::Model>, rest: Seq<u8>) {
        let s = Self::wire(m) + rest;
        lemma_be_u64_value(m.len() as u64, wire_items::<T>(m) + rest);
        assert(s.skip(8) =~= wire_items::<T>(m) + rest);
        lemma_items_round_trip::<T>(m, rest);
    }

    proof fn lemma_parse_is_wire(s: Seq<u8>) {
        if s.len() >= 8 {
            let count = be_u64_value(s);
            lemma_digits_of_value(s);
            lemma_parse_items_bounds::<T>(s.skip(8), count as nat);
            lemma_parse_items_is_wire::<T>(s.skip(8), count as nat);
        }
    }

    fn write(&self, out: &mut Vec<u8>) {
        write_slice::<T>(self.as_slice(), out);
    }

    fn read(input: &[u8], pos: usize) -> (r: Option<(Vec<T>, usize)>) {
        let (count, start) = match take_u64(input, pos) {
            Some(found) => found,
            None => {
                return None;
            },
        };
        let ghost s = input@.skip(pos as int).skip(8);
        let ghost whole = Self::parse(input@.skip(pos as int));
        let mut items: Vec<T> = Vec::new();
        let mut at: usize = start;
        let mut i: u64 = 0;
        assert(s.skip(0) =~= s);
        while i < count
            invariant
                i <= count,
                start == pos + 8,
                start <= at <= input@.len(),
                s == input@.skip(start as int),
                whole == Self::parse(input@.skip(pos as int)),
                whole == after(Seq::empty(), 8, parse_items::<T>(s, count as nat)),
                parse_items::<T>(s, count as nat) == after(
                    models::<T>(items@),
                    at - start,
                    parse_items::<T>(s.skip(at - start), (count - i) as nat),
                ),
            decreases count - i,
        {
            proof {
                assert(s.skip(at - start) =~= input@.skip(at as int));
                T::lemma_parse_bounds(input@.skip(at as int));
            }
            match T::read(input, at) {
                Some((item, end)) => {
                    proof {
                        assert(s.skip(at - start).skip(end - at) =~= s.skip(end - start));
                    }
                    items.push(item);
                    at = end;
                },
                None => {
                    return None;
                },
            }
            i = i + 1;
        }
        Some((items, at))
    }
}

} // verus!
