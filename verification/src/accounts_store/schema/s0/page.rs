//! The keys and the pages of the store.

use crate::wire::text::{lemma_byte_models, put_bytes, take_bytes};
use crate::wire::Wire;
use vstd::prelude::*;

verus! {

/// The number of bytes that one page holds at most.
pub const PAGE_CAPACITY: usize = 1024;

/// The number of pages that one account has at most: as many as there are
/// page numbers.
pub const MAX_PAGES: usize = 65536;

/// The key of one page: the account's key and the page's number. Keys are
/// ordered by the bytes of the account key first, then by the page number.
#[derive(Debug, PartialEq, Eq, PartialOrd, Ord, Hash)]
pub struct AccountStorageKey {
    pub account_key: Vec<u8>,
    pub page_num: u16,
}

impl View for AccountStorageKey {
    type V = (Seq<u8>, u16);

    open spec fn view(&self) -> (Seq<u8>, u16) {
        (self.account_key@, self.page_num)
    }
}

impl Clone for AccountStorageKey {
    fn clone(&self) -> (key: AccountStorageKey)
        ensures
            key@ == self@,
    {
        AccountStorageKey::new(self.page_num, self.account_key.as_slice())
    }
}

impl AccountStorageKey {
    /// The key of page `page_num` of the account `account_key`.
    pub fn new(page_num: u16, account_key: &[u8]) -> (key: AccountStorageKey)
        ensures
            key@ == (account_key@, page_num),
    {
        AccountStorageKey { account_key: vstd::slice::slice_to_vec(account_key), page_num }
    }

    /// The number of the page.
    pub fn page_num(&self) -> (page_num: u16)
        ensures
            page_num == self@.1,
    {
        self.page_num
    }
}

/// One page of a serialized account: at most [`PAGE_CAPACITY`] bytes.
#[derive(Debug, PartialEq, Eq)]
pub struct AccountStoragePage {
    bytes: Vec<u8>,
}

impl View for AccountStoragePage {
    type V = Seq<u8>;

    closed spec fn view(&self) -> Seq<u8> {
        self.bytes@
    }
}

impl Clone for AccountStoragePage {
    fn clone(&self) -> (page: AccountStoragePage)
        ensures
            page@ == self@,
    {
        proof {
            use_type_invariant(self);
        }
        let bytes: Vec<u8> = vstd::slice::slice_to_vec(self.bytes.as_slice());
        AccountStoragePage { bytes }
    }
}

impl AccountStoragePage {
    #[verifier::type_invariant]
    spec fn within_capacity(self) -> bool {
        self.bytes@.len() <= PAGE_CAPACITY
    }

    /// A page of the given bytes, or `None` where they are more than a page
    /// holds.
    pub fn new(bytes: &[u8]) -> (page: Option<AccountStoragePage>)
        ensures
            match page {
                Some(made) => bytes@.len() <= PAGE_CAPACITY && made@ == bytes@,
                None => bytes@.len() > PAGE_CAPACITY,
            },
    {
        if bytes.len() <= PAGE_CAPACITY {
            Some(AccountStoragePage { bytes: vstd::slice::slice_to_vec(bytes) })
        } else {
            None
        }
    }

    /// A page of the given bytes, which are no more than a page holds.
    pub(crate) fn of_chunk(bytes: &[u8]) -> (page: AccountStoragePage)
        requires
            bytes@.len() <= PAGE_CAPACITY,
        ensures
            page@ == bytes@,
    {
        AccountStoragePage { bytes: vstd::slice::slice_to_vec(bytes) }
    }

    /// The bytes of the page.
    pub fn as_slice(&self) -> (bytes: &[u8])
        ensures
            bytes@ == self@,
            bytes@.len() <= PAGE_CAPACITY,
    {
        proof {
            use_type_invariant(self);
        }
        self.bytes.as_slice()
    }

    /// The number of bytes of the page.
    pub fn len(&self) -> (n: usize)
        ensures
            n == self@.len(),
            n <= PAGE_CAPACITY,
    {
        proof {
            use_type_invariant(self);
        }
        self.bytes.len()
    }
}

impl Wire for AccountStorageKey {
    type Model = (Seq<u8>, u16);

    open spec fn model(&self) -> (Seq<u8>, u16) {
        self@
    }

    open spec fn fits(m: (Seq<u8>, u16)) -> bool {
        <(Vec<u8>, u16) as Wire>::fits(m)
    }

    open spec fn wire(m: (Seq<u8>, u16)) -> Seq<u8> {
        <(Vec<u8>, u16) as Wire>::wire(m)
    }

    open spec fn parse(s: Seq<u8>) -> Option<((Seq<u8>, u16), int)> {
        <(Vec<u8>, u16) as Wire>::parse(s)
    }

    proof fn lemma_parse_bounds(s: Seq<u8>) {
        <(Vec<u8>, u16) as Wire>::lemma_parse_bounds(s);
    }

    proof fn lemma_round_trip(m: (Seq<u8>, u16), rest: Seq<u8>) {
        <(Vec<u8>, u16) as Wire>::lemma_round_trip(m, rest);
    }

    proof fn lemma_parse_is_wire(s: Seq<u8>) {
        <(Vec<u8>, u16) as Wire>::lemma_parse_is_wire(s);
    }

    fn write(&self, out: &mut Vec<u8>) {
        proof {
            lemma_byte_models(self.account_key@);
        }
        self.account_key.write(out);
        self.page_num.write(out);
    }

    fn read(input: &[u8], pos: usize) -> (r: Option<(AccountStorageKey, usize)>) {
        match <(Vec<u8>, u16) as Wire>::read(input, pos) {
            Some(((account_key, page_num), end)) => {
                proof {
                    lemma_byte_models(account_key@);
                }
                Some((AccountStorageKey { account_key, page_num }, end))
            },
            None => None,
        }
    }
}

impl Wire for AccountStoragePage {
    type Model = Seq<u8>;

    open spec fn model(&self) -> Seq<u8> {
        self@
    }

    open spec fn fits(m: Seq<u8>) -> bool {
        m.len() <= PAGE_CAPACITY
    }

    open spec fn wire(m: Seq<u8>) -> Seq<u8> {
        Vec::<u8>::wire(m)
    }

    open spec fn parse(s: Seq<u8>) -> Option<(Seq<u8>, int)> {
        match Vec::<u8>::parse(s) {
            Some((bytes, n)) => if bytes.len() <= PAGE_CAPACITY {
                Some((bytes, n))
            } else {
                None
            },
            None => None,
        }
    }

    proof fn lemma_parse_bounds(s: Seq<u8>) {
        Vec::<u8>::lemma_parse_bounds(s);
    }

    proof fn lemma_round_trip(m: Seq<u8>, rest: Seq<u8>) {
        Vec::<u8>::lemma_round_trip(m, rest);
    }

    proof fn lemma_parse_is_wire(s: Seq<u8>) {
        Vec::<u8>::lemma_parse_is_wire(s);
    }

    fn write(&self, out: &mut Vec<u8>) {
        proof {
            use_type_invariant(self);
        }
        put_bytes(self.bytes.as_slice(), out);
    }

    fn read(input: &[u8], pos: usize) -> (r: Option<(AccountStoragePage, usize)>) {
        match take_bytes(input, pos) {
            Some((bytes, end)) => if bytes.len() <= PAGE_CAPACITY {
                Some((AccountStoragePage { bytes }, end))
            } else {
                None
            },
            None => None,
        }
    }
}

} // verus!
