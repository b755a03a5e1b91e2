//! Accounts stored page by page.
//!
//! A serialized account is cut into pages of a fixed capacity, which are
//! stored under the account's key and the page's number. An account is there
//! if and only if its page 0 is there, and its bytes are those of its pages
//! 0, 1, 2 and so on up to the first page that is missing.

pub mod heap;
pub mod model;
pub mod order;
pub mod page;

pub use crate::accounts_store::schema::s0::model::{
    account_keys, after_insert, after_remove, all_intact, chunk, contiguous, gapless, has_page,
    intact, joined, lemma_account_keys_finite, lemma_account_keys_follow, lemma_empty_store,
    lemma_insert_account_then_get, lemma_insert_exact_pages, lemma_insert_keeps_others,
    lemma_insert_then_get, lemma_joined_chunks, lemma_other_accounts_kept, lemma_remove_clears,
    lemma_remove_keeps_others, lemma_run_end, lemma_run_end_bounds, lemma_same_contiguous,
    lemma_same_joined, lemma_same_record, lemma_same_run_end, lemma_store_stays_in_order,
    page_at, page_count, run_end, stored_account, stored_bytes, with_pages, without_pages,
    PageMap,
};
pub use crate::accounts_store::schema::s0::page::{
    AccountStorageKey, AccountStoragePage, MAX_PAGES, PAGE_CAPACITY,
};
use crate::accounts_store::Account;
use crate::wire::Wire;
use vstd::prelude::*;

verus! {

/// Why a store refused an account.
#[derive(Clone, Copy, Debug, PartialEq, Eq, Structural)]
pub enum StoreError {
    /// The serialized account takes more pages than there are page numbers.
    AccountTooLarge,
    /// The bytes stored for the account are not those of an account.
    CorruptAccount,
}

/// The number of pages that `len` bytes take.
pub fn pages_needed(len: usize) -> (n: usize)
    ensures
        n == page_count(len as nat),
        n * PAGE_CAPACITY >= len,
        n > 0 ==> (n - 1) * PAGE_CAPACITY < len,
{
    if len % PAGE_CAPACITY == 0 {
        len / PAGE_CAPACITY
    } else {
        len / PAGE_CAPACITY + 1
    }
}

/// The key of page `i` of the account `account_key`.
fn page_key(account_key: &[u8], i: usize) -> (key: AccountStorageKey)
    requires
        i < MAX_PAGES,
    ensures
        key@ == (account_key@, i as u16),
{
    AccountStorageKey::new(i as u16, account_key)
}

/// A store of account pages.
///
/// An implementation supplies a map from page keys to pages: lookup,
/// insertion, removal and the number of accounts. The trait builds on these
/// the storing, reading and removing of whole records.
pub trait AccountsDbS0Trait {
    /// The pages that the store holds.
    spec fn pages(&self) -> PageMap;

    /// A store holds finitely many pages.
    proof fn lemma_pages_finite(&self)
        ensures
            self.pages().dom().finite(),
    ;

    /// The page stored under the key, if any.
    fn s0_get_account_page(&self, account_storage_key: &AccountStorageKey) -> (page: Option<
        AccountStoragePage,
    >)
        ensures
            match page {
                Some(found) => page_at(self.pages(), account_storage_key@) == Some(found@),
                None => page_at(self.pages(), account_storage_key@) is None,
            },
    ;

    /// Stores a page under the key and returns the page that was there.
    fn s0_insert_account_page(
        &mut self,
        account_storage_key: AccountStorageKey,
        account: AccountStoragePage,
    ) -> (previous: Option<AccountStoragePage>)
        ensures
            final(self).pages() == old(self).pages().insert(account_storage_key@, account@),
            match previous {
                Some(found) => page_at(old(self).pages(), account_storage_key@) == Some(found@),
                None => page_at(old(self).pages(), account_storage_key@) is None,
            },
    ;

    /// Whether a page is stored under the key.
    fn s0_contains_account_page(&self, account_storage_key: &AccountStorageKey) -> (found: bool)
        ensures
            found == self.pages().dom().contains(account_storage_key@),
    ;

    /// Removes the page stored under the key and returns it.
    fn s0_remove_account_page(&mut self, account_storage_key: &AccountStorageKey) -> (removed:
        Option<AccountStoragePage>)
        ensures
            final(self).pages() == old(self).pages().remove(account_storage_key@),
            match removed {
                Some(found) => page_at(old(self).pages(), account_storage_key@) == Some(found@),
                None => page_at(old(self).pages(), account_storage_key@) is None,
            },
    ;

    /// The number of accounts: of keys that have a page 0.
    fn s0_accounts_len(&self) -> (n: u64)
        ensures
            n == account_keys(self.pages()).len(),
    ;

    /// Whether the account is stored: whether its page 0 is.
    fn s0_contains_account(&self, account_key: &[u8]) -> (found: bool)
        ensures
            found == account_keys(self.pages()).contains(account_key@),
            found == stored_bytes(self.pages(), account_key@).is_some(),
    {
        let key = page_key(account_key, 0);
        self.s0_contains_account_page(&key)
    }

    /// Stores `data` as the record of the account, in place of the record
    /// that was there. A record of more than [`MAX_PAGES`] pages is refused
    /// before anything is written.
    fn s0_insert_bytes(&mut self, account_key: &[u8], data: &[u8]) -> (r: Result<(), StoreError>)
        ensures
            match r {
                Ok(_) => page_count(data@.len()) <= MAX_PAGES && final(self).pages()
                    == after_insert(old(self).pages(), account_key@, data@),
                Err(e) => e == StoreError::AccountTooLarge && page_count(data@.len()) > MAX_PAGES
                    && final(self).pages() == old(self).pages(),
            },
    {
        let ghost before = self.pages();
        let ghost k = account_key@;
        let len: usize = data.len();
        let count: usize = pages_needed(len);
        if count > MAX_PAGES {
            return Err(StoreError::AccountTooLarge);
        }
        let mut i: usize = 0;
        while i < count
            invariant
                i <= count <= MAX_PAGES,
                len == data@.len(),
                k == account_key@,
                count * PAGE_CAPACITY >= len,
                count > 0 ==> (count - 1) * PAGE_CAPACITY < len,
                self.pages() == with_pages(before, k, data@, i as int),
            decreases count - i,
        {
            assert(i * PAGE_CAPACITY <= (count - 1) * PAGE_CAPACITY) by (nonlinear_arith)
                requires
                    i <= count - 1,
            ;
            let start: usize = i * PAGE_CAPACITY;
            let end: usize = if len - start > PAGE_CAPACITY {
                start + PAGE_CAPACITY
            } else {
                len
            };
            let piece: &[u8] = vstd::slice::slice_subrange(data, start, end);
            let page: AccountStoragePage = AccountStoragePage::of_chunk(piece);
            let key = page_key(account_key, i);
            let _ = self.s0_insert_account_page(key, page);
            i = i + 1;
        }
        let ghost written = with_pages(before, k, data@, count as int);
        let mut j: usize = count;
        while j < MAX_PAGES
            invariant_except_break
                self.pages() == without_pages(written, k, count as int, j as int),
                forall|t: int| count <= t < j ==> has_page(before, k, t),
            invariant
                count <= j <= MAX_PAGES,
                k == account_key@,
                written == with_pages(before, k, data@, count as int),
            ensures
                self.pages() == without_pages(written, k, count as int, j as int),
                forall|t: int| count <= t < j ==> has_page(before, k, t),
                !has_page(before, k, j as int),
            decreases MAX_PAGES - j,
        {
            let key = page_key(account_key, j);
            match self.s0_remove_account_page(&key) {
                Some(_) => {
                },
                None => {
                    break ;
                },
            }
            j = j + 1;
        }
        proof {
            lemma_run_end(before, k, count as int, j as int);
        }
        Ok(())
    }

    /// The record stored for the account: the bytes of its pages from 0 up
    /// to the first missing one, or `None` where it has no page 0.
    fn s0_get_bytes(&self, account_key: &[u8]) -> (data: Option<Vec<u8>>)
        ensures
            match data {
                Some(bytes) => stored_bytes(self.pages(), account_key@) == Some(bytes@),
                None => stored_bytes(self.pages(), account_key@) is None,
            },
    {
        let ghost k = account_key@;
        let mut bytes: Vec<u8> = Vec::new();
        let mut i: usize = 0;
        while i < MAX_PAGES
            invariant
                i <= MAX_PAGES,
                k == account_key@,
                forall|t: int| 0 <= t < i ==> has_page(self.pages(), k, t),
                bytes@ == joined(self.pages(), k, 0, i as int),
            ensures
                !has_page(self.pages(), k, i as int),
            decreases MAX_PAGES - i,
        {
            let key = page_key(account_key, i);
            match self.s0_get_account_page(&key) {
                Some(page) => {
                    bytes.extend_from_slice(page.as_slice());
                },
                None => {
                    break ;
                },
            }
            i = i + 1;
        }
        proof {
            lemma_run_end(self.pages(), k, 0, i as int);
        }
        if i == 0 {
            None
        } else {
            Some(bytes)
        }
    }

    /// Stores the account under the key, in place of the account that was
    /// there: its serialized form is written page by page, and the pages
    /// that an account of more pages left behind are removed. An account of
    /// more than [`MAX_PAGES`] pages is refused before anything is written.
    fn s0_insert_account(&mut self, account_key: &[u8], account: Account) -> (r: Result<
        (),
        StoreError,
    >)
        ensures
            Account::fits(account.model()),
            match r {
                Ok(_) => {
                    &&& page_count(Account::wire(account.model()).len()) <= MAX_PAGES
                    &&& final(self).pages() == after_insert(
                        old(self).pages(),
                        account_key@,
                        Account::wire(account.model()),
                    )
                    &&& stored_account(final(self).pages(), account_key@) == Some(account.model())
                },
                Err(e) => e == StoreError::AccountTooLarge && page_count(
                    Account::wire(account.model()).len(),
                ) > MAX_PAGES && final(self).pages() == old(self).pages(),
            },
    {
        let bytes: Vec<u8> = account.to_bytes();
        proof {
            if page_count(bytes@.len()) <= MAX_PAGES {
                lemma_insert_account_then_get(self.pages(), account_key@, account.model());
            }
        }
        self.s0_insert_bytes(account_key, bytes.as_slice())
    }

    /// Reads the account stored under the key: `Ok(None)` where none is
    /// stored, and an error where the bytes stored are not those of an
    /// account.
    fn s0_read_account(&self, account_key: &[u8]) -> (r: Result<Option<Account>, StoreError>)
        ensures
            match r {
                Ok(Some(account)) => stored_bytes(self.pages(), account_key@) is Some
                    && stored_account(self.pages(), account_key@) == Some(account.model()),
                Ok(None) => stored_bytes(self.pages(), account_key@) is None,
                Err(e) => e == StoreError::CorruptAccount && !intact(self.pages(), account_key@),
            },
    {
        match self.s0_get_bytes(account_key) {
            Some(bytes) => match Account::from_bytes(bytes.as_slice()) {
                Some(account) => Ok(Some(account)),
                None => Err(StoreError::CorruptAccount),
            },
            None => Ok(None),
        }
    }

    /// The account stored under the key, if any. What is stored under the
    /// key must be readable, as everything is that [`Self::s0_insert_account`]
    /// stored; [`Self::s0_read_account`] reads from any store.
    fn s0_get_account(&self, account_key: &[u8]) -> (account: Option<Account>)
        requires
            intact(self.pages(), account_key@),
        ensures
            match account {
                Some(found) => stored_bytes(self.pages(), account_key@) is Some && stored_account(
                    self.pages(),
                    account_key@,
                ) == Some(found.model()),
                None => stored_bytes(self.pages(), account_key@) is None,
            },
    {
        match self.s0_read_account(account_key) {
            Ok(found) => found,
            Err(_) => None,
        }
    }

    /// Removes the account: its pages from 0 up to the first missing one.
    fn s0_remove_account(&mut self, account_key: &[u8])
        ensures
            final(self).pages() == after_remove(old(self).pages(), account_key@),
    {
        let ghost before = self.pages();
        let ghost k = account_key@;
        let mut j: usize = 0;
        while j < MAX_PAGES
            invariant_except_break
                self.pages() == without_pages(before, k, 0, j as int),
                forall|t: int| 0 <= t < j ==> has_page(before, k, t),
            invariant
                j <= MAX_PAGES,
                k == account_key@,
            ensures
                self.pages() == without_pages(before, k, 0, j as int),
                forall|t: int| 0 <= t < j ==> has_page(before, k, t),
                !has_page(before, k, j as int),
            decreases MAX_PAGES - j,
        {
            let key = page_key(account_key, j);
            match self.s0_remove_account_page(&key) {
                Some(_) => {
                },
                None => {
                    break ;
                },
            }
            j = j + 1;
        }
        proof {
            lemma_run_end(before, k, 0, j as int);
        }
    }
}

} // verus!
