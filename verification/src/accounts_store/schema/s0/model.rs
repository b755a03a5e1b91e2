//! What a store of pages holds, what storing and removing do to it, and
//! what follows for the accounts.

use crate::accounts_store::schema::s0::page::{MAX_PAGES, PAGE_CAPACITY};
use crate::accounts_store::{decoded, lemma_decoded_wire, Account, AccountModel};
use crate::wire::Wire;
use vstd::prelude::*;

verus! {

/// What a store holds: the bytes of each page, by account key and page
/// number.
pub type PageMap = Map<(Seq<u8>, u16), Seq<u8>>;

/// The page stored under `key`, if any.
pub open spec fn page_at(pages: PageMap, key: (Seq<u8>, u16)) -> Option<Seq<u8>> {
    if pages.dom().contains(key) {
        Some(pages[key])
    } else {
        None
    }
}

/// Whether page `i` of the account `k` is stored.
pub open spec fn has_page(pages: PageMap, k: Seq<u8>, i: int) -> bool {
    0 <= i < MAX_PAGES && pages.dom().contains((k, i as u16))
}

/// The first page number from `from` on at which the account `k` has no
/// page; the number of page numbers where it has all of them.
pub open spec fn run_end(pages: PageMap, k: Seq<u8>, from: int) -> int
    decreases MAX_PAGES - from,
{
    if has_page(pages, k, from) {
        run_end(pages, k, from + 1)
    } else {
        from
    }
}

/// The bytes of the pages `from` up to but not including `to` of the account
/// `k`, one page after another.
pub open spec fn joined(pages: PageMap, k: Seq<u8>, from: int, to: int) -> Seq<u8>
    decreases to - from,
{
    if from >= to {
        Seq::empty()
    } else {
        joined(pages, k, from, to - 1) + pages[(k, (to - 1) as u16)]
    }
}

/// The bytes stored for the account `k`: those of its pages from 0 up to the
/// first missing one, or `None` where page 0 is missing.
pub open spec fn stored_bytes(pages: PageMap, k: Seq<u8>) -> Option<Seq<u8>> {
    if has_page(pages, k, 0) {
        Some(joined(pages, k, 0, run_end(pages, k, 0)))
    } else {
        None
    }
}

/// The keys of the accounts that are stored: those that have a page 0.
pub open spec fn account_keys(pages: PageMap) -> Set<Seq<u8>> {
    Set::new(|k: Seq<u8>| pages.dom().contains((k, 0u16)))
}

/// Whether the pages of the account `k` have no gap: with a page, every
/// page of a lower number is there.
pub open spec fn contiguous(pages: PageMap, k: Seq<u8>) -> bool {
    forall|i: int, j: int| 0 <= j <= i && has_page(pages, k, i) ==> has_page(pages, k, j)
}

/// The number of pages that `len` bytes take.
pub open spec fn page_count(len: nat) -> int {
    (len + PAGE_CAPACITY - 1) / (PAGE_CAPACITY as int)
}

/// The bytes of page `i` of `data`.
pub open spec fn chunk(data: Seq<u8>, i: int) -> Seq<u8> {
    data.subrange(
        i * PAGE_CAPACITY,
        if (i + 1) * PAGE_CAPACITY <= data.len() {
            (i + 1) * PAGE_CAPACITY
        } else {
            data.len() as int
        },
    )
}

/// The store after the first `n` pages of `data` were written for the
/// account `k`.
pub open spec fn with_pages(pages: PageMap, k: Seq<u8>, data: Seq<u8>, n: int) -> PageMap {
    Map::new(
        |key: (Seq<u8>, u16)| (key.0 == k && key.1 < n) || pages.dom().contains(key),
        |key: (Seq<u8>, u16)|
            if key.0 == k && key.1 < n {
                chunk(data, key.1 as int)
            } else {
                pages[key]
            },
    )
}

/// The store without the pages `from` up to but not including `to` of the
/// account `k`.
pub open spec fn without_pages(pages: PageMap, k: Seq<u8>, from: int, to: int) -> PageMap {
    Map::new(
        |key: (Seq<u8>, u16)| pages.dom().contains(key) && !(key.0 == k && from <= key.1 < to),
        |key: (Seq<u8>, u16)| pages[key],
    )
}

/// The store after `data` was stored for the account `k`: its pages are
/// written over what was there, and the pages that follow them, up to the
/// first missing one, are removed.
pub open spec fn after_insert(pages: PageMap, k: Seq<u8>, data: Seq<u8>) -> PageMap {
    let n = page_count(data.len());
    without_pages(with_pages(pages, k, data, n), k, n, run_end(pages, k, n))
}

/// The store after the account `k` was removed: without its pages from 0 up
/// to the first missing one.
pub open spec fn after_remove(pages: PageMap, k: Seq<u8>) -> PageMap {
    without_pages(pages, k, 0, run_end(pages, k, 0))
}

/// The first missing page from `from` on is `end`, where every page from
/// `from` up to `end` is there and page `end` is not.
pub proof fn lemma_run_end(pages: PageMap, k: Seq<u8>, from: int, end: int)
    requires
        0 <= from <= end <= MAX_PAGES,
        forall|t: int| from <= t < end ==> has_page(pages, k, t),
        !has_page(pages, k, end),
    ensures
        run_end(pages, k, from) == end,
    decreases end - from,
{
    if from < end {
        lemma_run_end(pages, k, from + 1, end);
    }
}

/// The first missing page from `from` on is missing, no page before it is,
/// and it lies within the page numbers or just behind them.
pub proof fn lemma_run_end_bounds(pages: PageMap, k: Seq<u8>, from: int)
    requires
        0 <= from <= MAX_PAGES,
    ensures
        from <= run_end(pages, k, from) <= MAX_PAGES,
        !has_page(pages, k, run_end(pages, k, from)),
        forall|t: int| from <= t < run_end(pages, k, from) ==> has_page(pages, k, t),
    decreases MAX_PAGES - from,
{
    if has_page(pages, k, from) {
        lemma_run_end_bounds(pages, k, from + 1);
    }
}

/// Two stores that hold the same pages for the account `k` have the same
/// first missing page from `from` on.
pub proof fn lemma_same_run_end(a: PageMap, b: PageMap, k: Seq<u8>, from: int)
    requires
        0 <= from <= MAX_PAGES,
        forall|i: u16| page_at(a, (k, i)) == page_at(b, (k, i)),
    ensures
        run_end(a, k, from) == run_end(b, k, from),
    decreases MAX_PAGES - from,
{
    if from < MAX_PAGES {
        assert(page_at(a, (k, from as u16)) == page_at(b, (k, from as u16)));
        if has_page(a, k, from) {
            lemma_same_run_end(a, b, k, from + 1);
        }
    }
}

/// Two stores that hold the same pages for the account `k` hold the same
/// bytes in its pages `from` up to `to`.
pub proof fn lemma_same_joined(a: PageMap, b: PageMap, k: Seq<u8>, from: int, to: int)
    requires
        0 <= from,
        to <= MAX_PAGES,
        forall|i: int| from <= i < to ==> has_page(a, k, i),
        forall|i: u16| page_at(a, (k, i)) == page_at(b, (k, i)),
    ensures
        joined(a, k, from, to) == joined(b, k, from, to),
    decreases to - from,
{
    if from < to {
        lemma_same_joined(a, b, k, from, to - 1);
        assert(has_page(a, k, to - 1));
        assert(page_at(a, (k, (to - 1) as u16)) == page_at(b, (k, (to - 1) as u16)));
    }
}

/// Two stores that hold the same pages for the account `k` hold the same
/// record for it.
pub proof fn lemma_same_record(a: PageMap, b: PageMap, k: Seq<u8>)
    requires
        forall|i: u16| page_at(a, (k, i)) == page_at(b, (k, i)),
    ensures
        stored_bytes(a, k) == stored_bytes(b, k),
{
    assert(page_at(a, (k, 0u16)) == page_at(b, (k, 0u16)));
    lemma_same_run_end(a, b, k, 0);
    lemma_run_end_bounds(a, k, 0);
    lemma_same_joined(a, b, k, 0, run_end(a, k, 0));
}

/// The first `t` pages of `data`, one after another, are the bytes of `data`
/// up to the end of page `t - 1`.
pub proof fn lemma_joined_chunks(pages: PageMap, k: Seq<u8>, data: Seq<u8>, t: int)
    requires
        0 <= t <= page_count(data.len()) <= MAX_PAGES,
        forall|i: int| 0 <= i < t ==> pages[(k, i as u16)] == chunk(data, i),
    ensures
        joined(pages, k, 0, t) == data.subrange(
            0,
            if t * PAGE_CAPACITY <= data.len() {
                t * PAGE_CAPACITY
            } else {
                data.len() as int
            },
        ),
    decreases t,
{
    if t == 0 {
        assert(joined(pages, k, 0, 0) =~= data.subrange(0, 0));
    } else {
        lemma_joined_chunks(pages, k, data, t - 1);
        assert(pages[(k, (t - 1) as u16)] == chunk(data, t - 1));
        assert((t - 1) * PAGE_CAPACITY <= data.len());
        assert(joined(pages, k, 0, t) =~= data.subrange(
            0,
            if t * PAGE_CAPACITY <= data.len() {
                t * PAGE_CAPACITY
            } else {
                data.len() as int
            },
        ));
    }
}

/// A record that was stored is the record that is read: after a record of
/// at least one byte was stored for an account, the bytes stored for the
/// account are those of the record, whatever the store held before.
pub proof fn lemma_insert_then_get(pages: PageMap, k: Seq<u8>, data: Seq<u8>)
    requires
        0 < data.len(),
        page_count(data.len()) <= MAX_PAGES,
    ensures
        stored_bytes(after_insert(pages, k, data), k) == Some(data),
{
    let n = page_count(data.len());
    let after = after_insert(pages, k, data);
    lemma_run_end_bounds(pages, k, n);
    assert forall|t: int| 0 <= t < n implies has_page(after, k, t) by {
        assert(after.dom().contains((k, t as u16)));
    }
    assert(!has_page(after, k, n)) by {
        if n < MAX_PAGES {
            assert(!after.dom().contains((k, n as u16)));
        }
    }
    lemma_run_end(after, k, 0, n);
    assert forall|i: int| 0 <= i < n implies after[(k, i as u16)] == chunk(data, i) by {
        assert(after.dom().contains((k, i as u16)));
    }
    lemma_joined_chunks(after, k, data, n);
    assert(data.subrange(0, data.len() as int) =~= data);
}

/// Storing a record for one account leaves the pages and the record of
/// every other account as they were.
pub proof fn lemma_insert_keeps_others(pages: PageMap, k: Seq<u8>, data: Seq<u8>, other: Seq<u8>)
    requires
        other != k,
    ensures
        forall|i: u16| page_at(after_insert(pages, k, data), (other, i)) == page_at(pages, (other, i)),
        stored_bytes(after_insert(pages, k, data), other) == stored_bytes(pages, other),
{
    let after = after_insert(pages, k, data);
    assert forall|i: u16| page_at(after, (other, i)) == page_at(pages, (other, i)) by {
        assert(after.dom().contains((other, i)) == pages.dom().contains((other, i)));
    }
    lemma_same_record(after, pages, other);
}

/// Overwriting leaves exactly the new pages: where the pages of an account
/// had no gap, storing a record of `n` pages for it leaves it with the pages
/// 0 up to `n`, each holding its part of the record, and with no page of a
/// higher number, whether the record before took more pages or fewer.
pub proof fn lemma_insert_exact_pages(pages: PageMap, k: Seq<u8>, data: Seq<u8>)
    requires
        contiguous(pages, k),
        page_count(data.len()) <= MAX_PAGES,
    ensures
        forall|i: int|
            has_page(after_insert(pages, k, data), k, i) <==> 0 <= i < page_count(data.len()),
        forall|i: int|
            0 <= i < page_count(data.len()) ==> after_insert(pages, k, data)[(k, i as u16)]
                == chunk(data, i),
        contiguous(after_insert(pages, k, data), k),
{
    let n = page_count(data.len());
    let after = after_insert(pages, k, data);
    let end = run_end(pages, k, n);
    lemma_run_end_bounds(pages, k, n);
    assert forall|i: int| has_page(after, k, i) <==> 0 <= i < n by {
        if 0 <= i < n {
            assert(after.dom().contains((k, i as u16)));
        }
        if end <= i < MAX_PAGES {
            if has_page(pages, k, i) {
                assert(has_page(pages, k, end));
            }
        }
    }
    assert forall|i: int| 0 <= i < n implies after[(k, i as u16)] == chunk(data, i) by {
        assert(after.dom().contains((k, i as u16)));
    }
}

/// Removing clears the account: it is no longer stored and no record is read
/// for it; where its pages had no gap, none of them is left. Every other
/// account keeps its pages and its record.
pub proof fn lemma_remove_clears(pages: PageMap, k: Seq<u8>)
    ensures
        !account_keys(after_remove(pages, k)).contains(k),
        stored_bytes(after_remove(pages, k), k) is None,
        contiguous(pages, k) ==> forall|i: int| !has_page(after_remove(pages, k), k, i),
        forall|other: Seq<u8>, i: u16|
            other != k ==> page_at(after_remove(pages, k), (other, i)) == page_at(
                pages,
                (other, i),
            ),
{
    let after = after_remove(pages, k);
    let end = run_end(pages, k, 0);
    lemma_run_end_bounds(pages, k, 0);
    if contiguous(pages, k) {
        assert forall|i: int| !has_page(after, k, i) by {
            if end <= i < MAX_PAGES && has_page(pages, k, i) {
                assert(has_page(pages, k, end));
            }
        }
    }
}

/// Removing one account leaves the record of every other account as it was.
pub proof fn lemma_remove_keeps_others(pages: PageMap, k: Seq<u8>, other: Seq<u8>)
    requires
        other != k,
    ensures
        stored_bytes(after_remove(pages, k), other) == stored_bytes(pages, other),
{
    let after = after_remove(pages, k);
    assert forall|i: u16| page_at(after, (other, i)) == page_at(pages, (other, i)) by {
        assert(after.dom().contains((other, i)) == pages.dom().contains((other, i)));
    }
    lemma_same_record(after, pages, other);
}

/// The accounts of a store with finitely many pages are finitely many.
pub proof fn lemma_account_keys_finite(pages: PageMap)
    requires
        pages.dom().finite(),
    ensures
        account_keys(pages).finite(),
{
    let firsts = pages.dom().map(|key: (Seq<u8>, u16)| key.0);
    pages.dom().lemma_map_finite(|key: (Seq<u8>, u16)| key.0);
    assert forall|k: Seq<u8>| account_keys(pages).contains(k) implies firsts.contains(k) by {
        let key = (k, 0u16);
    }
    vstd::set_lib::lemma_set_subset_finite(firsts, account_keys(pages));
}

/// The count follows the accounts: storing a record of at least one byte
/// adds its key to the stored accounts, and removing an account takes its
/// key out; the number of pages plays no part. So the number of accounts is
/// the number of keys that were stored and not removed since.
pub proof fn lemma_account_keys_follow(pages: PageMap, k: Seq<u8>, data: Seq<u8>)
    requires
        pages.dom().finite(),
    ensures
        0 < data.len() ==> account_keys(after_insert(pages, k, data)) == account_keys(pages).insert(k),
        account_keys(after_remove(pages, k)) == account_keys(pages).remove(k),
        0 < data.len() ==> account_keys(after_insert(pages, k, data)).len() == account_keys(
            pages,
        ).len() + if account_keys(pages).contains(k) {
            0int
        } else {
            1int
        },
        account_keys(after_remove(pages, k)).len() == account_keys(pages).len() - if account_keys(
            pages,
        ).contains(k) {
            1int
        } else {
            0int
        },
{
    lemma_account_keys_finite(pages);
    lemma_run_end_bounds(pages, k, 0);
    assert(account_keys(after_remove(pages, k)) =~= account_keys(pages).remove(k));
    if 0 < data.len() {
        let n = page_count(data.len());
        assert(n >= 1);
        if n <= MAX_PAGES {
            lemma_run_end_bounds(pages, k, n);
        }
        assert(account_keys(after_insert(pages, k, data)) =~= account_keys(pages).insert(k));
    }
}

/// The account stored under the key `k`, or `None` where none is stored or
/// the bytes stored are not those of an account.
pub open spec fn stored_account(pages: PageMap, k: Seq<u8>) -> Option<AccountModel> {
    match stored_bytes(pages, k) {
        Some(bytes) => decoded(bytes),
        None => None,
    }
}

/// Whether what is stored under the key `k` can be read: either nothing is
/// stored, or the bytes stored are those of an account.
pub open spec fn intact(pages: PageMap, k: Seq<u8>) -> bool {
    stored_bytes(pages, k) matches Some(bytes) ==> decoded(bytes) is Some
}

/// An account that was stored is the account that is read: after the
/// account `m` was stored under a key, the account stored under that key is
/// `m`, whatever the store held before.
pub proof fn lemma_insert_account_then_get(pages: PageMap, k: Seq<u8>, m: AccountModel)
    requires
        Account::fits(m),
        page_count(Account::wire(m).len()) <= MAX_PAGES,
    ensures
        stored_account(after_insert(pages, k, Account::wire(m)), k) == Some(m),
        intact(after_insert(pages, k, Account::wire(m)), k),
{
    lemma_decoded_wire(m);
    lemma_insert_then_get(pages, k, Account::wire(m));
}

/// Storing or removing one account leaves every other account as it was,
/// and readable where it was readable.
pub proof fn lemma_other_accounts_kept(pages: PageMap, k: Seq<u8>, data: Seq<u8>, other: Seq<u8>)
    requires
        other != k,
    ensures
        stored_account(after_insert(pages, k, data), other) == stored_account(pages, other),
        stored_account(after_remove(pages, k), other) == stored_account(pages, other),
        intact(after_insert(pages, k, data), other) == intact(pages, other),
        intact(after_remove(pages, k), other) == intact(pages, other),
{
    lemma_insert_keeps_others(pages, k, data, other);
    lemma_remove_keeps_others(pages, k, other);
}

/// Whether no account of the store has a gap in its pages.
pub open spec fn gapless(pages: PageMap) -> bool {
    forall|k: Seq<u8>| contiguous(pages, k)
}

/// Whether every account of the store can be read.
pub open spec fn all_intact(pages: PageMap) -> bool {
    forall|k: Seq<u8>| intact(pages, k)
}

/// A store without pages has no gaps, and all it holds can be read.
pub proof fn lemma_empty_store()
    ensures
        gapless(PageMap::empty()),
        all_intact(PageMap::empty()),
        account_keys(PageMap::empty()) == Set::<Seq<u8>>::empty(),
{
}

/// Two stores that hold the same pages for an account have the same gaps
/// in them.
pub proof fn lemma_same_contiguous(a: PageMap, b: PageMap, k: Seq<u8>)
    requires
        forall|i: u16| page_at(a, (k, i)) == page_at(b, (k, i)),
    ensures
        contiguous(a, k) == contiguous(b, k),
{
    assert forall|i: int| has_page(a, k, i) == has_page(b, k, i) by {
        if 0 <= i < MAX_PAGES {
            assert(page_at(a, (k, i as u16)) == page_at(b, (k, i as u16)));
        }
    }
}

/// Storing and removing keep the store in order: where no account had a
/// gap in its pages, none has one after a record was stored or an account
/// was removed; and where every account could be read, every account can
/// be read after an account was stored or removed.
pub proof fn lemma_store_stays_in_order(pages: PageMap, k: Seq<u8>, data: Seq<u8>, m: AccountModel)
    requires
        page_count(data.len()) <= MAX_PAGES,
        Account::fits(m),
        page_count(Account::wire(m).len()) <= MAX_PAGES,
    ensures
        gapless(pages) ==> gapless(after_insert(pages, k, data)) && gapless(after_remove(pages, k)),
        all_intact(pages) ==> all_intact(after_insert(pages, k, Account::wire(m))) && all_intact(
            after_remove(pages, k),
        ),
{
    if gapless(pages) {
        lemma_insert_exact_pages(pages, k, data);
        lemma_remove_clears(pages, k);
        assert forall|other: Seq<u8>| contiguous(after_insert(pages, k, data), other) by {
            if other != k {
                lemma_same_contiguous(after_insert(pages, k, data), pages, other);
            }
        }
        assert forall|other: Seq<u8>| contiguous(after_remove(pages, k), other) by {
            if other != k {
                lemma_same_contiguous(after_remove(pages, k), pages, other);
            }
        }
    }
    if all_intact(pages) {
        lemma_insert_account_then_get(pages, k, m);
        lemma_remove_clears(pages, k);
        assert forall|other: Seq<u8>| intact(after_insert(pages, k, Account::wire(m)), other) by {
            if other != k {
                lemma_other_accounts_kept(pages, k, Account::wire(m), other);
            }
        }
        assert forall|other: Seq<u8>| intact(after_remove(pages, k), other) by {
            if other != k {
                lemma_other_accounts_kept(pages, k, Account::wire(m), other);
            }
        }
    }
}

} // verus!
