//! A store of account pages on the heap: the pages in the order of their
//! keys, in one vector.

use crate::accounts_store::schema::s0::order::{key_before, lemma_key_order, place_key, Place};
use crate::accounts_store::schema::s0::{
    account_keys, lemma_account_keys_finite, page_at, AccountStorageKey, AccountStoragePage,
    AccountsDbS0Trait, PageMap,
};
use crate::wire::{models, Wire};
use vstd::prelude::*;

verus! {

/// One stored page with its key.
#[derive(Debug, PartialEq, Eq)]
pub struct PageEntry {
    pub key: AccountStorageKey,
    pub page: AccountStoragePage,
}

/// What a stored page is: its key and its bytes.
pub struct PageEntryModel {
    pub key: (Seq<u8>, u16),
    pub page: Seq<u8>,
}

impl PageEntryModel {
    /// The fields in a row, in the order in which they are written.
    pub open spec fn row(self) -> ((Seq<u8>, u16), Seq<u8>) {
        (self.key, self.page)
    }

    /// The value whose fields in a row are `row`.
    pub open spec fn of_row(row: ((Seq<u8>, u16), Seq<u8>)) -> PageEntryModel {
        PageEntryModel {
            key: row.0,
            page: row.1,
        }
    }
}

impl Wire for PageEntry {
    type Model = PageEntryModel;

    open spec fn model(&self) -> PageEntryModel {
        PageEntryModel {
            key: self.key.model(),
            page: self.page.model(),
        }
    }

    open spec fn fits(m: PageEntryModel) -> bool {
        <(AccountStorageKey, AccountStoragePage) as Wire>::fits(m.row())
    }

    open spec fn wire(m: PageEntryModel) -> Seq<u8> {
        <(AccountStorageKey, AccountStoragePage) as Wire>::wire(m.row())
    }

    open spec fn parse(s: Seq<u8>) -> Option<(PageEntryModel, int)> {
        match <(AccountStorageKey, AccountStoragePage) as Wire>::parse(s) {
            Some((row, n)) => Some((PageEntryModel::of_row(row), n)),
            None => None,
        }
    }

    proof fn lemma_parse_bounds(s: Seq<u8>) {
        <(AccountStorageKey, AccountStoragePage) as Wire>::lemma_parse_bounds(s);
    }

    proof fn lemma_round_trip(m: PageEntryModel, rest: Seq<u8>) {
        <(AccountStorageKey, AccountStoragePage) as Wire>::lemma_round_trip(m.row(), rest);
    }

    proof fn lemma_parse_is_wire(s: Seq<u8>) {
        <(AccountStorageKey, AccountStoragePage) as Wire>::lemma_parse_is_wire(s);
    }

    fn write(&self, out: &mut Vec<u8>) {
        self.key.write(out);
        self.page.write(out);
    }

    fn read(input: &[u8], pos: usize) -> (r: Option<(PageEntry, usize)>) {
        match <(AccountStorageKey, AccountStoragePage) as Wire>::read(input, pos) {
            Some(((key, page), end)) => Some((PageEntry { key, page }, end)),
            None => None,
        }
    }
}

/// Whether the keys of `entries` rise: each entry stands before every later
/// one, so that no key occurs twice.
pub open spec fn keys_rise(entries: Seq<PageEntry>) -> bool {
    forall|i: int, j: int|
        0 <= i < j < entries.len() ==> key_before(
            #[trigger] entries[i].key@,
            #[trigger] entries[j].key@,
        )
}

/// The pages of `entries`, by key.
pub open spec fn pages_of(entries: Seq<PageEntry>) -> PageMap
    decreases entries.len(),
{
    if entries.len() == 0 {
        Map::empty()
    } else {
        pages_of(entries.drop_last()).insert(entries.last().key@, entries.last().page@)
    }
}

/// Entries have finitely many pages.
pub proof fn lemma_pages_of_finite(entries: Seq<PageEntry>)
    ensures
        pages_of(entries).dom().finite(),
    decreases entries.len(),
{
    if entries.len() > 0 {
        lemma_pages_of_finite(entries.drop_last());
    }
}

/// The pages of entries whose keys rise are the pages of the entries, each
/// under its key, and no others; they are finitely many.
pub proof fn lemma_pages_of(entries: Seq<PageEntry>)
    requires
        keys_rise(entries),
    ensures
        pages_of(entries).dom().finite(),
        forall|i: int|
            0 <= i < entries.len() ==> page_at(pages_of(entries), #[trigger] entries[i].key@)
                == Some(entries[i].page@),
        forall|key: (Seq<u8>, u16)| #[trigger]
            pages_of(entries).dom().contains(key) ==> exists|i: int|
                0 <= i < entries.len() && #[trigger] entries[i].key@ == key,
    decreases entries.len(),
{
    if entries.len() > 0 {
        let front = entries.drop_last();
        let last = entries.last();
        assert(keys_rise(front)) by {
            assert forall|i: int, j: int| 0 <= i < j < front.len() implies key_before(
                #[trigger] front[i].key@,
                #[trigger] front[j].key@,
            ) by {
                assert(front[i] == entries[i] && front[j] == entries[j]);
            }
        }
        lemma_pages_of(front);
        assert forall|i: int| 0 <= i < entries.len() implies page_at(
            pages_of(entries),
            #[trigger] entries[i].key@,
        ) == Some(entries[i].page@) by {
            if i < entries.len() - 1 {
                assert(front[i] == entries[i]);
                assert(key_before(entries[i].key@, entries[entries.len() - 1].key@));
                lemma_key_order(last.key@, last.key@, last.key@);
            }
        }
        assert forall|key: (Seq<u8>, u16)| #[trigger]
            pages_of(entries).dom().contains(key) implies exists|i: int|
            0 <= i < entries.len() && #[trigger] entries[i].key@ == key by {
            if key == last.key@ {
                assert(entries[entries.len() - 1].key@ == key);
            } else {
                assert(pages_of(front).dom().contains(key));
                let i = choose|i: int| 0 <= i < front.len() && #[trigger] front[i].key@ == key;
                assert(entries[i].key@ == key);
            }
        }
    }
}

/// Taking one entry out of entries whose keys rise leaves entries whose
/// keys rise, and takes its page out of their pages.
pub proof fn lemma_remove_entry(before: Seq<PageEntry>, index: int)
    requires
        keys_rise(before),
        0 <= index < before.len(),
    ensures
        keys_rise(before.remove(index)),
        pages_of(before.remove(index)) == pages_of(before).remove(before[index].key@),
{
    let after = before.remove(index);
    let key = before[index].key@;
    assert forall|i: int, j: int| 0 <= i < j < after.len() implies key_before(
        #[trigger] after[i].key@,
        #[trigger] after[j].key@,
    ) by {
        let old_i = if i < index { i } else { i + 1 };
        let old_j = if j < index { j } else { j + 1 };
    }
    lemma_pages_of(before);
    lemma_pages_of(after);
    assert forall|k: (Seq<u8>, u16)|
        pages_of(after).dom().contains(k) <==> pages_of(before).remove(key).dom().contains(k) by {
        if pages_of(after).dom().contains(k) {
            let i = choose|i: int| 0 <= i < after.len() && #[trigger] after[i].key@ == k;
            let old_i = if i < index { i } else { i + 1 };
            lemma_key_order(key, key, key);
        }
        if pages_of(before).dom().contains(k) && k != key {
            let i = choose|i: int| 0 <= i < before.len() && #[trigger] before[i].key@ == k;
            let target = if i < index { i } else { i - 1 };
            assert(page_at(pages_of(after), after[target].key@) is Some);
        }
    }
    assert forall|k: (Seq<u8>, u16)| pages_of(after).dom().contains(k) implies pages_of(after)[k]
        == pages_of(before).remove(key)[k] by {
        let i = choose|i: int| 0 <= i < after.len() && #[trigger] after[i].key@ == k;
        let old_i = if i < index { i } else { i + 1 };
    }
}

/// Putting an entry between the entries that stand before it and those that
/// stand behind it leaves entries whose keys rise, and adds its page to
/// their pages.
pub proof fn lemma_insert_entry(before: Seq<PageEntry>, index: int, entry: PageEntry)
    requires
        keys_rise(before),
        0 <= index <= before.len(),
        forall|i: int| 0 <= i < index ==> key_before((#[trigger] before[i]).key@, entry.key@),
        forall|i: int|
            index <= i < before.len() ==> key_before(entry.key@, (#[trigger] before[i]).key@),
    ensures
        keys_rise(before.insert(index, entry)),
        pages_of(before.insert(index, entry)) == pages_of(before).insert(entry.key@, entry.page@),
{
    let after = before.insert(index, entry);
    let key = entry.key@;
    assert forall|i: int, j: int| 0 <= i < j < after.len() implies key_before(
        #[trigger] after[i].key@,
        #[trigger] after[j].key@,
    ) by {
        let old_i = if i < index { i } else { i - 1 };
        let old_j = if j < index { j } else { j - 1 };
    }
    lemma_pages_of(before);
    lemma_pages_of(after);
    assert forall|k: (Seq<u8>, u16)|
        pages_of(after).dom().contains(k) <==> pages_of(before).insert(
            key,
            entry.page@,
        ).dom().contains(k) by {
        if pages_of(after).dom().contains(k) && k != key {
            let i = choose|i: int| 0 <= i < after.len() && #[trigger] after[i].key@ == k;
            let old_i = if i < index { i } else { i - 1 };
        }
        if pages_of(before).dom().contains(k) && k != key {
            let i = choose|i: int| 0 <= i < before.len() && #[trigger] before[i].key@ == k;
            let target = if i < index { i } else { i + 1 };
            assert(page_at(pages_of(after), after[target].key@) is Some);
        }
        if k == key {
            assert(page_at(pages_of(after), after[index].key@) is Some);
        }
    }
    assert forall|k: (Seq<u8>, u16)| pages_of(after).dom().contains(k) implies pages_of(after)[k]
        == pages_of(before).insert(key, entry.page@)[k] by {
        let i = choose|i: int| 0 <= i < after.len() && #[trigger] after[i].key@ == k;
        if i != index {
            let old_i = if i < index { i } else { i - 1 };
        }
    }
}

/// Whether the keys of the entries `m` rise.
pub open spec fn models_rise(m: Seq<PageEntryModel>) -> bool {
    forall|i: int, j: int| 0 <= i < j < m.len() ==> key_before(#[trigger] m[i].key, #[trigger] m[j].key)
}

/// The keys of entries rise if and only if those of their models do.
pub proof fn lemma_models_rise(entries: Seq<PageEntry>)
    ensures
        keys_rise(entries) == models_rise(models::<PageEntry>(entries)),
{
    let m = models::<PageEntry>(entries);
    if keys_rise(entries) {
        assert forall|i: int, j: int| 0 <= i < j < m.len() implies key_before(
            #[trigger] m[i].key,
            #[trigger] m[j].key,
        ) by {
            assert(key_before(entries[i].key@, entries[j].key@));
        }
    }
    if models_rise(m) {
        assert forall|i: int, j: int| 0 <= i < j < entries.len() implies key_before(
            #[trigger] entries[i].key@,
            #[trigger] entries[j].key@,
        ) by {
            assert(key_before(m[i].key, m[j].key));
        }
    }
}

/// Whether each entry stands before the next.
pub open spec fn steps_rise(entries: Seq<PageEntry>) -> bool {
    forall|i: int| 0 <= i < entries.len() - 1 ==> key_before(
        (#[trigger] entries[i]).key@,
        entries[i + 1].key@,
    )
}

/// Where each entry stands before the next, each stands before every later
/// one.
pub proof fn lemma_steps_rise(entries: Seq<PageEntry>, i: int, j: int)
    requires
        steps_rise(entries),
        0 <= i < j < entries.len(),
    ensures
        key_before(entries[i].key@, entries[j].key@),
    decreases j - i,
{
    if i + 1 < j {
        lemma_steps_rise(entries, i, j - 1);
        assert(key_before(entries[j - 1].key@, entries[j - 1 + 1].key@));
        lemma_key_order(entries[i].key@, entries[j - 1].key@, entries[j].key@);
    } else {
        assert(key_before(entries[i].key@, entries[i + 1].key@));
    }
}

/// The pages of an account store on the heap.
#[derive(Debug, PartialEq, Eq)]
pub struct HeapPages {
    entries: Vec<PageEntry>,
}

impl HeapPages {
    #[verifier::type_invariant]
    spec fn sorted(self) -> bool {
        keys_rise(self.entries@)
    }

    /// The entries of the store, in the order of their keys.
    pub closed spec fn entries(&self) -> Seq<PageEntry> {
        self.entries@
    }

    /// A store without pages.
    pub fn new() -> (store: HeapPages)
        ensures
            store.pages() == PageMap::empty(),
            store.entries().len() == 0,
    {
        HeapPages { entries: Vec::new() }
    }

    /// The number of pages in the store.
    pub fn page_len(&self) -> (n: usize)
        ensures
            n == self.entries().len(),
    {
        self.entries.len()
    }

    /// The store of the given entries, or `None` where their keys do not
    /// rise.
    pub fn from_entries(entries: Vec<PageEntry>) -> (store: Option<HeapPages>)
        ensures
            match store {
                Some(made) => keys_rise(entries@) && made.entries() == entries@,
                None => !keys_rise(entries@),
            },
    {
        if entries.len() == 0 {
            return Some(HeapPages { entries });
        }
        let mut i: usize = 1;
        while i < entries.len()
            invariant
                1 <= i <= entries@.len(),
                steps_rise(entries@.take(i as int)),
            decreases entries@.len() - i,
        {
            match place_key(&entries[i - 1].key, &entries[i].key) {
                Place::Before => {
                    assert forall|a: int| 0 <= a < entries@.take(i + 1).len() - 1 implies key_before(
                        (#[trigger] entries@.take(i + 1)[a]).key@,
                        entries@.take(i + 1)[a + 1].key@,
                    ) by {
                        if a < i - 1 {
                            assert(entries@.take(i as int)[a] == entries@[a]);
                            assert(key_before(
                                entries@.take(i as int)[a].key@,
                                entries@.take(i as int)[a + 1].key@,
                            ));
                        }
                    }
                },
                _ => {
                    proof {
                        let a = entries@[i - 1].key@;
                        let b = entries@[i as int].key@;
                        lemma_key_order(a, b, a);
                        lemma_key_order(a, a, a);
                    }
                    return None;
                },
            }
            i = i + 1;
        }
        proof {
            let whole = entries@;
            assert(whole.take(i as int) =~= whole);
            assert forall|a: int, b: int| 0 <= a < b < whole.len() implies key_before(
                #[trigger] whole[a].key@,
                #[trigger] whole[b].key@,
            ) by {
                lemma_steps_rise(whole, a, b);
            }
        }
        Some(HeapPages { entries })
    }

    /// Where the key is, or where it would have to go: the index of the
    /// entry with the key and `true`, or the index of the first entry behind
    /// the key and `false`.
    fn position(&self, key: &AccountStorageKey) -> (r: (usize, bool))
        ensures
            r.0 <= self.entries@.len(),
            r.1 ==> r.0 < self.entries@.len() && self.entries@[r.0 as int].key@ == key@,
            !r.1 ==> forall|i: int|
                0 <= i < self.entries@.len() ==> (#[trigger] self.entries@[i]).key@ != key@,
            forall|i: int| 0 <= i < r.0 ==> key_before((#[trigger] self.entries@[i]).key@, key@),
            forall|i: int|
                r.0 + (if r.1 {
                    1int
                } else {
                    0int
                }) <= i < self.entries@.len() ==> key_before(
                    key@,
                    (#[trigger] self.entries@[i]).key@,
                ),
    {
        proof {
            use_type_invariant(self);
        }
        let mut low: usize = 0;
        let mut high: usize = self.entries.len();
        while low < high
            invariant
                low <= high <= self.entries@.len(),
                keys_rise(self.entries@),
                forall|i: int|
                    0 <= i < low ==> key_before((#[trigger] self.entries@[i]).key@, key@),
                forall|i: int|
                    high <= i < self.entries@.len() ==> key_before(
                        key@,
                        (#[trigger] self.entries@[i]).key@,
                    ),
            decreases high - low,
        {
            let middle: usize = low + (high - low) / 2;
            let ghost at = self.entries@[middle as int].key@;
            match place_key(&self.entries[middle].key, key) {
                Place::Before => {
                    assert forall|i: int| 0 <= i < middle + 1 implies key_before(
                        (#[trigger] self.entries@[i]).key@,
                        key@,
                    ) by {
                        if i < middle {
                            assert(key_before(self.entries@[i].key@, at));
                            lemma_key_order(self.entries@[i].key@, at, key@);
                        }
                    }
                    low = middle + 1;
                },
                Place::Same => {
                    assert forall|i: int| middle + 1 <= i < self.entries@.len() implies key_before(
                        key@,
                        (#[trigger] self.entries@[i]).key@,
                    ) by {
                        assert(key_before(at, self.entries@[i].key@));
                    }
                    assert forall|i: int| 0 <= i < middle implies key_before(
                        (#[trigger] self.entries@[i]).key@,
                        key@,
                    ) by {
                        assert(key_before(self.entries@[i].key@, at));
                    }
                    return (middle, true);
                },
                Place::After => {
                    assert forall|i: int| middle <= i < self.entries@.len() implies key_before(
                        key@,
                        (#[trigger] self.entries@[i]).key@,
                    ) by {
                        if i > middle {
                            assert(key_before(at, self.entries@[i].key@));
                            lemma_key_order(key@, at, self.entries@[i].key@);
                        }
                    }
                    high = middle;
                },
            }
        }
        proof {
            assert forall|i: int| 0 <= i < self.entries@.len() implies (
            #[trigger] self.entries@[i]).key@ != key@ by {
                lemma_key_order(key@, key@, key@);
            }
        }
        (low, false)
    }
}

impl AccountsDbS0Trait for HeapPages {
    closed spec fn pages(&self) -> PageMap {
        pages_of(self.entries@)
    }

    proof fn lemma_pages_finite(&self) {
        lemma_pages_of_finite(self.entries@);
    }

    fn s0_get_account_page(&self, account_storage_key: &AccountStorageKey) -> (page: Option<
        AccountStoragePage,
    >) {
        proof {
            use_type_invariant(self);
            lemma_pages_of(self.entries@);
        }
        let (index, found) = self.position(account_storage_key);
        if found {
            Some(self.entries[index].page.clone())
        } else {
            None
        }
    }

    fn s0_insert_account_page(
        &mut self,
        account_storage_key: AccountStorageKey,
        account: AccountStoragePage,
    ) -> (previous: Option<AccountStoragePage>) {
        proof {
            use_type_invariant(&*self);
            lemma_pages_of(self.entries@);
        }
        let ghost before = self.entries@;
        let ghost key = account_storage_key@;
        let (index, found) = self.position(&account_storage_key);
        let mut entries: Vec<PageEntry> = Vec::new();
        core::mem::swap(&mut self.entries, &mut entries);
        let previous: Option<AccountStoragePage> = if found {
            proof {
                lemma_remove_entry(before, index as int);
            }
            let entry: PageEntry = entries.remove(index);
            Some(entry.page)
        } else {
            None
        };
        let entry = PageEntry { key: account_storage_key, page: account };
        proof {
            let without = entries@;
            assert forall|i: int| 0 <= i < index implies key_before(
                (#[trigger] without[i]).key@,
                key,
            ) by {
                assert(without[i] == before[i]);
            }
            assert forall|i: int| index <= i < without.len() implies key_before(
                key,
                (#[trigger] without[i]).key@,
            ) by {
                let origin = if found { i + 1 } else { i };
                assert(without[i] == before[origin]);
            }
            lemma_insert_entry(without, index as int, entry);
            assert(pages_of(before).remove(key).insert(key, account@) =~= pages_of(before).insert(
                key,
                account@,
            ));
            if found {
                assert(page_at(pages_of(before), before[index as int].key@) == Some(
                    before[index as int].page@,
                ));
            } else {
                assert(!pages_of(before).dom().contains(key)) by {
                    if pages_of(before).dom().contains(key) {
                        let i = choose|i: int|
                            0 <= i < before.len() && #[trigger] before[i].key@ == key;
                        assert(before[i].key@ != key);
                    }
                }
            }
        }
        entries.insert(index, entry);
        core::mem::swap(&mut self.entries, &mut entries);
        previous
    }

    fn s0_contains_account_page(&self, account_storage_key: &AccountStorageKey) -> (found: bool) {
        proof {
            use_type_invariant(self);
            lemma_pages_of(self.entries@);
        }
        let (index, found) = self.position(account_storage_key);
        found
    }

    fn s0_remove_account_page(&mut self, account_storage_key: &AccountStorageKey) -> (removed:
        Option<AccountStoragePage>) {
        proof {
            use_type_invariant(&*self);
            lemma_pages_of(self.entries@);
        }
        let ghost before = self.entries@;
        let ghost key = account_storage_key@;
        let (index, found) = self.position(account_storage_key);
        if !found {
            proof {
                assert(!pages_of(before).dom().contains(key)) by {
                    if pages_of(before).dom().contains(key) {
                        let i = choose|i: int|
                            0 <= i < before.len() && #[trigger] before[i].key@ == key;
                    }
                }
            }
            return None;
        }
        proof {
            lemma_remove_entry(before, index as int);
        }
        let mut entries: Vec<PageEntry> = Vec::new();
        core::mem::swap(&mut self.entries, &mut entries);
        let entry: PageEntry = entries.remove(index);
        core::mem::swap(&mut self.entries, &mut entries);
        Some(entry.page)
    }

    fn s0_accounts_len(&self) -> (n: u64) {
        proof {
            use_type_invariant(self);
        }
        let mut count: u64 = 0;
        let mut i: usize = 0;
        assert(self.entries@.take(0) =~= Seq::<PageEntry>::empty());
        assert(account_keys(pages_of(Seq::<PageEntry>::empty())) =~= Set::<Seq<u8>>::empty());
        while i < self.entries.len()
            invariant
                i <= self.entries@.len(),
                keys_rise(self.entries@),
                count <= i,
                count == account_keys(pages_of(self.entries@.take(i as int))).len(),
            decreases self.entries@.len() - i,
        {
            proof {
                let front = self.entries@.take(i as int);
                let next = self.entries@.take(i + 1);
                let entry = self.entries@[i as int];
                assert(next.drop_last() =~= front);
                assert(next.last() == entry);
                assert(keys_rise(front)) by {
                    assert forall|a: int, b: int| 0 <= a < b < front.len() implies key_before(
                        #[trigger] front[a].key@,
                        #[trigger] front[b].key@,
                    ) by {
                        assert(front[a] == self.entries@[a] && front[b] == self.entries@[b]);
                    }
                }
                lemma_pages_of(front);
                lemma_account_keys_finite(pages_of(front));
                if entry.key@.1 == 0 {
                    assert(!pages_of(front).dom().contains(entry.key@)) by {
                        if pages_of(front).dom().contains(entry.key@) {
                            let a = choose|a: int|
                                0 <= a < front.len() && #[trigger] front[a].key@ == entry.key@;
                            assert(front[a] == self.entries@[a]);
                            assert(key_before(self.entries@[a].key@, self.entries@[i as int].key@));
                            lemma_key_order(entry.key@, entry.key@, entry.key@);
                        }
                    }
                    assert(account_keys(pages_of(next)) =~= account_keys(pages_of(front)).insert(
                        entry.key@.0,
                    ));
                } else {
                    assert(account_keys(pages_of(next)) =~= account_keys(pages_of(front)));
                }
            }
            if self.entries[i].key.page_num() == 0 {
                count = count + 1;
            }
            i = i + 1;
        }
        assert(self.entries@.take(i as int) =~= self.entries@);
        count
    }
}

/// The entries that `bytes` are the serialized form of, where they are that
/// of entries whose keys rise, from their first byte to their last.
pub open spec fn entries_decoded(bytes: Seq<u8>) -> Option<Seq<PageEntryModel>> {
    match HeapPages::parse(bytes) {
        Some((m, n)) => if n == bytes.len() {
            Some(m)
        } else {
            None
        },
        None => None,
    }
}

/// Serialized entries are read back as the entries.
pub proof fn lemma_entries_round_trip(m: Seq<PageEntryModel>)
    requires
        HeapPages::fits(m),
    ensures
        entries_decoded(HeapPages::wire(m)) == Some(m),
{
    HeapPages::lemma_round_trip(m, Seq::empty());
}

/// Entries have one serialized form only: the serialized form of entries
/// that were read from bytes is those bytes.
pub proof fn lemma_entries_wire_of_decoded(bytes: Seq<u8>)
    ensures
        entries_decoded(bytes) matches Some(m) ==> HeapPages::wire(m) == bytes && HeapPages::fits(
            m,
        ),
{
    HeapPages::lemma_parse_is_wire(bytes);
    HeapPages::lemma_parse_bounds(bytes);
}

impl HeapPages {
    /// The serialized form of the store: its entries in the order of their
    /// keys.
    pub fn to_bytes(&self) -> (bytes: Vec<u8>)
        ensures
            HeapPages::fits(self.model()),
            bytes@ == HeapPages::wire(self.model()),
    {
        let mut bytes: Vec<u8> = Vec::new();
        self.write(&mut bytes);
        bytes
    }

    /// The store that `bytes` are the serialized form of, or `None` where
    /// they are that of no store.
    pub fn from_bytes(bytes: &[u8]) -> (store: Option<HeapPages>)
        ensures
            match store {
                Some(read) => entries_decoded(bytes@) == Some(read.model()) && HeapPages::wire(
                    read.model(),
                ) == bytes@,
                None => entries_decoded(bytes@) is None,
            },
    {
        assert(bytes@.skip(0) =~= bytes@);
        proof {
            lemma_entries_wire_of_decoded(bytes@);
        }
        match <HeapPages as Wire>::read(bytes, 0) {
            Some((store, end)) => if end == bytes.len() {
                Some(store)
            } else {
                None
            },
            None => None,
        }
    }
}

impl Wire for HeapPages {
    type Model = Seq<PageEntryModel>;

    open spec fn model(&self) -> Seq<PageEntryModel> {
        models::<PageEntry>(self.entries())
    }

    open spec fn fits(m: Seq<PageEntryModel>) -> bool {
        Vec::<PageEntry>::fits(m) && models_rise(m)
    }

    open spec fn wire(m: Seq<PageEntryModel>) -> Seq<u8> {
        Vec::<PageEntry>::wire(m)
    }

    open spec fn parse(s: Seq<u8>) -> Option<(Seq<PageEntryModel>, int)> {
        match Vec::<PageEntry>::parse(s) {
            Some((m, n)) => if models_rise(m) {
                Some((m, n))
            } else {
                None
            },
            None => None,
        }
    }

    proof fn lemma_parse_bounds(s: Seq<u8>) {
        Vec::<PageEntry>::lemma_parse_bounds(s);
    }

    proof fn lemma_round_trip(m: Seq<PageEntryModel>, rest: Seq<u8>) {
        Vec::<PageEntry>::lemma_round_trip(m, rest);
    }

    proof fn lemma_parse_is_wire(s: Seq<u8>) {
        Vec::<PageEntry>::lemma_parse_is_wire(s);
    }

    fn write(&self, out: &mut Vec<u8>) {
        proof {
            use_type_invariant(self);
        }
        self.entries.write(out);
    }

    fn read(input: &[u8], pos: usize) -> (r: Option<(HeapPages, usize)>) {
        match <Vec<PageEntry> as Wire>::read(input, pos) {
            Some((entries, end)) => {
                proof {
                    lemma_models_rise(entries@);
                }
                match HeapPages::from_entries(entries) {
                    Some(store) => Some((store, end)),
                    None => None,
                }
            },
            None => None,
        }
    }
}

} // verus!
