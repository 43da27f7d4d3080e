//! The store: one page of a backing file, mirrored in memory.
//!
//! A [`MetadataStore`] holds the image of its page, the records that the page
//! spells, and the count of free bytes. Every mutating call updates the
//! records, rewrites the whole image, and then updates the counter. The store
//! does no input or output itself: the caller hands the file's contents to
//! [`MetadataStore::new`] and writes [`MetadataStore::page`] to the start of
//! the file when a mutating call has returned `Ok`.
//!
//! The records in memory are ahead of the file until that write has happened.
//! Nothing is rolled back when the write fails: the caller reports the
//! failure, and the next rewrite that succeeds brings the file up to date,
//! since every rewrite carries the whole page.

use crate::assoc::{has_key, lemma_position_unique, put, unique_keys};
use crate::byte_order::{read_be_u64, write_be_u64};
use crate::error::StoreError;
use crate::model::StoreState;
use crate::page::{
    collect, free_space, lemma_collect_storable, lemma_erase_preserves, lemma_image_round_trip,
    lemma_put_preserves, page_count, page_entries, page_image, record_at, record_offset,
    storable, Record, CAPACITY, ENTRY_SIZE, FIXED_KEY_SIZE, FIXED_VAL_SIZE, HEADER_SIZE,
    PAGE_SIZE,
};
use vstd::prelude::*;
use vstd::slice::{slice_subrange, slice_to_vec};

verus! {

/// A key-value store of fixed-size keys and values.
///
/// `state` is what the store holds. An implementation that writes to a device
/// may fail with `StoreError::IOError` where the contract leaves room for it;
/// it then still holds a well-formed state.
pub trait MetadataStoreInterface {
    /// What the store holds. An implementation that is verified defines it;
    /// of one that does not, nothing is known.
    open spec fn state(&self) -> StoreState {
        arbitrary()
    }

    /// The value stored under `key`, copied, or `None` where the key is not
    /// bound.
    fn get(&self, key: &[u8]) -> (value: Option<Vec<u8>>)
        requires
            self.state().wf(),
        ensures
            match self.state().get(key@) {
                Some(bytes) => value matches Some(v) && v@ == bytes,
                None => value is None,
            },
    ;

    /// Binds `key` to `value`. Fails with `InvalidSize` exactly when the key
    /// or the value has not its fixed size, and with `OutOfSpace` exactly when
    /// the sizes are right, the key is new and no record's worth of bytes is
    /// free; in both cases the store is unchanged.
    fn set(&mut self, key: &[u8], value: &[u8]) -> (result: Result<(), StoreError>)
        requires
            old(self).state().wf(),
        ensures
            final(self).state().wf(),
            match result {
                Ok(()) => old(self).state().set(key@, value@) == Ok::<StoreState, StoreError>(
                    final(self).state(),
                ),
                Err(StoreError::IOError) => old(self).state().set(key@, value@) is Ok,
                Err(e) => old(self).state().set(key@, value@) == Err::<StoreState, StoreError>(e)
                    && final(self).state() == old(self).state(),
            },
    ;

    /// Unbinds `key`. A key that is not bound is no error.
    fn delete(&mut self, key: &[u8]) -> (result: Result<(), StoreError>)
        requires
            old(self).state().wf(),
        ensures
            final(self).state().wf(),
            match result {
                Ok(()) => final(self).state() == old(self).state().delete(key@),
                Err(e) => e == StoreError::IOError,
            },
    ;

    /// Rewrites the page from the records one last time.
    fn close(&mut self) -> (result: Result<(), StoreError>)
        requires
            old(self).state().wf(),
        ensures
            final(self).state().wf(),
            match result {
                Ok(()) => final(self).state() == old(self).state().close(),
                Err(e) => e == StoreError::IOError,
            },
    ;

    /// The tracked count of free bytes.
    fn free_size(&self) -> (free: usize)
        ensures
            free == self.state().free_size,
    ;
}

/// One record in memory.
struct Entry {
    key: Vec<u8>,
    value: Vec<u8>,
}

/// The store over one page, held in memory.
pub struct MetadataStore {
    page: Vec<u8>,
    map: Vec<Entry>,
    free_size: usize,
}

/// The records that the entries in memory stand for.
spec fn records(entries: Seq<Entry>) -> Seq<Record> {
    Seq::new(entries.len(), |i: int| (entries[i].key@, entries[i].value@))
}

/// Whether two byte strings are equal.
fn same_bytes(a: &[u8], b: &[u8]) -> (same: bool)
    ensures
        same == (a@ == b@),
{
    if a.len() != b.len() {
        return false;
    }
    let mut i: usize = 0;
    while i < a.len()
        invariant
            a@.len() == b@.len(),
            i <= a@.len(),
            forall|k: int| 0 <= k < i ==> a@[k] == b@[k],
        decreases a@.len() - i,
    {
        if a[i] != b[i] {
            return false;
        }
        i += 1;
    }
    assert(a@ =~= b@);
    true
}

/// Copies `src` into `buf` from `offset` on.
fn copy_into(buf: &mut Vec<u8>, offset: usize, src: &[u8])
    requires
        offset + src@.len() <= old(buf)@.len(),
    ensures
        final(buf)@.len() == old(buf)@.len(),
        forall|at: int|
            0 <= at < old(buf)@.len() ==> #[trigger] final(buf)@[at] == if offset <= at < offset
                + src@.len() {
                src@[at - offset]
            } else {
                old(buf)@[at]
            },
{
    let size = buf.len();
    let mut k: usize = 0;
    while k < src.len()
        invariant
            k <= src@.len(),
            buf@.len() == old(buf)@.len(),
            buf@.len() == size,
            offset + src@.len() <= buf@.len(),
            forall|at: int|
                0 <= at < buf@.len() ==> #[trigger] buf@[at] == if offset <= at < offset + k {
                    src@[at - offset]
                } else {
                    old(buf)@[at]
                },
        decreases src@.len() - k,
    {
        buf[offset + k] = src[k];
        k += 1;
    }
}

impl View for MetadataStore {
    type V = StoreState;

    closed spec fn view(&self) -> StoreState {
        StoreState {
            entries: records(self.map@),
            free_size: self.free_size as int,
            page: self.page@,
        }
    }
}

impl MetadataStore {
    /// The invariants of the store hold.
    pub open spec fn wf(&self) -> bool {
        self@.wf()
    }

    /// The place of the entry with this key, if there is one.
    fn find(&self, key: &[u8]) -> (found: Option<usize>)
        ensures
            match found {
                Some(i) => i < self.map@.len() && records(self.map@)[i as int].0 == key@,
                None => !has_key(records(self.map@), key@),
            },
    {
        let mut i: usize = 0;
        while i < self.map.len()
            invariant
                i <= self.map@.len(),
                forall|k: int| 0 <= k < i ==> (#[trigger] records(self.map@)[k]).0 != key@,
            decreases self.map@.len() - i,
        {
            if same_bytes(self.map[i].key.as_slice(), key) {
                return Some(i);
            }
            i += 1;
        }
        None
    }

    /// Rewrites the whole page image from the records: the count, the records
    /// in order, zeros after them.
    fn write_page(&mut self)
        requires
            storable(records(old(self).map@)),
        ensures
            final(self).map == old(self).map,
            final(self).free_size == old(self).free_size,
            final(self).page@ == page_image(records(old(self).map@)),
    {
        let ghost entries = records(self.map@);
        let ghost image = page_image(entries);
        let mut buffer: Vec<u8> = vec![0u8; PAGE_SIZE];
        let count = self.map.len();
        write_be_u64(&mut buffer, count as u64);
        let mut offset: usize = HEADER_SIZE;
        let mut i: usize = 0;
        while i < count
            invariant
                count == self.map@.len(),
                entries == records(self.map@),
                image == page_image(entries),
                storable(entries),
                i <= count,
                offset == record_offset(i as int),
                buffer@.len() == PAGE_SIZE,
                forall|at: int| 0 <= at < offset ==> #[trigger] buffer@[at] == image[at],
                forall|at: int| offset <= at < PAGE_SIZE ==> #[trigger] buffer@[at] == 0u8,
            decreases count - i,
        {
            let ghost before = buffer@;
            let ghost start = offset as int;
            assert(entries[i as int].0.len() == FIXED_KEY_SIZE && entries[i as int].1.len()
                == FIXED_VAL_SIZE);
            copy_into(&mut buffer, offset, self.map[i].key.as_slice());
            offset += FIXED_KEY_SIZE;
            copy_into(&mut buffer, offset, self.map[i].value.as_slice());
            offset += FIXED_VAL_SIZE;
            assert forall|at: int| 0 <= at < offset implies #[trigger] buffer@[at] == image[at] by {
                if at >= start {
                    assert((at - HEADER_SIZE) / (ENTRY_SIZE as int) == i);
                    assert((at - HEADER_SIZE) % (ENTRY_SIZE as int) == at - start);
                } else {
                    assert(buffer@[at] == before[at]);
                }
            }
            i += 1;
        }
        assert(buffer@ =~= image);
        self.page = buffer;
    }

    /// Binds `key` to `value` in memory: the entry with this key is
    /// overwritten, a new key goes to the end.
    fn insert(&mut self, key: Vec<u8>, value: Vec<u8>)
        requires
            unique_keys(records(old(self).map@)),
        ensures
            final(self).page == old(self).page,
            final(self).free_size == old(self).free_size,
            records(final(self).map@) == put(records(old(self).map@), key@, value@),
    {
        let ghost entries = records(self.map@);
        match self.find(key.as_slice()) {
            Some(i) => {
                proof {
                    lemma_position_unique(entries, i as int);
                }
                self.map[i] = Entry { key, value };
                assert(records(self.map@) =~= entries.update(i as int, (key@, value@)));
            },
            None => {
                self.map.push(Entry { key, value });
                assert(records(self.map@) =~= entries.push((key@, value@)));
            },
        }
    }

    /// Parses the page image into the records and computes the free size from
    /// their number. A header that counts more records than a page can hold
    /// is an error, and the store is then left as it was.
    fn initialize(&mut self) -> (result: Result<(), StoreError>)
        requires
            old(self).page@.len() == PAGE_SIZE,
            old(self).map@.len() == 0,
        ensures
            final(self).page == old(self).page,
            match page_entries(old(self).page@) {
                Some(entries) => result is Ok && records(final(self).map@) == entries
                    && final(self).free_size == free_space(entries.len()),
                None => result == Err::<(), StoreError>(StoreError::IOError) && *final(self) == *old(
                    self,
                ),
            },
    {
        let num_items = read_be_u64(self.page.as_slice());
        if num_items > CAPACITY as u64 {
            return Err(StoreError::IOError);
        }
        assert(records(self.map@) =~= collect(self.page@, 0));
        let mut offset: usize = HEADER_SIZE;
        let mut i: u64 = 0;
        while i < num_items
            invariant
                self.page == old(self).page,
                self.page@.len() == PAGE_SIZE,
                num_items <= CAPACITY,
                i <= num_items,
                offset == record_offset(i as int),
                records(self.map@) == collect(self.page@, i as nat),
            decreases num_items - i,
        {
            proof {
                lemma_collect_storable(self.page@, i as nat);
            }
            let key = slice_to_vec(
                slice_subrange(self.page.as_slice(), offset, offset + FIXED_KEY_SIZE),
            );
            offset += FIXED_KEY_SIZE;
            let value = slice_to_vec(
                slice_subrange(self.page.as_slice(), offset, offset + FIXED_VAL_SIZE),
            );
            offset += FIXED_VAL_SIZE;
            assert((key@, value@) == record_at(self.page@, i as int));
            self.insert(key, value);
            i += 1;
        }
        proof {
            lemma_collect_storable(self.page@, num_items as nat);
        }
        let used_space = HEADER_SIZE + self.map.len() * ENTRY_SIZE;
        self.free_size = PAGE_SIZE - used_space;
        Ok(())
    }

    /// Opens the store on the contents of its backing file. A file shorter
    /// than a page gives a store over a zeroed page; a longer one is read
    /// from its first page, and the bytes after it are left alone. The result
    /// is an error exactly when that page's header counts more records than a
    /// page can hold.
    pub fn new(contents: &[u8]) -> (result: Result<MetadataStore, StoreError>)
        ensures
            match StoreState::load(contents@) {
                Ok(state) => result matches Ok(store) && store@ == state && store.wf(),
                Err(e) => result matches Err(err) && err == e,
            },
    {
        let page = if contents.len() < PAGE_SIZE {
            vec![0u8; PAGE_SIZE]
        } else {
            slice_to_vec(slice_subrange(contents, 0, PAGE_SIZE))
        };
        let mut store = MetadataStore { page, map: Vec::new(), free_size: PAGE_SIZE - HEADER_SIZE };
        proof {
            if contents@.len() < PAGE_SIZE {
                assert(store.page@ =~= StoreState::blank().page);
                assert(page_count(store.page@) == 0);
                assert(page_entries(store.page@) == Some(Seq::<Record>::empty()));
            }
            if page_entries(store.page@) is Some {
                lemma_collect_storable(store.page@, page_count(store.page@) as nat);
            }
        }
        match store.initialize() {
            Ok(()) => Ok(store),
            Err(e) => Err(e),
        }
    }

    /// The image of the page as the last rewrite left it: what the backing
    /// file must hold in its first `PAGE_SIZE` bytes.
    pub fn page(&self) -> (bytes: &[u8])
        ensures
            bytes@ == self@.page,
    {
        self.page.as_slice()
    }
}

impl MetadataStoreInterface for MetadataStore {
    open spec fn state(&self) -> StoreState {
        self@
    }

    /// Looks the key up in memory. The page is not touched.
    fn get(&self, key: &[u8]) -> (value: Option<Vec<u8>>) {
        match self.find(key) {
            Some(i) => {
                proof {
                    lemma_position_unique(records(self.map@), i as int);
                }
                Some(slice_to_vec(self.map[i].value.as_slice()))
            },
            None => None,
        }
    }

    /// Binds `key` to `value`: tests the sizes, then the space, then updates
    /// the records, rewrites the page image and at last the free size. This
    /// store never fails with `IOError`.
    fn set(&mut self, key: &[u8], value: &[u8]) -> (result: Result<(), StoreError>)
        ensures
            result != Err::<(), StoreError>(StoreError::IOError),
    {
        if key.len() != FIXED_KEY_SIZE || value.len() != FIXED_VAL_SIZE {
            return Err(StoreError::InvalidSize);
        }
        let ghost entries = records(self.map@);
        let required_space: usize = if self.find(key).is_none() {
            FIXED_KEY_SIZE + FIXED_VAL_SIZE
        } else {
            0
        };
        if self.free_size < required_space {
            return Err(StoreError::OutOfSpace);
        }
        proof {
            lemma_put_preserves(entries, key@, value@);
        }
        self.insert(slice_to_vec(key), slice_to_vec(value));
        self.write_page();
        self.free_size -= required_space;
        proof {
            lemma_image_round_trip(put(entries, key@, value@));
        }
        Ok(())
    }

    /// Unbinds `key`. Where it was bound the page image is rewritten and a
    /// record's bytes become free; where it was not, nothing changes. This
    /// store always returns `Ok`.
    fn delete(&mut self, key: &[u8]) -> (result: Result<(), StoreError>)
        ensures
            result is Ok,
    {
        let ghost entries = records(self.map@);
        match self.find(key) {
            Some(i) => {
                proof {
                    lemma_position_unique(entries, i as int);
                    lemma_erase_preserves(entries, key@);
                }
                self.map.remove(i);
                assert(records(self.map@) =~= entries.remove(i as int));
                self.write_page();
                self.free_size += FIXED_KEY_SIZE + FIXED_VAL_SIZE;
                proof {
                    lemma_image_round_trip(entries.remove(i as int));
                }
            },
            None => {},
        }
        Ok(())
    }

    /// Rewrites the page image from the records. This store always returns
    /// `Ok`.
    fn close(&mut self) -> (result: Result<(), StoreError>)
        ensures
            result is Ok,
    {
        self.write_page();
        proof {
            lemma_image_round_trip(records(self.map@));
        }
        Ok(())
    }

    /// The tracked count of free bytes: the counter, not a scan.
    fn free_size(&self) -> (free: usize) {
        self.free_size
    }
}

} // verus!
