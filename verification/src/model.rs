//! The store as a mathematical value, and the laws that its operations obey.
//!
//! [`StoreState`] is what a store is to its callers: the records in page order,
//! the tracked count of free bytes, and the image of the backing page. Each
//! operation of the store is a function on this value; the contracts of the
//! executable store refer to these functions, and the proof functions below
//! state what follows from them.

use crate::error::StoreError;
use crate::assoc::{
    as_map, erase, has_key, lemma_erase_is_remove, lemma_lookup_erase, lemma_lookup_put,
    lemma_map_len, lemma_put_is_insert, lookup, put, unique_keys,
};
use crate::page::{
    free_space, lemma_collect_storable, lemma_erase_preserves, lemma_image_round_trip,
    lemma_put_preserves, page_count, page_entries, page_image, sized, Record, CAPACITY,
    ENTRY_SIZE, FIXED_KEY_SIZE, FIXED_VAL_SIZE, HEADER_SIZE, PAGE_SIZE,
};
use vstd::prelude::*;

verus! {

/// The state of a store.
pub struct StoreState {
    /// The records, in the order in which the page holds them.
    pub entries: Seq<Record>,
    /// The tracked count of free bytes.
    pub free_size: int,
    /// The image of the backing page.
    pub page: Seq<u8>,
}

impl StoreState {
    /// The invariants of a store: records of the fixed sizes with no key
    /// twice, a free-size counter that accounts for exactly these records and
    /// is not negative, and a page that parses to exactly these records.
    pub open spec fn wf(self) -> bool {
        &&& sized(self.entries)
        &&& unique_keys(self.entries)
        &&& self.free_size == free_space(self.entries.len())
        &&& self.free_size >= 0
        &&& page_entries(self.page) == Some(self.entries)
    }

    /// The mapping from key to value that the store holds.
    pub open spec fn map(self) -> Map<Seq<u8>, Seq<u8>> {
        as_map(self.entries)
    }

    /// The store over a zeroed page: no records.
    pub open spec fn blank() -> StoreState {
        StoreState {
            entries: Seq::empty(),
            free_size: PAGE_SIZE - HEADER_SIZE,
            page: Seq::new(PAGE_SIZE as nat, |at: int| 0u8),
        }
    }

    /// The store that opening a backing file with these contents gives. A file
    /// shorter than a page is replaced by a zeroed page. Otherwise its first
    /// page is parsed; a header that counts more records than fit is an error.
    pub open spec fn load(contents: Seq<u8>) -> Result<StoreState, StoreError> {
        if contents.len() < PAGE_SIZE {
            Ok(Self::blank())
        } else {
            let page = contents.subrange(0, PAGE_SIZE as int);
            match page_entries(page) {
                Some(entries) => Ok(
                    StoreState { entries, free_size: free_space(entries.len()), page },
                ),
                None => Err(StoreError::IOError),
            }
        }
    }

    /// The value stored under `key`, if any.
    pub open spec fn get(self, key: Seq<u8>) -> Option<Seq<u8>> {
        lookup(self.entries, key)
    }

    /// The bytes that binding `key` takes from the free space: a record for a
    /// new key, nothing for a key that is bound already.
    pub open spec fn required_space(self, key: Seq<u8>) -> int {
        if has_key(self.entries, key) {
            0
        } else {
            ENTRY_SIZE as int
        }
    }

    /// Binding `key` to `value`: the next state, or the reason for which the
    /// store stays as it is.
    pub open spec fn set(self, key: Seq<u8>, value: Seq<u8>) -> Result<StoreState, StoreError> {
        if key.len() != FIXED_KEY_SIZE || value.len() != FIXED_VAL_SIZE {
            Err(StoreError::InvalidSize)
        } else if self.free_size < self.required_space(key) {
            Err(StoreError::OutOfSpace)
        } else {
            let entries = put(self.entries, key, value);
            Ok(
                StoreState {
                    entries,
                    free_size: self.free_size - self.required_space(key),
                    page: page_image(entries),
                },
            )
        }
    }

    /// Unbinding `key`. Where the key is bound its record leaves, the page is
    /// rewritten and a record's bytes become free; where it is not, nothing
    /// changes.
    pub open spec fn delete(self, key: Seq<u8>) -> StoreState {
        if has_key(self.entries, key) {
            let entries = erase(self.entries, key);
            StoreState { entries, free_size: self.free_size + ENTRY_SIZE, page: page_image(entries) }
        } else {
            self
        }
    }

    /// Flushing: the page is rewritten from the records.
    pub open spec fn close(self) -> StoreState {
        StoreState { page: page_image(self.entries), ..self }
    }
}

/// A store that was opened is well formed.
pub proof fn lemma_load_wf(contents: Seq<u8>)
    ensures
        StoreState::load(contents) matches Ok(state) ==> state.wf(),
        StoreState::load(contents) is Err <==> contents.len() >= PAGE_SIZE && page_count(
            contents.subrange(0, PAGE_SIZE as int),
        ) > CAPACITY,
{
    if contents.len() < PAGE_SIZE {
        lemma_blank();
    } else {
        let page = contents.subrange(0, PAGE_SIZE as int);
        if page_entries(page) is Some {
            lemma_collect_storable(page, page_count(page) as nat);
        }
    }
}

/// The store over a zeroed page is well formed, holds nothing, and has all of
/// the page but its header free.
pub proof fn lemma_blank()
    ensures
        StoreState::blank().wf(),
        StoreState::blank().free_size == PAGE_SIZE - HEADER_SIZE,
        StoreState::blank().map() == Map::<Seq<u8>, Seq<u8>>::empty(),
        forall|key: Seq<u8>| StoreState::blank().get(key) is None,
{
    let blank = StoreState::blank();
    assert(page_count(blank.page) == 0);
    assert(page_entries(blank.page) == Some(Seq::<Record>::empty()));
    assert(blank.map() =~= Map::<Seq<u8>, Seq<u8>>::empty());
}

/// Opening a store that holds no records leaves all of the page but its
/// header free: a file shorter than a page, or a page whose header counts
/// zero records.
pub proof fn lemma_load_empty(contents: Seq<u8>)
    requires
        contents.len() < PAGE_SIZE || page_count(contents.subrange(0, PAGE_SIZE as int)) == 0,
    ensures
        StoreState::load(contents) matches Ok(state) && state.entries.len() == 0
            && state.free_size == PAGE_SIZE - HEADER_SIZE,
{
}

/// The free size accounts for the number of keys in the mapping, and that
/// number never exceeds the capacity of the page.
pub proof fn lemma_free_size_tracks_map(state: StoreState)
    requires
        state.wf(),
    ensures
        state.map().dom().finite(),
        state.free_size == PAGE_SIZE - HEADER_SIZE - state.map().len() * (FIXED_KEY_SIZE
            + FIXED_VAL_SIZE),
        state.map().len() <= (PAGE_SIZE - HEADER_SIZE) / (FIXED_KEY_SIZE + FIXED_VAL_SIZE),
        state.map().len() == state.entries.len(),
{
    lemma_map_len(state.entries);
}

/// Looking a key up answers from the mapping.
pub proof fn lemma_get_is_map(state: StoreState, key: Seq<u8>)
    ensures
        state.get(key) == if state.map().contains_key(key) {
            Some(state.map()[key])
        } else {
            None
        },
{
}

/// A successful `set` leaves a well-formed store whose mapping is the old one
/// with `key` bound to `value`, and whose page parses to exactly that.
pub proof fn lemma_set_wf(state: StoreState, key: Seq<u8>, value: Seq<u8>)
    requires
        state.wf(),
    ensures
        state.set(key, value) matches Ok(next) ==> next.wf() && next.map() == state.map().insert(
            key,
            value,
        ),
{
    if state.set(key, value) is Ok {
        lemma_put_preserves(state.entries, key, value);
        lemma_image_round_trip(put(state.entries, key, value));
        lemma_put_is_insert(state.entries, key, value);
    }
}

/// `delete` leaves a well-formed store whose mapping is the old one without
/// `key`.
pub proof fn lemma_delete_wf(state: StoreState, key: Seq<u8>)
    requires
        state.wf(),
    ensures
        state.delete(key).wf(),
        state.delete(key).map() == state.map().remove(key),
{
    lemma_erase_preserves(state.entries, key);
    lemma_erase_is_remove(state.entries, key);
    if has_key(state.entries, key) {
        lemma_image_round_trip(erase(state.entries, key));
    }
}

/// `close` leaves a well-formed store with the same records and the same free
/// size.
pub proof fn lemma_close_wf(state: StoreState)
    requires
        state.wf(),
    ensures
        state.close().wf(),
        state.close().entries == state.entries,
        state.close().free_size == state.free_size,
{
    lemma_image_round_trip(state.entries);
}

/// With a key and a value of the fixed sizes, and room in the page where the
/// key is new, `set` succeeds; `get` on the same key then returns exactly that
/// value, and `get` on any other key returns what it returned before.
pub proof fn lemma_set_then_get(state: StoreState, key: Seq<u8>, value: Seq<u8>, other: Seq<u8>)
    requires
        state.wf(),
        key.len() == FIXED_KEY_SIZE,
        value.len() == FIXED_VAL_SIZE,
        state.get(key) is Some || state.entries.len() < CAPACITY,
    ensures
        state.set(key, value) is Ok,
        state.set(key, value)->Ok_0.get(key) == Some(value),
        other != key ==> state.set(key, value)->Ok_0.get(other) == state.get(other),
{
    lemma_lookup_put(state.entries, key, value, other);
}

/// A successful `set` of a new key takes exactly one record's bytes from the
/// free size; overwriting a key leaves the free size unchanged.
pub proof fn lemma_set_free_size(state: StoreState, key: Seq<u8>, value: Seq<u8>)
    requires
        state.wf(),
        key.len() == FIXED_KEY_SIZE,
        value.len() == FIXED_VAL_SIZE,
        state.get(key) is Some || state.entries.len() < CAPACITY,
    ensures
        state.set(key, value) is Ok,
        state.get(key) is None ==> state.set(key, value)->Ok_0.free_size == state.free_size - (
        FIXED_KEY_SIZE + FIXED_VAL_SIZE),
        state.get(key) is Some ==> state.set(key, value)->Ok_0.free_size == state.free_size,
{
}

/// `delete` of a bound key gives exactly one record's bytes back, once: the
/// key is then unbound and a second `delete` changes nothing. `delete` of an
/// unbound key changes nothing.
pub proof fn lemma_delete_free_size(state: StoreState, key: Seq<u8>)
    requires
        state.wf(),
    ensures
        state.get(key) is Some ==> state.delete(key).free_size == state.free_size + (
        FIXED_KEY_SIZE + FIXED_VAL_SIZE),
        state.get(key) is None ==> state.delete(key) == state,
        state.delete(key).get(key) is None,
        state.delete(key).delete(key) == state.delete(key),
{
    lemma_erase_preserves(state.entries, key);
}

/// After `delete`, `get` on any other key returns what it returned before.
pub proof fn lemma_delete_then_get(state: StoreState, key: Seq<u8>, other: Seq<u8>)
    requires
        state.wf(),
        other != key,
    ensures
        state.delete(key).get(other) == state.get(other),
{
    lemma_lookup_erase(state.entries, key, other);
}

/// Opening the page of a well-formed store gives that store back: the same
/// records, the same free size. In particular a store that was closed and
/// then opened again from what it wrote is the store that was closed.
pub proof fn lemma_reopen(state: StoreState)
    requires
        state.wf(),
    ensures
        StoreState::load(state.page) == Ok::<StoreState, StoreError>(state),
        StoreState::load(state.close().page) == Ok::<StoreState, StoreError>(state.close()),
        state.close().entries == state.entries,
        state.close().free_size == state.free_size,
        state.close().map() == state.map(),
{
    lemma_close_wf(state);
    assert(state.page.subrange(0, PAGE_SIZE as int) =~= state.page);
    let closed = state.close();
    assert(closed.page.subrange(0, PAGE_SIZE as int) =~= closed.page);
}

/// `set` fails with `InvalidSize` exactly when the key or the value has not
/// its fixed size.
pub proof fn lemma_set_invalid_size(state: StoreState, key: Seq<u8>, value: Seq<u8>)
    ensures
        state.set(key, value) == Err::<StoreState, StoreError>(StoreError::InvalidSize) <==> key.len()
            != FIXED_KEY_SIZE || value.len() != FIXED_VAL_SIZE,
{
}

/// With a key and a value of the fixed sizes, `set` fails with `OutOfSpace`
/// exactly when the key is new and the store already holds as many records as
/// a page has room for; otherwise it succeeds.
pub proof fn lemma_set_out_of_space(state: StoreState, key: Seq<u8>, value: Seq<u8>)
    requires
        state.wf(),
        key.len() == FIXED_KEY_SIZE,
        value.len() == FIXED_VAL_SIZE,
    ensures
        state.set(key, value) == Err::<StoreState, StoreError>(StoreError::OutOfSpace)
            <==> state.get(key) is None && state.entries.len() == (PAGE_SIZE - HEADER_SIZE) / (
        FIXED_KEY_SIZE + FIXED_VAL_SIZE),
        state.set(key, value) is Ok <==> state.get(key) is Some || state.entries.len() < (PAGE_SIZE
            - HEADER_SIZE) / (FIXED_KEY_SIZE + FIXED_VAL_SIZE),
{
}

} // verus!
