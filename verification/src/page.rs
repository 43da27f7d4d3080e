//! The layout of the page and what its bytes mean.
//!
//! A page is `PAGE_SIZE` bytes: a big-endian 64-bit item count, then that many
//! records, each a key of `FIXED_KEY_SIZE` bytes followed by a value of
//! `FIXED_VAL_SIZE` bytes. The bytes after the last record carry no meaning.

use crate::assoc::{
    erase, has_key, lemma_erase_unique, lemma_put_unique, position, put, unique_keys,
};
use crate::byte_order::{be_u64, lemma_be_u64_of_bytes, u64_be_bytes};
use vstd::prelude::*;

verus! {

/// Size in bytes of the page, the unit of storage and of every write.
pub const PAGE_SIZE: usize = 4096;

/// Size in bytes of every key.
pub const FIXED_KEY_SIZE: usize = 8;

/// Size in bytes of every value.
pub const FIXED_VAL_SIZE: usize = 8;

/// Size in bytes of the item count at the head of the page.
pub const HEADER_SIZE: usize = 8;

/// Size in bytes of one record: a key and its value.
pub const ENTRY_SIZE: usize = 16;

/// The most records a page can hold.
pub const CAPACITY: usize = 255;

/// A record is a key and a value, and the page has room for `CAPACITY` of
/// them after its header.
pub proof fn lemma_layout()
    ensures
        ENTRY_SIZE == FIXED_KEY_SIZE + FIXED_VAL_SIZE,
        CAPACITY == (PAGE_SIZE - HEADER_SIZE) / (ENTRY_SIZE as int),
{
}

/// A key and its value.
pub type Record = (Seq<u8>, Seq<u8>);

/// Every key and every value has its fixed size.
pub open spec fn sized(entries: Seq<Record>) -> bool {
    forall|i: int|
        0 <= i < entries.len() ==> (#[trigger] entries[i]).0.len() == FIXED_KEY_SIZE
            && entries[i].1.len() == FIXED_VAL_SIZE
}

/// Free bytes of a page that holds `count` records.
pub open spec fn free_space(count: nat) -> int {
    PAGE_SIZE - HEADER_SIZE - count * ENTRY_SIZE
}

/// Offset in the page of record number `i`.
pub open spec fn record_offset(i: int) -> int {
    HEADER_SIZE + i * ENTRY_SIZE
}

/// The page that is written for these records: the count, the records in
/// order, then zeros.
pub open spec fn page_image(entries: Seq<Record>) -> Seq<u8> {
    Seq::new(
        PAGE_SIZE as nat,
        |at: int|
            if at < HEADER_SIZE {
                u64_be_bytes(entries.len() as u64)[at]
            } else if at < record_offset(entries.len() as int) {
                let i = (at - HEADER_SIZE) / (ENTRY_SIZE as int);
                let within = (at - HEADER_SIZE) % (ENTRY_SIZE as int);
                if within < FIXED_KEY_SIZE {
                    entries[i].0[within]
                } else {
                    entries[i].1[within - FIXED_KEY_SIZE]
                }
            } else {
                0u8
            },
    )
}

/// Record number `i` as the page's bytes spell it.
pub open spec fn record_at(page: Seq<u8>, i: int) -> Record {
    (
        page.subrange(record_offset(i), record_offset(i) + FIXED_KEY_SIZE),
        page.subrange(record_offset(i) + FIXED_KEY_SIZE, record_offset(i + 1)),
    )
}

/// The first `count` records of a page, read in order into an empty index: a
/// key that comes again overwrites the value read before.
pub open spec fn collect(page: Seq<u8>, count: nat) -> Seq<Record>
    decreases count,
{
    if count == 0 {
        Seq::empty()
    } else {
        let (key, value) = record_at(page, count - 1);
        put(collect(page, (count - 1) as nat), key, value)
    }
}

/// The item count in the page's header.
pub open spec fn page_count(page: Seq<u8>) -> int {
    be_u64(page.subrange(0, HEADER_SIZE as int))
}

/// What a page holds: `None` for a page that is not `PAGE_SIZE` bytes or whose
/// header counts more records than a page has room for.
pub open spec fn page_entries(page: Seq<u8>) -> Option<Seq<Record>> {
    if page.len() == PAGE_SIZE && page_count(page) <= CAPACITY {
        Some(collect(page, page_count(page) as nat))
    } else {
        None
    }
}

/// Records that a page can hold: fixed sizes, no key twice, no more than
/// `CAPACITY` of them.
pub open spec fn storable(entries: Seq<Record>) -> bool {
    &&& sized(entries)
    &&& unique_keys(entries)
    &&& entries.len() <= CAPACITY
}

/// Binding a key of the fixed size to a value of the fixed size keeps the
/// sizes and the uniqueness of keys, and adds a record exactly when the key is
/// new.
pub proof fn lemma_put_preserves(entries: Seq<Record>, key: Seq<u8>, value: Seq<u8>)
    requires
        sized(entries),
        unique_keys(entries),
        key.len() == FIXED_KEY_SIZE,
        value.len() == FIXED_VAL_SIZE,
    ensures
        sized(put(entries, key, value)),
        unique_keys(put(entries, key, value)),
        put(entries, key, value).len() == entries.len() + if has_key(entries, key) {
            0int
        } else {
            1int
        },
{
    let next = put(entries, key, value);
    lemma_put_unique(entries, key, value);
    let p = if has_key(entries, key) {
        position(entries, key)
    } else {
        entries.len() as int
    };
    assert forall|i: int| 0 <= i < next.len() implies (#[trigger] next[i]).0.len()
        == FIXED_KEY_SIZE && next[i].1.len() == FIXED_VAL_SIZE by {
        if i != p {
            assert(next[i] == entries[i]);
        }
    }
}

/// Unbinding a key keeps the sizes and the uniqueness of keys, and takes a
/// record away exactly when the key was bound.
pub proof fn lemma_erase_preserves(entries: Seq<Record>, key: Seq<u8>)
    requires
        sized(entries),
        unique_keys(entries),
    ensures
        sized(erase(entries, key)),
        unique_keys(erase(entries, key)),
        !has_key(erase(entries, key), key),
        erase(entries, key).len() == entries.len() - if has_key(entries, key) {
            1int
        } else {
            0int
        },
{
    let next = erase(entries, key);
    lemma_erase_unique(entries, key);
    if has_key(entries, key) {
        let p = position(entries, key);
        assert(0 <= p < entries.len() && entries[p].0 == key);
        assert forall|i: int| 0 <= i < next.len() implies (#[trigger] next[i]).0.len()
            == FIXED_KEY_SIZE && next[i].1.len() == FIXED_VAL_SIZE by {
            let a = if i < p { i } else { i + 1 };
            assert(next[i] == entries[a]);
        }
    }
}

/// The page written for storable records spells each of them at its place.
pub proof fn lemma_image_record(entries: Seq<Record>, i: int)
    requires
        storable(entries),
        0 <= i < entries.len(),
    ensures
        record_at(page_image(entries), i) == entries[i],
{
    let image = page_image(entries);
    let start = record_offset(i);
    let (key, value) = record_at(image, i);
    assert(entries[i].0.len() == FIXED_KEY_SIZE && entries[i].1.len() == FIXED_VAL_SIZE);
    assert(key.len() == FIXED_KEY_SIZE);
    assert(value.len() == FIXED_VAL_SIZE);
    assert forall|k: int| 0 <= k < FIXED_KEY_SIZE implies key[k] == entries[i].0[k] by {
        let at = start + k;
        assert((at - HEADER_SIZE) / (ENTRY_SIZE as int) == i);
        assert((at - HEADER_SIZE) % (ENTRY_SIZE as int) == k);
        assert(key[k] == image[at]);
    }
    assert forall|k: int| 0 <= k < FIXED_VAL_SIZE implies value[k] == entries[i].1[k] by {
        let at = start + FIXED_KEY_SIZE + k;
        assert((at - HEADER_SIZE) / (ENTRY_SIZE as int) == i);
        assert((at - HEADER_SIZE) % (ENTRY_SIZE as int) == FIXED_KEY_SIZE + k);
        assert(value[k] == image[at]);
    }
    assert(key =~= entries[i].0);
    assert(value =~= entries[i].1);
}

/// Reading the first `count` records of the page written for storable records
/// gives the first `count` of them.
pub proof fn lemma_collect_image(entries: Seq<Record>, count: nat)
    requires
        storable(entries),
        count <= entries.len(),
    ensures
        collect(page_image(entries), count) == entries.take(count as int),
    decreases count,
{
    let image = page_image(entries);
    if count == 0 {
        assert(entries.take(0) =~= Seq::<Record>::empty());
    } else {
        let before = entries.take(count - 1);
        lemma_collect_image(entries, (count - 1) as nat);
        lemma_image_record(entries, count - 1);
        let (key, value) = entries[count - 1];
        if has_key(before, key) {
            let p = position(before, key);
            assert(0 <= p < before.len() && before[p].0 == key);
            assert(entries[p].0 != entries[count - 1].0);
        }
        assert(before.push((key, value)) =~= entries.take(count as int));
    }
}

/// Parsing the page written for storable records gives these records back, in
/// their order.
pub proof fn lemma_image_round_trip(entries: Seq<Record>)
    requires
        storable(entries),
    ensures
        page_image(entries).len() == PAGE_SIZE,
        page_count(page_image(entries)) == entries.len(),
        page_entries(page_image(entries)) == Some(entries),
{
    let image = page_image(entries);
    lemma_be_u64_of_bytes(entries.len() as u64);
    assert(image.subrange(0, HEADER_SIZE as int) =~= u64_be_bytes(entries.len() as u64));
    lemma_collect_image(entries, entries.len());
    assert(entries.take(entries.len() as int) =~= entries);
}

/// Reading records from any page gives storable records, at most as many as
/// were read.
pub proof fn lemma_collect_storable(page: Seq<u8>, count: nat)
    requires
        page.len() == PAGE_SIZE,
        count <= CAPACITY,
    ensures
        sized(collect(page, count)),
        unique_keys(collect(page, count)),
        collect(page, count).len() <= count,
    decreases count,
{
    if count > 0 {
        lemma_collect_storable(page, (count - 1) as nat);
        let (key, value) = record_at(page, count - 1);
        lemma_put_preserves(collect(page, (count - 1) as nat), key, value);
    }
}

} // verus!
