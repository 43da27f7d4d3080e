use rustdb::error::StoreError;
use rustdb::page::{CAPACITY, ENTRY_SIZE, FIXED_KEY_SIZE, FIXED_VAL_SIZE, HEADER_SIZE, PAGE_SIZE};
use rustdb::store::{MetadataStore, MetadataStoreInterface};

fn key(n: u64) -> [u8; 8] {
    n.to_le_bytes()
}

fn empty_store() -> MetadataStore {
    MetadataStore::new(&[]).unwrap()
}

#[test]
fn layout_constants() {
    assert_eq!(PAGE_SIZE, 4096);
    assert_eq!(FIXED_KEY_SIZE, 8);
    assert_eq!(FIXED_VAL_SIZE, 8);
    assert_eq!(HEADER_SIZE, 8);
    assert_eq!(ENTRY_SIZE, FIXED_KEY_SIZE + FIXED_VAL_SIZE);
    assert_eq!(CAPACITY, (PAGE_SIZE - HEADER_SIZE) / ENTRY_SIZE);
}

#[test]
fn set_then_get_returns_the_value() {
    let mut store = empty_store();

    assert_eq!(store.set(b"key00001", b"value001"), Ok(()));
    assert_eq!(store.get(b"key00001"), Some(b"value001".to_vec()));
    assert_eq!(store.get(b"key00002"), None);
}

#[test]
fn empty_store_has_the_page_free_but_the_header() {
    let store = empty_store();
    assert_eq!(store.free_size(), 4088);
    assert_eq!(store.page(), &[0u8; 4096][..]);

    let zeroed = MetadataStore::new(&[0u8; 4096]).unwrap();
    assert_eq!(zeroed.free_size(), PAGE_SIZE - 8);
    assert_eq!(zeroed.get(&[0u8; 8]), None);
}

#[test]
fn short_file_is_replaced_by_a_zeroed_page() {
    let mut contents = vec![0u8; 4095];
    contents[7] = 1;
    contents[8] = 0xaa;

    let store = MetadataStore::new(&contents).unwrap();
    assert_eq!(store.free_size(), 4088);
    assert_eq!(store.page(), &[0u8; 4096][..]);
}

#[test]
fn new_key_takes_a_record_and_overwrite_takes_nothing() {
    let mut store = empty_store();

    for n in 0..5u64 {
        let before = store.free_size();
        assert_eq!(store.set(&key(n), &key(n + 100)), Ok(()));
        assert_eq!(store.free_size(), before - 16);
    }
    assert_eq!(store.free_size(), 4088 - 5 * 16);

    assert_eq!(store.set(&key(2), &key(999)), Ok(()));
    assert_eq!(store.free_size(), 4088 - 5 * 16);
    assert_eq!(store.get(&key(2)), Some(key(999).to_vec()));
    assert_eq!(store.get(&key(3)), Some(key(103).to_vec()));
}

#[test]
fn delete_frees_a_record_once() {
    let mut store = empty_store();
    store.set(b"aaaaaaaa", b"11111111").unwrap();
    store.set(b"bbbbbbbb", b"22222222").unwrap();
    assert_eq!(store.free_size(), 4056);

    assert_eq!(store.delete(b"aaaaaaaa"), Ok(()));
    assert_eq!(store.free_size(), 4072);
    assert_eq!(store.get(b"aaaaaaaa"), None);
    assert_eq!(store.get(b"bbbbbbbb"), Some(b"22222222".to_vec()));

    assert_eq!(store.delete(b"aaaaaaaa"), Ok(()));
    assert_eq!(store.free_size(), 4072);
}

#[test]
fn delete_of_an_absent_key_changes_nothing() {
    let mut store = empty_store();
    store.set(b"aaaaaaaa", b"11111111").unwrap();
    let page = store.page().to_vec();

    assert_eq!(store.delete(b"zzzzzzzz"), Ok(()));
    assert_eq!(store.delete(b"short"), Ok(()));
    assert_eq!(store.free_size(), 4072);
    assert_eq!(store.page(), &page[..]);
}

#[test]
fn close_then_reopen_gives_the_same_store() {
    let mut store = empty_store();
    for n in 0..20u64 {
        store.set(&key(n), &key(n * 3)).unwrap();
    }
    store.delete(&key(7)).unwrap();
    assert_eq!(store.close(), Ok(()));

    let reopened = MetadataStore::new(store.page()).unwrap();
    assert_eq!(reopened.free_size(), store.free_size());
    assert_eq!(reopened.page(), store.page());
    for n in 0..20u64 {
        assert_eq!(reopened.get(&key(n)), store.get(&key(n)));
    }
    assert_eq!(reopened.get(&key(7)), None);
    assert_eq!(reopened.get(&key(8)), Some(key(24).to_vec()));
}

#[test]
fn set_rejects_wrong_sizes_and_leaves_the_store() {
    let mut store = empty_store();
    store.set(b"aaaaaaaa", b"11111111").unwrap();
    let page = store.page().to_vec();

    assert_eq!(store.set(b"short", b"11111111"), Err(StoreError::InvalidSize));
    assert_eq!(store.set(b"aaaaaaaa", b"too long!"), Err(StoreError::InvalidSize));
    assert_eq!(store.set(b"", b""), Err(StoreError::InvalidSize));
    assert_eq!(store.set(b"aaaaaaaaa", b"1111111"), Err(StoreError::InvalidSize));

    assert_eq!(store.free_size(), 4072);
    assert_eq!(store.get(b"aaaaaaaa"), Some(b"11111111".to_vec()));
    assert_eq!(store.page(), &page[..]);
}

#[test]
fn full_page_rejects_a_new_key_only() {
    let mut store = empty_store();
    for n in 0..255u64 {
        assert_eq!(store.set(&key(n), &key(n + 1)), Ok(()));
    }
    assert_eq!(store.free_size(), 8);

    assert_eq!(store.set(&key(255), &key(0)), Err(StoreError::OutOfSpace));
    assert_eq!(store.free_size(), 8);
    assert_eq!(store.get(&key(255)), None);
    for n in 0..255u64 {
        assert_eq!(store.get(&key(n)), Some(key(n + 1).to_vec()));
    }

    assert_eq!(store.set(&key(10), &key(0)), Ok(()));
    assert_eq!(store.get(&key(10)), Some(key(0).to_vec()));
    assert_eq!(store.free_size(), 8);

    store.delete(&key(0)).unwrap();
    assert_eq!(store.set(&key(255), &key(0)), Ok(()));
}

#[test]
fn ten_keys_delete_one_reopen() {
    let mut store = MetadataStore::new(&[]).unwrap();
    let keys: Vec<[u8; 8]> = (1..=10u64).map(|n| key(n)).collect();
    for (n, k) in keys.iter().enumerate() {
        store.set(k, &key(1000 + n as u64)).unwrap();
    }
    assert_eq!(store.free_size(), 4096 - 8 - 10 * 16);
    assert_eq!(store.free_size(), 3928);

    store.delete(&keys[4]).unwrap();
    assert_eq!(store.free_size(), 3944);
    assert_eq!(store.get(&keys[4]), None);

    store.close().unwrap();
    let reopened = MetadataStore::new(store.page()).unwrap();
    assert_eq!(reopened.free_size(), 3944);
    for (n, k) in keys.iter().enumerate() {
        if n == 4 {
            assert_eq!(reopened.get(k), None);
        } else {
            assert_eq!(reopened.get(k), Some(key(1000 + n as u64).to_vec()));
        }
    }
}

#[test]
fn page_is_the_count_then_the_records_then_zeros() {
    let mut store = empty_store();
    store.set(b"aaaaaaaa", b"11111111").unwrap();
    store.set(b"bbbbbbbb", b"22222222").unwrap();
    store.set(b"aaaaaaaa", b"33333333").unwrap();

    let mut expected = vec![0u8; 4096];
    expected[7] = 2;
    expected[8..16].copy_from_slice(b"aaaaaaaa");
    expected[16..24].copy_from_slice(b"33333333");
    expected[24..32].copy_from_slice(b"bbbbbbbb");
    expected[32..40].copy_from_slice(b"22222222");
    assert_eq!(store.page(), &expected[..]);

    store.delete(b"aaaaaaaa").unwrap();
    let mut expected = vec![0u8; 4096];
    expected[7] = 1;
    expected[8..16].copy_from_slice(b"bbbbbbbb");
    expected[16..24].copy_from_slice(b"22222222");
    assert_eq!(store.page(), &expected[..]);
}

#[test]
fn header_is_read_big_endian() {
    let mut page = vec![0u8; 4096];
    page[7] = 2;
    page[8..16].copy_from_slice(b"aaaaaaaa");
    page[16..24].copy_from_slice(b"11111111");
    page[24..32].copy_from_slice(b"bbbbbbbb");
    page[32..40].copy_from_slice(b"22222222");

    let store = MetadataStore::new(&page).unwrap();
    assert_eq!(store.free_size(), 4088 - 32);
    assert_eq!(store.get(b"aaaaaaaa"), Some(b"11111111".to_vec()));
    assert_eq!(store.get(b"bbbbbbbb"), Some(b"22222222".to_vec()));
    assert_eq!(store.page(), &page[..]);

    page[0] = 2;
    page[7] = 0;
    assert_eq!(MetadataStore::new(&page).err(), Some(StoreError::IOError));
}

#[test]
fn header_that_counts_too_many_records_is_an_error() {
    let mut page = vec![0u8; 4096];
    page[6] = 1;
    page[7] = 0;
    assert_eq!(MetadataStore::new(&page).err(), Some(StoreError::IOError));

    page[6] = 0;
    page[7] = 255;
    let store = MetadataStore::new(&page).unwrap();
    assert_eq!(store.free_size(), 4088 - 16);
    assert_eq!(store.get(&[0u8; 8]), Some(vec![0u8; 8]));
}

#[test]
fn repeated_key_on_the_page_keeps_the_later_value() {
    let mut page = vec![0u8; 4096];
    page[7] = 3;
    page[8..16].copy_from_slice(b"aaaaaaaa");
    page[16..24].copy_from_slice(b"11111111");
    page[24..32].copy_from_slice(b"bbbbbbbb");
    page[32..40].copy_from_slice(b"22222222");
    page[40..48].copy_from_slice(b"aaaaaaaa");
    page[48..56].copy_from_slice(b"33333333");

    let mut store = MetadataStore::new(&page).unwrap();
    assert_eq!(store.get(b"aaaaaaaa"), Some(b"33333333".to_vec()));
    assert_eq!(store.free_size(), 4088 - 32);

    store.close().unwrap();
    let mut expected = vec![0u8; 4096];
    expected[7] = 2;
    expected[8..16].copy_from_slice(b"aaaaaaaa");
    expected[16..24].copy_from_slice(b"33333333");
    expected[24..32].copy_from_slice(b"bbbbbbbb");
    expected[32..40].copy_from_slice(b"22222222");
    assert_eq!(store.page(), &expected[..]);
}

#[test]
fn bytes_after_the_first_page_are_not_read() {
    let mut contents = vec![0u8; 8192];
    contents[7] = 1;
    contents[8..16].copy_from_slice(b"aaaaaaaa");
    contents[16..24].copy_from_slice(b"11111111");
    for byte in contents[4096..].iter_mut() {
        *byte = 0xff;
    }

    let store = MetadataStore::new(&contents).unwrap();
    assert_eq!(store.page().len(), 4096);
    assert_eq!(store.page(), &contents[..4096]);
    assert_eq!(store.free_size(), 4072);
}
