use rocksfs::errors::StoreError;
use rocksfs::store::{default_options, KvStore};

#[test]
fn test_create_empty() {
    let store = KvStore::new();
    assert_eq!(store.number_of_keys().unwrap(), 0);
}

#[test]
fn test_open_empty() {
    {
        let _store = KvStore::new();
    }

    {
        let _store = KvStore::new();
    }
}

#[test]
fn test_put_get_number_of_keys() {
    let mut store = KvStore::new();

    for i in 0..10u8 {
        store.put(format!("foo{i}").as_bytes(), &[i; 128]).unwrap();
    }

    assert_eq!(store.number_of_keys().unwrap(), 10);

    for i in 0..10u8 {
        assert_eq!(&store.get(format!("foo{i}").as_bytes()).unwrap()[..], [i; 128]);
        assert_eq!(store.get_size(format!("foo{i}").as_bytes()).unwrap(), 128);
    }
}

#[test]
fn test_put_get_del() {
    let mut store = KvStore::new();

    for i in 0..10u8 {
        store.put(format!("foo{i}").as_bytes(), &[i; 128]).unwrap();
    }

    assert_eq!(store.number_of_keys().unwrap(), 10);

    for i in 0..10u8 {
        assert_eq!(&store.get(format!("foo{i}").as_bytes()).unwrap()[..], [i; 128]);
    }

    for i in 0..5u8 {
        store.del(format!("foo{}", i).as_bytes()).unwrap();
    }

    assert_eq!(store.number_of_keys().unwrap(), 5);

    for i in 0..10u8 {
        if i < 5 {
            assert!(store.get(format!("foo{i}").as_bytes()).is_err());
        } else {
            assert_eq!(&store.get(format!("foo{i}").as_bytes()).unwrap()[..], [i; 128]);
        }
    }
}

#[test]
fn test_iter() {
    let mut store = KvStore::new();

    for i in 0..10u8 {
        store.put(format!("foo{i}").as_bytes(), &[i; 128]).unwrap();
    }

    assert_eq!(store.number_of_keys().unwrap(), 10);
}

#[test]
fn test_put_overwrites() {
    let mut store = KvStore::new();
    store.put(b"k", b"first").unwrap();
    store.put(b"k", b"second").unwrap();
    assert_eq!(store.number_of_keys().unwrap(), 1);
    assert_eq!(store.get(b"k").unwrap(), b"second".to_vec());
    assert_eq!(store.get_size(b"k").unwrap(), 6);
}

#[test]
fn test_get_not_found() {
    let store = KvStore::new();
    let err = store.get(b"absent").unwrap_err();
    assert!(err.is_not_found());
    assert!(matches!(err, StoreError::NotFound));
    let err = store.get_size(b"absent").unwrap_err();
    assert!(err.is_not_found());
}

#[test]
fn test_delete_idempotent() {
    let mut store = KvStore::new();
    store.del(b"absent").unwrap();
    assert_eq!(store.number_of_keys().unwrap(), 0);

    store.put(b"k", b"v").unwrap();
    store.del(b"k").unwrap();
    assert!(store.get(b"k").unwrap_err().is_not_found());
    assert!(!store.has(b"k").unwrap());
    store.del(b"k").unwrap();
    assert_eq!(store.number_of_keys().unwrap(), 0);
}

#[test]
fn test_has() {
    let mut store = KvStore::new();
    assert!(!store.has(b"k").unwrap());
    store.put(b"k", b"v").unwrap();
    assert!(store.has(b"k").unwrap());
}

#[test]
fn test_bulk_put_visible() {
    let mut store = KvStore::new();
    let mut records: Vec<(Vec<u8>, Vec<u8>)> = Vec::new();
    for i in 0..6u8 {
        records.push((vec![i], vec![i; 4]));
    }
    store.bulk_put(&records).unwrap();
    assert_eq!(store.number_of_keys().unwrap(), 6);
    for i in 0..6u8 {
        assert_eq!(store.get(&[i]).unwrap(), vec![i; 4]);
    }
}

#[test]
fn test_bulk_put_duplicate_key_last_wins() {
    let mut store = KvStore::new();
    let records: Vec<(Vec<u8>, Vec<u8>)> = vec![
        (b"dup".to_vec(), b"old".to_vec()),
        (b"other".to_vec(), b"x".to_vec()),
        (b"dup".to_vec(), b"new".to_vec()),
    ];
    store.bulk_put(&records).unwrap();
    assert_eq!(store.number_of_keys().unwrap(), 2);
    assert_eq!(store.get(b"dup").unwrap(), b"new".to_vec());
}

#[test]
fn test_bulk_delete() {
    let mut store = KvStore::new();
    for i in 0..6u8 {
        store.put(&[i], &[i; 2]).unwrap();
    }
    let keys: Vec<Vec<u8>> = vec![vec![0u8], vec![2u8], vec![4u8], vec![9u8]];
    store.bulk_delete(&keys).unwrap();
    assert_eq!(store.number_of_keys().unwrap(), 3);
    assert!(store.get(&[0u8]).unwrap_err().is_not_found());
    assert_eq!(store.get(&[1u8]).unwrap(), vec![1u8; 2]);
}

#[test]
fn test_clear() {
    let mut store = KvStore::new();
    for i in 0..7u8 {
        store.put(&[i], &[i]).unwrap();
    }
    assert_eq!(store.number_of_keys().unwrap(), 7);
    store.clear().unwrap();
    assert_eq!(store.number_of_keys().unwrap(), 0);
    for i in 0..7u8 {
        assert!(store.get(&[i]).unwrap_err().is_not_found());
    }
}

#[test]
fn test_default_options() {
    let opts = default_options();
    assert!(opts.create_if_missing);
    assert!(opts.enable_large_value_offload);
    assert_eq!(opts.large_value_threshold, 512 * 1024);
    assert!(!opts.use_direct_io_for_flush_and_compaction);
    assert!(!opts.use_direct_reads);
}
