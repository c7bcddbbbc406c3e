use rocksfs::errors::MigrationError;
use rocksfs::pipeline::{MigrationPipeline, SourceItem};
use rocksfs::store::KvStore;

fn record_source(n: u8, value_len: usize) -> Vec<SourceItem> {
    let mut source = Vec::new();
    for i in 0..n {
        source.push(SourceItem::Record(
            format!("foo{i}").into_bytes(),
            vec![i; value_len],
        ));
    }
    source
}

#[test]
fn test_migration_completeness() {
    // batch size 3 does not divide 7 evenly
    let source = record_source(7, 16);
    let mut dest = KvStore::new();
    let pipeline = MigrationPipeline { batch_size: 3, limit: None, report_interval: 10_000 };
    let (stats, _reports) = pipeline.run(&source, &mut dest).unwrap();
    assert_eq!(stats.count, 7);
    assert_eq!(stats.bytes, 7 * 16);
    assert_eq!(stats.flushes, 3);
    assert_eq!(dest.number_of_keys().unwrap(), 7);
    for i in 0..7u8 {
        assert_eq!(dest.get(format!("foo{i}").as_bytes()).unwrap(), vec![i; 16]);
    }
}

#[test]
fn test_migration_limit() {
    let source = record_source(7, 16);
    let mut dest = KvStore::new();
    let pipeline = MigrationPipeline { batch_size: 3, limit: Some(4), report_interval: 10_000 };
    let (stats, _reports) = pipeline.run(&source, &mut dest).unwrap();
    assert_eq!(stats.count, 4);
    assert_eq!(stats.bytes, 4 * 16);
    assert_eq!(dest.number_of_keys().unwrap(), 4);
    assert!(dest.has(b"foo3").unwrap());
    assert!(!dest.has(b"foo4").unwrap());
}

#[test]
fn test_migration_limit_zero() {
    let source = record_source(5, 8);
    let mut dest = KvStore::new();
    let pipeline = MigrationPipeline { batch_size: 2, limit: Some(0), report_interval: 10_000 };
    let (stats, reports) = pipeline.run(&source, &mut dest).unwrap();
    assert_eq!(stats.count, 0);
    assert_eq!(stats.bytes, 0);
    assert_eq!(stats.flushes, 0);
    assert_eq!(reports.len(), 0);
    assert_eq!(dest.number_of_keys().unwrap(), 0);
}

#[test]
fn test_batch_boundaries() {
    // 250 records in batches of 100: exactly 3 bulk writes (100, 100, 50)
    let mut source = Vec::new();
    for i in 0..250u32 {
        source.push(SourceItem::Record(
            format!("key{i}").into_bytes(),
            vec![(i % 256) as u8; 8],
        ));
    }
    let mut dest = KvStore::new();
    let pipeline = MigrationPipeline { batch_size: 100, limit: None, report_interval: 10_000 };
    let (stats, _reports) = pipeline.run(&source, &mut dest).unwrap();
    assert_eq!(stats.count, 250);
    assert_eq!(stats.flushes, 3);
    assert_eq!(dest.number_of_keys().unwrap(), 250);
    for i in 0..250u32 {
        assert!(dest.has(format!("key{i}").as_bytes()).unwrap());
    }
}

#[test]
fn test_migration_empty_source() {
    let source: Vec<SourceItem> = Vec::new();
    let mut dest = KvStore::new();
    let pipeline = MigrationPipeline { batch_size: 4, limit: None, report_interval: 10_000 };
    let (stats, reports) = pipeline.run(&source, &mut dest).unwrap();
    assert_eq!(stats.count, 0);
    assert_eq!(stats.bytes, 0);
    assert_eq!(stats.flushes, 0);
    assert_eq!(reports.len(), 0);
    assert_eq!(dest.number_of_keys().unwrap(), 0);
}

#[test]
fn test_source_read_error_aborts() {
    // with batch size 2 and an error at the fifth item, two full batches
    // (four records) stay committed and nothing later is visible
    let mut source = Vec::new();
    for i in 0..4u8 {
        source.push(SourceItem::Record(vec![i], vec![i; 4]));
    }
    source.push(SourceItem::ReadError);
    source.push(SourceItem::Record(vec![9u8], vec![9u8; 4]));
    let mut dest = KvStore::new();
    let pipeline = MigrationPipeline { batch_size: 2, limit: None, report_interval: 10_000 };
    let err = pipeline.run(&source, &mut dest).unwrap_err();
    assert!(matches!(err, MigrationError::SourceRead));
    assert_eq!(dest.number_of_keys().unwrap(), 4);
    for i in 0..4u8 {
        assert!(dest.has(&[i]).unwrap());
    }
    assert!(!dest.has(&[9u8]).unwrap());
}

#[test]
fn test_source_read_error_partial_batch_uncommitted() {
    // the error arrives while the second batch is still filling: only the
    // first full batch of three records is committed
    let mut source = Vec::new();
    for i in 0..4u8 {
        source.push(SourceItem::Record(vec![i], vec![i; 4]));
    }
    source.push(SourceItem::ReadError);
    let mut dest = KvStore::new();
    let pipeline = MigrationPipeline { batch_size: 3, limit: None, report_interval: 10_000 };
    let err = pipeline.run(&source, &mut dest).unwrap_err();
    assert!(matches!(err, MigrationError::SourceRead));
    assert_eq!(dest.number_of_keys().unwrap(), 3);
    assert!(!dest.has(&[3u8]).unwrap());
}

#[test]
fn test_limit_stops_before_error() {
    // the limit is reached before the error item is read, so the run succeeds
    let mut source = Vec::new();
    for i in 0..3u8 {
        source.push(SourceItem::Record(vec![i], vec![i; 4]));
    }
    source.push(SourceItem::ReadError);
    let mut dest = KvStore::new();
    let pipeline = MigrationPipeline { batch_size: 2, limit: Some(3), report_interval: 10_000 };
    let (stats, _reports) = pipeline.run(&source, &mut dest).unwrap();
    assert_eq!(stats.count, 3);
    assert_eq!(dest.number_of_keys().unwrap(), 3);
}

#[test]
fn test_progress_reports() {
    // ten 128-byte values with a 1000-byte interval: the cumulative volume
    // crosses 1000 at the eighth record (1024 bytes) and nothing crosses
    // 2000, so exactly one observation is emitted
    let source = record_source(10, 128);
    let mut dest = KvStore::new();
    let pipeline = MigrationPipeline { batch_size: 4, limit: None, report_interval: 1000 };
    let (stats, reports) = pipeline.run(&source, &mut dest).unwrap();
    assert_eq!(stats.count, 10);
    assert_eq!(stats.bytes, 1280);
    assert_eq!(reports.len(), 1);
    assert_eq!(reports[0].count, 8);
    assert_eq!(reports[0].bytes, 1024);
}

#[test]
fn test_migration_overwrites_existing_keys() {
    // re-running a migration overwrites by key instead of duplicating
    let source = record_source(5, 8);
    let mut dest = KvStore::new();
    dest.put(b"foo1", b"stale").unwrap();
    let pipeline = MigrationPipeline { batch_size: 2, limit: None, report_interval: 10_000 };
    let (stats, _reports) = pipeline.run(&source, &mut dest).unwrap();
    assert_eq!(stats.count, 5);
    assert_eq!(dest.number_of_keys().unwrap(), 5);
    assert_eq!(dest.get(b"foo1").unwrap(), vec![1u8; 8]);
}
