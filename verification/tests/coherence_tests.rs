use cache_layer_optimizer::{
    CoherenceProtocol, InvalidationStrategy, WriteAround, WriteBack, WriteThrough,
};

#[test]
fn test_write_through() {
    let mut protocol = WriteThrough::new();
    protocol.invalidate("key1").unwrap();
    assert_eq!(protocol.metrics().invalidations, 1);
}

#[test]
fn test_write_through_creation() {
    let protocol = WriteThrough::new();

    assert_eq!(protocol.metrics().invalidations, 0);
    assert_eq!(protocol.metrics().coherent_writes, 0);
}

#[test]
fn test_write_through_invalidate() {
    let mut protocol = WriteThrough::new();

    protocol.invalidate("key1").unwrap();

    assert_eq!(protocol.metrics().invalidations, 1);
    assert!(protocol.metrics().avg_invalidation_time / 1_000_000 >= 0);
}

#[test]
fn test_write_through_update() {
    let mut protocol = WriteThrough::new();

    protocol.update("key1", b"value".to_vec()).unwrap();

    assert_eq!(protocol.metrics().coherent_writes, 1);
}

#[test]
fn test_write_through_multiple_operations() {
    let mut protocol = WriteThrough::new();

    protocol.invalidate("key1").unwrap();
    protocol.update("key2", b"value".to_vec()).unwrap();
    protocol.invalidate("key3").unwrap();

    assert_eq!(protocol.metrics().invalidations, 2);
    assert_eq!(protocol.metrics().coherent_writes, 1);
}

#[test]
fn test_write_back_creation() {
    let protocol = WriteBack::new();

    assert_eq!(protocol.metrics().invalidations, 0);
    assert_eq!(protocol.metrics().coherent_writes, 0);
    assert!(protocol.dirty.is_empty());
}

#[test]
fn test_write_back_invalidate() {
    let mut protocol = WriteBack::new();

    protocol.invalidate("key1").unwrap();

    assert_eq!(protocol.metrics().invalidations, 1);
}

#[test]
fn test_write_back_update() {
    let mut protocol = WriteBack::new();

    protocol.update("key1", b"value".to_vec()).unwrap();

    assert_eq!(protocol.metrics().coherent_writes, 1);
    assert_eq!(protocol.dirty.len(), 1);
    assert_eq!(protocol.dirty[0], "key1");
}

#[test]
fn test_write_back_multiple_updates() {
    let mut protocol = WriteBack::new();

    protocol.update("key1", b"value1".to_vec()).unwrap();
    protocol.update("key2", b"value2".to_vec()).unwrap();
    protocol.update("key3", b"value3".to_vec()).unwrap();

    assert_eq!(protocol.metrics().coherent_writes, 3);
    assert_eq!(protocol.dirty.len(), 3);
}

#[test]
fn test_write_back_dirty_tracking() {
    let mut protocol = WriteBack::new();

    protocol.update("key1", b"value1".to_vec()).unwrap();
    protocol.update("key2", b"value2".to_vec()).unwrap();
    protocol.update("key1", b"value1_new".to_vec()).unwrap();

    assert_eq!(protocol.dirty.len(), 3);
    assert_eq!(protocol.dirty, vec!["key1".to_string(), "key2".to_string(), "key1".to_string()]);
}

#[test]
fn test_write_around_creation() {
    let protocol = WriteAround::new();

    assert_eq!(protocol.metrics().invalidations, 0);
    assert_eq!(protocol.metrics().coherent_writes, 0);
}

#[test]
fn test_write_around_invalidate() {
    let mut protocol = WriteAround::new();

    protocol.invalidate("key1").unwrap();

    assert_eq!(protocol.metrics().invalidations, 1);
}

#[test]
fn test_write_around_update() {
    let mut protocol = WriteAround::new();

    protocol.update("key1", b"value".to_vec()).unwrap();

    assert_eq!(protocol.metrics().coherent_writes, 1);
}

#[test]
fn test_coherence_metrics_tracking() {
    let mut protocol = WriteThrough::new();

    for i in 0..10 {
        protocol.invalidate(&format!("key{}", i)).unwrap();
    }

    for i in 0..5 {
        protocol.update(&format!("key{}", i), b"value".to_vec()).unwrap();
    }

    let metrics = protocol.metrics();

    assert_eq!(metrics.invalidations, 10);
    assert_eq!(metrics.coherent_writes, 5);
}

#[test]
fn test_coherence_invalidation_timing() {
    let mut protocol = WriteThrough::new();

    let start = std::time::Instant::now();
    protocol.invalidate("key1").unwrap();
    let first_duration = start.elapsed();

    protocol.invalidate("key2").unwrap();

    assert!(protocol.metrics().avg_invalidation_time / 1_000_000 >= 0);
    assert!(first_duration.as_millis() < 100);
}

#[test]
fn test_write_through_vs_write_back() {
    let mut wt = WriteThrough::new();
    let mut wb = WriteBack::new();

    wt.update("key1", b"value".to_vec()).unwrap();
    wb.update("key1", b"value".to_vec()).unwrap();

    assert_eq!(wt.metrics().coherent_writes, 1);
    assert_eq!(wb.metrics().coherent_writes, 1);

    assert_eq!(wb.dirty.len(), 1);
}

#[test]
fn test_coherence_high_throughput() {
    let mut protocol = WriteThrough::new();

    let start = std::time::Instant::now();

    for i in 0..10000 {
        protocol.invalidate(&format!("key{}", i)).unwrap();
    }

    let duration = start.elapsed();

    assert!(duration.as_millis() < 500);
    assert_eq!(protocol.metrics().invalidations, 10000);
}

#[test]
fn test_write_back_dirty_performance() {
    let mut protocol = WriteBack::new();

    let start = std::time::Instant::now();

    for i in 0..10000 {
        protocol.update(&format!("key{}", i), b"value".to_vec()).unwrap();
    }

    let duration = start.elapsed();

    assert_eq!(protocol.dirty.len(), 10000);
    assert!(duration.as_millis() < 500);
}

#[test]
fn test_coherence_empty_key() {
    let mut protocol = WriteThrough::new();

    protocol.invalidate("").unwrap();

    assert_eq!(protocol.metrics().invalidations, 1);
}

#[test]
fn test_coherence_very_long_key() {
    let long_key = "a".repeat(10000);
    let mut protocol = WriteThrough::new();

    protocol.invalidate(&long_key).unwrap();

    assert_eq!(protocol.metrics().invalidations, 1);
}

#[test]
fn test_coherence_empty_value() {
    let mut protocol = WriteThrough::new();

    protocol.update("key1", vec![]).unwrap();

    assert_eq!(protocol.metrics().coherent_writes, 1);
}

#[test]
fn test_coherence_large_value() {
    let large_value = vec![0u8; 10_000_000];
    let mut protocol = WriteThrough::new();

    protocol.update("key1", large_value).unwrap();

    assert_eq!(protocol.metrics().coherent_writes, 1);
}

#[test]
fn test_write_back_duplicate_keys() {
    let mut protocol = WriteBack::new();

    for _ in 0..10 {
        protocol.update("key1", b"value".to_vec()).unwrap();
    }

    assert_eq!(protocol.dirty.len(), 10);
    assert_eq!(protocol.metrics().coherent_writes, 10);
}

#[test]
fn test_coherence_mixed_operations() {
    let mut protocol = WriteThrough::new();

    protocol.update("key1", b"value1".to_vec()).unwrap();
    protocol.invalidate("key1").unwrap();
    protocol.update("key1", b"value2".to_vec()).unwrap();
    protocol.invalidate("key2").unwrap();

    assert_eq!(protocol.metrics().coherent_writes, 2);
    assert_eq!(protocol.metrics().invalidations, 2);
}

#[test]
fn test_write_back_invalidate_keeps_dirty() {
    let mut protocol = WriteBack::new();
    protocol.update("a", vec![1]).unwrap();
    protocol.invalidate("a").unwrap();
    assert_eq!(protocol.dirty, vec!["a".to_string()]);
    assert_eq!(protocol.metrics().invalidations, 1);
    assert_eq!(protocol.metrics().coherent_writes, 1);
}

#[test]
fn test_protocols_behind_trait_objects() {
    let mut protocols: Vec<Box<dyn CoherenceProtocol>> = vec![
        Box::new(WriteThrough::new()),
        Box::new(WriteBack::new()),
        Box::new(WriteAround::new()),
    ];
    for p in protocols.iter_mut() {
        p.invalidate("k").unwrap();
        p.update("k", vec![]).unwrap();
        assert_eq!(p.metrics().invalidations, 1);
        assert_eq!(p.metrics().coherent_writes, 1);
        assert_eq!(p.metrics().incoherent_reads, 0);
    }
}

#[test]
fn test_invalidation_strategy_variants() {
    let all = [InvalidationStrategy::Immediate, InvalidationStrategy::Lazy, InvalidationStrategy::Periodic];
    assert_eq!(all.len(), 3);
    assert_ne!(all[0], all[1]);
}

#[test]
fn test_write_back_mixed_run_keeps_write_order() {
    let mut protocol = WriteBack::new();
    protocol.update("b", vec![1]).unwrap();
    protocol.invalidate("a").unwrap();
    protocol.update("a", vec![2]).unwrap();
    protocol.invalidate("b").unwrap();
    protocol.update("b", vec![3]).unwrap();
    assert_eq!(protocol.dirty, vec!["b".to_string(), "a".to_string(), "b".to_string()]);
    assert_eq!(protocol.metrics().coherent_writes, 3);
    assert_eq!(protocol.metrics().invalidations, 2);
}
