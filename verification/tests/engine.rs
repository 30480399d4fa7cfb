use submilli_wasm::config::{Collector, Config};
use submilli_wasm::engine::Engine;

fn engine(threshold: usize) -> Engine {
    let mut cfg = Config::new();
    cfg.gc_memory_threshold(threshold);
    Engine::new(&cfg, false, None).unwrap()
}

#[test]
fn below_threshold_does_not_post() {
    let mut engine = engine(1000);
    let m = engine.register_gc_request();
    engine.add_gc_committed(500);
    assert!(!engine.gc_request_posted(m), "no request below the threshold");
    assert_eq!(engine.gc_committed_bytes(), 500);
}

#[test]
fn crossing_threshold_posts_to_every_mailbox() {
    let mut engine = engine(1000);
    let a = engine.register_gc_request();
    let b = engine.register_gc_request();
    engine.add_gc_committed(1200);
    assert!(engine.gc_request_posted(a) && engine.gc_request_posted(b), "all stores notified");
}

#[test]
fn one_store_clears_only_its_own_mailbox() {
    let mut engine = engine(1000);
    let a = engine.register_gc_request();
    let b = engine.register_gc_request();
    engine.add_gc_committed(2000);
    assert!(engine.take_gc_request(a));
    assert!(!engine.gc_request_posted(a), "serviced");
    assert!(engine.gc_request_posted(b), "other store still has its request");
}

#[test]
fn dead_mailboxes_are_pruned_without_panic() {
    let mut engine = engine(1000);
    let a = engine.register_gc_request();
    let b = engine.register_gc_request();
    engine.drop_gc_request(b);
    engine.add_gc_committed(2000);
    assert!(engine.gc_request_posted(a));
    assert!(!engine.gc_request_posted(b));
    engine.take_gc_request(a);
    engine.add_gc_committed(1);
    assert!(engine.gc_request_posted(a));
}

#[test]
fn committed_total_tracks_add_and_sub() {
    let mut engine = engine(usize::MAX);
    engine.add_gc_committed(4096);
    engine.add_gc_committed(2048);
    assert_eq!(engine.gc_committed_bytes(), 6144);
    engine.sub_gc_committed(4096);
    assert_eq!(engine.gc_committed_bytes(), 2048);
}

#[test]
fn exactly_at_the_threshold_does_not_post() {
    let mut engine = engine(1000);
    let a = engine.register_gc_request();
    engine.add_gc_committed(1000);
    assert!(!engine.gc_request_posted(a));
    engine.add_gc_committed(1);
    assert!(engine.gc_request_posted(a));
}

#[test]
fn without_a_threshold_nothing_is_posted() {
    let mut engine = Engine::new(&Config::new(), false, None).unwrap();
    let a = engine.register_gc_request();
    engine.add_gc_committed(usize::MAX / 2);
    assert!(!engine.gc_request_posted(a));
}

#[test]
fn sub_wraps_below_zero() {
    let mut engine = engine(usize::MAX);
    engine.add_gc_committed(1);
    engine.sub_gc_committed(2);
    assert_eq!(engine.gc_committed_bytes(), usize::MAX);
}

#[test]
fn mailbox_ids_are_handed_out_in_order() {
    let mut engine = engine(1000);
    let a = engine.register_gc_request();
    let b = engine.register_gc_request();
    assert_eq!(a.0, 0);
    assert_eq!(b.0, 1);
    assert!(!engine.take_gc_request(a));
}

#[test]
fn epoch_counter_increments() {
    let mut engine = engine(1000);
    assert_eq!(engine.current_epoch(), 0);
    engine.increment_epoch();
    engine.increment_epoch();
    assert_eq!(engine.current_epoch(), 2);
}

#[test]
fn unsupported_collector_is_refused() {
    let mut cfg = Config::new();
    cfg.collector(Collector::Copying);
    assert!(Engine::new(&cfg, false, None).is_err());
}

#[test]
fn unset_threshold_follows_physical_memory() {
    let engine = Engine::new(&Config::new(), false, Some(10_000)).unwrap();
    assert_eq!(engine.gc_memory_threshold(), Some(8_000));
    let mut engine = Engine::new(&Config::new(), false, Some(10_000)).unwrap();
    let m = engine.register_gc_request();
    engine.add_gc_committed(8_000);
    assert!(!engine.gc_request_posted(m));
    engine.add_gc_committed(1);
    assert!(engine.gc_request_posted(m), "crossing four fifths of memory posts");
    let mut cfg = Config::new();
    cfg.gc_memory_threshold(50);
    assert_eq!(Engine::new(&cfg, false, Some(10_000)).unwrap().gc_memory_threshold(), Some(50));
}

#[test]
fn default_config_has_no_reservation_and_no_async() {
    let engine = Engine::new(&Config::new(), false, None).unwrap();
    assert_eq!(engine.gc_heap_reservation(), 0);
    assert!(!engine.is_async());
}

#[test]
fn committed_total_wraps_like_an_atomic_add() {
    let mut engine = engine(usize::MAX);
    engine.add_gc_committed(usize::MAX);
    engine.add_gc_committed(2);
    assert_eq!(engine.gc_committed_bytes(), 1);
}
