use submilli_wasm::config::{Collector, CollectorKind, Config, OptLevel, UnsupportedCollector, WasmBacktraceDetails};

#[test]
fn backtrace_knob_defaults() {
    let c = Config::new();
    assert!(c.wasm_backtrace_enabled(), "backtrace on by default");
    assert!(!c.debug_info_enabled(), "debug_info off by default");
}

#[test]
fn knobs_round_trip() {
    let mut c = Config::new();
    c.wasm_backtrace(false).debug_info(true);
    assert!(!c.wasm_backtrace_enabled());
    assert!(c.debug_info_enabled());
}

#[test]
fn details_follow_the_setting_or_the_environment() {
    let mut c = Config::new();
    assert!(c.wasm_backtrace_details_enabled(true));
    assert!(!c.wasm_backtrace_details_enabled(false));
    c.wasm_backtrace_details(WasmBacktraceDetails::Enable);
    assert!(c.wasm_backtrace_details_enabled(false));
    c.wasm_backtrace_details(WasmBacktraceDetails::Disable);
    assert!(!c.wasm_backtrace_details_enabled(true));
}

#[test]
fn stack_fuel_and_threshold_knobs() {
    let mut c = Config::new();
    assert_eq!(c.max_wasm_stack_bytes(), None);
    assert_eq!(c.gc_memory_threshold_bytes(), None);
    assert_eq!(c.gc_heap_reservation_bytes(), 0);
    c.max_wasm_stack(4096).consume_fuel(true).epoch_interruption(true).gc_memory_threshold(1000).gc_heap_reservation(77);
    assert_eq!(c.max_wasm_stack_bytes(), Some(4096));
    assert!(c.consume_fuel_enabled());
    assert!(c.epoch_interruption_enabled());
    assert_eq!(c.gc_memory_threshold_bytes(), Some(1000));
    assert_eq!(c.gc_heap_reservation_bytes(), 77);
    c.cranelift_opt_level(OptLevel::Speed).wasm_gc(true).memory_guard_size(1);
    assert_eq!(c.max_wasm_stack_bytes(), Some(4096));
}

#[test]
fn collectors_resolve_or_are_refused() {
    assert_eq!(Collector::Auto.resolve(), Ok(CollectorKind::MarkSweep));
    assert_eq!(Collector::MarkSweep.resolve(), Ok(CollectorKind::MarkSweep));
    assert_eq!(Collector::Null.resolve(), Ok(CollectorKind::Null));
    assert_eq!(Collector::Copying.resolve(), Err(UnsupportedCollector::Copying));
    assert_eq!(
        Collector::DeferredReferenceCounting.resolve(),
        Err(UnsupportedCollector::DeferredReferenceCounting)
    );
}

#[test]
fn details_enable_disable_resolve_without_env() {
    assert!(Config::new()
        .wasm_backtrace_details(WasmBacktraceDetails::Enable)
        .wasm_backtrace_details_enabled(false));
    assert!(!Config::new()
        .wasm_backtrace_details(WasmBacktraceDetails::Disable)
        .wasm_backtrace_details_enabled(true));
}
