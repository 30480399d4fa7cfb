//! `Config` — engine/runtime configuration (wasmtime-compatible builder).
use vstd::prelude::*;

verus! {

/// Garbage-collector selection, mostly mirroring `wasmtime::Collector`. `Auto` resolves to the
/// non-moving mark-sweep collector; `Null` is allocate-only; `DeferredReferenceCounting` and
/// `Copying` are not implemented and are rejected when an engine is built.
#[non_exhaustive]
#[derive(PartialEq, Eq, Structural, Clone, Copy, Debug)]
pub enum Collector {
    Auto,
    DeferredReferenceCounting,
    Null,
    Copying,
    MarkSweep,
}

impl Default for Collector {
    fn default() -> (c: Collector)
        ensures
            c == Collector::Auto,
    {
        Collector::Auto
    }
}

/// The collector strategy actually run, resolved from the public [`Collector`].
#[derive(PartialEq, Eq, Structural, Clone, Copy, Debug)]
pub enum CollectorKind {
    /// Allocate-only; reclaims nothing.
    Null,
    /// Non-moving stop-the-world mark-sweep.
    MarkSweep,
}

/// The collectors this runtime does not implement, reported when an engine is built with one.
#[derive(PartialEq, Eq, Structural, Clone, Copy, Debug)]
pub enum UnsupportedCollector {
    DeferredReferenceCounting,
    Copying,
}

impl UnsupportedCollector {
    /// The error text reported for an unsupported collector.
    pub fn message(&self) -> (s: String)
        ensures
            s@ == unsupported_collector_message(*self),
    {
        match self {
            UnsupportedCollector::DeferredReferenceCounting => "the deferred reference-counting collector is not supported (use Collector::Auto, Collector::MarkSweep, or Collector::Null)".to_owned(),
            UnsupportedCollector::Copying => "the copying collector is not supported (use Collector::Auto, Collector::MarkSweep, or Collector::Null)".to_owned(),
        }
    }
}

pub open spec fn unsupported_collector_message(u: UnsupportedCollector) -> Seq<char> {
    match u {
        UnsupportedCollector::DeferredReferenceCounting => "the deferred reference-counting collector is not supported (use Collector::Auto, Collector::MarkSweep, or Collector::Null)"@,
        UnsupportedCollector::Copying => "the copying collector is not supported (use Collector::Auto, Collector::MarkSweep, or Collector::Null)"@,
    }
}

/// The strategy a public collector selection resolves to (`Err` for the unimplemented ones).
pub open spec fn resolve_collector(c: Collector) -> Result<CollectorKind, UnsupportedCollector> {
    match c {
        Collector::Auto | Collector::MarkSweep => Ok(CollectorKind::MarkSweep),
        Collector::Null => Ok(CollectorKind::Null),
        Collector::DeferredReferenceCounting => Err(UnsupportedCollector::DeferredReferenceCounting),
        Collector::Copying => Err(UnsupportedCollector::Copying),
    }
}

impl Collector {
    /// Resolves the public selection to the internal strategy, rejecting the collectors that are
    /// not implemented.
    pub fn resolve(self) -> (r: Result<CollectorKind, UnsupportedCollector>)
        ensures
            r == resolve_collector(self),
    {
        match self {
            Collector::Auto | Collector::MarkSweep => Ok(CollectorKind::MarkSweep),
            Collector::Null => Ok(CollectorKind::Null),
            Collector::DeferredReferenceCounting => Err(UnsupportedCollector::DeferredReferenceCounting),
            Collector::Copying => Err(UnsupportedCollector::Copying),
        }
    }
}

/// Cranelift optimization level, mirroring `wasmtime::OptLevel`; accepted for API parity only.
#[non_exhaustive]
#[derive(PartialEq, Eq, Structural, Clone, Copy, Debug)]
pub enum OptLevel {
    NoOptimization,
    Speed,
    SpeedAndSize,
}

impl Default for OptLevel {
    fn default() -> (o: OptLevel)
        ensures
            o == OptLevel::NoOptimization,
    {
        OptLevel::NoOptimization
    }
}

/// Whether captured backtraces carry DWARF file/line detail, mirroring
/// `wasmtime::WasmBacktraceDetails`. `Environment` (the default) defers to the
/// `WASMTIME_BACKTRACE_DETAILS` environment variable.
#[non_exhaustive]
#[derive(PartialEq, Eq, Structural, Clone, Copy, Debug)]
pub enum WasmBacktraceDetails {
    Enable,
    Disable,
    Environment,
}

impl Default for WasmBacktraceDetails {
    fn default() -> (d: WasmBacktraceDetails)
        ensures
            d == WasmBacktraceDetails::Environment,
    {
        WasmBacktraceDetails::Environment
    }
}


/// Global configuration for an [`crate::engine::Engine`]. Builder methods return `&mut Self`.
#[derive(Clone, Debug)]
pub struct Config {
    consume_fuel: bool,
    epoch_interruption: bool,
    max_wasm_stack: Option<usize>,
    collector: Collector,
    gc_memory_threshold: Option<usize>,
    gc_heap_reservation: u64,
    async_support: bool,
    wasm_backtrace: bool,
    wasm_backtrace_details: WasmBacktraceDetails,
    debug_info: bool,
}

/// The abstract settings a [`Config`] holds.
pub struct ConfigView {
    pub consume_fuel: bool,
    pub epoch_interruption: bool,
    pub max_wasm_stack: Option<usize>,
    pub collector: Collector,
    pub gc_memory_threshold: Option<usize>,
    pub gc_heap_reservation: u64,
    pub async_support: bool,
    pub wasm_backtrace: bool,
    pub wasm_backtrace_details: WasmBacktraceDetails,
    pub debug_info: bool,
}

impl View for Config {
    type V = ConfigView;

    closed spec fn view(&self) -> ConfigView {
        ConfigView {
            consume_fuel: self.consume_fuel,
            epoch_interruption: self.epoch_interruption,
            max_wasm_stack: self.max_wasm_stack,
            collector: self.collector,
            gc_memory_threshold: self.gc_memory_threshold,
            gc_heap_reservation: self.gc_heap_reservation,
            async_support: self.async_support,
            wasm_backtrace: self.wasm_backtrace,
            wasm_backtrace_details: self.wasm_backtrace_details,
            debug_info: self.debug_info,
        }
    }
}

/// The settings of a fresh configuration: fuel and epochs off, no stack or GC-threshold override,
/// automatic collector, no pre-authorized GC reservation, async support off, backtraces on with
/// environment-controlled detail, and no retained debug info.
pub open spec fn default_config_view() -> ConfigView {
    ConfigView {
        consume_fuel: false,
        epoch_interruption: false,
        max_wasm_stack: None,
        collector: Collector::Auto,
        gc_memory_threshold: None,
        gc_heap_reservation: 0,
        async_support: false,
        wasm_backtrace: true,
        wasm_backtrace_details: WasmBacktraceDetails::Environment,
        debug_info: false,
    }
}

impl Default for Config {
    fn default() -> (c: Config)
        ensures
            c@ == default_config_view(),
    {
        Config {
            consume_fuel: false,
            epoch_interruption: false,
            max_wasm_stack: None,
            collector: Collector::Auto,
            gc_memory_threshold: None,
            gc_heap_reservation: 0,
            async_support: false,
            wasm_backtrace: true,
            wasm_backtrace_details: WasmBacktraceDetails::Environment,
            debug_info: false,
        }
    }
}

impl Config {
    /// Creates a configuration with default settings.
    pub fn new() -> (c: Config)
        ensures
            c@ == default_config_view(),
    {
        Config::default()
    }

    /// Enables fuel consumption (metering). Off by default.
    pub fn consume_fuel(&mut self, enable: bool) -> (r: &mut Self)
        ensures
            final(self)@ == final(r)@,
            r@ == (ConfigView { consume_fuel: enable, ..old(self)@ }),
    {
        self.consume_fuel = enable;
        self
    }

    /// Whether fuel metering is enabled.
    pub fn consume_fuel_enabled(&self) -> (b: bool)
        ensures
            b == self@.consume_fuel,
    {
        self.consume_fuel
    }

    /// Enables epoch-based interruption. Off by default.
    pub fn epoch_interruption(&mut self, enable: bool) -> (r: &mut Self)
        ensures
            final(self)@ == final(r)@,
            r@ == (ConfigView { epoch_interruption: enable, ..old(self)@ }),
    {
        self.epoch_interruption = enable;
        self
    }

    /// Whether epoch-based interruption is enabled.
    pub fn epoch_interruption_enabled(&self) -> (b: bool)
        ensures
            b == self@.epoch_interruption,
    {
        self.epoch_interruption
    }

    /// Sets the maximum wasm operand-stack size, in bytes.
    pub fn max_wasm_stack(&mut self, size: usize) -> (r: &mut Self)
        ensures
            final(self)@ == final(r)@,
            r@ == (ConfigView { max_wasm_stack: Some(size), ..old(self)@ }),
    {
        self.max_wasm_stack = Some(size);
        self
    }

    /// The configured max wasm stack size in bytes, if set.
    pub fn max_wasm_stack_bytes(&self) -> (b: Option<usize>)
        ensures
            b == self@.max_wasm_stack,
    {
        self.max_wasm_stack
    }

    /// Accepted for wasmtime parity: multi-value is always on.
    pub fn wasm_multi_value(&mut self, enable: bool) -> (r: &mut Self)
        ensures
            final(self)@ == final(r)@,
            r@ == old(self)@,
    {
        self
    }

    /// Accepted for wasmtime parity: has no effect.
    pub fn wasm_tail_call(&mut self, enable: bool) -> (r: &mut Self)
        ensures
            final(self)@ == final(r)@,
            r@ == old(self)@,
    {
        self
    }

    /// Accepted for wasmtime parity: has no effect.
    pub fn wasm_bulk_memory(&mut self, enable: bool) -> (r: &mut Self)
        ensures
            final(self)@ == final(r)@,
            r@ == old(self)@,
    {
        self
    }

    /// Accepted for wasmtime parity: has no effect.
    pub fn wasm_reference_types(&mut self, enable: bool) -> (r: &mut Self)
        ensures
            final(self)@ == final(r)@,
            r@ == old(self)@,
    {
        self
    }

    /// Accepted for wasmtime parity: has no effect.
    pub fn wasm_function_references(&mut self, enable: bool) -> (r: &mut Self)
        ensures
            final(self)@ == final(r)@,
            r@ == old(self)@,
    {
        self
    }

    /// Accepted for wasmtime parity: has no effect.
    pub fn wasm_gc(&mut self, enable: bool) -> (r: &mut Self)
        ensures
            final(self)@ == final(r)@,
            r@ == old(self)@,
    {
        self
    }

    /// Accepted for wasmtime parity: has no effect.
    pub fn wasm_exceptions(&mut self, enable: bool) -> (r: &mut Self)
        ensures
            final(self)@ == final(r)@,
            r@ == old(self)@,
    {
        self
    }

    /// Accepted for wasmtime parity: has no effect.
    pub fn memory_reservation(&mut self, bytes: u64) -> (r: &mut Self)
        ensures
            final(self)@ == final(r)@,
            r@ == old(self)@,
    {
        self
    }

    /// Accepted for wasmtime parity: has no effect.
    pub fn memory_reservation_for_growth(&mut self, bytes: u64) -> (r: &mut Self)
        ensures
            final(self)@ == final(r)@,
            r@ == old(self)@,
    {
        self
    }

    /// Accepted for wasmtime parity: has no effect.
    pub fn memory_may_move(&mut self, enable: bool) -> (r: &mut Self)
        ensures
            final(self)@ == final(r)@,
            r@ == old(self)@,
    {
        self
    }

    /// Accepted for wasmtime parity: has no effect.
    pub fn memory_init_cow(&mut self, enable: bool) -> (r: &mut Self)
        ensures
            final(self)@ == final(r)@,
            r@ == old(self)@,
    {
        self
    }

    /// Accepted for wasmtime parity: has no effect.
    pub fn memory_guard_size(&mut self, bytes: u64) -> (r: &mut Self)
        ensures
            final(self)@ == final(r)@,
            r@ == old(self)@,
    {
        self
    }

    /// The GC heap's pre-authorized reservation (bytes): the budget a store may grow its GC heap
    /// to without consulting the resource limiter, and the cap on a single growth step. Defaults
    /// to 0 (every growth consults the limiter).
    pub fn gc_heap_reservation(&mut self, bytes: u64) -> (r: &mut Self)
        ensures
            final(self)@ == final(r)@,
            r@ == (ConfigView { gc_heap_reservation: bytes, ..old(self)@ }),
    {
        self.gc_heap_reservation = bytes;
        self
    }

    /// The configured GC-heap reservation in bytes, saturated to `usize`.
    pub fn gc_heap_reservation_bytes(&self) -> (b: usize)
        ensures
            b == (if self@.gc_heap_reservation <= usize::MAX {
                self@.gc_heap_reservation as usize
            } else {
                usize::MAX
            }),
    {
        if self.gc_heap_reservation as u128 <= usize::MAX as u128 {
            self.gc_heap_reservation as usize
        } else {
            usize::MAX
        }
    }

    /// Accepted for wasmtime parity: has no effect.
    pub fn gc_heap_guard_size(&mut self, bytes: u64) -> (r: &mut Self)
        ensures
            final(self)@ == final(r)@,
            r@ == old(self)@,
    {
        self
    }

    /// Accepted for wasmtime parity: has no effect.
    pub fn gc_heap_reservation_for_growth(&mut self, bytes: u64) -> (r: &mut Self)
        ensures
            final(self)@ == final(r)@,
            r@ == old(self)@,
    {
        self
    }

    /// Accepted for wasmtime parity: has no effect.
    pub fn gc_heap_may_move(&mut self, enable: bool) -> (r: &mut Self)
        ensures
            final(self)@ == final(r)@,
            r@ == old(self)@,
    {
        self
    }

    /// Accepted for wasmtime parity; an interpreter has no optimization level.
    pub fn cranelift_opt_level(&mut self, level: OptLevel) -> (r: &mut Self)
        ensures
            final(self)@ == final(r)@,
            r@ == old(self)@,
    {
        self
    }

    /// Whether to capture a wasm backtrace on traps and exceptions. On by default.
    pub fn wasm_backtrace(&mut self, enable: bool) -> (r: &mut Self)
        ensures
            final(self)@ == final(r)@,
            r@ == (ConfigView { wasm_backtrace: enable, ..old(self)@ }),
    {
        self.wasm_backtrace = enable;
        self
    }

    /// Whether wasm backtraces carry DWARF file/line detail.
    pub fn wasm_backtrace_details(&mut self, enable: WasmBacktraceDetails) -> (r: &mut Self)
        ensures
            final(self)@ == final(r)@,
            r@ == (ConfigView { wasm_backtrace_details: enable, ..old(self)@ }),
    {
        self.wasm_backtrace_details = enable;
        self
    }

    /// Whether to retain the module's DWARF debug info. Off by default.
    pub fn debug_info(&mut self, enable: bool) -> (r: &mut Self)
        ensures
            final(self)@ == final(r)@,
            r@ == (ConfigView { debug_info: enable, ..old(self)@ }),
    {
        self.debug_info = enable;
        self
    }

    /// Whether backtrace capture is enabled.
    pub fn wasm_backtrace_enabled(&self) -> (b: bool)
        ensures
            b == self@.wasm_backtrace,
    {
        self.wasm_backtrace
    }

    /// Whether DWARF debug info is retained.
    pub fn debug_info_enabled(&self) -> (b: bool)
        ensures
            b == self@.debug_info,
    {
        self.debug_info
    }

    /// Whether backtraces resolve DWARF file/line. `environment_enables` is whether the
    /// `WASMTIME_BACKTRACE_DETAILS` environment variable is set to `"1"`; it only matters for the
    /// `Environment` setting.
    pub fn wasm_backtrace_details_enabled(&self, environment_enables: bool) -> (b: bool)
        ensures
            b == match self@.wasm_backtrace_details {
                WasmBacktraceDetails::Enable => true,
                WasmBacktraceDetails::Disable => false,
                WasmBacktraceDetails::Environment => environment_enables,
            },
    {
        match self.wasm_backtrace_details {
            WasmBacktraceDetails::Enable => true,
            WasmBacktraceDetails::Disable => false,
            WasmBacktraceDetails::Environment => environment_enables,
        }
    }

    /// Engine-wide GC-pressure high-water mark, in bytes: when the committed GC bytes across all
    /// stores of the engine cross it, the engine requests a collection from every store. Unset,
    /// the engine uses about 80% of the detected physical memory (see `Engine::new`).
    pub fn gc_memory_threshold(&mut self, bytes: usize) -> (r: &mut Self)
        ensures
            final(self)@ == final(r)@,
            r@ == (ConfigView { gc_memory_threshold: Some(bytes), ..old(self)@ }),
    {
        self.gc_memory_threshold = Some(bytes);
        self
    }

    /// Selects the garbage collector.
    pub fn collector(&mut self, collector: Collector) -> (r: &mut Self)
        ensures
            final(self)@ == final(r)@,
            r@ == (ConfigView { collector: collector, ..old(self)@ }),
    {
        self.collector = collector;
        self
    }

    /// The selected garbage collector.
    pub fn collector_kind(&self) -> (c: Collector)
        ensures
            c == self@.collector,
    {
        self.collector
    }

    /// The configured engine-wide GC-pressure threshold in bytes, if set.
    pub fn gc_memory_threshold_bytes(&self) -> (b: Option<usize>)
        ensures
            b == self@.gc_memory_threshold,
    {
        self.gc_memory_threshold
    }

    /// Enables or disables async execution. Off by default.
    pub fn async_support(&mut self, enable: bool) -> (r: &mut Self)
        ensures
            final(self)@ == final(r)@,
            r@ == (ConfigView { async_support: enable, ..old(self)@ }),
    {
        self.async_support = enable;
        self
    }

    /// Whether async support is enabled.
    pub fn async_support_enabled(&self) -> (b: bool)
        ensures
            b == self@.async_support,
    {
        self.async_support
    }

    /// Accepted for wasmtime parity: an interpreter that parks its state has no async stack.
    pub fn async_stack_size(&mut self, size: usize) -> (r: &mut Self)
        ensures
            final(self)@ == final(r)@,
            r@ == old(self)@,
    {
        self
    }
}

} // verus!
