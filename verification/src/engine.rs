//! The engine: the configuration-derived runtime flags, the epoch counter, the canonical type
//! registry, and the engine-wide GC-pressure accounting with one request mailbox per store.
use vstd::prelude::*;
use crate::canon::{AggKind, CanonicalTypeId, GroupId, ModuleType};
use crate::canon::registry::{TypeRegistry, group_live, type_live, live_count, spec_is_subtype, shrinks_from, released_once, release_chain, key_view};
use crate::canon::intern::{intern_chain, module_types_ok, module_interned, body_live, table_live, host_refs_ok, group_added, single_key, host_key};
use crate::canon::keys::{CBodyView, spec_pub_val, spec_pub_field};
use crate::canon::pins::{pins_hold, pins_hold_with, holds_registration, ids_ms, pending_live};
use vstd::multiset::Multiset;
use crate::config::{CollectorKind, Config, UnsupportedCollector, resolve_collector};
use crate::value::{FieldType, Finality, ValType};

verus! {

/// Default wasm stack budget in bytes when `Config::max_wasm_stack` is unset (512 KiB).
pub const DEFAULT_MAX_WASM_STACK: usize = 524288;

/// A store's GC-request mailbox, named by the id the engine handed out.
#[derive(Copy, Clone, PartialEq, Eq, Structural, Debug)]
pub struct MailboxId(pub u64);

/// One registered mailbox: whether a collection was requested, and whether its store is alive.
#[derive(Copy, Clone, PartialEq, Eq, Structural, Debug)]
pub struct Mailbox {
    pub id: u64,
    pub posted: bool,
    pub live: bool,
}

/// A compiled-code and runtime environment: the flags derived from a [`Config`], the epoch
/// counter, the canonical type registry, and the engine-wide GC-pressure axis.
#[derive(Debug)]
pub struct Engine {
    epoch: u64,
    max_wasm_stack: usize,
    consume_fuel: bool,
    epoch_interruption: bool,
    is_async: bool,
    collector: CollectorKind,
    gc_memory_threshold: Option<usize>,
    gc_heap_reservation: usize,
    gc_committed: usize,
    mailboxes: Vec<Mailbox>,
    next_mailbox: u64,
    wasm_backtrace: bool,
    retain_dwarf: bool,
    types: TypeRegistry,
}

/// The abstract state of an [`Engine`].
pub ghost struct EngineView {
    pub epoch: u64,
    pub max_wasm_stack: usize,
    pub consume_fuel: bool,
    pub epoch_interruption: bool,
    pub is_async: bool,
    pub collector: CollectorKind,
    pub gc_memory_threshold: Option<usize>,
    pub gc_heap_reservation: usize,
    pub gc_committed: usize,
    pub mailboxes: Seq<Mailbox>,
    pub next_mailbox: u64,
    pub wasm_backtrace: bool,
    pub retain_dwarf: bool,
    pub types: TypeRegistry,
}

impl View for Engine {
    type V = EngineView;

    closed spec fn view(&self) -> EngineView {
        EngineView {
            epoch: self.epoch,
            max_wasm_stack: self.max_wasm_stack,
            consume_fuel: self.consume_fuel,
            epoch_interruption: self.epoch_interruption,
            is_async: self.is_async,
            collector: self.collector,
            gc_memory_threshold: self.gc_memory_threshold,
            gc_heap_reservation: self.gc_heap_reservation,
            gc_committed: self.gc_committed,
            mailboxes: self.mailboxes@,
            next_mailbox: self.next_mailbox,
            wasm_backtrace: self.wasm_backtrace,
            retain_dwarf: self.retain_dwarf,
            types: self.types,
        }
    }
}

/// Mailbox ids below the counter, each listed at most once.
pub open spec fn mailboxes_ok(ms: Seq<Mailbox>, next: u64) -> bool {
    &&& forall|i: int| 0 <= i < ms.len() ==> (#[trigger] ms[i]).id < next
    &&& forall|i: int, j: int| 0 <= i < j < ms.len() ==> (#[trigger] ms[i]).id != (#[trigger] ms[j]).id
}

/// The position of mailbox `id` in the list, if it is there.
pub open spec fn mailbox_index(ms: Seq<Mailbox>, id: u64) -> Option<int> {
    if exists|i: int| 0 <= i < ms.len() && (#[trigger] ms[i]).id == id {
        Some(choose|i: int| 0 <= i < ms.len() && (#[trigger] ms[i]).id == id)
    } else {
        None
    }
}

/// Whether mailbox `id` holds a request.
pub open spec fn posted_of(ms: Seq<Mailbox>, id: u64) -> bool {
    match mailbox_index(ms, id) {
        Some(i) => ms[i].posted,
        None => false,
    }
}

/// A post under GC pressure: the mailboxes of dropped stores are pruned, every other one is
/// marked posted, in order.
pub open spec fn post_all(ms: Seq<Mailbox>) -> Seq<Mailbox>
    decreases ms.len(),
{
    if ms.len() == 0 {
        Seq::empty()
    } else {
        let rest = post_all(ms.drop_last());
        let m = ms.last();
        if m.live { rest.push(Mailbox { id: m.id, posted: true, live: true }) } else { rest }
    }
}

/// Mailbox `id` with its request cleared, the others as they are.
pub open spec fn cleared(ms: Seq<Mailbox>, id: u64) -> Seq<Mailbox> {
    match mailbox_index(ms, id) {
        Some(i) => ms.update(i, Mailbox { posted: false, ..ms[i] }),
        None => ms,
    }
}

/// Clearing one store's mailbox leaves the request of every other mailbox as it was.
pub proof fn lemma_clear_keeps_other_requests(ms: Seq<Mailbox>, next: u64, id: u64, other: u64)
    requires
        mailboxes_ok(ms, next),
        other != id,
    ensures
        posted_of(cleared(ms, id), other) == posted_of(ms, other),
        !posted_of(cleared(ms, id), id),
{
    let c = cleared(ms, id);
    assert(c.len() == ms.len());
    assert forall|i: int| 0 <= i < ms.len() implies (#[trigger] c[i]).id == ms[i].id by {}
    if let Some(k) = mailbox_index(ms, other) {
        assert(c[k].id == other);
        let kc = choose|i: int| 0 <= i < c.len() && (#[trigger] c[i]).id == other;
        assert(c[kc].id == ms[kc].id);
        assert(kc == k);
        if let Some(j) = mailbox_index(ms, id) {
            assert(j != k);
        }
    } else {
        assert forall|i: int| 0 <= i < c.len() implies (#[trigger] c[i]).id != other by {
            assert(c[i].id == ms[i].id);
        }
    }
    if let Some(j) = mailbox_index(ms, id) {
        assert(c[j].id == id);
        let jc = choose|i: int| 0 <= i < c.len() && (#[trigger] c[i]).id == id;
        assert(c[jc].id == ms[jc].id);
        assert(jc == j);
    } else {
        assert forall|i: int| 0 <= i < c.len() implies (#[trigger] c[i]).id != id by {
            assert(c[i].id == ms[i].id);
        }
    }
}

/// Posting keeps only (and all) the live mailboxes, so ids stay distinct and below the counter.
pub proof fn lemma_post_all(ms: Seq<Mailbox>, next: u64)
    requires
        mailboxes_ok(ms, next),
    ensures
        mailboxes_ok(post_all(ms), next),
        forall|k: int| 0 <= k < post_all(ms).len() ==> exists|j: int| 0 <= j < ms.len() && (#[trigger] post_all(ms)[k]).id == (#[trigger] ms[j]).id,
    decreases ms.len(),
{
    if ms.len() > 0 {
        let d = ms.drop_last();
        assert(mailboxes_ok(d, next)) by {
            assert forall|i: int, j: int| 0 <= i < j < d.len() implies (#[trigger] d[i]).id != (#[trigger] d[j]).id by {
                assert(d[i] == ms[i] && d[j] == ms[j]);
            }
            assert forall|i: int| 0 <= i < d.len() implies (#[trigger] d[i]).id < next by {
                assert(d[i] == ms[i]);
            }
        }
        lemma_post_all(d, next);
        let rest = post_all(d);
        let p = post_all(ms);
        let last = ms[ms.len() - 1];
        assert forall|k: int| 0 <= k < rest.len() implies (#[trigger] rest[k]).id != last.id by {
            let j = choose|j: int| 0 <= j < d.len() && rest[k].id == (#[trigger] d[j]).id;
            assert(d[j] == ms[j]);
        }
        assert forall|k: int| 0 <= k < p.len() implies exists|j: int| 0 <= j < ms.len() && (#[trigger] p[k]).id == (#[trigger] ms[j]).id by {
            if k < rest.len() {
                assert(p[k] == rest[k]);
                let j = choose|j: int| 0 <= j < d.len() && rest[k].id == (#[trigger] d[j]).id;
                assert(d[j] == ms[j]);
            } else {
                assert(p[k].id == ms[ms.len() - 1].id);
            }
        }
        assert forall|i: int, j: int| 0 <= i < j < p.len() implies (#[trigger] p[i]).id != (#[trigger] p[j]).id by {
            if j < rest.len() {
                assert(p[i] == rest[i] && p[j] == rest[j]);
            } else {
                assert(p[i] == rest[i]);
            }
        }
        assert forall|i: int| 0 <= i < p.len() implies (#[trigger] p[i]).id < next by {
            if i < rest.len() {
                assert(p[i] == rest[i]);
            }
        }
    }
}

/// The GC-pressure threshold of an engine: the configured one, else four fifths of the
/// detected physical memory `ram` (saturated to `usize`), else none.
pub open spec fn gc_threshold(configured: Option<usize>, ram: Option<u64>) -> Option<usize> {
    match configured {
        Some(t) => Some(t),
        None => match ram {
            Some(b) => Some(if b / 5 * 4 <= usize::MAX { (b / 5 * 4) as usize } else { usize::MAX }),
            None => None,
        },
    }
}

/// The engine state a configuration gives, before any activity (with registry `types`).
pub open spec fn configured(config: crate::config::ConfigView, collector: CollectorKind, details_env: bool, ram: Option<u64>, types: TypeRegistry) -> EngineView {
    EngineView {
        epoch: 0,
        max_wasm_stack: match config.max_wasm_stack { Some(n) => n, None => DEFAULT_MAX_WASM_STACK },
        consume_fuel: config.consume_fuel,
        epoch_interruption: config.epoch_interruption,
        is_async: config.async_support,
        collector,
        gc_memory_threshold: gc_threshold(config.gc_memory_threshold, ram),
        gc_heap_reservation: if config.gc_heap_reservation <= usize::MAX { config.gc_heap_reservation as usize } else { usize::MAX },
        gc_committed: 0,
        mailboxes: Seq::empty(),
        next_mailbox: 0,
        wasm_backtrace: config.wasm_backtrace,
        retain_dwarf: config.debug_info || (config.wasm_backtrace && match config.wasm_backtrace_details {
            crate::config::WasmBacktraceDetails::Enable => true,
            crate::config::WasmBacktraceDetails::Disable => false,
            crate::config::WasmBacktraceDetails::Environment => details_env,
        }),
        types,
    }
}

/// Two engine states that agree on everything but the registry.
pub open spec fn same_but_types(a: EngineView, b: EngineView) -> bool {
    b == (EngineView { types: b.types, ..a })
}

fn default_threshold(configured: Option<usize>, ram: Option<u64>) -> (t: Option<usize>)
    ensures
        t == gc_threshold(configured, ram),
{
    match configured {
        Some(t) => Some(t),
        None => match ram {
            Some(b) => {
                let x: u64 = b / 5 * 4;
                Some(if x as u128 <= usize::MAX as u128 { x as usize } else { usize::MAX })
            },
            None => None,
        },
    }
}

/// `a + b` wrapped to `usize`.
pub open spec fn wrapping_total(a: usize, b: usize) -> usize {
    if a + b > usize::MAX { (a + b - usize::MAX - 1) as usize } else { (a + b) as usize }
}

impl Engine {
    /// The engine's invariant: a well-formed registry and well-formed mailboxes.
    pub closed spec fn wf(&self) -> bool {
        &&& self.types.wf()
        &&& mailboxes_ok(self.mailboxes@, self.next_mailbox)
    }

    pub proof fn lemma_wf(&self)
        requires
            self.wf(),
        ensures
            self@.types.wf(),
            mailboxes_ok(self@.mailboxes, self@.next_mailbox),
    {
    }

    /// Creates an engine from a configuration. `backtrace_details_env` is whether the
    /// environment asks for backtrace details (it only matters for
    /// `WasmBacktraceDetails::Environment`); `physical_ram` is the machine's detected physical
    /// memory in bytes, if known, from which an unset GC-pressure threshold is derived. Fails
    /// when the configured collector is not implemented.
    pub fn new(config: &Config, backtrace_details_env: bool, physical_ram: Option<u64>) -> (r: Result<Engine, UnsupportedCollector>)
        ensures
            match resolve_collector(config@.collector) {
                Ok(k) => r is Ok && r->Ok_0.wf() && r->Ok_0@ == configured(config@, k, backtrace_details_env, physical_ram, r->Ok_0@.types)
                    && r->Ok_0@.types.types@.len() == 0 && r->Ok_0@.types.groups@.len() == 0,
                Err(e) => r == Err::<Engine, UnsupportedCollector>(e),
            },
    {
        let collector = match config.collector_kind().resolve() {
            Ok(k) => k,
            Err(e) => return Err(e),
        };
        let max_wasm_stack = match config.max_wasm_stack_bytes() {
            Some(n) => n,
            None => DEFAULT_MAX_WASM_STACK,
        };
        let e = Engine {
            epoch: 0,
            max_wasm_stack,
            consume_fuel: config.consume_fuel_enabled(),
            epoch_interruption: config.epoch_interruption_enabled(),
            is_async: config.async_support_enabled(),
            collector,
            gc_memory_threshold: default_threshold(config.gc_memory_threshold_bytes(), physical_ram),
            gc_heap_reservation: config.gc_heap_reservation_bytes(),
            gc_committed: 0,
            mailboxes: Vec::new(),
            next_mailbox: 0,
            wasm_backtrace: config.wasm_backtrace_enabled(),
            retain_dwarf: config.debug_info_enabled()
                || (config.wasm_backtrace_enabled() && config.wasm_backtrace_details_enabled(backtrace_details_env)),
            types: TypeRegistry::new(),
        };
        Ok(e)
    }

    /// Whether epoch-based interruption is enabled.
    pub fn epoch_interruption(&self) -> (b: bool)
        ensures
            b == self@.epoch_interruption,
    {
        self.epoch_interruption
    }

    /// The wasm execution-stack byte budget.
    pub fn max_wasm_stack(&self) -> (n: usize)
        ensures
            n == self@.max_wasm_stack,
    {
        self.max_wasm_stack
    }

    /// Whether fuel metering is enabled.
    pub fn consume_fuel(&self) -> (b: bool)
        ensures
            b == self@.consume_fuel,
    {
        self.consume_fuel
    }

    /// Whether async execution is enabled.
    pub fn is_async(&self) -> (b: bool)
        ensures
            b == self@.is_async,
    {
        self.is_async
    }

    /// Whether backtraces are captured.
    pub fn wasm_backtrace_enabled(&self) -> (b: bool)
        ensures
            b == self@.wasm_backtrace,
    {
        self.wasm_backtrace
    }

    /// Whether a module's debug sections are retained for source-level backtraces.
    pub fn retain_dwarf(&self) -> (b: bool)
        ensures
            b == self@.retain_dwarf,
    {
        self.retain_dwarf
    }

    /// The resolved collector strategy.
    pub fn collector(&self) -> (k: CollectorKind)
        ensures
            k == self@.collector,
    {
        self.collector
    }

    /// Whether the engine runs a tracing collector (not the allocate-only one).
    pub fn is_collecting(&self) -> (b: bool)
        ensures
            b == (self@.collector == CollectorKind::MarkSweep),
    {
        match self.collector {
            CollectorKind::MarkSweep => true,
            CollectorKind::Null => false,
        }
    }

    /// The engine-wide GC-pressure threshold in bytes, if configured.
    pub fn gc_memory_threshold(&self) -> (t: Option<usize>)
        ensures
            t == self@.gc_memory_threshold,
    {
        self.gc_memory_threshold
    }

    /// The per-store pre-authorized GC reservation in bytes.
    pub fn gc_heap_reservation(&self) -> (n: usize)
        ensures
            n == self@.gc_heap_reservation,
    {
        self.gc_heap_reservation
    }

    /// Bumps the epoch counter (wrapping, as an atomic add does).
    pub fn increment_epoch(&mut self)
        ensures
            final(self)@ == (EngineView { epoch: (if old(self)@.epoch == u64::MAX { 0 } else { old(self)@.epoch + 1 }) as u64, ..old(self)@ }),
            old(self).wf() ==> final(self).wf(),
    {
        self.epoch = self.epoch.wrapping_add(1);
    }

    /// The current epoch.
    pub fn current_epoch(&self) -> (n: u64)
        ensures
            n == self@.epoch,
    {
        self.epoch
    }

    /// Registers a new store's GC-request mailbox (empty, alive) and returns its id.
    pub fn register_gc_request(&mut self) -> (id: MailboxId)
        requires
            old(self).wf(),
            old(self)@.next_mailbox < u64::MAX,
        ensures
            final(self).wf(),
            id.0 == old(self)@.next_mailbox,
            final(self)@ == (EngineView {
                mailboxes: old(self)@.mailboxes.push(Mailbox { id: id.0, posted: false, live: true }),
                next_mailbox: (old(self)@.next_mailbox + 1) as u64,
                ..old(self)@
            }),
    {
        let id = self.next_mailbox;
        self.mailboxes.push(Mailbox { id, posted: false, live: true });
        self.next_mailbox = id + 1;
        MailboxId(id)
    }

    fn find_mailbox(&self, id: MailboxId) -> (r: Option<usize>)
        requires
            self.wf(),
        ensures
            r matches Some(i) ==> i < self@.mailboxes.len() && Some(i as int) == mailbox_index(self@.mailboxes, id.0),
            r is None ==> mailbox_index(self@.mailboxes, id.0) is None,
    {
        for i in 0..self.mailboxes.len()
            invariant
                mailboxes_ok(self.mailboxes@, self.next_mailbox),
                forall|k: int| 0 <= k < i ==> (#[trigger] self.mailboxes@[k]).id != id.0,
        {
            if self.mailboxes[i].id == id.0 {
                proof {
                    let ms = self.mailboxes@;
                    assert(ms[i as int].id == id.0);
                    let c = choose|k: int| 0 <= k < ms.len() && (#[trigger] ms[k]).id == id.0;
                    if c != i {
                        if c < i {
                            assert(ms[c].id != ms[i as int].id);
                        } else {
                            assert(ms[i as int].id != ms[c].id);
                        }
                    }
                }
                return Some(i);
            }
        }
        None
    }

    /// The store owning mailbox `id` was dropped: its mailbox stays listed until the next post
    /// prunes it.
    pub fn drop_gc_request(&mut self, id: MailboxId)
        requires
            old(self).wf(),
        ensures
            final(self).wf(),
            final(self)@ == (EngineView {
                mailboxes: match mailbox_index(old(self)@.mailboxes, id.0) {
                    Some(i) => old(self)@.mailboxes.update(i, Mailbox { live: false, ..old(self)@.mailboxes[i] }),
                    None => old(self)@.mailboxes,
                },
                ..old(self)@
            }),
    {
        match self.find_mailbox(id) {
            Some(i) => {
                let m = self.mailboxes[i];
                self.mailboxes.set(i, Mailbox { id: m.id, posted: m.posted, live: false });
            },
            None => {},
        }
    }

    /// Whether a collection was requested in mailbox `id`.
    pub fn gc_request_posted(&self, id: MailboxId) -> (b: bool)
        requires
            self.wf(),
        ensures
            b == posted_of(self@.mailboxes, id.0),
    {
        match self.find_mailbox(id) {
            Some(i) => self.mailboxes[i].posted,
            None => false,
        }
    }

    /// Reads and clears mailbox `id` (a store servicing its own request); other mailboxes are
    /// untouched. Returns whether a request was there.
    pub fn take_gc_request(&mut self, id: MailboxId) -> (b: bool)
        requires
            old(self).wf(),
        ensures
            final(self).wf(),
            b == posted_of(old(self)@.mailboxes, id.0),
            final(self)@ == (EngineView { mailboxes: cleared(old(self)@.mailboxes, id.0), ..old(self)@ }),
    {
        match self.find_mailbox(id) {
            Some(i) => {
                let m = self.mailboxes[i];
                self.mailboxes.set(i, Mailbox { id: m.id, posted: false, live: m.live });
                m.posted
            },
            None => false,
        }
    }

    /// Records `delta` more committed GC bytes (wrapping, as an atomic addition does). When the
    /// total then exceeds the configured threshold, requests a collection from every live store
    /// and prunes the dropped stores' mailboxes.
    pub fn add_gc_committed(&mut self, delta: usize)
        requires
            old(self).wf(),
        ensures
            final(self).wf(),
            final(self)@ == (EngineView {
                gc_committed: wrapping_total(old(self)@.gc_committed, delta),
                mailboxes: match old(self)@.gc_memory_threshold {
                    Some(t) if wrapping_total(old(self)@.gc_committed, delta) > t => post_all(old(self)@.mailboxes),
                    _ => old(self)@.mailboxes,
                },
                ..old(self)@
            }),
    {
        let total = self.gc_committed.wrapping_add(delta);
        self.gc_committed = total;
        let crossed = match self.gc_memory_threshold {
            Some(t) => total > t,
            None => false,
        };
        if !crossed {
            return;
        }
        let ghost ms = self.mailboxes@;
        let mut kept: Vec<Mailbox> = Vec::new();
        for i in 0..self.mailboxes.len()
            invariant
                self.mailboxes@ == ms,
                kept@ == post_all(ms.subrange(0, i as int)),
        {
            let m = self.mailboxes[i];
            if m.live {
                kept.push(Mailbox { id: m.id, posted: true, live: true });
            }
            proof {
                let sub = ms.subrange(0, i + 1);
                assert(sub.drop_last() =~= ms.subrange(0, i as int));
            }
        }
        proof {
            assert(ms.subrange(0, ms.len() as int) =~= ms);
            lemma_post_all(ms, self.next_mailbox);
        }
        self.mailboxes = kept;
    }

    /// Releases `delta` committed GC bytes (a store dropped its heap); wraps as an atomic
    /// subtraction does.
    pub fn sub_gc_committed(&mut self, delta: usize)
        ensures
            final(self)@ == (EngineView {
                gc_committed: (if old(self)@.gc_committed >= delta { old(self)@.gc_committed - delta }
                    else { old(self)@.gc_committed - delta + usize::MAX + 1 }) as usize,
                ..old(self)@
            }),
            old(self).wf() ==> final(self).wf(),
    {
        self.gc_committed = self.gc_committed.wrapping_sub(delta);
    }

    /// The GC bytes committed across the engine's stores.
    pub fn gc_committed_bytes(&self) -> (n: usize)
        ensures
            n == self@.gc_committed,
    {
        self.gc_committed
    }
}

impl Engine {
    /// Interns a module's rec groups, returning each type's canonical id and each rec group's
    /// interned group (held by the module until it releases them).
    pub fn intern_types(&mut self, types: &[ModuleType]) -> (r: (Vec<CanonicalTypeId>, Vec<GroupId>))
        requires
            old(self).wf(),
            module_types_ok(types@),
            old(self)@.types.types@.len() + types@.len() <= u32::MAX,
            old(self)@.types.groups@.len() + types@.len() < u32::MAX,
        ensures
            final(self).wf(),
            same_but_types(old(self)@, final(self)@),
            module_interned(old(self)@.types, types@, final(self)@.types, r.0@, r.1@),
            pins_hold(&old(self)@.types) ==> pins_hold(&final(self)@.types),
            pins_hold(&old(self)@.types) ==> pins_hold_with(&final(self)@.types, ids_ms(r.1@)),
            forall|p: Multiset<int>| pins_hold_with(&old(self)@.types, p) && pending_live(&old(self)@.types, p)
                ==> #[trigger] pins_hold_with(&final(self)@.types, p.add(ids_ms(r.1@))),
            exists|chain: Seq<TypeRegistry>| #[trigger] intern_chain(chain, old(self)@.types, final(self)@.types, r.1@),
    {
        self.types.intern_module(types)
    }

    /// Releases one registration of each group (reclaiming at zero, with the cascade).
    pub fn release_types(&mut self, group_ids: &[GroupId])
        requires
            old(self).wf(),
            forall|i: int| 0 <= i < group_ids@.len() ==> ((#[trigger] group_ids@[i]).0 as int) < old(self)@.types.groups@.len(),
        ensures
            final(self).wf(),
            same_but_types(old(self)@, final(self)@),
            shrinks_from(&old(self)@.types, &final(self)@.types),
            exists|chain: Seq<TypeRegistry>| #[trigger] release_chain(chain, old(self)@.types, final(self)@.types, group_ids@),
            pins_hold_with(&old(self)@.types, ids_ms(group_ids@)) ==> pins_hold(&final(self)@.types),
    {
        self.types.release(group_ids);
    }

    /// Releases one registration of group `g`.
    pub fn release_group(&mut self, g: GroupId)
        requires
            old(self).wf(),
            (g.0 as int) < old(self)@.types.groups@.len(),
        ensures
            final(self).wf(),
            same_but_types(old(self)@, final(self)@),
            released_once(&old(self)@.types, &final(self)@.types, g.0 as int),
            holds_registration(&old(self)@.types, g.0 as int) ==> pins_hold(&final(self)@.types),
    {
        self.types.decref_group(g);
    }

    /// Adds a registration to live group `g`.
    pub fn incref_group(&mut self, g: GroupId)
        requires
            old(self).wf(),
            group_live(old(self)@.types.groups@, g.0 as int),
        ensures
            final(self).wf(),
            same_but_types(old(self)@, final(self)@),
            crate::canon::registry::same_but_counts(&old(self)@.types, &final(self)@.types),
            final(self)@.types.groups@[g.0 as int]->0.refcount == crate::canon::registry::sat_add(old(self)@.types.groups@[g.0 as int]->0.refcount, 1),
            pins_hold(&old(self)@.types) ==> holds_registration(&final(self)@.types, g.0 as int),
    {
        self.types.incref_group(g);
    }

    /// Adds a registration to the group owning live type `id` (a handle was cloned).
    pub fn incref_type(&mut self, id: CanonicalTypeId)
        requires
            old(self).wf(),
            type_live(old(self)@.types.types@, id.0 as int),
        ensures
            final(self).wf(),
            same_but_types(old(self)@, final(self)@),
            crate::canon::registry::same_but_counts(&old(self)@.types, &final(self)@.types),
            ({
                let g = old(self)@.types.types@[id.0 as int]->0.group.0 as int;
                &&& final(self)@.types.groups@[g]->0.refcount == crate::canon::registry::sat_add(old(self)@.types.groups@[g]->0.refcount, 1)
                &&& forall|h: int| 0 <= h < old(self)@.types.groups@.len() && h != g ==> #[trigger] final(self)@.types.groups@[h] == old(self)@.types.groups@[h]
            }),
            pins_hold(&old(self)@.types) ==> holds_registration(&final(self)@.types, old(self)@.types.types@[id.0 as int]->0.group.0 as int),
    {
        self.types.incref_type(id);
    }

    /// Removes a registration from the group owning live type `id` (a handle was dropped).
    pub fn decref_type(&mut self, id: CanonicalTypeId)
        requires
            old(self).wf(),
            type_live(old(self)@.types.types@, id.0 as int),
        ensures
            final(self).wf(),
            same_but_types(old(self)@, final(self)@),
            released_once(&old(self)@.types, &final(self)@.types, old(self)@.types.types@[id.0 as int]->0.group.0 as int),
            holds_registration(&old(self)@.types, old(self)@.types.types@[id.0 as int]->0.group.0 as int) ==> pins_hold(&final(self)@.types),
    {
        self.types.decref_type(id);
    }

    /// The number of live rec groups.
    pub fn live_group_count(&self) -> (n: usize)
        ensures
            n == live_count(self@.types.groups@, self@.types.groups@.len() as int),
    {
        self.types.live_group_count()
    }

    /// Whether canonical type `sub` is a declared subtype of `sup` (`false` for an unknown `sub`).
    pub fn is_subtype(&self, sub: CanonicalTypeId, sup: CanonicalTypeId) -> (b: bool)
        requires
            self.wf(),
        ensures
            b == ((sub.0 as int) < self@.types.types@.len() && spec_is_subtype(self@.types.types@, sub, sup)),
    {
        if sub.index() >= self.types.types.len() {
            return false;
        }
        self.types.is_subtype(sub, sup)
    }

    /// The hierarchy of a registered canonical type.
    pub fn type_kind(&self, id: CanonicalTypeId) -> (k: Option<AggKind>)
        ensures
            k == (if type_live(self@.types.types@, id.0 as int) { Some(self@.types.types@[id.0 as int]->0.ty.kind) } else { None }),
    {
        self.types.kind(id)
    }

    /// The number of group slots (live or free).
    pub fn group_slots(&self) -> (n: usize)
        ensures
            n == self@.types.groups@.len(),
    {
        self.types.groups.len()
    }

    /// Whether `n` more types and one more group fit in the registry's id space.
    pub fn registry_has_room(&self, n: usize) -> (b: bool)
        ensures
            b == (self@.types.types@.len() + n <= u32::MAX && self@.types.groups@.len() + n < u32::MAX),
    {
        n as u128 + self.types.types.len() as u128 <= 0xffff_ffff && (n as u128 + self.types.groups.len() as u128) < 0xffff_ffff
    }

    /// Interns a host-built function type.
    pub fn intern_func_type(&mut self, params: &[ValType], results: &[ValType]) -> (r: (CanonicalTypeId, GroupId))
        requires
            old(self).wf(),
            body_live(CBodyView::Func(params@.map_values(|v: ValType| spec_pub_val(v)), results@.map_values(|v: ValType| spec_pub_val(v))), old(self)@.types.types@),
            old(self)@.types.types@.len() + 1 <= u32::MAX,
            old(self)@.types.groups@.len() < u32::MAX,
        ensures
            final(self).wf(),
            same_but_types(old(self)@, final(self)@),
            group_added(old(self)@.types, final(self)@.types, r.1),
            key_view(final(self)@.types.groups@[r.1.0 as int]->0.key@) == single_key(Finality::Final, None,
                CBodyView::Func(params@.map_values(|v: ValType| spec_pub_val(v)), results@.map_values(|v: ValType| spec_pub_val(v)))),
            final(self)@.types.groups@[r.1.0 as int]->0.members@ == seq![r.0],
            pins_hold(&old(self)@.types) ==> pins_hold(&final(self)@.types),
            pins_hold(&old(self)@.types) ==> holds_registration(&final(self)@.types, r.1.0 as int),
    {
        self.types.intern_func(params, results)
    }

    /// Interns a host-built struct type.
    pub fn intern_struct_type(&mut self, finality: Finality, supertype: Option<CanonicalTypeId>, fields: &[FieldType]) -> (r: (CanonicalTypeId, GroupId))
        requires
            old(self).wf(),
            body_live(CBodyView::Struct(fields@.map_values(|f: FieldType| spec_pub_field(f))), old(self)@.types.types@),
            match supertype { Some(id) => type_live(old(self)@.types.types@, id.0 as int), None => true },
            old(self)@.types.types@.len() + 1 <= u32::MAX,
            old(self)@.types.groups@.len() < u32::MAX,
        ensures
            final(self).wf(),
            same_but_types(old(self)@, final(self)@),
            group_added(old(self)@.types, final(self)@.types, r.1),
            key_view(final(self)@.types.groups@[r.1.0 as int]->0.key@) == single_key(finality, supertype, CBodyView::Struct(fields@.map_values(|f: FieldType| spec_pub_field(f)))),
            final(self)@.types.groups@[r.1.0 as int]->0.members@ == seq![r.0],
            pins_hold(&old(self)@.types) ==> pins_hold(&final(self)@.types),
            pins_hold(&old(self)@.types) ==> holds_registration(&final(self)@.types, r.1.0 as int),
    {
        self.types.intern_struct(finality, supertype, fields)
    }

    /// Interns a host-built array type.
    pub fn intern_array_type(&mut self, finality: Finality, supertype: Option<CanonicalTypeId>, field: &FieldType) -> (r: (CanonicalTypeId, GroupId))
        requires
            old(self).wf(),
            body_live(CBodyView::Array(spec_pub_field(*field)), old(self)@.types.types@),
            match supertype { Some(id) => type_live(old(self)@.types.types@, id.0 as int), None => true },
            old(self)@.types.types@.len() + 1 <= u32::MAX,
            old(self)@.types.groups@.len() < u32::MAX,
        ensures
            final(self).wf(),
            same_but_types(old(self)@, final(self)@),
            group_added(old(self)@.types, final(self)@.types, r.1),
            key_view(final(self)@.types.groups@[r.1.0 as int]->0.key@) == single_key(finality, supertype, CBodyView::Array(spec_pub_field(*field))),
            final(self)@.types.groups@[r.1.0 as int]->0.members@ == seq![r.0],
            pins_hold(&old(self)@.types) ==> pins_hold(&final(self)@.types),
            pins_hold(&old(self)@.types) ==> holds_registration(&final(self)@.types, r.1.0 as int),
    {
        self.types.intern_array(finality, supertype, field)
    }

    /// Interns a host-built rec group.
    pub fn intern_host_group(&mut self, members: &[ModuleType], externals: &[CanonicalTypeId]) -> (r: (Vec<CanonicalTypeId>, GroupId))
        requires
            old(self).wf(),
            host_refs_ok(members@, externals@),
            table_live(externals@, old(self)@.types.types@),
            old(self)@.types.types@.len() + members@.len() <= u32::MAX,
            old(self)@.types.groups@.len() < u32::MAX,
        ensures
            final(self).wf(),
            same_but_types(old(self)@, final(self)@),
            group_added(old(self)@.types, final(self)@.types, r.1),
            key_view(final(self)@.types.groups@[r.1.0 as int]->0.key@) == host_key(members@, externals@),
            final(self)@.types.groups@[r.1.0 as int]->0.members@ == r.0@,
            pins_hold(&old(self)@.types) ==> pins_hold(&final(self)@.types),
            pins_hold(&old(self)@.types) ==> holds_registration(&final(self)@.types, r.1.0 as int),
    {
        self.types.intern_host_group(members, externals)
    }
}

} // verus!
