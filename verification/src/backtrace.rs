//! Wasm stack backtraces: [`WasmBacktrace`] and its [`FrameInfo`] / [`FrameSymbol`] frames. A
//! frame reads its module's debug data (the `name` section's function names, each function's
//! instruction offset table, and the source-level symbol of the function) as plain values.
use vstd::prelude::*;
use crate::exec::stack::{Execution, Frame};

verus! {

/// A source location: file path and 1-based line and column (`0` when unknown).
#[derive(Clone, Debug)]
pub struct SourceLoc {
    pub file: String,
    pub line: u32,
    pub column: u32,
}

/// The debug data of one function of a module.
#[derive(Clone, Debug)]
pub struct FuncDebug {
    /// The function's name from the `name` section.
    pub name: Option<String>,
    /// The module-relative byte offset of each compiled instruction, if retained.
    pub offsets: Option<Vec<u32>>,
    /// The function's name from the debug sections.
    pub dwarf_name: Option<String>,
    /// The function's source location from the debug sections.
    pub loc: Option<SourceLoc>,
}

/// The debug data of a module: its imported function count and its defined functions.
#[derive(Clone, Debug)]
pub struct ModuleDebug {
    pub num_imported_funcs: u32,
    pub funcs: Vec<FuncDebug>,
}

/// A source-level symbol of a frame.
#[derive(Clone, Debug)]
pub struct FrameSymbol {
    name: Option<String>,
    file: Option<String>,
    line: Option<u32>,
    column: Option<u32>,
}

pub open spec fn opt_str_view(s: Option<String>) -> Option<Seq<char>> {
    match s {
        Some(x) => Some(x@),
        None => None,
    }
}

pub open spec fn opt_ref_view(s: Option<&str>) -> Option<Seq<char>> {
    match s {
        Some(x) => Some(x@),
        None => None,
    }
}

fn as_opt_str(s: &Option<String>) -> (r: Option<&str>)
    ensures
        opt_ref_view(r) == opt_str_view(*s),
{
    match s {
        Some(x) => Some(x.as_str()),
        None => None,
    }
}

fn clone_opt(s: &Option<String>) -> (r: Option<String>)
    ensures
        opt_str_view(r) == opt_str_view(*s),
{
    match s {
        Some(x) => Some(x.clone()),
        None => None,
    }
}

impl FrameSymbol {
    pub closed spec fn spec_name(&self) -> Option<Seq<char>> { opt_str_view(self.name) }
    pub closed spec fn spec_file(&self) -> Option<Seq<char>> { opt_str_view(self.file) }
    pub closed spec fn spec_line(&self) -> Option<u32> { self.line }
    pub closed spec fn spec_column(&self) -> Option<u32> { self.column }

    /// The function name at this symbol.
    pub fn name(&self) -> (r: Option<&str>)
        ensures
            opt_ref_view(r) == self.spec_name(),
    {
        as_opt_str(&self.name)
    }

    /// The source file path.
    pub fn file(&self) -> (r: Option<&str>)
        ensures
            opt_ref_view(r) == self.spec_file(),
    {
        as_opt_str(&self.file)
    }

    /// The 1-based source line.
    pub fn line(&self) -> (r: Option<u32>)
        ensures
            r == self.spec_line(),
    {
        self.line
    }

    /// The 1-based source column.
    pub fn column(&self) -> (r: Option<u32>)
        ensures
            r == self.spec_column(),
    {
        self.column
    }
}

/// One wasm stack frame: the function, the module-relative offset of its current instruction,
/// and the debug data of its function.
#[derive(Clone, Debug)]
pub struct FrameInfo {
    func_index: u32,
    code_offset: Option<u32>,
    func_start: Option<u32>,
    name: Option<String>,
    dwarf_name: Option<String>,
    loc: Option<SourceLoc>,
}

/// `Some(v)` unless `v` is zero (an unknown line or column).
pub open spec fn nonzero(v: u32) -> Option<u32> {
    if v != 0 { Some(v) } else { None }
}

impl FrameInfo {
    pub closed spec fn spec_func_index(&self) -> u32 { self.func_index }
    pub closed spec fn spec_code_offset(&self) -> Option<u32> { self.code_offset }
    pub closed spec fn spec_func_start(&self) -> Option<u32> { self.func_start }
    pub closed spec fn spec_name(&self) -> Option<Seq<char>> { opt_str_view(self.name) }
    pub closed spec fn spec_dwarf_name(&self) -> Option<Seq<char>> { opt_str_view(self.dwarf_name) }
    pub closed spec fn spec_loc(&self) -> Option<(Seq<char>, u32, u32)> {
        match self.loc {
            Some(l) => Some((l.file@, l.line, l.column)),
            None => None,
        }
    }

    /// A frame of function `func_index` at module offset `code_offset`, with the function's
    /// debug data.
    pub fn new(func_index: u32, code_offset: Option<u32>, func_start: Option<u32>, debug: &FuncDebug) -> (f: FrameInfo)
        ensures
            f.spec_func_index() == func_index,
            f.spec_code_offset() == code_offset,
            f.spec_func_start() == func_start,
            f.spec_name() == opt_str_view(debug.name),
            f.spec_dwarf_name() == opt_str_view(debug.dwarf_name),
            f.spec_loc() == match debug.loc { Some(l) => Some((l.file@, l.line, l.column)), None => None },
    {
        let loc = match &debug.loc {
            Some(l) => Some(SourceLoc { file: l.file.clone(), line: l.line, column: l.column }),
            None => None,
        };
        FrameInfo { func_index, code_offset, func_start, name: clone_opt(&debug.name), dwarf_name: clone_opt(&debug.dwarf_name), loc }
    }

    /// The index of the function in its defining module.
    pub fn func_index(&self) -> (r: u32)
        ensures
            r == self.spec_func_index(),
    {
        self.func_index
    }

    /// The function's name from the `name` section, if present.
    pub fn func_name(&self) -> (r: Option<&str>)
        ensures
            opt_ref_view(r) == self.spec_name(),
    {
        as_opt_str(&self.name)
    }

    /// The instruction's offset relative to the start of the module's code section.
    pub fn module_offset(&self) -> (r: Option<usize>)
        ensures
            r == match self.spec_code_offset() { Some(o) => Some(o as usize), None => None::<usize> },
    {
        match self.code_offset {
            Some(o) => Some(o as usize),
            None => None,
        }
    }

    /// The instruction's offset relative to the start of its function's body.
    pub fn func_offset(&self) -> (r: Option<usize>)
        ensures
            r == match (self.spec_code_offset(), self.spec_func_start()) {
                (Some(o), Some(s)) => if o >= s { Some((o - s) as usize) } else { None::<usize> },
                _ => None::<usize>,
            },
    {
        match (self.code_offset, self.func_start) {
            (Some(o), Some(s)) => if o >= s { Some((o - s) as usize) } else { None },
            _ => None,
        }
    }

    /// The source-level symbols of this frame: one symbol named by the `name` section (else by
    /// the debug sections) with the source location, or none when neither a name nor a
    /// location is known.
    pub fn symbols(&self) -> (r: Vec<FrameSymbol>)
        ensures
            ({
                let name = match self.spec_name() { Some(n) => Some(n), None => self.spec_dwarf_name() };
                if name is None && self.spec_loc() is None {
                    r@.len() == 0
                } else {
                    &&& r@.len() == 1
                    &&& r@[0].spec_name() == name
                    &&& r@[0].spec_file() == match self.spec_loc() { Some(l) => Some(l.0), None => None::<Seq<char>> }
                    &&& r@[0].spec_line() == match self.spec_loc() { Some(l) => nonzero(l.1), None => None::<u32> }
                    &&& r@[0].spec_column() == match self.spec_loc() { Some(l) => nonzero(l.2), None => None::<u32> }
                }
            }),
    {
        self.build_symbols()
    }

    fn build_symbols(&self) -> (r: Vec<FrameSymbol>)
        ensures
            ({
                let name = match self.spec_name() { Some(n) => Some(n), None => self.spec_dwarf_name() };
                if name is None && self.spec_loc() is None {
                    r@.len() == 0
                } else {
                    &&& r@.len() == 1
                    &&& r@[0].spec_name() == name
                    &&& r@[0].spec_file() == match self.spec_loc() { Some(l) => Some(l.0), None => None::<Seq<char>> }
                    &&& r@[0].spec_line() == match self.spec_loc() { Some(l) => nonzero(l.1), None => None::<u32> }
                    &&& r@[0].spec_column() == match self.spec_loc() { Some(l) => nonzero(l.2), None => None::<u32> }
                }
            }),
    {
        let name = match &self.name {
            Some(n) => Some(n.clone()),
            None => clone_opt(&self.dwarf_name),
        };
        if name.is_none() && self.loc.is_none() {
            return Vec::new();
        }
        let (file, line, column) = match &self.loc {
            Some(l) => (Some(l.file.clone()), if l.line != 0 { Some(l.line) } else { None }, if l.column != 0 { Some(l.column) } else { None }),
            None => (None, None, None),
        };
        let mut out = Vec::new();
        out.push(FrameSymbol { name, file, line, column });
        out
    }
}

/// The decimal digit `d` as a character.
pub open spec fn digit_char(d: nat) -> char {
    (48 + d) as char
}

/// The decimal numeral of `n`.
pub open spec fn decimal(n: nat) -> Seq<char>
    decreases n,
{
    if n < 10 { seq![digit_char(n)] } else { decimal(n / 10) + seq![digit_char(n % 10)] }
}

fn digit_str(d: u64) -> (s: &'static str)
    requires
        d < 10,
    ensures
        s@ == seq![digit_char(d as nat)],
{
    proof {
        reveal_strlit("0"); reveal_strlit("1"); reveal_strlit("2"); reveal_strlit("3"); reveal_strlit("4");
        reveal_strlit("5"); reveal_strlit("6"); reveal_strlit("7"); reveal_strlit("8"); reveal_strlit("9");
    }
    if d == 0 { "0" } else if d == 1 { "1" } else if d == 2 { "2" } else if d == 3 { "3" } else if d == 4 { "4" }
    else if d == 5 { "5" } else if d == 6 { "6" } else if d == 7 { "7" } else if d == 8 { "8" } else { "9" }
}

/// The decimal numeral of `n`.
pub fn decimal_string(n: u64) -> (s: String)
    ensures
        s@ == decimal(n as nat),
    decreases n,
{
    if n < 10 {
        String::from_str(digit_str(n))
    } else {
        let mut s = decimal_string(n / 10);
        s.append(digit_str(n % 10));
        s
    }
}

/// The line a backtrace prints for frame `i` of function `func` named `name`.
pub open spec fn frame_line(i: nat, func: u32, name: Option<Seq<char>>) -> Seq<char> {
    "  "@ + decimal(i) + ": func["@ + decimal(func as nat) + "] "@
        + (match name { Some(n) => n, None => "<unknown>"@ }) + "\n"@
}

/// The text of a backtrace's first `k` frames, each preceded by a host marker when a host
/// boundary sits before it.
pub open spec fn frames_text(frames: Seq<FrameInfo>, boundaries: Seq<usize>, k: nat) -> Seq<char>
    decreases k,
{
    if k == 0 || k > frames.len() {
        Seq::empty()
    } else {
        let i = (k - 1) as nat;
        frames_text(frames, boundaries, i)
            + (if boundaries.contains(i as usize) { "  <host>\n"@ } else { Seq::empty() })
            + frame_line(i, frames[i as int].spec_func_index(), frames[i as int].spec_name())
    }
}

/// The whole text of a backtrace: a header, the frames, and a final host marker when a host
/// boundary sits after the last frame.
pub open spec fn backtrace_text(frames: Seq<FrameInfo>, boundaries: Seq<usize>) -> Seq<char> {
    "wasm backtrace:\n"@ + frames_text(frames, boundaries, frames.len())
        + (if boundaries.contains(frames.len() as usize) { "  <host>\n"@ } else { Seq::empty() })
}

fn frame_line_string(i: usize, func: u32, name: Option<&str>) -> (s: String)
    ensures
        s@ == frame_line(i as nat, func, opt_ref_view(name)),
{
    let mut s = String::from_str("  ");
    let idx = decimal_string(i as u64);
    s.append(idx.as_str());
    s.append(": func[");
    let fx = decimal_string(func as u64);
    s.append(fx.as_str());
    s.append("] ");
    match name {
        Some(n) => s.append(n),
        None => s.append("<unknown>"),
    }
    s.append("\n");
    proof { assert(s@ =~= frame_line(i as nat, func, opt_ref_view(name))); }
    s
}

fn contains_index(v: &Vec<usize>, x: usize) -> (b: bool)
    ensures
        b == v@.contains(x),
{
    for i in 0..v.len()
        invariant
            forall|k: int| 0 <= k < i ==> v@[k] != x,
    {
        if v[i] == x {
            proof { assert(v@[i as int] == x); }
            return true;
        }
    }
    false
}

/// A captured wasm stack backtrace: frames most-recent first, and the positions before which a
/// host re-entry boundary sits.
#[derive(Clone, Debug)]
pub struct WasmBacktrace {
    frames: Vec<FrameInfo>,
    host_boundaries: Vec<usize>,
}

impl WasmBacktrace {
    pub closed spec fn spec_frames(&self) -> Seq<FrameInfo> { self.frames@ }
    pub closed spec fn spec_host_boundaries(&self) -> Seq<usize> { self.host_boundaries@ }

    /// A backtrace of already-collected frames.
    pub fn from_frames(frames: Vec<FrameInfo>) -> (b: WasmBacktrace)
        ensures
            b.spec_frames() == frames@,
            b.spec_host_boundaries().len() == 0,
    {
        WasmBacktrace { frames, host_boundaries: Vec::new() }
    }

    /// A backtrace of already-collected frames and host-boundary positions.
    pub fn from_frames_with_boundaries(frames: Vec<FrameInfo>, host_boundaries: Vec<usize>) -> (b: WasmBacktrace)
        ensures
            b.spec_frames() == frames@,
            b.spec_host_boundaries() == host_boundaries@,
    {
        WasmBacktrace { frames, host_boundaries }
    }

    /// The printed form of the backtrace: a `wasm backtrace:` header, then one line per frame
    /// (`  {i}: func[{index}] {name}`), with `  <host>` lines where host boundaries sit.
    pub fn render(&self) -> (s: String)
        ensures
            s@ == backtrace_text(self.spec_frames(), self.spec_host_boundaries()),
    {
        let mut s = String::from_str("wasm backtrace:\n");
        let n = self.frames.len();
        for i in 0..n
            invariant
                n == self.frames@.len(),
                s@ == "wasm backtrace:\n"@ + frames_text(self.frames@, self.host_boundaries@, i as nat),
        {
            let ghost before = s@;
            if contains_index(&self.host_boundaries, i) {
                s.append("  <host>\n");
            }
            let f = &self.frames[i];
            let line = frame_line_string(i, f.func_index(), f.func_name());
            s.append(line.as_str());
            proof {
                assert(s@ =~= "wasm backtrace:\n"@ + frames_text(self.frames@, self.host_boundaries@, (i + 1) as nat));
            }
        }
        if contains_index(&self.host_boundaries, n) {
            s.append("  <host>\n");
        }
        proof { assert(s@ =~= backtrace_text(self.frames@, self.host_boundaries@)); }
        s
    }

    /// The captured frames, most-recent first.
    pub fn frames(&self) -> (r: &[FrameInfo])
        ensures
            r@ == self.spec_frames(),
    {
        self.frames.as_slice()
    }

    /// The host-boundary positions.
    pub fn host_boundaries(&self) -> (r: &[usize])
        ensures
            r@ == self.spec_host_boundaries(),
    {
        self.host_boundaries.as_slice()
    }

    /// Captures the backtrace of execution `exec` (running a module with debug data `debug`) if
    /// backtraces are `enabled`, else an empty one.
    pub fn capture(enabled: bool, exec: &Execution, debug: &ModuleDebug) -> (b: WasmBacktrace)
        ensures
            !enabled ==> b.spec_frames().len() == 0,
            enabled ==> describes(b, exec.frames@, *debug, None),
    {
        if !enabled {
            return WasmBacktrace::from_frames(Vec::new());
        }
        WasmBacktrace::force_capture(exec, debug)
    }

    /// Captures the backtrace of `exec` regardless of the backtrace setting: every frame is at a
    /// call site, so it reports the instruction before its saved `ip`.
    pub fn force_capture(exec: &Execution, debug: &ModuleDebug) -> (b: WasmBacktrace)
        ensures
            describes(b, exec.frames@, *debug, None),
    {
        build(exec.frames.as_slice(), debug, None)
    }
}

/// The instruction a frame reports: the live `top_ip` for the most recent frame when given, the
/// call site (`ip - 1`) otherwise.
pub open spec fn reported_ip(f: Frame, top: bool, top_ip: Option<u32>) -> u32 {
    match top_ip {
        Some(ip) if top => ip,
        _ => if f.ip > 0 { (f.ip - 1) as u32 } else { 0 },
    }
}

/// The module offset of instruction `ip` of the function `func` (an index among all functions,
/// imported ones first), when its offset table was retained.
pub open spec fn offset_of(debug: ModuleDebug, func: u32, ip: u32) -> Option<u32> {
    if func < debug.num_imported_funcs || func - debug.num_imported_funcs >= debug.funcs@.len() {
        None
    } else {
        match debug.funcs@[func - debug.num_imported_funcs].offsets {
            Some(offs) => if ip < offs@.len() { Some(offs@[ip as int]) } else { None },
            None => None,
        }
    }
}

/// The debug data of function `func` (an index among all functions, imported ones first):
/// none for an imported function or one past the module's functions.
pub open spec fn debug_of(debug: ModuleDebug, func: u32) -> Option<FuncDebug> {
    if func < debug.num_imported_funcs || func - debug.num_imported_funcs >= debug.funcs@.len() {
        None
    } else {
        Some(debug.funcs@[func - debug.num_imported_funcs])
    }
}

/// Whether frame `fi` carries exactly the names and source location of function `func`'s debug
/// data (none of them when the function has none).
pub open spec fn names_match(fi: FrameInfo, debug: ModuleDebug, func: u32) -> bool {
    match debug_of(debug, func) {
        Some(d) => {
            &&& fi.spec_name() == opt_str_view(d.name)
            &&& fi.spec_dwarf_name() == opt_str_view(d.dwarf_name)
            &&& fi.spec_loc() == match d.loc { Some(l) => Some((l.file@, l.line, l.column)), None => None }
        },
        None => {
            &&& fi.spec_name() is None
            &&& fi.spec_dwarf_name() is None
            &&& fi.spec_loc() is None
        },
    }
}

/// The module offset of the first instruction of function `func`.
pub open spec fn start_of(debug: ModuleDebug, func: u32) -> Option<u32> {
    offset_of(debug, func, 0)
}

fn lookup_offset(debug: &ModuleDebug, func: u32, ip: u32) -> (r: Option<u32>)
    ensures
        r == offset_of(*debug, func, ip),
{
    if func < debug.num_imported_funcs {
        return None;
    }
    let d = (func - debug.num_imported_funcs) as usize;
    if d >= debug.funcs.len() {
        return None;
    }
    match &debug.funcs[d].offsets {
        Some(offs) => if (ip as usize) < offs.len() { Some(offs[ip as usize]) } else { None },
        None => None,
    }
}

/// The frame of `f` with its module's debug data.
pub fn frame_info(debug: &ModuleDebug, f: Frame, ip: u32) -> (r: FrameInfo)
    ensures
        r.spec_func_index() == f.func,
        r.spec_code_offset() == offset_of(*debug, f.func, ip),
        r.spec_func_start() == start_of(*debug, f.func),
        names_match(r, *debug, f.func),
{
    let empty = FuncDebug { name: None, offsets: None, dwarf_name: None, loc: None };
    let code_offset = lookup_offset(debug, f.func, ip);
    let func_start = lookup_offset(debug, f.func, 0);
    if f.func < debug.num_imported_funcs || (f.func - debug.num_imported_funcs) as usize >= debug.funcs.len() {
        FrameInfo::new(f.func, code_offset, func_start, &empty)
    } else {
        FrameInfo::new(f.func, code_offset, func_start, &debug.funcs[(f.func - debug.num_imported_funcs) as usize])
    }
}

/// Whether `b` describes the stack `frames` (oldest first) most-recent first: one frame per
/// activation, with its function, the module offset of the instruction it reports (`top_ip` for
/// the most recent when given, the call site otherwise), its function's start offset, and its
/// function's names and source location.
pub open spec fn describes(b: WasmBacktrace, frames: Seq<Frame>, debug: ModuleDebug, top_ip: Option<u32>) -> bool {
    &&& b.spec_frames().len() == frames.len()
    &&& forall|i: int| 0 <= i < frames.len() ==> {
        let f = frames[frames.len() - 1 - i];
        let fi = #[trigger] b.spec_frames()[i];
        &&& fi.spec_func_index() == f.func
        &&& fi.spec_code_offset() == offset_of(debug, f.func, reported_ip(f, i == 0, top_ip))
        &&& fi.spec_func_start() == start_of(debug, f.func)
        &&& names_match(fi, debug, f.func)
    }
}

/// A backtrace of `frames` (oldest first), most-recent first; the most recent reports `top_ip`
/// when given.
pub fn build(frames: &[Frame], debug: &ModuleDebug, top_ip: Option<u32>) -> (b: WasmBacktrace)
    ensures
        describes(b, frames@, *debug, top_ip),
        b.spec_host_boundaries().len() == 0,
{
    let mut infos: Vec<FrameInfo> = Vec::new();
    let n = frames.len();
    for k in 0..n
        invariant
            n == frames@.len(),
            infos@.len() == k,
            forall|i: int| 0 <= i < k ==> {
                let f = frames@[n - 1 - i];
                let fi = #[trigger] infos@[i];
                &&& fi.spec_func_index() == f.func
                &&& fi.spec_code_offset() == offset_of(*debug, f.func, reported_ip(f, i == 0, top_ip))
                &&& fi.spec_func_start() == start_of(*debug, f.func)
                &&& names_match(fi, *debug, f.func)
            },
    {
        let f = frames[n - 1 - k];
        let ip = match top_ip {
            Some(ip) if k == 0 => ip,
            _ => if f.ip > 0 { f.ip - 1 } else { 0 },
        };
        infos.push(frame_info(debug, f, ip));
    }
    WasmBacktrace::from_frames(infos)
}

impl Execution {
    /// Captures a backtrace from the live frames, the most recent reporting `top_ip` (the trap
    /// site).
    pub fn capture_backtrace(&self, debug: &ModuleDebug, top_ip: u32) -> (b: WasmBacktrace)
        ensures
            describes(b, self.frames@, *debug, Some(top_ip)),
    {
        build(self.frames.as_slice(), debug, Some(top_ip))
    }
}

} // verus!
