use submilli_wasm::backtrace::{decimal_string, FrameInfo, FuncDebug, SourceLoc, WasmBacktrace};

fn debug(name: Option<&str>) -> FuncDebug {
    FuncDebug { name: name.map(|n| n.to_string()), offsets: None, dwarf_name: None, loc: None }
}

#[test]
fn backtrace_renders_frames_and_host_boundaries() {
    let f0 = FrameInfo::new(3, None, None, &debug(Some("boom")));
    let f1 = FrameInfo::new(12, None, None, &debug(None));
    let bt = WasmBacktrace::from_frames_with_boundaries(vec![f0, f1], vec![1, 2]);
    assert_eq!(
        bt.render(),
        "wasm backtrace:\n  0: func[3] boom\n  <host>\n  1: func[12] <unknown>\n  <host>\n"
    );
}

#[test]
fn empty_backtrace_renders_only_its_header() {
    assert_eq!(WasmBacktrace::from_frames(vec![]).render(), "wasm backtrace:\n");
}

#[test]
fn decimal_numerals() {
    assert_eq!(decimal_string(0), "0");
    assert_eq!(decimal_string(7), "7");
    assert_eq!(decimal_string(10), "10");
    assert_eq!(decimal_string(4_294_967_295), "4294967295");
    assert_eq!(decimal_string(u64::MAX), "18446744073709551615");
}

#[test]
fn frame_offsets_are_relative_to_the_function() {
    let mut d = debug(Some("f"));
    d.loc = Some(SourceLoc { file: "fixture.rs".to_string(), line: 13, column: 0 });
    let f = FrameInfo::new(0, Some(120), Some(100), &d);
    assert_eq!(f.module_offset(), Some(120));
    assert_eq!(f.func_offset(), Some(20));
    let syms = f.symbols();
    assert_eq!(syms.len(), 1);
    assert_eq!(syms[0].line(), Some(13));
    assert_eq!(syms[0].column(), None);
    assert_eq!(syms[0].file(), Some("fixture.rs"));
}
