use cannoli_client::hook_mem;
use cannoli_client::loader::{load_symbols, parse_symbol_line, register_sinks, watched_symbols};
use cannoli_client::sinks::SinkAction;
use cannoli_client::symbols::TidContext;
use cannoli_client::tracer::Allocation;

#[test]
fn symbol_lines_parse() {
    assert_eq!(parse_symbol_line("00400ecc T main"), Some((0x400ecc, "main")));
    assert_eq!(parse_symbol_line("DEADbeef t name with spaces"), Some((0xdeadbeef, "name with spaces")));
    assert_eq!(parse_symbol_line("00400ecc main"), None);
    assert_eq!(parse_symbol_line("zz T main"), None);
    assert_eq!(parse_symbol_line(" T main"), None);
    assert_eq!(parse_symbol_line("10000000000000000 T big"), None);
    assert_eq!(parse_symbol_line("ffffffffffffffff T top"), Some((u64::MAX, "top")));
}

#[test]
fn symbol_file_loads_or_fails() {
    let lines = vec!["0400 T main", "0420 t helper"];
    assert_eq!(load_symbols(&lines), Some(vec![(0x400, "main"), (0x420, "helper")]));
    let bad = vec!["0400 T main", "oops"];
    assert_eq!(load_symbols(&bad), None);
}

#[test]
fn watched_symbols_in_registration_order() {
    let symbols = vec![
        (0x10, "menu"),
        (0x70, "printf"),
        (0x20, "__libc_free"),
        (0x30, "__libc_malloc"),
        (0x40, "main"),
        (0x50, "__sbrk"),
        (0x60, "fgets"),
    ];
    let w = watched_symbols(&symbols);
    assert_eq!(
        w,
        vec![(0x30, "__libc_malloc"), (0x50, "__sbrk"), (0x20, "__libc_free"), (0x40, "main"), (0x10, "menu"), (0x60, "fgets")]
    );
    let sinks = register_sinks(&w);
    assert_eq!(sinks.len(), 6);
    assert!(matches!(sinks[&0x20].operation, SinkAction::Free));
    assert!(matches!(sinks[&0x40].operation, SinkAction::Main));
    let tid = TidContext::new(symbols, false, 32);
    let addrs: Vec<u64> = tid.symbols.iter().map(|s| s.0).collect();
    assert_eq!(addrs, vec![0x10, 0x20, 0x30, 0x40, 0x50, 0x60, 0x70]);
    assert_eq!(tid.tracer_ctx.sinks.len(), 6);
    assert_eq!(tid.resolve(0x45).symbol, "main");
}

#[test]
fn allocation_text() {
    let a = Allocation { id: 1, pc: 0, start: Some(0x2000), end: Some(0x2010), size: 0x10 };
    assert_eq!(a.describe(), "[0x2000-0x2010]");
    let p = Allocation { id: 1, pc: 0, start: None, end: None, size: 0x10 };
    assert_eq!(p.describe(), "[[none]-[none]]");
    let z = Allocation { id: 1, pc: 0, start: Some(0), end: Some(1), size: 1 };
    assert_eq!(z.describe(), "[0x0-0x1]");
}

#[test]
fn all_memory_accesses_reported() {
    assert!(hook_mem(0, true, 4));
    assert!(hook_mem(0x1234, false, 1));
}
