//! Loading a program's symbol table: parsing the lines of a symbol file,
//! ordering the symbols, and choosing which of them are watched.

use std::collections::HashMap;
use vstd::prelude::*;
use crate::sinks::{AllocationSink, SinkAction, VarType, sink_kind};
use crate::symbols::{TidContext, sorted_by_addr};
use crate::text::same_str;
use crate::tracer::TidTracerCtx;

verus! {

broadcast use vstd::std_specs::hash::group_hash_axioms;

/// The value of a hexadecimal digit (either case).
pub open spec fn hex_char_value(c: char) -> Option<nat> {
    if '0' <= c && c <= '9' {
        Some((c as u32 - '0' as u32) as nat)
    } else if 'a' <= c && c <= 'f' {
        Some((c as u32 - 'a' as u32 + 10) as nat)
    } else if 'A' <= c && c <= 'F' {
        Some((c as u32 - 'A' as u32 + 10) as nat)
    } else {
        None
    }
}

/// The number that a non-empty run of hexadecimal digits writes.
pub open spec fn hex_number(s: Seq<char>) -> Option<nat>
    decreases s.len(),
{
    if s.len() == 0 {
        None
    } else {
        match hex_char_value(s.last()) {
            None => None,
            Some(d) => if s.len() == 1 {
                Some(d)
            } else {
                match hex_number(s.drop_last()) {
                    None => None,
                    Some(v) => Some(16 * v + d),
                }
            },
        }
    }
}

proof fn lemma_hex_prefix(s: Seq<char>, k: int)
    requires
        1 <= k <= s.len(),
        hex_number(s) is Some,
    ensures
        hex_number(s.take(k)) is Some,
        hex_number(s.take(k))->0 <= hex_number(s)->0,
    decreases s.len(),
{
    if k == s.len() {
        assert(s.take(k) =~= s);
    } else {
        assert(s.drop_last().take(k) =~= s.take(k));
        lemma_hex_prefix(s.drop_last(), k);
    }
}

/// Reads a hexadecimal address; `None` for an empty run, a non-digit, or a
/// value past 64 bits.
fn parse_hex(s: &str, n: usize) -> (r: Option<u64>)
    requires
        n == s@.len(),
    ensures
        r == (match hex_number(s@) {
            Some(v) => if v <= u64::MAX {
                Some(v as u64)
            } else {
                None
            },
            None => None,
        }),
{
    if n == 0 {
        return None;
    }
    let mut v: u64 = 0;
    let mut i: usize = 0;
    while i < n
        invariant
            n == s@.len(),
            n > 0,
            i <= n,
            i > 0 ==> hex_number(s@.take(i as int)) == Some(v as nat),
            i == 0 ==> v == 0,
        decreases n - i,
    {
        let c = s.get_char(i);
        let d: u64 = if '0' <= c && c <= '9' {
            (c as u32 - '0' as u32) as u64
        } else if 'a' <= c && c <= 'f' {
            (c as u32 - 'a' as u32 + 10) as u64
        } else if 'A' <= c && c <= 'F' {
            (c as u32 - 'A' as u32 + 10) as u64
        } else {
            proof {
                assert(s@.take(i + 1).last() == c);
                if hex_number(s@) is Some {
                    lemma_hex_prefix(s@, i + 1);
                }
            }
            return None;
        };
        proof {
            assert(s@.take(i + 1).last() == c);
            assert(s@.take(i + 1).drop_last() =~= s@.take(i as int));
        }
        if v > (u64::MAX - d) / 16 {
            proof {
                assert(16 * v + d > u64::MAX) by (nonlinear_arith)
                    requires
                        v > (u64::MAX - d) / 16,
                        d < 16,
                ;
                if hex_number(s@) is Some {
                    lemma_hex_prefix(s@, i + 1);
                }
            }
            return None;
        }
        assert(16 * v + d <= u64::MAX) by (nonlinear_arith)
            requires
                v <= (u64::MAX - d) / 16,
                d < 16,
        ;
        v = 16 * v + d;
        i = i + 1;
    }
    assert(s@.take(n as int) =~= s@);
    Some(v)
}

/// The position of the first `c` in `s` at or after `from`, or the length.
pub open spec fn first_from(s: Seq<char>, c: char, from: int) -> int
    decreases s.len() - from,
{
    if from >= s.len() {
        s.len() as int
    } else if s[from] == c {
        from
    } else {
        first_from(s, c, from + 1)
    }
}

/// A symbol-file line, `<hex address> <field> <name>`, split at the first
/// two spaces: the address and the name (the rest of the line).
pub open spec fn symbol_line(s: Seq<char>) -> Option<(u64, Seq<char>)> {
    let i = first_from(s, ' ', 0);
    let j = first_from(s, ' ', i + 1);
    if j >= s.len() {
        None
    } else {
        match hex_number(s.subrange(0, i)) {
            Some(v) => if v <= u64::MAX {
                Some((v as u64, s.subrange(j + 1, s.len() as int)))
            } else {
                None
            },
            None => None,
        }
    }
}

fn find_space(s: &str, from: usize, n: usize) -> (r: usize)
    requires
        n == s@.len(),
        from <= n,
    ensures
        r == first_from(s@, ' ', from as int),
    decreases n - from,
{
    if from >= n {
        n
    } else if s.get_char(from) == ' ' {
        from
    } else {
        find_space(s, from + 1, n)
    }
}

proof fn lemma_first_from_bound(s: Seq<char>, c: char, from: int)
    requires
        0 <= from,
    ensures
        from <= first_from(s, c, from) || first_from(s, c, from) == s.len(),
        first_from(s, c, from) <= s.len() || from > s.len(),
    decreases s.len() - from,
{
    if from < s.len() && s[from] != c {
        lemma_first_from_bound(s, c, from + 1);
    }
}

/// Parses one line of a symbol file into an address and a name.
pub fn parse_symbol_line(line: &'static str) -> (r: Option<(u64, &'static str)>)
    ensures
        match symbol_line(line@) {
            Some((a, name)) => r matches Some((ra, rn)) && ra == a && rn@ == name,
            None => r is None,
        },
{
    let n = line.unicode_len();
    let i = find_space(line, 0, n);
    proof {
        lemma_first_from_bound(line@, ' ', 0);
    }
    if i >= n {
        return None;
    }
    let j = find_space(line, i + 1, n);
    proof {
        lemma_first_from_bound(line@, ' ', i + 1);
    }
    if j >= n {
        return None;
    }
    let head = line.substring_char(0, i);
    match parse_hex(head, i) {
        Some(addr) => Some((addr, line.substring_char(j + 1, n))),
        None => None,
    }
}

/// Relies on `slice::sort_by_key`: the symbols are put in order of address,
/// none lost or added.
#[verifier::external_body]
fn sort_by_address(symbols: &mut Vec<(u64, &'static str)>)
    ensures
        sorted_by_addr(final(symbols)@),
        final(symbols)@.to_multiset() == old(symbols)@.to_multiset(),
{
    symbols.sort_by_key(|x| x.0)
}

/// The symbols of `s` whose name is one of `names`, in order.
pub open spec fn named(s: Seq<(u64, &'static str)>, names: Seq<Seq<char>>) -> Seq<(u64, &'static str)>
    decreases s.len(),
{
    if s.len() == 0 {
        s
    } else if names.contains(s.last().1@) {
        named(s.drop_last(), names).push(s.last())
    } else {
        named(s.drop_last(), names)
    }
}

/// The last entry of `s`, if any, as a sequence.
pub open spec fn last_only(s: Seq<(u64, &'static str)>) -> Seq<(u64, &'static str)> {
    if s.len() > 0 {
        seq![s.last()]
    } else {
        Seq::empty()
    }
}

pub open spec fn alloc_names() -> Seq<Seq<char>> {
    seq!["__libc_malloc"@, "__sbrk"@]
}

pub open spec fn free_names() -> Seq<Seq<char>> {
    seq!["__libc_free"@]
}

pub open spec fn main_names() -> Seq<Seq<char>> {
    seq!["main"@]
}

pub open spec fn log_names() -> Seq<Seq<char>> {
    seq!["fgets"@, "__isoc99_fscanf"@, "menu"@]
}

/// The symbols to watch, in the order they are registered: the allocation
/// functions, the last `__libc_free`, the last `main`, then the functions
/// whose calls trigger a log frame.
pub open spec fn watched(s: Seq<(u64, &'static str)>) -> Seq<(u64, &'static str)> {
    named(s, alloc_names()) + last_only(named(s, free_names())) + last_only(named(s, main_names()))
        + named(s, log_names())
}

/// Picks the symbols to watch out of a symbol table in file order.
pub fn watched_symbols(symbols: &Vec<(u64, &'static str)>) -> (r: Vec<(u64, &'static str)>)
    ensures
        r@ == watched(symbols@),
{
    let mut allocs: Vec<(u64, &'static str)> = Vec::new();
    let mut logs: Vec<(u64, &'static str)> = Vec::new();
    let mut free_symbol: Option<(u64, &'static str)> = None;
    let mut main_symbol: Option<(u64, &'static str)> = None;
    let n = symbols.len();
    let mut i: usize = 0;
    while i < n
        invariant
            n == symbols@.len(),
            i <= n,
            allocs@ == named(symbols@.take(i as int), alloc_names()),
            logs@ == named(symbols@.take(i as int), log_names()),
            last_only(named(symbols@.take(i as int), free_names())) == (match free_symbol {
                Some(p) => seq![p],
                None => Seq::<(u64, &'static str)>::empty(),
            }),
            last_only(named(symbols@.take(i as int), main_names())) == (match main_symbol {
                Some(p) => seq![p],
                None => Seq::<(u64, &'static str)>::empty(),
            }),
        decreases n - i,
    {
        let (addr, sym) = symbols[i];
        proof {
            assert(symbols@.take(i + 1).drop_last() =~= symbols@.take(i as int));
            assert(symbols@.take(i + 1).last() == (addr, sym));
            reveal_strlit("__libc_malloc");
            reveal_strlit("__sbrk");
            reveal_strlit("__libc_free");
            reveal_strlit("main");
            reveal_strlit("fgets");
            reveal_strlit("__isoc99_fscanf");
            reveal_strlit("menu");
        }
        let is_log = same_str(sym, "fgets") || same_str(sym, "__isoc99_fscanf") || same_str(sym, "menu");
        let is_alloc = same_str(sym, "__libc_malloc") || same_str(sym, "__sbrk");
        let is_free = same_str(sym, "__libc_free");
        let is_main = same_str(sym, "main");
        proof {
            assert(log_names().contains(sym@) == is_log) by {
                if is_log {
                    if sym@ == "fgets"@ { assert(log_names()[0] == sym@); }
                    else if sym@ == "__isoc99_fscanf"@ { assert(log_names()[1] == sym@); }
                    else { assert(log_names()[2] == sym@); }
                }
            }
            assert(alloc_names().contains(sym@) == is_alloc) by {
                if is_alloc {
                    if sym@ == "__libc_malloc"@ { assert(alloc_names()[0] == sym@); }
                    else { assert(alloc_names()[1] == sym@); }
                }
            }
            assert(free_names().contains(sym@) == is_free) by {
                if is_free { assert(free_names()[0] == sym@); }
            }
            assert(main_names().contains(sym@) == is_main) by {
                if is_main { assert(main_names()[0] == sym@); }
            }
        }
        if is_log {
            logs.push((addr, sym));
        }
        if is_alloc {
            allocs.push((addr, sym));
        }
        if is_free {
            free_symbol = Some((addr, sym));
        }
        if is_main {
            main_symbol = Some((addr, sym));
        }
        i = i + 1;
    }
    proof {
        assert(symbols@.take(n as int) =~= symbols@);
    }
    let mut out = allocs;
    match free_symbol {
        Some(p) => out.push(p),
        None => {},
    }
    match main_symbol {
        Some(p) => out.push(p),
        None => {},
    }
    let ghost head = out@;
    let m = logs.len();
    let mut k: usize = 0;
    while k < m
        invariant
            m == logs@.len(),
            k <= m,
            out@ == head + logs@.take(k as int),
        decreases m - k,
    {
        out.push(logs[k]);
        proof {
            assert(logs@.take(k + 1) =~= logs@.take(k as int).push(logs@[k as int]));
        }
        k = k + 1;
    }
    proof {
        assert(logs@.take(m as int) =~= logs@);
        assert(out@ =~= watched(symbols@));
    }
    out
}

/// What the last watched symbol at `a` in `s` makes of its sink, if any.
pub open spec fn last_kind_at(s: Seq<(u64, &'static str)>, a: u64) -> Option<(SinkAction, Seq<VarType>, VarType)>
    decreases s.len(),
{
    if s.len() == 0 {
        None
    } else if s.last().0 == a && sink_kind(s.last().1@) is Some {
        sink_kind(s.last().1@)
    } else {
        last_kind_at(s.drop_last(), a)
    }
}

/// The names of the watched symbols at `a` in `s`, in order.
pub open spec fn names_at(s: Seq<(u64, &'static str)>, a: u64) -> Seq<Seq<char>>
    decreases s.len(),
{
    if s.len() == 0 {
        Seq::empty()
    } else if s.last().0 == a && sink_kind(s.last().1@) is Some {
        names_at(s.drop_last(), a).push(s.last().1@)
    } else {
        names_at(s.drop_last(), a)
    }
}

proof fn lemma_no_kind_no_names(s: Seq<(u64, &'static str)>, a: u64)
    requires
        last_kind_at(s, a) is None,
    ensures
        names_at(s, a) == Seq::<Seq<char>>::empty(),
    decreases s.len(),
{
    if s.len() > 0 {
        lemma_no_kind_no_names(s.drop_last(), a);
    }
}

/// The sink catalog that `list` gives: for each address with a watched
/// symbol, the sink that its last such symbol describes, known by all of
/// their names.
pub open spec fn catalog_of(list: Seq<(u64, &'static str)>, sinks: Map<u64, AllocationSink>) -> bool {
    &&& forall|a: u64| #[trigger] sinks.contains_key(a) == (last_kind_at(list, a) is Some)
    &&& forall|a: u64|
        #[trigger] sinks.contains_key(a) ==> {
            let kind = last_kind_at(list, a)->0;
            &&& sinks[a].address == a
            &&& sinks[a].operation == kind.0
            &&& sinks[a].args@ == kind.1
            &&& sinks[a].returns == kind.2
            &&& sinks[a].names.deep_view() == names_at(list, a)
        }
}

/// Registers the symbols of `list`, in order, as sinks.
pub fn register_sinks(list: &Vec<(u64, &'static str)>) -> (r: HashMap<u64, AllocationSink>)
    ensures
        catalog_of(list@, r@),
{
    let mut sinks: HashMap<u64, AllocationSink> = HashMap::new();
    let n = list.len();
    let mut i: usize = 0;
    while i < n
        invariant
            n == list@.len(),
            i <= n,
            catalog_of(list@.take(i as int), sinks@),
        decreases n - i,
    {
        let (addr, sym) = list[i];
        let ghost before = sinks@;
        let ghost prev = list@.take(i as int);
        let ghost next = list@.take(i + 1);
        proof {
            assert(next.drop_last() =~= prev);
            assert(next.last() == (addr, sym));
        }
        AllocationSink::add_new_from_sym(&mut sinks, sym, addr);
        proof {
            let now = sinks@;
            match sink_kind(sym@) {
                None => {
                    assert forall|a: u64| #[trigger] now.contains_key(a) == (last_kind_at(next, a) is Some) by {
                        assert(last_kind_at(next, a) == last_kind_at(prev, a));
                    }
                    assert forall|a: u64| #[trigger] now.contains_key(a) implies {
                        let kind = last_kind_at(next, a)->0;
                        &&& now[a].address == a
                        &&& now[a].operation == kind.0
                        &&& now[a].args@ == kind.1
                        &&& now[a].returns == kind.2
                        &&& now[a].names.deep_view() == names_at(next, a)
                    } by {
                        assert(last_kind_at(next, a) == last_kind_at(prev, a));
                        assert(names_at(next, a) == names_at(prev, a));
                        assert(before.contains_key(a));
                    }
                },
                Some(kind) => {
                    assert forall|a: u64| #[trigger] now.contains_key(a) == (last_kind_at(next, a) is Some) by {
                        if a != addr {
                            assert(last_kind_at(next, a) == last_kind_at(prev, a));
                        }
                    }
                    assert forall|a: u64| #[trigger] now.contains_key(a) implies {
                        let kind = last_kind_at(next, a)->0;
                        &&& now[a].address == a
                        &&& now[a].operation == kind.0
                        &&& now[a].args@ == kind.1
                        &&& now[a].returns == kind.2
                        &&& now[a].names.deep_view() == names_at(next, a)
                    } by {
                        if a != addr {
                            assert(last_kind_at(next, a) == last_kind_at(prev, a));
                            assert(names_at(next, a) == names_at(prev, a));
                            assert(before.contains_key(a));
                        } else if !before.contains_key(a) {
                            lemma_no_kind_no_names(prev, a);
                        }
                    }
                },
            }
        }
        i = i + 1;
    }
    proof {
        assert(list@.take(n as int) =~= list@);
    }
    sinks
}

/// Parses every line of a symbol file; `None` if a line does not parse.
pub fn load_symbols(lines: &Vec<&'static str>) -> (r: Option<Vec<(u64, &'static str)>>)
    ensures
        r is None <==> exists|i: int| 0 <= i < lines@.len() && symbol_line((#[trigger] lines@[i])@) is None,
        r matches Some(syms) ==> syms@.len() == lines@.len() && forall|i: int|
            0 <= i < lines@.len() ==> symbol_line((#[trigger] lines@[i])@) == Some(
                (syms@[i].0, syms@[i].1@),
            ),
{
    let mut out: Vec<(u64, &'static str)> = Vec::new();
    let n = lines.len();
    let mut i: usize = 0;
    while i < n
        invariant
            n == lines@.len(),
            i <= n,
            out@.len() == i,
            forall|j: int|
                0 <= j < i ==> symbol_line((#[trigger] lines@[j])@) == Some((out@[j].0, out@[j].1@)),
        decreases n - i,
    {
        match parse_symbol_line(lines[i]) {
            Some(p) => out.push(p),
            None => {
                return None;
            },
        }
        i = i + 1;
    }
    Some(out)
}

impl TidContext {
    /// The lookup context of a program: its symbols in order of address, and
    /// the sinks that its watched symbols (taken in file order) describe.
    pub fn new(symbols: Vec<(u64, &'static str)>, big_endian: bool, bitness: u8) -> (r: TidContext)
        ensures
            sorted_by_addr(r.symbols@),
            r.symbols@.to_multiset() == symbols@.to_multiset(),
            catalog_of(watched(symbols@), r.tracer_ctx.sinks@),
            r.tracer_ctx.big_endian == big_endian,
            r.bitness == bitness,
    {
        let list = watched_symbols(&symbols);
        let sinks = register_sinks(&list);
        let mut symbols = symbols;
        sort_by_address(&mut symbols);
        TidContext { symbols, tracer_ctx: TidTracerCtx { sinks, big_endian }, bitness }
    }
}

} // verus!
