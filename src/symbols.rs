//! The symbol resolver: nearest symbol at or below an address.

use vstd::prelude::*;

verus! {

/// An address resolved against the symbol table: the symbol at or below it
/// and the distance from that symbol.
#[derive(Copy, Clone, Debug)]
pub struct SymOff {
    pub addr: u64,
    pub symbol: &'static str,
    pub offset: u64,
}

impl SymOff {
    pub fn addr(&self) -> (r: u64)
        ensures
            r == self.addr,
    {
        self.addr
    }

    pub fn symbol(&self) -> (r: &'static str)
        ensures
            r == self.symbol,
    {
        self.symbol
    }

    /// An address that is exactly a symbol's is taken as a function's entry.
    pub fn is_entry(&self) -> (r: bool)
        ensures
            r == (self.offset == 0),
    {
        self.offset == 0
    }
}

/// The symbols are in order of address.
pub open spec fn sorted_by_addr(s: Seq<(u64, &'static str)>) -> bool {
    forall|i: int, j: int| 0 <= i < j < s.len() ==> s[i].0 <= s[j].0
}

/// One past the last position of a symbol at or below `addr` (0 if none).
pub open spec fn upper(s: Seq<(u64, &'static str)>, addr: u64) -> nat
    decreases s.len(),
{
    if s.len() == 0 {
        0
    } else if s.last().0 <= addr {
        s.len()
    } else {
        upper(s.drop_last(), addr)
    }
}

proof fn lemma_upper_split(s: Seq<(u64, &'static str)>, addr: u64, c: int)
    requires
        0 <= c <= s.len(),
        forall|i: int| 0 <= i < c ==> s[i].0 <= addr,
        forall|i: int| c <= i < s.len() ==> s[i].0 > addr,
    ensures
        upper(s, addr) == c,
    decreases s.len(),
{
    if s.len() > 0 && c < s.len() {
        lemma_upper_split(s.drop_last(), addr, c);
    }
}

/// `r` is what `addr` resolves to: the last symbol at or below it and the
/// offset from it, or `<unknown>` with the address as offset.
pub open spec fn resolves(symbols: Seq<(u64, &'static str)>, addr: u64, r: SymOff) -> bool {
    &&& r.addr == addr
    &&& upper(symbols, addr) == 0 ==> r.symbol@ == "<unknown>"@ && r.offset == addr
    &&& upper(symbols, addr) > 0 ==> {
        let (sa, sym) = symbols[upper(symbols, addr) - 1];
        r.symbol == sym && r.offset == addr - sa
    }
}

/// The lookup table from addresses to symbols of one traced program.
pub struct TidContext {
    /// The symbols in order of address.
    pub symbols: Vec<(u64, &'static str)>,
    pub tracer_ctx: crate::tracer::TidTracerCtx,
    pub bitness: u8,
}

impl TidContext {
    /// Resolves `addr` to the last symbol at or below it and the offset from
    /// that symbol; with no symbol below, to `<unknown>` with the address as offset.
    pub fn resolve(&self, addr: u64) -> (r: SymOff)
        requires
            sorted_by_addr(self.symbols@),
        ensures
            resolves(self.symbols@, addr, r),
    {
        let symbols = &self.symbols;
        let n = symbols.len();
        let mut lo: usize = 0;
        let mut hi: usize = n;
        while lo < hi
            invariant
                n == symbols@.len(),
                lo <= hi <= n,
                sorted_by_addr(symbols@),
                forall|i: int| 0 <= i < lo ==> symbols@[i].0 <= addr,
                forall|i: int| hi <= i < n ==> symbols@[i].0 > addr,
            decreases hi - lo,
        {
            let mid = lo + (hi - lo) / 2;
            if symbols[mid].0 <= addr {
                lo = mid + 1;
            } else {
                hi = mid;
            }
        }
        proof {
            lemma_upper_split(symbols@, addr, lo as int);
        }
        if lo == 0 {
            SymOff { addr, symbol: "<unknown>", offset: addr }
        } else {
            let (sa, sym) = symbols[lo - 1];
            SymOff { addr, symbol: sym, offset: addr - sa }
        }
    }
}

} // verus!
