//! Shadow copy of the traced process's heap: a byte buffer over a mapped
//! region, updated on every tracked write.

use vstd::prelude::*;
use vstd::string::*;
use crate::endian::{
    byte_of, decode, encode, le_bytes, be_bytes, pow256, lemma_div_pow256_step, lemma_encode_decode,
};

verus! {

/// A mapped memory range `[start, end)`.
#[derive(Copy, Clone, Debug)]
pub struct MemRegion {
    pub start: u64,
    pub end: u64,
}

/// What the metric entropy of a byte buffer is, as the bit pattern of the
/// IEEE-754 single that `entropy::metric_entropy` returns for it.
pub uninterp spec fn metric_entropy_of(bytes: Seq<u8>) -> u32;

/// Relies on `entropy::metric_entropy`: the result depends on the bytes alone,
/// and is `0.0` (bit pattern 0) for an empty or all-zero buffer.
#[verifier::external_body]
fn metric_entropy_bits(bytes: &[u8]) -> (r: u32)
    ensures
        r == metric_entropy_of(bytes@),
        (forall|i: int| 0 <= i < bytes@.len() ==> bytes@[i] == 0u8) ==> r == 0,
{
    entropy::metric_entropy(bytes).to_bits()
}

/// `mem` with the bytes `b` stored from offset `off` on.
pub open spec fn overwrite(mem: Seq<u8>, off: int, b: Seq<u8>) -> Seq<u8> {
    Seq::new(mem.len(), |i: int| if off <= i < off + b.len() { b[i - off] } else { mem[i] })
}

/// `mem` cut or extended with zero bytes to the length `n`.
pub open spec fn resized(mem: Seq<u8>, n: nat) -> Seq<u8> {
    Seq::new(n, |i: int| if i < mem.len() { mem[i] } else { 0u8 })
}

/// Hexadecimal digit `d`, lower case.
pub open spec fn hex_digit(d: int) -> char {
    "0123456789abcdef"@[d]
}

/// The last `n` hexadecimal digits of `v`.
pub open spec fn hex_fixed(v: nat, n: nat) -> Seq<char>
    decreases n,
{
    if n == 0 {
        Seq::empty()
    } else {
        hex_fixed(v / 16, (n - 1) as nat).push(hex_digit((v % 16) as int))
    }
}

/// How many hexadecimal digits `v` has.
pub open spec fn hex_len(v: nat) -> nat
    decreases v,
{
    if v < 16 {
        1
    } else {
        1 + hex_len(v / 16)
    }
}

/// `v` in hexadecimal, padded with zeros to at least `w` digits.
pub open spec fn hex_padded(v: nat, w: nat) -> Seq<char> {
    hex_fixed(
        v,
        if hex_len(v) > w {
            hex_len(v)
        } else {
            w
        },
    )
}

/// Word sizes, in bytes, that a 16-byte dump line splits into evenly (as a
/// little-endian dump, which reverses each word, needs).
pub open spec fn word_bytes_ok(n: nat) -> bool {
    n == 1 || n == 2 || n == 4 || n == 8 || n == 16
}

/// Where the `j`-th byte shown on line `i` of a dump lies in the buffer: in
/// order for big-endian, each word reversed for little-endian.
pub open spec fn dump_index(word: nat, big_endian: bool, i: nat, j: nat) -> int {
    if big_endian {
        (i * 16 + j) as int
    } else {
        i * 16 + (j / word) * word + (word - 1 - j % word)
    }
}

/// The first `j` bytes shown on line `i`, a space before each word.
pub open spec fn dump_bytes(mem: Seq<u8>, word: nat, big_endian: bool, i: nat, j: nat) -> Seq<char>
    decreases j,
{
    if j == 0 {
        Seq::empty()
    } else {
        let k = (j - 1) as nat;
        dump_bytes(mem, word, big_endian, i, k) + (if k % word == 0 {
            " "@
        } else {
            Seq::empty()
        }) + hex_fixed(mem[dump_index(word, big_endian, i, k)] as nat, 2)
    }
}

/// Line `i` of a dump: the address, then 16 bytes grouped by word.
pub open spec fn dump_line(mem: Seq<u8>, start: nat, word: nat, big_endian: bool, i: nat) -> Seq<
    char,
> {
    "0x"@ + hex_padded(
        start + 16 * i,
        if word == 8 {
            16
        } else {
            8
        },
    ) + ":"@ + dump_bytes(mem, word, big_endian, i, 16) + "\n"@
}

/// The first `lines` lines of a dump.
pub open spec fn dump_text(mem: Seq<u8>, start: nat, word: nat, big_endian: bool, lines: nat) -> Seq<
    char,
>
    decreases lines,
{
    if lines == 0 {
        Seq::empty()
    } else {
        dump_text(mem, start, word, big_endian, (lines - 1) as nat) + dump_line(
            mem,
            start,
            word,
            big_endian,
            (lines - 1) as nat,
        )
    }
}

/// `16` raised to the power `n`.
pub open spec fn pow16(n: nat) -> nat
    decreases n,
{
    if n == 0 {
        1
    } else {
        16 * pow16((n - 1) as nat)
    }
}

proof fn lemma_hex_len_bound(v: nat, k: nat)
    requires
        k >= 1,
        v < pow16(k),
    ensures
        hex_len(v) <= k,
    decreases k,
{
    if v >= 16 {
        if k == 1 {
            reveal_with_fuel(pow16, 2);
        } else {
            assert(v / 16 < pow16((k - 1) as nat));
            lemma_hex_len_bound(v / 16, (k - 1) as nat);
        }
    }
}

/// Appends the last `n` hexadecimal digits of `v`.
pub(crate) fn push_hex(out: &mut String, v: u64, n: usize)
    ensures
        final(out)@ == old(out)@ + hex_fixed(v as nat, n as nat),
    decreases n,
{
    if n > 0 {
        push_hex(out, v / 16, n - 1);
        proof {
            reveal_strlit("0123456789abcdef");
        }
        let d = (v % 16) as usize;
        let digit = "0123456789abcdef".substring_char(d, d + 1);
        out.append(digit);
        assert(digit@ =~= seq![hex_digit(d as int)]);
    }
}

/// How many hexadecimal digits `v` has.
pub(crate) fn hex_digit_count(v: u64) -> (r: usize)
    ensures
        r == hex_len(v as nat),
{
    proof {
        reveal_with_fuel(pow16, 17);
        assert(pow16(16) == 0x1_0000_0000_0000_0000);
        lemma_hex_len_bound(v as nat, 16);
    }
    let mut n: usize = 1;
    let mut x: u64 = v;
    while x >= 16
        invariant
            1 <= n,
            hex_len(v as nat) <= 16,
            hex_len(v as nat) == (n - 1) + hex_len(x as nat),
        decreases x,
    {
        x = x / 16;
        n = n + 1;
    }
    n
}

/// The shadow heap of a traced process.
#[derive(Clone, Debug)]
pub struct Heap {
    pub mem_region: MemRegion,
    pub memory: Vec<u8>,
    pub big_endian: bool,
    pub bitness: u8,
    /// Metric entropy of `memory`, as the bit pattern of an IEEE-754 single.
    pub entropy: u32,
}

/// Stores `w` bytes of `val` at `off`, least significant byte first.
fn store_le(mem: &mut Vec<u8>, off: usize, w: usize, val: u64)
    requires
        off + w <= old(mem)@.len(),
    ensures
        final(mem)@ == overwrite(old(mem)@, off as int, le_bytes(val as nat, w as nat)),
{
    let ghost before = mem@;
    let mut v: u64 = val;
    let mut i: usize = 0;
    let n = mem.len();
    assert(pow256(0) == 1);
    assert(val as nat / 1 == val as nat) by (nonlinear_arith);
    while i < w
        invariant
            i <= w,
            off + w <= n,
            n == mem@.len(),
            mem@.len() == before.len(),
            v as nat == val as nat / pow256(i as nat),
            forall|j: int|
                0 <= j < mem@.len() ==> mem@[j] == (if off <= j < off + i {
                    byte_of(val as nat, (j - off) as nat)
                } else {
                    before[j]
                }),
        decreases w - i,
    {
        mem[off + i] = (v % 256) as u8;
        proof {
            lemma_div_pow256_step(val as nat, i as nat);
        }
        v = v / 256;
        i = i + 1;
    }
    assert(mem@ =~= overwrite(before, off as int, le_bytes(val as nat, w as nat)));
}

/// Stores `w` bytes of `val` at `off`, most significant byte first.
fn store_be(mem: &mut Vec<u8>, off: usize, w: usize, val: u64)
    requires
        off + w <= old(mem)@.len(),
    ensures
        final(mem)@ == overwrite(old(mem)@, off as int, be_bytes(val as nat, w as nat)),
{
    let ghost before = mem@;
    let mut v: u64 = val;
    let mut i: usize = 0;
    let n = mem.len();
    assert(pow256(0) == 1);
    assert(val as nat / 1 == val as nat) by (nonlinear_arith);
    while i < w
        invariant
            i <= w,
            off + w <= n,
            n == mem@.len(),
            mem@.len() == before.len(),
            v as nat == val as nat / pow256(i as nat),
            forall|j: int|
                0 <= j < mem@.len() ==> mem@[j] == (if off + w - i <= j < off + w {
                    byte_of(val as nat, (off + w - 1 - j) as nat)
                } else {
                    before[j]
                }),
        decreases w - i,
    {
        let at: usize = off + (w - 1 - i);
        mem[at] = (v % 256) as u8;
        proof {
            lemma_div_pow256_step(val as nat, i as nat);
        }
        v = v / 256;
        i = i + 1;
    }
    assert(mem@ =~= overwrite(before, off as int, be_bytes(val as nat, w as nat)));
}

impl Heap {
    /// The heap's bounds hold its buffer exactly, and its entropy is that of the buffer.
    pub open spec fn wf(&self) -> bool {
        &&& self.mem_region.start <= self.mem_region.end
        &&& self.memory@.len() == self.mem_region.end - self.mem_region.start
        &&& self.entropy == metric_entropy_of(self.memory@)
    }

    /// Whether `[addr, addr + size)` lies within the heap's bounds.
    pub open spec fn holds_range(&self, addr: int, size: int) -> bool {
        self.mem_region.start <= addr && addr + size <= self.mem_region.end
    }

    /// The buffer after a write of `size` bytes of `val` at `addr`.
    pub open spec fn written(&self, val: u64, size: u64, addr: u64) -> Seq<u8> {
        overwrite(
            self.memory@,
            addr - self.mem_region.start,
            encode(val as nat, size as nat, self.big_endian),
        )
    }

    /// A zero-filled heap over `region`.
    pub fn zeroed(region: MemRegion, big_endian: bool, bitness: u8) -> (h: Heap)
        requires
            region.start <= region.end,
            region.end - region.start <= usize::MAX,
        ensures
            h.wf(),
            h.mem_region == region,
            h.big_endian == big_endian,
            h.bitness == bitness,
            h.memory@ == Seq::new((region.end - region.start) as nat, |i: int| 0u8),
            h.entropy == 0,
    {
        let len = (region.end - region.start) as usize;
        let memory: Vec<u8> = vec![0u8; len];
        assert(memory@ =~= Seq::new((region.end - region.start) as nat, |i: int| 0u8));
        let entropy = metric_entropy_bits(memory.as_slice());
        let h = Heap { mem_region: region, memory, big_endian, bitness, entropy };
        h
    }

    pub fn start(&self) -> (r: u64)
        ensures
            r == self.mem_region.start,
    {
        self.mem_region.start
    }

    pub fn end(&self) -> (r: u64)
        ensures
            r == self.mem_region.end,
    {
        self.mem_region.end
    }

    /// Writes `write_size` bytes of `val` at `addr` in the heap's byte order,
    /// then recomputes the entropy over the whole buffer.
    pub fn update(&mut self, val: u64, write_size: u64, addr: u64)
        requires
            old(self).wf(),
            old(self).holds_range(addr as int, write_size as int),
        ensures
            final(self).wf(),
            final(self).mem_region == old(self).mem_region,
            final(self).big_endian == old(self).big_endian,
            final(self).bitness == old(self).bitness,
            final(self).memory@ == old(self).written(val, write_size, addr),
    {
        let n = self.memory.len();
        let off = (addr - self.mem_region.start) as usize;
        let w = write_size as usize;
        assert(off + w <= n);
        if self.big_endian {
            store_be(&mut self.memory, off, w, val);
        } else {
            store_le(&mut self.memory, off, w, val);
        }
        self.entropy = metric_entropy_bits(self.memory.as_slice());
    }

    /// Moves the end of the heap to `new_end`: the buffer keeps its bytes, is
    /// zero-filled past its old length (or cut), and the entropy is recomputed.
    pub fn set_end(&mut self, new_end: u64)
        requires
            old(self).wf(),
            old(self).mem_region.start <= new_end,
            new_end - old(self).mem_region.start <= usize::MAX,
        ensures
            final(self).wf(),
            final(self).mem_region.start == old(self).mem_region.start,
            final(self).mem_region.end == new_end,
            final(self).big_endian == old(self).big_endian,
            final(self).bitness == old(self).bitness,
            final(self).memory@ == resized(
                old(self).memory@,
                (new_end - old(self).mem_region.start) as nat,
            ),
    {
        let ghost before = self.memory@;
        let len = (new_end - self.mem_region.start) as usize;
        self.mem_region.end = new_end;
        self.memory.resize(len, 0u8);
        assert(self.memory@ =~= resized(before, len as nat));
        self.entropy = metric_entropy_bits(self.memory.as_slice());
    }

    /// The dump that a heap with this format shows for its buffer.
    pub open spec fn dump_spec(&self) -> Seq<char> {
        dump_text(
            self.memory@,
            self.mem_region.start as nat,
            (self.bitness / 8) as nat,
            self.big_endian,
            self.memory@.len() / 16,
        )
    }

    /// Renders the buffer as lines of 16 bytes, each prefixed with its
    /// address and grouped in words of `bitness / 8` bytes. Big-endian bytes
    /// are shown in order; little-endian words are shown most significant
    /// byte first, as a debugger shows them.
    pub fn hexdump(&self) -> (r: String)
        requires
            self.wf(),
            self.bitness / 8 > 0,
            !self.big_endian ==> word_bytes_ok((self.bitness / 8) as nat),
        ensures
            r@ == self.dump_spec(),
    {
        let start = self.mem_region.start;
        let word: usize = (self.bitness / 8) as usize;
        let width: usize = if word == 8 { 16 } else { 8 };
        let len = self.memory.len();
        let lines = len / 16;
        let mut dump = String::new();
        let mut i: usize = 0;
        while i < lines
            invariant
                self.wf(),
                word == (self.bitness / 8) as nat,
                word > 0,
                !self.big_endian ==> word_bytes_ok(word as nat),
                width == (if word == 8 { 16usize } else { 8usize }),
                len == self.memory@.len(),
                lines == len / 16,
                start == self.mem_region.start,
                i <= lines,
                dump@ == dump_text(self.memory@, start as nat, word as nat, self.big_endian, i as nat),
            decreases lines - i,
        {
            assert(16 * i + 16 <= len) by (nonlinear_arith)
                requires
                    i < lines,
                    lines == len / 16,
            ;
            let addr = start + 16 * (i as u64);
            let ghost before = dump@;
            proof {
                reveal_strlit("0x");
                reveal_strlit(":");
                reveal_strlit(" ");
                reveal_strlit("\n");
            }
            dump.append("0x");
            let digits = hex_digit_count(addr);
            push_hex(&mut dump, addr, if digits > width { digits } else { width });
            dump.append(":");
            let ghost head = dump@;
            let mut j: usize = 0;
            while j < 16
                invariant
                    self.wf(),
                    word == (self.bitness / 8) as nat,
                    word > 0,
                    !self.big_endian ==> word_bytes_ok(word as nat),
                    len == self.memory@.len(),
                    16 * i + 16 <= len,
                    j <= 16,
                    dump@ == head + dump_bytes(self.memory@, word as nat, self.big_endian, i as nat, j as nat),
                decreases 16 - j,
            {
                if j % word == 0 {
                    dump.append(" ");
                }
                let idx: usize = if self.big_endian {
                    i * 16 + j
                } else {
                    assert((j / word) * word + (word - 1 - j % word) < 16) by {
                        if word == 1 {
                        } else if word == 2 {
                        } else if word == 4 {
                        } else if word == 8 {
                        } else {
                        }
                    }
                    i * 16 + (j / word) * word + (word - 1 - j % word)
                };
                push_hex(&mut dump, self.memory[idx] as u64, 2);
                j = j + 1;
            }
            dump.append("\n");
            proof {
                assert(dump@ =~= before + dump_line(self.memory@, start as nat, word as nat, self.big_endian, i as nat));
            }
            i = i + 1;
        }
        dump
    }
}

/// A write of `size` bytes of `val` into the heap reads back, as `size`
/// bytes at the written address in the heap's byte order, as `val` itself
/// (when `val` fits in `size` bytes).
pub proof fn lemma_write_reads_back(h: Heap, val: u64, size: u64, addr: u64)
    requires
        h.wf(),
        h.holds_range(addr as int, size as int),
        (val as nat) < pow256(size as nat),
    ensures
        ({
            let off = addr - h.mem_region.start;
            decode(h.written(val, size, addr).subrange(off, off + size), h.big_endian) == val
        }),
{
    let off = addr - h.mem_region.start;
    let b = encode(val as nat, size as nat, h.big_endian);
    assert(h.written(val, size, addr).subrange(off, off + size) =~= b);
    lemma_encode_decode(val as nat, size as nat, h.big_endian);
}

/// The entropy of a well-formed heap is a function of its bytes alone: two
/// heaps with the same contents have the same entropy, however they got there.
pub proof fn lemma_entropy_of_contents(h1: Heap, h2: Heap)
    requires
        h1.wf(),
        h2.wf(),
        h1.memory@ == h2.memory@,
    ensures
        h1.entropy == h2.entropy,
{
}

/// Two writes to disjoint ranges leave the same bytes, and so the same
/// entropy, in either order.
pub proof fn lemma_disjoint_writes_commute(mem: Seq<u8>, off1: int, b1: Seq<u8>, off2: int, b2: Seq<u8>)
    requires
        off1 + b1.len() <= off2 || off2 + b2.len() <= off1,
    ensures
        overwrite(overwrite(mem, off1, b1), off2, b2) == overwrite(overwrite(mem, off2, b2), off1, b1),
        metric_entropy_of(overwrite(overwrite(mem, off1, b1), off2, b2)) == metric_entropy_of(
            overwrite(overwrite(mem, off2, b2), off1, b1),
        ),
{
    assert(overwrite(overwrite(mem, off1, b1), off2, b2) =~= overwrite(overwrite(mem, off2, b2), off1, b1));
}

} // verus!
