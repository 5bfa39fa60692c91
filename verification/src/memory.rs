//! GameCube main memory (24 MiB) as seen through the CPU's address map.
use vstd::prelude::*;

verus! {

/// Size of main memory in bytes.
pub const RAM_SIZE: usize = 0x0180_0000;

/// Why a memory access failed.
#[derive(Clone, Copy, Debug, PartialEq, Eq, Structural)]
pub enum MemoryError {
    /// The access does not lie wholly inside main memory.
    OutOfRange(u32),
}

/// Physical offset of a CPU address: the cached (0x8...) and uncached
/// (0xC...) mirrors map onto physical address 0; lower addresses are physical.
pub open spec fn physical(addr: u32) -> nat {
    if addr >= 0x8000_0000 { (addr as nat) % 0x4000_0000 } else { addr as nat }
}

/// Whether `len` bytes starting at `addr` lie inside main memory.
pub open spec fn in_ram(addr: u32, len: nat) -> bool {
    physical(addr) + len <= RAM_SIZE
}

/// Big-endian value of `bytes[at..at + n]`.
pub open spec fn be_value(bytes: Seq<u8>, at: int, n: nat) -> nat
    decreases n,
{
    if n == 0 { 0 } else { be_value(bytes, at, (n - 1) as nat) * 256 + bytes[at + n - 1] as nat }
}

/// Big-endian bytes of the `n`-byte value `v`.
pub open spec fn be_bytes(v: nat, n: nat) -> Seq<u8>
    decreases n,
{
    if n == 0 { seq![] } else { be_bytes(v / 256, (n - 1) as nat).push((v % 256) as u8) }
}

/// Main memory.
pub struct MemoryManager {
    ram: Vec<u8>,
}

impl View for MemoryManager {
    type V = Seq<u8>;

    closed spec fn view(&self) -> Seq<u8> {
        self.ram@
    }
}

fn physical_exec(addr: u32) -> (p: usize)
    ensures
        p == physical(addr),
{
    if addr >= 0x8000_0000 { (addr % 0x4000_0000) as usize } else { addr as usize }
}

impl MemoryManager {
    /// Memory of `RAM_SIZE` zero bytes.
    pub fn new() -> (m: Self)
        ensures
            m.wf(),
            m@ == Seq::new(RAM_SIZE as nat, |i: int| 0u8),
    {
        let ram = vec![0u8; RAM_SIZE];
        assert(ram@ =~= Seq::new(RAM_SIZE as nat, |i: int| 0u8));
        MemoryManager { ram }
    }

    /// Main memory always holds `RAM_SIZE` bytes.
    pub closed spec fn wf(&self) -> bool {
        self.ram@.len() == RAM_SIZE
    }

    /// The byte at `addr`.
    pub fn read_u8(&self, addr: u32) -> (r: Result<u8, MemoryError>)
        requires
            self.wf(),
        ensures
            match r {
                Ok(b) => in_ram(addr, 1) && b == self@[physical(addr) as int],
                Err(e) => !in_ram(addr, 1) && e == MemoryError::OutOfRange(addr),
            },
    {
        let p = physical_exec(addr);
        if p < RAM_SIZE { Ok(self.ram[p]) } else { Err(MemoryError::OutOfRange(addr)) }
    }

    fn read_be(&self, addr: u32, n: usize) -> (r: Result<u64, MemoryError>)
        requires
            self.wf(),
            n <= 8,
        ensures
            match r {
                Ok(v) => in_ram(addr, n as nat) && v == be_value(self@, physical(addr) as int, n as nat),
                Err(e) => !in_ram(addr, n as nat) && e == MemoryError::OutOfRange(addr),
            },
    {
        let p = physical_exec(addr);
        if p > RAM_SIZE - n {
            return Err(MemoryError::OutOfRange(addr));
        }
        let mut v: u64 = 0;
        let mut i: usize = 0;
        while i < n
            invariant
                self.wf(),
                n <= 8,
                i <= n,
                p + n <= RAM_SIZE,
                p == physical(addr),
                v == be_value(self@, p as int, i as nat),
                v < pow256(i as nat),
            decreases n - i,
        {
            proof {
                lemma_pow256_step(i as nat);
                lemma_pow256_mono((i + 1) as nat, 8);
            }
            let b = self.ram[p + i];
            assert(v * 256 + b < pow256((i + 1) as nat)) by (nonlinear_arith)
                requires
                    v < pow256(i as nat),
                    pow256((i + 1) as nat) == pow256(i as nat) * 256,
                    b < 256,
            ;
            assert(pow256((i + 1) as nat) <= pow256(8));
            assert(pow256(8) == 0x1_0000_0000_0000_0000) by {
                reveal_with_fuel(pow256, 9);
            }
            v = v * 256 + b as u64;
            i = i + 1;
        }
        Ok(v)
    }

    /// The big-endian word at `addr`.
    pub fn read_u32(&self, addr: u32) -> (r: Result<u32, MemoryError>)
        requires
            self.wf(),
        ensures
            match r {
                Ok(v) => in_ram(addr, 4) && v as nat == be_value(self@, physical(addr) as int, 4),
                Err(e) => !in_ram(addr, 4) && e == MemoryError::OutOfRange(addr),
            },
    {
        match self.read_be(addr, 4) {
            Ok(v) => {
                proof {
                    lemma_be_value_bound(self@, physical(addr) as int, 4);
                    assert(pow256(4) == 0x1_0000_0000) by {
                        lemma_pow256_step(0);
                        lemma_pow256_step(1);
                        lemma_pow256_step(2);
                        lemma_pow256_step(3);
                    }
                }
                Ok(v as u32)
            },
            Err(e) => Err(e),
        }
    }

    /// The big-endian doubleword at `addr`.
    pub fn read_u64(&self, addr: u32) -> (r: Result<u64, MemoryError>)
        requires
            self.wf(),
        ensures
            match r {
                Ok(v) => in_ram(addr, 8) && v as nat == be_value(self@, physical(addr) as int, 8),
                Err(e) => !in_ram(addr, 8) && e == MemoryError::OutOfRange(addr),
            },
    {
        self.read_be(addr, 8)
    }

    /// Copies `data` to memory starting at `addr`.
    pub fn write_bytes(&mut self, addr: u32, data: &[u8]) -> (r: Result<(), MemoryError>)
        requires
            old(self).wf(),
        ensures
            final(self).wf(),
            match r {
                Ok(()) => in_ram(addr, data@.len()) && final(self)@ == old(self)@.take(physical(addr) as int)
                    + data@ + old(self)@.skip((physical(addr) + data@.len()) as int),
                Err(e) => !in_ram(addr, data@.len()) && final(self)@ == old(self)@ && e == MemoryError::OutOfRange(addr),
            },
    {
        let p = physical_exec(addr);
        if p > RAM_SIZE || data.len() > RAM_SIZE - p {
            return Err(MemoryError::OutOfRange(addr));
        }
        let ghost before = self.ram@;
        for i in 0..data.len()
            invariant
                p + data@.len() <= RAM_SIZE,
                self.ram@.len() == RAM_SIZE,
                before.len() == RAM_SIZE,
                self.ram@ == before.take(p as int) + data@.take(i as int) + before.skip(p + i),
        {
            self.ram.set(p + i, data[i]);
            assert(self.ram@ =~= before.take(p as int) + data@.take(i + 1) + before.skip(p + i + 1));
        }
        assert(data@.take(data@.len() as int) =~= data@);
        Ok(())
    }

    /// Stores `value` big-endian at `addr`.
    pub fn write_u32(&mut self, addr: u32, value: u32) -> (r: Result<(), MemoryError>)
        requires
            old(self).wf(),
        ensures
            final(self).wf(),
            match r {
                Ok(()) => in_ram(addr, 4) && final(self)@ == old(self)@.take(physical(addr) as int)
                    + be_bytes(value as nat, 4) + old(self)@.skip((physical(addr) + 4) as int),
                Err(e) => !in_ram(addr, 4) && final(self)@ == old(self)@ && e == MemoryError::OutOfRange(addr),
            },
    {
        let bytes = be_bytes_exec(value as u64, 4);
        self.write_bytes(addr, bytes.as_slice())
    }

    /// Stores `value` big-endian at `addr`.
    pub fn write_u64(&mut self, addr: u32, value: u64) -> (r: Result<(), MemoryError>)
        requires
            old(self).wf(),
        ensures
            final(self).wf(),
            match r {
                Ok(()) => in_ram(addr, 8) && final(self)@ == old(self)@.take(physical(addr) as int)
                    + be_bytes(value as nat, 8) + old(self)@.skip((physical(addr) + 8) as int),
                Err(e) => !in_ram(addr, 8) && final(self)@ == old(self)@ && e == MemoryError::OutOfRange(addr),
            },
    {
        let bytes = be_bytes_exec(value, 8);
        self.write_bytes(addr, bytes.as_slice())
    }

    /// Copies a program section into memory at its load address.
    pub fn load_section(&mut self, addr: u32, data: &[u8]) -> (r: Result<(), MemoryError>)
        requires
            old(self).wf(),
        ensures
            final(self).wf(),
            match r {
                Ok(()) => in_ram(addr, data@.len()) && final(self)@ == old(self)@.take(physical(addr) as int)
                    + data@ + old(self)@.skip((physical(addr) + data@.len()) as int),
                Err(e) => !in_ram(addr, data@.len()) && final(self)@ == old(self)@ && e == MemoryError::OutOfRange(addr),
            },
    {
        self.write_bytes(addr, data)
    }
}

/// `256^n`.
pub open spec fn pow256(n: nat) -> nat
    decreases n,
{
    if n == 0 { 1 } else { 256 * pow256((n - 1) as nat) }
}

proof fn lemma_pow256_step(n: nat)
    ensures
        pow256(n + 1) == pow256(n) * 256,
{
}

proof fn lemma_pow256_mono(a: nat, b: nat)
    requires
        a <= b,
    ensures
        pow256(a) <= pow256(b),
    decreases b,
{
    if a < b {
        lemma_pow256_mono(a, (b - 1) as nat);
    }
}

proof fn lemma_be_value_bound(bytes: Seq<u8>, at: int, n: nat)
    requires
        0 <= at,
        at + n <= bytes.len(),
    ensures
        be_value(bytes, at, n) < pow256(n),
    decreases n,
{
    if n > 0 {
        lemma_be_value_bound(bytes, at, (n - 1) as nat);
        let prev = be_value(bytes, at, (n - 1) as nat);
        assert(prev * 256 + (bytes[at + n - 1] as nat) < pow256(n)) by (nonlinear_arith)
            requires
                prev < pow256((n - 1) as nat),
                pow256(n) == 256 * pow256((n - 1) as nat),
                bytes[at + n - 1] < 256,
        ;
    }
}

/// `be_bytes(v, n)` holds `n` bytes.
pub proof fn lemma_be_bytes_len(v: nat, n: nat)
    ensures
        be_bytes(v, n).len() == n,
    decreases n,
{
    if n > 0 {
        lemma_be_bytes_len(v / 256, (n - 1) as nat);
    }
}

/// Big-endian bytes of the `n`-byte value `v`.
pub fn be_bytes_exec(v: u64, n: usize) -> (r: Vec<u8>)
    ensures
        r@ == be_bytes(v as nat, n as nat),
        r@.len() == n,
    decreases n,
{
    if n == 0 {
        Vec::new()
    } else {
        let mut r = be_bytes_exec(v / 256, n - 1);
        r.push((v % 256) as u8);
        r
    }
}


/// Reading `n` big-endian bytes that `be_bytes` wrote gives the value back, modulo `256^n`.
proof fn lemma_be_value_of_bytes(s: Seq<u8>, at: int, v: nat, n: nat)
    requires
        0 <= at,
        at + n <= s.len(),
        s.subrange(at, at + n) == be_bytes(v, n),
    ensures
        be_value(s, at, n) == v % pow256(n),
    decreases n,
{
    if n > 0 {
        let k = (n - 1) as nat;
        lemma_be_bytes_len(v / 256, k);
        assert(s.subrange(at, at + k) =~= s.subrange(at, at + n).drop_last());
        assert(be_bytes(v, n).drop_last() =~= be_bytes(v / 256, k));
        assert(s[at + k] == s.subrange(at, at + n)[k as int]);
        lemma_be_value_of_bytes(s, at, v / 256, k);
        lemma_pow256_positive(k);
        vstd::arithmetic::div_mod::lemma_breakdown(v as int, 256, pow256(k) as int);
    }
}

proof fn lemma_pow256_positive(n: nat)
    ensures
        pow256(n) > 0,
    decreases n,
{
    if n > 0 {
        lemma_pow256_positive((n - 1) as nat);
    }
}

/// A word stored with `write_u32` at `addr` reads back with `read_u32`.
pub proof fn lemma_write_then_read_u32(m: Seq<u8>, addr: u32, v: u32)
    requires
        m.len() == RAM_SIZE,
        in_ram(addr, 4),
    ensures
        be_value(m.take(physical(addr) as int) + be_bytes(v as nat, 4) + m.skip((physical(addr) + 4) as int), physical(addr) as int, 4) == v,
{
    let p = physical(addr) as int;
    let w = m.take(p) + be_bytes(v as nat, 4) + m.skip(p + 4);
    lemma_be_bytes_len(v as nat, 4);
    assert(w.subrange(p, p + 4) =~= be_bytes(v as nat, 4));
    lemma_be_value_of_bytes(w, p, v as nat, 4);
    assert(pow256(4) == 0x1_0000_0000) by {
        reveal_with_fuel(pow256, 5);
    }
    vstd::arithmetic::div_mod::lemma_small_mod(v as nat, pow256(4));
}

} // verus!
