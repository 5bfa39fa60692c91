//! GameCube OS services: arena allocation, interrupt masking, the time base,
//! and dispatch of SDK calls made by recompiled code.
use vstd::prelude::*;
use vstd::string::*;
use crate::context::{CpuContext, GPR_COUNT};
use crate::dvd::{DvdError, VirtualFilesystem, GcfsError, ReadPlan, VfsView, copy_outcome, read_plan};
use crate::memory::{MemoryManager, be_bytes, be_value, in_ram, physical, RAM_SIZE};
use crate::text::{from_utf8_lossy, push_str, push_string, lossy_text};

verus! {

/// Where the low end of the arena starts after a reset.
pub const ARENA_LO_DEFAULT: u32 = 0x8040_0000;
/// Where the high end of the arena starts after a reset.
pub const ARENA_HI_DEFAULT: u32 = 0x8170_0000;

/// `x` rounded up to a multiple of `a` (unchanged for `a == 0`), modulo 2^32.
pub open spec fn round_up(x: u32, a: u32) -> u32 {
    if a == 0 { x } else { ((((x as int + a - 1) / a as int) * a) % 0x1_0000_0000) as u32 }
}

/// `x` rounded down to a multiple of `a` (unchanged for `a == 0`).
pub open spec fn round_down(x: u32, a: u32) -> u32 {
    if a == 0 { x } else { (x - x % a) as u32 }
}

fn round_up_exec(x: u32, a: u32) -> (r: u32)
    ensures
        r == round_up(x, a),
{
    if a == 0 {
        x
    } else {
        let t = (x as u64 + a as u64 - 1) / (a as u64);
        assert(t * a <= 0x2_0000_0000) by (nonlinear_arith)
            requires
                t as int == (x as int + a as int - 1) / (a as int),
                a > 0,
                x <= u32::MAX,
                a <= u32::MAX,
        ;
        ((t * (a as u64)) % 0x1_0000_0000) as u32
    }
}

fn round_down_exec(x: u32, a: u32) -> (r: u32)
    ensures
        r == round_down(x, a),
{
    if a == 0 {
        x
    } else {
        assert(x % a <= x) by (nonlinear_arith)
            requires
                a > 0,
        ;
        x - x % a
    }
}

/// The OS arena: memory handed out from its low end upwards and from its high end downwards.
pub struct ArenaAllocator {
    pub lo: u32,
    pub hi: u32,
}

impl ArenaAllocator {
    /// An arena spanning the default range.
    pub fn new() -> (a: Self)
        ensures
            a.lo == ARENA_LO_DEFAULT && a.hi == ARENA_HI_DEFAULT,
    {
        ArenaAllocator { lo: ARENA_LO_DEFAULT, hi: ARENA_HI_DEFAULT }
    }

    /// Back to the default range.
    pub fn reset(&mut self)
        ensures
            final(self).lo == ARENA_LO_DEFAULT && final(self).hi == ARENA_HI_DEFAULT,
    {
        self.lo = ARENA_LO_DEFAULT;
        self.hi = ARENA_HI_DEFAULT;
    }

    /// `OSAllocFromArenaLo`: the low cursor rounded up to `align` is returned,
    /// and the cursor moves past `size` bytes, rounded up again.
    pub fn alloc_lo(&mut self, size: u32, align: u32) -> (p: u32)
        ensures
            p == round_up(old(self).lo, align),
            final(self).lo == round_up(p.wrapping_add(size), align),
            final(self).hi == old(self).hi,
    {
        let p = round_up_exec(self.lo, align);
        self.lo = round_up_exec(p.wrapping_add(size), align);
        p
    }

    /// `OSAllocFromArenaHi`: the high cursor rounded down to `align`, less
    /// `size`, rounded down again, becomes the cursor and is returned.
    pub fn alloc_hi(&mut self, size: u32, align: u32) -> (p: u32)
        ensures
            p == round_down(round_down(old(self).hi, align).wrapping_sub(size), align),
            final(self).hi == p,
            final(self).lo == old(self).lo,
    {
        let h = round_down_exec(self.hi, align);
        let p = round_down_exec(h.wrapping_sub(size), align);
        self.hi = p;
        p
    }
}

/// The interrupt controller's master enable.
pub struct InterruptSystem {
    pub master_enable: bool,
}

impl InterruptSystem {
    /// Interrupts start disabled.
    pub fn new() -> (i: Self)
        ensures
            !i.master_enable,
    {
        InterruptSystem { master_enable: false }
    }

    /// Whether interrupts are enabled.
    pub fn enabled(&self) -> (b: bool)
        ensures
            b == self.master_enable,
    {
        self.master_enable
    }

    /// Disables every interrupt.
    pub fn disable_all(&mut self)
        ensures
            !final(self).master_enable,
    {
        self.master_enable = false;
    }

    /// Sets the master enable.
    pub fn set_master_enable(&mut self, on: bool)
        ensures
            final(self).master_enable == on,
    {
        self.master_enable = on;
    }
}

/// `std::time::Instant`: a reading of the host's monotonic clock.
#[verifier::external_type_specification]
#[verifier::external_body]
pub struct ExInstant(std::time::Instant);

/// Calls `std::time::Instant::now`; the reading depends on the time of the call.
#[verifier::external_body]
fn instant_now() -> std::time::Instant {
    std::time::Instant::now()
}

/// Calls `std::time::Instant::elapsed`, in nanoseconds; the value depends
/// on the time of the call.
#[verifier::external_body]
fn elapsed_nanos(start: &std::time::Instant) -> u128 {
    start.elapsed().as_nanos()
}

/// Time-base ticks (40.5 MHz, a quarter of the 162 MHz bus clock) in `nanos` nanoseconds.
pub open spec fn ticks_of(nanos: u64) -> u64 {
    ((nanos as nat * 81) / 2000) as u64
}

/// Time-base ticks in `nanos` nanoseconds.
pub fn ticks_from_nanos(nanos: u64) -> (t: u64)
    ensures
        t == ticks_of(nanos),
{
    ((nanos as u128 * 81) / 2000) as u64
}

/// `nanos` saturated to 64 bits.
pub open spec fn saturated(nanos: u128) -> u64 {
    if nanos > u64::MAX { u64::MAX } else { nanos as u64 }
}

/// Time-base ticks in `nanos` nanoseconds, the count saturated to 64 bits first.
pub fn ticks_since(nanos: u128) -> (t: u64)
    ensures
        t == ticks_of(saturated(nanos)),
        t <= ticks_of(u64::MAX),
{
    let n = if nanos > u64::MAX as u128 { u64::MAX } else { nanos as u64 };
    proof {
        vstd::arithmetic::div_mod::lemma_div_is_ordered(n as int * 81, u64::MAX as int * 81, 2000);
    }
    ticks_from_nanos(n)
}

/// The low 32 bits of a time-base value.
pub open spec fn low_word(t: u64) -> u32 {
    (t % 0x1_0000_0000) as u32
}

/// The high and low 32 bits of a time-base value.
pub open spec fn time_words_of(t: u64) -> (u32, u32) {
    ((t / 0x1_0000_0000) as u32, (t % 0x1_0000_0000) as u32)
}

/// Splits a time-base value into its high and low words.
pub fn time_words(t: u64) -> (r: (u32, u32))
    ensures
        r == time_words_of(t),
{
    ((t / 0x1_0000_0000) as u32, (t % 0x1_0000_0000) as u32)
}

/// The low 32 bits of the time base after `nanos` nanoseconds.
pub fn tick_since(nanos: u128) -> (r: u32)
    ensures
        r == low_word(ticks_of(saturated(nanos))),
{
    let t = ticks_since(nanos);
    (t % 0x1_0000_0000) as u32
}

/// The time base, counted from the last reset.
pub struct OsTimer {
    start: std::time::Instant,
}

impl OsTimer {
    /// A time base starting now.
    pub fn new() -> Self {
        OsTimer { start: instant_now() }
    }

    /// Restarts the time base at zero.
    pub fn reset(&mut self) {
        self.start = instant_now();
    }

    /// `OSGetTime`: ticks since the last reset.
    ///
    /// The elapsed time comes from the host clock, so only its bound is
    /// stated; [`ticks_since`] states the conversion.
    pub fn get_time(&self) -> (t: u64)
        ensures
            t <= ticks_of(u64::MAX),
    {
        ticks_since(elapsed_nanos(&self.start))
    }

    /// `OSGetTick`: the low 32 bits of the time base.
    ///
    /// The elapsed time comes from the host clock; [`tick_since`] states the
    /// conversion from it.
    pub fn get_tick(&self) -> (r: u32)
        ensures
            exists|t: u64| t <= ticks_of(u64::MAX) && r == #[trigger] low_word(t),
    {
        let nanos = elapsed_nanos(&self.start);
        let r = tick_since(nanos);
        proof {
            let t = ticks_of(saturated(nanos));
            vstd::arithmetic::div_mod::lemma_div_is_ordered(saturated(nanos) as int * 81, u64::MAX as int * 81, 2000);
            assert(t <= ticks_of(u64::MAX) && r == low_word(t));
        }
        r
    }
}

/// Console type of a retail GameCube (HW2).
pub const CONSOLE_RETAIL_HW2: u32 = 0x1000_0006;

/// OS state of the recompiled program.
pub struct OsState {
    pub arena: ArenaAllocator,
    pub timer: OsTimer,
    pub interrupts: InterruptSystem,
    pub console_type: u32,
    pub initialized: bool,
    pub dvd: Option<VirtualFilesystem>,
}

impl OsState {
    /// Well-formedness: a mounted filesystem is consistent.
    pub open spec fn wf(&self) -> bool {
        self.dvd matches Some(v) ==> v.wf()
    }

    /// A fresh OS: default arena, interrupts off, retail console, no disc.
    pub fn new() -> (os: Self)
        ensures
            os.wf(),
            os.arena.lo == ARENA_LO_DEFAULT && os.arena.hi == ARENA_HI_DEFAULT,
            !os.interrupts.master_enable,
            os.console_type == CONSOLE_RETAIL_HW2,
            !os.initialized,
            os.dvd is None,
    {
        OsState {
            arena: ArenaAllocator::new(),
            timer: OsTimer::new(),
            interrupts: InterruptSystem::new(),
            console_type: CONSOLE_RETAIL_HW2,
            initialized: false,
            dvd: None,
        }
    }

    /// Mounts the disc from an in-memory GCFS archive. An empty archive
    /// leaves the disc unmounted; a malformed one leaves the disc as it was
    /// and is reported back.
    pub fn init_dvd(&mut self, archive: Vec<u8>) -> (r: Result<(), GcfsError>)
        requires
            old(self).wf(),
        ensures
            final(self).wf(),
            archive@.len() == 0 ==> r is Ok && *final(self) == *old(self),
            archive@.len() > 0 ==> match r {
                Ok(()) => (final(self).dvd matches Some(v) && v@.archive == Some(archive@)
                    && crate::dvd::embedded_toc(archive@) == Ok::<Seq<crate::dvd::TocRecord>, GcfsError>(v@.toc))
                    && same_os(*final(self), *old(self)),
                Err(e) => crate::dvd::embedded_toc(archive@) == Err::<Seq<crate::dvd::TocRecord>, GcfsError>(e)
                    && *final(self) == *old(self),
            },
    {
        if archive.len() == 0 {
            return Ok(());
        }
        let ghost a = archive@;
        match VirtualFilesystem::new(archive) {
            Ok(vfs) => {
                self.dvd = Some(vfs);
                Ok(())
            },
            Err(e) => Err(e),
        }
    }

    /// Mounts the disc from an archive kept on disk, given its length, its
    /// 20-byte header and its bytes from the TOC offset to the end. A
    /// malformed archive leaves the disc as it was and is reported back.
    pub fn init_dvd_file(&mut self, archive_len: u64, header: &[u8], toc_data: &[u8]) -> (r: Result<(), GcfsError>)
        requires
            old(self).wf(),
        ensures
            final(self).wf(),
            match r {
                Ok(()) => final(self).dvd matches Some(v) && v@.archive is None && v@.archive_len == archive_len
                    && crate::dvd::external_toc(archive_len as nat, header@, toc_data@) == Ok::<Seq<crate::dvd::TocRecord>, GcfsError>(v@.toc)
                    && same_os(*final(self), *old(self)),
                Err(e) => crate::dvd::external_toc(archive_len as nat, header@, toc_data@) == Err::<Seq<crate::dvd::TocRecord>, GcfsError>(e)
                    && *final(self) == *old(self),
            },
    {
        match VirtualFilesystem::from_external(archive_len, header, toc_data) {
            Ok(vfs) => {
                self.dvd = Some(vfs);
                Ok(())
            },
            Err(e) => Err(e),
        }
    }
}

// ---------------------------------------------------------------- OS calls

/// Memory after the four OS globals `OSInit` stores: bus clock, CPU clock,
/// memory size and console type.
pub open spec fn os_globals(m: Seq<u8>, console: u32) -> Seq<u8> {
    let m1 = crate::dvd::written(m, 0x8000_00F8, be_bytes(162_000_000, 4));
    let m2 = crate::dvd::written(m1, 0x8000_00FC, be_bytes(486_000_000, 4));
    let m3 = crate::dvd::written(m2, 0x8000_0028, be_bytes(0x0180_0000, 4));
    crate::dvd::written(m3, 0x8000_00CC, be_bytes(console as nat, 4))
}

/// `OSInit`: resets the time base and the arena, disables interrupts, marks
/// the OS initialized and stores the OS globals in low memory.
pub fn os_init(os: &mut OsState, memory: &mut MemoryManager)
    requires
        old(memory).wf(),
    ensures
        final(memory).wf(),
        final(memory)@ == os_globals(old(memory)@, old(os).console_type),
        final(os).initialized,
        final(os).arena.lo == ARENA_LO_DEFAULT && final(os).arena.hi == ARENA_HI_DEFAULT,
        !final(os).interrupts.master_enable,
        final(os).console_type == old(os).console_type,
        final(os).dvd == old(os).dvd,
{
    os.timer.reset();
    os.interrupts.disable_all();
    os.arena.reset();
    os.initialized = true;
    proof {
        crate::memory::lemma_be_bytes_len(162_000_000, 4);
        crate::memory::lemma_be_bytes_len(486_000_000, 4);
        crate::memory::lemma_be_bytes_len(0x0180_0000, 4);
        crate::memory::lemma_be_bytes_len(os.console_type as nat, 4);
    }
    let r1 = memory.write_u32(0x8000_00F8, 162_000_000);
    assert(r1 is Ok);
    let r2 = memory.write_u32(0x8000_00FC, 486_000_000);
    assert(r2 is Ok);
    let r3 = memory.write_u32(0x8000_0028, 24 * 1024 * 1024);
    assert(r3 is Ok);
    let r4 = memory.write_u32(0x8000_00CC, os.console_type);
    assert(r4 is Ok);
}

/// `OSReport`: the log line for a debug message.
pub fn os_report(message: &str) -> (line: String)
    ensures
        line@ == "OSReport: "@ + message@,
{
    let mut line = String::new();
    push_str(&mut line, "OSReport: ");
    push_str(&mut line, message);
    assert(line@ =~= "OSReport: "@ + message@);
    line
}

/// `OSGetConsoleType`.
pub fn os_get_console_type(os: &OsState) -> (t: u32)
    ensures
        t == os.console_type,
{
    os.console_type
}

/// `OSDisableInterrupts`: disables interrupts and returns 1 when they were enabled, else 0.
pub fn os_disable_interrupts(os: &mut OsState) -> (prev: u32)
    ensures
        prev == if old(os).interrupts.master_enable { 1u32 } else { 0u32 },
        !final(os).interrupts.master_enable,
        final(os).arena == old(os).arena,
        final(os).console_type == old(os).console_type,
        final(os).initialized == old(os).initialized,
        final(os).dvd == old(os).dvd,
        final(os).timer == old(os).timer,
{
    let prev = if os.interrupts.enabled() { 1 } else { 0 };
    os.interrupts.set_master_enable(false);
    prev
}

/// `OSRestoreInterrupts`: enables interrupts exactly when `prev` is non-zero.
pub fn os_restore_interrupts(os: &mut OsState, prev: u32)
    ensures
        final(os).interrupts.master_enable == (prev != 0),
        final(os).arena == old(os).arena,
        final(os).console_type == old(os).console_type,
        final(os).initialized == old(os).initialized,
        final(os).dvd == old(os).dvd,
        final(os).timer == old(os).timer,
{
    os.interrupts.set_master_enable(prev != 0);
}

/// `OSAllocFromArenaLo`.
pub fn os_alloc_from_arena_lo(os: &mut OsState, size: u32, align: u32) -> (p: u32)
    ensures
        p == round_up(old(os).arena.lo, align),
        final(os).arena.lo == round_up(p.wrapping_add(size), align),
        final(os).arena.hi == old(os).arena.hi,
        final(os).interrupts == old(os).interrupts,
        final(os).console_type == old(os).console_type,
        final(os).initialized == old(os).initialized,
        final(os).dvd == old(os).dvd,
        final(os).timer == old(os).timer,
{
    os.arena.alloc_lo(size, align)
}

/// `OSAllocFromArenaHi`.
pub fn os_alloc_from_arena_hi(os: &mut OsState, size: u32, align: u32) -> (p: u32)
    ensures
        p == round_down(round_down(old(os).arena.hi, align).wrapping_sub(size), align),
        final(os).arena.hi == p,
        final(os).arena.lo == old(os).arena.lo,
        final(os).interrupts == old(os).interrupts,
        final(os).console_type == old(os).console_type,
        final(os).initialized == old(os).initialized,
        final(os).dvd == old(os).dvd,
        final(os).timer == old(os).timer,
{
    os.arena.alloc_hi(size, align)
}

/// `OSGetArenaLo`.
pub fn os_get_arena_lo(os: &OsState) -> (p: u32)
    ensures
        p == os.arena.lo,
{
    os.arena.lo
}

/// `OSGetArenaHi`.
pub fn os_get_arena_hi(os: &OsState) -> (p: u32)
    ensures
        p == os.arena.hi,
{
    os.arena.hi
}

/// `OSSetArenaLo`.
pub fn os_set_arena_lo(os: &mut OsState, addr: u32)
    ensures
        final(os).arena.lo == addr,
        final(os).arena.hi == old(os).arena.hi,
        final(os).interrupts == old(os).interrupts,
        final(os).console_type == old(os).console_type,
        final(os).initialized == old(os).initialized,
        final(os).dvd == old(os).dvd,
        final(os).timer == old(os).timer,
{
    os.arena.lo = addr;
}

/// `OSSetArenaHi`.
pub fn os_set_arena_hi(os: &mut OsState, addr: u32)
    ensures
        final(os).arena.hi == addr,
        final(os).arena.lo == old(os).arena.lo,
        final(os).interrupts == old(os).interrupts,
        final(os).console_type == old(os).console_type,
        final(os).initialized == old(os).initialized,
        final(os).dvd == old(os).dvd,
        final(os).timer == old(os).timer,
{
    os.arena.hi = addr;
}

/// Longest C string read from game memory, in bytes.
pub const C_STRING_LIMIT: usize = 4097;

/// Bytes of the NUL-terminated string at `addr`, having read `count` already:
/// reading stops at a NUL, at the end of memory, or after `C_STRING_LIMIT` bytes.
pub open spec fn c_string_bytes(mem: Seq<u8>, addr: u32, count: nat) -> Seq<u8>
    decreases C_STRING_LIMIT - count,
{
    if count >= C_STRING_LIMIT || !in_ram(addr, 1) || mem[physical(addr) as int] == 0 {
        seq![]
    } else {
        seq![mem[physical(addr) as int]] + c_string_bytes(mem, addr.wrapping_add(1), count + 1)
    }
}

/// Reads the NUL-terminated string at `addr` (at most `C_STRING_LIMIT`
/// bytes), decoding invalid UTF-8 lossily.
pub fn read_c_string(memory: &MemoryManager, addr: u32) -> (s: String)
    requires
        memory.wf(),
    ensures
        s@ == lossy_text(c_string_bytes(memory@, addr, 0)),
{
    let mut result: Vec<u8> = Vec::new();
    let mut offset = addr;
    loop
        invariant_except_break
            memory.wf(),
            result@.len() < C_STRING_LIMIT,
            c_string_bytes(memory@, addr, 0) == result@ + c_string_bytes(memory@, offset, result@.len()),
        ensures
            c_string_bytes(memory@, addr, 0) == result@,
        decreases C_STRING_LIMIT - result@.len(),
    {
        match memory.read_u8(offset) {
            Ok(b) => {
                if b == 0 {
                    assert(c_string_bytes(memory@, offset, result@.len()) =~= Seq::<u8>::empty());
                    assert(result@ + Seq::<u8>::empty() =~= result@);
                    break;
                }
                let ghost before = result@;
                let ghost old_off = offset;
                result.push(b);
                offset = offset.wrapping_add(1);
                assert(c_string_bytes(memory@, old_off, before.len()) == seq![b] + c_string_bytes(memory@, offset, before.len() + 1));
                assert(before + (seq![b] + c_string_bytes(memory@, offset, result@.len())) =~= result@ + c_string_bytes(memory@, offset, result@.len()));
                if result.len() >= C_STRING_LIMIT {
                    assert(c_string_bytes(memory@, offset, result@.len()) =~= Seq::<u8>::empty());
                    assert(result@ + Seq::<u8>::empty() =~= result@);
                    break;
                }
            },
            Err(_) => {
                assert(c_string_bytes(memory@, offset, result@.len()) =~= Seq::<u8>::empty());
                assert(result@ + Seq::<u8>::empty() =~= result@);
                break;
            },
        }
    }
    from_utf8_lossy(result.as_slice())
}

// ---------------------------------------------------------------- SDK dispatch

/// The SDK functions the runtime implements.
#[derive(Clone, Copy, Debug, PartialEq, Eq, Structural)]
pub enum SdkCall {
    OsInit,
    OsReport,
    OsFatal,
    OsGetConsoleType,
    OsDisableInterrupts,
    OsRestoreInterrupts,
    OsAllocFromArenaLo,
    OsAllocFromArenaHi,
    OsGetArenaLo,
    OsGetArenaHi,
    OsSetArenaLo,
    OsSetArenaHi,
    OsGetTick,
    OsGetTime,
    DvdInit,
    DvdOpen,
    DvdClose,
    DvdRead,
    DvdGetLength,
    Unknown,
}

/// The SDK function a symbol names.
pub open spec fn sdk_call(name: Seq<char>) -> SdkCall {
    if name == "OSInit"@ { SdkCall::OsInit }
    else if name == "OSReport"@ { SdkCall::OsReport }
    else if name == "OSFatal"@ { SdkCall::OsFatal }
    else if name == "OSGetConsoleType"@ { SdkCall::OsGetConsoleType }
    else if name == "OSDisableInterrupts"@ { SdkCall::OsDisableInterrupts }
    else if name == "OSRestoreInterrupts"@ { SdkCall::OsRestoreInterrupts }
    else if name == "OSAllocFromArenaLo"@ { SdkCall::OsAllocFromArenaLo }
    else if name == "OSAllocFromArenaHi"@ { SdkCall::OsAllocFromArenaHi }
    else if name == "OSGetArenaLo"@ { SdkCall::OsGetArenaLo }
    else if name == "OSGetArenaHi"@ { SdkCall::OsGetArenaHi }
    else if name == "OSSetArenaLo"@ { SdkCall::OsSetArenaLo }
    else if name == "OSSetArenaHi"@ { SdkCall::OsSetArenaHi }
    else if name == "OSGetTick"@ { SdkCall::OsGetTick }
    else if name == "OSGetTime"@ { SdkCall::OsGetTime }
    else if name == "DVDInit"@ { SdkCall::DvdInit }
    else if name == "DVDOpen"@ { SdkCall::DvdOpen }
    else if name == "DVDClose"@ { SdkCall::DvdClose }
    else if name == "DVDRead"@ || name == "DVDReadPrio"@ { SdkCall::DvdRead }
    else if name == "DVDGetLength"@ { SdkCall::DvdGetLength }
    else { SdkCall::Unknown }
}

/// The SDK function a symbol names.
pub fn classify_sdk_call(name: &str) -> (c: SdkCall)
    ensures
        c == sdk_call(name@),
{
    if crate::text::str_eq(name, "OSInit") { SdkCall::OsInit }
    else if crate::text::str_eq(name, "OSReport") { SdkCall::OsReport }
    else if crate::text::str_eq(name, "OSFatal") { SdkCall::OsFatal }
    else if crate::text::str_eq(name, "OSGetConsoleType") { SdkCall::OsGetConsoleType }
    else if crate::text::str_eq(name, "OSDisableInterrupts") { SdkCall::OsDisableInterrupts }
    else if crate::text::str_eq(name, "OSRestoreInterrupts") { SdkCall::OsRestoreInterrupts }
    else if crate::text::str_eq(name, "OSAllocFromArenaLo") { SdkCall::OsAllocFromArenaLo }
    else if crate::text::str_eq(name, "OSAllocFromArenaHi") { SdkCall::OsAllocFromArenaHi }
    else if crate::text::str_eq(name, "OSGetArenaLo") { SdkCall::OsGetArenaLo }
    else if crate::text::str_eq(name, "OSGetArenaHi") { SdkCall::OsGetArenaHi }
    else if crate::text::str_eq(name, "OSSetArenaLo") { SdkCall::OsSetArenaLo }
    else if crate::text::str_eq(name, "OSSetArenaHi") { SdkCall::OsSetArenaHi }
    else if crate::text::str_eq(name, "OSGetTick") { SdkCall::OsGetTick }
    else if crate::text::str_eq(name, "OSGetTime") { SdkCall::OsGetTime }
    else if crate::text::str_eq(name, "DVDInit") { SdkCall::DvdInit }
    else if crate::text::str_eq(name, "DVDOpen") { SdkCall::DvdOpen }
    else if crate::text::str_eq(name, "DVDClose") { SdkCall::DvdClose }
    else if crate::text::str_eq(name, "DVDRead") || crate::text::str_eq(name, "DVDReadPrio") { SdkCall::DvdRead }
    else if crate::text::str_eq(name, "DVDGetLength") { SdkCall::DvdGetLength }
    else { SdkCall::Unknown }
}

/// What handling an SDK call asks of the host.
#[derive(Debug, PartialEq, Eq)]
pub enum SdkDispatch {
    /// The symbol is not an SDK function the runtime implements.
    NotHandled,
    /// Handled; nothing more to do.
    Handled,
    /// Handled; the host logs this line.
    Report(String),
    /// `OSFatal` with this message: the host logs it and exits with status 1.
    Fatal(String),
    /// A read needs bytes of the external archive: the host supplies them with
    /// `VirtualFilesystem::cache_compressed` and dispatches the call again.
    NeedArchiveRange { path: String, offset: u64, length: u64 },
}

/// The word at `addr`, or 0 when it is outside memory.
pub open spec fn word_or_zero(m: Seq<u8>, addr: u32) -> u32 {
    if in_ram(addr, 4) { be_value(m, physical(addr) as int, 4) as u32 } else { 0 }
}

/// Memory after storing `v` at `addr` when that is inside memory.
pub open spec fn store_word(m: Seq<u8>, addr: u32, v: u32) -> Seq<u8> {
    if in_ram(addr, 4) { crate::dvd::written(m, addr, be_bytes(v as nat, 4)) } else { m }
}

/// The handle `dvd_open` gives for `path` (0 when the open fails).
pub open spec fn open_handle(v: VfsView, path: Seq<char>) -> u32 {
    if crate::dvd::open_target(v, path) is Some && v.next_handle < u32::MAX { v.next_handle } else { 0 }
}

/// The filesystem after `dvd_open` of `path`.
pub open spec fn after_open(v: VfsView, path: Seq<char>) -> VfsView {
    match crate::dvd::open_target(v, path) {
        Some((p, len, loose)) => if v.next_handle < u32::MAX {
            VfsView {
                open: v.open.push(crate::dvd::OpenRecord { handle: v.next_handle, path: p, length: len, loose }),
                next_handle: (v.next_handle + 1) as u32,
                ..v
            }
        } else {
            v
        },
        None => v,
    }
}

/// The filesystem after `dvd_close` of handle `h`.
pub open spec fn after_close(v: VfsView, h: u32) -> VfsView {
    match crate::dvd::open_index(v.open, h) {
        Some(i) => VfsView { open: v.open.remove(i), ..v },
        None => v,
    }
}

/// Value `DVDRead` leaves in r3 when the read fails.
pub const DVD_READ_FAILED: u32 = 0xFFFF_FFFF;

/// The OS state apart from the mounted disc.
pub open spec fn same_os(a: OsState, b: OsState) -> bool {
    &&& a.timer == b.timer
    &&& a.arena == b.arena
    &&& a.interrupts == b.interrupts
    &&& a.console_type == b.console_type
    &&& a.initialized == b.initialized
}

/// The special registers (link, count, condition, fixed-point exception
/// and program counter) of two contexts agree.
pub open spec fn same_special(a: CpuContext, b: CpuContext) -> bool {
    &&& a.lr == b.lr
    &&& a.ctr == b.ctr
    &&& a.cr == b.cr
    &&& a.xer == b.xer
    &&& a.pc == b.pc
}

/// Whether a call of `call` with `r3` as its first argument is admitted: the
/// DVD calls compute addresses inside the file-info record at `r3`.
pub open spec fn dispatch_admits(call: SdkCall, r3: u32) -> bool {
    &&& (call == SdkCall::DvdOpen || call == SdkCall::DvdClose || call == SdkCall::DvdRead) ==> r3 <= u32::MAX - 0x0C
    &&& call == SdkCall::DvdGetLength ==> r3 <= u32::MAX - 0x08
}

/// Handles a call of the SDK function `name` from recompiled code: arguments
/// come from r3..r6 and results go to r3 (and r4). Logging and process exit
/// are left to the host through the returned value.
#[verifier::rlimit(80)]
pub fn dispatch_sdk_call(
    name: &str,
    ctx: &mut CpuContext,
    memory: &mut MemoryManager,
    os: &mut OsState,
) -> (r: SdkDispatch)
    requires
        old(ctx).wf(),
        old(memory).wf(),
        old(os).wf(),
        dispatch_admits(sdk_call(name@), old(ctx).regs()[3]),
    ensures
        final(ctx).wf(),
        final(memory).wf(),
        final(os).wf(),
        same_special(*final(ctx), *old(ctx)),
        ({
            let call = sdk_call(name@);
            let regs = old(ctx).regs();
            let m = old(memory)@;
            let r3 = regs[3];
            &&& call == SdkCall::Unknown ==> r == SdkDispatch::NotHandled && *final(ctx) == *old(ctx)
                && final(memory)@ == m && *final(os) == *old(os)
            &&& call != SdkCall::OsInit ==> final(os).timer == old(os).timer
            &&& call == SdkCall::OsInit ==> r == SdkDispatch::Handled && final(ctx).regs() == regs
                && final(memory)@ == os_globals(m, old(os).console_type) && final(os).initialized
                && final(os).arena.lo == ARENA_LO_DEFAULT && final(os).arena.hi == ARENA_HI_DEFAULT
                && !final(os).interrupts.master_enable && final(os).console_type == old(os).console_type
                && final(os).dvd == old(os).dvd
            &&& call == SdkCall::OsReport ==> (r matches SdkDispatch::Report(line)
                && line@ == "OSReport: "@ + lossy_text(c_string_bytes(m, r3, 0)))
                && final(ctx).regs() == regs && final(memory)@ == m && same_os(*final(os), *old(os)) && final(os).dvd == old(os).dvd
            &&& call == SdkCall::OsFatal ==> (r matches SdkDispatch::Fatal(msg) && msg@ == lossy_text(c_string_bytes(m, r3, 0)))
                && final(ctx).regs() == regs && final(memory)@ == m && same_os(*final(os), *old(os)) && final(os).dvd == old(os).dvd
            &&& call == SdkCall::OsGetConsoleType ==> r == SdkDispatch::Handled
                && final(ctx).regs() == regs.update(3, old(os).console_type)
                && final(memory)@ == m && same_os(*final(os), *old(os)) && final(os).dvd == old(os).dvd
            &&& call == SdkCall::OsDisableInterrupts ==> r == SdkDispatch::Handled
                && final(ctx).regs() == regs.update(3, if old(os).interrupts.master_enable { 1u32 } else { 0u32 })
                && !final(os).interrupts.master_enable && final(os).arena == old(os).arena
                && final(os).console_type == old(os).console_type && final(os).initialized == old(os).initialized
                && final(memory)@ == m && final(os).dvd == old(os).dvd
            &&& call == SdkCall::OsRestoreInterrupts ==> r == SdkDispatch::Handled && final(ctx).regs() == regs
                && final(os).interrupts.master_enable == (r3 != 0) && final(os).arena == old(os).arena
                && final(os).console_type == old(os).console_type && final(os).initialized == old(os).initialized
                && final(memory)@ == m && final(os).dvd == old(os).dvd
            &&& call == SdkCall::OsAllocFromArenaLo ==> r == SdkDispatch::Handled
                && final(ctx).regs() == regs.update(3, round_up(old(os).arena.lo, regs[4]))
                && final(os).arena.lo == round_up(round_up(old(os).arena.lo, regs[4]).wrapping_add(r3), regs[4])
                && final(os).arena.hi == old(os).arena.hi && final(os).interrupts == old(os).interrupts
                && final(os).console_type == old(os).console_type && final(os).initialized == old(os).initialized
                && final(memory)@ == m && final(os).dvd == old(os).dvd
            &&& call == SdkCall::OsAllocFromArenaHi ==> r == SdkDispatch::Handled
                && final(ctx).regs() == regs.update(3, round_down(round_down(old(os).arena.hi, regs[4]).wrapping_sub(r3), regs[4]))
                && final(os).arena.hi == round_down(round_down(old(os).arena.hi, regs[4]).wrapping_sub(r3), regs[4])
                && final(os).arena.lo == old(os).arena.lo && final(os).interrupts == old(os).interrupts
                && final(os).console_type == old(os).console_type && final(os).initialized == old(os).initialized
                && final(memory)@ == m && final(os).dvd == old(os).dvd
            &&& call == SdkCall::OsGetArenaLo ==> r == SdkDispatch::Handled
                && final(ctx).regs() == regs.update(3, old(os).arena.lo)
                && final(memory)@ == m && same_os(*final(os), *old(os)) && final(os).dvd == old(os).dvd
            &&& call == SdkCall::OsGetArenaHi ==> r == SdkDispatch::Handled
                && final(ctx).regs() == regs.update(3, old(os).arena.hi)
                && final(memory)@ == m && same_os(*final(os), *old(os)) && final(os).dvd == old(os).dvd
            &&& call == SdkCall::OsSetArenaLo ==> r == SdkDispatch::Handled && final(ctx).regs() == regs
                && final(os).arena.lo == r3 && final(os).arena.hi == old(os).arena.hi
                && final(os).interrupts == old(os).interrupts && final(os).console_type == old(os).console_type
                && final(os).initialized == old(os).initialized && final(memory)@ == m && final(os).dvd == old(os).dvd
            &&& call == SdkCall::OsSetArenaHi ==> r == SdkDispatch::Handled && final(ctx).regs() == regs
                && final(os).arena.hi == r3 && final(os).arena.lo == old(os).arena.lo
                && final(os).interrupts == old(os).interrupts && final(os).console_type == old(os).console_type
                && final(os).initialized == old(os).initialized && final(memory)@ == m && final(os).dvd == old(os).dvd
            &&& call == SdkCall::OsGetTick ==> r == SdkDispatch::Handled
                && (exists|t: u64| t <= ticks_of(u64::MAX) && final(ctx).regs() == regs.update(3, #[trigger] low_word(t)))
                && final(memory)@ == m && same_os(*final(os), *old(os)) && final(os).dvd == old(os).dvd
            &&& call == SdkCall::OsGetTime ==> r == SdkDispatch::Handled
                && (exists|t: u64| t <= ticks_of(u64::MAX)
                    && final(ctx).regs() == regs.update(3, (#[trigger] time_words_of(t)).0).update(4, time_words_of(t).1))
                && final(memory)@ == m && same_os(*final(os), *old(os)) && final(os).dvd == old(os).dvd
            &&& call == SdkCall::DvdInit ==> r == SdkDispatch::Handled && final(ctx).regs() == regs
                && final(memory)@ == m && same_os(*final(os), *old(os)) && final(os).dvd == old(os).dvd
            &&& call == SdkCall::DvdOpen ==> r == SdkDispatch::Handled && same_os(*final(os), *old(os)) && ({
                let path = lossy_text(c_string_bytes(m, regs[4], 0));
                match old(os).dvd {
                    None => final(ctx).regs() == regs.update(3, 0u32) && final(memory)@ == m && final(os).dvd is None,
                    Some(v) => {
                        let h = open_handle(v@, path);
                        &&& final(os).dvd matches Some(v2) && v2@ == after_open(v@, path)
                        &&& if h != 0 {
                            let len = (crate::dvd::open_target(v@, path)->0).1;
                            &&& final(ctx).regs() == regs.update(3, 1u32)
                            &&& final(memory)@ == store_word(store_word(m, (r3 + 8) as u32, len), (r3 + 12) as u32, h)
                        } else {
                            final(ctx).regs() == regs.update(3, 0u32) && final(memory)@ == m
                        }
                    },
                }
            })
            &&& call == SdkCall::DvdClose ==> r == SdkDispatch::Handled && final(ctx).regs() == regs
                && final(memory)@ == m && same_os(*final(os), *old(os)) && ({
                let h = word_or_zero(m, (r3 + 12) as u32);
                match old(os).dvd {
                    None => final(os).dvd is None,
                    Some(v) => (final(os).dvd matches Some(v2) && v2@ == after_close(v@, h)),
                }
            })
            &&& call == SdkCall::DvdRead ==> same_os(*final(os), *old(os)) && ({
                let h = word_or_zero(m, (r3 + 12) as u32);
                match old(os).dvd {
                    None => r == SdkDispatch::Handled && final(ctx).regs() == regs.update(3, DVD_READ_FAILED)
                        && final(memory)@ == m && final(os).dvd is None,
                    Some(v) => match read_plan(v@, h) {
                        ReadPlan::NeedRange(p, o, l) => (r matches SdkDispatch::NeedArchiveRange { path, offset, length }
                            && path@ == p && offset == o && length == l)
                            && final(ctx).regs() == regs && final(memory)@ == m
                            && (final(os).dvd matches Some(v2) && v2@ == v@),
                        ReadPlan::Copy(data, fresh) => r == SdkDispatch::Handled && (final(os).dvd matches Some(v2) && v2@ == match fresh {
                                Some(p) => VfsView { cache: v@.cache.push((p, data)), ..v@ },
                                None => v@,
                            }) && match copy_outcome(data, m, regs[4], regs[5], regs[6]) {
                                Some((n, m2)) => final(ctx).regs() == regs.update(3, n) && final(memory)@ == m2,
                                None => final(ctx).regs() == regs.update(3, DVD_READ_FAILED) && final(memory)@ == m,
                            },
                        _ => r == SdkDispatch::Handled && final(ctx).regs() == regs.update(3, DVD_READ_FAILED)
                            && final(memory)@ == m && (final(os).dvd matches Some(v2) && v2@ == v@),
                    },
                }
            })
            &&& call == SdkCall::DvdGetLength ==> r == SdkDispatch::Handled
                && final(ctx).regs() == regs.update(3, word_or_zero(m, (r3 + 8) as u32))
                && final(memory)@ == m && same_os(*final(os), *old(os)) && final(os).dvd == old(os).dvd
        }),
{
    let call = classify_sdk_call(name);
    match call {
        SdkCall::OsInit => {
            os_init(os, memory);
            SdkDispatch::Handled
        },
        SdkCall::OsReport => {
            let msg = read_c_string(memory, ctx.get_register(3));
            SdkDispatch::Report(os_report(msg.as_str()))
        },
        SdkCall::OsFatal => {
            let msg = read_c_string(memory, ctx.get_register(3));
            SdkDispatch::Fatal(msg)
        },
        SdkCall::OsGetConsoleType => {
            let val = os_get_console_type(os);
            ctx.set_register(3, val);
            SdkDispatch::Handled
        },
        SdkCall::OsDisableInterrupts => {
            let prev = os_disable_interrupts(os);
            ctx.set_register(3, prev);
            SdkDispatch::Handled
        },
        SdkCall::OsRestoreInterrupts => {
            let prev = ctx.get_register(3);
            os_restore_interrupts(os, prev);
            SdkDispatch::Handled
        },
        SdkCall::OsAllocFromArenaLo => {
            let size = ctx.get_register(3);
            let align = ctx.get_register(4);
            let addr = os_alloc_from_arena_lo(os, size, align);
            ctx.set_register(3, addr);
            SdkDispatch::Handled
        },
        SdkCall::OsAllocFromArenaHi => {
            let size = ctx.get_register(3);
            let align = ctx.get_register(4);
            let addr = os_alloc_from_arena_hi(os, size, align);
            ctx.set_register(3, addr);
            SdkDispatch::Handled
        },
        SdkCall::OsGetArenaLo => {
            ctx.set_register(3, os_get_arena_lo(os));
            SdkDispatch::Handled
        },
        SdkCall::OsGetArenaHi => {
            ctx.set_register(3, os_get_arena_hi(os));
            SdkDispatch::Handled
        },
        SdkCall::OsSetArenaLo => {
            let addr = ctx.get_register(3);
            os_set_arena_lo(os, addr);
            SdkDispatch::Handled
        },
        SdkCall::OsSetArenaHi => {
            let addr = ctx.get_register(3);
            os_set_arena_hi(os, addr);
            SdkDispatch::Handled
        },
        SdkCall::OsGetTick => {
            ctx.set_register(3, os.timer.get_tick());
            SdkDispatch::Handled
        },
        SdkCall::OsGetTime => {
            let time = os.timer.get_time();
            let (high, low) = time_words(time);
            ctx.set_register(3, high);
            ctx.set_register(4, low);
            proof {
                assert(ctx.regs() == old(ctx).regs().update(3, time_words_of(time).0).update(4, time_words_of(time).1));
            }
            SdkDispatch::Handled
        },
        SdkCall::DvdInit => SdkDispatch::Handled,
        SdkCall::DvdOpen => {
            dispatch_dvd_open(ctx, memory, os);
            SdkDispatch::Handled
        },
        SdkCall::DvdClose => {
            let file_info_addr = ctx.get_register(3);
            let handle = match memory.read_u32(file_info_addr + 0x0C) { Ok(v) => v, Err(_) => 0 };
            let taken = os.dvd.take();
            match taken {
                Some(mut dvd) => {
                    dvd.dvd_close(handle);
                    os.dvd = Some(dvd);
                },
                None => {},
            }
            SdkDispatch::Handled
        },
        SdkCall::DvdRead => dispatch_dvd_read(ctx, memory, os),
        SdkCall::DvdGetLength => {
            let file_info_addr = ctx.get_register(3);
            let length = match memory.read_u32(file_info_addr + 0x08) { Ok(v) => v, Err(_) => 0 };
            ctx.set_register(3, length);
            SdkDispatch::Handled
        },
        SdkCall::Unknown => SdkDispatch::NotHandled,
    }
}

/// `DVDOpen(fileInfo = r3, path = r4)`: on success stores the length at
/// `fileInfo + 8` and the handle at `fileInfo + 12` and returns 1, else 0.
fn dispatch_dvd_open(ctx: &mut CpuContext, memory: &mut MemoryManager, os: &mut OsState)
    requires
        old(ctx).wf(),
        old(memory).wf(),
        old(os).wf(),
        old(ctx).regs()[3] <= u32::MAX - 0x0C,
    ensures
        final(ctx).wf(),
        final(memory).wf(),
        final(os).wf(),
        same_os(*final(os), *old(os)),
        same_special(*final(ctx), *old(ctx)),
        ({
            let regs = old(ctx).regs();
            let m = old(memory)@;
            let r3 = regs[3];
            let path = lossy_text(c_string_bytes(m, regs[4], 0));
            match old(os).dvd {
                None => final(ctx).regs() == regs.update(3, 0u32) && final(memory)@ == m && final(os).dvd is None,
                Some(v) => {
                    let h = open_handle(v@, path);
                    &&& final(os).dvd matches Some(v2) && v2@ == after_open(v@, path)
                    &&& if h != 0 {
                        let len = (crate::dvd::open_target(v@, path)->0).1;
                        &&& final(ctx).regs() == regs.update(3, 1u32)
                        &&& final(memory)@ == store_word(store_word(m, (r3 + 8) as u32, len), (r3 + 12) as u32, h)
                    } else {
                        final(ctx).regs() == regs.update(3, 0u32) && final(memory)@ == m
                    }
                },
            }
        }),
{
    let file_info_addr = ctx.get_register(3);
    let path_addr = ctx.get_register(4);
    let path = read_c_string(memory, path_addr);
    let taken = os.dvd.take();
    let result: u32 = match taken {
        Some(mut dvd) => {
            let handle = dvd.dvd_open(path.as_str());
            let res = if handle != 0 {
                let length = dvd.dvd_get_length(handle);
                proof {
                    crate::memory::lemma_be_bytes_len(length as nat, 4);
                    crate::memory::lemma_be_bytes_len(handle as nat, 4);
                    let o = dvd@.open;
                    assert(o.last().handle == handle);
                    lemma_open_index_last(o, handle);
                }
                let _ = memory.write_u32(file_info_addr + 0x08, length);
                let _ = memory.write_u32(file_info_addr + 0x0C, handle);
                1u32
            } else {
                0u32
            };
            os.dvd = Some(dvd);
            res
        },
        None => 0u32,
    };
    ctx.set_register(3, result);
}

/// `open_index` of the last element's handle, when handles are distinct.
proof fn lemma_open_index_last(o: Seq<crate::dvd::OpenRecord>, h: u32)
    requires
        o.len() > 0,
        o.last().handle == h,
    ensures
        crate::dvd::open_index(o, h) == Some(o.len() - 1),
{
}

/// `DVDRead(fileInfo = r3, buffer = r4, length = r5, offset = r6)`: r3 gets
/// the byte count, or `DVD_READ_FAILED`.
fn dispatch_dvd_read(ctx: &mut CpuContext, memory: &mut MemoryManager, os: &mut OsState) -> (r: SdkDispatch)
    requires
        old(ctx).wf(),
        old(memory).wf(),
        old(os).wf(),
        old(ctx).regs()[3] <= u32::MAX - 0x0C,
    ensures
        final(ctx).wf(),
        final(memory).wf(),
        final(os).wf(),
        same_os(*final(os), *old(os)),
        same_special(*final(ctx), *old(ctx)),
        ({
            let regs = old(ctx).regs();
            let m = old(memory)@;
            let h = word_or_zero(m, (regs[3] + 12) as u32);
            match old(os).dvd {
                None => r == SdkDispatch::Handled && final(ctx).regs() == regs.update(3, DVD_READ_FAILED)
                    && final(memory)@ == m && final(os).dvd is None,
                Some(v) => match read_plan(v@, h) {
                    ReadPlan::NeedRange(p, o, l) => (r matches SdkDispatch::NeedArchiveRange { path, offset, length }
                        && path@ == p && offset == o && length == l)
                        && final(ctx).regs() == regs && final(memory)@ == m
                        && (final(os).dvd matches Some(v2) && v2@ == v@),
                    ReadPlan::Copy(data, fresh) => r == SdkDispatch::Handled && (final(os).dvd matches Some(v2) && v2@ == match fresh {
                            Some(p) => VfsView { cache: v@.cache.push((p, data)), ..v@ },
                            None => v@,
                        }) && match copy_outcome(data, m, regs[4], regs[5], regs[6]) {
                            Some((n, m2)) => final(ctx).regs() == regs.update(3, n) && final(memory)@ == m2,
                            None => final(ctx).regs() == regs.update(3, DVD_READ_FAILED) && final(memory)@ == m,
                        },
                    _ => r == SdkDispatch::Handled && final(ctx).regs() == regs.update(3, DVD_READ_FAILED)
                        && final(memory)@ == m && (final(os).dvd matches Some(v2) && v2@ == v@),
                },
            }
        }),
{
    let file_info_addr = ctx.get_register(3);
    let buf_addr = ctx.get_register(4);
    let length = ctx.get_register(5);
    let offset = ctx.get_register(6);
    let handle = match memory.read_u32(file_info_addr + 0x0C) { Ok(v) => v, Err(_) => 0 };
    let taken = os.dvd.take();
    match taken {
        Some(mut dvd) => {
            let res = dvd.dvd_read(handle, memory, buf_addr, length, offset);
            os.dvd = Some(dvd);
            match res {
                Ok(n) => {
                    ctx.set_register(3, n);
                    SdkDispatch::Handled
                },
                Err(DvdError::NeedArchiveRange { path, offset, length }) => {
                    SdkDispatch::NeedArchiveRange { path, offset, length }
                },
                Err(_) => {
                    ctx.set_register(3, DVD_READ_FAILED);
                    SdkDispatch::Handled
                },
            }
        },
        None => {
            ctx.set_register(3, DVD_READ_FAILED);
            SdkDispatch::Handled
        },
    }
}


// ---------------------------------------------------------------- laws

/// `OSRestoreInterrupts` given what `OSDisableInterrupts` returned brings the
/// master enable back to what it was.
pub proof fn lemma_disable_then_restore(enabled: bool)
    ensures
        ((if enabled { 1u32 } else { 0u32 }) != 0) == enabled,
{
}

/// Rounding down gives the greatest multiple of `a` at or below `x`;
/// rounding up, when no multiple wraps past 2^32, the least at or above.
pub proof fn lemma_rounding(x: u32, a: u32)
    requires
        a > 0,
    ensures
        round_down(x, a) % a == 0,
        round_down(x, a) <= x < round_down(x, a) + a,
        x + a - 1 <= u32::MAX ==> round_up(x, a) % a == 0 && x <= round_up(x, a) && round_up(x, a) < x + a,
{
    let q0 = x as int / a as int;
    let r0 = x as int % a as int;
    vstd::arithmetic::div_mod::lemma_fundamental_div_mod(x as int, a as int);
    vstd::arithmetic::div_mod::lemma_mod_bound(x as int, a as int);
    vstd::arithmetic::mul::lemma_mul_is_commutative(a as int, q0);
    assert(x as int - r0 == q0 * a);
    vstd::arithmetic::div_mod::lemma_mod_multiples_basic(q0, a as int);
    assert(round_down(x, a) as int == q0 * a);
    if x + a - 1 <= u32::MAX {
        let q = (x as int + a - 1) / a as int;
        vstd::arithmetic::div_mod::lemma_fundamental_div_mod(x as int + a - 1, a as int);
        vstd::arithmetic::div_mod::lemma_mod_bound(x as int + a - 1, a as int);
        assert(q * a <= x + a - 1);
        assert(q * a >= 0) by (nonlinear_arith)
            requires
                q >= 0,
                a > 0,
        ;
        vstd::arithmetic::div_mod::lemma_small_mod((q * a) as nat, 0x1_0000_0000);
        vstd::arithmetic::div_mod::lemma_mod_multiples_basic(q, a as int);
        vstd::arithmetic::mul::lemma_mul_is_commutative(a as int, q);
        assert(round_up(x, a) as int == q * a);
    }
}

/// The length `DVDGetLength` reports for `h`: that of the open file, or 0.
pub open spec fn handle_length(v: VfsView, h: u32) -> u32 {
    match crate::dvd::open_index(v.open, h) {
        Some(i) => v.open[i].length,
        None => 0,
    }
}

/// `open_index` finds the (last) entry with the handle, and `None` means there is none.
proof fn lemma_open_index_found(s: Seq<crate::dvd::OpenRecord>, h: u32)
    ensures
        match crate::dvd::open_index(s, h) {
            Some(i) => 0 <= i < s.len() && s[i].handle == h,
            None => forall|k: int| 0 <= k < s.len() ==> s[k].handle != h,
        },
    decreases s.len(),
{
    if s.len() > 0 {
        lemma_open_index_found(s.drop_last(), h);
        assert forall|k: int| 0 <= k < s.len() - 1 implies s.drop_last()[k] == s[k] by {}
    }
}

/// Closing a handle of a well-formed filesystem forgets it: its length is 0
/// and reads through it fail as an invalid handle.
pub proof fn lemma_close_forgets(v: VfsView, h: u32)
    requires
        crate::dvd::vfs_wf(v),
    ensures
        handle_length(after_close(v, h), h) == 0,
        read_plan(after_close(v, h), h) == ReadPlan::InvalidHandle,
{
    lemma_open_index_found(v.open, h);
    match crate::dvd::open_index(v.open, h) {
        Some(i) => {
            let o = v.open.remove(i);
            assert forall|k: int| 0 <= k < o.len() implies o[k].handle != h by {
                if k < i {
                    assert(o[k] == v.open[k]);
                } else {
                    assert(o[k] == v.open[k + 1]);
                }
            }
            lemma_open_index_found(o, h);
        },
        None => {},
    }
}

/// Opening a file gives a fresh handle that reports the file's length and
/// can be read; closing it again forgets it.
pub proof fn lemma_open_then_close(v: VfsView, path: Seq<char>)
    requires
        crate::dvd::vfs_wf(v),
    ensures
        open_handle(v, path) != 0 ==> {
            let h = open_handle(v, path);
            let v2 = after_open(v, path);
            &&& handle_length(v2, h) == (crate::dvd::open_target(v, path)->0).1
            &&& read_plan(v2, h) != ReadPlan::InvalidHandle
            &&& handle_length(after_close(v2, h), h) == 0
            &&& read_plan(after_close(v2, h), h) == ReadPlan::InvalidHandle
            &&& after_close(v2, h).open == v.open
        },
{
    if open_handle(v, path) != 0 {
        let h = open_handle(v, path);
        let v2 = after_open(v, path);
        assert(v2.open.last().handle == h);
        lemma_open_index_last(v2.open, h);
        assert(v2.open.remove(v2.open.len() - 1) =~= v.open);
        lemma_open_index_found(v.open, h);
        assert forall|k: int| 0 <= k < v.open.len() implies v.open[k].handle != h by {
            assert(v.open[k].handle < v.next_handle);
        }
        lemma_open_index_found(v.open, h);
    }
}


/// The SDK symbol each call is dispatched under (`DVDRead` also answers
/// to `DVDReadPrio`).
pub open spec fn sdk_symbol(c: SdkCall) -> Seq<char> {
    match c {
        SdkCall::OsInit => "OSInit"@,
        SdkCall::OsReport => "OSReport"@,
        SdkCall::OsFatal => "OSFatal"@,
        SdkCall::OsGetConsoleType => "OSGetConsoleType"@,
        SdkCall::OsDisableInterrupts => "OSDisableInterrupts"@,
        SdkCall::OsRestoreInterrupts => "OSRestoreInterrupts"@,
        SdkCall::OsAllocFromArenaLo => "OSAllocFromArenaLo"@,
        SdkCall::OsAllocFromArenaHi => "OSAllocFromArenaHi"@,
        SdkCall::OsGetArenaLo => "OSGetArenaLo"@,
        SdkCall::OsGetArenaHi => "OSGetArenaHi"@,
        SdkCall::OsSetArenaLo => "OSSetArenaLo"@,
        SdkCall::OsSetArenaHi => "OSSetArenaHi"@,
        SdkCall::OsGetTick => "OSGetTick"@,
        SdkCall::OsGetTime => "OSGetTime"@,
        SdkCall::DvdInit => "DVDInit"@,
        SdkCall::DvdOpen => "DVDOpen"@,
        SdkCall::DvdClose => "DVDClose"@,
        SdkCall::DvdRead => "DVDRead"@,
        SdkCall::DvdGetLength => "DVDGetLength"@,
        SdkCall::Unknown => ""@,
    }
}

/// Every SDK function is dispatched under its own symbol: the symbol of a
/// call classifies as that call, so distinct calls have distinct symbols.
pub proof fn lemma_sdk_symbols_select_their_call(c: SdkCall)
    requires
        c != SdkCall::Unknown,
    ensures
        sdk_call(sdk_symbol(c)) == c,
{
    reveal_strlit("OSInit");
    reveal_strlit("OSReport");
    reveal_strlit("OSFatal");
    reveal_strlit("OSGetConsoleType");
    reveal_strlit("OSDisableInterrupts");
    reveal_strlit("OSRestoreInterrupts");
    reveal_strlit("OSAllocFromArenaLo");
    reveal_strlit("OSAllocFromArenaHi");
    reveal_strlit("OSGetArenaLo");
    reveal_strlit("OSGetArenaHi");
    reveal_strlit("OSSetArenaLo");
    reveal_strlit("OSSetArenaHi");
    reveal_strlit("OSGetTick");
    reveal_strlit("OSGetTime");
    reveal_strlit("DVDInit");
    reveal_strlit("DVDOpen");
    reveal_strlit("DVDClose");
    reveal_strlit("DVDRead");
    reveal_strlit("DVDReadPrio");
    reveal_strlit("DVDGetLength");
    match c {
        SdkCall::OsInit => {
        },
        SdkCall::OsReport => {
            assert("OSReport"@.len() != "OSInit"@.len());
        },
        SdkCall::OsFatal => {
            assert("OSFatal"@.len() != "OSInit"@.len());
            assert("OSFatal"@.len() != "OSReport"@.len());
        },
        SdkCall::OsGetConsoleType => {
            assert("OSGetConsoleType"@.len() != "OSInit"@.len());
            assert("OSGetConsoleType"@.len() != "OSReport"@.len());
            assert("OSGetConsoleType"@.len() != "OSFatal"@.len());
        },
        SdkCall::OsDisableInterrupts => {
            assert("OSDisableInterrupts"@.len() != "OSInit"@.len());
            assert("OSDisableInterrupts"@.len() != "OSReport"@.len());
            assert("OSDisableInterrupts"@.len() != "OSFatal"@.len());
            assert("OSDisableInterrupts"@.len() != "OSGetConsoleType"@.len());
        },
        SdkCall::OsRestoreInterrupts => {
            assert("OSRestoreInterrupts"@.len() != "OSInit"@.len());
            assert("OSRestoreInterrupts"@.len() != "OSReport"@.len());
            assert("OSRestoreInterrupts"@.len() != "OSFatal"@.len());
            assert("OSRestoreInterrupts"@.len() != "OSGetConsoleType"@.len());
            assert("OSRestoreInterrupts"@[2] != "OSDisableInterrupts"@[2]);
        },
        SdkCall::OsAllocFromArenaLo => {
            assert("OSAllocFromArenaLo"@.len() != "OSInit"@.len());
            assert("OSAllocFromArenaLo"@.len() != "OSReport"@.len());
            assert("OSAllocFromArenaLo"@.len() != "OSFatal"@.len());
            assert("OSAllocFromArenaLo"@.len() != "OSGetConsoleType"@.len());
            assert("OSAllocFromArenaLo"@.len() != "OSDisableInterrupts"@.len());
            assert("OSAllocFromArenaLo"@.len() != "OSRestoreInterrupts"@.len());
        },
        SdkCall::OsAllocFromArenaHi => {
            assert("OSAllocFromArenaHi"@.len() != "OSInit"@.len());
            assert("OSAllocFromArenaHi"@.len() != "OSReport"@.len());
            assert("OSAllocFromArenaHi"@.len() != "OSFatal"@.len());
            assert("OSAllocFromArenaHi"@.len() != "OSGetConsoleType"@.len());
            assert("OSAllocFromArenaHi"@.len() != "OSDisableInterrupts"@.len());
            assert("OSAllocFromArenaHi"@.len() != "OSRestoreInterrupts"@.len());
            assert("OSAllocFromArenaHi"@[16] != "OSAllocFromArenaLo"@[16]);
        },
        SdkCall::OsGetArenaLo => {
            assert("OSGetArenaLo"@.len() != "OSInit"@.len());
            assert("OSGetArenaLo"@.len() != "OSReport"@.len());
            assert("OSGetArenaLo"@.len() != "OSFatal"@.len());
            assert("OSGetArenaLo"@.len() != "OSGetConsoleType"@.len());
            assert("OSGetArenaLo"@.len() != "OSDisableInterrupts"@.len());
            assert("OSGetArenaLo"@.len() != "OSRestoreInterrupts"@.len());
            assert("OSGetArenaLo"@.len() != "OSAllocFromArenaLo"@.len());
            assert("OSGetArenaLo"@.len() != "OSAllocFromArenaHi"@.len());
        },
        SdkCall::OsGetArenaHi => {
            assert("OSGetArenaHi"@.len() != "OSInit"@.len());
            assert("OSGetArenaHi"@.len() != "OSReport"@.len());
            assert("OSGetArenaHi"@.len() != "OSFatal"@.len());
            assert("OSGetArenaHi"@.len() != "OSGetConsoleType"@.len());
            assert("OSGetArenaHi"@.len() != "OSDisableInterrupts"@.len());
            assert("OSGetArenaHi"@.len() != "OSRestoreInterrupts"@.len());
            assert("OSGetArenaHi"@.len() != "OSAllocFromArenaLo"@.len());
            assert("OSGetArenaHi"@.len() != "OSAllocFromArenaHi"@.len());
            assert("OSGetArenaHi"@[10] != "OSGetArenaLo"@[10]);
        },
        SdkCall::OsSetArenaLo => {
            assert("OSSetArenaLo"@.len() != "OSInit"@.len());
            assert("OSSetArenaLo"@.len() != "OSReport"@.len());
            assert("OSSetArenaLo"@.len() != "OSFatal"@.len());
            assert("OSSetArenaLo"@.len() != "OSGetConsoleType"@.len());
            assert("OSSetArenaLo"@.len() != "OSDisableInterrupts"@.len());
            assert("OSSetArenaLo"@.len() != "OSRestoreInterrupts"@.len());
            assert("OSSetArenaLo"@.len() != "OSAllocFromArenaLo"@.len());
            assert("OSSetArenaLo"@.len() != "OSAllocFromArenaHi"@.len());
            assert("OSSetArenaLo"@[2] != "OSGetArenaLo"@[2]);
            assert("OSSetArenaLo"@[2] != "OSGetArenaHi"@[2]);
        },
        SdkCall::OsSetArenaHi => {
            assert("OSSetArenaHi"@.len() != "OSInit"@.len());
            assert("OSSetArenaHi"@.len() != "OSReport"@.len());
            assert("OSSetArenaHi"@.len() != "OSFatal"@.len());
            assert("OSSetArenaHi"@.len() != "OSGetConsoleType"@.len());
            assert("OSSetArenaHi"@.len() != "OSDisableInterrupts"@.len());
            assert("OSSetArenaHi"@.len() != "OSRestoreInterrupts"@.len());
            assert("OSSetArenaHi"@.len() != "OSAllocFromArenaLo"@.len());
            assert("OSSetArenaHi"@.len() != "OSAllocFromArenaHi"@.len());
            assert("OSSetArenaHi"@[2] != "OSGetArenaLo"@[2]);
            assert("OSSetArenaHi"@[2] != "OSGetArenaHi"@[2]);
            assert("OSSetArenaHi"@[10] != "OSSetArenaLo"@[10]);
        },
        SdkCall::OsGetTick => {
            assert("OSGetTick"@.len() != "OSInit"@.len());
            assert("OSGetTick"@.len() != "OSReport"@.len());
            assert("OSGetTick"@.len() != "OSFatal"@.len());
            assert("OSGetTick"@.len() != "OSGetConsoleType"@.len());
            assert("OSGetTick"@.len() != "OSDisableInterrupts"@.len());
            assert("OSGetTick"@.len() != "OSRestoreInterrupts"@.len());
            assert("OSGetTick"@.len() != "OSAllocFromArenaLo"@.len());
            assert("OSGetTick"@.len() != "OSAllocFromArenaHi"@.len());
            assert("OSGetTick"@.len() != "OSGetArenaLo"@.len());
            assert("OSGetTick"@.len() != "OSGetArenaHi"@.len());
            assert("OSGetTick"@.len() != "OSSetArenaLo"@.len());
            assert("OSGetTick"@.len() != "OSSetArenaHi"@.len());
        },
        SdkCall::OsGetTime => {
            assert("OSGetTime"@.len() != "OSInit"@.len());
            assert("OSGetTime"@.len() != "OSReport"@.len());
            assert("OSGetTime"@.len() != "OSFatal"@.len());
            assert("OSGetTime"@.len() != "OSGetConsoleType"@.len());
            assert("OSGetTime"@.len() != "OSDisableInterrupts"@.len());
            assert("OSGetTime"@.len() != "OSRestoreInterrupts"@.len());
            assert("OSGetTime"@.len() != "OSAllocFromArenaLo"@.len());
            assert("OSGetTime"@.len() != "OSAllocFromArenaHi"@.len());
            assert("OSGetTime"@.len() != "OSGetArenaLo"@.len());
            assert("OSGetTime"@.len() != "OSGetArenaHi"@.len());
            assert("OSGetTime"@.len() != "OSSetArenaLo"@.len());
            assert("OSGetTime"@.len() != "OSSetArenaHi"@.len());
            assert("OSGetTime"@[7] != "OSGetTick"@[7]);
        },
        SdkCall::DvdInit => {
            assert("DVDInit"@.len() != "OSInit"@.len());
            assert("DVDInit"@.len() != "OSReport"@.len());
            assert("DVDInit"@[0] != "OSFatal"@[0]);
            assert("DVDInit"@.len() != "OSGetConsoleType"@.len());
            assert("DVDInit"@.len() != "OSDisableInterrupts"@.len());
            assert("DVDInit"@.len() != "OSRestoreInterrupts"@.len());
            assert("DVDInit"@.len() != "OSAllocFromArenaLo"@.len());
            assert("DVDInit"@.len() != "OSAllocFromArenaHi"@.len());
            assert("DVDInit"@.len() != "OSGetArenaLo"@.len());
            assert("DVDInit"@.len() != "OSGetArenaHi"@.len());
            assert("DVDInit"@.len() != "OSSetArenaLo"@.len());
            assert("DVDInit"@.len() != "OSSetArenaHi"@.len());
            assert("DVDInit"@.len() != "OSGetTick"@.len());
            assert("DVDInit"@.len() != "OSGetTime"@.len());
        },
        SdkCall::DvdOpen => {
            assert("DVDOpen"@.len() != "OSInit"@.len());
            assert("DVDOpen"@.len() != "OSReport"@.len());
            assert("DVDOpen"@[0] != "OSFatal"@[0]);
            assert("DVDOpen"@.len() != "OSGetConsoleType"@.len());
            assert("DVDOpen"@.len() != "OSDisableInterrupts"@.len());
            assert("DVDOpen"@.len() != "OSRestoreInterrupts"@.len());
            assert("DVDOpen"@.len() != "OSAllocFromArenaLo"@.len());
            assert("DVDOpen"@.len() != "OSAllocFromArenaHi"@.len());
            assert("DVDOpen"@.len() != "OSGetArenaLo"@.len());
            assert("DVDOpen"@.len() != "OSGetArenaHi"@.len());
            assert("DVDOpen"@.len() != "OSSetArenaLo"@.len());
            assert("DVDOpen"@.len() != "OSSetArenaHi"@.len());
            assert("DVDOpen"@.len() != "OSGetTick"@.len());
            assert("DVDOpen"@.len() != "OSGetTime"@.len());
            assert("DVDOpen"@[3] != "DVDInit"@[3]);
        },
        SdkCall::DvdClose => {
            assert("DVDClose"@.len() != "OSInit"@.len());
            assert("DVDClose"@[0] != "OSReport"@[0]);
            assert("DVDClose"@.len() != "OSFatal"@.len());
            assert("DVDClose"@.len() != "OSGetConsoleType"@.len());
            assert("DVDClose"@.len() != "OSDisableInterrupts"@.len());
            assert("DVDClose"@.len() != "OSRestoreInterrupts"@.len());
            assert("DVDClose"@.len() != "OSAllocFromArenaLo"@.len());
            assert("DVDClose"@.len() != "OSAllocFromArenaHi"@.len());
            assert("DVDClose"@.len() != "OSGetArenaLo"@.len());
            assert("DVDClose"@.len() != "OSGetArenaHi"@.len());
            assert("DVDClose"@.len() != "OSSetArenaLo"@.len());
            assert("DVDClose"@.len() != "OSSetArenaHi"@.len());
            assert("DVDClose"@.len() != "OSGetTick"@.len());
            assert("DVDClose"@.len() != "OSGetTime"@.len());
            assert("DVDClose"@.len() != "DVDInit"@.len());
            assert("DVDClose"@.len() != "DVDOpen"@.len());
        },
        SdkCall::DvdRead => {
            assert("DVDRead"@.len() != "OSInit"@.len());
            assert("DVDRead"@.len() != "OSReport"@.len());
            assert("DVDRead"@[0] != "OSFatal"@[0]);
            assert("DVDRead"@.len() != "OSGetConsoleType"@.len());
            assert("DVDRead"@.len() != "OSDisableInterrupts"@.len());
            assert("DVDRead"@.len() != "OSRestoreInterrupts"@.len());
            assert("DVDRead"@.len() != "OSAllocFromArenaLo"@.len());
            assert("DVDRead"@.len() != "OSAllocFromArenaHi"@.len());
            assert("DVDRead"@.len() != "OSGetArenaLo"@.len());
            assert("DVDRead"@.len() != "OSGetArenaHi"@.len());
            assert("DVDRead"@.len() != "OSSetArenaLo"@.len());
            assert("DVDRead"@.len() != "OSSetArenaHi"@.len());
            assert("DVDRead"@.len() != "OSGetTick"@.len());
            assert("DVDRead"@.len() != "OSGetTime"@.len());
            assert("DVDRead"@[3] != "DVDInit"@[3]);
            assert("DVDRead"@[3] != "DVDOpen"@[3]);
            assert("DVDRead"@.len() != "DVDClose"@.len());
        },
        SdkCall::DvdGetLength => {
            assert("DVDGetLength"@.len() != "OSInit"@.len());
            assert("DVDGetLength"@.len() != "OSReport"@.len());
            assert("DVDGetLength"@.len() != "OSFatal"@.len());
            assert("DVDGetLength"@.len() != "OSGetConsoleType"@.len());
            assert("DVDGetLength"@.len() != "OSDisableInterrupts"@.len());
            assert("DVDGetLength"@.len() != "OSRestoreInterrupts"@.len());
            assert("DVDGetLength"@.len() != "OSAllocFromArenaLo"@.len());
            assert("DVDGetLength"@.len() != "OSAllocFromArenaHi"@.len());
            assert("DVDGetLength"@[0] != "OSGetArenaLo"@[0]);
            assert("DVDGetLength"@[0] != "OSGetArenaHi"@[0]);
            assert("DVDGetLength"@[0] != "OSSetArenaLo"@[0]);
            assert("DVDGetLength"@[0] != "OSSetArenaHi"@[0]);
            assert("DVDGetLength"@.len() != "OSGetTick"@.len());
            assert("DVDGetLength"@.len() != "OSGetTime"@.len());
            assert("DVDGetLength"@.len() != "DVDInit"@.len());
            assert("DVDGetLength"@.len() != "DVDOpen"@.len());
            assert("DVDGetLength"@.len() != "DVDClose"@.len());
            assert("DVDGetLength"@.len() != "DVDRead"@.len());
            assert("DVDGetLength"@.len() != "DVDReadPrio"@.len());
        },
        SdkCall::Unknown => {},
    }
}

} // verus!
