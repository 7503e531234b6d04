//! The range planner: from a user's address and length to aligned device
//! coordinates. Pure arithmetic; every violated bound is an error.

use vstd::prelude::*;
use vstd::arithmetic::div_mod::{lemma_div_is_ordered, lemma_fundamental_div_mod, lemma_mod_bound};
use crate::error::ErrorKind;

verus! {

/// Page size of the external flash, in bytes.
pub const SPIPAGESIZE: u32 = 256;

/// Address of the first byte of the internal flash.
pub const FLASH_USERDATA_ADDRESS: u32 = 0x0800_0000;

/// The largest number of pages that one `spierase` request may name.
pub const SPIERASELIMIT: u32 = 256;

/// Bytes in a word, the unit of `rd` and `crc`.
pub const WORD: u32 = 4;

/// `a / b`, rounded up.
pub open spec fn ceil_div(a: int, b: int) -> int {
    (a + b - 1) / b
}

/// The largest multiple of `unit` that is no larger than `a`.
pub open spec fn align_down(a: int, unit: int) -> int {
    (a / unit) * unit
}

/// `addr` lies in a memory of `size` bytes that starts at `base` and ends
/// within the 32-bit address space.
pub open spec fn within(base: int, size: int, addr: int) -> bool {
    base <= addr < base + size && base + size <= 0x1_0000_0000
}

/// What to ask of the device for a read, and where the user's bytes lie in
/// what comes back.
#[derive(Clone, Copy, Debug, PartialEq, Eq, Structural)]
pub struct ReadPlan {
    /// The address of the first unit to read.
    pub aligned_addr: u32,
    /// How many units (words or pages) to read.
    pub count: u32,
    /// Where the user's first byte lies in the bytes read.
    pub offset: u32,
    /// How many bytes the user gets.
    pub len: u32,
}

/// The pages to erase.
#[derive(Clone, Copy, Debug, PartialEq, Eq, Structural)]
pub struct ErasePlan {
    pub aligned_addr: u32,
    pub page_count: u32,
}

/// The words whose checksum to ask for.
#[derive(Clone, Copy, Debug, PartialEq, Eq, Structural)]
pub struct CrcPlan {
    pub aligned_addr: u32,
    pub word_count: u32,
}

/// The pages that a write rewrites, and the bytes in them that are not the
/// user's: `head_slack` before the range, `tail_slack` behind it.
#[derive(Clone, Copy, Debug, PartialEq, Eq, Structural)]
pub struct WritePlan {
    pub aligned_addr: u32,
    pub page_size: u32,
    pub page_count: u32,
    pub head_slack: u32,
    pub tail_slack: u32,
}

/// The plan of a read of `len` bytes at `addr` (of all bytes from `addr` to the
/// end where `len` is `None`) from a memory of `size` bytes at `base`, read in
/// units of `unit` bytes.
pub open spec fn read_plan(base: u32, unit: u32, size: u32, addr: u32, len: Option<u32>) -> Result<
    ReadPlan,
    ErrorKind,
> {
    let length: int = match len {
        Some(l) => l as int,
        None => size - (addr - base),
    };
    let aligned = align_down(addr as int, unit as int);
    let count = ceil_div(addr + length, unit as int) - addr / unit;
    if !within(base as int, size as int, addr as int) || aligned < base || count > size / unit - (
    aligned - base) / (unit as int) {
        Err(ErrorKind::Bounds)
    } else {
        Ok(
            ReadPlan {
                aligned_addr: aligned as u32,
                count: count as u32,
                offset: (addr % unit) as u32,
                len: length as u32,
            },
        )
    }
}

/// The plan of a checksum over the words that overlap `len` bytes at `addr`
/// (over all whole words from `addr` to the end where `len` is `None`).
pub open spec fn crc_plan(base: u32, size: u32, addr: u32, len: Option<u32>) -> Result<
    CrcPlan,
    ErrorKind,
> {
    let room = size / 4 - (addr - base) / 4;
    let words = match len {
        Some(l) => ceil_div(addr + l, 4) - addr / 4,
        None => room,
    };
    if !within(base as int, size as int, addr as int) || words > room {
        Err(ErrorKind::Bounds)
    } else {
        Ok(CrcPlan { aligned_addr: align_down(addr as int, 4) as u32, word_count: words as u32 })
    }
}

/// The plan of an erase of `pages` pages from the page of `addr` on (of all
/// pages from there to the end where `pages` is `None`).
pub open spec fn erase_plan(
    base: u32,
    page_size: u32,
    size: u32,
    addr: u32,
    pages: Option<u32>,
) -> Result<ErasePlan, ErrorKind> {
    let aligned = align_down(addr as int, page_size as int);
    let room = size / page_size - (addr - base) / (page_size as int);
    let count = match pages {
        Some(p) => p as int,
        None => room,
    };
    if !within(base as int, size as int, addr as int) || aligned < base || count > room {
        Err(ErrorKind::Bounds)
    } else {
        Ok(ErasePlan { aligned_addr: aligned as u32, page_count: count as u32 })
    }
}

/// The plan of a write of `len` bytes at `addr`.
pub open spec fn write_plan(base: u32, page_size: u32, size: u32, addr: u32, len: nat) -> Result<
    WritePlan,
    ErrorKind,
> {
    let aligned = align_down(addr as int, page_size as int);
    let head = addr - aligned;
    let pages = ceil_div(len + head, page_size as int);
    if !within(base as int, size as int, addr as int) || aligned < base || size < pages * page_size
        + (aligned - base) {
        Err(ErrorKind::Bounds)
    } else {
        Ok(
            WritePlan {
                aligned_addr: aligned as u32,
                page_size,
                page_count: pages as u32,
                head_slack: head as u32,
                tail_slack: (pages * page_size - (len + head)) as u32,
            },
        )
    }
}

/// Rounding down to a multiple of `unit` loses less than `unit`.
pub proof fn lemma_align_down(a: int, unit: int)
    requires
        0 <= a,
        0 < unit,
    ensures
        0 <= a / unit <= a,
        align_down(a, unit) <= a < align_down(a, unit) + unit,
        a - align_down(a, unit) == a % unit,
        0 <= align_down(a, unit),
{
    lemma_fundamental_div_mod(a, unit);
    lemma_mod_bound(a, unit);
    assert(unit * (a / unit) == (a / unit) * unit) by (nonlinear_arith);
    assert(0 <= a / unit <= a) by (nonlinear_arith)
        requires
            0 <= a,
            0 < unit,
            a == unit * (a / unit) + a % unit,
            0 <= a % unit < unit,
    ;
    assert(0 <= (a / unit) * unit) by (nonlinear_arith)
        requires
            0 <= a / unit,
            0 < unit,
    ;
}

/// Rounding up to a multiple of `unit` adds less than `unit`.
pub proof fn lemma_ceil_div(a: int, unit: int)
    requires
        0 <= a,
        0 < unit,
    ensures
        0 <= ceil_div(a, unit),
        a <= ceil_div(a, unit) * unit < a + unit,
        a / unit <= ceil_div(a, unit),
{
    lemma_align_down(a + unit - 1, unit);
    lemma_div_is_ordered(a, a + unit - 1, unit);
}

/// A whole number of units divides back to that number.
pub proof fn lemma_div_of_multiple(k: int, unit: int)
    requires
        0 < unit,
    ensures
        (k * unit) / unit == k,
        (k * unit) % unit == 0,
{
    vstd::arithmetic::div_mod::lemma_fundamental_div_mod_converse(k * unit, unit, k, 0);
    assert(unit * k == k * unit) by (nonlinear_arith);
}

impl WritePlan {
    /// The bytes that the write sends: whole pages.
    pub open spec fn span(&self) -> int {
        self.page_count * self.page_size
    }

    /// The address of the last page.
    pub open spec fn last_page(&self) -> int {
        self.aligned_addr + (self.page_count - 1) * self.page_size
    }

    /// The plan is one for `len` bytes in a memory of `size` bytes at `base`:
    /// its pages hold the slack and the bytes and lie within the memory.
    pub open spec fn covers(&self, base: u32, size: u32, len: nat) -> bool {
        &&& self.page_size > 0
        &&& self.head_slack < self.page_size
        &&& self.tail_slack < self.page_size
        &&& self.span() == self.head_slack + len + self.tail_slack
        &&& base <= self.aligned_addr
        &&& self.aligned_addr + self.span() <= base + size
        &&& base + size <= 0x1_0000_0000
        &&& self.aligned_addr % self.page_size == 0
    }
}

/// A plan that `write_plan` gives covers the bytes it was made for.
pub proof fn lemma_write_plan_covers(base: u32, page_size: u32, size: u32, addr: u32, len: nat)
    requires
        page_size > 0,
        write_plan(base, page_size, size, addr, len) is Ok,
    ensures
        write_plan(base, page_size, size, addr, len).unwrap().covers(base, size, len),
        write_plan(base, page_size, size, addr, len).unwrap().aligned_addr
            + write_plan(base, page_size, size, addr, len).unwrap().head_slack == addr,
        write_plan(base, page_size, size, addr, len).unwrap().page_size == page_size,
{
    lemma_align_down(addr as int, page_size as int);
    let aligned = align_down(addr as int, page_size as int);
    let head = addr - aligned;
    lemma_ceil_div(len + head, page_size as int);
    lemma_div_of_multiple(addr as int / page_size as int, page_size as int);
    let pages = ceil_div(len + head, page_size as int);
    assert(pages <= pages * page_size) by (nonlinear_arith)
        requires
            pages >= 0,
            page_size >= 1,
    ;
}

/// The pages of a planned write are pages that an erase of the same memory
/// names without error: erasing them before the write is itself within
/// bounds.
pub proof fn lemma_write_pages_can_be_erased(
    base: u32,
    page_size: u32,
    size: u32,
    addr: u32,
    len: nat,
)
    requires
        page_size > 0,
        write_plan(base, page_size, size, addr, len) is Ok,
    ensures
        ({
            let plan = write_plan(base, page_size, size, addr, len).unwrap();
            erase_plan(base, page_size, size, plan.aligned_addr, Some(plan.page_count)) == Ok::<
                ErasePlan,
                ErrorKind,
            >(ErasePlan { aligned_addr: plan.aligned_addr, page_count: plan.page_count })
        }),
{
    let plan = write_plan(base, page_size, size, addr, len).unwrap();
    let unit = page_size as int;
    lemma_write_plan_covers(base, page_size, size, addr, len);
    lemma_align_down(addr as int, unit);
    lemma_div_of_multiple(addr as int / unit, unit);
    let aligned = plan.aligned_addr as int;
    assert(align_down(aligned, unit) == aligned);
    let before = aligned - base;
    lemma_align_down(before, unit);
    lemma_align_down(size as int, unit);
    let a = before / unit;
    let whole = size as int / unit;
    let count = plan.page_count as int;
    assert(a + count <= whole) by (nonlinear_arith)
        requires
            a * unit <= before,
            count * unit + before <= size,
            size < whole * unit + unit,
            unit > 0,
    ;
}

/// A planned read asks for no more than the memory holds, and what it asks
/// for holds the user's bytes.
pub proof fn lemma_read_plan_fits(base: u32, unit: u32, size: u32, addr: u32, len: Option<u32>)
    requires
        unit > 0,
        read_plan(base, unit, size, addr, len) is Ok,
    ensures
        read_plan(base, unit, size, addr, len).unwrap().count * unit <= size,
        read_plan(base, unit, size, addr, len).unwrap().offset + read_plan(
            base,
            unit,
            size,
            addr,
            len,
        ).unwrap().len <= read_plan(base, unit, size, addr, len).unwrap().count * unit,
        read_plan(base, unit, size, addr, len).unwrap().aligned_addr + read_plan(
            base,
            unit,
            size,
            addr,
            len,
        ).unwrap().offset == addr,
{
    let plan = read_plan(base, unit, size, addr, len).unwrap();
    let length: int = match len {
        Some(l) => l as int,
        None => size - (addr - base),
    };
    let aligned = align_down(addr as int, unit as int);
    lemma_align_down(addr as int, unit as int);
    lemma_align_down(size as int, unit as int);
    lemma_align_down(aligned - base, unit as int);
    lemma_ceil_div(addr + length, unit as int);
    lemma_div_is_ordered(addr as int, addr + length, unit as int);
    let count = ceil_div(addr + length, unit as int) - addr as int / (unit as int);
    let whole = size as int / unit as int;
    assert(count * unit <= whole * unit) by (nonlinear_arith)
        requires
            0 <= count <= whole,
            unit > 0,
    ;
    assert(count * unit == ceil_div(addr + length, unit as int) * unit - (addr as int / (
    unit as int)) * unit) by (nonlinear_arith)
        requires
            count == ceil_div(addr + length, unit as int) - addr as int / (unit as int),
    ;
}

/// A planned erase of a memory that starts at a page boundary stays within
/// the memory.
pub proof fn lemma_erase_plan_fits(base: u32, page_size: u32, size: u32, addr: u32, pages: Option<u32>)
    requires
        page_size > 0,
        base % page_size == 0,
        erase_plan(base, page_size, size, addr, pages) is Ok,
    ensures
        base <= erase_plan(base, page_size, size, addr, pages).unwrap().aligned_addr,
        erase_plan(base, page_size, size, addr, pages).unwrap().aligned_addr + erase_plan(
            base,
            page_size,
            size,
            addr,
            pages,
        ).unwrap().page_count * page_size <= base + size,
{
    let plan = erase_plan(base, page_size, size, addr, pages).unwrap();
    let unit = page_size as int;
    lemma_align_down(addr as int, unit);
    lemma_align_down(size as int, unit);
    lemma_align_down(addr - base, unit);
    lemma_align_down(base as int, unit);
    let q = (addr - base) / unit;
    let b = base as int / unit;
    // The address is `b + q` pages and a rest from zero.
    assert((b + q) * unit == b * unit + q * unit) by (nonlinear_arith);
    assert(unit * (b + q) == (b + q) * unit) by (nonlinear_arith);
    vstd::arithmetic::div_mod::lemma_fundamental_div_mod_converse(
        addr as int,
        unit,
        b + q,
        (addr - base) % unit,
    );
    let whole = size as int / unit;
    lemma_div_is_ordered(addr - base, size as int, unit);
    let count = plan.page_count as int;
    assert((q + count) * unit <= whole * unit) by (nonlinear_arith)
        requires
            q + count <= whole,
            unit > 0,
    ;
    assert((q + count) * unit == q * unit + count * unit) by (nonlinear_arith);
}

/// Whether `addr` lies in the memory of `size` bytes at `base`.
pub fn in_memory(base: u32, size: u32, addr: u32) -> (inside: bool)
    ensures
        inside == within(base as int, size as int, addr as int),
{
    base <= addr && addr - base < size && base as u64 + size as u64 <= 0x1_0000_0000
}

/// Plans a read in units of `unit` bytes.
pub fn plan_read(base: u32, unit: u32, size: u32, addr: u32, len: Option<u32>) -> (plan: Result<
    ReadPlan,
    ErrorKind,
>)
    requires
        unit > 0,
    ensures
        plan == read_plan(base, unit, size, addr, len),
{
    if !in_memory(base, size, addr) {
        return Err(ErrorKind::Bounds);
    }
    let length: u64 = match len {
        Some(l) => l as u64,
        None => (size - (addr - base)) as u64,
    };
    let unit64: u64 = unit as u64;
    let first: u64 = addr as u64 / unit64;
    let end: u64 = addr as u64 + length;
    proof {
        lemma_align_down(addr as int, unit as int);
        lemma_ceil_div(end as int, unit as int);
        lemma_div_is_ordered(addr as int, end as int, unit as int);
    }
    let aligned: u64 = first * unit64;
    let count: u64 = (end + unit64 - 1) / unit64 - first;
    if aligned < base as u64 {
        return Err(ErrorKind::Bounds);
    }
    proof {
        lemma_align_down(size as int, unit as int);
        lemma_align_down(aligned - base, unit as int);
        lemma_div_is_ordered(aligned - base, size as int, unit as int);
    }
    let room: u64 = size as u64 / unit64 - (aligned - base as u64) / unit64;
    if count > room {
        return Err(ErrorKind::Bounds);
    }
    Ok(
        ReadPlan {
            aligned_addr: aligned as u32,
            count: count as u32,
            offset: (addr % unit),
            len: length as u32,
        },
    )
}

/// Plans a checksum over whole words.
pub fn plan_crc(base: u32, size: u32, addr: u32, len: Option<u32>) -> (plan: Result<
    CrcPlan,
    ErrorKind,
>)
    ensures
        plan == crc_plan(base, size, addr, len),
{
    if !in_memory(base, size, addr) {
        return Err(ErrorKind::Bounds);
    }
    let room: u64 = (size / 4 - (addr - base) / 4) as u64;
    let words: u64 = match len {
        Some(l) => (addr as u64 + l as u64 + 3) / 4 - (addr / 4) as u64,
        None => room,
    };
    if words > room {
        return Err(ErrorKind::Bounds);
    }
    Ok(CrcPlan { aligned_addr: addr / 4 * 4, word_count: words as u32 })
}

/// Plans an erase of whole pages.
pub fn plan_erase(base: u32, page_size: u32, size: u32, addr: u32, pages: Option<u32>) -> (plan:
    Result<ErasePlan, ErrorKind>)
    requires
        page_size > 0,
    ensures
        plan == erase_plan(base, page_size, size, addr, pages),
{
    if !in_memory(base, size, addr) {
        return Err(ErrorKind::Bounds);
    }
    proof {
        lemma_align_down(addr as int, page_size as int);
        lemma_align_down(size as int, page_size as int);
        lemma_align_down(addr - base, page_size as int);
        lemma_div_is_ordered(addr - base, size as int, page_size as int);
    }
    let aligned: u32 = addr / page_size * page_size;
    let room: u32 = size / page_size - (addr - base) / page_size;
    let count: u32 = match pages {
        Some(p) => p,
        None => room,
    };
    if aligned < base || count > room {
        return Err(ErrorKind::Bounds);
    }
    Ok(ErasePlan { aligned_addr: aligned, page_count: count })
}

/// Plans a write of `len` bytes.
pub fn plan_write(base: u32, page_size: u32, size: u32, addr: u32, len: usize) -> (plan: Result<
    WritePlan,
    ErrorKind,
>)
    requires
        page_size > 0,
    ensures
        plan == write_plan(base, page_size, size, addr, len as nat),
{
    if !in_memory(base, size, addr) {
        return Err(ErrorKind::Bounds);
    }
    proof {
        lemma_align_down(addr as int, page_size as int);
    }
    let aligned: u32 = addr / page_size * page_size;
    if aligned < base {
        return Err(ErrorKind::Bounds);
    }
    let head: u32 = addr - aligned;
    proof {
        lemma_ceil_div(len + head, page_size as int);
    }
    if len > size as usize {
        return Err(ErrorKind::Bounds);
    }
    let filled: u64 = len as u64 + head as u64;
    let pages: u64 = (filled + page_size as u64 - 1) / (page_size as u64);
    assert(pages * page_size < 0x3_0000_0000) by (nonlinear_arith)
        requires
            pages * page_size < filled + page_size,
            filled < 0x2_0000_0000,
            page_size < 0x1_0000_0000,
    ;
    let span: u64 = pages * page_size as u64;
    if (size as u64) < span + (aligned - base) as u64 {
        return Err(ErrorKind::Bounds);
    }
    assert(pages <= span) by (nonlinear_arith)
        requires
            span == pages * page_size,
            page_size >= 1,
            pages >= 0,
    ;
    Ok(
        WritePlan {
            aligned_addr: aligned,
            page_size,
            page_count: pages as u32,
            head_slack: head,
            tail_slack: (span - filled) as u32,
        },
    )
}

} // verus!
