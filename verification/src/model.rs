//! The flash as the device holds it, and what the planner's windows mean for
//! it: a write leaves every byte outside the user's range as it was, a read
//! of a range that was written gives the bytes back, an erase is idempotent.

use vstd::prelude::*;
use crate::commands::{
    number_of, read_c_spec, read_eflash_spec, write_c_spec, write_eflash_spec, write_length,
    WriteJob,
};
use crate::plan::{
    align_down, ceil_div, erase_plan, lemma_align_down, lemma_ceil_div, lemma_div_of_multiple,
    lemma_read_plan_fits, read_plan, FLASH_USERDATA_ADDRESS,
};
use crate::script::{payload_of, resized};

verus! {

/// What a read of `len` bytes at `offset` gives.
pub open spec fn stored(mem: Seq<u8>, offset: int, len: int) -> Seq<u8> {
    mem.subrange(offset, offset + len)
}

/// The memory after `bytes` were written at `offset`.
pub open spec fn written(mem: Seq<u8>, offset: int, bytes: Seq<u8>) -> Seq<u8> {
    mem.subrange(0, offset) + bytes + mem.subrange(offset + bytes.len(), mem.len() as int)
}

/// The memory after `len` bytes at `offset` were erased: every byte of the
/// memory that lies in the range reads as `0xFF`, every other byte is what
/// it was.
pub open spec fn erased(mem: Seq<u8>, offset: int, len: int) -> Seq<u8> {
    Seq::new(
        mem.len(),
        |i: int|
            if offset <= i < offset + len {
                0xFFu8
            } else {
                mem[i]
            },
    )
}

/// How many bytes the read of one page for a write brings: the words of a
/// page of the internal flash, one page of the external flash.
pub open spec fn page_read_len(job: WriteJob) -> int {
    if job.external {
        256
    } else {
        (job.plan.page_size / 4) * 4
    }
}

/// The payload that a write sends, given the memory as it is before the
/// write: the slack comes from the pages that the device holds.
pub open spec fn payload_from(job: WriteJob, base: u32, mem: Seq<u8>, data: Seq<u8>) -> Option<
    Seq<u8>,
> {
    payload_of(
        job.plan,
        data,
        stored(mem, job.plan.aligned_addr - base, page_read_len(job)),
        stored(mem, job.plan.last_page() - base, page_read_len(job)),
    )
}

/// The memory after a write: its pages erased, then the payload written.
pub open spec fn after_write(job: WriteJob, base: u32, mem: Seq<u8>, payload: Seq<u8>) -> Seq<u8> {
    written(
        erased(mem, job.plan.aligned_addr - base, job.plan.span()),
        job.plan.aligned_addr - base,
        payload,
    )
}

/// A write changes the user's range and nothing else: the payload fills
/// the planned pages exactly, and after the pages were erased and the
/// payload written, every byte outside `[addr, addr + len)` is what it was,
/// and the range holds the data.
pub proof fn lemma_write_keeps_slack(
    job: WriteJob,
    base: u32,
    size: u32,
    addr: u32,
    mem: Seq<u8>,
    data: Seq<u8>,
)
    requires
        mem.len() == size,
        job.plan.covers(base, size, data.len()),
        job.plan.aligned_addr + job.plan.head_slack == addr,
        job.page_is_readable(),
    ensures
        payload_from(job, base, mem, data) is Some,
        payload_from(job, base, mem, data).unwrap().len() == job.plan.span(),
        after_write(job, base, mem, payload_from(job, base, mem, data).unwrap()).len() == mem.len(),
        forall|i: int|
            0 <= i < mem.len() && !(addr - base <= i < addr - base + data.len())
                ==> #[trigger] after_write(
                job,
                base,
                mem,
                payload_from(job, base, mem, data).unwrap(),
            )[i] == mem[i],
        stored(
            after_write(job, base, mem, payload_from(job, base, mem, data).unwrap()),
            addr - base,
            data.len() as int,
        ) == data,
{
    let plan = job.plan;
    let page = plan.page_size as int;
    let off = plan.aligned_addr - base;
    let span = plan.span();
    assert(page_read_len(job) == page) by {
        if !job.external {
            lemma_align_down(page, 4);
        }
    }
    if plan.head_slack > 0 || plan.tail_slack > 0 {
        assert(plan.page_count >= 1) by (nonlinear_arith)
            requires
                plan.page_count * plan.page_size >= 1,
                plan.page_size > 0,
        ;
    }
    assert((plan.page_count - 1) * page + page == span) by (nonlinear_arith)
        requires
            span == plan.page_count * page,
    ;
    let first = stored(mem, off, page);
    let last = stored(mem, plan.last_page() - base, page);
    let payload = payload_from(job, base, mem, data).unwrap();
    let after = after_write(job, base, mem, payload);
    assert forall|i: int|
        0 <= i < mem.len() && !(addr - base <= i < addr - base + data.len()) implies after[i]
        == mem[i] by {
        if off <= i < off + span {
            if i < addr - base {
                assert(payload[i - off] == first[i - off]);
            } else {
                let k = i - off;
                assert(payload[k] == last[k - (span - page)]);
            }
        }
    }
    assert(stored(after, addr - base, data.len() as int) =~= data);
}

/// Round trip: after a write of `data` at `addr`, the read of the same range
/// is planned without error and gives `data`.
///
/// `unit` is the unit of the read: a word on the internal flash, a page on
/// the external one. The memory starts at a multiple of it and a page is a
/// whole number of units.
pub proof fn lemma_write_then_read(
    job: WriteJob,
    base: u32,
    unit: u32,
    size: u32,
    addr: u32,
    mem: Seq<u8>,
    data: Seq<u8>,
)
    requires
        mem.len() == size,
        job.plan.covers(base, size, data.len()),
        job.plan.aligned_addr + job.plan.head_slack == addr,
        job.page_is_readable(),
        addr < base + size,
        unit > 0,
        base % unit == 0,
        job.plan.page_size % unit == 0,
    ensures
        read_plan(base, unit, size, addr, Some(data.len() as u32)) is Ok,
        ({
            let read = read_plan(base, unit, size, addr, Some(data.len() as u32)).unwrap();
            let after = after_write(job, base, mem, payload_from(job, base, mem, data).unwrap());
            stored(after, read.aligned_addr - base, read.count * unit).subrange(
                read.offset as int,
                read.offset + read.len,
            ) == data
        }),
{
    lemma_write_keeps_slack(job, base, size, addr, mem, data);
    let plan = job.plan;
    let u = unit as int;
    let len = data.len() as int;
    let end = plan.aligned_addr + plan.span();
    let after = after_write(job, base, mem, payload_from(job, base, mem, data).unwrap());
    // The end of the window is a multiple of the unit, so the units that
    // overlap the range end within the window.
    lemma_multiple(plan.aligned_addr as int, plan.page_size as int, u);
    lemma_div_of_multiple(plan.page_count as int, plan.page_size as int);
    assert(0 <= plan.span()) by (nonlinear_arith)
        requires
            plan.span() == plan.page_count * plan.page_size,
    ;
    lemma_multiple(plan.span(), plan.page_size as int, u);
    assert(end % u == 0) by {
        vstd::arithmetic::div_mod::lemma_mod_adds(plan.aligned_addr as int, plan.span(), u);
    }
    let aligned = align_down(addr as int, u);
    lemma_align_down(addr as int, u);
    lemma_ceil_div(addr + len, u);
    let top = ceil_div(addr + len, u);
    assert(top * u <= end) by {
        lemma_round_up_below(addr + len, end, u);
    }
    assert(aligned >= base) by {
        lemma_round_down_above(addr as int, base as int, u);
    }
    lemma_align_down(size as int, u);
    lemma_align_down(aligned - base, u);
    let count = top - addr as int / u;
    assert(count * u == top * u - (addr as int / u) * u) by (nonlinear_arith)
        requires
            count == top - addr as int / u,
    ;
    // Both ends of the units read lie on multiples of the unit within the
    // memory, so their number fits the room.
    assert((aligned - base) % u == 0) by {
        vstd::arithmetic::div_mod::lemma_fundamental_div_mod(base as int, u);
        let k = addr as int / u - base as int / u;
        assert(aligned - base == k * u) by (nonlinear_arith)
            requires
                aligned == (addr as int / u) * u,
                base == u * (base as int / u),
                k == addr as int / u - base as int / u,
        ;
        lemma_div_of_multiple(k, u);
    }
    assert(count <= size as int / u - (aligned - base) / u) by {
        lemma_units_fit(aligned - base, (aligned - base) + count * u, size as int, u, count);
    }
    vstd::arithmetic::div_mod::lemma_div_is_ordered(addr as int, addr + len, u);
    let read = read_plan(base, unit, size, addr, Some(data.len() as u32)).unwrap();
    lemma_read_plan_fits(base, unit, size, addr, Some(data.len() as u32));
    assert(stored(after, read.aligned_addr - base, read.count * unit).subrange(
        read.offset as int,
        read.offset + read.len,
    ) =~= stored(after, addr - base, len));
}

/// A multiple of `page` is a multiple of every `unit` that divides `page`.
pub proof fn lemma_multiple(a: int, page: int, unit: int)
    requires
        0 <= a,
        0 < unit,
        0 < page,
        page % unit == 0,
        a % page == 0,
    ensures
        a % unit == 0,
{
    vstd::arithmetic::div_mod::lemma_fundamental_div_mod(a, page);
    vstd::arithmetic::div_mod::lemma_fundamental_div_mod(page, unit);
    let k = a / page;
    let m = page / unit;
    assert(a == (k * m) * unit) by (nonlinear_arith)
        requires
            a == page * k,
            page == unit * m,
    ;
    lemma_div_of_multiple(k * m, unit);
}

/// Rounding up to a multiple of `unit` stays below every multiple of `unit`
/// that is no smaller.
proof fn lemma_round_up_below(a: int, bound: int, unit: int)
    requires
        0 <= a <= bound,
        0 < unit,
        bound % unit == 0,
    ensures
        ceil_div(a, unit) * unit <= bound,
{
    lemma_ceil_div(a, unit);
    vstd::arithmetic::div_mod::lemma_fundamental_div_mod(bound, unit);
    let top = ceil_div(a, unit);
    let whole = bound / unit;
    assert(top <= whole) by (nonlinear_arith)
        requires
            top * unit < a + unit,
            a <= bound,
            bound == unit * whole,
            0 < unit,
    ;
    assert(top * unit <= whole * unit) by (nonlinear_arith)
        requires
            top <= whole,
            0 < unit,
    ;
    assert(whole * unit == unit * whole) by (nonlinear_arith);
}

/// Rounding down to a multiple of `unit` stays above every multiple of
/// `unit` that is no larger.
proof fn lemma_round_down_above(a: int, bound: int, unit: int)
    requires
        0 <= bound <= a,
        0 < unit,
        bound % unit == 0,
    ensures
        align_down(a, unit) >= bound,
{
    lemma_align_down(a, unit);
    vstd::arithmetic::div_mod::lemma_fundamental_div_mod(bound, unit);
    let low = a / unit;
    let whole = bound / unit;
    assert(whole <= low) by (nonlinear_arith)
        requires
            bound == unit * whole,
            a < low * unit + unit,
            bound <= a,
            0 < unit,
    ;
    assert(whole * unit <= low * unit) by (nonlinear_arith)
        requires
            whole <= low,
            0 < unit,
    ;
    assert(whole * unit == unit * whole) by (nonlinear_arith);
}

/// `count` units from `from` to `to`, both within `size`, are no more than
/// the whole units of `size` behind those before `from`.
proof fn lemma_units_fit(from: int, to: int, size: int, unit: int, count: int)
    requires
        0 <= from,
        0 <= size,
        to == from + count * unit,
        to <= size,
        0 < unit,
        from % unit == 0,
    ensures
        count <= size / unit - from / unit,
{
    vstd::arithmetic::div_mod::lemma_fundamental_div_mod(from, unit);
    lemma_align_down(size, unit);
    let f = from / unit;
    let whole = size / unit;
    assert(f + count <= whole) by (nonlinear_arith)
        requires
            from == unit * f,
            from + count * unit <= size,
            size < whole * unit + unit,
            0 < unit,
    ;
}

/// Erasing is idempotent: a second erase of the same range changes nothing,
/// every byte of the range reads as `0xFF`, and every other byte is what it
/// was.
pub proof fn lemma_erase_idempotent(mem: Seq<u8>, offset: int, len: int)
    ensures
        erased(erased(mem, offset, len), offset, len) == erased(mem, offset, len),
        erased(mem, offset, len).len() == mem.len(),
        forall|i: int|
            0 <= i < mem.len() && offset <= i < offset + len ==> #[trigger] erased(
                mem,
                offset,
                len,
            )[i] == 0xFF,
        forall|i: int|
            0 <= i < mem.len() && !(offset <= i < offset + len) ==> #[trigger] erased(
                mem,
                offset,
                len,
            )[i] == mem[i],
{
    assert(erased(erased(mem, offset, len), offset, len) =~= erased(mem, offset, len));
}

/// Idempotence of erase: a planned erase names pages from the base on, and
/// erasing them once more changes nothing. After the first erase and after
/// the second, every byte of the flash that lies in the pages reads as
/// `0xFF` and every other byte is what it was before the first.
pub proof fn lemma_planned_erase_is_idempotent(
    base: u32,
    page_size: u32,
    size: u32,
    addr: u32,
    pages: Option<u32>,
    mem: Seq<u8>,
)
    requires
        mem.len() == size,
        page_size > 0,
        erase_plan(base, page_size, size, addr, pages) is Ok,
    ensures
        ({
            let plan = erase_plan(base, page_size, size, addr, pages).unwrap();
            let offset = plan.aligned_addr - base;
            let len = plan.page_count * page_size;
            let once = erased(mem, offset, len);
            let twice = erased(once, offset, len);
            &&& 0 <= offset
            &&& twice == once
            &&& once.len() == mem.len()
            &&& forall|i: int|
                0 <= i < mem.len() && offset <= i < offset + len ==> #[trigger] once[i] == 0xFF
            &&& forall|i: int|
                0 <= i < mem.len() && !(offset <= i < offset + len) ==> #[trigger] once[i]
                    == mem[i]
        }),
{
    let plan = erase_plan(base, page_size, size, addr, pages).unwrap();
    lemma_align_down(addr as int, page_size as int);
    lemma_erase_idempotent(mem, plan.aligned_addr - base, plan.page_count * page_size);
}

/// Non-destructive alignment on the internal flash: a write that is planned
/// without error sends a payload that fills its pages exactly, and after
/// the pages were erased and the payload written, every byte of the flash
/// outside the user's range is what it was, and the range holds what was
/// written, that is the data cut or padded to the length of the write.
pub proof fn lemma_write_c_keeps_slack(
    info: Map<Seq<u8>, Seq<u8>>,
    loader_info: Map<Seq<u8>, Seq<u8>>,
    addr: u32,
    len: Option<u32>,
    mem: Seq<u8>,
    data: Seq<u8>,
)
    requires
        write_c_spec(info, loader_info, data.len(), addr, len) is Ok,
        mem.len() == number_of(info, "FlashSize"@).unwrap(),
    ensures
        ({
            let job = write_c_spec(info, loader_info, data.len(), addr, len).unwrap();
            let sent = resized(data, write_length(data.len(), len));
            let offset = addr - FLASH_USERDATA_ADDRESS;
            let payload = payload_from(job, FLASH_USERDATA_ADDRESS, mem, sent);
            let after = after_write(job, FLASH_USERDATA_ADDRESS, mem, payload.unwrap());
            &&& payload is Some
            &&& payload.unwrap().len() == job.plan.span()
            &&& after.len() == mem.len()
            &&& forall|i: int|
                0 <= i < mem.len() && !(offset <= i < offset + sent.len()) ==> #[trigger] after[i]
                    == mem[i]
            &&& stored(after, offset, sent.len() as int) == sent
        }),
{
    let job = write_c_spec(info, loader_info, data.len(), addr, len).unwrap();
    let sent = resized(data, write_length(data.len(), len));
    let size = number_of(info, "FlashSize"@).unwrap();
    crate::commands::lemma_write_c_sound(info, loader_info, data.len(), addr, len);
    lemma_write_keeps_slack(job, FLASH_USERDATA_ADDRESS, size, addr, mem, sent);
}

/// Round trip on the internal flash: after a write that is planned without
/// error, the read of the same range is planned without error and gives
/// back what was written.
pub proof fn lemma_write_c_round_trip(
    info: Map<Seq<u8>, Seq<u8>>,
    loader_info: Map<Seq<u8>, Seq<u8>>,
    addr: u32,
    len: Option<u32>,
    mem: Seq<u8>,
    data: Seq<u8>,
)
    requires
        write_c_spec(info, loader_info, data.len(), addr, len) is Ok,
        mem.len() == number_of(info, "FlashSize"@).unwrap(),
    ensures
        ({
            let job = write_c_spec(info, loader_info, data.len(), addr, len).unwrap();
            let sent = resized(data, write_length(data.len(), len));
            let after = after_write(
                job,
                FLASH_USERDATA_ADDRESS,
                mem,
                payload_from(job, FLASH_USERDATA_ADDRESS, mem, sent).unwrap(),
            );
            &&& read_c_spec(info, addr, Some(sent.len() as u32)) matches Ok(read)
            &&& stored(after, read.aligned_addr - FLASH_USERDATA_ADDRESS, read.count * 4).subrange(
                read.offset as int,
                read.offset + read.len,
            ) == sent
        }),
{
    let job = write_c_spec(info, loader_info, data.len(), addr, len).unwrap();
    let sent = resized(data, write_length(data.len(), len));
    let size = number_of(info, "FlashSize"@).unwrap();
    crate::commands::lemma_write_c_sound(info, loader_info, data.len(), addr, len);
    lemma_write_then_read(job, FLASH_USERDATA_ADDRESS, 4, size, addr, mem, sent);
}

/// Non-destructive alignment on the external flash: a write that is planned
/// without error changes the user's range and nothing else.
pub proof fn lemma_write_eflash_keeps_slack(
    loader_info: Map<Seq<u8>, Seq<u8>>,
    addr: u32,
    len: Option<u32>,
    mem: Seq<u8>,
    data: Seq<u8>,
)
    requires
        write_eflash_spec(loader_info, data.len(), addr, len) is Ok,
        mem.len() == number_of(loader_info, "SPIFlashSize"@).unwrap(),
    ensures
        ({
            let job = write_eflash_spec(loader_info, data.len(), addr, len).unwrap();
            let sent = resized(data, write_length(data.len(), len));
            let payload = payload_from(job, 0, mem, sent);
            let after = after_write(job, 0, mem, payload.unwrap());
            &&& payload is Some
            &&& payload.unwrap().len() == job.plan.span()
            &&& after.len() == mem.len()
            &&& forall|i: int|
                0 <= i < mem.len() && !(addr <= i < addr + sent.len()) ==> #[trigger] after[i]
                    == mem[i]
            &&& stored(after, addr as int, sent.len() as int) == sent
        }),
{
    let job = write_eflash_spec(loader_info, data.len(), addr, len).unwrap();
    let sent = resized(data, write_length(data.len(), len));
    let size = number_of(loader_info, "SPIFlashSize"@).unwrap();
    crate::commands::lemma_write_eflash_sound(loader_info, data.len(), addr, len);
    lemma_write_keeps_slack(job, 0, size, addr, mem, sent);
}

/// Round trip on the external flash: after a write that is planned without
/// error, the read of the same range is planned without error and gives
/// back what was written.
pub proof fn lemma_write_eflash_round_trip(
    loader_info: Map<Seq<u8>, Seq<u8>>,
    addr: u32,
    len: Option<u32>,
    mem: Seq<u8>,
    data: Seq<u8>,
)
    requires
        write_eflash_spec(loader_info, data.len(), addr, len) is Ok,
        mem.len() == number_of(loader_info, "SPIFlashSize"@).unwrap(),
    ensures
        ({
            let job = write_eflash_spec(loader_info, data.len(), addr, len).unwrap();
            let sent = resized(data, write_length(data.len(), len));
            let after = after_write(job, 0, mem, payload_from(job, 0, mem, sent).unwrap());
            &&& read_eflash_spec(loader_info, addr, Some(sent.len() as u32)) matches Ok(read)
            &&& stored(after, read.aligned_addr as int, read.count * 256).subrange(
                read.offset as int,
                read.offset + read.len,
            ) == sent
        }),
{
    let job = write_eflash_spec(loader_info, data.len(), addr, len).unwrap();
    let sent = resized(data, write_length(data.len(), len));
    let size = number_of(loader_info, "SPIFlashSize"@).unwrap();
    crate::commands::lemma_write_eflash_sound(loader_info, data.len(), addr, len);
    lemma_write_then_read(job, 0, 256, size, addr, mem, sent);
}

} // verus!
