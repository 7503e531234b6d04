//! Scripts: the steps that a command asks of the driver, in order, each with
//! what its reply must be.

use vstd::prelude::*;
use crate::checksum::{calculate_crc, crc32_iso_hdlc};
use crate::commands::WriteJob;
use crate::error::ErrorKind;
use crate::frame::{check_read_back, read_back_verdict};
use crate::plan::{ceil_div, ErasePlan, SPIERASELIMIT, SPIPAGESIZE};
use crate::protocol::{
    communicate, connect_request, crc_of_reply, crc_request, crc_value, erase_request,
    is_load_ready, is_write_ok, load_ready, loadbuffer_request, loader_request, rd_request,
    reports_error, request0, request1, request2, spierase_request, spird_request,
    spiwritebuffer_request, write_ok, writebuffer_request,
};
use crate::text::{append, copy_range};

verus! {

/// How the driver performs a step.
#[derive(Clone, Copy, Debug, PartialEq, Eq, Structural)]
pub enum OpKind {
    /// Clear the output buffer, write the request, flush, then read up to the
    /// sentinel.
    Exchange,
    /// Write the bytes as they are, then read up to the sentinel.
    Stream,
    /// Clear the output buffer, write the request, flush, then read exactly
    /// `len` bytes.
    Fetch,
    /// Read exactly `len` bytes.
    Read,
}

/// What the reply to a step must be.
#[derive(Clone, Copy, Debug, PartialEq, Eq, Structural)]
pub enum Expect {
    /// Text that reports no error.
    Ack,
    /// Text that reports no error and begins with `Load ready`.
    LoadReady,
    /// Exactly `Write OK\r\n`.
    WriteOk,
    /// Anything: an echo that is read and dropped.
    Echo,
    /// As many bytes as were asked for.
    Bytes,
    /// The four bytes `Done` behind a body and its checksum, which must agree.
    Footer,
    /// A checksum report that gives this value.
    Crc(u32),
}

/// One step of a script.
#[derive(Debug, PartialEq, Eq)]
pub struct Step {
    pub kind: OpKind,
    /// What to write; empty for `Read`.
    pub send: Vec<u8>,
    /// How many bytes to read for `Fetch` and `Read`.
    pub len: u32,
    pub expect: Expect,
}

/// A step as a plain value.
pub ghost struct StepView {
    pub kind: OpKind,
    pub send: Seq<u8>,
    pub len: u32,
    pub expect: Expect,
}

impl View for Step {
    type V = StepView;

    open spec fn view(&self) -> StepView {
        StepView { kind: self.kind, send: self.send@, len: self.len, expect: self.expect }
    }
}

/// A script as a sequence of plain values.
pub open spec fn steps_view(steps: Seq<Step>) -> Seq<StepView> {
    Seq::new(steps.len(), |i: int| steps[i]@)
}

/// Replies as a sequence of byte strings.
pub open spec fn texts_view(texts: Seq<Vec<u8>>) -> Seq<Seq<u8>> {
    Seq::new(texts.len(), |i: int| texts[i]@)
}

/// The step that sends `request` and waits for text.
pub open spec fn exchange(request: Seq<u8>, expect: Expect) -> StepView {
    StepView { kind: OpKind::Exchange, send: request, len: 0, expect }
}

/// The step that reads `len` bytes.
pub open spec fn read_exact(len: u32, expect: Expect) -> StepView {
    StepView { kind: OpKind::Read, send: Seq::empty(), len, expect }
}

/// The verdict on `reply` as the reply to `step`, `earlier` being the replies
/// to the steps before it.
pub open spec fn verdict(step: StepView, earlier: Seq<Seq<u8>>, reply: Seq<u8>) -> Result<
    (),
    ErrorKind,
> {
    match step.expect {
        Expect::Ack => if reports_error(reply) {
            Err(ErrorKind::Protocol)
        } else {
            Ok(())
        },
        Expect::LoadReady => if load_ready(reply) {
            Ok(())
        } else {
            Err(ErrorKind::Protocol)
        },
        Expect::WriteOk => if write_ok(reply) {
            Ok(())
        } else {
            Err(ErrorKind::Protocol)
        },
        Expect::Echo => Ok(()),
        Expect::Bytes => if reply.len() == step.len {
            Ok(())
        } else {
            Err(ErrorKind::Transport)
        },
        Expect::Footer => if reply.len() != step.len || earlier.len() < 2 {
            Err(ErrorKind::Transport)
        } else {
            read_back_verdict(earlier[earlier.len() - 2], earlier[earlier.len() - 1], reply)
        },
        Expect::Crc(expected) => match crc_of_reply(reply) {
            Err(kind) => Err(kind),
            Ok(value) => if value == expected {
                Ok(())
            } else {
                Err(ErrorKind::Integrity)
            },
        },
    }
}

/// Judges the reply to a step.
pub fn judge(step: &Step, earlier: &Vec<Vec<u8>>, reply: &[u8]) -> (outcome: Result<(), ErrorKind>)
    ensures
        outcome == verdict(step@, texts_view(earlier@), reply@),
{
    match step.expect {
        Expect::Ack => communicate(reply),
        Expect::LoadReady => if is_load_ready(reply) {
            Ok(())
        } else {
            Err(ErrorKind::Protocol)
        },
        Expect::WriteOk => if is_write_ok(reply) {
            Ok(())
        } else {
            Err(ErrorKind::Protocol)
        },
        Expect::Echo => Ok(()),
        Expect::Bytes => if reply.len() == step.len as usize {
            Ok(())
        } else {
            Err(ErrorKind::Transport)
        },
        Expect::Footer => {
            let n = earlier.len();
            if reply.len() != step.len as usize || n < 2 {
                Err(ErrorKind::Transport)
            } else {
                check_read_back(earlier[n - 2].as_slice(), earlier[n - 1].as_slice(), reply)
            }
        },
        Expect::Crc(expected) => match crc_value(reply) {
            Err(kind) => Err(kind),
            Ok(value) => if value == expected {
                Ok(())
            } else {
                Err(ErrorKind::Integrity)
            },
        },
    }
}

/// Appends the step that sends `request` and waits for text.
pub fn push_exchange(script: &mut Vec<Step>, request: Vec<u8>, expect: Expect)
    ensures
        steps_view(final(script)@) == steps_view(old(script)@).push(exchange(request@, expect)),
{
    script.push(Step { kind: OpKind::Exchange, send: request, len: 0, expect });
    assert(steps_view(script@) =~= steps_view(old(script)@).push(exchange(request@, expect)));
}

/// The steps that read a body back: the request and the body, the four bytes
/// of its checksum, and the four bytes `Done`.
pub open spec fn read_back_steps(request: Seq<u8>, len: u32) -> Seq<StepView> {
    seq![
        StepView { kind: OpKind::Fetch, send: request, len, expect: Expect::Bytes },
        read_exact(4, Expect::Bytes),
        read_exact(4, Expect::Footer),
    ]
}

fn push_read_back(script: &mut Vec<Step>, request: Vec<u8>, len: u32)
    ensures
        steps_view(final(script)@) == steps_view(old(script)@) + read_back_steps(request@, len),
{
    script.push(Step { kind: OpKind::Fetch, send: request, len, expect: Expect::Bytes });
    script.push(Step { kind: OpKind::Read, send: Vec::new(), len: 4, expect: Expect::Bytes });
    script.push(Step { kind: OpKind::Read, send: Vec::new(), len: 4, expect: Expect::Footer });
    assert(steps_view(script@) =~= steps_view(old(script)@) + read_back_steps(request@, len));
}

/// Reading `words` words of the internal flash from the word of `addr` on.
pub open spec fn read_data_steps(addr: u32, words: u32) -> Seq<StepView> {
    read_back_steps(request2("rd"@, (addr / 4 * 4) as u32, words), (words * 4) as u32)
}

/// Reading `pages` pages of the external flash from `addr` on.
pub open spec fn read_eflash_data_steps(addr: u32, pages: u32) -> Seq<StepView> {
    read_back_steps(request2("spird"@, addr, pages), (pages * SPIPAGESIZE) as u32)
}

/// Appends the steps that read `words` words of the internal flash.
pub fn read_data(script: &mut Vec<Step>, addr: u32, words: u32)
    requires
        words * 4 <= u32::MAX,
    ensures
        steps_view(final(script)@) == steps_view(old(script)@) + read_data_steps(addr, words),
{
    push_read_back(script, rd_request(addr / 4 * 4, words), words * 4);
}

/// Appends the steps that read `pages` pages of the external flash.
pub fn read_eflash_data(script: &mut Vec<Step>, addr: u32, pages: u32)
    requires
        pages * SPIPAGESIZE <= u32::MAX,
    ensures
        steps_view(final(script)@) == steps_view(old(script)@) + read_eflash_data_steps(
            addr,
            pages,
        ),
{
    push_read_back(script, spird_request(addr, pages), pages * SPIPAGESIZE);
}

/// Streaming one chunk of the payload into the adapter's buffer.
pub open spec fn write_chunk_step(chunk: Seq<u8>) -> StepView {
    StepView { kind: OpKind::Stream, send: chunk, len: 0, expect: Expect::Echo }
}

/// Appends the step that streams `chunk`.
pub fn write_chunk(script: &mut Vec<Step>, chunk: Vec<u8>)
    ensures
        steps_view(final(script)@) == steps_view(old(script)@).push(write_chunk_step(chunk@)),
{
    script.push(Step { kind: OpKind::Stream, send: chunk, len: 0, expect: Expect::Echo });
    assert(steps_view(script@) =~= steps_view(old(script)@).push(write_chunk_step(chunk@)));
}

/// A command without a plan: `connect` once more, then the command itself.
pub open spec fn simple_command_steps(command: Seq<u8>) -> Seq<StepView> {
    seq![exchange(request0("connect"@), Expect::Ack), exchange(command, Expect::Ack)]
}

/// Appends the steps of a command without a plan.
pub fn simple_command(script: &mut Vec<Step>, command: Vec<u8>)
    ensures
        steps_view(final(script)@) == steps_view(old(script)@) + simple_command_steps(command@),
{
    push_exchange(script, connect_request(), Expect::Ack);
    push_exchange(script, command, Expect::Ack);
    assert(steps_view(script@) =~= steps_view(old(script)@) + simple_command_steps(command@));
}

/// Entering loader mode: `loader` twice, the second reply holding the block.
pub open spec fn loader_steps() -> Seq<StepView> {
    seq![exchange(request0("loader"@), Expect::Ack), exchange(request0("loader"@), Expect::Ack)]
}

/// Erasing `pages` pages of the external flash from `addr` on, in blocks of
/// at most 256 pages.
pub open spec fn spierase_steps(addr: int, pages: nat) -> Seq<StepView>
    decreases pages,
{
    if pages == 0 {
        Seq::empty()
    } else {
        let block: nat = if pages < SPIERASELIMIT {
            pages
        } else {
            SPIERASELIMIT as nat
        };
        seq![exchange(request2("spierase"@, addr as u32, block as u32), Expect::Ack)]
            + spierase_steps(addr + block * SPIPAGESIZE, (pages - block) as nat)
    }
}

/// Erasing the pages of a plan on the internal flash.
pub open spec fn erase_steps(plan: ErasePlan) -> Seq<StepView> {
    seq![exchange(request2("erase"@, plan.aligned_addr, plan.page_count), Expect::Ack)]
}

/// Appends the step that erases the pages of `plan` on the internal flash.
pub fn push_erase(script: &mut Vec<Step>, plan: ErasePlan)
    ensures
        steps_view(final(script)@) == steps_view(old(script)@) + erase_steps(plan),
{
    push_exchange(script, erase_request(plan.aligned_addr, plan.page_count), Expect::Ack);
    assert(steps_view(script@) =~= steps_view(old(script)@) + erase_steps(plan));
}

/// Appends the steps that erase the pages of `plan` on the external flash.
pub fn push_spierase(script: &mut Vec<Step>, plan: ErasePlan)
    requires
        plan.aligned_addr + plan.page_count * SPIPAGESIZE <= 0x1_0000_0000,
    ensures
        steps_view(final(script)@) == steps_view(old(script)@) + spierase_steps(
            plan.aligned_addr as int,
            plan.page_count as nat,
        ),
{
    let mut addr: u64 = plan.aligned_addr as u64;
    let mut pages: u32 = plan.page_count;
    while pages > 0
        invariant
            addr + pages * SPIPAGESIZE <= 0x1_0000_0000,
            steps_view(script@) + spierase_steps(addr as int, pages as nat) == steps_view(
                old(script)@,
            ) + spierase_steps(plan.aligned_addr as int, plan.page_count as nat),
        decreases pages,
    {
        let block: u32 = if pages < SPIERASELIMIT {
            pages
        } else {
            SPIERASELIMIT
        };
        let ghost before = steps_view(script@);
        let ghost step = exchange(request2("spierase"@, addr as u32, block), Expect::Ack);
        push_exchange(script, spierase_request(addr as u32, block), Expect::Ack);
        proof {
            let rest = spierase_steps(addr + block * SPIPAGESIZE, (pages - block) as nat);
            assert(before.push(step) + rest =~= before + (seq![step] + rest));
        }
        addr = addr + (block * SPIPAGESIZE) as u64;
        pages = pages - block;
    }
    assert(steps_view(script@) + Seq::<StepView>::empty() =~= steps_view(script@));
}

/// Reading one page for a write: the page at `addr`.
pub open spec fn page_read_steps(job: WriteJob, addr: u32) -> Seq<StepView> {
    if job.external {
        read_eflash_data_steps(addr, 1)
    } else {
        read_data_steps(addr, job.plan.page_size / 4)
    }
}

/// What a write reads before it erases: the first page where the range
/// starts inside it, the last page where the range ends inside it, each
/// followed by `loader`, since a read leaves loader mode.
pub open spec fn slack_steps(job: WriteJob) -> Seq<StepView> {
    let again = seq![exchange(request0("loader"@), Expect::Ack)];
    let first = if job.plan.head_slack > 0 {
        page_read_steps(job, job.plan.aligned_addr) + again
    } else {
        Seq::empty()
    };
    let last = if job.plan.tail_slack > 0 {
        page_read_steps(job, job.plan.last_page() as u32) + again
    } else {
        Seq::empty()
    };
    first + last
}

fn push_page_read(script: &mut Vec<Step>, job: &WriteJob, addr: u32)
    requires
        job.sound(),
    ensures
        steps_view(final(script)@) == steps_view(old(script)@) + page_read_steps(*job, addr)
            + seq![exchange(request0("loader"@), Expect::Ack)],
{
    if job.external {
        read_eflash_data(script, addr, 1);
    } else {
        read_data(script, addr, job.plan.page_size / 4);
    }
    let ghost before = steps_view(script@);
    push_exchange(script, loader_request(), Expect::Ack);
    assert(before.push(exchange(request0("loader"@), Expect::Ack)) =~= before + seq![
        exchange(request0("loader"@), Expect::Ack),
    ]);
}

/// The script of the reads that come before a write's erase.
pub fn slack_script(job: &WriteJob) -> (script: Vec<Step>)
    requires
        job.sound(),
    ensures
        steps_view(script@) == slack_steps(*job),
{
    let mut script: Vec<Step> = Vec::new();
    assert(steps_view(script@) =~= Seq::<StepView>::empty());
    if job.plan.head_slack > 0 {
        push_page_read(&mut script, job, job.plan.aligned_addr);
    }
    if job.plan.tail_slack > 0 {
        assert(job.plan.page_count >= 1) by (nonlinear_arith)
            requires
                job.plan.page_count * job.plan.page_size >= 1,
                job.plan.page_size > 0,
        ;
        assert((job.plan.page_count - 1) * job.plan.page_size + job.plan.page_size
            == job.plan.page_count * job.plan.page_size) by (nonlinear_arith);
        assert(0 <= (job.plan.page_count - 1) * job.plan.page_size) by (nonlinear_arith)
            requires
                job.plan.page_count >= 1,
        ;
        let last: u32 = job.plan.aligned_addr + (job.plan.page_count - 1) * job.plan.page_size;
        push_page_read(&mut script, job, last);
    }
    assert(steps_view(script@) =~= slack_steps(*job));
    script
}

/// `data` cut or padded with zero bytes to `len` bytes.
pub open spec fn resized(data: Seq<u8>, len: nat) -> Seq<u8> {
    if len <= data.len() {
        data.take(len as int)
    } else {
        data + Seq::new((len - data.len()) as nat, |i: int| 0u8)
    }
}

/// Cuts `data` to `len` bytes, or pads it with zero bytes.
pub fn resize(data: &mut Vec<u8>, len: usize)
    ensures
        final(data)@ == resized(old(data)@, len as nat),
{
    if len <= data.len() {
        data.truncate(len);
    } else {
        while data.len() < len
            invariant
                old(data)@.len() <= data@.len() <= len,
                data@ == old(data)@ + Seq::new(
                    (data@.len() - old(data)@.len()) as nat,
                    |i: int| 0u8,
                ),
            decreases len - data@.len(),
        {
            data.push(0);
        }
    }
}

/// The payload of a write: the head of the first page as the device holds
/// it, the data, and the tail of the last page as the device holds it.
/// `None` where a page that was read back is shorter than the slack asks.
pub open spec fn payload_of(
    plan: crate::plan::WritePlan,
    data: Seq<u8>,
    first_page: Seq<u8>,
    last_page: Seq<u8>,
) -> Option<Seq<u8>> {
    let keep = plan.page_size - plan.tail_slack;
    if (plan.head_slack > 0 && first_page.len() < plan.head_slack) || (plan.tail_slack > 0
        && last_page.len() < keep) {
        None
    } else {
        let head = if plan.head_slack > 0 {
            first_page.take(plan.head_slack as int)
        } else {
            Seq::empty()
        };
        let tail = if plan.tail_slack > 0 {
            last_page.skip(keep)
        } else {
            Seq::empty()
        };
        Some(head + data + tail)
    }
}

/// Splices the slack that was read back around the data.
pub fn assemble(
    plan: &crate::plan::WritePlan,
    data: &[u8],
    first_page: &[u8],
    last_page: &[u8],
) -> (payload: Option<Vec<u8>>)
    requires
        plan.tail_slack <= plan.page_size,
    ensures
        match payload {
            Some(bytes) => payload_of(*plan, data@, first_page@, last_page@) == Some(bytes@),
            None => payload_of(*plan, data@, first_page@, last_page@) is None,
        },
{
    let keep: usize = (plan.page_size - plan.tail_slack) as usize;
    if (plan.head_slack > 0 && first_page.len() < plan.head_slack as usize) || (plan.tail_slack > 0
        && last_page.len() < keep) {
        return None;
    }
    let mut payload: Vec<u8> = Vec::new();
    if plan.head_slack > 0 {
        let head = vstd::slice::slice_subrange(first_page, 0, plan.head_slack as usize);
        append(&mut payload, head);
    }
    append(&mut payload, data);
    if plan.tail_slack > 0 {
        let tail = vstd::slice::slice_subrange(last_page, keep, last_page.len());
        append(&mut payload, tail);
    }
    assert(payload@ =~= payload_of(*plan, data@, first_page@, last_page@).unwrap());
    Some(payload)
}

/// The steps that write one chunk to `dest`: announce it, stream it, commit
/// it.
pub open spec fn chunk_steps(job: WriteJob, chunk: Seq<u8>, dest: u32) -> Seq<StepView> {
    let commit = if job.external {
        request2("spiwritebuffer"@, dest, (chunk.len() / SPIPAGESIZE as nat) as u32)
    } else {
        request2("writebuffer"@, dest, (chunk.len() / 4) as u32)
    };
    seq![
        exchange(request1("loadbuffer"@, (chunk.len() / 4) as u32), Expect::LoadReady),
        write_chunk_step(chunk),
        exchange(commit, Expect::WriteOk),
    ]
}

/// The steps that write `payload` from `offset` on, chunk by chunk, each
/// chunk going to the address of its first byte.
pub open spec fn chunks_from(job: WriteJob, payload: Seq<u8>, offset: nat) -> Seq<StepView>
    decreases payload.len() - offset,
{
    if offset >= payload.len() || job.chunk_size == 0 {
        Seq::empty()
    } else {
        let end = if offset + job.chunk_size <= payload.len() {
            offset + job.chunk_size
        } else {
            payload.len() as int
        };
        chunk_steps(
            job,
            payload.subrange(offset as int, end),
            (job.plan.aligned_addr + offset) as u32,
        ) + chunks_from(job, payload, end as nat)
    }
}

/// How many words the checksum of a write covers.
pub open spec fn verify_words(plan: crate::plan::WritePlan) -> int {
    ceil_div(plan.aligned_addr + plan.span(), 4) - plan.aligned_addr / 4
}

/// What follows the chunks of a write to the internal flash: the checksum of
/// the pages, which must be that of the payload, and a reset of the target.
/// A write to the external flash ends with its last chunk.
pub open spec fn verify_steps(job: WriteJob, payload: Seq<u8>) -> Seq<StepView> {
    if job.external {
        Seq::empty()
    } else {
        seq![
            exchange(
                request2(
                    "crc"@,
                    (job.plan.aligned_addr / 4 * 4) as u32,
                    verify_words(job.plan) as u32,
                ),
                Expect::Crc(crc32_iso_hdlc(payload)),
            ),
        ] + simple_command_steps(request0("reset"@))
    }
}

/// The pages of a write as an erase.
pub open spec fn erase_of(job: WriteJob) -> ErasePlan {
    ErasePlan { aligned_addr: job.plan.aligned_addr, page_count: job.plan.page_count }
}

/// A write, once the payload is whole: erase the pages, write the chunks,
/// verify.
pub open spec fn write_steps(job: WriteJob, payload: Seq<u8>) -> Seq<StepView> {
    let erase = if job.external {
        spierase_steps(job.plan.aligned_addr as int, job.plan.page_count as nat)
    } else {
        erase_steps(erase_of(job))
    };
    erase + chunks_from(job, payload, 0) + verify_steps(job, payload)
}

fn push_chunks(script: &mut Vec<Step>, job: &WriteJob, payload: &[u8])
    requires
        job.sound(),
        job.plan.aligned_addr + payload@.len() <= 0x1_0000_0000,
    ensures
        steps_view(final(script)@) == steps_view(old(script)@) + chunks_from(*job, payload@, 0),
{
    let mut offset: usize = 0;
    while offset < payload.len()
        invariant
            job.sound(),
            job.plan.aligned_addr + payload@.len() <= 0x1_0000_0000,
            offset <= payload.len(),
            steps_view(script@) + chunks_from(*job, payload@, offset as nat) == steps_view(
                old(script)@,
            ) + chunks_from(*job, payload@, 0),
        decreases payload.len() - offset,
    {
        let end: usize = if payload.len() - offset >= job.chunk_size as usize {
            offset + job.chunk_size as usize
        } else {
            payload.len()
        };
        let chunk = copy_range(payload, offset, end);
        let dest: u32 = (job.plan.aligned_addr as u64 + offset as u64) as u32;
        let words: u32 = (chunk.len() / 4) as u32;
        let ghost before = steps_view(script@);
        let ghost steps = chunk_steps(*job, chunk@, dest);
        push_exchange(script, loadbuffer_request(words), Expect::LoadReady);
        write_chunk(script, chunk);
        let commit = if job.external {
            spiwritebuffer_request(dest, ((end - offset) / 256) as u32)
        } else {
            writebuffer_request(dest, words)
        };
        push_exchange(script, commit, Expect::WriteOk);
        proof {
            assert(steps_view(script@) =~= before + steps);
            let rest = chunks_from(*job, payload@, end as nat);
            assert((before + steps) + rest =~= before + (steps + rest));
        }
        offset = end;
    }
    assert(steps_view(script@) + Seq::<StepView>::empty() =~= steps_view(script@));
}

/// The script of a write whose payload is whole.
pub fn write_script(job: &WriteJob, payload: &[u8]) -> (script: Vec<Step>)
    requires
        job.sound(),
        job.plan.aligned_addr + payload@.len() <= 0x1_0000_0000,
    ensures
        steps_view(script@) == write_steps(*job, payload@),
{
    let mut script: Vec<Step> = Vec::new();
    assert(steps_view(script@) =~= Seq::<StepView>::empty());
    let erase = ErasePlan { aligned_addr: job.plan.aligned_addr, page_count: job.plan.page_count };
    if job.external {
        push_spierase(&mut script, erase);
    } else {
        push_erase(&mut script, erase);
    }
    push_chunks(&mut script, job, payload);
    if !job.external {
        let span: u64 = job.plan.page_count as u64 * job.plan.page_size as u64;
        let words: u64 = (job.plan.aligned_addr as u64 + span + 3) / 4 - (job.plan.aligned_addr
            / 4) as u64;
        let ghost before = steps_view(script@);
        push_exchange(
            &mut script,
            crc_request(job.plan.aligned_addr / 4 * 4, words as u32),
            Expect::Crc(calculate_crc(payload)),
        );
        proof {
            reveal_strlit("reset");
        }
        simple_command(&mut script, crate::protocol::cmd_bytes(crate::text::literal("reset")));
        assert(steps_view(script@) =~= before + verify_steps(*job, payload@));
    }
    assert(steps_view(script@) =~= write_steps(*job, payload@));
    script
}

} // verus!
