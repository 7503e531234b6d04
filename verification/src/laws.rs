//! What holds of every run of the engine.

use vstd::prelude::*;
use crate::checksum::crc32_iso_hdlc;
use crate::commands::{
    erase_eflash_spec, erase_spec, read_c_spec, read_crc_spec, read_eflash_spec, write_c_spec,
    write_eflash_spec, WriteJob,
};
use crate::engine::{
    abort, begin, connected, initial, loaded, next, start, ActionView, Command, EventView, Stage,
    State,
};
use crate::error::ErrorKind;
use crate::protocol::{crc_of_reply, reports_error, request0};
use crate::script::{
    chunk_steps, chunks_from, exchange, slack_steps, verdict, verify_steps, write_steps, Expect,
    StepView,
};

verus! {

/// A step that only asks: `connect`, `loader` or `bufsize`. None of them
/// changes what the flash holds.
pub open spec fn is_query(step: StepView) -> bool {
    ||| step == exchange(request0("connect"@), Expect::Ack)
    ||| step == exchange(request0("loader"@), Expect::Ack)
    ||| step == exchange(request0("bufsize"@), Expect::Ack)
}

/// The engine is still gathering what the adapter reports: it is before the
/// command's plan, and its script only asks.
pub open spec fn gathering(s: State) -> bool {
    &&& s.stage is Connecting || s.stage is Loading || s.stage is Sizing
    &&& forall|i: int| 0 <= i < s.script.len() ==> is_query(#[trigger] s.script[i])
}

/// Whether the command's range fits what the adapter reported; `Ok` for a
/// command without a range.
pub open spec fn plan_of(s: State) -> Result<(), ErrorKind> {
    match s.command {
        Command::Crc { addr, len } => match read_crc_spec(s.info, addr, len) {
            Ok(_) => Ok(()),
            Err(kind) => Err(kind),
        },
        Command::Read { addr, len } => match read_c_spec(s.info, addr, len) {
            Ok(_) => Ok(()),
            Err(kind) => Err(kind),
        },
        Command::ReadEflash { addr, len } => match read_eflash_spec(s.loader, addr, len) {
            Ok(_) => Ok(()),
            Err(kind) => Err(kind),
        },
        Command::Erase { addr, pages } => match erase_spec(s.info, addr, pages) {
            Ok(_) => Ok(()),
            Err(kind) => Err(kind),
        },
        Command::EraseEflash { addr, pages } => match erase_eflash_spec(s.loader, addr, pages) {
            Ok(_) => Ok(()),
            Err(kind) => Err(kind),
        },
        Command::Write { addr, len } => match write_c_spec(
            s.info,
            s.loader,
            s.data.len(),
            addr,
            len,
        ) {
            Ok(_) => Ok(()),
            Err(kind) => Err(kind),
        },
        Command::WriteEflash { addr, len } => match write_eflash_spec(
            s.loader,
            s.data.len(),
            addr,
            len,
        ) {
            Ok(_) => Ok(()),
            Err(kind) => Err(kind),
        },
        _ => Ok(()),
    }
}

/// Every command starts by gathering.
pub proof fn lemma_starts_gathering(command: Command, data: Seq<u8>)
    ensures
        gathering(initial(command, data)),
{
}

/// A command whose range does not fit is given up at the moment it is
/// planned, with the planner's error and with nothing sent: a command on the
/// internal flash that needs no loader is planned once the target's block
/// is known, every other one once the loader's block is known.
pub proof fn lemma_failed_plan_aborts(s: State, kind: ErrorKind)
    requires
        plan_of(s) == Err::<(), ErrorKind>(kind),
    ensures
        s.command is Crc || s.command is Read ==> connected(s) == abort(kind, Seq::empty()),
        !(s.command is Crc || s.command is Read) ==> start(s) == abort(kind, Seq::empty()),
{
}

/// A write whose range does not fit is a bounds failure, whatever the
/// loader's block holds or lacks: the range is judged before the chunk
/// size, so a missing or useless `MaxBufSize` never hides a range that is
/// out of bounds.
pub proof fn lemma_write_out_of_range_is_bounds(
    info: Map<Seq<u8>, Seq<u8>>,
    loader_info: Map<Seq<u8>, Seq<u8>>,
    data_len: nat,
    addr: u32,
    len: Option<u32>,
)
    ensures
        crate::commands::number_of(info, "FlashSize"@) matches Some(size)
            && crate::commands::number_of(info, "PageSize"@) matches Some(page) && page > 0
            && crate::plan::write_plan(
            crate::plan::FLASH_USERDATA_ADDRESS,
            page,
            size,
            addr,
            crate::commands::write_length(data_len, len),
        ) is Err ==> write_c_spec(info, loader_info, data_len, addr, len) == Err::<
            WriteJob,
            ErrorKind,
        >(ErrorKind::Bounds),
        crate::commands::number_of(loader_info, "SPIFlashSize"@) matches Some(size)
            && crate::plan::write_plan(
            0,
            crate::plan::SPIPAGESIZE,
            size,
            addr,
            crate::commands::write_length(data_len, len),
        ) is Err ==> write_eflash_spec(loader_info, data_len, addr, len) == Err::<
            WriteJob,
            ErrorKind,
        >(ErrorKind::Bounds),
{
}

/// Starting on a script moves to its stage, or ends the command where the
/// script is empty; nothing but the stage, the script and the replies
/// changes.
proof fn lemma_begin(s: State, stage: Stage, script: Seq<StepView>)
    ensures
        ({
            let (t, action) = begin(s, stage, script);
            t.stage is Finished || (t == State { stage, script, replies: Seq::empty(), ..s }
                && action == ActionView::Perform(script[0]) && script.len() > 0)
        }),
{
}

/// A command that is planned behind the loader's block either ends or has a
/// plan that fits.
proof fn lemma_start(s: State)
    ensures
        start(s).0.stage is Finished || plan_of(start(s).0) is Ok,
{
    let (t, action) = start(s);
    match s.command {
        Command::Erase { addr, pages } => {
            if let Ok(plan) = erase_spec(s.info, addr, pages) {
                lemma_begin(s, Stage::Final, crate::script::erase_steps(plan));
            }
        },
        Command::EraseEflash { addr, pages } => {
            if let Ok(plan) = erase_eflash_spec(s.loader, addr, pages) {
                lemma_begin(
                    s,
                    Stage::Final,
                    crate::script::spierase_steps(plan.aligned_addr as int, plan.page_count as nat),
                );
            }
        },
        Command::ReadEflash { addr, len } => {
            if let Ok(plan) = read_eflash_spec(s.loader, addr, len) {
                lemma_begin(
                    State { span: plan, ..s },
                    Stage::Final,
                    crate::script::read_eflash_data_steps(plan.aligned_addr, plan.count),
                );
            }
        },
        Command::Write { addr, len } => {
            if let Ok(job) = write_c_spec(s.info, s.loader, s.data.len(), addr, len) {
                let u = State {
                    job,
                    data: crate::script::resized(
                        s.data,
                        crate::commands::write_length(s.data.len(), len),
                    ),
                    ..s
                };
                lemma_begin(u, Stage::Final, write_steps(u.job, u.data));
                lemma_begin(u, Stage::Slack, crate::script::slack_steps(u.job));
                assert(crate::commands::write_length(u.data.len(), len)
                    == crate::commands::write_length(s.data.len(), len));
            }
        },
        Command::WriteEflash { addr, len } => {
            if let Ok(job) = write_eflash_spec(s.loader, s.data.len(), addr, len) {
                let u = State {
                    job,
                    data: crate::script::resized(
                        s.data,
                        crate::commands::write_length(s.data.len(), len),
                    ),
                    ..s
                };
                lemma_begin(u, Stage::Final, write_steps(u.job, u.data));
                lemma_begin(u, Stage::Slack, crate::script::slack_steps(u.job));
                assert(crate::commands::write_length(u.data.len(), len)
                    == crate::commands::write_length(s.data.len(), len));
            }
        },
        _ => {},
    }
}

/// Behind the loader's block the engine asks for the buffer size, ends, or
/// has a plan that fits.
proof fn lemma_loaded(s: State)
    ensures
        loaded(s).0.stage is Finished || gathering(loaded(s).0) || plan_of(loaded(s).0) is Ok,
        loaded(s).1 matches ActionView::Perform(step) ==> is_query(step) || plan_of(loaded(s).0)
            is Ok,
{
    lemma_start(s);
    let script = seq![exchange(request0("bufsize"@), Expect::Ack)];
    lemma_begin(s, Stage::Sizing, script);
    assert(is_query(script[0]));
}

/// Behind the target's block the engine enters loader mode, ends, or has a
/// plan that fits.
proof fn lemma_connected(s: State)
    ensures
        connected(s).0.stage is Finished || gathering(connected(s).0) || plan_of(connected(s).0)
            is Ok,
        connected(s).1 matches ActionView::Perform(step) ==> is_query(step) || plan_of(
            connected(s).0,
        ) is Ok,
{
    match s.command {
        Command::Connect => {},
        Command::Crc { addr, len } => {
            if let Ok(plan) = read_crc_spec(s.info, addr, len) {
                lemma_begin(
                    State { crc: plan, ..s },
                    Stage::Final,
                    seq![
                        exchange(
                            crate::protocol::request2("crc"@, plan.aligned_addr, plan.word_count),
                            Expect::Ack,
                        ),
                    ],
                );
            }
        },
        Command::Read { addr, len } => {
            if let Ok(plan) = read_c_spec(s.info, addr, len) {
                lemma_begin(
                    State { span: plan, ..s },
                    Stage::Final,
                    crate::script::read_data_steps(plan.aligned_addr, plan.count),
                );
            }
        },
        Command::Halt | Command::Id | Command::Run | Command::Reset { .. } => {
            lemma_begin(
                s,
                Stage::Final,
                crate::script::simple_command_steps(crate::engine::simple_request(s.command)),
            );
        },
        _ => {
            let script = crate::script::loader_steps();
            lemma_begin(s, Stage::Loading, script);
            assert(is_query(script[0]));
            assert(is_query(script[1]));
        },
    }
}

/// While the engine gathers, it only asks; it leaves gathering only by
/// ending the command or with a plan that fits. So no step that erases or
/// writes is ever asked for on behalf of a range that does not fit.
pub proof fn lemma_plan_before_mutation(s: State, event: EventView)
    requires
        gathering(s),
    ensures
        ({
            let (t, action) = next(s, event);
            t.stage is Finished || gathering(t) || plan_of(t) is Ok
        }),
        ({
            let (t, action) = next(s, event);
            action matches ActionView::Perform(step) ==> is_query(step) || plan_of(t) is Ok
        }),
{
    if !(s.stage is Finished) && s.replies.len() < s.script.len() {
        if let EventView::Reply(reply) = event {
            let kept = State { replies: s.replies.push(reply), ..s };
            if kept.replies.len() < kept.script.len() {
                assert(is_query(kept.script[kept.replies.len() as int]));
            } else {
                let last = kept.replies.last();
                match s.stage {
                    Stage::Connecting => {
                        if let Ok(info) = crate::protocol::connect_info(last) {
                            lemma_connected(State { info, ..kept });
                        }
                    },
                    Stage::Loading => {
                        if let Ok(loader) = crate::protocol::loader_info(last) {
                            lemma_loaded(State { loader, ..kept });
                        }
                    },
                    _ => {
                        if let Ok(size) = crate::protocol::buf_size_of(last) {
                            lemma_start(
                                State {
                                    loader: kept.loader.insert(
                                        crate::text::ascii("MaxBufSize"@),
                                        crate::number::decimal(size as nat),
                                    ),
                                    ..kept
                                },
                            );
                        }
                    },
                }
            }
        }
    }
}

/// A reply that reports an error ends the exchange: whatever text the step
/// waits for, a reply that holds `rror`, `nvalid` or `rong` gives the
/// command up as a protocol failure, with the reply as its detail.
pub proof fn lemma_error_reply_aborts(s: State, reply: Seq<u8>)
    requires
        !(s.stage is Finished),
        s.replies.len() < s.script.len(),
        reports_error(reply),
        ({
            let expect = s.script[s.replies.len() as int].expect;
            expect is Ack || expect is LoadReady || expect is WriteOk || expect is Crc
        }),
    ensures
        next(s, EventView::Reply(reply)) == abort(ErrorKind::Protocol, reply),
{
}

/// A write to the internal flash is verified against the checksum of the
/// payload that was sent: behind the last chunk the engine asks for the
/// checksum of the pages, and goes on only if the adapter reports the very
/// checksum that the host computed of the payload. Any other checksum is an
/// integrity failure.
pub proof fn lemma_write_is_verified(
    job: WriteJob,
    payload: Seq<u8>,
    earlier: Seq<Seq<u8>>,
    reply: Seq<u8>,
)
    requires
        !job.external,
    ensures
        write_steps(job, payload).len() >= 3,
        write_steps(job, payload)[write_steps(job, payload).len() - 3] == verify_steps(
            job,
            payload,
        )[0],
        verify_steps(job, payload)[0].expect == Expect::Crc(crc32_iso_hdlc(payload)),
        verdict(verify_steps(job, payload)[0], earlier, reply) is Ok <==> crc_of_reply(reply)
            == Ok::<u32, ErrorKind>(crc32_iso_hdlc(payload)),
        crc_of_reply(reply) is Ok && crc_of_reply(reply) != Ok::<u32, ErrorKind>(
            crc32_iso_hdlc(payload),
        ) ==> verdict(verify_steps(job, payload)[0], earlier, reply) == Err::<(), ErrorKind>(
            ErrorKind::Integrity,
        ),
{
}

/// The bytes that a script streams into the adapter's buffer, in order.
pub open spec fn streamed(steps: Seq<StepView>) -> Seq<u8>
    decreases steps.len(),
{
    if steps.len() == 0 {
        Seq::empty()
    } else if steps[0].kind is Stream {
        steps[0].send + streamed(steps.drop_first())
    } else {
        streamed(steps.drop_first())
    }
}

/// What two scripts stream one after the other is what they stream together.
pub proof fn lemma_streamed_concat(first: Seq<StepView>, second: Seq<StepView>)
    ensures
        streamed(first + second) == streamed(first) + streamed(second),
    decreases first.len(),
{
    if first.len() == 0 {
        assert(first + second =~= second);
    } else {
        lemma_streamed_concat(first.drop_first(), second);
        assert((first + second).drop_first() =~= first.drop_first() + second);
    }
}

/// The chunks of a write are the payload: streamed one after the other from
/// `offset` on, they give the payload from `offset` on, each chunk no longer
/// than the adapter's buffer.
pub proof fn lemma_chunks_are_the_payload(job: WriteJob, payload: Seq<u8>, offset: nat)
    requires
        job.chunk_size > 0,
        offset <= payload.len(),
    ensures
        streamed(chunks_from(job, payload, offset)) == payload.skip(offset as int),
        forall|i: int|
            0 <= i < chunks_from(job, payload, offset).len() ==> (#[trigger] chunks_from(
                job,
                payload,
                offset,
            )[i]).send.len() <= job.chunk_size || !(chunks_from(job, payload, offset)[i].kind
                is Stream),
    decreases payload.len() - offset,
{
    if offset < payload.len() {
        let end: int = if offset + job.chunk_size <= payload.len() {
            offset + job.chunk_size
        } else {
            payload.len() as int
        };
        let chunk = payload.subrange(offset as int, end);
        let steps = chunk_steps(job, chunk, (job.plan.aligned_addr + offset) as u32);
        let rest = chunks_from(job, payload, end as nat);
        lemma_chunks_are_the_payload(job, payload, end as nat);
        lemma_streamed_concat(steps, rest);
        reveal_with_fuel(streamed, 4);
        assert(steps.drop_first().drop_first().drop_first() =~= Seq::<StepView>::empty());
        assert(streamed(steps) =~= chunk);
        assert(chunk + payload.skip(end) =~= payload.skip(offset as int));
    }
}

/// A write streams its payload and nothing else.
pub proof fn lemma_write_streams_the_payload(job: WriteJob, payload: Seq<u8>)
    requires
        job.chunk_size > 0,
    ensures
        streamed(write_steps(job, payload)) == payload,
{
    let erase = if job.external {
        crate::script::spierase_steps(job.plan.aligned_addr as int, job.plan.page_count as nat)
    } else {
        crate::script::erase_steps(crate::script::erase_of(job))
    };
    let chunks = chunks_from(job, payload, 0);
    let verify = verify_steps(job, payload);
    lemma_chunks_are_the_payload(job, payload, 0);
    lemma_streamed_concat(erase + chunks, verify);
    lemma_streamed_concat(erase, chunks);
    lemma_spierase_exchanges(job.plan.aligned_addr as int, job.plan.page_count as nat);
    lemma_exchanges_stream_nothing(erase);
    lemma_exchanges_stream_nothing(verify);
    assert(payload.skip(0) =~= payload);
    assert(Seq::<u8>::empty() + payload + Seq::<u8>::empty() =~= payload);
}

/// A script of exchanges streams nothing.
proof fn lemma_exchanges_stream_nothing(steps: Seq<StepView>)
    requires
        forall|i: int| 0 <= i < steps.len() ==> (#[trigger] steps[i]).kind is Exchange,
    ensures
        streamed(steps) == Seq::<u8>::empty(),
    decreases steps.len(),
{
    if steps.len() > 0 {
        let rest = steps.drop_first();
        assert forall|i: int| 0 <= i < rest.len() implies (#[trigger] rest[i]).kind is Exchange by {
            assert(rest[i] == steps[i + 1]);
        }
        lemma_exchanges_stream_nothing(rest);
    }
}

/// The erase of the external flash is a script of exchanges.
proof fn lemma_spierase_exchanges(addr: int, pages: nat)
    ensures
        forall|i: int|
            0 <= i < crate::script::spierase_steps(addr, pages).len() ==> (
            #[trigger] crate::script::spierase_steps(addr, pages)[i]).kind is Exchange,
    decreases pages,
{
    if pages > 0 {
        let block: nat = if pages < crate::plan::SPIERASELIMIT {
            pages
        } else {
            crate::plan::SPIERASELIMIT as nat
        };
        lemma_spierase_exchanges(addr + block * crate::plan::SPIPAGESIZE, (pages - block) as nat);
    }
}

/// Every binary reply that was kept has the length that its step asked for.
pub open spec fn accepted(s: State) -> bool {
    forall|i: int|
        0 <= i < s.replies.len() && i < s.script.len() && (#[trigger] s.script[i]).expect is Bytes
            ==> s.replies[i].len() == s.script[i].len
}

/// What holds of the engine at every moment of every run: there is a step
/// to perform unless the command has ended; while a write reads its slack,
/// its plan is sound and its script is that of the slack; while a read runs,
/// the body it asks for holds the user's bytes.
pub open spec fn coherent(s: State) -> bool {
    &&& !(s.stage is Finished) ==> s.replies.len() < s.script.len()
    &&& s.stage is Slack ==> {
        &&& s.command is Write || s.command is WriteEflash
        &&& s.job.sound()
        &&& s.job.plan.span() == s.job.plan.head_slack + s.data.len() + s.job.plan.tail_slack
        &&& s.script == slack_steps(s.job)
        &&& accepted(s)
    }
    &&& s.stage is Final && (s.command is Read || s.command is ReadEflash) ==> {
        &&& s.script.len() == 3
        &&& s.script[0].expect is Bytes
        &&& s.span.offset + s.span.len <= s.script[0].len
        &&& accepted(s)
    }
}

/// The engine starts coherent.
pub proof fn lemma_starts_coherent(command: Command, data: Seq<u8>)
    ensures
        coherent(initial(command, data)),
{
}

/// Planning and starting a command leaves the engine coherent.
proof fn lemma_start_coherent(s: State)
    ensures
        coherent(start(s).0),
{
    match s.command {
        Command::Erase { addr, pages } => {
            if let Ok(plan) = erase_spec(s.info, addr, pages) {
                lemma_begin(s, Stage::Final, crate::script::erase_steps(plan));
            }
        },
        Command::EraseEflash { addr, pages } => {
            if let Ok(plan) = erase_eflash_spec(s.loader, addr, pages) {
                lemma_begin(
                    s,
                    Stage::Final,
                    crate::script::spierase_steps(plan.aligned_addr as int, plan.page_count as nat),
                );
            }
        },
        Command::ReadEflash { addr, len } => {
            if let Ok(plan) = read_eflash_spec(s.loader, addr, len) {
                let size = crate::commands::number_of(s.loader, "SPIFlashSize"@).unwrap();
                crate::plan::lemma_read_plan_fits(0, crate::plan::SPIPAGESIZE, size, addr, len);
                lemma_begin(
                    State { span: plan, ..s },
                    Stage::Final,
                    crate::script::read_eflash_data_steps(plan.aligned_addr, plan.count),
                );
            }
        },
        Command::Write { addr, len } => {
            if let Ok(job) = write_c_spec(s.info, s.loader, s.data.len(), addr, len) {
                crate::commands::lemma_write_c_sound(s.info, s.loader, s.data.len(), addr, len);
                let u = State {
                    job,
                    data: crate::script::resized(
                        s.data,
                        crate::commands::write_length(s.data.len(), len),
                    ),
                    ..s
                };
                lemma_begin(u, Stage::Final, write_steps(u.job, u.data));
                lemma_begin(u, Stage::Slack, slack_steps(u.job));
            }
        },
        Command::WriteEflash { addr, len } => {
            if let Ok(job) = write_eflash_spec(s.loader, s.data.len(), addr, len) {
                crate::commands::lemma_write_eflash_sound(s.loader, s.data.len(), addr, len);
                let u = State {
                    job,
                    data: crate::script::resized(
                        s.data,
                        crate::commands::write_length(s.data.len(), len),
                    ),
                    ..s
                };
                lemma_begin(u, Stage::Final, write_steps(u.job, u.data));
                lemma_begin(u, Stage::Slack, slack_steps(u.job));
            }
        },
        _ => {},
    }
}

/// What follows the loader's block leaves the engine coherent.
proof fn lemma_loaded_coherent(s: State)
    ensures
        coherent(loaded(s).0),
{
    lemma_start_coherent(s);
    lemma_begin(s, Stage::Sizing, seq![exchange(request0("bufsize"@), Expect::Ack)]);
}

/// What follows the target's block leaves the engine coherent.
proof fn lemma_connected_coherent(s: State)
    ensures
        coherent(connected(s).0),
{
    match s.command {
        Command::Connect => {},
        Command::Crc { addr, len } => {
            if let Ok(plan) = read_crc_spec(s.info, addr, len) {
                lemma_begin(
                    State { crc: plan, ..s },
                    Stage::Final,
                    seq![
                        exchange(
                            crate::protocol::request2("crc"@, plan.aligned_addr, plan.word_count),
                            Expect::Ack,
                        ),
                    ],
                );
            }
        },
        Command::Read { addr, len } => {
            if let Ok(plan) = read_c_spec(s.info, addr, len) {
                let size = crate::commands::number_of(s.info, "FlashSize"@).unwrap();
                crate::plan::lemma_read_plan_fits(
                    crate::plan::FLASH_USERDATA_ADDRESS,
                    crate::plan::WORD,
                    size,
                    addr,
                    len,
                );
                lemma_begin(
                    State { span: plan, ..s },
                    Stage::Final,
                    crate::script::read_data_steps(plan.aligned_addr, plan.count),
                );
            }
        },
        Command::Halt | Command::Id | Command::Run | Command::Reset { .. } => {
            lemma_begin(
                s,
                Stage::Final,
                crate::script::simple_command_steps(crate::engine::simple_request(s.command)),
            );
        },
        _ => {
            lemma_begin(s, Stage::Loading, crate::script::loader_steps());
        },
    }
}

/// What follows the reads of the slack leaves the engine coherent.
proof fn lemma_spliced_coherent(s: State)
    requires
        s.command is Write || s.command is WriteEflash,
    ensures
        coherent(crate::engine::spliced(s).0),
{
    if let Some(payload) = crate::script::payload_of(
        s.job.plan,
        s.data,
        crate::engine::first_page(s),
        crate::engine::last_page(s),
    ) {
        lemma_begin(s, Stage::Final, write_steps(s.job, payload));
    }
}

/// Coherence is kept by every step, whatever the adapter sends.
pub proof fn lemma_stays_coherent(s: State, event: EventView)
    requires
        coherent(s),
    ensures
        coherent(next(s, event).0),
{
    if !(s.stage is Finished) && s.replies.len() < s.script.len() {
        if let EventView::Reply(reply) = event {
            let at = s.replies.len() as int;
            if verdict(s.script[at], s.replies, reply) is Ok {
                let kept = State { replies: s.replies.push(reply), ..s };
                assert(accepted(s) ==> accepted(kept)) by {
                    if accepted(s) {
                        assert forall|i: int|
                            0 <= i < kept.replies.len() && i < kept.script.len() && (
                            #[trigger] kept.script[i]).expect is Bytes implies kept.replies[i].len()
                            == kept.script[i].len by {
                            if i < at {
                                assert(kept.replies[i] == s.replies[i]);
                            }
                        }
                    }
                }
                if kept.replies.len() < kept.script.len() {
                } else {
                    let last = kept.replies.last();
                    match s.stage {
                        Stage::Connecting => {
                            if let Ok(info) = crate::protocol::connect_info(last) {
                                lemma_connected_coherent(State { info, ..kept });
                            }
                        },
                        Stage::Loading => {
                            if let Ok(loader) = crate::protocol::loader_info(last) {
                                lemma_loaded_coherent(State { loader, ..kept });
                            }
                        },
                        Stage::Sizing => {
                            if let Ok(size) = crate::protocol::buf_size_of(last) {
                                lemma_start_coherent(
                                    State {
                                        loader: kept.loader.insert(
                                            crate::text::ascii("MaxBufSize"@),
                                            crate::number::decimal(size as nat),
                                        ),
                                        ..kept
                                    },
                                );
                            }
                        },
                        Stage::Slack => {
                            lemma_spliced_coherent(kept);
                        },
                        _ => {},
                    }
                }
            }
        }
    }
}

/// A write whose slack was read back goes on to write: each page that the
/// adapter sent is a whole page; the payload is the head of the first page
/// as the adapter sent it, the data, and the tail of the last page as the
/// adapter sent it; it fills the planned pages exactly and is what the
/// write script sends.
pub proof fn lemma_slack_is_spliced(s: State, reply: Seq<u8>)
    requires
        coherent(s),
        s.stage is Slack,
        s.replies.len() + 1 == s.script.len(),
        verdict(s.script[s.replies.len() as int], s.replies, reply) is Ok,
    ensures
        ({
            let kept = State { replies: s.replies.push(reply), ..s };
            let payload = crate::script::payload_of(
                s.job.plan,
                s.data,
                crate::engine::first_page(kept),
                crate::engine::last_page(kept),
            );
            &&& s.job.plan.head_slack > 0 ==> crate::engine::first_page(kept).len()
                == s.job.plan.page_size
            &&& s.job.plan.tail_slack > 0 ==> crate::engine::last_page(kept).len()
                == s.job.plan.page_size
            &&& payload is Some
            &&& payload.unwrap().len() == s.job.plan.span()
            &&& next(s, EventView::Reply(reply)) == begin(
                kept,
                Stage::Final,
                write_steps(s.job, payload.unwrap()),
            )
        }),
{
    let kept = State { replies: s.replies.push(reply), ..s };
    let plan = s.job.plan;
    let again = seq![exchange(request0("loader"@), Expect::Ack)];
    let page_len: int = if s.job.external {
        256
    } else {
        (plan.page_size / 4) * 4
    };
    assert(page_len == plan.page_size) by {
        if !s.job.external {
            crate::plan::lemma_align_down(plan.page_size as int, 4);
        }
    }
    lemma_stays_coherent(s, EventView::Reply(reply));
    assert(accepted(kept)) by {
        assert forall|i: int|
            0 <= i < kept.replies.len() && i < kept.script.len() && (
            #[trigger] kept.script[i]).expect is Bytes implies kept.replies[i].len()
            == kept.script[i].len by {
            if i < s.replies.len() {
                assert(kept.replies[i] == s.replies[i]);
            }
        }
    }
    let first = crate::script::page_read_steps(s.job, plan.aligned_addr) + again;
    let last = crate::script::page_read_steps(s.job, plan.last_page() as u32) + again;
    assert(first.len() == 4 && last.len() == 4);
    assert(first[0].expect is Bytes && first[0].len == page_len);
    assert(last[0].expect is Bytes && last[0].len == page_len);
    if plan.head_slack > 0 {
        assert(kept.script[0] == first[0]);
        assert(kept.replies[0].len() == kept.script[0].len);
        if plan.tail_slack > 0 {
            assert(kept.script[4] == last[0]);
            assert(kept.replies[4].len() == kept.script[4].len);
        }
    } else {
        assert(kept.script[0] == last[0]);
        assert(kept.replies[0].len() == kept.script[0].len);
    }
}

/// A read whose body, checksum and footer were accepted gives the user's
/// bytes: the slice of the body that the plan names.
pub proof fn lemma_read_gives_the_slice(s: State, reply: Seq<u8>)
    requires
        coherent(s),
        s.stage is Final,
        s.command is Read || s.command is ReadEflash,
        s.replies.len() + 1 == s.script.len(),
        verdict(s.script[s.replies.len() as int], s.replies, reply) is Ok,
    ensures
        next(s, EventView::Reply(reply)) == crate::engine::finish(
            crate::engine::OutcomeView::Data(
                s.replies[0].subrange(s.span.offset as int, s.span.offset + s.span.len),
            ),
        ),
{
    let kept = State { replies: s.replies.push(reply), ..s };
    assert(kept.replies[0] == s.replies[0]);
    assert(s.replies[0].len() == s.script[0].len);
}

/// A read leaves loader mode, so `loader` follows every read of slack:
/// behind the body, the checksum and the footer of each page that a write
/// reads back, the next step is `loader`, before anything is erased.
pub proof fn lemma_loader_follows_every_read(job: WriteJob, at: int)
    requires
        0 <= at < slack_steps(job).len(),
        slack_steps(job)[at].kind is Fetch,
    ensures
        at + 3 < slack_steps(job).len(),
        slack_steps(job)[at + 3] == exchange(request0("loader"@), Expect::Ack),
        forall|i: int|
            0 <= i < slack_steps(job).len() ==> (#[trigger] slack_steps(job)[i]).kind is Fetch
                || slack_steps(job)[i].kind is Read || slack_steps(job)[i] == exchange(
                request0("loader"@),
                Expect::Ack,
            ),
{
    let again = seq![exchange(request0("loader"@), Expect::Ack)];
    let first = crate::script::page_read_steps(job, job.plan.aligned_addr) + again;
    let last = crate::script::page_read_steps(job, job.plan.last_page() as u32) + again;
    assert(first.len() == 4 && last.len() == 4);
    assert(first[0].kind is Fetch && first[1].kind is Read && first[2].kind is Read && first[3]
        == again[0]);
    assert(last[0].kind is Fetch && last[1].kind is Read && last[2].kind is Read && last[3]
        == again[0]);
    let steps = slack_steps(job);
    assert forall|i: int| 0 <= i < steps.len() implies (#[trigger] steps[i]).kind is Fetch
        || steps[i].kind is Read || steps[i] == again[0] by {
        if job.plan.head_slack > 0 {
            if i < 4 {
                assert(steps[i] == first[i]);
            } else {
                assert(steps[i] == last[i - 4]);
            }
        } else {
            assert(steps[i] == last[i]);
        }
    }
    if job.plan.head_slack > 0 {
        if at < 4 {
            assert(steps[at] == first[at]);
            assert(steps[3] == first[3]);
        } else {
            assert(steps[at] == last[at - 4]);
            assert(steps[7] == last[3]);
        }
    } else {
        assert(steps[at] == last[at]);
        assert(steps[3] == last[3]);
    }
}

/// The request that reads one page back for a write: a page of words of the
/// internal flash, one page of the external flash.
pub open spec fn page_request(job: WriteJob, addr: u32) -> Seq<u8> {
    if job.external {
        crate::protocol::request2("spird"@, addr, 1)
    } else {
        crate::protocol::request2("rd"@, addr, job.plan.page_size / 4)
    }
}

/// Reading one page back for a write, and entering loader mode again.
pub open spec fn page_read(job: WriteJob, addr: u32) -> Seq<StepView> {
    crate::script::read_back_steps(page_request(job, addr), job.plan.page_size) + seq![
        exchange(request0("loader"@), Expect::Ack),
    ]
}

/// The address of the first page of a sound job is a multiple of the word,
/// and so is that of every page behind it.
proof fn lemma_pages_are_word_aligned(job: WriteJob, pages: int)
    requires
        job.sound(),
        !job.external,
        0 <= pages,
    ensures
        (job.plan.aligned_addr + pages * job.plan.page_size) % 4 == 0,
        0 <= pages * job.plan.page_size,
        (pages * job.plan.page_size) % 4 == 0,
{
    let page = job.plan.page_size as int;
    let first = job.plan.aligned_addr as int;
    assert(0 <= pages * page) by (nonlinear_arith)
        requires
            0 <= pages,
            0 < page,
    ;
    crate::plan::lemma_div_of_multiple(pages, page);
    crate::model::lemma_multiple(pages * page, page, 4);
    crate::model::lemma_multiple(first, page, 4);
}

/// The reads of a write, as they go over the wire: where the range starts
/// inside its first page, that page is read, `rd A ps/4` on the internal
/// flash and `spird A 1` on the external one, and `loader` follows; where
/// the range ends inside its last page, that page is read in the same way,
/// from `A + (n - 1) * ps`, and `loader` follows. A write without slack
/// reads nothing. So the number of reads is the number of ends that have
/// slack, and each read brings one whole page.
pub proof fn lemma_slack_reads(job: WriteJob)
    requires
        job.sound(),
    ensures
        slack_steps(job) == (if job.plan.head_slack > 0 {
            page_read(job, job.plan.aligned_addr)
        } else {
            Seq::empty()
        }) + (if job.plan.tail_slack > 0 {
            page_read(job, job.plan.last_page() as u32)
        } else {
            Seq::empty()
        }),
        slack_steps(job).len() == 4 * ((if job.plan.head_slack > 0 {
            1int
        } else {
            0int
        }) + (if job.plan.tail_slack > 0 {
            1int
        } else {
            0int
        })),
        job.plan.tail_slack > 0 ==> job.plan.aligned_addr <= job.plan.last_page()
            < job.plan.aligned_addr + job.plan.span(),
{
    let plan = job.plan;
    let page = plan.page_size as int;
    if plan.tail_slack > 0 {
        assert(plan.page_count >= 1) by (nonlinear_arith)
            requires
                plan.page_count * plan.page_size >= 1,
                plan.page_size > 0,
        ;
        assert((plan.page_count - 1) * page + page == plan.span()) by (nonlinear_arith)
            requires
                plan.span() == plan.page_count * page,
        ;
        assert(0 <= (plan.page_count - 1) * page) by (nonlinear_arith)
            requires
                plan.page_count >= 1,
                page > 0,
        ;
    }
    if !job.external {
        lemma_pages_are_word_aligned(job, 0);
        crate::plan::lemma_align_down(page, 4);
        if plan.tail_slack > 0 {
            lemma_pages_are_word_aligned(job, plan.page_count - 1);
        }
    }
    assert(crate::script::page_read_steps(job, plan.aligned_addr) + seq![
        exchange(request0("loader"@), Expect::Ack),
    ] == page_read(job, plan.aligned_addr));
    if plan.tail_slack > 0 {
        assert(crate::script::page_read_steps(job, plan.last_page() as u32) + seq![
            exchange(request0("loader"@), Expect::Ack),
        ] == page_read(job, plan.last_page() as u32));
    }
}

/// The checksum that verifies a write to the internal flash is asked of the
/// written pages: the request is `crc A n*ps/4`, and the reply is accepted
/// only with the checksum of the payload.
pub proof fn lemma_verify_request(job: WriteJob, payload: Seq<u8>)
    requires
        job.sound(),
        !job.external,
    ensures
        verify_steps(job, payload)[0] == exchange(
            crate::protocol::request2(
                "crc"@,
                job.plan.aligned_addr,
                (job.plan.span() / 4) as u32,
            ),
            Expect::Crc(crc32_iso_hdlc(payload)),
        ),
        job.plan.span() % 4 == 0,
{
    lemma_pages_are_word_aligned(job, 0);
    lemma_pages_are_word_aligned(job, job.plan.page_count as int);
}

/// A write to the internal flash starts with the one erase of its pages,
/// `erase A n`; every step behind it is an exchange or a chunk, none is a
/// read.
pub proof fn lemma_write_erases_first(job: WriteJob, payload: Seq<u8>)
    requires
        job.chunk_size > 0,
    ensures
        !job.external ==> write_steps(job, payload)[0] == exchange(
            crate::protocol::request2("erase"@, job.plan.aligned_addr, job.plan.page_count),
            Expect::Ack,
        ),
        forall|i: int|
            0 <= i < write_steps(job, payload).len() ==> (#[trigger] write_steps(
                job,
                payload,
            )[i]).kind is Exchange || write_steps(job, payload)[i].kind is Stream,
{
    let erase = if job.external {
        crate::script::spierase_steps(job.plan.aligned_addr as int, job.plan.page_count as nat)
    } else {
        crate::script::erase_steps(crate::script::erase_of(job))
    };
    let chunks = chunks_from(job, payload, 0);
    let verify = verify_steps(job, payload);
    lemma_spierase_exchanges(job.plan.aligned_addr as int, job.plan.page_count as nat);
    lemma_chunks_read_nothing(job, payload, 0);
    let steps = write_steps(job, payload);
    assert forall|i: int| 0 <= i < steps.len() implies (#[trigger] steps[i]).kind is Exchange
        || steps[i].kind is Stream by {
        if i < erase.len() {
            assert(steps[i] == erase[i]);
        } else if i < erase.len() + chunks.len() {
            assert(steps[i] == chunks[i - erase.len()]);
        } else {
            assert(steps[i] == verify[i - erase.len() - chunks.len()]);
        }
    }
}

/// The chunks of a write are exchanges and streams.
proof fn lemma_chunks_read_nothing(job: WriteJob, payload: Seq<u8>, offset: nat)
    requires
        job.chunk_size > 0,
    ensures
        forall|i: int|
            0 <= i < chunks_from(job, payload, offset).len() ==> (#[trigger] chunks_from(
                job,
                payload,
                offset,
            )[i]).kind is Exchange || chunks_from(job, payload, offset)[i].kind is Stream,
    decreases payload.len() - offset,
{
    if offset < payload.len() {
        let end: int = if offset + job.chunk_size <= payload.len() {
            offset + job.chunk_size
        } else {
            payload.len() as int
        };
        let steps = chunk_steps(
            job,
            payload.subrange(offset as int, end),
            (job.plan.aligned_addr + offset) as u32,
        );
        let rest = chunks_from(job, payload, end as nat);
        lemma_chunks_read_nothing(job, payload, end as nat);
        let all = chunks_from(job, payload, offset);
        assert forall|i: int| 0 <= i < all.len() implies (#[trigger] all[i]).kind is Exchange
            || all[i].kind is Stream by {
            if i < 3 {
                assert(all[i] == steps[i]);
            } else {
                assert(all[i] == rest[i - 3]);
            }
        }
    }
}

/// The parts of a payload: its first bytes are the head of the first page,
/// then comes the data, and its last bytes are the tail of the last page.
pub proof fn lemma_payload_parts(
    plan: crate::plan::WritePlan,
    data: Seq<u8>,
    first_page: Seq<u8>,
    last_page: Seq<u8>,
)
    requires
        plan.tail_slack <= plan.page_size,
        plan.head_slack > 0 ==> first_page.len() == plan.page_size,
        plan.tail_slack > 0 ==> last_page.len() == plan.page_size,
        plan.head_slack <= plan.page_size,
    ensures
        ({
            let payload = crate::script::payload_of(plan, data, first_page, last_page);
            let head = plan.head_slack as int;
            let tail = plan.tail_slack as int;
            &&& payload is Some
            &&& payload.unwrap().len() == head + data.len() + tail
            &&& payload.unwrap().subrange(0, head) == first_page.subrange(0, head)
            &&& payload.unwrap().subrange(head, head + data.len()) == data
            &&& payload.unwrap().subrange(head + data.len(), head + data.len() + tail)
                == last_page.subrange(last_page.len() - tail, last_page.len() as int)
        }),
{
    let payload = crate::script::payload_of(plan, data, first_page, last_page).unwrap();
    let head = plan.head_slack as int;
    let tail = plan.tail_slack as int;
    assert(payload.subrange(0, head) =~= first_page.subrange(0, head));
    assert(payload.subrange(head, head + data.len()) =~= data);
    assert(payload.subrange(head + data.len(), head + data.len() + tail) =~= last_page.subrange(
        last_page.len() - tail,
        last_page.len() as int,
    ));
}

/// The buffer size of a legacy adapter is kept as it was reported: behind
/// an accepted reply to `bufsize` the engine plans the command with the
/// loader's block that holds the reported size as `MaxBufSize`, and the
/// planner reads that very size back.
pub proof fn lemma_legacy_buffer_size(s: State, reply: Seq<u8>, size: u32)
    requires
        s.stage is Sizing,
        s.replies.len() + 1 == s.script.len(),
        verdict(s.script[s.replies.len() as int], s.replies, reply) is Ok,
        crate::protocol::buf_size_of(reply) == Ok::<u32, ErrorKind>(size),
    ensures
        ({
            let kept = State {
                replies: s.replies.push(reply),
                loader: s.loader.insert(
                    crate::text::ascii("MaxBufSize"@),
                    crate::number::decimal(size as nat),
                ),
                ..s
            };
            &&& next(s, EventView::Reply(reply)) == start(kept)
            &&& crate::commands::number_of(kept.loader, "MaxBufSize"@) == Some(size)
            &&& size > 0 ==> crate::commands::chunk_size_of(kept.loader) == Ok::<u32, ErrorKind>(
                size,
            )
            &&& s.command matches Command::Write { addr, len } ==> (write_c_spec(
                kept.info,
                kept.loader,
                kept.data.len(),
                addr,
                len,
            ) matches Ok(job) ==> job.chunk_size == size)
            &&& s.command matches Command::WriteEflash { addr, len } ==> (write_eflash_spec(
                kept.loader,
                kept.data.len(),
                addr,
                len,
            ) matches Ok(job) ==> job.chunk_size == size)
        }),
{
    crate::number::lemma_decimal_parses(size);
}

/// Every chunk of a write lies within the payload, and so within the pages
/// that were erased for it: the steps of chunk number `i / 3` announce,
/// stream and commit the bytes of the payload from `offset + (i / 3) *
/// chunk_size` on, no more than `chunk_size` of them and none behind the
/// end of the payload, and commit them to the address of the first page
/// plus that offset.
pub proof fn lemma_chunks_stay_in_the_pages(job: WriteJob, payload: Seq<u8>, offset: nat, i: int)
    requires
        job.chunk_size > 0,
        offset <= payload.len(),
        job.plan.aligned_addr + payload.len() <= 0x1_0000_0000,
        0 <= i < chunks_from(job, payload, offset).len(),
    ensures
        ({
            let from = offset + (i / 3) * job.chunk_size;
            let to = if from + job.chunk_size <= payload.len() {
                from + job.chunk_size
            } else {
                payload.len() as int
            };
            &&& offset <= from < payload.len()
            &&& chunks_from(job, payload, offset)[i] == chunk_steps(
                job,
                payload.subrange(from, to),
                (job.plan.aligned_addr + from) as u32,
            )[i % 3]
        }),
    decreases payload.len() - offset,
{
    let size = job.chunk_size as int;
    let end: int = if offset + size <= payload.len() {
        offset + size
    } else {
        payload.len() as int
    };
    let steps = chunk_steps(
        job,
        payload.subrange(offset as int, end),
        (job.plan.aligned_addr + offset) as u32,
    );
    let rest = chunks_from(job, payload, end as nat);
    let all = chunks_from(job, payload, offset);
    if i < 3 {
        assert(all[i] == steps[i]);
        assert(i / 3 == 0);
        assert((i / 3) * size == 0) by (nonlinear_arith)
            requires
                i / 3 == 0,
        ;
    } else {
        assert(all[i] == rest[i - 3]);
        assert(end == offset + size);
        lemma_chunks_stay_in_the_pages(job, payload, end as nat, i - 3);
        let k = i / 3;
        assert((i - 3) / 3 == k - 1);
        assert(end + (k - 1) * size == offset + k * size) by (nonlinear_arith)
            requires
                end == offset + size,
        ;
    }
}

} // verus!
