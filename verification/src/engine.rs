//! The flash engine: which step follows which reply.
//!
//! The engine never touches the port. It hands the driver one step at a
//! time; the driver performs it and hands back what came. A command runs
//! as a chain of scripts: `connect`, then `loader` twice where the command
//! touches flash, then `bufsize` on legacy adapters, then the reads that a
//! misaligned write needs, then the command itself.

use vstd::prelude::*;
use crate::commands::{
    erase, erase_eflash, erase_eflash_spec, erase_spec, read_c, read_c_spec, read_crc,
    read_crc_spec, read_eflash, read_eflash_spec, write_c, write_c_spec, write_eflash,
    write_eflash_spec, write_length, WriteJob,
};
use crate::error::{ErrorKind, Failure};
use crate::info::InfoMap;
use crate::number::{decimal, push_decimal};
use crate::plan::{CrcPlan, ReadPlan, WritePlan};
use crate::protocol::{
    buf_size_of, bufsize_request, cmd_bytes, connect, connect_info, connect_request, crc_of_reply,
    crc_request, crc_value, get_buf_size, get_loader_info, loader_info, loader_request, request0,
    request2,
};
use crate::script::{
    assemble, erase_steps, exchange, judge, loader_steps, payload_of, push_erase, push_exchange,
    push_spierase, read_data, read_data_steps, read_eflash_data, read_eflash_data_steps, resize,
    resized, simple_command, simple_command_steps, slack_script, slack_steps, spierase_steps,
    steps_view, texts_view, verdict, write_script, write_steps, Expect, Step, StepView,
};
use crate::text::{ascii, copy_range, literal};

verus! {

/// What the user asks for.
#[derive(Clone, Copy, Debug, PartialEq, Eq, Structural)]
pub enum Command {
    /// Report what the target says of itself.
    Connect,
    /// The checksum of a range of the internal flash.
    Crc { addr: u32, len: Option<u32> },
    /// Erase pages of the internal flash.
    Erase { addr: u32, pages: Option<u32> },
    /// Erase pages of the external flash.
    EraseEflash { addr: u32, pages: Option<u32> },
    /// Halt the target.
    Halt,
    /// The adapter's hardware id.
    Id,
    /// Let the target run.
    Run,
    /// Reset the target, softly or by its reset line.
    Reset { hard: bool },
    /// Read a range of the internal flash.
    Read { addr: u32, len: Option<u32> },
    /// Read a range of the external flash.
    ReadEflash { addr: u32, len: Option<u32> },
    /// Write the data to the internal flash.
    Write { addr: u32, len: Option<u32> },
    /// Write the data to the external flash.
    WriteEflash { addr: u32, len: Option<u32> },
}

/// What the driver hands back.
#[derive(Debug, PartialEq, Eq)]
pub enum Event {
    /// What was read: the body of a textual reply, or the bytes asked for.
    Reply(Vec<u8>),
    /// The stream ended early; this much had come.
    Eof(Vec<u8>),
}

/// What a command that succeeded gives.
#[derive(Debug)]
pub enum Outcome {
    /// The target's block.
    Info(InfoMap),
    /// The checksum of the planned words.
    Crc { plan: CrcPlan, value: u32 },
    /// The adapter's answer, as text.
    Echo(Vec<u8>),
    /// The bytes that were read.
    Data(Vec<u8>),
    /// Nothing but success.
    Done,
}

/// What the engine asks of the driver.
#[derive(Debug)]
pub enum Action {
    /// Perform this step and hand back what came.
    Perform(Step),
    /// The command is done.
    Finish(Outcome),
    /// The command is given up.
    Abort(Failure),
}

/// Where the engine is in the chain of scripts.
#[derive(Clone, Copy, Debug, PartialEq, Eq, Structural)]
pub enum Stage {
    /// Waiting for the reply to `connect`.
    Connecting,
    /// Entering loader mode.
    Loading,
    /// Asking a legacy adapter for its buffer size.
    Sizing,
    /// Reading the pages at the ends of a misaligned write.
    Slack,
    /// Running the command's own script.
    Final,
    /// Done or given up.
    Finished,
}

/// An event as a plain value.
pub ghost enum EventView {
    Reply(Seq<u8>),
    Eof(Seq<u8>),
}

/// An outcome as a plain value.
pub ghost enum OutcomeView {
    Info(Map<Seq<u8>, Seq<u8>>),
    Crc { plan: CrcPlan, value: u32 },
    Echo(Seq<u8>),
    Data(Seq<u8>),
    Done,
}

/// An action as a plain value.
pub ghost enum ActionView {
    Perform(StepView),
    Finish(OutcomeView),
    Abort(ErrorKind, Seq<u8>),
}

impl View for Event {
    type V = EventView;

    open spec fn view(&self) -> EventView {
        match self {
            Event::Reply(bytes) => EventView::Reply(bytes@),
            Event::Eof(bytes) => EventView::Eof(bytes@),
        }
    }
}

impl View for Outcome {
    type V = OutcomeView;

    open spec fn view(&self) -> OutcomeView {
        match self {
            Outcome::Info(info) => OutcomeView::Info(info@),
            Outcome::Crc { plan, value } => OutcomeView::Crc { plan: *plan, value: *value },
            Outcome::Echo(text) => OutcomeView::Echo(text@),
            Outcome::Data(bytes) => OutcomeView::Data(bytes@),
            Outcome::Done => OutcomeView::Done,
        }
    }
}

impl View for Action {
    type V = ActionView;

    open spec fn view(&self) -> ActionView {
        match self {
            Action::Perform(step) => ActionView::Perform(step@),
            Action::Finish(outcome) => ActionView::Finish(outcome@),
            Action::Abort(failure) => ActionView::Abort(failure.kind, failure.detail@),
        }
    }
}

/// The engine as a plain value.
pub ghost struct State {
    pub command: Command,
    /// The bytes to write: as given, then cut or padded to the length of the
    /// write.
    pub data: Seq<u8>,
    pub stage: Stage,
    /// The script that is running.
    pub script: Seq<StepView>,
    /// The replies to the steps of the script that were performed.
    pub replies: Seq<Seq<u8>>,
    /// The target's block.
    pub info: Map<Seq<u8>, Seq<u8>>,
    /// The loader's block.
    pub loader: Map<Seq<u8>, Seq<u8>>,
    /// The plan of a write.
    pub job: WriteJob,
    /// The plan of a read.
    pub span: ReadPlan,
    /// The plan of a checksum.
    pub crc: CrcPlan,
}

/// No write planned.
pub open spec fn no_job() -> WriteJob {
    WriteJob {
        plan: WritePlan { aligned_addr: 0, page_size: 0, page_count: 0, head_slack: 0, tail_slack: 0 },
        chunk_size: 0,
        external: false,
    }
}

/// No read planned.
pub open spec fn no_span() -> ReadPlan {
    ReadPlan { aligned_addr: 0, count: 0, offset: 0, len: 0 }
}

/// No checksum planned.
pub open spec fn no_crc() -> CrcPlan {
    CrcPlan { aligned_addr: 0, word_count: 0 }
}

/// The engine at rest: every finished engine looks like this.
pub open spec fn halted() -> State {
    State {
        command: Command::Connect,
        data: Seq::empty(),
        stage: Stage::Finished,
        script: Seq::empty(),
        replies: Seq::empty(),
        info: Map::empty(),
        loader: Map::empty(),
        job: no_job(),
        span: no_span(),
        crc: no_crc(),
    }
}

/// The engine as it starts on `command`: `connect` is the first request of
/// every command.
pub open spec fn initial(command: Command, data: Seq<u8>) -> State {
    State {
        command,
        data,
        stage: Stage::Connecting,
        script: seq![exchange(request0("connect"@), Expect::Ack)],
        replies: Seq::empty(),
        info: Map::empty(),
        loader: Map::empty(),
        job: no_job(),
        span: no_span(),
        crc: no_crc(),
    }
}

/// Giving the command up.
pub open spec fn abort(kind: ErrorKind, detail: Seq<u8>) -> (State, ActionView) {
    (halted(), ActionView::Abort(kind, detail))
}

/// Ending the command with success.
pub open spec fn finish(outcome: OutcomeView) -> (State, ActionView) {
    (halted(), ActionView::Finish(outcome))
}

/// Starting on `script` in `stage`. An empty script is done at once.
pub open spec fn begin(s: State, stage: Stage, script: Seq<StepView>) -> (State, ActionView) {
    if script.len() == 0 {
        finish(OutcomeView::Done)
    } else {
        (State { stage, script, replies: Seq::empty(), ..s }, ActionView::Perform(script[0]))
    }
}

/// The request of a command without a plan.
pub open spec fn simple_request(command: Command) -> Seq<u8> {
    match command {
        Command::Halt => request0("halt"@),
        Command::Id => request0("id"@),
        Command::Run => request0("run"@),
        Command::Reset { hard } => if hard {
            request0("reset -h"@)
        } else {
            request0("reset"@)
        },
        _ => Seq::empty(),
    }
}

/// What follows the target's block: the command itself where it needs no
/// loader, else the way into loader mode.
pub open spec fn connected(s: State) -> (State, ActionView) {
    match s.command {
        Command::Connect => finish(OutcomeView::Info(s.info)),
        Command::Crc { addr, len } => match read_crc_spec(s.info, addr, len) {
            Err(kind) => abort(kind, Seq::empty()),
            Ok(plan) => begin(
                State { crc: plan, ..s },
                Stage::Final,
                seq![
                    exchange(request2("crc"@, plan.aligned_addr, plan.word_count), Expect::Ack),
                ],
            ),
        },
        Command::Read { addr, len } => match read_c_spec(s.info, addr, len) {
            Err(kind) => abort(kind, Seq::empty()),
            Ok(plan) => begin(
                State { span: plan, ..s },
                Stage::Final,
                read_data_steps(plan.aligned_addr, plan.count),
            ),
        },
        Command::Halt | Command::Id | Command::Run | Command::Reset { .. } => begin(
            s,
            Stage::Final,
            simple_command_steps(simple_request(s.command)),
        ),
        _ => begin(s, Stage::Loading, loader_steps()),
    }
}

/// Whether the command works on the external flash.
pub open spec fn on_external_flash(command: Command) -> bool {
    command is EraseEflash || command is ReadEflash || command is WriteEflash
}

/// What follows the loader's block: nothing more where a command on the
/// external flash finds no `SPIFlashSize`; `bufsize` where the block holds
/// no `MaxBufSize`, as that of a legacy adapter; else the command.
pub open spec fn loaded(s: State) -> (State, ActionView) {
    if on_external_flash(s.command) && !s.loader.contains_key(ascii("SPIFlashSize"@)) {
        abort(ErrorKind::Loader, Seq::empty())
    } else if s.loader.contains_key(ascii("MaxBufSize"@)) {
        start(s)
    } else {
        begin(s, Stage::Sizing, seq![exchange(request0("bufsize"@), Expect::Ack)])
    }
}

/// Planning and starting a command that needed the loader. A command whose
/// plan fails is given up with nothing more sent.
pub open spec fn start(s: State) -> (State, ActionView) {
    match s.command {
        Command::Erase { addr, pages } => match erase_spec(s.info, addr, pages) {
            Err(kind) => abort(kind, Seq::empty()),
            Ok(plan) => begin(s, Stage::Final, erase_steps(plan)),
        },
        Command::EraseEflash { addr, pages } => match erase_eflash_spec(s.loader, addr, pages) {
            Err(kind) => abort(kind, Seq::empty()),
            Ok(plan) => begin(
                s,
                Stage::Final,
                spierase_steps(plan.aligned_addr as int, plan.page_count as nat),
            ),
        },
        Command::ReadEflash { addr, len } => match read_eflash_spec(s.loader, addr, len) {
            Err(kind) => abort(kind, Seq::empty()),
            Ok(plan) => begin(
                State { span: plan, ..s },
                Stage::Final,
                read_eflash_data_steps(plan.aligned_addr, plan.count),
            ),
        },
        Command::Write { addr, len } => match write_c_spec(
            s.info,
            s.loader,
            s.data.len(),
            addr,
            len,
        ) {
            Err(kind) => abort(kind, Seq::empty()),
            Ok(job) => prepare(
                State { job, data: resized(s.data, write_length(s.data.len(), len)), ..s },
            ),
        },
        Command::WriteEflash { addr, len } => match write_eflash_spec(
            s.loader,
            s.data.len(),
            addr,
            len,
        ) {
            Err(kind) => abort(kind, Seq::empty()),
            Ok(job) => prepare(
                State { job, data: resized(s.data, write_length(s.data.len(), len)), ..s },
            ),
        },
        _ => abort(ErrorKind::Protocol, Seq::empty()),
    }
}

/// A planned write: first the reads of the slack, if there is any.
pub open spec fn prepare(s: State) -> (State, ActionView) {
    if s.job.plan.head_slack == 0 && s.job.plan.tail_slack == 0 {
        begin(s, Stage::Final, write_steps(s.job, s.data))
    } else {
        begin(s, Stage::Slack, slack_steps(s.job))
    }
}

/// The page that a write read back for its head slack.
pub open spec fn first_page(s: State) -> Seq<u8> {
    if s.job.plan.head_slack > 0 && s.replies.len() > 0 {
        s.replies[0]
    } else {
        Seq::empty()
    }
}

/// The page that a write read back for its tail slack.
pub open spec fn last_page(s: State) -> Seq<u8> {
    let at: int = if s.job.plan.head_slack > 0 {
        4
    } else {
        0
    };
    if s.job.plan.tail_slack > 0 && s.replies.len() > at {
        s.replies[at]
    } else {
        Seq::empty()
    }
}

/// What follows the reads of the slack: the write of the payload, which
/// must fill the planned pages exactly. A payload of any other length would
/// leave erased bytes unwritten, so the command is given up before the
/// erase.
pub open spec fn spliced(s: State) -> (State, ActionView) {
    match payload_of(s.job.plan, s.data, first_page(s), last_page(s)) {
        Some(payload) => if s.job.sound() && payload.len() == s.job.plan.span() {
            begin(s, Stage::Final, write_steps(s.job, payload))
        } else {
            abort(ErrorKind::Transport, Seq::empty())
        },
        None => abort(ErrorKind::Transport, Seq::empty()),
    }
}

/// What a command gives once its own script has run.
pub open spec fn concluded(s: State) -> (State, ActionView) {
    let last = s.replies.last();
    match s.command {
        Command::Crc { .. } => match crc_of_reply(last) {
            Ok(value) => finish(OutcomeView::Crc { plan: s.crc, value }),
            Err(kind) => abort(kind, last),
        },
        Command::Read { .. } | Command::ReadEflash { .. } => if s.span.offset + s.span.len
            <= s.replies[0].len() {
            finish(
                OutcomeView::Data(
                    s.replies[0].subrange(s.span.offset as int, s.span.offset + s.span.len),
                ),
            )
        } else {
            abort(ErrorKind::Transport, s.replies[0])
        },
        Command::Halt | Command::Id | Command::Run | Command::Reset { .. } | Command::Erase {
            ..
        } => finish(OutcomeView::Echo(last)),
        _ => finish(OutcomeView::Done),
    }
}

/// What follows the last reply of a script.
pub open spec fn completed(s: State) -> (State, ActionView) {
    let last = s.replies.last();
    match s.stage {
        Stage::Connecting => match connect_info(last) {
            Err(kind) => abort(kind, last),
            Ok(info) => connected(State { info, ..s }),
        },
        Stage::Loading => match loader_info(last) {
            Err(kind) => abort(kind, last),
            Ok(loader) => loaded(State { loader, ..s }),
        },
        Stage::Sizing => match buf_size_of(last) {
            Err(kind) => abort(kind, last),
            Ok(size) => start(
                State {
                    loader: s.loader.insert(ascii("MaxBufSize"@), decimal(size as nat)),
                    ..s
                },
            ),
        },
        Stage::Slack => spliced(s),
        Stage::Final => concluded(s),
        Stage::Finished => abort(ErrorKind::Protocol, Seq::empty()),
    }
}

/// The engine's answer to an event: the state it moves to and what it asks
/// of the driver next.
///
/// An early end of the stream is a transport failure. A reply that the
/// current step does not accept ends the command with the failure that the
/// step's expectation names, and the reply as its detail. An accepted reply
/// is kept; the next step of the script follows, or, behind the last step,
/// what the stage decides.
///
/// An engine that is finished, or has no step left to perform, answers
/// every event by giving up.
pub open spec fn next(s: State, event: EventView) -> (State, ActionView) {
    if s.stage is Finished || s.replies.len() >= s.script.len() {
        abort(ErrorKind::Protocol, Seq::empty())
    } else {
        match event {
            EventView::Eof(partial) => abort(ErrorKind::Transport, partial),
            EventView::Reply(reply) => match verdict(
                s.script[s.replies.len() as int],
                s.replies,
                reply,
            ) {
                Err(kind) => abort(kind, reply),
                Ok(_) => {
                    let kept = State { replies: s.replies.push(reply), ..s };
                    if kept.replies.len() < kept.script.len() {
                        (kept, ActionView::Perform(kept.script[kept.replies.len() as int]))
                    } else {
                        completed(kept)
                    }
                },
            },
        }
    }
}

/// The engine: the command, the script that runs and what has come so far.
pub struct Engine {
    command: Command,
    data: Vec<u8>,
    stage: Stage,
    script: Vec<Step>,
    replies: Vec<Vec<u8>>,
    info: InfoMap,
    loader: InfoMap,
    job: WriteJob,
    span: ReadPlan,
    crc: CrcPlan,
}

impl View for Engine {
    type V = State;

    closed spec fn view(&self) -> State {
        if self.stage is Finished {
            halted()
        } else {
            self.raw()
        }
    }
}

fn duplicate(step: &Step) -> (copy: Step)
    ensures
        copy@ == step@,
{
    let send = copy_range(step.send.as_slice(), 0, step.send.len());
    assert(send@ =~= step.send@);
    Step { kind: step.kind, send, len: step.len, expect: step.expect }
}

fn job_is_sound(job: &WriteJob) -> (sound: bool)
    ensures
        sound == job.sound(),
{
    assert(job.plan.page_count * job.plan.page_size <= 0xffff_ffff * 0xffff_ffff)
        by (nonlinear_arith)
        requires
            job.plan.page_count <= 0xffff_ffff,
            job.plan.page_size <= 0xffff_ffff,
    ;
    let span: u64 = job.plan.page_count as u64 * job.plan.page_size as u64;
    let readable = if job.external {
        job.plan.page_size == crate::plan::SPIPAGESIZE
    } else {
        job.plan.page_size % crate::plan::WORD == 0
    };
    job.chunk_size > 0 && job.plan.page_size > 0 && job.plan.aligned_addr % job.plan.page_size == 0
        && job.plan.head_slack < job.plan.page_size && job.plan.tail_slack < job.plan.page_size
        && job.plan.head_slack as u64 + job.plan.tail_slack as u64 <= span
        && job.plan.aligned_addr as u64 + span <= 0x1_0000_0000 && readable
}

impl Engine {
    closed spec fn raw(&self) -> State {
        State {
            command: self.command,
            data: self.data@,
            stage: self.stage,
            script: steps_view(self.script@),
            replies: texts_view(self.replies@),
            info: self.info@,
            loader: self.loader@,
            job: self.job,
            span: self.span,
            crc: self.crc,
        }
    }

    /// Starts on `command`; `data` holds the bytes of a write and is empty
    /// for every other command. The first step is always `connect`.
    pub fn new(command: Command, data: Vec<u8>) -> (started: (Engine, Action))
        ensures
            started.0@ == initial(command, data@),
            started.1@ == ActionView::Perform(exchange(request0("connect"@), Expect::Ack)),
    {
        let mut script: Vec<Step> = Vec::new();
        assert(steps_view(script@) =~= Seq::<StepView>::empty());
        push_exchange(&mut script, connect_request(), Expect::Ack);
        assert(steps_view(script@).len() == script@.len());
        assert(steps_view(script@)[0] == script@[0]@);
        let first = duplicate(&script[0]);
        let engine = Engine {
            command,
            data,
            stage: Stage::Connecting,
            script,
            replies: Vec::new(),
            info: InfoMap::new(),
            loader: InfoMap::new(),
            job: WriteJob {
                plan: WritePlan {
                    aligned_addr: 0,
                    page_size: 0,
                    page_count: 0,
                    head_slack: 0,
                    tail_slack: 0,
                },
                chunk_size: 0,
                external: false,
            },
            span: ReadPlan { aligned_addr: 0, count: 0, offset: 0, len: 0 },
            crc: CrcPlan { aligned_addr: 0, word_count: 0 },
        };
        assert(engine@.script =~= initial(command, data@).script);
        assert(engine@.replies =~= initial(command, data@).replies);
        (engine, Action::Perform(first))
    }

    /// Whether the command is done or given up.
    pub fn is_finished(&self) -> (finished: bool)
        ensures
            finished == (self@.stage is Finished),
    {
        match self.stage {
            Stage::Finished => true,
            _ => false,
        }
    }

    fn abort(&mut self, kind: ErrorKind, detail: Vec<u8>) -> (action: Action)
        ensures
            (final(self)@, action@) == abort(kind, detail@),
    {
        self.stage = Stage::Finished;
        Action::Abort(Failure { kind, detail })
    }

    fn finish(&mut self, outcome: Outcome) -> (action: Action)
        ensures
            (final(self)@, action@) == finish(outcome@),
    {
        self.stage = Stage::Finished;
        Action::Finish(outcome)
    }

    fn begin(&mut self, stage: Stage, script: Vec<Step>) -> (action: Action)
        requires
            stage !is Finished,
        ensures
            (final(self)@, action@) == begin(old(self).raw(), stage, steps_view(script@)),
    {
        if script.len() == 0 {
            return self.finish(Outcome::Done);
        }
        assert(steps_view(script@)[0] == script@[0]@);
        let first = duplicate(&script[0]);
        self.stage = stage;
        self.script = script;
        self.replies = Vec::new();
        assert(texts_view(self.replies@) =~= Seq::<Seq<u8>>::empty());
        Action::Perform(first)
    }

    fn simple_request(&self) -> (request: Vec<u8>)
        ensures
            request@ == simple_request(self.command),
    {
        proof {
            reveal_strlit("halt");
            reveal_strlit("id");
            reveal_strlit("run");
            reveal_strlit("reset");
            reveal_strlit("reset -h");
        }
        match self.command {
            Command::Halt => cmd_bytes(literal("halt")),
            Command::Id => cmd_bytes(literal("id")),
            Command::Run => cmd_bytes(literal("run")),
            Command::Reset { hard } => if hard {
                cmd_bytes(literal("reset -h"))
            } else {
                cmd_bytes(literal("reset"))
            },
            _ => Vec::new(),
        }
    }

    fn connected(&mut self) -> (action: Action)
        requires
            old(self).stage !is Finished,
        ensures
            (final(self)@, action@) == connected(old(self).raw()),
    {
        let mut script: Vec<Step> = Vec::new();
        assert(steps_view(script@) =~= Seq::<StepView>::empty());
        match self.command {
            Command::Connect => {
                let mut info = InfoMap::new();
                core::mem::swap(&mut self.info, &mut info);
                self.finish(Outcome::Info(info))
            },
            Command::Crc { addr, len } => match read_crc(&self.info, addr, len) {
                Err(kind) => self.abort(kind, Vec::new()),
                Ok(plan) => {
                    self.crc = plan;
                    push_exchange(
                        &mut script,
                        crc_request(plan.aligned_addr, plan.word_count),
                        Expect::Ack,
                    );
                    assert(steps_view(script@) =~= seq![
                        exchange(
                            request2("crc"@, plan.aligned_addr, plan.word_count),
                            Expect::Ack,
                        ),
                    ]);
                    self.begin(Stage::Final, script)
                },
            },
            Command::Read { addr, len } => match read_c(&self.info, addr, len) {
                Err(kind) => self.abort(kind, Vec::new()),
                Ok(plan) => {
                    proof {
                        let size = crate::commands::number_of(self.info@, "FlashSize"@).unwrap();
                        crate::plan::lemma_read_plan_fits(
                            crate::plan::FLASH_USERDATA_ADDRESS,
                            crate::plan::WORD,
                            size,
                            addr,
                            len,
                        );
                    }
                    self.span = plan;
                    read_data(&mut script, plan.aligned_addr, plan.count);
                    assert(steps_view(script@) =~= read_data_steps(plan.aligned_addr, plan.count));
                    self.begin(Stage::Final, script)
                },
            },
            Command::Halt | Command::Id | Command::Run | Command::Reset { .. } => {
                let request = self.simple_request();
                simple_command(&mut script, request);
                assert(steps_view(script@) =~= simple_command_steps(
                    simple_request(self.command),
                ));
                self.begin(Stage::Final, script)
            },
            _ => {
                push_exchange(&mut script, loader_request(), Expect::Ack);
                push_exchange(&mut script, loader_request(), Expect::Ack);
                assert(steps_view(script@) =~= loader_steps());
                self.begin(Stage::Loading, script)
            },
        }
    }

    fn loaded(&mut self) -> (action: Action)
        requires
            old(self).stage !is Finished,
        ensures
            (final(self)@, action@) == loaded(old(self).raw()),
    {
        proof {
            reveal_strlit("MaxBufSize");
            reveal_strlit("SPIFlashSize");
        }
        let external = match self.command {
            Command::EraseEflash { .. } | Command::ReadEflash { .. } | Command::WriteEflash {
                ..
            } => true,
            _ => false,
        };
        if external && !self.loader.contains_key(literal("SPIFlashSize")) {
            self.abort(ErrorKind::Loader, Vec::new())
        } else if self.loader.contains_key(literal("MaxBufSize")) {
            self.start()
        } else {
            let mut script: Vec<Step> = Vec::new();
            assert(steps_view(script@) =~= Seq::<StepView>::empty());
            push_exchange(&mut script, bufsize_request(), Expect::Ack);
            assert(steps_view(script@) =~= seq![exchange(request0("bufsize"@), Expect::Ack)]);
            self.begin(Stage::Sizing, script)
        }
    }

    fn start(&mut self) -> (action: Action)
        requires
            old(self).stage !is Finished,
        ensures
            (final(self)@, action@) == start(old(self).raw()),
    {
        let mut script: Vec<Step> = Vec::new();
        assert(steps_view(script@) =~= Seq::<StepView>::empty());
        match self.command {
            Command::Erase { addr, pages } => match erase(&self.info, addr, pages) {
                Err(kind) => self.abort(kind, Vec::new()),
                Ok(plan) => {
                    push_erase(&mut script, plan);
                    assert(steps_view(script@) =~= erase_steps(plan));
                    self.begin(Stage::Final, script)
                },
            },
            Command::EraseEflash { addr, pages } => match erase_eflash(&self.loader, addr, pages) {
                Err(kind) => self.abort(kind, Vec::new()),
                Ok(plan) => {
                    proof {
                        let size = crate::commands::number_of(self.loader@, "SPIFlashSize"@).unwrap();
                        crate::plan::lemma_erase_plan_fits(
                            0,
                            crate::plan::SPIPAGESIZE,
                            size,
                            addr,
                            pages,
                        );
                    }
                    push_spierase(&mut script, plan);
                    assert(steps_view(script@) =~= spierase_steps(
                        plan.aligned_addr as int,
                        plan.page_count as nat,
                    ));
                    self.begin(Stage::Final, script)
                },
            },
            Command::ReadEflash { addr, len } => match read_eflash(&self.loader, addr, len) {
                Err(kind) => self.abort(kind, Vec::new()),
                Ok(plan) => {
                    proof {
                        let size = crate::commands::number_of(self.loader@, "SPIFlashSize"@).unwrap();
                        crate::plan::lemma_read_plan_fits(
                            0,
                            crate::plan::SPIPAGESIZE,
                            size,
                            addr,
                            len,
                        );
                    }
                    self.span = plan;
                    read_eflash_data(&mut script, plan.aligned_addr, plan.count);
                    assert(steps_view(script@) =~= read_eflash_data_steps(
                        plan.aligned_addr,
                        plan.count,
                    ));
                    self.begin(Stage::Final, script)
                },
            },
            Command::Write { addr, len } => match write_c(
                &self.info,
                &self.loader,
                self.data.len(),
                addr,
                len,
            ) {
                Err(kind) => self.abort(kind, Vec::new()),
                Ok(job) => {
                    self.job = job;
                    let length: usize = match len {
                        Some(l) => l as usize,
                        None => self.data.len(),
                    };
                    resize(&mut self.data, length);
                    self.prepare()
                },
            },
            Command::WriteEflash { addr, len } => match write_eflash(
                &self.loader,
                self.data.len(),
                addr,
                len,
            ) {
                Err(kind) => self.abort(kind, Vec::new()),
                Ok(job) => {
                    self.job = job;
                    let length: usize = match len {
                        Some(l) => l as usize,
                        None => self.data.len(),
                    };
                    resize(&mut self.data, length);
                    self.prepare()
                },
            },
            _ => self.abort(ErrorKind::Protocol, Vec::new()),
        }
    }

    fn prepare(&mut self) -> (action: Action)
        requires
            old(self).stage !is Finished,
            old(self).job.sound(),
            old(self).job.plan.span() == old(self).job.plan.head_slack + old(self).data@.len()
                + old(self).job.plan.tail_slack,
        ensures
            (final(self)@, action@) == prepare(old(self).raw()),
    {
        if self.job.plan.head_slack == 0 && self.job.plan.tail_slack == 0 {
            let script = write_script(&self.job, self.data.as_slice());
            self.begin(Stage::Final, script)
        } else {
            let script = slack_script(&self.job);
            self.begin(Stage::Slack, script)
        }
    }

    fn spliced(&mut self) -> (action: Action)
        requires
            old(self).stage !is Finished,
        ensures
            (final(self)@, action@) == spliced(old(self).raw()),
    {
        if !job_is_sound(&self.job) {
            return self.abort(ErrorKind::Transport, Vec::new());
        }
        let empty: Vec<u8> = Vec::new();
        let at: usize = if self.job.plan.head_slack > 0 {
            4
        } else {
            0
        };
        let first: &[u8] = if self.job.plan.head_slack > 0 && self.replies.len() > 0 {
            self.replies[0].as_slice()
        } else {
            empty.as_slice()
        };
        let last: &[u8] = if self.job.plan.tail_slack > 0 && self.replies.len() > at {
            self.replies[at].as_slice()
        } else {
            empty.as_slice()
        };
        assert(first@ == first_page(self.raw()));
        assert(last@ == last_page(self.raw()));
        match assemble(&self.job.plan, self.data.as_slice(), first, last) {
            None => self.abort(ErrorKind::Transport, Vec::new()),
            Some(payload) => {
                assert(self.job.plan.page_count * self.job.plan.page_size <= 0xffff_ffff
                    * 0xffff_ffff) by (nonlinear_arith)
                    requires
                        self.job.plan.page_count <= 0xffff_ffff,
                        self.job.plan.page_size <= 0xffff_ffff,
                ;
                let span: u64 = self.job.plan.page_count as u64 * self.job.plan.page_size as u64;
                if payload.len() as u64 != span {
                    return self.abort(ErrorKind::Transport, Vec::new());
                }
                let script = write_script(&self.job, payload.as_slice());
                self.begin(Stage::Final, script)
            },
        }
    }

    fn concluded(&mut self) -> (action: Action)
        requires
            old(self).stage !is Finished,
            old(self).replies@.len() > 0,
        ensures
            (final(self)@, action@) == concluded(old(self).raw()),
    {
        let n = self.replies.len();
        let ghost texts = texts_view(self.replies@);
        assert(texts.last() == self.replies@[n - 1]@);
        assert(texts[0] == self.replies@[0]@);
        match self.command {
            Command::Crc { .. } => {
                let last = copy_range(self.replies[n - 1].as_slice(), 0, self.replies[n - 1].len());
                assert(last@ =~= texts.last());
                match crc_value(last.as_slice()) {
                    Ok(value) => {
                        let plan = self.crc;
                        self.finish(Outcome::Crc { plan, value })
                    },
                    Err(kind) => self.abort(kind, last),
                }
            },
            Command::Read { .. } | Command::ReadEflash { .. } => {
                let from: usize = self.span.offset as usize;
                let body_len: usize = self.replies[0].len();
                if self.span.offset as u64 + self.span.len as u64 <= body_len as u64 {
                    let to: usize = from + self.span.len as usize;
                    let data = copy_range(self.replies[0].as_slice(), from, to);
                    self.finish(Outcome::Data(data))
                } else {
                    let body = copy_range(self.replies[0].as_slice(), 0, body_len);
                    assert(body@ =~= texts[0]);
                    self.abort(ErrorKind::Transport, body)
                }
            },
            Command::Halt | Command::Id | Command::Run | Command::Reset { .. } | Command::Erase {
                ..
            } => {
                let last = copy_range(self.replies[n - 1].as_slice(), 0, self.replies[n - 1].len());
                assert(last@ =~= texts.last());
                self.finish(Outcome::Echo(last))
            },
            _ => self.finish(Outcome::Done),
        }
    }

    fn completed(&mut self) -> (action: Action)
        requires
            old(self).replies@.len() > 0,
        ensures
            (final(self)@, action@) == completed(old(self).raw()),
    {
        let n = self.replies.len();
        let ghost texts = texts_view(self.replies@);
        assert(texts.last() == self.replies@[n - 1]@);
        match self.stage {
            Stage::Connecting => {
                let last = copy_range(self.replies[n - 1].as_slice(), 0, self.replies[n - 1].len());
                assert(last@ =~= texts.last());
                match connect(last.as_slice()) {
                    Err(kind) => self.abort(kind, last),
                    Ok(info) => {
                        self.info = info;
                        self.connected()
                    },
                }
            },
            Stage::Loading => {
                let last = copy_range(self.replies[n - 1].as_slice(), 0, self.replies[n - 1].len());
                assert(last@ =~= texts.last());
                match get_loader_info(last.as_slice()) {
                    Err(kind) => self.abort(kind, last),
                    Ok(loader) => {
                        self.loader = loader;
                        self.loaded()
                    },
                }
            },
            Stage::Sizing => {
                let last = copy_range(self.replies[n - 1].as_slice(), 0, self.replies[n - 1].len());
                assert(last@ =~= texts.last());
                match get_buf_size(last.as_slice()) {
                    Err(kind) => self.abort(kind, last),
                    Ok(size) => {
                        proof {
                            reveal_strlit("MaxBufSize");
                        }
                        let name = literal("MaxBufSize");
                        let key = copy_range(name, 0, name.len());
                        assert(key@ =~= ascii("MaxBufSize"@));
                        let mut value: Vec<u8> = Vec::new();
                        push_decimal(&mut value, size);
                        assert(value@ =~= decimal(size as nat));
                        self.loader.insert(key, value);
                        self.start()
                    },
                }
            },
            Stage::Slack => self.spliced(),
            Stage::Final => self.concluded(),
            Stage::Finished => self.abort(ErrorKind::Protocol, Vec::new()),
        }
    }

    /// Takes what the driver hands back and says what to do next.
    pub fn step(&mut self, event: Event) -> (action: Action)
        ensures
            (final(self)@, action@) == next(old(self)@, event@),
    {
        if self.is_finished() || self.replies.len() >= self.script.len() {
            return self.abort(ErrorKind::Protocol, Vec::new());
        }
        match event {
            Event::Eof(partial) => self.abort(ErrorKind::Transport, partial),
            Event::Reply(reply) => {
                let at = self.replies.len();
                assert(steps_view(self.script@)[at as int] == self.script@[at as int]@);
                match judge(&self.script[at], &self.replies, reply.as_slice()) {
                    Err(kind) => self.abort(kind, reply),
                    Ok(_) => {
                        let ghost before = texts_view(self.replies@);
                        self.replies.push(reply);
                        assert(texts_view(self.replies@) =~= before.push(reply@));
                        let done = self.replies.len();
                        if done < self.script.len() {
                            assert(steps_view(self.script@)[done as int] == self.script@[done as int]@);
                            Action::Perform(duplicate(&self.script[done]))
                        } else {
                            self.completed()
                        }
                    },
                }
            },
        }
    }
}

} // verus!
