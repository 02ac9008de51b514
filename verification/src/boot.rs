//! The boot flow: everything that can fail is checked before the prompt, the PIN is
//! measured, and only then the next loader is started. The flow is a state machine:
//! a stage says what to do next, and the outcome leads to the next stage.

use vstd::prelude::*;

use crate::bytes::le16s;
use crate::input::KeyPoll;
use crate::loader::Search;
use crate::loader::SearchView;
use crate::loader::around_loader_path;
use crate::loader::attempt_record;
use crate::loader::begin_search;
use crate::loader::load_next;
use crate::loader::loader_message;
use crate::loader::search_from;
use crate::loader::search_step;
use crate::loader::volumes_in_order;
use crate::log::ConsoleOp;
use crate::log::ConsoleOpView;
use crate::log::Fatal;
use crate::log::FatalView;
use crate::log::Level;
use crate::log::Record;
use crate::log::RecordView;
use crate::log::Time;
use crate::log::emit;
use crate::log::enabled;
use crate::log::level_enabled;
use crate::log::line_ops;
use crate::log::ops_view;
use crate::log::prompt;
use crate::log::record;
use crate::log::records_view;
use crate::log::unexpected;
use crate::measure::ExtendRequest;
use crate::measure::ExtendRequestView;
use crate::measure::effective_salt;
use crate::measure::extend_pin_to_pcr;
use crate::measure::pin_hash;
use crate::measure::pin_salt;
use crate::measure::request_for;
use crate::measure::salt_records;
use crate::measure::valid_inputs;
use crate::pcr::assert_clean;
use crate::pcr::clean_failure;
use crate::pcr::clean_records;
use crate::pcr::debug;
use crate::pcr::debug_record;
use crate::pcr::pcr_label;
use crate::pcr::push_label;
use crate::pcr::read_sha256;
use crate::pcr::response_digest;
use crate::prompt::Echo;
use crate::prompt::Phase;
use crate::prompt::PinPrompt;
use crate::prompt::PromptView;
use crate::prompt::fresh;
use crate::prompt::pin_prompt;
use crate::prompt::pin_prompt_text;
use crate::prompt::prompt_step;
use crate::scrub::ScrubbedUnits;
use crate::status::OUT_OF_RESOURCES;
use crate::status::SUCCESS;
use crate::status::Status;
use crate::tpm::TpmProbe;
use crate::tpm::open_tpm;
use crate::tpm::tpm_failure;

verus! {

/// How long to wait before the next loader is started, to ensure the final log
/// messages can be read.
pub const STALL_SECONDS: u64 = 3;

/// What to do next.
pub enum Stage {
    /// Open the TPM and ask for its capability.
    OpenTpm,
    /// Read the PIN PCR.
    ReadPcr,
    /// Find the volume that the running image was loaded from.
    FindSelf,
    /// List the filesystem volumes.
    FindVolumes { own: Option<u64> },
    /// Load the next loader from the volume at `at`.
    TryVolume { volumes: Vec<u64>, at: usize },
    /// Read the SMBIOS system UUID.
    ReadUuid { image: u64 },
    /// Read a key at the PIN prompt: after waiting for one while typing, without
    /// waiting in any other phase.
    Prompt { image: u64, salt: Vec<u8>, prompt: PinPrompt },
    /// Go on with deriving the measurement.
    Derive { image: u64, salt: Vec<u8>, pin: ScrubbedUnits },
    /// Extend the PIN PCR.
    Extend { image: u64, request: ExtendRequest },
    /// Read the PIN PCR once more.
    DebugPcr { image: u64 },
    /// Wait `STALL_SECONDS`, then start the image.
    Start { image: u64 },
    /// Report the fatal error, wait for a key, and reboot with its status.
    Report(Fatal),
    /// Reboot with the status.
    Reboot(Status),
    /// The next loader has returned: so does this one.
    Exited,
}

/// [`Stage`] over sequences.
#[verifier::ext_equal]
pub enum StageView {
    OpenTpm,
    ReadPcr,
    FindSelf,
    FindVolumes { own: Option<u64> },
    TryVolume { volumes: Seq<u64>, at: int },
    ReadUuid { image: u64 },
    Prompt { image: u64, salt: Seq<u8>, prompt: PromptView },
    Derive { image: u64, salt: Seq<u8>, pin: Seq<u16> },
    Extend { image: u64, request: ExtendRequestView },
    DebugPcr { image: u64 },
    Start { image: u64 },
    Report(FatalView),
    Reboot(Status),
    Exited,
}

impl View for Stage {
    type V = StageView;

    open spec fn view(&self) -> StageView {
        match *self {
            Stage::OpenTpm => StageView::OpenTpm,
            Stage::ReadPcr => StageView::ReadPcr,
            Stage::FindSelf => StageView::FindSelf,
            Stage::FindVolumes { own } => StageView::FindVolumes { own },
            Stage::TryVolume { volumes, at } => StageView::TryVolume {
                volumes: volumes@,
                at: at as int,
            },
            Stage::ReadUuid { image } => StageView::ReadUuid { image },
            Stage::Prompt { image, salt, prompt } => StageView::Prompt {
                image,
                salt: salt@,
                prompt: prompt@,
            },
            Stage::Derive { image, salt, pin } => StageView::Derive {
                image,
                salt: salt@,
                pin: pin@,
            },
            Stage::Extend { image, request } => StageView::Extend { image, request: request@ },
            Stage::DebugPcr { image } => StageView::DebugPcr { image },
            Stage::Start { image } => StageView::Start { image },
            Stage::Report(fatal) => StageView::Report(fatal@),
            Stage::Reboot(status) => StageView::Reboot(status),
            Stage::Exited => StageView::Exited,
        }
    }
}

impl Stage {
    /// What every stage of the flow satisfies.
    pub open spec fn wf(self) -> bool {
        match self {
            Stage::TryVolume { volumes, at } => at < volumes@.len(),
            Stage::Prompt { prompt, .. } => prompt.wf(),
            Stage::Derive { pin, .. } => 2 * pin@.len() <= isize::MAX,
            _ => true,
        }
    }
}

/// The outcome of what a stage asked for.
pub enum Event {
    /// Of [`Stage::OpenTpm`].
    Tpm(TpmProbe),
    /// Of [`Stage::ReadPcr`] and [`Stage::DebugPcr`]: what the TPM answered, `None`
    /// where submitting the command failed.
    Response(Option<[u8; 128]>),
    /// Of [`Stage::FindSelf`].
    Own(Result<Option<u64>, Status>),
    /// Of [`Stage::FindVolumes`].
    Volumes(Result<Vec<u64>, Status>),
    /// Of [`Stage::TryVolume`], with the printable device path of the volume.
    Loaded { volume_name: String, outcome: Result<u64, Status> },
    /// Of [`Stage::ReadUuid`].
    Uuid(Option<[u8; 16]>),
    /// Of [`Stage::Prompt`].
    Key(KeyPoll),
    /// Of [`Stage::Derive`].
    Proceed,
    /// Of [`Stage::Extend`].
    Extended(Result<(), Status>),
    /// Of [`Stage::Start`].
    Started(Result<(), Status>),
}

/// [`Event`] over sequences.
pub enum EventView {
    Tpm(TpmProbe),
    Response(Option<Seq<u8>>),
    Own(Result<Option<u64>, Status>),
    Volumes(Result<Seq<u64>, Status>),
    Loaded { volume_name: Seq<char>, outcome: Result<u64, Status> },
    Uuid(Option<[u8; 16]>),
    Key(KeyPoll),
    Proceed,
    Extended(Result<(), Status>),
    Started(Result<(), Status>),
}

impl View for Event {
    type V = EventView;

    open spec fn view(&self) -> EventView {
        match *self {
            Event::Tpm(probe) => EventView::Tpm(probe),
            Event::Response(None) => EventView::Response(None),
            Event::Response(Some(bytes)) => EventView::Response(Some(bytes@)),
            Event::Own(own) => EventView::Own(own),
            Event::Volumes(Ok(volumes)) => EventView::Volumes(Ok(volumes@)),
            Event::Volumes(Err(status)) => EventView::Volumes(Err(status)),
            Event::Loaded { volume_name, outcome } => EventView::Loaded {
                volume_name: volume_name@,
                outcome,
            },
            Event::Uuid(uuid) => EventView::Uuid(uuid),
            Event::Key(poll) => EventView::Key(poll),
            Event::Proceed => EventView::Proceed,
            Event::Extended(outcome) => EventView::Extended(outcome),
            Event::Started(outcome) => EventView::Started(outcome),
        }
    }
}

/// What the firmware can report: a failure to load has an error status.
pub open spec fn possible(event: EventView) -> bool {
    event matches EventView::Loaded { outcome: Err(status), .. } ==> status.is_failure()
}

/// Whether the event is of the kind that the stage asked for.
pub open spec fn answers(stage: StageView, event: EventView) -> bool {
    match stage {
        StageView::OpenTpm => event is Tpm,
        StageView::ReadPcr | StageView::DebugPcr { .. } => event is Response,
        StageView::FindSelf => event is Own,
        StageView::FindVolumes { .. } => event is Volumes,
        StageView::TryVolume { .. } => event is Loaded,
        StageView::ReadUuid { .. } => event is Uuid,
        StageView::Prompt { .. } => event is Key,
        StageView::Derive { .. } => event is Proceed,
        StageView::Extend { .. } => event is Extended,
        StageView::Start { .. } => event is Started,
        StageView::Report(_) | StageView::Reboot(_) | StageView::Exited => false,
    }
}

/// What to write to the console.
pub enum Output {
    /// A log line.
    Log(Record),
    /// An info-level header and message without a newline.
    Prompt(String),
    /// The echo of a key.
    Echo(Echo),
}

/// [`Output`] over sequences.
pub enum OutputView {
    Log(RecordView),
    Prompt(Seq<char>),
    Echo(Echo),
}

impl View for Output {
    type V = OutputView;

    open spec fn view(&self) -> OutputView {
        match *self {
            Output::Log(line) => OutputView::Log(line@),
            Output::Prompt(text) => OutputView::Prompt(text@),
            Output::Echo(echo) => OutputView::Echo(echo),
        }
    }
}

/// The outputs of a list, in order.
pub open spec fn outputs_view(outputs: Seq<Output>) -> Seq<OutputView> {
    outputs.map_values(|o: Output| o@)
}

/// How an output is written at the given time.
pub open spec fn output_ops(output: OutputView, time: Option<Time>) -> Seq<ConsoleOpView> {
    match output {
        OutputView::Log(line) => if level_enabled(line.level) {
            line_ops(line.level, time, line.message, true)
        } else {
            Seq::empty()
        },
        OutputView::Prompt(text) => line_ops(Level::Info, time, text, false),
        OutputView::Echo(echo) => seq![ConsoleOpView::Print(echo.characters())],
    }
}

impl Output {
    /// The console operations that write this output.
    pub fn write(&self, time: Option<Time>) -> (ops: Vec<ConsoleOp>)
        ensures
            ops_view(ops@) == output_ops(self@, time),
    {
        match self {
            Output::Log(line) => emit(line.level, time, line.message.as_str()),
            Output::Prompt(text) => prompt(time, text.as_str()),
            Output::Echo(echo) => {
                let mut text = String::new();
                text.append(echo.text());
                assert(text@ =~= echo.characters());
                let mut ops: Vec<ConsoleOp> = Vec::new();
                ops.push(ConsoleOp::Print(text));
                assert(ops_view(ops@) =~= output_ops(self@, time));
                ops
            },
        }
    }
}

/// An info line.
pub open spec fn info(message: Seq<char>) -> OutputView {
    OutputView::Log(RecordView { level: Level::Info, message })
}

/// Log lines as outputs.
pub open spec fn log_lines(records: Seq<RecordView>) -> Seq<OutputView> {
    records.map_values(|line: RecordView| OutputView::Log(line))
}

/// What is printed first.
pub open spec fn banner(version: Seq<char>) -> OutputView {
    info("pinnacle "@ + version + " by twelho"@)
}

/// The stage that a search leads to.
pub open spec fn search_stage(search: SearchView) -> StageView {
    match search {
        SearchView::Try { volumes, at } => StageView::TryVolume { volumes, at },
        SearchView::Loaded(image) => StageView::ReadUuid { image },
        SearchView::Failed(fatal) => StageView::Report(fatal),
    }
}

/// What is shown for a key.
pub open spec fn echo_outputs(echo: Echo) -> Seq<OutputView> {
    match echo {
        Echo::Nothing => Seq::empty(),
        Echo::NewlineAndPrompt => seq![
            OutputView::Echo(echo),
            OutputView::Prompt(pin_prompt_text()),
        ],
        _ => seq![OutputView::Echo(echo)],
    }
}

/// Where a key at the prompt leads.
pub open spec fn prompt_next(
    image: u64,
    salt: Seq<u8>,
    prompt: PromptView,
    echo: Echo,
) -> (StageView, Seq<OutputView>) {
    match prompt.phase {
        Phase::Accepted => (
            StageView::Derive { image, salt, pin: prompt.pin },
            echo_outputs(echo).push(info("deriving measurement..."@)),
        ),
        Phase::Aborted => (
            StageView::Reboot(Status(SUCCESS)),
            echo_outputs(echo).push(info("aborted, rebooting..."@)),
        ),
        Phase::Failed(status) => (StageView::Report(unexpected(status)), echo_outputs(echo)),
        _ => (StageView::Prompt { image, salt, prompt }, echo_outputs(echo)),
    }
}

/// The digest that the TPM answered a PCR read with, if any.
pub open spec fn answered_digest(response: Option<Seq<u8>>) -> Option<Seq<u8>> {
    match response {
        Some(bytes) => response_digest(bytes),
        None => None,
    }
}

/// The line before the next loader is started.
pub open spec fn starting() -> OutputView {
    info(around_loader_path("starting "@, "..."@))
}

/// The stage after an event, and what is written to the console before it. An event
/// that the stage did not ask for changes nothing.
pub open spec fn boot_step(stage: StageView, event: EventView, log_event: bool) -> (
    StageView,
    Seq<OutputView>,
) {
    match (stage, event) {
        (StageView::OpenTpm, EventView::Tpm(probe)) => match tpm_failure(probe) {
            Some(fatal) => (StageView::Report(fatal), Seq::empty()),
            None => (StageView::ReadPcr, Seq::empty()),
        },
        (StageView::ReadPcr, EventView::Response(response)) => (
            match clean_failure(answered_digest(response)) {
                Some(fatal) => StageView::Report(fatal),
                None => StageView::FindSelf,
            },
            log_lines(clean_records(answered_digest(response))),
        ),
        (StageView::FindSelf, EventView::Own(outcome)) => match outcome {
            Ok(own) => (
                StageView::FindVolumes { own },
                seq![info(around_loader_path("searching for "@, "..."@))],
            ),
            Err(status) => (StageView::Report(unexpected(status)), Seq::empty()),
        },
        (StageView::FindVolumes { own }, EventView::Volumes(outcome)) => match outcome {
            Ok(volumes) => (
                search_stage(search_from(volumes_in_order(volumes, own), 0)),
                Seq::empty(),
            ),
            Err(status) => (StageView::Report(unexpected(status)), Seq::empty()),
        },
        (StageView::TryVolume { volumes, at }, EventView::Loaded { volume_name, outcome }) => (
            search_stage(search_step(volumes, at, outcome)),
            match attempt_record(volume_name, outcome) {
                Some(line) => seq![OutputView::Log(line)],
                None => Seq::empty(),
            },
        ),
        (StageView::ReadUuid { image }, EventView::Uuid(uuid)) => (
            StageView::Prompt { image, salt: effective_salt(uuid), prompt: fresh() },
            log_lines(salt_records(uuid)).push(
                info("press ESC at the PIN prompt to abort"@),
            ).push(OutputView::Prompt(pin_prompt_text())),
        ),
        (StageView::Prompt { image, salt, prompt }, EventView::Key(poll)) => prompt_next(
            image,
            salt,
            prompt_step(prompt, poll).0,
            prompt_step(prompt, poll).1,
        ),
        (StageView::Derive { image, salt, pin }, EventView::Proceed) => (
            if valid_inputs(le16s(pin), salt) {
                StageView::Extend { image, request: request_for(pin_hash(pin, salt), log_event) }
            } else {
                StageView::Report(unexpected(Status(OUT_OF_RESOURCES)))
            },
            Seq::empty(),
        ),
        (StageView::Extend { image, .. }, EventView::Extended(outcome)) => match outcome {
            Ok(()) => if level_enabled(Level::Debug) {
                (
                    StageView::DebugPcr { image },
                    seq![info("extended PIN-derived measurement to "@ + pcr_label())],
                )
            } else {
                (
                    StageView::Start { image },
                    seq![
                        info("extended PIN-derived measurement to "@ + pcr_label()),
                        starting(),
                    ],
                )
            },
            Err(status) => (StageView::Report(unexpected(status)), Seq::empty()),
        },
        (StageView::DebugPcr { image }, EventView::Response(response)) => (
            StageView::Start { image },
            seq![OutputView::Log(debug_record(answered_digest(response))), starting()],
        ),
        (StageView::Start { .. }, EventView::Started(outcome)) => (
            match outcome {
                Ok(()) => StageView::Exited,
                Err(status) => StageView::Report(unexpected(status)),
            },
            Seq::empty(),
        ),
        _ => (stage, Seq::empty()),
    }
}

/// The next stage, and what to write to the console before doing what it asks for.
pub struct Step {
    pub stage: Stage,
    pub outputs: Vec<Output>,
}

impl Step {
    /// Whether the step leads to the given stage with the given outputs.
    pub open spec fn leads_to(self, next: (StageView, Seq<OutputView>)) -> bool {
        &&& self.stage.wf()
        &&& self.stage@ == next.0
        &&& outputs_view(self.outputs@) == next.1
    }
}

fn silent(stage: Stage) -> (r: Step)
    requires
        stage.wf(),
    ensures
        r.leads_to((stage@, Seq::empty())),
{
    let outputs: Vec<Output> = Vec::new();
    assert(outputs_view(outputs@) =~= Seq::empty());
    Step { stage, outputs }
}

fn say(outputs: &mut Vec<Output>, message: &str)
    ensures
        outputs_view(final(outputs)@) == outputs_view(old(outputs)@).push(info(message@)),
{
    outputs.push(Output::Log(record(Level::Info, message)));
    assert(outputs_view(outputs@) =~= outputs_view(old(outputs)@).push(info(message@)));
}

fn log_all(records: Vec<Record>) -> (outputs: Vec<Output>)
    ensures
        outputs_view(outputs@) == log_lines(records_view(records@)),
{
    let mut rest: Vec<Record> = records;
    let mut outputs: Vec<Output> = Vec::new();
    assert(rest@ =~= records@.skip(0));
    while rest.len() > 0
        invariant
            outputs@.len() + rest@.len() == records@.len(),
            rest@ == records@.skip(outputs@.len() as int),
            outputs_view(outputs@) == log_lines(
                records_view(records@.take(outputs@.len() as int)),
            ),
        decreases rest.len(),
    {
        let ghost n = outputs@.len() as int;
        let ghost before = outputs_view(outputs@);
        outputs.push(Output::Log(rest.remove(0)));
        assert(rest@ =~= records@.skip(n + 1));
        assert(outputs_view(outputs@) =~= before.push(OutputView::Log(records@[n]@)));
        assert(log_lines(records_view(records@.take(n + 1))) =~= before.push(
            OutputView::Log(records@[n]@),
        ));
    }
    assert(records@.take(outputs@.len() as int) =~= records@);
    outputs
}

/// The start of the flow: the banner with the given version.
pub fn begin(version: &str) -> (r: Step)
    ensures
        r.leads_to((StageView::OpenTpm, seq![banner(version@)])),
        r.stage is OpenTpm,
        outputs_view(r.outputs@) == seq![banner(version@)],
{
    let mut message = String::new();
    message.append("pinnacle ");
    message.append(version);
    message.append(" by twelho");
    assert(message@ =~= "pinnacle "@ + version@ + " by twelho"@);
    let mut outputs: Vec<Output> = Vec::new();
    say(&mut outputs, message.as_str());
    assert(outputs_view(outputs@) =~= seq![banner(version@)]);
    Step { stage: Stage::OpenTpm, outputs }
}

fn check_pcr(response: Option<[u8; 128]>) -> (r: Step)
    ensures
        r.leads_to(boot_step(StageView::ReadPcr, Event::Response(response)@, false)),
{
    let check = assert_clean(read_sha256(response));
    let outputs: Vec<Output> = log_all(check.records);
    match check.outcome {
        Ok(()) => Step { stage: Stage::FindSelf, outputs },
        Err(fatal) => Step { stage: Stage::Report(fatal), outputs },
    }
}

fn found_self(outcome: Result<Option<u64>, Status>) -> (r: Step)
    ensures
        r.leads_to(boot_step(StageView::FindSelf, EventView::Own(outcome), false)),
{
    match outcome {
        Ok(own) => {
            let message: String = loader_message("searching for ", "...");
            let mut outputs: Vec<Output> = Vec::new();
            say(&mut outputs, message.as_str());
            assert(outputs_view(outputs@) =~= seq![
                info(around_loader_path("searching for "@, "..."@)),
            ]);
            Step { stage: Stage::FindVolumes { own }, outputs }
        },
        Err(status) => silent(Stage::Report(Fatal::from(status))),
    }
}

fn stage_of(search: Search) -> (stage: Stage)
    requires
        search matches Search::Try { volumes, at } ==> at < volumes@.len(),
    ensures
        stage.wf(),
        stage@ == search_stage(search@),
{
    match search {
        Search::Try { volumes, at } => Stage::TryVolume { volumes, at },
        Search::Loaded(image) => Stage::ReadUuid { image },
        Search::Failed(fatal) => Stage::Report(fatal),
    }
}

fn tried_volume(
    volumes: Vec<u64>,
    at: usize,
    volume_name: String,
    outcome: Result<u64, Status>,
) -> (r: Step)
    requires
        at < volumes@.len(),
        outcome matches Err(status) ==> status.is_failure(),
    ensures
        r.leads_to(
            boot_step(
                StageView::TryVolume { volumes: volumes@, at: at as int },
                EventView::Loaded { volume_name: volume_name@, outcome },
                false,
            ),
        ),
{
    let attempt = load_next(volumes, at, volume_name.as_str(), outcome);
    let mut outputs: Vec<Output> = Vec::new();
    match attempt.record {
        Some(line) => {
            outputs.push(Output::Log(line));
        },
        None => {},
    }
    assert(outputs_view(outputs@) =~= match attempt_record(volume_name@, outcome) {
        Some(line) => seq![OutputView::Log(line)],
        None => Seq::empty(),
    });
    Step { stage: stage_of(attempt.search), outputs }
}

fn open_prompt(image: u64, uuid: Option<[u8; 16]>) -> (r: Step)
    ensures
        r.leads_to(boot_step(StageView::ReadUuid { image }, EventView::Uuid(uuid), false)),
{
    let salt = pin_salt(uuid);
    let mut outputs: Vec<Output> = log_all(salt.records);
    say(&mut outputs, "press ESC at the PIN prompt to abort");
    let ghost before = outputs_view(outputs@);
    outputs.push(Output::Prompt(pin_prompt()));
    assert(outputs_view(outputs@) =~= before.push(OutputView::Prompt(pin_prompt_text())));
    Step { stage: Stage::Prompt { image, salt: salt.bytes, prompt: PinPrompt::new() }, outputs }
}

fn show(echo: Echo) -> (outputs: Vec<Output>)
    ensures
        outputs_view(outputs@) == echo_outputs(echo),
{
    let mut outputs: Vec<Output> = Vec::new();
    match echo {
        Echo::Nothing => {},
        Echo::NewlineAndPrompt => {
            outputs.push(Output::Echo(echo));
            outputs.push(Output::Prompt(pin_prompt()));
        },
        _ => {
            outputs.push(Output::Echo(echo));
        },
    }
    assert(outputs_view(outputs@) =~= echo_outputs(echo));
    outputs
}

fn took_key(image: u64, salt: Vec<u8>, prompt: PinPrompt, poll: KeyPoll) -> (r: Step)
    requires
        prompt.wf(),
    ensures
        r.leads_to(
            boot_step(
                StageView::Prompt { image, salt: salt@, prompt: prompt@ },
                EventView::Key(poll),
                false,
            ),
        ),
{
    let mut prompt = prompt;
    let echo: Echo = prompt.read_pin(poll);
    let mut outputs: Vec<Output> = show(echo);
    match prompt.phase() {
        Phase::Accepted => {
            say(&mut outputs, "deriving measurement...");
            let pin: ScrubbedUnits = prompt.into_pin();
            Step { stage: Stage::Derive { image, salt, pin }, outputs }
        },
        Phase::Aborted => {
            say(&mut outputs, "aborted, rebooting...");
            Step { stage: Stage::Reboot(Status(SUCCESS)), outputs }
        },
        Phase::Failed(status) => Step { stage: Stage::Report(Fatal::from(status)), outputs },
        _ => Step { stage: Stage::Prompt { image, salt, prompt }, outputs },
    }
}

fn derive(image: u64, salt: Vec<u8>, pin: ScrubbedUnits, log_event: bool) -> (r: Step)
    requires
        2 * pin@.len() <= isize::MAX,
    ensures
        r.leads_to(
            boot_step(
                StageView::Derive { image, salt: salt@, pin: pin@ },
                EventView::Proceed,
                log_event,
            ),
        ),
{
    match extend_pin_to_pcr(salt.as_slice(), pin.as_slice(), log_event) {
        Ok(request) => silent(Stage::Extend { image, request }),
        Err(fatal) => silent(Stage::Report(fatal)),
    }
}

fn push_starting(outputs: &mut Vec<Output>)
    ensures
        outputs_view(final(outputs)@) == outputs_view(old(outputs)@).push(starting()),
{
    let message: String = loader_message("starting ", "...");
    say(outputs, message.as_str());
}

fn extended(image: u64, request: ExtendRequest, outcome: Result<(), Status>) -> (r: Step)
    ensures
        r.leads_to(
            boot_step(
                StageView::Extend { image, request: request@ },
                EventView::Extended(outcome),
                false,
            ),
        ),
{
    match outcome {
        Err(status) => silent(Stage::Report(Fatal::from(status))),
        Ok(()) => {
            let mut message = String::new();
            message.append("extended PIN-derived measurement to ");
            push_label(&mut message);
            assert(message@ =~= "extended PIN-derived measurement to "@ + pcr_label());
            let mut outputs: Vec<Output> = Vec::new();
            say(&mut outputs, message.as_str());
            assert(outputs_view(outputs@) =~= seq![
                info("extended PIN-derived measurement to "@ + pcr_label()),
            ]);
            // The extra TPM round-trip is skipped when debug logging is off.
            if enabled(Level::Debug) {
                Step { stage: Stage::DebugPcr { image }, outputs }
            } else {
                push_starting(&mut outputs);
                Step { stage: Stage::Start { image }, outputs }
            }
        },
    }
}

fn debugged(image: u64, response: Option<[u8; 128]>) -> (r: Step)
    ensures
        r.leads_to(boot_step(StageView::DebugPcr { image }, Event::Response(response)@, false)),
{
    let mut outputs: Vec<Output> = Vec::new();
    match debug(read_sha256(response)) {
        Some(line) => {
            outputs.push(Output::Log(line));
        },
        None => {},
    }
    push_starting(&mut outputs);
    assert(outputs_view(outputs@) =~= boot_step(
        StageView::DebugPcr { image },
        Event::Response(response)@,
        false,
    ).1);
    Step { stage: Stage::Start { image }, outputs }
}

/// Everything up to the start of the next loader. What is not needed for
/// chainloading, the PIN and its hash among it, is dropped on the way.
pub fn prepare(stage: Stage, event: Event, log_event: bool) -> (r: Step)
    requires
        stage.wf(),
        !(stage is Start),
        possible(event@),
    ensures
        r.leads_to(boot_step(stage@, event@, log_event)),
        r.stage.wf(),
        r.stage@ == boot_step(stage@, event@, log_event).0,
        outputs_view(r.outputs@) == boot_step(stage@, event@, log_event).1,
{
    match (stage, event) {
        (Stage::OpenTpm, Event::Tpm(probe)) => match open_tpm(probe) {
            Ok(()) => silent(Stage::ReadPcr),
            Err(fatal) => silent(Stage::Report(fatal)),
        },
        (Stage::ReadPcr, Event::Response(response)) => check_pcr(response),
        (Stage::FindSelf, Event::Own(outcome)) => found_self(outcome),
        (Stage::FindVolumes { own }, Event::Volumes(outcome)) => match outcome {
            Ok(volumes) => silent(stage_of(begin_search(&volumes, own))),
            Err(status) => silent(Stage::Report(Fatal::from(status))),
        },
        (Stage::TryVolume { volumes, at }, Event::Loaded { volume_name, outcome }) => tried_volume(
            volumes,
            at,
            volume_name,
            outcome,
        ),
        (Stage::ReadUuid { image }, Event::Uuid(uuid)) => open_prompt(image, uuid),
        (Stage::Prompt { image, salt, prompt }, Event::Key(poll)) => took_key(
            image,
            salt,
            prompt,
            poll,
        ),
        (Stage::Derive { image, salt, pin }, Event::Proceed) => derive(image, salt, pin, log_event),
        (Stage::Extend { image, request }, Event::Extended(outcome)) => extended(
            image,
            request,
            outcome,
        ),
        (Stage::DebugPcr { image }, Event::Response(response)) => debugged(image, response),
        (other, _) => silent(other),
    }
}

/// One step of the whole flow.
pub fn run(stage: Stage, event: Event, log_event: bool) -> (r: Step)
    requires
        stage.wf(),
        possible(event@),
    ensures
        r.leads_to(boot_step(stage@, event@, log_event)),
        r.stage.wf(),
        r.stage@ == boot_step(stage@, event@, log_event).0,
        outputs_view(r.outputs@) == boot_step(stage@, event@, log_event).1,
{
    match (stage, event) {
        (Stage::Start { image }, Event::Started(outcome)) => match outcome {
            Ok(()) => silent(Stage::Exited),
            Err(status) => silent(Stage::Report(Fatal::from(status))),
        },
        (Stage::Start { image }, _) => silent(Stage::Start { image }),
        (other, event) => prepare(other, event, log_event),
    }
}

} // verus!
