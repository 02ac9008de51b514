//! What each stage of the boot flow makes of every answer that it can get, and what is
//! written to the console on the way.

use vstd::prelude::*;

use crate::boot::Event;
use crate::boot::EventView;
use crate::boot::Output;
use crate::boot::OutputView;
use crate::boot::Stage;
use crate::boot::StageView;
use crate::boot::answers;
use crate::boot::banner;
use crate::boot::boot_step;
use crate::boot::echo_outputs;
use crate::boot::log_lines;
use crate::boot::output_ops;
use crate::boot::outputs_view;
use crate::boot::starting;
use crate::bytes::le16s;
use crate::input::KeyPoll;
use crate::loader::attempt_record;
use crate::loader::law_messages_hold_the_path;
use crate::loader::no_loader;
use crate::loader::volumes_in_order;
use crate::log::ConsoleOpView;
use crate::log::Level;
use crate::log::RecordView;
use crate::log::Time;
use crate::log::line_ops;
use crate::log::unexpected;
use crate::measure::argon2id;
use crate::measure::effective_salt;
use crate::measure::law_pin_hash_takes_the_whole_pin;
use crate::measure::request_for;
use crate::measure::salt_records;
use crate::pcr::clean_records;
use crate::pcr::debug_record;
use crate::pcr::law_clean_means_every_byte_is_zero;
use crate::pcr::law_value_is_logged_in_full;
use crate::pcr::response_digest;
use crate::prompt::Echo;
use crate::prompt::Phase;
use crate::prompt::PromptView;
use crate::prompt::law_prompt_names_the_pcr;
use crate::prompt::prompt_step;
use crate::status::DEVICE_ERROR;
use crate::status::OUT_OF_RESOURCES;
use crate::status::SECURITY_VIOLATION;
use crate::status::SUCCESS;
use crate::status::Status;
use crate::text::decimal;
use crate::text::hex;
use crate::tpm::TpmProbe;
use crate::tpm::law_refused_tpms_are_told_apart;
use crate::tpm::tpm_failure;

verus! {

/// The TPM is opened, and the PCR read next, exactly if it is present with an active
/// SHA-256 bank; else the boot ends with what is said of that TPM. Nothing is written.
pub proof fn law_tpm_leads_to_the_pcr(probe: TpmProbe, log_event: bool)
    ensures
        ({
            let (next, outputs) = boot_step(
                StageView::OpenTpm,
                EventView::Tpm(probe),
                log_event,
            );
            let good = match probe {
                TpmProbe::Capability { present, active_banks } => present && active_banks & 2 == 2,
                _ => false,
            };
            &&& outputs.len() == 0
            &&& good ==> next is ReadPcr
            &&& !good ==> next is Report && tpm_failure(probe) == Some(next->Report_0)
        }),
{
    match probe {
        TpmProbe::Capability { present, active_banks } => {
            law_refused_tpms_are_told_apart(Status(SUCCESS), present, active_banks);
        },
        TpmProbe::Failed(status) => {
            law_refused_tpms_are_told_apart(status, true, 0);
        },
        TpmProbe::NoProtocol => {
            law_refused_tpms_are_told_apart(Status(SUCCESS), true, 0);
        },
    }
}

/// The search goes on exactly if the response of the TPM carries a digest all of whose
/// bytes are zero. A digest is logged in full before the verdict; a response without
/// one, and no response at all, is a faulty TPM.
pub proof fn law_clean_pcr_leads_to_the_search(response: Seq<u8>, log_event: bool)
    ensures
        ({
            let (next, outputs) = boot_step(
                StageView::ReadPcr,
                EventView::Response(Some(response)),
                log_event,
            );
            match response_digest(response) {
                Some(digest) => {
                    let clean = forall|i: int| 0 <= i < digest.len() ==> #[trigger] digest[i] == 0;
                    &&& outputs == seq![
                        OutputView::Log(
                            RecordView {
                                level: Level::Debug,
                                message: "PCR[15]"@ + ": "@ + hex(digest),
                            },
                        ),
                    ]
                    &&& clean ==> next is FindSelf
                    &&& !clean ==> next is Report && next->Report_0.status == Status(
                        SECURITY_VIOLATION,
                    ) && next->Report_0.message == "PCR[15]"@
                        + " already extended, did a boot loop re-enter pinnacle?"@
                },
                None => {
                    &&& outputs.len() == 0
                    &&& next is Report
                    &&& next->Report_0.status == Status(DEVICE_ERROR)
                    &&& next->Report_0.message == "could not read "@ + "PCR[15]"@
                        + ", the TPM may be faulty"@
                },
            }
        }),
        ({
            let (next, outputs) = boot_step(
                StageView::ReadPcr,
                EventView::Response(None),
                log_event,
            );
            &&& outputs.len() == 0
            &&& next is Report
            &&& next->Report_0.status == Status(DEVICE_ERROR)
            &&& next->Report_0.message == "could not read "@ + "PCR[15]"@
                + ", the TPM may be faulty"@
        }),
{
    match response_digest(response) {
        Some(digest) => {
            law_clean_means_every_byte_is_zero(digest);
            law_value_is_logged_in_full(digest);
            assert(log_lines(clean_records(Some(digest))) =~= seq![
                OutputView::Log(
                    RecordView {
                        level: Level::Debug,
                        message: "PCR[15]"@ + ": "@ + hex(digest),
                    },
                ),
            ]);
        },
        None => {
            law_clean_means_every_byte_is_zero(response);
        },
    }
    law_clean_means_every_byte_is_zero(response);
}

/// The own volume is kept as it was found, the search is announced, and a failure ends
/// the boot with its status.
pub proof fn law_own_volume_leads_to_the_volumes(own: Option<u64>, status: Status, log_event: bool)
    ensures
        boot_step(StageView::FindSelf, EventView::Own(Ok(own)), log_event).0 == (
        StageView::FindVolumes { own }),
        boot_step(StageView::FindSelf, EventView::Own(Ok(own)), log_event).1 == seq![
            OutputView::Log(
                RecordView {
                    level: Level::Info,
                    message: "searching for "@ + "\\EFI\\boot\\BOOTX64.efi"@ + "..."@,
                },
            ),
        ],
        boot_step(StageView::FindSelf, EventView::Own(Err(status)), log_event) == (
            StageView::Report(unexpected(status)),
            Seq::<OutputView>::empty(),
        ),
{
    law_messages_hold_the_path("searching for "@, "..."@);
}

/// All volumes are searched, in the order of the search, from the first on; without any
/// the boot ends, and so does it on a failure to list them, with its status.
pub proof fn law_volumes_lead_to_the_first(
    own: Option<u64>,
    volumes: Seq<u64>,
    status: Status,
    log_event: bool,
)
    ensures
        ({
            let (next, outputs) = boot_step(
                StageView::FindVolumes { own },
                EventView::Volumes(Ok(volumes)),
                log_event,
            );
            let order = volumes_in_order(volumes, own);
            &&& outputs.len() == 0
            &&& order.len() > 0 ==> next == (StageView::TryVolume { volumes: order, at: 0 })
            &&& order.len() == 0 ==> next == StageView::Report(no_loader())
        }),
        boot_step(StageView::FindVolumes { own }, EventView::Volumes(Err(status)), log_event) == (
            StageView::Report(unexpected(status)),
            Seq::<OutputView>::empty(),
        ),
{
}

/// An image that loads is the one that goes on, whichever volume it is from; a failure
/// goes on to the next volume, and ends the boot only behind the last. What is logged
/// is what the attempt says.
pub proof fn law_attempt_leads_on(
    volumes: Seq<u64>,
    at: int,
    name: Seq<char>,
    image: u64,
    status: Status,
    log_event: bool,
)
    ensures
        ({
            let stage = StageView::TryVolume { volumes, at };
            let loaded = EventView::Loaded { volume_name: name, outcome: Ok(image) };
            let failed = EventView::Loaded { volume_name: name, outcome: Err(status) };
            &&& boot_step(stage, loaded, log_event).0 == (StageView::ReadUuid { image })
            &&& boot_step(stage, failed, log_event).0 == (if at + 1 < volumes.len() {
                StageView::TryVolume { volumes, at: at + 1 }
            } else {
                StageView::Report(no_loader())
            })
            &&& attempt_record(name, Ok(image)) matches Some(line) ==> boot_step(
                stage,
                loaded,
                log_event,
            ).1 == seq![OutputView::Log(line)]
            &&& attempt_record(name, Err(status)) matches Some(line) ==> boot_step(
                stage,
                failed,
                log_event,
            ).1 == seq![OutputView::Log(line)]
            &&& attempt_record(name, Err(status)) is None ==> boot_step(
                stage,
                failed,
                log_event,
            ).1.len() == 0
        }),
{
}

/// The UUID, whatever it is, leads to an empty prompt with the salt that goes with it.
/// The choice of the salt is logged, then the way out is told, then the prompt shown.
pub proof fn law_uuid_leads_to_the_prompt(image: u64, uuid: Option<[u8; 16]>, log_event: bool)
    ensures
        ({
            let (next, outputs) = boot_step(
                StageView::ReadUuid { image },
                EventView::Uuid(uuid),
                log_event,
            );
            let lines = salt_records(uuid);
            let n = lines.len() as int;
            &&& next matches StageView::Prompt { image: same, salt, prompt } && same == image
                && salt == effective_salt(uuid) && prompt.pin.len() == 0 && prompt.phase
                == Phase::Typing
            &&& outputs.len() == n + 2
            &&& forall|i: int| 0 <= i < n ==> #[trigger] outputs[i] == OutputView::Log(lines[i])
            &&& outputs[n] == OutputView::Log(
                RecordView {
                    level: Level::Info,
                    message: "press ESC at the PIN prompt to abort"@,
                },
            )
            &&& outputs[n + 1] == OutputView::Prompt("enter PIN to extend PCR[15]: "@)
        }),
{
    law_prompt_names_the_pcr();
}

/// At the prompt a key does what it does to the prompt, with the image and the salt
/// kept: an accepted PIN, all of it, goes on to the measurement, an abort reboots
/// without an error, and a failure ends the boot with its status.
pub proof fn law_keys_lead_through_the_prompt(
    image: u64,
    salt: Seq<u8>,
    prompt: PromptView,
    poll: KeyPoll,
    log_event: bool,
)
    ensures
        ({
            let (next, outputs) = boot_step(
                StageView::Prompt { image, salt, prompt },
                EventView::Key(poll),
                log_event,
            );
            let (after, echo) = prompt_step(prompt, poll);
            let shown = echo_outputs(echo);
            match after.phase {
                Phase::Accepted => next == (StageView::Derive { image, salt, pin: after.pin })
                    && outputs == shown.push(
                    OutputView::Log(
                        RecordView { level: Level::Info, message: "deriving measurement..."@ },
                    ),
                ),
                Phase::Aborted => next == StageView::Reboot(Status(SUCCESS)) && outputs
                    == shown.push(
                    OutputView::Log(
                        RecordView { level: Level::Info, message: "aborted, rebooting..."@ },
                    ),
                ),
                Phase::Failed(status) => next == StageView::Report(unexpected(status)) && outputs
                    == shown,
                _ => next == (StageView::Prompt { image, salt, prompt: after }) && outputs == shown,
            }
        }),
{
}

/// What is shown of a key is its echo, if it has one, and the prompt again where that
/// was asked for.
pub proof fn law_echo_is_all_that_is_shown(echo: Echo)
    ensures
        echo == Echo::Nothing ==> echo_outputs(echo).len() == 0,
        echo != Echo::Nothing ==> echo_outputs(echo).len() > 0 && echo_outputs(echo)[0]
            == OutputView::Echo(echo),
        echo == Echo::NewlineAndPrompt ==> echo_outputs(echo).len() == 2 && echo_outputs(echo)[1]
            == OutputView::Prompt("enter PIN to extend PCR[15]: "@),
        echo != Echo::NewlineAndPrompt ==> echo_outputs(echo).len() <= 1,
{
    law_prompt_names_the_pcr();
}

/// The measurement of the whole PIN, with the whole salt, is what is to be extended,
/// for the same image. Only a PIN or a salt of a length that Argon2 refuses ends the
/// boot. Nothing is written.
pub proof fn law_pin_leads_to_its_measurement(
    image: u64,
    salt: Seq<u8>,
    pin: Seq<u16>,
    log_event: bool,
)
    ensures
        ({
            let (next, outputs) = boot_step(
                StageView::Derive { image, salt, pin },
                EventView::Proceed,
                log_event,
            );
            &&& outputs.len() == 0
            &&& 2 * pin.len() <= 0xffff_ffff && 8 <= salt.len() <= 0xffff_ffff ==> next == (
            StageView::Extend {
                image,
                request: request_for(
                    argon2id(le16s(pin), salt, 65536, 64, 1, 32),
                    log_event,
                ),
            })
            &&& !(2 * pin.len() <= 0xffff_ffff && 8 <= salt.len() <= 0xffff_ffff) ==> next
                == StageView::Report(unexpected(Status(OUT_OF_RESOURCES)))
        }),
{
    law_pin_hash_takes_the_whole_pin(pin, salt);
}

/// A successful extension is announced and goes on with the same image; a failed one
/// ends the boot with its status, whatever it is.
pub proof fn law_extension_leads_on(stage: StageView, status: Status, log_event: bool)
    requires
        stage is Extend,
    ensures
        boot_step(stage, EventView::Extended(Ok(())), log_event).0 == (StageView::DebugPcr {
            image: stage->Extend_image,
        }),
        boot_step(stage, EventView::Extended(Ok(())), log_event).1 == seq![
            OutputView::Log(
                RecordView {
                    level: Level::Info,
                    message: "extended PIN-derived measurement to "@ + "PCR[15]"@,
                },
            ),
        ],
        boot_step(stage, EventView::Extended(Err(status)), log_event) == (
            StageView::Report(unexpected(status)),
            Seq::<OutputView>::empty(),
        ),
{
    reveal_strlit("PCR[");
    reveal_strlit("]");
    reveal_strlit("PCR[15]");
    reveal_with_fuel(decimal, 3);
    assert(crate::pcr::pcr_label() =~= "PCR[15]"@);
}

/// Whatever the PCR reads then, it is logged, the start is announced, and the same image
/// is started.
pub proof fn law_second_read_leads_to_the_start(
    image: u64,
    response: Option<Seq<u8>>,
    log_event: bool,
)
    ensures
        ({
            let (next, outputs) = boot_step(
                StageView::DebugPcr { image },
                EventView::Response(response),
                log_event,
            );
            let digest = match response {
                Some(bytes) => response_digest(bytes),
                None => None,
            };
            &&& next == (StageView::Start { image })
            &&& outputs.len() == 2
            &&& outputs[0] == OutputView::Log(debug_record(digest))
            &&& outputs[1] == OutputView::Log(
                RecordView {
                    level: Level::Info,
                    message: "starting "@ + "\\EFI\\boot\\BOOTX64.efi"@ + "..."@,
                },
            )
        }),
{
    law_messages_hold_the_path("starting "@, "..."@);
}

/// A start that fails is reported with its status, whatever it is; only a start that
/// succeeded lets this program return.
pub proof fn law_failed_start_is_reported(image: u64, status: Status, log_event: bool)
    ensures
        boot_step(
            StageView::Start { image },
            EventView::Started(Err(status)),
            log_event,
        ) == (StageView::Report(unexpected(status)), Seq::<OutputView>::empty()),
        unexpected(status).status == status,
        boot_step(StageView::Start { image }, EventView::Started(Ok(())), log_event) == (
            StageView::Exited,
            Seq::<OutputView>::empty(),
        ),
{
}

/// An event that the stage did not ask for changes nothing and writes nothing.
pub proof fn law_unasked_events_change_nothing(stage: StageView, event: EventView, log_event: bool)
    requires
        !answers(stage, event),
    ensures
        boot_step(stage, event, log_event) == (stage, Seq::<OutputView>::empty()),
{
}

/// The banner holds the whole version.
pub proof fn law_banner_holds_the_version(version: Seq<char>)
    ensures
        banner(version) == OutputView::Log(
            RecordView {
                level: Level::Info,
                message: "pinnacle "@ + version + " by twelho"@,
            },
        ),
{
}

/// Every log line, prompt and echo is written as such, with the level and the whole
/// text that it has.
pub proof fn law_outputs_are_written_in_full(
    line: RecordView,
    text: Seq<char>,
    echo: Echo,
    time: Option<Time>,
)
    ensures
        output_ops(OutputView::Log(line), time) == line_ops(line.level, time, line.message, true),
        output_ops(OutputView::Prompt(text), time) == line_ops(Level::Info, time, text, false),
        output_ops(OutputView::Echo(echo), time) == seq![ConsoleOpView::Print(echo.characters())],
{
}

/// Every stage is seen as it is.
pub proof fn law_stage_view_keeps_everything(stage: Stage)
    ensures
        match stage {
            Stage::OpenTpm => stage@ is OpenTpm,
            Stage::ReadPcr => stage@ is ReadPcr,
            Stage::FindSelf => stage@ is FindSelf,
            Stage::FindVolumes { own } => stage@ == (StageView::FindVolumes { own }),
            Stage::TryVolume { volumes, at } => stage@ == (StageView::TryVolume {
                volumes: volumes@,
                at: at as int,
            }),
            Stage::ReadUuid { image } => stage@ == (StageView::ReadUuid { image }),
            Stage::Prompt { image, salt, prompt } => stage@ == (StageView::Prompt {
                image,
                salt: salt@,
                prompt: prompt@,
            }),
            Stage::Derive { image, salt, pin } => stage@ == (StageView::Derive {
                image,
                salt: salt@,
                pin: pin@,
            }),
            Stage::Extend { image, request } => stage@ == (StageView::Extend {
                image,
                request: request@,
            }),
            Stage::DebugPcr { image } => stage@ == (StageView::DebugPcr { image }),
            Stage::Start { image } => stage@ == (StageView::Start { image }),
            Stage::Report(fatal) => stage@ == StageView::Report(fatal@),
            Stage::Reboot(status) => stage@ == StageView::Reboot(status),
            Stage::Exited => stage@ is Exited,
        },
{
}

/// Every event is seen as it is.
pub proof fn law_event_view_keeps_everything(event: Event)
    ensures
        match event {
            Event::Tpm(probe) => event@ == EventView::Tpm(probe),
            Event::Response(Some(bytes)) => event@ == EventView::Response(Some(bytes@)),
            Event::Response(None) => event@ == EventView::Response(None),
            Event::Own(own) => event@ == EventView::Own(own),
            Event::Volumes(Ok(volumes)) => event@ == EventView::Volumes(Ok(volumes@)),
            Event::Volumes(Err(status)) => event@ == EventView::Volumes(Err(status)),
            Event::Loaded { volume_name, outcome } => event@ == (EventView::Loaded {
                volume_name: volume_name@,
                outcome,
            }),
            Event::Uuid(uuid) => event@ == EventView::Uuid(uuid),
            Event::Key(poll) => event@ == EventView::Key(poll),
            Event::Proceed => event@ is Proceed,
            Event::Extended(outcome) => event@ == EventView::Extended(outcome),
            Event::Started(outcome) => event@ == EventView::Started(outcome),
        },
{
}

/// Every output is seen as it is, and a list of them element by element.
pub proof fn law_output_view_keeps_everything(output: Output, outputs: Seq<Output>)
    ensures
        match output {
            Output::Log(line) => output@ == OutputView::Log(line@),
            Output::Prompt(text) => output@ == OutputView::Prompt(text@),
            Output::Echo(echo) => output@ == OutputView::Echo(echo),
        },
        outputs_view(outputs).len() == outputs.len(),
        forall|i: int| 0 <= i < outputs.len() ==> #[trigger] outputs_view(outputs)[i]
            == outputs[i]@,
{
}

} // verus!
