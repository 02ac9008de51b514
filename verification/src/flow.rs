//! What holds of the boot flow as a whole, whatever the firmware, the TPM and the
//! user do.

use vstd::prelude::*;

use crate::boot::EventView;
use crate::boot::StageView;
use crate::boot::answered_digest;
use crate::boot::answers;
use crate::boot::boot_step;
use crate::boot::search_stage;
use crate::input::Key;
use crate::input::KeyPoll;
use crate::input::is_escape;
use crate::loader::law_failed_attempts_go_on;
use crate::loader::law_first_loadable_volume_wins;
use crate::loader::law_own_volume_is_tried_last;
use crate::loader::no_loader;
use crate::loader::search_from;
use crate::loader::search_run;
use crate::loader::volumes_in_order;
use crate::log::unexpected;
use crate::measure::all_bytes;
use crate::measure::effective_salt;
use crate::measure::law_every_pin_has_a_hash;
use crate::measure::pin_hash;
use crate::measure::request_for;
use crate::prompt::CHAR_ENTER;
use crate::prompt::CHAR_FIRST;
use crate::prompt::MAX_PIN_CHARS;
use crate::prompt::Phase;
use crate::prompt::PromptView;
use crate::prompt::fresh;
use crate::prompt::keystrokes;
use crate::prompt::law_enter_accepts_what_was_typed;
use crate::prompt::law_every_prompt_is_valid;
use crate::prompt::law_typing_spells_the_pin;
use crate::prompt::prompt_run;
use crate::prompt::prompt_step;
use crate::status::SUCCESS;
use crate::status::Status;
use crate::tpm::TpmProbe;
use crate::tpm::law_tpm_is_taken_iff_sha256_is_active;
use crate::tpm::tpm_ready;

verus! {

/// The stage after an event.
#[verifier::opaque]
pub open spec fn next_stage(stage: StageView, event: EventView, log_event: bool) -> StageView {
    boot_step(stage, event, log_event).0
}

/// The stage after a series of events.
pub open spec fn run_from(stage: StageView, events: Seq<EventView>, log_event: bool) -> StageView
    decreases events.len(),
{
    if events.len() == 0 {
        stage
    } else {
        next_stage(run_from(stage, events.drop_last(), log_event), events.last(), log_event)
    }
}

/// The stage of a boot after a series of events.
pub open spec fn boot_run(events: Seq<EventView>, log_event: bool) -> StageView {
    run_from(StageView::OpenTpm, events, log_event)
}

/// Whether each event is of the kind that its stage asked for.
pub open spec fn valid_trace(events: Seq<EventView>, log_event: bool) -> bool
    decreases events.len(),
{
    events.len() == 0 || (valid_trace(events.drop_last(), log_event) && answers(
        boot_run(events.drop_last(), log_event),
        events.last(),
    ))
}

/// Whether the event says that the TPM is present with an active SHA-256 bank.
pub open spec fn finds_tpm(event: EventView) -> bool {
    event matches EventView::Tpm(probe) && tpm_ready(probe)
}

/// Whether a TPM response gives an all-zero PCR.
pub open spec fn is_clean(response: Option<Seq<u8>>) -> bool {
    answered_digest(response) matches Some(digest) && all_bytes(digest, 0)
}

/// Whether the event says that the PCR is all-zero.
pub open spec fn finds_clean(event: EventView) -> bool {
    event matches EventView::Response(response) && is_clean(response)
}

/// Whether the event says that the firmware loaded (and so verified) the image.
pub open spec fn loads(event: EventView, image: u64) -> bool {
    event matches EventView::Loaded { outcome, .. } && outcome == Ok::<u64, Status>(image)
}

/// Whether the TPM was found present with an active SHA-256 bank.
pub open spec fn tpm_was_ready(events: Seq<EventView>, log_event: bool) -> bool {
    exists|i: int|
        0 <= i < events.len() && boot_run(events.take(i), log_event) is OpenTpm && finds_tpm(
            #[trigger] events[i],
        )
}

/// Whether the PIN PCR was read before the prompt, and was all-zero.
pub open spec fn pcr_was_clean(events: Seq<EventView>, log_event: bool) -> bool {
    exists|i: int|
        0 <= i < events.len() && boot_run(events.take(i), log_event) is ReadPcr && finds_clean(
            #[trigger] events[i],
        )
}

/// Whether the image was loaded in the search.
pub open spec fn was_loaded(events: Seq<EventView>, log_event: bool, image: u64) -> bool {
    exists|i: int|
        0 <= i < events.len() && boot_run(events.take(i), log_event) is TryVolume && loads(
            #[trigger] events[i],
            image,
        )
}

/// The image that a stage is to start in the end.
pub open spec fn image_of(stage: StageView) -> Option<u64> {
    match stage {
        StageView::ReadUuid { image }
        | StageView::Prompt { image, .. }
        | StageView::Derive { image, .. }
        | StageView::Extend { image, .. }
        | StageView::DebugPcr { image }
        | StageView::Start { image } => Some(image),
        _ => None,
    }
}

proof fn lemma_step(events: Seq<EventView>, event: EventView, log_event: bool)
    ensures
        boot_run(events.push(event), log_event) == next_stage(
            boot_run(events, log_event),
            event,
            log_event,
        ),
        forall|i: int|
            0 <= i <= events.len() ==> #[trigger] events.push(event).take(i) == events.take(i),
        events.take(events.len() as int) == events,
{
    assert(events.push(event).drop_last() =~= events);
    assert forall|i: int| 0 <= i <= events.len() implies #[trigger] events.push(event).take(i)
        == events.take(i) by {
        assert(events.push(event).take(i) =~= events.take(i));
    }
    assert(events.take(events.len() as int) =~= events);
}

proof fn lemma_history_grows(events: Seq<EventView>, event: EventView, log_event: bool)
    ensures
        tpm_was_ready(events, log_event) ==> tpm_was_ready(events.push(event), log_event),
        pcr_was_clean(events, log_event) ==> pcr_was_clean(events.push(event), log_event),
        forall|image: u64|
            was_loaded(events, log_event, image) ==> #[trigger] was_loaded(
                events.push(event),
                log_event,
                image,
            ),
{
    let all = events.push(event);
    lemma_step(events, event, log_event);
    if tpm_was_ready(events, log_event) {
        let i = choose|i: int|
            0 <= i < events.len() && boot_run(events.take(i), log_event) is OpenTpm
                && finds_tpm(#[trigger] events[i]);
        assert(all[i] == events[i] && all.take(i) == events.take(i));
    }
    if pcr_was_clean(events, log_event) {
        let i = choose|i: int|
            0 <= i < events.len() && boot_run(events.take(i), log_event) is ReadPcr
                && finds_clean(#[trigger] events[i]);
        assert(all[i] == events[i] && all.take(i) == events.take(i));
    }
    assert forall|image: u64| was_loaded(events, log_event, image) implies #[trigger] was_loaded(
        all,
        log_event,
        image,
    ) by {
        let i = choose|i: int|
            0 <= i < events.len() && boot_run(events.take(i), log_event) is TryVolume
                && loads(#[trigger] events[i], image);
        assert(all[i] == events[i] && all.take(i) == events.take(i));
    }
}

/// What a step needs to get to the stages before the prompt, and to an image.
proof fn lemma_step_checks(stage: StageView, event: EventView, log_event: bool)
    ensures
        match next_stage(stage, event, log_event) {
            StageView::OpenTpm => stage is OpenTpm,
            StageView::ReadPcr => stage is ReadPcr || (stage is OpenTpm && finds_tpm(event)),
            StageView::FindSelf => stage is FindSelf || (stage is ReadPcr && finds_clean(event)),
            StageView::FindVolumes { .. } => stage is FindVolumes || stage is FindSelf,
            StageView::TryVolume { .. } => stage is TryVolume || stage is FindVolumes,
            _ => true,
        },
        image_of(next_stage(stage, event, log_event)) matches Some(image) ==> image_of(stage)
            == Some(image) || (stage is TryVolume && loads(event, image)),
{
    reveal(next_stage);
}

/// What has been checked by the time a stage is reached.
spec fn checked(events: Seq<EventView>, log_event: bool, stage: StageView) -> bool {
    let tpm = tpm_was_ready(events, log_event);
    let clean = pcr_was_clean(events, log_event);
    &&& stage is ReadPcr ==> tpm
    &&& stage is FindSelf || stage is FindVolumes || stage is TryVolume ==> tpm && clean
    &&& image_of(stage) matches Some(image) ==> tpm && clean && was_loaded(
        events,
        log_event,
        image,
    )
}

proof fn lemma_checked(events: Seq<EventView>, log_event: bool)
    ensures
        checked(events, log_event, boot_run(events, log_event)),
    decreases events.len(),
{
    if events.len() > 0 {
        let before = events.drop_last();
        let event = events.last();
        lemma_checked(before, log_event);
        assert(events =~= before.push(event));
        lemma_step(before, event, log_event);
        lemma_history_grows(before, event, log_event);
        let stage = boot_run(before, log_event);
        lemma_step_checks(stage, event, log_event);
        let n = before.len() as int;
        assert(events[n] == event && events.take(n) == before);
    }
}

/// All prerequisites are checked before the prompt, so a misconfiguration never
/// wastes a PIN entry: at the prompt and in every stage behind it, the TPM was found
/// present with an active SHA-256 bank, the PIN PCR was found all-zero, and the image
/// to start was loaded by the firmware.
pub proof fn law_prerequisites_come_first(events: Seq<EventView>, log_event: bool)
    ensures
        image_of(boot_run(events, log_event)) matches Some(image) ==> tpm_was_ready(
            events,
            log_event,
        ) && pcr_was_clean(events, log_event) && was_loaded(events, log_event, image),
{
    lemma_checked(events, log_event);
}

/// The attempts to read a key among events that are nothing else.
pub open spec fn polls_of(events: Seq<EventView>) -> Seq<KeyPoll> {
    events.map_values(|e: EventView| e->Key_0)
}

/// Whether the events from `from` to `to` are the SMBIOS UUID and then the keys that
/// bring the prompt to the given state.
pub open spec fn typed(
    events: Seq<EventView>,
    from: int,
    to: int,
    uuid: Option<[u8; 16]>,
    prompt: PromptView,
) -> bool {
    &&& 0 <= from < to <= events.len()
    &&& events[from] == EventView::Uuid(uuid)
    &&& forall|i: int| from < i < to ==> (#[trigger] events[i]) is Key
    &&& prompt == prompt_run(fresh(), polls_of(events.subrange(from + 1, to)))
}

proof fn lemma_typed_grows(
    events: Seq<EventView>,
    event: EventView,
    from: int,
    to: int,
    uuid: Option<[u8; 16]>,
    prompt: PromptView,
)
    requires
        typed(events, from, to, uuid, prompt),
    ensures
        typed(events.push(event), from, to, uuid, prompt),
{
    let all = events.push(event);
    assert(all.subrange(from + 1, to) =~= events.subrange(from + 1, to));
    assert forall|i: int| from < i < to implies (#[trigger] all[i]) is Key by {
        assert(all[i] == events[i]);
    }
}

proof fn lemma_key_typed(
    events: Seq<EventView>,
    poll: KeyPoll,
    from: int,
    uuid: Option<[u8; 16]>,
    prompt: PromptView,
)
    requires
        typed(events, from, events.len() as int, uuid, prompt),
    ensures
        typed(
            events.push(EventView::Key(poll)),
            from,
            events.len() + 1int,
            uuid,
            prompt_step(prompt, poll).0,
        ),
{
    let event = EventView::Key(poll);
    let all = events.push(event);
    let keys = events.subrange(from + 1, events.len() as int);
    let more = all.subrange(from + 1, events.len() + 1int);
    assert(polls_of(more) =~= polls_of(keys).push(poll));
    assert(polls_of(more).drop_last() =~= polls_of(keys));
    assert forall|i: int| from < i < all.len() implies (#[trigger] all[i]) is Key by {
        if i < events.len() {
            assert(all[i] == events[i]);
        }
    }
}

/// Whether a PIN was entered with the given keys, on a machine with the given UUID.
pub open spec fn entered(
    events: Seq<EventView>,
    from: int,
    to: int,
    uuid: Option<[u8; 16]>,
    pin: Seq<u16>,
) -> bool {
    typed(events, from, to, uuid, PromptView { pin, phase: Phase::Accepted })
}

/// What the stages from the prompt to the extension hold.
spec fn follows_the_keys(events: Seq<EventView>, log_event: bool, stage: StageView) -> bool {
    match stage {
        StageView::Prompt { salt, prompt, .. } => exists|from: int, uuid: Option<[u8; 16]>|
            #[trigger] typed(events, from, events.len() as int, uuid, prompt) && salt
                == effective_salt(uuid),
        StageView::Derive { salt, pin, .. } => exists|from: int, uuid: Option<[u8; 16]>|
            #[trigger] entered(events, from, events.len() as int, uuid, pin) && salt
                == effective_salt(uuid),
        StageView::Extend { request, .. } => exists|
            from: int,
            uuid: Option<[u8; 16]>,
            pin: Seq<u16>,
        |
            #[trigger] entered(events, from, events.len() - 1, uuid, pin) && request
                == request_for(pin_hash(pin, effective_salt(uuid)), log_event),
        _ => true,
    }
}

/// What a step to the stages from the prompt to the extension does.
proof fn lemma_step_follows(stage: StageView, event: EventView, log_event: bool)
    requires
        answers(stage, event),
    ensures
        match next_stage(stage, event, log_event) {
            StageView::Prompt { salt, prompt, .. } => match (stage, event) {
                (StageView::ReadUuid { .. }, EventView::Uuid(uuid)) => salt == effective_salt(uuid)
                    && prompt == fresh(),
                (StageView::Prompt { salt: same, prompt: typed, .. }, EventView::Key(poll)) => salt
                    == same && prompt == prompt_step(typed, poll).0,
                _ => false,
            },
            StageView::Derive { salt, pin, .. } => match (stage, event) {
                (StageView::Prompt { salt: same, prompt, .. }, EventView::Key(poll)) => salt == same
                    && prompt_step(prompt, poll).0 == (PromptView {
                    pin,
                    phase: Phase::Accepted,
                }),
                _ => false,
            },
            StageView::Extend { request, .. } => match (stage, event) {
                (StageView::Derive { salt, pin, .. }, EventView::Proceed) => request == request_for(
                    pin_hash(pin, salt),
                    log_event,
                ),
                _ => false,
            },
            _ => true,
        },
{
    reveal(next_stage);
}

proof fn lemma_follows_the_keys(events: Seq<EventView>, log_event: bool)
    requires
        valid_trace(events, log_event),
    ensures
        follows_the_keys(events, log_event, boot_run(events, log_event)),
    decreases events.len(),
{
    if events.len() > 0 {
        let before = events.drop_last();
        let event = events.last();
        lemma_follows_the_keys(before, log_event);
        assert(events =~= before.push(event));
        lemma_step(before, event, log_event);
        lemma_step_follows(boot_run(before, log_event), event, log_event);
        match (boot_run(before, log_event), event) {
            (StageView::ReadUuid { .. }, EventView::Uuid(uuid)) => {
                let from = before.len() as int;
                assert(polls_of(events.subrange(from + 1, from + 1)) =~= Seq::<KeyPoll>::empty());
                assert(typed(events, from, events.len() as int, uuid, fresh()));
            },
            (StageView::Prompt { salt, prompt, .. }, EventView::Key(poll)) => {
                let (from, uuid) = choose|from: int, uuid: Option<[u8; 16]>|
                    #[trigger] typed(before, from, before.len() as int, uuid, prompt) && salt
                        == effective_salt(uuid);
                let next = prompt_step(prompt, poll).0;
                lemma_key_typed(before, poll, from, uuid, prompt);
                assert(typed(events, from, events.len() as int, uuid, next));
                if next.phase == Phase::Accepted {
                    assert(entered(events, from, events.len() as int, uuid, next.pin));
                }
            },
            (StageView::Derive { salt, pin, .. }, EventView::Proceed) => {
                let (from, uuid) = choose|from: int, uuid: Option<[u8; 16]>|
                    #[trigger] entered(before, from, before.len() as int, uuid, pin) && salt
                        == effective_salt(uuid);
                lemma_typed_grows(
                    before,
                    event,
                    from,
                    before.len() as int,
                    uuid,
                    PromptView { pin, phase: Phase::Accepted },
                );
                assert(entered(events, from, events.len() - 1, uuid, pin));
            },
            _ => {},
        }
    }
}

/// What is extended into the PIN PCR is the measurement of exactly the PIN that was
/// entered at the prompt, salted with the machine's UUID or the fallback salt.
pub proof fn law_extends_the_entered_pin(events: Seq<EventView>, log_event: bool)
    requires
        valid_trace(events, log_event),
    ensures
        boot_run(events, log_event) matches StageView::Extend { request, .. } ==> exists|
            from: int,
            uuid: Option<[u8; 16]>,
            pin: Seq<u16>,
        |
            #[trigger] entered(events, from, events.len() - 1, uuid, pin) && request
                == request_for(pin_hash(pin, effective_salt(uuid)), log_event),
{
    lemma_follows_the_keys(events, log_event);
}

/// Deriving the measurement of an entered PIN never fails.
pub proof fn law_entered_pins_are_extended(events: Seq<EventView>, log_event: bool)
    requires
        valid_trace(events, log_event),
        boot_run(events, log_event) is Derive,
    ensures
        boot_run(events.push(EventView::Proceed), log_event) is Extend,
{
    lemma_follows_the_keys(events, log_event);
    lemma_step(events, EventView::Proceed, log_event);
    if let StageView::Derive { salt, pin, .. } = boot_run(events, log_event) {
        let (from, uuid) = choose|from: int, uuid: Option<[u8; 16]>|
            #[trigger] entered(events, from, events.len() as int, uuid, pin) && salt
                == effective_salt(uuid);
        law_every_prompt_is_valid(polls_of(events.subrange(from + 1, events.len() as int)));
        law_every_pin_has_a_hash(uuid, pin);
        reveal(next_stage);
    }
}

/// Whether the event says that the PIN PCR was extended.
pub open spec fn extends(event: EventView) -> bool {
    event matches EventView::Extended(outcome) && outcome is Ok
}

/// Whether the PIN PCR was extended successfully, to start the given image then.
pub open spec fn was_extended(events: Seq<EventView>, log_event: bool, image: u64) -> bool {
    exists|i: int|
        {
            &&& 0 <= i < events.len()
            &&& boot_run(events.take(i), log_event) matches StageView::Extend { image: loaded, .. }
            &&& loaded == image
            &&& extends(#[trigger] events[i])
        }
}

/// What a step to the stages behind the extension needs.
proof fn lemma_step_extends(stage: StageView, event: EventView, log_event: bool)
    ensures
        match next_stage(stage, event, log_event) {
            StageView::DebugPcr { image } => stage == (StageView::DebugPcr { image }) || (
            stage matches StageView::Extend { image: loaded, .. } && loaded == image
                && extends(event)),
            StageView::Start { image } => stage == (StageView::Start { image }) || stage == (
            StageView::DebugPcr { image }) || (stage matches StageView::Extend {
                image: loaded,
                ..
            } && loaded == image && extends(event)),
            StageView::Exited => stage is Exited || stage is Start,
            _ => true,
        },
{
    reveal(next_stage);
}

proof fn lemma_extended_before_start(events: Seq<EventView>, log_event: bool)
    ensures
        match boot_run(events, log_event) {
            StageView::DebugPcr { image } | StageView::Start { image } => was_extended(
                events,
                log_event,
                image,
            ),
            StageView::Exited => exists|image: u64| #[trigger]
                was_extended(events, log_event, image),
            _ => true,
        },
    decreases events.len(),
{
    if events.len() > 0 {
        let before = events.drop_last();
        let event = events.last();
        lemma_extended_before_start(before, log_event);
        assert(events =~= before.push(event));
        lemma_step(before, event, log_event);
        let n = before.len() as int;
        assert(events[n] == event && events.take(n) == before);
        lemma_step_extends(boot_run(before, log_event), event, log_event);
        assert forall|image: u64| #[trigger] was_extended(before, log_event, image) implies
            was_extended(events, log_event, image) by {
            let i = choose|i: int|
                {
                    &&& 0 <= i < before.len()
                    &&& boot_run(before.take(i), log_event) matches StageView::Extend {
                        image: loaded,
                        ..
                    }
                    &&& loaded == image
                    &&& extends(#[trigger] before[i])
                };
            assert(events[i] == before[i] && events.take(i) == before.take(i));
        }
        match boot_run(before, log_event) {
            StageView::Exited => {
                let image = choose|image: u64| #[trigger] was_extended(before, log_event, image);
                assert(was_extended(events, log_event, image));
            },
            StageView::Start { image } | StageView::DebugPcr { image } => {
                assert(was_extended(before, log_event, image));
                assert(was_extended(events, log_event, image));
            },
            _ => {},
        }
    }
}

/// The next loader is started only behind a successful extension of the PIN PCR, and
/// what is started is the image that was loaded.
pub proof fn law_start_only_after_extending(events: Seq<EventView>, log_event: bool)
    ensures
        boot_run(events, log_event) matches StageView::Start { image } ==> was_extended(
            events,
            log_event,
            image,
        ) && was_loaded(events, log_event, image),
        boot_run(events, log_event) is Exited ==> exists|image: u64| #[trigger]
            was_extended(events, log_event, image),
{
    lemma_extended_before_start(events, log_event);
    lemma_checked(events, log_event);
}

proof fn lemma_prefix_is_valid(events: Seq<EventView>, n: int, log_event: bool)
    requires
        valid_trace(events, log_event),
        0 <= n <= events.len(),
    ensures
        valid_trace(events.take(n), log_event),
    decreases events.len(),
{
    if n == events.len() {
        assert(events.take(n) =~= events);
    } else {
        lemma_prefix_is_valid(events.drop_last(), n, log_event);
        assert(events.drop_last().take(n) =~= events.take(n));
    }
}

/// Whether the `i`-th event says that the measurement of an entered PIN was extended,
/// to start the given image then.
pub open spec fn extends_entered_pin(
    events: Seq<EventView>,
    i: int,
    log_event: bool,
    image: u64,
    uuid: Option<[u8; 16]>,
    pin: Seq<u16>,
) -> bool {
    &&& 0 <= i < events.len()
    &&& extends(events[i])
    &&& boot_run(events.take(i), log_event) == (StageView::Extend {
        image,
        request: request_for(pin_hash(pin, effective_salt(uuid)), log_event),
    })
    &&& exists|from: int| #[trigger] entered(events.take(i), from, i - 1, uuid, pin)
}

/// The next loader is started only behind the extension of the measurement of a PIN
/// that was entered at the prompt.
pub proof fn law_start_follows_an_entered_pin(events: Seq<EventView>, log_event: bool)
    requires
        valid_trace(events, log_event),
        boot_run(events, log_event) is Start,
    ensures
        exists|i: int, uuid: Option<[u8; 16]>, pin: Seq<u16>| #[trigger]
            extends_entered_pin(
                events,
                i,
                log_event,
                boot_run(events, log_event)->Start_image,
                uuid,
                pin,
            ),
{
    lemma_extended_before_start(events, log_event);
    let image = boot_run(events, log_event)->Start_image;
    let i = choose|i: int|
        {
            &&& 0 <= i < events.len()
            &&& boot_run(events.take(i), log_event) matches StageView::Extend { image: loaded, .. }
            &&& loaded == image
            &&& extends(#[trigger] events[i])
        };
    let before = events.take(i);
    lemma_prefix_is_valid(events, i, log_event);
    law_extends_the_entered_pin(before, log_event);
    if let StageView::Extend { request, .. } = boot_run(before, log_event) {
        let (from, uuid, pin) = choose|from: int, uuid: Option<[u8; 16]>, pin: Seq<u16>|
            #[trigger] entered(before, from, before.len() - 1, uuid, pin) && request
                == request_for(pin_hash(pin, effective_salt(uuid)), log_event);
        assert(entered(before, from, i - 1, uuid, pin));
        assert(extends_entered_pin(events, i, log_event, image, uuid, pin));
    }
}

/// Whether the flow ends in the stage.
pub open spec fn is_final(stage: StageView) -> bool {
    stage is Report || stage is Reboot || stage is Exited
}

/// A fatal condition and an abort are final: nothing leads from them to the prompt,
/// to an extension or to the next loader.
pub proof fn law_fatal_conditions_are_final(
    stage: StageView,
    events: Seq<EventView>,
    log_event: bool,
)
    requires
        is_final(stage),
    ensures
        run_from(stage, events, log_event) == stage,
    decreases events.len(),
{
    if events.len() > 0 {
        law_fatal_conditions_are_final(stage, events.drop_last(), log_event);
        reveal(next_stage);
    }
}

/// How far along the flow a stage is.
pub open spec fn rank(stage: StageView) -> int {
    match stage {
        StageView::OpenTpm => 0,
        StageView::ReadPcr => 1,
        StageView::FindSelf => 2,
        StageView::FindVolumes { .. } => 3,
        StageView::TryVolume { .. } => 4,
        StageView::ReadUuid { .. } => 5,
        StageView::Prompt { .. } => 6,
        StageView::Derive { .. } => 7,
        StageView::Extend { .. } => 8,
        StageView::DebugPcr { .. } => 9,
        StageView::Start { .. } => 10,
        StageView::Report(_) | StageView::Reboot(_) | StageView::Exited => 11,
    }
}

/// The flow never goes back, and every answer takes it on, but for the search, which
/// goes on to the next volume, and the prompt, which takes the next key.
pub proof fn law_flow_never_goes_back(stage: StageView, event: EventView, log_event: bool)
    ensures
        rank(boot_step(stage, event, log_event).0) >= rank(stage),
        answers(stage, event) && !(stage is TryVolume) && !(stage is Prompt) ==> rank(
            boot_step(stage, event, log_event).0,
        ) > rank(stage),
        stage matches StageView::TryVolume { volumes, at } ==> (boot_step(
            stage,
            event,
            log_event,
        ).0 matches StageView::TryVolume { volumes: rest, at: next } ==> rest == volumes && (
        answers(stage, event) ==> next == at + 1)),
{
}

proof fn lemma_rank_grows(events: Seq<EventView>, i: int, j: int, log_event: bool)
    requires
        0 <= i <= j <= events.len(),
    ensures
        rank(boot_run(events.take(i), log_event)) <= rank(boot_run(events.take(j), log_event)),
    decreases j - i,
{
    if i < j {
        lemma_rank_grows(events, i, j - 1, log_event);
        let stage = boot_run(events.take(j - 1), log_event);
        assert(events.take(j).drop_last() =~= events.take(j - 1));
        law_flow_never_goes_back(stage, events[j - 1], log_event);
        reveal(next_stage);
    }
}

/// Whether the `i`-th event is a successful extension that the flow asked for.
pub open spec fn extends_at(events: Seq<EventView>, i: int, log_event: bool) -> bool {
    0 <= i < events.len() && boot_run(events.take(i), log_event) is Extend && extends(events[i])
}

/// In a boot the PIN PCR is extended at most once.
pub proof fn law_pcr_is_extended_at_most_once(
    events: Seq<EventView>,
    i: int,
    j: int,
    log_event: bool,
)
    requires
        extends_at(events, i, log_event),
        extends_at(events, j, log_event),
    ensures
        i == j,
{
    let first = if i < j {
        i
    } else {
        j
    };
    let second = if i < j {
        j
    } else {
        i
    };
    if first < second {
        let stage = boot_run(events.take(first), log_event);
        assert(events.take(first + 1).drop_last() =~= events.take(first));
        law_flow_never_goes_back(stage, events[first], log_event);
        lemma_rank_grows(events, first + 1, second, log_event);
        reveal(next_stage);
    }
}

/// A PIN PCR that was extended already, or that cannot be read, ends the boot: it is
/// never extended twice.
pub proof fn law_dirty_pcr_ends_the_boot(
    response: Option<Seq<u8>>,
    events: Seq<EventView>,
    log_event: bool,
)
    requires
        !is_clean(response),
    ensures
        run_from(
            boot_step(StageView::ReadPcr, EventView::Response(response), log_event).0,
            events,
            log_event,
        ) is Report,
{
    let next = boot_step(StageView::ReadPcr, EventView::Response(response), log_event).0;
    law_fatal_conditions_are_final(next, events, log_event);
}

/// Escape at the prompt, with nothing or another escape right behind it, reboots
/// without an error.
pub proof fn law_escape_reboots(
    image: u64,
    salt: Seq<u8>,
    pin: Seq<u16>,
    escape: Key,
    follow_up: Option<Key>,
    log_event: bool,
)
    requires
        is_escape(escape),
        follow_up matches Some(key) ==> is_escape(key),
    ensures
        run_from(
            StageView::Prompt { image, salt, prompt: PromptView { pin, phase: Phase::Typing } },
            seq![EventView::Key(Ok(Some(escape))), EventView::Key(Ok(follow_up))],
            log_event,
        ) == StageView::Reboot(Status(SUCCESS)),
{
    let events = seq![EventView::Key(Ok(Some(escape))), EventView::Key(Ok(follow_up))];
    assert(events.drop_last() =~= seq![EventView::Key(Ok(Some(escape)))]);
    assert(events.drop_last().drop_last() =~= Seq::<EventView>::empty());
    reveal_with_fuel(run_from, 3);
    reveal(next_stage);
}

proof fn lemma_run_concat(
    stage: StageView,
    a: Seq<EventView>,
    b: Seq<EventView>,
    log_event: bool,
)
    ensures
        run_from(stage, a + b, log_event) == run_from(
            run_from(stage, a, log_event),
            b,
            log_event,
        ),
    decreases b.len(),
{
    if b.len() == 0 {
        assert(a + b =~= a);
    } else {
        lemma_run_concat(stage, a, b.drop_last(), log_event);
        assert((a + b).drop_last() =~= a + b.drop_last());
    }
}

proof fn lemma_run_one(stage: StageView, event: EventView, log_event: bool)
    ensures
        run_from(stage, seq![event], log_event) == next_stage(stage, event, log_event),
{
    assert(seq![event].drop_last() =~= Seq::<EventView>::empty());
    reveal_with_fuel(run_from, 2);
}

/// Attempts to load from one volume after the other.
pub open spec fn attempts(
    names: Seq<Seq<char>>,
    outcomes: Seq<Result<u64, Status>>,
) -> Seq<EventView> {
    Seq::new(
        outcomes.len(),
        |i: int| EventView::Loaded { volume_name: names[i], outcome: outcomes[i] },
    )
}

proof fn lemma_search_runs(
    order: Seq<u64>,
    names: Seq<Seq<char>>,
    outcomes: Seq<Result<u64, Status>>,
    log_event: bool,
)
    ensures
        run_from(
            search_stage(search_from(order, 0)),
            attempts(names, outcomes),
            log_event,
        ) == search_stage(search_run(order, outcomes)),
    decreases outcomes.len(),
{
    if outcomes.len() > 0 {
        let before = outcomes.drop_last();
        lemma_search_runs(order, names, before, log_event);
        assert(attempts(names, outcomes).drop_last() =~= attempts(names, before));
        reveal(next_stage);
    }
}

/// The given attempts to read a key.
pub open spec fn key_events(polls: Seq<KeyPoll>) -> Seq<EventView> {
    polls.map_values(|poll: KeyPoll| EventView::Key(poll))
}

proof fn lemma_typing_runs(image: u64, salt: Seq<u8>, units: Seq<u16>, log_event: bool)
    requires
        forall|i: int| 0 <= i < units.len() ==> units[i] >= CHAR_FIRST,
    ensures
        run_from(
            StageView::Prompt { image, salt, prompt: fresh() },
            key_events(keystrokes(units)),
            log_event,
        ) == (StageView::Prompt { image, salt, prompt: prompt_run(fresh(), keystrokes(units)) }),
    decreases units.len(),
{
    if units.len() > 0 {
        let before = units.drop_last();
        lemma_typing_runs(image, salt, before, log_event);
        law_typing_spells_the_pin(before);
        law_typing_spells_the_pin(units);
        assert(keystrokes(units).drop_last() =~= keystrokes(before));
        assert(key_events(keystrokes(units)).drop_last() =~= key_events(keystrokes(before)));
        reveal(next_stage);
    }
}

proof fn lemma_entering_runs(image: u64, salt: Seq<u8>, units: Seq<u16>, log_event: bool)
    requires
        1 <= units.len() <= MAX_PIN_CHARS,
        forall|i: int| 0 <= i < units.len() ==> units[i] >= CHAR_FIRST,
    ensures
        run_from(
            StageView::Prompt { image, salt, prompt: fresh() },
            key_events(keystrokes(units.push(CHAR_ENTER))),
            log_event,
        ) == (StageView::Derive { image, salt, pin: units }),
{
    lemma_typing_runs(image, salt, units, log_event);
    law_enter_accepts_what_was_typed(units);
    let keys = keystrokes(units.push(CHAR_ENTER));
    assert(keys.drop_last() =~= keystrokes(units));
    assert(key_events(keys).drop_last() =~= key_events(keystrokes(units)));
    reveal(next_stage);
}

/// The events of a boot up to the search.
pub open spec fn checks(
    probe: TpmProbe,
    response: Option<Seq<u8>>,
    own: Option<u64>,
    volumes: Seq<u64>,
) -> Seq<EventView> {
    seq![
        EventView::Tpm(probe),
        EventView::Response(response),
        EventView::Own(Ok(own)),
        EventView::Volumes(Ok(volumes)),
    ]
}

proof fn lemma_checks_run(
    probe: TpmProbe,
    response: Option<Seq<u8>>,
    own: Option<u64>,
    volumes: Seq<u64>,
    log_event: bool,
)
    requires
        tpm_ready(probe),
        is_clean(response),
    ensures
        boot_run(checks(probe, response, own, volumes), log_event) == search_stage(
            search_from(volumes_in_order(volumes, own), 0),
        ),
{
    let events = checks(probe, response, own, volumes);
    law_tpm_is_taken_iff_sha256_is_active(probe);
    assert(events =~= seq![events[0]] + seq![events[1]] + seq![events[2]] + seq![events[3]]);
    let one = seq![events[0]];
    let two = one + seq![events[1]];
    let three = two + seq![events[2]];
    lemma_run_one(StageView::OpenTpm, events[0], log_event);
    lemma_run_concat(StageView::OpenTpm, one, seq![events[1]], log_event);
    lemma_run_one(boot_run(one, log_event), events[1], log_event);
    lemma_run_concat(StageView::OpenTpm, two, seq![events[2]], log_event);
    lemma_run_one(boot_run(two, log_event), events[2], log_event);
    lemma_run_concat(StageView::OpenTpm, three, seq![events[3]], log_event);
    lemma_run_one(boot_run(three, log_event), events[3], log_event);
    reveal(next_stage);
}

/// On a machine that meets the prerequisites, typing a PIN and enter leads to the
/// extension of its measurement: the loader is the first one that loads, whatever the
/// volumes before it lack, and the salt is that of the machine.
pub proof fn law_typed_pin_is_extended(
    probe: TpmProbe,
    response: Option<Seq<u8>>,
    own: Option<u64>,
    volumes: Seq<u64>,
    names: Seq<Seq<char>>,
    outcomes: Seq<Result<u64, Status>>,
    image: u64,
    uuid: Option<[u8; 16]>,
    units: Seq<u16>,
    log_event: bool,
)
    requires
        tpm_ready(probe),
        is_clean(response),
        0 < outcomes.len() <= volumes.len(),
        forall|i: int| 0 <= i < outcomes.len() - 1 ==> (#[trigger] outcomes[i]) is Err,
        outcomes.last() == Ok::<u64, Status>(image),
        1 <= units.len() <= MAX_PIN_CHARS,
        forall|i: int| 0 <= i < units.len() ==> units[i] >= CHAR_FIRST,
    ensures
        boot_run(
            checks(probe, response, own, volumes) + attempts(names, outcomes) + seq![
                EventView::Uuid(uuid),
            ] + key_events(keystrokes(units.push(CHAR_ENTER))) + seq![EventView::Proceed],
            log_event,
        ) == (StageView::Extend {
            image,
            request: request_for(pin_hash(units, effective_salt(uuid)), log_event),
        }),
{
    let start = StageView::OpenTpm;
    let order = volumes_in_order(volumes, own);
    let a = checks(probe, response, own, volumes);
    let b = a + attempts(names, outcomes);
    let c = b + seq![EventView::Uuid(uuid)];
    let d = c + key_events(keystrokes(units.push(CHAR_ENTER)));
    lemma_checks_run(probe, response, own, volumes, log_event);
    law_own_volume_is_tried_last(volumes, own);
    lemma_run_concat(start, a, attempts(names, outcomes), log_event);
    lemma_search_runs(order, names, outcomes, log_event);
    law_first_loadable_volume_wins(order, outcomes, image);
    assert(boot_run(b, log_event) == StageView::ReadUuid { image });
    lemma_run_concat(start, b, seq![EventView::Uuid(uuid)], log_event);
    lemma_run_one(boot_run(b, log_event), EventView::Uuid(uuid), log_event);
    assert(boot_run(c, log_event) == StageView::Prompt {
        image,
        salt: effective_salt(uuid),
        prompt: fresh(),
    }) by {
        reveal(next_stage);
    }
    lemma_run_concat(start, c, key_events(keystrokes(units.push(CHAR_ENTER))), log_event);
    lemma_entering_runs(image, effective_salt(uuid), units, log_event);
    lemma_run_concat(start, d, seq![EventView::Proceed], log_event);
    lemma_run_one(boot_run(d, log_event), EventView::Proceed, log_event);
    law_every_pin_has_a_hash(uuid, units);
    reveal(next_stage);
}

/// A successful extension leads to the start of the image, whatever the PCR reads
/// then.
pub proof fn law_extension_leads_to_the_start(
    stage: StageView,
    response: Option<Seq<u8>>,
    log_event: bool,
)
    requires
        stage is Extend,
    ensures
        run_from(
            stage,
            seq![EventView::Extended(Ok(())), EventView::Response(response)],
            log_event,
        ) == (StageView::Start { image: stage->Extend_image }),
{
    let events = seq![EventView::Extended(Ok(())), EventView::Response(response)];
    assert(events.drop_last() =~= seq![EventView::Extended(Ok(()))]);
    assert(events.drop_last().drop_last() =~= Seq::<EventView>::empty());
    reveal_with_fuel(run_from, 3);
    reveal(next_stage);
}

/// Without a loadable image on any volume, the boot ends before the prompt.
pub proof fn law_no_loader_ends_the_boot(
    probe: TpmProbe,
    response: Option<Seq<u8>>,
    own: Option<u64>,
    volumes: Seq<u64>,
    names: Seq<Seq<char>>,
    outcomes: Seq<Result<u64, Status>>,
    log_event: bool,
)
    requires
        tpm_ready(probe),
        is_clean(response),
        outcomes.len() == volumes.len(),
        forall|i: int| 0 <= i < outcomes.len() ==> (#[trigger] outcomes[i]) is Err,
    ensures
        boot_run(
            checks(probe, response, own, volumes) + attempts(names, outcomes),
            log_event,
        ) == StageView::Report(no_loader()),
{
    let order = volumes_in_order(volumes, own);
    lemma_checks_run(probe, response, own, volumes, log_event);
    law_own_volume_is_tried_last(volumes, own);
    lemma_run_concat(
        StageView::OpenTpm,
        checks(probe, response, own, volumes),
        attempts(names, outcomes),
        log_event,
    );
    lemma_search_runs(order, names, outcomes, log_event);
    law_failed_attempts_go_on(order, outcomes);
}

/// Whether the `i`-th event says that the loader which was to be started has returned
/// without an error.
pub open spec fn returns_at(events: Seq<EventView>, i: int, log_event: bool) -> bool {
    &&& 0 <= i < events.len()
    &&& boot_run(events.take(i), log_event) is Start
    &&& (events[i] matches EventView::Started(outcome) && outcome is Ok)
}

proof fn lemma_step_exits(stage: StageView, event: EventView, log_event: bool)
    ensures
        next_stage(stage, event, log_event) is Exited <==> stage is Exited || (stage is Start && (
        event matches EventView::Started(outcome) && outcome is Ok)),
{
    reveal(next_stage);
}

/// The program returns to the firmware exactly if the next loader was started and came
/// back without an error; a loader that does not start never makes it fall through to
/// another boot entry.
pub proof fn law_exit_only_behind_a_loader_that_returned(events: Seq<EventView>, log_event: bool)
    ensures
        boot_run(events, log_event) is Exited <==> exists|i: int| #[trigger]
            returns_at(events, i, log_event),
    decreases events.len(),
{
    if events.len() > 0 {
        let before = events.drop_last();
        let n = events.len() - 1;
        law_exit_only_behind_a_loader_that_returned(before, log_event);
        lemma_step_exits(boot_run(before, log_event), events.last(), log_event);
        assert(events.take(n) =~= before);
        assert forall|i: int| 0 <= i < n implies #[trigger] returns_at(events, i, log_event)
            == returns_at(before, i, log_event) by {
            assert(events.take(i) =~= before.take(i));
        }
        if boot_run(events, log_event) is Exited {
            if boot_run(before, log_event) is Exited {
                let i = choose|i: int| #[trigger] returns_at(before, i, log_event);
                assert(returns_at(events, i, log_event));
            } else {
                assert(returns_at(events, n, log_event));
            }
        }
        if exists|i: int| #[trigger] returns_at(events, i, log_event) {
            let i = choose|i: int| #[trigger] returns_at(events, i, log_event);
            if i < n {
                assert(returns_at(before, i, log_event));
            }
        }
    }
}

/// Every failure of the firmware that the flow is told of, at any stage behind the
/// TPM, is reported with its own status and ends the boot.
pub proof fn law_failures_keep_their_status(
    stage: StageView,
    status: Status,
    events: Seq<EventView>,
    log_event: bool,
)
    ensures
        stage is FindSelf ==> failure_is_final(
            stage,
            EventView::Own(Err(status)),
            status,
            events,
            log_event,
        ),
        stage is FindVolumes ==> failure_is_final(
            stage,
            EventView::Volumes(Err(status)),
            status,
            events,
            log_event,
        ),
        stage is Extend ==> failure_is_final(
            stage,
            EventView::Extended(Err(status)),
            status,
            events,
            log_event,
        ),
        stage is Start ==> failure_is_final(
            stage,
            EventView::Started(Err(status)),
            status,
            events,
            log_event,
        ),
{
    reveal(next_stage);
    law_fatal_conditions_are_final(StageView::Report(unexpected(status)), events, log_event);
}

/// Whether the event leads to a report of the status that nothing leads away from.
pub open spec fn failure_is_final(
    stage: StageView,
    event: EventView,
    status: Status,
    events: Seq<EventView>,
    log_event: bool,
) -> bool {
    let next = next_stage(stage, event, log_event);
    &&& next is Report
    &&& next->Report_0.status == status
    &&& run_from(next, events, log_event) == next
}

} // verus!
