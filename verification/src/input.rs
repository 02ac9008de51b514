//! Console input decisions shared by the PIN prompt and the fatal-error pause.

use vstd::prelude::*;

use crate::status::Status;

verus! {

/// The scan code of the escape key.
pub const SCAN_ESCAPE: u16 = 0x17;

/// The escape character.
pub const CHAR_ESCAPE: u16 = 0x1b;

/// A key read from the console.
#[derive(Clone, Copy, PartialEq, Eq, Structural, Debug)]
pub enum Key {
    /// A key with a `CHAR16` code unit.
    Printable(u16),
    /// A key with a scan code only (arrow, function, multimedia...).
    Special(u16),
}

/// What one attempt to read a key gave: a key, nothing pending, or a failure.
pub type KeyPoll = Result<Option<Key>, Status>;

/// Whether the key is escape, as a scan code or as a character.
pub open spec fn is_escape(key: Key) -> bool {
    match key {
        Key::Special(code) => code == SCAN_ESCAPE,
        Key::Printable(c) => c == CHAR_ESCAPE,
    }
}

/// Whether the key is escape. Serial consoles send the character.
pub fn is_escape_key(key: Key) -> (r: bool)
    ensures
        r == is_escape(key),
{
    match key {
        Key::Special(code) => code == SCAN_ESCAPE,
        Key::Printable(c) => c == CHAR_ESCAPE,
    }
}

/// What to do after an attempt to read a buffered key that is to be discarded.
#[derive(Clone, Copy, PartialEq, Eq, Structural, Debug)]
pub enum Drain {
    /// Read again: a key was pending.
    ReadAgain,
    /// Nothing is pending any more.
    Empty,
    /// Reading failed.
    Failed(Status),
}

/// The step of draining that follows an attempt to read a key.
pub open spec fn drain_step(poll: KeyPoll) -> Drain {
    match poll {
        Ok(Some(_)) => Drain::ReadAgain,
        Ok(None) => Drain::Empty,
        Err(status) => Drain::Failed(status),
    }
}

/// Discard pending keys: read until nothing is pending or reading fails.
pub fn drain_pending_keys(poll: KeyPoll) -> (r: Drain)
    ensures
        r == drain_step(poll),
{
    match poll {
        Ok(Some(_)) => Drain::ReadAgain,
        Ok(None) => Drain::Empty,
        Err(status) => Drain::Failed(status),
    }
}

/// Progress of a pause that lasts until a key is pressed. Each variant names
/// what is to be done next.
#[derive(Clone, Copy, PartialEq, Eq, Structural, Debug)]
pub enum Pause {
    /// Read a buffered keystroke, so that stray earlier presses do not skip the
    /// pause.
    Drain,
    /// Get the event that signals a key.
    OpenEvent,
    /// Wait for that event.
    Await,
    /// Read the key that woke the wait.
    Read,
    /// The pause is over.
    Over,
}

/// The outcome of what [`Pause`] asked for.
#[derive(Clone, Copy, Debug)]
pub enum PauseEvent {
    /// A key was read, or not.
    Polled(KeyPoll),
    /// The key event, or the wait for it, succeeded or failed.
    Done(bool),
}

/// Whether the event is of the kind that the pause asked for.
pub open spec fn answers(pause: Pause, event: PauseEvent) -> bool {
    match pause {
        Pause::Drain | Pause::Read => event is Polled,
        Pause::OpenEvent | Pause::Await => event is Done,
        Pause::Over => true,
    }
}

/// The step of the pause after an event. Every failure of the console ends it,
/// except that a failure to drain is ignored.
pub open spec fn pause_step(pause: Pause, event: PauseEvent) -> Pause {
    match (pause, event) {
        (Pause::Drain, PauseEvent::Polled(Ok(Some(_)))) => Pause::Drain,
        (Pause::Drain, _) => Pause::OpenEvent,
        (Pause::OpenEvent, PauseEvent::Done(true)) => Pause::Await,
        (Pause::Await, PauseEvent::Done(true)) => Pause::Read,
        (Pause::Read, PauseEvent::Polled(Ok(None))) => Pause::Await,
        (_, _) => Pause::Over,
    }
}

/// Block until the user presses a key. Best effort: if console input fails, the
/// pause is over, so fatal-error reporting can continue to reset the machine.
pub fn wait_for_key(pause: Pause, event: PauseEvent) -> (next: Pause)
    requires
        answers(pause, event),
    ensures
        next == pause_step(pause, event),
{
    match pause {
        Pause::Drain => match event {
            PauseEvent::Polled(Ok(Some(_))) => Pause::Drain,
            _ => Pause::OpenEvent,
        },
        Pause::OpenEvent => match event {
            PauseEvent::Done(true) => Pause::Await,
            _ => Pause::Over,
        },
        Pause::Await => match event {
            PauseEvent::Done(true) => Pause::Read,
            _ => Pause::Over,
        },
        Pause::Read => match event {
            PauseEvent::Polled(Ok(None)) => Pause::Await,
            _ => Pause::Over,
        },
        Pause::Over => Pause::Over,
    }
}

/// The pause after a series of events.
pub open spec fn pause_run(pause: Pause, events: Seq<PauseEvent>) -> Pause
    decreases events.len(),
{
    if events.len() == 0 {
        pause
    } else {
        pause_step(pause_run(pause, events.drop_last()), events.last())
    }
}

/// The pause that starts by draining ends only on a key that is read after the
/// drain found nothing pending or failed, or on a failure of the console.
pub proof fn law_pause_ends_on_a_fresh_key_or_a_failure(events: Seq<PauseEvent>)
    requires
        events.len() > 0,
        pause_run(Pause::Drain, events) == Pause::Over,
        pause_run(Pause::Drain, events.drop_last()) != Pause::Over,
        forall|i: int|
            0 <= i < events.len() ==> answers(
                pause_run(Pause::Drain, events.take(i)),
                #[trigger] events[i],
            ),
    ensures
        ({
            ||| events.last() == PauseEvent::Done(false)
            ||| events.last() matches PauseEvent::Polled(Err(_))
            ||| {
                &&& events.last() matches PauseEvent::Polled(Ok(Some(_)))
                &&& exists|i: int|
                    0 <= i < events.len() - 1 && !(#[trigger] events[i] matches PauseEvent::Polled(
                        Ok(Some(_)),
                    ))
            }
        }),
{
    let before = pause_run(Pause::Drain, events.drop_last());
    assert(events.take(events.len() - 1) =~= events.drop_last());
    assert(answers(before, events.last()));
    if events.last() matches PauseEvent::Polled(Ok(Some(_))) {
        assert(before == Pause::Read);
        if forall|i: int|
            0 <= i < events.len() - 1 ==> (#[trigger] events[i] matches PauseEvent::Polled(
                Ok(Some(_)),
            )) {
            lemma_keys_keep_draining(events.drop_last());
        }
    }
}

proof fn lemma_keys_keep_draining(events: Seq<PauseEvent>)
    requires
        forall|i: int|
            0 <= i < events.len() ==> (#[trigger] events[i] matches PauseEvent::Polled(
                Ok(Some(_)),
            )),
    ensures
        pause_run(Pause::Drain, events) == Pause::Drain,
    decreases events.len(),
{
    if events.len() > 0 {
        lemma_keys_keep_draining(events.drop_last());
    }
}

/// Escape is the scan code 0x17 or the character 0x1b, and nothing else is.
pub proof fn law_escape_is_two_keys(key: Key)
    ensures
        is_escape(key) <==> key == Key::Special(0x17) || key == Key::Printable(0x1b),
{
}

/// Draining reads on while there is any key at all, and ends on nothing or a failure.
pub proof fn law_draining_takes_every_key(key: Key, status: Status)
    ensures
        drain_step(Ok(Some(key))) == Drain::ReadAgain,
        drain_step(Ok(None)) == Drain::Empty,
        drain_step(Err(status)) == Drain::Failed(status),
{
}

/// Where the pause stands decides what an outcome means: any key is drained, nothing
/// and a failure end the draining, a signalled key is read, a spurious wake waits
/// again, any key that is read ends the pause, and so does every failure behind the
/// draining.
pub proof fn law_pause_takes_every_outcome(key: Key, status: Status, event: PauseEvent)
    ensures
        pause_step(Pause::Drain, PauseEvent::Polled(Ok(Some(key)))) == Pause::Drain,
        pause_step(Pause::Drain, PauseEvent::Polled(Ok(None))) == Pause::OpenEvent,
        pause_step(Pause::Drain, PauseEvent::Polled(Err(status))) == Pause::OpenEvent,
        pause_step(Pause::OpenEvent, PauseEvent::Done(true)) == Pause::Await,
        pause_step(Pause::OpenEvent, PauseEvent::Done(false)) == Pause::Over,
        pause_step(Pause::Await, PauseEvent::Done(true)) == Pause::Read,
        pause_step(Pause::Await, PauseEvent::Done(false)) == Pause::Over,
        pause_step(Pause::Read, PauseEvent::Polled(Ok(None))) == Pause::Await,
        pause_step(Pause::Read, PauseEvent::Polled(Ok(Some(key)))) == Pause::Over,
        pause_step(Pause::Read, PauseEvent::Polled(Err(status))) == Pause::Over,
        pause_step(Pause::Over, event) == Pause::Over,
{
}

} // verus!
