//! The PIN prompt: line editing with masked echo, and the escape key.

use vstd::prelude::*;

use crate::input::Drain;
use crate::input::Key;
use crate::input::KeyPoll;
use crate::input::drain_pending_keys;
use crate::input::is_escape;
use crate::input::is_escape_key;
use crate::measure::PIN_PCR_INDEX;
use crate::scrub::ScrubbedUnits;
use crate::status::Status;
use crate::text::decimal;
use crate::text::padded;
use crate::text::push_padded;

verus! {

/// Maximum length of the PIN in UEFI `CHAR16` (UCS-2/UTF-16) code units. There
/// is intentionally no minimum length, although PIN entropy is critical for
/// security.
pub const MAX_PIN_CHARS: usize = 128;

/// Carriage return, which enters the PIN.
pub const CHAR_ENTER: u16 = 0x0d;

/// Backspace.
pub const CHAR_BACKSPACE: u16 = 0x08;

/// The first code unit that is taken: those below are control characters.
pub const CHAR_FIRST: u16 = 0x20;

/// What the prompt is doing, and so what is to be read next.
#[derive(Clone, Copy, PartialEq, Eq, Structural, Debug)]
pub enum Phase {
    /// Taking input: wait for a key, then read it.
    Typing,
    /// An escape was read: read what is pending right behind it, if anything.
    AfterEscape,
    /// Discarding the rest of a terminal escape sequence: read until nothing is
    /// pending.
    Draining,
    /// The PIN was entered.
    Accepted,
    /// The user asked to reboot.
    Aborted,
    /// Reading keys failed.
    Failed(Status),
}

/// What to show for a key.
#[derive(Clone, Copy, PartialEq, Eq, Structural, Debug)]
pub enum Echo {
    /// Nothing.
    Nothing,
    /// A `*` for an accepted character.
    Mask,
    /// Remove the last `*`.
    Erase,
    /// End the line.
    Newline,
    /// End the line and show the prompt again.
    NewlineAndPrompt,
}

impl Echo {
    /// The characters to print.
    pub open spec fn characters(self) -> Seq<char> {
        match self {
            Echo::Nothing => ""@,
            Echo::Mask => "*"@,
            Echo::Erase => "\u{8} \u{8}"@,
            Echo::Newline => "\n"@,
            Echo::NewlineAndPrompt => "\n"@,
        }
    }

    /// The characters to print.
    pub fn text(self) -> (text: &'static str)
        ensures
            text@ == self.characters(),
    {
        match self {
            Echo::Nothing => "",
            Echo::Mask => "*",
            Echo::Erase => "\u{8} \u{8}",
            Echo::Newline => "\n",
            Echo::NewlineAndPrompt => "\n",
        }
    }
}

/// The prompt: what has been typed so far, and what is going on.
pub struct PinPrompt {
    pin: ScrubbedUnits,
    phase: Phase,
}

/// [`PinPrompt`] with the PIN as a sequence of code units.
pub struct PromptView {
    pub pin: Seq<u16>,
    pub phase: Phase,
}

impl View for PinPrompt {
    type V = PromptView;

    closed spec fn view(&self) -> PromptView {
        PromptView { pin: self.pin@, phase: self.phase }
    }
}

/// The prompt before anything was typed.
pub open spec fn fresh() -> PromptView {
    PromptView { pin: Seq::empty(), phase: Phase::Typing }
}

/// What every prompt satisfies: the PIN is within the maximum and has no code
/// unit below `CHAR_FIRST`, and an accepted PIN is not empty.
pub open spec fn valid_prompt(s: PromptView) -> bool {
    &&& s.pin.len() <= MAX_PIN_CHARS
    &&& forall|i: int| 0 <= i < s.pin.len() ==> s.pin[i] >= CHAR_FIRST
    &&& s.phase == Phase::Accepted ==> s.pin.len() > 0
}

/// The effect of a key other than escape while typing.
pub open spec fn type_key(pin: Seq<u16>, key: Key) -> (PromptView, Echo) {
    let unchanged = PromptView { pin, phase: Phase::Typing };
    match key {
        Key::Special(_) => (unchanged, Echo::Nothing),
        Key::Printable(c) => if c == CHAR_ENTER {
            if pin.len() == 0 {
                (unchanged, Echo::NewlineAndPrompt)
            } else {
                (PromptView { pin, phase: Phase::Accepted }, Echo::Newline)
            }
        } else if c == CHAR_BACKSPACE {
            if pin.len() == 0 {
                (unchanged, Echo::Nothing)
            } else {
                (PromptView { pin: pin.drop_last(), phase: Phase::Typing }, Echo::Erase)
            }
        } else if c >= CHAR_FIRST && pin.len() < MAX_PIN_CHARS {
            (PromptView { pin: pin.push(c), phase: Phase::Typing }, Echo::Mask)
        } else {
            (unchanged, Echo::Nothing)
        },
    }
}

/// The effect of one attempt to read a key. Escape aborts if nothing or another
/// escape is pending right behind it. Escape followed by anything else is treated
/// as a terminal escape sequence, drained, and ignored.
pub open spec fn prompt_step(s: PromptView, poll: KeyPoll) -> (PromptView, Echo) {
    match (s.phase, poll) {
        (Phase::Accepted, _) | (Phase::Aborted, _) | (Phase::Failed(_), _) => (s, Echo::Nothing),
        (_, Err(status)) => (
            PromptView { pin: s.pin, phase: Phase::Failed(status) },
            Echo::Nothing,
        ),
        (Phase::Typing, Ok(None)) => (s, Echo::Nothing),
        (Phase::Typing, Ok(Some(key))) => if is_escape(key) {
            (PromptView { pin: s.pin, phase: Phase::AfterEscape }, Echo::Nothing)
        } else {
            type_key(s.pin, key)
        },
        (Phase::AfterEscape, Ok(None)) => (
            PromptView { pin: s.pin, phase: Phase::Aborted },
            Echo::Newline,
        ),
        (Phase::AfterEscape, Ok(Some(key))) => if is_escape(key) {
            (PromptView { pin: s.pin, phase: Phase::Aborted }, Echo::Newline)
        } else {
            (PromptView { pin: s.pin, phase: Phase::Draining }, Echo::Nothing)
        },
        (Phase::Draining, Ok(Some(_))) => (s, Echo::Nothing),
        (Phase::Draining, Ok(None)) => (
            PromptView { pin: s.pin, phase: Phase::Typing },
            Echo::Nothing,
        ),
    }
}

/// The prompt after a series of attempts to read a key.
pub open spec fn prompt_run(s: PromptView, polls: Seq<KeyPoll>) -> PromptView
    decreases polls.len(),
{
    if polls.len() == 0 {
        s
    } else {
        prompt_step(prompt_run(s, polls.drop_last()), polls.last()).0
    }
}

/// Decide whether an escape that was just read aborts, from what is pending right
/// behind it: nothing or another escape does, anything else does not.
pub fn escape_aborts(follow_up: Option<Key>) -> (r: bool)
    ensures
        r == (match follow_up {
            None => true,
            Some(key) => is_escape(key),
        }),
{
    match follow_up {
        None => true,
        Some(key) => is_escape_key(key),
    }
}

impl PinPrompt {
    /// The buffer invariant: the whole PIN fits without reallocation.
    pub closed spec fn wf(self) -> bool {
        &&& self.pin.limit() == MAX_PIN_CHARS
        &&& valid_prompt(self@)
    }

    /// An empty prompt. The maximum is preallocated so entering the PIN cannot
    /// reallocate and leave an unscrubbed copy of a prefix in an old heap
    /// allocation.
    pub fn new() -> (prompt: PinPrompt)
        ensures
            prompt.wf(),
            prompt@ == fresh(),
    {
        let prompt = PinPrompt {
            pin: ScrubbedUnits::with_limit(MAX_PIN_CHARS),
            phase: Phase::Typing,
        };
        assert(prompt@.pin =~= Seq::<u16>::empty());
        prompt
    }

    /// What the prompt is doing.
    pub fn phase(&self) -> (phase: Phase)
        ensures
            phase == self@.phase,
    {
        self.phase
    }

    fn read_character(&mut self, c: u16) -> (echo: Echo)
        requires
            old(self).wf(),
            old(self)@.phase == Phase::Typing,
        ensures
            final(self).wf(),
            (final(self)@, echo) == type_key(old(self)@.pin, Key::Printable(c)),
    {
        let len: usize = self.pin.len();
        if c == CHAR_ENTER {
            // Ignore an empty entry so spamming enter just re-prompts.
            if len == 0 {
                Echo::NewlineAndPrompt
            } else {
                self.phase = Phase::Accepted;
                Echo::Newline
            }
        } else if c == CHAR_BACKSPACE {
            if len > 0 {
                // Immediately zero any backspaced characters.
                self.pin.erase_last();
                Echo::Erase
            } else {
                Echo::Nothing
            }
        } else if c >= CHAR_FIRST && len < MAX_PIN_CHARS {
            self.pin.push(c);
            Echo::Mask
        } else {
            Echo::Nothing
        }
    }

    /// Take the outcome of an attempt to read a key: after waiting for one while
    /// typing, without waiting after an escape and while draining.
    pub fn read_pin(&mut self, poll: KeyPoll) -> (echo: Echo)
        requires
            old(self).wf(),
        ensures
            final(self).wf(),
            (final(self)@, echo) == prompt_step(old(self)@, poll),
    {
        match self.phase {
            Phase::Accepted => Echo::Nothing,
            Phase::Aborted => Echo::Nothing,
            Phase::Failed(_) => Echo::Nothing,
            Phase::Typing => match poll {
                Err(status) => {
                    self.phase = Phase::Failed(status);
                    Echo::Nothing
                },
                Ok(None) => Echo::Nothing,
                Ok(Some(key)) => if is_escape_key(key) {
                    self.phase = Phase::AfterEscape;
                    Echo::Nothing
                } else {
                    match key {
                        Key::Printable(c) => self.read_character(c),
                        Key::Special(_) => Echo::Nothing,
                    }
                },
            },
            Phase::AfterEscape => match poll {
                Err(status) => {
                    self.phase = Phase::Failed(status);
                    Echo::Nothing
                },
                Ok(follow_up) => if escape_aborts(follow_up) {
                    self.phase = Phase::Aborted;
                    Echo::Newline
                } else {
                    self.phase = Phase::Draining;
                    Echo::Nothing
                },
            },
            Phase::Draining => {
                match drain_pending_keys(poll) {
                    Drain::ReadAgain => {},
                    Drain::Empty => {
                        self.phase = Phase::Typing;
                    },
                    Drain::Failed(status) => {
                        self.phase = Phase::Failed(status);
                    },
                }
                Echo::Nothing
            },
        }
    }

    /// The PIN.
    pub fn into_pin(self) -> (pin: ScrubbedUnits)
        requires
            self.wf(),
        ensures
            pin@ == self@.pin,
            valid_prompt(self@),
    {
        self.pin
    }
}

/// The text of the prompt.
pub open spec fn pin_prompt_text() -> Seq<char> {
    "enter PIN to extend PCR["@ + padded(PIN_PCR_INDEX as nat, 1) + "]: "@
}

/// The text of the prompt.
pub fn pin_prompt() -> (text: String)
    ensures
        text@ == pin_prompt_text(),
{
    let mut text = String::new();
    text.append("enter PIN to extend PCR[");
    push_padded(&mut text, PIN_PCR_INDEX, 1);
    text.append("]: ");
    assert(text@ =~= pin_prompt_text());
    text
}

/// Whatever keys come, the PIN stays within the maximum, no code unit below
/// `CHAR_FIRST` gets into it, and only a non-empty PIN is accepted.
pub proof fn law_every_prompt_is_valid(polls: Seq<KeyPoll>)
    ensures
        valid_prompt(prompt_run(fresh(), polls)),
    decreases polls.len(),
{
    if polls.len() > 0 {
        law_every_prompt_is_valid(polls.drop_last());
    }
}

/// Backspace undoes the last character that was taken.
pub proof fn law_backspace_undoes_typing(s: PromptView, c: u16)
    requires
        valid_prompt(s),
        s.phase == Phase::Typing,
        c >= CHAR_FIRST,
        s.pin.len() < MAX_PIN_CHARS,
    ensures
        ({
            let typed = prompt_step(s, Ok(Some(Key::Printable(c)))).0;
            prompt_step(typed, Ok(Some(Key::Printable(CHAR_BACKSPACE)))).0 == s
        }),
{
    assert(s.pin.push(c).drop_last() =~= s.pin);
}

/// Escape with nothing or another escape right behind it aborts, from any PIN.
pub proof fn law_escape_aborts(s: PromptView, escape: Key, follow_up: Option<Key>)
    requires
        s.phase == Phase::Typing,
        is_escape(escape),
        follow_up matches Some(key) ==> is_escape(key),
    ensures
        prompt_run(s, seq![Ok(Some(escape)), Ok(follow_up)]).phase == Phase::Aborted,
{
    let polls: Seq<KeyPoll> = seq![Ok(Some(escape)), Ok(follow_up)];
    assert(polls.drop_last() =~= seq![Ok(Some(escape))]);
    assert(polls.drop_last().drop_last() =~= Seq::<KeyPoll>::empty());
    reveal_with_fuel(prompt_run, 3);
}

/// The attempts to read a terminal escape sequence: escape, another key, and
/// whatever else is pending, until nothing is.
pub open spec fn escape_sequence(escape: Key, second: Key, rest: Seq<Key>) -> Seq<KeyPoll> {
    seq![Ok(Some(escape)), Ok(Some(second))] + rest.map_values(
        |key: Key| -> KeyPoll { Ok(Some(key)) },
    ) + seq![Ok(None)]
}

/// A terminal escape sequence changes nothing, whatever it holds.
pub proof fn law_escape_sequence_is_ignored(
    s: PromptView,
    escape: Key,
    second: Key,
    rest: Seq<Key>,
)
    requires
        s.phase == Phase::Typing,
        is_escape(escape),
        !is_escape(second),
    ensures
        prompt_run(s, escape_sequence(escape, second, rest)) == s,
{
    let head: Seq<KeyPoll> = seq![Ok(Some(escape)), Ok(Some(second))];
    let tail: Seq<KeyPoll> = rest.map_values(|key: Key| -> KeyPoll { Ok(Some(key)) });
    let draining = PromptView { pin: s.pin, phase: Phase::Draining };
    assert(prompt_run(s, head) == draining) by {
        assert(head.drop_last() =~= seq![Ok(Some(escape))]);
        assert(head.drop_last().drop_last() =~= Seq::<KeyPoll>::empty());
        reveal_with_fuel(prompt_run, 3);
    }
    lemma_draining_discards(s, head, tail);
    let all = escape_sequence(escape, second, rest);
    assert(all.drop_last() =~= head + tail);
}

proof fn lemma_draining_discards(s: PromptView, head: Seq<KeyPoll>, tail: Seq<KeyPoll>)
    requires
        prompt_run(s, head).phase == Phase::Draining,
        forall|i: int| 0 <= i < tail.len() ==> (#[trigger] tail[i] matches Ok(Some(_))),
    ensures
        prompt_run(s, head + tail) == prompt_run(s, head),
    decreases tail.len(),
{
    if tail.len() == 0 {
        assert(head + tail =~= head);
    } else {
        lemma_draining_discards(s, head, tail.drop_last());
        assert((head + tail).drop_last() =~= head + tail.drop_last());
        assert((head + tail).last() == tail.last());
    }
}

/// The attempts to read that type the given code units one after the other.
pub open spec fn keystrokes(units: Seq<u16>) -> Seq<KeyPoll> {
    units.map_values(|c: u16| -> KeyPoll { Ok(Some(Key::Printable(c))) })
}

/// Typing code units from `CHAR_FIRST` on gives the PIN they spell, cut off at the
/// maximum.
pub proof fn law_typing_spells_the_pin(units: Seq<u16>)
    requires
        forall|i: int| 0 <= i < units.len() ==> units[i] >= CHAR_FIRST,
    ensures
        prompt_run(fresh(), keystrokes(units)) == (PromptView {
            pin: units.take(
                if units.len() <= MAX_PIN_CHARS {
                    units.len() as int
                } else {
                    MAX_PIN_CHARS as int
                },
            ),
            phase: Phase::Typing,
        }),
    decreases units.len(),
{
    if units.len() == 0 {
        assert(units.take(0) =~= Seq::<u16>::empty());
    } else {
        let before = units.drop_last();
        law_typing_spells_the_pin(before);
        assert(keystrokes(units).drop_last() =~= keystrokes(before));
        if units.len() <= MAX_PIN_CHARS {
            assert(before.take(before.len() as int) =~= before);
            assert(before.push(units.last()) =~= units.take(units.len() as int));
        } else {
            assert(before.take(MAX_PIN_CHARS as int) =~= units.take(MAX_PIN_CHARS as int));
        }
    }
}

/// Typing a PIN of 1 to `MAX_PIN_CHARS` characters and enter accepts exactly that
/// PIN.
pub proof fn law_enter_accepts_what_was_typed(units: Seq<u16>)
    requires
        1 <= units.len() <= MAX_PIN_CHARS,
        forall|i: int| 0 <= i < units.len() ==> units[i] >= CHAR_FIRST,
    ensures
        prompt_run(fresh(), keystrokes(units.push(CHAR_ENTER))) == (PromptView {
            pin: units,
            phase: Phase::Accepted,
        }),
{
    law_typing_spells_the_pin(units);
    assert(keystrokes(units.push(CHAR_ENTER)).drop_last() =~= keystrokes(units));
    assert(units.take(units.len() as int) =~= units);
}

/// Enter on an empty prompt just asks again, however often it is pressed.
pub proof fn law_empty_enters_change_nothing(count: nat)
    ensures
        prompt_run(fresh(), keystrokes(Seq::new(count, |i: int| CHAR_ENTER))) == fresh(),
    decreases count,
{
    if count > 0 {
        let before = (count - 1) as nat;
        law_empty_enters_change_nothing(before);
        assert(keystrokes(Seq::new(count, |i: int| CHAR_ENTER)).drop_last() =~= keystrokes(
            Seq::new(before, |i: int| CHAR_ENTER),
        ));
    }
}

/// What is shown for each of a series of attempts to read a key.
pub open spec fn prompt_echoes(s: PromptView, polls: Seq<KeyPoll>) -> Seq<Echo>
    decreases polls.len(),
{
    if polls.len() == 0 {
        Seq::empty()
    } else {
        let before = polls.drop_last();
        prompt_echoes(s, before).push(prompt_step(prompt_run(s, before), polls.last()).1)
    }
}

/// Whether the attempt gave a character that can be part of a PIN.
pub open spec fn is_character(poll: KeyPoll) -> bool {
    poll matches Ok(Some(Key::Printable(c))) && c >= CHAR_FIRST
}

/// Whether two series of attempts differ at most in which characters were typed.
pub open spec fn same_but_for_characters(a: Seq<KeyPoll>, b: Seq<KeyPoll>) -> bool {
    &&& a.len() == b.len()
    &&& forall|i: int|
        0 <= i < a.len() ==> #[trigger] a[i] == #[trigger] b[i] || (is_character(a[i])
            && is_character(b[i]))
}

/// Whether two prompts differ at most in which characters the PIN has.
pub open spec fn same_but_for_pin(s: PromptView, t: PromptView) -> bool {
    s.phase == t.phase && s.pin.len() == t.pin.len()
}

/// The echo is masked: what is shown at each step, what the prompt is doing, and how
/// long the PIN is do not depend on which characters are typed.
pub proof fn law_echo_is_masked(s: PromptView, t: PromptView, a: Seq<KeyPoll>, b: Seq<KeyPoll>)
    requires
        same_but_for_pin(s, t),
        same_but_for_characters(a, b),
    ensures
        prompt_echoes(s, a) == prompt_echoes(t, b),
        same_but_for_pin(prompt_run(s, a), prompt_run(t, b)),
    decreases a.len(),
{
    if a.len() > 0 {
        law_echo_is_masked(s, t, a.drop_last(), b.drop_last());
        let n = a.len() - 1;
        assert(a[n] == b[n] || (is_character(a[n]) && is_character(b[n])));
    }
}

/// The prompt starts with nothing typed.
pub proof fn law_prompt_starts_empty()
    ensures
        fresh().pin.len() == 0,
        fresh().phase == Phase::Typing,
{
}

/// While typing, a key with only a scan code that is not escape changes nothing and
/// shows nothing, whatever has been typed; nor does a wake without a key.
pub proof fn law_other_keys_change_nothing(s: PromptView, code: u16)
    requires
        s.phase == Phase::Typing,
        code != 0x17,
    ensures
        prompt_step(s, Ok(Some(Key::Special(code)))) == (s, Echo::Nothing),
        prompt_step(s, Ok(None)) == (s, Echo::Nothing),
{
}

/// While typing, every code unit from 0x20 on is appended as it is and shows as a mask,
/// until the PIN has 128 of them; from then on it changes nothing.
pub proof fn law_characters_are_appended(s: PromptView, c: u16)
    requires
        s.phase == Phase::Typing,
        c >= 0x20,
    ensures
        ({
            let (next, echo) = prompt_step(s, Ok(Some(Key::Printable(c))));
            &&& next.phase == Phase::Typing
            &&& s.pin.len() < 128 ==> next.pin.len() == s.pin.len() + 1 && next.pin.drop_last()
                == s.pin && next.pin.last() == c && echo == Echo::Mask
            &&& s.pin.len() >= 128 ==> next.pin == s.pin && echo == Echo::Nothing
        }),
{
    assert(s.pin.push(c).drop_last() =~= s.pin);
}

/// While typing, control characters other than enter, backspace and escape change
/// nothing and show nothing.
pub proof fn law_control_characters_change_nothing(s: PromptView, c: u16)
    requires
        s.phase == Phase::Typing,
        c < 0x20,
        c != 0x0d,
        c != 0x08,
        c != 0x1b,
    ensures
        prompt_step(s, Ok(Some(Key::Printable(c)))) == (s, Echo::Nothing),
{
}

/// Enter accepts exactly what has been typed, and asks again where that is nothing.
pub proof fn law_enter_keeps_the_pin(s: PromptView)
    requires
        s.phase == Phase::Typing,
    ensures
        ({
            let (next, echo) = prompt_step(s, Ok(Some(Key::Printable(0x0d))));
            &&& next.pin == s.pin
            &&& s.pin.len() > 0 ==> next.phase == Phase::Accepted && echo == Echo::Newline
            &&& s.pin.len() == 0 ==> next.phase == Phase::Typing && echo
                == Echo::NewlineAndPrompt
        }),
{
}

/// Backspace takes off the last code unit and no other, and its mask; on an empty PIN
/// it changes nothing.
pub proof fn law_backspace_takes_one_off(s: PromptView)
    requires
        s.phase == Phase::Typing,
    ensures
        ({
            let (next, echo) = prompt_step(s, Ok(Some(Key::Printable(0x08))));
            &&& next.phase == Phase::Typing
            &&& s.pin.len() > 0 ==> next.pin == s.pin.take(s.pin.len() - 1) && echo == Echo::Erase
            &&& s.pin.len() == 0 ==> next.pin == s.pin && echo == Echo::Nothing
        }),
{
    if s.pin.len() > 0 {
        assert(s.pin.drop_last() =~= s.pin.take(s.pin.len() - 1));
    }
}

/// Escape keeps the PIN and waits for what follows: nothing and another escape abort on
/// a new line, any other key is the start of a sequence that is discarded until nothing
/// is pending. The PIN stays as it is all along.
pub proof fn law_escape_keeps_the_pin(s: PromptView, key: Key)
    ensures
        s.phase == Phase::Typing && is_escape(key) ==> prompt_step(s, Ok(Some(key))) == (
            PromptView { pin: s.pin, phase: Phase::AfterEscape },
            Echo::Nothing,
        ),
        s.phase == Phase::AfterEscape ==> prompt_step(s, Ok(None)) == (
            PromptView { pin: s.pin, phase: Phase::Aborted },
            Echo::Newline,
        ),
        s.phase == Phase::AfterEscape && is_escape(key) ==> prompt_step(s, Ok(Some(key))) == (
            PromptView { pin: s.pin, phase: Phase::Aborted },
            Echo::Newline,
        ),
        s.phase == Phase::AfterEscape && !is_escape(key) ==> prompt_step(s, Ok(Some(key))) == (
            PromptView { pin: s.pin, phase: Phase::Draining },
            Echo::Nothing,
        ),
        s.phase == Phase::Draining ==> prompt_step(s, Ok(Some(key))) == (s, Echo::Nothing),
        s.phase == Phase::Draining ==> prompt_step(s, Ok(None)) == (
            PromptView { pin: s.pin, phase: Phase::Typing },
            Echo::Nothing,
        ),
{
}

/// A failure to read ends the prompt with its status, wherever it stands; once it has
/// ended, nothing changes it and nothing is shown.
pub proof fn law_prompt_ends_once(s: PromptView, status: Status, poll: KeyPoll)
    ensures
        ({
            let ended = s.phase == Phase::Accepted || s.phase == Phase::Aborted
                || s.phase is Failed;
            &&& ended ==> prompt_step(s, poll) == (s, Echo::Nothing)
            &&& !ended ==> prompt_step(s, Err(status)) == (
                PromptView { pin: s.pin, phase: Phase::Failed(status) },
                Echo::Nothing,
            )
        }),
{
}

/// The prompt names the PIN PCR.
pub proof fn law_prompt_names_the_pcr()
    ensures
        pin_prompt_text() == "enter PIN to extend PCR[15]: "@,
{
    reveal_strlit("enter PIN to extend PCR[");
    reveal_strlit("]: ");
    reveal_strlit("enter PIN to extend PCR[15]: ");
    reveal_with_fuel(decimal, 3);
    assert(pin_prompt_text() =~= "enter PIN to extend PCR[15]: "@);
}

} // verus!
