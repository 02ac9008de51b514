use pinnacle::input::{Key, KeyPoll, CHAR_ESCAPE, SCAN_ESCAPE};
use pinnacle::prompt::{escape_aborts, pin_prompt, Echo, Phase, PinPrompt, MAX_PIN_CHARS};
use pinnacle::status::{Status, DEVICE_ERROR};

fn key(c: u16) -> KeyPoll {
    Ok(Some(Key::Printable(c)))
}

fn escape() -> KeyPoll {
    Ok(Some(Key::Special(SCAN_ESCAPE)))
}

fn feed(polls: &[KeyPoll]) -> (PinPrompt, Vec<Echo>) {
    let mut prompt = PinPrompt::new();
    let mut echoes = Vec::new();
    for poll in polls {
        echoes.push(prompt.read_pin(*poll));
    }
    (prompt, echoes)
}

fn pin_of(prompt: PinPrompt) -> Vec<u16> {
    prompt.into_pin().as_slice().to_vec()
}

#[test]
fn the_prompt_names_the_pcr() {
    assert_eq!(pin_prompt(), "enter PIN to extend PCR[15]: ");
}

#[test]
fn typing_and_enter_give_the_pin() {
    let (prompt, echoes) = feed(&[key(0x61), key(0x20), key(0xfffd), key(0x0d)]);
    assert_eq!(prompt.phase(), Phase::Accepted);
    assert_eq!(echoes, vec![Echo::Mask, Echo::Mask, Echo::Mask, Echo::Newline]);
    assert_eq!(pin_of(prompt), vec![0x61, 0x20, 0xfffd]);
}

#[test]
fn backspace_takes_the_last_character_back() {
    let (prompt, echoes) = feed(&[key(0x08), key(0x31), key(0x32), key(0x08), key(0x33), key(0x0d)]);
    assert_eq!(
        echoes,
        vec![Echo::Nothing, Echo::Mask, Echo::Mask, Echo::Erase, Echo::Mask, Echo::Newline]
    );
    assert_eq!(pin_of(prompt), vec![0x31, 0x33]);
}

#[test]
fn enter_on_an_empty_pin_asks_again() {
    let (prompt, echoes) = feed(&[key(0x0d), key(0x0d), key(0x31), key(0x08), key(0x0d)]);
    assert_eq!(prompt.phase(), Phase::Typing);
    assert_eq!(echoes[0], Echo::NewlineAndPrompt);
    assert_eq!(echoes[1], Echo::NewlineAndPrompt);
    assert_eq!(echoes[4], Echo::NewlineAndPrompt);
    assert_eq!(pin_of(prompt), Vec::<u16>::new());
}

#[test]
fn control_characters_and_other_keys_are_ignored() {
    let (prompt, echoes) = feed(&[
        Ok(None),
        key(0x00),
        key(0x09),
        key(0x0a),
        key(0x1f),
        Ok(Some(Key::Special(0x01))),
        key(0x41),
        key(0x0d),
    ]);
    assert_eq!(echoes[..6], [Echo::Nothing; 6]);
    assert_eq!(pin_of(prompt), vec![0x41]);
}

#[test]
fn a_pin_is_cut_off_at_the_maximum() {
    let mut polls = vec![key(0x78); MAX_PIN_CHARS];
    polls.push(key(0x79));
    polls.push(key(0x0d));
    let (prompt, echoes) = feed(&polls);
    assert_eq!(echoes[MAX_PIN_CHARS - 1], Echo::Mask);
    assert_eq!(echoes[MAX_PIN_CHARS], Echo::Nothing);
    assert_eq!(pin_of(prompt), vec![0x78; 128]);
}

#[test]
fn escape_alone_or_twice_aborts() {
    let (alone, echoes) = feed(&[key(0x31), escape(), Ok(None)]);
    assert_eq!(alone.phase(), Phase::Aborted);
    assert_eq!(echoes, vec![Echo::Mask, Echo::Nothing, Echo::Newline]);
    let (twice, _) = feed(&[escape(), key(CHAR_ESCAPE)]);
    assert_eq!(twice.phase(), Phase::Aborted);
    assert!(escape_aborts(None));
    assert!(escape_aborts(Some(Key::Printable(CHAR_ESCAPE))));
    assert!(!escape_aborts(Some(Key::Printable(0x5b))));
}

#[test]
fn a_terminal_escape_sequence_is_ignored() {
    let (prompt, _) = feed(&[
        key(0x31),
        key(CHAR_ESCAPE),
        key(0x5b),
        key(0x41),
        escape(),
        key(0x0d),
        Ok(None),
        key(0x32),
        key(0x0d),
    ]);
    assert_eq!(prompt.phase(), Phase::Accepted);
    assert_eq!(pin_of(prompt), vec![0x31, 0x32]);
}

#[test]
fn a_failing_console_ends_the_prompt() {
    let broken: KeyPoll = Err(Status(DEVICE_ERROR));
    let failed = Phase::Failed(Status(DEVICE_ERROR));
    assert_eq!(feed(&[broken]).0.phase(), failed);
    assert_eq!(feed(&[escape(), broken]).0.phase(), failed);
    assert_eq!(feed(&[escape(), key(0x5b), broken]).0.phase(), failed);
    assert_eq!(feed(&[broken, key(0x31)]).0.phase(), failed);
}

#[test]
fn echoes_are_masked() {
    assert_eq!(Echo::Nothing.text(), "");
    assert_eq!(Echo::Mask.text(), "*");
    assert_eq!(Echo::Erase.text(), "\u{8} \u{8}");
    assert_eq!(Echo::Newline.text(), "\n");
    assert_eq!(Echo::NewlineAndPrompt.text(), "\n");
}

#[test]
fn the_echo_does_not_depend_on_the_characters() {
    let series = |a: u16, b: u16, c: u16| {
        feed(&[
            key(a),
            key(b),
            key(0x08),
            key(CHAR_ESCAPE),
            key(c),
            key(a),
            Ok(None),
            key(c),
            key(0x0d),
        ])
    };
    let (one, echoes) = series(0x31, 0x32, 0x33);
    let (other, other_echoes) = series(0x78, 0x20, 0xfffd);
    assert_eq!(echoes, other_echoes);
    assert_eq!(one.phase(), other.phase());
    let (one, other) = (pin_of(one), pin_of(other));
    assert_eq!(one, vec![0x31, 0x33]);
    assert_eq!(other, vec![0x78, 0xfffd]);
}
