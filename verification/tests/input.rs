use pinnacle::input::{
    drain_pending_keys, is_escape_key, wait_for_key, Drain, Key, Pause, PauseEvent, CHAR_ESCAPE,
    SCAN_ESCAPE,
};
use pinnacle::status::{Status, DEVICE_ERROR};

#[test]
fn the_scan_code_is_that_of_the_firmware() {
    assert_eq!(SCAN_ESCAPE, uefi::proto::console::text::ScanCode::ESCAPE.0);
}

#[test]
fn escape_is_a_scan_code_or_a_character() {
    assert!(is_escape_key(Key::Special(SCAN_ESCAPE)));
    assert!(is_escape_key(Key::Printable(CHAR_ESCAPE)));
    assert!(!is_escape_key(Key::Special(CHAR_ESCAPE)));
    assert!(!is_escape_key(Key::Printable(SCAN_ESCAPE)));
    assert!(!is_escape_key(Key::Printable(0x0d)));
}

#[test]
fn draining_reads_until_nothing_is_pending() {
    assert_eq!(drain_pending_keys(Ok(Some(Key::Printable(0x41)))), Drain::ReadAgain);
    assert_eq!(drain_pending_keys(Ok(None)), Drain::Empty);
    assert_eq!(
        drain_pending_keys(Err(Status(DEVICE_ERROR))),
        Drain::Failed(Status(DEVICE_ERROR))
    );
}

fn pause(events: &[PauseEvent]) -> Vec<Pause> {
    let mut at = Pause::Drain;
    let mut seen = Vec::new();
    for event in events {
        at = wait_for_key(at, *event);
        seen.push(at);
    }
    seen
}

#[test]
fn a_pause_discards_earlier_keys_and_spurious_wakes() {
    let key = PauseEvent::Polled(Ok(Some(Key::Printable(0x20))));
    let nothing = PauseEvent::Polled(Ok(None));
    let done = PauseEvent::Done(true);
    assert_eq!(
        pause(&[key, key, nothing, done, done, nothing, done, key]),
        vec![
            Pause::Drain,
            Pause::Drain,
            Pause::OpenEvent,
            Pause::Await,
            Pause::Read,
            Pause::Await,
            Pause::Read,
            Pause::Over,
        ]
    );
}

#[test]
fn a_failing_console_ends_the_pause() {
    let broken = PauseEvent::Polled(Err(Status(DEVICE_ERROR)));
    let failed = PauseEvent::Done(false);
    let done = PauseEvent::Done(true);
    assert_eq!(pause(&[broken]), vec![Pause::OpenEvent]);
    assert_eq!(pause(&[broken, failed]), vec![Pause::OpenEvent, Pause::Over]);
    assert_eq!(pause(&[broken, done, failed]).last(), Some(&Pause::Over));
    assert_eq!(pause(&[broken, done, done, broken]).last(), Some(&Pause::Over));
}
