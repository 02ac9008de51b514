use pinnacle::boot::{begin, run, Event, Output, Stage, Step, STALL_SECONDS};
use pinnacle::input::{Key, KeyPoll, SCAN_ESCAPE};
use pinnacle::log::{ConsoleOp, Level};
use pinnacle::scrub::ScrubbedUnits;
use pinnacle::status::{Status, DEVICE_ERROR, NOT_FOUND, OUT_OF_RESOURCES, SECURITY_VIOLATION, SUCCESS};
use pinnacle::tpm::TpmProbe;

fn lines(outputs: &[Output]) -> Vec<String> {
    let mut all = Vec::new();
    for output in outputs {
        all.push(match output {
            Output::Log(r) => format!("{} {}", r.level.label(), r.message),
            Output::Prompt(text) => format!("prompt {text}"),
            Output::Echo(echo) => format!("echo {:?}", echo),
        });
    }
    all
}

fn clean_response() -> [u8; 128] {
    let mut bytes = [0u8; 128];
    bytes[17] = 1;
    bytes[19] = 0x0b;
    bytes[20] = 3;
    bytes[22] = 0x80;
    bytes[27] = 1;
    bytes[29] = 32;
    bytes
}

fn good_tpm() -> Event {
    Event::Tpm(TpmProbe::Capability { present: true, active_banks: 0x06 })
}

fn uuid() -> [u8; 16] {
    [0x5a; 16]
}

/// The prompt of a boot on a machine with two volumes, of which the first is the own.
fn at_prompt() -> Stage {
    let step = begin("1.2.3");
    assert!(matches!(step.stage, Stage::OpenTpm));
    assert_eq!(lines(&step.outputs), vec!["INF pinnacle 1.2.3 by twelho"]);

    let step = run(step.stage, good_tpm(), false);
    assert!(matches!(step.stage, Stage::ReadPcr));

    let step = run(step.stage, Event::Response(Some(clean_response())), false);
    assert!(matches!(step.stage, Stage::FindSelf));
    assert_eq!(lines(&step.outputs), vec![format!("DBG PCR[15]: {}", "00".repeat(32))]);

    let step = run(step.stage, Event::Own(Ok(Some(100))), false);
    assert!(matches!(step.stage, Stage::FindVolumes { own: Some(100) }));
    assert_eq!(lines(&step.outputs), vec!["INF searching for \\EFI\\boot\\BOOTX64.efi..."]);

    let step = run(step.stage, Event::Volumes(Ok(vec![100, 200])), false);
    match &step.stage {
        Stage::TryVolume { volumes, at } => assert_eq!((volumes.clone(), *at), (vec![200, 100], 0)),
        _ => panic!("there are volumes"),
    }

    let loaded = Event::Loaded { volume_name: String::from("HD(2)"), outcome: Ok(77) };
    let step = run(step.stage, loaded, false);
    assert!(matches!(step.stage, Stage::ReadUuid { image: 77 }));
    assert_eq!(lines(&step.outputs), vec!["INF loaded HD(2)\\EFI\\boot\\BOOTX64.efi"]);

    let step = run(step.stage, Event::Uuid(Some(uuid())), false);
    assert_eq!(
        lines(&step.outputs),
        vec![
            format!("DBG SMBIOS system UUID: {}", "5a".repeat(16)),
            String::from("INF press ESC at the PIN prompt to abort"),
            String::from("prompt enter PIN to extend PCR[15]: "),
        ]
    );
    assert!(matches!(step.stage, Stage::Prompt { image: 77, .. }));
    step.stage
}

fn press(stage: Stage, c: u16) -> Step {
    let poll: KeyPoll = Ok(Some(Key::Printable(c)));
    run(stage, Event::Key(poll), false)
}

fn report(stage: Stage) -> (Status, String) {
    match stage {
        Stage::Report(fatal) => (fatal.status, fatal.message),
        _ => panic!("this is fatal"),
    }
}

fn unexpected(status: u64, name: &str) -> (Status, String) {
    (Status(status), format!("unexpected error: {name}"))
}

#[test]
fn a_typed_pin_is_measured_with_the_machine_salt() {
    let step = press(at_prompt(), 0x0d);
    assert_eq!(
        lines(&step.outputs),
        vec!["echo NewlineAndPrompt", "prompt enter PIN to extend PCR[15]: "]
    );
    let step = press(step.stage, 0x31);
    assert_eq!(lines(&step.outputs), vec!["echo Mask"]);
    let step = press(step.stage, 0x0d);
    assert_eq!(lines(&step.outputs), vec!["echo Newline", "INF deriving measurement..."]);
    match &step.stage {
        Stage::Derive { image, salt, pin } => {
            assert_eq!(*image, 77);
            assert_eq!(salt, &uuid().to_vec());
            assert_eq!(pin.as_slice(), &[0x31]);
        }
        _ => panic!("the PIN was entered"),
    }
}

#[test]
fn an_extension_leads_to_the_start_of_the_loader() {
    let request = pinnacle::measure::extend_request(&[1; 32], false);
    let stage = Stage::Extend { image: 77, request };
    let step = run(stage, Event::Extended(Ok(())), false);
    assert_eq!(
        lines(&step.outputs),
        vec!["INF extended PIN-derived measurement to PCR[15]"]
    );
    assert!(matches!(step.stage, Stage::DebugPcr { image: 77 }));

    let step = run(step.stage, Event::Response(None), false);
    assert_eq!(
        lines(&step.outputs),
        vec!["ERR PCR[15]: <read failed>", "INF starting \\EFI\\boot\\BOOTX64.efi..."]
    );
    assert!(matches!(step.stage, Stage::Start { image: 77 }));
    assert_eq!(STALL_SECONDS, 3);

    let step = run(step.stage, Event::Started(Ok(())), false);
    assert!(matches!(step.stage, Stage::Exited));
}

#[test]
fn escape_at_the_prompt_reboots() {
    let poll: KeyPoll = Ok(Some(Key::Special(SCAN_ESCAPE)));
    let step = run(at_prompt(), Event::Key(poll), false);
    assert_eq!(step.outputs.len(), 0);
    let step = run(step.stage, Event::Key(Ok(None)), false);
    assert_eq!(lines(&step.outputs), vec!["echo Newline", "INF aborted, rebooting..."]);
    assert!(matches!(step.stage, Stage::Reboot(Status(SUCCESS))));
    let step = run(step.stage, Event::Started(Ok(())), false);
    assert!(matches!(step.stage, Stage::Reboot(Status(SUCCESS))));
}

#[test]
fn a_failing_console_is_fatal() {
    let step = run(at_prompt(), Event::Key(Err(Status(DEVICE_ERROR))), false);
    assert_eq!(report(step.stage), unexpected(DEVICE_ERROR, "DEVICE_ERROR"));
}

#[test]
fn a_refused_tpm_is_fatal() {
    let step = run(Stage::OpenTpm, Event::Tpm(TpmProbe::NoProtocol), false);
    assert_eq!(report(step.stage).0, Status(NOT_FOUND));
}

#[test]
fn a_dirty_pcr_is_fatal() {
    let mut response = clean_response();
    response[40] = 1;
    let step = run(Stage::ReadPcr, Event::Response(Some(response)), false);
    assert_eq!(step.outputs.len(), 1);
    assert_eq!(report(step.stage).0, Status(SECURITY_VIOLATION));
    let step = run(Stage::ReadPcr, Event::Response(None), false);
    assert_eq!(step.outputs.len(), 0);
    assert_eq!(report(step.stage).0, Status(DEVICE_ERROR));
}

#[test]
fn volumes_that_cannot_be_listed_are_fatal() {
    let step = run(Stage::FindSelf, Event::Own(Err(Status(DEVICE_ERROR))), false);
    assert_eq!(report(step.stage), unexpected(DEVICE_ERROR, "DEVICE_ERROR"));
    let listing = Event::Volumes(Err(Status(NOT_FOUND)));
    let step = run(Stage::FindVolumes { own: None }, listing, false);
    assert_eq!(report(step.stage), unexpected(NOT_FOUND, "NOT_FOUND"));
}

#[test]
fn a_machine_without_a_loader_stops_before_the_prompt() {
    let stage = Stage::TryVolume { volumes: vec![1, 2], at: 0 };
    let missing = || Event::Loaded { volume_name: String::new(), outcome: Err(Status(NOT_FOUND)) };
    let step = run(stage, missing(), false);
    assert!(matches!(step.stage, Stage::TryVolume { at: 1, .. }));
    let step = run(step.stage, missing(), false);
    assert_eq!(
        report(step.stage),
        (
            Status(NOT_FOUND),
            String::from(
                "no usable \\EFI\\boot\\BOOTX64.efi found, is the boot loader installed and signed?"
            )
        )
    );
}

#[test]
fn a_salt_that_is_too_short_is_fatal() {
    let mut pin = ScrubbedUnits::with_limit(1);
    pin.push(0x31);
    let stage = Stage::Derive { image: 1, salt: vec![1, 2, 3], pin };
    let step = run(stage, Event::Proceed, false);
    assert_eq!(report(step.stage), unexpected(OUT_OF_RESOURCES, "OUT_OF_RESOURCES"));
}

#[test]
fn a_failed_extension_never_starts_the_loader() {
    let request = pinnacle::measure::extend_request(&[1; 32], true);
    assert_eq!(request.flags, 0);
    let stage = Stage::Extend { image: 9, request };
    let step = run(stage, Event::Extended(Err(Status(DEVICE_ERROR))), true);
    let step = run(step.stage, Event::Started(Ok(())), true);
    assert_eq!(report(step.stage), unexpected(DEVICE_ERROR, "DEVICE_ERROR"));
}

#[test]
fn a_loader_that_does_not_start_is_fatal() {
    let started = Event::Started(Err(Status(SECURITY_VIOLATION)));
    let step = run(Stage::Start { image: 9 }, started, false);
    assert_eq!(report(step.stage), unexpected(SECURITY_VIOLATION, "SECURITY_VIOLATION"));
}

#[test]
fn events_that_were_not_asked_for_change_nothing() {
    let step = run(Stage::OpenTpm, Event::Proceed, false);
    assert!(matches!(step.stage, Stage::OpenTpm));
    let step = run(Stage::Start { image: 4 }, Event::Proceed, false);
    assert!(matches!(step.stage, Stage::Start { image: 4 }));
    let step = run(Stage::Exited, good_tpm(), false);
    assert!(matches!(step.stage, Stage::Exited));
}

#[test]
fn outputs_are_written_as_console_operations() {
    let print = |ops: &[ConsoleOp]| -> String {
        let mut text = String::new();
        for op in ops {
            if let ConsoleOp::Print(s) = op {
                text.push_str(s);
            }
        }
        text
    };
    let line = Output::Log(pinnacle::log::record(Level::Info, "hello"));
    assert_eq!(print(&line.write(None)), "----------T--:--:--Z [INF] hello\n");
    let prompt = Output::Prompt(String::from("pin: "));
    assert_eq!(print(&prompt.write(None)), "----------T--:--:--Z [INF] pin: ");
    let echo = Output::Echo(pinnacle::prompt::Echo::Mask);
    assert_eq!(print(&echo.write(None)), "*");
}

#[test]
fn a_boot_extends_once() {
    let request = pinnacle::measure::extend_request(&[1; 32], false);
    let stage = Stage::Extend { image: 9, request };
    let step = run(stage, Event::Extended(Ok(())), false);
    assert!(matches!(step.stage, Stage::DebugPcr { image: 9 }));
    let step = run(step.stage, Event::Extended(Ok(())), false);
    assert!(matches!(step.stage, Stage::DebugPcr { image: 9 }));
    assert_eq!(step.outputs.len(), 0);
    let step = run(step.stage, Event::Response(None), false);
    let step = run(step.stage, Event::Extended(Ok(())), false);
    assert!(matches!(step.stage, Stage::Start { image: 9 }));
}
