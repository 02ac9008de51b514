use pinnacle::bootentry::{build_option, Entry, Scan};
use pinnacle::bootorder::{
    ensure_first, install, order_name, plan_entries, read_boot_order, reorder, write_boot_order, Install,
    InstallEvent, Plan, ATTRS, BOOT_ORDER,
};
use pinnacle::log::{Level, Record};
use pinnacle::status::{Status, DEVICE_ERROR, NOT_FOUND};
use uefi::runtime::VariableAttributes;

/// Firmware variables in memory.
struct Firmware {
    entries: Vec<(u16, Vec<u8>)>,
    order: Option<Vec<u8>>,
    writes: usize,
}

impl Firmware {
    fn new(entries: &[(u16, Vec<u8>)], order: Option<&[u16]>) -> Firmware {
        Firmware { entries: entries.to_vec(), order: order.map(write_boot_order), writes: 0 }
    }

    fn scan(&self) -> Scan {
        let mut scan = Scan { ours: Vec::new(), used: Vec::new() };
        for (number, option) in &self.entries {
            scan.used.push(*number);
            if pinnacle::bootentry::is_ours(option) {
                scan.ours.push(Entry { number: *number, option: option.clone() });
            }
        }
        scan
    }

    fn register(&mut self, path: &[u8]) -> Record {
        self.register_until(path, usize::MAX)
    }

    /// Registration in which the write or deletion behind the first `good` ones fails.
    fn register_until(&mut self, path: &[u8], good: usize) -> Record {
        let mut state = ensure_first(Ok(path.to_vec()), &self.scan());
        loop {
            let event = match &state {
                Install::WriteEntry { .. }
                | Install::DeleteEntry { .. }
                | Install::WriteOrder { .. }
                    if self.writes == good =>
                {
                    InstallEvent::Performed(Err(Status(DEVICE_ERROR)))
                }
                Install::WriteEntry { desired, plan } => {
                    self.entries.retain(|(n, _)| *n != plan.number);
                    self.entries.push((plan.number, desired.clone()));
                    self.writes += 1;
                    InstallEvent::Performed(Ok(()))
                }
                Install::DeleteEntry { plan, at } => {
                    self.entries.retain(|(n, _)| *n != plan.purge[*at]);
                    self.writes += 1;
                    InstallEvent::Performed(Ok(()))
                }
                Install::ReadOrder { .. } => InstallEvent::Order(self.order.clone()),
                Install::WriteOrder { order, .. } => {
                    self.order = Some(write_boot_order(order));
                    self.writes += 1;
                    InstallEvent::Performed(Ok(()))
                }
                Install::Done { record } => {
                    return Record { level: record.level, message: record.message.clone() };
                }
            };
            state = install(state, event);
        }
    }

    fn boot_order(&self) -> Vec<u16> {
        read_boot_order(self.order.as_deref())
    }
}

#[test]
fn names_and_attributes_are_those_of_the_firmware() {
    assert_eq!(BOOT_ORDER, "BootOrder");
    let name: Vec<u16> = "BootOrder\0".encode_utf16().collect();
    assert_eq!(order_name(), name);
    let attributes = VariableAttributes::NON_VOLATILE
        .union(VariableAttributes::BOOTSERVICE_ACCESS)
        .union(VariableAttributes::RUNTIME_ACCESS);
    assert_eq!(ATTRS, attributes.bits());
}

#[test]
fn a_boot_order_is_pairs_of_bytes() {
    assert_eq!(read_boot_order(Some(&[0x01, 0x00, 0xcd, 0xab])), vec![1, 0xabcd]);
    assert_eq!(read_boot_order(Some(&[0x01, 0x00, 0xcd])), vec![1]);
    assert_eq!(read_boot_order(Some(&[])), Vec::<u16>::new());
    assert_eq!(read_boot_order(None), Vec::<u16>::new());
    assert_eq!(write_boot_order(&[1, 0xabcd]), vec![0x01, 0x00, 0xcd, 0xab]);
    let order = [0u16, 7, 0xffff];
    assert_eq!(read_boot_order(Some(&write_boot_order(&order))), order.to_vec());
}

#[test]
fn a_matching_entry_is_kept() {
    let entry = |number: u16, path: u8| Entry { number, option: build_option(&[path]) };
    let scan = Scan { ours: vec![entry(4, 1), entry(2, 9), entry(6, 9), entry(8, 2)], used: vec![2, 4, 6, 8] };
    let plan = plan_entries(&scan, &build_option(&[9])).unwrap();
    assert_eq!((plan.number, plan.write, plan.purge), (2, false, vec![4, 8, 6]));
    let other = plan_entries(&scan, &build_option(&[5])).unwrap();
    assert_eq!((other.number, other.write, other.purge), (8, true, vec![4, 2, 6]));
}

#[test]
fn the_kept_entry_comes_first_and_duplicates_go() {
    let plan = Plan { number: 3, write: false, purge: vec![5] };
    assert_eq!(reorder(&[1, 5, 3, 2, 3], &plan), vec![3, 1, 2]);
    assert_eq!(reorder(&[], &plan), vec![3]);
}

#[test]
fn a_new_entry_takes_the_lowest_free_index() {
    let mut firmware = Firmware::new(&[(0, vec![1; 40]), (2, vec![2; 40])], Some(&[2, 0]));
    let record = firmware.register(&[9]);
    assert_eq!(record.level, Level::Info);
    assert_eq!(record.message, "set pinnacle as the first boot option (Boot0001)");
    assert_eq!(firmware.boot_order(), vec![1, 2, 0]);
    assert_eq!(firmware.entries[2], (1, build_option(&[9])));
}

#[test]
fn registering_again_writes_nothing() {
    let mut firmware = Firmware::new(&[(0x1a, vec![1; 40])], None);
    firmware.register(&[9]);
    let writes = firmware.writes;
    let record = firmware.register(&[9]);
    assert_eq!(firmware.writes, writes);
    assert_eq!(record.level, Level::Debug);
    assert_eq!(record.message, "pinnacle is already the first boot option (Boot0000)");
}

#[test]
fn stale_duplicates_are_purged() {
    let mut firmware = Firmware::new(
        &[(1, build_option(&[1])), (2, vec![7; 30]), (3, build_option(&[9])), (4, build_option(&[4]))],
        Some(&[1, 2, 3, 4]),
    );
    let record = firmware.register(&[9]);
    assert_eq!(record.message, "set pinnacle as the first boot option (Boot0003)");
    assert_eq!(firmware.boot_order(), vec![3, 2]);
    assert_eq!(firmware.entries, vec![(2, vec![7; 30]), (3, build_option(&[9]))]);
}

#[test]
fn an_entry_for_another_path_is_rewritten() {
    let mut firmware = Firmware::new(&[(5, build_option(&[1]))], Some(&[5]));
    let record = firmware.register(&[9]);
    assert_eq!(record.message, "set pinnacle as the first boot option (Boot0005)");
    assert_eq!(firmware.entries, vec![(5, build_option(&[9]))]);
    assert_eq!(firmware.writes, 1);
}

fn failure(state: Install) -> (Level, String) {
    match state {
        Install::Done { record } => (record.level, record.message),
        _ => panic!("the registration is over"),
    }
}

#[test]
fn failures_are_logged() {
    let empty = Scan { ours: Vec::new(), used: Vec::new() };
    assert_eq!(
        failure(ensure_first(Err(Status(NOT_FOUND)), &empty)),
        (
            Level::Warn,
            String::from("could not make pinnacle the first boot option: UEFI Error NOT_FOUND: ()")
        )
    );
    let full = Scan { ours: Vec::new(), used: (0..=u16::MAX).collect() };
    assert_eq!(
        failure(ensure_first(Ok(vec![9]), &full)).1,
        "could not make pinnacle the first boot option: UEFI Error OUT_OF_RESOURCES: ()"
    );
    let state = ensure_first(Ok(vec![9]), &empty);
    let refused = install(state, InstallEvent::Performed(Err(Status(DEVICE_ERROR))));
    assert_eq!(
        failure(refused).1,
        "could not make pinnacle the first boot option: UEFI Error DEVICE_ERROR: ()"
    );
}

#[test]
fn a_failed_registration_spares_the_entries_of_others() {
    let theirs = (2, vec![7; 30]);
    let entries =
        [(1, build_option(&[1])), theirs.clone(), (3, build_option(&[3])), (4, build_option(&[4]))];
    // One write of the entry, two deletions, one write of the order.
    for good in 0..4 {
        let mut firmware = Firmware::new(&entries, Some(&[1, 2, 3, 4]));
        let record = firmware.register_until(&[9], good);
        assert_eq!(record.level, Level::Warn);
        assert_eq!(firmware.writes, good);
        assert!(firmware.entries.contains(&theirs));
        assert_eq!(firmware.boot_order(), vec![1, 2, 3, 4]);
    }
    let mut firmware = Firmware::new(&entries, Some(&[1, 2, 3, 4]));
    let record = firmware.register_until(&[9], 4);
    assert_eq!(record.level, Level::Info);
    assert_eq!(firmware.boot_order(), vec![4, 2]);
    assert!(firmware.entries.contains(&theirs));
}
