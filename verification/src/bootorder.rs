//! Register pinnacle as the first UEFI boot option so the PIN gate is the default
//! on every subsequent boot. Best-effort: NVRAM-variable failures are logged and
//! never abort the boot.

use vstd::prelude::*;

use crate::bootentry::Entry;
use crate::bootentry::EntryView;
use crate::bootentry::Scan;
use crate::bootentry::ScanView;
use crate::bootentry::build_option;
use crate::bootentry::first_free;
use crate::bootentry::free_from;
use crate::bootentry::is_listed;
use crate::bootentry::law_free_index_is_the_lowest;
use crate::bootentry::load_option;
use crate::bootentry::same_bytes;
use crate::bytes::law_le_numbers_add_up;
use crate::bytes::le16_bytes;
use crate::bytes::le16s;
use crate::bytes::le_number;
use crate::bytes::read_le16;
use crate::log::Level;
use crate::log::Record;
use crate::log::RecordView;
use crate::status::OUT_OF_RESOURCES;
use crate::status::Status;
use crate::status::error_text;
use crate::text::hex4;
use crate::text::push_hex4;
use crate::ucs2::code_units;
use crate::ucs2::representable;
use crate::ucs2::to_ucs2;

verus! {

/// The name of the `BootOrder` global variable: a little-endian array of
/// `Boot####` indices.
pub const BOOT_ORDER: &'static str = "BootOrder";

/// The name of the `BootOrder` variable, with its NUL terminator.
pub fn order_name() -> (name: Vec<u16>)
    ensures
        name@ == code_units(BOOT_ORDER@).push(0),
{
    proof {
        reveal_strlit("BootOrder");
        assert(representable(BOOT_ORDER@));
    }
    match to_ucs2(BOOT_ORDER) {
        Ok(name) => name,
        Err(_) => Vec::new(),
    }
}

/// Non-volatile so the entry persists, with boot-service and runtime access as
/// UEFI requires for the `Boot####`/`BootOrder` variables.
pub const ATTRS: u32 = 0x0000_0007;

/// The indices in the value of `BootOrder`. An odd byte at the end is ignored.
pub open spec fn order_of(bytes: Seq<u8>) -> Seq<u16> {
    Seq::new(bytes.len() / 2, |i: int| le_number(bytes, 2 * i, 2) as u16)
}

/// The indices in `BootOrder`, none where it cannot be read.
pub open spec fn current_order(bytes: Option<Seq<u8>>) -> Seq<u16> {
    match bytes {
        Some(b) => order_of(b),
        None => Seq::empty(),
    }
}

/// Decode the value of `BootOrder`.
pub fn read_boot_order(data: Option<&[u8]>) -> (order: Vec<u16>)
    ensures
        order@ == current_order(
            match data {
                Some(d) => Some(d@),
                None => None,
            },
        ),
{
    let mut order: Vec<u16> = Vec::new();
    if let Some(bytes) = data {
        let count: usize = bytes.len() / 2;
        let mut i: usize = 0;
        while i < count
            invariant
                i <= count,
                count == bytes.len() / 2,
                order@ == order_of(bytes@).take(i as int),
            decreases count - i,
        {
            order.push(read_le16(bytes, 2 * i));
            i = i + 1;
            assert(order@ =~= order_of(bytes@).take(i as int));
        }
        assert(order@ =~= order_of(bytes@));
    }
    order
}

/// Encode indices as the value of `BootOrder`.
pub fn write_boot_order(order: &[u16]) -> (bytes: Vec<u8>)
    ensures
        bytes@ == le16s(order@),
{
    let mut bytes: Vec<u8> = Vec::new();
    let mut i: usize = 0;
    while i < order.len()
        invariant
            i <= order.len(),
            bytes@ == le16s(order@.take(i as int)),
        decreases order.len() - i,
    {
        let unit: [u8; 2] = le16_bytes(order[i]);
        bytes.extend_from_slice(unit.as_slice());
        i = i + 1;
        assert(bytes@ =~= le16s(order@.take(i as int)));
    }
    assert(order@.take(i as int) =~= order@);
    bytes
}

/// A boot order that is written reads back.
pub proof fn law_boot_order_reads_back(order: Seq<u16>)
    ensures
        order_of(le16s(order)) == order,
{
    let bytes = le16s(order);
    assert forall|i: int| 0 <= i < order.len() implies order_of(bytes)[i] == order[i] by {
        reveal_with_fuel(le_number, 3);
        assert(bytes[2 * i] == (order[i] % 256) as u8);
        assert(bytes[2 * i + 1] == (order[i] / 256) as u8);
    }
    assert(order_of(bytes) =~= order);
}

/// What is to become of the boot entries.
pub struct Plan {
    /// The entry that is kept.
    pub number: u16,
    /// Whether it has to be written.
    pub write: bool,
    /// Stale duplicates of it, in the order in which they are deleted.
    pub purge: Vec<u16>,
}

/// [`Plan`] with the duplicates as a sequence.
pub struct PlanView {
    pub number: u16,
    pub write: bool,
    pub purge: Seq<u16>,
}

impl View for Plan {
    type V = PlanView;

    open spec fn view(&self) -> PlanView {
        PlanView { number: self.number, write: self.write, purge: self.purge@ }
    }
}

/// The first entry from `from` on that holds the given option.
pub open spec fn matching_entry(ours: Seq<EntryView>, desired: Seq<u8>, from: int) -> Option<int>
    decreases ours.len() - from,
{
    if from < 0 || from >= ours.len() {
        None
    } else if ours[from].option == desired {
        Some(from)
    } else {
        matching_entry(ours, desired, from + 1)
    }
}

/// The indices of a list of entries.
pub open spec fn numbers(ours: Seq<EntryView>) -> Seq<u16> {
    ours.map_values(|e: EntryView| e.number)
}

/// Removal of one element by moving the last into its place.
pub open spec fn swap_removed(s: Seq<u16>, i: int) -> Seq<u16> {
    s.update(i, s.last()).drop_last()
}

/// Keep one entry, preferring one that already matches to avoid a write, then any
/// that pinnacle created, then a new one, for which there may be no free index.
/// Every other pinnacle entry is a stale duplicate.
pub open spec fn plan_of(scan: ScanView, desired: Seq<u8>) -> Option<PlanView> {
    match matching_entry(scan.ours, desired, 0) {
        Some(i) => Some(
            PlanView {
                number: scan.ours[i].number,
                write: false,
                purge: swap_removed(numbers(scan.ours), i),
            },
        ),
        None => if scan.ours.len() > 0 {
            Some(
                PlanView {
                    number: scan.ours.last().number,
                    write: true,
                    purge: numbers(scan.ours).drop_last(),
                },
            )
        } else {
            match free_from(scan.used, 0) {
                Some(number) => Some(PlanView { number, write: true, purge: Seq::empty() }),
                None => None,
            }
        },
    }
}

fn find_entry(ours: &Vec<Entry>, desired: &[u8]) -> (r: Option<usize>)
    ensures
        match r {
            Some(i) => i < ours@.len() && matching_entry(
                ours@.map_values(|e: Entry| e@),
                desired@,
                0,
            ) == Some(i as int),
            None => matching_entry(ours@.map_values(|e: Entry| e@), desired@, 0) is None,
        },
{
    let ghost all = ours@.map_values(|e: Entry| e@);
    let mut i: usize = 0;
    while i < ours.len()
        invariant
            i <= ours.len(),
            all == ours@.map_values(|e: Entry| e@),
            matching_entry(all, desired@, 0) == matching_entry(all, desired@, i as int),
        decreases ours.len() - i,
    {
        assert(all[i as int] == ours@[i as int]@);
        if same_bytes(ours[i].option.as_slice(), desired) {
            return Some(i);
        }
        i = i + 1;
    }
    None
}

/// Decide what is to become of the boot entries.
pub fn plan_entries(scan: &Scan, desired: &[u8]) -> (r: Option<Plan>)
    ensures
        match r {
            Some(plan) => plan_of(scan@, desired@) == Some(plan@),
            None => plan_of(scan@, desired@) is None,
        },
{
    let mut purge: Vec<u16> = Vec::new();
    let mut i: usize = 0;
    while i < scan.ours.len()
        invariant
            i <= scan.ours.len(),
            purge@ == numbers(scan@.ours).take(i as int),
        decreases scan.ours.len() - i,
    {
        purge.push(scan.ours[i].number);
        i = i + 1;
        assert(purge@ =~= numbers(scan@.ours).take(i as int));
    }
    assert(purge@ =~= numbers(scan@.ours));
    match find_entry(&scan.ours, desired) {
        Some(index) => {
            let number: u16 = purge.swap_remove(index);
            Some(Plan { number, write: false, purge })
        },
        None => match purge.pop() {
            Some(number) => Some(Plan { number, write: true, purge }),
            None => match first_free(scan.used.as_slice()) {
                Some(number) => {
                    assert(purge@ =~= Seq::<u16>::empty());
                    Some(Plan { number, write: true, purge })
                },
                None => None,
            },
        },
    }
}

/// Our entry first, with the purged duplicates dropped.
pub open spec fn next_order(order: Seq<u16>, plan: PlanView) -> Seq<u16> {
    seq![plan.number] + order.filter(|n: u16| n != plan.number && !plan.purge.contains(n))
}

/// Put our entry first and drop the purged duplicates.
pub fn reorder(order: &[u16], plan: &Plan) -> (next: Vec<u16>)
    ensures
        next@ == next_order(order@, plan@),
{
    let ghost keep = |n: u16| n != plan@.number && !plan@.purge.contains(n);
    let mut next: Vec<u16> = Vec::new();
    next.push(plan.number);
    let mut i: usize = 0;
    proof {
        reveal(Seq::filter);
        assert(order@.take(0).filter(keep) =~= Seq::<u16>::empty());
        assert(next@ =~= seq![plan.number] + order@.take(0).filter(keep));
    }
    while i < order.len()
        invariant
            i <= order.len(),
            keep == (|n: u16| n != plan@.number && !plan@.purge.contains(n)),
            next@ == seq![plan.number] + order@.take(i as int).filter(keep),
        decreases order.len() - i,
    {
        let n: u16 = order[i];
        let ghost before = next@;
        proof {
            reveal(Seq::filter);
            assert(order@.take(i + 1).drop_last() =~= order@.take(i as int));
            assert(order@.take(i + 1).last() == n);
        }
        if n != plan.number && !is_listed(plan.purge.as_slice(), n) {
            next.push(n);
        }
        assert(next@ =~= seq![plan.number] + order@.take(i + 1).filter(keep));
        i = i + 1;
    }
    assert(order@.take(i as int) =~= order@);
    next
}

fn same_order(a: &[u16], b: &[u16]) -> (r: bool)
    ensures
        r == (a@ == b@),
{
    if a.len() != b.len() {
        return false;
    }
    let mut i: usize = 0;
    while i < a.len()
        invariant
            i <= a.len(),
            a@.len() == b@.len(),
            forall|j: int| 0 <= j < i ==> a@[j] == b@[j],
        decreases a.len() - i,
    {
        if a[i] != b[i] {
            assert(a@[i as int] != b@[i as int]);
            return false;
        }
        i = i + 1;
    }
    assert(a@ =~= b@);
    true
}

/// Progress of the registration. Each variant but the last names the one access to
/// the firmware variables that is to be made next.
pub enum Install {
    /// Write the option to the entry of the plan.
    WriteEntry { desired: Vec<u8>, plan: Plan },
    /// Delete the duplicate at the given place in the plan.
    DeleteEntry { plan: Plan, at: usize },
    /// Read `BootOrder`.
    ReadOrder { plan: Plan },
    /// Write these indices to `BootOrder`.
    WriteOrder { plan: Plan, order: Vec<u16> },
    /// All is done, and this is to be logged.
    Done { record: Record },
}

/// [`Install`] with sequences in place of vectors.
pub enum InstallView {
    WriteEntry { desired: Seq<u8>, plan: PlanView },
    DeleteEntry { plan: PlanView, at: int },
    ReadOrder { plan: PlanView },
    WriteOrder { plan: PlanView, order: Seq<u16> },
    Done { record: RecordView },
}

impl View for Install {
    type V = InstallView;

    open spec fn view(&self) -> InstallView {
        match *self {
            Install::WriteEntry { desired, plan } => InstallView::WriteEntry {
                desired: desired@,
                plan: plan@,
            },
            Install::DeleteEntry { plan, at } => InstallView::DeleteEntry {
                plan: plan@,
                at: at as int,
            },
            Install::ReadOrder { plan } => InstallView::ReadOrder { plan: plan@ },
            Install::WriteOrder { plan, order } => InstallView::WriteOrder {
                plan: plan@,
                order: order@,
            },
            Install::Done { record } => InstallView::Done { record: record@ },
        }
    }
}

impl Install {
    /// A duplicate that is to be deleted is one of the plan.
    pub open spec fn wf(self) -> bool {
        self matches Install::DeleteEntry { plan, at } ==> at < plan.purge@.len()
    }
}

/// What came of the access that [`Install`] asked for.
pub enum InstallEvent {
    /// A write or a deletion succeeded or failed.
    Performed(Result<(), Status>),
    /// The value of `BootOrder`, `None` where it cannot be read.
    Order(Option<Vec<u8>>),
}

/// [`InstallEvent`] with the value as a sequence.
pub enum InstallEventView {
    Performed(Result<(), Status>),
    Order(Option<Seq<u8>>),
}

impl View for InstallEvent {
    type V = InstallEventView;

    open spec fn view(&self) -> InstallEventView {
        match *self {
            InstallEvent::Performed(result) => InstallEventView::Performed(result),
            InstallEvent::Order(Some(bytes)) => InstallEventView::Order(Some(bytes@)),
            InstallEvent::Order(None) => InstallEventView::Order(None),
        }
    }
}

/// Whether the event is of the kind that was asked for.
pub open spec fn answers(state: InstallView, event: InstallEventView) -> bool {
    match state {
        InstallView::ReadOrder { .. } => event is Order,
        InstallView::Done { .. } => true,
        _ => event matches InstallEventView::Performed(result) && (result matches Err(status)
            ==> status.is_failure()),
    }
}

/// The log record of a registration that failed.
pub open spec fn failure_record(status: Status) -> RecordView {
    RecordView {
        level: Level::Warn,
        message: "could not make pinnacle the first boot option: "@ + error_text(status),
    }
}

/// The log record of a registration that succeeded.
pub open spec fn success_record(number: u16, changed: bool) -> RecordView {
    if changed {
        RecordView {
            level: Level::Info,
            message: "set pinnacle as the first boot option (Boot"@ + hex4(number) + ")"@,
        }
    } else {
        RecordView {
            level: Level::Debug,
            message: "pinnacle is already the first boot option (Boot"@ + hex4(number) + ")"@,
        }
    }
}

/// The step once the kept entry is in place and `at` duplicates are gone.
pub open spec fn purge_from(plan: PlanView, at: int) -> InstallView {
    if at < plan.purge.len() {
        InstallView::DeleteEntry { plan, at }
    } else {
        InstallView::ReadOrder { plan }
    }
}

/// The first step of the registration for an image with the given boot path.
pub open spec fn first_step(path: Result<Seq<u8>, Status>, scan: ScanView) -> InstallView {
    match path {
        Err(status) => InstallView::Done { record: failure_record(status) },
        Ok(p) => match plan_of(scan, load_option(p)) {
            None => InstallView::Done { record: failure_record(Status(OUT_OF_RESOURCES)) },
            Some(plan) => if plan.write {
                InstallView::WriteEntry { desired: load_option(p), plan }
            } else {
                purge_from(plan, 0)
            },
        },
    }
}

/// The step after an event. The first failure ends the registration.
pub open spec fn install_step(state: InstallView, event: InstallEventView) -> InstallView {
    match (state, event) {
        (InstallView::Done { .. }, _) => state,
        (_, InstallEventView::Performed(Err(status))) => InstallView::Done {
            record: failure_record(status),
        },
        (InstallView::WriteEntry { plan, .. }, _) => purge_from(plan, 0),
        (InstallView::DeleteEntry { plan, at }, _) => purge_from(plan, at + 1),
        (InstallView::ReadOrder { plan }, InstallEventView::Order(bytes)) => {
            let order = current_order(bytes);
            if next_order(order, plan) != order {
                InstallView::WriteOrder { plan, order: next_order(order, plan) }
            } else {
                InstallView::Done {
                    record: success_record(plan.number, plan.write || plan.purge.len() > 0),
                }
            }
        },
        (InstallView::WriteOrder { plan, .. }, _) => InstallView::Done {
            record: success_record(plan.number, true),
        },
        (_, _) => state,
    }
}

fn failed(status: Status) -> (state: Install)
    requires
        status.is_failure(),
    ensures
        state@ == (InstallView::Done { record: failure_record(status) }),
{
    let mut message = String::new();
    message.append("could not make pinnacle the first boot option: ");
    let error: String = status.describe_error();
    message.append(error.as_str());
    assert(message@ =~= failure_record(status).message);
    Install::Done { record: Record { level: Level::Warn, message } }
}

fn succeeded(number: u16, changed: bool) -> (state: Install)
    ensures
        state@ == (InstallView::Done { record: success_record(number, changed) }),
{
    let mut message = String::new();
    if changed {
        message.append("set pinnacle as the first boot option (Boot");
    } else {
        message.append("pinnacle is already the first boot option (Boot");
    }
    push_hex4(&mut message, number);
    message.append(")");
    assert(message@ =~= success_record(number, changed).message);
    let level: Level = if changed {
        Level::Info
    } else {
        Level::Debug
    };
    Install::Done { record: Record { level, message } }
}

fn purge_next(plan: Plan, at: usize) -> (state: Install)
    ensures
        state@ == purge_from(plan@, at as int),
{
    if at < plan.purge.len() {
        Install::DeleteEntry { plan, at }
    } else {
        Install::ReadOrder { plan }
    }
}

/// Start to ensure that a `Boot####` entry for this image exists and is first in
/// `BootOrder`: from the full device path that boots this image, or the failure to
/// find it, and the boot entries there are.
pub fn ensure_first(path: Result<Vec<u8>, Status>, scan: &Scan) -> (state: Install)
    requires
        path matches Err(status) ==> status.is_failure(),
    ensures
        state@ == first_step(
            match path {
                Ok(p) => Ok(p@),
                Err(status) => Err(status),
            },
            scan@,
        ),
        state.wf(),
{
    let path: Vec<u8> = match path {
        Ok(p) => p,
        Err(status) => {
            return failed(status);
        },
    };
    let desired: Vec<u8> = build_option(path.as_slice());
    match plan_entries(scan, desired.as_slice()) {
        None => {
            assert(OUT_OF_RESOURCES as usize != 0) by (bit_vector);
            failed(Status(OUT_OF_RESOURCES))
        },
        Some(plan) => if plan.write {
            Install::WriteEntry { desired, plan }
        } else {
            purge_next(plan, 0)
        },
    }
}

/// Go on with the registration after the access that was asked for. Any failure is
/// logged but does not stop pinnacle.
pub fn install(state: Install, event: InstallEvent) -> (next: Install)
    requires
        answers(state@, event@),
        state.wf(),
    ensures
        next@ == install_step(state@, event@),
        next.wf(),
{
    match (state, event) {
        (Install::Done { record }, _) => Install::Done { record },
        (_, InstallEvent::Performed(Err(status))) => failed(status),
        (Install::WriteEntry { plan, desired: _ }, _) => purge_next(plan, 0),
        (Install::DeleteEntry { plan, at }, _) => {
            assert(at < plan.purge.len());
            purge_next(plan, at + 1)
        },
        (Install::ReadOrder { plan }, InstallEvent::Order(bytes)) => {
            let order: Vec<u16> = match &bytes {
                Some(b) => read_boot_order(Some(b.as_slice())),
                None => read_boot_order(None),
            };
            let next: Vec<u16> = reorder(order.as_slice(), &plan);
            if !same_order(next.as_slice(), order.as_slice()) {
                Install::WriteOrder { plan, order: next }
            } else {
                let changed: bool = plan.write || plan.purge.len() > 0;
                succeeded(plan.number, changed)
            }
        },
        (Install::WriteOrder { plan, order: _ }, _) => succeeded(plan.number, true),
        (other, _) => other,
    }
}

/// The boot order that is read is every pair of bytes, and only an odd byte at the end
/// is left out.
pub proof fn law_boot_order_takes_every_pair(bytes: Seq<u8>, i: int)
    requires
        0 <= i < bytes.len() / 2,
    ensures
        current_order(Some(bytes)).len() == bytes.len() / 2,
        current_order(Some(bytes))[i] == bytes[2 * i] + 256 * bytes[2 * i + 1],
{
    law_le_numbers_add_up(bytes, 2 * i);
}

/// A boot order that cannot be read, or that is shorter than a pair, is empty.
pub proof fn law_missing_boot_order_is_empty(bytes: Seq<u8>)
    requires
        bytes.len() < 2,
    ensures
        current_order(None).len() == 0,
        current_order(Some(bytes)).len() == 0,
{
}

/// The entry that matches is the first one that holds exactly the option, wherever it
/// is listed.
pub proof fn law_matching_entry_is_the_first(ours: Seq<EntryView>, desired: Seq<u8>, i: int)
    ensures
        matching_entry(ours, desired, 0) == Some(i) <==> {
            &&& 0 <= i < ours.len()
            &&& ours[i].option == desired
            &&& forall|j: int| 0 <= j < i ==> (#[trigger] ours[j]).option != desired
        },
        matching_entry(ours, desired, 0) is None <==> forall|j: int|
            0 <= j < ours.len() ==> (#[trigger] ours[j]).option != desired,
{
    lemma_matching_entry(ours, desired, 0);
    if matching_entry(ours, desired, 0) is Some {
        let k = matching_entry(ours, desired, 0)->0;
        assert(ours[k].option == desired);
    }
}

proof fn lemma_matching_entry(ours: Seq<EntryView>, desired: Seq<u8>, from: int)
    requires
        0 <= from,
    ensures
        match matching_entry(ours, desired, from) {
            Some(k) => from <= k < ours.len() && ours[k].option == desired && forall|j: int|
                from <= j < k ==> (#[trigger] ours[j]).option != desired,
            None => forall|j: int|
                from <= j < ours.len() ==> (#[trigger] ours[j]).option != desired,
        },
    decreases ours.len() - from,
{
    if from < ours.len() && ours[from].option != desired {
        lemma_matching_entry(ours, desired, from + 1);
    }
}

/// Where an entry matches, it is kept unwritten and all the others are purged: the last
/// one takes its place in the list, and the rest stay where they are.
pub proof fn law_matching_entry_is_kept(scan: ScanView, desired: Seq<u8>, i: int)
    requires
        0 <= i < scan.ours.len(),
        scan.ours[i].option == desired,
        forall|j: int| 0 <= j < i ==> (#[trigger] scan.ours[j]).option != desired,
    ensures
        plan_of(scan, desired) is Some,
        ({
            let plan = plan_of(scan, desired)->0;
            &&& plan.number == scan.ours[i].number
            &&& !plan.write
            &&& plan.purge.len() == scan.ours.len() - 1
            &&& forall|k: int|
                0 <= k < plan.purge.len() ==> #[trigger] plan.purge[k] == (if k == i {
                    scan.ours.last().number
                } else {
                    scan.ours[k].number
                })
        }),
{
    law_matching_entry_is_the_first(scan.ours, desired, i);
}

/// Where no entry matches, the last one of ours is rewritten and all before it are
/// purged. Where there is none, the lowest free index is written; that fails only if
/// all are in use.
pub proof fn law_other_plans_write(scan: ScanView, desired: Seq<u8>)
    requires
        forall|j: int| 0 <= j < scan.ours.len() ==> (#[trigger] scan.ours[j]).option != desired,
    ensures
        scan.ours.len() > 0 ==> plan_of(scan, desired) is Some && ({
            let plan = plan_of(scan, desired)->0;
            &&& plan.number == scan.ours[scan.ours.len() - 1].number
            &&& plan.write
            &&& plan.purge.len() == scan.ours.len() - 1
            &&& forall|k: int|
                0 <= k < plan.purge.len() ==> #[trigger] plan.purge[k] == scan.ours[k].number
        }),
        scan.ours.len() == 0 ==> match plan_of(scan, desired) {
            Some(plan) => plan.write && plan.purge.len() == 0 && !scan.used.contains(plan.number)
                && forall|m: u16| m < plan.number ==> scan.used.contains(m),
            None => forall|m: u16| scan.used.contains(m),
        },
{
    law_matching_entry_is_the_first(scan.ours, desired, 0);
    match free_from(scan.used, 0) {
        Some(n) => {
            law_free_index_is_the_lowest(scan.used, n);
        },
        None => {
            law_free_index_is_the_lowest(scan.used, 0);
        },
    }
}

/// How one index more changes the new order: it is appended, unless it is that of the
/// kept entry or of a purged one. The kept entry comes first in any case.
pub proof fn law_new_order_keeps_the_others(order: Seq<u16>, last: u16, plan: PlanView)
    ensures
        next_order(Seq::empty(), plan) == seq![plan.number],
        last != plan.number && !plan.purge.contains(last) ==> next_order(order.push(last), plan)
            == next_order(order, plan).push(last),
        last == plan.number || plan.purge.contains(last) ==> next_order(order.push(last), plan)
            == next_order(order, plan),
{
    reveal(Seq::filter);
    let keep = |n: u16| n != plan.number && !plan.purge.contains(n);
    let none = Seq::<u16>::empty();
    assert(none.filter(keep) =~= none);
    assert(next_order(none, plan) =~= seq![plan.number]);
    assert(order.push(last).drop_last() =~= order);
    if keep(last) {
        assert(next_order(order.push(last), plan) =~= next_order(order, plan).push(last));
    }
}

/// What is logged in the end: every failure with its status, and every success with its
/// index and whether anything was changed.
pub proof fn law_outcomes_are_logged(status: Status, number: u16)
    ensures
        failure_record(status) == (RecordView {
            level: Level::Warn,
            message: "could not make pinnacle the first boot option: "@ + error_text(status),
        }),
        success_record(number, true) == (RecordView {
            level: Level::Info,
            message: "set pinnacle as the first boot option (Boot"@ + hex4(number) + ")"@,
        }),
        success_record(number, false) == (RecordView {
            level: Level::Debug,
            message: "pinnacle is already the first boot option (Boot"@ + hex4(number) + ")"@,
        }),
{
}

/// How the registration starts: without a path or a free index it has failed; else the
/// entry is written if the plan says so, and the duplicates come next, if there are any.
pub proof fn law_registration_starts_with_the_plan(
    path: Seq<u8>,
    status: Status,
    scan: ScanView,
)
    ensures
        first_step(Err(status), scan) == (InstallView::Done { record: failure_record(status) }),
        match plan_of(scan, load_option(path)) {
            None => first_step(Ok(path), scan) == (InstallView::Done {
                record: failure_record(Status(OUT_OF_RESOURCES)),
            }),
            Some(plan) => {
                &&& plan.write ==> first_step(Ok(path), scan) == (InstallView::WriteEntry {
                    desired: load_option(path),
                    plan,
                })
                &&& !plan.write && plan.purge.len() > 0 ==> first_step(Ok(path), scan) == (
                InstallView::DeleteEntry { plan, at: 0 })
                &&& !plan.write && plan.purge.len() == 0 ==> first_step(Ok(path), scan) == (
                InstallView::ReadOrder { plan })
            },
        },
{
}

/// How the registration goes on where an access succeeded: one duplicate after the
/// other is deleted, all of them, then the order is read, and it is written if it has
/// to change. What changed at all is what is logged.
pub proof fn law_registration_goes_through_the_plan(
    plan: PlanView,
    desired: Seq<u8>,
    at: int,
    order: Seq<u16>,
    bytes: Option<Seq<u8>>,
)
    requires
        0 <= at < plan.purge.len(),
    ensures
        ({
            let done = InstallEventView::Performed(Ok(()));
            let now = current_order(bytes);
            let next = next_order(now, plan);
            &&& install_step(InstallView::WriteEntry { desired, plan }, done) == (
            InstallView::DeleteEntry { plan, at: 0 })
            &&& install_step(InstallView::DeleteEntry { plan, at }, done) == (if at + 1
                < plan.purge.len() {
                InstallView::DeleteEntry { plan, at: at + 1 }
            } else {
                InstallView::ReadOrder { plan }
            })
            &&& install_step(
                InstallView::ReadOrder { plan },
                InstallEventView::Order(bytes),
            ) == (if next != now {
                InstallView::WriteOrder { plan, order: next }
            } else {
                InstallView::Done { record: success_record(plan.number, true) }
            })
            &&& install_step(InstallView::WriteOrder { plan, order }, done) == (InstallView::Done {
                record: success_record(plan.number, true),
            })
        }),
{
}

/// The same without duplicates: the order is read at once, and where nothing was
/// written either, that is what is logged.
pub proof fn law_registration_without_duplicates(
    plan: PlanView,
    desired: Seq<u8>,
    order: Seq<u16>,
    bytes: Option<Seq<u8>>,
)
    requires
        plan.purge.len() == 0,
    ensures
        ({
            let done = InstallEventView::Performed(Ok(()));
            let now = current_order(bytes);
            let next = next_order(now, plan);
            &&& install_step(InstallView::WriteEntry { desired, plan }, done) == (
            InstallView::ReadOrder { plan })
            &&& install_step(
                InstallView::ReadOrder { plan },
                InstallEventView::Order(bytes),
            ) == (if next != now {
                InstallView::WriteOrder { plan, order: next }
            } else {
                InstallView::Done { record: success_record(plan.number, plan.write) }
            })
            &&& install_step(InstallView::WriteOrder { plan, order }, done) == (InstallView::Done {
                record: success_record(plan.number, true),
            })
        }),
{
}

/// The first failure of any access ends the registration, and is logged with its
/// status; an ended registration stays as it is.
pub proof fn law_first_failure_ends_the_registration(
    state: InstallView,
    status: Status,
    event: InstallEventView,
)
    ensures
        !(state is Done) ==> install_step(state, InstallEventView::Performed(Err(status))) == (
        InstallView::Done { record: failure_record(status) }),
        state is Done ==> install_step(state, event) == state,
{
}

/// Plans, steps and events are seen as they are.
pub proof fn law_install_views_keep_everything(plan: Plan, state: Install, event: InstallEvent)
    ensures
        plan@.number == plan.number,
        plan@.write == plan.write,
        plan@.purge == plan.purge@,
        state matches Install::WriteEntry { desired, plan: p } ==> state@ == (
        InstallView::WriteEntry { desired: desired@, plan: p@ }),
        state matches Install::DeleteEntry { plan: p, at } ==> state@ == (
        InstallView::DeleteEntry { plan: p@, at: at as int }),
        state matches Install::ReadOrder { plan: p } ==> state@ == (InstallView::ReadOrder {
            plan: p@,
        }),
        state matches Install::WriteOrder { plan: p, order } ==> state@ == (
        InstallView::WriteOrder { plan: p@, order: order@ }),
        state matches Install::Done { record } ==> state@ == (InstallView::Done {
            record: record@,
        }),
        event matches InstallEvent::Performed(result) ==> event@ == InstallEventView::Performed(
            result,
        ),
        event matches InstallEvent::Order(Some(bytes)) ==> event@ == InstallEventView::Order(
            Some(bytes@),
        ),
        event matches InstallEvent::Order(None) ==> event@ == InstallEventView::Order(None),
{
}

} // verus!
