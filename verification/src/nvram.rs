//! What registering as the first boot option makes of the firmware variables.

use vstd::prelude::*;

use crate::bootentry::EntryView;
use crate::bootentry::ScanView;
use crate::bootentry::VariableView;
use crate::bootentry::boot_name;
use crate::bootentry::entry_index;
use crate::bootentry::free_from;
use crate::bootentry::law_built_options_are_ours;
use crate::bootentry::load_option;
use crate::bootentry::ours;
use crate::bootentry::own_entry;
use crate::bootentry::scan_of;
use crate::bootorder::InstallEventView;
use crate::bootorder::InstallView;
use crate::bootorder::PlanView;
use crate::bootorder::current_order;
use crate::bootorder::first_step;
use crate::bootorder::install_step;
use crate::bootorder::law_boot_order_reads_back;
use crate::bootorder::matching_entry;
use crate::bootorder::next_order;
use crate::bootorder::numbers;
use crate::bootorder::plan_of;
use crate::bootorder::purge_from;
use crate::bootorder::success_record;
use crate::bootorder::swap_removed;
use crate::bytes::le16s;
use crate::status::Status;
use crate::ucs2::code_units;

verus! {

/// The boot entries by index, and the value of `BootOrder`. An index stands for the one
/// variable that is written for it, `Boot` and four uppercase digits (`boot_name`).
/// The firmware tells names apart by case, so a variable whose name has lowercase
/// digits is none of these entries, though it is read as having the same index.
#[verifier::ext_equal]
pub struct Nvram {
    pub entries: Map<u16, Seq<u8>>,
    pub order: Option<Seq<u8>>,
}

/// The variables after the access that the registration asks for succeeded.
pub open spec fn after_access(nvram: Nvram, state: InstallView) -> Nvram {
    match state {
        InstallView::WriteEntry { desired, plan } => Nvram {
            entries: nvram.entries.insert(plan.number, desired),
            order: nvram.order,
        },
        InstallView::DeleteEntry { plan, at } => Nvram {
            entries: nvram.entries.remove(plan.purge[at]),
            order: nvram.order,
        },
        InstallView::WriteOrder { order, .. } => Nvram {
            entries: nvram.entries,
            order: Some(le16s(order)),
        },
        _ => nvram,
    }
}

/// What a successful access answers.
pub open spec fn answer(nvram: Nvram, state: InstallView) -> InstallEventView {
    match state {
        InstallView::ReadOrder { .. } => InstallEventView::Order(nvram.order),
        _ => InstallEventView::Performed(Ok(())),
    }
}

/// A bound on the accesses that are still to come.
pub open spec fn accesses_left(state: InstallView) -> nat {
    match state {
        InstallView::WriteEntry { plan, .. } => plan.purge.len() + 3,
        InstallView::DeleteEntry { plan, at } => if at < plan.purge.len() {
            (plan.purge.len() - at + 2) as nat
        } else {
            3
        },
        InstallView::ReadOrder { .. } => 2,
        InstallView::WriteOrder { .. } => 1,
        InstallView::Done { .. } => 0,
    }
}

/// The variables, and the final step, once a registration whose every access
/// succeeds has run to its end.
#[verifier::opaque]
pub open spec fn run_install(nvram: Nvram, state: InstallView) -> (Nvram, InstallView)
    decreases accesses_left(state),
{
    if state is Done {
        (nvram, state)
    } else {
        run_install(after_access(nvram, state), install_step(state, answer(nvram, state)))
    }
}

/// Whether a scan lists the boot entries: each index in use, and once each entry
/// that pinnacle created. A scan that met an index under another name lists more.
pub open spec fn lists_entries(scan: ScanView, entries: Map<u16, Seq<u8>>) -> bool {
    &&& forall|n: u16| scan.used.contains(n) <==> entries.contains_key(n)
    &&& numbers(scan.ours).no_duplicates()
    &&& forall|i: int|
        0 <= i < scan.ours.len() ==> {
            let e = #[trigger] scan.ours[i];
            entries.contains_key(e.number) && entries[e.number] == e.option && ours(e.option)
        }
    &&& forall|n: u16| #[trigger]
        entries.contains_key(n) && ours(entries[n]) ==> numbers(scan.ours).contains(n)
}

/// The entries without the listed ones.
pub open spec fn without(entries: Map<u16, Seq<u8>>, purge: Seq<u16>) -> Map<u16, Seq<u8>> {
    entries.remove_keys(purge.to_set())
}

proof fn lemma_run_step(nvram: Nvram, state: InstallView)
    ensures
        state is Done ==> run_install(nvram, state) == (nvram, state),
        !(state is Done) ==> run_install(nvram, state) == run_install(
            after_access(nvram, state),
            install_step(state, answer(nvram, state)),
        ),
{
    reveal(run_install);
}

proof fn lemma_purge_runs(nvram: Nvram, plan: PlanView, at: int)
    requires
        0 <= at <= plan.purge.len(),
    ensures
        run_install(nvram, purge_from(plan, at)) == run_install(
            Nvram {
                entries: without(nvram.entries, plan.purge.skip(at)),
                order: nvram.order,
            },
            InstallView::ReadOrder { plan },
        ),
    decreases plan.purge.len() - at,
{
    if at < plan.purge.len() {
        let state = purge_from(plan, at);
        let next = after_access(nvram, state);
        lemma_run_step(nvram, state);
        lemma_purge_runs(next, plan, at + 1);
        let here = plan.purge.skip(at);
        let rest = plan.purge.skip(at + 1);
        assert(here.to_set() =~= rest.to_set().insert(plan.purge[at])) by {
            assert forall|x: u16| here.contains(x) implies x == plan.purge[at] || rest.contains(
                x,
            ) by {
                let i = choose|i: int| 0 <= i < here.len() && here[i] == x;
                if i > 0 {
                    assert(rest[i - 1] == x);
                }
            }
            assert forall|x: u16| rest.contains(x) implies here.contains(x) by {
                let i = choose|i: int| 0 <= i < rest.len() && rest[i] == x;
                assert(here[i + 1] == x);
            }
            assert(here[0] == plan.purge[at]);
        }
        assert(without(next.entries, plan.purge.skip(at + 1)) =~= without(
            nvram.entries,
            plan.purge.skip(at),
        ));
    } else {
        assert(without(nvram.entries, plan.purge.skip(at)) =~= nvram.entries);
    }
}

/// The variables that a plan leads to.
pub open spec fn installed(nvram: Nvram, plan: PlanView, desired: Seq<u8>) -> Nvram {
    Nvram {
        entries: without(
            if plan.write {
                nvram.entries.insert(plan.number, desired)
            } else {
                nvram.entries
            },
            plan.purge,
        ),
        order: if reorders(nvram, plan) {
            Some(le16s(next_order(current_order(nvram.order), plan)))
        } else {
            nvram.order
        },
    }
}

/// Whether a plan changes `BootOrder`.
pub open spec fn reorders(nvram: Nvram, plan: PlanView) -> bool {
    next_order(current_order(nvram.order), plan) != current_order(nvram.order)
}

proof fn lemma_order_runs(nvram: Nvram, plan: PlanView)
    ensures
        run_install(nvram, InstallView::ReadOrder { plan }) == (
            Nvram {
                entries: nvram.entries,
                order: if reorders(nvram, plan) {
                    Some(le16s(next_order(current_order(nvram.order), plan)))
                } else {
                    nvram.order
                },
            },
            InstallView::Done {
                record: success_record(
                    plan.number,
                    plan.write || plan.purge.len() > 0 || reorders(nvram, plan),
                ),
            },
        ),
{
    let reading = InstallView::ReadOrder { plan };
    let next = install_step(reading, answer(nvram, reading));
    lemma_run_step(nvram, reading);
    lemma_run_step(nvram, next);
    if reorders(nvram, plan) {
        let done = InstallView::Done { record: success_record(plan.number, true) };
        let written = after_access(nvram, next);
        assert(install_step(next, answer(nvram, next)) == done);
        lemma_run_step(written, done);
    }
}

proof fn lemma_install_runs(nvram: Nvram, scan: ScanView, path: Seq<u8>)
    requires
        plan_of(scan, load_option(path)) is Some,
    ensures
        ({
            let plan = plan_of(scan, load_option(path))->0;
            run_install(nvram, first_step(Ok(path), scan)) == (
                installed(nvram, plan, load_option(path)),
                InstallView::Done {
                    record: success_record(
                        plan.number,
                        plan.write || plan.purge.len() > 0 || reorders(nvram, plan),
                    ),
                },
            )
        }),
{
    let desired = load_option(path);
    let plan = plan_of(scan, desired)->0;
    let start = first_step(Ok(path), scan);
    let kept = if plan.write {
        after_access(nvram, start)
    } else {
        nvram
    };
    if plan.write {
        assert(install_step(start, answer(nvram, start)) == purge_from(plan, 0));
        lemma_run_step(nvram, start);
    }
    lemma_purge_runs(kept, plan, 0);
    assert(plan.purge.skip(0) =~= plan.purge);
    lemma_order_runs(
        Nvram { entries: without(kept.entries, plan.purge), order: nvram.order },
        plan,
    );
}

proof fn lemma_first_match(scanned: Seq<EntryView>, desired: Seq<u8>, from: int)
    requires
        0 <= from,
    ensures
        match matching_entry(scanned, desired, from) {
            Some(i) => from <= i < scanned.len() && scanned[i].option == desired,
            None => forall|j: int|
                from <= j < scanned.len() ==> (#[trigger] scanned[j]).option != desired,
        },
    decreases scanned.len() - from,
{
    if from < scanned.len() && scanned[from].option != desired {
        lemma_first_match(scanned, desired, from + 1);
    }
}

proof fn lemma_swap_removed(s: Seq<u16>, i: int)
    requires
        0 <= i < s.len(),
        s.no_duplicates(),
    ensures
        forall|n: u16| #[trigger]
            swap_removed(s, i).contains(n) <==> s.contains(n) && n != s[i],
{
    let r = swap_removed(s, i);
    assert forall|n: u16| s.contains(n) && n != s[i] implies #[trigger] r.contains(n) by {
        let j = choose|j: int| 0 <= j < s.len() && s[j] == n;
        if j == s.len() - 1 {
            assert(r[i] == n);
        } else {
            assert(r[j] == n);
        }
    }
    assert forall|n: u16| #[trigger] r.contains(n) implies s.contains(n) && n != s[i] by {
        let j = choose|j: int| 0 <= j < r.len() && r[j] == n;
        if j == i {
            assert(s[s.len() - 1] == n);
        } else {
            assert(s[j] == n);
        }
    }
}

proof fn lemma_drop_last(s: Seq<u16>)
    requires
        s.len() > 0,
        s.no_duplicates(),
    ensures
        forall|n: u16| #[trigger]
            s.drop_last().contains(n) <==> s.contains(n) && n != s.last(),
{
    let r = s.drop_last();
    assert forall|n: u16| s.contains(n) && n != s.last() implies #[trigger] r.contains(n) by {
        let j = choose|j: int| 0 <= j < s.len() && s[j] == n;
        assert(r[j] == n);
    }
    assert forall|n: u16| #[trigger] r.contains(n) implies s.contains(n) && n != s.last() by {
        let j = choose|j: int| 0 <= j < r.len() && r[j] == n;
        assert(s[j] == n);
    }
}

proof fn lemma_free_is_free(used: Seq<u16>, from: int)
    requires
        0 <= from,
    ensures
        free_from(used, from) matches Some(n) ==> !used.contains(n),
    decreases 65536 - from,
{
    if from < 65536 && used.contains(from as u16) {
        lemma_free_is_free(used, from + 1);
    }
}

proof fn lemma_plan(scan: ScanView, entries: Map<u16, Seq<u8>>, desired: Seq<u8>)
    requires
        lists_entries(scan, entries),
        plan_of(scan, desired) is Some,
    ensures
        ({
            let plan = plan_of(scan, desired)->0;
            &&& !plan.write ==> entries.contains_key(plan.number) && entries[plan.number]
                == desired
            &&& !plan.purge.contains(plan.number)
            &&& forall|n: u16| #[trigger]
                plan.purge.contains(n) ==> entries.contains_key(n) && ours(entries[n])
            &&& forall|n: u16| #[trigger]
                entries.contains_key(n) && ours(entries[n]) ==> n == plan.number
                    || plan.purge.contains(n)
            &&& entries.contains_key(plan.number) ==> ours(entries[plan.number])
        }),
{
    let plan = plan_of(scan, desired)->0;
    let all = numbers(scan.ours);
    assert forall|n: u16| #[trigger] all.contains(n) implies entries.contains_key(n) && ours(
        entries[n],
    ) by {
        let i = choose|i: int| 0 <= i < all.len() && all[i] == n;
        assert(scan.ours[i].number == n);
    }
    lemma_first_match(scan.ours, desired, 0);
    match matching_entry(scan.ours, desired, 0) {
        Some(i) => {
            lemma_swap_removed(all, i);
            assert(all[i] == plan.number && all.contains(plan.number));
            assert(scan.ours[i].option == desired);
        },
        None => {
            if scan.ours.len() > 0 {
                lemma_drop_last(all);
                assert(all[all.len() - 1] == plan.number && all.contains(plan.number));
            } else {
                lemma_free_is_free(scan.used, 0);
                assert forall|n: u16| #[trigger]
                    entries.contains_key(n) && ours(entries[n]) implies false by {
                    assert(all.contains(n));
                }
            }
        },
    }
}

proof fn lemma_filter_keeps(all: Seq<u16>, keep: spec_fn(u16) -> bool)
    requires
        all.len() > 0,
        !keep(all[0]),
        forall|i: int| 1 <= i < all.len() ==> keep(#[trigger] all[i]),
    ensures
        all.filter(keep) == all.skip(1),
    decreases all.len(),
{
    let before = all.drop_last();
    assert(all.filter(keep) == if keep(all.last()) {
        before.filter(keep).push(all.last())
    } else {
        before.filter(keep)
    }) by {
        reveal(Seq::filter);
    }
    if all.len() == 1 {
        assert(before.filter(keep) == before) by {
            reveal(Seq::filter);
        }
        assert(all.skip(1) =~= before);
    } else {
        assert(before[0] == all[0]);
        lemma_filter_keeps(before, keep);
        assert(keep(all[all.len() - 1]));
        assert(all.skip(1) =~= before.skip(1).push(all.last()));
    }
}

proof fn lemma_order_is_stable(order: Seq<u16>, number: u16)
    requires
        order.len() > 0,
        order[0] == number,
        forall|i: int| 1 <= i < order.len() ==> #[trigger] order[i] != number,
    ensures
        next_order(order, PlanView { number, write: false, purge: Seq::empty() }) == order,
{
    let plan = PlanView { number, write: false, purge: Seq::<u16>::empty() };
    let keep = |n: u16| n != plan.number && !plan.purge.contains(n);
    lemma_filter_keeps(order, keep);
    assert(seq![number] + order.skip(1) =~= order);
}

proof fn lemma_sole_entry(scan: ScanView, entries: Map<u16, Seq<u8>>, number: u16, desired: Seq<u8>)
    requires
        lists_entries(scan, entries),
        ours(desired),
        entries.contains_key(number),
        entries[number] == desired,
        forall|n: u16| #[trigger]
            entries.contains_key(n) && ours(entries[n]) ==> n == number,
    ensures
        plan_of(scan, desired) == Some(
            PlanView { number, write: false, purge: Seq::empty() },
        ),
{
    let all = numbers(scan.ours);
    assert(all.contains(number));
    assert forall|i: int| 0 <= i < all.len() implies all[i] == number by {
        assert(scan.ours[i].number == all[i]);
        assert(entries.contains_key(all[i]));
    }
    assert(all.len() == 1) by {
        if all.len() > 1 {
            assert(all[0] == all[1]);
        }
    }
    assert(scan.ours[0].number == all[0]);
    assert(matching_entry(scan.ours, desired, 0) == Some(0int));
    assert(swap_removed(all, 0) =~= Seq::<u16>::empty());
}

proof fn lemma_next_order(order: Seq<u16>, plan: PlanView)
    ensures
        next_order(order, plan).len() > 0,
        next_order(order, plan)[0] == plan.number,
        forall|i: int|
            1 <= i < next_order(order, plan).len() ==> {
                let n = #[trigger] next_order(order, plan)[i];
                n != plan.number && !plan.purge.contains(n) && order.contains(n)
            },
{
    let keep = |n: u16| n != plan.number && !plan.purge.contains(n);
    let rest = order.filter(keep);
    assert(next_order(order, plan) =~= seq![plan.number] + rest);
    assert forall|i: int| 1 <= i < next_order(order, plan).len() implies {
        let n = #[trigger] next_order(order, plan)[i];
        n != plan.number && !plan.purge.contains(n) && order.contains(n)
    } by {
        assert(next_order(order, plan)[i] == rest[i - 1]);
        order.lemma_filter_pred(keep, i - 1);
        assert(rest.contains(rest[i - 1]));
        order.lemma_filter_contains_rev(keep, rest[i - 1]);
    }
}

proof fn lemma_registering_makes_pinnacle_first(nvram: Nvram, scan: ScanView, path: Seq<u8>)
    requires
        lists_entries(scan, nvram.entries),
        scan.ours.len() > 0 || free_from(scan.used, 0) is Some,
    ensures
        plan_of(scan, load_option(path)) is Some,
        ({
            let plan = plan_of(scan, load_option(path))->0;
            let number = plan.number;
            let (after, end) = run_install(nvram, first_step(Ok(path), scan));
            let order = current_order(after.order);
            &&& end is Done
            &&& after.entries.contains_key(number)
            &&& after.entries[number] == load_option(path)
            &&& forall|n: u16| #[trigger]
                after.entries.contains_key(n) && ours(after.entries[n]) ==> n == number
            &&& forall|n: u16| #[trigger]
                nvram.entries.contains_key(n) && !ours(nvram.entries[n])
                    ==> after.entries.contains_key(n) && after.entries[n] == nvram.entries[n]
            &&& forall|n: u16| #[trigger]
                after.entries.contains_key(n) ==> n == number || nvram.entries.contains_key(n)
            &&& order.len() > 0
            &&& order[0] == number
            &&& forall|i: int|
                1 <= i < order.len() ==> #[trigger] order[i] != number && !plan.purge.contains(
                    order[i],
                ) && current_order(nvram.order).contains(order[i])
            &&& order == next_order(current_order(nvram.order), plan)
        }),
{
    let desired = load_option(path);
    let plan = plan_of(scan, desired)->0;
    lemma_first_match(scan.ours, desired, 0);
    lemma_install_runs(nvram, scan, path);
    lemma_plan(scan, nvram.entries, desired);
    law_built_options_are_ours(path);
    let after = installed(nvram, plan, desired);
    let before = current_order(nvram.order);
    law_boot_order_reads_back(next_order(before, plan));
    lemma_next_order(before, plan);
    assert(current_order(after.order) == next_order(before, plan));
    assert(plan.purge.to_set().contains(plan.number) == plan.purge.contains(plan.number));
    assert forall|n: u16| #[trigger]
        after.entries.contains_key(n) && ours(after.entries[n]) implies n == plan.number by {
        assert(plan.purge.to_set().contains(n) == plan.purge.contains(n));
    }
    assert forall|n: u16| #[trigger]
        nvram.entries.contains_key(n) && !ours(nvram.entries[n]) implies after.entries.contains_key(
        n,
    ) && after.entries[n] == nvram.entries[n] by {
        assert(plan.purge.to_set().contains(n) == plan.purge.contains(n));
    }
}

proof fn lemma_registering_again_changes_nothing(
    nvram: Nvram,
    scan: ScanView,
    again: ScanView,
    path: Seq<u8>,
)
    requires
        lists_entries(scan, nvram.entries),
        scan.ours.len() > 0 || free_from(scan.used, 0) is Some,
        lists_entries(again, run_install(nvram, first_step(Ok(path), scan)).0.entries),
    ensures
        ({
            let number = plan_of(scan, load_option(path))->0.number;
            let after = run_install(nvram, first_step(Ok(path), scan)).0;
            let plan = PlanView { number, write: false, purge: Seq::empty() };
            &&& first_step(Ok(path), again) == (InstallView::ReadOrder { plan })
            &&& run_install(after, first_step(Ok(path), again)) == (
                after,
                InstallView::Done { record: success_record(number, false) },
            )
        }),
{
    lemma_registering_makes_pinnacle_first(nvram, scan, path);
    law_built_options_are_ours(path);
    let desired = load_option(path);
    let plan = plan_of(scan, desired)->0;
    let number = plan.number;
    let after = run_install(nvram, first_step(Ok(path), scan)).0;
    lemma_sole_entry(again, after.entries, number, desired);
    let second = plan_of(again, desired)->0;
    lemma_install_runs(after, again, path);
    lemma_order_is_stable(current_order(after.order), number);
    assert(installed(after, second, desired).entries =~= after.entries);
}

/// Whether a listing of the firmware variables holds exactly these boot entries, each
/// once and under the name that is written for its index. A value that cannot be read
/// is not that of an entry which pinnacle created.
pub open spec fn describes(variables: Seq<VariableView>, entries: Map<u16, Seq<u8>>) -> bool {
    &&& forall|i: int|
        0 <= i < variables.len() ==> (#[trigger] index_at(variables, i) matches Some(n) ==> {
            &&& variables[i].name == code_units(boot_name(n))
            &&& entries.contains_key(n)
            &&& match variables[i].value {
                Some(bytes) => bytes == entries[n],
                None => !ours(entries[n]),
            }
        })
    &&& forall|i: int, j: int|
        0 <= i < j < variables.len() && #[trigger] index_at(variables, i) is Some
            ==> #[trigger] index_at(variables, j) != index_at(variables, i)
    &&& forall|n: u16| #[trigger]
        entries.contains_key(n) ==> exists|i: int|
            0 <= i < variables.len() && #[trigger] index_at(variables, i) == Some(n)
}

/// The index of the boot entry at a place in a listing.
pub open spec fn index_at(variables: Seq<VariableView>, i: int) -> Option<u16> {
    entry_index(variables[i].vendor, variables[i].name)
}

proof fn lemma_scan(variables: Seq<VariableView>)
    ensures
        forall|n: u16| #[trigger]
            scan_of(variables).used.contains(n) <==> exists|i: int|
                0 <= i < variables.len() && index_at(variables, i) == Some(n),
        forall|k: int|
            0 <= k < scan_of(variables).ours.len() ==> exists|i: int|
                0 <= i < variables.len() && own_entry(#[trigger] variables[i]) == Some(
                    #[trigger] scan_of(variables).ours[k],
                ),
        forall|i: int|
            0 <= i < variables.len() ==> (own_entry(#[trigger] variables[i]) matches Some(e)
                ==> numbers(scan_of(variables).ours).contains(e.number)),
    decreases variables.len(),
{
    if variables.len() > 0 {
        let before = variables.drop_last();
        let last = variables.last();
        lemma_scan(before);
        let old_scan = scan_of(before);
        let new_scan = scan_of(variables);
        assert forall|n: u16| #[trigger] new_scan.used.contains(n) implies exists|i: int|
            0 <= i < variables.len() && index_at(variables, i) == Some(n) by {
            if old_scan.used.contains(n) {
                let i = choose|i: int| 0 <= i < before.len() && index_at(before, i) == Some(n);
                assert(index_at(variables, i) == Some(n));
            } else {
                let k = choose|k: int| 0 <= k < new_scan.used.len() && new_scan.used[k] == n;
                if k < old_scan.used.len() {
                    assert(old_scan.used[k] == n);
                }
                assert(index_at(variables, variables.len() - 1) == Some(n));
            }
        }
        assert forall|n: u16|
            (exists|i: int| 0 <= i < variables.len() && index_at(variables, i) == Some(n))
                implies #[trigger] new_scan.used.contains(n) by {
            let i = choose|i: int| 0 <= i < variables.len() && index_at(variables, i) == Some(n);
            if i < before.len() {
                assert(index_at(before, i) == Some(n));
                assert(old_scan.used.contains(n));
                let k = choose|k: int| 0 <= k < old_scan.used.len() && old_scan.used[k] == n;
                assert(new_scan.used[k] == n);
            } else {
                assert(new_scan.used[new_scan.used.len() - 1] == n);
            }
        }
        assert forall|k: int| 0 <= k < new_scan.ours.len() implies exists|i: int|
            0 <= i < variables.len() && own_entry(#[trigger] variables[i]) == Some(
                #[trigger] new_scan.ours[k],
            ) by {
            if k < old_scan.ours.len() {
                assert(new_scan.ours[k] == old_scan.ours[k]);
                let i = choose|i: int|
                    0 <= i < before.len() && own_entry(#[trigger] before[i]) == Some(
                        old_scan.ours[k],
                    );
                assert(variables[i] == before[i]);
            } else {
                assert(own_entry(variables[variables.len() - 1]) == Some(new_scan.ours[k]));
            }
        }
        assert forall|i: int| 0 <= i < variables.len() implies (own_entry(
            #[trigger] variables[i],
        ) matches Some(e) ==> numbers(new_scan.ours).contains(e.number)) by {
            if let Some(e) = own_entry(variables[i]) {
                if i < before.len() {
                    assert(before[i] == variables[i]);
                    let k = choose|k: int|
                        0 <= k < numbers(old_scan.ours).len() && numbers(old_scan.ours)[k]
                            == e.number;
                    assert(numbers(new_scan.ours)[k] == e.number);
                } else {
                    assert(numbers(new_scan.ours)[new_scan.ours.len() - 1] == e.number);
                }
            }
        }
    }
}

proof fn lemma_scan_has_no_duplicates(variables: Seq<VariableView>)
    requires
        forall|i: int, j: int|
            0 <= i < j < variables.len() && #[trigger] index_at(variables, i) is Some
                ==> #[trigger] index_at(variables, j) != index_at(variables, i),
    ensures
        numbers(scan_of(variables).ours).no_duplicates(),
    decreases variables.len(),
{
    if variables.len() > 0 {
        let before = variables.drop_last();
        let last = variables.len() - 1;
        assert forall|i: int, j: int|
            0 <= i < j < before.len() && #[trigger] index_at(before, i) is Some implies
            #[trigger] index_at(before, j) != index_at(before, i) by {
            assert(index_at(before, i) == index_at(variables, i));
            assert(index_at(before, j) == index_at(variables, j));
        }
        lemma_scan_has_no_duplicates(before);
        lemma_scan_grows(variables);
        let old_ours = scan_of(before).ours;
        if own_entry(variables[last]) is Some {
            let e = own_entry(variables[last])->0;
            assert forall|k: int| 0 <= k < old_ours.len() implies (#[trigger] old_ours[k]).number
                != e.number by {
                lemma_scan(before);
                let i = choose|i: int|
                    0 <= i < before.len() && own_entry(#[trigger] before[i]) == Some(old_ours[k]);
                assert(index_at(variables, i) == Some(old_ours[k].number));
                assert(index_at(variables, last) == Some(e.number));
            }
            lemma_push_keeps_distinct(old_ours, e);
        }
    }
}

proof fn lemma_scan_grows(variables: Seq<VariableView>)
    requires
        variables.len() > 0,
    ensures
        scan_of(variables).ours == (match own_entry(variables[variables.len() - 1]) {
            Some(e) => scan_of(variables.drop_last()).ours.push(e),
            None => scan_of(variables.drop_last()).ours,
        }),
{
}

proof fn lemma_push_keeps_distinct(entries: Seq<EntryView>, e: EntryView)
    requires
        numbers(entries).no_duplicates(),
        forall|k: int|
            0 <= k < entries.len() ==> (#[trigger] entries[k]).number != e.number,
    ensures
        numbers(entries.push(e)).no_duplicates(),
{
    let all = numbers(entries.push(e));
    assert(all =~= numbers(entries).push(e.number));
    assert forall|i: int, j: int|
        0 <= i < all.len() && 0 <= j < all.len() && i != j implies all[i] != all[j] by {
        if i == entries.len() {
            assert(all[j] == entries[j].number);
        } else if j == entries.len() {
            assert(all[i] == entries[i].number);
        } else {
            assert(all[i] == numbers(entries)[i] && all[j] == numbers(entries)[j]);
        }
    }
}

/// Scanning a listing of the firmware variables lists the boot entries, in whatever
/// order the firmware gives them.
pub proof fn law_scan_lists_the_entries(
    variables: Seq<VariableView>,
    entries: Map<u16, Seq<u8>>,
)
    requires
        describes(variables, entries),
    ensures
        lists_entries(scan_of(variables), entries),
{
    let scan = scan_of(variables);
    lemma_scan(variables);
    lemma_scan_has_no_duplicates(variables);
    assert forall|n: u16| scan.used.contains(n) implies entries.contains_key(n) by {
        let i = choose|i: int| 0 <= i < variables.len() && index_at(variables, i) == Some(n);
        assert(index_at(variables, i) == Some(n));
    }
    assert forall|k: int| 0 <= k < scan.ours.len() implies {
        let e = #[trigger] scan.ours[k];
        entries.contains_key(e.number) && entries[e.number] == e.option && ours(e.option)
    } by {
        let i = choose|i: int|
            0 <= i < variables.len() && own_entry(#[trigger] variables[i]) == Some(scan.ours[k]);
        assert(index_at(variables, i) == Some(scan.ours[k].number));
    }
    assert forall|n: u16| #[trigger]
        entries.contains_key(n) && ours(entries[n]) implies numbers(scan.ours).contains(n) by {
        let i = choose|i: int| 0 <= i < variables.len() && index_at(variables, i) == Some(n);
        assert(own_entry(variables[i]) == Some(EntryView { number: n, option: entries[n] }));
    }
}

/// Where every access succeeds, registering leaves exactly one entry of pinnacle,
/// which boots the given path, and puts it first in the boot order. Entries of
/// others stay as they are, and so does their relative order. There is an index for
/// the entry unless all are in use by others.
pub proof fn law_registering_makes_pinnacle_first(
    nvram: Nvram,
    variables: Seq<VariableView>,
    path: Seq<u8>,
)
    requires
        describes(variables, nvram.entries),
        scan_of(variables).ours.len() > 0 || free_from(scan_of(variables).used, 0) is Some,
    ensures
        plan_of(scan_of(variables), load_option(path)) is Some,
        ({
            let plan = plan_of(scan_of(variables), load_option(path))->0;
            let number = plan.number;
            let (after, end) = run_install(nvram, first_step(Ok(path), scan_of(variables)));
            let order = current_order(after.order);
            &&& end is Done
            &&& after.entries.contains_key(number)
            &&& after.entries[number] == load_option(path)
            &&& forall|n: u16| #[trigger]
                after.entries.contains_key(n) && ours(after.entries[n]) ==> n == number
            &&& forall|n: u16| #[trigger]
                nvram.entries.contains_key(n) && !ours(nvram.entries[n])
                    ==> after.entries.contains_key(n) && after.entries[n] == nvram.entries[n]
            &&& forall|n: u16| #[trigger]
                after.entries.contains_key(n) ==> n == number || nvram.entries.contains_key(n)
            &&& order.len() > 0
            &&& order[0] == number
            &&& forall|i: int|
                1 <= i < order.len() ==> #[trigger] order[i] != number && !plan.purge.contains(
                    order[i],
                ) && current_order(nvram.order).contains(order[i])
            &&& order == next_order(current_order(nvram.order), plan)
        }),
{
    law_scan_lists_the_entries(variables, nvram.entries);
    lemma_registering_makes_pinnacle_first(nvram, scan_of(variables), path);
}

/// Registering again, on what the first registration left and whatever order the
/// firmware lists the entries in, finds pinnacle in place and writes nothing.
pub proof fn law_registering_again_changes_nothing(
    nvram: Nvram,
    variables: Seq<VariableView>,
    again: Seq<VariableView>,
    path: Seq<u8>,
)
    requires
        describes(variables, nvram.entries),
        scan_of(variables).ours.len() > 0 || free_from(scan_of(variables).used, 0) is Some,
        describes(again, run_install(nvram, first_step(Ok(path), scan_of(variables))).0.entries),
    ensures
        ({
            let number = plan_of(scan_of(variables), load_option(path))->0.number;
            let after = run_install(nvram, first_step(Ok(path), scan_of(variables))).0;
            let plan = PlanView { number, write: false, purge: Seq::empty() };
            &&& first_step(Ok(path), scan_of(again)) == (InstallView::ReadOrder { plan })
            &&& run_install(after, first_step(Ok(path), scan_of(again))) == (
                after,
                InstallView::Done { record: success_record(number, false) },
            )
        }),
{
    let after = run_install(nvram, first_step(Ok(path), scan_of(variables))).0;
    law_scan_lists_the_entries(variables, nvram.entries);
    law_scan_lists_the_entries(again, after.entries);
    lemma_registering_again_changes_nothing(nvram, scan_of(variables), scan_of(again), path);
}

/// The variables after the access that the registration asks for came out as the
/// event says: it takes effect only where it succeeded.
pub open spec fn after_event(nvram: Nvram, state: InstallView, event: InstallEventView) -> Nvram {
    if event matches InstallEventView::Performed(result) && result is Ok {
        after_access(nvram, state)
    } else {
        nvram
    }
}

/// The variables, and the step, after a series of events, whatever they are. The
/// series may end anywhere, so this covers every point of a registration.
pub open spec fn run_events(
    nvram: Nvram,
    state: InstallView,
    events: Seq<InstallEventView>,
) -> (Nvram, InstallView)
    decreases events.len(),
{
    if events.len() == 0 {
        (nvram, state)
    } else {
        let (before, at) = run_events(nvram, state, events.drop_last());
        (after_event(before, at, events.last()), install_step(at, events.last()))
    }
}

/// Whether a listing has the index, and nothing under it that can be read as an entry
/// that pinnacle created.
pub open spec fn is_of_others(variables: Seq<VariableView>, number: u16) -> bool {
    &&& exists|i: int| 0 <= i < variables.len() && #[trigger] index_at(variables, i) == Some(number)
    &&& forall|i: int|
        0 <= i < variables.len() && #[trigger] index_at(variables, i) == Some(number) ==> own_entry(
            variables[i],
        ) is None
}

/// Whether the variables hold the same under the index.
pub open spec fn same_entry(a: Nvram, b: Nvram, number: u16) -> bool {
    &&& a.entries.contains_key(number) <==> b.entries.contains_key(number)
    &&& a.entries.contains_key(number) ==> a.entries[number] == b.entries[number]
}

/// Whether a step works on the given plan.
spec fn follows(state: InstallView, plan: PlanView) -> bool {
    match state {
        InstallView::WriteEntry { plan: p, .. } => p == plan,
        InstallView::DeleteEntry { plan: p, at } => p == plan && 0 <= at < plan.purge.len(),
        InstallView::ReadOrder { plan: p } => p == plan,
        InstallView::WriteOrder { plan: p, .. } => p == plan,
        InstallView::Done { .. } => true,
    }
}

proof fn lemma_step_follows(state: InstallView, event: InstallEventView, plan: PlanView)
    requires
        follows(state, plan),
    ensures
        follows(install_step(state, event), plan),
{
}

/// A plan neither keeps nor purges an index of others.
proof fn lemma_plan_spares_others(variables: Seq<VariableView>, desired: Seq<u8>, number: u16)
    requires
        is_of_others(variables, number),
        plan_of(scan_of(variables), desired) is Some,
    ensures
        ({
            let plan = plan_of(scan_of(variables), desired)->0;
            plan.number != number && !plan.purge.contains(number)
        }),
{
    let scan = scan_of(variables);
    let all = numbers(scan.ours);
    let plan = plan_of(scan, desired)->0;
    lemma_scan(variables);
    assert forall|k: int| 0 <= k < all.len() implies all[k] != number by {
        let i = choose|i: int|
            0 <= i < variables.len() && own_entry(#[trigger] variables[i]) == Some(scan.ours[k]);
        assert(index_at(variables, i) == Some(scan.ours[k].number));
    }
    assert(scan.used.contains(number));
    lemma_first_match(scan.ours, desired, 0);
    lemma_free_is_free(scan.used, 0);
    match matching_entry(scan.ours, desired, 0) {
        Some(i) => {
            assert(all[i] == plan.number);
            assert forall|k: int| 0 <= k < plan.purge.len() implies plan.purge[k] != number by {
                assert(plan.purge[k] == all[k] || plan.purge[k] == all[all.len() - 1]);
            }
        },
        None => {
            if scan.ours.len() > 0 {
                assert(all[all.len() - 1] == plan.number);
                assert forall|k: int| 0 <= k < plan.purge.len() implies plan.purge[k] != number by {
                    assert(plan.purge[k] == all[k]);
                }
            }
        },
    }
}

proof fn lemma_events_spare(
    nvram: Nvram,
    state: InstallView,
    events: Seq<InstallEventView>,
    plan: PlanView,
    number: u16,
)
    requires
        follows(state, plan),
        plan.number != number,
        !plan.purge.contains(number),
    ensures
        follows(run_events(nvram, state, events).1, plan),
        same_entry(run_events(nvram, state, events).0, nvram, number),
    decreases events.len(),
{
    if events.len() > 0 {
        lemma_events_spare(nvram, state, events.drop_last(), plan, number);
        let (before, at) = run_events(nvram, state, events.drop_last());
        lemma_step_follows(at, events.last(), plan);
        if let InstallView::DeleteEntry { plan: p, at: k } = at {
            assert(plan.purge.contains(plan.purge[k]));
        }
    }
}

proof fn lemma_done_runs(nvram: Nvram, state: InstallView, events: Seq<InstallEventView>)
    requires
        state is Done,
    ensures
        run_events(nvram, state, events) == (nvram, state),
    decreases events.len(),
{
    if events.len() > 0 {
        lemma_done_runs(nvram, state, events.drop_last());
    }
}

/// An entry that pinnacle did not create, or that cannot be read, is never overwritten
/// or deleted: at every point of a registration, whichever accesses fail, the index
/// holds what it held before.
pub proof fn law_registering_spares_the_entries_of_others(
    nvram: Nvram,
    variables: Seq<VariableView>,
    path: Result<Seq<u8>, Status>,
    events: Seq<InstallEventView>,
    number: u16,
)
    requires
        is_of_others(variables, number),
    ensures
        same_entry(
            run_events(nvram, first_step(path, scan_of(variables)), events).0,
            nvram,
            number,
        ),
{
    let start = first_step(path, scan_of(variables));
    if start is Done {
        lemma_done_runs(nvram, start, events);
    } else {
        let desired = load_option(path->Ok_0);
        let plan = plan_of(scan_of(variables), desired)->0;
        lemma_plan_spares_others(variables, desired, number);
        lemma_events_spare(nvram, start, events, plan, number);
    }
}

/// Whether the `i`-th event is a read of `BootOrder` that the registration asked for,
/// and `order` is what its plan makes of the value.
pub open spec fn follows_a_read(
    nvram: Nvram,
    start: InstallView,
    events: Seq<InstallEventView>,
    i: int,
    plan: PlanView,
    order: Seq<u16>,
) -> bool {
    &&& 0 <= i < events.len()
    &&& run_events(nvram, start, events.take(i)).1 == (InstallView::ReadOrder { plan })
    &&& events[i] matches InstallEventView::Order(bytes)
    &&& order == next_order(current_order(bytes), plan)
}

proof fn lemma_read_grows(
    nvram: Nvram,
    start: InstallView,
    events: Seq<InstallEventView>,
    i: int,
    plan: PlanView,
    order: Seq<u16>,
)
    requires
        events.len() > 0,
        follows_a_read(nvram, start, events.drop_last(), i, plan, order),
    ensures
        follows_a_read(nvram, start, events, i, plan, order),
{
    assert(events.drop_last().take(i) =~= events.take(i));
}

proof fn lemma_order_follows_a_read(
    nvram: Nvram,
    start: InstallView,
    events: Seq<InstallEventView>,
    plan: PlanView,
)
    requires
        follows(start, plan),
        !(start is WriteOrder),
    ensures
        ({
            let (after, at) = run_events(nvram, start, events);
            &&& follows(at, plan)
            &&& at matches InstallView::WriteOrder { order, .. } ==> exists|i: int| #[trigger]
                follows_a_read(nvram, start, events, i, plan, order)
            &&& after.order == nvram.order || exists|i: int, order: Seq<u16>|
                after.order == Some(le16s(order)) && #[trigger] follows_a_read(
                    nvram,
                    start,
                    events,
                    i,
                    plan,
                    order,
                )
        }),
    decreases events.len(),
{
    if events.len() > 0 {
        let early = events.drop_last();
        let event = events.last();
        lemma_order_follows_a_read(nvram, start, early, plan);
        let (before, at) = run_events(nvram, start, early);
        let (after, next) = run_events(nvram, start, events);
        lemma_step_follows(at, event, plan);
        assert(early =~= events.take(events.len() - 1));
        match at {
            InstallView::WriteOrder { order, .. } => {
                let i = choose|i: int| #[trigger]
                    follows_a_read(nvram, start, early, i, plan, order);
                lemma_read_grows(nvram, start, events, i, plan, order);
            },
            InstallView::ReadOrder { .. } => {
                if let InstallView::WriteOrder { order, .. } = next {
                    assert(follows_a_read(nvram, start, events, events.len() - 1, plan, order));
                }
            },
            _ => {},
        }
        if before.order != nvram.order {
            let (i, order) = choose|i: int, order: Seq<u16>|
                before.order == Some(le16s(order)) && #[trigger] follows_a_read(
                    nvram,
                    start,
                    early,
                    i,
                    plan,
                    order,
                );
            lemma_read_grows(nvram, start, events, i, plan, order);
        }
    }
}

/// Whichever accesses fail, `BootOrder` is written only behind a read of it, and what
/// is written is what was read with the entry of the plan first and the purged
/// duplicates dropped.
pub proof fn law_boot_order_is_written_only_behind_a_read(
    nvram: Nvram,
    scan: ScanView,
    path: Result<Seq<u8>, Status>,
    events: Seq<InstallEventView>,
)
    ensures
        ({
            let start = first_step(path, scan);
            let after = run_events(nvram, start, events).0;
            after.order != nvram.order ==> path is Ok && plan_of(
                scan,
                load_option(path->Ok_0),
            ) is Some && exists|i: int, order: Seq<u16>|
                after.order == Some(le16s(order)) && #[trigger] follows_a_read(
                    nvram,
                    start,
                    events,
                    i,
                    plan_of(scan, load_option(path->Ok_0))->0,
                    order,
                )
        }),
{
    let start = first_step(path, scan);
    if start is Done {
        lemma_done_runs(nvram, start, events);
    } else {
        let plan = plan_of(scan, load_option(path->Ok_0))->0;
        lemma_order_follows_a_read(nvram, start, events, plan);
    }
}

} // verus!
