//! The search for the next boot loader over all filesystem volumes. A volume, and an
//! image that was loaded, is known by the value of its firmware handle.

use vstd::prelude::*;

use crate::devpath::NEXT_LOADER_PATH;
use crate::log::Fatal;
use crate::log::FatalView;
use crate::log::Level;
use crate::log::Record;
use crate::log::RecordView;
use crate::status::NOT_FOUND;
use crate::status::Status;
use crate::status::error_text;

verus! {

/// Whether a volume is the one that the running image was loaded from.
pub open spec fn is_own(volume: u64, own: Option<u64>) -> bool {
    Some(volume) == own
}

/// The volumes that are not the own one, as listed.
pub open spec fn other_volumes(volumes: Seq<u64>, own: Option<u64>) -> Seq<u64> {
    volumes.filter(|v: u64| !is_own(v, own))
}

/// The volumes that are the own one, as listed.
pub open spec fn own_volumes(volumes: Seq<u64>, own: Option<u64>) -> Seq<u64> {
    volumes.filter(|v: u64| is_own(v, own))
}

/// The order in which volumes are tried: as listed, but with the own one last.
pub open spec fn volumes_in_order(volumes: Seq<u64>, own: Option<u64>) -> Seq<u64> {
    other_volumes(volumes, own) + own_volumes(volumes, own)
}

fn same_volume(volume: u64, own: Option<u64>) -> (r: bool)
    ensures
        r == is_own(volume, own),
{
    match own {
        Some(o) => volume == o,
        None => false,
    }
}

/// Order the volumes for the search.
pub fn order_volumes(volumes: &Vec<u64>, own: Option<u64>) -> (r: Vec<u64>)
    ensures
        r@ == volumes_in_order(volumes@, own),
{
    let mut others: Vec<u64> = Vec::new();
    let mut last: Vec<u64> = Vec::new();
    let mut i: usize = 0;
    assert(volumes@.take(0) =~= Seq::<u64>::empty());
    reveal(Seq::filter);
    while i < volumes.len()
        invariant
            i <= volumes.len(),
            others@ == other_volumes(volumes@.take(i as int), own),
            last@ == own_volumes(volumes@.take(i as int), own),
        decreases volumes.len() - i,
    {
        if same_volume(volumes[i], own) {
            last.push(volumes[i]);
        } else {
            others.push(volumes[i]);
        }
        i = i + 1;
        proof {
            reveal(Seq::filter);
            assert(volumes@.take(i as int).drop_last() =~= volumes@.take(i - 1));
        }
    }
    assert(volumes@.take(i as int) =~= volumes@);
    others.append(&mut last);
    others
}

/// The printable full path of `NEXT_LOADER_PATH` on a volume.
pub open spec fn full_path(volume_name: Seq<char>) -> Seq<char> {
    volume_name + NEXT_LOADER_PATH@
}

/// Printable full path of `NEXT_LOADER_PATH` on the volume with the given printable
/// device path.
pub fn loader_path_on_volume(volume_name: &str) -> (text: String)
    ensures
        text@ == full_path(volume_name@),
{
    let mut text = String::new();
    text.append(volume_name);
    text.append(NEXT_LOADER_PATH);
    assert(text@ =~= full_path(volume_name@));
    text
}

/// A message around the path of the next loader.
pub open spec fn around_loader_path(before: Seq<char>, behind: Seq<char>) -> Seq<char> {
    before + NEXT_LOADER_PATH@ + behind
}

/// A message around the path of the next loader.
pub fn loader_message(before: &str, behind: &str) -> (text: String)
    ensures
        text@ == around_loader_path(before@, behind@),
{
    let mut text = String::new();
    text.append(before);
    text.append(NEXT_LOADER_PATH);
    text.append(behind);
    assert(text@ =~= around_loader_path(before@, behind@));
    text
}

/// Why the boot stops where no volume has a usable loader.
pub open spec fn no_loader() -> FatalView {
    FatalView {
        status: Status(NOT_FOUND),
        message: around_loader_path(
            "no usable "@,
            " found, is the boot loader installed and signed?"@,
        ),
    }
}

/// Where the search stands.
pub enum Search {
    /// Load from the volume at `at`.
    Try { volumes: Vec<u64>, at: usize },
    /// The image that was loaded.
    Loaded(u64),
    /// No volume is left.
    Failed(Fatal),
}

/// [`Search`] over sequences.
#[verifier::ext_equal]
pub enum SearchView {
    Try { volumes: Seq<u64>, at: int },
    Loaded(u64),
    Failed(FatalView),
}

impl View for Search {
    type V = SearchView;

    open spec fn view(&self) -> SearchView {
        match *self {
            Search::Try { volumes, at } => SearchView::Try { volumes: volumes@, at: at as int },
            Search::Loaded(image) => SearchView::Loaded(image),
            Search::Failed(fatal) => SearchView::Failed(fatal@),
        }
    }
}

/// The search that goes on at `at`, if there is a volume.
pub open spec fn search_from(volumes: Seq<u64>, at: int) -> SearchView {
    if at < volumes.len() {
        SearchView::Try { volumes, at }
    } else {
        SearchView::Failed(no_loader())
    }
}

fn go_on(volumes: Vec<u64>, at: usize) -> (r: Search)
    ensures
        r@ == search_from(volumes@, at as int),
{
    if at < volumes.len() {
        Search::Try { volumes, at }
    } else {
        Search::Failed(
            Fatal::new(
                Status(NOT_FOUND),
                loader_message("no usable ", " found, is the boot loader installed and signed?"),
            ),
        )
    }
}

/// Start the search over the given volumes.
pub fn begin_search(volumes: &Vec<u64>, own: Option<u64>) -> (r: Search)
    ensures
        r@ == search_from(volumes_in_order(volumes@, own), 0),
{
    go_on(order_volumes(volumes, own), 0)
}

/// The search after an attempt to load from the volume at `at`.
pub open spec fn search_step(
    volumes: Seq<u64>,
    at: int,
    outcome: Result<u64, Status>,
) -> SearchView {
    match outcome {
        Ok(image) => SearchView::Loaded(image),
        Err(_) => search_from(volumes, at + 1),
    }
}

/// What is logged of an attempt: a volume without the file is passed over in silence.
pub open spec fn attempt_record(volume_name: Seq<char>, outcome: Result<u64, Status>) -> Option<
    RecordView,
> {
    match outcome {
        Ok(_) => Some(
            RecordView { level: Level::Info, message: "loaded "@ + full_path(volume_name) },
        ),
        Err(status) => if status == Status(NOT_FOUND) {
            None
        } else {
            Some(
                RecordView {
                    level: Level::Error,
                    message: full_path(volume_name) + " load failed: "@ + error_text(status),
                },
            )
        },
    }
}

/// An attempt to load from a volume: where the search stands, and what to log.
pub struct Attempt {
    pub search: Search,
    pub record: Option<Record>,
}

/// Take the outcome of loading from the volume at `at`. The first volume from which
/// an image loads (which runs the Secure Boot check for it) ends the search.
pub fn load_next(
    volumes: Vec<u64>,
    at: usize,
    volume_name: &str,
    outcome: Result<u64, Status>,
) -> (r: Attempt)
    requires
        at < volumes@.len(),
        outcome matches Err(status) ==> status.is_failure(),
    ensures
        r.search@ == search_step(volumes@, at as int, outcome),
        match r.record {
            Some(line) => attempt_record(volume_name@, outcome) == Some(line@),
            None => attempt_record(volume_name@, outcome) is None,
        },
{
    assert(at < volumes.len());
    let path: String = loader_path_on_volume(volume_name);
    match outcome {
        Ok(image) => {
            let mut message = String::new();
            message.append("loaded ");
            message.append(path.as_str());
            assert(message@ =~= "loaded "@ + full_path(volume_name@));
            Attempt {
                search: Search::Loaded(image),
                record: Some(Record { level: Level::Info, message }),
            }
        },
        Err(status) => {
            let search: Search = go_on(volumes, at + 1);
            if status == Status(NOT_FOUND) {
                return Attempt { search, record: None };
            }
            let mut message = path;
            message.append(" load failed: ");
            let error: String = status.describe_error();
            message.append(error.as_str());
            assert(message@ =~= full_path(volume_name@) + " load failed: "@ + error_text(status));
            Attempt { search, record: Some(Record { level: Level::Error, message }) }
        },
    }
}

/// The search after attempts with the given outcomes.
pub open spec fn search_run(volumes: Seq<u64>, outcomes: Seq<Result<u64, Status>>) -> SearchView
    decreases outcomes.len(),
{
    if outcomes.len() == 0 {
        search_from(volumes, 0)
    } else {
        match search_run(volumes, outcomes.drop_last()) {
            SearchView::Try { volumes: rest, at } => search_step(rest, at, outcomes.last()),
            done => done,
        }
    }
}

proof fn lemma_filter_split(volumes: Seq<u64>, own: Option<u64>)
    ensures
        volumes.to_multiset() == volumes_in_order(volumes, own).to_multiset(),
        forall|i: int|
            0 <= i < other_volumes(volumes, own).len() ==> !is_own(
                #[trigger] other_volumes(volumes, own)[i],
                own,
            ),
        forall|i: int|
            0 <= i < own_volumes(volumes, own).len() ==> is_own(
                #[trigger] own_volumes(volumes, own)[i],
                own,
            ),
    decreases volumes.len(),
{
    broadcast use vstd::seq_lib::group_to_multiset_ensures;

    reveal(Seq::filter);
    let others = other_volumes(volumes, own);
    let last = own_volumes(volumes, own);
    if volumes.len() == 0 {
        assert(others + last =~= volumes);
    } else {
        let before = volumes.drop_last();
        let v = volumes.last();
        lemma_filter_split(before, own);
        let before_others = other_volumes(before, own);
        let before_last = own_volumes(before, own);
        assert(volumes =~= before.push(v));
        vstd::seq_lib::lemma_multiset_commutative(before_others, before_last);
        vstd::seq_lib::lemma_multiset_commutative(others, last);
        if is_own(v, own) {
            assert(last =~= before_last.push(v));
            assert(others =~= before_others);
        } else {
            assert(others =~= before_others.push(v));
            assert(last =~= before_last);
        }
        assert(volumes.to_multiset() =~= volumes_in_order(volumes, own).to_multiset());
    }
}

/// Every volume is tried, none more often than it is listed, and no volume but the
/// own one is tried behind the own one.
pub proof fn law_own_volume_is_tried_last(volumes: Seq<u64>, own: Option<u64>)
    ensures
        volumes_in_order(volumes, own).to_multiset() == volumes.to_multiset(),
        volumes_in_order(volumes, own).len() == volumes.len(),
        ({
            let order = volumes_in_order(volumes, own);
            forall|i: int, j: int|
                0 <= i < j < order.len() && is_own(order[i], own) ==> is_own(order[j], own)
        }),
{
    broadcast use vstd::seq_lib::group_to_multiset_ensures;

    lemma_filter_split(volumes, own);
    let order = volumes_in_order(volumes, own);
    let others = other_volumes(volumes, own);
    let last = own_volumes(volumes, own);
    assert(order.len() == order.to_multiset().len());
    assert(volumes.len() == volumes.to_multiset().len());
    assert forall|i: int, j: int| 0 <= i < j < order.len() && is_own(order[i], own) implies is_own(
        order[j],
        own,
    ) by {
        if i < others.len() {
            assert(order[i] == others[i]);
        } else {
            assert(order[j] == last[j - others.len()]);
        }
    }
}

/// While attempts fail, the search goes from volume to volume; it fails only when it
/// has tried them all.
pub proof fn law_failed_attempts_go_on(volumes: Seq<u64>, outcomes: Seq<Result<u64, Status>>)
    requires
        outcomes.len() <= volumes.len(),
        forall|i: int| 0 <= i < outcomes.len() ==> (#[trigger] outcomes[i]) is Err,
    ensures
        search_run(volumes, outcomes) == search_from(volumes, outcomes.len() as int),
    decreases outcomes.len(),
{
    if outcomes.len() > 0 {
        law_failed_attempts_go_on(volumes, outcomes.drop_last());
        assert(outcomes.last() is Err);
    }
}

/// The first volume from which an image loads ends the search with that image.
pub proof fn law_first_loadable_volume_wins(
    volumes: Seq<u64>,
    outcomes: Seq<Result<u64, Status>>,
    image: u64,
)
    requires
        0 < outcomes.len() <= volumes.len(),
        forall|i: int| 0 <= i < outcomes.len() - 1 ==> (#[trigger] outcomes[i]) is Err,
        outcomes.last() == Ok::<u64, Status>(image),
    ensures
        search_run(volumes, outcomes) == SearchView::Loaded(image),
{
    law_failed_attempts_go_on(volumes, outcomes.drop_last());
}

/// The own volume goes to the very end, wherever it is listed and however many others
/// there are.
pub proof fn law_own_volume_goes_last(volumes: Seq<u64>, own: Option<u64>, first: u64)
    requires
        own == Some(first),
    ensures
        volumes_in_order(seq![first] + volumes, own) == volumes_in_order(volumes, own).push(first),
{
    lemma_prepend(volumes, own, first);
    lemma_own_volumes_are_one(volumes, own, first);
    lemma_push_behind(other_volumes(volumes, own), own_volumes(volumes, own), first);
}

/// A volume that is not the own one keeps its place before those listed behind it, so
/// all others keep their order.
pub proof fn law_other_volumes_keep_their_order(volumes: Seq<u64>, own: Option<u64>, first: u64)
    requires
        own != Some(first),
    ensures
        volumes_in_order(seq![first] + volumes, own) == seq![first] + volumes_in_order(
            volumes,
            own,
        ),
{
    lemma_prepend(volumes, own, first);
    lemma_regroup(seq![first], other_volumes(volumes, own), own_volumes(volumes, own));
}

proof fn lemma_push_behind(a: Seq<u64>, b: Seq<u64>, x: u64)
    ensures
        a + b.push(x) == (a + b).push(x),
{
    assert(a + b.push(x) =~= (a + b).push(x));
}

proof fn lemma_regroup(a: Seq<u64>, b: Seq<u64>, c: Seq<u64>)
    ensures
        (a + b) + c == a + (b + c),
{
    assert((a + b) + c =~= a + (b + c));
}

/// Without volumes there is nothing to try.
pub proof fn law_no_volumes_no_order(own: Option<u64>)
    ensures
        volumes_in_order(Seq::empty(), own) == Seq::<u64>::empty(),
{
    reveal(Seq::filter);
    assert(volumes_in_order(Seq::empty(), own) =~= Seq::<u64>::empty());
}

proof fn lemma_own_volumes_are_one(volumes: Seq<u64>, own: Option<u64>, volume: u64)
    requires
        own == Some(volume),
    ensures
        seq![volume] + own_volumes(volumes, own) == own_volumes(volumes, own).push(volume),
{
    lemma_filter_split(volumes, own);
    let last = own_volumes(volumes, own);
    assert forall|i: int| 0 <= i < last.len() implies last[i] == volume by {
        assert(is_own(last[i], own));
    }
    assert(seq![volume] + last =~= last.push(volume));
}

proof fn lemma_prepend(volumes: Seq<u64>, own: Option<u64>, first: u64)
    ensures
        other_volumes(seq![first] + volumes, own) == (if is_own(first, own) {
            other_volumes(volumes, own)
        } else {
            seq![first] + other_volumes(volumes, own)
        }),
        own_volumes(seq![first] + volumes, own) == (if is_own(first, own) {
            seq![first] + own_volumes(volumes, own)
        } else {
            own_volumes(volumes, own)
        }),
    decreases volumes.len(),
{
    reveal(Seq::filter);
    let all = seq![first] + volumes;
    if volumes.len() == 0 {
        assert(all =~= seq![first]);
        assert(all.drop_last() =~= volumes);
        assert(other_volumes(volumes, own) =~= Seq::<u64>::empty());
        assert(own_volumes(volumes, own) =~= Seq::<u64>::empty());
        assert(other_volumes(all, own) =~= if is_own(first, own) {
            Seq::<u64>::empty()
        } else {
            seq![first]
        });
        assert(own_volumes(all, own) =~= if is_own(first, own) {
            seq![first]
        } else {
            Seq::<u64>::empty()
        });
    } else {
        let before = volumes.drop_last();
        lemma_prepend(before, own, first);
        assert(all.drop_last() =~= seq![first] + before);
        assert(all.last() == volumes.last());
        assert(other_volumes(all, own) =~= if is_own(first, own) {
            other_volumes(volumes, own)
        } else {
            seq![first] + other_volumes(volumes, own)
        });
        assert(own_volumes(all, own) =~= if is_own(first, own) {
            seq![first] + own_volumes(volumes, own)
        } else {
            own_volumes(volumes, own)
        });
    }
}

/// The search tries every volume of its list, the last one too, and fails only behind
/// it. Any image that loads ends it, and any failure goes on.
pub proof fn law_search_tries_every_volume(
    volumes: Seq<u64>,
    at: int,
    image: u64,
    status: Status,
)
    requires
        0 <= at,
    ensures
        at < volumes.len() ==> search_from(volumes, at) == (SearchView::Try { volumes, at }),
        at >= volumes.len() ==> search_from(volumes, at) == SearchView::Failed(no_loader()),
        search_step(volumes, at, Ok(image)) == SearchView::Loaded(image),
        at + 1 < volumes.len() ==> search_step(volumes, at, Err(status)) == (SearchView::Try {
            volumes,
            at: at + 1,
        }),
        at + 1 >= volumes.len() ==> search_step(volumes, at, Err(status)) == SearchView::Failed(
            no_loader(),
        ),
{
}

/// The failure of the search says which file was looked for.
pub proof fn law_no_loader_names_the_file()
    ensures
        no_loader().status == Status(NOT_FOUND),
        no_loader().message == "no usable "@ + "\\EFI\\boot\\BOOTX64.efi"@
            + " found, is the boot loader installed and signed?"@,
{
}

/// An attempt is logged with the whole name of the volume and the path of the loader: a
/// success as such, a missing file not at all, and any other failure with its status.
pub proof fn law_attempts_are_logged(name: Seq<char>, image: u64, status: Status)
    ensures
        attempt_record(name, Ok(image)) == Some(
            RecordView {
                level: Level::Info,
                message: "loaded "@ + (name + "\\EFI\\boot\\BOOTX64.efi"@),
            },
        ),
        status == Status(NOT_FOUND) ==> attempt_record(name, Err(status)) is None,
        status != Status(NOT_FOUND) ==> attempt_record(name, Err(status)) == Some(
            RecordView {
                level: Level::Error,
                message: name + "\\EFI\\boot\\BOOTX64.efi"@ + " load failed: "@ + error_text(
                    status,
                ),
            },
        ),
{
}

/// Messages around the path of the loader hold what stands before and behind it.
pub proof fn law_messages_hold_the_path(before: Seq<char>, behind: Seq<char>)
    ensures
        full_path(before) == before + "\\EFI\\boot\\BOOTX64.efi"@,
        around_loader_path(before, behind) == before + "\\EFI\\boot\\BOOTX64.efi"@ + behind,
{
}

/// A search is seen as it is.
pub proof fn law_search_view_keeps_everything(search: Search)
    ensures
        search matches Search::Try { volumes, at } ==> search@ == (SearchView::Try {
            volumes: volumes@,
            at: at as int,
        }),
        search matches Search::Loaded(image) ==> search@ == SearchView::Loaded(image),
        search matches Search::Failed(fatal) ==> search@ == SearchView::Failed(fatal@),
{
}

} // verus!
