use vstd::prelude::*;

use crate::catalog::{AppList, find_name};

verus! {

/// Why loading the cached snapshot failed: the file could not be read, or its
/// content could not be parsed back into a catalog. Both are recovered from
/// locally by fetching a fresh catalog instead.
#[derive(Clone, Copy, PartialEq, Eq, Structural, Debug)]
pub enum CacheError {
    Read,
    Parse,
}

/// Why a fetch-and-persist cycle failed: the remote endpoint was unreachable,
/// its response could not be decoded, or the fresh snapshot could not be
/// written out. None of these is recovered from; the error aborts the
/// resolution.
#[derive(Clone, Copy, PartialEq, Eq, Structural, Debug)]
pub enum FetchError {
    Network,
    Decode,
    Write,
}

/// Where a resolution stands. The three `Await` states name the one operation
/// the caller must perform next (load the cached snapshot, or run one
/// fetch-and-persist cycle); the other three are terminal.
pub enum ResolveState {
    AwaitLoad { app_id: u64 },
    AwaitFirstFetch { app_id: u64 },
    AwaitRefetch { app_id: u64 },
    Resolved { name: String },
    NotFound,
    Failed { error: FetchError },
}

/// The outcome of the operation a state was waiting for.
pub enum ResolveEvent {
    Loaded { catalog: AppList },
    LoadFailed { error: CacheError },
    Fetched { catalog: AppList },
    FetchFailed { error: FetchError },
}

/// Mathematical image of `ResolveState`.
pub enum ResolveStateModel {
    AwaitLoad { app_id: u64 },
    AwaitFirstFetch { app_id: u64 },
    AwaitRefetch { app_id: u64 },
    Resolved { name: Seq<char> },
    NotFound,
    Failed { error: FetchError },
}

/// Mathematical image of `ResolveEvent`.
pub enum ResolveEventModel {
    Loaded { catalog: Seq<(u64, Seq<char>)> },
    LoadFailed { error: CacheError },
    Fetched { catalog: Seq<(u64, Seq<char>)> },
    FetchFailed { error: FetchError },
}

impl View for ResolveState {
    type V = ResolveStateModel;

    open spec fn view(&self) -> ResolveStateModel {
        match self {
            ResolveState::AwaitLoad { app_id } => ResolveStateModel::AwaitLoad {
                app_id: *app_id,
            },
            ResolveState::AwaitFirstFetch { app_id } => ResolveStateModel::AwaitFirstFetch {
                app_id: *app_id,
            },
            ResolveState::AwaitRefetch { app_id } => ResolveStateModel::AwaitRefetch {
                app_id: *app_id,
            },
            ResolveState::Resolved { name } => ResolveStateModel::Resolved { name: name@ },
            ResolveState::NotFound => ResolveStateModel::NotFound,
            ResolveState::Failed { error } => ResolveStateModel::Failed { error: *error },
        }
    }
}

impl View for ResolveEvent {
    type V = ResolveEventModel;

    open spec fn view(&self) -> ResolveEventModel {
        match self {
            ResolveEvent::Loaded { catalog } => ResolveEventModel::Loaded { catalog: catalog@ },
            ResolveEvent::LoadFailed { error } => ResolveEventModel::LoadFailed {
                error: *error,
            },
            ResolveEvent::Fetched { catalog } => ResolveEventModel::Fetched {
                catalog: catalog@,
            },
            ResolveEvent::FetchFailed { error } => ResolveEventModel::FetchFailed {
                error: *error,
            },
        }
    }
}

/// Which events a state can accept: exactly the outcomes of the operation it
/// awaits. Terminal states accept none.
pub open spec fn awaits(s: ResolveStateModel, e: ResolveEventModel) -> bool {
    match (s, e) {
        (ResolveStateModel::AwaitLoad { .. }, ResolveEventModel::Loaded { .. }) => true,
        (ResolveStateModel::AwaitLoad { .. }, ResolveEventModel::LoadFailed { .. }) => true,
        (ResolveStateModel::AwaitFirstFetch { .. }, ResolveEventModel::Fetched { .. }) => true,
        (ResolveStateModel::AwaitFirstFetch { .. }, ResolveEventModel::FetchFailed { .. }) => true,
        (ResolveStateModel::AwaitRefetch { .. }, ResolveEventModel::Fetched { .. }) => true,
        (ResolveStateModel::AwaitRefetch { .. }, ResolveEventModel::FetchFailed { .. }) => true,
        _ => false,
    }
}

/// The resolution policy, one decision at a time.
///
/// A catalog obtained by either a load or a first fetch is searched; a hit
/// resolves, a miss forces exactly one more fetch. A catalog obtained by that
/// forced refetch is searched once more; a miss then is a definitive
/// "not found". A failed load falls through to fetching; a failed fetch
/// aborts with its error.
pub open spec fn spec_step(s: ResolveStateModel, e: ResolveEventModel) -> ResolveStateModel {
    match (s, e) {
        (
            ResolveStateModel::AwaitLoad { app_id },
            ResolveEventModel::Loaded { catalog },
        ) => match find_name(catalog, app_id) {
            Some(name) => ResolveStateModel::Resolved { name },
            None => ResolveStateModel::AwaitRefetch { app_id },
        },
        (
            ResolveStateModel::AwaitLoad { app_id },
            ResolveEventModel::LoadFailed { .. },
        ) => ResolveStateModel::AwaitFirstFetch { app_id },
        (
            ResolveStateModel::AwaitFirstFetch { app_id },
            ResolveEventModel::Fetched { catalog },
        ) => match find_name(catalog, app_id) {
            Some(name) => ResolveStateModel::Resolved { name },
            None => ResolveStateModel::AwaitRefetch { app_id },
        },
        (
            ResolveStateModel::AwaitFirstFetch { .. },
            ResolveEventModel::FetchFailed { error },
        ) => ResolveStateModel::Failed { error },
        (
            ResolveStateModel::AwaitRefetch { app_id },
            ResolveEventModel::Fetched { catalog },
        ) => match find_name(catalog, app_id) {
            Some(name) => ResolveStateModel::Resolved { name },
            None => ResolveStateModel::NotFound,
        },
        (
            ResolveStateModel::AwaitRefetch { .. },
            ResolveEventModel::FetchFailed { error },
        ) => ResolveStateModel::Failed { error },
        _ => s,
    }
}

/// One decision of the resolution: consume the outcome of the operation the
/// state was waiting for and move to the next state.
pub fn get_game_name(state: &ResolveState, event: ResolveEvent) -> (next: ResolveState)
    requires
        awaits(state@, event@),
    ensures
        next@ == spec_step(state@, event@),
{
    match (state, event) {
        (ResolveState::AwaitLoad { app_id }, ResolveEvent::Loaded { catalog }) => {
            match catalog.find_app(*app_id) {
                Some(app) => ResolveState::Resolved { name: app.name.clone() },
                None => ResolveState::AwaitRefetch { app_id: *app_id },
            }
        },
        (ResolveState::AwaitLoad { app_id }, ResolveEvent::LoadFailed { .. }) => {
            ResolveState::AwaitFirstFetch { app_id: *app_id }
        },
        (ResolveState::AwaitFirstFetch { app_id }, ResolveEvent::Fetched { catalog }) => {
            match catalog.find_app(*app_id) {
                Some(app) => ResolveState::Resolved { name: app.name.clone() },
                None => ResolveState::AwaitRefetch { app_id: *app_id },
            }
        },
        (ResolveState::AwaitFirstFetch { .. }, ResolveEvent::FetchFailed { error }) => {
            ResolveState::Failed { error }
        },
        (ResolveState::AwaitRefetch { app_id }, ResolveEvent::Fetched { catalog }) => {
            match catalog.find_app(*app_id) {
                Some(app) => ResolveState::Resolved { name: app.name.clone() },
                None => ResolveState::NotFound,
            }
        },
        (ResolveState::AwaitRefetch { .. }, ResolveEvent::FetchFailed { error }) => {
            ResolveState::Failed { error }
        },
        _ => vstd::pervasive::unreached(),
    }
}

/// Use the catalog the cache yielded when the load succeeded; otherwise fall
/// back to the outcome of the one fetch-and-persist cycle the caller ran in
/// its stead. `fetched` is present exactly when the load failed, so no fetch
/// happens while the cache is good.
pub fn get_or_cache(
    cached: Result<AppList, CacheError>,
    fetched: Option<Result<AppList, FetchError>>,
) -> (r: Result<AppList, FetchError>)
    requires
        cached is Err <==> fetched is Some,
    ensures
        match cached {
            Ok(c) => r matches Ok(rc) && rc@ == c@,
            Err(_) => match fetched {
                Some(f) => match f {
                    Ok(c) => r matches Ok(rc) && rc@ == c@,
                    Err(e) => r matches Err(re) && re == e,
                },
                None => false,
            },
        },
{
    match cached {
        Ok(c) => Ok(c),
        Err(_) => match fetched {
            Some(f) => f,
            None => vstd::pervasive::unreached(),
        },
    }
}

/// The state a resolution for `app_id` starts in.
pub fn resolve_init(app_id: u64) -> (s: ResolveState)
    ensures
        s@ == (ResolveStateModel::AwaitLoad { app_id }),
{
    ResolveState::AwaitLoad { app_id }
}

/// The state reached by feeding a sequence of events through `spec_step`.
pub open spec fn run_steps(
    s: ResolveStateModel,
    events: Seq<ResolveEventModel>,
) -> ResolveStateModel
    decreases events.len(),
{
    if events.len() == 0 {
        s
    } else {
        run_steps(spec_step(s, events[0]), events.skip(1))
    }
}

/// Whether each event in turn is one its state was waiting for.
pub open spec fn valid_run(s: ResolveStateModel, events: Seq<ResolveEventModel>) -> bool
    decreases events.len(),
{
    events.len() == 0 || (awaits(s, events[0]) && valid_run(
        spec_step(s, events[0]),
        events.skip(1),
    ))
}

/// An event that reports the outcome of a fetch-and-persist cycle; counting
/// these counts the fetches performed.
pub open spec fn is_fetch_event(e: ResolveEventModel) -> bool {
    e matches ResolveEventModel::Fetched { .. } || e matches ResolveEventModel::FetchFailed {
        ..
    }
}

/// How many fetch-and-persist cycles a sequence of events reports.
pub open spec fn fetch_count(events: Seq<ResolveEventModel>) -> nat
    decreases events.len(),
{
    if events.len() == 0 {
        0
    } else {
        (if is_fetch_event(events[0]) {
            1nat
        } else {
            0nat
        }) + fetch_count(events.skip(1))
    }
}

/// How many fetches can still happen from a given state.
pub open spec fn fetch_budget(s: ResolveStateModel) -> nat {
    match s {
        ResolveStateModel::AwaitLoad { .. } => 2,
        ResolveStateModel::AwaitFirstFetch { .. } => 2,
        ResolveStateModel::AwaitRefetch { .. } => 1,
        _ => 0,
    }
}

/// An identifier present in a successfully loaded cache resolves at once to
/// the name of its first entry, and the run performs no fetch at all.
pub proof fn lemma_hit_in_cache_no_fetch(
    app_id: u64,
    catalog: Seq<(u64, Seq<char>)>,
    i: int,
)
    requires
        0 <= i < catalog.len(),
        catalog[i].0 == app_id,
        forall|j: int| 0 <= j < i ==> (#[trigger] catalog[j]).0 != app_id,
    ensures
        run_steps(
            ResolveStateModel::AwaitLoad { app_id },
            seq![ResolveEventModel::Loaded { catalog }],
        ) == (ResolveStateModel::Resolved { name: catalog[i].1 }),
        fetch_count(seq![ResolveEventModel::Loaded { catalog }]) == 0,
{
    crate::catalog::lemma_find_name_present(catalog, app_id, i);
    let name = catalog[i].1;
    let e0 = ResolveEventModel::Loaded { catalog };
    let events = seq![e0];
    assert(events.len() == 1 && events[0] == e0);
    assert(events.skip(1) =~= Seq::<ResolveEventModel>::empty());
    let s0 = ResolveStateModel::AwaitLoad { app_id };
    assert(spec_step(s0, e0) == (ResolveStateModel::Resolved { name }));
    assert(run_steps(s0, events) == run_steps(spec_step(s0, e0), events.skip(1)));
    assert(fetch_count(events.skip(1)) == 0);
    assert(fetch_count(events) == 0);
}

/// When the cached snapshot is missing or unparsable, exactly one
/// fetch-and-persist cycle runs before the catalog is searched: the failed
/// load moves straight to awaiting the first fetch, and the catalog that
/// fetch yields is the one searched.
pub proof fn lemma_load_failure_one_fetch_then_search(
    app_id: u64,
    error: CacheError,
    catalog: Seq<(u64, Seq<char>)>,
)
    ensures
        spec_step(
            ResolveStateModel::AwaitLoad { app_id },
            ResolveEventModel::LoadFailed { error },
        ) == (ResolveStateModel::AwaitFirstFetch { app_id }),
        run_steps(
            ResolveStateModel::AwaitLoad { app_id },
            seq![
                ResolveEventModel::LoadFailed { error },
                ResolveEventModel::Fetched { catalog },
            ],
        ) == (match find_name(catalog, app_id) {
            Some(name) => ResolveStateModel::Resolved { name },
            None => ResolveStateModel::AwaitRefetch { app_id },
        }),
        fetch_count(
            seq![
                ResolveEventModel::LoadFailed { error },
                ResolveEventModel::Fetched { catalog },
            ],
        ) == 1,
{
    let e0 = ResolveEventModel::LoadFailed { error };
    let e1 = ResolveEventModel::Fetched { catalog };
    let events = seq![e0, e1];
    assert(events.len() == 2 && events[0] == e0 && events[1] == e1);
    let tail = events.skip(1);
    assert(tail =~= seq![e1]);
    assert(tail.len() == 1 && tail[0] == e1);
    assert(tail.skip(1) =~= Seq::<ResolveEventModel>::empty());
    let s0 = ResolveStateModel::AwaitLoad { app_id };
    let s1 = spec_step(s0, e0);
    assert(s1 == (ResolveStateModel::AwaitFirstFetch { app_id }));
    assert(run_steps(s0, events) == run_steps(s1, tail));
    assert(run_steps(s1, tail) == run_steps(spec_step(s1, e1), tail.skip(1)));
    assert(fetch_count(tail.skip(1)) == 0);
    assert(fetch_count(tail) == 1);
    assert(fetch_count(events) == fetch_count(tail) + (if is_fetch_event(e0) {
        1nat
    } else {
        0nat
    }));
}

/// An identifier absent from a loaded cache forces exactly one more fetch,
/// whose catalog alone decides between a resolution and "not found".
pub proof fn lemma_miss_forces_single_refetch(
    app_id: u64,
    loaded: Seq<(u64, Seq<char>)>,
    refetched: Seq<(u64, Seq<char>)>,
)
    requires
        find_name(loaded, app_id) is None,
    ensures
        run_steps(
            ResolveStateModel::AwaitLoad { app_id },
            seq![
                ResolveEventModel::Loaded { catalog: loaded },
                ResolveEventModel::Fetched { catalog: refetched },
            ],
        ) == (match find_name(refetched, app_id) {
            Some(name) => ResolveStateModel::Resolved { name },
            None => ResolveStateModel::NotFound,
        }),
        fetch_count(
            seq![
                ResolveEventModel::Loaded { catalog: loaded },
                ResolveEventModel::Fetched { catalog: refetched },
            ],
        ) == 1,
{
    let e0 = ResolveEventModel::Loaded { catalog: loaded };
    let e1 = ResolveEventModel::Fetched { catalog: refetched };
    let events = seq![e0, e1];
    assert(events.len() == 2 && events[0] == e0 && events[1] == e1);
    let tail = events.skip(1);
    assert(tail =~= seq![e1]);
    assert(tail.len() == 1 && tail[0] == e1);
    assert(tail.skip(1) =~= Seq::<ResolveEventModel>::empty());
    let s0 = ResolveStateModel::AwaitLoad { app_id };
    let s1 = spec_step(s0, e0);
    assert(s1 == (ResolveStateModel::AwaitRefetch { app_id }));
    assert(run_steps(s0, events) == run_steps(s1, tail));
    assert(run_steps(s1, tail) == run_steps(spec_step(s1, e1), tail.skip(1)));
    assert(fetch_count(tail.skip(1)) == 0);
    assert(fetch_count(tail) == 1);
    assert(fetch_count(events) == fetch_count(tail) + (if is_fetch_event(e0) {
        1nat
    } else {
        0nat
    }));
}

/// Along any run the resolution accepts, the fetches performed never exceed
/// what the starting state allows.
pub proof fn lemma_fetch_count_bounded(s: ResolveStateModel, events: Seq<ResolveEventModel>)
    requires
        valid_run(s, events),
    ensures
        fetch_count(events) <= fetch_budget(s),
    decreases events.len(),
{
    if events.len() > 0 {
        lemma_fetch_count_bounded(spec_step(s, events[0]), events.skip(1));
    }
}

/// A whole resolution, started from its initial state, performs at most two
/// fetch-and-persist cycles, whatever events occur.
pub proof fn lemma_at_most_two_fetches(app_id: u64, events: Seq<ResolveEventModel>)
    requires
        valid_run(ResolveStateModel::AwaitLoad { app_id }, events),
    ensures
        fetch_count(events) <= 2,
{
    lemma_fetch_count_bounded(ResolveStateModel::AwaitLoad { app_id }, events);
}

} // verus!
