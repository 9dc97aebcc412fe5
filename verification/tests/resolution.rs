use fossilize_status::catalog::{App, AppList, Apps};
use fossilize_status::codec::{encode_catalog, parse_catalog};
use fossilize_status::resolver::{
    get_game_name, get_or_cache, resolve_init, CacheError, FetchError, ResolveEvent, ResolveState,
};

fn catalog(entries: &[(u64, &str)]) -> AppList {
    AppList {
        applist: Apps {
            apps: entries
                .iter()
                .map(|(appid, name)| App {
                    appid: *appid,
                    name: name.to_string(),
                })
                .collect(),
        },
    }
}

#[test]
fn find_app_present() {
    let cat = catalog(&[(400, "Portal"), (220, "Half-Life 2")]);
    let found = cat.find_app(220).expect("entry expected");
    assert_eq!(found.appid, 220);
    assert_eq!(found.name, "Half-Life 2");
}

#[test]
fn find_app_absent() {
    let cat = catalog(&[(400, "Portal")]);
    assert!(cat.find_app(220).is_none());
}

#[test]
fn find_app_first_of_duplicates() {
    let cat = catalog(&[(220, "First"), (220, "Second")]);
    assert_eq!(cat.find_app(220).expect("entry expected").name, "First");
}

#[test]
fn scenario_cache_empty_fetch_resolves_and_persists() {
    // Cache empty: the load fails, one fetch-and-persist cycle follows, and
    // the fetched catalog resolves the identifier.
    let state = resolve_init(220);
    assert!(matches!(state, ResolveState::AwaitLoad { app_id: 220 }));

    let state = get_game_name(
        &state,
        ResolveEvent::LoadFailed {
            error: CacheError::Read,
        },
    );
    assert!(matches!(state, ResolveState::AwaitFirstFetch { app_id: 220 }));

    let fetched = catalog(&[(220, "Half-Life 2")]);
    let snapshot = encode_catalog(&fetched);
    let state = get_game_name(&state, ResolveEvent::Fetched { catalog: fetched });
    match state {
        ResolveState::Resolved { name } => assert_eq!(name, "Half-Life 2"),
        _ => panic!("expected a resolution"),
    }

    // The persisted snapshot round-trips that same entry.
    let reloaded = parse_catalog(&snapshot).expect("snapshot must parse");
    assert_eq!(reloaded.applist.apps.len(), 1);
    assert_eq!(reloaded.applist.apps[0].appid, 220);
    assert_eq!(reloaded.applist.apps[0].name, "Half-Life 2");
}

#[test]
fn scenario_cache_hit_needs_no_fetch() {
    // Cache holds the identifier: the loaded catalog alone resolves it, so an
    // unreachable remote is never consulted.
    let state = resolve_init(220);
    let state = get_game_name(
        &state,
        ResolveEvent::Loaded {
            catalog: catalog(&[(220, "Half-Life 2")]),
        },
    );
    match state {
        ResolveState::Resolved { name } => assert_eq!(name, "Half-Life 2"),
        _ => panic!("expected a resolution without any fetch"),
    }
}

#[test]
fn scenario_miss_forces_one_refetch() {
    // Cache holds only Portal; the remote's fresh catalog holds Half-Life 2.
    let state = resolve_init(220);
    let state = get_game_name(
        &state,
        ResolveEvent::Loaded {
            catalog: catalog(&[(400, "Portal")]),
        },
    );
    assert!(matches!(state, ResolveState::AwaitRefetch { app_id: 220 }));

    let state = get_game_name(
        &state,
        ResolveEvent::Fetched {
            catalog: catalog(&[(220, "Half-Life 2")]),
        },
    );
    match state {
        ResolveState::Resolved { name } => assert_eq!(name, "Half-Life 2"),
        _ => panic!("expected a resolution after the forced refetch"),
    }

    // The same refresh replaced the snapshot, so Portal is now gone: looking
    // it up misses the refreshed cache, refetches once, and ends "not found".
    let state = resolve_init(400);
    let state = get_game_name(
        &state,
        ResolveEvent::Loaded {
            catalog: catalog(&[(220, "Half-Life 2")]),
        },
    );
    assert!(matches!(state, ResolveState::AwaitRefetch { app_id: 400 }));
    let state = get_game_name(
        &state,
        ResolveEvent::Fetched {
            catalog: catalog(&[(220, "Half-Life 2")]),
        },
    );
    assert!(matches!(state, ResolveState::NotFound));
}

#[test]
fn fetch_failure_aborts_resolution() {
    let state = resolve_init(220);
    let state = get_game_name(
        &state,
        ResolveEvent::LoadFailed {
            error: CacheError::Parse,
        },
    );
    let state = get_game_name(
        &state,
        ResolveEvent::FetchFailed {
            error: FetchError::Network,
        },
    );
    assert!(matches!(
        state,
        ResolveState::Failed {
            error: FetchError::Network
        }
    ));
}

#[test]
fn refetch_failure_aborts_resolution() {
    let state = resolve_init(220);
    let state = get_game_name(
        &state,
        ResolveEvent::Loaded {
            catalog: catalog(&[]),
        },
    );
    let state = get_game_name(
        &state,
        ResolveEvent::FetchFailed {
            error: FetchError::Write,
        },
    );
    assert!(matches!(
        state,
        ResolveState::Failed {
            error: FetchError::Write
        }
    ));
}

#[test]
fn get_or_cache_prefers_cached() {
    let r = get_or_cache(Ok(catalog(&[(220, "Half-Life 2")])), None);
    assert_eq!(r.expect("cached catalog").applist.apps[0].name, "Half-Life 2");
}

#[test]
fn get_or_cache_falls_back_to_fetch() {
    let r = get_or_cache(
        Err(CacheError::Read),
        Some(Ok(catalog(&[(400, "Portal")]))),
    );
    assert_eq!(r.expect("fetched catalog").applist.apps[0].appid, 400);
}

#[test]
fn get_or_cache_propagates_fetch_error() {
    let r = get_or_cache(Err(CacheError::Parse), Some(Err(FetchError::Decode)));
    assert!(matches!(r, Err(FetchError::Decode)));
}
