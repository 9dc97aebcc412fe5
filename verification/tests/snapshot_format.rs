use fossilize_status::catalog::{App, AppList, Apps};
use fossilize_status::codec::{encode_catalog, parse_catalog};

fn catalog(entries: &[(u64, &str)]) -> AppList {
    AppList {
        applist: Apps {
            apps: entries
                .iter()
                .map(|(appid, name)| App {
                    appid: *appid,
                    name: name.to_string(),
                })
                .collect(),
        },
    }
}

fn pairs(cat: &AppList) -> Vec<(u64, String)> {
    cat.applist
        .apps
        .iter()
        .map(|a| (a.appid, a.name.clone()))
        .collect()
}

fn assert_roundtrip(entries: &[(u64, &str)]) {
    let cat = catalog(entries);
    let text = encode_catalog(&cat);
    let back = parse_catalog(&text).expect("an encoded catalog must parse");
    assert_eq!(pairs(&cat), pairs(&back));
}

#[test]
fn encode_single_entry_exact_text() {
    let text = encode_catalog(&catalog(&[(220, "Half-Life 2")]));
    assert_eq!(text, "220\t11\tHalf-Life 2\n");
}

#[test]
fn encode_empty_catalog_is_empty_text() {
    assert_eq!(encode_catalog(&catalog(&[])), "");
}

#[test]
fn parse_empty_text_is_empty_catalog() {
    let cat = parse_catalog("").expect("empty text is the empty catalog");
    assert!(cat.applist.apps.is_empty());
}

#[test]
fn roundtrip_plain_entries() {
    assert_roundtrip(&[(220, "Half-Life 2"), (400, "Portal"), (70, "Half-Life")]);
}

#[test]
fn roundtrip_awkward_names() {
    assert_roundtrip(&[
        (1, ""),
        (2, "tab\tinside"),
        (3, "newline\ninside"),
        (4, "Ёлки 2, Σ & 🎮"),
        (u64::MAX, "largest id"),
    ]);
}

#[test]
fn roundtrip_duplicate_identifiers() {
    assert_roundtrip(&[(220, "One"), (220, "Two")]);
}

#[test]
fn parse_rejects_missing_tab() {
    assert!(parse_catalog("220").is_none());
}

#[test]
fn parse_rejects_nondigit_identifier() {
    assert!(parse_catalog("abc\t1\tx\n").is_none());
}

#[test]
fn parse_rejects_truncated_name() {
    assert!(parse_catalog("220\t3\tab\n").is_none());
}

#[test]
fn parse_rejects_missing_newline() {
    assert!(parse_catalog("220\t2\tab").is_none());
}

#[test]
fn parse_rejects_wrong_terminator() {
    assert!(parse_catalog("220\t2\tabX").is_none());
}

#[test]
fn parse_rejects_identifier_beyond_u64() {
    assert!(parse_catalog("99999999999999999999999\t1\tx\n").is_none());
}

#[test]
fn parse_rejects_trailing_garbage() {
    assert!(parse_catalog("220\t1\tx\n \n").is_none());
}

#[test]
fn parse_accepts_leading_zeros() {
    let cat = parse_catalog("007\t1\tx\n").expect("leading zeros denote the same number");
    assert_eq!(cat.applist.apps[0].appid, 7);
}

#[test]
fn parse_accepts_empty_name() {
    let cat = parse_catalog("220\t0\t\n").expect("an empty name is a name");
    assert_eq!(cat.applist.apps[0].appid, 220);
    assert_eq!(cat.applist.apps[0].name, "");
}

#[test]
fn parse_name_counts_characters_not_bytes() {
    // Two characters, more than two bytes.
    let cat = parse_catalog("1\t2\tЁλ\n").expect("lengths count characters");
    assert_eq!(cat.applist.apps[0].name, "Ёλ");
}
