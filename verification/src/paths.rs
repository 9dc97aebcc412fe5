use vstd::prelude::*;

verus! {

/// An optional owned string, seen as an optional character sequence.
pub open spec fn opt_str_view(o: Option<String>) -> Option<Seq<char>> {
    match o {
        Some(s) => Some(s@),
        None => None,
    }
}

/// The cache directory: the user cache root when one is configured, otherwise
/// `.cache` under the home directory (or under `~` verbatim when even that is
/// unknown), with this program's own subdirectory appended.
pub open spec fn cache_dir_spec(
    xdg_cache_home: Option<Seq<char>>,
    home: Option<Seq<char>>,
) -> Seq<char> {
    let base = match xdg_cache_home {
        Some(x) => x,
        None => match home {
            Some(h) => h + "/.cache"@,
            None => "~"@ + "/.cache"@,
        },
    };
    base + "/fossilize_status"@
}

/// The fixed path of the catalog snapshot inside the cache directory.
pub open spec fn cache_filename_spec(
    xdg_cache_home: Option<Seq<char>>,
    home: Option<Seq<char>>,
) -> Seq<char> {
    cache_dir_spec(xdg_cache_home, home) + "/steam_applist.tsv"@
}

/// Derive the cache directory from the two relevant environment values,
/// passed in explicitly so the derivation itself stays a pure function.
pub fn get_cache_dir(xdg_cache_home: Option<String>, home: Option<String>) -> (r: String)
    ensures
        r@ == cache_dir_spec(opt_str_view(xdg_cache_home), opt_str_view(home)),
{
    let base = match xdg_cache_home {
        Some(x) => x,
        None => match home {
            Some(h) => h.concat("/.cache"),
            None => String::from_str("~").concat("/.cache"),
        },
    };
    base.concat("/fossilize_status")
}

/// The full path of the catalog snapshot file.
pub fn get_cache_filename(xdg_cache_home: Option<String>, home: Option<String>) -> (r: String)
    ensures
        r@ == cache_filename_spec(opt_str_view(xdg_cache_home), opt_str_view(home)),
{
    let dir = get_cache_dir(xdg_cache_home, home);
    dir.concat("/steam_applist.tsv")
}

} // verus!
