use vstd::prelude::*;

verus! {

/// One catalog record: a stable numeric application identifier and the
/// human-readable title it maps to.
pub struct App {
    pub appid: u64,
    pub name: String,
}

/// The list of applications, mirroring the nesting of the remote catalog
/// (the `apps` array inside `applist`).
pub struct Apps {
    pub apps: Vec<App>,
}

/// A full catalog snapshot: every known identifier/name pair, in the order
/// the source provided them.
pub struct AppList {
    pub applist: Apps,
}

impl View for App {
    type V = (u64, Seq<char>);

    open spec fn view(&self) -> (u64, Seq<char>) {
        (self.appid, self.name@)
    }
}

/// The identifier/name pairs a sequence of entries holds.
pub open spec fn apps_view(s: Seq<App>) -> Seq<(u64, Seq<char>)> {
    Seq::new(s.len(), |i: int| s[i]@)
}

impl View for AppList {
    type V = Seq<(u64, Seq<char>)>;

    open spec fn view(&self) -> Seq<(u64, Seq<char>)> {
        apps_view(self.applist.apps@)
    }
}

/// The name paired with the first occurrence of `id` in the catalog, if any.
pub open spec fn find_name(cat: Seq<(u64, Seq<char>)>, id: u64) -> Option<Seq<char>>
    decreases cat.len(),
{
    if cat.len() == 0 {
        None
    } else if cat[0].0 == id {
        Some(cat[0].1)
    } else {
        find_name(cat.skip(1), id)
    }
}

/// Skipping a non-matching head leaves the lookup result unchanged.
proof fn lemma_find_name_skip(cat: Seq<(u64, Seq<char>)>, id: u64, i: int)
    requires
        0 <= i < cat.len(),
        cat[i].0 != id,
    ensures
        find_name(cat.skip(i), id) == find_name(cat.skip(i + 1), id),
{
    assert(cat.skip(i).skip(1) =~= cat.skip(i + 1));
    assert(cat.skip(i)[0] == cat[i]);
}

/// The lookup returns the name of the first entry bearing the identifier:
/// whenever entry `i` bears it and no earlier one does, that entry's name is
/// what comes back.
pub proof fn lemma_find_name_present(cat: Seq<(u64, Seq<char>)>, id: u64, i: int)
    requires
        0 <= i < cat.len(),
        cat[i].0 == id,
        forall|j: int| 0 <= j < i ==> (#[trigger] cat[j]).0 != id,
    ensures
        find_name(cat, id) == Some(cat[i].1),
    decreases cat.len(),
{
    if i > 0 {
        let t = cat.skip(1);
        assert forall|j: int| 0 <= j < i - 1 implies (#[trigger] t[j]).0 != id by {
            assert(t[j] == cat[j + 1]);
        }
        assert(t[i - 1] == cat[i]);
        lemma_find_name_present(t, id, i - 1);
        assert(cat[0].0 != id);
    }
}

/// The lookup misses exactly when no entry bears the identifier.
pub proof fn lemma_find_name_absent(cat: Seq<(u64, Seq<char>)>, id: u64)
    requires
        forall|j: int| 0 <= j < cat.len() ==> (#[trigger] cat[j]).0 != id,
    ensures
        find_name(cat, id) is None,
    decreases cat.len(),
{
    if cat.len() > 0 {
        let t = cat.skip(1);
        assert forall|j: int| 0 <= j < t.len() implies (#[trigger] t[j]).0 != id by {
            assert(t[j] == cat[j + 1]);
        }
        lemma_find_name_absent(t, id);
    }
}

impl AppList {
    /// Linear search for the first entry whose identifier equals `app`.
    pub fn find_app(&self, app: u64) -> (r: Option<&App>)
        ensures
            match r {
                Some(a) => a.appid == app && find_name(self@, app) == Some(a.name@),
                None => find_name(self@, app) is None,
            },
    {
        let n = self.applist.apps.len();
        proof {
            assert(self@.skip(0) =~= self@);
        }
        for i in 0..n
            invariant
                n == self.applist.apps.len(),
            find_name(self@, app) == find_name(self@.skip(i as int), app),
        {
            if self.applist.apps[i].appid == app {
                assert(self@.skip(i as int)[0] == self@[i as int]);
                return Some(&self.applist.apps[i]);
            }
            proof {
                lemma_find_name_skip(self@, app, i as int);
            }
        }
        assert(self@.skip(n as int) =~= Seq::<(u64, Seq<char>)>::empty());
        None
    }
}

} // verus!
