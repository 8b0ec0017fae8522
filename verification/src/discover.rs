//! Discovery of descriptor files: which roots to walk and which of the
//! walked paths count.
//!
//! The walk itself reads the filesystem and stays with the caller; the
//! library fixes the root list (every `:`-separated data directory with an
//! `applications` segment appended, then the user's local applications
//! directory) and keeps exactly the walked files with the `desktop`
//! extension.

use vstd::prelude::*;
use vstd::string::*;

use crate::paths::extension;
use crate::paths::extension_of;
use crate::paths::join_path;
use crate::paths::spec_join;
use crate::paths::str_equal;
use crate::resolve::split_colons;
use crate::resolve::split_colons_of;

verus! {

/// The data-directory list assumed when none is configured.
pub open spec fn spec_default_data_dirs() -> Seq<char> {
    "/usr/local/share:/usr/share"@
}

/// The directories searched for descriptor files: each `:`-separated data
/// directory with `applications` appended, in order, then the user's local
/// applications directory under `home`.
pub open spec fn spec_application_roots(data_dirs: Option<Seq<char>>, home: Seq<char>) -> Seq<
    Seq<char>,
> {
    let dd = match data_dirs {
        Option::Some(v) => v,
        Option::None => spec_default_data_dirs(),
    };
    split_colons_of(dd).map_values(|d: Seq<char>| spec_join(d, "applications"@)).push(
        spec_join(
            spec_join(spec_join(home, ".local"@), "share"@),
            "applications"@,
        ),
    )
}

/// The root directories to walk for descriptor files. `data_dirs` is the
/// configured data-directory list, absent when unconfigured; `home` is the
/// user's home directory.
pub fn application_roots(data_dirs: &Option<String>, home: &str) -> (r: Vec<String>)
    ensures
        r.deep_view() == spec_application_roots(data_dirs.deep_view(), home@),
{
    let dd: &str = match data_dirs {
        Some(v) => v.as_str(),
        None => "/usr/local/share:/usr/share",
    };
    let segs = split_colons(dd);
    let ghost mapped = split_colons_of(dd@).map_values(
        |d: Seq<char>| spec_join(d, "applications"@),
    );
    let mut r: Vec<String> = Vec::new();
    proof {
        assert(r.deep_view() =~= mapped.take(0));
    }
    let mut i: usize = 0;
    while i < segs.len()
        invariant
            i <= segs.len(),
            segs.deep_view() == split_colons_of(dd@),
            mapped == split_colons_of(dd@).map_values(
                |d: Seq<char>| spec_join(d, "applications"@),
            ),
            r.deep_view() == mapped.take(i as int),
        decreases segs.len() - i,
    {
        let ghost prev = r.deep_view();
        let seg = segs[i].as_str();
        let app_dir = join_path(seg, "applications");
        r.push(app_dir);
        proof {
            assert(seg@ == segs.deep_view()[i as int]);
            assert(mapped[i as int] == spec_join(seg@, "applications"@));
            assert(r.deep_view() =~= prev.push(spec_join(seg@, "applications"@)));
            assert(prev.push(spec_join(seg@, "applications"@)) =~= mapped.take(i + 1));
        }
        i = i + 1;
    }
    let local = join_path(home, ".local");
    let local = join_path(local.as_str(), "share");
    let local = join_path(local.as_str(), "applications");
    r.push(local);
    proof {
        assert(mapped.take(segs.len() as int) =~= mapped);
        assert(r.deep_view() =~= spec_application_roots(data_dirs.deep_view(), home@));
    }
    r
}

/// The walked paths that count as descriptor files: those with the
/// `desktop` extension, in walk order.
pub open spec fn desktop_paths_of(paths: Seq<Seq<char>>) -> Seq<Seq<char>>
    decreases paths.len(),
{
    if paths.len() == 0 {
        Seq::empty()
    } else {
        let rest = desktop_paths_of(paths.drop_first());
        if extension_of(paths[0]) == Some("desktop"@) {
            seq![paths[0]] + rest
        } else {
            rest
        }
    }
}

proof fn lemma_desktop_paths_push(paths: Seq<Seq<char>>, p: Seq<char>)
    ensures
        desktop_paths_of(paths.push(p)) == desktop_paths_of(paths) + (
        if extension_of(p) == Some("desktop"@) {
            seq![p]
        } else {
            Seq::<Seq<char>>::empty()
        }),
    decreases paths.len(),
{
    let tail = if extension_of(p) == Some("desktop"@) {
        seq![p]
    } else {
        Seq::<Seq<char>>::empty()
    };
    if paths.len() == 0 {
        assert(paths.push(p)[0] == p);
        assert(paths.push(p).drop_first() =~= Seq::<Seq<char>>::empty());
        assert(desktop_paths_of(Seq::<Seq<char>>::empty()) == Seq::<Seq<char>>::empty());
        assert(desktop_paths_of(paths) + tail =~= tail);
        if extension_of(p) == Some("desktop"@) {
            assert(seq![p] + Seq::<Seq<char>>::empty() =~= tail);
        }
    } else {
        assert(paths.push(p)[0] == paths[0]);
        assert(paths.push(p).drop_first() =~= paths.drop_first().push(p));
        lemma_desktop_paths_push(paths.drop_first(), p);
        let rest = desktop_paths_of(paths.drop_first());
        if extension_of(paths[0]) == Some("desktop"@) {
            assert(seq![paths[0]] + (rest + tail) =~= (seq![paths[0]] + rest) + tail);
        }
    }
}

/// Every path the filter keeps is one of the walked paths.
pub proof fn lemma_desktop_paths_come_from_walk(paths: Seq<Seq<char>>)
    ensures
        forall|k: int|
            0 <= k < desktop_paths_of(paths).len() ==> paths.contains(
                #[trigger] desktop_paths_of(paths)[k],
            ),
    decreases paths.len(),
{
    if paths.len() > 0 {
        lemma_desktop_paths_come_from_walk(paths.drop_first());
        let rest = desktop_paths_of(paths.drop_first());
        let res = desktop_paths_of(paths);
        let kept = extension_of(paths[0]) == Some("desktop"@);
        assert forall|k: int| 0 <= k < res.len() implies paths.contains(res[k]) by {
            if kept && k == 0 {
                assert(res[0] == paths[0]);
                assert(paths.contains(paths[0]));
            } else {
                let kr: int = if kept {
                    k - 1
                } else {
                    k
                };
                assert(res[k] == rest[kr]);
                let i = choose|i: int|
                    0 <= i < paths.drop_first().len() && paths.drop_first()[i] == rest[kr];
                assert(paths[i + 1] == rest[kr]);
                assert(paths.contains(paths[i + 1]));
            }
        }
    }
}

/// Distinct walked paths stay distinct through the descriptor filter:
/// discovery introduces no duplicates of its own.
pub proof fn lemma_filter_desktop_paths_distinct(paths: Seq<Seq<char>>)
    requires
        forall|i: int, j: int| 0 <= i < j < paths.len() ==> paths[i] != paths[j],
    ensures
        forall|i: int, j: int|
            0 <= i < j < desktop_paths_of(paths).len() ==> desktop_paths_of(paths)[i]
                != desktop_paths_of(paths)[j],
    decreases paths.len(),
{
    if paths.len() > 0 {
        let tail = paths.drop_first();
        assert forall|i: int, j: int| 0 <= i < j < tail.len() implies tail[i] != tail[j] by {
            assert(tail[i] == paths[i + 1]);
            assert(tail[j] == paths[j + 1]);
        }
        lemma_filter_desktop_paths_distinct(tail);
        lemma_desktop_paths_come_from_walk(tail);
        let rest = desktop_paths_of(tail);
        let res = desktop_paths_of(paths);
        let kept = extension_of(paths[0]) == Some("desktop"@);
        assert forall|i: int, j: int| 0 <= i < j < res.len() implies res[i] != res[j] by {
            if kept {
                if i == 0 {
                    let w = choose|w: int| 0 <= w < tail.len() && tail[w] == rest[j - 1];
                    assert(paths[w + 1] == rest[j - 1]);
                    assert(paths[0] != paths[w + 1]);
                    assert(res[j] == rest[j - 1]);
                } else {
                    assert(res[i] == rest[i - 1]);
                    assert(res[j] == rest[j - 1]);
                }
            } else {
                assert(res[i] == rest[i]);
                assert(res[j] == rest[j]);
            }
        }
    }
}

/// Keep the walked paths whose extension is `desktop`, in walk order.
pub fn filter_desktop_paths(paths: &Vec<String>) -> (r: Vec<String>)
    ensures
        r.deep_view() == desktop_paths_of(paths.deep_view()),
{
    let mut r: Vec<String> = Vec::new();
    proof {
        assert(paths.deep_view().take(0) =~= Seq::<Seq<char>>::empty());
        assert(r.deep_view() =~= Seq::<Seq<char>>::empty());
    }
    let mut i: usize = 0;
    while i < paths.len()
        invariant
            i <= paths.len(),
            r.deep_view() == desktop_paths_of(paths.deep_view().take(i as int)),
        decreases paths.len() - i,
    {
        let ghost prev = r.deep_view();
        let ghost path_view = paths.deep_view()[i as int];
        let path = paths[i].as_str();
        proof {
            assert(path@ == path_view);
        }
        let keep = match extension(path) {
            Some(e) => str_equal(e.as_str(), "desktop"),
            None => false,
        };
        if keep {
            r.push(String::from_str(path));
            proof {
                assert(r.deep_view() =~= prev + seq![path_view]);
            }
        }
        proof {
            lemma_desktop_paths_push(paths.deep_view().take(i as int), path_view);
            assert(paths.deep_view().take(i + 1) =~= paths.deep_view().take(i as int).push(
                path_view,
            ));
            if !(extension_of(path_view) == Some("desktop"@)) {
                assert(prev + Seq::<Seq<char>>::empty() =~= prev);
            }
        }
        i = i + 1;
    }
    proof {
        assert(paths.deep_view().take(paths.len() as int) =~= paths.deep_view());
    }
    r
}

} // verus!
