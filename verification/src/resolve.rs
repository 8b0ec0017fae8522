//! Resolution of a descriptor's icon field into candidate asset paths.
//!
//! Resolution is pure: the caller probes the filesystem and environment and
//! hands the outcomes in as plain values. A descriptor without an icon field
//! resolves to nothing. When the icon field joined onto the descriptor's own
//! path names an existing file, that single direct candidate short-circuits
//! the theme search. Otherwise the theme search considers, for every
//! `:`-separated search root and every size bucket in priority order, the
//! directory `root/icons/<theme>/<size>/apps`, and keeps the entries whose
//! stem equals the icon field and whose extension classifies.

use vstd::prelude::*;
use vstd::string::*;

use crate::desktop::DesktopFile;
use crate::desktop::DesktopFileView;
use crate::icon::classify_of;
use crate::icon::RawIconType;
use crate::icon::RawIconView;
use crate::paths::file_stem;
use crate::paths::file_stem_of;
use crate::paths::find_from;
use crate::paths::join_path;
use crate::paths::prefix_without;
use crate::paths::spec_join;
use crate::paths::str_equal;

verus! {

/// All `:`-separated segments of `s`, empty segments kept, order kept.
pub open spec fn split_colons_of(s: Seq<char>) -> Seq<Seq<char>>
    decreases s.len(),
{
    let i = prefix_without(s, ':');
    if i >= s.len() {
        seq![s]
    } else {
        seq![s.subrange(0, i as int)] + split_colons_of(s.subrange(i + 1 as int, s.len() as int))
    }
}

/// Split `s` on `:`, keeping empty segments and order.
pub fn split_colons(s: &str) -> (r: Vec<String>)
    ensures
        r.deep_view() == split_colons_of(s@),
{
    let len = s.unicode_len();
    let mut r: Vec<String> = Vec::new();
    let mut pos: usize = 0;
    let mut done: bool = false;
    proof {
        assert(s@.subrange(0, len as int) =~= s@);
        assert(r.deep_view() =~= Seq::<Seq<char>>::empty());
        assert(r.deep_view() + split_colons_of(s@) =~= split_colons_of(s@));
    }
    while !done
        invariant
            pos <= len,
            len == s@.len(),
            !done ==> split_colons_of(s@) == r.deep_view() + split_colons_of(
                s@.subrange(pos as int, len as int),
            ),
            done ==> split_colons_of(s@) == r.deep_view(),
        decreases (if done {
            0int
        } else {
            len - pos + 1
        }),
    {
        let j = find_from(s, pos, ':');
        let ghost sub = s@.subrange(pos as int, len as int);
        let ghost prev = r.deep_view();
        r.push(String::from_str(s.substring_char(pos, j)));
        proof {
            assert(s@.subrange(pos as int, j as int) =~= sub.subrange(0, j - pos));
            assert(r.deep_view() =~= prev.push(sub.subrange(0, j - pos)));
            if j < len {
                assert(sub.subrange(j - pos + 1, sub.len() as int) =~= s@.subrange(
                    j + 1,
                    len as int,
                ));
                assert(prev.push(sub.subrange(0, j - pos)) + split_colons_of(
                    s@.subrange(j + 1, len as int),
                ) =~= prev + (seq![sub.subrange(0, j - pos)] + split_colons_of(
                    s@.subrange(j + 1, len as int),
                )));
            } else {
                assert(sub.subrange(0, j - pos) =~= sub);
                assert(prev.push(sub) =~= prev + seq![sub]);
            }
        }
        if j < len {
            pos = j + 1;
        } else {
            done = true;
        }
    }
    r
}

/// The icon theme searched: the configured name, or `hicolor` when none
/// is configured.
pub open spec fn spec_icon_theme(configured: Option<Seq<char>>) -> Seq<char> {
    match configured {
        Option::Some(t) => t,
        Option::None => "hicolor"@,
    }
}

/// The icon theme to search, defaulting to `hicolor`.
pub fn icon_theme(configured: &Option<String>) -> (r: String)
    ensures
        r@ == spec_icon_theme(configured.deep_view()),
{
    match configured {
        Some(t) => String::from_str(t.as_str()),
        None => String::from_str("hicolor"),
    }
}

/// The themed directory for one search root and one size bucket:
/// `root/icons/<theme>/<size>/apps`.
pub open spec fn theme_dir_of(root: Seq<char>, theme: Seq<char>, size: Seq<char>) -> Seq<char> {
    spec_join(spec_join(spec_join(spec_join(root, "icons"@), theme), size), "apps"@)
}

/// The fixed size buckets searched within a theme, in priority order.
pub open spec fn spec_icon_sizes() -> Seq<Seq<char>> {
    seq!["128x128"@, "scalable"@, "256x256"@, "64x64"@, "32x32"@]
}

/// The themed directories for one search root, size buckets in order.
pub open spec fn dirs_for_root(root: Seq<char>, theme: Seq<char>) -> Seq<Seq<char>> {
    spec_icon_sizes().map_values(|size: Seq<char>| theme_dir_of(root, theme, size))
}

/// The themed directories for all search roots: root-major, size-minor.
pub open spec fn theme_dirs_of(roots: Seq<Seq<char>>, theme: Seq<char>) -> Seq<Seq<char>>
    decreases roots.len(),
{
    if roots.len() == 0 {
        Seq::empty()
    } else {
        dirs_for_root(roots[0], theme) + theme_dirs_of(roots.drop_first(), theme)
    }
}

proof fn lemma_theme_dirs_push(roots: Seq<Seq<char>>, theme: Seq<char>, root: Seq<char>)
    ensures
        theme_dirs_of(roots.push(root), theme) == theme_dirs_of(roots, theme) + dirs_for_root(
            root,
            theme,
        ),
    decreases roots.len(),
{
    if roots.len() == 0 {
        assert(roots.push(root)[0] == root);
        assert(roots.push(root).drop_first() =~= Seq::<Seq<char>>::empty());
        assert(theme_dirs_of(roots.push(root), theme) == dirs_for_root(root, theme)
            + theme_dirs_of(Seq::<Seq<char>>::empty(), theme));
        assert(theme_dirs_of(roots, theme) + dirs_for_root(root, theme) =~= dirs_for_root(
            root,
            theme,
        ) + Seq::<Seq<char>>::empty());
    } else {
        assert(roots.push(root)[0] == roots[0]);
        assert(roots.push(root).drop_first() =~= roots.drop_first().push(root));
        assert(theme_dirs_of(roots.push(root), theme) == dirs_for_root(roots[0], theme)
            + theme_dirs_of(roots.drop_first().push(root), theme));
        lemma_theme_dirs_push(roots.drop_first(), theme, root);
        assert(theme_dirs_of(roots, theme) == dirs_for_root(roots[0], theme) + theme_dirs_of(
            roots.drop_first(),
            theme,
        ));
        assert(dirs_for_root(roots[0], theme) + (theme_dirs_of(roots.drop_first(), theme)
            + dirs_for_root(root, theme)) =~= (dirs_for_root(roots[0], theme) + theme_dirs_of(
            roots.drop_first(),
            theme,
        )) + dirs_for_root(root, theme));
    }
}

/// The directories a theme search reads for `data_dirs` and `theme`:
/// every `:`-separated root crossed with every size bucket, root-major.
pub open spec fn spec_theme_search_dirs(data_dirs: Seq<char>, theme: Seq<char>) -> Seq<Seq<char>> {
    theme_dirs_of(split_colons_of(data_dirs), theme)
}

/// Enumerate the themed directories to scan, in search order.
pub fn theme_search_dirs(data_dirs: &str, theme: &str) -> (r: Vec<String>)
    ensures
        r.deep_view() == spec_theme_search_dirs(data_dirs@, theme@),
{
    let roots = split_colons(data_dirs);
    let mut r: Vec<String> = Vec::new();
    proof {
        assert(roots.deep_view().take(0) =~= Seq::<Seq<char>>::empty());
        assert(r.deep_view() =~= Seq::<Seq<char>>::empty());
    }
    let mut i: usize = 0;
    while i < roots.len()
        invariant
            i <= roots.len(),
            roots.deep_view() == split_colons_of(data_dirs@),
            r.deep_view() == theme_dirs_of(roots.deep_view().take(i as int), theme@),
        decreases roots.len() - i,
    {
        let ghost prev = r.deep_view();
        let ghost root_view = roots.deep_view()[i as int];
        let root = roots[i].as_str();
        proof {
            assert(root@ == root_view);
        }
        let base = join_path(root, "icons");
        let themed = join_path(base.as_str(), theme);
        let d0 = join_path(themed.as_str(), "128x128");
        let d0 = join_path(d0.as_str(), "apps");
        let d1 = join_path(themed.as_str(), "scalable");
        let d1 = join_path(d1.as_str(), "apps");
        let d2 = join_path(themed.as_str(), "256x256");
        let d2 = join_path(d2.as_str(), "apps");
        let d3 = join_path(themed.as_str(), "64x64");
        let d3 = join_path(d3.as_str(), "apps");
        let d4 = join_path(themed.as_str(), "32x32");
        let d4 = join_path(d4.as_str(), "apps");
        proof {
            assert(dirs_for_root(root_view, theme@) =~= seq![d0@, d1@, d2@, d3@, d4@]);
        }
        r.push(d0);
        r.push(d1);
        r.push(d2);
        r.push(d3);
        r.push(d4);
        proof {
            assert(r.deep_view() =~= prev + dirs_for_root(root_view, theme@));
            lemma_theme_dirs_push(roots.deep_view().take(i as int), theme@, root_view);
            assert(roots.deep_view().take(i + 1) =~= roots.deep_view().take(i as int).push(
                root_view,
            ));
        }
        i = i + 1;
    }
    proof {
        assert(roots.deep_view().take(roots.len() as int) =~= roots.deep_view());
    }
    r
}

/// The candidates among directory `entries` for icon `name`: entries whose
/// stem equals `name` and whose extension classifies, in entry order.
pub open spec fn matched_candidates_of(entries: Seq<Seq<char>>, name: Seq<char>) -> Seq<
    RawIconView,
>
    decreases entries.len(),
{
    if entries.len() == 0 {
        Seq::empty()
    } else {
        let rest = matched_candidates_of(entries.drop_first(), name);
        if file_stem_of(entries[0]) == name {
            match classify_of(entries[0]) {
                Option::Some(c) => seq![c] + rest,
                Option::None => rest,
            }
        } else {
            rest
        }
    }
}

proof fn lemma_matched_push(entries: Seq<Seq<char>>, name: Seq<char>, e: Seq<char>)
    ensures
        matched_candidates_of(entries.push(e), name) == matched_candidates_of(entries, name) + (
        if file_stem_of(e) == name && classify_of(e) is Some {
            seq![classify_of(e)->Some_0]
        } else {
            Seq::<RawIconView>::empty()
        }),
    decreases entries.len(),
{
    let tail = if file_stem_of(e) == name && classify_of(e) is Some {
        seq![classify_of(e)->Some_0]
    } else {
        Seq::<RawIconView>::empty()
    };
    if entries.len() == 0 {
        assert(entries.push(e)[0] == e);
        assert(entries.push(e).drop_first() =~= Seq::<Seq<char>>::empty());
        assert(matched_candidates_of(Seq::<Seq<char>>::empty(), name) == Seq::<
            RawIconView,
        >::empty());
        assert(matched_candidates_of(entries, name) + tail =~= tail);
        if file_stem_of(e) == name && classify_of(e) is Some {
            assert(seq![classify_of(e)->Some_0] + Seq::<RawIconView>::empty() =~= tail);
        }
    } else {
        assert(entries.push(e)[0] == entries[0]);
        assert(entries.push(e).drop_first() =~= entries.drop_first().push(e));
        lemma_matched_push(entries.drop_first(), name, e);
        let rest = matched_candidates_of(entries.drop_first(), name);
        if file_stem_of(entries[0]) == name && classify_of(entries[0]) is Some {
            assert(seq![classify_of(entries[0])->Some_0] + (rest + tail) =~= (seq![
                classify_of(entries[0])->Some_0,
            ] + rest) + tail);
        }
    }
}

/// Keep the entries whose stem equals `icon_name` and whose extension
/// classifies, as classified candidates in entry order.
pub fn candidates_from_entries(entries: &Vec<String>, icon_name: &str) -> (r: Vec<RawIconType>)
    ensures
        r.deep_view() == matched_candidates_of(entries.deep_view(), icon_name@),
{
    let mut r: Vec<RawIconType> = Vec::new();
    proof {
        assert(entries.deep_view().take(0) =~= Seq::<Seq<char>>::empty());
        assert(r.deep_view() =~= Seq::<RawIconView>::empty());
    }
    let mut i: usize = 0;
    while i < entries.len()
        invariant
            i <= entries.len(),
            r.deep_view() == matched_candidates_of(entries.deep_view().take(i as int), icon_name@),
        decreases entries.len() - i,
    {
        let ghost prev = r.deep_view();
        let ghost entry_view = entries.deep_view()[i as int];
        let entry = entries[i].as_str();
        proof {
            assert(entry@ == entry_view);
        }
        let stem = file_stem(entry);
        if str_equal(stem.as_str(), icon_name) {
            match RawIconType::from_path(String::from_str(entry)) {
                Some(c) => {
                    r.push(c);
                    proof {
                        assert(r.deep_view() =~= prev.push(c.deep_view()));
                        assert(prev.push(c.deep_view()) =~= prev + seq![c.deep_view()]);
                    }
                },
                None => {},
            }
        }
        proof {
            lemma_matched_push(entries.deep_view().take(i as int), icon_name@, entry_view);
            assert(entries.deep_view().take(i + 1) =~= entries.deep_view().take(i as int).push(
                entry_view,
            ));
            if !(file_stem_of(entry_view) == icon_name@ && classify_of(entry_view) is Some) {
                assert(prev + Seq::<RawIconView>::empty() =~= prev);
            }
        }
        i = i + 1;
    }
    proof {
        assert(entries.deep_view().take(entries.len() as int) =~= entries.deep_view());
    }
    r
}

/// What icon resolution yields for a descriptor, given the probed facts:
/// whether the direct path exists, whether the theme-root list was set at
/// all, and the entries of the readable themed directories in search order.
pub open spec fn spec_raw_icons(
    d: DesktopFileView,
    direct_exists: bool,
    data_dirs_set: bool,
    theme_entries: Seq<Seq<char>>,
) -> Seq<RawIconView> {
    match d.icon {
        Option::None => Seq::empty(),
        Option::Some(ic) => {
            if direct_exists {
                match classify_of(spec_join(d.path, ic)) {
                    Option::Some(c) => seq![c],
                    Option::None => Seq::empty(),
                }
            } else if !data_dirs_set {
                Seq::empty()
            } else {
                matched_candidates_of(theme_entries, ic)
            }
        },
    }
}

impl DesktopFile {
    /// Resolve this descriptor's icon field into raw candidates.
    ///
    /// The caller probes the world and passes plain facts: `direct_exists`
    /// says whether the icon field joined onto the descriptor's path names
    /// an existing file; `data_dirs_set` whether a theme-root list was
    /// present at all; `theme_entries` holds the entries of the readable
    /// directories of [`theme_search_dirs`], flattened in search order.
    /// Resolution never fails: every dead end yields an empty result.
    pub fn get_raw_icons(
        &self,
        direct_exists: bool,
        data_dirs_set: bool,
        theme_entries: &Vec<String>,
    ) -> (r: Vec<RawIconType>)
        ensures
            r.deep_view() == spec_raw_icons(
                self@,
                direct_exists,
                data_dirs_set,
                theme_entries.deep_view(),
            ),
            self@.icon is None ==> r@.len() == 0,
            self@.icon is Some && direct_exists ==> r@.len() <= 1,
    {
        let r = match &self.icon {
            None => Vec::new(),
            Some(ic) => {
                if direct_exists {
                    let joined = join_path(self.path.as_str(), ic.as_str());
                    match RawIconType::from_path(joined) {
                        Some(c) => {
                            let mut v: Vec<RawIconType> = Vec::new();
                            v.push(c);
                            proof {
                                assert(v.deep_view() =~= seq![c.deep_view()]);
                            }
                            v
                        },
                        None => Vec::new(),
                    }
                } else if !data_dirs_set {
                    Vec::new()
                } else {
                    candidates_from_entries(theme_entries, ic.as_str())
                }
            },
        };
        proof {
            if r@.len() == 0 {
                assert(r.deep_view() =~= Seq::<RawIconView>::empty());
            }
            assert(r.deep_view().len() == r@.len());
        }
        r
    }
}

/// A descriptor without an icon field resolves to no candidates, whatever
/// the probed facts say.
pub proof fn lemma_no_icon_resolves_empty(
    d: DesktopFileView,
    direct_exists: bool,
    data_dirs_set: bool,
    theme_entries: Seq<Seq<char>>,
)
    requires
        d.icon is None,
    ensures
        spec_raw_icons(d, direct_exists, data_dirs_set, theme_entries) == Seq::<
            RawIconView,
        >::empty(),
{
}

/// A resolvable direct path short-circuits the theme search: the result has
/// at most one candidate and does not depend on the theme-root list or on
/// any theme-directory entries.
pub proof fn lemma_direct_path_short_circuits(
    d: DesktopFileView,
    dds1: bool,
    dds2: bool,
    entries1: Seq<Seq<char>>,
    entries2: Seq<Seq<char>>,
)
    ensures
        spec_raw_icons(d, true, dds1, entries1) == spec_raw_icons(d, true, dds2, entries2),
        spec_raw_icons(d, true, dds1, entries1).len() <= 1,
{
}

} // verus!
