//! Desktop-entry descriptors and the line-oriented parser that fills them.
//!
//! A descriptor is parsed from the lines of a `.desktop` file: blank lines
//! and `#` comments are skipped, every other line is split on its first `=`,
//! lines without one are ignored, and of the recognized keys (`Name`, `Exec`,
//! `Categories`, `Icon`) the last occurrence wins. The `Categories` value is
//! split on `;`, empty segments dropped, order and duplicates kept.

use vstd::prelude::*;
use vstd::string::*;

use crate::paths::find_from;
use crate::paths::prefix_without;
use crate::paths::str_equal;

verus! {

/// Spec-level image of a parsed descriptor.
#[verifier::ext_equal]
pub struct DesktopFileView {
    pub path: Seq<char>,
    pub name: Option<Seq<char>>,
    pub command: Option<Seq<char>>,
    pub categories: Seq<Seq<char>>,
    pub icon: Option<Seq<char>>,
}

/// A parsed desktop-entry descriptor. `path` is always the file the
/// descriptor was parsed from, even when every other field is absent.
#[derive(Debug, Clone)]
pub struct DesktopFile {
    pub path: String,
    pub name: Option<String>,
    pub command: Option<String>,
    pub categories: Vec<String>,
    pub icon: Option<String>,
}

impl View for DesktopFile {
    type V = DesktopFileView;

    open spec fn view(&self) -> DesktopFileView {
        DesktopFileView {
            path: self.path@,
            name: self.name.deep_view(),
            command: self.command.deep_view(),
            categories: self.categories.deep_view(),
            icon: self.icon.deep_view(),
        }
    }
}

/// A line the parser passes over: empty, or a `#` comment.
pub open spec fn line_skipped(line: Seq<char>) -> bool {
    line.len() == 0 || line[0] == '#'
}

/// The line split on its first `=`, or nothing when it has none.
pub open spec fn split_once_eq(line: Seq<char>) -> Option<(Seq<char>, Seq<char>)> {
    let i = prefix_without(line, '=');
    if i >= line.len() {
        None
    } else {
        Some((line.subrange(0, i as int), line.subrange(i + 1 as int, line.len() as int)))
    }
}

/// The `;`-separated segments of `v`, empty segments dropped, order kept.
pub open spec fn split_categories(v: Seq<char>) -> Seq<Seq<char>>
    decreases v.len(),
{
    if v.len() == 0 {
        Seq::empty()
    } else {
        let i = prefix_without(v, ';');
        if i >= v.len() {
            seq![v]
        } else {
            let rest = split_categories(v.subrange(i + 1 as int, v.len() as int));
            if i == 0 {
                rest
            } else {
                seq![v.subrange(0, i as int)] + rest
            }
        }
    }
}

/// One parser step: how a single line changes the descriptor.
pub open spec fn apply_desktop_line(d: DesktopFileView, line: Seq<char>) -> DesktopFileView {
    if line_skipped(line) {
        d
    } else {
        match split_once_eq(line) {
            Option::None => d,
            Option::Some((key, value)) => {
                if key == "Name"@ {
                    DesktopFileView { name: Some(value), ..d }
                } else if key == "Exec"@ {
                    DesktopFileView { command: Some(value), ..d }
                } else if key == "Categories"@ {
                    DesktopFileView { categories: split_categories(value), ..d }
                } else if key == "Icon"@ {
                    DesktopFileView { icon: Some(value), ..d }
                } else {
                    d
                }
            },
        }
    }
}

/// The parser folded over a sequence of lines.
pub open spec fn parse_lines_from(d: DesktopFileView, lines: Seq<Seq<char>>) -> DesktopFileView
    decreases lines.len(),
{
    if lines.len() == 0 {
        d
    } else {
        parse_lines_from(apply_desktop_line(d, lines[0]), lines.drop_first())
    }
}

/// A descriptor with only its originating path set.
pub open spec fn empty_descriptor(path: Seq<char>) -> DesktopFileView {
    DesktopFileView {
        path: path,
        name: None,
        command: None,
        categories: Seq::empty(),
        icon: None,
    }
}

/// The descriptor that parsing `lines` from the file at `path` yields.
pub open spec fn spec_parse_desktop(path: Seq<char>, lines: Seq<Seq<char>>) -> DesktopFileView {
    parse_lines_from(empty_descriptor(path), lines)
}

/// Folding one more line equals applying it to the folded prefix.
proof fn lemma_parse_lines_push(d: DesktopFileView, lines: Seq<Seq<char>>, line: Seq<char>)
    ensures
        parse_lines_from(d, lines.push(line)) == apply_desktop_line(
            parse_lines_from(d, lines),
            line,
        ),
    decreases lines.len(),
{
    if lines.len() == 0 {
        assert(lines.push(line)[0] == line);
        assert(lines.push(line).drop_first() =~= Seq::<Seq<char>>::empty());
        assert(parse_lines_from(d, lines.push(line)) == parse_lines_from(
            apply_desktop_line(d, line),
            Seq::<Seq<char>>::empty(),
        ));
        assert(parse_lines_from(apply_desktop_line(d, line), Seq::<Seq<char>>::empty())
            == apply_desktop_line(d, line));
    } else {
        assert(lines.push(line)[0] == lines[0]);
        assert(lines.push(line).drop_first() =~= lines.drop_first().push(line));
        assert(parse_lines_from(d, lines.push(line)) == parse_lines_from(
            apply_desktop_line(d, lines[0]),
            lines.drop_first().push(line),
        ));
        lemma_parse_lines_push(apply_desktop_line(d, lines[0]), lines.drop_first(), line);
        assert(parse_lines_from(d, lines) == parse_lines_from(
            apply_desktop_line(d, lines[0]),
            lines.drop_first(),
        ));
    }
}

proof fn lemma_parse_lines_keeps_path(d: DesktopFileView, lines: Seq<Seq<char>>)
    ensures
        parse_lines_from(d, lines).path == d.path,
    decreases lines.len(),
{
    if lines.len() > 0 {
        assert(apply_desktop_line(d, lines[0]).path == d.path);
        lemma_parse_lines_keeps_path(apply_desktop_line(d, lines[0]), lines.drop_first());
    }
}

/// Whatever the lines hold, the parsed descriptor carries the path of the
/// file it was parsed from.
pub proof fn lemma_parse_keeps_path(path: Seq<char>, lines: Seq<Seq<char>>)
    ensures
        spec_parse_desktop(path, lines).path == path,
{
    lemma_parse_lines_keeps_path(empty_descriptor(path), lines);
}

/// Split `v` on `;`, dropping empty segments and keeping order.
pub fn split_semicolons(v: &str) -> (r: Vec<String>)
    ensures
        r.deep_view() == split_categories(v@),
{
    let len = v.unicode_len();
    let mut r: Vec<String> = Vec::new();
    let mut pos: usize = 0;
    proof {
        assert(v@.subrange(0, len as int) =~= v@);
        assert(r.deep_view() =~= Seq::<Seq<char>>::empty());
        assert(r.deep_view() + split_categories(v@) =~= split_categories(v@));
    }
    while pos < len
        invariant
            pos <= len,
            len == v@.len(),
            split_categories(v@) == r.deep_view() + split_categories(
                v@.subrange(pos as int, len as int),
            ),
        decreases len - pos,
    {
        let j = find_from(v, pos, ';');
        let ghost sub = v@.subrange(pos as int, len as int);
        let ghost prev = r.deep_view();
        if j > pos {
            r.push(String::from_str(v.substring_char(pos, j)));
            proof {
                assert(v@.subrange(pos as int, j as int) =~= sub.subrange(0, j - pos));
                assert(r.deep_view() =~= prev.push(sub.subrange(0, j - pos)));
            }
        }
        proof {
            if j < len {
                assert(sub.subrange(j - pos + 1, sub.len() as int) =~= v@.subrange(
                    j + 1,
                    len as int,
                ));
                if j > pos {
                    assert(prev.push(sub.subrange(0, j - pos)) + split_categories(
                        v@.subrange(j + 1, len as int),
                    ) =~= prev + (seq![sub.subrange(0, j - pos)] + split_categories(
                        v@.subrange(j + 1, len as int),
                    )));
                }
            } else {
                assert(v@.subrange(len as int, len as int) =~= Seq::<char>::empty());
                if j > pos {
                    assert(prev.push(sub) + split_categories(v@.subrange(len as int, len as int))
                        =~= prev + seq![sub]);
                    assert(sub.subrange(0, j - pos) =~= sub);
                }
            }
        }
        if j < len {
            pos = j + 1;
        } else {
            pos = len;
        }
    }
    proof {
        assert(v@.subrange(pos as int, len as int) =~= Seq::<char>::empty());
        assert(r.deep_view() + Seq::<Seq<char>>::empty() =~= r.deep_view());
    }
    r
}

/// Parse the lines of the descriptor file at `path` into a descriptor.
/// Skipping, key recognition and category splitting follow
/// [`apply_desktop_line`], line by line in order.
pub fn parse_desktop_lines(path: String, lines: &Vec<String>) -> (d: DesktopFile)
    ensures
        d@ == spec_parse_desktop(path@, lines.deep_view()),
{
    let ghost path_view = path@;
    let mut d = DesktopFile {
        path,
        name: None,
        command: None,
        categories: Vec::new(),
        icon: None,
    };
    proof {
        assert(d@ =~= empty_descriptor(path_view));
        assert(lines.deep_view().take(0) =~= Seq::<Seq<char>>::empty());
    }
    let mut i: usize = 0;
    while i < lines.len()
        invariant
            i <= lines.len(),
            d@.path == path_view,
            d@ == parse_lines_from(empty_descriptor(path_view), lines.deep_view().take(i as int)),
        decreases lines.len() - i,
    {
        let ghost before = d@;
        let line = lines[i].as_str();
        let len = line.unicode_len();
        proof {
            assert(lines.deep_view()[i as int] == lines@[i as int].deep_view());
            assert(line@ == lines.deep_view()[i as int]);
        }
        if !(len == 0 || line.get_char(0) == '#') {
            let eq = find_from(line, 0, '=');
            proof {
                assert(line@.subrange(0, line@.len() as int) =~= line@);
            }
            if eq < len {
                let key = line.substring_char(0, eq);
                let value = line.substring_char(eq + 1, len);
                if str_equal(key, "Name") {
                    d.name = Some(String::from_str(value));
                } else if str_equal(key, "Exec") {
                    d.command = Some(String::from_str(value));
                } else if str_equal(key, "Categories") {
                    d.categories = split_semicolons(value);
                } else if str_equal(key, "Icon") {
                    d.icon = Some(String::from_str(value));
                }
            }
        }
        proof {
            assert(d@ =~= apply_desktop_line(before, lines.deep_view()[i as int]));
            assert(lines.deep_view().take(i + 1) =~= lines.deep_view().take(i as int).push(
                lines.deep_view()[i as int],
            ));
            lemma_parse_lines_push(
                empty_descriptor(path_view),
                lines.deep_view().take(i as int),
                lines.deep_view()[i as int],
            );
        }
        i = i + 1;
    }
    proof {
        assert(lines.deep_view().take(lines.len() as int) =~= lines.deep_view());
    }
    d
}

} // verus!
