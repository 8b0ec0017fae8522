//! A plain-text model of filesystem paths.
//!
//! Paths are held as strings and reasoned about as sequences of characters.
//! The operations mirror the Unix path conventions the rest of the library
//! depends on: joining with a `/` separator, and taking the final component,
//! its stem and its extension. The final component is the longest suffix
//! free of separators; its extension is what follows its last `.`, absent
//! when there is no `.` or when the only `.` starts the name.

use vstd::prelude::*;
use vstd::string::*;

verus! {

/// The length of the longest prefix of `s` that does not contain `c`.
pub open spec fn prefix_without(s: Seq<char>, c: char) -> nat
    decreases s.len(),
{
    if s.len() == 0 {
        0
    } else if s[0] == c {
        0
    } else {
        1 + prefix_without(s.drop_first(), c)
    }
}

/// The length of the longest suffix of `s` that does not contain `c`.
pub open spec fn suffix_without(s: Seq<char>, c: char) -> nat
    decreases s.len(),
{
    if s.len() == 0 {
        0
    } else if s[s.len() - 1] == c {
        0
    } else {
        1 + suffix_without(s.drop_last(), c)
    }
}

/// A forward scan that stopped at position `j` pins down `prefix_without`.
pub proof fn lemma_prefix_without_scan(s: Seq<char>, c: char, j: int)
    requires
        0 <= j <= s.len(),
        forall|k: int| 0 <= k < j ==> s[k] != c,
        j == s.len() || s[j] == c,
    ensures
        prefix_without(s, c) == j,
    decreases s.len(),
{
    if j == 0 {
    } else {
        lemma_prefix_without_scan(s.drop_first(), c, j - 1);
    }
}

/// A backward scan that stopped at position `j` pins down `suffix_without`.
pub proof fn lemma_suffix_without_scan(s: Seq<char>, c: char, j: int)
    requires
        0 <= j <= s.len(),
        forall|k: int| j <= k < s.len() ==> s[k] != c,
        j == 0 || s[j - 1] == c,
    ensures
        suffix_without(s, c) == s.len() - j,
    decreases s.len(),
{
    if j < s.len() {
        lemma_suffix_without_scan(s.drop_last(), c, j);
    }
}

/// Index of the character after the last occurrence of `c` in `p`
/// (0 when `c` does not occur).
fn scan_after_last(p: &str, c: char) -> (j: usize)
    ensures
        j <= p@.len(),
        p@.len() - j == suffix_without(p@, c),
{
    let len = p.unicode_len();
    let mut j: usize = len;
    while j > 0 && p.get_char(j - 1) != c
        invariant
            j <= len,
            len == p@.len(),
            forall|k: int| j <= k < p@.len() ==> p@[k] != c,
        decreases j,
    {
        j = j - 1;
    }
    proof {
        lemma_suffix_without_scan(p@, c, j as int);
    }
    j
}

/// Index of the first occurrence of `c` in `s` at or after `pos`
/// (`s`'s length when there is none).
pub(crate) fn find_from(s: &str, pos: usize, c: char) -> (j: usize)
    requires
        pos <= s@.len(),
    ensures
        pos <= j <= s@.len(),
        prefix_without(s@.subrange(pos as int, s@.len() as int), c) == j - pos,
        j < s@.len() ==> s@[j as int] == c,
        forall|k: int| pos <= k < j ==> s@[k] != c,
{
    let len = s.unicode_len();
    let mut j: usize = pos;
    while j < len && s.get_char(j) != c
        invariant
            pos <= j <= len,
            len == s@.len(),
            forall|k: int| pos <= k < j ==> s@[k] != c,
        decreases len - j,
    {
        j = j + 1;
    }
    proof {
        let sub = s@.subrange(pos as int, s@.len() as int);
        assert forall|k: int| 0 <= k < j - pos implies sub[k] != c by {
            assert(sub[k] == s@[pos + k]);
        }
        if (j as int) < s@.len() {
            assert(sub[j - pos] == s@[j as int]);
        }
        lemma_prefix_without_scan(sub, c, j - pos);
    }
    j
}

/// Whether two strings hold the same characters.
pub(crate) fn str_equal(a: &str, b: &str) -> (r: bool)
    ensures
        r == (a@ == b@),
{
    let sa = String::from_str(a);
    let sb = String::from_str(b);
    sa == sb
}

/// The result of joining `base` and `rel` with a `/` separator: an absolute
/// `rel` replaces `base`; an empty `base` disappears; otherwise a single
/// separator stands between the two.
pub open spec fn spec_join(base: Seq<char>, rel: Seq<char>) -> Seq<char> {
    if rel.len() > 0 && rel[0] == '/' {
        rel
    } else if base.len() == 0 {
        rel
    } else if base[base.len() - 1] == '/' {
        base + rel
    } else {
        base + seq!['/'] + rel
    }
}

/// Join `rel` onto `base` as a relative path.
pub fn join_path(base: &str, rel: &str) -> (r: String)
    ensures
        r@ == spec_join(base@, rel@),
{
    let rel_len = rel.unicode_len();
    if rel_len > 0 && rel.get_char(0) == '/' {
        String::from_str(rel)
    } else {
        let base_len = base.unicode_len();
        if base_len == 0 {
            String::from_str(rel)
        } else {
            let mut s = String::from_str(base);
            if base.get_char(base_len - 1) != '/' {
                s.append("/");
                proof {
                    reveal_strlit("/");
                    assert(s@ =~= base@ + seq!['/']);
                }
            }
            s.append(rel);
            proof {
                assert(s@ =~= spec_join(base@, rel@));
            }
            s
        }
    }
}

/// The final component of `p`: its longest suffix without a separator.
pub open spec fn file_name_of(p: Seq<char>) -> Seq<char> {
    p.subrange(p.len() - suffix_without(p, '/'), p.len() as int)
}

/// The final component of `p`.
pub fn file_name(p: &str) -> (r: String)
    ensures
        r@ == file_name_of(p@),
{
    let len = p.unicode_len();
    let j = scan_after_last(p, '/');
    String::from_str(p.substring_char(j, len))
}

/// The extension of `p`'s final component: what follows its last `.`,
/// or absent when the name holds no `.` or only a leading one.
pub open spec fn extension_of(p: Seq<char>) -> Option<Seq<char>> {
    let n = file_name_of(p);
    let e = suffix_without(n, '.');
    if e == n.len() || n.len() - e - 1 == 0 {
        None
    } else {
        Some(n.subrange(n.len() - e, n.len() as int))
    }
}

/// The stem of `p`'s final component: the name with its extension and the
/// `.` before it removed.
pub open spec fn file_stem_of(p: Seq<char>) -> Seq<char> {
    let n = file_name_of(p);
    let e = suffix_without(n, '.');
    if e == n.len() || n.len() - e - 1 == 0 {
        n
    } else {
        n.subrange(0, n.len() - e - 1)
    }
}

/// `p` with the extension of its final component replaced by `ext`
/// (appended after a `.` when the name has no extension).
pub open spec fn with_extension_of(p: Seq<char>, ext: Seq<char>) -> Seq<char> {
    let n = file_name_of(p);
    let e = suffix_without(n, '.');
    if e == n.len() || n.len() - e - 1 == 0 {
        p + seq!['.'] + ext
    } else {
        p.subrange(0, p.len() - e - 1) + seq!['.'] + ext
    }
}

/// The extension of `p`'s final component.
pub fn extension(p: &str) -> (r: Option<String>)
    ensures
        r.deep_view() == extension_of(p@),
{
    let len = p.unicode_len();
    let js = scan_after_last(p, '/');
    let name = p.substring_char(js, len);
    proof {
        assert(name@ == file_name_of(p@));
    }
    let jd = scan_after_last(name, '.');
    if jd <= 1 {
        None
    } else {
        let r = String::from_str(p.substring_char(js + jd, len));
        proof {
            assert(r@ =~= name@.subrange(jd as int, name@.len() as int));
        }
        Some(r)
    }
}

/// The stem of `p`'s final component.
pub fn file_stem(p: &str) -> (r: String)
    ensures
        r@ == file_stem_of(p@),
{
    let len = p.unicode_len();
    let js = scan_after_last(p, '/');
    let name = p.substring_char(js, len);
    proof {
        assert(name@ == file_name_of(p@));
    }
    let jd = scan_after_last(name, '.');
    if jd <= 1 {
        String::from_str(name)
    } else {
        let r = String::from_str(p.substring_char(js, js + jd - 1));
        proof {
            assert(r@ =~= name@.subrange(0, jd - 1));
        }
        r
    }
}

/// `p` with its extension replaced by `ext`.
pub fn with_extension(p: &str, ext: &str) -> (r: String)
    ensures
        r@ == with_extension_of(p@, ext@),
{
    let len = p.unicode_len();
    let js = scan_after_last(p, '/');
    let name = p.substring_char(js, len);
    proof {
        assert(name@ == file_name_of(p@));
    }
    let jd = scan_after_last(name, '.');
    let keep: usize = if jd <= 1 {
        len
    } else {
        js + jd - 1
    };
    let mut s = String::from_str(p.substring_char(0, keep));
    s.append(".");
    s.append(ext);
    proof {
        reveal_strlit(".");
        assert(s@ =~= with_extension_of(p@, ext@));
    }
    s
}

} // verus!
