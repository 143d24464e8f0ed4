//! A textual model of file paths.
//!
//! A path is a character string; `\` and `/` both count as component
//! separators, and trailing separators are ignored. The file name of a path
//! is the portion after its last separator (the whole path when there is
//! none), provided it is non-empty and is not one of the relative
//! components `.` and `..`; the parent is the portion before that
//! separator. A path without a separator has no parent. Joining emits `\`,
//! the separator of the platform whose length cap this tool works around.

use vstd::prelude::*;
use vstd::string::*;
use vstd::utf8::is_ascii_chars;
use crate::digits::push_char;

verus! {

/// The length (in characters) below which an all-ASCII path is left alone.
pub const SHORT_PATH_LIMIT: usize = 250;

/// True of the two path separators.
pub open spec fn is_sep(c: char) -> bool {
    c == '\\' || c == '/'
}

/// `s` without its trailing separators.
pub open spec fn trim_seps(s: Seq<char>) -> Seq<char>
    decreases s.len(),
{
    if s.len() > 0 && is_sep(s.last()) {
        trim_seps(s.drop_last())
    } else {
        s
    }
}

/// The index of the last separator of `s`, or -1 when it has none.
pub open spec fn last_sep_idx(s: Seq<char>) -> int
    decreases s.len(),
{
    if s.len() == 0 {
        -1
    } else if is_sep(s.last()) {
        s.len() - 1
    } else {
        last_sep_idx(s.drop_last())
    }
}

/// The file-name portion of a path, trailing separators ignored: what
/// follows the last separator (the whole path when there is none), unless
/// that is empty or one of the relative components `.` and `..`.
pub open spec fn file_name_of(s: Seq<char>) -> Option<Seq<char>> {
    let t = trim_seps(s);
    if t.len() == 0 {
        None
    } else {
        let n = t.subrange(last_sep_idx(t) + 1, t.len() as int);
        if n == seq!['.'] || n == seq!['.', '.'] {
            None
        } else {
            Some(n)
        }
    }
}

/// The parent portion of a path, trailing separators ignored: what precedes
/// the last separator. A path without a separator has no parent.
pub open spec fn parent_of(s: Seq<char>) -> Option<Seq<char>> {
    let t = trim_seps(s);
    if last_sep_idx(t) < 0 {
        None
    } else {
        Some(t.subrange(0, last_sep_idx(t)))
    }
}

/// A path the rewriter leaves alone: all-ASCII and short, or without a
/// file name, or without a parent to relink.
pub open spec fn skip_path(s: Seq<char>) -> bool {
    ||| (is_ascii_chars(s) && s.len() < SHORT_PATH_LIMIT)
    ||| file_name_of(s) is None
    ||| parent_of(s) is None
}

/// `dir` and `name` joined with a separator.
pub open spec fn join(dir: Seq<char>, name: Seq<char>) -> Seq<char> {
    dir + seq!['\\'] + name
}

/// Trimming removes a suffix of separators and nothing else.
pub proof fn lemma_trim_seps(s: Seq<char>)
    ensures
        trim_seps(s).len() <= s.len(),
        trim_seps(s) == s.take(trim_seps(s).len() as int),
        trim_seps(s).len() > 0 ==> !is_sep(trim_seps(s).last()),
    decreases s.len(),
{
    if s.len() > 0 && is_sep(s.last()) {
        lemma_trim_seps(s.drop_last());
        assert(s.drop_last().take(trim_seps(s).len() as int) =~= s.take(
            trim_seps(s).len() as int,
        ));
    } else {
        assert(s.take(s.len() as int) =~= s);
    }
}

/// The bounds `last_sep_idx` observes, and what it means: separators only
/// at or before it, none after it.
pub proof fn lemma_last_sep_idx(s: Seq<char>)
    ensures
        -1 <= last_sep_idx(s) < s.len(),
        last_sep_idx(s) >= 0 ==> is_sep(s[last_sep_idx(s)]),
        forall|k: int| last_sep_idx(s) < k < s.len() ==> !is_sep(#[trigger] s[k]),
    decreases s.len(),
{
    if s.len() > 0 && !is_sep(s.last()) {
        lemma_last_sep_idx(s.drop_last());
        assert forall|k: int| last_sep_idx(s) < k < s.len() implies !is_sep(#[trigger] s[k]) by {
            if k < s.len() - 1 {
                assert(s.drop_last()[k] == s[k]);
            }
        }
    }
}

/// A file name is non-empty, contains no separator, and is neither `.` nor
/// `..`.
pub proof fn lemma_file_name_no_sep(s: Seq<char>)
    requires
        file_name_of(s) is Some,
    ensures
        file_name_of(s)->Some_0.len() > 0,
        forall|k: int|
            0 <= k < file_name_of(s)->Some_0.len() ==> !is_sep(
                #[trigger] file_name_of(s)->Some_0[k],
            ),
        file_name_of(s)->Some_0 != seq!['.'],
        file_name_of(s)->Some_0 != seq!['.', '.'],
{
    let t = trim_seps(s);
    lemma_trim_seps(s);
    lemma_last_sep_idx(t);
    let name = file_name_of(s)->Some_0;
    assert(last_sep_idx(t) < t.len() - 1);
    assert forall|k: int| 0 <= k < name.len() implies !is_sep(#[trigger] name[k]) by {
        assert(name[k] == t[last_sep_idx(t) + 1 + k]);
    }
}

/// Joining a directory with a plain file name (non-empty, separator-free,
/// neither `.` nor `..`) splits back into exactly that directory and that
/// name.
pub proof fn lemma_join_splits(dir: Seq<char>, name: Seq<char>)
    requires
        name.len() > 0,
        forall|k: int| 0 <= k < name.len() ==> !is_sep(#[trigger] name[k]),
        name != seq!['.'],
        name != seq!['.', '.'],
    ensures
        parent_of(join(dir, name)) == Some(dir),
        file_name_of(join(dir, name)) == Some(name),
{
    let j = join(dir, name);
    let h = dir + seq!['\\'];
    assert(j == h + name);
    assert(j[dir.len() as int] == '\\');
    assert(!is_sep(j.last())) by {
        assert(j.last() == name.last());
    }
    assert(trim_seps(j) == j);
    lemma_last_sep_idx(j);
    assert forall|k: int| dir.len() < k < j.len() implies !is_sep(#[trigger] j[k]) by {
        assert(j[k] == name[k - h.len()]);
    }
    if last_sep_idx(j) > dir.len() {
        assert(is_sep(j[last_sep_idx(j)]));
        assert(false);
    }
    if last_sep_idx(j) < dir.len() {
        assert(false);
    }
    assert(last_sep_idx(j) == dir.len());
    assert(parent_of(j)->Some_0 =~= dir);
    assert(j.subrange(last_sep_idx(j) + 1, j.len() as int) =~= name);
}

/// Whether the character at `i` is a separator.
fn sep_at(path: &str, i: usize) -> (r: bool)
    requires
        i < path@.len(),
    ensures
        r == is_sep(path@[i as int]),
{
    let c = path.get_char(i);
    c == '\\' || c == '/'
}

/// `path` without its trailing separators.
fn trim_trailing_seps<'a>(path: &'a str) -> (r: &'a str)
    ensures
        r@ == trim_seps(path@),
{
    let len = path.unicode_len();
    proof {
        assert(path@.take(len as int) =~= path@);
    }
    let mut end = len;
    while end > 0 && sep_at(path, end - 1)
        invariant
            end <= len,
            len == path@.len(),
            trim_seps(path@.take(end as int)) == trim_seps(path@),
        decreases end,
    {
        proof {
            assert(path@.take(end as int).last() == path@[end - 1]);
            assert(path@.take(end as int).drop_last() =~= path@.take(end - 1));
        }
        end = end - 1;
    }
    proof {
        if end > 0 {
            assert(path@.take(end as int).last() == path@[end - 1]);
            assert(trim_seps(path@.take(end as int)) == path@.take(end as int));
        } else {
            assert(path@.take(0).len() == 0);
        }
    }
    path.substring_char(0, end)
}

/// Finds the index of the last separator of `path`, if any.
pub fn find_last_sep(path: &str) -> (r: Option<usize>)
    ensures
        r matches Some(i) ==> i == last_sep_idx(path@),
        r is None ==> last_sep_idx(path@) == -1,
{
    let len = path.unicode_len();
    proof {
        assert(path@.take(len as int) =~= path@);
    }
    let mut i = len;
    while i > 0
        invariant
            i <= len,
            len == path@.len(),
            last_sep_idx(path@.take(i as int)) == last_sep_idx(path@),
        decreases i,
    {
        let c = path.get_char(i - 1);
        proof {
            assert(path@.take(i as int).last() == path@[i - 1]);
        }
        if c == '\\' || c == '/' {
            return Some(i - 1);
        }
        proof {
            assert(path@.take(i as int).drop_last() =~= path@.take(i - 1));
        }
        i = i - 1;
    }
    proof {
        assert(path@.take(0).len() == 0);
    }
    None
}

/// The file-name and parent portions of `path`, as [`file_name_of`] and
/// [`parent_of`] describe them.
pub fn split_path(path: &str) -> (r: (Option<String>, Option<String>))
    ensures
        r.0 matches Some(n) ==> file_name_of(path@) == Some(n@),
        r.0 is None ==> file_name_of(path@) is None,
        r.1 matches Some(p) ==> parent_of(path@) == Some(p@),
        r.1 is None ==> parent_of(path@) is None,
{
    let t = trim_trailing_seps(path);
    let tlen = t.unicode_len();
    proof {
        lemma_last_sep_idx(t@);
    }
    if tlen == 0 {
        return (None, None);
    }
    let (start, parent) = match find_last_sep(t) {
        None => (0usize, None),
        Some(i) => (i + 1, Some(String::from_str(t.substring_char(0, i)))),
    };
    let name = t.substring_char(start, tlen);
    proof {
        if start == 0 {
            assert(t@.subrange(0, tlen as int) =~= t@);
        }
        reveal_strlit(".");
        reveal_strlit("..");
        assert("."@ =~= seq!['.']);
        assert(".."@ =~= seq!['.', '.']);
    }
    if str_eq(name, ".") || str_eq(name, "..") {
        (None, parent)
    } else {
        (Some(String::from_str(name)), parent)
    }
}

/// `dir` and `name` joined with a separator (see [`join`]).
pub fn join_path(dir: &str, name: &str) -> (r: String)
    ensures
        r@ == join(dir@, name@),
{
    let mut out = String::from_str(dir);
    push_char(&mut out, '\\');
    out.append(name);
    proof {
        assert(out@ =~= join(dir@, name@));
    }
    out
}

/// Character-wise string equality.
pub fn str_eq(a: &str, b: &str) -> (r: bool)
    ensures
        r == (a@ == b@),
{
    let alen = a.unicode_len();
    let blen = b.unicode_len();
    if alen != blen {
        return false;
    }
    let mut i: usize = 0;
    while i < alen
        invariant
            i <= alen,
            alen == a@.len(),
            alen == b@.len(),
            forall|k: int| 0 <= k < i ==> a@[k] == b@[k],
        decreases alen - i,
    {
        if a.get_char(i) != b.get_char(i) {
            return false;
        }
        i = i + 1;
    }
    proof {
        assert(a@ =~= b@);
    }
    true
}

/// Whether the rewriter must leave `path` alone without looking at the
/// filesystem (see [`skip_path`] for the three local reasons; a parent that
/// fails to canonicalize is the fourth, non-local one).
pub fn is_short_ascii(path: &str) -> (r: bool)
    ensures
        r == (is_ascii_chars(path@) && path@.len() < SHORT_PATH_LIMIT),
{
    path.is_ascii() && path.unicode_len() < SHORT_PATH_LIMIT
}

} // verus!
