//! Resolution of the wrapped executable from the program's own invocation
//! name.
//!
//! In argv0 mode the program's file name, minus its extension, must end in
//! the fixed suffix `-pathwrap`; the wrapped executable is the same path
//! with the suffix dropped and the extension kept. When argv0 does not
//! carry the suffix, the caller falls back to taking the first argument
//! verbatim (argv1 mode), which needs no computation here.

use vstd::prelude::*;
use vstd::string::*;
use crate::pathmodel::{file_name_of, parent_of, join, split_path, join_path, str_eq};
use crate::digits::push_char;

verus! {

/// The fixed invocation-name suffix.
pub open spec fn wrap_suffix() -> Seq<char> {
    "-pathwrap"@
}

/// True when `s` ends with `suf`.
pub open spec fn ends_with(s: Seq<char>, suf: Seq<char>) -> bool {
    s.len() >= suf.len() && s.subrange(s.len() - suf.len(), s.len() as int) == suf
}

/// The index of the last `.` of a file name, or -1 when it has none.
pub open spec fn last_dot_idx(s: Seq<char>) -> int
    decreases s.len(),
{
    if s.len() == 0 {
        -1
    } else if s.last() == '.' {
        s.len() - 1
    } else {
        last_dot_idx(s.drop_last())
    }
}

/// The stem of a file name: what precedes its last `.`, or the whole name
/// when there is no `.` or it stands first.
pub open spec fn stem_of(name: Seq<char>) -> Seq<char> {
    if last_dot_idx(name) <= 0 {
        name
    } else {
        name.subrange(0, last_dot_idx(name))
    }
}

/// The extension of a file name: what follows its last `.`, absent when
/// there is no `.` or it stands first.
pub open spec fn ext_of(name: Seq<char>) -> Option<Seq<char>> {
    if last_dot_idx(name) <= 0 {
        None
    } else {
        Some(name.subrange(last_dot_idx(name) + 1, name.len() as int))
    }
}

/// The wrapped executable's path under argv0 mode: present exactly when
/// the invocation path has a file name whose stem ends in the suffix; then
/// the suffix is dropped from the stem, the extension is kept, and the
/// parent directory is kept.
pub open spec fn mode_a_target(argv0: Seq<char>) -> Option<Seq<char>> {
    if file_name_of(argv0) is None {
        None
    } else {
        let name = file_name_of(argv0)->Some_0;
        let stem = stem_of(name);
        if !ends_with(stem, wrap_suffix()) {
            None
        } else {
            let stripped = stem.subrange(0, stem.len() - wrap_suffix().len());
            let new_name = match ext_of(name) {
                Some(e) => stripped + seq!['.'] + e,
                None => stripped,
            };
            match parent_of(argv0) {
                Some(p) => Some(join(p, new_name)),
                None => Some(new_name),
            }
        }
    }
}

/// The bounds `last_dot_idx` observes.
proof fn lemma_last_dot_idx(s: Seq<char>)
    ensures
        -1 <= last_dot_idx(s) < s.len(),
    decreases s.len(),
{
    if s.len() > 0 && s.last() != '.' {
        lemma_last_dot_idx(s.drop_last());
    }
}

/// Finds the index of the last `.` of `name`, if any.
fn find_last_dot(name: &str) -> (r: Option<usize>)
    ensures
        r matches Some(i) ==> i == last_dot_idx(name@),
        r is None ==> last_dot_idx(name@) == -1,
{
    let len = name.unicode_len();
    proof {
        assert(name@.take(len as int) =~= name@);
    }
    let mut i = len;
    while i > 0
        invariant
            i <= len,
            len == name@.len(),
            last_dot_idx(name@.take(i as int)) == last_dot_idx(name@),
        decreases i,
    {
        let c = name.get_char(i - 1);
        proof {
            assert(name@.take(i as int).last() == name@[i - 1]);
        }
        if c == '.' {
            return Some(i - 1);
        }
        proof {
            assert(name@.take(i as int).drop_last() =~= name@.take(i - 1));
        }
        i = i - 1;
    }
    proof {
        assert(name@.take(0).len() == 0);
    }
    None
}

/// The stem and extension of a file name (see [`stem_of`] and [`ext_of`]).
fn split_stem(name: &str) -> (r: (String, Option<String>))
    ensures
        r.0@ == stem_of(name@),
        r.1 matches Some(e) ==> ext_of(name@) == Some(e@),
        r.1 is None ==> ext_of(name@) is None,
{
    let len = name.unicode_len();
    proof {
        lemma_last_dot_idx(name@);
    }
    match find_last_dot(name) {
        Some(i) if i > 0 => {
            let stem = String::from_str(name.substring_char(0, i));
            let ext = String::from_str(name.substring_char(i + 1, len));
            (stem, Some(ext))
        },
        _ => {
            proof {
                assert(name@.subrange(0, len as int) =~= name@);
            }
            (String::from_str(name), None)
        },
    }
}

/// Whether `s` ends with the invocation suffix; on success, `s` without it.
fn strip_wrap_suffix(s: &str) -> (r: Option<String>)
    ensures
        r matches Some(p) ==> ends_with(s@, wrap_suffix()) && p@ == s@.subrange(
            0,
            s@.len() - wrap_suffix().len(),
        ),
        r is None ==> !ends_with(s@, wrap_suffix()),
{
    let suffix = "-pathwrap";
    let slen = s.unicode_len();
    let suflen = suffix.unicode_len();
    if slen < suflen {
        return None;
    }
    let tail = s.substring_char(slen - suflen, slen);
    if str_eq(tail, suffix) {
        let head = String::from_str(s.substring_char(0, slen - suflen));
        Some(head)
    } else {
        None
    }
}

/// Resolves the wrapped executable from the invocation path, argv0 mode
/// (see [`mode_a_target`]): `None` when the invocation name does not carry
/// the suffix, so that the caller can fall back to argv1 mode.
pub fn resolve_wrapped(argv0: &str) -> (r: Option<String>)
    ensures
        r matches Some(t) ==> mode_a_target(argv0@) == Some(t@),
        r is None ==> mode_a_target(argv0@) is None,
{
    let (name_opt, parent_opt) = split_path(argv0);
    let name = match name_opt {
        None => {
            return None;
        },
        Some(n) => n,
    };
    let (stem, ext) = split_stem(name.as_str());
    let stripped = match strip_wrap_suffix(stem.as_str()) {
        None => {
            return None;
        },
        Some(p) => p,
    };
    let new_name = match ext {
        Some(e) => {
            let mut n = stripped;
            push_char(&mut n, '.');
            n.append(e.as_str());
            proof {
                assert(n@ =~= stem_of(name@).subrange(
                    0,
                    stem_of(name@).len() - wrap_suffix().len(),
                ) + seq!['.'] + ext_of(name@)->Some_0);
            }
            n
        },
        None => stripped,
    };
    match parent_opt {
        Some(p) => Some(join_path(p.as_str(), new_name.as_str())),
        None => Some(new_name),
    }
}

} // verus!
