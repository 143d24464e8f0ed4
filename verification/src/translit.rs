//! Transliteration of directory base names into short ASCII forms.
//!
//! ASCII characters other than `~` pass through unchanged; every other
//! character (including `~`) becomes the letter `x` followed by its code
//! point in upper-case hexadecimal, minimum two digits. The transliterated
//! form therefore never contains `~`, which the alias generator relies on
//! when it appends `~<n>` collision suffixes. The final base is the
//! (possibly transliterated) name cut to at most [`BASE_LEN_MAX`] characters.

use vstd::prelude::*;
use vstd::string::*;
use vstd::utf8::is_ascii_chars;
use crate::digits::{hex_rep_min2, hex_rep, push_char, push_hex_min2, lemma_hex_rep_chars};

verus! {

/// The character budget of an alias base name.
pub const BASE_LEN_MAX: usize = 20;

/// A character the transliteration keeps as it stands: ASCII (code point
/// below 128), and not the collision-suffix separator `~`.
pub open spec fn keeps(c: char) -> bool {
    (c as u32) < 128 && c != '~'
}

/// True when every character of `s` has a code point below 128.
pub open spec fn ascii_only(s: Seq<char>) -> bool {
    forall|k: int| 0 <= k < s.len() ==> ((#[trigger] s[k]) as u32) < 128
}

/// The escape emitted for a character the transliteration does not keep.
pub open spec fn escape_char(c: char) -> Seq<char> {
    seq!['x'] + hex_rep_min2(c as nat)
}

/// The transliteration of a whole character sequence.
pub open spec fn translit(s: Seq<char>) -> Seq<char>
    decreases s.len(),
{
    if s.len() == 0 {
        Seq::empty()
    } else {
        translit(s.drop_last()) + (if keeps(s.last()) {
            seq![s.last()]
        } else {
            escape_char(s.last())
        })
    }
}

/// The alias base derived from a directory's last component: the name
/// itself when it is all ASCII, its transliteration otherwise, cut to at
/// most [`BASE_LEN_MAX`] characters.
pub open spec fn base_of(name: Seq<char>) -> Seq<char> {
    let t = if is_ascii_chars(name) {
        name
    } else {
        translit(name)
    };
    if t.len() <= BASE_LEN_MAX {
        t
    } else {
        t.take(BASE_LEN_MAX as int)
    }
}

/// True when no character of `s` is `~`.
pub open spec fn no_tilde(s: Seq<char>) -> bool {
    forall|k: int| 0 <= k < s.len() ==> s[k] != '~'
}

/// Every character an escape emits is ASCII and differs from `~`.
pub proof fn lemma_escape_char_chars(c: char)
    ensures
        forall|k: int|
            0 <= k < escape_char(c).len() ==> ((#[trigger] escape_char(c)[k]) as u32) < 128
                && escape_char(c)[k] != '~',
{
    lemma_hex_rep_chars(c as nat);
    assert forall|k: int| 0 <= k < escape_char(c).len() implies ((#[trigger] escape_char(
        c,
    )[k]) as u32) < 128 && escape_char(c)[k] != '~' by {
        if k == 0 {
            assert(escape_char(c)[k] == 'x');
        } else {
            assert(escape_char(c)[k] == hex_rep_min2(c as nat)[k - 1]);
            if (c as nat) < 16 {
                if k == 1 {
                    assert(hex_rep_min2(c as nat)[0] == '0');
                } else {
                    assert(hex_rep_min2(c as nat)[k - 1] == hex_rep(c as nat)[k - 2]);
                }
            }
        }
    }
}

/// Transliteration never emits a literal `~`, whatever the input character
/// sequence; the collision-count suffix `~<n>` a generated alias may carry
/// is therefore unambiguous for transliterated bases.
pub proof fn lemma_translit_no_tilde(s: Seq<char>)
    ensures
        no_tilde(translit(s)),
    decreases s.len(),
{
    if s.len() > 0 {
        lemma_translit_no_tilde(s.drop_last());
        lemma_escape_char_chars(s.last());
        let pre = translit(s.drop_last());
        assert forall|k: int| 0 <= k < translit(s).len() implies translit(s)[k] != '~' by {
            if k < pre.len() {
                assert(translit(s)[k] == pre[k]);
            } else if keeps(s.last()) {
                assert(translit(s)[k] == s.last());
            } else {
                assert(translit(s)[k] == escape_char(s.last())[k - pre.len()]);
            }
        }
    }
}

/// Transliteration emits ASCII characters only.
pub proof fn lemma_translit_ascii(s: Seq<char>)
    ensures
        ascii_only(translit(s)),
    decreases s.len(),
{
    if s.len() > 0 {
        lemma_translit_ascii(s.drop_last());
        lemma_escape_char_chars(s.last());
        let pre = translit(s.drop_last());
        assert forall|k: int| 0 <= k < translit(s).len() implies ((#[trigger] translit(
            s,
        )[k]) as u32) < 128 by {
            if k < pre.len() {
                assert(translit(s)[k] == pre[k]);
            } else if keeps(s.last()) {
                assert(translit(s)[k] == s.last());
            } else {
                assert(translit(s)[k] == escape_char(s.last())[k - pre.len()]);
            }
        }
    }
}

/// An alias base is ASCII, at most [`BASE_LEN_MAX`] characters, and free of
/// `~` whenever the name it came from was either not all ASCII (so it was
/// transliterated) or was ASCII without a `~` of its own.
pub proof fn lemma_base_of_shape(name: Seq<char>)
    ensures
        ascii_only(base_of(name)),
        base_of(name).len() <= BASE_LEN_MAX,
        !is_ascii_chars(name) ==> no_tilde(base_of(name)),
        no_tilde(name) ==> no_tilde(base_of(name)),
{
    lemma_translit_ascii(name);
    lemma_translit_no_tilde(name);
    let t = if is_ascii_chars(name) {
        name
    } else {
        translit(name)
    };
    assert forall|k: int| 0 <= k < base_of(name).len() implies ((#[trigger] base_of(
        name,
    )[k]) as u32) < 128 by {
        assert(base_of(name)[k] == t[k]);
    }
    if !is_ascii_chars(name) || no_tilde(name) {
        assert forall|k: int| 0 <= k < base_of(name).len() implies base_of(name)[k] != '~' by {
            assert(base_of(name)[k] == t[k]);
        }
    }
}

/// The transliterated form of `name`, built character by character.
pub fn transliterate(name: &str) -> (r: String)
    ensures
        r@ == translit(name@),
{
    let len = name.unicode_len();
    let mut out = String::new();
    let mut i: usize = 0;
    while i < len
        invariant
            i <= len,
            len == name@.len(),
            out@ == translit(name@.take(i as int)),
        decreases len - i,
    {
        let ghost prefix = name@.take(i as int);
        let c = name.get_char(i);
        if (c as u32) < 128 && c != '~' {
            push_char(&mut out, c);
            proof {
                assert(name@.take(i + 1).drop_last() =~= prefix);
                assert(name@.take(i + 1).last() == c);
                assert(out@ =~= translit(name@.take(i + 1)));
            }
        } else {
            push_char(&mut out, 'x');
            push_hex_min2(&mut out, c as u32);
            proof {
                assert(name@.take(i + 1).drop_last() =~= prefix);
                assert(name@.take(i + 1).last() == c);
                assert(out@ =~= translit(prefix) + escape_char(c));
                assert(out@ =~= translit(name@.take(i + 1)));
            }
        }
        i = i + 1;
    }
    proof {
        assert(name@.take(len as int) =~= name@);
    }
    out
}

/// The alias base for a directory's last component (see [`base_of`]).
pub fn make_base(name: &str) -> (r: String)
    ensures
        r@ == base_of(name@),
{
    let t: String = if name.is_ascii() {
        String::from_str(name)
    } else {
        transliterate(name)
    };
    let tlen = t.as_str().unicode_len();
    if tlen <= BASE_LEN_MAX {
        t
    } else {
        let cut = t.as_str().substring_char(0, BASE_LEN_MAX);
        String::from_str(cut)
    }
}

} // verus!

