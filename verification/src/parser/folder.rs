//! Johnny Decimal IDs in note and folder names.
use vstd::prelude::*;
use crate::models::NoteIdKind;
use crate::text::{
    CharClass, chars_of, has_char, has_suffix, is_digit, lemma_run_end, run_end, scan_run,
    slice_vec, split_on, split_vec, string_of, word_char, is_alphanumeric,
};

verus! {

/// End of the dotted-number run `\d+(?:\.\d+)*` that continues at `d`.
pub open spec fn jd_ext(s: Seq<char>, d: int) -> int
    decreases s.len() - d,
{
    if 0 <= d && d + 1 < s.len() && s[d] == '.' && is_digit(s[d + 1]) {
        proof {
            lemma_run_end(s, d + 1, CharClass::Digit);
        }
        jd_ext(s, run_end(s, d + 1, CharClass::Digit))
    } else {
        d
    }
}

/// Length of the leading Johnny Decimal ID `^\d+(?:\.\d+)*` of `s` (0: none).
pub open spec fn jd_len(s: Seq<char>) -> int {
    let d = run_end(s, 0, CharClass::Digit);
    if d == 0 {
        0
    } else {
        jd_ext(s, d)
    }
}

pub open spec fn strip_ext(s: Seq<char>) -> Seq<char> {
    if has_suffix(s, seq!['.', 'm', 'd']) {
        s.take(s.len() - 3)
    } else if has_suffix(s, seq!['.', 't', 'x', 't']) {
        s.take(s.len() - 4)
    } else {
        s
    }
}

/// A word boundary at position `i` after a word character.
pub open spec fn boundary_at(s: Seq<char>, i: int) -> bool {
    i == s.len() || !word_char(s[i])
}

/// The hub-code grammar `^00\.(PH|DH|RH)\b`.
pub open spec fn is_hub_code(s: Seq<char>) -> bool {
    &&& s.len() >= 5
    &&& s[0] == '0' && s[1] == '0' && s[2] == '.'
    &&& (s[3] == 'P' || s[3] == 'D' || s[3] == 'R')
    &&& s[4] == 'H'
    &&& boundary_at(s, 5)
}

/// The date-prefix grammar `^(\d{4}-\d{2}-\d{2})\b`.
pub open spec fn is_date_prefix(s: Seq<char>) -> bool {
    &&& s.len() >= 10
    &&& is_digit(s[0]) && is_digit(s[1]) && is_digit(s[2]) && is_digit(s[3])
    &&& s[4] == '-' && is_digit(s[5]) && is_digit(s[6])
    &&& s[7] == '-' && is_digit(s[8]) && is_digit(s[9])
    &&& boundary_at(s, 10)
}

/// The ID and its kind for a (possibly extension-bearing) note name.
pub open spec fn note_id(name: Seq<char>) -> Option<(Seq<char>, NoteIdKind)> {
    let s = strip_ext(name);
    if is_hub_code(s) {
        Some((s.take(5), NoteIdKind::HubCode))
    } else if is_date_prefix(s) {
        Some((s.take(10), NoteIdKind::DatePrefix))
    } else if jd_len(s) > 0 {
        let id = s.take(jd_len(s));
        if id == seq!['0', '0'] {
            Some((id, NoteIdKind::BareHub))
        } else if id.contains('.') {
            Some((id, NoteIdKind::JdDotted))
        } else if id.len() >= 2 {
            Some((id, NoteIdKind::Sequential))
        } else {
            Some((id, NoteIdKind::JdDotted))
        }
    } else {
        None
    }
}

/// The leading Johnny Decimal ID of a name, extension stripped.
pub open spec fn jd_id(name: Seq<char>) -> Option<Seq<char>> {
    let s = strip_ext(name);
    if jd_len(s) > 0 {
        Some(s.take(jd_len(s)))
    } else {
        None
    }
}

/// The JD ID of the folder that holds the last component of a path.
pub open spec fn parent_jd_id(path: Seq<char>) -> Option<Seq<char>> {
    let parts = split_on(path, '/');
    if parts.len() < 2 {
        None
    } else {
        jd_id(parts[parts.len() - 2])
    }
}

pub fn strip_ext_chars(s: &Vec<char>) -> (r: Vec<char>)
    ensures
        r@ == strip_ext(s@),
{
    let md = vec!['.', 'm', 'd'];
    let txt = vec!['.', 't', 'x', 't'];
    assert(md@ =~= seq!['.', 'm', 'd']);
    assert(txt@ =~= seq!['.', 't', 'x', 't']);
    if crate::text::ends_with(s, &md) {
        slice_vec(s, 0, s.len() - 3)
    } else if crate::text::ends_with(s, &txt) {
        slice_vec(s, 0, s.len() - 4)
    } else {
        s.clone()
    }
}

fn is_word(c: char) -> (b: bool)
    ensures
        b == word_char(c),
{
    is_alphanumeric(c) || c == '_'
}

fn digit(c: char) -> (b: bool)
    ensures
        b == is_digit(c),
{
    '0' <= c && c <= '9'
}

fn hub_code(s: &Vec<char>) -> (b: bool)
    ensures
        b == is_hub_code(s@),
{
    s.len() >= 5 && s[0] == '0' && s[1] == '0' && s[2] == '.' && (s[3] == 'P' || s[3] == 'D'
        || s[3] == 'R') && s[4] == 'H' && (s.len() == 5 || !is_word(s[5]))
}

fn date_prefix(s: &Vec<char>) -> (b: bool)
    ensures
        b == is_date_prefix(s@),
{
    s.len() >= 10 && digit(s[0]) && digit(s[1]) && digit(s[2]) && digit(s[3]) && s[4] == '-'
        && digit(s[5]) && digit(s[6]) && s[7] == '-' && digit(s[8]) && digit(s[9]) && (s.len()
        == 10 || !is_word(s[10]))
}

/// Length of the leading JD ID.
pub fn jd_length(s: &Vec<char>) -> (n: usize)
    ensures
        n == jd_len(s@),
        n <= s.len(),
{
    let d0 = scan_run(s, 0, CharClass::Digit);
    if d0 == 0 {
        return 0;
    }
    let mut d = d0;
    while d < s.len() && s.len() - d > 1 && s[d] == '.' && digit(s[d + 1])
        invariant
            d0 <= d <= s.len(),
            jd_ext(s@, d as int) == jd_ext(s@, d0 as int),
        decreases s.len() - d,
    {
        d = scan_run(s, d + 1, CharClass::Digit);
    }
    d
}

pub fn note_id_chars(name: &Vec<char>) -> (r: Option<(Vec<char>, NoteIdKind)>)
    ensures
        match r {
            Some((id, k)) => note_id(name@) == Some((id@, k)),
            None => note_id(name@) is None,
        },
{
    let s = strip_ext_chars(name);
    if hub_code(&s) {
        return Some((slice_vec(&s, 0, 5), NoteIdKind::HubCode));
    }
    if date_prefix(&s) {
        return Some((slice_vec(&s, 0, 10), NoteIdKind::DatePrefix));
    }
    let n = jd_length(&s);
    if n == 0 {
        return None;
    }
    let id = slice_vec(&s, 0, n);
    let kind = if id.len() == 2 && id[0] == '0' && id[1] == '0' {
        assert(id@ =~= seq!['0', '0']);
        NoteIdKind::BareHub
    } else if has_char(&id, '.') {
        proof {
            if id@ == seq!['0', '0'] {
                assert(id@[0] == '0' && id@[1] == '0');
            }
        }
        NoteIdKind::JdDotted
    } else if id.len() >= 2 {
        proof {
            if id@ == seq!['0', '0'] {
                assert(id@[0] == '0' && id@[1] == '0');
            }
        }
        NoteIdKind::Sequential
    } else {
        NoteIdKind::JdDotted
    };
    Some((id, kind))
}

/// Parse a note's ID from its name, with its kind. Checked in order: hub code
/// (`00.PH`), date prefix (`2026-03-09`), then the leading dotted number: a
/// bare `00`, a dotted ID, two or more digits (sequential), or one digit.
pub fn parse_note_id(name: &str) -> (r: Option<(String, NoteIdKind)>)
    ensures
        match r {
            Some((id, k)) => note_id(name@) == Some((id@, k)),
            None => note_id(name@) is None,
        },
{
    let n = chars_of(name);
    match note_id_chars(&n) {
        Some((id, k)) => Some((string_of(&id), k)),
        None => None,
    }
}

pub fn jd_id_chars(name: &Vec<char>) -> (r: Option<Vec<char>>)
    ensures
        r matches Some(x) ==> jd_id(name@) == Some(x@),
        r is None ==> jd_id(name@) is None,
{
    let s = strip_ext_chars(name);
    let n = jd_length(&s);
    if n == 0 {
        None
    } else {
        Some(slice_vec(&s, 0, n))
    }
}

/// The leading Johnny Decimal ID of a file or folder name:
/// "42.02 - Taxes" gives "42.02", "My Random Note.md" gives nothing.
pub fn parse_jd_id(name: &str) -> (r: Option<String>)
    ensures
        r.deep_view() == jd_id(name@),
{
    let n = chars_of(name);
    match jd_id_chars(&n) {
        Some(x) => Some(string_of(&x)),
        None => None,
    }
}

pub fn parent_jd_id_chars(path: &Vec<char>) -> (r: Option<Vec<char>>)
    ensures
        r matches Some(x) ==> parent_jd_id(path@) == Some(x@),
        r is None ==> parent_jd_id(path@) is None,
{
    let parts = split_vec(path, '/');
    if parts.len() < 2 {
        return None;
    }
    proof {
        assert(parts[parts.len() - 2].deep_view() =~= parts[parts.len() - 2]@);
    }
    jd_id_chars(&parts[parts.len() - 2])
}

/// The JD ID of the folder that directly holds the last path component.
pub fn parent_jd_id_from_path(relative_path: &str) -> (r: Option<String>)
    ensures
        r.deep_view() == parent_jd_id(relative_path@),
{
    let p = chars_of(relative_path);
    match parent_jd_id_chars(&p) {
        Some(x) => Some(string_of(&x)),
        None => None,
    }
}

} // verus!
