//! Parsing a note's content into a `Note`: title, IDs, sections, tasks,
//! links, tags, mentions, front matter and template placeholders.
use vstd::prelude::*;
use crate::models::{Note, NoteIdKind, NoteKind, Section, SectionV, NoteV};
use crate::parser::folder::{note_id, note_id_chars, parent_jd_id, parent_jd_id_chars};
use crate::parser::link::{links_of_lines, extract_wiki_links};
use crate::parser::task::{marker_runs, mentions_of, tasks_of, tasks_of_lines, find_marker_runs, find_mentions};
use crate::text::{
    CharClass, all_ws, chars_of, has_prefix, is_digit, is_whitespace, is_ws, lemma_run_end,
    lines, no_nl, no_nl_from, run_end, scan_run, slice_vec, split_lines, split_on, split_vec,
    string_of, strings_of, trim, trim_vec, vec_eq, word_char, is_alphanumeric, eq_str,
    starts_with, chars_of_string, concat,
};

verus! {

/// The heading grammar `^(#{1,6})\s+(.+)$`: the level and the raw heading text.
pub open spec fn heading_match(s: Seq<char>) -> Option<(int, Seq<char>)> {
    let h = run_end(s, 0, CharClass::Hash);
    if 1 <= h <= 6 {
        let p = run_end(s, h, CharClass::Ws);
        if p > h && p < s.len() && no_nl(s.skip(p)) {
            Some((h, s.skip(p)))
        } else if p > h + 1 && p == s.len() && s.last() != '\n' {
            Some((h, s.skip(p - 1)))
        } else {
            None
        }
    } else {
        None
    }
}

pub fn heading_chars(s: &Vec<char>) -> (r: Option<(u8, Vec<char>)>)
    ensures
        match r {
            Some((lvl, g)) => heading_match(s@) == Some((lvl as int, g@)) && 1 <= lvl <= 6,
            None => heading_match(s@) is None,
        },
{
    let n = s.len();
    let h = scan_run(s, 0, CharClass::Hash);
    if h < 1 || h > 6 {
        return None;
    }
    let p = scan_run(s, h, CharClass::Ws);
    if p > h && p < n && no_nl_from(s, p) {
        return Some((h as u8, slice_vec(s, p, n)));
    }
    if p > h + 1 && p == n && s[n - 1] != '\n' {
        return Some((h as u8, slice_vec(s, p - 1, n)));
    }
    None
}

/// The title heading's text in a sequence of lines: the first line whose
/// trimmed text is a heading, its text trimmed.
pub open spec fn title_in(ls: Seq<Seq<char>>) -> Option<Seq<char>>
    decreases ls.len(),
{
    if ls.len() == 0 {
        None
    } else {
        match title_in(ls.drop_last()) {
            Some(t) => Some(t),
            None => match heading_match(trim(ls.last())) {
                Some((_, g)) => Some(trim(g)),
                None => None,
            },
        }
    }
}

/// Index of the last `c` in `s`, or -1.
pub open spec fn last_index(s: Seq<char>, c: char) -> int
    decreases s.len(),
{
    if s.len() == 0 {
        -1
    } else if s.last() == c {
        s.len() - 1
    } else {
        last_index(s.drop_last(), c)
    }
}

/// The file stem of a relative path (`Path::file_stem`, empty when absent):
/// the last `/` component without its last extension; a name whose only dot
/// leads keeps it.
pub open spec fn file_stem(path: Seq<char>) -> Seq<char> {
    let name = split_on(path, '/').last();
    if name.len() == 0 || name == seq!['.', '.'] {
        Seq::empty()
    } else if last_index(name, '.') > 0 {
        name.take(last_index(name, '.'))
    } else {
        name
    }
}

/// End (exclusive) of a section whose heading has `level`, scanning from `j`:
/// the next line whose trimmed text is a heading of the same or higher level.
pub open spec fn section_end(ls: Seq<Seq<char>>, j: int, level: int) -> int
    decreases ls.len() - j,
{
    if j < 0 || j >= ls.len() {
        j
    } else {
        match heading_match(trim(ls[j])) {
            Some((l2, _)) => if l2 <= level {
                j
            } else {
                section_end(ls, j + 1, level)
            },
            None => section_end(ls, j + 1, level),
        }
    }
}

pub proof fn lemma_section_end(ls: Seq<Seq<char>>, j: int, level: int)
    requires
        0 <= j <= ls.len(),
    ensures
        j <= section_end(ls, j, level) <= ls.len(),
    decreases ls.len() - j,
{
    if j < ls.len() {
        lemma_section_end(ls, j + 1, level);
    }
}

/// A line that counts as blank in a section: empty, `-`, `*` or `---`
/// after trimming.
pub open spec fn blankish(t: Seq<char>) -> bool {
    t.len() == 0 || t == seq!['-'] || t == seq!['*'] || t == seq!['-', '-', '-']
}

/// A section is empty when every content line is a heading or blankish.
pub open spec fn section_empty(cl: Seq<Seq<char>>) -> bool {
    forall|i: int|
        0 <= i < cl.len() ==> (heading_match(trim(#[trigger] cl[i])) is Some || blankish(
            trim(cl[i]),
        ))
}

/// The sections of the lines from `i` on: each heading line with the lines up
/// to the next heading of the same or higher level.
pub open spec fn sections_from(ls: Seq<Seq<char>>, i: int) -> Seq<SectionV>
    decreases ls.len() - i,
{
    if i < 0 || i >= ls.len() {
        Seq::empty()
    } else {
        match heading_match(trim(ls[i])) {
            Some((lvl, g)) => {
                proof {
                    lemma_section_end(ls, i + 1, lvl);
                }
                let j = section_end(ls, i + 1, lvl);
                seq![
                    SectionV {
                        heading: trim(g),
                        level: lvl as u8,
                        line_number: (i + 1) as usize,
                        content_lines: ls.subrange(i + 1, j),
                        is_empty: section_empty(ls.subrange(i + 1, j)),
                    },
                ] + sections_from(ls, j)
            },
            None => sections_from(ls, i + 1),
        }
    }
}

/// `s` with repeated elements removed, first occurrences kept in order.
pub open spec fn dedup(s: Seq<Seq<char>>) -> Seq<Seq<char>>
    decreases s.len(),
{
    if s.len() == 0 {
        Seq::empty()
    } else {
        let d = dedup(s.drop_last());
        if d.contains(s.last()) {
            d
        } else {
            d.push(s.last())
        }
    }
}

/// The front-matter grammar `^---\s*\n[\s\S]*?\n---\s*\n`: an opening line
/// feed at `a` and a closing `\n---` at `b`.
pub open spec fn fm_open(s: Seq<char>, a: int) -> bool {
    &&& s.len() >= 3 && s[0] == '-' && s[1] == '-' && s[2] == '-'
    &&& 3 <= a < s.len()
    &&& all_ws(s.subrange(3, a))
    &&& s[a] == '\n'
}

pub open spec fn fm_close(s: Seq<char>, b: int) -> bool {
    &&& 0 <= b && b + 4 <= s.len()
    &&& s[b] == '\n' && s[b + 1] == '-' && s[b + 2] == '-' && s[b + 3] == '-'
    &&& exists|c: int|
        b + 4 <= c < s.len() && all_ws(#[trigger] s.subrange(b + 4, c)) && s[c] == '\n'
}

pub open spec fn has_front_matter(s: Seq<char>) -> bool {
    exists|a: int, b: int| fm_open(s, a) && a < b && fm_close(s, b)
}

pub open spec fn all_digits(s: Seq<char>) -> bool {
    forall|i: int| 0 <= i < s.len() ==> #[trigger] is_digit(s[i])
}

pub open spec fn all_word(s: Seq<char>) -> bool {
    forall|i: int| 0 <= i < s.len() ==> #[trigger] word_char(s[i])
}

/// `x` is `pre` followed by digits (at least `min` of them).
pub open spec fn prefix_digits(x: Seq<char>, pre: Seq<char>, min: int) -> bool {
    has_prefix(x, pre) && x.len() - pre.len() >= min && all_digits(x.skip(pre.len() as int))
}

/// `x` is `pre` followed by one or more word characters.
pub open spec fn prefix_word(x: Seq<char>, pre: Seq<char>) -> bool {
    has_prefix(x, pre) && x.len() > pre.len() && all_word(x.skip(pre.len() as int))
}

/// The bracketed texts that the template-placeholder grammar accepts.
pub open spec fn placeholder_inner(x: Seq<char>) -> bool {
    ||| x == "Add ID"@ || x == "Add Title"@ || x == "Project Name"@ || x == "Project Version"@
    ||| x == "Brief description"@
    ||| prefix_digits(x, "link to Project "@, 0) || prefix_digits(x, "link to Domain "@, 0)
    ||| prefix_digits(x, "link to Reference "@, 0) || prefix_digits(x, "link to project "@, 0)
    ||| prefix_digits(x, "link to domain "@, 0) || prefix_digits(x, "link to reference "@, 0)
    ||| prefix_digits(x, "link to person "@, 0) || prefix_digits(x, "link to concept "@, 0)
    ||| prefix_digits(x, "link to related "@, 0) || prefix_digits(x, "link to decision "@, 0)
    ||| x == "date"@
    ||| prefix_digits(x, "Link or citation "@, 1)
    ||| prefix_word(x, "Link to external "@) || prefix_word(x, "Link to related "@)
    ||| prefix_digits(x, "Essential fact "@, 1)
    ||| x == "What this is and why I saved it"@ || x == "Category"@
}

/// The `[placeholder]` texts of `s` from `i` on, left to right.
pub open spec fn placeholders_from(s: Seq<char>, i: int) -> Seq<Seq<char>>
    decreases s.len() - i,
{
    if i < 0 || i >= s.len() {
        Seq::empty()
    } else if s[i] == '[' {
        proof {
            lemma_run_end(s, i + 1, CharClass::NotCloseBracket);
        }
        let k = run_end(s, i + 1, CharClass::NotCloseBracket);
        if k < s.len() && placeholder_inner(s.subrange(i + 1, k)) {
            seq![s.subrange(i, k + 1)] + placeholders_from(s, k + 1)
        } else {
            placeholders_from(s, i + 1)
        }
    } else {
        placeholders_from(s, i + 1)
    }
}

pub open spec fn id_part(r: Option<(Seq<char>, NoteIdKind)>) -> Option<Seq<char>> {
    match r {
        Some((id, _)) => Some(id),
        None => None,
    }
}

pub open spec fn kind_part(r: Option<(Seq<char>, NoteIdKind)>) -> Option<NoteIdKind> {
    match r {
        Some((_, k)) => Some(k),
        None => None,
    }
}

/// The note that `parse_note` builds from its arguments.
pub open spec fn parsed_note(
    file_path: Seq<char>,
    relative_path: Seq<char>,
    content: Seq<char>,
    kind: NoteKind,
) -> NoteV {
    let ls = lines(content);
    let filename = file_stem(relative_path);
    let title = match title_in(ls) {
        Some(t) => t,
        None => filename,
    };
    NoteV {
        file_path,
        relative_path,
        title,
        jd_id: id_part(note_id(filename)),
        title_jd_id: id_part(note_id(title)),
        parent_jd_id: parent_jd_id(relative_path),
        note_id_kind: kind_part(note_id(filename)),
        title_note_id_kind: kind_part(note_id(title)),
        kind,
        content,
        tasks: tasks_of(ls),
        wiki_links: links_of_lines(ls),
        sections: sections_from(ls, 0),
        tags: dedup(marker_runs(content, 0, '#')),
        mentions: dedup(mentions_of(content)),
        has_frontmatter: has_front_matter(content),
        placeholders: dedup(placeholders_from(content, 0)),
    }
}


pub fn title_of_lines(ls: &Vec<Vec<char>>) -> (r: Option<Vec<char>>)
    ensures
        title_in(ls.deep_view()) == match r {
            Some(x) => Some(x@),
            None => None::<Seq<char>>,
        },
{
    let ghost lv = ls.deep_view();
    let mut i: usize = 0;
    while i < ls.len()
        invariant
            i <= ls.len(),
            lv == ls.deep_view(),
            title_in(lv.take(i as int)) is None,
        decreases ls.len() - i,
    {
        proof {
            assert(lv.take(i + 1).drop_last() =~= lv.take(i as int));
            assert(ls[i as int].deep_view() =~= ls[i as int]@);
        }
        let t = trim_vec(&ls[i]);
        match heading_chars(&t) {
            Some((_lvl, g)) => {
                let r = trim_vec(&g);
                proof {
                    lemma_title_prefix(lv, i as int + 1);
                }
                return Some(r);
            },
            None => {},
        }
        i += 1;
    }
    assert(lv.take(ls.len() as int) =~= lv);
    None
}

/// Once the title is found among the first `k` lines, more lines keep it.
proof fn lemma_title_prefix(ls: Seq<Seq<char>>, k: int)
    requires
        0 <= k <= ls.len(),
        title_in(ls.take(k)) is Some,
    ensures
        title_in(ls) == title_in(ls.take(k)),
    decreases ls.len() - k,
{
    if k == ls.len() {
        assert(ls.take(k) =~= ls);
    } else {
        assert(ls.take(k + 1).drop_last() =~= ls.take(k));
        lemma_title_prefix(ls, k + 1);
    }
}

pub fn file_stem_chars(path: &Vec<char>) -> (r: Vec<char>)
    ensures
        r@ == file_stem(path@),
{
    let parts = split_vec(path, '/');
    let name = &parts[parts.len() - 1];
    proof {
        assert(parts[parts.len() - 1].deep_view() =~= parts[parts.len() - 1]@);
    }
    if name.len() == 0 || (name.len() == 2 && name[0] == '.' && name[1] == '.') {
        proof {
            if name.len() == 2 {
                assert(name@ =~= seq!['.', '.']);
            }
        }
        return Vec::new();
    }
    proof {
        if name@ == seq!['.', '.'] {
            assert(name@[0] == '.' && name@[1] == '.');
        }
    }
    let mut k: usize = name.len();
    assert(name@.take(k as int) =~= name@);
    while k > 0 && name[k - 1] != '.'
        invariant
            k <= name.len(),
            last_index(name@.take(k as int), '.') == last_index(name@, '.'),
        decreases k,
    {
        assert(name@.take(k as int).drop_last() =~= name@.take(k - 1));
        k -= 1;
    }
    proof {
        if k > 0 {
            assert(name@.take(k as int).last() == '.');
        } else {
            assert(name@.take(0) =~= Seq::<char>::empty());
        }
    }
    if k > 1 {
        slice_vec(name, 0, k - 1)
    } else {
        name.clone()
    }
}

pub fn section_end_exec(ls: &Vec<Vec<char>>, j0: usize, level: u8) -> (j: usize)
    requires
        j0 <= ls.len(),
    ensures
        j == section_end(ls.deep_view(), j0 as int, level as int),
        j0 <= j <= ls.len(),
{
    let ghost lv = ls.deep_view();
    proof {
        lemma_section_end(lv, j0 as int, level as int);
    }
    let mut j = j0;
    while j < ls.len()
        invariant
            j0 <= j <= ls.len(),
            lv == ls.deep_view(),
            section_end(lv, j as int, level as int) == section_end(lv, j0 as int, level as int),
        decreases ls.len() - j,
    {
        proof {
            assert(ls[j as int].deep_view() =~= ls[j as int]@);
        }
        let t = trim_vec(&ls[j]);
        match heading_chars(&t) {
            Some((l2, _)) => {
                if l2 <= level {
                    return j;
                }
            },
            None => {},
        }
        j += 1;
    }
    j
}

fn is_blankish(t: &Vec<char>) -> (b: bool)
    ensures
        b == blankish(t@),
{
    if t.len() == 0 {
        return true;
    }
    if t.len() == 1 && (t[0] == '-' || t[0] == '*') {
        assert(t@ =~= seq![t@[0]]);
        return true;
    }
    if t.len() == 3 && t[0] == '-' && t[1] == '-' && t[2] == '-' {
        assert(t@ =~= seq!['-', '-', '-']);
        return true;
    }
    proof {
        if t@ == seq!['-'] || t@ == seq!['*'] {
            assert(t@.len() == 1);
        }
        if t@ == seq!['-', '-', '-'] {
            assert(t@[0] == '-' && t@[1] == '-' && t@[2] == '-');
        }
    }
    false
}

fn section_is_empty(ls: &Vec<Vec<char>>, lo: usize, hi: usize) -> (b: bool)
    requires
        lo <= hi <= ls.len(),
    ensures
        b == section_empty(ls.deep_view().subrange(lo as int, hi as int)),
{
    let ghost cl = ls.deep_view().subrange(lo as int, hi as int);
    let mut i = lo;
    while i < hi
        invariant
            lo <= i <= hi <= ls.len(),
            cl == ls.deep_view().subrange(lo as int, hi as int),
            forall|k: int|
                0 <= k < i - lo ==> (heading_match(trim(#[trigger] cl[k])) is Some || blankish(
                    trim(cl[k]),
                )),
        decreases hi - i,
    {
        proof {
            assert(ls[i as int].deep_view() =~= ls[i as int]@);
            assert(cl[i - lo] == ls[i as int]@);
        }
        let t = trim_vec(&ls[i]);
        if heading_chars(&t).is_none() && !is_blankish(&t) {
            return false;
        }
        i += 1;
    }
    true
}

fn copy_lines(ls: &Vec<Vec<char>>, lo: usize, hi: usize) -> (r: Vec<String>)
    requires
        lo <= hi <= ls.len(),
    ensures
        r.deep_view() == ls.deep_view().subrange(lo as int, hi as int),
{
    let mut r: Vec<String> = Vec::new();
    let mut i = lo;
    while i < hi
        invariant
            lo <= i <= hi <= ls.len(),
            r.deep_view() == ls.deep_view().subrange(lo as int, i as int),
        decreases hi - i,
    {
        let ghost r0 = r.deep_view();
        r.push(string_of(&ls[i]));
        proof {
            assert(ls[i as int].deep_view() =~= ls[i as int]@);
            assert(r.deep_view() =~= r0.push(ls[i as int]@));
            assert(ls.deep_view().subrange(lo as int, i + 1) =~= ls.deep_view().subrange(
                lo as int,
                i as int,
            ).push(ls.deep_view()[i as int]));
        }
        i += 1;
    }
    r
}

/// The sections of a note's lines.
pub fn sections_of_lines(ls: &Vec<Vec<char>>) -> (r: Vec<Section>)
    ensures
        r.deep_view() == sections_from(ls.deep_view(), 0),
{
    let ghost lv = ls.deep_view();
    let mut r: Vec<Section> = Vec::new();
    let mut i: usize = 0;
    while i < ls.len()
        invariant
            i <= ls.len(),
            lv == ls.deep_view(),
            r.deep_view() + sections_from(lv, i as int) == sections_from(lv, 0),
        decreases ls.len() - i,
    {
        proof {
            assert(ls[i as int].deep_view() =~= ls[i as int]@);
        }
        let t = trim_vec(&ls[i]);
        match heading_chars(&t) {
            Some((level, g)) => {
                let j = section_end_exec(ls, i + 1, level);
                let heading = trim_vec(&g);
                let sec = Section {
                    heading: string_of(&heading),
                    level,
                    line_number: i + 1,
                    content_lines: copy_lines(ls, i + 1, j),
                    is_empty: section_is_empty(ls, i + 1, j),
                };
                let ghost r0 = r.deep_view();
                r.push(sec);
                proof {
                    assert(r.deep_view() =~= r0.push(sec.deep_view()));
                    let rest = sections_from(lv, j as int);
                    assert(r0.push(sec.deep_view()) + rest =~= r0 + (seq![sec.deep_view()]
                        + rest));
                }
                i = j;
            },
            None => {
                i += 1;
            },
        }
    }
    assert(r.deep_view() + sections_from(lv, i as int) =~= r.deep_view());
    r
}

fn contains_chars(d: &Vec<Vec<char>>, x: &Vec<char>) -> (b: bool)
    ensures
        b == d.deep_view().contains(x@),
{
    let mut i: usize = 0;
    while i < d.len()
        invariant
            i <= d.len(),
            forall|k: int| 0 <= k < i ==> d.deep_view()[k] != x@,
        decreases d.len() - i,
    {
        proof {
            assert(d[i as int].deep_view() =~= d[i as int]@);
        }
        if vec_eq(&d[i], x) {
            assert(d.deep_view()[i as int] == x@);
            return true;
        }
        i += 1;
    }
    false
}

/// Repeated elements removed, first occurrences kept in order.
pub fn dedup_chars(s: &Vec<Vec<char>>) -> (r: Vec<Vec<char>>)
    ensures
        r.deep_view() == dedup(s.deep_view()),
{
    let ghost sv = s.deep_view();
    let mut r: Vec<Vec<char>> = Vec::new();
    let mut i: usize = 0;
    while i < s.len()
        invariant
            i <= s.len(),
            sv == s.deep_view(),
            r.deep_view() == dedup(sv.take(i as int)),
        decreases s.len() - i,
    {
        proof {
            assert(sv.take(i + 1).drop_last() =~= sv.take(i as int));
            assert(s[i as int].deep_view() =~= s[i as int]@);
        }
        if !contains_chars(&r, &s[i]) {
            let ghost r0 = r.deep_view();
            let x = s[i].clone();
            assert(x.deep_view() =~= x@);
            r.push(x);
            assert(r.deep_view() =~= r0.push(sv[i as int]));
        }
        i += 1;
    }
    assert(sv.take(s.len() as int) =~= sv);
    r
}

/// Whether the maximal whitespace run from `from` holds a line feed.
fn ws_run_has_nl(s: &Vec<char>, from: usize) -> (r: Option<usize>)
    requires
        from <= s.len(),
    ensures
        match r {
            Some(c) => from <= c < s.len() && all_ws(s@.subrange(from as int, c as int)) && s@[c
                as int] == '\n' && forall|k: int| from <= k < c ==> s@[k] != '\n',
            None => forall|c: int|
                from <= c < s.len() && all_ws(#[trigger] s@.subrange(from as int, c)) ==> s@[c]
                    != '\n',
        },
{
    let mut i = from;
    while i < s.len() && is_whitespace(s[i])
        invariant
            from <= i <= s.len(),
            all_ws(s@.subrange(from as int, i as int)),
            forall|c: int| from <= c < i ==> s@[c] != '\n',
        decreases s.len() - i,
    {
        if s[i] == '\n' {
            return Some(i);
        }
        i += 1;
        assert forall|k: int| 0 <= k < s@.subrange(from as int, i as int).len() implies is_ws(
            #[trigger] s@.subrange(from as int, i as int)[k],
        ) by {
            if k < i - 1 - from {
                assert(s@.subrange(from as int, i as int)[k] == s@.subrange(
                    from as int,
                    i - 1,
                )[k]);
            }
        }
    }
    assert forall|c: int|
        from <= c < s.len() && all_ws(#[trigger] s@.subrange(from as int, c)) implies s@[c]
        != '\n' by {
        if c > i {
            assert(s@.subrange(from as int, c)[i - from] == s@[i as int]);
        }
        if c == i && i < s.len() {
            assert(!is_ws(s@[i as int]));
        }
    }
    None
}

/// Whether content opens with a front-matter block.
pub fn front_matter(s: &Vec<char>) -> (b: bool)
    ensures
        b == has_front_matter(s@),
{
    if s.len() < 3 || s[0] != '-' || s[1] != '-' || s[2] != '-' {
        return false;
    }
    let a = match ws_run_has_nl(s, 3) {
        Some(a) => a,
        None => {
            assert forall|a: int, b: int| !(fm_open(s@, a) && a < b && fm_close(s@, b)) by {
                if fm_open(s@, a) {
                    assert(all_ws(s@.subrange(3, a)));
                }
            }
            return false;
        },
    };
    assert(fm_open(s@, a as int));
    let mut b = a + 1;
    while b < s.len()
        invariant
            a < b <= s.len(),
            fm_open(s@, a as int),
            forall|a2: int| #[trigger] fm_open(s@, a2) ==> a <= a2,
            forall|b2: int| a < b2 < b ==> !fm_close(s@, b2),
        decreases s.len() - b,
    {
        if s.len() - b >= 4 && s[b] == '\n' && s[b + 1] == '-' && s[b + 2] == '-' && s[b + 3]
            == '-' {
            match ws_run_has_nl(s, b + 4) {
                Some(c) => {
                    assert(fm_close(s@, b as int));
                    return true;
                },
                None => {},
            }
        }
        b += 1;
    }
    false
}

fn digits_from(x: &Vec<char>, from: usize) -> (b: bool)
    requires
        from <= x.len(),
    ensures
        b == all_digits(x@.skip(from as int)),
{
    let mut i = from;
    while i < x.len()
        invariant
            from <= i <= x.len(),
            forall|k: int| from <= k < i ==> is_digit(x@[k]),
        decreases x.len() - i,
    {
        if !('0' <= x[i] && x[i] <= '9') {
            assert(!is_digit(x@.skip(from as int)[i - from]));
            return false;
        }
        i += 1;
    }
    assert forall|k: int| 0 <= k < x@.skip(from as int).len() implies is_digit(
        #[trigger] x@.skip(from as int)[k],
    ) by {
        assert(x@.skip(from as int)[k] == x@[k + from]);
    }
    true
}

fn words_from(x: &Vec<char>, from: usize) -> (b: bool)
    requires
        from <= x.len(),
    ensures
        b == all_word(x@.skip(from as int)),
{
    let mut i = from;
    while i < x.len()
        invariant
            from <= i <= x.len(),
            forall|k: int| from <= k < i ==> word_char(x@[k]),
        decreases x.len() - i,
    {
        if !(is_alphanumeric(x[i]) || x[i] == '_') {
            assert(!word_char(x@.skip(from as int)[i - from]));
            return false;
        }
        i += 1;
    }
    assert forall|k: int| 0 <= k < x@.skip(from as int).len() implies word_char(
        #[trigger] x@.skip(from as int)[k],
    ) by {
        assert(x@.skip(from as int)[k] == x@[k + from]);
    }
    true
}

fn pre_digits(x: &Vec<char>, pre: &str, min: usize) -> (b: bool)
    ensures
        b == prefix_digits(x@, pre@, min as int),
{
    let p = chars_of(pre);
    if !starts_with(x, &p) {
        return false;
    }
    x.len() - p.len() >= min && digits_from(x, p.len())
}

fn pre_word(x: &Vec<char>, pre: &str) -> (b: bool)
    ensures
        b == prefix_word(x@, pre@),
{
    let p = chars_of(pre);
    if !starts_with(x, &p) {
        return false;
    }
    x.len() > p.len() && words_from(x, p.len())
}

pub fn is_placeholder_inner(x: &Vec<char>) -> (b: bool)
    ensures
        b == placeholder_inner(x@),
{
    eq_str(x, "Add ID") || eq_str(x, "Add Title") || eq_str(x, "Project Name") || eq_str(
        x,
        "Project Version",
    ) || eq_str(x, "Brief description") || pre_digits(x, "link to Project ", 0) || pre_digits(
        x,
        "link to Domain ",
        0,
    ) || pre_digits(x, "link to Reference ", 0) || pre_digits(x, "link to project ", 0)
        || pre_digits(x, "link to domain ", 0) || pre_digits(x, "link to reference ", 0)
        || pre_digits(x, "link to person ", 0) || pre_digits(x, "link to concept ", 0)
        || pre_digits(x, "link to related ", 0) || pre_digits(x, "link to decision ", 0)
        || eq_str(x, "date") || pre_digits(x, "Link or citation ", 1) || pre_word(
        x,
        "Link to external ",
    ) || pre_word(x, "Link to related ") || pre_digits(x, "Essential fact ", 1) || eq_str(
        x,
        "What this is and why I saved it",
    ) || eq_str(x, "Category")
}

/// The template placeholders of a text, left to right.
pub fn find_placeholders(s: &Vec<char>) -> (r: Vec<Vec<char>>)
    ensures
        r.deep_view() == placeholders_from(s@, 0),
{
    let mut r: Vec<Vec<char>> = Vec::new();
    let mut i: usize = 0;
    while i < s.len()
        invariant
            i <= s.len(),
            r.deep_view() + placeholders_from(s@, i as int) == placeholders_from(s@, 0),
        decreases s.len() - i,
    {
        if s[i] == '[' {
            let k = scan_run(s, i + 1, CharClass::NotCloseBracket);
            if k < s.len() {
                let inner = slice_vec(s, i + 1, k);
                if is_placeholder_inner(&inner) {
                    let x = slice_vec(s, i, k + 1);
                    let ghost r0 = r.deep_view();
                    assert(x.deep_view() =~= x@);
                    r.push(x);
                    proof {
                        assert(r.deep_view() =~= r0.push(x@));
                        let rest = placeholders_from(s@, k + 1);
                        assert(r0.push(x@) + rest =~= r0 + (seq![x@] + rest));
                    }
                    i = k + 1;
                    continue;
                }
            }
        }
        i += 1;
    }
    assert(r.deep_view() + placeholders_from(s@, i as int) =~= r.deep_view());
    r
}

/// The sections of a note's content.
pub fn parse_sections(content: &str) -> (r: Vec<Section>)
    ensures
        r.deep_view() == sections_from(lines(content@), 0),
{
    sections_of_lines(&split_lines(&chars_of(content)))
}

/// Parse a note's content into a structured `Note`.
pub fn parse_note(file_path: &str, relative_path: &str, content: &str, kind: NoteKind) -> (r:
    Note)
    ensures
        r.deep_view() == parsed_note(file_path@, relative_path@, content@, kind),
{
    let c = chars_of(content);
    let rp = chars_of(relative_path);
    let ls = split_lines(&c);
    let filename = file_stem_chars(&rp);
    let title = match title_of_lines(&ls) {
        Some(t) => t,
        None => filename.clone(),
    };
    let (jd_id, note_id_kind) = match note_id_chars(&filename) {
        Some((id, k)) => (Some(string_of(&id)), Some(k)),
        None => (None, None),
    };
    let (title_jd_id, title_note_id_kind) = match note_id_chars(&title) {
        Some((id, k)) => (Some(string_of(&id)), Some(k)),
        None => (None, None),
    };
    let parent = match parent_jd_id_chars(&rp) {
        Some(x) => Some(string_of(&x)),
        None => None,
    };
    let tags = dedup_chars(&find_marker_runs(&c, '#'));
    let mentions = dedup_chars(&find_mentions(&c));
    let placeholders = dedup_chars(&find_placeholders(&c));
    Note {
        file_path: string_of(&chars_of(file_path)),
        relative_path: string_of(&rp),
        title: string_of(&title),
        jd_id,
        title_jd_id,
        parent_jd_id: parent,
        note_id_kind,
        title_note_id_kind,
        kind,
        content: string_of(&c),
        tasks: tasks_of_lines(&ls),
        wiki_links: extract_wiki_links(content),
        sections: sections_of_lines(&ls),
        tags: strings_of(&tags),
        mentions: strings_of(&mentions),
        has_frontmatter: front_matter(&c),
        placeholders: strings_of(&placeholders),
    }
}

} // verus!
