//! The vault's file conventions: which files are notes, how calendar notes
//! are told apart by name, and how a read file becomes a note.
use vstd::prelude::*;
use crate::models::{DailyNoteInfo, Note, NoteKind};
use crate::parser::markdown::{file_stem, file_stem_chars, last_index, parse_note, parsed_note};
use crate::text::{chars_of, contains, contains_str, is_digit, split_on, split_vec};

verus! {

/// Where `c` first occurs in `s`.
pub open spec fn first_of(s: Seq<char>, c: char) -> Option<int>
    decreases s.len(),
{
    if s.len() == 0 {
        None
    } else {
        match first_of(s.drop_last(), c) {
            Some(i) => Some(i),
            None => if s.last() == c {
                Some(s.len() - 1)
            } else {
                None
            },
        }
    }
}

/// At least one character, all ASCII digits.
pub open spec fn all_digits(s: Seq<char>) -> bool {
    s.len() > 0 && forall|i: int| 0 <= i < s.len() ==> is_digit(#[trigger] s[i])
}

/// The kind of a calendar note by its file stem: `YYYY-Wnn` weekly,
/// `YYYY-Qn` quarterly, `YYYY-MM` monthly, `YYYY` yearly, anything else
/// daily.
pub open spec fn calendar_kind_of_stem(stem: Seq<char>) -> NoteKind {
    match first_of(stem, '-') {
        Some(k) => {
            let year = stem.take(k);
            let rest = stem.skip(k + 1);
            if all_digits(year) && year.len() == 4 {
                if rest.len() > 0 && rest[0] == 'W' && all_digits(rest.skip(1)) {
                    NoteKind::Weekly
                } else if rest.len() > 0 && rest[0] == 'Q' && all_digits(rest.skip(1)) {
                    NoteKind::Quarterly
                } else if all_digits(rest) && rest.len() == 2 {
                    NoteKind::Monthly
                } else {
                    NoteKind::Daily
                }
            } else {
                NoteKind::Daily
            }
        },
        None => if all_digits(stem) && stem.len() == 4 {
            NoteKind::Yearly
        } else {
            NoteKind::Daily
        },
    }
}

/// The extension of the last path component: what follows its last dot,
/// when that dot is not its first character.
pub open spec fn file_extension(path: Seq<char>) -> Option<Seq<char>> {
    let name = split_on(path, '/').last();
    if name.len() == 0 || name == seq!['.', '.'] || last_index(name, '.') <= 0 {
        None
    } else {
        Some(name.skip(last_index(name, '.') + 1))
    }
}

/// Notes are the `.md` and `.txt` files.
pub open spec fn note_file(path: Seq<char>) -> bool {
    file_extension(path) == Some("md"@) || file_extension(path) == Some("txt"@)
}

/// The kind a note file is parsed as: a template under `@Templates`, else
/// the kind of the tree it was found in.
pub open spec fn file_kind(relative_path: Seq<char>, default_kind: NoteKind) -> NoteKind {
    if contains(relative_path, "@Templates"@) {
        NoteKind::Template
    } else {
        default_kind
    }
}

fn first_of_exec(s: &Vec<char>, c: char) -> (r: Option<usize>)
    ensures
        match r {
            Some(i) => first_of(s@, c) == Some(i as int) && i < s.len(),
            None => first_of(s@, c) is None,
        },
{
    let mut i: usize = 0;
    while i < s.len()
        invariant
            i <= s.len(),
            first_of(s@.take(i as int), c) is None,
        decreases s.len() - i,
    {
        assert(s@.take(i + 1).drop_last() =~= s@.take(i as int));
        if s[i] == c {
            proof {
                assert(first_of(s@.take(i + 1), c) == Some(i as int));
                lemma_first_of_prefix(s@, c, i + 1);
            }
            return Some(i);
        }
        i += 1;
    }
    assert(s@.take(i as int) =~= s@);
    None
}

proof fn lemma_first_of_prefix(s: Seq<char>, c: char, k: int)
    requires
        0 <= k <= s.len(),
        first_of(s.take(k), c) is Some,
    ensures
        first_of(s, c) == first_of(s.take(k), c),
    decreases s.len() - k,
{
    if k < s.len() {
        assert(s.take(k + 1).drop_last() =~= s.take(k));
        lemma_first_of_prefix(s, c, k + 1);
    } else {
        assert(s.take(k) =~= s);
    }
}

fn all_digits_from(s: &Vec<char>, from: usize) -> (b: bool)
    requires
        from <= s.len(),
    ensures
        b == all_digits(s@.skip(from as int)),
{
    if from >= s.len() {
        return false;
    }
    let mut i: usize = from;
    while i < s.len()
        invariant
            from <= i <= s.len(),
            forall|j: int| from <= j < i ==> is_digit(#[trigger] s@[j]),
        decreases s.len() - i,
    {
        if !('0' <= s[i] && s[i] <= '9') {
            assert(!is_digit(s@.skip(from as int)[i - from]));
            return false;
        }
        i += 1;
    }
    assert forall|j: int| 0 <= j < s@.skip(from as int).len() implies is_digit(#[trigger] s@.skip(from as int)[j]) by {
        assert(s@.skip(from as int)[j] == s@[from + j]);
    }
    true
}

/// The kind of a calendar note found at `path`, by its file stem.
pub fn classify_calendar_note(path: &str) -> (k: NoteKind)
    ensures
        k == calendar_kind_of_stem(file_stem(path@)),
{
    let stem = file_stem_chars(&chars_of(path));
    let ghost st = stem@;
    match first_of_exec(&stem, '-') {
        Some(k) => {
            let year = crate::text::slice_vec(&stem, 0, k);
            assert(year@ =~= st.take(k as int));
            let rest = crate::text::slice_vec(&stem, k + 1, stem.len());
            assert(rest@ =~= st.skip(k + 1));
            if year.len() == 4 && all_digits_from(&year, 0) {
                assert(year@.skip(0) =~= year@);
                if rest.len() > 0 && rest[0] == 'W' && all_digits_from(&rest, 1) {
                    NoteKind::Weekly
                } else if rest.len() > 0 && rest[0] == 'Q' && all_digits_from(&rest, 1) {
                    NoteKind::Quarterly
                } else if rest.len() == 2 && all_digits_from(&rest, 0) {
                    assert(rest@.skip(0) =~= rest@);
                    NoteKind::Monthly
                } else {
                    proof {
                        assert(rest@.skip(0) =~= rest@);
                    }
                    NoteKind::Daily
                }
            } else {
                proof {
                    assert(year@.skip(0) =~= year@);
                }
                NoteKind::Daily
            }
        },
        None => {
            assert(stem@.skip(0) =~= stem@);
            if stem.len() == 4 && all_digits_from(&stem, 0) {
                NoteKind::Yearly
            } else {
                NoteKind::Daily
            }
        },
    }
}

/// Whether the file at `path` is a note: a `.md` or `.txt` file.
pub fn is_note_file(path: &str) -> (b: bool)
    ensures
        b == note_file(path@),
{
    let p = chars_of(path);
    let parts = split_vec(&p, '/');
    let name = &parts[parts.len() - 1];
    proof {
        assert(parts[parts.len() - 1].deep_view() =~= parts[parts.len() - 1]@);
    }
    if name.len() == 0 || (name.len() == 2 && name[0] == '.' && name[1] == '.') {
        proof {
            if name.len() == 2 {
                assert(name@ =~= seq!['.', '.']);
            }
        }
        return false;
    }
    proof {
        if name@ == seq!['.', '.'] {
            assert(name@[0] == '.' && name@[1] == '.');
        }
    }
    let mut k: usize = name.len();
    assert(name@.take(k as int) =~= name@);
    while k > 0 && name[k - 1] != '.'
        invariant
            k <= name.len(),
            last_index(name@.take(k as int), '.') == last_index(name@, '.'),
        decreases k,
    {
        assert(name@.take(k as int).drop_last() =~= name@.take(k - 1));
        k -= 1;
    }
    proof {
        if k > 0 {
            assert(name@.take(k as int).last() == '.');
        } else {
            assert(name@.take(0) =~= Seq::<char>::empty());
        }
    }
    if k <= 1 {
        return false;
    }
    let ext = crate::text::slice_vec(name, k, name.len());
    assert(ext@ =~= name@.skip(k as int));
    crate::text::eq_str(&ext, "md") || crate::text::eq_str(&ext, "txt")
}

/// The note parsed from a file read at `file_path`, found at `relative_path`
/// in the tree whose notes have kind `default_kind`.
pub fn parse_note_file(file_path: &str, relative_path: &str, content: &str, default_kind: NoteKind) -> (r: Note)
    ensures
        r.deep_view() == parsed_note(file_path@, relative_path@, content@, file_kind(relative_path@, default_kind)),
{
    let kind = if contains_str(&chars_of(relative_path), "@Templates") {
        NoteKind::Template
    } else {
        default_kind
    };
    parse_note(file_path, relative_path, content, kind)
}


/// Whether any of the changed paths is a note: only then does a change
/// warrant a rescan.
pub open spec fn any_note_file(paths: Seq<Seq<char>>) -> bool {
    exists|i: int| 0 <= i < paths.len() && note_file(#[trigger] paths[i])
}

pub fn has_note_changes(paths: &Vec<String>) -> (b: bool)
    ensures
        b == any_note_file(paths.deep_view()),
{
    let ghost pv = paths.deep_view();
    let mut i: usize = 0;
    while i < paths.len()
        invariant
            i <= paths.len(),
            pv == paths.deep_view(),
            forall|k: int| 0 <= k < i ==> !note_file(#[trigger] pv[k]),
        decreases paths.len() - i,
    {
        assert(pv[i as int] == paths[i as int]@);
        if is_note_file(paths[i].as_str()) {
            return true;
        }
        i += 1;
    }
    false
}

// ─── Daily notes ────────────────────────────────────────────────────────────

/// The date label of a daily note file (`YYYYMMDD` stem, `.md` or `.txt`):
/// `YYYY-MM-DD`.
pub open spec fn daily_label(path: Seq<char>) -> Option<Seq<char>> {
    let st = file_stem(path);
    if note_file(path) && st.len() == 8 && all_digits(st) {
        Some(st.take(4) + "-"@ + st.subrange(4, 6) + "-"@ + st.subrange(6, 8))
    } else {
        None
    }
}

/// The daily notes among `paths`, in order, each with its label.
pub open spec fn daily_entries(paths: Seq<Seq<char>>) -> Seq<(Seq<char>, Seq<char>)>
    decreases paths.len(),
{
    if paths.len() == 0 {
        Seq::empty()
    } else {
        let r = daily_entries(paths.drop_last());
        match daily_label(paths.last()) {
            Some(l) => r.push((paths.last(), l)),
            None => r,
        }
    }
}

pub open spec fn newest_pos(s: Seq<(Seq<char>, Seq<char>)>, x: (Seq<char>, Seq<char>)) -> int
    decreases s.len(),
{
    if s.len() == 0 || crate::text::seq_lt(s[0].1, x.1) {
        0
    } else {
        1 + newest_pos(s.drop_first(), x)
    }
}

/// A stable sort by label, newest first.
pub open spec fn newest_first(s: Seq<(Seq<char>, Seq<char>)>) -> Seq<(Seq<char>, Seq<char>)>
    decreases s.len(),
{
    if s.len() == 0 {
        Seq::empty()
    } else {
        let r = newest_first(s.drop_last());
        r.insert(newest_pos(r, s.last()), s.last())
    }
}

pub open spec fn infos_view(v: Seq<DailyNoteInfo>) -> Seq<(Seq<char>, Seq<char>)> {
    v.map_values(|d: DailyNoteInfo| (d.file_path@, d.date_label@))
}

proof fn lemma_newest_pos_bound(s: Seq<(Seq<char>, Seq<char>)>, x: (Seq<char>, Seq<char>))
    ensures
        0 <= newest_pos(s, x) <= s.len(),
    decreases s.len(),
{
    if s.len() > 0 && !crate::text::seq_lt(s[0].1, x.1) {
        lemma_newest_pos_bound(s.drop_first(), x);
    }
}

fn daily_label_exec(path: &String) -> (r: Option<Vec<char>>)
    ensures
        match r {
            Some(l) => daily_label(path@) == Some(l@),
            None => daily_label(path@) is None,
        },
{
    if !is_note_file(path.as_str()) {
        return None;
    }
    let st = file_stem_chars(&chars_of(path.as_str()));
    if st.len() != 8 || !all_digits_from(&st, 0) {
        proof {
            assert(st@.skip(0) =~= st@);
        }
        return None;
    }
    assert(st@.skip(0) =~= st@);
    let mut out = crate::text::slice_vec(&st, 0, 4);
    crate::dump::put_str(&mut out, "-");
    crate::dump::put(&mut out, &crate::text::slice_vec(&st, 4, 6));
    crate::dump::put_str(&mut out, "-");
    crate::dump::put(&mut out, &crate::text::slice_vec(&st, 6, 8));
    assert(out@ =~= st@.take(4) + "-"@ + st@.subrange(4, 6) + "-"@ + st@.subrange(6, 8));
    Some(out)
}

fn insert_newest(rows: &mut Vec<DailyNoteInfo>, x: DailyNoteInfo)
    ensures
        infos_view(final(rows)@) == infos_view(old(rows)@).insert(
            newest_pos(infos_view(old(rows)@), (x.file_path@, x.date_label@)),
            (x.file_path@, x.date_label@),
        ),
{
    let ghost s = infos_view(rows@);
    let ghost xv = (x.file_path@, x.date_label@);
    let xl = chars_of_string_local(&x.date_label);
    let mut p: usize = 0;
    proof {
        assert(s.skip(0) =~= s);
        lemma_newest_pos_bound(s, xv);
    }
    while p < rows.len() && !crate::text::lt_chars(&chars_of_string_local(&rows[p].date_label), &xl)
        invariant
            p <= rows.len(),
            infos_view(rows@) == s,
            xl@ == xv.1,
            newest_pos(s, xv) == p + newest_pos(s.skip(p as int), xv),
        decreases rows.len() - p,
    {
        assert(s[p as int] == (rows[p as int].file_path@, rows[p as int].date_label@));
        assert(s.skip(p as int)[0] == s[p as int]);
        assert(s.skip(p as int).drop_first() =~= s.skip(p + 1));
        p += 1;
    }
    if p < rows.len() {
        assert(s[p as int] == (rows[p as int].file_path@, rows[p as int].date_label@));
        assert(s.skip(p as int)[0] == s[p as int]);
    }
    let ghost r0 = rows@;
    rows.insert(p, x);
    proof {
        r0.insert_ensures(p as int, x);
        s.insert_ensures(p as int, xv);
        assert forall|k: int| 0 <= k < rows.len() implies infos_view(rows@)[k] == s.insert(p as int, xv)[k] by {
            if k < p {
                assert(rows@[k] == r0[k]);
            } else if k > p {
                assert(rows@[k] == r0[k - 1]);
            }
        }
        assert(infos_view(rows@) =~= s.insert(p as int, xv));
    }
}

fn chars_of_string_local(s: &String) -> (v: Vec<char>)
    ensures
        v@ == s@,
{
    chars_of(s.as_str())
}

/// The daily notes among the files of the calendar folder, newest first:
/// the `.md` and `.txt` files whose stem is eight digits, each labelled
/// `YYYY-MM-DD`.
pub fn list_daily_notes(paths: &Vec<String>) -> (r: Vec<DailyNoteInfo>)
    ensures
        infos_view(r@) == newest_first(daily_entries(paths.deep_view())),
{
    let ghost pv = paths.deep_view();
    let mut entries: Vec<DailyNoteInfo> = Vec::new();
    let mut i: usize = 0;
    while i < paths.len()
        invariant
            i <= paths.len(),
            pv == paths.deep_view(),
            infos_view(entries@) == daily_entries(pv.take(i as int)),
        decreases paths.len() - i,
    {
        proof {
            assert(pv.take(i + 1).drop_last() =~= pv.take(i as int));
            assert(pv[i as int] == paths[i as int]@);
        }
        match daily_label_exec(&paths[i]) {
            Some(l) => {
                let info = DailyNoteInfo { file_path: crate::text::string_of(&chars_of_string_local(&paths[i])), date_label: crate::text::string_of(&l) };
                let ghost e0 = infos_view(entries@);
                entries.push(info);
                assert(infos_view(entries@) =~= e0.push((paths[i as int]@, l@)));
            },
            None => {},
        }
        i += 1;
    }
    assert(pv.take(i as int) =~= pv);
    let ghost ev = infos_view(entries@);
    let mut rows: Vec<DailyNoteInfo> = Vec::new();
    let mut j: usize = 0;
    while j < entries.len()
        invariant
            j <= entries.len(),
            ev == infos_view(entries@),
            infos_view(rows@) == newest_first(ev.take(j as int)),
        decreases entries.len() - j,
    {
        proof {
            assert(ev.take(j + 1).drop_last() =~= ev.take(j as int));
        }
        let x = DailyNoteInfo {
            file_path: crate::text::string_of(&chars_of_string_local(&entries[j].file_path)),
            date_label: crate::text::string_of(&chars_of_string_local(&entries[j].date_label)),
        };
        assert(ev.take(j + 1).last() == (x.file_path@, x.date_label@));
        insert_newest(&mut rows, x);
        j += 1;
    }
    assert(ev.take(j as int) =~= ev);
    rows
}

// ─── The vault's own folder ─────────────────────────────────────────────────

/// The components of a path: its non-empty pieces between slashes.
pub open spec fn components(p: Seq<char>) -> Seq<Seq<char>> {
    crate::text::non_empty(split_on(p, '/'))
}

/// Whether path `p` lies in folder `base`, component by component (both as
/// canonical paths: absolute, without `.` or `..`).
pub open spec fn within(p: Seq<char>, base: Seq<char>) -> bool {
    let c = components(p);
    let b = components(base);
    (p.len() > 0 && p[0] == '/') == (base.len() > 0 && base[0] == '/') && b.len() <= c.len() && c.take(b.len() as int) == b
}

/// Whether a canonical path may be read: inside the detected vault when
/// there is one, else in a NotePlan container or iCloud folder.
pub open spec fn path_allowed(p: Seq<char>, base: Option<Seq<char>>) -> bool {
    match base {
        Some(b) => within(p, b),
        None => contains(p, "co.noteplan.NotePlan"@) || contains(p, "iCloud~co~noteplan"@),
    }
}

fn components_exec(p: &Vec<char>) -> (r: Vec<Vec<char>>)
    ensures
        r.deep_view() == components(p@),
{
    let parts = split_vec(p, '/');
    let ghost pv = parts.deep_view();
    let mut r: Vec<Vec<char>> = Vec::new();
    let mut i: usize = 0;
    while i < parts.len()
        invariant
            i <= parts.len(),
            pv == parts.deep_view(),
            r.deep_view() == crate::text::non_empty(pv.take(i as int)),
        decreases parts.len() - i,
    {
        proof {
            assert(pv.take(i + 1).drop_last() =~= pv.take(i as int));
            crate::text::lemma_deep_chars(parts[i as int]);
        }
        if parts[i].len() > 0 {
            let x = parts[i].clone();
            proof {
                crate::text::lemma_deep_chars(x);
            }
            let ghost r0 = r.deep_view();
            r.push(x);
            assert(r.deep_view() =~= r0.push(x@));
        }
        i += 1;
    }
    assert(pv.take(i as int) =~= pv);
    r
}

/// Refuses a canonical path outside the NotePlan data: `base` is the
/// detected vault, canonical, if one was found.
pub fn check_noteplan_path(canonical: &str, base: Option<&str>) -> (r: Result<(), String>)
    ensures
        r is Ok <==> path_allowed(canonical@, match base {
            Some(b) => Some(b@),
            None => None,
        }),
        r matches Err(m) ==> m@ == "Access denied: path is outside the NotePlan data directory"@,
{
    let p = chars_of(canonical);
    let ok = match base {
        Some(b) => {
            let bv = chars_of(b);
            let pa = p.len() > 0 && p[0] == '/';
            let ba = bv.len() > 0 && bv[0] == '/';
            let pc = components_exec(&p);
            let bc = components_exec(&bv);
            if pa != ba || bc.len() > pc.len() {
                false
            } else {
                let mut k: usize = 0;
                let mut same = true;
                assert(pc.deep_view().take(0) =~= bc.deep_view().take(0));
                while k < bc.len()
                    invariant
                        k <= bc.len() <= pc.len(),
                        same == (pc.deep_view().take(k as int) == bc.deep_view().take(k as int)),
                    decreases bc.len() - k,
                {
                    proof {
                        crate::text::lemma_deep_chars(pc[k as int]);
                        crate::text::lemma_deep_chars(bc[k as int]);
                    }
                    let eq = crate::text::vec_eq(&pc[k], &bc[k]);
                    proof {
                        assert(pc.deep_view().take(k + 1) =~= pc.deep_view().take(k as int).push(pc[k as int]@));
                        assert(bc.deep_view().take(k + 1) =~= bc.deep_view().take(k as int).push(bc[k as int]@));
                        if pc.deep_view().take(k + 1) == bc.deep_view().take(k + 1) {
                            assert(pc.deep_view().take(k + 1)[k as int] == bc.deep_view().take(k + 1)[k as int]);
                            assert(pc.deep_view().take(k + 1).drop_last() =~= pc.deep_view().take(k as int));
                            assert(bc.deep_view().take(k + 1).drop_last() =~= bc.deep_view().take(k as int));
                        }
                    }
                    same = same && eq;
                    k += 1;
                }
                assert(bc.deep_view().take(bc.len() as int) =~= bc.deep_view());
                same
            }
        },
        None => contains_str(&p, "co.noteplan.NotePlan") || contains_str(&p, "iCloud~co~noteplan"),
    };
    if ok {
        Ok(())
    } else {
        Err(crate::text::string_of(&chars_of("Access denied: path is outside the NotePlan data directory")))
    }
}

} // verus!
