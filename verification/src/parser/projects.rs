//! The `#np-projects` control note: contexts (`## Name` sections) with their
//! ordered project references and declared tags, and the resolution of a
//! reference to a project folder.
use vstd::prelude::*;
use crate::backlog_write::{is_item, is_item_chars, leader_end, leader_end_chars};
use crate::parser::link::{find_links, links_in};
use crate::models::{calendar_kind_of, CalendarKind, Note, NoteKind, NoteV};
use crate::parser::{excluded, is_excluded_relative};
use crate::parser::NoteStore;
use crate::text::{
    chars_of, chars_of_string, class_has, concat, count_char, count_of, decimal, decimal_of, enclose, has_prefix,
    in_class, is_digit, is_whitespace, is_ws, join, join_vec, lemma_run_end, lemma_seq_lt_irreflexive,
    lemma_seq_lt_transitive, lines, lowercase, lt_chars, run_end, run_start, scan_run, scan_run_back, seq_lt, slice_vec,
    copy_strings, split_lines, split_words, starts_with, string_of, strings_of, to_lowercase, trim, trim_vec,
    vec_eq, words, CharClass,
};

verus! {

/// One `## Context` section of the control note.
#[derive(Debug, Clone)]
pub struct Context {
    pub name: String,
    /// Ordered project reference texts (wiki-link inner text or plain name).
    pub refs: Vec<String>,
    /// Declared tags, lowercased, without the leading `#`.
    pub tags: Vec<String>,
}

pub struct ContextV {
    pub name: Seq<char>,
    pub refs: Seq<Seq<char>>,
    pub tags: Seq<Seq<char>>,
}

impl DeepView for Context {
    type V = ContextV;

    open spec fn deep_view(&self) -> ContextV {
        ContextV { name: self.name@, refs: self.refs.deep_view(), tags: self.tags.deep_view() }
    }
}

/// Parsed structure of the `#np-projects` control note.
#[derive(Debug, Clone)]
pub struct ProjectControl {
    pub note_title: String,
    pub contexts: Vec<Context>,
    pub warnings: Vec<String>,
}

/// The captured name of a level-two heading (`^##\s+(.+?)\s*$`): the text
/// after `##` trimmed, or its last character when that text is all
/// whitespace.
pub open spec fn h2_name(l: Seq<char>) -> Option<Seq<char>> {
    if l.len() >= 4 && l[0] == '#' && l[1] == '#' && is_ws(l[2]) {
        if trim(l.skip(2)).len() == 0 {
            Some(seq![l.last()])
        } else {
            Some(trim(l.skip(2)))
        }
    } else {
        None
    }
}

pub fn h2_name_chars(l: &Vec<char>) -> (r: Option<Vec<char>>)
    ensures
        match r {
            Some(t) => h2_name(l@) == Some(t@),
            None => h2_name(l@) is None,
        },
{
    if l.len() >= 4 && l[0] == '#' && l[1] == '#' && is_whitespace(l[2]) {
        let rest = slice_vec(l, 2, l.len());
        assert(rest@ =~= l@.skip(2));
        let t = trim_vec(&rest);
        if t.len() == 0 {
            let mut one: Vec<char> = Vec::new();
            one.push(l[l.len() - 1]);
            assert(one@ =~= seq![l@.last()]);
            Some(one)
        } else {
            Some(t)
        }
    } else {
        None
    }
}

/// The text of a list item after its leader, trimmed.
pub open spec fn item_text(l: Seq<char>) -> Seq<char> {
    match leader_end(l) {
        Some(k) => trim(l.skip(k)),
        None => Seq::empty(),
    }
}

/// A token that declares a tag: `#` followed by at least one character.
pub open spec fn is_tag_token(t: Seq<char>) -> bool {
    t.len() > 1 && t[0] == '#'
}

/// Whether an item's words are all tag tokens (and there is at least one).
pub open spec fn all_tag_tokens(ws: Seq<Seq<char>>) -> bool {
    ws.len() > 0 && forall|i: int| 0 <= i < ws.len() ==> #[trigger] is_tag_token(ws[i])
}

/// A token without its leading `#` characters.
pub open spec fn strip_hashes(t: Seq<char>) -> Seq<char> {
    t.skip(run_end(t, 0, CharClass::Hash))
}

/// The tags a tag-only item declares: each token without its `#`s,
/// lowercased.
pub open spec fn declared_tags(ws: Seq<Seq<char>>) -> Seq<Seq<char>> {
    ws.map_values(|w: Seq<char>| lowercase(strip_hashes(w)))
}

/// The project a reference item names: the trimmed target of its first wiki
/// link, or the whole item text when it has none.
pub open spec fn ref_text(raw: Seq<char>) -> Seq<char> {
    if links_in(raw).len() > 0 {
        trim(links_in(raw)[0])
    } else {
        raw
    }
}

/// The contexts after reading one more line of the control note.
pub open spec fn context_step(cs: Seq<ContextV>, l: Seq<char>) -> Seq<ContextV> {
    match h2_name(l) {
        Some(n) => cs.push(ContextV { name: n, refs: Seq::empty(), tags: Seq::empty() }),
        None => if is_item(l) && cs.len() > 0 {
            let c = cs.last();
            let ws = words(item_text(l));
            if all_tag_tokens(ws) {
                cs.update(
                    cs.len() - 1,
                    ContextV { name: c.name, refs: c.refs, tags: c.tags + declared_tags(ws) },
                )
            } else if ref_text(item_text(l)).len() > 0 {
                cs.update(
                    cs.len() - 1,
                    ContextV { name: c.name, refs: c.refs.push(ref_text(item_text(l))), tags: c.tags },
                )
            } else {
                cs
            }
        } else {
            cs
        },
    }
}

/// The contexts of the control note's lines.
pub open spec fn contexts_of(ls: Seq<Seq<char>>) -> Seq<ContextV>
    decreases ls.len(),
{
    if ls.len() == 0 {
        Seq::empty()
    } else {
        context_step(contexts_of(ls.drop_last()), ls.last())
    }
}

fn strip_hashes_chars(t: &Vec<char>) -> (r: Vec<char>)
    ensures
        r@ == strip_hashes(t@),
{
    proof {
        lemma_run_end(t@, 0, CharClass::Hash);
    }
    let k = scan_run(t, 0, CharClass::Hash);
    let r = slice_vec(t, k, t.len());
    assert(r@ =~= t@.skip(k as int));
    r
}

fn is_tag_token_chars(t: &Vec<char>) -> (b: bool)
    ensures
        b == is_tag_token(t@),
{
    t.len() > 1 && t[0] == '#'
}

/// Parse the `## Heading` sections of the control note: a list item made
/// only of `#tag` tokens declares the context's tags; any other list item is
/// a project reference.
fn parse_contexts(content: &str) -> (r: Vec<Context>)
    ensures
        r.deep_view() == contexts_of(lines(content@)),
{
    let ls = split_lines(&chars_of(content));
    let ghost lv = ls.deep_view();
    let mut cs: Vec<Context> = Vec::new();
    let mut i: usize = 0;
    while i < ls.len()
        invariant
            i <= ls.len(),
            lv == ls.deep_view(),
            lv == lines(content@),
            cs.deep_view() == contexts_of(lv.take(i as int)),
        decreases ls.len() - i,
    {
        let l = &ls[i];
        assert(lv.take(i + 1).drop_last() =~= lv.take(i as int));
        assert(lv.take(i + 1).last() == l@);
        let ghost before = cs.deep_view();
        match h2_name_chars(l) {
            Some(n) => {
                let c = Context { name: string_of(&n), refs: Vec::new(), tags: Vec::new() };
                assert(c.refs.deep_view() =~= Seq::<Seq<char>>::empty());
                assert(c.tags.deep_view() =~= Seq::<Seq<char>>::empty());
                cs.push(c);
                assert(cs.deep_view() =~= before.push(
                    ContextV { name: n@, refs: Seq::empty(), tags: Seq::empty() },
                ));
            },
            None => {
                if is_item_chars(l) && cs.len() > 0 {
                    let k = match leader_end_chars(l) {
                        Some(k) => k,
                        None => 0,
                    };
                    let body = slice_vec(l, k, l.len());
                    assert(body@ =~= l@.skip(k as int));
                    let raw = trim_vec(&body);
                    let ws = split_words(&raw);
                    let mut all_tags = ws.len() > 0;
                    let mut w: usize = 0;
                    while w < ws.len()
                        invariant
                            w <= ws.len(),
                            all_tags == (ws.len() > 0 && forall|q: int|
                                0 <= q < w ==> #[trigger] is_tag_token(ws.deep_view()[q])),
                        decreases ws.len() - w,
                    {
                        assert(ws.deep_view()[w as int] == ws[w as int]@);
                        if !is_tag_token_chars(&ws[w]) {
                            all_tags = false;
                        }
                        w += 1;
                    }
                    let mut c = cs.pop().unwrap();
                    let ghost c0 = c.deep_view();
                    assert(before.drop_last() == cs.deep_view());
                    if all_tags {
                        let mut q: usize = 0;
                        while q < ws.len()
                            invariant
                                q <= ws.len(),
                                c.name@ == c0.name,
                                c.refs.deep_view() == c0.refs,
                                c.tags.deep_view() == c0.tags + declared_tags(ws.deep_view().take(q as int)),
                            decreases ws.len() - q,
                        {
                            let tag = to_lowercase(&strip_hashes_chars(&ws[q]));
                            let ghost t0 = c.tags.deep_view();
                            c.tags.push(string_of(&tag));
                            proof {
                                assert(ws.deep_view()[q as int] == ws[q as int]@);
                                assert(c.tags.deep_view() =~= t0.push(tag@));
                                assert(declared_tags(ws.deep_view().take(q + 1)) =~= declared_tags(ws.deep_view().take(q as int)).push(tag@));
                            }
                            q += 1;
                        }
                        assert(ws.deep_view().take(ws.len() as int) =~= ws.deep_view());
                        cs.push(c);
                        assert(cs.deep_view() =~= before.update(before.len() - 1, ContextV {
                            name: c0.name,
                            refs: c0.refs,
                            tags: c0.tags + declared_tags(ws.deep_view()),
                        }));
                    } else {
                        let links = find_links(&raw);
                        let text = if links.len() > 0 {
                            assert(links.deep_view()[0] == links[0]@);
                            trim_vec(&links[0])
                        } else {
                            raw.clone()
                        };
                        if text.len() > 0 {
                            let ghost r0 = c.refs.deep_view();
                            c.refs.push(string_of(&text));
                            assert(c.refs.deep_view() =~= r0.push(text@));
                        }
                        cs.push(c);
                        assert(cs.deep_view() =~= context_step(before, l@));
                    }
                }
            },
        }
        i += 1;
    }
    assert(lv.take(ls.len() as int) =~= lv);
    cs
}

/// The display title without the marker token `marker`: the remaining
/// whitespace-separated words joined by single spaces.
pub open spec fn without_word(ws: Seq<Seq<char>>, marker: Seq<char>) -> Seq<Seq<char>>
    decreases ws.len(),
{
    if ws.len() == 0 {
        ws
    } else if ws.last() == marker {
        without_word(ws.drop_last(), marker)
    } else {
        without_word(ws.drop_last(), marker).push(ws.last())
    }
}

pub open spec fn strip_marker(title: Seq<char>, marker: Seq<char>) -> Seq<char> {
    join(without_word(words(title), marker), seq![' '])
}

pub fn strip_marker_tag(title: &str, marker: &str) -> (r: String)
    ensures
        r@ == strip_marker(title@, marker@),
{
    let ws = split_words(&chars_of(title));
    let m = chars_of(marker);
    let mut kept: Vec<Vec<char>> = Vec::new();
    let mut i: usize = 0;
    while i < ws.len()
        invariant
            i <= ws.len(),
            m@ == marker@,
            kept.deep_view() == without_word(ws.deep_view().take(i as int), marker@),
        decreases ws.len() - i,
    {
        assert(ws.deep_view().take(i + 1).drop_last() =~= ws.deep_view().take(i as int));
        assert(ws.deep_view()[i as int] == ws[i as int]@);
        if !vec_eq(&ws[i], &m) {
            let ghost k0 = kept.deep_view();
            let w = ws[i].clone();
            assert(w.deep_view() =~= w@);
            kept.push(w);
            assert(kept.deep_view() =~= k0.push(ws[i as int]@));
        }
        i += 1;
    }
    assert(ws.deep_view().take(ws.len() as int) =~= ws.deep_view());
    let mut sp: Vec<char> = Vec::new();
    sp.push(' ');
    assert(sp@ =~= seq![' ']);
    string_of(&join_vec(&kept, &sp))
}

/// The marker tag of the project-ranking control note.
pub const PROJECTS_TAG: &'static str = "np-projects";

/// The app's own control-note folder.
pub const CONTROL_DIR: &'static str = "Notes/_NotePlan Organizer";

/// A regular note carrying the marker `tag`.
pub open spec fn is_marked(n: NoteV, tag: Seq<char>) -> bool {
    n.kind == NoteKind::Regular && n.tags.contains(tag)
}

/// How many notes carry the marker `tag`.
pub open spec fn marked_count(notes: Seq<NoteV>, tag: Seq<char>) -> nat
    decreases notes.len(),
{
    if notes.len() == 0 {
        0
    } else {
        marked_count(notes.drop_last(), tag) + if is_marked(notes.last(), tag) {
            1nat
        } else {
            0nat
        }
    }
}

/// Whether a path lies inside the control-note folder.
pub open spec fn in_control_dir(p: Seq<char>) -> bool {
    has_prefix(p, "Notes/_NotePlan Organizer/"@)
}

/// The order in which candidate control notes are preferred: by relative
/// path, or, with `prefer_control_dir`, first those inside the control-note
/// folder and then by relative path.
pub open spec fn pick_before(prefer_control_dir: bool, a: Seq<char>, b: Seq<char>) -> bool {
    if prefer_control_dir && in_control_dir(a) != in_control_dir(b) {
        in_control_dir(a)
    } else {
        seq_lt(a, b)
    }
}

/// Whether note `i` is the control note picked for marker `tag`: a marked
/// note that no other marked note precedes, the earliest among equals.
pub open spec fn picked(notes: Seq<NoteV>, tag: Seq<char>, prefer_control_dir: bool, i: int) -> bool {
    &&& 0 <= i < notes.len()
    &&& is_marked(notes[i], tag)
    &&& forall|j: int|
        0 <= j < notes.len() && #[trigger] is_marked(notes[j], tag) ==> !pick_before(
            prefer_control_dir,
            notes[j].relative_path,
            notes[i].relative_path,
        ) && (notes[j].relative_path == notes[i].relative_path ==> i <= j)
}

proof fn lemma_pick_before_transitive(p: bool, a: Seq<char>, b: Seq<char>, c: Seq<char>)
    requires
        pick_before(p, a, b),
        pick_before(p, b, c),
    ensures
        pick_before(p, a, c),
{
    if p && (in_control_dir(a) != in_control_dir(b) || in_control_dir(b) != in_control_dir(c)) {
    } else {
        lemma_seq_lt_transitive(a, b, c);
    }
}

fn has_tag(n: &Note, tag: &Vec<char>) -> (b: bool)
    ensures
        b == n.deep_view().tags.contains(tag@),
{
    let mut i: usize = 0;
    while i < n.tags.len()
        invariant
            i <= n.tags.len(),
            forall|k: int| 0 <= k < i ==> n.tags.deep_view()[k] != tag@,
        decreases n.tags.len() - i,
    {
        assert(n.tags.deep_view()[i as int] == n.tags[i as int]@);
        if vec_eq(&chars_of_string(&n.tags[i]), tag) {
            return true;
        }
        i += 1;
    }
    false
}

fn is_marked_note(n: &Note, tag: &Vec<char>) -> (b: bool)
    ensures
        b == is_marked(n.deep_view(), tag@),
{
    n.kind == NoteKind::Regular && has_tag(n, tag)
}

fn pick_before_exec(prefer_control_dir: bool, a: &Vec<char>, b: &Vec<char>) -> (r: bool)
    ensures
        r == pick_before(prefer_control_dir, a@, b@),
{
    let dir = chars_of("Notes/_NotePlan Organizer/");
    let ia = starts_with(a, &dir);
    let ib = starts_with(b, &dir);
    if prefer_control_dir && ia != ib {
        ia
    } else {
        lt_chars(a, b)
    }
}

/// The control note carrying marker `tag` (see `picked`), with the number
/// of notes carrying it.
pub fn pick_control_note(notes: &Vec<Note>, tag: &Vec<char>, prefer_control_dir: bool) -> (r: (Option<usize>, usize))
    requires
        notes.len() < usize::MAX,
    ensures
        r.1 == marked_count(notes.deep_view(), tag@),
        match r.0 {
            Some(i) => picked(notes.deep_view(), tag@, prefer_control_dir, i as int),
            None => forall|j: int| 0 <= j < notes.len() ==> !#[trigger] is_marked(notes.deep_view()[j], tag@),
        },
{
    let ghost nv = notes.deep_view();
    let mut best: Option<usize> = None;
    let mut count: usize = 0;
    let mut i: usize = 0;
    while i < notes.len()
        invariant
            i <= notes.len() < usize::MAX,
            nv == notes.deep_view(),
            count == marked_count(nv.take(i as int), tag@),
            count <= i,
            match best {
                Some(b) => b < i && is_marked(nv[b as int], tag@) && forall|j: int|
                    0 <= j < i && #[trigger] is_marked(nv[j], tag@) ==> !pick_before(
                        prefer_control_dir,
                        nv[j].relative_path,
                        nv[b as int].relative_path,
                    ) && (nv[j].relative_path == nv[b as int].relative_path ==> b <= j),
                None => forall|j: int| 0 <= j < i ==> !#[trigger] is_marked(nv[j], tag@),
            },
        decreases notes.len() - i,
    {
        assert(nv.take(i + 1).drop_last() =~= nv.take(i as int));
        assert(nv[i as int] == notes[i as int].deep_view());
        if is_marked_note(&notes[i], tag) {
            count += 1;
            let rp = chars_of_string(&notes[i].relative_path);
            match best {
                None => {
                    best = Some(i);
                    proof {
                        lemma_seq_lt_irreflexive(rp@);
                    }
                },
                Some(b) => {
                    let bp = chars_of_string(&notes[b].relative_path);
                    assert(nv[b as int] == notes[b as int].deep_view());
                    if pick_before_exec(prefer_control_dir, &rp, &bp) {
                        proof {
                            assert forall|j: int|
                                0 <= j < i + 1 && #[trigger] is_marked(nv[j], tag@) implies !pick_before(
                                prefer_control_dir,
                                nv[j].relative_path,
                                rp@,
                            ) && (nv[j].relative_path == rp@ ==> i <= j) by {
                                if j < i {
                                    if pick_before(prefer_control_dir, nv[j].relative_path, rp@) {
                                        lemma_pick_before_transitive(prefer_control_dir, nv[j].relative_path, rp@, bp@);
                                    }
                                    if nv[j].relative_path == rp@ {
                                        assert(pick_before(prefer_control_dir, nv[j].relative_path, bp@));
                                    }
                                } else {
                                    lemma_seq_lt_irreflexive(rp@);
                                }
                            }
                        }
                        best = Some(i);
                    }
                },
            }
        }
        i += 1;
    }
    assert(nv.take(notes.len() as int) =~= nv);
    (best, count)
}

pub open spec fn marker_warning(n: nat, tag: Seq<char>, title: Seq<char>) -> Seq<char> {
    decimal(n) + " notes carry #"@ + tag + "; using \""@ + title + "\"."@
}

/// The warnings of a control-note pick: one when several notes carry the
/// marker.
pub open spec fn pick_warnings(n: nat, tag: Seq<char>, title: Seq<char>) -> Seq<Seq<char>> {
    if n > 1 {
        seq![marker_warning(n, tag, title)]
    } else {
        Seq::empty()
    }
}

pub fn pick_warning_vec(n: usize, tag: &Vec<char>, title: &Vec<char>) -> (r: Vec<String>)
    ensures
        r.deep_view() == pick_warnings(n as nat, tag@, title@),
{
    let mut w: Vec<String> = Vec::new();
    if n > 1 {
        let m = concat(
            &concat(&concat(&decimal_of(n), &chars_of(" notes carry #")), tag),
            &enclose("; using \"", title, "\"."),
        );
        assert(m@ =~= marker_warning(n as nat, tag@, title@));
        w.push(string_of(&m));
        assert(w.deep_view() =~= seq![m@]);
    } else {
        assert(w.deep_view() =~= Seq::<Seq<char>>::empty());
    }
    w
}

/// Locate and parse the `#np-projects` control note, if present: among the
/// regular notes tagged `#np-projects`, one under `Notes/_NotePlan Organizer`
/// where there is one, and the first by relative path among those.
pub fn parse_project_control(store: &NoteStore) -> (r: Option<ProjectControl>)
    requires
        store.notes.len() < usize::MAX,
    ensures
        ({
            let nv = store.notes.deep_view();
            let tag = "np-projects"@;
            match r {
                None => forall|j: int| 0 <= j < nv.len() ==> !#[trigger] is_marked(nv[j], tag),
                Some(pc) => exists|i: int|
                    #[trigger] picked(nv, tag, true, i) && pc.note_title@ == strip_marker(
                        nv[i].title,
                        "#np-projects"@,
                    ) && pc.contexts.deep_view() == contexts_of(lines(nv[i].content))
                        && pc.warnings.deep_view() == pick_warnings(
                        marked_count(nv, tag),
                        tag,
                        nv[i].title,
                    ),
            }
        }),
{
    proof {
        reveal_strlit("np-projects");
    }
    let tag = chars_of(PROJECTS_TAG);
    let (pick, count) = pick_control_note(&store.notes, &tag, true);
    match pick {
        None => None,
        Some(i) => {
            let note = &store.notes[i];
            assert(store.notes.deep_view()[i as int] == note.deep_view());
            let warnings = pick_warning_vec(count, &tag, &chars_of_string(&note.title));
            Some(
                ProjectControl {
                    note_title: strip_marker_tag(note.title.as_str(), "#np-projects"),
                    contexts: parse_contexts(note.content.as_str()),
                    warnings,
                },
            )
        },
    }
}

/// The leading Johnny Decimal id of a name: its first whitespace-separated
/// word, when that word starts with an ASCII digit.
pub open spec fn leading_jd(name: Seq<char>) -> Option<Seq<char>> {
    let ws = words(name);
    if ws.len() > 0 && ws[0].len() > 0 && is_digit(ws[0][0]) {
        Some(ws[0])
    } else {
        None
    }
}

fn leading_jd_chars(name: &Vec<char>) -> (r: Option<Vec<char>>)
    ensures
        match r {
            Some(x) => leading_jd(name@) == Some(x@),
            None => leading_jd(name@) is None,
        },
{
    let ws = split_words(name);
    if ws.len() > 0 {
        assert(ws.deep_view()[0] == ws[0]@);
        if ws[0].len() > 0 && '0' <= ws[0][0] && ws[0][0] <= '9' {
            return Some(ws[0].clone());
        }
    }
    None
}

/// The last `/`-separated component of a path.
pub open spec fn last_segment(p: Seq<char>) -> Seq<char> {
    p.skip(run_start(p, p.len() as int, CharClass::NotSlash))
}

/// How a folder name matches a reference: 0 for a case-insensitive exact
/// match, 1 for a shared leading Johnny Decimal id only.
pub open spec fn match_quality(seg: Seq<char>, r: Seq<char>) -> Option<u8> {
    if lowercase(seg) == lowercase(r) {
        Some(0u8)
    } else if leading_jd(r) is Some && leading_jd(seg) == leading_jd(r) {
        Some(1u8)
    } else {
        None
    }
}

/// A note whose folders a reference may resolve to: not in an excluded
/// folder and not a calendar note.
pub open spec fn eligible(n: NoteV) -> bool {
    !excluded(n.relative_path) && calendar_kind_of(n.kind) is None
}

/// Whether folder `p`, the ancestor of note `i` ending before position `k`
/// of its relative path, matches reference `r` with quality `q`.
pub open spec fn match_at(notes: Seq<NoteV>, r: Seq<char>, q: u8, p: Seq<char>, i: int, k: int) -> bool {
    &&& 0 <= i < notes.len()
    &&& eligible(notes[i])
    &&& 0 <= k < notes[i].relative_path.len()
    &&& notes[i].relative_path[k] == '/'
    &&& p == notes[i].relative_path.take(k)
    &&& match_quality(last_segment(p), r) == Some(q)
}

/// Whether folder `p` matches reference `r` with quality `q`.
pub open spec fn folder_match(notes: Seq<NoteV>, r: Seq<char>, q: u8, p: Seq<char>) -> bool {
    exists|i: int, k: int| #[trigger] match_at(notes, r, q, p, i, k)
}

/// The preference among matching folders: better quality first, then fewer
/// path segments, then lexicographic.
pub open spec fn rank_before(q1: u8, p1: Seq<char>, q2: u8, p2: Seq<char>) -> bool {
    q1 < q2 || (q1 == q2 && (count_char(p1, '/') < count_char(p2, '/') || (count_char(p1, '/')
        == count_char(p2, '/') && seq_lt(p1, p2))))
}

proof fn lemma_rank_before_transitive(q1: u8, p1: Seq<char>, q2: u8, p2: Seq<char>, q3: u8, p3: Seq<char>)
    requires
        rank_before(q1, p1, q2, p2),
        rank_before(q2, p2, q3, p3),
    ensures
        rank_before(q1, p1, q3, p3),
{
    if q1 == q2 && q2 == q3 && count_char(p1, '/') == count_char(p2, '/') && count_char(p2, '/')
        == count_char(p3, '/') {
        lemma_seq_lt_transitive(p1, p2, p3);
    }
}

proof fn lemma_rank_before_irreflexive(q: u8, p: Seq<char>)
    ensures
        !rank_before(q, p, q, p),
{
    lemma_seq_lt_irreflexive(p);
}

/// The best-ranked folder among the matches of a reference.
pub open spec fn best_match(notes: Seq<NoteV>, r: Seq<char>, q: u8, p: Seq<char>) -> bool {
    &&& folder_match(notes, r, q, p)
    &&& forall|q2: u8, p2: Seq<char>| #[trigger] folder_match(notes, r, q2, p2) ==> !rank_before(q2, p2, q, p)
}

pub open spec fn best_view(b: Option<(u8, Vec<char>)>) -> Option<(u8, Seq<char>)> {
    match b {
        Some((q, p)) => Some((q, p@)),
        None => None,
    }
}

/// Whether reference `r` resolves to folder `f`: `f` is a best-ranked match.
pub open spec fn resolves_to(notes: Seq<NoteV>, r: Seq<char>, f: Seq<char>) -> bool {
    exists|q: u8| #[trigger] best_match(notes, r, q, f)
}

/// Whether the position `(i2, k2)` comes before `(i, k)`.
pub open spec fn pos_before(i2: int, k2: int, i: int, k: int) -> bool {
    i2 < i || (i2 == i && k2 < k)
}

/// A match of folder `p` with quality `q` has been seen before `(i, k)`.
pub open spec fn seen_match(notes: Seq<NoteV>, r: Seq<char>, q: u8, p: Seq<char>, i: int, k: int) -> bool {
    exists|i2: int, k2: int| pos_before(i2, k2, i, k) && #[trigger] match_at(notes, r, q, p, i2, k2)
}

/// No match seen before `(i, k)` ranks before `(q, p)`.
pub open spec fn none_better(notes: Seq<NoteV>, r: Seq<char>, q: u8, p: Seq<char>, i: int, k: int) -> bool {
    forall|q2: u8, p2: Seq<char>, i2: int, k2: int|
        pos_before(i2, k2, i, k) && #[trigger] match_at(notes, r, q2, p2, i2, k2) ==> !rank_before(q2, p2, q, p)
}

/// No match has been seen before `(i, k)`.
pub open spec fn none_seen(notes: Seq<NoteV>, r: Seq<char>, i: int, k: int) -> bool {
    forall|q2: u8, p2: Seq<char>, i2: int, k2: int|
        pos_before(i2, k2, i, k) ==> !#[trigger] match_at(notes, r, q2, p2, i2, k2)
}

/// The state of the search for the best folder before `(i, k)`.
pub open spec fn search_state(notes: Seq<NoteV>, r: Seq<char>, best: Option<(u8, Seq<char>)>, i: int, k: int) -> bool {
    match best {
        Some((q, p)) => seen_match(notes, r, q, p, i, k) && none_better(notes, r, q, p, i, k),
        None => none_seen(notes, r, i, k),
    }
}

/// Moving past the end of note `i`'s path (or past a note with no matches).
proof fn lemma_search_next_note(notes: Seq<NoteV>, r: Seq<char>, best: Option<(u8, Seq<char>)>, i: int, k: int)
    requires
        0 <= i < notes.len(),
        search_state(notes, r, best, i, k),
        k >= notes[i].relative_path.len() || !eligible(notes[i]),
    ensures
        search_state(notes, r, best, i + 1, 0),
{
    match best {
        Some((q, p)) => {
            let (i3, k3) = choose|i2: int, k2: int| pos_before(i2, k2, i, k) && #[trigger] match_at(notes, r, q, p, i2, k2);
            assert(pos_before(i3, k3, i + 1, 0));
            assert forall|q2: u8, p2: Seq<char>, i2: int, k2: int|
                pos_before(i2, k2, i + 1, 0) && #[trigger] match_at(notes, r, q2, p2, i2, k2) implies !rank_before(q2, p2, q, p) by {
                assert(pos_before(i2, k2, i, k));
            }
        },
        None => {
            assert forall|q2: u8, p2: Seq<char>, i2: int, k2: int|
                pos_before(i2, k2, i + 1, 0) implies !#[trigger] match_at(notes, r, q2, p2, i2, k2) by {
                if match_at(notes, r, q2, p2, i2, k2) {
                    assert(pos_before(i2, k2, i, k));
                }
            }
        },
    }
}

/// Moving past a position of note `i` that holds no match.
proof fn lemma_search_skip_position(notes: Seq<NoteV>, r: Seq<char>, best: Option<(u8, Seq<char>)>, i: int, k: int)
    requires
        search_state(notes, r, best, i, k),
        forall|q2: u8, p2: Seq<char>| !#[trigger] match_at(notes, r, q2, p2, i, k),
    ensures
        search_state(notes, r, best, i, k + 1),
{
    match best {
        Some((q, p)) => {
            let (i3, k3) = choose|i2: int, k2: int| pos_before(i2, k2, i, k) && #[trigger] match_at(notes, r, q, p, i2, k2);
            assert(pos_before(i3, k3, i, k + 1));
            assert forall|q2: u8, p2: Seq<char>, i2: int, k2: int|
                pos_before(i2, k2, i, k + 1) && #[trigger] match_at(notes, r, q2, p2, i2, k2) implies !rank_before(q2, p2, q, p) by {
                if i2 == i && k2 == k {
                } else {
                    assert(pos_before(i2, k2, i, k));
                }
            }
        },
        None => {
            assert forall|q2: u8, p2: Seq<char>, i2: int, k2: int|
                pos_before(i2, k2, i, k + 1) implies !#[trigger] match_at(notes, r, q2, p2, i2, k2) by {
                if !(i2 == i && k2 == k) {
                    assert(pos_before(i2, k2, i, k));
                }
            }
        },
    }
}

fn match_quality_exec(seg: &Vec<char>, r_lower: &Vec<char>, r_jd: &Option<Vec<char>>, ghost_r: Ghost<Seq<char>>) -> (m: Option<u8>)
    requires
        r_lower@ == lowercase(ghost_r@),
        match r_jd {
            Some(x) => leading_jd(ghost_r@) == Some(x@),
            None => leading_jd(ghost_r@) is None,
        },
    ensures
        m == match_quality(seg@, ghost_r@),
{
    if vec_eq(&to_lowercase(seg), r_lower) {
        return Some(0);
    }
    match r_jd {
        Some(rj) => match leading_jd_chars(seg) {
            Some(sj) => if vec_eq(&sj, rj) {
                Some(1)
            } else {
                None
            },
            None => None,
        },
        None => None,
    }
}

/// Resolve a control-note reference to a project folder: among the ancestor
/// folders of eligible notes whose name matches the reference, an exact
/// (case-insensitive) name match beats a shared-id match; ties break to the
/// folder with fewer segments, then lexicographically.
pub(crate) fn resolve_folder(store: &NoteStore, reference: &str) -> (r: Option<String>)
    ensures
        r matches Some(f) ==> resolves_to(store.notes.deep_view(), reference@, f@),
        r is None ==> forall|q: u8, p: Seq<char>| !#[trigger] folder_match(store.notes.deep_view(), reference@, q, p),
{
    let ghost nv = store.notes.deep_view();
    let ghost rv = reference@;
    let rc = chars_of(reference);
    let r_lower = to_lowercase(&rc);
    let r_jd = leading_jd_chars(&rc);
    let mut best: Option<(u8, Vec<char>)> = None;
    let mut i: usize = 0;
    assert(search_state(nv, rv, None, 0, 0));
    while i < store.notes.len()
        invariant
            i <= store.notes.len(),
            nv == store.notes.deep_view(),
            rv == reference@,
            r_lower@ == lowercase(rv),
            match r_jd {
                Some(x) => leading_jd(rv) == Some(x@),
                None => leading_jd(rv) is None,
            },
            search_state(nv, rv, best_view(best), i as int, 0),
        decreases store.notes.len() - i,
    {
        let note = &store.notes[i];
        assert(nv[i as int] == note.deep_view());
        let rp = chars_of_string(&note.relative_path);
        let skip = is_excluded_relative(note.relative_path.as_str())
            || CalendarKind::from_note_kind(&note.kind).is_some();
        if !skip {
            let mut k: usize = 0;
            while k < rp.len()
                invariant
                    k <= rp.len(),
                    i < store.notes.len(),
                    nv == store.notes.deep_view(),
                    rv == reference@,
                    rp@ == nv[i as int].relative_path,
                    eligible(nv[i as int]),
                    r_lower@ == lowercase(rv),
                    match r_jd {
                        Some(x) => leading_jd(rv) == Some(x@),
                        None => leading_jd(rv) is None,
                    },
                    search_state(nv, rv, best_view(best), i as int, k as int),
                decreases rp.len() - k,
            {
                if rp[k] == '/' {
                    let p = slice_vec(&rp, 0, k);
                    assert(p@ =~= rp@.take(k as int));
                    proof {
                        crate::text::lemma_run_start(p@, p@.len() as int, CharClass::NotSlash);
                    }
                    let st = scan_run_back(&p, p.len(), CharClass::NotSlash);
                    let seg = slice_vec(&p, st, p.len());
                    assert(seg@ =~= last_segment(p@));
                    let m = match_quality_exec(&seg, &r_lower, &r_jd, Ghost(rv));
                    let ghost b0 = best_view(best);
                    match m {
                        Some(q) => {
                            assert(match_at(nv, rv, q, p@, i as int, k as int));
                            let better = match &best {
                                None => true,
                                Some((bq, bp)) => {
                                    let c1 = count_of(&p, '/');
                                    let c2 = count_of(bp, '/');
                                    q < *bq || (q == *bq && (c1 < c2 || (c1 == c2 && lt_chars(&p, bp))))
                                },
                            };
                            if better {
                                proof {
                                    lemma_rank_before_irreflexive(q, p@);
                                    assert(pos_before(i as int, k as int, i as int, k + 1));
                                    assert forall|q2: u8, p2: Seq<char>, i2: int, k2: int|
                                        pos_before(i2, k2, i as int, k + 1) && #[trigger] match_at(nv, rv, q2, p2, i2, k2)
                                        implies !rank_before(q2, p2, q, p@) by {
                                        if i2 == i && k2 == k {
                                            assert(p2 == p@);
                                        } else {
                                            assert(pos_before(i2, k2, i as int, k as int));
                                            match b0 {
                                                Some((bq, bp)) => {
                                                    if rank_before(q2, p2, q, p@) {
                                                        lemma_rank_before_transitive(q2, p2, q, p@, bq, bp);
                                                    }
                                                },
                                                None => {},
                                            }
                                        }
                                    }
                                }
                                best = Some((q, p));
                            } else {
                                proof {
                                    match b0 {
                                        Some((bq, bp)) => {
                                            let (i3, k3) = choose|i2: int, k2: int| pos_before(i2, k2, i as int, k as int) && #[trigger] match_at(nv, rv, bq, bp, i2, k2);
                                            assert(pos_before(i3, k3, i as int, k + 1));
                                            assert forall|q2: u8, p2: Seq<char>, i2: int, k2: int|
                                                pos_before(i2, k2, i as int, k + 1) && #[trigger] match_at(nv, rv, q2, p2, i2, k2)
                                                implies !rank_before(q2, p2, bq, bp) by {
                                                if i2 == i && k2 == k {
                                                    assert(p2 == p@);
                                                } else {
                                                    assert(pos_before(i2, k2, i as int, k as int));
                                                }
                                            }
                                        },
                                        None => {},
                                    }
                                }
                            }
                        },
                        None => {
                            proof {
                                lemma_search_skip_position(nv, rv, b0, i as int, k as int);
                            }
                        },
                    }
                } else {
                    proof {
                        let b0 = best_view(best);
                        lemma_search_skip_position(nv, rv, b0, i as int, k as int);
                    }
                }
                k += 1;
            }
            proof {
                let b0 = best_view(best);
                lemma_search_next_note(nv, rv, b0, i as int, k as int);
            }
        } else {
            proof {
                let b0 = best_view(best);
                lemma_search_next_note(nv, rv, b0, i as int, 0);
            }
        }
        i += 1;
    }
    match best {
        Some((bq, bp)) => {
            proof {
                let (i3, k3) = choose|i2: int, k2: int| pos_before(i2, k2, i as int, 0) && #[trigger] match_at(nv, rv, bq, bp@, i2, k2);
                assert(folder_match(nv, rv, bq, bp@));
                assert forall|q2: u8, p2: Seq<char>| #[trigger] folder_match(nv, rv, q2, p2) implies !rank_before(q2, p2, bq, bp@) by {
                    let (i4, k4) = choose|i2: int, k2: int| #[trigger] match_at(nv, rv, q2, p2, i2, k2);
                    assert(pos_before(i4, k4, i as int, 0));
                }
                assert(best_match(nv, rv, bq, bp@));
            }
            let res = string_of(&bp);
            assert(best_match(store.notes.deep_view(), reference@, bq, res@));
            Some(res)
        },
        None => {
            proof {
                assert forall|q2: u8, p2: Seq<char>| !#[trigger] folder_match(nv, rv, q2, p2) by {
                    if folder_match(nv, rv, q2, p2) {
                        let (i4, k4) = choose|i2: int, k2: int| #[trigger] match_at(nv, rv, q2, p2, i2, k2);
                        assert(pos_before(i4, k4, i as int, 0));
                    }
                }
            }
            None
        },
    }
}

/// A reference that no folder matches.
pub open spec fn unresolvable(notes: Seq<NoteV>, r: Seq<char>) -> bool {
    forall|q: u8, p: Seq<char>| !#[trigger] folder_match(notes, r, q, p)
}

/// Whether `out` lists, in order, `(folder, rank, reference)` for each
/// reference of `refs` that resolves, its rank being its 1-based position
/// among all references.
pub open spec fn resolved_refs(notes: Seq<NoteV>, refs: Seq<Seq<char>>, out: Seq<(Seq<char>, u32, Seq<char>)>) -> bool
    decreases refs.len(),
{
    if refs.len() == 0 {
        out.len() == 0
    } else {
        let r = refs.last();
        ||| (out.len() > 0 && out.last().2 == r && out.last().1 == (refs.len() as u32)
            && resolves_to(notes, r, out.last().0) && resolved_refs(notes, refs.drop_last(), out.drop_last()))
        ||| (unresolvable(notes, r) && resolved_refs(notes, refs.drop_last(), out))
    }
}

/// Whether `out` resolves every context of `cs`: its name with its resolved
/// project folders.
pub open spec fn resolved_contexts(
    notes: Seq<NoteV>,
    cs: Seq<ContextV>,
    out: Seq<(Seq<char>, Seq<(Seq<char>, u32, Seq<char>)>)>,
) -> bool {
    &&& out.len() == cs.len()
    &&& forall|c: int| 0 <= c < cs.len() ==> (#[trigger] out[c]).0 == cs[c].name && resolved_refs(notes, cs[c].refs, out[c].1)
}

fn resolve_refs(store: &NoteStore, refs: &Vec<String>) -> (r: Vec<(String, u32, String)>)
    ensures
        resolved_refs(store.notes.deep_view(), refs.deep_view(), r.deep_view()),
{
    let ghost nv = store.notes.deep_view();
    let mut out: Vec<(String, u32, String)> = Vec::new();
    let mut i: usize = 0;
    while i < refs.len()
        invariant
            i <= refs.len(),
            nv == store.notes.deep_view(),
            resolved_refs(nv, refs.deep_view().take(i as int), out.deep_view()),
        decreases refs.len() - i,
    {
        let ghost rv = refs.deep_view().take(i + 1);
        assert(rv.drop_last() =~= refs.deep_view().take(i as int));
        assert(rv.last() == refs[i as int]@);
        let ghost o0 = out.deep_view();
        match resolve_folder(store, refs[i].as_str()) {
            Some(f) => {
                let entry = (f, (i + 1) as u32, refs[i].clone());
                out.push(entry);
                assert(out.deep_view().drop_last() =~= o0);
            },
            None => {},
        }
        i += 1;
    }
    assert(refs.deep_view().take(refs.len() as int) =~= refs.deep_view());
    out
}

/// Map each context of a parsed control note to its resolved
/// `(folder, rank, reference)` triples; rank is the reference's 1-based
/// position, unresolved references still taking theirs.
pub fn resolve_context_projects(store: &NoteStore, control: &ProjectControl) -> (r: Vec<(String, Vec<(String, u32, String)>)>)
    ensures
        resolved_contexts(store.notes.deep_view(), control.contexts.deep_view(), r.deep_view()),
{
    let mut out: Vec<(String, Vec<(String, u32, String)>)> = Vec::new();
    let mut c: usize = 0;
    while c < control.contexts.len()
        invariant
            c <= control.contexts.len(),
            out.len() == c,
            forall|k: int| 0 <= k < c ==> (#[trigger] out.deep_view()[k]).0 == control.contexts.deep_view()[k].name
                && resolved_refs(store.notes.deep_view(), control.contexts.deep_view()[k].refs, out.deep_view()[k].1),
        decreases control.contexts.len() - c,
    {
        let ctx = &control.contexts[c];
        assert(control.contexts.deep_view()[c as int] == ctx.deep_view());
        let projects = resolve_refs(store, &ctx.refs);
        let ghost o0 = out.deep_view();
        let ghost pv = projects.deep_view();
        let name = string_of(&chars_of_string(&ctx.name));
        out.push((name, projects));
        proof {
            assert forall|k: int| 0 <= k < c + 1 implies (#[trigger] out.deep_view()[k]).0 == control.contexts.deep_view()[k].name
                && resolved_refs(store.notes.deep_view(), control.contexts.deep_view()[k].refs, out.deep_view()[k].1) by {
                if k < c {
                    assert(out.deep_view()[k] == o0[k]);
                } else {
                    assert(out.deep_view()[k] == (ctx.name@, pv));
                }
            }
        }
        c += 1;
    }
    out
}

/// Map each control-note context to its resolved `(folder, rank, title)`
/// triples; empty when there is no `#np-projects` note.
pub fn context_folder_projects(store: &NoteStore) -> (r: Vec<(String, Vec<(String, u32, String)>)>)
    requires
        store.notes.len() < usize::MAX,
    ensures
        ({
            let nv = store.notes.deep_view();
            let tag = "np-projects"@;
            (forall|j: int| 0 <= j < nv.len() ==> !#[trigger] is_marked(nv[j], tag)) ==> r.len() == 0
        }),
        ({
            let nv = store.notes.deep_view();
            let tag = "np-projects"@;
            forall|i: int| #[trigger] picked(nv, tag, true, i) ==> resolved_contexts(nv, contexts_of(lines(nv[i].content)), r.deep_view())
        }),
{
    match parse_project_control(store) {
        Some(control) => {
            let r = resolve_context_projects(store, &control);
            proof {
                let nv = store.notes.deep_view();
                let tag = "np-projects"@;
                assert forall|i: int| #[trigger] picked(nv, tag, true, i) implies resolved_contexts(nv, contexts_of(lines(nv[i].content)), r.deep_view()) by {
                    let i0 = choose|i0: int| #[trigger] picked(nv, tag, true, i0) && control.contexts.deep_view() == contexts_of(lines(nv[i0].content));
                    lemma_picked_unique(nv, tag, true, i, i0);
                }
            }
            r
        },
        None => Vec::new(),
    }
}

/// There is at most one picked control note.
pub proof fn lemma_picked_unique(notes: Seq<NoteV>, tag: Seq<char>, p: bool, i: int, j: int)
    requires
        picked(notes, tag, p, i),
        picked(notes, tag, p, j),
    ensures
        i == j,
{
    let a = notes[i].relative_path;
    let b = notes[j].relative_path;
    assert(!pick_before(p, b, a));
    assert(!pick_before(p, a, b));
    lemma_pick_before_total(p, a, b);
}

pub proof fn lemma_seq_lt_total(a: Seq<char>, b: Seq<char>)
    ensures
        seq_lt(a, b) || seq_lt(b, a) || a == b,
    decreases a.len(),
{
    if a.len() > 0 && b.len() > 0 && a[0] == b[0] {
        lemma_seq_lt_total(a.drop_first(), b.drop_first());
        if a.drop_first() == b.drop_first() {
            assert(a =~= seq![a[0]] + a.drop_first());
            assert(b =~= seq![b[0]] + b.drop_first());
        }
    } else if a.len() == 0 && b.len() == 0 {
        assert(a =~= b);
    }
}

proof fn lemma_pick_before_total(p: bool, a: Seq<char>, b: Seq<char>)
    ensures
        pick_before(p, a, b) || pick_before(p, b, a) || a == b,
{
    lemma_seq_lt_total(a, b);
}

/// Map each control-note context to its resolved project folders.
pub fn context_folders(store: &NoteStore) -> (r: Vec<(String, Vec<String>)>)
    requires
        store.notes.len() < usize::MAX,
    ensures
        folders_state(store.notes.deep_view(), r.deep_view()),
{
    let full = context_folder_projects(store);
    let mut out: Vec<(String, Vec<String>)> = Vec::new();
    let mut c: usize = 0;
    while c < full.len()
        invariant
            c <= full.len(),
            out.deep_view() == folders_of(full.deep_view().take(c as int)),
        decreases full.len() - c,
    {
        let fs = folders_of_projects(&full[c].1);
        let ghost o0 = out.deep_view();
        let ghost fv = fs.deep_view();
        let name = string_of(&chars_of_string(&full[c].0));
        out.push((name, fs));
        assert(full.deep_view()[c as int] == full[c as int].deep_view());
        assert(out.deep_view() =~= o0.push((full[c as int].0@, fv)));
        assert(folders_of(full.deep_view().take(c + 1)) =~= folders_of(full.deep_view().take(c as int)).push(
            (full.deep_view()[c as int].0, full.deep_view()[c as int].1.map_values(|t: (Seq<char>, u32, Seq<char>)| t.0)),
        ));
        c += 1;
    }
    assert(full.deep_view().take(full.len() as int) =~= full.deep_view());
    assert(folders_state(store.notes.deep_view(), out.deep_view())) by {
        let nv = store.notes.deep_view();
        assert(folders_of(full.deep_view()) == out.deep_view());
        assert(full_state(nv, full.deep_view()));
    }
    out
}

/// Whether `full` resolves the contexts of the picked `#np-projects` note
/// (and is empty without one).
pub open spec fn full_state(nv: Seq<NoteV>, full: Seq<(Seq<char>, Seq<(Seq<char>, u32, Seq<char>)>)>) -> bool {
    &&& (forall|j: int| 0 <= j < nv.len() ==> !#[trigger] is_marked(nv[j], "np-projects"@)) ==> full.len() == 0
    &&& forall|i: int| #[trigger] picked(nv, "np-projects"@, true, i) ==> resolved_contexts(nv, contexts_of(lines(nv[i].content)), full)
}

/// What `context_folders` gives: each context with its resolved folders.
pub open spec fn folders_state(nv: Seq<NoteV>, cf: Seq<(Seq<char>, Seq<Seq<char>>)>) -> bool {
    exists|full: Seq<(Seq<char>, Seq<(Seq<char>, u32, Seq<char>)>)>| full_state(nv, full) && #[trigger] folders_of(full) == cf
}

/// What `context_tags` gives: each context of the picked `#np-projects`
/// note with its declared tags (nothing without one).
pub open spec fn tags_state(nv: Seq<NoteV>, ct: Seq<(Seq<char>, Seq<Seq<char>>)>) -> bool {
    &&& (forall|j: int| 0 <= j < nv.len() ==> !#[trigger] is_marked(nv[j], "np-projects"@)) ==> ct.len() == 0
    &&& forall|i: int| #[trigger] picked(nv, "np-projects"@, true, i) ==> ct == contexts_of(lines(nv[i].content)).map_values(|c: ContextV| (c.name, c.tags))
}

fn folders_of_projects(ps: &Vec<(String, u32, String)>) -> (r: Vec<String>)
    ensures
        r.deep_view() == ps.deep_view().map_values(|t: (Seq<char>, u32, Seq<char>)| t.0),
{
    let mut fs: Vec<String> = Vec::new();
    let mut k: usize = 0;
    while k < ps.len()
        invariant
            k <= ps.len(),
            fs.deep_view() == ps.deep_view().take(k as int).map_values(|t: (Seq<char>, u32, Seq<char>)| t.0),
        decreases ps.len() - k,
    {
        let ghost f0 = fs.deep_view();
        assert(ps.deep_view()[k as int] == ps[k as int].deep_view());
        fs.push(string_of(&chars_of_string(&ps[k].0)));
        assert(fs.deep_view() =~= f0.push(ps[k as int].0@));
        assert(ps.deep_view().take(k + 1).map_values(|t: (Seq<char>, u32, Seq<char>)| t.0)
            =~= ps.deep_view().take(k as int).map_values(|t: (Seq<char>, u32, Seq<char>)| t.0).push(ps.deep_view()[k as int].0));
        k += 1;
    }
    assert(ps.deep_view().take(k as int) =~= ps.deep_view());
    fs
}

/// The folders of resolved contexts: each context's name with just the
/// folder of each triple.
pub open spec fn folders_of(full: Seq<(Seq<char>, Seq<(Seq<char>, u32, Seq<char>)>)>) -> Seq<(Seq<char>, Seq<Seq<char>>)> {
    full.map_values(|c: (Seq<char>, Seq<(Seq<char>, u32, Seq<char>)>)| (c.0, c.1.map_values(|t: (Seq<char>, u32, Seq<char>)| t.0)))
}

/// Map each control-note context to its declared tags; empty when there is
/// no `#np-projects` note.
pub fn context_tags(store: &NoteStore) -> (r: Vec<(String, Vec<String>)>)
    requires
        store.notes.len() < usize::MAX,
    ensures
        tags_state(store.notes.deep_view(), r.deep_view()),
{
    match parse_project_control(store) {
        Some(control) => {
            let mut out: Vec<(String, Vec<String>)> = Vec::new();
            let mut c: usize = 0;
            while c < control.contexts.len()
                invariant
                    c <= control.contexts.len(),
                    out.deep_view() == control.contexts.deep_view().take(c as int).map_values(|c: ContextV| (c.name, c.tags)),
                decreases control.contexts.len() - c,
            {
                let ctx = &control.contexts[c];
                assert(control.contexts.deep_view()[c as int] == ctx.deep_view());
                let ghost o0 = out.deep_view();
                out.push((string_of(&chars_of_string(&ctx.name)), copy_strings(&ctx.tags)));
                assert(out.deep_view() =~= o0.push((ctx.name@, ctx.tags.deep_view())));
                assert(out.deep_view() =~= control.contexts.deep_view().take(c + 1).map_values(|c: ContextV| (c.name, c.tags)));
                c += 1;
            }
            assert(control.contexts.deep_view().take(c as int) =~= control.contexts.deep_view());
            proof {
                let nv = store.notes.deep_view();
                let tag = "np-projects"@;
                assert forall|i: int| #[trigger] picked(nv, tag, true, i) implies out.deep_view() == contexts_of(lines(nv[i].content)).map_values(|c: ContextV| (c.name, c.tags)) by {
                    let i0 = choose|i0: int| #[trigger] picked(nv, tag, true, i0) && control.contexts.deep_view() == contexts_of(lines(nv[i0].content));
                    lemma_picked_unique(nv, tag, true, i, i0);
                }
            }
            out
        },
        None => Vec::new(),
    }
}

/// Whether a (lowercased) task tag is scoped by a declared tag: equal, or a
/// hierarchical child (`work` scopes `work/deck`, not `workshop`).
pub open spec fn tag_scoped(t: Seq<char>, d: Seq<char>) -> bool {
    t == d || (t.len() > d.len() && t.take(d.len() as int) == d && t[d.len() as int] == '/')
}

pub fn tag_scoped_by(task_tag_lower: &str, declared_lower: &str) -> (b: bool)
    ensures
        b == tag_scoped(task_tag_lower@, declared_lower@),
{
    let t = chars_of(task_tag_lower);
    let d = chars_of(declared_lower);
    if vec_eq(&t, &d) {
        return true;
    }
    if t.len() > d.len() && starts_with(&t, &d) && t[d.len()] == '/' {
        assert(t@.take(d@.len() as int) =~= d@);
        return true;
    }
    proof {
        if t@.len() > d@.len() && t@.take(d@.len() as int) == d@ {
            assert(has_prefix(t@, d@));
        }
    }
    false
}

/// A reference resolves to at most one folder.
pub proof fn lemma_resolution_deterministic(notes: Seq<NoteV>, r: Seq<char>, f1: Seq<char>, f2: Seq<char>)
    requires
        resolves_to(notes, r, f1),
        resolves_to(notes, r, f2),
    ensures
        f1 == f2,
{
    let q1 = choose|q: u8| #[trigger] best_match(notes, r, q, f1);
    let q2 = choose|q: u8| #[trigger] best_match(notes, r, q, f2);
    assert(folder_match(notes, r, q1, f1));
    assert(folder_match(notes, r, q2, f2));
    assert(!rank_before(q2, f2, q1, f1));
    assert(!rank_before(q1, f1, q2, f2));
    lemma_seq_lt_total(f1, f2);
}

/// Resolution does not depend on the order in which notes were scanned: two
/// stores holding the same notes resolve a reference alike.
pub proof fn lemma_resolution_order_independent(n1: Seq<NoteV>, n2: Seq<NoteV>, r: Seq<char>, f: Seq<char>)
    requires
        forall|i: int| 0 <= i < n1.len() ==> n2.contains(#[trigger] n1[i]),
        forall|i: int| 0 <= i < n2.len() ==> n1.contains(#[trigger] n2[i]),
    ensures
        resolves_to(n1, r, f) <==> resolves_to(n2, r, f),
{
    lemma_same_matches(n1, n2, r);
    lemma_same_matches(n2, n1, r);
    if resolves_to(n1, r, f) {
        let q = choose|q: u8| #[trigger] best_match(n1, r, q, f);
        assert(best_match(n2, r, q, f));
    }
    if resolves_to(n2, r, f) {
        let q = choose|q: u8| #[trigger] best_match(n2, r, q, f);
        assert(best_match(n1, r, q, f));
    }
}

proof fn lemma_same_matches(n1: Seq<NoteV>, n2: Seq<NoteV>, r: Seq<char>)
    requires
        forall|i: int| 0 <= i < n1.len() ==> n2.contains(#[trigger] n1[i]),
    ensures
        forall|q: u8, p: Seq<char>| #[trigger] folder_match(n1, r, q, p) ==> folder_match(n2, r, q, p),
{
    assert forall|q: u8, p: Seq<char>| #[trigger] folder_match(n1, r, q, p) implies folder_match(n2, r, q, p) by {
        let (i, k) = choose|i: int, k: int| #[trigger] match_at(n1, r, q, p, i, k);
        assert(n2.contains(n1[i]));
        let j = choose|j: int| 0 <= j < n2.len() && n2[j] == n1[i];
        assert(match_at(n2, r, q, p, j, k));
    }
}

/// An exact name match always wins over a shared-id match, whatever the
/// folders' depths.
pub proof fn lemma_exact_match_wins(notes: Seq<NoteV>, r: Seq<char>, f: Seq<char>, p: Seq<char>)
    requires
        resolves_to(notes, r, f),
        folder_match(notes, r, 0u8, p),
    ensures
        folder_match(notes, r, 0u8, f),
{
    let q = choose|q: u8| #[trigger] best_match(notes, r, q, f);
    assert(!rank_before(0u8, p, q, f));
    let (i, k) = choose|i: int, k: int| #[trigger] match_at(notes, r, q, f, i, k);
    assert(match_quality(last_segment(f), r) == Some(q));
    assert(q == 0u8);
}


// ─── Shared-id collisions ───────────────────────────────────────────────────

/// A reference resolved by its JD id alone while another folder shares that
/// id: the choice between them is a guess worth a warning.
pub open spec fn jd_collision(notes: Seq<NoteV>, r: Seq<char>, f: Seq<char>) -> bool {
    &&& best_match(notes, r, 1u8, f)
    &&& exists|p2: Seq<char>| p2 != f && #[trigger] folder_match(notes, r, 1u8, p2)
}

pub open spec fn collision_msg(r: Seq<char>, f: Seq<char>) -> Seq<char> {
    "Project reference [["@ + r + "]] matches several folders sharing JD id "@ + match leading_jd(r) {
        Some(j) => j,
        None => Seq::empty(),
    } + "; using "@ + f
}

/// The collision warning of reference `r`, if it has one.
pub open spec fn collision_of(notes: Seq<NoteV>, r: Seq<char>, o: Option<Seq<char>>) -> bool {
    match o {
        Some(t) => exists|f: Seq<char>| #[trigger] jd_collision(notes, r, f) && t == collision_msg(r, f),
        None => forall|f: Seq<char>| !#[trigger] jd_collision(notes, r, f),
    }
}

/// Every reference of the contexts, in order.
pub open spec fn all_refs(cs: Seq<ContextV>) -> Seq<Seq<char>>
    decreases cs.len(),
{
    if cs.len() == 0 {
        Seq::empty()
    } else {
        all_refs(cs.drop_last()) + cs.last().refs
    }
}

pub open spec fn somes(os: Seq<Option<Seq<char>>>) -> Seq<Seq<char>>
    decreases os.len(),
{
    if os.len() == 0 {
        Seq::empty()
    } else {
        match os.last() {
            Some(t) => somes(os.drop_last()).push(t),
            None => somes(os.drop_last()),
        }
    }
}

/// The collision warnings of the contexts' references, in order.
pub open spec fn collision_warnings(notes: Seq<NoteV>, cs: Seq<ContextV>, ws: Seq<Seq<char>>) -> bool {
    exists|os: Seq<Option<Seq<char>>>|
        os.len() == all_refs(cs).len() && (forall|k: int| 0 <= k < os.len() ==> collision_of(notes, all_refs(cs)[k], #[trigger] os[k]))
            && ws == somes(os)
}

/// Whether a folder other than `f` matches `reference` by JD id.
fn other_jd_folder(store: &NoteStore, reference: &str, f: &Vec<char>) -> (b: bool)
    ensures
        b == exists|p2: Seq<char>| p2 != f@ && #[trigger] folder_match(store.notes.deep_view(), reference@, 1u8, p2),
{
    let ghost nv = store.notes.deep_view();
    let ghost rv = reference@;
    let rc = chars_of(reference);
    let r_lower = to_lowercase(&rc);
    let r_jd = leading_jd_chars(&rc);
    let mut i: usize = 0;
    while i < store.notes.len()
        invariant
            i <= store.notes.len(),
            nv == store.notes.deep_view(),
            rv == reference@,
            r_lower@ == lowercase(rv),
            match r_jd {
                Some(x) => leading_jd(rv) == Some(x@),
                None => leading_jd(rv) is None,
            },
            forall|p2: Seq<char>, i2: int, k2: int|
                i2 < i && #[trigger] match_at(nv, rv, 1u8, p2, i2, k2) ==> p2 == f@,
        decreases store.notes.len() - i,
    {
        let note = &store.notes[i];
        assert(nv[i as int] == note.deep_view());
        let rp = chars_of_string(&note.relative_path);
        let skip = is_excluded_relative(note.relative_path.as_str()) || CalendarKind::from_note_kind(&note.kind).is_some();
        if !skip {
            let mut k: usize = 0;
            while k < rp.len()
                invariant
                    k <= rp.len(),
                    i < store.notes.len(),
                    nv == store.notes.deep_view(),
                    rv == reference@,
                    rp@ == nv[i as int].relative_path,
                    eligible(nv[i as int]),
                    r_lower@ == lowercase(rv),
                    match r_jd {
                        Some(x) => leading_jd(rv) == Some(x@),
                        None => leading_jd(rv) is None,
                    },
                    forall|p2: Seq<char>, i2: int, k2: int|
                        (i2 < i || (i2 == i && k2 < k)) && #[trigger] match_at(nv, rv, 1u8, p2, i2, k2) ==> p2 == f@,
                decreases rp.len() - k,
            {
                if rp[k] == '/' {
                    let p = slice_vec(&rp, 0, k);
                    assert(p@ =~= rp@.take(k as int));
                    proof {
                        crate::text::lemma_run_start(p@, p@.len() as int, CharClass::NotSlash);
                    }
                    let st = scan_run_back(&p, p.len(), CharClass::NotSlash);
                    let seg = slice_vec(&p, st, p.len());
                    assert(seg@ =~= last_segment(p@));
                    let m = match_quality_exec(&seg, &r_lower, &r_jd, Ghost(rv));
                    if m == Some(1u8) && !vec_eq(&p, f) {
                        assert(match_at(nv, rv, 1u8, p@, i as int, k as int));
                        assert(folder_match(nv, rv, 1u8, p@));
                        return true;
                    }
                }
                k += 1;
            }
        }
        i += 1;
    }
    proof {
        assert forall|p2: Seq<char>| p2 != f@ implies !#[trigger] folder_match(nv, rv, 1u8, p2) by {
            if folder_match(nv, rv, 1u8, p2) {
                let (i2, k2) = choose|i2: int, k2: int| #[trigger] match_at(nv, rv, 1u8, p2, i2, k2);
            }
        }
    }
    false
}

/// The collision warning of one reference, if it has one.
fn collision_warning(store: &NoteStore, reference: &str) -> (o: Option<String>)
    ensures
        collision_of(
            store.notes.deep_view(),
            reference@,
            match o {
                Some(t) => Some(t@),
                None => None,
            },
        ),
{
    let ghost nv = store.notes.deep_view();
    let ghost rv = reference@;
    match resolve_folder(store, reference) {
        None => {
            assert forall|f: Seq<char>| !#[trigger] jd_collision(nv, rv, f) by {
                if jd_collision(nv, rv, f) {
                    assert(folder_match(nv, rv, 1u8, f));
                }
            }
            None
        },
        Some(fs) => {
            let f = chars_of_string(&fs);
            let rc = chars_of(reference);
            let r_lower = to_lowercase(&rc);
            let r_jd = leading_jd_chars(&rc);
            proof {
                crate::text::lemma_run_start(f@, f@.len() as int, CharClass::NotSlash);
            }
            let st = scan_run_back(&f, f.len(), CharClass::NotSlash);
            let seg = slice_vec(&f, st, f.len());
            assert(seg@ =~= last_segment(f@));
            let m = match_quality_exec(&seg, &r_lower, &r_jd, Ghost(rv));
            let ghost q0 = choose|q: u8| #[trigger] best_match(nv, rv, q, f@);
            proof {
                let (i3, k3) = choose|i2: int, k2: int| #[trigger] match_at(nv, rv, q0, f@, i2, k2);
                assert(match_quality(last_segment(f@), rv) == Some(q0));
            }
            if m == Some(1u8) && other_jd_folder(store, reference, &f) {
                let mut out = chars_of("Project reference [[");
                crate::dump::put(&mut out, &rc);
                crate::dump::put_str(&mut out, "]] matches several folders sharing JD id ");
                match &r_jd {
                    Some(j) => crate::dump::put(&mut out, j),
                    None => {},
                }
                crate::dump::put_str(&mut out, "; using ");
                crate::dump::put(&mut out, &f);
                assert(out@ =~= collision_msg(rv, f@));
                assert(jd_collision(nv, rv, f@));
                Some(string_of(&out))
            } else {
                assert forall|g: Seq<char>| !#[trigger] jd_collision(nv, rv, g) by {
                    if jd_collision(nv, rv, g) {
                        assert(resolves_to(nv, rv, g));
                        lemma_resolution_deterministic(nv, rv, g, f@);
                    }
                }
                None
            }
        },
    }
}

/// The shared-id collision warnings of every reference of the contexts.
pub fn collision_warnings_exec(store: &NoteStore, cs: &Vec<Context>) -> (r: Vec<String>)
    ensures
        collision_warnings(store.notes.deep_view(), cs.deep_view(), r.deep_view()),
{
    let ghost nv = store.notes.deep_view();
    let ghost cv = cs.deep_view();
    let mut out: Vec<String> = Vec::new();
    let ghost mut os: Seq<Option<Seq<char>>> = Seq::empty();
    let mut c: usize = 0;
    while c < cs.len()
        invariant
            c <= cs.len(),
            nv == store.notes.deep_view(),
            cv == cs.deep_view(),
            os.len() == all_refs(cv.take(c as int)).len(),
            forall|k: int| 0 <= k < os.len() ==> collision_of(nv, all_refs(cv.take(c as int))[k], #[trigger] os[k]),
            out.deep_view() == somes(os),
        decreases cs.len() - c,
    {
        assert(cv.take(c + 1).drop_last() =~= cv.take(c as int));
        assert(cv[c as int] == cs[c as int].deep_view());
        let refs = &cs[c].refs;
        let ghost base = all_refs(cv.take(c as int));
        let ghost os0 = os;
        let mut j: usize = 0;
        while j < refs.len()
            invariant
                j <= refs.len(),
                nv == store.notes.deep_view(),
                os0.len() == base.len(),
                os.len() == base.len() + j,
                forall|k: int| 0 <= k < os0.len() ==> collision_of(nv, base[k], #[trigger] os0[k]),
                os.take(os0.len() as int) == os0,
                forall|k: int| 0 <= k < j ==> collision_of(nv, refs.deep_view()[k], #[trigger] os[base.len() + k]),
                out.deep_view() == somes(os),
            decreases refs.len() - j,
        {
            let o = collision_warning(store, refs[j].as_str());
            let ghost ov: Option<Seq<char>> = if o is Some {
                Some(o->Some_0@)
            } else {
                None
            };
            let ghost before = out.deep_view();
            let ghost osb = os;
            match o {
                Some(t) => {
                    out.push(t);
                    assert(out.deep_view() =~= before.push(ov->Some_0));
                },
                None => {},
            }
            proof {
                os = os.push(ov);
                assert(os.drop_last() =~= osb);
                assert(os.take(os0.len() as int) =~= osb.take(os0.len() as int));
                assert(refs.deep_view()[j as int] == refs[j as int]@);
                assert forall|k: int| 0 <= k < j + 1 implies collision_of(nv, refs.deep_view()[k], #[trigger] os[base.len() + k]) by {
                    if k < j {
                        assert(os[base.len() + k] == osb[base.len() + k]);
                    }
                }
            }
            j += 1;
        }
        proof {
            let all = all_refs(cv.take(c + 1));
            assert(all =~= base + cv[c as int].refs);
            assert(cv[c as int].refs == refs.deep_view());
            assert forall|k: int| 0 <= k < os.len() implies collision_of(nv, all[k], #[trigger] os[k]) by {
                if k < os0.len() {
                    assert(os[k] == os.take(os0.len() as int)[k]);
                } else {
                    assert(os[base.len() + (k - base.len())] == os[k]);
                }
            }
        }
        c += 1;
    }
    assert(cv.take(c as int) =~= cv);
    out
}

} // verus!
