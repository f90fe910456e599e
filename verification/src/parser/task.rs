//! The task-line grammar: `* text`, `* [x] text`, `- [ ] text`, with
//! priority markers (`!`..`!!!`), a trailing block ID (`^abc123`), dates,
//! tags and mentions.
use vstd::prelude::*;
use crate::models::{Task, TaskState, TaskV};
use crate::text::{
    CharClass, chars_of, class_has, has_prefix, in_class, is_digit, is_whitespace, is_ws, join,
    join_vec, lines, no_nl, no_nl_from, opt_string_of, run_end, run_start, scan_run,
    scan_run_back, slice_vec, split_lines, split_words, string_of, strings_of, trim, trim_vec,
    vec_eq, words,
};

verus! {

pub open spec fn checkbox_char(c: char) -> bool {
    c == 'x' || c == '-' || c == '>' || c == ' '
}

/// The task grammar `^[\t ]*[*-]\s+(?:\[([x\-> ])\]\s+)?(.+)$` on a line:
/// the checkbox character, if there is a checkbox, and the raw task text.
pub open spec fn task_line(l: Seq<char>) -> Option<(Option<char>, Seq<char>)> {
    let k = run_end(l, 0, CharClass::TabSpace);
    if k < l.len() && (l[k] == '*' || l[k] == '-') {
        let p = run_end(l, k + 1, CharClass::Ws);
        if p > k + 1 {
            let boxed = p + 2 < l.len() && l[p] == '[' && checkbox_char(l[p + 1]) && l[p + 2]
                == ']';
            let q = run_end(l, p + 3, CharClass::Ws);
            if boxed && q > p + 3 && q < l.len() && no_nl(l.skip(q)) {
                Some((Some(l[p + 1]), l.skip(q)))
            } else if boxed && q > p + 4 && q == l.len() && l.last() != '\n' {
                Some((Some(l[p + 1]), l.skip(q - 1)))
            } else if p < l.len() && no_nl(l.skip(p)) {
                Some((None, l.skip(p)))
            } else if p == l.len() && p > k + 2 && l.last() != '\n' {
                Some((None, l.skip(p - 1)))
            } else {
                None
            }
        } else {
            None
        }
    } else {
        None
    }
}

pub open spec fn state_of(sc: Option<char>) -> TaskState {
    match sc {
        Some('x') => TaskState::Done,
        Some('-') => TaskState::Cancelled,
        Some('>') => TaskState::Scheduled,
        _ => TaskState::Open,
    }
}

/// A `-` list item without a checkbox is a plain list item, not a task.
pub open spec fn is_plain_item(l: Seq<char>, sc: Option<char>) -> bool {
    sc is None && has_prefix(trim(l), seq!['-'])
}

/// The trailing block-ID marker `\s+\^([A-Za-z0-9]{4,})\s*$` of a text:
/// (start of the marker, start of the ID, end of the ID).
pub open spec fn block_id_span(t: Seq<char>) -> Option<(int, int, int)> {
    let e = run_start(t, t.len() as int, CharClass::Ws);
    let a = run_start(t, e, CharClass::AsciiAlnum);
    if e - a >= 4 && a >= 2 && t[a - 1] == '^' && is_ws(t[a - 2]) {
        Some((run_start(t, a - 1, CharClass::Ws), a, e))
    } else {
        None
    }
}

/// A token made only of `!` characters.
pub open spec fn is_bangs(w: Seq<char>) -> bool {
    forall|i: int| 0 <= i < w.len() ==> #[trigger] w[i] == '!'
}

/// The words that are not priority markers.
pub open spec fn plain_words(ws: Seq<Seq<char>>) -> Seq<Seq<char>>
    decreases ws.len(),
{
    if ws.len() == 0 {
        Seq::empty()
    } else if is_bangs(ws.last()) {
        plain_words(ws.drop_last())
    } else {
        plain_words(ws.drop_last()).push(ws.last())
    }
}

pub open spec fn max_u8(a: u8, b: u8) -> u8 {
    if a >= b {
        a
    } else {
        b
    }
}

/// The highest priority marker among the words, clamped to 3.
pub open spec fn bang_priority(ws: Seq<Seq<char>>) -> u8
    decreases ws.len(),
{
    if ws.len() == 0 {
        0
    } else {
        let here: u8 = if is_bangs(ws.last()) {
            if ws.last().len() >= 3 {
                3
            } else {
                ws.last().len() as u8
            }
        } else {
            0
        };
        max_u8(bang_priority(ws.drop_last()), here)
    }
}

/// The text before the block-ID marker, or the whole text.
pub open spec fn without_block_id(t: Seq<char>) -> Seq<char> {
    match block_id_span(t) {
        Some(sp) => t.take(sp.0),
        None => t,
    }
}

pub open spec fn block_id_of(t: Seq<char>) -> Option<Seq<char>> {
    match block_id_span(t) {
        Some(sp) => Some(t.subrange(sp.1, sp.2)),
        None => None,
    }
}

/// Display text, priority and block ID of a raw task text.
pub open spec fn clean(t: Seq<char>) -> (Seq<char>, u8, Option<Seq<char>>) {
    let ws = words(without_block_id(t));
    (join(plain_words(ws), seq![' ']), bang_priority(ws), block_id_of(t))
}

/// The cleaned display text of a task line; `None` for a non-task line.
pub open spec fn task_display(l: Seq<char>) -> Option<Seq<char>> {
    match task_line(l) {
        Some((sc, raw)) => if is_plain_item(l, sc) {
            None
        } else {
            Some(clean(raw).0)
        },
        None => None,
    }
}

/// An ISO date `dddd-dd-dd`.
pub open spec fn is_date(d: Seq<char>) -> bool {
    &&& d.len() == 10
    &&& is_digit(d[0]) && is_digit(d[1]) && is_digit(d[2]) && is_digit(d[3])
    &&& d[4] == '-' && is_digit(d[5]) && is_digit(d[6])
    &&& d[7] == '-' && is_digit(d[8]) && is_digit(d[9])
}

pub open spec fn date_at(t: Seq<char>, i: int, marker: char) -> bool {
    0 <= i && i + 11 <= t.len() && t[i] == marker && is_date(t.subrange(i + 1, i + 11))
}

/// The leftmost `marker` immediately followed by an ISO date, from `i` on.
pub open spec fn first_date(t: Seq<char>, i: int, marker: char) -> Option<Seq<char>>
    decreases t.len() - i,
{
    if i < 0 || i + 11 > t.len() {
        None
    } else if date_at(t, i, marker) {
        Some(t.subrange(i + 1, i + 11))
    } else {
        first_date(t, i + 1, marker)
    }
}

/// The runs of tag characters after each `marker` (`#` for tags, `@` for
/// mentions), left to right, from position `i` on.
pub open spec fn marker_runs(t: Seq<char>, i: int, marker: char) -> Seq<Seq<char>>
    decreases t.len() - i,
{
    if i < 0 || i >= t.len() {
        Seq::empty()
    } else {
        let rest = marker_runs(t, i + 1, marker);
        if t[i] == marker && i + 1 < t.len() && in_class(CharClass::TagChar, t[i + 1]) {
            seq![t.subrange(i + 1, run_end(t, i + 1, CharClass::TagChar))] + rest
        } else {
            rest
        }
    }
}

/// The elements of `ms` other than `done`.
pub open spec fn drop_done(ms: Seq<Seq<char>>) -> Seq<Seq<char>>
    decreases ms.len(),
{
    if ms.len() == 0 {
        Seq::empty()
    } else if ms.last() == seq!['d', 'o', 'n', 'e'] {
        drop_done(ms.drop_last())
    } else {
        drop_done(ms.drop_last()).push(ms.last())
    }
}

/// The tags (`#tag`) of a text, in order.
pub open spec fn tags_of(t: Seq<char>) -> Seq<Seq<char>> {
    marker_runs(t, 0, '#')
}

/// The mentions (`@name`) of a text, in order, `@done` left out.
pub open spec fn mentions_of(t: Seq<char>) -> Seq<Seq<char>> {
    drop_done(marker_runs(t, 0, '@'))
}

/// The task a line holds, numbered `line_number`.
#[verifier::opaque]
pub open spec fn task_of_line(l: Seq<char>, line_number: int) -> Option<TaskV> {
    match task_line(l) {
        Some((sc, raw)) => if is_plain_item(l, sc) {
            None
        } else {
            let (text, priority, block_id) = clean(raw);
            Some(
                TaskV {
                    text,
                    state: state_of(sc),
                    line_number: line_number as usize,
                    rescheduled_from: first_date(text, 0, '<'),
                    scheduled_to: first_date(text, 0, '>'),
                    tags: tags_of(text),
                    mentions: mentions_of(text),
                    priority,
                    block_id,
                },
            )
        },
        None => None,
    }
}

/// The tasks of a sequence of lines, numbered from 1.
pub open spec fn tasks_of(ls: Seq<Seq<char>>) -> Seq<TaskV>
    decreases ls.len(),
{
    if ls.len() == 0 {
        Seq::empty()
    } else {
        match task_of_line(ls.last(), ls.len() as int) {
            Some(t) => tasks_of(ls.drop_last()).push(t),
            None => tasks_of(ls.drop_last()),
        }
    }
}

/// Matches the task grammar on a line.
pub fn match_task_line(l: &Vec<char>) -> (r: Option<(Option<char>, Vec<char>)>)
    ensures
        match r {
            Some((sc, raw)) => task_line(l@) == Some((sc, raw@)),
            None => task_line(l@) is None,
        },
{
    let n = l.len();
    let k = scan_run(l, 0, CharClass::TabSpace);
    if !(k < n && (l[k] == '*' || l[k] == '-')) {
        return None;
    }
    let p = scan_run(l, k + 1, CharClass::Ws);
    if p <= k + 1 {
        return None;
    }
    let boxed = p < n && n - p > 2 && l[p] == '[' && (l[p + 1] == 'x' || l[p + 1] == '-' || l[p
        + 1] == '>' || l[p + 1] == ' ') && l[p + 2] == ']';
    if boxed {
        let q = scan_run(l, p + 3, CharClass::Ws);
        if q > p + 3 && q < n && no_nl_from(l, q) {
            return Some((Some(l[p + 1]), slice_vec(l, q, n)));
        }
        if q - p > 4 && q == n && l[n - 1] != '\n' {
            return Some((Some(l[p + 1]), slice_vec(l, q - 1, n)));
        }
    }
    proof {
        let b = p + 2 < n && l@[p as int] == '[' && checkbox_char(l@[p + 1]) && l@[p + 2] == ']';
        assert(b == boxed);
    }
    if p < n && no_nl_from(l, p) {
        return Some((None, slice_vec(l, p, n)));
    }
    if p == n && p > k + 2 && l[n - 1] != '\n' {
        return Some((None, slice_vec(l, p - 1, n)));
    }
    None
}

/// Whether a (raw) line is a task line: it matches the task grammar and is
/// not a plain `-` list item.
pub fn is_task_chars(l: &Vec<char>) -> (b: bool)
    ensures
        b == (task_display(l@) is Some),
{
    match match_task_line(l) {
        Some((sc, _raw)) => !is_plain(l, sc),
        None => false,
    }
}

fn is_plain(l: &Vec<char>, sc: Option<char>) -> (b: bool)
    ensures
        b == is_plain_item(l@, sc),
{
    if sc.is_some() {
        return false;
    }
    let t = trim_vec(l);
    if t.len() == 0 {
        return false;
    }
    let ghost pre = seq!['-'];
    assert(pre[0] == '-');
    if t[0] == '-' {
        assert(t@.take(1) =~= pre);
        true
    } else {
        assert(t@.take(1)[0] != pre[0]);
        false
    }
}

/// Whether a line is a task line (checkbox or `*` item, not a plain `-` item).
pub fn is_task_line(line: &str) -> (b: bool)
    ensures
        b == (task_display(line@) is Some),
{
    let l = chars_of(line);
    is_task_chars(&l)
}

fn block_span(t: &Vec<char>) -> (r: Option<(usize, usize, usize)>)
    ensures
        match r {
            Some((m, a, e)) => block_id_span(t@) == Some((m as int, a as int, e as int)) && m
                <= a <= e <= t.len(),
            None => block_id_span(t@) is None,
        },
{
    let e = scan_run_back(t, t.len(), CharClass::Ws);
    let a = scan_run_back(t, e, CharClass::AsciiAlnum);
    if e - a >= 4 && a >= 2 && t[a - 1] == '^' && is_whitespace(t[a - 2]) {
        let m = scan_run_back(t, a - 1, CharClass::Ws);
        Some((m, a, e))
    } else {
        None
    }
}

fn all_bangs(w: &Vec<char>) -> (b: bool)
    ensures
        b == is_bangs(w@),
{
    let mut i: usize = 0;
    while i < w.len()
        invariant
            i <= w.len(),
            forall|k: int| 0 <= k < i ==> w@[k] == '!',
        decreases w.len() - i,
    {
        if w[i] != '!' {
            return false;
        }
        i += 1;
    }
    true
}

/// Display text, priority and block ID of a raw task text.
pub fn clean_chars(t: &Vec<char>) -> (r: (Vec<char>, u8, Option<Vec<char>>))
    ensures
        clean(t@) == (r.0@, r.1, match r.2 {
            Some(x) => Some(x@),
            None => None::<Seq<char>>,
        }),
{
    let span = block_span(t);
    let (no_id, bid) = match span {
        Some((m, a, e)) => (slice_vec(t, 0, m), Some(slice_vec(t, a, e))),
        None => (t.clone(), None),
    };
    let ws = split_words(&no_id);
    let ghost wsv = ws.deep_view();
    let mut priority: u8 = 0;
    let mut kept: Vec<Vec<char>> = Vec::new();
    let mut i: usize = 0;
    while i < ws.len()
        invariant
            i <= ws.len(),
            wsv == ws.deep_view(),
            priority == bang_priority(wsv.take(i as int)),
            kept.deep_view() == plain_words(wsv.take(i as int)),
        decreases ws.len() - i,
    {
        proof {
            assert(wsv.take(i + 1).drop_last() =~= wsv.take(i as int));
            assert(ws[i as int].deep_view() =~= ws[i as int]@);
        }
        let w = &ws[i];
        if all_bangs(w) {
            let here: u8 = if w.len() >= 3 {
                3
            } else {
                w.len() as u8
            };
            if here > priority {
                priority = here;
            }
        } else {
            let ghost k0 = kept.deep_view();
            let wc = w.clone();
            assert(wc.deep_view() =~= wc@);
            kept.push(wc);
            assert(kept.deep_view() =~= k0.push(wsv[i as int]));
        }
        i += 1;
    }
    assert(wsv.take(ws.len() as int) =~= wsv);
    let sep = vec![' '];
    assert(sep@ =~= seq![' ']);
    let display = join_vec(&kept, &sep);
    (display, priority, bid)
}

/// Strip the block-ID and `!` priority markers from a task's text: returns
/// the display text, the priority (0..=3) and the block ID. A `!` run counts
/// as a marker only as a whole whitespace-separated token.
pub fn clean_task_text(text: &str) -> (r: (String, u8, Option<String>))
    ensures
        clean(text@) == (r.0@, r.1, r.2.deep_view()),
{
    let t = chars_of(text);
    let (d, p, b) = clean_chars(&t);
    (string_of(&d), p, opt_string_of(&b))
}

/// The cleaned display text of a task line, `None` for a non-task line.
pub fn task_display_text(line: &str) -> (r: Option<String>)
    ensures
        r.deep_view() == task_display(line@),
{
    let l = chars_of(line);
    task_display_chars(&l)
}

pub fn task_display_chars(l: &Vec<char>) -> (r: Option<String>)
    ensures
        r.deep_view() == task_display(l@),
{
    match match_task_line(l) {
        Some((sc, raw)) => {
            if is_plain(l, sc) {
                None
            } else {
                let (d, _p, _b) = clean_chars(&raw);
                Some(string_of(&d))
            }
        },
        None => None,
    }
}

fn date_here(t: &Vec<char>, i: usize, marker: char) -> (b: bool)
    ensures
        b == date_at(t@, i as int, marker),
{
    if i >= t.len() || t.len() - i < 11 {
        return false;
    }
    let d = i + 1;
    let ok = t[i] == marker && '0' <= t[d] && t[d] <= '9' && '0' <= t[d + 1] && t[d + 1] <= '9'
        && '0' <= t[d + 2] && t[d + 2] <= '9' && '0' <= t[d + 3] && t[d + 3] <= '9' && t[d + 4]
        == '-' && '0' <= t[d + 5] && t[d + 5] <= '9' && '0' <= t[d + 6] && t[d + 6] <= '9' && t[d
        + 7] == '-' && '0' <= t[d + 8] && t[d + 8] <= '9' && '0' <= t[d + 9] && t[d + 9] <= '9';
    proof {
        let s = t@.subrange(i + 1, i + 11);
        assert(s[0] == t@[d as int] && s[1] == t@[d + 1] && s[2] == t@[d + 2] && s[3] == t@[d
            + 3] && s[4] == t@[d + 4] && s[5] == t@[d + 5] && s[6] == t@[d + 6] && s[7] == t@[d
            + 7] && s[8] == t@[d + 8] && s[9] == t@[d + 9]);
    }
    ok
}

/// The date after the leftmost `marker` that is followed by an ISO date.
pub fn find_date(t: &Vec<char>, marker: char) -> (r: Option<Vec<char>>)
    ensures
        first_date(t@, 0, marker) == match r {
            Some(x) => Some(x@),
            None => None::<Seq<char>>,
        },
{
    let mut i: usize = 0;
    while i < t.len()
        invariant
            i <= t.len(),
            first_date(t@, i as int, marker) == first_date(t@, 0, marker),
        decreases t.len() - i,
    {
        if t.len() - i < 11 {
            return None;
        }
        if date_here(t, i, marker) {
            return Some(slice_vec(t, i + 1, i + 11));
        }
        i += 1;
    }
    None
}

/// The tag-character runs after each `marker`, left to right.
pub fn find_marker_runs(t: &Vec<char>, marker: char) -> (r: Vec<Vec<char>>)
    ensures
        r.deep_view() == marker_runs(t@, 0, marker),
{
    let mut r: Vec<Vec<char>> = Vec::new();
    let mut i: usize = 0;
    while i < t.len()
        invariant
            i <= t.len(),
            r.deep_view() + marker_runs(t@, i as int, marker) == marker_runs(t@, 0, marker),
        decreases t.len() - i,
    {
        if t[i] == marker && i + 1 < t.len() && class_has(CharClass::TagChar, t[i + 1]) {
            let e = scan_run(t, i + 1, CharClass::TagChar);
            let run = slice_vec(t, i + 1, e);
            let ghost r0 = r.deep_view();
            assert(run.deep_view() =~= run@);
            r.push(run);
            proof {
                assert(r.deep_view() =~= r0.push(run@));
                let rest = marker_runs(t@, i + 1, marker);
                assert(r0.push(run@) + rest =~= r0 + (seq![run@] + rest));
            }
        }
        i += 1;
    }
    assert(r.deep_view() + marker_runs(t@, t.len() as int, marker) =~= r.deep_view());
    r
}

/// The mentions of a text (`@done` left out).
pub fn find_mentions(t: &Vec<char>) -> (r: Vec<Vec<char>>)
    ensures
        r.deep_view() == mentions_of(t@),
{
    let runs = find_marker_runs(t, '@');
    let ghost rv = runs.deep_view();
    let mut r: Vec<Vec<char>> = Vec::new();
    let mut i: usize = 0;
    while i < runs.len()
        invariant
            i <= runs.len(),
            rv == runs.deep_view(),
            r.deep_view() == drop_done(rv.take(i as int)),
        decreases runs.len() - i,
    {
        proof {
            assert(rv.take(i + 1).drop_last() =~= rv.take(i as int));
            assert(runs[i as int].deep_view() =~= runs[i as int]@);
        }
        let done = vec!['d', 'o', 'n', 'e'];
        assert(done@ =~= seq!['d', 'o', 'n', 'e']);
        if !vec_eq(&runs[i], &done) {
            let ghost r0 = r.deep_view();
            let x = runs[i].clone();
            assert(x.deep_view() =~= x@);
            r.push(x);
            assert(r.deep_view() =~= r0.push(rv[i as int]));
        }
        i += 1;
    }
    assert(rv.take(runs.len() as int) =~= rv);
    r
}

/// The task held by a line with the given number.
pub fn task_of_chars(l: &Vec<char>, line_number: usize) -> (r: Option<Task>)
    ensures
        r.deep_view() == task_of_line(l@, line_number as int),
{
    proof {
        reveal(task_of_line);
    }
    match match_task_line(l) {
        None => None,
        Some((sc, raw)) => {
            if is_plain(l, sc) {
                return None;
            }
            let (text, priority, block_id) = clean_chars(&raw);
            let state = match sc {
                Some('x') => TaskState::Done,
                Some('-') => TaskState::Cancelled,
                Some('>') => TaskState::Scheduled,
                _ => TaskState::Open,
            };
            let from = find_date(&text, '<');
            let to = find_date(&text, '>');
            let tags = find_marker_runs(&text, '#');
            let mentions = find_mentions(&text);
            let t = Task {
                text: string_of(&text),
                state,
                line_number,
                rescheduled_from: opt_string_of(&from),
                scheduled_to: opt_string_of(&to),
                tags: strings_of(&tags),
                mentions: strings_of(&mentions),
                priority,
                block_id: opt_string_of(&block_id),
            };
            Some(t)
        },
    }
}

/// Parse all tasks from note content, numbering lines from 1.
pub fn parse_tasks(content: &str) -> (r: Vec<Task>)
    ensures
        r.deep_view() == tasks_of(lines(content@)),
        forall|k: int| 0 <= k < r.len() ==> {
            let ls = lines(content@);
            let t = #[trigger] r.deep_view()[k];
            let sc = task_line(ls[t.line_number - 1])->Some_0.0;
            &&& 1 <= t.line_number <= ls.len()
            &&& task_line(ls[t.line_number - 1]) is Some
            &&& (t.state == TaskState::Done <==> sc == Some('x'))
            &&& (t.state == TaskState::Cancelled <==> sc == Some('-'))
            &&& (t.state == TaskState::Scheduled <==> sc == Some('>'))
            &&& (t.state == TaskState::Open <==> (sc is None || sc == Some(' ')))
        },
{
    let c = chars_of(content);
    let ls = split_lines(&c);
    let r = tasks_of_lines(&ls);
    proof {
        lemma_tasks_state_law(ls.deep_view());
        assert(r.deep_view().len() == r.len());
    }
    r
}

pub fn tasks_of_lines(ls: &Vec<Vec<char>>) -> (r: Vec<Task>)
    ensures
        r.deep_view() == tasks_of(ls.deep_view()),
{
    let ghost lv = ls.deep_view();
    let mut r: Vec<Task> = Vec::new();
    let mut i: usize = 0;
    while i < ls.len()
        invariant
            i <= ls.len(),
            lv == ls.deep_view(),
            r.deep_view() == tasks_of(lv.take(i as int)),
        decreases ls.len() - i,
    {
        proof {
            assert(lv.take(i + 1).drop_last() =~= lv.take(i as int));
            assert(ls[i as int].deep_view() =~= ls[i as int]@);
        }
        let ghost r0 = r.deep_view();
        match task_of_chars(&ls[i], i + 1) {
            Some(t) => {
                r.push(t);
                assert(r.deep_view() =~= r0.push(task_of_line(lv[i as int], i + 1).unwrap()));
            },
            None => {},
        }
        i += 1;
    }
    assert(lv.take(ls.len() as int) =~= lv);
    r
}

// ─── Laws of task text ──────────────────────────────────────────────────────

/// The priority a `!` word gives: its length, at most 3; none for another word.
pub open spec fn word_priority(w: Seq<char>) -> int {
    if is_bangs(w) {
        if w.len() >= 3 { 3 } else { w.len() as int }
    } else {
        0
    }
}

/// The priority of words is the greatest any of them gives, and at most 3:
/// no word gives more, and unless it is 0 some word gives exactly it.
pub proof fn lemma_bang_priority(ws: Seq<Seq<char>>)
    ensures
        bang_priority(ws) <= 3,
        forall|k: int| 0 <= k < ws.len() ==> word_priority(#[trigger] ws[k]) <= bang_priority(ws),
        bang_priority(ws) == 0 || exists|k: int| 0 <= k < ws.len() && word_priority(#[trigger] ws[k]) == bang_priority(ws),
    decreases ws.len(),
{
    if ws.len() > 0 {
        let d = ws.drop_last();
        lemma_bang_priority(d);
        assert forall|k: int| 0 <= k < ws.len() implies word_priority(#[trigger] ws[k]) <= bang_priority(ws) by {
            if k < d.len() {
                assert(ws[k] == d[k]);
            }
        }
        if bang_priority(ws) != 0 {
            if bang_priority(ws) == bang_priority(d) {
                let k = choose|k: int| 0 <= k < d.len() && word_priority(#[trigger] d[k]) == bang_priority(d);
                assert(ws[k] == d[k]);
            } else {
                assert(word_priority(ws[ws.len() - 1]) == bang_priority(ws));
            }
        }
    }
}

/// Cleaning a task's text: the block ID is the trailing one the text ends
/// with, the priority is the greatest that a whole `!` word of the rest
/// gives (at most 3), and the display text is the rest's other words joined
/// by single spaces.
pub proof fn lemma_clean_law(t: Seq<char>)
    ensures
        clean(t).2 == block_id_of(t),
        clean(t).1 <= 3,
        forall|k: int| 0 <= k < words(without_block_id(t)).len() ==> word_priority(
            #[trigger] words(without_block_id(t))[k],
        ) <= clean(t).1,
        clean(t).1 == 0 || exists|k: int| 0 <= k < words(without_block_id(t)).len() && word_priority(
            #[trigger] words(without_block_id(t))[k],
        ) == clean(t).1,
        clean(t).0 == join(plain_words(words(without_block_id(t))), seq![' ']),
{
    lemma_bang_priority(words(without_block_id(t)));
}

/// Parsing tasks gives one task per task line, in line order: each task is
/// what its 1-based line parses to, the line numbers strictly increase, and
/// every line that parses to a task gives one.
pub proof fn lemma_tasks_of_law(ls: Seq<Seq<char>>)
    requires
        ls.len() <= usize::MAX,
    ensures
        forall|k: int| 0 <= k < tasks_of(ls).len() ==> 1 <= (#[trigger] tasks_of(ls)[k]).line_number <= ls.len()
            && task_of_line(ls[tasks_of(ls)[k].line_number - 1], tasks_of(ls)[k].line_number as int) == Some(tasks_of(ls)[k]),
        forall|k1: int, k2: int| 0 <= k1 < k2 < tasks_of(ls).len() ==> (#[trigger] tasks_of(ls)[k1]).line_number
            < (#[trigger] tasks_of(ls)[k2]).line_number,
        forall|n: int| 1 <= n <= ls.len() && (#[trigger] task_of_line(ls[n - 1], n)) is Some ==> exists|k: int|
            0 <= k < tasks_of(ls).len() && (#[trigger] tasks_of(ls)[k]).line_number == n,
    decreases ls.len(),
{
    if ls.len() > 0 {
        let d = ls.drop_last();
        lemma_tasks_of_law(d);
        let td = tasks_of(d);
        let tl = tasks_of(ls);
        let n = ls.len() as int;
        lemma_task_of_line_number(ls.last(), n);
        assert forall|k: int| 0 <= k < tl.len() implies 1 <= (#[trigger] tl[k]).line_number <= ls.len()
            && task_of_line(ls[tl[k].line_number - 1], tl[k].line_number as int) == Some(tl[k]) by {
            if k < td.len() {
                assert(tl[k] == td[k]);
                assert(ls[td[k].line_number - 1] == d[td[k].line_number - 1]);
            }
        }
        assert forall|k1: int, k2: int| 0 <= k1 < k2 < tl.len() implies (#[trigger] tl[k1]).line_number < (#[trigger] tl[k2]).line_number by {
            assert(tl[k1] == td[k1]);
            if k2 < td.len() {
                assert(tl[k2] == td[k2]);
            }
        }
        assert forall|m: int| 1 <= m <= ls.len() && (#[trigger] task_of_line(ls[m - 1], m)) is Some implies exists|k: int|
            0 <= k < tl.len() && (#[trigger] tl[k]).line_number == m by {
            if m < n {
                assert(ls[m - 1] == d[m - 1]);
                assert(task_of_line(d[m - 1], m) is Some);
                let k = choose|k: int| 0 <= k < td.len() && (#[trigger] td[k]).line_number == m;
                assert(tl[k] == td[k]);
            } else {
                assert(tl[td.len() as int].line_number == m);
            }
        }
    }
}

proof fn lemma_task_of_line_number(l: Seq<char>, n: int)
    requires
        0 <= n <= usize::MAX,
    ensures
        task_of_line(l, n) matches Some(t) ==> t.line_number == n,
{
    reveal(task_of_line);
}

/// A task's state is its checkbox: `[x]` is done, `[-]` cancelled, `[>]`
/// scheduled, and a task with no checkbox or `[ ]` is open.
pub proof fn lemma_task_state_law(l: Seq<char>, n: int)
    ensures
        task_of_line(l, n) matches Some(t) ==> {
            let sc = task_line(l)->Some_0.0;
            &&& task_line(l) is Some
            &&& (t.state == TaskState::Done <==> sc == Some('x'))
            &&& (t.state == TaskState::Cancelled <==> sc == Some('-'))
            &&& (t.state == TaskState::Scheduled <==> sc == Some('>'))
            &&& (t.state == TaskState::Open <==> (sc is None || sc == Some(' ')))
        },
{
    reveal(task_of_line);
}

/// Parsing tasks gives each task the state its line's checkbox says: the
/// task on 1-based line `n` is done for `[x]`, cancelled for `[-]`,
/// scheduled for `[>]` and open for `[ ]` or no checkbox.
pub proof fn lemma_tasks_state_law(ls: Seq<Seq<char>>)
    requires
        ls.len() <= usize::MAX,
    ensures
        forall|k: int| 0 <= k < tasks_of(ls).len() ==> {
            let t = #[trigger] tasks_of(ls)[k];
            let sc = task_line(ls[t.line_number - 1])->Some_0.0;
            &&& 1 <= t.line_number <= ls.len()
            &&& task_line(ls[t.line_number - 1]) is Some
            &&& (t.state == TaskState::Done <==> sc == Some('x'))
            &&& (t.state == TaskState::Cancelled <==> sc == Some('-'))
            &&& (t.state == TaskState::Scheduled <==> sc == Some('>'))
            &&& (t.state == TaskState::Open <==> (sc is None || sc == Some(' ')))
        },
{
    lemma_tasks_of_law(ls);
    assert forall|k: int| 0 <= k < tasks_of(ls).len() implies {
        let t = #[trigger] tasks_of(ls)[k];
        let sc = task_line(ls[t.line_number - 1])->Some_0.0;
        &&& 1 <= t.line_number <= ls.len()
        &&& task_line(ls[t.line_number - 1]) is Some
        &&& (t.state == TaskState::Done <==> sc == Some('x'))
        &&& (t.state == TaskState::Cancelled <==> sc == Some('-'))
        &&& (t.state == TaskState::Scheduled <==> sc == Some('>'))
        &&& (t.state == TaskState::Open <==> (sc is None || sc == Some(' ')))
    } by {
        let t = tasks_of(ls)[k];
        lemma_task_state_law(ls[t.line_number - 1], t.line_number as int);
    }
}

} // verus!
