//! Planning of writes against notes: stamping a block ID onto a task line in a
//! content note, and inserting, repositioning, tombstoning and collecting lines
//! in the app-owned `#np-backlog` control note. Planners return `WriteOp`s and
//! perform no I/O.
use vstd::prelude::*;
use std::hash::{BuildHasher, BuildHasherDefault, DefaultHasher};
use crate::parser::task::{
    clean, clean_chars, find_marker_runs, tags_of, task_display, task_display_chars,
};
use crate::text::{
    chars_of, chars_of_string, class_has, concat, enclose, in_class, is_whitespace, is_ws,
    decimal, decimal_of, lemma_run_end, lines, run_end, scan_run, slice_vec, split_lines,
    string_of, trim, trim_end, trim_end_vec, trim_vec, vec_eq, CharClass,
};

verus! {

/// A planned mutation. Only `AppendBlockId` writes to a user content note;
/// the other variants target the app-owned backlog note, and
/// `DeleteBacklogLine` is the only one that removes a line.
#[derive(Debug, Clone, PartialEq)]
pub enum WriteOp {
    /// Append ` ^block_id` to the task on 1-based `line` of a content note;
    /// `new_line_text` is that line with the suffix added.
    AppendBlockId { line: usize, new_line_text: String, block_id: String },
    /// Insert a line into the backlog note.
    InsertBacklogLine { line: usize, text: String },
    /// Replace a line of the backlog note.
    ReplaceBacklogLine { line: usize, text: String },
    /// Delete a single 1-based line of the backlog note.
    DeleteBacklogLine { line: usize },
}

pub enum WriteOpV {
    AppendBlockId { line: usize, new_line_text: Seq<char>, block_id: Seq<char> },
    InsertBacklogLine { line: usize, text: Seq<char> },
    ReplaceBacklogLine { line: usize, text: Seq<char> },
    DeleteBacklogLine { line: usize },
}

impl DeepView for WriteOp {
    type V = WriteOpV;

    open spec fn deep_view(&self) -> WriteOpV {
        match self {
            WriteOp::AppendBlockId { line, new_line_text, block_id } => WriteOpV::AppendBlockId {
                line: *line,
                new_line_text: new_line_text@,
                block_id: block_id@,
            },
            WriteOp::InsertBacklogLine { line, text } => WriteOpV::InsertBacklogLine {
                line: *line,
                text: text@,
            },
            WriteOp::ReplaceBacklogLine { line, text } => WriteOpV::ReplaceBacklogLine {
                line: *line,
                text: text@,
            },
            WriteOp::DeleteBacklogLine { line } => WriteOpV::DeleteBacklogLine { line: *line },
        }
    }
}

impl WriteOp {
    /// True if this op mutates a user content note (only `AppendBlockId` does).
    pub fn touches_content_note(&self) -> (b: bool)
        ensures
            b == (self is AppendBlockId),
    {
        match self {
            WriteOp::AppendBlockId { .. } => true,
            _ => false,
        }
    }
}

/// The base-36 digit for `d < 36` (`0-9` then `a-z`).
pub open spec fn b36_digit(d: nat) -> char {
    if d < 10 {
        ((d + 48) as u8) as char
    } else {
        ((d + 87) as u8) as char
    }
}

/// The base-36 digits of `n`, most significant first (none for zero).
pub open spec fn base36_digits(n: nat) -> Seq<char>
    decreases n,
{
    if n == 0 {
        Seq::empty()
    } else {
        base36_digits(n / 36).push(b36_digit(n % 36))
    }
}

/// `s` left-padded with `0` to six characters.
pub open spec fn zero_pad6(s: Seq<char>) -> Seq<char> {
    if s.len() < 6 {
        Seq::new((6 - s.len()) as nat, |i: int| '0') + s
    } else {
        s
    }
}

/// The six-character ID derived from a hash value: the first six characters
/// of its zero-padded base-36 form.
pub open spec fn id_of_hash(h: u64) -> Seq<char> {
    zero_pad6(base36_digits(h as nat)).take(6)
}

/// A base-36 character: a digit or a lowercase ASCII letter.
pub open spec fn b36_char(c: char) -> bool {
    ('0' <= c && c <= '9') || ('a' <= c && c <= 'z')
}

proof fn lemma_b36_digit(d: nat)
    requires
        d < 36,
    ensures
        b36_char(b36_digit(d)),
{
    if d < 10 {
        assert(((d + 48) as u8) as int == d + 48);
        assert((((d + 48) as u8) as char) as int == d + 48);
    } else {
        assert(((d + 87) as u8) as int == d + 87);
        assert((((d + 87) as u8) as char) as int == d + 87);
    }
}

proof fn lemma_base36_chars(n: nat)
    ensures
        forall|i: int| 0 <= i < base36_digits(n).len() ==> b36_char(#[trigger] base36_digits(n)[i]),
    decreases n,
{
    if n > 0 {
        lemma_base36_chars(n / 36);
        lemma_b36_digit(n % 36);
        let p = base36_digits(n / 36);
        assert forall|i: int| 0 <= i < base36_digits(n).len() implies b36_char(#[trigger] base36_digits(n)[i]) by {
            if i < p.len() {
                assert(base36_digits(n)[i] == p[i]);
            }
        }
    }
}

/// A block ID derived from a hash is six base-36 characters (digits and
/// lowercase ASCII letters).
pub proof fn lemma_id_of_hash_chars(h: u64)
    ensures
        id_of_hash(h).len() == 6,
        forall|i: int| 0 <= i < 6 ==> b36_char(#[trigger] id_of_hash(h)[i]),
{
    let d = base36_digits(h as nat);
    lemma_base36_chars(h as nat);
    let z = zero_pad6(d);
    assert forall|i: int| 0 <= i < z.len() implies b36_char(#[trigger] z[i]) by {
        if d.len() < 6 {
            if i < 6 - d.len() {
                assert(z[i] == '0');
            } else {
                assert(z[i] == d[i - (6 - d.len())]);
            }
        }
    }
    assert(z.len() >= 6);
    assert forall|i: int| 0 <= i < 6 implies b36_char(#[trigger] id_of_hash(h)[i]) by {
        assert(id_of_hash(h)[i] == z[i]);
    }
}

fn digit36(d: u64) -> (c: char)
    requires
        d < 36,
    ensures
        c == b36_digit(d as nat),
{
    if d < 10 {
        ((d + 48) as u8) as char
    } else {
        ((d + 87) as u8) as char
    }
}

fn base36_id(h: u64) -> (r: Vec<char>)
    ensures
        r@ == id_of_hash(h),
{
    let mut s: Vec<char> = Vec::new();
    let mut n = h;
    while n > 0
        invariant
            base36_digits(h as nat) == base36_digits(n as nat) + s@,
        decreases n,
    {
        let c = digit36(n % 36);
        proof {
            assert(base36_digits(n as nat) == base36_digits((n / 36) as nat).push(c));
            assert(base36_digits((n / 36) as nat) + seq![c].add(s@) =~= base36_digits(
                (n / 36) as nat,
            ).push(c) + s@);
        }
        s.insert(0, c);
        n = n / 36;
    }
    assert(s@ =~= base36_digits(h as nat));
    let ghost digits = s@;
    while s.len() < 6
        invariant
            digits == base36_digits(h as nat),
            digits.len() >= 6 ==> s@ == digits,
            digits.len() < 6 ==> s.len() <= 6 && s.len() >= digits.len() && s@ == Seq::new(
                (s.len() - digits.len()) as nat,
                |i: int| '0',
            ) + digits,
        decreases 6 - s.len(),
    {
        s.insert(0, '0');
        assert(s@ =~= Seq::new((s.len() - digits.len()) as nat, |i: int| '0') + digits);
    }
    assert(s@ =~= zero_pad6(digits));
    let mut r: Vec<char> = Vec::new();
    let mut i: usize = 0;
    while i < 6
        invariant
            i <= 6 <= s.len(),
            s@ == zero_pad6(digits),
            digits == base36_digits(h as nat),
            r@ == s@.take(i as int),
        decreases 6 - i,
    {
        r.push(s[i]);
        i += 1;
        assert(r@ =~= s@.take(i as int));
    }
    r
}

/// The name of what std's `DefaultHasher` gives for the pair `(seed, salt)`:
/// `BuildHasherDefault::<DefaultHasher>::hash_one((seed, salt))`.
pub uninterp spec fn default_hash(seed: Seq<char>, salt: u64) -> u64;

/// Hashes `(seed, salt)` with std's `DefaultHasher` through
/// `BuildHasher::hash_one`. `DefaultHasher::new` starts from fixed keys, so
/// within one build of the program the result depends on the arguments
/// alone; the contract names it `default_hash(seed@, salt)` and claims
/// nothing else of it.
#[verifier::external_body]
fn hash_seed_salt(seed: &str, salt: u64) -> (h: u64)
    ensures
        h == default_hash(seed@, salt),
{
    BuildHasherDefault::<DefaultHasher>::default().hash_one((seed, salt))
}

/// The candidate block ID for `seed` under `salt`.
pub open spec fn candidate_id(seed: Seq<char>, salt: u64) -> Seq<char> {
    id_of_hash(default_hash(seed, salt))
}

/// Whether the candidate for `salt` collides with an existing ID.
pub open spec fn salt_taken(seed: Seq<char>, salt: u64, existing: Seq<Seq<char>>) -> bool {
    existing.contains(candidate_id(seed, salt))
}

/// Whether `salt` is the first salt whose candidate is free.
pub open spec fn first_free(seed: Seq<char>, salt: u64, existing: Seq<Seq<char>>) -> bool {
    &&& !salt_taken(seed, salt, existing)
    &&& forall|s: u64| s < salt ==> #[trigger] salt_taken(seed, s, existing)
}

/// Whether `existing` holds a string equal to `s`.
pub fn contains_string(existing: &Vec<String>, s: &Vec<char>) -> (b: bool)
    ensures
        b == existing.deep_view().contains(s@),
{
    let mut i: usize = 0;
    while i < existing.len()
        invariant
            i <= existing.len(),
            forall|k: int| 0 <= k < i ==> existing.deep_view()[k] != s@,
        decreases existing.len() - i,
    {
        let e = chars_of_string(&existing[i]);
        if vec_eq(&e, s) {
            assert(existing.deep_view()[i as int] == s@);
            return true;
        }
        i += 1;
    }
    false
}

/// The first salt whose candidate ID is not in `existing`, or `None` when
/// every salt's candidate is taken.
pub fn first_free_salt(seed: &str, existing: &Vec<String>) -> (r: Option<u64>)
    ensures
        match r {
            Some(s) => first_free(seed@, s, existing.deep_view()),
            None => forall|s: u64| #[trigger] salt_taken(seed@, s, existing.deep_view()),
        },
{
    let mut salt: u64 = 0;
    loop
        invariant
            forall|s: u64| s < salt ==> #[trigger] salt_taken(seed@, s, existing.deep_view()),
        decreases u64::MAX - salt,
    {
        let h = hash_seed_salt(seed, salt);
        let id = base36_id(h);
        proof {
            lemma_id_of_hash_chars(h);
        }
        if !contains_string(existing, &id) {
            return Some(salt);
        }
        if salt == u64::MAX {
            assert forall|s: u64| #[trigger] salt_taken(seed@, s, existing.deep_view()) by {
                if s < salt {
                } else {
                    assert(s == salt);
                }
            }
            return None;
        }
        salt += 1;
    }
}

/// Deterministically derive a 6-character block ID from `seed`, avoiding
/// the IDs in `existing`: the candidate of the first salt (0, 1, 2, ...) whose
/// candidate is free.
pub fn generate_block_id(seed: &str, existing: &Vec<String>) -> (r: String)
    requires
        exists|s: u64| !salt_taken(seed@, s, existing.deep_view()),
    ensures
        exists|s: u64| first_free(seed@, s, existing.deep_view()) && r@ == candidate_id(seed@, s),
        !existing.deep_view().contains(r@),
        r@.len() == 6,
        forall|i: int| 0 <= i < 6 ==> b36_char(#[trigger] r@[i]),
{
    let ghost w = choose|s: u64| !salt_taken(seed@, s, existing.deep_view());
    let mut salt: u64 = 0;
    loop
        invariant
            salt <= w,
            !salt_taken(seed@, w, existing.deep_view()),
            forall|s: u64| s < salt ==> #[trigger] salt_taken(seed@, s, existing.deep_view()),
        decreases w - salt,
    {
        let h = hash_seed_salt(seed, salt);
        let id = base36_id(h);
        proof {
            lemma_id_of_hash_chars(h);
        }
        if !contains_string(existing, &id) {
            assert(first_free(seed@, salt, existing.deep_view()));
            return string_of(&id);
        }
        salt += 1;
    }
}


/// Whether line `l` is a task whose cleaned display text is `e`.
pub open spec fn shows(l: Seq<char>, e: Seq<char>) -> bool {
    task_display(l) == Some(e)
}

pub open spec fn task_gone_msg(e: Seq<char>) -> Seq<char> {
    "Task \""@ + e + "\" no longer found — rescan and retry."@
}

pub open spec fn task_ambiguous_msg(e: Seq<char>) -> Seq<char> {
    "Ambiguous: multiple task lines match \""@ + e
        + "\" — cannot safely stamp. Disambiguate and retry."@
}

/// Whether exactly line index `i` of `ls` shows `e`.
pub open spec fn only_match(ls: Seq<Seq<char>>, e: Seq<char>, i: int) -> bool {
    &&& 0 <= i < ls.len()
    &&& shows(ls[i], e)
    &&& forall|j: int| 0 <= j < ls.len() && j != i ==> !#[trigger] shows(ls[j], e)
}

/// Whether no line of `ls` shows `e`.
pub open spec fn no_match(ls: Seq<Seq<char>>, e: Seq<char>) -> bool {
    forall|j: int| 0 <= j < ls.len() ==> !#[trigger] shows(ls[j], e)
}

/// Whether two lines of `ls` show `e`.
pub open spec fn two_matches(ls: Seq<Seq<char>>, e: Seq<char>) -> bool {
    exists|j: int, k: int| 0 <= j < k < ls.len() && #[trigger] shows(ls[j], e) && #[trigger] shows(ls[k], e)
}

/// Locate the unique task line whose cleaned display text equals `expected`:
/// its 1-based line number and raw text. Err when no line matches (the task
/// is gone) or when two or more do (ambiguous).
pub fn locate_unique_task_line(content: &str, expected: &str) -> (r: Result<(usize, String), String>)
    ensures
        match r {
            Ok((n, raw)) => only_match(lines(content@), expected@, n - 1) && raw@ == lines(content@)[n - 1],
            Err(m) => (no_match(lines(content@), expected@) && m@ == task_gone_msg(expected@))
                || (two_matches(lines(content@), expected@) && m@ == task_ambiguous_msg(expected@)),
        },
{
    let ls = split_lines(&chars_of(content));
    let e = chars_of(expected);
    let ghost lv = lines(content@);
    let mut found: Option<(usize, Vec<char>)> = None;
    let mut i: usize = 0;
    while i < ls.len()
        invariant
            i <= ls.len(),
            ls.deep_view() == lv,
            lv == lines(content@),
            e@ == expected@,
            match found {
                None => forall|j: int| 0 <= j < i ==> !#[trigger] shows(lv[j], e@),
                Some((n, raw)) => 1 <= n <= i && shows(lv[n - 1], e@) && raw@ == lv[n - 1]
                    && forall|j: int| 0 <= j < i && j != n - 1 ==> !#[trigger] shows(lv[j], e@),
            },
        decreases ls.len() - i,
    {
        assert(ls[i as int]@ == lv[i as int]);
        let d = task_display_chars(&ls[i]);
        let hit = match d {
            Some(t) => vec_eq(&chars_of_string(&t), &e),
            None => false,
        };
        assert(hit == shows(lv[i as int], e@));
        if hit {
            match found {
                Some((n, _)) => {
                    assert(shows(lv[n - 1], e@) && shows(lv[i as int], e@));
                    assert(two_matches(lv, e@));
                    return Err(
                        string_of(
                            &enclose(
                                "Ambiguous: multiple task lines match \"",
                                &e,
                                "\" — cannot safely stamp. Disambiguate and retry.",
                            ),
                        ),
                    );
                },
                None => {
                    found = Some((i + 1, ls[i].clone()));
                },
            }
        }
        i += 1;
    }
    match found {
        Some((n, raw)) => Ok((n, string_of(&raw))),
        None => Err(string_of(&enclose("Task \"", &e, "\" no longer found — rescan and retry."))),
    }
}

/// The block ID already at the end of a line (`^id`), if any; the same rule
/// as task cleaning, so a stamp is never doubled.
fn existing_trailing_id(line: &Vec<char>) -> (r: Option<Vec<char>>)
    ensures
        match r {
            Some(id) => clean(line@).2 == Some(id@),
            None => clean(line@).2 is None,
        },
{
    let (_d, _p, b) = clean_chars(line);
    b
}

/// The seed from which a task's block ID is derived: `title:display text`.
pub open spec fn stamp_seed(title: Seq<char>, e: Seq<char>) -> Seq<char> {
    title + seq![':'] + e
}

/// The line a stamp writes: the located line, trailing whitespace removed,
/// then ` ^id`.
pub open spec fn stamped_line(raw: Seq<char>, id: Seq<char>) -> Seq<char> {
    trim_end(raw) + " ^"@ + id
}

pub open spec fn no_free_id_msg() -> Seq<char> {
    "Every candidate block ID is already taken."@
}

/// Plan stamping a block ID onto the task whose cleaned display text is
/// `expected_display_text`, located by unique match in `note_content`.
/// Errs when the task is gone or ambiguous. When the located line already
/// ends in a block ID, that ID is returned with no op. Otherwise one
/// `AppendBlockId` adds ` ^id` to that exact line.
pub fn plan_stamp_block_id(
    note_content: &str,
    note_title: &str,
    expected_display_text: &str,
    existing_ids: &Vec<String>,
) -> (r: Result<(String, Vec<WriteOp>), String>)
    ensures
        ({
            let ls = lines(note_content@);
            let e = expected_display_text@;
            let seed = stamp_seed(note_title@, e);
            let ex = existing_ids.deep_view();
            match r {
                Ok((id, ops)) => exists|i: int|
                    #![trigger ls[i]]
                    only_match(ls, e, i) && match clean(ls[i]).2 {
                        Some(old_id) => id@ == old_id && ops.len() == 0,
                        None => exists|s: u64|
                            first_free(seed, s, ex) && id@ == candidate_id(seed, s) && ops.len()
                                == 1 && ops[0].deep_view() == (WriteOpV::AppendBlockId {
                                line: (i + 1) as usize,
                                new_line_text: stamped_line(ls[i], id@),
                                block_id: id@,
                            }),
                    },
                Err(m) => (no_match(ls, e) && m@ == task_gone_msg(e)) || (two_matches(ls, e)
                    && m@ == task_ambiguous_msg(e)) || (exists|i: int|
                    #![trigger ls[i]]
                    only_match(ls, e, i) && clean(ls[i]).2 is None && (forall|s: u64|
                        #[trigger] salt_taken(seed, s, ex)) && m@ == no_free_id_msg()),
            }
        }),
{
    let (line, raw) = match locate_unique_task_line(note_content, expected_display_text) {
        Ok(x) => x,
        Err(m) => return Err(m),
    };
    let ghost ls = lines(note_content@);
    let raw_chars = chars_of_string(&raw);
    assert(ls[line - 1] == raw_chars@);
    match existing_trailing_id(&raw_chars) {
        Some(id) => {
            return Ok((string_of(&id), Vec::new()));
        },
        None => {},
    }
    let seed = string_of(
        &concat(&concat(&chars_of(note_title), &chars_of(":")), &chars_of(expected_display_text)),
    );
    proof {
        reveal_strlit(":");
        assert(seed@ =~= stamp_seed(note_title@, expected_display_text@));
    }
    match first_free_salt(seed.as_str(), existing_ids) {
        None => {
            return Err(string_of(&chars_of("Every candidate block ID is already taken.")));
        },
        Some(s) => {
            assert(!salt_taken(seed@, s, existing_ids.deep_view()));
        },
    }
    let id = generate_block_id(seed.as_str(), existing_ids);
    let id_chars = chars_of_string(&id);
    let new_line = concat(&concat(&trim_end_vec(&raw_chars), &chars_of(" ^")), &id_chars);
    let mut ops: Vec<WriteOp> = Vec::new();
    ops.push(
        WriteOp::AppendBlockId {
            line,
            new_line_text: string_of(&new_line),
            block_id: id.clone(),
        },
    );
    Ok((id, ops))
}

/// The tag that marks the app-owned backlog control note.
pub const BACKLOG_TAG: &'static str = "np-backlog";

/// Whether a note's content carries the `#np-backlog` tag.
pub open spec fn is_backlog_note(content: Seq<char>) -> bool {
    tags_of(content).contains("np-backlog"@)
}

pub open spec fn not_backlog_msg() -> Seq<char> {
    "not the #np-backlog control note — refusing to modify"@
}

/// Ownership gate: Ok only for a note carrying the `#np-backlog` tag.
fn ensure_backlog_note(content: &Vec<char>) -> (r: Result<(), String>)
    ensures
        r is Ok <==> is_backlog_note(content@),
        r matches Err(m) ==> m@ == not_backlog_msg(),
{
    let tags = find_marker_runs(content, '#');
    let want = chars_of(BACKLOG_TAG);
    proof {
        reveal_strlit("np-backlog");
    }
    let mut i: usize = 0;
    while i < tags.len()
        invariant
            i <= tags.len(),
            want@ == "np-backlog"@,
            tags.deep_view() == tags_of(content@),
            forall|k: int| 0 <= k < i ==> tags.deep_view()[k] != want@,
        decreases tags.len() - i,
    {
        assert(tags.deep_view()[i as int] == tags[i as int]@);
        if vec_eq(&tags[i], &want) {
            return Ok(());
        }
        i += 1;
    }
    Err(string_of(&chars_of("not the #np-backlog control note — refusing to modify")))
}

/// The title of a level-two heading line (`^##\s+(.+?)\s*$`, trimmed).
pub open spec fn h2_title(l: Seq<char>) -> Option<Seq<char>> {
    if l.len() >= 4 && l[0] == '#' && l[1] == '#' && is_ws(l[2]) {
        Some(trim(l.skip(2)))
    } else {
        None
    }
}

fn h2_title_chars(l: &Vec<char>) -> (r: Option<Vec<char>>)
    ensures
        match r {
            Some(t) => h2_title(l@) == Some(t@),
            None => h2_title(l@) is None,
        },
{
    if l.len() >= 4 && l[0] == '#' && l[1] == '#' && is_whitespace(l[2]) {
        let rest = slice_vec(l, 2, l.len());
        assert(rest@ =~= l@.skip(2));
        Some(trim_vec(&rest))
    } else {
        None
    }
}

/// The index just past a list-item leader (`\s*(?:\d+\.|[-*+])`).
pub open spec fn leader_end(l: Seq<char>) -> Option<int> {
    let j = run_end(l, 0, CharClass::Ws);
    if j < l.len() && (l[j] == '-' || l[j] == '*' || l[j] == '+') {
        Some(j + 1)
    } else {
        let m = run_end(l, j, CharClass::Digit);
        if m > j && m < l.len() && l[m] == '.' {
            Some(m + 1)
        } else {
            None
        }
    }
}

/// A list item line (`^\s*(?:\d+\.|[-*+])\s+.+$`).
pub open spec fn is_item(l: Seq<char>) -> bool {
    match leader_end(l) {
        Some(k) => k + 1 < l.len() && is_ws(l[k]),
        None => false,
    }
}

/// The index just past the list-item leader of a line, if it has one.
pub fn leader_end_chars(l: &Vec<char>) -> (r: Option<usize>)
    ensures
        match r {
            Some(k) => leader_end(l@) == Some(k as int) && k <= l.len(),
            None => leader_end(l@) is None,
        },
{
    proof {
        lemma_run_end(l@, 0, CharClass::Ws);
    }
    let j = scan_run(l, 0, CharClass::Ws);
    if j < l.len() && (l[j] == '-' || l[j] == '*' || l[j] == '+') {
        Some(j + 1)
    } else {
        proof {
            lemma_run_end(l@, j as int, CharClass::Digit);
        }
        let m = scan_run(l, j, CharClass::Digit);
        if m > j && m < l.len() && l[m] == '.' {
            Some(m + 1)
        } else {
            None
        }
    }
}

pub fn is_item_chars(l: &Vec<char>) -> (b: bool)
    ensures
        b == is_item(l@),
{
    match leader_end_chars(l) {
        Some(k) => k < l.len() && k + 1 < l.len() && is_whitespace(l[k]),
        None => false,
    }
}

/// The block ID of a `[[…^id]]` reference starting at `i`
/// (`\[\[[^\]^]*\^([A-Za-z0-9]{4,})\]\]`).
pub open spec fn id_ref_at(t: Seq<char>, i: int) -> Option<Seq<char>> {
    if 0 <= i && i + 2 <= t.len() && t[i] == '[' && t[i + 1] == '[' {
        let a = run_end(t, i + 2, CharClass::NotCloseOrCaret);
        if a < t.len() && t[a] == '^' {
            let b = run_end(t, a + 1, CharClass::AsciiAlnum);
            if b - (a + 1) >= 4 && b + 2 <= t.len() && t[b] == ']' && t[b + 1] == ']' {
                Some(t.subrange(a + 1, b))
            } else {
                None
            }
        } else {
            None
        }
    } else {
        None
    }
}

/// The block ID of the leftmost `[[…^id]]` reference at or after `i`.
pub open spec fn first_id_ref(t: Seq<char>, i: int) -> Option<Seq<char>>
    decreases t.len() - i,
{
    if i < 0 || i >= t.len() {
        None
    } else {
        match id_ref_at(t, i) {
            Some(x) => Some(x),
            None => first_id_ref(t, i + 1),
        }
    }
}

/// The block ID an item line refers to.
pub open spec fn item_id(l: Seq<char>) -> Option<Seq<char>> {
    first_id_ref(l, 0)
}

fn id_ref_here(t: &Vec<char>, i: usize) -> (r: Option<Vec<char>>)
    requires
        i <= t.len(),
    ensures
        match r {
            Some(x) => id_ref_at(t@, i as int) == Some(x@),
            None => id_ref_at(t@, i as int) is None,
        },
{
    if t.len() >= 2 && i <= t.len() - 2 && t[i] == '[' && t[i + 1] == '[' {
        proof {
            lemma_run_end(t@, i + 2, CharClass::NotCloseOrCaret);
        }
        let a = scan_run(t, i + 2, CharClass::NotCloseOrCaret);
        if a < t.len() && t[a] == '^' {
            proof {
                lemma_run_end(t@, a + 1, CharClass::AsciiAlnum);
            }
            let b = scan_run(t, a + 1, CharClass::AsciiAlnum);
            if b - (a + 1) >= 4 && b < t.len() && b + 1 < t.len() && t[b] == ']' && t[b + 1] == ']' {
                return Some(slice_vec(t, a + 1, b));
            }
        }
    }
    None
}

fn item_id_chars(t: &Vec<char>) -> (r: Option<Vec<char>>)
    ensures
        match r {
            Some(x) => item_id(t@) == Some(x@),
            None => item_id(t@) is None,
        },
{
    let mut i: usize = 0;
    while i < t.len()
        invariant
            i <= t.len(),
            first_id_ref(t@, i as int) == first_id_ref(t@, 0),
        decreases t.len() - i,
    {
        match id_ref_here(t, i) {
            Some(x) => {
                return Some(x);
            },
            None => {},
        }
        i += 1;
    }
    None
}

/// Index of the first level-two heading at or after `i` whose title is `ctx`.
pub open spec fn heading_from(ls: Seq<Seq<char>>, ctx: Seq<char>, i: int) -> Option<int>
    decreases ls.len() - i,
{
    if i < 0 || i >= ls.len() {
        None
    } else if h2_title(ls[i]) == Some(ctx) {
        Some(i)
    } else {
        heading_from(ls, ctx, i + 1)
    }
}

/// The 1-based line numbers of the list items from index `i` up to the next
/// level-two heading.
pub open spec fn items_from(ls: Seq<Seq<char>>, i: int) -> Seq<int>
    decreases ls.len() - i,
{
    if i < 0 || i >= ls.len() || h2_title(ls[i]) is Some {
        Seq::empty()
    } else if is_item(ls[i]) {
        seq![i + 1] + items_from(ls, i + 1)
    } else {
        items_from(ls, i + 1)
    }
}

/// The `## ctx` section of a note's lines: its 1-based heading line and the
/// 1-based lines of its list items.
pub open spec fn section(ls: Seq<Seq<char>>, ctx: Seq<char>) -> Option<(int, Seq<int>)> {
    match heading_from(ls, ctx, 0) {
        Some(h) => Some((h + 1, items_from(ls, h + 1))),
        None => None,
    }
}

pub open spec fn context_missing_msg(ctx: Seq<char>) -> Seq<char> {
    "Context \""@ + ctx + "\" not found in backlog note."@
}

pub proof fn lemma_items_from_bounds(ls: Seq<Seq<char>>, i: int)
    requires
        0 <= i,
    ensures
        forall|k: int|
            0 <= k < items_from(ls, i).len() ==> i + 1 <= #[trigger] items_from(ls, i)[k]
                <= ls.len(),
        forall|k: int, l: int|
            0 <= k < l < items_from(ls, i).len() ==> items_from(ls, i)[k] < items_from(ls, i)[l],
    decreases ls.len() - i,
{
    if i < ls.len() && h2_title(ls[i]) is None {
        lemma_items_from_bounds(ls, i + 1);
        let r = items_from(ls, i);
        let rest = items_from(ls, i + 1);
        if is_item(ls[i]) {
            assert(r == seq![i + 1] + rest);
            assert forall|k: int| 0 <= k < r.len() implies i + 1 <= #[trigger] r[k] <= ls.len() by {
                if k > 0 {
                    assert(r[k] == rest[k - 1]);
                }
            }
            assert forall|k: int, l: int| 0 <= k < l < r.len() implies r[k] < r[l] by {
                assert(r[l] == rest[l - 1]);
                if k > 0 {
                    assert(r[k] == rest[k - 1]);
                }
            }
        }
    }
}

fn section_item_lines(ls: &Vec<Vec<char>>, ctx: &Vec<char>) -> (r: Result<(usize, Vec<usize>), String>)
    ensures
        match r {
            Ok((h, items)) => section(ls.deep_view(), ctx@) == Some((h as int, items@.map_values(|n: usize| n as int))) && 1 <= h <= ls.len(),
            Err(m) => section(ls.deep_view(), ctx@) is None && m@ == context_missing_msg(ctx@),
        },
{
    let ghost lv = ls.deep_view();
    let mut i: usize = 0;
    let mut heading: Option<usize> = None;
    while i < ls.len() && heading.is_none()
        invariant
            i <= ls.len(),
            lv == ls.deep_view(),
            heading is None ==> heading_from(lv, ctx@, i as int) == heading_from(lv, ctx@, 0),
            heading matches Some(h) ==> heading_from(lv, ctx@, 0) == Some(h as int) && h < ls.len(),
        decreases ls.len() - i,
    {
        assert(lv[i as int] == ls[i as int]@);
        match h2_title_chars(&ls[i]) {
            Some(t) => {
                if vec_eq(&t, ctx) {
                    heading = Some(i);
                }
            },
            None => {},
        }
        i += 1;
    }
    let h = match heading {
        Some(h) => h,
        None => {
            return Err(string_of(&enclose("Context \"", ctx, "\" not found in backlog note.")));
        },
    };
    assert(heading_from(lv, ctx@, 0) == Some(h as int));
    let mut items: Vec<usize> = Vec::new();
    let mut j: usize = h + 1;
    loop
        invariant
            h < j <= ls.len(),
            lv == ls.deep_view(),
            items@.map_values(|n: usize| n as int) + items_from(lv, j as int) == items_from(
                lv,
                h + 1,
            ),
        ensures
            j == ls.len() || h2_title(lv[j as int]) is Some,
            items@.map_values(|n: usize| n as int) + items_from(lv, j as int) == items_from(
                lv,
                h + 1,
            ),
        decreases ls.len() - j,
    {
        if j >= ls.len() {
            break;
        }
        assert(lv[j as int] == ls[j as int]@);
        if h2_title_chars(&ls[j]).is_some() {
            break;
        }
        let ghost before = items@.map_values(|n: usize| n as int);
        if is_item_chars(&ls[j]) {
            items.push(j + 1);
            assert(items@.map_values(|n: usize| n as int) =~= before.push(j + 1));
            assert(before.push(j + 1) + items_from(lv, j + 1) =~= before + (seq![j + 1] + items_from(lv, j + 1)));
        }
        j += 1;
    }
    assert(items@.map_values(|n: usize| n as int) + items_from(lv, j as int) =~= items@.map_values(|n: usize| n as int));
    Ok((h + 1, items))
}

/// Where an appended entry goes: after the section's last item, or right
/// after its heading when it has none.
pub open spec fn append_line(heading: int, items: Seq<int>) -> int {
    if items.len() > 0 {
        items.last() + 1
    } else {
        heading + 1
    }
}

/// Plan appending `entry_text` as the last entry of the `## context`
/// section of the backlog note.
pub fn plan_append_entry(content: &str, context: &str, entry_text: &str) -> (r: Result<Vec<WriteOp>, String>)
    requires
        content@.len() < usize::MAX,
    ensures
        ({
            let ls = lines(content@);
            match r {
                Ok(ops) => is_backlog_note(content@) && (section(ls, context@) matches Some((h, items))
                    && ops.deep_view() == seq![WriteOpV::InsertBacklogLine { line: append_line(h, items) as usize, text: entry_text@ }]),
                Err(m) => (!is_backlog_note(content@) && m@ == not_backlog_msg())
                    || (is_backlog_note(content@) && section(ls, context@) is None && m@ == context_missing_msg(context@)),
            }
        }),
{
    let c = chars_of(content);
    match ensure_backlog_note(&c) {
        Ok(()) => {},
        Err(m) => return Err(m),
    }
    let ls = split_lines(&c);
    let (h, items) = match section_item_lines(&ls, &chars_of(context)) {
        Ok(x) => x,
        Err(m) => return Err(m),
    };
    proof {
        lemma_items_from_bounds(ls.deep_view(), h as int);
    }
    let at = if items.len() > 0 {
        assert(items@.map_values(|n: usize| n as int)[items.len() - 1] == items[items.len() - 1] as int);
        items[items.len() - 1] + 1
    } else {
        h + 1
    };
    let mut ops: Vec<WriteOp> = Vec::new();
    ops.push(WriteOp::InsertBacklogLine { line: at, text: string_of(&chars_of(entry_text)) });
    assert(ops.deep_view() =~= seq![WriteOpV::InsertBacklogLine { line: at, text: entry_text@ }]);
    Ok(ops)
}

/// What a removed entry's line is overwritten with: a non-empty comment that
/// the backlog reader and the item grammar both ignore.
pub const TOMBSTONE: &'static str = "<!-- np-backlog: removed -->";

/// The 1-based lines among `items` whose entry refers to block `id`.
pub open spec fn entries_with_id(ls: Seq<Seq<char>>, items: Seq<int>, id: Seq<char>) -> Seq<int>
    decreases items.len(),
{
    if items.len() == 0 {
        Seq::empty()
    } else {
        let rest = entries_with_id(ls, items.drop_last(), id);
        if item_id(ls[items.last() - 1]) == Some(id) {
            rest.push(items.last())
        } else {
            rest
        }
    }
}

pub open spec fn remove_missing_msg(id: Seq<char>, ctx: Seq<char>) -> Seq<char> {
    "Block ID "@ + id + " not found in backlog context \""@ + ctx + "\"."@
}

pub open spec fn remove_ambiguous_msg(id: Seq<char>, ctx: Seq<char>) -> Seq<char> {
    "Ambiguous: multiple backlog entries in context \""@ + ctx + "\" carry block ID "@ + id
        + " — refusing to guess which to remove."@
}

/// Converts 1-based item lines to `int`s, one for one.
pub open spec fn as_ints(v: Seq<usize>) -> Seq<int> {
    v.map_values(|n: usize| n as int)
}

/// Plan removing the entry for `block_id` from the `## context` section by
/// overwriting its line with `TOMBSTONE`; Err when no entry or more than one
/// entry of the section carries that ID.
pub fn plan_remove(content: &str, context: &str, block_id: &str) -> (r: Result<Vec<WriteOp>, String>)
    ensures
        ({
            let ls = lines(content@);
            match r {
                Ok(ops) => is_backlog_note(content@) && (section(ls, context@) matches Some((h, items))
                    && entries_with_id(ls, items, block_id@).len() == 1
                    && ops.deep_view() == seq![WriteOpV::ReplaceBacklogLine {
                        line: entries_with_id(ls, items, block_id@)[0] as usize,
                        text: "<!-- np-backlog: removed -->"@,
                    }]),
                Err(m) => (!is_backlog_note(content@) && m@ == not_backlog_msg())
                    || (is_backlog_note(content@) && section(ls, context@) is None && m@ == context_missing_msg(context@))
                    || (is_backlog_note(content@) && (section(ls, context@) matches Some((h, items))
                        && entries_with_id(ls, items, block_id@).len() == 0
                        && m@ == remove_missing_msg(block_id@, context@)))
                    || (is_backlog_note(content@) && (section(ls, context@) matches Some((h, items))
                        && entries_with_id(ls, items, block_id@).len() >= 2
                        && m@ == remove_ambiguous_msg(block_id@, context@))),
            }
        }),
{
    let c = chars_of(content);
    match ensure_backlog_note(&c) {
        Ok(()) => {},
        Err(m) => return Err(m),
    }
    let ls = split_lines(&c);
    let ctx = chars_of(context);
    let (h, items) = match section_item_lines(&ls, &ctx) {
        Ok(x) => x,
        Err(m) => return Err(m),
    };
    let ghost lv = ls.deep_view();
    let ghost iv = as_ints(items@);
    proof {
        lemma_items_from_bounds(lv, h as int);
    }
    let id = chars_of(block_id);
    let mut found: Vec<usize> = Vec::new();
    let mut k: usize = 0;
    while k < items.len()
        invariant
            k <= items.len(),
            lv == ls.deep_view(),
            iv == as_ints(items@),
            iv == items_from(lv, h as int),
            forall|q: int| 0 <= q < iv.len() ==> h + 1 <= #[trigger] iv[q] <= lv.len(),
            id@ == block_id@,
            as_ints(found@) == entries_with_id(lv, iv.take(k as int), id@),
        decreases items.len() - k,
    {
        let n = items[k];
        assert(iv[k as int] == n as int);
        assert(iv.take(k + 1).drop_last() =~= iv.take(k as int));
        assert(lv[n - 1] == ls[n - 1]@);
        let ghost before = as_ints(found@);
        match item_id_chars(&ls[n - 1]) {
            Some(x) => {
                if vec_eq(&x, &id) {
                    found.push(n);
                    assert(as_ints(found@) =~= before.push(n as int));
                }
            },
            None => {},
        }
        k += 1;
    }
    assert(iv.take(items.len() as int) =~= iv);
    if found.len() == 1 {
        let mut ops: Vec<WriteOp> = Vec::new();
        assert(as_ints(found@)[0] == found[0] as int);
        proof {
            reveal_strlit("<!-- np-backlog: removed -->");
        }
        ops.push(WriteOp::ReplaceBacklogLine { line: found[0], text: string_of(&chars_of(TOMBSTONE)) });
        assert(ops.deep_view() =~= seq![WriteOpV::ReplaceBacklogLine {
            line: found[0],
            text: "<!-- np-backlog: removed -->"@,
        }]);
        Ok(ops)
    } else if found.len() == 0 {
        let m = concat(
            &concat(&chars_of("Block ID "), &id),
            &enclose(" not found in backlog context \"", &ctx, "\"."),
        );
        assert(m@ =~= remove_missing_msg(block_id@, context@));
        Err(string_of(&m))
    } else {
        let m = concat(
            &enclose("Ambiguous: multiple backlog entries in context \"", &ctx, "\" carry block ID "),
            &concat(&id, &chars_of(" — refusing to guess which to remove.")),
        );
        assert(m@ =~= remove_ambiguous_msg(block_id@, context@));
        Err(string_of(&m))
    }
}

/// A tombstone line: one whose trimmed text is exactly `TOMBSTONE`.
pub open spec fn is_tombstone(l: Seq<char>) -> bool {
    trim(l) == "<!-- np-backlog: removed -->"@
}

/// The 1-based numbers of the tombstone lines, in descending order.
pub open spec fn tombstones_desc(ls: Seq<Seq<char>>) -> Seq<int>
    decreases ls.len(),
{
    if ls.len() == 0 {
        Seq::empty()
    } else if is_tombstone(ls.last()) {
        seq![ls.len() as int] + tombstones_desc(ls.drop_last())
    } else {
        tombstones_desc(ls.drop_last())
    }
}

/// The deletions of the given lines, in the given order.
pub open spec fn deletions(ns: Seq<int>) -> Seq<WriteOpV> {
    ns.map_values(|n: int| WriteOpV::DeleteBacklogLine { line: n as usize })
}

fn is_tombstone_chars(l: &Vec<char>) -> (b: bool)
    ensures
        b == is_tombstone(l@),
{
    proof {
        reveal_strlit("<!-- np-backlog: removed -->");
    }
    vec_eq(&trim_vec(l), &chars_of(TOMBSTONE))
}

/// Plan deleting every tombstone line of the backlog note, bottom-up
/// (descending line numbers), so each delete leaves the lines above it in
/// place. No tombstones gives no ops.
pub fn plan_gc_tombstones(content: &str) -> (r: Result<Vec<WriteOp>, String>)
    ensures
        match r {
            Ok(ops) => is_backlog_note(content@) && ops.deep_view() == deletions(tombstones_desc(lines(content@))),
            Err(m) => !is_backlog_note(content@) && m@ == not_backlog_msg(),
        },
{
    let c = chars_of(content);
    match ensure_backlog_note(&c) {
        Ok(()) => {},
        Err(m) => return Err(m),
    }
    let ls = split_lines(&c);
    let ghost lv = ls.deep_view();
    let mut ops: Vec<WriteOp> = Vec::new();
    let ghost mut found: Seq<int> = Seq::empty();
    let mut i: usize = ls.len();
    assert(lv.take(i as int) =~= lv);
    while i > 0
        invariant
            i <= ls.len(),
            lv == ls.deep_view(),
            found + tombstones_desc(lv.take(i as int)) == tombstones_desc(lv),
            ops.deep_view() == deletions(found),
        decreases i,
    {
        assert(lv.take(i as int).drop_last() =~= lv.take(i - 1));
        assert(lv.take(i as int).last() == ls[i - 1]@);
        if is_tombstone_chars(&ls[i - 1]) {
            let ghost d0 = ops.deep_view();
            ops.push(WriteOp::DeleteBacklogLine { line: i });
            proof {
                assert(ops.deep_view() =~= d0.push(WriteOpV::DeleteBacklogLine { line: i }));
                assert(found + (seq![i as int] + tombstones_desc(lv.take(i - 1))) =~= found.push(i as int) + tombstones_desc(lv.take(i - 1)));
                assert(deletions(found.push(i as int)) =~= deletions(found).push(WriteOpV::DeleteBacklogLine { line: i }));
                found = found.push(i as int);
            }
        }
        i -= 1;
    }
    assert(found + tombstones_desc(lv.take(0)) =~= found);
    Ok(ops)
}

/// Whether 1-based line `n` of `ls` exists and is a tombstone.
pub open spec fn tombstone_line(ls: Seq<Seq<char>>, n: int) -> bool {
    1 <= n <= ls.len() && is_tombstone(ls[n - 1])
}

pub open spec fn gc_abort_msg(n: int) -> Seq<char> {
    "GC abort: backlog line "@ + decimal(n as nat) + " is not a tombstone marker — refusing to delete."@
}

/// Check that every listed 1-based line is exactly a tombstone; Err names
/// the first line that is out of range or not a tombstone.
pub fn verify_all_tombstones(content: &str, lines_to_delete: &[usize]) -> (r: Result<(), String>)
    ensures
        r is Ok <==> forall|k: int| 0 <= k < lines_to_delete@.len() ==> tombstone_line(lines(content@), #[trigger] lines_to_delete@[k] as int),
        r matches Err(m) ==> exists|k: int| 0 <= k < lines_to_delete@.len()
            && !tombstone_line(lines(content@), #[trigger] lines_to_delete@[k] as int)
            && (forall|j: int| 0 <= j < k ==> tombstone_line(lines(content@), lines_to_delete@[j] as int))
            && m@ == gc_abort_msg(lines_to_delete@[k] as int),
{
    let ls = split_lines(&chars_of(content));
    let ghost lv = ls.deep_view();
    let mut k: usize = 0;
    while k < lines_to_delete.len()
        invariant
            k <= lines_to_delete@.len(),
            lv == ls.deep_view(),
            lv == lines(content@),
            forall|j: int| 0 <= j < k ==> tombstone_line(lv, lines_to_delete@[j] as int),
        decreases lines_to_delete.len() - k,
    {
        let n = lines_to_delete[k];
        let ok = if n >= 1 && n <= ls.len() {
            assert(lv[n - 1] == ls[n - 1]@);
            is_tombstone_chars(&ls[n - 1])
        } else {
            false
        };
        if !ok {
            let m = concat(
                &concat(&chars_of("GC abort: backlog line "), &decimal_of(n)),
                &chars_of(" is not a tombstone marker — refusing to delete."),
            );
            assert(m@ =~= gc_abort_msg(n as int));
            return Err(string_of(&m));
        }
        k += 1;
    }
    Ok(())
}

/// The entries among `items` that refer to a block: (1-based line, block ID),
/// in line order.
pub open spec fn id_entries(ls: Seq<Seq<char>>, items: Seq<int>) -> Seq<(int, Seq<char>)>
    decreases items.len(),
{
    if items.len() == 0 {
        Seq::empty()
    } else {
        let rest = id_entries(ls, items.drop_last());
        match item_id(ls[items.last() - 1]) {
            Some(id) => rest.push((items.last(), id)),
            None => rest,
        }
    }
}

pub open spec fn entry_lines(es: Seq<(int, Seq<char>)>) -> Seq<int> {
    es.map_values(|e: (int, Seq<char>)| e.0)
}

pub open spec fn entry_ids(es: Seq<(int, Seq<char>)>) -> Seq<Seq<char>> {
    es.map_values(|e: (int, Seq<char>)| e.1)
}

/// How often `x` occurs in `s`.
pub open spec fn occ(s: Seq<Seq<char>>, x: Seq<char>) -> nat
    decreases s.len(),
{
    if s.len() == 0 {
        0
    } else {
        occ(s.drop_last(), x) + if s.last() == x {
            1nat
        } else {
            0nat
        }
    }
}

/// Whether `a` and `b` hold the same elements equally often.
pub open spec fn is_permutation(a: Seq<Seq<char>>, b: Seq<Seq<char>>) -> bool {
    a.len() == b.len() && forall|x: Seq<char>| #[trigger] occ(a, x) == occ(b, x)
}

/// Whether entry `j` supplies the text for position `k`: it carries
/// `ordered[k]`'s ID, and is the same-numbered occurrence of that ID among
/// the entries as position `k` is among `ordered`.
pub open spec fn source_of(ids: Seq<Seq<char>>, ordered: Seq<Seq<char>>, k: int, j: int) -> bool {
    &&& 0 <= j < ids.len()
    &&& ids[j] == ordered[k]
    &&& occ(ids.take(j), ordered[k]) == occ(ordered.take(k), ordered[k])
}

/// Whether `op` writes, at entry `k`'s line, the text of an entry that is
/// the source for position `k`.
pub open spec fn placed(
    ls: Seq<Seq<char>>,
    es: Seq<(int, Seq<char>)>,
    o: Seq<Seq<char>>,
    k: int,
    op: WriteOpV,
) -> bool {
    exists|j: int|
        #[trigger] source_of(entry_ids(es), o, k, j) && op == (WriteOpV::ReplaceBacklogLine {
            line: es[k].0 as usize,
            text: ls[es[j].0 - 1],
        })
}

pub open spec fn reorder_mismatch_msg(ctx: Seq<char>) -> Seq<char> {
    "Reorder mismatch for \""@ + ctx
        + "\": provided ids do not match the section's current entries. Rescan and retry."@
}

pub proof fn lemma_occ_take_step(s: Seq<Seq<char>>, k: int, x: Seq<char>)
    requires
        0 <= k < s.len(),
    ensures
        occ(s.take(k + 1), x) == occ(s.take(k), x) + if s[k] == x {
            1nat
        } else {
            0nat
        },
{
    assert(s.take(k + 1).drop_last() =~= s.take(k));
}

pub proof fn lemma_occ_take_le(s: Seq<Seq<char>>, a: int, b: int, x: Seq<char>)
    requires
        0 <= a <= b <= s.len(),
    ensures
        occ(s.take(a), x) <= occ(s.take(b), x),
    decreases b - a,
{
    if a < b {
        lemma_occ_take_le(s, a, b - 1, x);
        lemma_occ_take_step(s, b - 1, x);
    }
}

pub proof fn lemma_occ_full(s: Seq<Seq<char>>, x: Seq<char>)
    ensures
        occ(s.take(s.len() as int), x) == occ(s, x),
{
    assert(s.take(s.len() as int) =~= s);
}

pub proof fn lemma_occ_pos(s: Seq<Seq<char>>, x: Seq<char>)
    requires
        occ(s, x) > 0,
    ensures
        s.contains(x),
    decreases s.len(),
{
    if s.last() != x {
        lemma_occ_pos(s.drop_last(), x);
        let i = choose|i: int| 0 <= i < s.drop_last().len() && s.drop_last()[i] == x;
        assert(s[i] == x);
    } else {
        assert(s[s.len() - 1] == x);
    }
}

/// The `c`-th occurrence (counting from 0) of `x` exists when `x` occurs
/// more than `c` times.
pub proof fn lemma_nth_occurrence(s: Seq<Seq<char>>, x: Seq<char>, c: nat)
    requires
        c < occ(s, x),
    ensures
        exists|k: int| 0 <= k < s.len() && s[k] == x && #[trigger] occ(s.take(k), x) == c,
    decreases s.len(),
{
    let t = s.drop_last();
    assert(t =~= s.take(s.len() - 1));
    if c < occ(t, x) {
        lemma_nth_occurrence(t, x, c);
        let k = choose|k: int| 0 <= k < t.len() && t[k] == x && #[trigger] occ(t.take(k), x) == c;
        assert(t.take(k) =~= s.take(k));
        assert(s[k] == x);
    } else {
        let k = s.len() - 1;
        assert(s.take(k) =~= t);
        assert(occ(s.take(k), x) == c);
    }
}

proof fn lemma_id_entries_lines(ls: Seq<Seq<char>>, items: Seq<int>)
    requires
        forall|q: int| 0 <= q < items.len() ==> 1 <= #[trigger] items[q] <= ls.len(),
    ensures
        forall|q: int| 0 <= q < id_entries(ls, items).len() ==> 1 <= #[trigger] id_entries(ls, items)[q].0 <= ls.len(),
    decreases items.len(),
{
    if items.len() > 0 {
        let t = items.drop_last();
        assert forall|q: int| 0 <= q < t.len() implies 1 <= #[trigger] t[q] <= ls.len() by {
            assert(t[q] == items[q]);
        }
        lemma_id_entries_lines(ls, t);
        assert(items[items.len() - 1] == items.last());
        let rest = id_entries(ls, t);
        let es = id_entries(ls, items);
        match item_id(ls[items.last() - 1]) {
            Some(id) => {
                assert(es == rest.push((items.last(), id)));
                assert forall|q: int| 0 <= q < es.len() implies 1 <= #[trigger] es[q].0 <= ls.len() by {
                    if q < rest.len() {
                        assert(es[q] == rest[q]);
                    }
                }
            },
            None => {},
        }
    }
}

fn count_occ(v: &Vec<Vec<char>>, upto: usize, x: &Vec<char>) -> (n: usize)
    requires
        upto <= v.len(),
    ensures
        n == occ(v.deep_view().take(upto as int), x@),
{
    let ghost dv = v.deep_view();
    let mut n: usize = 0;
    let mut i: usize = 0;
    assert(dv.take(0) =~= Seq::<Seq<char>>::empty());
    while i < upto
        invariant
            i <= upto <= v.len(),
            dv == v.deep_view(),
            n == occ(dv.take(i as int), x@),
            n <= i,
        decreases upto - i,
    {
        proof {
            lemma_occ_take_step(dv, i as int, x@);
        }
        assert(dv[i as int] == v[i as int]@);
        if vec_eq(&v[i], x) {
            n += 1;
        }
        i += 1;
    }
    n
}

/// Plan reordering the `## context` section's block-ID entries into the
/// order of `ordered_block_ids`, which must be a permutation of the
/// section's entry IDs. The entries' own lines are repositioned verbatim
/// among their own line numbers; entries sharing an ID keep their relative
/// order. Items without a block ID stay where they are.
pub fn plan_reorder(content: &str, context: &str, ordered_block_ids: &[String]) -> (r: Result<Vec<WriteOp>, String>)
    ensures
        ({
            let ls = lines(content@);
            let o = ordered_block_ids.deep_view();
            match r {
                Ok(ops) => is_backlog_note(content@) && (section(ls, context@) matches Some((h, items))
                    && is_permutation(o, entry_ids(id_entries(ls, items)))
                    && ops.len() == id_entries(ls, items).len()
                    && forall|k: int| 0 <= k < ops.len() ==> placed(ls, id_entries(ls, items), o, k, #[trigger] ops[k].deep_view())),
                Err(m) => (!is_backlog_note(content@) && m@ == not_backlog_msg())
                    || (is_backlog_note(content@) && section(ls, context@) is None && m@ == context_missing_msg(context@))
                    || (is_backlog_note(content@) && (section(ls, context@) matches Some((h, items))
                        && !is_permutation(o, entry_ids(id_entries(ls, items)))
                        && m@ == reorder_mismatch_msg(context@))),
            }
        }),
{
    let c = chars_of(content);
    match ensure_backlog_note(&c) {
        Ok(()) => {},
        Err(m) => return Err(m),
    }
    let ls = split_lines(&c);
    let ctx = chars_of(context);
    let (h, items) = match section_item_lines(&ls, &ctx) {
        Ok(x) => x,
        Err(m) => return Err(m),
    };
    let ghost lv = ls.deep_view();
    let ghost iv = as_ints(items@);
    proof {
        lemma_items_from_bounds(lv, h as int);
    }
    // The id-bearing entries: their lines and IDs.
    let mut e_lines: Vec<usize> = Vec::new();
    let mut e_ids: Vec<Vec<char>> = Vec::new();
    let mut k: usize = 0;
    while k < items.len()
        invariant
            k <= items.len(),
            lv == ls.deep_view(),
            iv == as_ints(items@),
            iv == items_from(lv, h as int),
            forall|q: int| 0 <= q < iv.len() ==> h + 1 <= #[trigger] iv[q] <= lv.len(),
            as_ints(e_lines@) == entry_lines(id_entries(lv, iv.take(k as int))),
            e_ids.deep_view() == entry_ids(id_entries(lv, iv.take(k as int))),
        decreases items.len() - k,
    {
        let n = items[k];
        assert(iv[k as int] == n as int);
        assert(iv.take(k + 1).drop_last() =~= iv.take(k as int));
        assert(lv[n - 1] == ls[n - 1]@);
        let ghost l0 = as_ints(e_lines@);
        let ghost d0 = e_ids.deep_view();
        match item_id_chars(&ls[n - 1]) {
            Some(x) => {
                let ghost xv = x@;
                assert(x.deep_view() =~= x@);
                e_lines.push(n);
                e_ids.push(x);
                assert(as_ints(e_lines@) =~= l0.push(n as int));
                assert(e_ids.deep_view() =~= d0.push(xv));
            },
            None => {},
        }
        k += 1;
    }
    assert(iv.take(items.len() as int) =~= iv);
    let ghost es = id_entries(lv, iv);
    let ghost ids = entry_ids(es);
    proof {
        lemma_id_entries_lines(lv, iv);
    }
    // The requested order, as characters.
    let mut ov: Vec<Vec<char>> = Vec::new();
    let mut q: usize = 0;
    while q < ordered_block_ids.len()
        invariant
            q <= ordered_block_ids@.len(),
            ov.deep_view() == ordered_block_ids.deep_view().take(q as int),
        decreases ordered_block_ids.len() - q,
    {
        let ghost d0 = ov.deep_view();
        let oq = chars_of_string(&ordered_block_ids[q]);
        let ghost oqv = oq@;
        assert(oqv == ordered_block_ids.deep_view()[q as int]);
        assert(oq.deep_view() =~= oq@);
        ov.push(oq);
        assert(ov.deep_view() =~= d0.push(oqv));
        assert(ov.deep_view() =~= ordered_block_ids.deep_view().take(q + 1));
        q += 1;
    }
    assert(ordered_block_ids.deep_view().take(q as int) =~= ordered_block_ids.deep_view());
    let ghost o = ordered_block_ids.deep_view();
    let mismatch = string_of(
        &enclose(
            "Reorder mismatch for \"",
            &ctx,
            "\": provided ids do not match the section's current entries. Rescan and retry.",
        ),
    );
    assert(mismatch@ =~= reorder_mismatch_msg(context@));
    assert(section(lv, context@) == Some((h as int, iv)));
    if ov.len() != e_ids.len() {
        return Err(mismatch);
    }
    // Every ID of either side occurs equally often on both sides.
    let mut a: usize = 0;
    while a < ov.len()
        invariant
            a <= ov.len(),
            ov.deep_view() == o,
            e_ids.deep_view() == ids,
            forall|t: int| 0 <= t < a ==> occ(o, #[trigger] o[t]) == occ(ids, o[t]),
            is_backlog_note(content@),
            lines(content@) == lv,
            section(lv, context@) == Some((h as int, iv)),
            ids == entry_ids(id_entries(lv, iv)),
            mismatch@ == reorder_mismatch_msg(context@),
            o == ordered_block_ids.deep_view(),
        decreases ov.len() - a,
    {
        proof {
            lemma_occ_full(o, o[a as int]);
            lemma_occ_full(ids, o[a as int]);
        }
        assert(o[a as int] == ov[a as int]@);
        if count_occ(&ov, ov.len(), &ov[a]) != count_occ(&e_ids, e_ids.len(), &ov[a]) {
            assert(occ(o, o[a as int]) != occ(ids, o[a as int]));
            return Err(mismatch);
        }
        a += 1;
    }
    let mut b: usize = 0;
    while b < e_ids.len()
        invariant
            b <= e_ids.len(),
            ov.deep_view() == o,
            e_ids.deep_view() == ids,
            forall|t: int| 0 <= t < b ==> occ(o, #[trigger] ids[t]) == occ(ids, ids[t]),
            is_backlog_note(content@),
            lines(content@) == lv,
            section(lv, context@) == Some((h as int, iv)),
            ids == entry_ids(id_entries(lv, iv)),
            mismatch@ == reorder_mismatch_msg(context@),
            o == ordered_block_ids.deep_view(),
        decreases e_ids.len() - b,
    {
        proof {
            lemma_occ_full(o, ids[b as int]);
            lemma_occ_full(ids, ids[b as int]);
        }
        assert(ids[b as int] == e_ids[b as int]@);
        if count_occ(&ov, ov.len(), &e_ids[b]) != count_occ(&e_ids, e_ids.len(), &e_ids[b]) {
            assert(occ(o, ids[b as int]) != occ(ids, ids[b as int]));
            return Err(mismatch);
        }
        b += 1;
    }
    proof {
        assert forall|x: Seq<char>| #[trigger] occ(o, x) == occ(ids, x) by {
            if occ(o, x) > 0 {
                lemma_occ_pos(o, x);
            } else if occ(ids, x) > 0 {
                lemma_occ_pos(ids, x);
            }
        }
    }
    assert(is_permutation(o, ids));
    // Write each entry's original line into its new position.
    let mut ops: Vec<WriteOp> = Vec::new();
    let mut t: usize = 0;
    while t < ov.len()
        invariant
            t <= ov.len() == e_ids.len() == e_lines.len(),
            ov.deep_view() == o,
            e_ids.deep_view() == ids,
            lv == ls.deep_view(),
            as_ints(e_lines@) == entry_lines(es),
            ids == entry_ids(es),
            es == id_entries(lv, iv),
            is_permutation(o, ids),
            forall|q: int| 0 <= q < es.len() ==> 1 <= #[trigger] es[q].0 <= lv.len(),
            ops.len() == t,
            forall|kk: int| 0 <= kk < t ==> placed(lv, es, o, kk, #[trigger] ops[kk].deep_view()),
            is_backlog_note(content@),
            lines(content@) == lv,
            section(lv, context@) == Some((h as int, iv)),
            ids == entry_ids(id_entries(lv, iv)),
            mismatch@ == reorder_mismatch_msg(context@),
            o == ordered_block_ids.deep_view(),
        decreases ov.len() - t,
    {
        let cnt = count_occ(&ov, t, &ov[t]);
        assert(o[t as int] == ov[t as int]@);
        assert(ov.deep_view()[t as int] == ov[t as int]@);
        let ghost x = o[t as int];
        proof {
            lemma_occ_take_step(o, t as int, x);
            lemma_occ_take_le(o, t + 1, o.len() as int, x);
            lemma_occ_full(o, x);
            lemma_occ_full(ids, x);
        }
        let mut seen: usize = 0;
        let mut j: usize = 0;
        let mut pick: Option<usize> = None;
        while j < e_ids.len() && pick.is_none()
            invariant
                j <= e_ids.len(),
                e_ids.deep_view() == ids,
                cnt == occ(o.take(t as int), x),
                cnt < occ(ids, x),
                pick is None ==> seen == occ(ids.take(j as int), x) && seen <= cnt,
                pick matches Some(p) ==> source_of(ids, o, t as int, p as int),
                x == o[t as int],
                ov.deep_view() == o,
                t < o.len(),
                ov[t as int]@ == x,
            decreases e_ids.len() - j,
        {
            proof {
                lemma_occ_take_step(ids, j as int, x);
            }
            assert(ids[j as int] == e_ids[j as int]@);
            if vec_eq(&e_ids[j], &ov[t]) {
                if seen == cnt {
                    pick = Some(j);
                } else {
                    seen += 1;
                }
            }
            j += 1;
        }
        let p = match pick {
            Some(p) => p,
            None => {
                proof {
                    lemma_occ_full(ids, x);
                }
                assert(false);
                return Err(mismatch);
            },
        };
        let src = e_lines[p];
        assert(as_ints(e_lines@)[p as int] == src as int);
        assert(es[p as int].0 == src as int);
        assert(lv[src - 1] == ls[src - 1]@);
        let ghost ops0 = ops@;
        let line_t = e_lines[t];
        assert(as_ints(e_lines@)[t as int] == line_t as int);
        assert(es[t as int].0 == line_t as int);
        ops.push(WriteOp::ReplaceBacklogLine { line: line_t, text: string_of(&ls[src - 1]) });
        assert(ops[t as int].deep_view() == (WriteOpV::ReplaceBacklogLine {
            line: es[t as int].0 as usize,
            text: lv[es[p as int].0 - 1],
        }));
        let ghost t0 = t as int;
        t += 1;
        proof {
            assert forall|kk: int| 0 <= kk < t implies placed(lv, es, o, kk, #[trigger] ops[kk].deep_view()) by {
                if kk < t0 {
                    assert(ops[kk] == ops0[kk]);
                } else {
                    assert(kk == t0);
                    assert(source_of(ids, o, kk, p as int));
                }
            }
        }
    }
    assert(lines(content@) == lv);
    assert(section(lv, context@) == Some((h as int, iv)));
    assert(is_permutation(o, entry_ids(id_entries(lv, iv))));
    assert(ops.len() == id_entries(lv, iv).len());
    Ok(ops)
}

/// The lines left after deleting the given 1-based lines one after another.
pub open spec fn apply_deletes(ls: Seq<Seq<char>>, ns: Seq<int>) -> Seq<Seq<char>>
    decreases ns.len(),
{
    if ns.len() == 0 {
        ls
    } else {
        apply_deletes(ls.remove(ns[0] - 1), ns.drop_first())
    }
}

pub open spec fn strictly_descending(ns: Seq<int>) -> bool {
    forall|a: int, b: int| 0 <= a < b < ns.len() ==> ns[a] > ns[b]
}

pub proof fn lemma_tombstones_desc_shape(ls: Seq<Seq<char>>)
    ensures
        strictly_descending(tombstones_desc(ls)),
        forall|k: int|
            0 <= k < tombstones_desc(ls).len() ==> tombstone_line(ls, #[trigger] tombstones_desc(ls)[k]),
        forall|n: int| tombstone_line(ls, n) ==> #[trigger] tombstones_desc(ls).contains(n),
    decreases ls.len(),
{
    if ls.len() > 0 {
        let d = ls.drop_last();
        lemma_tombstones_desc_shape(d);
        let td = tombstones_desc(ls);
        let rest = tombstones_desc(d);
        assert forall|k: int| 0 <= k < rest.len() implies tombstone_line(ls, #[trigger] rest[k]) by {
            assert(tombstone_line(d, rest[k]));
            assert(ls[rest[k] - 1] == d[rest[k] - 1]);
        }
        assert forall|n: int| tombstone_line(ls, n) && n < ls.len() implies #[trigger] rest.contains(n) by {
            assert(ls[n - 1] == d[n - 1]);
            assert(tombstone_line(d, n));
        }
        if is_tombstone(ls.last()) {
            assert(td == seq![ls.len() as int] + rest);
            assert forall|k: int| 0 <= k < td.len() implies tombstone_line(ls, #[trigger] td[k]) by {
                if k > 0 {
                    assert(td[k] == rest[k - 1]);
                }
            }
            assert forall|a: int, b: int| 0 <= a < b < td.len() implies td[a] > td[b] by {
                assert(td[b] == rest[b - 1]);
                assert(tombstone_line(d, rest[b - 1]));
                if a > 0 {
                    assert(td[a] == rest[a - 1]);
                }
            }
            assert forall|n: int| tombstone_line(ls, n) implies #[trigger] td.contains(n) by {
                if n == ls.len() {
                    assert(td[0] == n);
                } else {
                    assert(rest.contains(n));
                    let i = choose|i: int| 0 <= i < rest.len() && rest[i] == n;
                    assert(td[i + 1] == n);
                }
            }
        } else {
            assert forall|n: int| tombstone_line(ls, n) implies #[trigger] td.contains(n) by {
                assert(n != ls.len());
                assert(rest.contains(n));
            }
        }
    }
}

/// Deleting lines that all lie within `s` commutes with appending `x`.
proof fn lemma_apply_deletes_push(s: Seq<Seq<char>>, x: Seq<char>, ns: Seq<int>)
    requires
        strictly_descending(ns),
        forall|k: int| 0 <= k < ns.len() ==> 1 <= #[trigger] ns[k] <= s.len(),
    ensures
        apply_deletes(s.push(x), ns) == apply_deletes(s, ns).push(x),
    decreases ns.len(),
{
    if ns.len() > 0 {
        let n = ns[0];
        let rest = ns.drop_first();
        assert(s.push(x).remove(n - 1) =~= s.remove(n - 1).push(x));
        assert forall|k: int| 0 <= k < rest.len() implies 1 <= #[trigger] rest[k] <= s.remove(n - 1).len() by {
            assert(rest[k] == ns[k + 1]);
        }
        assert forall|a: int, b: int| 0 <= a < b < rest.len() implies rest[a] > rest[b] by {
            assert(rest[a] == ns[a + 1] && rest[b] == ns[b + 1]);
        }
        lemma_apply_deletes_push(s.remove(n - 1), x, rest);
    }
}

/// The lines that are not tombstones, in order.
pub open spec fn non_tombstones(ls: Seq<Seq<char>>) -> Seq<Seq<char>>
    decreases ls.len(),
{
    if ls.len() == 0 {
        ls
    } else if is_tombstone(ls.last()) {
        non_tombstones(ls.drop_last())
    } else {
        non_tombstones(ls.drop_last()).push(ls.last())
    }
}

/// The deletes `plan_gc_tombstones` plans pass `verify_all_tombstones`:
/// every planned line is a tombstone, the lines strictly descend, and every
/// tombstone line of the note is among them.
pub proof fn lemma_gc_plan_is_verified(content: Seq<char>)
    ensures
        ({
            let ls = lines(content);
            let td = tombstones_desc(ls);
            &&& strictly_descending(td)
            &&& forall|k: int| 0 <= k < td.len() ==> tombstone_line(ls, #[trigger] td[k])
            &&& forall|n: int| tombstone_line(ls, n) ==> #[trigger] td.contains(n)
        }),
{
    lemma_tombstones_desc_shape(lines(content));
}

/// The plan of a tombstone clean-up is deletes alone, bottom-up: op `k`
/// deletes the `k`-th line number of `tombstones_desc`, those numbers
/// strictly descend, each is a line whose trimmed text is exactly the
/// tombstone marker, and every such line is among them (so a note without
/// tombstones gets no ops).
pub proof fn lemma_gc_plan_law(content: Seq<char>)
    ensures
        ({
            let ls = lines(content);
            let td = tombstones_desc(ls);
            let ops = deletions(td);
            &&& ops.len() == td.len()
            &&& forall|k: int| 0 <= k < ops.len() ==> #[trigger] ops[k] == (WriteOpV::DeleteBacklogLine { line: td[k] as usize })
                && tombstone_line(ls, td[k])
            &&& strictly_descending(td)
            &&& forall|n: int| tombstone_line(ls, n) ==> #[trigger] td.contains(n)
            &&& (forall|n: int| !tombstone_line(ls, n)) ==> ops.len() == 0
        }),
{
    let ls = lines(content);
    lemma_tombstones_desc_shape(ls);
    let td = tombstones_desc(ls);
    if td.len() > 0 {
        assert(tombstone_line(ls, td[0]));
    }
}

/// Applying the planned tombstone deletes in order removes exactly the
/// tombstone lines and keeps every other line, in order, unchanged.
pub proof fn lemma_gc_plan_removes_only_tombstones(ls: Seq<Seq<char>>)
    ensures
        apply_deletes(ls, tombstones_desc(ls)) == non_tombstones(ls),
    decreases ls.len(),
{
    if ls.len() > 0 {
        let d = ls.drop_last();
        lemma_gc_plan_removes_only_tombstones(d);
        lemma_tombstones_desc_shape(d);
        let rest = tombstones_desc(d);
        if is_tombstone(ls.last()) {
            let td = seq![ls.len() as int] + rest;
            assert(td[0] == ls.len());
            assert(td.drop_first() =~= rest);
            assert(ls.remove(ls.len() - 1) =~= d);
        } else {
            assert(ls =~= d.push(ls.last()));
            lemma_apply_deletes_push(d, ls.last(), rest);
        }
    }
}

/// What a reorder plan writes: op `k` replaces line `es[k].0`, the `k`-th
/// entry line of the section, with the unaltered text of an entry carrying
/// the `k`-th requested ID; no two ops take the text of the same entry, and
/// every entry's text is written by some op. So the entry lines are
/// permuted, none altered, lost or repeated, and no other line is written.
pub proof fn lemma_reorder_plan_law(
    ls: Seq<Seq<char>>,
    es: Seq<(int, Seq<char>)>,
    o: Seq<Seq<char>>,
    ops: Seq<WriteOpV>,
)
    requires
        is_permutation(o, entry_ids(es)),
        ops.len() == es.len(),
        forall|k: int| 0 <= k < ops.len() ==> placed(ls, es, o, k, #[trigger] ops[k]),
    ensures
        forall|k: int| 0 <= k < ops.len() ==> #[trigger] writes_entry_text(ls, es, o, k, ops[k]),
        forall|k1: int, k2: int, j1: int, j2: int|
            0 <= k1 < o.len() && 0 <= k2 < o.len() && k1 != k2 && #[trigger] source_of(entry_ids(es), o, k1, j1)
                && #[trigger] source_of(entry_ids(es), o, k2, j2) ==> j1 != j2,
        forall|j: int| 0 <= j < es.len() ==> #[trigger] is_source(entry_ids(es), o, j),
{
    let ids = entry_ids(es);
    lemma_reorder_moves_each_entry_once(ids, o);
    assert forall|k: int| 0 <= k < ops.len() implies #[trigger] writes_entry_text(ls, es, o, k, ops[k]) by {
        lemma_placed_writes(ls, es, o, k, ops[k]);
    }
}

/// Whether `op` replaces the `k`-th entry line with the unaltered text of
/// an entry `j` that carries the `k`-th requested ID and is the source for
/// position `k`.
pub open spec fn writes_entry_text(ls: Seq<Seq<char>>, es: Seq<(int, Seq<char>)>, o: Seq<Seq<char>>, k: int, op: WriteOpV) -> bool {
    exists|j: int|
        #[trigger] source_of(entry_ids(es), o, k, j) && es[j].1 == o[k] && op == (WriteOpV::ReplaceBacklogLine {
            line: es[k].0 as usize,
            text: ls[es[j].0 - 1],
        })
}

proof fn lemma_placed_writes(ls: Seq<Seq<char>>, es: Seq<(int, Seq<char>)>, o: Seq<Seq<char>>, k: int, op: WriteOpV)
    requires
        placed(ls, es, o, k, op),
    ensures
        writes_entry_text(ls, es, o, k, op),
{
    let ids = entry_ids(es);
    let j = choose|j: int| #[trigger] source_of(ids, o, k, j) && op == (WriteOpV::ReplaceBacklogLine {
        line: es[k].0 as usize,
        text: ls[es[j].0 - 1],
    });
    assert(ids[j] == es[j].1);
}

/// Whether entry `j` supplies the text of some position.
pub open spec fn is_source(ids: Seq<Seq<char>>, o: Seq<Seq<char>>, j: int) -> bool {
    exists|k: int| 0 <= k < o.len() && #[trigger] source_of(ids, o, k, j)
}

proof fn lemma_source_injective(ids: Seq<Seq<char>>, o: Seq<Seq<char>>, k1: int, k2: int, j: int)
    requires
        0 <= k1 < k2 < o.len(),
        source_of(ids, o, k1, j),
    ensures
        !source_of(ids, o, k2, j),
{
    let x = o[k1];
    lemma_occ_take_step(o, k1, x);
    lemma_occ_take_le(o, k1 + 1, k2, x);
}

/// Reordering writes every entry's text exactly once: distinct positions
/// take their text from distinct entries, and every entry is the source of
/// some position.
pub proof fn lemma_reorder_moves_each_entry_once(ids: Seq<Seq<char>>, o: Seq<Seq<char>>)
    requires
        is_permutation(o, ids),
    ensures
        forall|k1: int, k2: int, j1: int, j2: int|
            0 <= k1 < o.len() && 0 <= k2 < o.len() && k1 != k2 && #[trigger] source_of(ids, o, k1, j1)
                && #[trigger] source_of(ids, o, k2, j2) ==> j1 != j2,
        forall|j: int| 0 <= j < ids.len() ==> #[trigger] is_source(ids, o, j),
{
    assert forall|k1: int, k2: int, j1: int, j2: int|
        0 <= k1 < o.len() && 0 <= k2 < o.len() && k1 != k2 && #[trigger] source_of(ids, o, k1, j1)
            && #[trigger] source_of(ids, o, k2, j2) implies j1 != j2 by {
        if j1 == j2 {
            if k1 < k2 {
                lemma_source_injective(ids, o, k1, k2, j1);
            } else {
                lemma_source_injective(ids, o, k2, k1, j1);
            }
        }
    }
    assert forall|j: int| 0 <= j < ids.len() implies #[trigger] is_source(ids, o, j) by {
        let x = ids[j];
        let c = occ(ids.take(j), x);
        lemma_occ_take_step(ids, j, x);
        lemma_occ_take_le(ids, j + 1, ids.len() as int, x);
        lemma_occ_full(ids, x);
        assert(occ(o, x) == occ(ids, x));
        lemma_nth_occurrence(o, x, c);
        let k = choose|k: int| 0 <= k < o.len() && o[k] == x && #[trigger] occ(o.take(k), x) == c;
        assert(source_of(ids, o, k, j));
    }
}

} // verus!
