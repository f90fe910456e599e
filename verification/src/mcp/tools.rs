//! Addressing a note in MCP tool calls, and the checks every response
//! passes before the app trusts it.
use vstd::prelude::*;
use crate::dump::{put, put_str};
use crate::text::{chars_of, chars_of_string, decimal, decimal_of, string_of, trim, trim_vec};

verus! {

/// How a note is named to the MCP server: by title, or by its path.
#[derive(Debug, Clone)]
pub enum NoteAddr {
    Title(String),
    Filename(String),
}

impl NoteAddr {
    /// "title" or "filename": the addressing mode, for logs.
    pub fn mode(&self) -> (r: &'static str)
        ensures
            r@ == match self {
                NoteAddr::Title(_) => "title"@,
                NoteAddr::Filename(_) => "filename"@,
            },
    {
        match self {
            NoteAddr::Title(_) => "title",
            NoteAddr::Filename(_) => "filename",
        }
    }
}


// ─── Response envelopes ─────────────────────────────────────────────────────

/// One entry of a dry run's `deletedLinesPreview`.
pub struct PreviewLine {
    pub line: Option<u64>,
    pub content: Option<String>,
}

/// What the app reads of a JSON response envelope: each field as found,
/// `None` where it is missing or of another JSON type (`line_count_to_delete`
/// also where it is not an integer that fits `u64`).
pub struct Envelope {
    pub success: Option<bool>,
    pub has_more: Option<bool>,
    pub dry_run: Option<bool>,
    pub content: Option<String>,
    pub message: Option<String>,
    pub error: Option<String>,
    pub confirmation_token: Option<String>,
    pub line_count_to_delete: Option<u64>,
    /// `backends`, when it is an array: each entry's text, `None` for an
    /// entry that is not a string.
    pub backends: Option<Vec<Option<String>>>,
    /// `deletedLinesPreview`, when it is an array.
    pub deleted_lines_preview: Option<Vec<PreviewLine>>,
}

pub open spec fn text_of(s: Option<String>, absent: Seq<char>) -> Seq<char> {
    match s {
        Some(t) => t@,
        None => absent,
    }
}

/// The readable error of an envelope: `error`, else `message`.
pub open spec fn error_text(e: Envelope) -> Seq<char> {
    match e.error {
        Some(t) => t@,
        None => text_of(e.message, "unknown error"@),
    }
}

/// The name of what `format!("{:?}", s)` gives for a string: it quoted and
/// escaped as Rust's `Debug` writes it.
pub uninterp spec fn debug_text(s: Seq<char>) -> Seq<char>;

/// `format!("{:?}", s)`: `s` quoted and escaped as `Debug` writes a string.
#[verifier::external_body]
pub(crate) fn debug_str(s: &str) -> (r: String)
    ensures
        r@ == debug_text(s@),
{
    format!("{:?}", s)
}

/// How `Debug` writes an `Option<u64>`.
pub open spec fn debug_opt(n: Option<u64>) -> Seq<char> {
    match n {
        Some(v) => "Some("@ + decimal(v as nat) + ")"@,
        None => "None"@,
    }
}

/// What reading a note's body from a `get_notes` response gives: its
/// `content`, unless the response failed, was cut short (`hasMore`), had no
/// content, or was not JSON (`parsed` holds the parse error then).
pub open spec fn get_notes_result(parsed: Result<Envelope, String>, text: Seq<char>) -> Result<Seq<char>, Seq<char>> {
    match parsed {
        Err(err) => Err("get_notes: response was not JSON ("@ + err@ + "): "@ + text),
        Ok(e) => if e.success == Some(false) {
            Err("get_notes failed: "@ + error_text(e))
        } else if e.has_more == Some(true) {
            Err("get_notes returned partial content (hasMore) — refusing to operate on a truncated note."@)
        } else {
            match e.content {
                Some(c) => Ok(c@),
                None => Err("get_notes response missing `content`."@),
            }
        },
    }
}

/// What an edit response gives: its message, only when it reports
/// `success: true` explicitly.
pub open spec fn edit_result(parsed: Result<Envelope, String>, text: Seq<char>) -> Result<Seq<char>, Seq<char>> {
    match parsed {
        Err(err) => Err("edit_content: response was not JSON ("@ + err@ + "): "@ + text),
        Ok(e) => if e.success != Some(true) {
            Err("edit did not report success: "@ + error_text(e))
        } else {
            Ok(text_of(e.message, ""@))
        },
    }
}

/// The first backend that is not `"bridge"`.
pub open spec fn first_non_bridge(bs: Seq<Option<String>>) -> Option<int>
    decreases bs.len(),
{
    if bs.len() == 0 {
        None
    } else {
        match first_non_bridge(bs.drop_last()) {
            Some(k) => Some(k),
            None => if bs.last() matches Some(b) && b@ == "bridge"@ {
                None
            } else {
                Some(bs.len() - 1)
            },
        }
    }
}

/// Whether a response was applied by the running NotePlan app: `Ok` only
/// when `backends` is present, not empty, and every entry is `"bridge"`.
pub open spec fn bridge_result(parsed: Result<Envelope, String>, op: Seq<char>) -> Result<(), Seq<char>> {
    match parsed {
        Err(err) => Err(op + ": response was not JSON ("@ + err@ + "); aborting"@),
        Ok(e) => match e.backends {
            None => Err(op + ": response has no `backends` — cannot confirm NotePlan applied it; aborting"@),
            Some(bs) => if bs@.len() == 0 {
                Err(op + ": empty `backends` — cannot confirm NotePlan applied it; aborting"@)
            } else {
                non_bridge_err(op, bs@)
            },
        },
    }
}

/// The refusal naming the first backend that is not `"bridge"`, if any.
pub open spec fn non_bridge_err(op: Seq<char>, bs: Seq<Option<String>>) -> Result<(), Seq<char>> {
    match first_non_bridge(bs) {
        Some(k) => Err(op + ": not applied through NotePlan (backend: "@ + text_of(bs[k], "<non-string>"@)
            + ") — ensure NotePlan is running; aborting"@),
        None => Ok(()),
    }
}

pub open spec fn label_parts(bs: Seq<Option<String>>) -> Seq<Seq<char>> {
    bs.map_values(|b: Option<String>| text_of(b, "?"@))
}

/// A short label of a response's backends for logs: them joined with
/// commas, `?` for a non-string entry, or `?` alone without a list.
pub open spec fn backends_text(parsed: Result<Envelope, String>) -> Seq<char> {
    match parsed {
        Ok(e) => match e.backends {
            Some(bs) => crate::text::join(label_parts(bs@), ","@),
            None => "?"@,
        },
        Err(_) => "?"@,
    }
}

/// What a `delete_lines` dry run gives: its confirmation token, only when
/// it succeeded, echoed `dryRun: true`, would delete exactly one line, and
/// previews exactly that `line` holding (trimmed) `expected`.
pub open spec fn dry_run_result(parsed: Result<Envelope, String>, text: Seq<char>, line: usize, expected: Seq<char>) -> Result<Seq<char>, Seq<char>> {
    match parsed {
        Err(err) => Err("delete_lines(dryRun): response was not JSON ("@ + err@ + "): "@ + text),
        Ok(e) => if e.success != Some(true) {
            Err("delete_lines dry run did not report success: "@ + error_text(e))
        } else if e.dry_run != Some(true) {
            Err("delete_lines dry run response did not echo `dryRun:true` — the server may have ignored the flag (and possibly already deleted); aborting before confirm."@)
        } else if e.line_count_to_delete != Some(1u64) {
            Err("delete_lines dry run would delete "@ + match e.line_count_to_delete {
                Some(n) => decimal(n as nat),
                None => "?"@,
            } + " line(s), expected exactly 1 — aborting before confirm."@)
        } else {
            match e.deleted_lines_preview {
                None => Err("delete_lines dry run missing `deletedLinesPreview` — cannot verify; aborting before confirm."@),
                Some(p) => if p@.len() != 1 {
                    Err("delete_lines dry run preview had "@ + decimal(p@.len()) + " entries, expected exactly 1 — aborting before confirm."@)
                } else {
                    preview_result(p@[0], e.confirmation_token, line, expected)
                },
            }
        },
    }
}

/// The checks on the single previewed line, then the token.
pub open spec fn preview_result(entry: PreviewLine, token: Option<String>, line: usize, expected: Seq<char>) -> Result<Seq<char>, Seq<char>> {
    if entry.line != Some(line as u64) {
        Err("delete_lines dry run preview targets line "@ + debug_opt(entry.line) + ", expected "@ + decimal(line as nat)
            + " — aborting before confirm."@)
    } else {
        match entry.content {
            None => Err("delete_lines dry run preview entry missing `content` — cannot verify; aborting before confirm."@),
            Some(c) => if trim(c@) != expected {
                Err("delete_lines dry run preview content "@ + debug_text(trim(c@)) + " does not match the expected tombstone "@
                    + debug_text(expected) + " — a concurrent edit may have shifted the note; aborting before confirm."@)
            } else {
                match token {
                    Some(t) => if t@.len() > 0 {
                        Ok(t@)
                    } else {
                        Err("delete_lines dry run missing `confirmationToken` — cannot confirm; aborting."@)
                    },
                    None => Err("delete_lines dry run missing `confirmationToken` — cannot confirm; aborting."@),
                }
            },
        }
    }
}

fn text_or(s: &Option<String>, absent: &str) -> (r: Vec<char>)
    ensures
        r@ == text_of(*s, absent@),
{
    match s {
        Some(t) => chars_of_string(t),
        None => chars_of(absent),
    }
}

/// The readable error of an envelope.
pub fn response_error(e: &Envelope) -> (r: String)
    ensures
        r@ == error_text(*e),
{
    match &e.error {
        Some(t) => string_of(&chars_of_string(t)),
        None => string_of(&text_or(&e.message, "unknown error")),
    }
}

fn not_json(head: &str, err: &String, tail: &str, text: &str) -> (r: String)
    ensures
        r@ == head@ + err@ + tail@ + text@,
{
    let mut out = chars_of(head);
    put(&mut out, &chars_of_string(err));
    put_str(&mut out, tail);
    put_str(&mut out, text);
    string_of(&out)
}

fn joined(a: &str, b: &String) -> (r: String)
    ensures
        r@ == a@ + b@,
{
    let mut out = chars_of(a);
    put(&mut out, &chars_of_string(b));
    string_of(&out)
}

/// Reads a note's body from a `get_notes` response; `parsed` is the
/// response read as an envelope, or the JSON error.
pub fn parse_get_notes_content(parsed: &Result<Envelope, String>, json_text: &str) -> (r: Result<String, String>)
    ensures
        match (r, get_notes_result(*parsed, json_text@)) {
            (Ok(a), Ok(b)) => a@ == b,
            (Err(a), Err(b)) => a@ == b,
            _ => false,
        },
{
    match parsed {
        Err(err) => Err(not_json("get_notes: response was not JSON (", err, "): ", json_text)),
        Ok(e) => {
            if e.success == Some(false) {
                return Err(joined("get_notes failed: ", &response_error(e)));
            }
            if e.has_more == Some(true) {
                return Err(
                    string_of(&chars_of("get_notes returned partial content (hasMore) — refusing to operate on a truncated note.")),
                );
            }
            match &e.content {
                Some(c) => Ok(string_of(&chars_of_string(c))),
                None => Err(string_of(&chars_of("get_notes response missing `content`."))),
            }
        },
    }
}

/// Accepts an edit response only when it reports `success: true`.
pub fn parse_edit_response(parsed: &Result<Envelope, String>, json_text: &str) -> (r: Result<String, String>)
    ensures
        match (r, edit_result(*parsed, json_text@)) {
            (Ok(a), Ok(b)) => a@ == b,
            (Err(a), Err(b)) => a@ == b,
            _ => false,
        },
{
    match parsed {
        Err(err) => Err(not_json("edit_content: response was not JSON (", err, "): ", json_text)),
        Ok(e) => {
            if e.success != Some(true) {
                return Err(joined("edit did not report success: ", &response_error(e)));
            }
            Ok(string_of(&text_or(&e.message, "")))
        },
    }
}

/// Accepts a response only when NotePlan itself applied it.
pub fn assert_bridge_backend(parsed: &Result<Envelope, String>, op_desc: &str) -> (r: Result<(), String>)
    ensures
        match (r, bridge_result(*parsed, op_desc@)) {
            (Ok(_), Ok(_)) => true,
            (Err(a), Err(b)) => a@ == b,
            _ => false,
        },
{
    match parsed {
        Err(err) => {
            let mut out = chars_of(op_desc);
            put_str(&mut out, ": response was not JSON (");
            put(&mut out, &chars_of_string(err));
            put_str(&mut out, "); aborting");
            Err(string_of(&out))
        },
        Ok(e) => match &e.backends {
            None => {
                let mut out = chars_of(op_desc);
                put_str(&mut out, ": response has no `backends` — cannot confirm NotePlan applied it; aborting");
                Err(string_of(&out))
            },
            Some(bs) => {
                if bs.len() == 0 {
                    let mut out = chars_of(op_desc);
                    put_str(&mut out, ": empty `backends` — cannot confirm NotePlan applied it; aborting");
                    return Err(string_of(&out));
                }
                assert(bridge_result(*parsed, op_desc@) == non_bridge_err(op_desc@, bs@));
                let mut i: usize = 0;
                while i < bs.len()
                    invariant
                        i <= bs.len(),
                        first_non_bridge(bs@.take(i as int)) is None,
                        bridge_result(*parsed, op_desc@) == non_bridge_err(op_desc@, bs@),
                    decreases bs.len() - i,
                {
                    assert(bs@.take(i + 1).drop_last() =~= bs@.take(i as int));
                    let is_bridge = match &bs[i] {
                        Some(b) => crate::text::eq_str(&chars_of_string(b), "bridge"),
                        None => false,
                    };
                    if !is_bridge {
                        proof {
                            assert(first_non_bridge(bs@.take(i + 1)) == Some(i as int));
                            lemma_non_bridge_prefix(bs@, i + 1);
                        }
                        let mut out = chars_of(op_desc);
                        put_str(&mut out, ": not applied through NotePlan (backend: ");
                        put(&mut out, &text_or(&bs[i], "<non-string>"));
                        put_str(&mut out, ") — ensure NotePlan is running; aborting");
                        assert(out@ =~= op_desc@ + ": not applied through NotePlan (backend: "@ + text_of(bs@[i as int], "<non-string>"@)
                            + ") — ensure NotePlan is running; aborting"@);
                        return Err(string_of(&out));
                    }
                    i += 1;
                }
                assert(bs@.take(i as int) =~= bs@);
                Ok(())
            },
        },
    }
}

proof fn lemma_non_bridge_prefix(bs: Seq<Option<String>>, k: int)
    requires
        0 <= k <= bs.len(),
        first_non_bridge(bs.take(k)) is Some,
    ensures
        first_non_bridge(bs) == first_non_bridge(bs.take(k)),
    decreases bs.len() - k,
{
    if k < bs.len() {
        assert(bs.take(k + 1).drop_last() =~= bs.take(k));
        lemma_non_bridge_prefix(bs, k + 1);
    } else {
        assert(bs.take(k) =~= bs);
    }
}

/// A short label of a response's backends, for logs.
pub fn backends_label(parsed: &Result<Envelope, String>) -> (r: String)
    ensures
        r@ == backends_text(*parsed),
{
    match parsed {
        Ok(e) => match &e.backends {
            Some(bs) => {
                let mut parts: Vec<Vec<char>> = Vec::new();
                let mut i: usize = 0;
                while i < bs.len()
                    invariant
                        i <= bs.len(),
                        parts.deep_view() == label_parts(bs@.take(i as int)),
                    decreases bs.len() - i,
                {
                    let part = text_or(&bs[i], "?");
                    proof {
                        crate::text::lemma_deep_chars(part);
                    }
                    let ghost p0 = parts.deep_view();
                    parts.push(part);
                    assert(parts.deep_view() =~= p0.push(part@));
                    assert(bs@.take(i + 1) =~= bs@.take(i as int).push(bs@[i as int]));
                    assert(label_parts(bs@.take(i + 1)) =~= label_parts(bs@.take(i as int)).push(text_of(bs@[i as int], "?"@)));
                    i += 1;
                }
                assert(bs@.take(i as int) =~= bs@);
                string_of(&crate::text::join_vec(&parts, &chars_of(",")))
            },
            None => string_of(&chars_of("?")),
        },
        Err(_) => string_of(&chars_of("?")),
    }
}

fn fixed(s: &str) -> (r: String)
    ensures
        r@ == s@,
{
    string_of(&chars_of(s))
}

/// Checks a `delete_lines` dry run against the expected tombstone and
/// gives its confirmation token.
pub fn parse_delete_dry_run(parsed: &Result<Envelope, String>, json_text: &str, line: usize, expected_trimmed: &str) -> (r: Result<String, String>)
    ensures
        match (r, dry_run_result(*parsed, json_text@, line, expected_trimmed@)) {
            (Ok(a), Ok(b)) => a@ == b,
            (Err(a), Err(b)) => a@ == b,
            _ => false,
        },
{
    let e = match parsed {
        Err(err) => {
            return Err(not_json("delete_lines(dryRun): response was not JSON (", err, "): ", json_text));
        },
        Ok(e) => e,
    };
    if e.success != Some(true) {
        return Err(joined("delete_lines dry run did not report success: ", &response_error(e)));
    }
    if e.dry_run != Some(true) {
        return Err(fixed("delete_lines dry run response did not echo `dryRun:true` — the server may have ignored the flag (and possibly already deleted); aborting before confirm."));
    }
    if e.line_count_to_delete != Some(1u64) {
        let mut out = chars_of("delete_lines dry run would delete ");
        match e.line_count_to_delete {
            Some(n) => put(&mut out, &crate::text::decimal_of_u128(n as u128)),
            None => put_str(&mut out, "?"),
        }
        put_str(&mut out, " line(s), expected exactly 1 — aborting before confirm.");
        return Err(string_of(&out));
    }
    let preview = match &e.deleted_lines_preview {
        None => {
            return Err(fixed("delete_lines dry run missing `deletedLinesPreview` — cannot verify; aborting before confirm."));
        },
        Some(p) => p,
    };
    if preview.len() != 1 {
        let mut out = chars_of("delete_lines dry run preview had ");
        put(&mut out, &decimal_of(preview.len()));
        put_str(&mut out, " entries, expected exactly 1 — aborting before confirm.");
        return Err(string_of(&out));
    }
    check_preview(&preview[0], &e.confirmation_token, line, expected_trimmed)
}

fn check_preview(entry: &PreviewLine, token: &Option<String>, line: usize, expected_trimmed: &str) -> (r: Result<String, String>)
    ensures
        match (r, preview_result(*entry, *token, line, expected_trimmed@)) {
            (Ok(a), Ok(b)) => a@ == b,
            (Err(a), Err(b)) => a@ == b,
            _ => false,
        },
{
    if entry.line != Some(line as u64) {
        let mut out = chars_of("delete_lines dry run preview targets line ");
        match entry.line {
            Some(n) => {
                put_str(&mut out, "Some(");
                put(&mut out, &crate::text::decimal_of_u128(n as u128));
                put_str(&mut out, ")");
            },
            None => put_str(&mut out, "None"),
        }
        assert(out@ =~= "delete_lines dry run preview targets line "@ + debug_opt(entry.line));
        put_str(&mut out, ", expected ");
        put(&mut out, &decimal_of(line));
        put_str(&mut out, " — aborting before confirm.");
        assert(out@ =~= "delete_lines dry run preview targets line "@ + debug_opt(entry.line) + ", expected "@
            + decimal(line as nat) + " — aborting before confirm."@);
        return Err(string_of(&out));
    }
    let c = match &entry.content {
        None => {
            return Err(fixed("delete_lines dry run preview entry missing `content` — cannot verify; aborting before confirm."));
        },
        Some(c) => c,
    };
    let t = trim_vec(&chars_of_string(c));
    let exp = chars_of(expected_trimmed);
    if !crate::text::vec_eq(&t, &exp) {
        let ts = string_of(&t);
        let mut out = chars_of("delete_lines dry run preview content ");
        put(&mut out, &chars_of_string(&debug_str(ts.as_str())));
        put_str(&mut out, " does not match the expected tombstone ");
        put(&mut out, &chars_of_string(&debug_str(expected_trimmed)));
        put_str(&mut out, " — a concurrent edit may have shifted the note; aborting before confirm.");
        assert(out@ =~= "delete_lines dry run preview content "@ + debug_text(trim(c@)) + " does not match the expected tombstone "@
            + debug_text(expected_trimmed@) + " — a concurrent edit may have shifted the note; aborting before confirm."@);
        return Err(string_of(&out));
    }
    match token {
        Some(tok) => {
            if !tok.as_str().is_empty() {
                Ok(string_of(&chars_of_string(tok)))
            } else {
                Err(fixed("delete_lines dry run missing `confirmationToken` — cannot confirm; aborting."))
            }
        },
        None => Err(fixed("delete_lines dry run missing `confirmationToken` — cannot confirm; aborting.")),
    }
}

} // verus!
