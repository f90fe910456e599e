//! Naming inconsistency: "Slips" next to "Snips" folders, and numbered
//! folders whose ID/name separator differs from the usual one.
use vstd::prelude::*;
use crate::analyzer::{is_special_folder, make_finding, special_folder, Analyzer};
use crate::models::{Finding, FindingCategory, FindingV, NoteKind, NoteV, Severity};
use crate::parser::hierarchy::contains_name;
use crate::parser::NoteStore;
use crate::text::{
    chars_of, chars_of_string, concat, contains, contains_str, decimal, decimal_of, lowercase,
    split_on, split_vec, to_lowercase,
};

verus! {

pub struct NamingInconsistencyAnalyzer;

/// The folder components of a regular note's path outside the special
/// folders: every component but the first and the file name.
pub open spec fn named_folders(n: NoteV) -> Seq<Seq<char>> {
    let parts = split_on(n.relative_path, '/');
    if n.kind == NoteKind::Regular && !special_folder(n.relative_path) && parts.len() >= 2 {
        parts.subrange(1, parts.len() - 1)
    } else {
        Seq::empty()
    }
}

/// The folder components of all notes, note by note.
pub open spec fn all_folders(nv: Seq<NoteV>) -> Seq<Seq<char>>
    decreases nv.len(),
{
    if nv.len() == 0 {
        Seq::empty()
    } else {
        all_folders(nv.drop_last()) + named_folders(nv.last())
    }
}

/// The distinct folder names whose lowercase form contains `pat`, in order
/// of first appearance.
pub open spec fn distinct_with(ps: Seq<Seq<char>>, pat: Seq<char>) -> Seq<Seq<char>>
    decreases ps.len(),
{
    if ps.len() == 0 {
        Seq::empty()
    } else {
        let acc = distinct_with(ps.drop_last(), pat);
        if contains(lowercase(ps.last()), pat) && !acc.contains(ps.last()) {
            acc.push(ps.last())
        } else {
            acc
        }
    }
}

/// The three ID/name separators, in the order they are tried.
pub open spec fn separator(k: nat) -> Seq<char> {
    if k == 0 {
        " - "@
    } else if k == 1 {
        "- "@
    } else {
        " -"@
    }
}

/// The separator a numbered folder name uses, if any.
pub open spec fn separator_of(p: Seq<char>) -> Option<nat> {
    if p.len() > 0 && '0' <= p[0] <= '9' {
        if contains(p, separator(0)) {
            Some(0)
        } else if contains(p, separator(1)) {
            Some(1)
        } else if contains(p, separator(2)) {
            Some(2)
        } else {
            None
        }
    } else {
        None
    }
}

/// The folder names (with repeats) that use separator `k`.
pub open spec fn bucket(ps: Seq<Seq<char>>, k: nat) -> Seq<Seq<char>>
    decreases ps.len(),
{
    if ps.len() == 0 {
        Seq::empty()
    } else if separator_of(ps.last()) == Some(k) {
        bucket(ps.drop_last(), k).push(ps.last())
    } else {
        bucket(ps.drop_last(), k)
    }
}

/// The separator used most; the earlier one on a tie.
pub open spec fn majority(c: Seq<nat>) -> nat {
    if c[0] >= c[1] && c[0] >= c[2] {
        0
    } else if c[1] >= c[2] {
        1
    } else {
        2
    }
}

/// The other two separators, by use (most first), earlier first on a tie.
pub open spec fn minorities(c: Seq<nat>) -> (nat, nat) {
    let m = majority(c);
    let a: nat = if m == 0 { 1 } else { 0 };
    let b: nat = if m == 2 { 1 } else { 2 };
    if c[b as int] > c[a as int] {
        (b, a)
    } else {
        (a, b)
    }
}

pub open spec fn term_finding(folder: Seq<char>, minority: Seq<char>, majority: Seq<char>, ctx: Seq<char>) -> FindingV {
    FindingV {
        severity: Severity::Info,
        category: FindingCategory::NamingInconsistency,
        file_path: "Notes/"@ + folder,
        description: "Folder uses '"@ + minority + "' but the majority use '"@ + majority + "' — inconsistent naming"@,
        suggestion: Some("Standardize on '"@ + majority + "' across all categories for consistency."@),
        line_number: None,
        context: Some(ctx),
        is_folder: true,
    }
}

pub open spec fn term_findings(folders: Seq<Seq<char>>, minority: Seq<char>, majority: Seq<char>, ctx: Seq<char>) -> Seq<FindingV> {
    folders.map_values(|f: Seq<char>| term_finding(f, minority, majority, ctx))
}

/// Findings for "Slips" and "Snips" folders used side by side: the folders
/// of the less used term (Snips on a tie).
pub open spec fn slips_snips(ps: Seq<Seq<char>>) -> Seq<FindingV> {
    let slips = distinct_with(ps, "slips"@);
    let snips = distinct_with(ps, "snips"@);
    let ctx = decimal(slips.len()) + " folders use 'Slips', "@ + decimal(snips.len()) + " folders use 'Snips'"@;
    if slips.len() == 0 || snips.len() == 0 {
        Seq::empty()
    } else if slips.len() >= snips.len() {
        term_findings(snips, "Snips"@, "Slips"@, ctx)
    } else {
        term_findings(slips, "Slips"@, "Snips"@, ctx)
    }
}

pub open spec fn sep_finding(folder: Seq<char>, k: nat, m: nat) -> FindingV {
    FindingV {
        severity: Severity::Info,
        category: FindingCategory::NamingInconsistency,
        file_path: "Notes/"@ + folder,
        description: "Folder uses '"@ + separator(k) + "' separator but most folders use '"@ + separator(m)
            + "' — likely a typo"@,
        suggestion: Some("Rename to use the standard '"@ + separator(m) + "' separator between ID and name."@),
        line_number: None,
        context: None,
        is_folder: true,
    }
}

/// A minority separator's findings: one per use, when it is used at most
/// three times.
pub open spec fn sep_findings(folders: Seq<Seq<char>>, k: nat, m: nat) -> Seq<FindingV> {
    if folders.len() <= 3 {
        folders.map_values(|f: Seq<char>| sep_finding(f, k, m))
    } else {
        Seq::empty()
    }
}

/// Findings for separators that differ from the most used one, when at least
/// two separators are in use.
pub open spec fn separator_findings(ps: Seq<Seq<char>>) -> Seq<FindingV> {
    let c = seq![bucket(ps, 0).len(), bucket(ps, 1).len(), bucket(ps, 2).len()];
    let used = (if c[0] > 0 { 1nat } else { 0nat }) + (if c[1] > 0 { 1nat } else { 0nat }) + (if c[2] > 0 {
        1nat
    } else {
        0nat
    });
    let m = majority(c);
    let (x, y) = minorities(c);
    if used > 1 {
        sep_findings(bucket(ps, x), x, m) + sep_findings(bucket(ps, y), y, m)
    } else {
        Seq::empty()
    }
}

/// What the analyzer reports for the notes `nv`.
pub open spec fn naming_findings(nv: Seq<NoteV>) -> Seq<FindingV> {
    slips_snips(all_folders(nv)) + separator_findings(all_folders(nv))
}

fn copy_chars(v: &Vec<char>) -> (r: Vec<char>)
    ensures
        r@ == v@,
{
    let mut r: Vec<char> = Vec::new();
    let mut i: usize = 0;
    while i < v.len()
        invariant
            i <= v.len(),
            r@ == v@.take(i as int),
        decreases v.len() - i,
    {
        r.push(v[i]);
        i += 1;
        assert(r@ =~= v@.take(i as int));
    }
    assert(v@.take(i as int) =~= v@);
    r
}

fn all_folders_exec(store: &NoteStore) -> (r: Vec<Vec<char>>)
    ensures
        r.deep_view() == all_folders(store.notes.deep_view()),
{
    let ghost nv = store.notes.deep_view();
    let mut out: Vec<Vec<char>> = Vec::new();
    let mut i: usize = 0;
    while i < store.notes.len()
        invariant
            i <= store.notes.len(),
            nv == store.notes.deep_view(),
            out.deep_view() == all_folders(nv.take(i as int)),
        decreases store.notes.len() - i,
    {
        proof {
            assert(nv.take(i + 1).drop_last() =~= nv.take(i as int));
            assert(nv[i as int] == store.notes[i as int].deep_view());
        }
        let note = &store.notes[i];
        let rp = chars_of_string(&note.relative_path);
        let ghost base = out.deep_view();
        if note.kind == NoteKind::Regular && !is_special_folder(&rp) {
            let parts = split_vec(&rp, '/');
            let ghost pv = parts.deep_view();
            if parts.len() >= 2 {
                let mut j: usize = 1;
                while j < parts.len() - 1
                    invariant
                        1 <= j <= parts.len() - 1,
                        parts.len() >= 2,
                        pv == parts.deep_view(),
                        out.deep_view() == base + pv.subrange(1, j as int),
                    decreases parts.len() - j,
                {
                    let c = copy_chars(&parts[j]);
                    let ghost o0 = out.deep_view();
                    proof {
                        crate::text::lemma_deep_chars(c);
                        crate::text::lemma_deep_chars(parts[j as int]);
                        assert(pv[j as int] == parts[j as int].deep_view());
                    }
                    out.push(c);
                    assert(out.deep_view() =~= o0.push(pv[j as int]));
                    j += 1;
                    assert(out.deep_view() =~= base + pv.subrange(1, j as int));
                }
            } else {
                assert(out.deep_view() =~= base + named_folders(nv[i as int]));
            }
        } else {
            assert(out.deep_view() =~= base + named_folders(nv[i as int]));
        }
        i += 1;
    }
    assert(nv.take(i as int) =~= nv);
    out
}

fn distinct_with_exec(ps: &Vec<Vec<char>>, pat: &str) -> (r: Vec<Vec<char>>)
    ensures
        r.deep_view() == distinct_with(ps.deep_view(), pat@),
{
    let ghost pv = ps.deep_view();
    let mut out: Vec<Vec<char>> = Vec::new();
    let mut i: usize = 0;
    while i < ps.len()
        invariant
            i <= ps.len(),
            pv == ps.deep_view(),
            out.deep_view() == distinct_with(pv.take(i as int), pat@),
        decreases ps.len() - i,
    {
        proof {
            assert(pv.take(i + 1).drop_last() =~= pv.take(i as int));
            crate::text::lemma_deep_chars(ps[i as int]);
            assert(pv[i as int] == ps[i as int]@);
        }
        let lower = to_lowercase(&ps[i]);
        if contains_str(&lower, pat) && !contains_name(&out, &ps[i]) {
            let c = copy_chars(&ps[i]);
            let ghost o0 = out.deep_view();
            proof {
                crate::text::lemma_deep_chars(c);
            }
            out.push(c);
            assert(out.deep_view() =~= o0.push(pv[i as int]));
        }
        i += 1;
    }
    assert(pv.take(i as int) =~= pv);
    out
}

fn separator_exec(k: usize) -> (r: Vec<char>)
    requires
        k < 3,
    ensures
        r@ == separator(k as nat),
{
    if k == 0 {
        chars_of(" - ")
    } else if k == 1 {
        chars_of("- ")
    } else {
        chars_of(" -")
    }
}

fn separator_of_exec(p: &Vec<char>) -> (r: Option<usize>)
    ensures
        r matches Some(k) ==> k < 3 && separator_of(p@) == Some(k as nat),
        r is None ==> separator_of(p@) is None,
{
    if p.len() > 0 && '0' <= p[0] && p[0] <= '9' {
        if contains_str(p, " - ") {
            Some(0)
        } else if contains_str(p, "- ") {
            Some(1)
        } else if contains_str(p, " -") {
            Some(2)
        } else {
            None
        }
    } else {
        None
    }
}

fn buckets_exec(ps: &Vec<Vec<char>>) -> (r: Vec<Vec<Vec<char>>>)
    ensures
        r.len() == 3,
        forall|k: int| 0 <= k < 3 ==> #[trigger] r[k].deep_view() == bucket(ps.deep_view(), k as nat),
{
    let ghost pv = ps.deep_view();
    let mut b0: Vec<Vec<char>> = Vec::new();
    let mut b1: Vec<Vec<char>> = Vec::new();
    let mut b2: Vec<Vec<char>> = Vec::new();
    let mut i: usize = 0;
    while i < ps.len()
        invariant
            i <= ps.len(),
            pv == ps.deep_view(),
            b0.deep_view() == bucket(pv.take(i as int), 0),
            b1.deep_view() == bucket(pv.take(i as int), 1),
            b2.deep_view() == bucket(pv.take(i as int), 2),
        decreases ps.len() - i,
    {
        proof {
            assert(pv.take(i + 1).drop_last() =~= pv.take(i as int));
            crate::text::lemma_deep_chars(ps[i as int]);
            assert(pv[i as int] == ps[i as int]@);
        }
        let c = copy_chars(&ps[i]);
        proof {
            crate::text::lemma_deep_chars(c);
        }
        match separator_of_exec(&ps[i]) {
            Some(k) => {
                if k == 0 {
                    let ghost o0 = b0.deep_view();
                    b0.push(c);
                    assert(b0.deep_view() =~= o0.push(pv[i as int]));
                } else if k == 1 {
                    let ghost o0 = b1.deep_view();
                    b1.push(c);
                    assert(b1.deep_view() =~= o0.push(pv[i as int]));
                } else {
                    let ghost o0 = b2.deep_view();
                    b2.push(c);
                    assert(b2.deep_view() =~= o0.push(pv[i as int]));
                }
            },
            None => {},
        }
        i += 1;
    }
    assert(pv.take(i as int) =~= pv);
    let mut r: Vec<Vec<Vec<char>>> = Vec::new();
    r.push(b0);
    r.push(b1);
    r.push(b2);
    r
}

fn push_term_findings(
    findings: &mut Vec<Finding>,
    folders: &Vec<Vec<char>>,
    minority: &str,
    majority: &str,
    ctx: &Vec<char>,
)
    ensures
        final(findings).deep_view() == old(findings).deep_view() + term_findings(folders.deep_view(), minority@, majority@, ctx@),
{
    let ghost base = findings.deep_view();
    let ghost fv = folders.deep_view();
    let mut i: usize = 0;
    while i < folders.len()
        invariant
            i <= folders.len(),
            fv == folders.deep_view(),
            findings.deep_view() == base + term_findings(fv.take(i as int), minority@, majority@, ctx@),
        decreases folders.len() - i,
    {
        proof {
            crate::text::lemma_deep_chars(folders[i as int]);
            assert(fv[i as int] == folders[i as int]@);
        }
        let desc = concat(
            &concat(&concat(&chars_of("Folder uses '"), &chars_of(minority)), &chars_of("' but the majority use '")),
            &concat(&chars_of(majority), &chars_of("' — inconsistent naming")),
        );
        let sugg = concat(
            &concat(&chars_of("Standardize on '"), &chars_of(majority)),
            &chars_of("' across all categories for consistency."),
        );
        let f = make_finding(
            Severity::Info,
            FindingCategory::NamingInconsistency,
            &concat(&chars_of("Notes/"), &folders[i]),
            &desc,
            Some(sugg),
            Some(copy_chars(ctx)),
            true,
        );
        let ghost f0 = findings.deep_view();
        proof {
            let t = term_finding(fv[i as int], minority@, majority@, ctx@);
            assert(desc@ =~= t.description);
            assert(sugg@ =~= t.suggestion->0);
            assert(f.deep_view() == t);
        }
        findings.push(f);
        proof {
            let t = term_finding(fv[i as int], minority@, majority@, ctx@);
            assert(findings.deep_view() =~= f0.push(t));
            assert(term_findings(fv.take(i + 1), minority@, majority@, ctx@) =~= term_findings(fv.take(i as int), minority@, majority@, ctx@).push(t));
            assert(findings.deep_view() =~= base + term_findings(fv.take(i + 1), minority@, majority@, ctx@));
        }
        i += 1;
    }
    assert(fv.take(i as int) =~= fv);
}

fn push_sep_findings(findings: &mut Vec<Finding>, folders: &Vec<Vec<char>>, k: usize, m: usize)
    requires
        k < 3,
        m < 3,
    ensures
        final(findings).deep_view() == old(findings).deep_view() + sep_findings(folders.deep_view(), k as nat, m as nat),
{
    let ghost base = findings.deep_view();
    let ghost fv = folders.deep_view();
    if folders.len() > 3 {
        assert(findings.deep_view() =~= base + sep_findings(fv, k as nat, m as nat));
        return;
    }
    let sk = separator_exec(k);
    let sm = separator_exec(m);
    let mut i: usize = 0;
    while i < folders.len()
        invariant
            i <= folders.len() <= 3,
            k < 3,
            m < 3,
            sk@ == separator(k as nat),
            sm@ == separator(m as nat),
            fv == folders.deep_view(),
            findings.deep_view() == base + fv.take(i as int).map_values(|f: Seq<char>| sep_finding(f, k as nat, m as nat)),
        decreases folders.len() - i,
    {
        proof {
            crate::text::lemma_deep_chars(folders[i as int]);
            assert(fv[i as int] == folders[i as int]@);
        }
        let desc = concat(
            &concat(&concat(&chars_of("Folder uses '"), &sk), &chars_of("' separator but most folders use '")),
            &concat(&sm, &chars_of("' — likely a typo")),
        );
        let sugg = concat(
            &concat(&chars_of("Rename to use the standard '"), &sm),
            &chars_of("' separator between ID and name."),
        );
        let f = make_finding(
            Severity::Info,
            FindingCategory::NamingInconsistency,
            &concat(&chars_of("Notes/"), &folders[i]),
            &desc,
            Some(sugg),
            None,
            true,
        );
        let ghost f0 = findings.deep_view();
        proof {
            let t = sep_finding(fv[i as int], k as nat, m as nat);
            assert(desc@ =~= t.description);
            assert(sugg@ =~= t.suggestion->0);
            assert(f.deep_view() == t);
        }
        findings.push(f);
        proof {
            let t = sep_finding(fv[i as int], k as nat, m as nat);
            assert(findings.deep_view() =~= f0.push(t));
            assert(fv.take(i + 1).map_values(|f: Seq<char>| sep_finding(f, k as nat, m as nat)) =~= fv.take(i as int).map_values(|f: Seq<char>| sep_finding(f, k as nat, m as nat)).push(t));
            assert(findings.deep_view() =~= base + fv.take(i + 1).map_values(|f: Seq<char>| sep_finding(f, k as nat, m as nat)));
        }
        i += 1;
    }
    assert(fv.take(i as int) =~= fv);
}

impl Analyzer for NamingInconsistencyAnalyzer {
    fn analyze(&self, store: &NoteStore) -> (r: Vec<Finding>)
        ensures
            r.deep_view() == naming_findings(store.notes.deep_view()),
    {
        let ghost nv = store.notes.deep_view();
        let ps = all_folders_exec(store);
        let ghost pv = ps.deep_view();
        let mut findings: Vec<Finding> = Vec::new();
        let slips = distinct_with_exec(&ps, "slips");
        let snips = distinct_with_exec(&ps, "snips");
        if slips.len() > 0 && snips.len() > 0 {
            let ctx = concat(
                &concat(&concat(&decimal_of(slips.len()), &chars_of(" folders use 'Slips', ")), &decimal_of(snips.len())),
                &chars_of(" folders use 'Snips'"),
            );
            let ghost cv = decimal(slips.len() as nat) + " folders use 'Slips', "@ + decimal(snips.len() as nat)
                + " folders use 'Snips'"@;
            assert(ctx@ =~= cv);
            if slips.len() >= snips.len() {
                push_term_findings(&mut findings, &snips, "Snips", "Slips", &ctx);
            } else {
                push_term_findings(&mut findings, &slips, "Slips", "Snips", &ctx);
            }
        }
        assert(findings.deep_view() =~= slips_snips(pv));
        let b = buckets_exec(&ps);
        let c0 = b[0].len();
        let c1 = b[1].len();
        let c2 = b[2].len();
        let ghost c = seq![bucket(pv, 0).len(), bucket(pv, 1).len(), bucket(pv, 2).len()];
        proof {
            assert(b[0].deep_view() == bucket(pv, 0));
            assert(b[1].deep_view() == bucket(pv, 1));
            assert(b[2].deep_view() == bucket(pv, 2));
            assert(c[0] == c0 && c[1] == c1 && c[2] == c2);
        }
        let used = (if c0 > 0 { 1usize } else { 0 }) + (if c1 > 0 { 1usize } else { 0 }) + (if c2 > 0 { 1usize } else { 0 });
        let m: usize = if c0 >= c1 && c0 >= c2 {
            0
        } else if c1 >= c2 {
            1
        } else {
            2
        };
        let a: usize = if m == 0 { 1 } else { 0 };
        let bb: usize = if m == 2 { 1 } else { 2 };
        let (x, y) = if b[bb].len() > b[a].len() { (bb, a) } else { (a, bb) };
        proof {
            assert(m == majority(c));
            assert(minorities(c) == (x as nat, y as nat));
        }
        let ghost mid = findings.deep_view();
        if used > 1 {
            push_sep_findings(&mut findings, &b[x], x, m);
            push_sep_findings(&mut findings, &b[y], y, m);
            assert(findings.deep_view() =~= mid + separator_findings(pv));
        } else {
            assert(findings.deep_view() =~= mid + separator_findings(pv));
        }
        findings
    }
}

} // verus!
