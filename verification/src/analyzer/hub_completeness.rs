//! Hub completeness: empty hub sections and unfilled placeholders in hub
//! notes.
use vstd::prelude::*;
use crate::analyzer::{
    count_hub_sections, hub_like, hub_section_count, hub_section_names, hub_sections, is_hub_like,
    is_special_folder, make_finding, special_folder, Analyzer,
};
use crate::models::{Finding, FindingCategory, FindingV, NoteKind, NoteV, SectionV, Severity};
use crate::parser::NoteStore;
use crate::text::{chars_of, chars_of_string, concat, decimal, decimal_of, eq_str, join, join_vec};

verus! {

pub struct HubCompletenessAnalyzer;

/// A hub note: regular, outside the special folders, with at least two
/// hub-like sections.
pub open spec fn is_hub_note(n: NoteV) -> bool {
    n.kind == NoteKind::Regular && !special_folder(n.relative_path) && hub_section_count(n.sections) >= 2
}

pub open spec fn empty_section(n: NoteV, s: SectionV) -> FindingV {
    FindingV {
        severity: Severity::Info,
        category: FindingCategory::HubCompleteness,
        file_path: n.relative_path,
        description: "Hub note has empty section: '## "@ + s.heading + "'"@,
        suggestion: Some("Fill in the '"@ + s.heading + "' section or remove it if not applicable"@),
        line_number: Some(s.line_number),
        context: None,
        is_folder: false,
    }
}

/// The empty hub-like sections of a hub note (a `Tags` section aside).
pub open spec fn empty_sections(n: NoteV, ss: Seq<SectionV>) -> Seq<FindingV>
    decreases ss.len(),
{
    if ss.len() == 0 {
        Seq::empty()
    } else {
        let s = ss.last();
        if s.is_empty && hub_like(s.heading) && s.heading != "Tags"@ {
            empty_sections(n, ss.drop_last()).push(empty_section(n, s))
        } else {
            empty_sections(n, ss.drop_last())
        }
    }
}

pub open spec fn placeholder_finding(n: NoteV) -> FindingV {
    FindingV {
        severity: Severity::Warning,
        category: FindingCategory::HubCompleteness,
        file_path: n.relative_path,
        description: "Hub note contains "@ + decimal(n.placeholders.len()) + " unfilled placeholder(s): "@
            + join(n.placeholders, ", "@),
        suggestion: Some("Replace placeholder text with actual content"@),
        line_number: None,
        context: Some(join(n.placeholders, ", "@)),
        is_folder: false,
    }
}

pub open spec fn hub_note_findings(n: NoteV) -> Seq<FindingV> {
    if !is_hub_note(n) {
        Seq::empty()
    } else if n.placeholders.len() > 0 {
        empty_sections(n, n.sections).push(placeholder_finding(n))
    } else {
        empty_sections(n, n.sections)
    }
}

/// What the analyzer reports for the notes `nv`.
pub open spec fn hub_findings(nv: Seq<NoteV>) -> Seq<FindingV>
    decreases nv.len(),
{
    if nv.len() == 0 {
        Seq::empty()
    } else {
        hub_findings(nv.drop_last()) + hub_note_findings(nv.last())
    }
}

fn hub_note_check(note: &crate::models::Note, names: &Vec<Vec<char>>, findings: &mut Vec<Finding>)
    requires
        names.deep_view() == hub_sections(),
    ensures
        final(findings).deep_view() == old(findings).deep_view() + hub_note_findings(note.deep_view()),
{
    let ghost base = findings.deep_view();
    let ghost n = note.deep_view();
    let rp = chars_of_string(&note.relative_path);
    if note.kind != NoteKind::Regular || is_special_folder(&rp) || count_hub_sections(&note.sections, names) < 2 {
        assert(findings.deep_view() =~= base + hub_note_findings(n));
        return;
    }
    let ghost sv = note.sections.deep_view();
    let mut i: usize = 0;
    while i < note.sections.len()
        invariant
            i <= note.sections.len(),
            sv == note.sections.deep_view(),
            n == note.deep_view(),
            rp@ == note.relative_path@,
            names.deep_view() == hub_sections(),
            findings.deep_view() == base + empty_sections(n, sv.take(i as int)),
        decreases note.sections.len() - i,
    {
        proof {
            assert(sv.take(i + 1).drop_last() =~= sv.take(i as int));
            assert(sv[i as int] == note.sections[i as int].deep_view());
        }
        let sec = &note.sections[i];
        let h = chars_of_string(&sec.heading);
        if sec.is_empty && is_hub_like(&h, names) && !eq_str(&h, "Tags") {
            let desc = concat(&concat(&chars_of("Hub note has empty section: '## "), &h), &chars_of("'"));
            let sugg = concat(
                &concat(&chars_of("Fill in the '"), &h),
                &chars_of("' section or remove it if not applicable"),
            );
            let mut f = make_finding(
                Severity::Info,
                FindingCategory::HubCompleteness,
                &rp,
                &desc,
                Some(sugg),
                None,
                false,
            );
            f.line_number = Some(sec.line_number);
            let ghost f0 = findings.deep_view();
            proof {
                let e = empty_section(n, sv[i as int]);
                assert(desc@ =~= e.description);
                assert(sugg@ =~= e.suggestion->0);
                assert(f.deep_view() == e);
            }
            findings.push(f);
            assert(findings.deep_view() =~= f0.push(empty_section(n, sv[i as int])));
        }
        i += 1;
    }
    assert(sv.take(i as int) =~= sv);
    if note.placeholders.len() > 0 {
        let mut parts: Vec<Vec<char>> = Vec::new();
        let mut q: usize = 0;
        while q < note.placeholders.len()
            invariant
                q <= note.placeholders.len(),
                parts.deep_view() == note.placeholders.deep_view().take(q as int),
            decreases note.placeholders.len() - q,
        {
            let c = chars_of_string(&note.placeholders[q]);
            let ghost p0 = parts.deep_view();
            proof {
                crate::text::lemma_deep_chars(c);
            }
            parts.push(c);
            assert(parts.deep_view() =~= p0.push(note.placeholders.deep_view()[q as int]));
            assert(note.placeholders.deep_view().take(q + 1) =~= note.placeholders.deep_view().take(q as int).push(
                note.placeholders.deep_view()[q as int],
            ));
            q += 1;
        }
        assert(note.placeholders.deep_view().take(q as int) =~= note.placeholders.deep_view());
        let joined = join_vec(&parts, &chars_of(", "));
        let desc = concat(
            &concat(&concat(&chars_of("Hub note contains "), &decimal_of(note.placeholders.len())), &chars_of(" unfilled placeholder(s): ")),
            &joined,
        );
        let f = make_finding(
            Severity::Warning,
            FindingCategory::HubCompleteness,
            &rp,
            &desc,
            Some(chars_of("Replace placeholder text with actual content")),
            Some(joined.clone()),
            false,
        );
        let ghost f0 = findings.deep_view();
        proof {
            assert(desc@ =~= placeholder_finding(n).description);
        }
        findings.push(f);
        assert(findings.deep_view() =~= f0.push(placeholder_finding(n)));
    }
}

impl Analyzer for HubCompletenessAnalyzer {
    fn analyze(&self, store: &NoteStore) -> (r: Vec<Finding>)
        ensures
            r.deep_view() == hub_findings(store.notes.deep_view()),
    {
        let ghost nv = store.notes.deep_view();
        let names = hub_section_names();
        let mut findings: Vec<Finding> = Vec::new();
        let mut i: usize = 0;
        while i < store.notes.len()
            invariant
                i <= store.notes.len(),
                nv == store.notes.deep_view(),
                names.deep_view() == hub_sections(),
                findings.deep_view() == hub_findings(nv.take(i as int)),
            decreases store.notes.len() - i,
        {
            proof {
                assert(nv.take(i + 1).drop_last() =~= nv.take(i as int));
                assert(nv[i as int] == store.notes[i as int].deep_view());
            }
            hub_note_check(&store.notes[i], &names, &mut findings);
            i += 1;
        }
        assert(nv.take(i as int) =~= nv);
        findings
    }
}

} // verus!
