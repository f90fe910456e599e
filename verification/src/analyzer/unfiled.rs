//! Unfiled slips: notes whose title still asks for an ID or a title.
use vstd::prelude::*;
use crate::analyzer::{make_finding, Analyzer};
use crate::models::{Finding, FindingCategory, FindingV, NoteKind, NoteV, Severity};
use crate::parser::NoteStore;
use crate::text::{chars_of, chars_of_string, concat, contains, contains_str, lines, split_lines};

verus! {

pub struct UnfiledSlipAnalyzer;

/// The finding for a regular note outside trash, archive and attachments
/// whose title holds `[Add ID]` or `[Add Title]`: a warning when it has more
/// than three lines of content.
pub open spec fn unfiled_of(n: NoteV) -> Option<FindingV> {
    if n.kind != NoteKind::Regular || contains(n.relative_path, "@Trash"@)
        || contains(n.relative_path, "@Archive"@) || contains(n.relative_path, "_attachments"@)
        || !(contains(n.title, "[Add ID]"@) || contains(n.title, "[Add Title]"@)) {
        None
    } else {
        let has_content = lines(n.content).len() > 3;
        Some(
            FindingV {
                severity: if has_content {
                    Severity::Warning
                } else {
                    Severity::Info
                },
                category: FindingCategory::UnfiledSlip,
                file_path: n.relative_path,
                description: "Unfiled slip: '"@ + n.title + "'"@ + if has_content {
                    " (has content that should be filed)"@
                } else {
                    " (appears to be an empty template)"@
                },
                suggestion: Some("Assign a proper JD ID and title, then move to the appropriate folder"@),
                line_number: None,
                context: None,
                is_folder: false,
            },
        )
    }
}

pub open spec fn unfiled_findings(nv: Seq<NoteV>) -> Seq<FindingV>
    decreases nv.len(),
{
    if nv.len() == 0 {
        Seq::empty()
    } else {
        match unfiled_of(nv.last()) {
            Some(f) => unfiled_findings(nv.drop_last()).push(f),
            None => unfiled_findings(nv.drop_last()),
        }
    }
}

impl Analyzer for UnfiledSlipAnalyzer {
    fn analyze(&self, store: &NoteStore) -> (r: Vec<Finding>)
        ensures
            r.deep_view() == unfiled_findings(store.notes.deep_view()),
    {
        let ghost nv = store.notes.deep_view();
        let mut findings: Vec<Finding> = Vec::new();
        let mut i: usize = 0;
        while i < store.notes.len()
            invariant
                i <= store.notes.len(),
                nv == store.notes.deep_view(),
                findings.deep_view() == unfiled_findings(nv.take(i as int)),
            decreases store.notes.len() - i,
        {
            proof {
                assert(nv.take(i + 1).drop_last() =~= nv.take(i as int));
                assert(nv[i as int] == store.notes[i as int].deep_view());
            }
            let note = &store.notes[i];
            let rp = chars_of_string(&note.relative_path);
            let title = chars_of_string(&note.title);
            let skip = note.kind != NoteKind::Regular || contains_str(&rp, "@Trash")
                || contains_str(&rp, "@Archive") || contains_str(&rp, "_attachments");
            if !skip && (contains_str(&title, "[Add ID]") || contains_str(&title, "[Add Title]")) {
                let has_content = split_lines(&chars_of_string(&note.content)).len() > 3;
                let tail = if has_content {
                    chars_of(" (has content that should be filed)")
                } else {
                    chars_of(" (appears to be an empty template)")
                };
                let desc = concat(&concat(&concat(&chars_of("Unfiled slip: '"), &title), &chars_of("'")), &tail);
                let f = make_finding(
                    if has_content { Severity::Warning } else { Severity::Info },
                    FindingCategory::UnfiledSlip,
                    &rp,
                    &desc,
                    Some(chars_of("Assign a proper JD ID and title, then move to the appropriate folder")),
                    None,
                    false,
                );
                let ghost f0 = findings.deep_view();
                proof {
                    assert(desc@ =~= unfiled_of(nv[i as int])->0.description);
                }
                findings.push(f);
                assert(findings.deep_view() =~= f0.push(unfiled_of(nv[i as int])->0));
            }
            i += 1;
        }
        assert(nv.take(i as int) =~= nv);
        findings
    }
}

} // verus!
