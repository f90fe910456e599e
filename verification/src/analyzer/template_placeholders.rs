//! Template placeholders: notes whose title still holds template text.
use vstd::prelude::*;
use crate::analyzer::{make_finding, Analyzer};
use crate::models::{Finding, FindingCategory, FindingV, NoteKind, NoteV, Severity};
use crate::parser::NoteStore;
use crate::text::{chars_of, chars_of_string, concat, contains, contains_str};

verus! {

pub struct TemplatePlaceholderAnalyzer;

/// A title that still holds one of the templates' placeholders.
pub open spec fn template_title(t: Seq<char>) -> bool {
    ||| contains(t, "[Project Name]"@)
    ||| contains(t, "[Project Version]"@)
    ||| contains(t, "[Category]"@)
    ||| contains(t, "[Domain Name]"@)
}

/// The finding for a note outside templates, trash and attachments whose
/// title still holds a placeholder.
pub open spec fn placeholder_of(n: NoteV) -> Option<FindingV> {
    if n.kind == NoteKind::Template || contains(n.relative_path, "@Templates"@)
        || contains(n.relative_path, "@Trash"@) || contains(n.relative_path, "_attachments"@)
        || !template_title(n.title) {
        None
    } else {
        Some(
            FindingV {
                severity: Severity::Warning,
                category: FindingCategory::TemplatePlaceholder,
                file_path: n.relative_path,
                description: "Note created from template but never renamed: '"@ + n.title + "'"@,
                suggestion: Some("Rename this note with actual content or delete if unused"@),
                line_number: None,
                context: None,
                is_folder: false,
            },
        )
    }
}

pub open spec fn placeholder_findings(nv: Seq<NoteV>) -> Seq<FindingV>
    decreases nv.len(),
{
    if nv.len() == 0 {
        Seq::empty()
    } else {
        match placeholder_of(nv.last()) {
            Some(f) => placeholder_findings(nv.drop_last()).push(f),
            None => placeholder_findings(nv.drop_last()),
        }
    }
}

impl Analyzer for TemplatePlaceholderAnalyzer {
    fn analyze(&self, store: &NoteStore) -> (r: Vec<Finding>)
        ensures
            r.deep_view() == placeholder_findings(store.notes.deep_view()),
    {
        let ghost nv = store.notes.deep_view();
        let mut findings: Vec<Finding> = Vec::new();
        let mut i: usize = 0;
        while i < store.notes.len()
            invariant
                i <= store.notes.len(),
                nv == store.notes.deep_view(),
                findings.deep_view() == placeholder_findings(nv.take(i as int)),
            decreases store.notes.len() - i,
        {
            proof {
                assert(nv.take(i + 1).drop_last() =~= nv.take(i as int));
                assert(nv[i as int] == store.notes[i as int].deep_view());
            }
            let note = &store.notes[i];
            let rp = chars_of_string(&note.relative_path);
            let title = chars_of_string(&note.title);
            let skip = note.kind == NoteKind::Template || contains_str(&rp, "@Templates")
                || contains_str(&rp, "@Trash") || contains_str(&rp, "_attachments");
            if !skip && (contains_str(&title, "[Project Name]") || contains_str(&title, "[Project Version]")
                || contains_str(&title, "[Category]") || contains_str(&title, "[Domain Name]")) {
                let desc = concat(&concat(&chars_of("Note created from template but never renamed: '"), &title), &chars_of("'"));
                let f = make_finding(
                    Severity::Warning,
                    FindingCategory::TemplatePlaceholder,
                    &rp,
                    &desc,
                    Some(chars_of("Rename this note with actual content or delete if unused")),
                    None,
                    false,
                );
                let ghost f0 = findings.deep_view();
                findings.push(f);
                assert(findings.deep_view() =~= f0.push(placeholder_of(nv[i as int])->0));
            }
            i += 1;
        }
        assert(nv.take(i as int) =~= nv);
        findings
    }
}

} // verus!
