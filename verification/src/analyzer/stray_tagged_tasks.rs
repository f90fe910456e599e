//! Stray tagged tasks: open or scheduled tasks carrying a tag some context
//! declares, in a regular note outside every listed project folder.
use vstd::prelude::*;
use crate::analyzer::{make_finding, Analyzer};
use crate::models::{Finding, FindingCategory, FindingV, NoteKind, NoteV, Severity, TaskState, TaskV};
use crate::parser::backlog::{in_any_folder, under_folder, is_under_folder};
use crate::parser::projects::{context_folders, context_tags, folders_state, tag_scoped, tag_scoped_by, tags_state};
use crate::parser::{excluded, is_excluded_relative, NoteStore};
use crate::text::{
    chars_of, chars_of_string, concat, decimal, decimal_of, join, join_vec, lemma_deep_chars,
    lowercase, slice_vec, string_of, to_lowercase,
};

verus! {

pub struct StrayTaggedTaskAnalyzer;

/// Every second component of the pairs, flattened in order.
pub open spec fn flatten_seconds(cs: Seq<(Seq<char>, Seq<Seq<char>>)>) -> Seq<Seq<char>>
    decreases cs.len(),
{
    if cs.len() == 0 {
        Seq::empty()
    } else {
        flatten_seconds(cs.drop_last()) + cs.last().1
    }
}

/// A text cut to `max` characters, with `…` when it was longer.
pub open spec fn truncated(s: Seq<char>, max: nat) -> Seq<char> {
    if s.len() <= max {
        s
    } else {
        s.take(max as int) + seq!['…']
    }
}

/// Whether a task tag, lowercased, is scoped by one of the declared tags.
pub open spec fn tag_declared(tag: Seq<char>, declared: Seq<Seq<char>>) -> bool {
    exists|i: int| 0 <= i < declared.len() && #[trigger] tag_scoped(lowercase(tag), declared[i])
}

/// A stray task: open or scheduled, with a declared tag.
pub open spec fn is_stray(t: TaskV, declared: Seq<Seq<char>>) -> bool {
    &&& t.state == TaskState::Open || t.state == TaskState::Scheduled
    &&& exists|j: int| 0 <= j < t.tags.len() && #[trigger] tag_declared(t.tags[j], declared)
}

pub open spec fn stray_tasks(ts: Seq<TaskV>, declared: Seq<Seq<char>>) -> Seq<TaskV>
    decreases ts.len(),
{
    if ts.len() == 0 {
        Seq::empty()
    } else if is_stray(ts.last(), declared) {
        stray_tasks(ts.drop_last(), declared).push(ts.last())
    } else {
        stray_tasks(ts.drop_last(), declared)
    }
}

pub open spec fn stray_finding(n: NoteV, st: Seq<TaskV>) -> FindingV {
    let texts = st.map_values(|t: TaskV| t.text);
    FindingV {
        severity: Severity::Info,
        category: FindingCategory::StrayTaggedTask,
        file_path: n.relative_path,
        description: decimal(st.len()) + " tagged task(s) here match a context but this note isn't in a listed project folder: "@
            + truncated(join(texts, "; "@), 100),
        suggestion: Some("Add this note's folder to #np-projects so its tasks join a context."@),
        line_number: Some(st[0].line_number),
        context: Some(join(texts, seq!['\n'])),
        is_folder: false,
    }
}

/// The finding for a note, if it is a regular note outside the listed
/// folders with stray tasks.
pub open spec fn stray_of(n: NoteV, declared: Seq<Seq<char>>, listed: Seq<Seq<char>>) -> Option<FindingV> {
    if excluded(n.relative_path) || n.kind != NoteKind::Regular || in_any_folder(n.relative_path, listed) {
        None
    } else if stray_tasks(n.tasks, declared).len() == 0 {
        None
    } else {
        Some(stray_finding(n, stray_tasks(n.tasks, declared)))
    }
}

pub open spec fn stray_findings(nv: Seq<NoteV>, declared: Seq<Seq<char>>, listed: Seq<Seq<char>>) -> Seq<FindingV>
    decreases nv.len(),
{
    if declared.len() == 0 || nv.len() == 0 {
        Seq::empty()
    } else {
        match stray_of(nv.last(), declared, listed) {
            Some(f) => stray_findings(nv.drop_last(), declared, listed).push(f),
            None => stray_findings(nv.drop_last(), declared, listed),
        }
    }
}

/// What the analyzer reports for the notes `nv`, with the declared tags and
/// listed folders of the `#np-projects` note.
pub open spec fn stray_result(nv: Seq<NoteV>, r: Seq<FindingV>) -> bool {
    exists|ct: Seq<(Seq<char>, Seq<Seq<char>>)>, cf: Seq<(Seq<char>, Seq<Seq<char>>)>|
        tags_state(nv, ct) && folders_state(nv, cf)
            && #[trigger] stray_findings(nv, flatten_seconds(ct), flatten_seconds(cf)) == r
}

fn flatten_exec(cs: &Vec<(String, Vec<String>)>) -> (r: Vec<String>)
    ensures
        r.deep_view() == flatten_seconds(cs.deep_view()),
{
    let mut out: Vec<String> = Vec::new();
    let mut i: usize = 0;
    while i < cs.len()
        invariant
            i <= cs.len(),
            out.deep_view() == flatten_seconds(cs.deep_view().take(i as int)),
        decreases cs.len() - i,
    {
        assert(cs.deep_view().take(i + 1).drop_last() =~= cs.deep_view().take(i as int));
        assert(cs.deep_view()[i as int] == cs[i as int].deep_view());
        let ghost base = out.deep_view();
        let mut k: usize = 0;
        while k < cs[i].1.len()
            invariant
                k <= cs[i as int].1.len(),
                i < cs.len(),
                out.deep_view() == base + cs[i as int].1.deep_view().take(k as int),
            decreases cs[i as int].1.len() - k,
        {
            let ghost o0 = out.deep_view();
            out.push(string_of(&chars_of_string(&cs[i].1[k])));
            assert(out.deep_view() =~= o0.push(cs[i as int].1[k as int]@));
            assert(cs[i as int].1.deep_view().take(k + 1) =~= cs[i as int].1.deep_view().take(k as int).push(cs[i as int].1[k as int]@));
            k += 1;
        }
        assert(cs[i as int].1.deep_view().take(k as int) =~= cs[i as int].1.deep_view());
        i += 1;
    }
    assert(cs.deep_view().take(i as int) =~= cs.deep_view());
    out
}

fn tag_declared_exec(tag: &String, declared: &Vec<String>) -> (b: bool)
    ensures
        b == tag_declared(tag@, declared.deep_view()),
{
    let lc = string_of(&to_lowercase(&chars_of_string(tag)));
    let mut i: usize = 0;
    while i < declared.len()
        invariant
            i <= declared.len(),
            lc@ == lowercase(tag@),
            forall|q: int| 0 <= q < i ==> !#[trigger] tag_scoped(lowercase(tag@), declared.deep_view()[q]),
        decreases declared.len() - i,
    {
        assert(declared.deep_view()[i as int] == declared[i as int]@);
        if tag_scoped_by(lc.as_str(), declared[i].as_str()) {
            return true;
        }
        i += 1;
    }
    false
}

fn truncate(s: &Vec<char>, max: usize) -> (r: Vec<char>)
    ensures
        r@ == truncated(s@, max as nat),
{
    if s.len() <= max {
        s.clone()
    } else {
        let mut t = slice_vec(s, 0, max);
        t.push('…');
        assert(t@ =~= s@.take(max as int) + seq!['…']);
        t
    }
}

fn stray_check(note: &crate::models::Note, declared: &Vec<String>, listed: &Vec<String>) -> (r: Option<Finding>)
    ensures
        r.deep_view() == stray_of(note.deep_view(), declared.deep_view(), listed.deep_view()),
{
    if is_excluded_relative(note.relative_path.as_str()) || note.kind != NoteKind::Regular {
        return None;
    }
    let mut i: usize = 0;
    let mut in_listed = false;
    while i < listed.len()
        invariant
            i <= listed.len(),
            in_listed == exists|q: int| 0 <= q < i && #[trigger] under_folder(note.relative_path@, listed.deep_view()[q]),
        decreases listed.len() - i,
    {
        assert(listed.deep_view()[i as int] == listed[i as int]@);
        if is_under_folder(note.relative_path.as_str(), listed[i].as_str()) {
            in_listed = true;
        }
        i += 1;
    }
    if in_listed {
        return None;
    }
    let ghost tv = note.tasks.deep_view();
    let mut lines: Vec<usize> = Vec::new();
    let mut texts: Vec<Vec<char>> = Vec::new();
    let mut t: usize = 0;
    while t < note.tasks.len()
        invariant
            t <= note.tasks.len(),
            tv == note.tasks.deep_view(),
            texts.deep_view() == stray_tasks(tv.take(t as int), declared.deep_view()).map_values(|x: TaskV| x.text),
            lines.len() == texts.len(),
            lines.len() > 0 ==> lines[0] == stray_tasks(tv.take(t as int), declared.deep_view())[0].line_number,
            texts.len() == stray_tasks(tv.take(t as int), declared.deep_view()).len(),
        decreases note.tasks.len() - t,
    {
        let task = &note.tasks[t];
        assert(tv[t as int] == task.deep_view());
        assert(tv.take(t + 1).drop_last() =~= tv.take(t as int));
        let state_ok = task.state == TaskState::Open || task.state == TaskState::Scheduled;
        let mut tagged = false;
        let mut j: usize = 0;
        while j < task.tags.len()
            invariant
                j <= task.tags.len(),
                tagged == exists|q: int| 0 <= q < j && #[trigger] tag_declared(task.tags.deep_view()[q], declared.deep_view()),
            decreases task.tags.len() - j,
        {
            assert(task.tags.deep_view()[j as int] == task.tags[j as int]@);
            if tag_declared_exec(&task.tags[j], declared) {
                tagged = true;
            }
            j += 1;
        }
        if state_ok && tagged {
            let ghost s0 = stray_tasks(tv.take(t as int), declared.deep_view());
            let ghost x0 = texts.deep_view();
            let x = chars_of_string(&task.text);
            proof {
                lemma_deep_chars(x);
            }
            let ghost xv = x@;
            texts.push(x);
            lines.push(task.line_number);
            assert(tv[t as int].tags == task.tags.deep_view());
            assert(is_stray(tv[t as int], declared.deep_view()));
            assert(tv.take(t + 1).last() == tv[t as int]);
            assert(stray_tasks(tv.take(t + 1), declared.deep_view()) == s0.push(tv[t as int]));
            assert(texts.deep_view() =~= x0.push(xv));
            assert(texts.deep_view() =~= s0.push(tv[t as int]).map_values(|x: TaskV| x.text));
            if lines.len() > 1 {
                assert(s0.push(tv[t as int])[0] == s0[0]);
            }
        }
        else {
            assert(tv[t as int].tags == task.tags.deep_view());
            assert(!is_stray(tv[t as int], declared.deep_view()));
            assert(tv.take(t + 1).last() == tv[t as int]);
        }
        t += 1;
    }
    assert(tv.take(t as int) =~= tv);
    if texts.len() == 0 {
        return None;
    }
    let mut semi: Vec<char> = Vec::new();
    semi.push(';');
    semi.push(' ');
    let mut nl: Vec<char> = Vec::new();
    nl.push('\n');
    proof {
        reveal_strlit("; ");
        assert(semi@ =~= "; "@);
        assert(nl@ =~= seq!['\n']);
    }
    let joined = join_vec(&texts, &semi);
    let desc = concat(
        &concat(&decimal_of(texts.len()), &chars_of(" tagged task(s) here match a context but this note isn't in a listed project folder: ")),
        &truncate(&joined, 100),
    );
    let mut f = make_finding(
        Severity::Info,
        FindingCategory::StrayTaggedTask,
        &chars_of_string(&note.relative_path),
        &desc,
        Some(chars_of("Add this note's folder to #np-projects so its tasks join a context.")),
        Some(join_vec(&texts, &nl)),
        false,
    );
    f.line_number = Some(lines[0]);
    Some(f)
}

impl Analyzer for StrayTaggedTaskAnalyzer {
    fn analyze(&self, store: &NoteStore) -> (r: Vec<Finding>)
        ensures
            store.notes.len() < usize::MAX ==> stray_result(store.notes.deep_view(), r.deep_view()),
    {
        if store.notes.len() == usize::MAX {
            return Vec::new();
        }
        let ghost nv = store.notes.deep_view();
        let ct = context_tags(store);
        let cf = context_folders(store);
        let declared = flatten_exec(&ct);
        let listed = flatten_exec(&cf);
        let mut findings: Vec<Finding> = Vec::new();
        if declared.len() == 0 {
            assert(findings.deep_view() =~= stray_findings(nv, declared.deep_view(), listed.deep_view()));
            assert(stray_findings(nv, flatten_seconds(ct.deep_view()), flatten_seconds(cf.deep_view())) == findings.deep_view());
            return findings;
        }
        let mut i: usize = 0;
        while i < store.notes.len()
            invariant
                i <= store.notes.len(),
                nv == store.notes.deep_view(),
                declared.len() > 0,
                findings.deep_view() == stray_findings(nv.take(i as int), declared.deep_view(), listed.deep_view()),
            decreases store.notes.len() - i,
        {
            assert(nv[i as int] == store.notes[i as int].deep_view());
            assert(nv.take(i + 1).drop_last() =~= nv.take(i as int));
            match stray_check(&store.notes[i], &declared, &listed) {
                Some(f) => {
                    let ghost f0 = findings.deep_view();
                    let ghost fv = f.deep_view();
                    findings.push(f);
                    assert(findings.deep_view() =~= f0.push(fv));
                },
                None => {},
            }
            i += 1;
        }
        assert(nv.take(i as int) =~= nv);
        assert(stray_findings(nv, flatten_seconds(ct.deep_view()), flatten_seconds(cf.deep_view())) == findings.deep_view());
        findings
    }
}

/// Whether `idx` lists, in increasing order, exactly the notes with stray
/// tagged tasks, and `fs` holds their findings in that order.
pub open spec fn strays_from(nv: Seq<NoteV>, declared: Seq<Seq<char>>, listed: Seq<Seq<char>>, idx: Seq<int>, fs: Seq<FindingV>) -> bool {
    &&& idx.len() == fs.len()
    &&& forall|k: int| 0 <= k < idx.len() ==> 0 <= #[trigger] idx[k] < nv.len()
        && stray_of(nv[idx[k]], declared, listed) == Some(fs[k]) && fs[k].severity == Severity::Info
    &&& forall|k1: int, k2: int| 0 <= k1 < k2 < idx.len() ==> #[trigger] idx[k1] < #[trigger] idx[k2]
    &&& forall|i: int| 0 <= i < nv.len() && (#[trigger] stray_of(nv[i], declared, listed)) is Some ==> idx.contains(i)
}

/// With no declared context tags there are no findings; otherwise there is
/// one Info finding per regular note outside the excluded and listed folders
/// that has open or scheduled tasks carrying a declared tag, in note order.
pub proof fn lemma_stray_findings_law(nv: Seq<NoteV>, declared: Seq<Seq<char>>, listed: Seq<Seq<char>>)
    ensures
        declared.len() == 0 ==> stray_findings(nv, declared, listed).len() == 0,
        declared.len() > 0 ==> exists|idx: Seq<int>| #[trigger] strays_from(nv, declared, listed, idx, stray_findings(nv, declared, listed)),
    decreases nv.len(),
{
    if declared.len() > 0 {
        if nv.len() == 0 {
            assert(strays_from(nv, declared, listed, Seq::empty(), stray_findings(nv, declared, listed)));
        } else {
            let d = nv.drop_last();
            lemma_stray_findings_law(d, declared, listed);
            let idx0 = choose|idx: Seq<int>| #[trigger] strays_from(d, declared, listed, idx, stray_findings(d, declared, listed));
            let n = nv.len() - 1;
            let idx = if stray_of(nv[n], declared, listed) is Some { idx0.push(n) } else { idx0 };
            let fs = stray_findings(nv, declared, listed);
            assert forall|k: int| 0 <= k < idx.len() implies 0 <= #[trigger] idx[k] < nv.len()
                && stray_of(nv[idx[k]], declared, listed) == Some(fs[k]) && fs[k].severity == Severity::Info by {
                if k < idx0.len() {
                    assert(idx[k] == idx0[k]);
                    assert(nv[idx0[k]] == d[idx0[k]]);
                    assert(fs[k] == stray_findings(d, declared, listed)[k]);
                }
            }
            assert forall|k1: int, k2: int| 0 <= k1 < k2 < idx.len() implies #[trigger] idx[k1] < #[trigger] idx[k2] by {
                assert(idx[k1] == idx0[k1]);
                if k2 < idx0.len() {
                    assert(idx[k2] == idx0[k2]);
                }
            }
            assert forall|i: int| 0 <= i < nv.len() && (#[trigger] stray_of(nv[i], declared, listed)) is Some implies idx.contains(i) by {
                if i < n {
                    assert(nv[i] == d[i]);
                    assert(stray_of(d[i], declared, listed) is Some);
                    let k = choose|k: int| 0 <= k < idx0.len() && idx0[k] == i;
                    assert(idx[k] == i);
                } else {
                    assert(idx[idx.len() - 1] == i);
                }
            }
            assert(strays_from(nv, declared, listed, idx, fs));
        }
    }
}

} // verus!
