//! Parsing of NotePlan notes: tasks, links, IDs, sections, blocks, control
//! notes, and the in-memory note store.
pub mod files;
pub mod filing;
pub mod folder;
pub mod hierarchy;
pub mod link;
pub mod backlog;
pub mod block;
pub mod markdown;
pub mod matcher;
pub mod period;
pub mod projects;
pub mod scoped;
pub mod task;

use vstd::prelude::*;
use crate::models::{Note, NoteV};
use crate::text::{
    chars_of, chars_of_string, concat, contains, contains_str, lowercase, to_lowercase, vec_eq,
};

verus! {

/// Folders excluded from analysis and task rollups: NotePlan's trash,
/// archive, templates and attachments, and the app's control-note folder.
pub open spec fn excluded(p: Seq<char>) -> bool {
    ||| contains(p, "@Trash"@)
    ||| contains(p, "@Archive"@)
    ||| contains(p, "@Templates"@)
    ||| contains(p, "_attachments"@)
    ||| contains(p, "_NotePlan Organizer"@)
}

pub fn excluded_chars(p: &Vec<char>) -> (b: bool)
    ensures
        b == excluded(p@),
{
    contains_str(p, "@Trash") || contains_str(p, "@Archive") || contains_str(p, "@Templates")
        || contains_str(p, "_attachments") || contains_str(p, "_NotePlan Organizer")
}

/// Whether a relative path lies in an excluded folder.
pub fn is_excluded_relative(relative_path: &str) -> (b: bool)
    ensures
        b == excluded(relative_path@),
{
    let p = chars_of(relative_path);
    excluded_chars(&p)
}

/// A collection of parsed notes. The title and path lookups scan `notes`:
/// titles compare by `lowercase`, and a path names its last note.
pub struct NoteStore {
    pub notes: Vec<Note>,
}

/// The indices, ascending, of the notes whose lowercased title is `key`.
pub open spec fn title_hits(nv: Seq<NoteV>, key: Seq<char>) -> Seq<usize>
    decreases nv.len(),
{
    if nv.len() == 0 {
        Seq::empty()
    } else {
        let r = title_hits(nv.drop_last(), key);
        if lowercase(nv.last().title) == key {
            r.push((nv.len() - 1) as usize)
        } else {
            r
        }
    }
}

/// The index of the last note with relative path `p`.
pub open spec fn last_with_path(notes: Seq<Note>, p: Seq<char>) -> Option<int>
    decreases notes.len(),
{
    if notes.len() == 0 {
        None
    } else if notes.last().relative_path@ == p {
        Some(notes.len() - 1)
    } else {
        last_with_path(notes.drop_last(), p)
    }
}

pub proof fn lemma_last_with_path(notes: Seq<Note>, p: Seq<char>)
    ensures
        match last_with_path(notes, p) {
            Some(i) => 0 <= i < notes.len() && notes[i].relative_path@ == p && forall|j: int|
                i < j < notes.len() ==> notes[j].relative_path@ != p,
            None => forall|j: int| 0 <= j < notes.len() ==> notes[j].relative_path@ != p,
        },
    decreases notes.len(),
{
    if notes.len() > 0 {
        lemma_last_with_path(notes.drop_last(), p);
        assert forall|j: int| 0 <= j < notes.len() - 1 implies notes.drop_last()[j] == notes[j] by {}
    }
}

/// The characters of `s` other than `c`.
pub open spec fn remove_char(s: Seq<char>, c: char) -> Seq<char>
    decreases s.len(),
{
    if s.len() == 0 {
        Seq::empty()
    } else if s.last() == c {
        remove_char(s.drop_last(), c)
    } else {
        remove_char(s.drop_last(), c).push(s.last())
    }
}

/// The relative path of the daily note for a `YYYY-MM-DD` date.
pub open spec fn daily_path(date: Seq<char>) -> Seq<char> {
    "Calendar/"@ + remove_char(date, '-') + ".md"@
}

impl NoteStore {
    pub fn new(notes: Vec<Note>) -> (r: Self)
        ensures
            r.notes@ == notes@,
    {
        NoteStore { notes }
    }

    /// Whether a note's lowercased title equals the lowercased `title`.
    pub fn has_note_titled(&self, title: &str) -> (b: bool)
        ensures
            b == exists|i: int|
                0 <= i < self.notes@.len() && lowercase(#[trigger] self.notes@[i].title@)
                    == lowercase(title@),
    {
        let t = to_lowercase(&chars_of(title));
        let mut i: usize = 0;
        while i < self.notes.len()
            invariant
                i <= self.notes.len(),
                t@ == lowercase(title@),
                forall|k: int|
                    0 <= k < i ==> lowercase(#[trigger] self.notes@[k].title@) != lowercase(
                        title@,
                    ),
            decreases self.notes.len() - i,
        {
            let nt = to_lowercase(&chars_of_string(&self.notes[i].title));
            if vec_eq(&nt, &t) {
                return true;
            }
            i += 1;
        }
        false
    }

    /// The indices, ascending, of the notes whose lowercased title equals the
    /// lowercased `title`.
    pub fn title_index(&self, title: &str) -> (r: Vec<usize>)
        ensures
            forall|k: int| 0 <= k < r.len() ==> r[k] < self.notes.len(),
            forall|k: int, l: int| 0 <= k < l < r.len() ==> r[k] < r[l],
            forall|i: int|
                0 <= i < self.notes.len() ==> (r@.contains(i as usize) <==> lowercase(
                    #[trigger] self.notes@[i].title@,
                ) == lowercase(title@)),
            r@ == title_hits(self.notes.deep_view(), lowercase(title@)),
    {
        let ghost nv = self.notes.deep_view();
        let t = to_lowercase(&chars_of(title));
        let mut r: Vec<usize> = Vec::new();
        let mut i: usize = 0;
        while i < self.notes.len()
            invariant
                i <= self.notes.len(),
                t@ == lowercase(title@),
                forall|k: int| 0 <= k < r.len() ==> r[k] < i,
                forall|k: int, l: int| 0 <= k < l < r.len() ==> r[k] < r[l],
                forall|j: int|
                    0 <= j < i ==> (r@.contains(j as usize) <==> lowercase(
                        #[trigger] self.notes@[j].title@,
                    ) == lowercase(title@)),
                nv == self.notes.deep_view(),
                r@ == title_hits(nv.take(i as int), lowercase(title@)),
            decreases self.notes.len() - i,
        {
            proof {
                assert(nv.take(i + 1).drop_last() =~= nv.take(i as int));
                assert(nv[i as int].title == self.notes@[i as int].title@);
            }
            let nt = to_lowercase(&chars_of_string(&self.notes[i].title));
            let ghost r0 = r@;
            if vec_eq(&nt, &t) {
                r.push(i);
            }
            proof {
                assert forall|j: int|
                    0 <= j < i + 1 implies (r@.contains(j as usize) <==> lowercase(
                    #[trigger] self.notes@[j].title@,
                ) == lowercase(title@)) by {
                    if j < i {
                        if r0.contains(j as usize) {
                            let k = choose|k: int| 0 <= k < r0.len() && r0[k] == j as usize;
                            assert(r@[k] == j as usize);
                        }
                        if r@.contains(j as usize) {
                            let k = choose|k: int| 0 <= k < r@.len() && r@[k] == j as usize;
                            assert(k < r0.len());
                            assert(r0[k] == j as usize);
                        }
                    } else {
                        if r@.contains(j as usize) {
                            let k = choose|k: int| 0 <= k < r@.len() && r@[k] == j as usize;
                            if k < r0.len() {
                                assert(r0[k] < i);
                            }
                        }
                        if lowercase(self.notes@[j].title@) == lowercase(title@) {
                            assert(r@[r@.len() - 1] == j as usize);
                        }
                    }
                }
            }
            i += 1;
        }
        assert(nv.take(i as int) =~= nv);
        r
    }

    /// The index of the last note whose relative path is `path`.
    pub fn path_index(&self, path: &str) -> (r: Option<usize>)
        ensures
            r matches Some(i) ==> last_with_path(self.notes@, path@) == Some(i as int),
            r is None ==> last_with_path(self.notes@, path@) is None,
    {
        let p = chars_of(path);
        self.path_index_chars(&p)
    }

    pub fn path_index_chars(&self, p: &Vec<char>) -> (r: Option<usize>)
        ensures
            r matches Some(i) ==> last_with_path(self.notes@, p@) == Some(i as int),
            r is None ==> last_with_path(self.notes@, p@) is None,
    {
        let mut i: usize = self.notes.len();
        assert(self.notes@.take(i as int) =~= self.notes@);
        while i > 0
            invariant
                i <= self.notes.len(),
                last_with_path(self.notes@.take(i as int), p@) == last_with_path(
                    self.notes@,
                    p@,
                ),
            decreases i,
        {
            assert(self.notes@.take(i as int).drop_last() =~= self.notes@.take(i - 1));
            let rp = chars_of_string(&self.notes[i - 1].relative_path);
            if vec_eq(&rp, p) {
                return Some(i - 1);
            }
            i -= 1;
        }
        None
    }

    /// Whether the daily note for a `YYYY-MM-DD` date is in the store
    /// (daily notes live at `Calendar/YYYYMMDD.md`).
    pub fn has_daily_note(&self, date: &str) -> (b: bool)
        ensures
            b == last_with_path(self.notes@, daily_path(date@)) is Some,
    {
        let d = chars_of(date);
        let mut compact: Vec<char> = Vec::new();
        let mut i: usize = 0;
        while i < d.len()
            invariant
                i <= d.len(),
                compact@ == remove_char(d@.take(i as int), '-'),
            decreases d.len() - i,
        {
            assert(d@.take(i + 1).drop_last() =~= d@.take(i as int));
            if d[i] != '-' {
                compact.push(d[i]);
            }
            i += 1;
        }
        assert(d@.take(d.len() as int) =~= d@);
        let path = concat(&concat(&chars_of("Calendar/"), &compact), &chars_of(".md"));
        self.path_index_chars(&path).is_some()
    }

    /// Replace the note with the same relative path (the last such), or
    /// append the note when its path is new.
    pub fn update_note(&mut self, note: Note)
        ensures
            match last_with_path(old(self).notes@, note.relative_path@) {
                Some(i) => final(self).notes@ == old(self).notes@.update(i, note),
                None => final(self).notes@ == old(self).notes@.push(note),
            },
    {
        let p = chars_of_string(&note.relative_path);
        match self.path_index_chars(&p) {
            Some(i) => {
                proof {
                    lemma_last_with_path(self.notes@, p@);
                }
                self.notes.set(i, note);
            },
            None => {
                self.notes.push(note);
            },
        }
    }
}

} // verus!
