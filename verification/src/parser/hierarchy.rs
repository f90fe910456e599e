//! The Johnny Decimal folder hierarchy reconstructed from note paths.
use vstd::prelude::*;
use crate::analyzer::{is_special_folder, special_folder};
use crate::models::{Note, NoteKind, NoteV};
use crate::parser::folder::{jd_id, jd_id_chars};
use crate::parser::NoteStore;
use crate::text::{
    chars_of, chars_of_string, eq_str, lemma_deep_chars, lt_chars, seq_lt, split_on, split_vec,
    string_of, vec_eq,
};

verus! {

/// A folder of the hierarchy: its name, ID, the notes directly in it, and
/// its subfolders sorted by name.
#[derive(Debug)]
pub struct JdNode {
    pub name: String,
    pub jd_id: Option<String>,
    pub note_count: usize,
    pub children: Vec<JdNode>,
}

/// Aggregate statistics of a top-level area.
#[derive(Debug)]
pub struct AreaStats {
    pub folder_name: String,
    pub jd_id: Option<String>,
    pub total_notes: usize,
    pub category_count: usize,
    pub max_depth: usize,
}

/// The hierarchy: the `Notes` root (whose children are the areas) and the
/// statistics of each area.
pub struct JdHierarchy {
    pub root: JdNode,
    pub areas: Vec<AreaStats>,
}

/// How many of the folder paths are empty (notes directly in the folder).
pub open spec fn empties(ps: Seq<Seq<Seq<char>>>) -> nat
    decreases ps.len(),
{
    if ps.len() == 0 {
        0
    } else {
        empties(ps.drop_last()) + if ps.last().len() == 0 {
            1nat
        } else {
            0nat
        }
    }
}

/// `c` added to the sorted, duplicate-free names `s`.
pub open spec fn insert_name(s: Seq<Seq<char>>, c: Seq<char>) -> Seq<Seq<char>> {
    if s.contains(c) {
        s
    } else {
        s.insert(name_pos(s, c), c)
    }
}

/// Where name `c` goes in the sorted names `s`.
pub open spec fn name_pos(s: Seq<Seq<char>>, c: Seq<char>) -> int
    decreases s.len(),
{
    if s.len() == 0 || seq_lt(c, s[0]) {
        0
    } else {
        1 + name_pos(s.drop_first(), c)
    }
}

/// The sorted distinct first components of the non-empty paths.
pub open spec fn child_names(ps: Seq<Seq<Seq<char>>>) -> Seq<Seq<char>>
    decreases ps.len(),
{
    if ps.len() == 0 {
        Seq::empty()
    } else if ps.last().len() == 0 {
        child_names(ps.drop_last())
    } else {
        insert_name(child_names(ps.drop_last()), ps.last()[0])
    }
}

/// The remainders of the paths that go through child `c`.
pub open spec fn under(ps: Seq<Seq<Seq<char>>>, c: Seq<char>) -> Seq<Seq<Seq<char>>>
    decreases ps.len(),
{
    if ps.len() == 0 {
        Seq::empty()
    } else if ps.last().len() > 0 && ps.last()[0] == c {
        under(ps.drop_last(), c).push(ps.last().drop_first())
    } else {
        under(ps.drop_last(), c)
    }
}

/// Whether `n` is the folder `name` holding the notes at paths `ps` (below
/// it), built to depth `fuel`.
pub open spec fn node_ok(n: JdNode, name: Seq<char>, ps: Seq<Seq<Seq<char>>>, fuel: nat) -> bool
    decreases fuel, 0int,
{
    &&& n.name@ == name
    &&& n.jd_id.deep_view() == jd_id(name)
    &&& n.note_count == empties(ps)
    &&& if fuel == 0 {
        n.children@.len() == 0
    } else {
        nodes_ok(n.children@, child_names(ps), ps, (fuel - 1) as nat)
    }
}

/// Whether `cs` are the folders `names` of the paths `ps`.
pub open spec fn nodes_ok(cs: Seq<JdNode>, names: Seq<Seq<char>>, ps: Seq<Seq<Seq<char>>>, fuel: nat) -> bool
    decreases fuel, 1int, cs.len(),
{
    &&& cs.len() == names.len()
    &&& if cs.len() == 0 {
        true
    } else {
        nodes_ok(cs.drop_last(), names.drop_last(), ps, fuel) && node_ok(cs.last(), names.last(), under(ps, names.last()), fuel)
    }
}


/// Notes in this folder and in all folders below it.
pub open spec fn deep_count(n: JdNode) -> nat
    decreases n, 0int,
{
    (n.note_count + children_count(n.children@)) as nat
}

/// Notes in the folders `cs` and below them.
pub open spec fn children_count(cs: Seq<JdNode>) -> nat
    decreases cs, 1int,
{
    if cs.len() == 0 {
        0
    } else {
        children_count(cs.drop_last()) + deep_count(cs.last())
    }
}

/// Levels of folders below this one (0 for a leaf).
pub open spec fn max_depth(n: JdNode) -> nat
    decreases n, 0int,
{
    if n.children@.len() == 0 {
        0
    } else {
        1 + max_child_depth(n.children@)
    }
}

/// The largest depth among the folders `cs`.
pub open spec fn max_child_depth(cs: Seq<JdNode>) -> nat
    decreases cs, 1int,
{
    if cs.len() == 0 {
        0
    } else {
        let a = max_child_depth(cs.drop_last());
        let b = max_depth(cs.last());
        if a >= b {
            a
        } else {
            b
        }
    }
}


/// The number of notes the names `names` account for in the paths `ps`.
pub open spec fn sum_under(ps: Seq<Seq<Seq<char>>>, names: Seq<Seq<char>>) -> nat
    decreases names.len(),
{
    if names.len() == 0 {
        0
    } else {
        sum_under(ps, names.drop_last()) + under(ps, names.last()).len()
    }
}

/// Every path of `ps` is at most `k` folders long.
pub open spec fn paths_within(ps: Seq<Seq<Seq<char>>>, k: nat) -> bool {
    forall|i: int| 0 <= i < ps.len() ==> #[trigger] ps[i].len() <= k
}

proof fn lemma_name_pos(s: Seq<Seq<char>>, c: Seq<char>)
    ensures
        0 <= name_pos(s, c) <= s.len(),
    decreases s.len(),
{
    if s.len() > 0 && !seq_lt(c, s[0]) {
        lemma_name_pos(s.drop_first(), c);
    }
}

proof fn lemma_insert_name(s: Seq<Seq<char>>, c: Seq<char>)
    requires
        s.no_duplicates(),
    ensures
        insert_name(s, c).no_duplicates(),
        insert_name(s, c).contains(c),
        forall|x: Seq<char>| s.contains(x) ==> #[trigger] insert_name(s, c).contains(x),
{
    if !s.contains(c) {
        let p = name_pos(s, c);
        lemma_name_pos(s, c);
        s.insert_ensures(p, c);
        let t = s.insert(p, c);
        assert(t[p] == c);
        assert forall|x: Seq<char>| s.contains(x) implies #[trigger] t.contains(x) by {
            let j = choose|j: int| 0 <= j < s.len() && s[j] == x;
            if j < p {
                assert(t[j] == x);
            } else {
                assert(t[j + 1] == x);
            }
        }
        assert forall|i: int, j: int| 0 <= i < t.len() && 0 <= j < t.len() && i != j implies t[i] != t[j] by {
            let si = if i < p { i } else { i - 1 };
            let sj = if j < p { j } else { j - 1 };
            if i != p && j != p {
                assert(t[i] == s[si]);
                assert(t[j] == s[sj]);
            } else if i == p {
                assert(t[j] == s[sj]);
            } else {
                assert(t[i] == s[si]);
            }
        }
    }
}

/// The child names are distinct and name the first folder of every
/// non-empty path.
proof fn lemma_child_names(ps: Seq<Seq<Seq<char>>>)
    ensures
        child_names(ps).no_duplicates(),
        forall|i: int| 0 <= i < ps.len() && ps[i].len() > 0 ==> child_names(ps).contains(#[trigger] ps[i][0]),
    decreases ps.len(),
{
    if ps.len() > 0 {
        let q = ps.drop_last();
        lemma_child_names(q);
        if ps.last().len() > 0 {
            lemma_insert_name(child_names(q), ps.last()[0]);
        }
        assert forall|i: int| 0 <= i < ps.len() && ps[i].len() > 0 implies child_names(ps).contains(#[trigger] ps[i][0]) by {
            if i < ps.len() - 1 {
                assert(q[i] == ps[i]);
                assert(child_names(q).contains(q[i][0]));
            }
        }
    }
}

proof fn lemma_under_len(ps: Seq<Seq<Seq<char>>>, c: Seq<char>)
    ensures
        under(ps, c).len() <= ps.len(),
    decreases ps.len(),
{
    if ps.len() > 0 {
        lemma_under_len(ps.drop_last(), c);
    }
}

proof fn lemma_under_within(ps: Seq<Seq<Seq<char>>>, c: Seq<char>, k: nat)
    requires
        paths_within(ps, k + 1),
    ensures
        paths_within(under(ps, c), k),
    decreases ps.len(),
{
    if ps.len() > 0 {
        let q = ps.drop_last();
        assert(paths_within(q, k + 1)) by {
            assert forall|i: int| 0 <= i < q.len() implies #[trigger] q[i].len() <= k + 1 by {
                assert(q[i] == ps[i]);
            }
        }
        lemma_under_within(q, c, k);
        assert(ps[ps.len() - 1].len() <= k + 1);
    }
}

proof fn lemma_empties_all(ps: Seq<Seq<Seq<char>>>)
    requires
        paths_within(ps, 0),
    ensures
        empties(ps) == ps.len(),
    decreases ps.len(),
{
    if ps.len() > 0 {
        let q = ps.drop_last();
        assert forall|i: int| 0 <= i < q.len() implies #[trigger] q[i].len() <= 0 by {
            assert(q[i] == ps[i]);
        }
        lemma_empties_all(q);
        assert(ps[ps.len() - 1].len() <= 0);
    }
}

proof fn lemma_empties_le(ps: Seq<Seq<Seq<char>>>)
    ensures
        empties(ps) <= ps.len(),
    decreases ps.len(),
{
    if ps.len() > 0 {
        lemma_empties_le(ps.drop_last());
    }
}

/// Adding a path adds one note to the name that it starts with.
proof fn lemma_sum_under_push(ps: Seq<Seq<Seq<char>>>, p: Seq<Seq<char>>, names: Seq<Seq<char>>)
    requires
        names.no_duplicates(),
    ensures
        sum_under(ps.push(p), names) == sum_under(ps, names) + if p.len() > 0 && names.contains(p[0]) {
            1nat
        } else {
            0nat
        },
    decreases names.len(),
{
    if names.len() > 0 {
        let n0 = names.drop_last();
        let x = names.last();
        assert(n0.no_duplicates()) by {
            assert forall|i: int, j: int| 0 <= i < n0.len() && 0 <= j < n0.len() && i != j implies n0[i] != n0[j] by {
                assert(n0[i] == names[i] && n0[j] == names[j]);
            }
        }
        lemma_sum_under_push(ps, p, n0);
        assert(ps.push(p).drop_last() =~= ps);
        if p.len() > 0 {
            if n0.contains(p[0]) && x == p[0] {
                let j = choose|j: int| 0 <= j < n0.len() && n0[j] == p[0];
                assert(names[j] == names[names.len() - 1]);
            }
            if names.contains(p[0]) && !n0.contains(p[0]) {
                let j = choose|j: int| 0 <= j < names.len() && names[j] == p[0];
                if j < names.len() - 1 {
                    assert(n0[j] == p[0]);
                }
            }
            if n0.contains(p[0]) {
                let j = choose|j: int| 0 <= j < n0.len() && n0[j] == p[0];
                assert(names[j] == p[0]);
            }
        }
    }
}

/// Names that are distinct and cover every first folder account for every
/// non-empty path exactly once.
proof fn lemma_sum_under(ps: Seq<Seq<Seq<char>>>, names: Seq<Seq<char>>)
    requires
        names.no_duplicates(),
        forall|i: int| 0 <= i < ps.len() && ps[i].len() > 0 ==> names.contains(#[trigger] ps[i][0]),
    ensures
        sum_under(ps, names) + empties(ps) == ps.len(),
    decreases ps.len(),
{
    if ps.len() == 0 {
        lemma_sum_under_empty(names);
        assert(ps =~= Seq::<Seq<Seq<char>>>::empty());
    } else {
        let q = ps.drop_last();
        assert forall|i: int| 0 <= i < q.len() && q[i].len() > 0 implies names.contains(#[trigger] q[i][0]) by {
            assert(q[i] == ps[i]);
        }
        lemma_sum_under(q, names);
        lemma_sum_under_push(q, ps.last(), names);
        assert(q.push(ps.last()) =~= ps);
        if ps.last().len() > 0 {
            assert(ps[ps.len() - 1].len() > 0);
            assert(names.contains(ps[ps.len() - 1][0]));
            assert(sum_under(ps, names) == sum_under(q, names) + 1);
        } else {
            assert(sum_under(ps, names) == sum_under(q, names));
        }
    }
}

proof fn lemma_sum_under_empty(names: Seq<Seq<char>>)
    ensures
        sum_under(Seq::empty(), names) == 0,
    decreases names.len(),
{
    if names.len() > 0 {
        lemma_sum_under_empty(names.drop_last());
    }
}

/// A folder built from the paths `ps` holds exactly `ps.len()` notes.
pub proof fn lemma_node_count(n: JdNode, name: Seq<char>, ps: Seq<Seq<Seq<char>>>, fuel: nat)
    requires
        node_ok(n, name, ps, fuel),
        paths_within(ps, fuel),
    ensures
        deep_count(n) == ps.len(),
    decreases fuel, 0int, 0int,
{
    if fuel == 0 {
        lemma_empties_all(ps);
        assert(n.children@.len() == 0);
    } else {
        let names = child_names(ps);
        lemma_nodes_count(n.children@, names, ps, (fuel - 1) as nat);
        lemma_child_names(ps);
        lemma_sum_under(ps, names);
    }
}

proof fn lemma_nodes_count(cs: Seq<JdNode>, names: Seq<Seq<char>>, ps: Seq<Seq<Seq<char>>>, fuel: nat)
    requires
        nodes_ok(cs, names, ps, fuel),
        paths_within(ps, fuel + 1),
    ensures
        children_count(cs) == sum_under(ps, names),
    decreases fuel, 1int, cs.len(),
{
    if cs.len() > 0 {
        lemma_nodes_count(cs.drop_last(), names.drop_last(), ps, fuel);
        lemma_under_within(ps, names.last(), fuel);
        lemma_node_count(cs.last(), names.last(), under(ps, names.last()), fuel);
    }
}


proof fn lemma_nodes_index(cs: Seq<JdNode>, names: Seq<Seq<char>>, ps: Seq<Seq<Seq<char>>>, fuel: nat, i: int)
    requires
        nodes_ok(cs, names, ps, fuel),
        0 <= i < cs.len(),
    ensures
        node_ok(cs[i], names[i], under(ps, names[i]), fuel),
    decreases cs.len(),
{
    if i < cs.len() - 1 {
        lemma_nodes_index(cs.drop_last(), names.drop_last(), ps, fuel, i);
    }
}

/// A folder built to depth `fuel` has at most `fuel` levels below it.
proof fn lemma_node_depth(n: JdNode, name: Seq<char>, ps: Seq<Seq<Seq<char>>>, fuel: nat)
    requires
        node_ok(n, name, ps, fuel),
    ensures
        max_depth(n) <= fuel,
    decreases fuel, 0int, 0int,
{
    if fuel > 0 {
        lemma_nodes_depth(n.children@, child_names(ps), ps, (fuel - 1) as nat);
    }
}

proof fn lemma_nodes_depth(cs: Seq<JdNode>, names: Seq<Seq<char>>, ps: Seq<Seq<Seq<char>>>, fuel: nat)
    requires
        nodes_ok(cs, names, ps, fuel),
    ensures
        max_child_depth(cs) <= fuel,
    decreases fuel, 1int, cs.len(),
{
    if cs.len() > 0 {
        lemma_nodes_depth(cs.drop_last(), names.drop_last(), ps, fuel);
        lemma_node_depth(cs.last(), names.last(), under(ps, names.last()), fuel);
    }
}

pub proof fn lemma_children_prefix(cs: Seq<JdNode>, k: int)
    requires
        0 <= k <= cs.len(),
    ensures
        children_count(cs.take(k)) <= children_count(cs),
        max_child_depth(cs.take(k)) <= max_child_depth(cs),
    decreases cs.len(),
{
    if k == cs.len() {
        assert(cs.take(k) =~= cs);
    } else {
        lemma_children_prefix(cs.drop_last(), k);
        assert(cs.drop_last().take(k) =~= cs.take(k));
    }
}

pub proof fn lemma_child_in_children(cs: Seq<JdNode>, i: int)
    requires
        0 <= i < cs.len(),
    ensures
        deep_count(cs[i]) <= children_count(cs),
        max_depth(cs[i]) <= max_child_depth(cs),
    decreases cs.len(),
{
    if i < cs.len() - 1 {
        lemma_child_in_children(cs.drop_last(), i);
    }
}

/// A subfolder holds no more notes, and has fewer levels below it, than its
/// parent.
pub proof fn lemma_child_within(n: JdNode, i: int)
    requires
        0 <= i < n.children@.len(),
    ensures
        deep_count(n.children@[i]) <= deep_count(n),
        max_depth(n.children@[i]) < max_depth(n),
{
    lemma_child_in_children(n.children@, i);
}

impl JdNode {
    /// Notes in this folder and all folders below it.
    pub fn deep_note_count(&self) -> (r: usize)
        requires
            deep_count(*self) <= usize::MAX,
        ensures
            r == deep_count(*self),
        decreases self,
    {
        let mut total: usize = self.note_count;
        let mut i: usize = 0;
        while i < self.children.len()
            invariant
                i <= self.children.len(),
                deep_count(*self) <= usize::MAX,
                total == self.note_count + children_count(self.children@.take(i as int)),
            decreases self.children.len() - i,
        {
            proof {
                lemma_children_prefix(self.children@, i + 1);
                assert(self.children@.take(i + 1).drop_last() =~= self.children@.take(i as int));
                assert(self.children@.take(i + 1).last() == self.children@[i as int]);
            }
            let c = self.children[i].deep_note_count();
            total = total + c;
            i += 1;
        }
        assert(self.children@.take(i as int) =~= self.children@);
        total
    }

    /// Levels of folders below this one (0 for a leaf).
    pub fn max_depth(&self) -> (r: usize)
        requires
            max_depth(*self) <= usize::MAX,
        ensures
            r == max_depth(*self),
        decreases self,
    {
        if self.children.len() == 0 {
            return 0;
        }
        let mut best: usize = 0;
        let mut i: usize = 0;
        while i < self.children.len()
            invariant
                i <= self.children.len(),
                self.children@.len() > 0,
                max_depth(*self) <= usize::MAX,
                best == max_child_depth(self.children@.take(i as int)),
            decreases self.children.len() - i,
        {
            proof {
                lemma_child_in_children(self.children@, i as int);
                assert(self.children@.take(i + 1).drop_last() =~= self.children@.take(i as int));
                assert(self.children@.take(i + 1).last() == self.children@[i as int]);
            }
            let d = self.children[i].max_depth();
            if d > best {
                best = d;
            }
            i += 1;
        }
        assert(self.children@.take(i as int) =~= self.children@);
        best + 1
    }
}


fn count_empty(ps: &Vec<Vec<Vec<char>>>) -> (r: usize)
    ensures
        r == empties(ps.deep_view()),
{
    let ghost pv = ps.deep_view();
    let mut n: usize = 0;
    let mut i: usize = 0;
    while i < ps.len()
        invariant
            i <= ps.len(),
            pv == ps.deep_view(),
            n == empties(pv.take(i as int)),
            n <= i,
        decreases ps.len() - i,
    {
        proof {
            assert(pv.take(i + 1).drop_last() =~= pv.take(i as int));
            assert(pv[i as int] == ps[i as int].deep_view());
        }
        if ps[i].len() == 0 {
            n += 1;
        }
        i += 1;
    }
    assert(pv.take(i as int) =~= pv);
    n
}

pub fn contains_name(names: &Vec<Vec<char>>, c: &Vec<char>) -> (b: bool)
    ensures
        b == names.deep_view().contains(c@),
{
    let mut i: usize = 0;
    while i < names.len()
        invariant
            i <= names.len(),
            forall|k: int| 0 <= k < i ==> names.deep_view()[k] != c@,
        decreases names.len() - i,
    {
        assert(names.deep_view()[i as int] == names[i as int]@);
        if vec_eq(&names[i], c) {
            return true;
        }
        i += 1;
    }
    false
}

fn name_position(names: &Vec<Vec<char>>, c: &Vec<char>) -> (r: usize)
    ensures
        r == name_pos(names.deep_view(), c@),
{
    let ghost s = names.deep_view();
    let mut i: usize = 0;
    assert(s.skip(0) =~= s);
    while i < names.len() && !lt_chars(c, &names[i])
        invariant
            i <= names.len(),
            s == names.deep_view(),
            name_pos(s, c@) == i + name_pos(s.skip(i as int), c@),
        decreases names.len() - i,
    {
        proof {
            assert(s[i as int] == names[i as int]@);
            assert(s.skip(i as int)[0] == s[i as int]);
            assert(s.skip(i as int).drop_first() =~= s.skip(i + 1));
        }
        i += 1;
    }
    proof {
        if i < names.len() {
            assert(s[i as int] == names[i as int]@);
            assert(s.skip(i as int)[0] == s[i as int]);
        }
    }
    i
}

fn copy_chars(v: &Vec<char>) -> (r: Vec<char>)
    ensures
        r@ == v@,
{
    let mut r: Vec<char> = Vec::new();
    let mut i: usize = 0;
    while i < v.len()
        invariant
            i <= v.len(),
            r@ == v@.take(i as int),
        decreases v.len() - i,
    {
        r.push(v[i]);
        i += 1;
        assert(r@ =~= v@.take(i as int));
    }
    assert(v@.take(i as int) =~= v@);
    r
}

fn child_names_exec(ps: &Vec<Vec<Vec<char>>>) -> (r: Vec<Vec<char>>)
    ensures
        r.deep_view() == child_names(ps.deep_view()),
{
    let ghost pv = ps.deep_view();
    let mut names: Vec<Vec<char>> = Vec::new();
    let mut i: usize = 0;
    while i < ps.len()
        invariant
            i <= ps.len(),
            pv == ps.deep_view(),
            names.deep_view() == child_names(pv.take(i as int)),
        decreases ps.len() - i,
    {
        proof {
            assert(pv.take(i + 1).drop_last() =~= pv.take(i as int));
            assert(pv[i as int] == ps[i as int].deep_view());
        }
        if ps[i].len() > 0 {
            let c = copy_chars(&ps[i][0]);
            proof {
                assert(ps[i as int].deep_view()[0] == ps[i as int][0]@);
            }
            if !contains_name(&names, &c) {
                let p = name_position(&names, &c);
                let ghost n0 = names.deep_view();
                let ghost ov = names@;
                let ghost cg = c;
                proof {
                    lemma_name_pos(n0, c@);
                }
                names.insert(p, c);
                proof {
                    n0.insert_ensures(p as int, cg@);
                    ov.insert_ensures(p as int, cg);
                    lemma_deep_chars(cg);
                    assert forall|k: int| 0 <= k < names.len() implies names.deep_view()[k] == n0.insert(p as int, cg@)[k] by {
                        if k < p {
                            assert(names@[k] == ov[k]);
                            assert(n0[k] == ov[k].deep_view());
                        } else if k > p {
                            assert(names@[k] == ov[k - 1]);
                            assert(n0[k - 1] == ov[k - 1].deep_view());
                        }
                    }
                    assert(names.deep_view() =~= n0.insert(p as int, cg@));
                }
            }
        }
        i += 1;
    }
    assert(pv.take(i as int) =~= pv);
    names
}


fn copy_path_tail(p: &Vec<Vec<char>>) -> (r: Vec<Vec<char>>)
    requires
        p.len() > 0,
    ensures
        r.deep_view() == p.deep_view().drop_first(),
{
    let mut r: Vec<Vec<char>> = Vec::new();
    let mut i: usize = 1;
    while i < p.len()
        invariant
            1 <= i <= p.len(),
            r.deep_view() == p.deep_view().subrange(1, i as int),
        decreases p.len() - i,
    {
        let ghost r0 = r.deep_view();
        let c = copy_chars(&p[i]);
        proof {
            lemma_deep_chars(c);
            assert(p.deep_view()[i as int] == p[i as int].deep_view());
            lemma_deep_chars(p[i as int]);
        }
        r.push(c);
        assert(r.deep_view() =~= r0.push(p.deep_view()[i as int]));
        i += 1;
        assert(r.deep_view() =~= p.deep_view().subrange(1, i as int));
    }
    assert(p.deep_view().subrange(1, i as int) =~= p.deep_view().drop_first());
    r
}

fn under_exec(ps: &Vec<Vec<Vec<char>>>, c: &Vec<char>) -> (r: Vec<Vec<Vec<char>>>)
    ensures
        r.deep_view() == under(ps.deep_view(), c@),
{
    let ghost pv = ps.deep_view();
    let mut out: Vec<Vec<Vec<char>>> = Vec::new();
    let mut i: usize = 0;
    while i < ps.len()
        invariant
            i <= ps.len(),
            pv == ps.deep_view(),
            out.deep_view() == under(pv.take(i as int), c@),
        decreases ps.len() - i,
    {
        proof {
            assert(pv.take(i + 1).drop_last() =~= pv.take(i as int));
            assert(pv[i as int] == ps[i as int].deep_view());
        }
        if ps[i].len() > 0 && vec_eq(&ps[i][0], c) {
            proof {
                assert(ps[i as int].deep_view()[0] == ps[i as int][0]@);
            }
            let t = copy_path_tail(&ps[i]);
            let ghost o0 = out.deep_view();
            out.push(t);
            assert(out.deep_view() =~= o0.push(pv[i as int].drop_first()));
        } else {
            proof {
                if ps[i as int].len() > 0 {
                    assert(ps[i as int].deep_view()[0] == ps[i as int][0]@);
                }
            }
        }
        i += 1;
    }
    assert(pv.take(i as int) =~= pv);
    out
}

/// The folder `name` holding the notes at folder paths `ps` below it, built
/// `fuel` levels deep.
fn build_node(name: &Vec<char>, ps: &Vec<Vec<Vec<char>>>, fuel: usize) -> (n: JdNode)
    requires
        paths_within(ps.deep_view(), fuel as nat),
    ensures
        node_ok(n, name@, ps.deep_view(), fuel as nat),
    decreases fuel,
{
    let note_count = count_empty(ps);
    let jd_id = match jd_id_chars(name) {
        Some(x) => Some(string_of(&x)),
        None => None,
    };
    let mut children: Vec<JdNode> = Vec::new();
    if fuel > 0 {
        let names = child_names_exec(ps);
        let ghost nv = names.deep_view();
        let mut i: usize = 0;
        while i < names.len()
            invariant
                i <= names.len(),
                fuel > 0,
                nv == names.deep_view(),
                nv == child_names(ps.deep_view()),
                paths_within(ps.deep_view(), fuel as nat),
                nodes_ok(children@, nv.take(i as int), ps.deep_view(), (fuel - 1) as nat),
            decreases names.len() - i,
        {
            let sub = under_exec(ps, &names[i]);
            proof {
                assert(nv[i as int] == names[i as int]@);
                lemma_under_within(ps.deep_view(), nv[i as int], (fuel - 1) as nat);
            }
            let child = build_node(&names[i], &sub, fuel - 1);
            let ghost c0 = children@;
            children.push(child);
            proof {
                assert(children@.drop_last() =~= c0);
                assert(nv.take(i + 1).drop_last() =~= nv.take(i as int));
            }
            i += 1;
        }
        assert(nv.take(i as int) =~= nv);
    }
    JdNode { name: string_of(name), jd_id, note_count, children }
}


/// The folders between `Notes/` and the file, for a regular note filed
/// under `Notes/` outside NotePlan's special folders.
pub open spec fn filed_folders(n: NoteV) -> Option<Seq<Seq<char>>> {
    let parts = split_on(n.relative_path, '/');
    if n.kind == NoteKind::Regular && !special_folder(n.relative_path) && parts.len() >= 2
        && parts[0] == "Notes"@ {
        Some(parts.subrange(1, parts.len() - 1))
    } else {
        None
    }
}

/// The folder paths of the filed notes, in note order.
pub open spec fn folder_paths(nv: Seq<NoteV>) -> Seq<Seq<Seq<char>>>
    decreases nv.len(),
{
    if nv.len() == 0 {
        Seq::empty()
    } else {
        match filed_folders(nv.last()) {
            Some(p) => folder_paths(nv.drop_last()).push(p),
            None => folder_paths(nv.drop_last()),
        }
    }
}

/// The length of the longest path.
pub open spec fn longest(ps: Seq<Seq<Seq<char>>>) -> nat
    decreases ps.len(),
{
    if ps.len() == 0 {
        0
    } else if ps.last().len() > longest(ps.drop_last()) {
        ps.last().len()
    } else {
        longest(ps.drop_last())
    }
}

/// Whether `root` is the `Notes` folder tree of the notes `nv`.
pub open spec fn is_hierarchy(nv: Seq<NoteV>, root: JdNode) -> bool {
    node_ok(root, "Notes"@, folder_paths(nv), longest(folder_paths(nv)))
}

/// The statistics of area `n`.
pub open spec fn area_ok(a: AreaStats, n: JdNode) -> bool {
    &&& a.folder_name@ == n.name@
    &&& a.jd_id.deep_view() == n.jd_id.deep_view()
    &&& a.total_notes == deep_count(n)
    &&& a.category_count == n.children@.len()
    &&& a.max_depth == max_depth(n)
}

pub proof fn lemma_folder_paths_len(nv: Seq<NoteV>)
    ensures
        folder_paths(nv).len() <= nv.len(),
    decreases nv.len(),
{
    if nv.len() > 0 {
        lemma_folder_paths_len(nv.drop_last());
    }
}

proof fn lemma_longest(ps: Seq<Seq<Seq<char>>>)
    ensures
        paths_within(ps, longest(ps)),
    decreases ps.len(),
{
    if ps.len() > 0 {
        let q = ps.drop_last();
        lemma_longest(q);
        assert forall|i: int| 0 <= i < ps.len() implies #[trigger] ps[i].len() <= longest(ps) by {
            if i < ps.len() - 1 {
                assert(q[i] == ps[i]);
            }
        }
    }
}

/// The whole tree accounts for every filed note exactly once.
pub proof fn lemma_hierarchy_counts_every_filed_note(nv: Seq<NoteV>, root: JdNode)
    requires
        is_hierarchy(nv, root),
    ensures
        deep_count(root) == folder_paths(nv).len(),
        max_depth(root) <= longest(folder_paths(nv)),
{
    lemma_longest(folder_paths(nv));
    lemma_node_count(root, "Notes"@, folder_paths(nv), longest(folder_paths(nv)));
    lemma_node_depth(root, "Notes"@, folder_paths(nv), longest(folder_paths(nv)));
}

fn filed_folders_exec(note: &Note) -> (r: Option<Vec<Vec<char>>>)
    ensures
        r.deep_view() == filed_folders(note.deep_view()),
        r matches Some(p) ==> p.len() <= usize::MAX - 2,
{
    let rp = chars_of_string(&note.relative_path);
    if note.kind != NoteKind::Regular || is_special_folder(&rp) {
        return None;
    }
    let parts = split_vec(&rp, '/');
    let ghost pv = parts.deep_view();
    if parts.len() < 2 {
        return None;
    }
    proof {
        assert(pv[0] == parts[0].deep_view());
        lemma_deep_chars(parts[0]);
    }
    if !eq_str(&parts[0], "Notes") {
        return None;
    }
    let mut out: Vec<Vec<char>> = Vec::new();
    let mut i: usize = 1;
    while i < parts.len() - 1
        invariant
            1 <= i <= parts.len() - 1,
            parts.len() >= 2,
            pv == parts.deep_view(),
            out.deep_view() == pv.subrange(1, i as int),
        decreases parts.len() - i,
    {
        let c = copy_chars(&parts[i]);
        let ghost o0 = out.deep_view();
        proof {
            lemma_deep_chars(c);
            assert(pv[i as int] == parts[i as int].deep_view());
            lemma_deep_chars(parts[i as int]);
        }
        out.push(c);
        assert(out.deep_view() =~= o0.push(pv[i as int]));
        i += 1;
        assert(out.deep_view() =~= pv.subrange(1, i as int));
    }
    Some(out)
}

/// Build the folder tree of the filed notes: regular notes under `Notes/`
/// outside trash, archive, templates and attachments. Each note counts in
/// the folder that holds it; folders are sorted by name; each top-level
/// folder gets its statistics.
pub fn build_hierarchy(store: &NoteStore) -> (h: JdHierarchy)
    ensures
        is_hierarchy(store.notes.deep_view(), h.root),
        deep_count(h.root) == folder_paths(store.notes.deep_view()).len(),
        max_depth(h.root) <= usize::MAX - 2,
        h.areas.len() == h.root.children.len(),
        forall|i: int| 0 <= i < h.areas.len() ==> area_ok(#[trigger] h.areas[i], h.root.children@[i]),
{
    let ghost nv = store.notes.deep_view();
    let mut ps: Vec<Vec<Vec<char>>> = Vec::new();
    let mut fuel: usize = 0;
    let mut i: usize = 0;
    while i < store.notes.len()
        invariant
            i <= store.notes.len(),
            nv == store.notes.deep_view(),
            ps.deep_view() == folder_paths(nv.take(i as int)),
            fuel == longest(ps.deep_view()),
            fuel <= usize::MAX - 2,
            ps.len() <= i,
        decreases store.notes.len() - i,
    {
        proof {
            assert(nv.take(i + 1).drop_last() =~= nv.take(i as int));
            assert(nv[i as int] == store.notes[i as int].deep_view());
        }
        match filed_folders_exec(&store.notes[i]) {
            Some(p) => {
                let ghost p0 = ps.deep_view();
                let len = p.len();
                ps.push(p);
                assert(ps.deep_view().drop_last() =~= p0);
                if len > fuel {
                    fuel = len;
                }
            },
            None => {},
        }
        i += 1;
    }
    assert(nv.take(i as int) =~= nv);
    proof {
        lemma_longest(ps.deep_view());
    }
    let notes_name = chars_of("Notes");
    let root = build_node(&notes_name, &ps, fuel);
    proof {
        lemma_hierarchy_counts_every_filed_note(nv, root);
        lemma_folder_paths_len(nv);
    }
    let mut areas: Vec<AreaStats> = Vec::new();
    let mut k: usize = 0;
    while k < root.children.len()
        invariant
            k <= root.children.len(),
            areas.len() == k,
            deep_count(root) <= usize::MAX,
            max_depth(root) <= usize::MAX,
            forall|j: int| 0 <= j < k ==> area_ok(#[trigger] areas[j], root.children@[j]),
        decreases root.children.len() - k,
    {
        let area = &root.children[k];
        proof {
            lemma_child_within(root, k as int);
        }
        let name_copy = string_of(&chars_of_string(&area.name));
        let jd_copy = match &area.jd_id {
            Some(x) => Some(string_of(&chars_of_string(x))),
            None => None,
        };
        let stats = AreaStats {
            folder_name: name_copy,
            jd_id: jd_copy,
            total_notes: area.deep_note_count(),
            category_count: area.children.len(),
            max_depth: area.max_depth(),
        };
        areas.push(stats);
        k += 1;
    }
    JdHierarchy { root, areas }
}

} // verus!
