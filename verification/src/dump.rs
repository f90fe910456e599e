//! The system assessment dump: a plain-text report of the vault's Johnny
//! Decimal structure, statistics, hubs, tags, unfiled notes and activity.
use vstd::prelude::*;
use crate::analyzer::{hub_like, hub_section_names, hub_sections, is_hub_like, special_folder, is_special_folder};
use crate::models::{Note, NoteKind, NoteV, SectionV};
use crate::parser::hierarchy::{
    area_ok, build_hierarchy, deep_count, is_hierarchy, lemma_child_within, lemma_folder_paths_len,
    max_depth, AreaStats, JdHierarchy, JdNode,
};
use crate::analyzer::stale_area::{modified_at, NANOS_PER_DAY};
use crate::parser::NoteStore;
use crate::text::{chars_of, chars_of_string, concat, decimal, decimal_of, join, join_vec, split_on, split_vec};

verus! {

/// `n` copies of `c`.
pub open spec fn copies(c: char, n: nat) -> Seq<char> {
    Seq::new(n, |i: int| c)
}

/// `s` padded with spaces on the right to `w` characters.
pub open spec fn pad_right(s: Seq<char>, w: nat) -> Seq<char> {
    s + copies(' ', if s.len() < w { (w - s.len()) as nat } else { 0 })
}

/// `s` padded with spaces on the left to `w` characters.
pub open spec fn pad_left(s: Seq<char>, w: nat) -> Seq<char> {
    copies(' ', if s.len() < w { (w - s.len()) as nat } else { 0 }) + s
}

/// A section heading: `┌─ TITLE ───…` (rule filling to 58 columns) and a
/// `│` line.
pub open spec fn section_head(title: Seq<char>) -> Seq<char> {
    "┌─ "@ + title + " "@ + copies('─', if title.len() < 58 { (58 - title.len()) as nat } else { 0 }) + "\n│\n"@
}

pub fn put(out: &mut Vec<char>, s: &Vec<char>)
    ensures
        final(out)@ == old(out)@ + s@,
{
    let ghost o = out@;
    let mut i: usize = 0;
    while i < s.len()
        invariant
            i <= s.len(),
            out@ == o + s@.take(i as int),
        decreases s.len() - i,
    {
        out.push(s[i]);
        i += 1;
        assert(out@ =~= o + s@.take(i as int));
    }
    assert(s@.take(i as int) =~= s@);
}

pub fn put_str(out: &mut Vec<char>, s: &str)
    ensures
        final(out)@ == old(out)@ + s@,
{
    put(out, &chars_of(s));
}

fn put_copies(out: &mut Vec<char>, c: char, n: usize)
    ensures
        final(out)@ == old(out)@ + copies(c, n as nat),
{
    let ghost o = out@;
    let mut i: usize = 0;
    while i < n
        invariant
            i <= n,
            out@ == o + copies(c, i as nat),
        decreases n - i,
    {
        out.push(c);
        i += 1;
        assert(out@ =~= o + copies(c, i as nat));
    }
}

fn put_pad_right(out: &mut Vec<char>, s: &Vec<char>, w: usize)
    ensures
        final(out)@ == old(out)@ + pad_right(s@, w as nat),
{
    put(out, s);
    let n = if s.len() < w { w - s.len() } else { 0 };
    put_copies(out, ' ', n);
    assert(out@ =~= old(out)@ + pad_right(s@, w as nat));
}

fn put_pad_left(out: &mut Vec<char>, s: &Vec<char>, w: usize)
    ensures
        final(out)@ == old(out)@ + pad_left(s@, w as nat),
{
    let n = if s.len() < w { w - s.len() } else { 0 };
    put_copies(out, ' ', n);
    put(out, s);
    assert(out@ =~= old(out)@ + pad_left(s@, w as nat));
}

fn section(out: &mut Vec<char>, title: &str)
    ensures
        final(out)@ == old(out)@ + section_head(title@),
{
    let t = chars_of(title);
    put_str(out, "┌─ ");
    put(out, &t);
    put_str(out, " ");
    let n = if t.len() < 58 { 58 - t.len() } else { 0 };
    put_copies(out, '─', n);
    put_str(out, "\n│\n");
    assert(out@ =~= old(out)@ + section_head(title@));
}

// ─── Header and overview ────────────────────────────────────────────────────

pub open spec fn header_text(path: Seq<char>, scanned_at: Seq<char>) -> Seq<char> {
    "╔══════════════════════════════════════════════════════════════╗\n"@
        + "║           NotePlan System Assessment Dump                   ║\n"@
        + "╚══════════════════════════════════════════════════════════════╝\n"@ + "\n"@ + "Path: "@ + path + "\n"@
        + "Scanned at: "@ + scanned_at + "\n"@ + "\n"@
}

/// How many of the notes have kind `k`.
pub open spec fn kind_count(nv: Seq<NoteV>, k: NoteKind) -> nat
    decreases nv.len(),
{
    if nv.len() == 0 {
        0
    } else {
        kind_count(nv.drop_last(), k) + if nv.last().kind == k {
            1nat
        } else {
            0nat
        }
    }
}

pub open spec fn count_line(label: Seq<char>, n: nat) -> Seq<char> {
    label + decimal(n) + "\n"@
}

pub open spec fn overview_text(nv: Seq<NoteV>) -> Seq<char> {
    section_head("OVERVIEW"@) + count_line("  Regular notes:  "@, kind_count(nv, NoteKind::Regular))
        + count_line("  Daily notes:    "@, kind_count(nv, NoteKind::Daily))
        + count_line("  Weekly notes:   "@, kind_count(nv, NoteKind::Weekly))
        + count_line("  Monthly notes:  "@, kind_count(nv, NoteKind::Monthly))
        + count_line("  Quarterly notes: "@, kind_count(nv, NoteKind::Quarterly))
        + count_line("  Yearly notes:   "@, kind_count(nv, NoteKind::Yearly))
        + count_line("  Templates:      "@, kind_count(nv, NoteKind::Template))
        + count_line("  Total:          "@, nv.len()) + "\n"@
}

fn write_header(out: &mut Vec<char>, path: &str, scanned_at: &str)
    ensures
        final(out)@ == old(out)@ + header_text(path@, scanned_at@),
{
    put_str(out, "╔══════════════════════════════════════════════════════════════╗\n");
    put_str(out, "║           NotePlan System Assessment Dump                   ║\n");
    put_str(out, "╚══════════════════════════════════════════════════════════════╝\n");
    put_str(out, "\n");
    put_str(out, "Path: ");
    put_str(out, path);
    put_str(out, "\n");
    put_str(out, "Scanned at: ");
    put_str(out, scanned_at);
    put_str(out, "\n");
    put_str(out, "\n");
    assert(out@ =~= old(out)@ + header_text(path@, scanned_at@));
}

pub(crate) fn kind_count_exec(notes: &Vec<Note>, k: NoteKind) -> (n: usize)
    ensures
        n == kind_count(notes.deep_view(), k),
{
    let ghost nv = notes.deep_view();
    let mut n: usize = 0;
    let mut i: usize = 0;
    while i < notes.len()
        invariant
            i <= notes.len(),
            nv == notes.deep_view(),
            n == kind_count(nv.take(i as int), k),
            n <= i,
        decreases notes.len() - i,
    {
        proof {
            assert(nv.take(i + 1).drop_last() =~= nv.take(i as int));
            assert(nv[i as int] == notes[i as int].deep_view());
        }
        if notes[i].kind == k {
            n += 1;
        }
        i += 1;
    }
    assert(nv.take(i as int) =~= nv);
    n
}

fn put_count_line(out: &mut Vec<char>, label: &str, n: usize)
    ensures
        final(out)@ == old(out)@ + count_line(label@, n as nat),
{
    put_str(out, label);
    put(out, &decimal_of(n));
    put_str(out, "\n");
    assert(out@ =~= old(out)@ + count_line(label@, n as nat));
}

fn write_overview(out: &mut Vec<char>, store: &NoteStore)
    ensures
        final(out)@ == old(out)@ + overview_text(store.notes.deep_view()),
{
    let ghost nv = store.notes.deep_view();
    let ghost o = out@;
    section(out, "OVERVIEW");
    put_count_line(out, "  Regular notes:  ", kind_count_exec(&store.notes, NoteKind::Regular));
    put_count_line(out, "  Daily notes:    ", kind_count_exec(&store.notes, NoteKind::Daily));
    put_count_line(out, "  Weekly notes:   ", kind_count_exec(&store.notes, NoteKind::Weekly));
    put_count_line(out, "  Monthly notes:  ", kind_count_exec(&store.notes, NoteKind::Monthly));
    put_count_line(out, "  Quarterly notes: ", kind_count_exec(&store.notes, NoteKind::Quarterly));
    put_count_line(out, "  Yearly notes:   ", kind_count_exec(&store.notes, NoteKind::Yearly));
    put_count_line(out, "  Templates:      ", kind_count_exec(&store.notes, NoteKind::Template));
    assert(nv.len() == store.notes.len());
    put_count_line(out, "  Total:          ", store.notes.len());
    put_str(out, "\n");
    assert(out@ =~= o + overview_text(nv));
}

// ─── Hierarchy tree ─────────────────────────────────────────────────────────

/// A folder's line in the tree at `indent` levels, then its subfolders one
/// level deeper.
pub open spec fn node_line(n: JdNode, indent: nat) -> Seq<char> {
    let prefix = copies(' ', 2 * indent);
    if n.children@.len() > 0 && n.note_count > 0 {
        prefix + n.name@ + "/  ("@ + decimal(deep_count(n)) + " notes, "@ + decimal(n.note_count as nat)
            + " direct)\n"@
    } else {
        prefix + n.name@ + "/  ("@ + decimal(deep_count(n)) + " notes)\n"@
    }
}

pub open spec fn node_text(n: JdNode, indent: nat) -> Seq<char>
    decreases n, 0int,
{
    node_line(n, indent) + nodes_text(n.children@, indent + 1)
}

pub open spec fn nodes_text(cs: Seq<JdNode>, indent: nat) -> Seq<char>
    decreases cs, 1int,
{
    if cs.len() == 0 {
        Seq::empty()
    } else {
        nodes_text(cs.drop_last(), indent) + node_text(cs.last(), indent)
    }
}

pub open spec fn tree_text(root: JdNode) -> Seq<char> {
    section_head("JD HIERARCHY"@) + "  Notes/\n"@ + nodes_text(root.children@, 2) + "\n"@
}

fn write_node(out: &mut Vec<char>, n: &JdNode, indent: usize)
    requires
        deep_count(*n) <= usize::MAX,
        max_depth(*n) + indent <= usize::MAX,
    ensures
        final(out)@ == old(out)@ + node_text(*n, indent as nat),
    decreases n,
{
    let ghost o = out@;
    let count = n.deep_note_count();
    put_copies(out, ' ', indent);
    put_copies(out, ' ', indent);
    put(out, &chars_of_string(&n.name));
    if n.children.len() > 0 && n.note_count > 0 {
        put_str(out, "/  (");
        put(out, &decimal_of(count));
        put_str(out, " notes, ");
        put(out, &decimal_of(n.note_count));
        put_str(out, " direct)\n");
    } else {
        put_str(out, "/  (");
        put(out, &decimal_of(count));
        put_str(out, " notes)\n");
    }
    assert(out@ =~= o + node_line(*n, indent as nat));
    let ghost mid = out@;
    let mut i: usize = 0;
    while i < n.children.len()
        invariant
            i <= n.children.len(),
            deep_count(*n) <= usize::MAX,
            max_depth(*n) + indent <= usize::MAX,
            out@ == mid + nodes_text(n.children@.take(i as int), (indent + 1) as nat),
        decreases n.children.len() - i,
    {
        proof {
            lemma_child_within(*n, i as int);
            assert(n.children@.take(i + 1).drop_last() =~= n.children@.take(i as int));
            assert(n.children@.take(i + 1).last() == n.children@[i as int]);
        }
        write_node(out, &n.children[i], indent + 1);
        assert(out@ =~= mid + nodes_text(n.children@.take(i + 1), (indent + 1) as nat));
        i += 1;
    }
    assert(n.children@.take(i as int) =~= n.children@);
}


fn write_hierarchy_tree(out: &mut Vec<char>, root: &JdNode)
    requires
        deep_count(*root) <= usize::MAX,
        max_depth(*root) <= usize::MAX - 2,
    ensures
        final(out)@ == old(out)@ + tree_text(*root),
{
    let ghost o = out@;
    section(out, "JD HIERARCHY");
    put_str(out, "  Notes/\n");
    let ghost mid = out@;
    let mut i: usize = 0;
    while i < root.children.len()
        invariant
            i <= root.children.len(),
            deep_count(*root) <= usize::MAX,
            max_depth(*root) <= usize::MAX - 2,
            out@ == mid + nodes_text(root.children@.take(i as int), 2),
        decreases root.children.len() - i,
    {
        proof {
            lemma_child_within(*root, i as int);
            assert(root.children@.take(i + 1).drop_last() =~= root.children@.take(i as int));
            assert(root.children@.take(i + 1).last() == root.children@[i as int]);
        }
        write_node(out, &root.children[i], 2);
        assert(out@ =~= mid + nodes_text(root.children@.take(i + 1), 2));
        i += 1;
    }
    assert(root.children@.take(i as int) =~= root.children@);
    put_str(out, "\n");
    assert(out@ =~= o + tree_text(*root));
}

// ─── Statistics ─────────────────────────────────────────────────────────────

/// Regular notes outside the special folders without any JD ID.
pub open spec fn without_id(n: NoteV) -> bool {
    n.kind == NoteKind::Regular && !special_folder(n.relative_path) && n.title_jd_id is None && n.jd_id is None
}

/// Regular notes outside trash, archive and templates whose file name ID
/// differs from their title ID.
pub open spec fn stale_id(n: NoteV) -> bool {
    &&& n.kind == NoteKind::Regular
    &&& !crate::text::contains(n.relative_path, "@Trash"@)
    &&& !crate::text::contains(n.relative_path, "@Archive"@)
    &&& !crate::text::contains(n.relative_path, "@Templates"@)
    &&& n.jd_id is Some && n.title_jd_id is Some && n.jd_id != n.title_jd_id
}

pub open spec fn count_where(nv: Seq<NoteV>, p: spec_fn(NoteV) -> bool) -> nat
    decreases nv.len(),
{
    if nv.len() == 0 {
        0
    } else {
        count_where(nv.drop_last(), p) + if p(nv.last()) {
            1nat
        } else {
            0nat
        }
    }
}

/// The numbered leaf folders that hold exactly one note, in tree order.
pub open spec fn singles(n: JdNode) -> Seq<Seq<char>>
    decreases n, 0int,
{
    (if n.jd_id is Some && n.children@.len() == 0 && n.note_count == 1 {
        seq![n.name@]
    } else {
        Seq::empty()
    }) + singles_of(n.children@)
}

pub open spec fn singles_of(cs: Seq<JdNode>) -> Seq<Seq<char>>
    decreases cs, 1int,
{
    if cs.len() == 0 {
        Seq::empty()
    } else {
        singles_of(cs.drop_last()) + singles(cs.last())
    }
}

pub open spec fn cat_counts(areas: Seq<JdNode>) -> Seq<nat> {
    areas.map_values(|a: JdNode| a.children@.len())
}

pub open spec fn note_counts(areas: Seq<JdNode>) -> Seq<nat> {
    areas.map_values(|a: JdNode| deep_count(a))
}

pub open spec fn depths(areas: Seq<JdNode>) -> Seq<nat> {
    areas.map_values(|a: JdNode| max_depth(a))
}

pub open spec fn area_row(a: JdNode) -> Seq<char> {
    "  "@ + pad_right(a.name@, 40) + " "@ + pad_left(decimal(deep_count(a)), 6) + " "@ + pad_left(
        decimal(a.children@.len()),
        6,
    ) + " "@ + pad_left(decimal(max_depth(a)), 6) + "\n"@
}

pub open spec fn area_rows(areas: Seq<JdNode>) -> Seq<char>
    decreases areas.len(),
{
    if areas.len() == 0 {
        Seq::empty()
    } else {
        area_rows(areas.drop_last()) + area_row(areas.last())
    }
}

pub open spec fn listed_lines(items: Seq<Seq<char>>) -> Seq<char>
    decreases items.len(),
{
    if items.len() == 0 {
        Seq::empty()
    } else {
        listed_lines(items.drop_last()) + "    - "@ + items.last() + "\n"@
    }
}

/// A line with a minimum, a maximum and an average.
pub open spec fn min_max_line(label: Seq<char>, lo: nat, hi: nat, avg: Seq<char>) -> Seq<char> {
    label + decimal(lo) + ", max="@ + decimal(hi) + ", avg="@ + avg + "\n"@
}

/// The minimum, maximum and counts part of the statistics.
pub open spec fn summary_text(nv: Seq<NoteV>, areas: Seq<JdNode>, cat_avg: Seq<char>, note_avg: Seq<char>) -> Seq<char> {
    min_max_line(
        "  Categories per area: min="@,
        crate::analyzer::depth_inconsistency::seq_min(cat_counts(areas)),
        crate::analyzer::depth_inconsistency::seq_max(cat_counts(areas)),
        cat_avg,
    ) + min_max_line(
        "  Notes per area: min="@,
        crate::analyzer::depth_inconsistency::seq_min(note_counts(areas)),
        crate::analyzer::depth_inconsistency::seq_max(note_counts(areas)),
        note_avg,
    ) + count_line("  Maximum folder depth: "@, crate::analyzer::depth_inconsistency::seq_max(depths(areas)))
        + count_line("  Notes without JD IDs: "@, count_where(nv, |x: NoteV| without_id(x))) + count_line(
        "  Notes with stale IDs (filename != title): "@,
        count_where(nv, |x: NoteV| stale_id(x)),
    )
}

/// The list of single-note folders, when there are any.
pub open spec fn singles_text(root: JdNode) -> Seq<char> {
    let s = singles(root);
    if s.len() > 0 {
        "\n"@ + "  Single-note folders ("@ + decimal(s.len()) + "):\n"@ + listed_lines(s)
    } else {
        Seq::empty()
    }
}

/// The per-area table's column heads and rule.
pub open spec fn table_head() -> Seq<char> {
    "  "@ + pad_right("Area"@, 40) + " "@ + pad_left("Notes"@, 6) + " "@ + pad_left("Cats"@, 6) + " "@
        + pad_left("Depth"@, 6) + "\n"@ + "  "@ + copies('─', 62) + "\n"@
}

/// The per-area table.
pub open spec fn table_text(areas: Seq<JdNode>) -> Seq<char> {
    "\n"@ + "  Per-area breakdown:\n"@ + table_head() + area_rows(areas) + "\n"@
}

/// The statistics section, with the two averages already rendered.
pub open spec fn stats_text(nv: Seq<NoteV>, root: JdNode, cat_avg: Seq<char>, note_avg: Seq<char>) -> Seq<char> {
    let areas = root.children@;
    let head = section_head("JD STATISTICS"@) + "  Top-level areas: "@ + decimal(areas.len()) + "\n"@;
    if areas.len() == 0 {
        head + "  (No JD areas found)\n"@ + "\n"@
    } else {
        head + summary_text(nv, areas, cat_avg, note_avg) + singles_text(root) + table_text(areas)
    }
}

/// What `build_hierarchy` promises of a tree, needed to render it.
pub open spec fn tree_ok(h: JdHierarchy) -> bool {
    &&& deep_count(h.root) <= usize::MAX
    &&& max_depth(h.root) <= usize::MAX - 2
    &&& h.areas.len() == h.root.children.len()
    &&& forall|i: int| 0 <= i < h.areas.len() ==> area_ok(#[trigger] h.areas[i], h.root.children@[i])
}

fn count_where_exec(notes: &Vec<Note>, stale: bool) -> (n: usize)
    ensures
        n == if stale {
            count_where(notes.deep_view(), |x: NoteV| stale_id(x))
        } else {
            count_where(notes.deep_view(), |x: NoteV| without_id(x))
        },
{
    let ghost nv = notes.deep_view();
    let ghost p: spec_fn(NoteV) -> bool = if stale { |x: NoteV| stale_id(x) } else { |x: NoteV| without_id(x) };
    let mut n: usize = 0;
    let mut i: usize = 0;
    while i < notes.len()
        invariant
            i <= notes.len(),
            nv == notes.deep_view(),
            p == (if stale { |x: NoteV| stale_id(x) } else { |x: NoteV| without_id(x) }),
            n == count_where(nv.take(i as int), p),
            n <= i,
        decreases notes.len() - i,
    {
        proof {
            assert(nv.take(i + 1).drop_last() =~= nv.take(i as int));
            assert(nv[i as int] == notes[i as int].deep_view());
        }
        let note = &notes[i];
        let rp = chars_of_string(&note.relative_path);
        let hit = if stale {
            note.kind == NoteKind::Regular && !crate::text::contains_str(&rp, "@Trash")
                && !crate::text::contains_str(&rp, "@Archive") && !crate::text::contains_str(&rp, "@Templates")
                && match (&note.jd_id, &note.title_jd_id) {
                (Some(a), Some(b)) => !crate::text::vec_eq(&chars_of_string(a), &chars_of_string(b)),
                _ => false,
            }
        } else {
            note.kind == NoteKind::Regular && !is_special_folder(&rp) && note.title_jd_id.is_none()
                && note.jd_id.is_none()
        };
        assert(hit == p(nv[i as int]));
        if hit {
            n += 1;
        }
        i += 1;
    }
    assert(nv.take(i as int) =~= nv);
    n
}

fn collect_single_note_folders(n: &JdNode, acc: &mut Vec<Vec<char>>)
    ensures
        final(acc).deep_view() == old(acc).deep_view() + singles(*n),
    decreases n,
{
    let ghost a0 = acc.deep_view();
    if n.jd_id.is_some() && n.children.len() == 0 && n.note_count == 1 {
        let c = chars_of_string(&n.name);
        proof {
            crate::text::lemma_deep_chars(c);
        }
        acc.push(c);
        assert(acc.deep_view() =~= a0.push(n.name@));
    }
    let ghost mid = acc.deep_view();
    assert(mid =~= a0 + (if n.jd_id is Some && n.children@.len() == 0 && n.note_count == 1 {
        seq![n.name@]
    } else {
        Seq::<Seq<char>>::empty()
    }));
    let mut i: usize = 0;
    while i < n.children.len()
        invariant
            i <= n.children.len(),
            acc.deep_view() == mid + singles_of(n.children@.take(i as int)),
        decreases n.children.len() - i,
    {
        proof {
            assert(n.children@.take(i + 1).drop_last() =~= n.children@.take(i as int));
            assert(n.children@.take(i + 1).last() == n.children@[i as int]);
        }
        collect_single_note_folders(&n.children[i], acc);
        assert(acc.deep_view() =~= mid + singles_of(n.children@.take(i + 1)));
        i += 1;
    }
    assert(n.children@.take(i as int) =~= n.children@);
}

fn put_listed(out: &mut Vec<char>, items: &Vec<Vec<char>>)
    ensures
        final(out)@ == old(out)@ + listed_lines(items.deep_view()),
{
    let ghost o = out@;
    let ghost iv = items.deep_view();
    let mut i: usize = 0;
    while i < items.len()
        invariant
            i <= items.len(),
            iv == items.deep_view(),
            out@ == o + listed_lines(iv.take(i as int)),
        decreases items.len() - i,
    {
        proof {
            assert(iv.take(i + 1).drop_last() =~= iv.take(i as int));
            crate::text::lemma_deep_chars(items[i as int]);
        }
        put_str(out, "    - ");
        put(out, &items[i]);
        put_str(out, "\n");
        assert(out@ =~= o + listed_lines(iv.take(i + 1)));
        i += 1;
    }
    assert(iv.take(i as int) =~= iv);
}

fn put_number(out: &mut Vec<char>, n: usize)
    ensures
        final(out)@ == old(out)@ + decimal(n as nat),
{
    put(out, &decimal_of(n));
}

/// The sums behind the statistics' averages: category counts and note
/// counts over the areas, and the number of areas.
pub open spec fn sum_nats(s: Seq<nat>) -> nat
    decreases s.len(),
{
    if s.len() == 0 {
        0
    } else {
        sum_nats(s.drop_last()) + s.last()
    }
}

fn area_extremes(h: &JdHierarchy) -> (r: (usize, usize, usize, usize, usize))
    requires
        tree_ok(*h),
    ensures
        r.0 == crate::analyzer::depth_inconsistency::seq_min(cat_counts(h.root.children@)),
        r.1 == crate::analyzer::depth_inconsistency::seq_max(cat_counts(h.root.children@)),
        r.2 == crate::analyzer::depth_inconsistency::seq_min(note_counts(h.root.children@)),
        r.3 == crate::analyzer::depth_inconsistency::seq_max(note_counts(h.root.children@)),
        r.4 == crate::analyzer::depth_inconsistency::seq_max(depths(h.root.children@)),
{
    let ghost areas = h.root.children@;
    let n = h.areas.len();
    let mut cmin: usize = 0;
    let mut cmax: usize = 0;
    let mut nmin: usize = 0;
    let mut nmax: usize = 0;
    let mut dmax: usize = 0;
    let mut i: usize = 0;
    while i < n
        invariant
            i <= n == h.areas.len() == areas.len(),
            areas == h.root.children@,
            forall|k: int| 0 <= k < h.areas.len() ==> area_ok(#[trigger] h.areas[k], h.root.children@[k]),
            cmin == crate::analyzer::depth_inconsistency::seq_min(cat_counts(areas.take(i as int))),
            cmax == crate::analyzer::depth_inconsistency::seq_max(cat_counts(areas.take(i as int))),
            nmin == crate::analyzer::depth_inconsistency::seq_min(note_counts(areas.take(i as int))),
            nmax == crate::analyzer::depth_inconsistency::seq_max(note_counts(areas.take(i as int))),
            dmax == crate::analyzer::depth_inconsistency::seq_max(depths(areas.take(i as int))),
        decreases n - i,
    {
        proof {
            assert(area_ok(h.areas[i as int], areas[i as int]));
            let t1 = areas.take(i + 1);
            let t0 = areas.take(i as int);
            assert(cat_counts(t1) =~= cat_counts(t0).push(areas[i as int].children@.len()));
            assert(note_counts(t1) =~= note_counts(t0).push(deep_count(areas[i as int])));
            assert(depths(t1) =~= depths(t0).push(max_depth(areas[i as int])));
            assert(cat_counts(t1).drop_last() =~= cat_counts(t0));
            assert(note_counts(t1).drop_last() =~= note_counts(t0));
            assert(depths(t1).drop_last() =~= depths(t0));
        }
        let a = &h.areas[i];
        if i == 0 || a.category_count < cmin {
            cmin = a.category_count;
        }
        if a.category_count > cmax {
            cmax = a.category_count;
        }
        if i == 0 || a.total_notes < nmin {
            nmin = a.total_notes;
        }
        if a.total_notes > nmax {
            nmax = a.total_notes;
        }
        if a.max_depth > dmax {
            dmax = a.max_depth;
        }
        i += 1;
    }
    assert(areas.take(i as int) =~= areas);
    (cmin, cmax, nmin, nmax, dmax)
}

fn put_min_max_line(out: &mut Vec<char>, label: &str, lo: usize, hi: usize, avg: &str)
    ensures
        final(out)@ == old(out)@ + min_max_line(label@, lo as nat, hi as nat, avg@),
{
    let ghost o = out@;
    put_str(out, label);
    put_number(out, lo);
    put_str(out, ", max=");
    put_number(out, hi);
    put_str(out, ", avg=");
    put_str(out, avg);
    put_str(out, "\n");
    assert(out@ =~= o + min_max_line(label@, lo as nat, hi as nat, avg@));
}

fn put_summary(out: &mut Vec<char>, store: &NoteStore, h: &JdHierarchy, cat_avg: &str, note_avg: &str)
    requires
        tree_ok(*h),
    ensures
        final(out)@ == old(out)@ + summary_text(store.notes.deep_view(), h.root.children@, cat_avg@, note_avg@),
{
    let ghost o = out@;
    let (cmin, cmax, nmin, nmax, dmax) = area_extremes(h);
    let no_id = count_where_exec(&store.notes, false);
    let stale = count_where_exec(&store.notes, true);
    put_min_max_line(out, "  Categories per area: min=", cmin, cmax, cat_avg);
    put_min_max_line(out, "  Notes per area: min=", nmin, nmax, note_avg);
    put_count_line(out, "  Maximum folder depth: ", dmax);
    put_count_line(out, "  Notes without JD IDs: ", no_id);
    put_count_line(out, "  Notes with stale IDs (filename != title): ", stale);
    assert(out@ =~= o + summary_text(store.notes.deep_view(), h.root.children@, cat_avg@, note_avg@));
}

fn put_singles(out: &mut Vec<char>, root: &JdNode)
    ensures
        final(out)@ == old(out)@ + singles_text(*root),
{
    let ghost o = out@;
    let mut s: Vec<Vec<char>> = Vec::new();
    collect_single_note_folders(root, &mut s);
    assert(s.deep_view() =~= singles(*root));
    if s.len() > 0 {
        put_str(out, "\n");
        put_str(out, "  Single-note folders (");
        put_number(out, s.len());
        put_str(out, "):\n");
        put_listed(out, &s);
    }
    assert(out@ =~= o + singles_text(*root));
}

fn put_table_head(out: &mut Vec<char>)
    ensures
        final(out)@ == old(out)@ + table_head(),
{
    let ghost o = out@;
    put_str(out, "  ");
    put_pad_right(out, &chars_of("Area"), 40);
    put_str(out, " ");
    put_pad_left(out, &chars_of("Notes"), 6);
    put_str(out, " ");
    put_pad_left(out, &chars_of("Cats"), 6);
    put_str(out, " ");
    put_pad_left(out, &chars_of("Depth"), 6);
    put_str(out, "\n");
    put_str(out, "  ");
    put_copies(out, '─', 62);
    put_str(out, "\n");
    assert(out@ =~= o + table_head());
}

fn put_area_row(out: &mut Vec<char>, a: &AreaStats, Ghost(n): Ghost<JdNode>)
    requires
        area_ok(*a, n),
    ensures
        final(out)@ == old(out)@ + area_row(n),
{
    let ghost o = out@;
    put_str(out, "  ");
    put_pad_right(out, &chars_of_string(&a.folder_name), 40);
    put_str(out, " ");
    put_pad_left(out, &decimal_of(a.total_notes), 6);
    put_str(out, " ");
    put_pad_left(out, &decimal_of(a.category_count), 6);
    put_str(out, " ");
    put_pad_left(out, &decimal_of(a.max_depth), 6);
    put_str(out, "\n");
    assert(out@ =~= o + area_row(n));
}

fn put_table(out: &mut Vec<char>, h: &JdHierarchy)
    requires
        tree_ok(*h),
    ensures
        final(out)@ == old(out)@ + table_text(h.root.children@),
{
    let ghost o = out@;
    let ghost areas = h.root.children@;
    let n = h.areas.len();
    put_str(out, "\n");
    put_str(out, "  Per-area breakdown:\n");
    put_table_head(out);
    let ghost before_rows = out@;
    let mut k: usize = 0;
    while k < n
        invariant
            k <= n == h.areas.len() == areas.len(),
            areas == h.root.children@,
            forall|q: int| 0 <= q < h.areas.len() ==> area_ok(#[trigger] h.areas[q], h.root.children@[q]),
            out@ == before_rows + area_rows(areas.take(k as int)),
        decreases n - k,
    {
        proof {
            assert(area_ok(h.areas[k as int], areas[k as int]));
            assert(areas.take(k + 1).drop_last() =~= areas.take(k as int));
            assert(areas.take(k + 1).last() == areas[k as int]);
        }
        put_area_row(out, &h.areas[k], Ghost(areas[k as int]));
        assert(out@ =~= before_rows + area_rows(areas.take(k + 1)));
        k += 1;
    }
    assert(areas.take(k as int) =~= areas);
    put_str(out, "\n");
    assert(out@ =~= o + table_text(areas));
}

fn write_jd_statistics(out: &mut Vec<char>, store: &NoteStore, h: &JdHierarchy, cat_avg: &str, note_avg: &str)
    requires
        tree_ok(*h),
    ensures
        final(out)@ == old(out)@ + stats_text(store.notes.deep_view(), h.root, cat_avg@, note_avg@),
{
    let ghost o = out@;
    let n = h.areas.len();
    section(out, "JD STATISTICS");
    put_str(out, "  Top-level areas: ");
    put_number(out, n);
    put_str(out, "\n");
    let ghost head = out@;
    if n == 0 {
        put_str(out, "  (No JD areas found)\n");
        put_str(out, "\n");
        assert(out@ =~= o + stats_text(store.notes.deep_view(), h.root, cat_avg@, note_avg@));
        return;
    }
    put_summary(out, store, h, cat_avg, note_avg);
    put_singles(out, &h.root);
    put_table(out, h);
    assert(out@ =~= head + summary_text(store.notes.deep_view(), h.root.children@, cat_avg@, note_avg@)
        + singles_text(h.root) + table_text(h.root.children@));
    assert(out@ =~= o + stats_text(store.notes.deep_view(), h.root, cat_avg@, note_avg@));
}


// ─── Hub coverage ───────────────────────────────────────────────────────────

/// The hub-like section headings, in order.
pub open spec fn hub_headings(ss: Seq<SectionV>) -> Seq<Seq<char>>
    decreases ss.len(),
{
    if ss.len() == 0 {
        Seq::empty()
    } else if hub_like(ss.last().heading) {
        hub_headings(ss.drop_last()).push(ss.last().heading)
    } else {
        hub_headings(ss.drop_last())
    }
}

/// The hub notes (regular, outside the special folders, two or more
/// hub-like sections) with their hub-like headings.
pub open spec fn dump_hubs(nv: Seq<NoteV>) -> Seq<(Seq<char>, Seq<Seq<char>>)>
    decreases nv.len(),
{
    if nv.len() == 0 {
        Seq::empty()
    } else {
        let n = nv.last();
        if n.kind == NoteKind::Regular && !special_folder(n.relative_path) && hub_headings(n.sections).len() >= 2 {
            dump_hubs(nv.drop_last()).push((n.relative_path, hub_headings(n.sections)))
        } else {
            dump_hubs(nv.drop_last())
        }
    }
}

/// `area/category` of a hub note's path: its two innermost folders.
pub open spec fn hub_key(path: Seq<char>) -> Option<Seq<char>> {
    let parts = split_on(path, '/');
    if parts.len() >= 3 {
        Some(parts[parts.len() - 3] + "/"@ + parts[parts.len() - 2])
    } else {
        None
    }
}

pub open spec fn hub_keys(hs: Seq<(Seq<char>, Seq<Seq<char>>)>) -> Seq<Seq<char>>
    decreases hs.len(),
{
    if hs.len() == 0 {
        Seq::empty()
    } else {
        match hub_key(hs.last().0) {
            Some(k) => hub_keys(hs.drop_last()).push(k),
            None => hub_keys(hs.drop_last()),
        }
    }
}

/// The numbered categories of area `a` whose `area/category` no hub names.
pub open spec fn missing_in(a: JdNode, cats: Seq<JdNode>, keys: Seq<Seq<char>>) -> Seq<Seq<char>>
    decreases cats.len(),
{
    if cats.len() == 0 {
        Seq::empty()
    } else {
        let key = a.name@ + "/"@ + cats.last().name@;
        if cats.last().jd_id is Some && !keys.contains(key) {
            missing_in(a, cats.drop_last(), keys).push(key)
        } else {
            missing_in(a, cats.drop_last(), keys)
        }
    }
}

pub open spec fn missing_cats(areas: Seq<JdNode>, keys: Seq<Seq<char>>) -> Seq<Seq<char>>
    decreases areas.len(),
{
    if areas.len() == 0 {
        Seq::empty()
    } else {
        missing_cats(areas.drop_last(), keys) + missing_in(areas.last(), areas.last().children@, keys)
    }
}

pub open spec fn hub_lines(hs: Seq<(Seq<char>, Seq<Seq<char>>)>) -> Seq<char>
    decreases hs.len(),
{
    if hs.len() == 0 {
        Seq::empty()
    } else {
        hub_lines(hs.drop_last()) + "    - "@ + hs.last().0 + " (sections: "@ + join(hs.last().1, ", "@) + ")\n"@
    }
}

pub open spec fn hub_text(nv: Seq<NoteV>, root: JdNode) -> Seq<char> {
    let hs = dump_hubs(nv);
    let missing = missing_cats(root.children@, hub_keys(hs));
    section_head("HUB COVERAGE"@) + "  Hub notes found: "@ + decimal(hs.len()) + "\n"@ + hub_lines(hs) + (if missing.len()
        > 0 {
        "\n"@ + "  Categories WITHOUT a hub note ("@ + decimal(missing.len()) + "):\n"@ + listed_lines(missing)
    } else {
        Seq::empty()
    }) + "\n"@
}

fn dump_hubs_exec(store: &NoteStore) -> (r: Vec<(Vec<char>, Vec<Vec<char>>)>)
    ensures
        r.deep_view() == dump_hubs(store.notes.deep_view()),
{
    let ghost nv = store.notes.deep_view();
    let names = hub_section_names();
    let mut hs: Vec<(Vec<char>, Vec<Vec<char>>)> = Vec::new();
    let mut i: usize = 0;
    while i < store.notes.len()
        invariant
            i <= store.notes.len(),
            nv == store.notes.deep_view(),
            names.deep_view() == hub_sections(),
            hs.deep_view() == dump_hubs(nv.take(i as int)),
        decreases store.notes.len() - i,
    {
        proof {
            assert(nv.take(i + 1).drop_last() =~= nv.take(i as int));
            assert(nv[i as int] == store.notes[i as int].deep_view());
        }
        let note = &store.notes[i];
        let ghost sv = note.sections.deep_view();
        let mut heads: Vec<Vec<char>> = Vec::new();
        let mut k: usize = 0;
        while k < note.sections.len()
            invariant
                k <= note.sections.len(),
                sv == note.sections.deep_view(),
                names.deep_view() == hub_sections(),
                heads.deep_view() == hub_headings(sv.take(k as int)),
            decreases note.sections.len() - k,
        {
            proof {
                assert(sv.take(k + 1).drop_last() =~= sv.take(k as int));
                assert(sv[k as int] == note.sections[k as int].deep_view());
            }
            let h = chars_of_string(&note.sections[k].heading);
            if is_hub_like(&h, &names) {
                let ghost h0 = heads.deep_view();
                proof {
                    crate::text::lemma_deep_chars(h);
                }
                heads.push(h);
                assert(heads.deep_view() =~= h0.push(sv[k as int].heading));
            }
            k += 1;
        }
        assert(sv.take(k as int) =~= sv);
        let rp = chars_of_string(&note.relative_path);
        if note.kind == NoteKind::Regular && !is_special_folder(&rp) && heads.len() >= 2 {
            let ghost h0 = hs.deep_view();
            proof {
                crate::text::lemma_deep_chars(rp);
            }
            hs.push((rp, heads));
            assert(hs.deep_view() =~= h0.push((nv[i as int].relative_path, hub_headings(nv[i as int].sections))));
        }
        i += 1;
    }
    assert(nv.take(i as int) =~= nv);
    hs
}

fn hub_keys_exec(hs: &Vec<(Vec<char>, Vec<Vec<char>>)>) -> (r: Vec<Vec<char>>)
    ensures
        r.deep_view() == hub_keys(hs.deep_view()),
{
    let ghost hv = hs.deep_view();
    let mut keys: Vec<Vec<char>> = Vec::new();
    let mut i: usize = 0;
    while i < hs.len()
        invariant
            i <= hs.len(),
            hv == hs.deep_view(),
            keys.deep_view() == hub_keys(hv.take(i as int)),
        decreases hs.len() - i,
    {
        proof {
            assert(hv.take(i + 1).drop_last() =~= hv.take(i as int));
            crate::text::lemma_deep_chars(hs[i as int].0);
            assert(hv[i as int].0 == hs[i as int].0@);
        }
        let parts = split_vec(&hs[i].0, '/');
        if parts.len() >= 3 {
            proof {
                crate::text::lemma_deep_chars(parts[parts.len() - 3]);
                crate::text::lemma_deep_chars(parts[parts.len() - 2]);
            }
            let key = concat(&concat(&parts[parts.len() - 3], &chars_of("/")), &parts[parts.len() - 2]);
            let ghost k0 = keys.deep_view();
            proof {
                crate::text::lemma_deep_chars(key);
            }
            keys.push(key);
            assert(keys.deep_view() =~= k0.push(hub_key(hv[i as int].0)->0));
        }
        i += 1;
    }
    assert(hv.take(i as int) =~= hv);
    keys
}

fn missing_in_exec(a: &JdNode, keys: &Vec<Vec<char>>, acc: &mut Vec<Vec<char>>)
    ensures
        final(acc).deep_view() == old(acc).deep_view() + missing_in(*a, a.children@, keys.deep_view()),
{
    let ghost base = acc.deep_view();
    let mut j: usize = 0;
    while j < a.children.len()
        invariant
            j <= a.children.len(),
            acc.deep_view() == base + missing_in(*a, a.children@.take(j as int), keys.deep_view()),
        decreases a.children.len() - j,
    {
        proof {
            assert(a.children@.take(j + 1).drop_last() =~= a.children@.take(j as int));
            assert(a.children@.take(j + 1).last() == a.children@[j as int]);
        }
        let c = &a.children[j];
        let key = concat(&concat(&chars_of_string(&a.name), &chars_of("/")), &chars_of_string(&c.name));
        if c.jd_id.is_some() && !crate::parser::hierarchy::contains_name(keys, &key) {
            let ghost k0 = acc.deep_view();
            proof {
                crate::text::lemma_deep_chars(key);
            }
            acc.push(key);
            assert(acc.deep_view() =~= k0.push(a.name@ + "/"@ + c.name@));
        }
        j += 1;
    }
    assert(a.children@.take(j as int) =~= a.children@);
}

fn put_hub_lines(out: &mut Vec<char>, hs: &Vec<(Vec<char>, Vec<Vec<char>>)>)
    ensures
        final(out)@ == old(out)@ + hub_lines(hs.deep_view()),
{
    let ghost o = out@;
    let ghost hv = hs.deep_view();
    let mut i: usize = 0;
    while i < hs.len()
        invariant
            i <= hs.len(),
            hv == hs.deep_view(),
            out@ == o + hub_lines(hv.take(i as int)),
        decreases hs.len() - i,
    {
        proof {
            assert(hv.take(i + 1).drop_last() =~= hv.take(i as int));
            crate::text::lemma_deep_chars(hs[i as int].0);
            assert(hv[i as int].0 == hs[i as int].0@);
            assert(hv[i as int].1 == hs[i as int].1.deep_view());
        }
        put_str(out, "    - ");
        put(out, &hs[i].0);
        put_str(out, " (sections: ");
        put(out, &join_vec(&hs[i].1, &chars_of(", ")));
        put_str(out, ")\n");
        assert(out@ =~= o + hub_lines(hv.take(i + 1)));
        i += 1;
    }
    assert(hv.take(i as int) =~= hv);
}

fn write_hub_coverage(out: &mut Vec<char>, store: &NoteStore, root: &JdNode)
    ensures
        final(out)@ == old(out)@ + hub_text(store.notes.deep_view(), *root),
{
    let ghost o = out@;
    let hs = dump_hubs_exec(store);
    let keys = hub_keys_exec(&hs);
    let mut missing: Vec<Vec<char>> = Vec::new();
    let mut a: usize = 0;
    while a < root.children.len()
        invariant
            a <= root.children.len(),
            missing.deep_view() == missing_cats(root.children@.take(a as int), keys.deep_view()),
        decreases root.children.len() - a,
    {
        proof {
            assert(root.children@.take(a + 1).drop_last() =~= root.children@.take(a as int));
            assert(root.children@.take(a + 1).last() == root.children@[a as int]);
        }
        missing_in_exec(&root.children[a], &keys, &mut missing);
        a += 1;
    }
    assert(root.children@.take(a as int) =~= root.children@);
    section(out, "HUB COVERAGE");
    put_str(out, "  Hub notes found: ");
    put_number(out, hs.len());
    put_str(out, "\n");
    put_hub_lines(out, &hs);
    if missing.len() > 0 {
        put_str(out, "\n");
        put_str(out, "  Categories WITHOUT a hub note (");
        put_number(out, missing.len());
        put_str(out, "):\n");
        put_listed(out, &missing);
    }
    put_str(out, "\n");
    assert(out@ =~= o + hub_text(store.notes.deep_view(), *root));
}

// ─── Notes outside the numbering ────────────────────────────────────────────

/// Regular notes outside the special folders with no ID of their own, in
/// their title or from their folder.
pub open spec fn outside_jd(n: NoteV) -> bool {
    n.kind == NoteKind::Regular && !special_folder(n.relative_path) && n.title_jd_id is None && n.jd_id is None
        && n.parent_jd_id is None
}

pub open spec fn outside_paths(nv: Seq<NoteV>) -> Seq<Seq<char>>
    decreases nv.len(),
{
    if nv.len() == 0 {
        Seq::empty()
    } else if outside_jd(nv.last()) {
        outside_paths(nv.drop_last()).push(nv.last().relative_path)
    } else {
        outside_paths(nv.drop_last())
    }
}

pub open spec fn unfiled_text(nv: Seq<NoteV>) -> Seq<char> {
    let ps = outside_paths(nv);
    section_head("NOTES OUTSIDE JD SYSTEM"@) + (if ps.len() == 0 {
        "  (All notes are within JD-structured folders)\n"@
    } else {
        "  "@ + decimal(ps.len()) + " notes outside JD system:\n"@ + listed_lines(ps)
    }) + "\n"@
}

fn write_unfiled_notes(out: &mut Vec<char>, store: &NoteStore)
    ensures
        final(out)@ == old(out)@ + unfiled_text(store.notes.deep_view()),
{
    let ghost o = out@;
    let ghost nv = store.notes.deep_view();
    let mut ps: Vec<Vec<char>> = Vec::new();
    let mut i: usize = 0;
    while i < store.notes.len()
        invariant
            i <= store.notes.len(),
            nv == store.notes.deep_view(),
            ps.deep_view() == outside_paths(nv.take(i as int)),
        decreases store.notes.len() - i,
    {
        proof {
            assert(nv.take(i + 1).drop_last() =~= nv.take(i as int));
            assert(nv[i as int] == store.notes[i as int].deep_view());
        }
        let note = &store.notes[i];
        let rp = chars_of_string(&note.relative_path);
        if note.kind == NoteKind::Regular && !is_special_folder(&rp) && note.title_jd_id.is_none()
            && note.jd_id.is_none() && note.parent_jd_id.is_none() {
            let ghost p0 = ps.deep_view();
            proof {
                crate::text::lemma_deep_chars(rp);
            }
            ps.push(rp);
            assert(ps.deep_view() =~= p0.push(nv[i as int].relative_path));
        }
        i += 1;
    }
    assert(nv.take(i as int) =~= nv);
    section(out, "NOTES OUTSIDE JD SYSTEM");
    if ps.len() == 0 {
        put_str(out, "  (All notes are within JD-structured folders)\n");
    } else {
        put_str(out, "  ");
        put_number(out, ps.len());
        put_str(out, " notes outside JD system:\n");
        put_listed(out, &ps);
    }
    put_str(out, "\n");
    assert(out@ =~= o + unfiled_text(nv));
}


// ─── Tag usage ──────────────────────────────────────────────────────────────

/// Regular notes outside trash and archive count for tag usage.
pub open spec fn tag_eligible(n: NoteV) -> bool {
    n.kind == NoteKind::Regular && !crate::text::contains(n.relative_path, "@Trash"@)
        && !crate::text::contains(n.relative_path, "@Archive"@)
}

/// The tags of the counted notes, note by note, repeats kept.
pub open spec fn tag_stream(nv: Seq<NoteV>) -> Seq<Seq<char>>
    decreases nv.len(),
{
    if nv.len() == 0 {
        Seq::empty()
    } else if tag_eligible(nv.last()) {
        tag_stream(nv.drop_last()) + nv.last().tags
    } else {
        tag_stream(nv.drop_last())
    }
}

pub open spec fn seq_count(s: Seq<Seq<char>>, t: Seq<char>) -> nat
    decreases s.len(),
{
    if s.len() == 0 {
        0
    } else {
        seq_count(s.drop_last(), t) + if s.last() == t {
            1nat
        } else {
            0nat
        }
    }
}

/// How many counted notes carry tag `t`.
pub open spec fn tagged_notes(nv: Seq<NoteV>, t: Seq<char>) -> nat
    decreases nv.len(),
{
    if nv.len() == 0 {
        0
    } else {
        tagged_notes(nv.drop_last(), t) + if tag_eligible(nv.last()) && nv.last().tags.contains(t) {
            1nat
        } else {
            0nat
        }
    }
}

/// A tag with its number of uses and of notes.
pub open spec fn tag_row(nv: Seq<NoteV>, t: Seq<char>) -> (Seq<char>, usize, usize) {
    (t, seq_count(tag_stream(nv), t) as usize, tagged_notes(nv, t) as usize)
}

/// Rows go by number of notes, most first, then by tag.
pub open spec fn row_before(a: (Seq<char>, usize, usize), b: (Seq<char>, usize, usize)) -> bool {
    a.2 > b.2 || (a.2 == b.2 && crate::text::seq_lt(a.0, b.0))
}

pub open spec fn row_pos(s: Seq<(Seq<char>, usize, usize)>, x: (Seq<char>, usize, usize)) -> int
    decreases s.len(),
{
    if s.len() == 0 || row_before(x, s[0]) {
        0
    } else {
        1 + row_pos(s.drop_first(), x)
    }
}

pub open spec fn sort_rows(s: Seq<(Seq<char>, usize, usize)>) -> Seq<(Seq<char>, usize, usize)>
    decreases s.len(),
{
    if s.len() == 0 {
        Seq::empty()
    } else {
        let r = sort_rows(s.drop_last());
        r.insert(row_pos(r, s.last()), s.last())
    }
}

/// Each tag once with its counts, by number of notes (most first), then by
/// tag.
pub open spec fn tag_rows(nv: Seq<NoteV>) -> Seq<(Seq<char>, usize, usize)> {
    sort_rows(crate::parser::markdown::dedup(tag_stream(nv)).map_values(|t: Seq<char>| tag_row(nv, t)))
}

pub open spec fn tag_lines(rows: Seq<(Seq<char>, usize, usize)>) -> Seq<char>
    decreases rows.len(),
{
    if rows.len() == 0 {
        Seq::empty()
    } else {
        let r = rows.last();
        tag_lines(rows.drop_last()) + "  "@ + pad_right(r.0, 30) + " "@ + pad_left(decimal(r.1 as nat), 8) + " "@
            + pad_left(decimal(r.2 as nat), 8) + "\n"@
    }
}

pub open spec fn tag_head() -> Seq<char> {
    "  "@ + pad_right("Tag"@, 30) + " "@ + pad_left("Uses"@, 8) + " "@ + pad_left("Notes"@, 8) + "\n"@ + "  "@
        + copies('─', 48) + "\n"@
}

/// The tag table: the thirty most used tags, and how many more there are.
/// How many tag rows the table lists: thirty at most.
pub open spec fn tags_shown(n: nat) -> int {
    if n < 30 { n as int } else { 30 }
}

/// The line that counts the tags left out of the table, if any were.
pub open spec fn tags_more(n: nat) -> Seq<char> {
    if n > 30 {
        "  ... and "@ + decimal((n - 30) as nat) + " more tags\n"@
    } else {
        Seq::empty()
    }
}

pub open spec fn tag_text(nv: Seq<NoteV>) -> Seq<char> {
    let rows = tag_rows(nv);
    section_head("TAG USAGE"@) + if rows.len() == 0 {
        "  (No tags found)\n"@ + "\n"@
    } else {
        tag_head() + tag_lines(rows.take(tags_shown(rows.len()))) + tags_more(rows.len()) + "\n"@
    }
}

proof fn lemma_row_pos_bound(s: Seq<(Seq<char>, usize, usize)>, x: (Seq<char>, usize, usize))
    ensures
        0 <= row_pos(s, x) <= s.len(),
    decreases s.len(),
{
    if s.len() > 0 && !row_before(x, s[0]) {
        lemma_row_pos_bound(s.drop_first(), x);
    }
}

fn tag_stream_exec(store: &NoteStore) -> (r: Vec<Vec<char>>)
    ensures
        r.deep_view() == tag_stream(store.notes.deep_view()),
{
    let ghost nv = store.notes.deep_view();
    let mut out: Vec<Vec<char>> = Vec::new();
    let mut i: usize = 0;
    while i < store.notes.len()
        invariant
            i <= store.notes.len(),
            nv == store.notes.deep_view(),
            out.deep_view() == tag_stream(nv.take(i as int)),
        decreases store.notes.len() - i,
    {
        proof {
            assert(nv.take(i + 1).drop_last() =~= nv.take(i as int));
            assert(nv[i as int] == store.notes[i as int].deep_view());
        }
        let note = &store.notes[i];
        let rp = chars_of_string(&note.relative_path);
        if note.kind == NoteKind::Regular && !crate::text::contains_str(&rp, "@Trash")
            && !crate::text::contains_str(&rp, "@Archive") {
            let ghost base = out.deep_view();
            let mut k: usize = 0;
            while k < note.tags.len()
                invariant
                    k <= note.tags.len(),
                    out.deep_view() == base + note.tags.deep_view().take(k as int),
                decreases note.tags.len() - k,
            {
                let c = chars_of_string(&note.tags[k]);
                let ghost o0 = out.deep_view();
                proof {
                    crate::text::lemma_deep_chars(c);
                }
                out.push(c);
                assert(out.deep_view() =~= o0.push(note.tags.deep_view()[k as int]));
                assert(note.tags.deep_view().take(k + 1) =~= note.tags.deep_view().take(k as int).push(
                    note.tags.deep_view()[k as int],
                ));
                k += 1;
            }
            assert(note.tags.deep_view().take(k as int) =~= note.tags.deep_view());
        }
        i += 1;
    }
    assert(nv.take(i as int) =~= nv);
    out
}

fn seq_count_exec(s: &Vec<Vec<char>>, t: &Vec<char>) -> (n: usize)
    ensures
        n == seq_count(s.deep_view(), t@),
{
    let ghost sv = s.deep_view();
    let mut n: usize = 0;
    let mut i: usize = 0;
    while i < s.len()
        invariant
            i <= s.len(),
            sv == s.deep_view(),
            n == seq_count(sv.take(i as int), t@),
            n <= i,
        decreases s.len() - i,
    {
        proof {
            assert(sv.take(i + 1).drop_last() =~= sv.take(i as int));
            crate::text::lemma_deep_chars(s[i as int]);
        }
        if crate::text::vec_eq(&s[i], t) {
            n += 1;
        }
        i += 1;
    }
    assert(sv.take(i as int) =~= sv);
    n
}

fn tagged_notes_exec(store: &NoteStore, t: &Vec<char>) -> (n: usize)
    ensures
        n == tagged_notes(store.notes.deep_view(), t@),
{
    let ghost nv = store.notes.deep_view();
    let mut n: usize = 0;
    let mut i: usize = 0;
    while i < store.notes.len()
        invariant
            i <= store.notes.len(),
            nv == store.notes.deep_view(),
            n == tagged_notes(nv.take(i as int), t@),
            n <= i,
        decreases store.notes.len() - i,
    {
        proof {
            assert(nv.take(i + 1).drop_last() =~= nv.take(i as int));
            assert(nv[i as int] == store.notes[i as int].deep_view());
        }
        let note = &store.notes[i];
        let rp = chars_of_string(&note.relative_path);
        if note.kind == NoteKind::Regular && !crate::text::contains_str(&rp, "@Trash")
            && !crate::text::contains_str(&rp, "@Archive") {
            let mut has = false;
            let mut k: usize = 0;
            while k < note.tags.len()
                invariant
                    k <= note.tags.len(),
                    has == exists|q: int| 0 <= q < k && note.tags.deep_view()[q] == t@,
                decreases note.tags.len() - k,
            {
                assert(note.tags.deep_view()[k as int] == note.tags[k as int]@);
                if crate::text::vec_eq(&chars_of_string(&note.tags[k]), t) {
                    has = true;
                }
                k += 1;
            }
            if has {
                n += 1;
            }
        }
        i += 1;
    }
    assert(nv.take(i as int) =~= nv);
    n
}

fn row_before_exec(a: &(Vec<char>, usize, usize), b: &(Vec<char>, usize, usize)) -> (r: bool)
    ensures
        r == row_before((a.0@, a.1, a.2), (b.0@, b.1, b.2)),
{
    a.2 > b.2 || (a.2 == b.2 && crate::text::lt_chars(&a.0, &b.0))
}

pub open spec fn rows_view(v: Seq<(Vec<char>, usize, usize)>) -> Seq<(Seq<char>, usize, usize)> {
    v.map_values(|r: (Vec<char>, usize, usize)| (r.0@, r.1, r.2))
}

fn insert_row(rows: &mut Vec<(Vec<char>, usize, usize)>, x: (Vec<char>, usize, usize))
    ensures
        rows_view(final(rows)@) == rows_view(old(rows)@).insert(
            row_pos(rows_view(old(rows)@), (x.0@, x.1, x.2)),
            (x.0@, x.1, x.2),
        ),
{
    let ghost s = rows_view(rows@);
    let ghost xv = (x.0@, x.1, x.2);
    let mut p: usize = 0;
    proof {
        assert(s.skip(0) =~= s);
        lemma_row_pos_bound(s, xv);
    }
    while p < rows.len() && !row_before_exec(&x, &rows[p])
        invariant
            p <= rows.len(),
            rows_view(rows@) == s,
            xv == (x.0@, x.1, x.2),
            row_pos(s, xv) == p + row_pos(s.skip(p as int), xv),
        decreases rows.len() - p,
    {
        assert(s[p as int] == (rows[p as int].0@, rows[p as int].1, rows[p as int].2));
        assert(s.skip(p as int)[0] == s[p as int]);
        assert(s.skip(p as int).drop_first() =~= s.skip(p + 1));
        p += 1;
    }
    if p < rows.len() {
        assert(s[p as int] == (rows[p as int].0@, rows[p as int].1, rows[p as int].2));
        assert(s.skip(p as int)[0] == s[p as int]);
    }
    let ghost r0 = rows@;
    rows.insert(p, x);
    proof {
        r0.insert_ensures(p as int, x);
        s.insert_ensures(p as int, xv);
        assert forall|k: int| 0 <= k < rows.len() implies rows_view(rows@)[k] == s.insert(p as int, xv)[k] by {
            if k < p {
                assert(rows@[k] == r0[k]);
            } else if k > p {
                assert(rows@[k] == r0[k - 1]);
            }
        }
        assert(rows_view(rows@) =~= s.insert(p as int, xv));
    }
}

fn tag_rows_exec(store: &NoteStore) -> (r: Vec<(Vec<char>, usize, usize)>)
    ensures
        rows_view(r@) == tag_rows(store.notes.deep_view()),
{
    let ghost nv = store.notes.deep_view();
    let stream = tag_stream_exec(store);
    let distinct = crate::parser::markdown::dedup_chars(&stream);
    let ghost dv = distinct.deep_view();
    let ghost unsorted = dv.map_values(|t: Seq<char>| tag_row(nv, t));
    let mut rows: Vec<(Vec<char>, usize, usize)> = Vec::new();
    let mut i: usize = 0;
    while i < distinct.len()
        invariant
            i <= distinct.len(),
            nv == store.notes.deep_view(),
            dv == distinct.deep_view(),
            stream.deep_view() == tag_stream(nv),
            unsorted == dv.map_values(|t: Seq<char>| tag_row(nv, t)),
            rows_view(rows@) == sort_rows(unsorted.take(i as int)),
        decreases distinct.len() - i,
    {
        proof {
            crate::text::lemma_deep_chars(distinct[i as int]);
            assert(unsorted.take(i + 1).drop_last() =~= unsorted.take(i as int));
        }
        let t = distinct[i].clone();
        let occ = seq_count_exec(&stream, &t);
        let notes = tagged_notes_exec(store, &t);
        proof {
            assert(unsorted[i as int] == tag_row(nv, dv[i as int]));
            assert(unsorted.take(i + 1).last() == (t@, occ, notes));
        }
        insert_row(&mut rows, (t, occ, notes));
        i += 1;
    }
    assert(unsorted.take(i as int) =~= unsorted);
    rows
}

fn put_tag_lines(out: &mut Vec<char>, rows: &Vec<(Vec<char>, usize, usize)>, n: usize)
    requires
        n <= rows.len(),
    ensures
        final(out)@ == old(out)@ + tag_lines(rows_view(rows@).take(n as int)),
{
    let ghost o = out@;
    let ghost rv = rows_view(rows@);
    let mut i: usize = 0;
    while i < n
        invariant
            i <= n <= rows.len(),
            rv == rows_view(rows@),
            out@ == o + tag_lines(rv.take(i as int)),
        decreases n - i,
    {
        proof {
            assert(rv.take(i + 1).drop_last() =~= rv.take(i as int));
            assert(rv[i as int] == (rows[i as int].0@, rows[i as int].1, rows[i as int].2));
        }
        put_str(out, "  ");
        put_pad_right(out, &rows[i].0, 30);
        put_str(out, " ");
        put_pad_left(out, &decimal_of(rows[i].1), 8);
        put_str(out, " ");
        put_pad_left(out, &decimal_of(rows[i].2), 8);
        put_str(out, "\n");
        assert(out@ =~= o + tag_lines(rv.take(i + 1)));
        i += 1;
    }
}

fn put_tag_head(out: &mut Vec<char>)
    ensures
        final(out)@ == old(out)@ + tag_head(),
{
    let ghost o = out@;
    put_str(out, "  ");
    put_pad_right(out, &chars_of("Tag"), 30);
    put_str(out, " ");
    put_pad_left(out, &chars_of("Uses"), 8);
    put_str(out, " ");
    put_pad_left(out, &chars_of("Notes"), 8);
    put_str(out, "\n");
    put_str(out, "  ");
    put_copies(out, '─', 48);
    put_str(out, "\n");
    assert(out@ =~= o + tag_head());
}

#[verifier::rlimit(40)]
fn write_tag_usage(out: &mut Vec<char>, store: &NoteStore)
    ensures
        final(out)@ == old(out)@ + tag_text(store.notes.deep_view()),
{
    let ghost o = out@;
    let rows = tag_rows_exec(store);
    section(out, "TAG USAGE");
    let ghost mid = out@;
    if rows.len() == 0 {
        put_str(out, "  (No tags found)\n");
        put_str(out, "\n");
        assert(out@ =~= o + tag_text(store.notes.deep_view()));
        return;
    }
    put_tag_head(out);
    let shown = if rows.len() < 30 { rows.len() } else { 30 };
    put_tag_lines(out, &rows, shown);
    put_tags_more(out, rows.len());
    put_str(out, "\n");
    assert(out@ =~= o + tag_text(store.notes.deep_view()));
}

fn put_tags_more(out: &mut Vec<char>, n: usize)
    ensures
        final(out)@ == old(out)@ + tags_more(n as nat),
{
    let ghost o = out@;
    if n > 30 {
        put_str(out, "  ... and ");
        put_number(out, n - 30);
        put_str(out, " more tags\n");
        assert(out@ =~= o + tags_more(n as nat));
    } else {
        assert(out@ =~= o + tags_more(n as nat));
    }
}


// ─── Activity by area ───────────────────────────────────────────────────────

/// The area a regular note outside the special folders counts for: the first
/// folder below `Notes/`, unless the note sits directly in `Notes/`.
pub open spec fn activity_area(n: NoteV) -> Option<Seq<char>> {
    let parts = split_on(n.relative_path, '/');
    if n.kind == NoteKind::Regular && !special_folder(n.relative_path) && parts.len() >= 3 {
        Some(parts[1])
    } else {
        None
    }
}

/// Modified at `m`, seen at `now`: within the last 90 days.
pub open spec fn recent(m: i64, now: i64) -> bool {
    now >= m && now - m < 90 * NANOS_PER_DAY
}

pub open spec fn find_act(acts: Seq<(Seq<char>, usize, i64)>, a: Seq<char>) -> Option<int>
    decreases acts.len(),
{
    if acts.len() == 0 {
        None
    } else if acts.last().0 == a {
        Some(acts.len() - 1)
    } else {
        find_act(acts.drop_last(), a)
    }
}

/// One note's modification folded in: the area's count of recent notes and
/// its latest time (starting at the epoch).
pub open spec fn fold_act(acts: Seq<(Seq<char>, usize, i64)>, a: Seq<char>, m: i64, now: i64) -> Seq<(Seq<char>, usize, i64)> {
    let bump: int = if recent(m, now) { 1 } else { 0 };
    match find_act(acts, a) {
        Some(k) => acts.update(k, (a, (acts[k].1 + bump) as usize, if m > acts[k].2 { m } else { acts[k].2 })),
        None => acts.push((a, bump as usize, if m > 0 { m } else { 0 })),
    }
}

pub open spec fn act_entries(nv: Seq<NoteV>, mods: Seq<Option<i64>>, now: i64) -> Seq<(Seq<char>, usize, i64)>
    decreases nv.len(),
{
    if nv.len() == 0 {
        Seq::empty()
    } else {
        let before = act_entries(nv.drop_last(), mods, now);
        match (activity_area(nv.last()), modified_at(mods, nv.len() - 1)) {
            (Some(a), Some(m)) => fold_act(before, a, m, now),
            _ => before,
        }
    }
}

pub open spec fn act_pos(s: Seq<(Seq<char>, usize, i64)>, x: (Seq<char>, usize, i64)) -> int
    decreases s.len(),
{
    if s.len() == 0 || crate::text::seq_lt(x.0, s[0].0) {
        0
    } else {
        1 + act_pos(s.drop_first(), x)
    }
}

pub open spec fn sort_acts(s: Seq<(Seq<char>, usize, i64)>) -> Seq<(Seq<char>, usize, i64)>
    decreases s.len(),
{
    if s.len() == 0 {
        Seq::empty()
    } else {
        let r = sort_acts(s.drop_last());
        r.insert(act_pos(r, s.last()), s.last())
    }
}

/// Each area with its count of notes modified in the last 90 days and its
/// latest modification, sorted by area name.
pub open spec fn activity_rows_of(nv: Seq<NoteV>, mods: Seq<Option<i64>>, now: i64) -> Seq<(Seq<char>, usize, i64)> {
    sort_acts(act_entries(nv, mods, now))
}

pub open spec fn quiet_marker(now: i64, latest: i64) -> Seq<char> {
    if now < latest {
        Seq::empty()
    } else if now - latest >= 15_552_001_000_000_000 {
        "  *** STALE ***"@
    } else if now - latest >= 7_776_001_000_000_000 {
        "  * quiet *"@
    } else {
        Seq::empty()
    }
}

pub open spec fn act_line(r: (Seq<char>, usize, i64), label: Seq<char>, now: i64) -> Seq<char> {
    "  "@ + pad_right(r.0, 40) + " "@ + pad_left(decimal(r.1 as nat), 12) + " "@ + pad_left(label, 14)
        + quiet_marker(now, r.2) + "\n"@
}

pub open spec fn act_lines(rows: Seq<(Seq<char>, usize, i64)>, labels: Seq<Seq<char>>, now: i64) -> Seq<char>
    decreases rows.len(),
{
    if rows.len() == 0 {
        Seq::empty()
    } else {
        act_lines(rows.drop_last(), labels, now) + act_line(rows.last(), labels[rows.len() - 1], now)
    }
}

pub open spec fn act_head() -> Seq<char> {
    "  "@ + pad_right("Area"@, 40) + " "@ + pad_left("Active (90d)"@, 12) + " "@ + pad_left("Last Modified"@, 14)
        + "\n"@ + "  "@ + copies('─', 68) + "\n"@
}

/// The activity table, with `labels[i]` the date shown for row `i`.
pub open spec fn activity_text(rows: Seq<(Seq<char>, usize, i64)>, labels: Seq<Seq<char>>, now: i64) -> Seq<char> {
    section_head("ACTIVITY BY AREA (file modification dates)"@) + if rows.len() == 0 {
        "  (No activity data available)\n"@ + "\n"@
    } else {
        act_head() + act_lines(rows, labels, now) + "\n"@
    }
}

proof fn lemma_act_pos_bound(s: Seq<(Seq<char>, usize, i64)>, x: (Seq<char>, usize, i64))
    ensures
        0 <= act_pos(s, x) <= s.len(),
    decreases s.len(),
{
    if s.len() > 0 && !crate::text::seq_lt(x.0, s[0].0) {
        lemma_act_pos_bound(s.drop_first(), x);
    }
}

pub open spec fn acts_view(v: Seq<(String, usize, i64)>) -> Seq<(Seq<char>, usize, i64)> {
    v.map_values(|r: (String, usize, i64)| (r.0@, r.1, r.2))
}

fn area_of_note(note: &Note) -> (r: Option<Vec<char>>)
    ensures
        match r {
            Some(a) => activity_area(note.deep_view()) == Some(a@),
            None => activity_area(note.deep_view()) is None,
        },
{
    let rp = chars_of_string(&note.relative_path);
    if note.kind != NoteKind::Regular || is_special_folder(&rp) {
        return None;
    }
    let parts = split_vec(&rp, '/');
    if parts.len() < 3 {
        return None;
    }
    proof {
        crate::text::lemma_deep_chars(parts[1]);
    }
    Some(parts[1].clone())
}

fn act_entries_exec(store: &NoteStore, modified: &Vec<Option<i64>>, now: i64) -> (r: Vec<(String, usize, i64)>)
    ensures
        acts_view(r@) == act_entries(store.notes.deep_view(), modified@, now),
{
    let ghost nv = store.notes.deep_view();
    let mut acts: Vec<(String, usize, i64)> = Vec::new();
    let mut i: usize = 0;
    while i < store.notes.len()
        invariant
            i <= store.notes.len(),
            nv == store.notes.deep_view(),
            acts_view(acts@) == act_entries(nv.take(i as int), modified@, now),
            forall|k: int| 0 <= k < acts.len() ==> #[trigger] acts[k].1 <= i,
        decreases store.notes.len() - i,
    {
        proof {
            assert(nv.take(i + 1).drop_last() =~= nv.take(i as int));
            assert(nv[i as int] == store.notes[i as int].deep_view());
        }
        let m: Option<i64> = if i < modified.len() { modified[i] } else { None };
        match (area_of_note(&store.notes[i]), m) {
            (Some(a), Some(m)) => {
                let ghost a0 = acts_view(acts@);
                let bump: usize = if now >= m && (now as i128) - (m as i128) < 90 * (NANOS_PER_DAY as i128) { 1 } else { 0 };
                assert(bump == if recent(m, now) { 1int } else { 0int });
                let mut k: usize = 0;
                let mut found = false;
                assert(a0.take(acts.len() as int) =~= a0);
                while k < acts.len()
                    invariant_except_break
                        k <= acts.len(),
                        find_act(a0, a@) == find_act(a0.take(acts.len() - k), a@),
                        !found,
                    invariant
                        a0 == acts_view(acts@),
                    ensures
                        found ==> k < acts.len() && find_act(a0, a@) == Some(acts.len() - 1 - k),
                        !found ==> find_act(a0, a@) is None,
                    decreases acts.len() - k,
                {
                    let idx = acts.len() - 1 - k;
                    proof {
                        assert(a0.take(acts.len() - k) =~= a0.take(idx + 1));
                        assert(a0.take(idx + 1).drop_last() =~= a0.take(idx as int));
                        assert(a0[idx as int].0 == acts[idx as int].0@);
                    }
                    if crate::text::vec_eq(&chars_of_string(&acts[idx].0), &a) {
                        found = true;
                        break;
                    }
                    k += 1;
                }
                if found {
                    let idx = acts.len() - 1 - k;
                    let c = acts[idx].1 + bump;
                    let l = if m > acts[idx].2 { m } else { acts[idx].2 };
                    let ghost r0 = acts@;
                    acts.set(idx, (crate::text::string_of(&a), c, l));
                    proof {
                        assert forall|q: int| 0 <= q < acts.len() implies acts_view(acts@)[q] == a0.update(idx as int, (a@, c, l))[q] by {
                            if q != idx {
                                assert(acts@[q] == r0[q]);
                            }
                        }
                        assert(acts_view(acts@) =~= a0.update(idx as int, (a@, c, l)));
                    }
                } else {
                    let l = if m > 0 { m } else { 0 };
                    let ghost r0 = acts@;
                    acts.push((crate::text::string_of(&a), bump, l));
                    assert(acts_view(acts@) =~= a0.push((a@, bump, l)));
                }
            },
            _ => {},
        }
        i += 1;
    }
    assert(nv.take(i as int) =~= nv);
    acts
}

fn insert_act(rows: &mut Vec<(String, usize, i64)>, x: (String, usize, i64))
    ensures
        acts_view(final(rows)@) == acts_view(old(rows)@).insert(
            act_pos(acts_view(old(rows)@), (x.0@, x.1, x.2)),
            (x.0@, x.1, x.2),
        ),
{
    let ghost s = acts_view(rows@);
    let ghost xv = (x.0@, x.1, x.2);
    let xa = chars_of_string(&x.0);
    let mut p: usize = 0;
    proof {
        assert(s.skip(0) =~= s);
        lemma_act_pos_bound(s, xv);
    }
    while p < rows.len() && !crate::text::lt_chars(&xa, &chars_of_string(&rows[p].0))
        invariant
            p <= rows.len(),
            acts_view(rows@) == s,
            xv == (x.0@, x.1, x.2),
            xa@ == x.0@,
            act_pos(s, xv) == p + act_pos(s.skip(p as int), xv),
        decreases rows.len() - p,
    {
        assert(s[p as int] == (rows[p as int].0@, rows[p as int].1, rows[p as int].2));
        assert(s.skip(p as int)[0] == s[p as int]);
        assert(s.skip(p as int).drop_first() =~= s.skip(p + 1));
        p += 1;
    }
    if p < rows.len() {
        assert(s[p as int] == (rows[p as int].0@, rows[p as int].1, rows[p as int].2));
        assert(s.skip(p as int)[0] == s[p as int]);
    }
    let ghost r0 = rows@;
    rows.insert(p, x);
    proof {
        r0.insert_ensures(p as int, x);
        s.insert_ensures(p as int, xv);
        assert forall|k: int| 0 <= k < rows.len() implies acts_view(rows@)[k] == s.insert(p as int, xv)[k] by {
            if k < p {
                assert(rows@[k] == r0[k]);
            } else if k > p {
                assert(rows@[k] == r0[k - 1]);
            }
        }
        assert(acts_view(rows@) =~= s.insert(p as int, xv));
    }
}

/// Each area's count of notes modified in the 90 days before `now` and its
/// latest modification, sorted by area name. `modified[i]` is note `i`'s
/// modification time in nanoseconds since the epoch, if known.
pub fn activity_rows(store: &NoteStore, modified: &Vec<Option<i64>>, now: i64) -> (r: Vec<(String, usize, i64)>)
    ensures
        acts_view(r@) == activity_rows_of(store.notes.deep_view(), modified@, now),
{
    let entries = act_entries_exec(store, modified, now);
    let ghost ev = acts_view(entries@);
    let mut rows: Vec<(String, usize, i64)> = Vec::new();
    let mut i: usize = 0;
    while i < entries.len()
        invariant
            i <= entries.len(),
            ev == acts_view(entries@),
            acts_view(rows@) == sort_acts(ev.take(i as int)),
        decreases entries.len() - i,
    {
        proof {
            assert(ev.take(i + 1).drop_last() =~= ev.take(i as int));
        }
        let e = &entries[i];
        let x = (crate::text::string_of(&chars_of_string(&e.0)), e.1, e.2);
        assert(ev.take(i + 1).last() == (x.0@, x.1, x.2));
        insert_act(&mut rows, x);
        i += 1;
    }
    assert(ev.take(i as int) =~= ev);
    rows
}

fn put_act_head(out: &mut Vec<char>)
    ensures
        final(out)@ == old(out)@ + act_head(),
{
    let ghost o = out@;
    put_str(out, "  ");
    put_pad_right(out, &chars_of("Area"), 40);
    put_str(out, " ");
    put_pad_left(out, &chars_of("Active (90d)"), 12);
    put_str(out, " ");
    put_pad_left(out, &chars_of("Last Modified"), 14);
    put_str(out, "\n");
    put_str(out, "  ");
    put_copies(out, '─', 68);
    put_str(out, "\n");
    assert(out@ =~= o + act_head());
}

fn put_act_line(out: &mut Vec<char>, r: &(String, usize, i64), label: &String, now: i64)
    ensures
        final(out)@ == old(out)@ + act_line((r.0@, r.1, r.2), label@, now),
{
    let ghost o = out@;
    put_str(out, "  ");
    put_pad_right(out, &chars_of_string(&r.0), 40);
    put_str(out, " ");
    put_pad_left(out, &decimal_of(r.1), 12);
    put_str(out, " ");
    put_pad_left(out, &chars_of_string(label), 14);
    if now >= r.2 {
        let d: i128 = now as i128 - r.2 as i128;
        if d >= 15_552_001_000_000_000 {
            put_str(out, "  *** STALE ***");
        } else if d >= 7_776_001_000_000_000 {
            put_str(out, "  * quiet *");
        }
    }
    put_str(out, "\n");
    assert(out@ =~= o + act_line((r.0@, r.1, r.2), label@, now));
}

fn write_activity_by_area(out: &mut Vec<char>, rows: &Vec<(String, usize, i64)>, labels: &Vec<String>, now: i64)
    requires
        labels.len() == rows.len(),
    ensures
        final(out)@ == old(out)@ + activity_text(acts_view(rows@), labels.deep_view(), now),
{
    let ghost o = out@;
    let ghost rv = acts_view(rows@);
    let ghost lv = labels.deep_view();
    section(out, "ACTIVITY BY AREA (file modification dates)");
    if rows.len() == 0 {
        put_str(out, "  (No activity data available)\n");
        put_str(out, "\n");
        assert(out@ =~= o + activity_text(rv, lv, now));
        return;
    }
    put_act_head(out);
    let ghost mid = out@;
    let mut i: usize = 0;
    while i < rows.len()
        invariant
            i <= rows.len() == labels.len(),
            rv == acts_view(rows@),
            lv == labels.deep_view(),
            out@ == mid + act_lines(rv.take(i as int), lv, now),
        decreases rows.len() - i,
    {
        proof {
            assert(rv.take(i + 1).drop_last() =~= rv.take(i as int));
            assert(rv[i as int] == (rows[i as int].0@, rows[i as int].1, rows[i as int].2));
            assert(lv[i as int] == labels[i as int]@);
        }
        put_act_line(out, &rows[i], &labels[i], now);
        assert(out@ =~= mid + act_lines(rv.take(i + 1), lv, now));
        i += 1;
    }
    assert(rv.take(i as int) =~= rv);
    put_str(out, "\n");
    assert(out@ =~= o + activity_text(rv, lv, now));
}


// ─── The whole dump ─────────────────────────────────────────────────────────

/// The dump of a vault whose hierarchy is `root`, with the readings the
/// report depends on passed in: when it was made, the two averages already
/// rendered, the activity rows with the date shown for each, and the time
/// they were measured against.
pub open spec fn dump_text(
    nv: Seq<NoteV>,
    root: JdNode,
    path: Seq<char>,
    scanned_at: Seq<char>,
    cat_avg: Seq<char>,
    note_avg: Seq<char>,
    acts: Seq<(Seq<char>, usize, i64)>,
    labels: Seq<Seq<char>>,
    now: i64,
) -> Seq<char> {
    header_text(path, scanned_at) + overview_text(nv) + tree_text(root) + stats_text(nv, root, cat_avg, note_avg)
        + hub_text(nv, root) + tag_text(nv) + unfiled_text(nv) + activity_text(acts, labels, now)
}

/// Renders the dump from its readings: `scanned_at` for the header, the
/// averages of categories and notes per area as they are to be shown, and
/// the activity rows with `labels[i]` the date shown for row `i`, measured
/// against `now`.
pub fn render_dump(
    store: &NoteStore,
    path: &str,
    scanned_at: &str,
    cat_avg: &str,
    note_avg: &str,
    acts: &Vec<(String, usize, i64)>,
    labels: &Vec<String>,
    now: i64,
) -> (r: String)
    requires
        labels.len() == acts.len(),
    ensures
        exists|root: JdNode|
            is_hierarchy(store.notes.deep_view(), root) && r@ == #[trigger] dump_text(
                store.notes.deep_view(),
                root,
                path@,
                scanned_at@,
                cat_avg@,
                note_avg@,
                acts_view(acts@),
                labels.deep_view(),
                now,
            ),
{
    let ghost nv = store.notes.deep_view();
    let h = build_hierarchy(store);
    proof {
        lemma_folder_paths_len(nv);
        assert(nv.len() == store.notes.len());
        assert(tree_ok(h));
    }
    let mut out: Vec<char> = Vec::new();
    write_header(&mut out, path, scanned_at);
    write_overview(&mut out, store);
    write_hierarchy_tree(&mut out, &h.root);
    write_jd_statistics(&mut out, store, &h, cat_avg, note_avg);
    write_hub_coverage(&mut out, store, &h.root);
    write_tag_usage(&mut out, store);
    write_unfiled_notes(&mut out, store);
    write_activity_by_area(&mut out, acts, labels, now);
    let r = crate::text::string_of(&out);
    assert(r@ =~= dump_text(nv, h.root, path@, scanned_at@, cat_avg@, note_avg@, acts_view(acts@), labels.deep_view(), now));
    r
}

/// The sums behind the two averages of the statistics: the areas'
/// category counts, their note counts, and the number of areas.
pub fn dump_sums(store: &NoteStore) -> (r: (u128, u128, usize))
    ensures
        exists|root: JdNode|
            is_hierarchy(store.notes.deep_view(), root) && r.0 == sum_nats(cat_counts(root.children@))
                && r.1 == sum_nats(note_counts(root.children@)) && r.2 == root.children@.len(),
{
    let h = build_hierarchy(store);
    let ghost areas = h.root.children@;
    let mut cats: u128 = 0;
    let mut notes: u128 = 0;
    let mut i: usize = 0;
    while i < h.areas.len()
        invariant
            i <= h.areas.len() == areas.len(),
            areas == h.root.children@,
            forall|k: int| 0 <= k < h.areas.len() ==> area_ok(#[trigger] h.areas[k], h.root.children@[k]),
            cats == sum_nats(cat_counts(areas.take(i as int))),
            notes == sum_nats(note_counts(areas.take(i as int))),
            cats <= i * (usize::MAX as int),
            notes <= i * (usize::MAX as int),
        decreases h.areas.len() - i,
    {
        proof {
            assert(area_ok(h.areas[i as int], areas[i as int]));
            let t1 = areas.take(i + 1);
            let t0 = areas.take(i as int);
            assert(cat_counts(t1) =~= cat_counts(t0).push(areas[i as int].children@.len()));
            assert(note_counts(t1) =~= note_counts(t0).push(deep_count(areas[i as int])));
            assert(cat_counts(t1).drop_last() =~= cat_counts(t0));
            assert(note_counts(t1).drop_last() =~= note_counts(t0));
            assert((i + 1) * (usize::MAX as int) == i * (usize::MAX as int) + usize::MAX) by (nonlinear_arith);
            assert(i * (usize::MAX as int) <= usize::MAX * usize::MAX) by (nonlinear_arith)
                requires
                    i <= usize::MAX,
            ;
        }
        cats = cats + h.areas[i].category_count as u128;
        notes = notes + h.areas[i].total_notes as u128;
        i += 1;
    }
    assert(areas.take(i as int) =~= areas);
    (cats, notes, h.areas.len())
}

/// What a dump made at some moment reads: the dump of the vault's
/// hierarchy at some time `now`, stamped with the local time of `now`
/// written `YYYY-MM-DD HH:MM:SS`, each activity row showing the local
/// `YYYY-MM-DD` date of its latest modification (a local date being the UTC
/// date or a day either side).
pub open spec fn dump_result(
    nv: Seq<NoteV>,
    path: Seq<char>,
    modified: Seq<Option<i64>>,
    cat_avg: Seq<char>,
    note_avg: Seq<char>,
    r: Seq<char>,
) -> bool {
    exists|scanned_at: Seq<char>, labels: Seq<Seq<char>>, now: i64, root: JdNode|
        is_hierarchy(nv, root) && labels.len() == activity_rows_of(nv, modified, now).len()
            && crate::clock::is_timestamp_text(scanned_at) && crate::clock::date_near(scanned_at.take(10), now as int / 1_000_000_000)
            && (forall|k: int| 0 <= k < labels.len() ==> crate::clock::is_date_text(#[trigger] labels[k])
                && crate::clock::date_near(labels[k], activity_rows_of(nv, modified, now)[k].2 as int / 1_000_000_000)) && r
            == #[trigger] dump_text(
            nv,
            root,
            path,
            scanned_at,
            cat_avg,
            note_avg,
            activity_rows_of(nv, modified, now),
            labels,
            now,
        )
}

/// The system assessment dump of the vault at `path`, as of now: the
/// header carries the local time, the activity table counts against the
/// current time and shows each area's latest date in the local time zone.
/// `modified[i]` is note `i`'s modification time in nanoseconds since the
/// epoch, if known; `cat_avg` and `note_avg` are the averages of categories
/// and notes per area as they are to be shown.
pub fn generate_dump(store: &NoteStore, path: &str, modified: &Vec<Option<i64>>, cat_avg: &str, note_avg: &str) -> (r: String)
    ensures
        dump_result(store.notes.deep_view(), path@, modified@, cat_avg@, note_avg@, r@),
{
    let now = crate::clock::now_nanos();
    let scanned_at = crate::clock::local_timestamp(now);
    let acts = activity_rows(store, modified, now);
    let mut labels: Vec<String> = Vec::new();
    let mut i: usize = 0;
    while i < acts.len()
        invariant
            i <= acts.len(),
            labels.len() == i,
            acts_view(acts@) == activity_rows_of(store.notes.deep_view(), modified@, now),
            forall|k: int| 0 <= k < i ==> crate::clock::is_date_text(#[trigger] labels.deep_view()[k])
                && crate::clock::date_near(labels.deep_view()[k], acts_view(acts@)[k].2 as int / 1_000_000_000),
        decreases acts.len() - i,
    {
        let ghost l0 = labels.deep_view();
        assert(acts_view(acts@)[i as int].2 == acts[i as int].2);
        let label = crate::clock::local_date_label(acts[i].2);
        labels.push(label);
        assert(labels.deep_view() =~= l0.push(label@));
        i += 1;
    }
    let r = render_dump(store, path, scanned_at.as_str(), cat_avg, note_avg, &acts, &labels, now);
    assert(labels.deep_view().len() == acts_view(acts@).len());
    r
}

} // verus!
