//! Content blocks of a daily note: headed sections, groups of loose tasks,
//! and loose paragraphs, each with its tags, mentions and wiki links.
use vstd::prelude::*;
use crate::models::{BlockKind, ContentBlock, ContentBlockV};
use crate::parser::link::{find_links, links_in};
use crate::parser::markdown::{
    dedup, dedup_chars, heading_chars, heading_match, lemma_section_end, section_end,
    section_end_exec,
};
use crate::parser::task::{find_marker_runs, find_mentions, is_task_chars, mentions_of, tags_of, task_display};
use crate::text::{chars_of, eq_str, join, join_vec, lines, split_lines, string_of, strings_of, trim, trim_vec};

verus! {

/// A trimmed line that is exactly `---`.
pub open spec fn is_rule(t: Seq<char>) -> bool {
    t == "---"@
}

/// The first line from `i` on whose trimmed text is `---`.
pub open spec fn rule_from(ls: Seq<Seq<char>>, i: int) -> Option<int>
    decreases ls.len() - i,
{
    if i < 0 || i >= ls.len() {
        None
    } else if is_rule(trim(ls[i])) {
        Some(i)
    } else {
        rule_from(ls, i + 1)
    }
}

/// The first line after a front-matter block (`---` ... `---`), or 0.
pub open spec fn after_front_matter(ls: Seq<Seq<char>>) -> int {
    if ls.len() == 0 || !is_rule(trim(ls[0])) {
        0
    } else {
        match rule_from(ls, 1) {
            Some(i) => i + 1,
            None => 0,
        }
    }
}

/// Where the body starts: after the front matter and a level-1 title.
pub open spec fn body_start(ls: Seq<Seq<char>>) -> int {
    let i = after_front_matter(ls);
    if 0 <= i < ls.len() && (heading_match(trim(ls[i])) matches Some((lvl, _)) && lvl == 1) {
        i + 1
    } else {
        i
    }
}

pub open spec fn is_task(t: Seq<char>) -> bool {
    task_display(t) is Some
}

/// The end (exclusive) of a run of task lines from `i`.
pub open spec fn task_run_end(ls: Seq<Seq<char>>, i: int) -> int
    decreases ls.len() - i,
{
    if i < 0 || i >= ls.len() || !is_task(trim(ls[i])) {
        i
    } else {
        task_run_end(ls, i + 1)
    }
}

/// The end (exclusive) of a paragraph from `i`: the next blank, heading or
/// task line.
pub open spec fn paragraph_end(ls: Seq<Seq<char>>, i: int) -> int
    decreases ls.len() - i,
{
    if i < 0 || i >= ls.len() {
        i
    } else {
        let t = trim(ls[i]);
        if t.len() == 0 || heading_match(t) is Some || is_task(t) {
            i
        } else {
            paragraph_end(ls, i + 1)
        }
    }
}

/// `end` moved back over blank lines, not before `start`.
pub open spec fn trim_blanks(ls: Seq<Seq<char>>, start: int, end: int) -> int
    decreases end - start,
{
    if end > start && trim(ls[end - 1]).len() == 0 {
        trim_blanks(ls, start, end - 1)
    } else {
        end
    }
}

pub proof fn lemma_ends(ls: Seq<Seq<char>>, i: int)
    requires
        0 <= i <= ls.len(),
    ensures
        i <= task_run_end(ls, i) <= ls.len(),
        i <= paragraph_end(ls, i) <= ls.len(),
    decreases ls.len() - i,
{
    if i < ls.len() {
        lemma_ends(ls, i + 1);
    }
}

pub proof fn lemma_trim_blanks(ls: Seq<Seq<char>>, start: int, end: int)
    requires
        start <= end,
    ensures
        start <= trim_blanks(ls, start, end) <= end,
    decreases end - start,
{
    if end > start && trim(ls[end - 1]).len() == 0 {
        lemma_trim_blanks(ls, start, end - 1);
    }
}

/// The block made of lines `start..end` (0-based, end exclusive).
pub open spec fn block_of(
    ls: Seq<Seq<char>>,
    kind: BlockKind,
    start: int,
    end: int,
    heading: Option<Seq<char>>,
    level: Option<u8>,
) -> ContentBlockV {
    let raw = join(ls.subrange(start, end), seq!['\n']);
    ContentBlockV {
        kind,
        start_line: (start + 1) as usize,
        end_line: end as usize,
        raw_text: raw,
        heading,
        heading_level: level,
        tags: dedup(tags_of(raw)),
        mentions: dedup(mentions_of(raw)),
        wiki_links: dedup(links_in(raw)),
    }
}

/// The blocks of the lines from `i` on.
pub open spec fn blocks_from(ls: Seq<Seq<char>>, i: int) -> Seq<ContentBlockV>
    decreases ls.len() - i,
{
    if i < 0 || i >= ls.len() {
        Seq::empty()
    } else {
        let t = trim(ls[i]);
        if t.len() == 0 {
            blocks_from(ls, i + 1)
        } else if let Some((lvl, g)) = heading_match(t) {
            proof {
                lemma_section_end(ls, i + 1, lvl);
            }
            let j = section_end(ls, i + 1, lvl);
            let e = trim_blanks(ls, i, j);
            let here = if e > i {
                seq![block_of(ls, BlockKind::Heading, i, e, Some(trim(g)), Some(lvl as u8))]
            } else {
                Seq::empty()
            };
            here + blocks_from(ls, j)
        } else if is_task(t) {
            proof {
                lemma_ends(ls, i + 1);
            }
            let j = task_run_end(ls, i + 1);
            let e = trim_blanks(ls, i, j);
            seq![block_of(ls, BlockKind::TaskGroup, i, e, None, None)] + blocks_from(ls, j)
        } else {
            proof {
                lemma_ends(ls, i + 1);
            }
            let j = paragraph_end(ls, i + 1);
            let e = trim_blanks(ls, i, j);
            let here = if e > i {
                seq![block_of(ls, BlockKind::Paragraph, i, e, None, None)]
            } else {
                Seq::empty()
            };
            here + blocks_from(ls, j)
        }
    }
}

/// The content blocks of a note's lines.
pub open spec fn content_blocks(ls: Seq<Seq<char>>) -> Seq<ContentBlockV> {
    blocks_from(ls, body_start(ls))
}


fn is_rule_line(l: &Vec<char>) -> (b: bool)
    ensures
        b == is_rule(trim(l@)),
{
    let t = trim_vec(l);
    eq_str(&t, "---")
}

fn after_front_matter_exec(ls: &Vec<Vec<char>>) -> (r: usize)
    ensures
        r == after_front_matter(ls.deep_view()),
        r <= ls.len(),
{
    let ghost lv = ls.deep_view();
    if ls.len() == 0 {
        return 0;
    }
    proof {
        assert(lv[0] =~= ls[0]@);
    }
    if !is_rule_line(&ls[0]) {
        return 0;
    }
    let mut i: usize = 1;
    while i < ls.len()
        invariant
            1 <= i <= ls.len(),
            lv == ls.deep_view(),
            lv.len() == ls.len(),
            is_rule(trim(lv[0])),
            rule_from(lv, 1) == rule_from(lv, i as int),
        decreases ls.len() - i,
    {
        proof {
            assert(lv[i as int] =~= ls[i as int]@);
        }
        if is_rule_line(&ls[i]) {
            return i + 1;
        }
        i += 1;
    }
    0
}

fn body_start_exec(ls: &Vec<Vec<char>>) -> (r: usize)
    ensures
        r == body_start(ls.deep_view()),
        r <= ls.len(),
{
    let i = after_front_matter_exec(ls);
    if i < ls.len() {
        proof {
            assert(ls.deep_view()[i as int] =~= ls[i as int]@);
        }
        let t = trim_vec(&ls[i]);
        match heading_chars(&t) {
            Some((lvl, _)) => {
                if lvl == 1 {
                    return i + 1;
                }
            },
            None => {},
        }
    }
    i
}

fn task_run_end_exec(ls: &Vec<Vec<char>>, i0: usize) -> (r: usize)
    requires
        i0 <= ls.len(),
    ensures
        r == task_run_end(ls.deep_view(), i0 as int),
{
    let ghost lv = ls.deep_view();
    let mut i = i0;
    while i < ls.len()
        invariant
            i0 <= i <= ls.len(),
            lv == ls.deep_view(),
            task_run_end(lv, i0 as int) == task_run_end(lv, i as int),
        decreases ls.len() - i,
    {
        proof {
            assert(lv[i as int] =~= ls[i as int]@);
        }
        let t = trim_vec(&ls[i]);
        if !is_task_chars(&t) {
            return i;
        }
        i += 1;
    }
    i
}

fn paragraph_end_exec(ls: &Vec<Vec<char>>, i0: usize) -> (r: usize)
    requires
        i0 <= ls.len(),
    ensures
        r == paragraph_end(ls.deep_view(), i0 as int),
{
    let ghost lv = ls.deep_view();
    let mut i = i0;
    while i < ls.len()
        invariant
            i0 <= i <= ls.len(),
            lv == ls.deep_view(),
            paragraph_end(lv, i0 as int) == paragraph_end(lv, i as int),
        decreases ls.len() - i,
    {
        proof {
            assert(lv[i as int] =~= ls[i as int]@);
        }
        let t = trim_vec(&ls[i]);
        if t.len() == 0 || heading_chars(&t).is_some() || is_task_chars(&t) {
            return i;
        }
        i += 1;
    }
    i
}

fn trim_blanks_exec(ls: &Vec<Vec<char>>, start: usize, end: usize) -> (r: usize)
    requires
        start <= end <= ls.len(),
    ensures
        r == trim_blanks(ls.deep_view(), start as int, end as int),
        start <= r <= end,
{
    let ghost lv = ls.deep_view();
    let mut e = end;
    while e > start
        invariant
            start <= e <= end <= ls.len(),
            lv == ls.deep_view(),
            trim_blanks(lv, start as int, end as int) == trim_blanks(lv, start as int, e as int),
        decreases e - start,
    {
        proof {
            assert(lv[e - 1] =~= ls[e - 1]@);
        }
        let t = trim_vec(&ls[e - 1]);
        if t.len() != 0 {
            return e;
        }
        e -= 1;
    }
    e
}

fn copy_range(ls: &Vec<Vec<char>>, lo: usize, hi: usize) -> (r: Vec<Vec<char>>)
    requires
        lo <= hi <= ls.len(),
    ensures
        r.deep_view() == ls.deep_view().subrange(lo as int, hi as int),
{
    let mut r: Vec<Vec<char>> = Vec::new();
    let mut i = lo;
    while i < hi
        invariant
            lo <= i <= hi <= ls.len(),
            r.deep_view() == ls.deep_view().subrange(lo as int, i as int),
        decreases hi - i,
    {
        let ghost r0 = r.deep_view();
        let l = ls[i].clone();
        proof {
            assert(l.deep_view() =~= ls.deep_view()[i as int]);
        }
        r.push(l);
        assert(r.deep_view() =~= r0.push(ls.deep_view()[i as int]));
        i += 1;
        assert(r.deep_view() =~= ls.deep_view().subrange(lo as int, i as int));
    }
    r
}

fn make_block(
    ls: &Vec<Vec<char>>,
    kind: BlockKind,
    start: usize,
    end: usize,
    heading: Option<Vec<char>>,
    level: Option<u8>,
) -> (b: ContentBlock)
    requires
        start <= end <= ls.len(),
        start < ls.len(),
    ensures
        b.deep_view() == block_of(
            ls.deep_view(),
            kind,
            start as int,
            end as int,
            match heading {
                Some(h) => Some(h@),
                None => None,
            },
            level,
        ),
{
    let parts = copy_range(ls, start, end);
    let mut nl: Vec<char> = Vec::new();
    nl.push('\n');
    assert(nl@ =~= seq!['\n']);
    let raw = join_vec(&parts, &nl);
    let tags = dedup_chars(&find_marker_runs(&raw, '#'));
    let mentions = dedup_chars(&find_mentions(&raw));
    let links = dedup_chars(&find_links(&raw));
    ContentBlock {
        kind,
        start_line: start + 1,
        end_line: end,
        raw_text: string_of(&raw),
        heading: match heading {
            Some(h) => Some(string_of(&h)),
            None => None,
        },
        heading_level: level,
        tags: strings_of(&tags),
        mentions: strings_of(&mentions),
        wiki_links: strings_of(&links),
    }
}

/// Take the block (if any) that starts at line `i`, and return where the
/// next one may start.
#[verifier::rlimit(40)]
fn take_block(ls: &Vec<Vec<char>>, i: usize, blocks: &mut Vec<ContentBlock>) -> (j: usize)
    requires
        i < ls.len(),
    ensures
        i < j <= ls.len(),
        final(blocks).deep_view() + blocks_from(ls.deep_view(), j as int) == old(blocks).deep_view()
            + blocks_from(ls.deep_view(), i as int),
{
    let ghost lv = ls.deep_view();
    let ghost b00 = blocks.deep_view();
    proof {
        assert(lv[i as int] =~= ls[i as int]@);
    }
    let t = trim_vec(&ls[i]);
    if t.len() == 0 {
        i + 1
    } else {
        match heading_chars(&t) {
            Some((level, g)) => {
                let j = section_end_exec(ls, i + 1, level);
                let e = trim_blanks_exec(ls, i, j);
                let ghost b0 = blocks.deep_view();
                if e > i {
                    let h = trim_vec(&g);
                    let b = make_block(ls, BlockKind::Heading, i, e, Some(h), Some(level));
                    blocks.push(b);
                    proof {
                        assert(blocks.deep_view() =~= b0.push(b.deep_view()));
                        let rest = blocks_from(lv, j as int);
                        assert(b0.push(b.deep_view()) + rest =~= b0 + (seq![b.deep_view()] + rest));
                    }
                } else {
                    proof {
                        let rest = blocks_from(lv, j as int);
                        assert(Seq::<ContentBlockV>::empty() + rest =~= rest);
                    }
                }
                j
            },
            None => {
                if is_task_chars(&t) {
                    let j = task_run_end_exec(ls, i + 1);
                    proof {
                        lemma_ends(lv, i + 1);
                    }
                    let e = trim_blanks_exec(ls, i, j);
                    let ghost b0 = blocks.deep_view();
                    let b = make_block(ls, BlockKind::TaskGroup, i, e, None, None);
                    blocks.push(b);
                    proof {
                        assert(blocks.deep_view() =~= b0.push(b.deep_view()));
                        let rest = blocks_from(lv, j as int);
                        assert(b0.push(b.deep_view()) + rest =~= b0 + (seq![b.deep_view()] + rest));
                    }
                    j
                } else {
                    let j = paragraph_end_exec(ls, i + 1);
                    proof {
                        lemma_ends(lv, i + 1);
                    }
                    let e = trim_blanks_exec(ls, i, j);
                    let ghost b0 = blocks.deep_view();
                    if e > i {
                        let b = make_block(ls, BlockKind::Paragraph, i, e, None, None);
                        blocks.push(b);
                        proof {
                            assert(blocks.deep_view() =~= b0.push(b.deep_view()));
                            let rest = blocks_from(lv, j as int);
                            assert(b0.push(b.deep_view()) + rest =~= b0 + (seq![b.deep_view()] + rest));
                        }
                    } else {
                        proof {
                            let rest = blocks_from(lv, j as int);
                            assert(Seq::<ContentBlockV>::empty() + rest =~= rest);
                        }
                    }
                    j
                }
            },
        }
    }
}

/// Split a daily note's content into blocks. Front matter and a level-1
/// title are skipped; then each heading starts a block that runs to the next
/// heading of the same or a higher level, consecutive task lines form a task
/// group, and other lines up to a blank, heading or task line form a
/// paragraph. Trailing blank lines are left out of a block; tags, mentions
/// (but `@done`) and wiki links are listed once each, in order of first
/// appearance.
pub fn extract_content_blocks(content: &str) -> (r: Vec<ContentBlock>)
    ensures
        r.deep_view() == content_blocks(lines(content@)),
        forall|k: int| 0 <= k < r.len() ==> block_spans_lines(lines(content@), #[trigger] r.deep_view()[k])
            && body_start(lines(content@)) < r.deep_view()[k].start_line
            && block_well_shaped(lines(content@), r.deep_view()[k]),
        blocks_in_order(r.deep_view()),
{
    let cv = chars_of(content);
    let ls = split_lines(&cv);
    let ghost lv = ls.deep_view();
    let i0 = body_start_exec(&ls);
    let mut blocks: Vec<ContentBlock> = Vec::new();
    let mut i = i0;
    while i < ls.len()
        invariant
            i0 <= i <= ls.len(),
            lv == ls.deep_view(),
            blocks.deep_view() + blocks_from(lv, i as int) == blocks_from(lv, i0 as int),
        decreases ls.len() - i,
    {
        let ghost b0 = blocks.deep_view();
        let j = take_block(&ls, i, &mut blocks);
        assert(blocks.deep_view() + blocks_from(lv, j as int) == b0 + blocks_from(lv, i as int));
        i = j;
    }
    assert(blocks.deep_view() + blocks_from(lv, i as int) =~= blocks.deep_view());
    proof {
        lemma_content_blocks_structure(lv);
    }
    blocks
}

// ─── Block structure ────────────────────────────────────────────────────────

/// A block that covers lines `start_line..=end_line` (1-based) of `ls`, at
/// least one of them, and whose text is exactly those lines joined.
pub open spec fn block_spans_lines(ls: Seq<Seq<char>>, b: ContentBlockV) -> bool {
    &&& 1 <= b.start_line <= b.end_line <= ls.len()
    &&& b.raw_text == join(ls.subrange(b.start_line - 1, b.end_line as int), seq!['\n'])
}

/// A block whose last line is not blank, and which has a heading exactly
/// when it is a heading block.
pub open spec fn block_well_shaped(ls: Seq<Seq<char>>, b: ContentBlockV) -> bool {
    &&& trim(ls[b.end_line - 1]).len() > 0
    &&& (b.heading is Some <==> b.kind == BlockKind::Heading)
    &&& (b.heading_level is Some <==> b.kind == BlockKind::Heading)
}

/// Blocks in line order, none overlapping the next.
pub open spec fn blocks_in_order(bs: Seq<ContentBlockV>) -> bool {
    forall|k1: int, k2: int| 0 <= k1 < k2 < bs.len() ==> #[trigger] bs[k1].end_line < #[trigger] bs[k2].start_line
}

proof fn lemma_trim_blanks_keeps_first(ls: Seq<Seq<char>>, start: int, end: int)
    requires
        0 <= start < end <= ls.len(),
        trim(ls[start]).len() > 0,
    ensures
        start < trim_blanks(ls, start, end),
    decreases end - start,
{
    if end - 1 > start && trim(ls[end - 1]).len() == 0 {
        lemma_trim_blanks_keeps_first(ls, start, end - 1);
    }
}

proof fn lemma_trim_blanks_ends_filled(ls: Seq<Seq<char>>, start: int, end: int)
    requires
        0 <= start <= end <= ls.len(),
    ensures
        trim_blanks(ls, start, end) == start || trim(ls[trim_blanks(ls, start, end) - 1]).len() > 0,
    decreases end - start,
{
    if end > start && trim(ls[end - 1]).len() == 0 {
        lemma_trim_blanks_ends_filled(ls, start, end - 1);
    }
}

proof fn lemma_blocks_from_structure(ls: Seq<Seq<char>>, i: int)
    requires
        0 <= i,
        ls.len() <= usize::MAX,
    ensures
        forall|k: int| 0 <= k < blocks_from(ls, i).len() ==> block_spans_lines(ls, #[trigger] blocks_from(ls, i)[k])
            && i < blocks_from(ls, i)[k].start_line && block_well_shaped(ls, blocks_from(ls, i)[k]),
        blocks_in_order(blocks_from(ls, i)),
    decreases ls.len() - i,
{
    if i >= ls.len() {
        return;
    }
    let t = trim(ls[i]);
    let s = blocks_from(ls, i);
    if t.len() == 0 {
        lemma_blocks_from_structure(ls, i + 1);
        return;
    }
    let (j, e, here) = if let Some((lvl, g)) = heading_match(t) {
        lemma_section_end(ls, i + 1, lvl);
        let j = section_end(ls, i + 1, lvl);
        lemma_trim_blanks(ls, i, j);
        lemma_trim_blanks_ends_filled(ls, i, j);
        let e = trim_blanks(ls, i, j);
        let here = if e > i {
            seq![block_of(ls, BlockKind::Heading, i, e, Some(trim(g)), Some(lvl as u8))]
        } else {
            Seq::empty()
        };
        (j, e, here)
    } else if is_task(t) {
        lemma_ends(ls, i + 1);
        let j = task_run_end(ls, i + 1);
        lemma_trim_blanks(ls, i, j);
        lemma_trim_blanks_ends_filled(ls, i, j);
        lemma_trim_blanks_keeps_first(ls, i, j);
        let e = trim_blanks(ls, i, j);
        (j, e, seq![block_of(ls, BlockKind::TaskGroup, i, e, None, None)])
    } else {
        lemma_ends(ls, i + 1);
        let j = paragraph_end(ls, i + 1);
        lemma_trim_blanks(ls, i, j);
        lemma_trim_blanks_ends_filled(ls, i, j);
        let e = trim_blanks(ls, i, j);
        let here = if e > i {
            seq![block_of(ls, BlockKind::Paragraph, i, e, None, None)]
        } else {
            Seq::empty()
        };
        (j, e, here)
    };
    assert(s == here + blocks_from(ls, j));
    lemma_blocks_from_structure(ls, j);
    let rest = blocks_from(ls, j);
    assert forall|k: int| 0 <= k < here.len() implies block_spans_lines(ls, #[trigger] here[k]) && i < here[k].start_line
        && here[k].end_line == e && block_well_shaped(ls, here[k]) by {
        assert(here[k].start_line == i + 1);
        assert(here[k].end_line == e);
        assert(here[k].raw_text == join(ls.subrange(i, e), seq!['\n']));
    }
    assert forall|k: int| 0 <= k < s.len() implies block_spans_lines(ls, #[trigger] s[k]) && i < s[k].start_line
        && block_well_shaped(ls, s[k]) by {
        if k < here.len() {
            assert(s[k] == here[k]);
        } else {
            assert(s[k] == rest[k - here.len()]);
        }
    }
    assert forall|k1: int, k2: int| 0 <= k1 < k2 < s.len() implies #[trigger] s[k1].end_line < #[trigger] s[k2].start_line by {
        if k2 < here.len() {
            assert(here.len() <= 1);
        } else if k1 < here.len() {
            assert(s[k1] == here[k1]);
            assert(s[k2] == rest[k2 - here.len()]);
            assert(j < rest[k2 - here.len()].start_line);
        } else {
            assert(s[k1] == rest[k1 - here.len()]);
            assert(s[k2] == rest[k2 - here.len()]);
        }
    }
}

/// The blocks of a note cover its body in order: each spans one or more
/// lines after the front matter and the title, its text is exactly those
/// lines joined by newlines, its last line is not blank, it has a heading
/// (and a level) exactly when it is a heading block, and each ends before
/// the next begins.
pub proof fn lemma_content_blocks_structure(ls: Seq<Seq<char>>)
    requires
        ls.len() <= usize::MAX,
    ensures
        forall|k: int| 0 <= k < content_blocks(ls).len() ==> block_spans_lines(ls, #[trigger] content_blocks(ls)[k])
            && body_start(ls) < content_blocks(ls)[k].start_line && block_well_shaped(ls, content_blocks(ls)[k]),
        blocks_in_order(content_blocks(ls)),
{
    if body_start(ls) >= 0 {
        lemma_blocks_from_structure(ls, body_start(ls));
    }
    assert forall|k: int| 0 <= k < content_blocks(ls).len() implies block_spans_lines(ls, #[trigger] content_blocks(ls)[k])
        && body_start(ls) < content_blocks(ls)[k].start_line && block_well_shaped(ls, content_blocks(ls)[k]) by {
        assert(content_blocks(ls)[k] == blocks_from(ls, body_start(ls))[k]);
    }
}

} // verus!
