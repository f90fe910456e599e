//! Wiki links: `[[target]]`.
use vstd::prelude::*;
use crate::models::{WikiLink, WikiLinkV};
use crate::text::{
    CharClass, chars_of, lemma_run_end, lines, run_end, scan_run, slice_vec, split_lines,
    string_of, strings_of,
};

verus! {

/// End of the link target of a `[[target]]` starting at `i`, if one does.
pub open spec fn wiki_at(t: Seq<char>, i: int) -> Option<int> {
    if 0 <= i && i + 1 < t.len() && t[i] == '[' && t[i + 1] == '[' {
        let r = run_end(t, i + 2, CharClass::NotCloseBracket);
        if r > i + 2 && r + 1 < t.len() && t[r] == ']' && t[r + 1] == ']' {
            Some(r)
        } else {
            None
        }
    } else {
        None
    }
}

/// The targets of the `[[...]]` links of `t` from position `i`, left to right
/// and without overlap (the grammar `\[\[([^\]]+)\]\]`).
pub open spec fn links_from(t: Seq<char>, i: int) -> Seq<Seq<char>>
    decreases t.len() - i,
{
    if i < 0 || i >= t.len() {
        Seq::empty()
    } else {
        match wiki_at(t, i) {
            Some(r) => seq![t.subrange(i + 2, r)] + links_from(t, r + 2),
            None => links_from(t, i + 1),
        }
    }
}

pub open spec fn links_in(t: Seq<char>) -> Seq<Seq<char>> {
    links_from(t, 0)
}

/// The wiki links of a sequence of lines, with 1-based line numbers.
pub open spec fn links_of_lines(ls: Seq<Seq<char>>) -> Seq<WikiLinkV>
    decreases ls.len(),
{
    if ls.len() == 0 {
        Seq::empty()
    } else {
        links_of_lines(ls.drop_last()) + links_in(ls.last()).map_values(
            |x: Seq<char>| WikiLinkV { target: x, line_number: ls.len() as usize },
        )
    }
}

/// The link targets of a text, left to right.
pub fn find_links(t: &Vec<char>) -> (r: Vec<Vec<char>>)
    ensures
        r.deep_view() == links_in(t@),
{
    let mut r: Vec<Vec<char>> = Vec::new();
    let mut i: usize = 0;
    while i < t.len()
        invariant
            i <= t.len(),
            r.deep_view() + links_from(t@, i as int) == links_in(t@),
        decreases t.len() - i,
    {
        if t.len() - i > 1 && t[i] == '[' && t[i + 1] == '[' {
            let e = scan_run(t, i + 2, CharClass::NotCloseBracket);
            if e > i + 2 && t.len() - e > 1 && t[e] == ']' && t[e + 1] == ']' {
                let x = slice_vec(t, i + 2, e);
                let ghost r0 = r.deep_view();
                assert(x.deep_view() =~= x@);
                r.push(x);
                proof {
                    assert(r.deep_view() =~= r0.push(x@));
                    let rest = links_from(t@, e + 2);
                    assert(r0.push(x@) + rest =~= r0 + (seq![x@] + rest));
                }
                i = e + 2;
                continue;
            }
        }
        i += 1;
    }
    assert(r.deep_view() + links_from(t@, i as int) =~= r.deep_view());
    r
}

/// Extract all `[[wiki-links]]` from note content, with 1-based line numbers.
pub fn extract_wiki_links(content: &str) -> (r: Vec<WikiLink>)
    ensures
        r.deep_view() == links_of_lines(lines(content@)),
{
    let c = chars_of(content);
    let ls = split_lines(&c);
    let ghost lv = ls.deep_view();
    let mut r: Vec<WikiLink> = Vec::new();
    let mut i: usize = 0;
    while i < ls.len()
        invariant
            i <= ls.len(),
            lv == ls.deep_view(),
            r.deep_view() == links_of_lines(lv.take(i as int)),
        decreases ls.len() - i,
    {
        proof {
            assert(lv.take(i + 1).drop_last() =~= lv.take(i as int));
            assert(ls[i as int].deep_view() =~= ls[i as int]@);
        }
        let targets = find_links(&ls[i]);
        let ghost tv = targets.deep_view();
        let ghost r0 = r.deep_view();
        let mut j: usize = 0;
        while j < targets.len()
            invariant
                j <= targets.len(),
                i < ls.len(),
                tv == targets.deep_view(),
                r.deep_view() == r0 + tv.take(j as int).map_values(
                    |x: Seq<char>| WikiLinkV { target: x, line_number: (i + 1) as usize },
                ),
            decreases targets.len() - j,
        {
            let ghost r1 = r.deep_view();
            let w = WikiLink { target: string_of(&targets[j]), line_number: i + 1 };
            proof {
                assert(targets[j as int].deep_view() =~= targets[j as int]@);
            }
            r.push(w);
            proof {
                assert(r.deep_view() =~= r1.push(w.deep_view()));
                assert(tv.take(j + 1) =~= tv.take(j as int).push(tv[j as int]));
                assert(r.deep_view() =~= r0 + tv.take(j + 1).map_values(
                    |x: Seq<char>| WikiLinkV { target: x, line_number: (i + 1) as usize },
                ));
            }
            j += 1;
        }
        proof {
            assert(tv.take(targets.len() as int) =~= tv);
        }
        i += 1;
    }
    assert(lv.take(ls.len() as int) =~= lv);
    r
}

} // verus!
