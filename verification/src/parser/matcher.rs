//! The signals that tie a daily-note block to a filing target: wiki links to
//! its title, shared tags, and significant title words in the block's text.
use vstd::prelude::*;
use crate::models::{ContentBlock, FilingTarget};
use crate::text::{
    alphanumeric, byte_len, chars_of, chars_of_string, concat, contains, contains_vec, is_alphanumeric, join,
    join_vec, lowercase, split_words, utf8_len, utf8_len_exec, string_of, strings_of, to_lowercase, vec_eq, words,
};

verus! {

/// The stopwords, separated by spaces.
pub const STOPWORDS: &'static str = "the a an and or but in on at to for of with by from is are was were be been being have has had do does did will would could should may might can this that these those my your his her its our their not no";

/// Words that never count as significant.
pub open spec fn stopwords() -> Seq<Seq<char>> {
    words(STOPWORDS@)
}

/// The pieces of `s` between characters that are not alphanumeric.
pub open spec fn alnum_pieces(s: Seq<char>) -> Seq<Seq<char>>
    decreases s.len(),
{
    if s.len() == 0 {
        seq![Seq::<char>::empty()]
    } else {
        let p = alnum_pieces(s.drop_last());
        if !alphanumeric(s.last()) {
            p.push(Seq::<char>::empty())
        } else {
            p.update(p.len() - 1, p.last().push(s.last()))
        }
    }
}

proof fn lemma_alnum_pieces_len(s: Seq<char>)
    ensures
        alnum_pieces(s).len() >= 1,
    decreases s.len(),
{
    if s.len() > 0 {
        lemma_alnum_pieces_len(s.drop_last());
    }
}

/// A word made only of ASCII digits and dots (such as a JD ID).
pub open spec fn id_like(w: Seq<char>) -> bool {
    forall|i: int| 0 <= i < w.len() ==> ('0' <= #[trigger] w[i] <= '9' || w[i] == '.')
}

/// A significant word: at least three bytes, not a stopword, not an ID.
pub open spec fn significant(w: Seq<char>) -> bool {
    byte_len(w) >= 3 && !stopwords().contains(lowercase(w)) && !id_like(w)
}

pub open spec fn significant_of(ws: Seq<Seq<char>>) -> Seq<Seq<char>>
    decreases ws.len(),
{
    if ws.len() == 0 {
        Seq::empty()
    } else if significant(ws.last()) {
        significant_of(ws.drop_last()).push(lowercase(ws.last()))
    } else {
        significant_of(ws.drop_last())
    }
}

/// The significant words of a title, lowercased, in order.
pub open spec fn significant_words(title: Seq<char>) -> Seq<Seq<char>> {
    significant_of(alnum_pieces(title))
}

fn at_least_three_bytes(w: &Vec<char>) -> (b: bool)
    ensures
        b == (byte_len(w@) >= 3),
{
    let mut n: usize = 0;
    let mut i: usize = 0;
    while i < w.len() && n < 3
        invariant
            i <= w.len(),
            n == byte_len(w@.take(i as int)),
            n < 3 ==> true,
        decreases w.len() - i,
    {
        assert(w@.take(i + 1).drop_last() =~= w@.take(i as int));
        n = n + utf8_len_exec(w[i]);
        i += 1;
    }
    if n >= 3 {
        proof {
            lemma_byte_len_prefix(w@, i as int);
        }
        true
    } else {
        assert(w@.take(i as int) =~= w@);
        false
    }
}

proof fn lemma_byte_len_prefix(s: Seq<char>, k: int)
    requires
        0 <= k <= s.len(),
    ensures
        byte_len(s.take(k)) <= byte_len(s),
    decreases s.len(),
{
    if k < s.len() {
        assert(s.drop_last().take(k) =~= s.take(k));
        lemma_byte_len_prefix(s.drop_last(), k);
    } else {
        assert(s.take(k) =~= s);
    }
}

fn stopword_list() -> (r: Vec<Vec<char>>)
    ensures
        r.deep_view() == stopwords(),
{
    split_words(&chars_of(STOPWORDS))
}

fn id_like_exec(w: &Vec<char>) -> (b: bool)
    ensures
        b == id_like(w@),
{
    let mut i: usize = 0;
    while i < w.len()
        invariant
            i <= w.len(),
            forall|k: int| 0 <= k < i ==> ('0' <= #[trigger] w@[k] <= '9' || w@[k] == '.'),
        decreases w.len() - i,
    {
        let c = w[i];
        if !(('0' <= c && c <= '9') || c == '.') {
            return false;
        }
        i += 1;
    }
    true
}

fn contains_word(ws: &Vec<Vec<char>>, w: &Vec<char>) -> (b: bool)
    ensures
        b == ws.deep_view().contains(w@),
{
    let mut i: usize = 0;
    while i < ws.len()
        invariant
            i <= ws.len(),
            forall|k: int| 0 <= k < i ==> ws.deep_view()[k] != w@,
        decreases ws.len() - i,
    {
        proof {
            crate::text::lemma_deep_chars(ws[i as int]);
        }
        if vec_eq(&ws[i], w) {
            assert(ws.deep_view()[i as int] == w@);
            return true;
        }
        i += 1;
    }
    false
}

fn alnum_pieces_exec(s: &Vec<char>) -> (r: Vec<Vec<char>>)
    ensures
        r.deep_view() == alnum_pieces(s@),
{
    let mut done: Vec<Vec<char>> = Vec::new();
    let mut cur: Vec<char> = Vec::new();
    let mut i: usize = 0;
    while i < s.len()
        invariant
            i <= s.len(),
            alnum_pieces(s@.take(i as int)).len() >= 1,
            done.deep_view() == alnum_pieces(s@.take(i as int)).drop_last(),
            cur@ == alnum_pieces(s@.take(i as int)).last(),
        decreases s.len() - i,
    {
        let ghost p = alnum_pieces(s@.take(i as int));
        proof {
            assert(s@.take(i + 1).drop_last() =~= s@.take(i as int));
        }
        let c = s[i];
        if !is_alphanumeric(c) {
            let ghost d0 = done.deep_view();
            let ghost cv = cur@;
            proof {
                crate::text::lemma_deep_chars(cur);
            }
            done.push(cur);
            cur = Vec::new();
            proof {
                assert(done.deep_view() =~= d0.push(cv));
                let p2 = alnum_pieces(s@.take(i + 1));
                assert(p2.drop_last() =~= p);
                assert(p =~= p.drop_last().push(p.last()));
            }
        } else {
            cur.push(c);
            proof {
                let p2 = alnum_pieces(s@.take(i + 1));
                assert(p2.drop_last() =~= p.drop_last());
            }
        }
        i += 1;
    }
    assert(s@.take(s.len() as int) =~= s@);
    let ghost d = done.deep_view();
    let ghost p = alnum_pieces(s@);
    proof {
        crate::text::lemma_deep_chars(cur);
    }
    done.push(cur);
    assert(done.deep_view() =~= d.push(p.last()));
    assert(p =~= p.drop_last().push(p.last()));
    done
}

/// The significant words of a title: its alphanumeric runs of at least three
/// bytes that are neither stopwords nor made of digits and dots, lowercased.
pub fn extract_significant_words(title: &str) -> (r: Vec<String>)
    ensures
        r.deep_view() == significant_words(title@),
{
    let t = chars_of(title);
    let pieces = alnum_pieces_exec(&t);
    let ghost pv = pieces.deep_view();
    let stops = stopword_list();
    let mut out: Vec<String> = Vec::new();
    let mut i: usize = 0;
    while i < pieces.len()
        invariant
            i <= pieces.len(),
            pv == pieces.deep_view(),
            stops.deep_view() == stopwords(),
            out.deep_view() == significant_of(pv.take(i as int)),
        decreases pieces.len() - i,
    {
        proof {
            assert(pv.take(i + 1).drop_last() =~= pv.take(i as int));
            crate::text::lemma_deep_chars(pieces[i as int]);
        }
        let w = &pieces[i];
        let lower = to_lowercase(w);
        if at_least_three_bytes(w) && !contains_word(&stops, &lower) && !id_like_exec(w) {
            let ghost o0 = out.deep_view();
            out.push(string_of(&lower));
            assert(out.deep_view() =~= o0.push(lowercase(pv[i as int])));
        }
        i += 1;
    }
    assert(pv.take(i as int) =~= pv);
    out
}

/// How strongly a block's wiki links name a target.
#[derive(Debug, Clone, Copy, PartialEq, Eq, Structural)]
pub enum LinkStrength {
    /// A link equals the title, ignoring case.
    Exact,
    /// A link contains the title, or the title contains the link.
    Partial,
    /// No link names the title.
    Absent,
}

/// The strength of the first link (from `i` on) that names the title at all.
pub open spec fn link_strength_from(links: Seq<Seq<char>>, title_lower: Seq<char>, i: int) -> LinkStrength
    decreases links.len() - i,
{
    if i < 0 || i >= links.len() {
        LinkStrength::Absent
    } else if lowercase(links[i]) == title_lower {
        LinkStrength::Exact
    } else if contains(title_lower, lowercase(links[i])) || contains(lowercase(links[i]), title_lower) {
        LinkStrength::Partial
    } else {
        link_strength_from(links, title_lower, i + 1)
    }
}

pub open spec fn link_strength(links: Seq<Seq<char>>, title: Seq<char>) -> LinkStrength {
    link_strength_from(links, lowercase(title), 0)
}

/// ASCII case folding of one character.
pub open spec fn ascii_fold(c: char) -> char {
    if 'A' <= c <= 'Z' {
        ((c as u32) + 32) as char
    } else {
        c
    }
}

/// `str::eq_ignore_ascii_case`.
pub open spec fn eq_ascii_ci(a: Seq<char>, b: Seq<char>) -> bool {
    a.len() == b.len() && forall|i: int| 0 <= i < a.len() ==> ascii_fold(#[trigger] a[i]) == ascii_fold(b[i])
}

/// The block tags that some target tag equals, ignoring ASCII case.
pub open spec fn shared_tags(block_tags: Seq<Seq<char>>, target_tags: Seq<Seq<char>>) -> Seq<Seq<char>>
    decreases block_tags.len(),
{
    if block_tags.len() == 0 {
        Seq::empty()
    } else if exists|j: int| 0 <= j < target_tags.len() && eq_ascii_ci(#[trigger] target_tags[j], block_tags.last()) {
        shared_tags(block_tags.drop_last(), target_tags).push(block_tags.last())
    } else {
        shared_tags(block_tags.drop_last(), target_tags)
    }
}

/// How many of the keywords the text contains.
pub open spec fn keyword_hits(keywords: Seq<Seq<char>>, text: Seq<char>) -> nat
    decreases keywords.len(),
{
    if keywords.len() == 0 {
        0
    } else {
        keyword_hits(keywords.drop_last(), text) + if contains(text, keywords.last()) {
            1nat
        } else {
            0nat
        }
    }
}

/// What ties a block to a target.
#[derive(Debug, Clone)]
pub struct MatchSignals {
    pub link: LinkStrength,
    /// The block's tags that the target also has.
    pub shared_tags: Vec<String>,
    pub block_tag_count: usize,
    pub target_tag_count: usize,
    /// The significant words of the target's title.
    pub keyword_count: usize,
    /// How many of them the block's text contains (lowercased).
    pub matched_keywords: usize,
    /// Why the block may belong to the target, one line per signal.
    pub reasons: Vec<String>,
}

/// The reasons shown for the signals.
pub open spec fn reasons_of(
    link: LinkStrength,
    shared: Seq<Seq<char>>,
    block_tags: nat,
    target_tags: nat,
    matched: nat,
    title: Seq<char>,
) -> Seq<Seq<char>> {
    let a = if link != LinkStrength::Absent {
        seq!["Wiki link to «"@ + title + "»"@]
    } else {
        Seq::empty()
    };
    let b = if block_tags > 0 && target_tags > 0 && shared.len() > 0 {
        seq!["Shared tags: "@ + join(shared, ", "@)]
    } else {
        Seq::empty()
    };
    let c = if matched > 0 {
        seq!["Keywords match «"@ + title + "»"@]
    } else {
        Seq::empty()
    };
    a + b + c
}

pub fn eq_ascii_ci_exec(a: &Vec<char>, b: &Vec<char>) -> (r: bool)
    ensures
        r == eq_ascii_ci(a@, b@),
{
    if a.len() != b.len() {
        return false;
    }
    let mut i: usize = 0;
    while i < a.len()
        invariant
            i <= a.len() == b.len(),
            forall|k: int| 0 <= k < i ==> ascii_fold(#[trigger] a@[k]) == ascii_fold(b@[k]),
        decreases a.len() - i,
    {
        let x = a[i];
        let y = b[i];
        let fx = if 'A' <= x && x <= 'Z' { ((x as u32) + 32) as u8 as char } else { x };
        let fy = if 'A' <= y && y <= 'Z' { ((y as u32) + 32) as u8 as char } else { y };
        assert(fx == ascii_fold(x) && fy == ascii_fold(y)) by {
            if 'A' <= x && x <= 'Z' {
                assert(((x as u32) + 32) as u8 as char == ((x as u32) + 32) as char);
            }
            if 'A' <= y && y <= 'Z' {
                assert(((y as u32) + 32) as u8 as char == ((y as u32) + 32) as char);
            }
        }
        if fx != fy {
            return false;
        }
        i += 1;
    }
    true
}

/// The signals between a block and a target.
pub fn match_signals(block: &ContentBlock, target: &FilingTarget) -> (s: MatchSignals)
    ensures
        s.link == link_strength(block.wiki_links.deep_view(), target.title@),
        s.shared_tags.deep_view() == shared_tags(block.tags.deep_view(), target.tags.deep_view()),
        s.block_tag_count == block.tags.len(),
        s.target_tag_count == target.tags.len(),
        s.keyword_count == significant_words(target.title@).len(),
        s.matched_keywords == keyword_hits(significant_words(target.title@), lowercase(block.raw_text@)),
        s.reasons.deep_view() == reasons_of(
            s.link,
            s.shared_tags.deep_view(),
            block.tags.len() as nat,
            target.tags.len() as nat,
            s.matched_keywords as nat,
            target.title@,
        ),
{
    let title = chars_of_string(&target.title);
    let title_lower = to_lowercase(&title);
    let ghost lv = block.wiki_links.deep_view();
    let mut link = LinkStrength::Absent;
    let mut i: usize = 0;
    while i < block.wiki_links.len()
        invariant_except_break
            i <= block.wiki_links.len(),
            link_strength(lv, target.title@) == link_strength_from(lv, title_lower@, i as int),
            link == LinkStrength::Absent,
        invariant
            lv == block.wiki_links.deep_view(),
            title_lower@ == lowercase(target.title@),
        ensures
            link == link_strength(lv, target.title@),
        decreases block.wiki_links.len() - i,
    {
        assert(lv[i as int] == block.wiki_links[i as int]@);
        let l = to_lowercase(&chars_of_string(&block.wiki_links[i]));
        if vec_eq(&l, &title_lower) {
            link = LinkStrength::Exact;
            break;
        }
        if contains_vec(&title_lower, &l) || contains_vec(&l, &title_lower) {
            link = LinkStrength::Partial;
            break;
        }
        i += 1;
    }
    let ghost bt = block.tags.deep_view();
    let ghost tt = target.tags.deep_view();
    let mut shared: Vec<String> = Vec::new();
    let mut k: usize = 0;
    while k < block.tags.len()
        invariant
            k <= block.tags.len(),
            bt == block.tags.deep_view(),
            tt == target.tags.deep_view(),
            shared.deep_view() == shared_tags(bt.take(k as int), tt),
        decreases block.tags.len() - k,
    {
        proof {
            assert(bt.take(k + 1).drop_last() =~= bt.take(k as int));
            assert(bt[k as int] == block.tags[k as int]@);
        }
        let t = chars_of_string(&block.tags[k]);
        let mut found = false;
        let mut j: usize = 0;
        while j < target.tags.len()
            invariant
                j <= target.tags.len(),
                tt == target.tags.deep_view(),
                found == exists|q: int| 0 <= q < j && eq_ascii_ci(#[trigger] tt[q], t@),
            decreases target.tags.len() - j,
        {
            assert(tt[j as int] == target.tags[j as int]@);
            if eq_ascii_ci_exec(&chars_of_string(&target.tags[j]), &t) {
                found = true;
            }
            j += 1;
        }
        if found {
            let ghost s0 = shared.deep_view();
            shared.push(string_of(&t));
            assert(shared.deep_view() =~= s0.push(bt[k as int]));
        }
        k += 1;
    }
    assert(bt.take(k as int) =~= bt);
    let keywords = extract_significant_words(target.title.as_str());
    let ghost kv = keywords.deep_view();
    let text = to_lowercase(&chars_of_string(&block.raw_text));
    let mut matched: usize = 0;
    let mut m: usize = 0;
    while m < keywords.len()
        invariant
            m <= keywords.len(),
            kv == keywords.deep_view(),
            text@ == lowercase(block.raw_text@),
            matched == keyword_hits(kv.take(m as int), text@),
            matched <= m,
        decreases keywords.len() - m,
    {
        proof {
            assert(kv.take(m + 1).drop_last() =~= kv.take(m as int));
            assert(kv[m as int] == keywords[m as int]@);
        }
        if contains_vec(&text, &chars_of_string(&keywords[m])) {
            matched += 1;
        }
        m += 1;
    }
    assert(kv.take(m as int) =~= kv);
    let mut reasons: Vec<String> = Vec::new();
    let ghost r0 = reasons.deep_view();
    if link != LinkStrength::Absent {
        let s = concat(&concat(&chars_of("Wiki link to «"), &title), &chars_of("»"));
        reasons.push(string_of(&s));
    }
    let ghost r1 = reasons.deep_view();
    if block.tags.len() > 0 && target.tags.len() > 0 && shared.len() > 0 {
        let mut parts: Vec<Vec<char>> = Vec::new();
        let mut q: usize = 0;
        while q < shared.len()
            invariant
                q <= shared.len(),
                parts.deep_view() == shared.deep_view().take(q as int),
            decreases shared.len() - q,
        {
            let ghost p0 = parts.deep_view();
            let c = chars_of_string(&shared[q]);
            proof {
                crate::text::lemma_deep_chars(c);
            }
            parts.push(c);
            assert(parts.deep_view() =~= p0.push(shared.deep_view()[q as int]));
            assert(shared.deep_view().take(q + 1) =~= shared.deep_view().take(q as int).push(shared.deep_view()[q as int]));
            q += 1;
        }
        assert(shared.deep_view().take(q as int) =~= shared.deep_view());
        let s = concat(&chars_of("Shared tags: "), &join_vec(&parts, &chars_of(", ")));
        reasons.push(string_of(&s));
    }
    let ghost r2 = reasons.deep_view();
    if matched > 0 {
        let s = concat(&concat(&chars_of("Keywords match «"), &title), &chars_of("»"));
        reasons.push(string_of(&s));
    }
    proof {
        let ghost rv = reasons_of(
            link,
            shared.deep_view(),
            block.tags.len() as nat,
            target.tags.len() as nat,
            matched as nat,
            target.title@,
        );
        assert(reasons.deep_view() =~= rv);
    }
    MatchSignals {
        link,
        shared_tags: shared,
        block_tag_count: block.tags.len(),
        target_tag_count: target.tags.len(),
        keyword_count: keywords.len(),
        matched_keywords: matched,
        reasons,
    }
}

} // verus!
