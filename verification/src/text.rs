//! Character-level text primitives over `Seq<char>`: whitespace, trimming,
//! line splitting, word splitting, searching and joining.
use vstd::prelude::*;

verus! {

/// Unicode `White_Space` (the class of `char::is_whitespace` and of `\s`).
pub open spec fn is_ws(c: char) -> bool {
    ||| c == '\t' || c == '\n' || c == '\u{0B}' || c == '\u{0C}' || c == '\r' || c == ' '
    ||| c == '\u{85}' || c == '\u{A0}' || c == '\u{1680}'
    ||| ('\u{2000}' <= c && c <= '\u{200A}')
    ||| c == '\u{2028}' || c == '\u{2029}' || c == '\u{202F}' || c == '\u{205F}' || c == '\u{3000}'
}

pub fn is_whitespace(c: char) -> (b: bool)
    ensures
        b == is_ws(c),
{
    c == '\t' || c == '\n' || c == '\u{0B}' || c == '\u{0C}' || c == '\r' || c == ' ' || c
        == '\u{85}' || c == '\u{A0}' || c == '\u{1680}' || ('\u{2000}' <= c && c <= '\u{200A}')
        || c == '\u{2028}' || c == '\u{2029}' || c == '\u{202F}' || c == '\u{205F}' || c
        == '\u{3000}'
}

pub open spec fn is_digit(c: char) -> bool {
    '0' <= c && c <= '9'
}

pub open spec fn all_ws(s: Seq<char>) -> bool {
    forall|i: int| 0 <= i < s.len() ==> #[trigger] is_ws(s[i])
}

/// `s` with leading whitespace removed.
pub open spec fn trim_start(s: Seq<char>) -> Seq<char>
    decreases s.len(),
{
    if s.len() > 0 && is_ws(s[0]) {
        trim_start(s.drop_first())
    } else {
        s
    }
}

/// `s` with trailing whitespace removed.
pub open spec fn trim_end(s: Seq<char>) -> Seq<char>
    decreases s.len(),
{
    if s.len() > 0 && is_ws(s.last()) {
        trim_end(s.drop_last())
    } else {
        s
    }
}

/// `s` with leading and trailing whitespace removed (`str::trim`).
pub open spec fn trim(s: Seq<char>) -> Seq<char> {
    trim_end(trim_start(s))
}

pub proof fn lemma_trim_start_skip(s: Seq<char>, k: int)
    requires
        0 <= k <= s.len(),
        forall|i: int| 0 <= i < k ==> #[trigger] is_ws(s[i]),
        k == s.len() || !is_ws(s[k]),
    ensures
        trim_start(s) == s.skip(k),
    decreases k,
{
    if k == 0 {
        assert(s.skip(0) =~= s);
    } else {
        assert(is_ws(s[0]));
        let t = s.drop_first();
        assert forall|i: int| 0 <= i < k - 1 implies #[trigger] is_ws(t[i]) by {
            assert(t[i] == s[i + 1]);
        }
        lemma_trim_start_skip(t, k - 1);
        assert(t.skip(k - 1) =~= s.skip(k));
    }
}

pub proof fn lemma_trim_end_take(s: Seq<char>, k: int)
    requires
        0 <= k <= s.len(),
        forall|i: int| k <= i < s.len() ==> #[trigger] is_ws(s[i]),
        k == 0 || !is_ws(s[k - 1]),
    ensures
        trim_end(s) == s.take(k),
    decreases s.len() - k,
{
    if k == s.len() {
        assert(s.take(k) =~= s);
    } else {
        assert(is_ws(s.last()));
        let t = s.drop_last();
        assert forall|i: int| k <= i < t.len() implies #[trigger] is_ws(t[i]) by {
            assert(t[i] == s[i]);
        }
        lemma_trim_end_take(t, k);
        assert(t.take(k) =~= s.take(k));
    }
}

pub proof fn lemma_trim_start_all_ws(s: Seq<char>)
    requires
        all_ws(s),
    ensures
        trim_start(s).len() == 0,
{
    lemma_trim_start_skip(s, s.len() as int);
}

/// Copy of `v[lo..hi]`.
pub fn slice_vec(v: &Vec<char>, lo: usize, hi: usize) -> (r: Vec<char>)
    requires
        lo <= hi <= v.len(),
    ensures
        r@ == v@.subrange(lo as int, hi as int),
{
    let mut r: Vec<char> = Vec::new();
    let mut i = lo;
    while i < hi
        invariant
            lo <= i <= hi <= v.len(),
            r@ == v@.subrange(lo as int, i as int),
        decreases hi - i,
    {
        r.push(v[i]);
        i += 1;
        assert(r@ =~= v@.subrange(lo as int, i as int));
    }
    r
}

/// `str::trim` on a character vector.
pub fn trim_vec(v: &Vec<char>) -> (r: Vec<char>)
    ensures
        r@ == trim(v@),
{
    let n = v.len();
    let mut lo: usize = 0;
    while lo < n && is_whitespace(v[lo])
        invariant
            lo <= n == v.len(),
            forall|i: int| 0 <= i < lo ==> #[trigger] is_ws(v@[i]),
        decreases n - lo,
    {
        lo += 1;
    }
    proof {
        lemma_trim_start_skip(v@, lo as int);
    }
    let mut hi: usize = n;
    while hi > lo && is_whitespace(v[hi - 1])
        invariant
            lo <= hi <= n == v.len(),
            forall|i: int| hi <= i < n ==> #[trigger] is_ws(v@[i]),
        decreases hi,
    {
        hi -= 1;
    }
    let ghost t = v@.skip(lo as int);
    proof {
        assert forall|i: int| (hi - lo) <= i < t.len() implies #[trigger] is_ws(t[i]) by {
            assert(t[i] == v@[i + lo]);
        }
        if hi > lo {
            assert(t[hi - lo - 1] == v@[hi - 1]);
        }
        lemma_trim_end_take(t, (hi - lo) as int);
        assert(t.take((hi - lo) as int) =~= v@.subrange(lo as int, hi as int));
    }
    slice_vec(v, lo, hi)
}

/// Pieces of `s` between occurrences of `sep` (`str::split` with a char):
/// always at least one piece.
pub open spec fn split_on(s: Seq<char>, sep: char) -> Seq<Seq<char>>
    decreases s.len(),
{
    if s.len() == 0 {
        seq![Seq::<char>::empty()]
    } else {
        let p = split_on(s.drop_last(), sep);
        if s.last() == sep {
            p.push(Seq::<char>::empty())
        } else {
            p.update(p.len() - 1, p.last().push(s.last()))
        }
    }
}

pub proof fn lemma_split_on_len(s: Seq<char>, sep: char)
    ensures
        split_on(s, sep).len() >= 1,
    decreases s.len(),
{
    if s.len() > 0 {
        lemma_split_on_len(s.drop_last(), sep);
    }
}

/// Strip one trailing carriage return.
pub open spec fn strip_cr(l: Seq<char>) -> Seq<char> {
    if l.len() > 0 && l.last() == '\r' {
        l.drop_last()
    } else {
        l
    }
}

/// The lines of `s` (`str::lines`): split at `\n`, a `\r` before the `\n`
/// dropped, no final empty line after a trailing `\n`.
pub open spec fn lines(s: Seq<char>) -> Seq<Seq<char>> {
    if s.len() == 0 {
        Seq::empty()
    } else {
        let p = split_on(s, '\n');
        let done = p.drop_last().map_values(|l: Seq<char>| strip_cr(l));
        if s.last() == '\n' {
            done
        } else {
            done.push(p.last())
        }
    }
}

pub fn split_lines(v: &Vec<char>) -> (r: Vec<Vec<char>>)
    ensures
        r.deep_view() == lines(v@),
        r.len() <= v.len(),
{
    let n = v.len();
    let mut done: Vec<Vec<char>> = Vec::new();
    let mut cur: Vec<char> = Vec::new();
    let mut i: usize = 0;
    while i < n
        invariant
            i <= n == v.len(),
            split_on(v@.take(i as int), '\n').len() >= 1,
            done.deep_view() == split_on(v@.take(i as int), '\n').drop_last().map_values(
                |l: Seq<char>| strip_cr(l),
            ),
            cur@ == split_on(v@.take(i as int), '\n').last(),
            done.len() + cur.len() <= i,
        decreases n - i,
    {
        let ghost p = split_on(v@.take(i as int), '\n');
        let c = v[i];
        proof {
            assert(v@.take(i + 1).drop_last() =~= v@.take(i as int));
        }
        if c == '\n' {
            let mut line = cur;
            if line.len() > 0 && line[line.len() - 1] == '\r' {
                line.pop();
            }
            let ghost d0 = done.deep_view();
            let ghost lv = line@;
            assert(line.deep_view() =~= line@);
            done.push(line);
            cur = Vec::new();
            proof {
                assert(done.deep_view() =~= d0.push(lv));
                let p2 = split_on(v@.take(i + 1), '\n');
                assert(p2 == p.push(Seq::<char>::empty()));
                assert(p2.drop_last() =~= p);
                assert(done.deep_view() =~= p.map_values(|l: Seq<char>| strip_cr(l)));
            }
        } else {
            cur.push(c);
            proof {
                let p2 = split_on(v@.take(i + 1), '\n');
                assert(p2.drop_last() =~= p.drop_last());
            }
        }
        i += 1;
    }
    proof {
        assert(v@.take(n as int) =~= v@);
    }
    if n == 0 {
        assert(done.deep_view() =~= Seq::<Seq<char>>::empty());
        return done;
    }
    if v[n - 1] == '\n' {
        done
    } else {
        proof {
            lemma_split_on_len(v@.drop_last(), '\n');
            let p0 = split_on(v@.drop_last(), '\n');
            assert(split_on(v@, '\n') == p0.update(p0.len() - 1, p0.last().push(v@.last())));
            assert(cur@.len() > 0);
        }
        let ghost d = done.deep_view();
        assert(cur.deep_view() =~= cur@);
        done.push(cur);
        assert(done.deep_view() =~= d.push(split_on(v@, '\n').last()));
        done
    }
}


/// The characters of a string slice.
pub fn chars_of(s: &str) -> (v: Vec<char>)
    ensures
        v@ == s@,
{
    let mut v: Vec<char> = Vec::new();
    for c in it: s.chars()
        invariant
            v@ == it.seq().take(it.index()),
            it.seq() == s@,
    {
        v.push(c);
        assert(v@ =~= it.seq().take(it.index() + 1));
    }
    assert(v@ =~= s@);
    v
}

/// The characters of a `String`.
pub fn chars_of_string(s: &String) -> (v: Vec<char>)
    ensures
        v@ == s@,
{
    chars_of(s.as_str())
}

/// Collects characters into a `String` (`FromIterator<char> for String`).
#[verifier::external_body]
pub(crate) fn string_of(v: &Vec<char>) -> (r: String)
    ensures
        r@ == v@,
{
    v.iter().collect()
}

/// The name of what `str::to_lowercase` returns for a character sequence.
pub uninterp spec fn lowercase(s: Seq<char>) -> Seq<char>;

/// Calls `str::to_lowercase` on the characters of `v`; the result is named
/// `lowercase(v@)` and nothing more is claimed of it.
#[verifier::external_body]
pub(crate) fn to_lowercase(v: &Vec<char>) -> (r: Vec<char>)
    ensures
        r@ == lowercase(v@),
{
    v.iter().collect::<String>().to_lowercase().chars().collect()
}

/// The name of `char::is_alphanumeric` (Unicode `Alphabetic` or `Numeric`).
pub uninterp spec fn alphanumeric(c: char) -> bool;

/// Calls `char::is_alphanumeric`.
#[verifier::external_body]
pub(crate) fn is_alphanumeric(c: char) -> (b: bool)
    ensures
        b == alphanumeric(c),
{
    c.is_alphanumeric()
}

/// Whether `pre` is a prefix of `s`.
pub open spec fn has_prefix(s: Seq<char>, pre: Seq<char>) -> bool {
    pre.len() <= s.len() && s.take(pre.len() as int) == pre
}

/// Whether `suf` is a suffix of `s`.
pub open spec fn has_suffix(s: Seq<char>, suf: Seq<char>) -> bool {
    suf.len() <= s.len() && s.skip(s.len() - suf.len()) == suf
}

/// Whether `pat` occurs in `s` at position `i`.
pub open spec fn occurs_at(s: Seq<char>, pat: Seq<char>, i: int) -> bool {
    0 <= i && i + pat.len() <= s.len() && s.subrange(i, i + pat.len()) == pat
}

/// Whether `pat` occurs somewhere in `s` (`str::contains`).
pub open spec fn contains(s: Seq<char>, pat: Seq<char>) -> bool {
    exists|i: int| #[trigger] occurs_at(s, pat, i)
}

pub fn starts_with(s: &Vec<char>, pre: &Vec<char>) -> (b: bool)
    ensures
        b == has_prefix(s@, pre@),
{
    if pre.len() > s.len() {
        return false;
    }
    let mut i: usize = 0;
    while i < pre.len()
        invariant
            i <= pre.len() <= s.len(),
            s@.take(i as int) == pre@.take(i as int),
        decreases pre.len() - i,
    {
        if s[i] != pre[i] {
            assert(s@.take(pre.len() as int)[i as int] != pre@[i as int]);
            return false;
        }
        i += 1;
        assert(s@.take(i as int) =~= pre@.take(i as int));
    }
    assert(pre@.take(pre.len() as int) =~= pre@);
    true
}

pub fn ends_with(s: &Vec<char>, suf: &Vec<char>) -> (b: bool)
    ensures
        b == has_suffix(s@, suf@),
{
    if suf.len() > s.len() {
        return false;
    }
    let off = s.len() - suf.len();
    let mut i: usize = 0;
    while i < suf.len()
        invariant
            off + suf.len() == s.len(),
            i <= suf.len(),
            forall|j: int| 0 <= j < i ==> s@[off + j] == suf@[j],
        decreases suf.len() - i,
    {
        if s[off + i] != suf[i] {
            assert(s@.skip(off as int)[i as int] != suf@[i as int]);
            return false;
        }
        i += 1;
    }
    assert(s@.skip(off as int) =~= suf@);
    true
}

/// Whether `pat` occurs in `s` at `i`.
pub fn matches_at(s: &Vec<char>, pat: &Vec<char>, i: usize) -> (b: bool)
    ensures
        b == occurs_at(s@, pat@, i as int),
{
    if i > s.len() || pat.len() > s.len() - i {
        return false;
    }
    let mut j: usize = 0;
    while j < pat.len()
        invariant
            i + pat.len() <= s.len(),
            j <= pat.len(),
            forall|k: int| 0 <= k < j ==> s@[i + k] == pat@[k],
        decreases pat.len() - j,
    {
        if s[i + j] != pat[j] {
            assert(s@.subrange(i as int, i + pat.len())[j as int] != pat@[j as int]);
            return false;
        }
        j += 1;
    }
    assert(s@.subrange(i as int, i + pat.len()) =~= pat@);
    true
}

/// `str::contains` with a pattern string.
pub fn contains_vec(s: &Vec<char>, pat: &Vec<char>) -> (b: bool)
    ensures
        b == contains(s@, pat@),
{
    if pat.len() > s.len() {
        return false;
    }
    let last = s.len() - pat.len();
    let mut i: usize = 0;
    while i <= last
        invariant
            last + pat.len() == s.len(),
            i <= last + 1,
            forall|k: int| 0 <= k < i ==> !occurs_at(s@, pat@, k),
        decreases last + 1 - i,
    {
        if matches_at(s, pat, i) {
            return true;
        }
        if i == last {
            assert forall|k: int| !occurs_at(s@, pat@, k) by {
                if 0 <= k && k + pat@.len() <= s@.len() {
                    assert(k <= last);
                }
            }
            return false;
        }
        i += 1;
    }
    assert forall|k: int| !occurs_at(s@, pat@, k) by {
        if 0 <= k && k + pat@.len() <= s@.len() {
            assert(k <= last);
        }
    }
    false
}

/// `str::contains` with a string-slice pattern.
pub fn contains_str(s: &Vec<char>, pat: &str) -> (b: bool)
    ensures
        b == contains(s@, pat@),
{
    let p = chars_of(pat);
    contains_vec(s, &p)
}

/// Whether `c` occurs in `s`.
pub fn has_char(s: &Vec<char>, c: char) -> (b: bool)
    ensures
        b == s@.contains(c),
{
    let mut i: usize = 0;
    while i < s.len()
        invariant
            i <= s.len(),
            forall|k: int| 0 <= k < i ==> s@[k] != c,
        decreases s.len() - i,
    {
        if s[i] == c {
            return true;
        }
        i += 1;
    }
    false
}

pub open spec fn count_char(s: Seq<char>, c: char) -> nat
    decreases s.len(),
{
    if s.len() == 0 {
        0
    } else {
        count_char(s.drop_last(), c) + if s.last() == c {
            1nat
        } else {
            0nat
        }
    }
}

/// Number of occurrences of `c` in `s` (`s.matches(c).count()`).
pub fn count_of(s: &Vec<char>, c: char) -> (n: usize)
    ensures
        n == count_char(s@, c),
{
    let mut n: usize = 0;
    let mut i: usize = 0;
    while i < s.len()
        invariant
            i <= s.len(),
            n == count_char(s@.take(i as int), c),
            n <= i,
        decreases s.len() - i,
    {
        assert(s@.take(i + 1).drop_last() =~= s@.take(i as int));
        if s[i] == c {
            n += 1;
        }
        i += 1;
    }
    assert(s@.take(s.len() as int) =~= s@);
    n
}

pub fn vec_eq(a: &Vec<char>, b: &Vec<char>) -> (r: bool)
    ensures
        r == (a@ == b@),
{
    if a.len() != b.len() {
        return false;
    }
    let mut i: usize = 0;
    while i < a.len()
        invariant
            i <= a.len() == b.len(),
            forall|k: int| 0 <= k < i ==> a@[k] == b@[k],
        decreases a.len() - i,
    {
        if a[i] != b[i] {
            return false;
        }
        i += 1;
    }
    assert(a@ =~= b@);
    true
}

pub fn eq_str(a: &Vec<char>, b: &str) -> (r: bool)
    ensures
        r == (a@ == b@),
{
    let bv = chars_of(b);
    vec_eq(a, &bv)
}

/// Concatenation of two character vectors.
pub fn concat(a: &Vec<char>, b: &Vec<char>) -> (r: Vec<char>)
    ensures
        r@ == a@ + b@,
{
    let mut r = a.clone();
    let mut i: usize = 0;
    while i < b.len()
        invariant
            i <= b.len(),
            r@ == a@ + b@.take(i as int),
        decreases b.len() - i,
    {
        r.push(b[i]);
        i += 1;
        assert(r@ =~= a@ + b@.take(i as int));
    }
    assert(b@.take(b.len() as int) =~= b@);
    r
}

/// The pieces of `s` separated by `sep` (`str::split` with a char).
pub fn split_vec(s: &Vec<char>, sep: char) -> (r: Vec<Vec<char>>)
    ensures
        r.deep_view() == split_on(s@, sep),
        r.len() >= 1,
{
    let n = s.len();
    let mut done: Vec<Vec<char>> = Vec::new();
    let mut cur: Vec<char> = Vec::new();
    let mut i: usize = 0;
    while i < n
        invariant
            i <= n == s.len(),
            split_on(s@.take(i as int), sep).len() >= 1,
            done.deep_view() == split_on(s@.take(i as int), sep).drop_last(),
            cur@ == split_on(s@.take(i as int), sep).last(),
        decreases n - i,
    {
        let ghost p = split_on(s@.take(i as int), sep);
        proof {
            assert(s@.take(i + 1).drop_last() =~= s@.take(i as int));
        }
        let c = s[i];
        if c == sep {
            let ghost d0 = done.deep_view();
            let ghost cv = cur@;
            assert(cur.deep_view() =~= cur@);
            done.push(cur);
            cur = Vec::new();
            proof {
                assert(done.deep_view() =~= d0.push(cv));
                let p2 = split_on(s@.take(i + 1), sep);
                assert(p2.drop_last() =~= p);
            }
        } else {
            cur.push(c);
            proof {
                let p2 = split_on(s@.take(i + 1), sep);
                assert(p2.drop_last() =~= p.drop_last());
            }
        }
        i += 1;
    }
    assert(s@.take(n as int) =~= s@);
    let ghost d = done.deep_view();
    assert(cur.deep_view() =~= cur@);
    done.push(cur);
    let ghost p = split_on(s@, sep);
    assert(done.deep_view() =~= d.push(p.last()));
    assert(p =~= p.drop_last().push(p.last()));
    done
}

/// Maximal runs of non-whitespace characters (`str::split_whitespace`).
pub open spec fn ws_pieces(s: Seq<char>) -> Seq<Seq<char>>
    decreases s.len(),
{
    if s.len() == 0 {
        seq![Seq::<char>::empty()]
    } else {
        let p = ws_pieces(s.drop_last());
        if is_ws(s.last()) {
            p.push(Seq::<char>::empty())
        } else {
            p.update(p.len() - 1, p.last().push(s.last()))
        }
    }
}

/// The non-empty elements of `p`, in order.
pub open spec fn non_empty(p: Seq<Seq<char>>) -> Seq<Seq<char>>
    decreases p.len(),
{
    if p.len() == 0 {
        Seq::empty()
    } else if p.last().len() == 0 {
        non_empty(p.drop_last())
    } else {
        non_empty(p.drop_last()).push(p.last())
    }
}

/// The whitespace-separated words of `s`.
pub open spec fn words(s: Seq<char>) -> Seq<Seq<char>> {
    non_empty(ws_pieces(s))
}

pub proof fn lemma_ws_pieces_len(s: Seq<char>)
    ensures
        ws_pieces(s).len() >= 1,
    decreases s.len(),
{
    if s.len() > 0 {
        lemma_ws_pieces_len(s.drop_last());
    }
}

pub fn split_words(s: &Vec<char>) -> (r: Vec<Vec<char>>)
    ensures
        r.deep_view() == words(s@),
{
    let n = s.len();
    let mut done: Vec<Vec<char>> = Vec::new();
    let mut cur: Vec<char> = Vec::new();
    let mut i: usize = 0;
    while i < n
        invariant
            i <= n == s.len(),
            ws_pieces(s@.take(i as int)).len() >= 1,
            done.deep_view() == non_empty(ws_pieces(s@.take(i as int)).drop_last()),
            cur@ == ws_pieces(s@.take(i as int)).last(),
        decreases n - i,
    {
        let ghost p = ws_pieces(s@.take(i as int));
        proof {
            assert(s@.take(i + 1).drop_last() =~= s@.take(i as int));
            assert(p =~= p.drop_last().push(p.last()));
        }
        let c = s[i];
        if is_whitespace(c) {
            if cur.len() > 0 {
                let ghost d0 = done.deep_view();
                let ghost cv = cur@;
                assert(cur.deep_view() =~= cur@);
                done.push(cur);
                assert(done.deep_view() =~= d0.push(cv));
            }
            cur = Vec::new();
            proof {
                let p2 = ws_pieces(s@.take(i + 1));
                assert(p2.drop_last() =~= p);
            }
        } else {
            cur.push(c);
            proof {
                let p2 = ws_pieces(s@.take(i + 1));
                assert(p2.drop_last() =~= p.drop_last());
            }
        }
        i += 1;
    }
    assert(s@.take(n as int) =~= s@);
    let ghost p = ws_pieces(s@);
    assert(p =~= p.drop_last().push(p.last()));
    if cur.len() > 0 {
        let ghost d = done.deep_view();
        assert(cur.deep_view() =~= cur@);
        done.push(cur);
        assert(done.deep_view() =~= d.push(p.last()));
    }
    done
}

/// `parts` joined with `sep` between consecutive parts.
pub open spec fn join(parts: Seq<Seq<char>>, sep: Seq<char>) -> Seq<char>
    decreases parts.len(),
{
    if parts.len() == 0 {
        Seq::empty()
    } else if parts.len() == 1 {
        parts[0]
    } else {
        join(parts.drop_last(), sep) + sep + parts.last()
    }
}

pub fn join_vec(parts: &Vec<Vec<char>>, sep: &Vec<char>) -> (r: Vec<char>)
    ensures
        r@ == join(parts.deep_view(), sep@),
{
    let mut r: Vec<char> = Vec::new();
    let mut i: usize = 0;
    while i < parts.len()
        invariant
            i <= parts.len(),
            r@ == join(parts.deep_view().take(i as int), sep@),
        decreases parts.len() - i,
    {
        let ghost dv = parts.deep_view();
        proof {
            assert(dv.take(i + 1).drop_last() =~= dv.take(i as int));
            assert(parts[i as int].deep_view() =~= parts[i as int]@);
        }
        if i == 0 {
            r = parts[0].clone();
            assert(dv.take(1) =~= seq![dv[0]]);
        } else {
            let r1 = concat(&r, sep);
            r = concat(&r1, &parts[i]);
        }
        i += 1;
    }
    assert(parts.deep_view().take(parts.len() as int) =~= parts.deep_view());
    r
}


/// Character classes used by the note grammar.
#[derive(Clone, Copy, PartialEq, Eq, Structural)]
pub enum CharClass {
    /// Unicode whitespace (`\s`).
    Ws,
    /// Tab or space (`[\t ]`).
    TabSpace,
    /// ASCII letter or digit (`[A-Za-z0-9]`).
    AsciiAlnum,
    /// A tag or mention character (`[\w/\-]`).
    TagChar,
    /// Any character but `]` (`[^\]]`).
    NotCloseBracket,
    /// Any character but `]` or `^` (`[^\]^]`).
    NotCloseOrCaret,
    /// An ASCII digit.
    Digit,
    /// The `#` character.
    Hash,
    /// Any character but `/`.
    NotSlash,
}

pub open spec fn ascii_alnum(c: char) -> bool {
    ('a' <= c && c <= 'z') || ('A' <= c && c <= 'Z') || ('0' <= c && c <= '9')
}

/// A word character for tags and mentions: alphanumeric or `_`.
pub open spec fn word_char(c: char) -> bool {
    alphanumeric(c) || c == '_'
}

pub open spec fn in_class(cls: CharClass, c: char) -> bool {
    match cls {
        CharClass::Ws => is_ws(c),
        CharClass::TabSpace => c == '\t' || c == ' ',
        CharClass::AsciiAlnum => ascii_alnum(c),
        CharClass::TagChar => word_char(c) || c == '/' || c == '-',
        CharClass::NotCloseBracket => c != ']',
        CharClass::NotCloseOrCaret => c != ']' && c != '^',
        CharClass::Digit => is_digit(c),
        CharClass::Hash => c == '#',
        CharClass::NotSlash => c != '/',
    }
}

pub fn class_has(cls: CharClass, c: char) -> (b: bool)
    ensures
        b == in_class(cls, c),
{
    match cls {
        CharClass::Ws => is_whitespace(c),
        CharClass::TabSpace => c == '\t' || c == ' ',
        CharClass::AsciiAlnum => ('a' <= c && c <= 'z') || ('A' <= c && c <= 'Z') || ('0' <= c
            && c <= '9'),
        CharClass::TagChar => is_alphanumeric(c) || c == '_' || c == '/' || c == '-',
        CharClass::NotCloseBracket => c != ']',
        CharClass::NotCloseOrCaret => c != ']' && c != '^',
        CharClass::Digit => '0' <= c && c <= '9',
        CharClass::Hash => c == '#',
        CharClass::NotSlash => c != '/',
    }
}

/// End of the maximal run of `cls` characters starting at `from`.
pub open spec fn run_end(s: Seq<char>, from: int, cls: CharClass) -> int
    decreases s.len() - from,
{
    if 0 <= from < s.len() && in_class(cls, s[from]) {
        run_end(s, from + 1, cls)
    } else {
        from
    }
}

/// Start of the maximal run of `cls` characters ending at `end`.
pub open spec fn run_start(s: Seq<char>, end: int, cls: CharClass) -> int
    decreases end,
{
    if 0 < end <= s.len() && in_class(cls, s[end - 1]) {
        run_start(s, end - 1, cls)
    } else {
        end
    }
}

pub proof fn lemma_run_end(s: Seq<char>, from: int, cls: CharClass)
    requires
        0 <= from <= s.len(),
    ensures
        from <= run_end(s, from, cls) <= s.len(),
        forall|i: int| from <= i < run_end(s, from, cls) ==> #[trigger] in_class(cls, s[i]),
        run_end(s, from, cls) == s.len() || !in_class(cls, s[run_end(s, from, cls)]),
    decreases s.len() - from,
{
    if from < s.len() && in_class(cls, s[from]) {
        lemma_run_end(s, from + 1, cls);
    }
}

pub proof fn lemma_run_start(s: Seq<char>, end: int, cls: CharClass)
    requires
        0 <= end <= s.len(),
    ensures
        0 <= run_start(s, end, cls) <= end,
        forall|i: int| run_start(s, end, cls) <= i < end ==> #[trigger] in_class(cls, s[i]),
        run_start(s, end, cls) == 0 || !in_class(cls, s[run_start(s, end, cls) - 1]),
    decreases end,
{
    if end > 0 && in_class(cls, s[end - 1]) {
        lemma_run_start(s, end - 1, cls);
    }
}

/// Index just past the run of `cls` characters starting at `from`.
pub fn scan_run(s: &Vec<char>, from: usize, cls: CharClass) -> (e: usize)
    requires
        from <= s.len(),
    ensures
        e == run_end(s@, from as int, cls),
        from <= e <= s.len(),
{
    proof {
        lemma_run_end(s@, from as int, cls);
    }
    let mut i = from;
    while i < s.len() && class_has(cls, s[i])
        invariant
            from <= i <= s.len(),
            run_end(s@, i as int, cls) == run_end(s@, from as int, cls),
        decreases s.len() - i,
    {
        i += 1;
    }
    i
}

/// Start of the run of `cls` characters ending at `end`.
pub fn scan_run_back(s: &Vec<char>, end: usize, cls: CharClass) -> (b: usize)
    requires
        end <= s.len(),
    ensures
        b == run_start(s@, end as int, cls),
        b <= end,
{
    proof {
        lemma_run_start(s@, end as int, cls);
    }
    let mut i = end;
    while i > 0 && class_has(cls, s[i - 1])
        invariant
            i <= end <= s.len(),
            run_start(s@, i as int, cls) == run_start(s@, end as int, cls),
        decreases i,
    {
        i -= 1;
    }
    i
}

/// Whether `s` contains no line feed.
pub open spec fn no_nl(s: Seq<char>) -> bool {
    !s.contains('\n')
}

/// Whether `s[from..]` contains no line feed.
pub fn no_nl_from(s: &Vec<char>, from: usize) -> (b: bool)
    requires
        from <= s.len(),
    ensures
        b == no_nl(s@.skip(from as int)),
{
    let mut i = from;
    while i < s.len()
        invariant
            from <= i <= s.len(),
            forall|k: int| from <= k < i ==> s@[k] != '\n',
        decreases s.len() - i,
    {
        if s[i] == '\n' {
            assert(s@.skip(from as int)[i - from] == '\n');
            return false;
        }
        i += 1;
    }
    assert forall|k: int| 0 <= k < s@.skip(from as int).len() implies s@.skip(from as int)[k]
        != '\n' by {
        assert(s@.skip(from as int)[k] == s@[k + from]);
    }
    true
}


/// Converts character vectors to strings, one for one.
pub fn strings_of(v: &Vec<Vec<char>>) -> (r: Vec<String>)
    ensures
        r.deep_view() == v.deep_view(),
{
    let mut r: Vec<String> = Vec::new();
    let mut i: usize = 0;
    while i < v.len()
        invariant
            i <= v.len(),
            r.deep_view() == v.deep_view().take(i as int),
        decreases v.len() - i,
    {
        let s = string_of(&v[i]);
        let ghost r0 = r.deep_view();
        r.push(s);
        proof {
            assert(v[i as int].deep_view() =~= v[i as int]@);
            assert(r.deep_view() =~= r0.push(v[i as int]@));
            assert(v.deep_view().take(i + 1) =~= v.deep_view().take(i as int).push(
                v.deep_view()[i as int],
            ));
        }
        i += 1;
    }
    assert(v.deep_view().take(v.len() as int) =~= v.deep_view());
    r
}

/// An optional character vector as an optional string.
pub fn opt_string_of(v: &Option<Vec<char>>) -> (r: Option<String>)
    ensures
        r.deep_view() == match v {
            Some(x) => Some(x@),
            None => None::<Seq<char>>,
        },
{
    match v {
        Some(x) => Some(string_of(x)),
        None => None,
    }
}

/// `str::trim_end` on a character vector.
pub fn trim_end_vec(v: &Vec<char>) -> (r: Vec<char>)
    ensures
        r@ == trim_end(v@),
{
    let n = v.len();
    let mut hi: usize = n;
    while hi > 0 && is_whitespace(v[hi - 1])
        invariant
            hi <= n == v.len(),
            forall|i: int| hi <= i < n ==> #[trigger] is_ws(v@[i]),
        decreases hi,
    {
        hi -= 1;
    }
    proof {
        lemma_trim_end_take(v@, hi as int);
    }
    slice_vec(v, 0, hi)
}

/// The concatenation of a literal, a character vector and a literal.
pub fn enclose(pre: &str, mid: &Vec<char>, post: &str) -> (r: Vec<char>)
    ensures
        r@ == pre@ + mid@ + post@,
{
    concat(&concat(&chars_of(pre), mid), &chars_of(post))
}

/// The decimal digits of `n`, most significant first (none for zero).
pub open spec fn dec_digits(n: nat) -> Seq<char>
    decreases n,
{
    if n == 0 {
        Seq::empty()
    } else {
        dec_digits(n / 10).push(((n % 10 + 48) as u8) as char)
    }
}

/// The decimal form of `n` (`usize::to_string`).
pub open spec fn decimal(n: nat) -> Seq<char> {
    if n == 0 {
        seq!['0']
    } else {
        dec_digits(n)
    }
}

pub fn decimal_of(n: usize) -> (r: Vec<char>)
    ensures
        r@ == decimal(n as nat),
{
    if n == 0 {
        let mut z: Vec<char> = Vec::new();
        z.push('0');
        assert(z@ =~= seq!['0']);
        return z;
    }
    let mut s: Vec<char> = Vec::new();
    let mut m = n;
    while m > 0
        invariant
            dec_digits(n as nat) == dec_digits(m as nat) + s@,
        decreases m,
    {
        let c = (((m % 10) as u8) + 48) as char;
        proof {
            assert(dec_digits(m as nat) == dec_digits((m / 10) as nat).push(c));
            assert(dec_digits((m / 10) as nat) + seq![c].add(s@) =~= dec_digits(
                (m / 10) as nat,
            ).push(c) + s@);
        }
        s.insert(0, c);
        m = m / 10;
    }
    assert(s@ =~= dec_digits(n as nat));
    s
}

/// `decimal_of` for wide numbers.
pub fn decimal_of_u128(n: u128) -> (r: Vec<char>)
    ensures
        r@ == decimal(n as nat),
{
    if n == 0 {
        let mut z: Vec<char> = Vec::new();
        z.push('0');
        assert(z@ =~= seq!['0']);
        return z;
    }
    let mut s: Vec<char> = Vec::new();
    let mut m = n;
    while m > 0
        invariant
            dec_digits(n as nat) == dec_digits(m as nat) + s@,
        decreases m,
    {
        let c = (((m % 10) as u8) + 48) as char;
        proof {
            assert(dec_digits(m as nat) == dec_digits((m / 10) as nat).push(c));
            assert(dec_digits((m / 10) as nat) + seq![c].add(s@) =~= dec_digits(
                (m / 10) as nat,
            ).push(c) + s@);
        }
        s.insert(0, c);
        m = m / 10;
    }
    assert(s@ =~= dec_digits(n as nat));
    s
}

/// Lexicographic order on character sequences (`str`'s `<`: UTF-8 byte
/// order coincides with code point order).
pub open spec fn seq_lt(a: Seq<char>, b: Seq<char>) -> bool
    decreases a.len(),
{
    if a.len() == 0 {
        b.len() > 0
    } else if b.len() == 0 {
        false
    } else if a[0] != b[0] {
        a[0] < b[0]
    } else {
        seq_lt(a.drop_first(), b.drop_first())
    }
}

pub proof fn lemma_seq_lt_transitive(a: Seq<char>, b: Seq<char>, c: Seq<char>)
    requires
        seq_lt(a, b),
        seq_lt(b, c),
    ensures
        seq_lt(a, c),
    decreases a.len(),
{
    if a.len() > 0 && b.len() > 0 && c.len() > 0 && a[0] == b[0] && b[0] == c[0] {
        lemma_seq_lt_transitive(a.drop_first(), b.drop_first(), c.drop_first());
    }
}

pub proof fn lemma_seq_lt_irreflexive(a: Seq<char>)
    ensures
        !seq_lt(a, a),
    decreases a.len(),
{
    if a.len() > 0 {
        lemma_seq_lt_irreflexive(a.drop_first());
    }
}

/// Whether `a` sorts strictly before `b`.
pub fn lt_chars(a: &Vec<char>, b: &Vec<char>) -> (r: bool)
    ensures
        r == seq_lt(a@, b@),
{
    let mut i: usize = 0;
    assert(a@.skip(0) =~= a@ && b@.skip(0) =~= b@);
    while i < a.len() && i < b.len() && a[i] == b[i]
        invariant
            i <= a.len(),
            i <= b.len(),
            seq_lt(a@.skip(i as int), b@.skip(i as int)) == seq_lt(a@, b@),
        decreases a.len() - i,
    {
        proof {
            assert(a@.skip(i as int).drop_first() =~= a@.skip(i + 1));
            assert(b@.skip(i as int).drop_first() =~= b@.skip(i + 1));
        }
        i += 1;
    }
    if i == a.len() {
        i < b.len()
    } else if i == b.len() {
        false
    } else {
        a[i] < b[i]
    }
}

/// A copy of a vector of strings.
pub fn copy_strings(v: &Vec<String>) -> (r: Vec<String>)
    ensures
        r.deep_view() == v.deep_view(),
{
    let mut r: Vec<String> = Vec::new();
    let mut i: usize = 0;
    while i < v.len()
        invariant
            i <= v.len(),
            r.deep_view() == v.deep_view().take(i as int),
        decreases v.len() - i,
    {
        let ghost r0 = r.deep_view();
        r.push(string_of(&chars_of_string(&v[i])));
        assert(r.deep_view() =~= r0.push(v[i as int]@));
        assert(v.deep_view().take(i + 1) =~= v.deep_view().take(i as int).push(v[i as int]@));
        i += 1;
    }
    assert(v.deep_view().take(i as int) =~= v.deep_view());
    r
}

/// A character vector's deep view is its view.
pub proof fn lemma_deep_chars(v: Vec<char>)
    ensures
        v.deep_view() == v@,
{
    assert(v.deep_view() =~= v@);
}

/// The UTF-8 length of a character.
pub open spec fn utf8_len(c: char) -> nat {
    if (c as u32) < 0x80 {
        1
    } else if (c as u32) < 0x800 {
        2
    } else if (c as u32) < 0x10000 {
        3
    } else {
        4
    }
}

/// The UTF-8 length of a text (`str::len`).
pub open spec fn byte_len(s: Seq<char>) -> nat
    decreases s.len(),
{
    if s.len() == 0 {
        0
    } else {
        byte_len(s.drop_last()) + utf8_len(s.last())
    }
}

pub fn utf8_len_exec(c: char) -> (n: usize)
    ensures
        n == utf8_len(c),
{
    let v = c as u32;
    if v < 0x80 {
        1
    } else if v < 0x800 {
        2
    } else if v < 0x10000 {
        3
    } else {
        4
    }
}

/// The longest prefix of `s` that fits in `budget` bytes of UTF-8.
pub open spec fn fit_prefix(s: Seq<char>, budget: int) -> Seq<char>
    decreases s.len(),
{
    if s.len() == 0 || utf8_len(s[0]) > budget {
        Seq::empty()
    } else {
        seq![s[0]] + fit_prefix(s.drop_first(), budget - utf8_len(s[0]))
    }
}

/// A text cut to `max` bytes with `...` added when it was longer.
pub open spec fn truncated_bytes(s: Seq<char>, max: nat) -> Seq<char> {
    if byte_len(s) <= max {
        s
    } else {
        fit_prefix(s, max as int) + "..."@
    }
}

pub fn byte_length(s: &Vec<char>) -> (n: u128)
    ensures
        n == byte_len(s@),
{
    let mut n: u128 = 0;
    let mut i: usize = 0;
    while i < s.len()
        invariant
            i <= s.len(),
            n == byte_len(s@.take(i as int)),
            n <= 4 * i,
        decreases s.len() - i,
    {
        assert(s@.take(i + 1).drop_last() =~= s@.take(i as int));
        n = n + utf8_len_exec(s[i]) as u128;
        i += 1;
    }
    assert(s@.take(i as int) =~= s@);
    n
}

/// `text` cut to `max` bytes, with `...` when it was longer; the cut falls
/// on the last character boundary that fits.
/// The longest prefix of `s` whose UTF-8 encoding fits in `max` bytes.
pub fn fit_prefix_exec(s: &Vec<char>, max: usize) -> (r: Vec<char>)
    ensures
        r@ == fit_prefix(s@, max as int),
{
    let mut r: Vec<char> = Vec::new();
    let mut used: usize = 0;
    let mut i: usize = 0;
    assert(s@.skip(0) =~= s@);
    while i < s.len() && utf8_len_exec(s[i]) <= max - used
        invariant
            i <= s.len(),
            used <= max,
            r@ == s@.take(i as int),
            fit_prefix(s@, max as int) == s@.take(i as int) + fit_prefix(s@.skip(i as int), max - used),
        decreases s.len() - i,
    {
        proof {
            let t = s@.skip(i as int);
            assert(t[0] == s@[i as int]);
            assert(t.drop_first() =~= s@.skip(i + 1));
            assert(s@.take(i as int) + (seq![t[0]] + fit_prefix(t.drop_first(), max - used - utf8_len(t[0])))
                =~= s@.take(i + 1) + fit_prefix(s@.skip(i + 1), max - used - utf8_len(t[0])));
        }
        used = used + utf8_len_exec(s[i]);
        r.push(s[i]);
        i += 1;
        assert(r@ =~= s@.take(i as int));
    }
    proof {
        if i < s.len() {
            assert(s@.skip(i as int)[0] == s@[i as int]);
        } else {
            assert(s@.skip(i as int).len() == 0);
        }
        assert(fit_prefix(s@, max as int) =~= s@.take(i as int));
    }
    r
}

pub fn truncate_bytes(s: &Vec<char>, max: usize) -> (r: Vec<char>)
    ensures
        r@ == truncated_bytes(s@, max as nat),
{
    if byte_length(s) <= max as u128 {
        return s.clone();
    }
    let r = fit_prefix_exec(s, max);
    let dots = chars_of("...");
    concat(&r, &dots)
}

} // verus!
