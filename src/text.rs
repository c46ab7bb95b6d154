//! Character-level operations on text, each stated over `Seq<char>`.
use vstd::prelude::*;

verus! {

/// `String::push` appends one character.
pub assume_specification[ String::push ](s: &mut String, ch: char)
    ensures
        final(s)@ == old(s)@.push(ch),
;

/// The characters that carry Unicode's `White_Space` property, which is what
/// `char::is_whitespace` tests.
pub open spec fn is_space(c: char) -> bool {
    ||| ('\u{9}' <= c && c <= '\u{d}')
    ||| c == ' '
    ||| c == '\u{85}'
    ||| c == '\u{a0}'
    ||| c == '\u{1680}'
    ||| ('\u{2000}' <= c && c <= '\u{200a}')
    ||| c == '\u{2028}'
    ||| c == '\u{2029}'
    ||| c == '\u{202f}'
    ||| c == '\u{205f}'
    ||| c == '\u{3000}'
}

/// Whether `c` is white space.
pub fn is_space_char(c: char) -> (r: bool)
    ensures
        r == is_space(c),
{
    ('\u{9}' <= c && c <= '\u{d}') || c == ' ' || c == '\u{85}' || c == '\u{a0}' || c == '\u{1680}'
        || ('\u{2000}' <= c && c <= '\u{200a}') || c == '\u{2028}' || c == '\u{2029}' || c
        == '\u{202f}' || c == '\u{205f}' || c == '\u{3000}'
}

/// The characters of a string, in order.
pub fn chars_of(s: &str) -> (r: Vec<char>)
    ensures
        r@ == s@,
{
    let mut r: Vec<char> = Vec::new();
    for c in it: s.chars()
        invariant
            r@ == it.seq().subrange(0, it.index() as int),
    {
        r.push(c);
    }
    r
}

/// A string holding the characters of `v`.
pub fn string_of(v: &Vec<char>) -> (r: String)
    ensures
        r@ == v@,
{
    let mut r = String::new();
    let mut i: usize = 0;
    while i < v.len()
        invariant
            i <= v.len(),
            r@ == v@.subrange(0, i as int),
        decreases v.len() - i,
    {
        r.push(v[i]);
        i = i + 1;
        assert(r@ =~= v@.subrange(0, i as int));
    }
    assert(v@.subrange(0, v.len() as int) =~= v@);
    r
}

/// `s` without its leading white space.
pub open spec fn trim_start(s: Seq<char>) -> Seq<char>
    decreases s.len(),
{
    if s.len() > 0 && is_space(s[0]) {
        trim_start(s.drop_first())
    } else {
        s
    }
}

/// `s` without its trailing white space.
pub open spec fn trim_end(s: Seq<char>) -> Seq<char>
    decreases s.len(),
{
    if s.len() > 0 && is_space(s.last()) {
        trim_end(s.drop_last())
    } else {
        s
    }
}

/// `s` without white space at either end.
pub open spec fn trim(s: Seq<char>) -> Seq<char> {
    trim_end(trim_start(s))
}

/// The characters of `v` from `lo` up to `hi`.
pub fn slice_of(v: &Vec<char>, lo: usize, hi: usize) -> (r: Vec<char>)
    requires
        lo <= hi <= v.len(),
    ensures
        r@ == v@.subrange(lo as int, hi as int),
{
    let mut r: Vec<char> = Vec::new();
    let mut i: usize = lo;
    while i < hi
        invariant
            lo <= i <= hi <= v.len(),
            r@ == v@.subrange(lo as int, i as int),
        decreases hi - i,
    {
        r.push(v[i]);
        i = i + 1;
        assert(r@ =~= v@.subrange(lo as int, i as int));
    }
    r
}

/// The characters of `v` from `lo` up to `hi`, without white space at either end.
pub fn trim_slice(v: &Vec<char>, lo: usize, hi: usize) -> (r: Vec<char>)
    requires
        lo <= hi <= v.len(),
    ensures
        r@ == trim(v@.subrange(lo as int, hi as int)),
{
    let ghost s = v@.subrange(lo as int, hi as int);
    let mut i: usize = lo;
    while i < hi && is_space_char(v[i])
        invariant
            lo <= i <= hi <= v.len(),
            trim_start(s) == trim_start(v@.subrange(i as int, hi as int)),
        decreases hi - i,
    {
        assert(v@.subrange(i as int, hi as int).drop_first() =~= v@.subrange(i + 1, hi as int));
        i = i + 1;
    }
    assert(trim_start(s) == v@.subrange(i as int, hi as int));
    let mut j: usize = hi;
    while j > i && is_space_char(v[j - 1])
        invariant
            lo <= i <= j <= hi <= v.len(),
            trim(s) == trim_end(v@.subrange(i as int, j as int)),
        decreases j,
    {
        assert(v@.subrange(i as int, j as int).drop_last() =~= v@.subrange(i as int, j - 1));
        j = j - 1;
    }
    slice_of(v, i, j)
}

/// `s` with every occurrence of `c` taken out.
pub open spec fn without(s: Seq<char>, c: char) -> Seq<char>
    decreases s.len(),
{
    if s.len() == 0 {
        s
    } else if s.last() == c {
        without(s.drop_last(), c)
    } else {
        without(s.drop_last(), c).push(s.last())
    }
}

/// `v` with every occurrence of `c` taken out.
pub fn remove_all(v: &Vec<char>, c: char) -> (r: Vec<char>)
    ensures
        r@ == without(v@, c),
{
    let mut r: Vec<char> = Vec::new();
    let mut i: usize = 0;
    while i < v.len()
        invariant
            i <= v.len(),
            r@ == without(v@.subrange(0, i as int), c),
        decreases v.len() - i,
    {
        assert(v@.subrange(0, i + 1).drop_last() =~= v@.subrange(0, i as int));
        if v[i] != c {
            r.push(v[i]);
        }
        i = i + 1;
    }
    assert(v@.subrange(0, v.len() as int) =~= v@);
    r
}

/// `s` with every occurrence of `c` replaced by `t`, in one pass.
pub open spec fn replace(s: Seq<char>, c: char, t: Seq<char>) -> Seq<char>
    decreases s.len(),
{
    if s.len() == 0 {
        s
    } else if s.last() == c {
        replace(s.drop_last(), c, t) + t
    } else {
        replace(s.drop_last(), c, t).push(s.last())
    }
}

/// `v` with every occurrence of `c` replaced by `t`, in one pass.
pub fn replace_all(v: &Vec<char>, c: char, t: &Vec<char>) -> (r: Vec<char>)
    ensures
        r@ == replace(v@, c, t@),
{
    let mut r: Vec<char> = Vec::new();
    let mut i: usize = 0;
    while i < v.len()
        invariant
            i <= v.len(),
            r@ == replace(v@.subrange(0, i as int), c, t@),
        decreases v.len() - i,
    {
        assert(v@.subrange(0, i + 1).drop_last() =~= v@.subrange(0, i as int));
        if v[i] == c {
            let mut k: usize = 0;
            let ghost before = r@;
            while k < t.len()
                invariant
                    k <= t.len(),
                    r@ == before + t@.subrange(0, k as int),
                decreases t.len() - k,
            {
                r.push(t[k]);
                k = k + 1;
                assert(r@ =~= before + t@.subrange(0, k as int));
            }
            assert(t@.subrange(0, t.len() as int) =~= t@);
        } else {
            r.push(v[i]);
        }
        i = i + 1;
    }
    assert(v@.subrange(0, v.len() as int) =~= v@);
    r
}

/// Whether `c` occurs in `v`.
pub fn has_char(v: &Vec<char>, c: char) -> (r: bool)
    ensures
        r == v@.contains(c),
{
    let mut i: usize = 0;
    while i < v.len()
        invariant
            i <= v.len(),
            forall|k: int| 0 <= k < i ==> v@[k] != c,
        decreases v.len() - i,
    {
        if v[i] == c {
            return true;
        }
        i = i + 1;
    }
    false
}

/// The first position at or after `i` that holds `c`.
pub open spec fn find_from(s: Seq<char>, c: char, i: int) -> Option<int>
    decreases s.len() - i,
{
    if i < 0 || i >= s.len() {
        None
    } else if s[i] == c {
        Some(i)
    } else {
        find_from(s, c, i + 1)
    }
}

/// The first position of `v` that holds `c`.
pub fn find_char(v: &Vec<char>, c: char) -> (r: Option<usize>)
    ensures
        r matches Some(k) ==> find_from(v@, c, 0) == Some(k as int),
        r is None ==> find_from(v@, c, 0) is None,
{
    let mut i: usize = 0;
    while i < v.len()
        invariant
            i <= v.len(),
            find_from(v@, c, 0) == find_from(v@, c, i as int),
        decreases v.len() - i,
    {
        if v[i] == c {
            return Some(i);
        }
        i = i + 1;
    }
    None
}

/// Whether a whitespace-delimited word of `s` starts at `p` with `m`.
pub open spec fn word_marked_at(s: Seq<char>, m: char, p: int) -> bool {
    &&& 0 <= p < s.len()
    &&& s[p] == m
    &&& (p == 0 || is_space(s[p - 1]))
}

/// The first position at or after `i` where a word starts with `m`.
pub open spec fn marked_from(s: Seq<char>, m: char, i: int) -> Option<int>
    decreases s.len() - i,
{
    if i < 0 || i >= s.len() {
        None
    } else if word_marked_at(s, m, i) {
        Some(i)
    } else {
        marked_from(s, m, i + 1)
    }
}

/// Where the word that runs through position `p` ends.
pub open spec fn word_end(s: Seq<char>, p: int) -> int
    decreases s.len() - p,
{
    if 0 <= p < s.len() && !is_space(s[p]) {
        word_end(s, p + 1)
    } else {
        p
    }
}

/// The first whitespace-delimited word of `s` that starts with `m`.
pub open spec fn marked_word(s: Seq<char>, m: char) -> Option<Seq<char>> {
    match marked_from(s, m, 0) {
        Some(p) => Some(s.subrange(p, word_end(s, p))),
        None => None,
    }
}

pub proof fn lemma_word_end_bounds(s: Seq<char>, p: int)
    requires
        0 <= p <= s.len(),
    ensures
        p <= word_end(s, p) <= s.len(),
    decreases s.len() - p,
{
    if p < s.len() && !is_space(s[p]) {
        lemma_word_end_bounds(s, p + 1);
    }
}

pub proof fn lemma_marked_from_bounds(s: Seq<char>, m: char, i: int)
    ensures
        marked_from(s, m, i) matches Some(p) ==> i <= p && word_marked_at(s, m, p),
    decreases s.len() - i,
{
    if 0 <= i < s.len() && !word_marked_at(s, m, i) {
        lemma_marked_from_bounds(s, m, i + 1);
    }
}

/// The first whitespace-delimited word of `v` that starts with `m`.
pub fn find_marked_word(v: &Vec<char>, m: char) -> (r: Option<Vec<char>>)
    ensures
        r matches Some(w) ==> marked_word(v@, m) == Some(w@),
        r is None ==> marked_word(v@, m) is None,
{
    let mut i: usize = 0;
    while i < v.len()
        invariant
            i <= v.len(),
            marked_from(v@, m, 0) == marked_from(v@, m, i as int),
        decreases v.len() - i,
    {
        if v[i] == m && (i == 0 || is_space_char(v[i - 1])) {
            let mut j: usize = i;
            while j < v.len() && !is_space_char(v[j])
                invariant
                    i <= j <= v.len(),
                    word_end(v@, i as int) == word_end(v@, j as int),
                decreases v.len() - j,
            {
                j = j + 1;
            }
            return Some(slice_of(v, i, j));
        }
        i = i + 1;
    }
    None
}

/// Splitting `s` at every `d`: the finished pieces, and the piece still open
/// at the end.
pub open spec fn split_parts(s: Seq<char>, d: char) -> (Seq<Seq<char>>, Seq<char>)
    decreases s.len(),
{
    if s.len() == 0 {
        (seq![], seq![])
    } else {
        let (done, open) = split_parts(s.drop_last(), d);
        if s.last() == d {
            (done.push(open), seq![])
        } else {
            (done, open.push(s.last()))
        }
    }
}

/// The pieces of `s` between occurrences of `d`, as `str::split` gives them.
pub open spec fn split(s: Seq<char>, d: char) -> Seq<Seq<char>> {
    split_parts(s, d).0.push(split_parts(s, d).1)
}

/// Each of `ps` trimmed, with those left empty dropped.
pub open spec fn trimmed_nonempty(ps: Seq<Seq<char>>) -> Seq<Seq<char>>
    decreases ps.len(),
{
    if ps.len() == 0 {
        ps
    } else {
        let rest = trimmed_nonempty(ps.drop_last());
        if trim(ps.last()).len() > 0 {
            rest.push(trim(ps.last()))
        } else {
            rest
        }
    }
}

/// The items of a list delimited by `d`: each piece trimmed, empty ones dropped.
pub open spec fn list_items(s: Seq<char>, d: char) -> Seq<Seq<char>> {
    trimmed_nonempty(split(s, d))
}

/// The views of a sequence of strings.
pub open spec fn views(v: Seq<String>) -> Seq<Seq<char>> {
    v.map_values(|x: String| x@)
}

/// The items of the list in `v` delimited by `d`.
pub fn split_list(v: &Vec<char>, d: char) -> (r: Vec<String>)
    ensures
        views(r@) == list_items(v@, d),
{
    let mut r: Vec<String> = Vec::new();
    let ghost done: Seq<Seq<char>> = seq![];
    let mut start: usize = 0;
    let mut i: usize = 0;
    while i < v.len()
        invariant
            start <= i <= v.len(),
            split_parts(v@.subrange(0, i as int), d) == (done, v@.subrange(start as int, i as int)),
            views(r@) == trimmed_nonempty(done),
        decreases v.len() - i,
    {
        assert(v@.subrange(0, i + 1).drop_last() =~= v@.subrange(0, i as int));
        assert(v@.subrange(0, i + 1).last() == v@[i as int]);
        if v[i] == d {
            let piece = trim_slice(v, start, i);
            proof {
                let prev = done;
                done = done.push(v@.subrange(start as int, i as int));
                assert(done.drop_last() =~= prev);
            }
            if piece.len() > 0 {
                let ghost before = r@;
                r.push(string_of(&piece));
                assert(views(r@) =~= views(before).push(piece@));
            }
            start = i + 1;
            assert(v@.subrange(start as int, i + 1) =~= seq![]);
        } else {
            assert(v@.subrange(start as int, i + 1) =~= v@.subrange(start as int, i as int).push(
                v@[i as int],
            ));
        }
        i = i + 1;
    }
    assert(v@.subrange(0, v.len() as int) =~= v@);
    let piece = trim_slice(v, start, v.len());
    assert(split(v@, d).drop_last() =~= done);
    if piece.len() > 0 {
        let ghost before = r@;
        r.push(string_of(&piece));
        assert(views(r@) =~= views(before).push(piece@));
    }
    assert(split(v@, d).drop_last() == done);
    r
}

/// Taking out `c` keeps every other character, and adds none.
pub proof fn lemma_without_contains(s: Seq<char>, c: char, x: char)
    requires
        x != c,
    ensures
        without(s, c).contains(x) <==> s.contains(x),
    decreases s.len(),
{
    if s.len() > 0 {
        let p = s.drop_last();
        let l = s.last();
        let wp = without(p, c);
        let ws = without(s, c);
        lemma_without_contains(p, c, x);
        if l == c {
            assert(ws == wp);
        } else {
            assert(ws == wp.push(l));
        }
        if s.contains(x) {
            let k = choose|k: int| 0 <= k < s.len() && s[k] == x;
            if k < s.len() - 1 {
                assert(p[k] == x);
                let j = choose|j: int| 0 <= j < wp.len() && wp[j] == x;
                assert(ws[j] == x);
            } else {
                assert(ws[ws.len() - 1] == x);
            }
        }
        if ws.contains(x) {
            let k = choose|k: int| 0 <= k < ws.len() && ws[k] == x;
            if k < wp.len() {
                assert(wp[k] == x);
                let j = choose|j: int| 0 <= j < p.len() && p[j] == x;
                assert(s[j] == x);
            } else {
                assert(s[s.len() - 1] == x);
            }
        }
    }
}

/// No character of the word that runs through `p` is white space.
pub proof fn lemma_word_has_no_space(s: Seq<char>, p: int)
    requires
        0 <= p <= s.len(),
    ensures
        forall|q: int| p <= q < word_end(s, p) ==> !is_space(#[trigger] s[q]),
    decreases s.len() - p,
{
    if p < s.len() && !is_space(s[p]) {
        lemma_word_has_no_space(s, p + 1);
    }
}

/// Text without the delimiter is one piece.
pub proof fn lemma_split_without_delimiter(s: Seq<char>, d: char)
    requires
        !s.contains(d),
    ensures
        split_parts(s, d).0 == Seq::<Seq<char>>::empty(),
        split_parts(s, d).1 == s,
    decreases s.len(),
{
    if s.len() > 0 {
        let p = s.drop_last();
        assert(!p.contains(d)) by {
            if p.contains(d) {
                let k = choose|k: int| 0 <= k < p.len() && p[k] == d;
                assert(s[k] == d);
            }
        }
        lemma_split_without_delimiter(p, d);
        assert(s.last() != d) by {
            assert(s[s.len() - 1] == s.last());
        }
        assert(p.push(s.last()) =~= s);
    } else {
        assert(s =~= Seq::<char>::empty());
    }
}

} // verus!
