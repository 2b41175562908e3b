//! Splitting and trimming text by characters.

use vstd::prelude::*;

verus! {

/// The characters of a string.
pub fn chars_of(s: &str) -> (r: Vec<char>)
    ensures
        r@ == s@,
{
    let mut r: Vec<char> = Vec::new();
    for c in it: s.chars()
        invariant
            it.seq() == s@,
            r@ == it.seq().take(it.index() as int),
    {
        assert(it.seq().take(it.index() + 1) =~= it.seq().take(it.index() as int).push(c));
        r.push(c);
    }
    assert(s@.take(s@.len() as int) =~= s@);
    r
}

/// The pieces of `s` between occurrences of `sep`, as `str::split` yields
/// them: there is always at least one piece, and pieces may be empty.
pub open spec fn split_chars(s: Seq<char>, sep: char) -> Seq<Seq<char>>
    decreases s.len(),
{
    if s.len() == 0 {
        seq![Seq::empty()]
    } else {
        let r = split_chars(s.drop_last(), sep);
        if s.last() == sep {
            r.push(Seq::empty())
        } else {
            r.update(r.len() - 1, r.last().push(s.last()))
        }
    }
}

pub proof fn lemma_split_chars_nonempty(s: Seq<char>, sep: char)
    ensures
        split_chars(s, sep).len() >= 1,
    decreases s.len(),
{
    if s.len() > 0 {
        lemma_split_chars_nonempty(s.drop_last(), sep);
    }
}

/// The characters of `s` from `from` up to `to`, as a string.
pub fn substring(s: &str, from: usize, to: usize) -> (r: String)
    requires
        from <= to <= s@.len(),
    ensures
        r@ == s@.subrange(from as int, to as int),
{
    s.substring_char(from, to).to_owned()
}

/// The abstract values of strings.
pub open spec fn string_views(v: Seq<String>) -> Seq<Seq<char>> {
    v.map_values(|x: String| x@)
}

/// The pieces of `s` between occurrences of `sep`.
pub fn split(s: &str, sep: char) -> (r: Vec<String>)
    ensures
        string_views(r@) == split_chars(s@, sep),
{
    let cs = chars_of(s);
    let mut pieces: Vec<String> = Vec::new();
    let mut start: usize = 0;
    let mut i: usize = 0;
    assert(s@.take(0) =~= Seq::<char>::empty());
    assert(string_views(pieces@).push(s@.subrange(0, 0)) =~= seq![Seq::<char>::empty()]);
    while i < cs.len()
        invariant
            cs@ == s@,
            start <= i <= s@.len(),
            split_chars(s@.take(i as int), sep) == string_views(pieces@).push(
                s@.subrange(start as int, i as int),
            ),
        decreases s@.len() - i,
    {
        let ghost p0 = string_views(pieces@);
        let ghost st0 = start as int;
        let ghost i0 = i as int;
        proof {
            lemma_split_chars_nonempty(s@.take(i0), sep);
            assert(s@.take(i0 + 1).drop_last() =~= s@.take(i0));
            assert(s@.take(i0 + 1).last() == s@[i0]);
        }
        if cs[i] == sep {
            let piece = substring(s, start, i);
            pieces.push(piece);
            start = i + 1;
            proof {
                assert(string_views(pieces@) =~= p0.push(s@.subrange(st0, i0)));
                assert(split_chars(s@.take(i0 + 1), sep) == p0.push(s@.subrange(st0, i0)).push(
                    Seq::<char>::empty(),
                ));
                assert(s@.subrange(i0 + 1, i0 + 1) =~= Seq::<char>::empty());
            }
        } else {
            proof {
                let r = p0.push(s@.subrange(st0, i0));
                assert(split_chars(s@.take(i0 + 1), sep) == r.update(
                    r.len() - 1,
                    r.last().push(s@[i0]),
                ));
                assert(s@.subrange(st0, i0 + 1) =~= s@.subrange(st0, i0).push(s@[i0]));
                assert(r.update(r.len() - 1, r.last().push(s@[i0])) =~= p0.push(
                    s@.subrange(st0, i0 + 1),
                ));
            }
        }
        i = i + 1;
    }
    let last = substring(s, start, i);
    pieces.push(last);
    proof {
        assert(s@.take(i as int) =~= s@);
        assert(string_views(pieces@) =~= split_chars(s@, sep));
    }
    pieces
}

/// `s` without the prefix `p`, if it starts with `p`.
pub open spec fn strip_prefix_chars(s: Seq<char>, p: Seq<char>) -> Option<Seq<char>> {
    if p.len() <= s.len() && s.subrange(0, p.len() as int) == p {
        Some(s.subrange(p.len() as int, s.len() as int))
    } else {
        None
    }
}

/// `s` without the prefix `p`, if it starts with `p`.
pub fn strip_prefix(s: &str, p: &str) -> (r: Option<String>)
    ensures
        match strip_prefix_chars(s@, p@) {
            Some(t) => r matches Some(x) && x@ == t,
            None => r is None,
        },
{
    let cs = chars_of(s);
    let ps = chars_of(p);
    if ps.len() > cs.len() {
        return None;
    }
    let mut i: usize = 0;
    while i < ps.len()
        invariant
            cs@ == s@,
            ps@ == p@,
            ps@.len() <= cs@.len(),
            i <= ps@.len(),
            forall|j: int| 0 <= j < i ==> cs@[j] == ps@[j],
        decreases ps@.len() - i,
    {
        if cs[i] != ps[i] {
            assert(s@.subrange(0, p@.len() as int)[i as int] != p@[i as int]);
            return None;
        }
        i = i + 1;
    }
    assert(s@.subrange(0, p@.len() as int) =~= p@);
    Some(substring(s, ps.len(), cs.len()))
}

/// `s` without the leading characters that are in `set`.
pub open spec fn trim_start_chars(s: Seq<char>, set: Seq<char>) -> Seq<char>
    decreases s.len(),
{
    if s.len() > 0 && set.contains(s[0]) {
        trim_start_chars(s.drop_first(), set)
    } else {
        s
    }
}

proof fn lemma_trim_start_skip(s: Seq<char>, set: Seq<char>, i: int)
    requires
        0 <= i <= s.len(),
        forall|j: int| 0 <= j < i ==> set.contains(#[trigger] s[j]),
    ensures
        trim_start_chars(s, set) == trim_start_chars(s.skip(i), set),
    decreases i,
{
    if i > 0 {
        assert(s.drop_first().skip(i - 1) =~= s.skip(i));
        assert forall|j: int| 0 <= j < i - 1 implies set.contains(#[trigger] s.drop_first()[j]) by {
            assert(s.drop_first()[j] == s[j + 1]);
        }
        lemma_trim_start_skip(s.drop_first(), set, i - 1);
    } else {
        assert(s.skip(0) =~= s);
    }
}

/// `s` without the leading characters that are in `set`.
pub fn trim_start_matches(s: &str, set: &[char]) -> (r: String)
    ensures
        r@ == trim_start_chars(s@, set@),
{
    let cs = chars_of(s);
    let mut i: usize = 0;
    while i < cs.len() && contains_char(set, cs[i])
        invariant
            cs@ == s@,
            i <= s@.len(),
            forall|j: int| 0 <= j < i ==> set@.contains(#[trigger] s@[j]),
        decreases s@.len() - i,
    {
        i = i + 1;
    }
    proof {
        lemma_trim_start_skip(s@, set@, i as int);
        if i < s@.len() {
            assert(s@.skip(i as int)[0] == s@[i as int]);
        }
        assert(s@.skip(i as int) =~= s@.subrange(i as int, s@.len() as int));
    }
    substring(s, i, cs.len())
}

fn contains_char(set: &[char], c: char) -> (r: bool)
    ensures
        r == set@.contains(c),
{
    let mut i: usize = 0;
    while i < set.len()
        invariant
            i <= set@.len(),
            forall|j: int| 0 <= j < i ==> set@[j] != c,
        decreases set@.len() - i,
    {
        if set[i] == c {
            return true;
        }
        i = i + 1;
    }
    false
}

/// Whether two strings hold the same characters.
pub fn str_eq(a: &str, b: &str) -> (r: bool)
    ensures
        r == (a@ == b@),
{
    let x = chars_of(a);
    let y = chars_of(b);
    if x.len() != y.len() {
        return false;
    }
    let mut i: usize = 0;
    while i < x.len()
        invariant
            x@ == a@,
            y@ == b@,
            x@.len() == y@.len(),
            i <= x@.len(),
            forall|j: int| 0 <= j < i ==> x@[j] == y@[j],
        decreases x@.len() - i,
    {
        if x[i] != y[i] {
            return false;
        }
        i = i + 1;
    }
    assert(a@ =~= b@);
    true
}

/// `s` without the trailing characters that are in `set`.
pub open spec fn trim_end_chars(s: Seq<char>, set: Seq<char>) -> Seq<char>
    decreases s.len(),
{
    if s.len() > 0 && set.contains(s.last()) {
        trim_end_chars(s.drop_last(), set)
    } else {
        s
    }
}

/// `s` without the leading and the trailing characters that are in `set`.
pub open spec fn trim_chars(s: Seq<char>, set: Seq<char>) -> Seq<char> {
    trim_end_chars(trim_start_chars(s, set), set)
}

proof fn lemma_trim_end_take(s: Seq<char>, set: Seq<char>, k: int)
    requires
        0 <= k <= s.len(),
        forall|j: int| k <= j < s.len() ==> set.contains(#[trigger] s[j]),
    ensures
        trim_end_chars(s, set) == trim_end_chars(s.take(k), set),
    decreases s.len() - k,
{
    if k < s.len() {
        assert(s.drop_last().take(k) =~= s.take(k));
        assert forall|j: int| k <= j < s.drop_last().len() implies set.contains(
            #[trigger] s.drop_last()[j],
        ) by {
            assert(s.drop_last()[j] == s[j]);
        }
        lemma_trim_end_take(s.drop_last(), set, k);
    } else {
        assert(s.take(k) =~= s);
    }
}

/// `s` without the leading and the trailing characters that are in `set`.
pub fn trim_matches(s: &str, set: &[char]) -> (r: String)
    ensures
        r@ == trim_chars(s@, set@),
{
    let cs = chars_of(s);
    let mut i: usize = 0;
    while i < cs.len() && contains_char(set, cs[i])
        invariant
            cs@ == s@,
            i <= s@.len(),
            forall|j: int| 0 <= j < i ==> set@.contains(#[trigger] s@[j]),
        decreases s@.len() - i,
    {
        i = i + 1;
    }
    let ghost t = s@.subrange(i as int, s@.len() as int);
    proof {
        lemma_trim_start_skip(s@, set@, i as int);
        if i < s@.len() {
            assert(s@.skip(i as int)[0] == s@[i as int]);
        }
        assert(s@.skip(i as int) =~= t);
    }
    let mut e: usize = cs.len();
    while e > i && contains_char(set, cs[e - 1])
        invariant
            cs@ == s@,
            i <= e <= s@.len(),
            t == s@.subrange(i as int, s@.len() as int),
            forall|j: int| e - i <= j < t.len() ==> set@.contains(#[trigger] t[j]),
        decreases e,
    {
        e = e - 1;
    }
    proof {
        lemma_trim_end_take(t, set@, e - i);
        let u = t.take(e - i);
        assert(u =~= s@.subrange(i as int, e as int));
        if e > i {
            assert(u.last() == s@[e - 1]);
        }
    }
    substring(s, i, e)
}

/// The position of the first `c` in `s`, if there is one.
pub open spec fn find_char(s: Seq<char>, c: char) -> Option<int>
    decreases s.len(),
{
    if s.len() == 0 {
        None
    } else {
        match find_char(s.drop_last(), c) {
            Some(i) => Some(i),
            None => if s.last() == c {
                Some(s.len() - 1)
            } else {
                None
            },
        }
    }
}

proof fn lemma_find_char_none(s: Seq<char>, c: char, k: int)
    requires
        0 <= k <= s.len(),
        forall|j: int| 0 <= j < k ==> s[j] != c,
    ensures
        find_char(s.take(k), c) is None,
    decreases k,
{
    if k > 0 {
        assert(s.take(k).drop_last() =~= s.take(k - 1));
        lemma_find_char_none(s, c, k - 1);
    }
}

/// The position of the first `c` in `s`, if there is one.
pub fn position_of(s: &str, c: char) -> (r: Option<usize>)
    ensures
        r matches Some(i) ==> i < s@.len() && find_char(s@, c) == Some(i as int),
        r is None ==> find_char(s@, c) is None,
{
    let cs = chars_of(s);
    let mut i: usize = 0;
    while i < cs.len()
        invariant
            cs@ == s@,
            i <= s@.len(),
            forall|j: int| 0 <= j < i ==> s@[j] != c,
        decreases s@.len() - i,
    {
        if cs[i] == c {
            proof {
                lemma_find_char_none(s@, c, i as int);
                let ghost u = s@.take(i + 1);
                assert(u.drop_last() =~= s@.take(i as int));
                lemma_find_char_prefix(s@, c, i + 1);
            }
            return Some(i);
        }
        i = i + 1;
    }
    proof {
        lemma_find_char_none(s@, c, i as int);
        assert(s@.take(i as int) =~= s@);
    }
    None
}

proof fn lemma_find_char_prefix(s: Seq<char>, c: char, k: int)
    requires
        0 <= k <= s.len(),
        find_char(s.take(k), c) is Some,
    ensures
        find_char(s, c) == find_char(s.take(k), c),
    decreases s.len() - k,
{
    if k < s.len() {
        assert(s.take(k + 1).drop_last() =~= s.take(k));
        lemma_find_char_prefix(s, c, k + 1);
    } else {
        assert(s.take(k) =~= s);
    }
}

/// `s` ends with `suffix`.
pub open spec fn ends_with_chars(s: Seq<char>, suffix: Seq<char>) -> bool {
    suffix.len() <= s.len() && s.subrange(s.len() - suffix.len(), s.len() as int) == suffix
}

/// Whether `s` ends with `suffix`.
pub fn ends_with(s: &str, suffix: &str) -> (r: bool)
    ensures
        r == ends_with_chars(s@, suffix@),
{
    let x = chars_of(s);
    let y = chars_of(suffix);
    if y.len() > x.len() {
        return false;
    }
    let d = x.len() - y.len();
    let mut i: usize = 0;
    while i < y.len()
        invariant
            x@ == s@,
            y@ == suffix@,
            d == x@.len() - y@.len(),
            y@.len() <= x@.len(),
            x@.len() <= usize::MAX,
            i <= y@.len(),
            forall|j: int| 0 <= j < i ==> x@[d + j] == y@[j],
        decreases y@.len() - i,
    {
        if x[d + i] != y[i] {
            assert(s@.subrange(d as int, s@.len() as int)[i as int] != suffix@[i as int]);
            return false;
        }
        i = i + 1;
    }
    assert(s@.subrange(d as int, s@.len() as int) =~= suffix@);
    true
}

} // verus!
