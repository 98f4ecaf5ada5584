use vstd::prelude::*;

verus! {

broadcast use vstd::string::group_string_axioms;

/// Unicode `White_Space`: the characters that trimming removes.
pub open spec fn is_ws(c: char) -> bool {
    let u = c as u32;
    (0x9 <= u && u <= 0xd) || u == 0x20 || u == 0x85 || u == 0xa0 || u == 0x1680 || (0x2000 <= u
        && u <= 0x200a) || u == 0x2028 || u == 0x2029 || u == 0x202f || u == 0x205f || u == 0x3000
}

/// Index of the first non-whitespace character at or after `i`.
pub open spec fn lead_ws(s: Seq<char>, i: int) -> int
    decreases s.len() - i,
{
    if 0 <= i < s.len() && is_ws(s[i]) {
        lead_ws(s, i + 1)
    } else {
        i
    }
}

/// End (exclusive) of the text once trailing whitespace before `j` is dropped.
pub open spec fn trail_ws(s: Seq<char>, j: int) -> int
    decreases j,
{
    if 0 < j <= s.len() && is_ws(s[j - 1]) {
        trail_ws(s, j - 1)
    } else {
        j
    }
}

/// `s` without leading and trailing whitespace.
pub open spec fn trim(s: Seq<char>) -> Seq<char> {
    let lo = lead_ws(s, 0);
    let hi = trail_ws(s, s.len() as int);
    if lo < hi {
        s.subrange(lo, hi)
    } else {
        Seq::empty()
    }
}

/// First `i >= from` with `s[i] == c` and `s[i + 1] == c`.
pub open spec fn find_pair(s: Seq<char>, c: char, from: int) -> Option<int>
    decreases s.len() - from,
{
    if from < 0 || from + 1 >= s.len() {
        None
    } else if s[from] == c && s[from + 1] == c {
        Some(from)
    } else {
        find_pair(s, c, from + 1)
    }
}

/// First `i >= from` with `s.subrange(i, i + p.len()) == p`.
pub open spec fn find_seq(s: Seq<char>, p: Seq<char>, from: int) -> Option<int>
    decreases s.len() + 1 - from,
{
    if from < 0 || from + p.len() > s.len() {
        None
    } else if s.subrange(from, from + p.len()) == p {
        Some(from)
    } else {
        find_seq(s, p, from + 1)
    }
}

/// First index of `c` in `s`.
pub open spec fn first_index(s: Seq<char>, c: char, from: int) -> Option<int>
    decreases s.len() - from,
{
    if from < 0 || from >= s.len() {
        None
    } else if s[from] == c {
        Some(from)
    } else {
        first_index(s, c, from + 1)
    }
}

/// Last index of `c` in `s.subrange(0, end)`.
pub open spec fn last_index(s: Seq<char>, c: char, end: int) -> Option<int>
    decreases end,
{
    if end <= 0 || end > s.len() {
        None
    } else if s[end - 1] == c {
        Some(end - 1)
    } else {
        last_index(s, c, end - 1)
    }
}

pub proof fn lemma_find_pair_bounds(s: Seq<char>, c: char, from: int)
    ensures
        find_pair(s, c, from) matches Some(i) ==> from <= i && i + 1 < s.len() && s[i] == c && s[i
            + 1] == c,
    decreases s.len() - from,
{
    if !(from < 0 || from + 1 >= s.len()) && !(s[from] == c && s[from + 1] == c) {
        lemma_find_pair_bounds(s, c, from + 1);
    }
}

pub proof fn lemma_find_seq_bounds(s: Seq<char>, p: Seq<char>, from: int)
    ensures
        find_seq(s, p, from) matches Some(i) ==> from <= i && i + p.len() <= s.len() && s.subrange(
            i,
            i + p.len(),
        ) == p,
    decreases s.len() + 1 - from,
{
    if !(from < 0 || from + p.len() > s.len()) && s.subrange(from, from + p.len()) != p {
        lemma_find_seq_bounds(s, p, from + 1);
    }
}

pub proof fn lemma_first_index_bounds(s: Seq<char>, c: char, from: int)
    ensures
        first_index(s, c, from) matches Some(i) ==> from <= i < s.len() && s[i] == c,
    decreases s.len() - from,
{
    if !(from < 0 || from >= s.len()) && s[from] != c {
        lemma_first_index_bounds(s, c, from + 1);
    }
}

pub proof fn lemma_last_index_bounds(s: Seq<char>, c: char, end: int)
    ensures
        last_index(s, c, end) matches Some(i) ==> 0 <= i < end && s[i] == c,
    decreases end,
{
    if !(end <= 0 || end > s.len()) && s[end - 1] != c {
        lemma_last_index_bounds(s, c, end - 1);
    }
}

pub fn is_ws_char(c: char) -> (r: bool)
    ensures
        r == is_ws(c),
{
    let u = c as u32;
    (0x9 <= u && u <= 0xd) || u == 0x20 || u == 0x85 || u == 0xa0 || u == 0x1680 || (0x2000 <= u
        && u <= 0x200a) || u == 0x2028 || u == 0x2029 || u == 0x202f || u == 0x205f || u == 0x3000
}

/// The characters of `s`, in order.
pub fn chars_of(s: &str) -> (r: Vec<char>)
    ensures
        r@ == s@,
{
    let mut v: Vec<char> = Vec::new();
    let it = s.chars();
    for c in iter: it
        invariant
            iter.seq() == s@,
            v@ == iter.seq().subrange(0, iter.index() as int),
    {
        v.push(c);
        assert(v@ == iter.seq().subrange(0, iter.index() + 1));
    }
    v
}

/// Bounds of the trimmed part of `v`.
pub fn trim_bounds(v: &Vec<char>) -> (r: (usize, usize))
    ensures
        r.0 <= r.1 <= v.len(),
        v@.subrange(r.0 as int, r.1 as int) == trim(v@),
{
    let n = v.len();
    let mut lo: usize = 0;
    while lo < n && is_ws_char(v[lo])
        invariant
            lo <= n == v.len(),
            lead_ws(v@, 0) == lead_ws(v@, lo as int),
        decreases n - lo,
    {
        lo = lo + 1;
    }
    let mut hi: usize = n;
    while hi > 0 && is_ws_char(v[hi - 1])
        invariant
            hi <= n == v.len(),
            trail_ws(v@, n as int) == trail_ws(v@, hi as int),
        decreases hi,
    {
        hi = hi - 1;
    }
    if lo < hi {
        (lo, hi)
    } else {
        assert(v@.subrange(lo as int, lo as int) =~= Seq::<char>::empty());
        (lo, lo)
    }
}

/// `s` without leading and trailing whitespace.
pub fn trim_text(s: &str) -> (r: String)
    ensures
        r@ == trim(s@),
{
    let v = chars_of(s);
    let (lo, hi) = trim_bounds(&v);
    s.substring_char(lo, hi).to_owned()
}

/// Index of the first pair `c c` in `v` at or after `from`.
pub fn find_pair_exec(v: &Vec<char>, c: char, from: usize) -> (r: Option<usize>)
    ensures
        r == (match find_pair(v@, c, from as int) {
            Some(i) => Some(i as usize),
            None => None,
        }),
{
    let n = v.len();
    let mut i: usize = from;
    while i < n && n - i > 1
        invariant
            from <= i,
            n == v.len(),
            find_pair(v@, c, from as int) == find_pair(v@, c, i as int),
        decreases n - i,
    {
        if v[i] == c && v[i + 1] == c {
            return Some(i);
        }
        i = i + 1;
    }
    None
}

/// Whether `p` occurs in `v` at `i`.
pub fn matches_at(v: &Vec<char>, p: &Vec<char>, i: usize) -> (r: bool)
    requires
        i + p.len() <= v.len(),
    ensures
        r == (v@.subrange(i as int, i + p.len()) == p@),
{
    let m = p.len();
    let mut k: usize = 0;
    while k < m
        invariant
            k <= m == p.len(),
            i + m <= v.len(),
            forall|j: int| 0 <= j < k ==> v@[i + j] == p@[j],
        decreases m - k,
    {
        if v[i + k] != p[k] {
            assert(v@.subrange(i as int, i + m)[k as int] != p@[k as int]);
            return false;
        }
        k = k + 1;
    }
    assert(v@.subrange(i as int, i + m) =~= p@);
    true
}

/// Index of the first occurrence of `p` in `v` at or after `from`.
pub fn find_seq_exec(v: &Vec<char>, p: &Vec<char>, from: usize) -> (r: Option<usize>)
    requires
        p.len() > 0,
    ensures
        r == (match find_seq(v@, p@, from as int) {
            Some(i) => Some(i as usize),
            None => None,
        }),
{
    let n = v.len();
    let m = p.len();
    let mut i: usize = from;
    while i <= n && m <= n - i
        invariant
            from <= i,
            n == v.len(),
            m == p.len(),
            m > 0,
            find_seq(v@, p@, from as int) == find_seq(v@, p@, i as int),
        decreases n - i,
    {
        if matches_at(v, p, i) {
            return Some(i);
        }
        i = i + 1;
    }
    None
}

/// The views of a sequence of strings.
pub open spec fn views(v: Seq<String>) -> Seq<Seq<char>> {
    v.map_values(|x: String| x@)
}

/// Whether `a` and `b` hold the same characters.
pub fn same_text(a: &str, b: &str) -> (r: bool)
    ensures
        r == (a@ == b@),
{
    let va = chars_of(a);
    let vb = chars_of(b);
    if va.len() != vb.len() {
        assert(a@.len() != b@.len());
        return false;
    }
    let mut k: usize = 0;
    while k < va.len()
        invariant
            k <= va.len() == vb.len(),
            va@ == a@,
            vb@ == b@,
            forall|j: int| 0 <= j < k ==> va@[j] == vb@[j],
        decreases va.len() - k,
    {
        if va[k] != vb[k] {
            assert(va@[k as int] != vb@[k as int]);
            assert(a@[k as int] != b@[k as int]);
            return false;
        }
        k = k + 1;
    }
    assert(va@ =~= vb@);
    true
}

/// Index of the first `c` in `v` at or after `from`.
pub fn first_index_exec(v: &Vec<char>, c: char, from: usize) -> (r: Option<usize>)
    ensures
        r == (match first_index(v@, c, from as int) {
            Some(i) => Some(i as usize),
            None => None,
        }),
{
    let n = v.len();
    let mut i: usize = from;
    while i < n
        invariant
            from <= i,
            n == v.len(),
            first_index(v@, c, from as int) == first_index(v@, c, i as int),
        decreases n - i,
    {
        if v[i] == c {
            return Some(i);
        }
        i = i + 1;
    }
    None
}

/// Index of the last `c` in `v`.
pub fn last_index_exec(v: &Vec<char>, c: char) -> (r: Option<usize>)
    ensures
        r == (match last_index(v@, c, v@.len() as int) {
            Some(i) => Some(i as usize),
            None => None,
        }),
{
    let mut end: usize = v.len();
    while end > 0
        invariant
            end <= v.len(),
            last_index(v@, c, v@.len() as int) == last_index(v@, c, end as int),
        decreases end,
    {
        if v[end - 1] == c {
            return Some(end - 1);
        }
        end = end - 1;
    }
    None
}

/// `find_pair` finds nothing exactly when no pair `c c` starts at or after `from`.
pub proof fn lemma_find_pair_none(s: Seq<char>, c: char, from: int)
    requires
        from >= 0,
    ensures
        find_pair(s, c, from) is None <==> forall|i: int|
            from <= i && i + 1 < s.len() ==> !(#[trigger] s[i] == c && s[i + 1] == c),
    decreases s.len() - from,
{
    if !(from + 1 >= s.len()) && !(s[from] == c && s[from + 1] == c) {
        lemma_find_pair_none(s, c, from + 1);
    }
}

/// Trimming keeps the text free of a pair `c c` that it was free of.
pub proof fn lemma_trim_keeps_no_pair(s: Seq<char>, c: char)
    requires
        find_pair(s, c, 0) is None,
    ensures
        find_pair(trim(s), c, 0) is None,
{
    lemma_find_pair_none(s, c, 0);
    let t = trim(s);
    let lo = lead_ws(s, 0);
    let hi = trail_ws(s, s.len() as int);
    lemma_ws_bounds(s);
    assert forall|i: int| 0 <= i && i + 1 < t.len() implies !(#[trigger] t[i] == c && t[i + 1]
        == c) by {
        assert(t[i] == s[lo + i] && t[i + 1] == s[lo + i + 1]);
    }
    lemma_find_pair_none(t, c, 0);
}

proof fn lemma_lead_ws_bounds(s: Seq<char>, i: int)
    requires
        0 <= i <= s.len(),
    ensures
        i <= lead_ws(s, i) <= s.len(),
    decreases s.len() - i,
{
    if i < s.len() && is_ws(s[i]) {
        lemma_lead_ws_bounds(s, i + 1);
    }
}

proof fn lemma_trail_ws_bounds(s: Seq<char>, j: int)
    requires
        0 <= j <= s.len(),
    ensures
        0 <= trail_ws(s, j) <= j,
    decreases j,
{
    if 0 < j && is_ws(s[j - 1]) {
        lemma_trail_ws_bounds(s, j - 1);
    }
}

proof fn lemma_ws_bounds(s: Seq<char>)
    ensures
        0 <= lead_ws(s, 0) <= s.len(),
        0 <= trail_ws(s, s.len() as int) <= s.len(),
{
    lemma_lead_ws_bounds(s, 0);
    lemma_trail_ws_bounds(s, s.len() as int);
}

/// `first_index` finds `c` at `k` when it stands there and not between `from` and `k`.
pub proof fn lemma_first_index_at(s: Seq<char>, c: char, from: int, k: int)
    requires
        0 <= from <= k < s.len(),
        s[k] == c,
        forall|j: int| from <= j < k ==> s[j] != c,
    ensures
        first_index(s, c, from) == Some(k),
    decreases k - from,
{
    if from < k {
        lemma_first_index_at(s, c, from + 1, k);
    }
}

/// `last_index` finds `c` at `k` when it stands there and not between `k` and `end`.
pub proof fn lemma_last_index_at(s: Seq<char>, c: char, end: int, k: int)
    requires
        0 <= k < end <= s.len(),
        s[k] == c,
        forall|j: int| k < j < end ==> s[j] != c,
    ensures
        last_index(s, c, end) == Some(k),
    decreases end - k,
{
    if k < end - 1 {
        lemma_last_index_at(s, c, end - 1, k);
    }
}

/// `first_index` finds nothing where `c` does not occur from `from` on.
pub proof fn lemma_first_index_none(s: Seq<char>, c: char, from: int)
    requires
        0 <= from,
        forall|j: int| from <= j < s.len() ==> s[j] != c,
    ensures
        first_index(s, c, from) is None,
    decreases s.len() - from,
{
    if from < s.len() {
        lemma_first_index_none(s, c, from + 1);
    }
}

} // verus!
