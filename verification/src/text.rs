//! Text as sequences of characters: searching, splitting, trimming, joining.

use vstd::prelude::*;
use vstd::slice::slice_subrange;

verus! {

/// `String::push` appends the given character to the end of the string.
pub assume_specification[ String::push ](s: &mut String, c: char)
    ensures
        final(s)@ == old(s)@.push(c),
;

/// The characters of `s`, in order.
pub fn chars(s: &str) -> (r: Vec<char>)
    ensures
        r@ == s@,
{
    let mut r: Vec<char> = Vec::new();
    for c in it: s.chars()
        invariant
            it.seq() == s@,
            r@ == s@.take(it.index() as int),
    {
        r.push(c);
        assert(s@.take(it.index() + 1) =~= s@.take(it.index() as int).push(c));
    }
    assert(s@.take(s@.len() as int) =~= s@);
    r
}

/// The string made of the characters of `s`.
pub fn string(s: &[char]) -> (r: String)
    ensures
        r@ == s@,
{
    let mut r = String::new();
    for i in 0..s.len()
        invariant
            r@ == s@.take(i as int),
    {
        r.push(s[i]);
        assert(s@.take(i + 1) =~= s@.take(i as int).push(s@[i as int]));
    }
    assert(s@.take(s@.len() as int) =~= s@);
    r
}

/// A copy of the characters of `s`.
pub fn copy(s: &[char]) -> (r: Vec<char>)
    ensures
        r@ == s@,
{
    let mut r: Vec<char> = Vec::new();
    for i in 0..s.len()
        invariant
            r@ == s@.take(i as int),
    {
        r.push(s[i]);
        assert(s@.take(i + 1) =~= s@.take(i as int).push(s@[i as int]));
    }
    assert(s@.take(s@.len() as int) =~= s@);
    r
}

/// The texts of a list of strings.
pub open spec fn texts(v: Seq<String>) -> Seq<Seq<char>> {
    v.map_values(|s: String| s@)
}

/// The texts of a list of character vectors.
pub open spec fn pieces(v: Seq<Vec<char>>) -> Seq<Seq<char>> {
    v.map_values(|s: Vec<char>| s@)
}

/// The text of an optional string.
pub open spec fn opt_text(o: Option<String>) -> Option<Seq<char>> {
    match o {
        Some(s) => Some(s@),
        None => None,
    }
}

/// The text of an optional string slice.
pub open spec fn opt_str(o: Option<&str>) -> Option<Seq<char>> {
    match o {
        Some(s) => Some(s@),
        None => None,
    }
}

/// A copy of an optional string.
pub fn clone_opt(o: &Option<String>) -> (r: Option<String>)
    ensures
        r == *o,
{
    match o {
        Some(s) => Some(s.clone()),
        None => None,
    }
}

/// A copy of a list of strings.
pub fn clone_strings(v: &Vec<String>) -> (r: Vec<String>)
    ensures
        r@ == v@,
{
    let mut r: Vec<String> = Vec::new();
    for i in 0..v.len()
        invariant
            r@ == v@.take(i as int),
    {
        r.push(v[i].clone());
        assert(v@.take(i + 1) =~= v@.take(i as int).push(v@[i as int]));
    }
    assert(v@.take(v@.len() as int) =~= v@);
    r
}

// -- comparing ---------------------------------------------------------------

/// Whether two character slices hold the same text.
pub fn same(a: &[char], b: &[char]) -> (r: bool)
    ensures
        r == (a@ == b@),
{
    if a.len() != b.len() {
        return false;
    }
    for i in 0..a.len()
        invariant
            a@.len() == b@.len(),
            forall|j: int| 0 <= j < i ==> a@[j] == b@[j],
    {
        if a[i] != b[i] {
            return false;
        }
    }
    assert(a@ =~= b@);
    true
}

/// Whether two strings hold the same text.
pub fn same_str(a: &str, b: &str) -> (r: bool)
    ensures
        r == (a@ == b@),
{
    let x = chars(a);
    let y = chars(b);
    same(&x, &y)
}

/// Whether an optional string holds exactly the text `b`.
pub fn holds(a: &Option<String>, b: &str) -> (r: bool)
    ensures
        r == (opt_text(*a) == Some(b@)),
{
    match a {
        Some(s) => same_str(s.as_str(), b),
        None => false,
    }
}

/// Whether a list of strings holds the text `s`.
pub fn has_text(v: &Vec<String>, s: &str) -> (r: bool)
    ensures
        r == texts(v@).contains(s@),
{
    for i in 0..v.len()
        invariant
            forall|j: int| 0 <= j < i ==> #[trigger] texts(v@)[j] != s@,
    {
        if same_str(v[i].as_str(), s) {
            assert(texts(v@)[i as int] == s@);
            return true;
        }
    }
    false
}

/// Lexicographic order of texts by code point.
pub open spec fn text_lt(a: Seq<char>, b: Seq<char>) -> bool {
    exists|k: int|
        #![trigger a.take(k)]
        0 <= k <= a.len() && k < b.len() && a.take(k) == b.take(k) && (k == a.len() || a[k] < b[k])
}

pub proof fn lemma_text_lt_total(a: Seq<char>, b: Seq<char>)
    ensures
        text_lt(a, b) || a == b || text_lt(b, a),
    decreases a.len(),
{
    if forall|k: int| 0 <= k < a.len() && k < b.len() ==> a[k] == b[k] {
        if a.len() == b.len() {
            assert(a =~= b);
        } else if a.len() < b.len() {
            let k = a.len() as int;
            assert(a.take(k) =~= b.take(k));
        } else {
            let k = b.len() as int;
            assert(b.take(k) =~= a.take(k));
        }
    } else {
        let d = choose|k: int| 0 <= k < a.len() && k < b.len() && a[k] != b[k];
        lemma_first_difference(a, b, d);
    }
}

proof fn lemma_first_difference(a: Seq<char>, b: Seq<char>, d: int)
    requires
        0 <= d < a.len(),
        d < b.len(),
        a[d] != b[d],
    ensures
        text_lt(a, b) || text_lt(b, a),
    decreases d,
{
    if forall|k: int| 0 <= k < d ==> a[k] == b[k] {
        assert(a.take(d) =~= b.take(d));
        assert(b.take(d) =~= a.take(d));
    } else {
        let e = choose|k: int| 0 <= k < d && a[k] != b[k];
        lemma_first_difference(a, b, e);
    }
}

pub proof fn lemma_text_lt_asymmetric(a: Seq<char>, b: Seq<char>)
    requires
        text_lt(a, b),
    ensures
        a != b,
        !text_lt(b, a),
{
    let k = choose|k: int|
        #![trigger a.take(k)]
        0 <= k <= a.len() && k < b.len() && a.take(k) == b.take(k) && (k == a.len() || a[k] < b[k]);
    if text_lt(b, a) {
        let m = choose|m: int|
            #![trigger b.take(m)]
            0 <= m <= b.len() && m < a.len() && b.take(m) == a.take(m) && (m == b.len() || b[m]
                < a[m]);
        if m < k {
            assert(a.take(k)[m] == b.take(k)[m]);
        } else if k < m {
            assert(b.take(m)[k] == a.take(m)[k]);
        }
    }
}

pub proof fn lemma_text_lt_transitive(a: Seq<char>, b: Seq<char>, c: Seq<char>)
    requires
        text_lt(a, b),
        text_lt(b, c),
    ensures
        text_lt(a, c),
{
    let k = choose|k: int|
        #![trigger a.take(k)]
        0 <= k <= a.len() && k < b.len() && a.take(k) == b.take(k) && (k == a.len() || a[k] < b[k]);
    let m = choose|m: int|
        #![trigger b.take(m)]
        0 <= m <= b.len() && m < c.len() && b.take(m) == c.take(m) && (m == b.len() || b[m] < c[m]);
    let p = if k < m {
        k
    } else {
        m
    };
    assert forall|i: int| 0 <= i < p implies a[i] == c[i] by {
        assert(a.take(k)[i] == b.take(k)[i]);
        assert(b.take(m)[i] == c.take(m)[i]);
    }
    assert(a.take(p) =~= c.take(p));
    if k < m {
        assert(b.take(m)[k] == c.take(m)[k]);
    } else if m < k {
        assert(a.take(k)[m] == b.take(k)[m]);
    }
}

/// Whether the text `a` comes before the text `b`.
pub fn comes_before(a: &[char], b: &[char]) -> (r: bool)
    ensures
        r == text_lt(a@, b@),
{
    let mut i: usize = 0;
    while i < a.len() && i < b.len()
        invariant
            i <= a@.len(),
            i <= b@.len(),
            a@.take(i as int) =~= b@.take(i as int),
        decreases a@.len() - i,
    {
        if a[i] < b[i] {
            return true;
        }
        if b[i] < a[i] {
            proof {
                assert(b@.take(i as int) =~= a@.take(i as int));
                assert(text_lt(b@, a@));
                lemma_text_lt_asymmetric(b@, a@);
            }
            return false;
        }
        assert(a@.take(i + 1) =~= a@.take(i as int).push(a@[i as int]));
        assert(b@.take(i + 1) =~= b@.take(i as int).push(b@[i as int]));
        i = i + 1;
    }
    proof {
        if i == a@.len() && i < b@.len() {
            assert(a@.take(i as int) == b@.take(i as int));
            assert(text_lt(a@, b@));
        } else {
            assert(i == b@.len());
            if i == a@.len() {
                assert(a@.take(i as int) =~= a@);
                assert(b@.take(i as int) =~= b@);
                if text_lt(a@, b@) {
                    lemma_text_lt_asymmetric(a@, b@);
                }
            } else {
                assert(b@.take(i as int) =~= a@.take(i as int));
                assert(text_lt(b@, a@));
                lemma_text_lt_asymmetric(b@, a@);
            }
        }
    }
    i == a.len() && i < b.len()
}

// -- letter case -------------------------------------------------------------

/// The lowercase form of an ASCII capital, any other character unchanged.
pub open spec fn ascii_lower(c: char) -> char {
    if 'A' <= c && c <= 'Z' {
        ((c as u8) + 32) as char
    } else {
        c
    }
}

/// A text with its ASCII capitals in lowercase.
pub open spec fn lower(s: Seq<char>) -> Seq<char> {
    s.map_values(|c: char| ascii_lower(c))
}

/// The characters of `s` with its ASCII capitals in lowercase.
pub fn to_lower(s: &[char]) -> (r: Vec<char>)
    ensures
        r@ == lower(s@),
{
    let mut r: Vec<char> = Vec::new();
    for i in 0..s.len()
        invariant
            r@ == lower(s@.take(i as int)),
    {
        let c = s[i];
        let l = if 'A' <= c && c <= 'Z' {
            ((c as u8) + 32) as char
        } else {
            c
        };
        r.push(l);
        assert(lower(s@.take(i + 1)) =~= lower(s@.take(i as int)).push(l));
    }
    assert(s@.take(s@.len() as int) =~= s@);
    r
}

// -- searching ---------------------------------------------------------------

/// `p` stands in `s` at position `i`.
pub open spec fn occurs_at(s: Seq<char>, p: Seq<char>, i: int) -> bool {
    0 <= i && i + p.len() <= s.len() && s.subrange(i, i + p.len()) == p
}

/// `p` stands somewhere in `s`.
pub open spec fn contains(s: Seq<char>, p: Seq<char>) -> bool {
    exists|i: int| occurs_at(s, p, i)
}

/// The first position at or after `i` at which `p` stands in `s`.
pub open spec fn find_from(s: Seq<char>, p: Seq<char>, i: int) -> Option<int>
    decreases s.len() - i + 1,
{
    if i > s.len() {
        None
    } else if occurs_at(s, p, i) {
        Some(i)
    } else {
        find_from(s, p, i + 1)
    }
}

/// The first position at which `p` stands in `s`.
pub open spec fn find(s: Seq<char>, p: Seq<char>) -> Option<int> {
    find_from(s, p, 0)
}

proof fn lemma_find_from(s: Seq<char>, p: Seq<char>, i: int, k: int)
    requires
        0 <= i <= k,
        forall|j: int| i <= j < k ==> !occurs_at(s, p, j),
    ensures
        occurs_at(s, p, k) ==> find_from(s, p, i) == Some(k),
        k > s.len() ==> find_from(s, p, i) == None::<int>,
    decreases k - i,
{
    if i < k && i <= s.len() {
        assert(!occurs_at(s, p, i));
        lemma_find_from(s, p, i + 1, k);
    }
}

/// The first position is the least one, and there is none exactly where `p` does not occur.
pub proof fn lemma_find(s: Seq<char>, p: Seq<char>)
    ensures
        match find(s, p) {
            Some(k) => occurs_at(s, p, k) && forall|j: int| 0 <= j < k ==> !occurs_at(s, p, j),
            None => forall|j: int| !occurs_at(s, p, j),
        },
        contains(s, p) == (find(s, p) is Some),
{
    lemma_find_bounds(s, p, 0);
    if find(s, p) is Some {
        assert(occurs_at(s, p, find(s, p)->0));
    }
}

proof fn lemma_find_bounds(s: Seq<char>, p: Seq<char>, i: int)
    requires
        0 <= i,
    ensures
        match find_from(s, p, i) {
            Some(k) => i <= k && occurs_at(s, p, k) && forall|j: int|
                i <= j < k ==> !occurs_at(s, p, j),
            None => forall|j: int| i <= j ==> !occurs_at(s, p, j),
        },
    decreases s.len() - i + 1,
{
    if i <= s.len() && !occurs_at(s, p, i) {
        lemma_find_bounds(s, p, i + 1);
    }
}

/// Whether `p` stands in `s` at position `i`.
pub fn matches_at(s: &[char], p: &[char], i: usize) -> (r: bool)
    ensures
        r == occurs_at(s@, p@, i as int),
{
    if i > s.len() || p.len() > s.len() - i {
        return false;
    }
    let n = s.len();
    for j in 0..p.len()
        invariant
            n == s@.len(),
            i + p@.len() <= n,
            forall|k: int| 0 <= k < j ==> s@[i + k] == p@[k],
    {
        if s[i + j] != p[j] {
            assert(s@.subrange(i as int, i + p@.len())[j as int] == s@[i + j]);
            return false;
        }
    }
    assert(s@.subrange(i as int, i + p@.len()) =~= p@);
    true
}

/// The first position at which `p` stands in `s`.
pub fn find_in(s: &[char], p: &[char]) -> (r: Option<usize>)
    ensures
        r is Some == find(s@, p@) is Some,
        r matches Some(k) ==> find(s@, p@) == Some(k as int) && occurs_at(s@, p@, k as int),
        r is Some == contains(s@, p@),
{
    proof {
        lemma_find(s@, p@);
    }
    if p.len() > s.len() {
        assert(find(s@, p@) is None) by {
            if let Some(k) = find(s@, p@) {
                assert(occurs_at(s@, p@, k));
            }
        }
        return None;
    }
    let last = s.len() - p.len();
    let mut i: usize = 0;
    loop
        invariant
            p@.len() <= s@.len(),
            last == s@.len() - p@.len(),
            i <= last,
            forall|j: int| 0 <= j < i ==> !occurs_at(s@, p@, j),
            contains(s@, p@) == (find(s@, p@) is Some),
        decreases last - i,
    {
        if matches_at(s, p, i) {
            proof {
                lemma_find_from(s@, p@, 0, i as int);
            }
            return Some(i);
        }
        if i == last {
            proof {
                lemma_find_from(s@, p@, 0, s@.len() as int + 1);
            }
            return None;
        }
        i = i + 1;
    }
}

/// Whether the text of `p` stands somewhere in `s`.
pub fn has(s: &[char], p: &str) -> (r: bool)
    ensures
        r == contains(s@, p@),
{
    let q = chars(p);
    match find_in(s, &q) {
        Some(_) => true,
        None => false,
    }
}

/// Whether `s` begins with the text of `p`.
pub fn starts(s: &[char], p: &str) -> (r: bool)
    ensures
        r == p@.is_prefix_of(s@),
{
    let q = chars(p);
    let r = matches_at(s, &q, 0);
    proof {
        if p@.len() <= s@.len() {
            assert(s@.subrange(0, p@.len() as int) =~= s@.subrange(0, 0 + p@.len() as int));
        }
    }
    r
}

/// Whether `s` ends with the characters of `q`.
pub fn ends(s: &[char], q: &[char]) -> (r: bool)
    ensures
        r == q@.is_suffix_of(s@),
{
    if q.len() > s.len() {
        return false;
    }
    let at = s.len() - q.len();
    let r = matches_at(s, q, at);
    assert(s@.subrange(at as int, at + q@.len()) =~= s@.subrange(
        (s@.len() - q@.len()) as int,
        s@.len() as int,
    ));
    r
}

/// The first position of the character `c` in `s`, or its length.
pub open spec fn index_of(s: Seq<char>, c: char) -> int
    decreases s.len(),
{
    if s.len() == 0 || s[0] == c {
        0
    } else {
        1 + index_of(s.drop_first(), c)
    }
}

pub proof fn lemma_index_of(s: Seq<char>, c: char)
    ensures
        0 <= index_of(s, c) <= s.len(),
        index_of(s, c) < s.len() ==> s[index_of(s, c)] == c,
        forall|j: int| 0 <= j < index_of(s, c) ==> s[j] != c,
        (index_of(s, c) < s.len()) == s.contains(c),
    decreases s.len(),
{
    if s.len() > 0 && s[0] != c {
        lemma_index_of(s.drop_first(), c);
        let k = index_of(s.drop_first(), c);
        assert forall|j: int| 0 <= j < k + 1 implies s[j] != c by {
            if j > 0 {
                assert(s.drop_first()[j - 1] == s[j]);
            }
        }
        if k < s.drop_first().len() {
            assert(s.drop_first()[k] == s[k + 1]);
        }
    }
    if index_of(s, c) < s.len() {
        assert(s[index_of(s, c)] == c);
    }
}

proof fn lemma_index_of_is(s: Seq<char>, c: char, k: int)
    requires
        0 <= k <= s.len(),
        k < s.len() ==> s[k] == c,
        forall|j: int| 0 <= j < k ==> s[j] != c,
    ensures
        index_of(s, c) == k,
{
    lemma_index_of(s, c);
    let m = index_of(s, c);
    if m < k {
        assert(s[m] != c);
    } else if k < m {
        assert(s[k] != c);
    }
}

/// The first position of `c` in `s` at or after `from`, or the length of `s`.
pub fn index_from(s: &[char], c: char, from: usize) -> (r: usize)
    requires
        from <= s@.len(),
    ensures
        from <= r <= s@.len(),
        r - from == index_of(s@.skip(from as int), c),
        r < s@.len() ==> s@[r as int] == c,
        forall|j: int| from <= j < r ==> s@[j] != c,
        (r < s@.len()) == s@.skip(from as int).contains(c),
{
    let mut i = from;
    while i < s.len() && s[i] != c
        invariant
            from <= i <= s@.len(),
            forall|j: int| from <= j < i ==> s@[j] != c,
        decreases s@.len() - i,
    {
        i = i + 1;
    }
    proof {
        let t = s@.skip(from as int);
        assert forall|j: int| 0 <= j < i - from implies t[j] != c by {
            assert(t[j] == s@[from + j]);
        }
        lemma_index_of_is(t, c, i - from);
        lemma_index_of(t, c);
    }
    i
}

/// Whether the character `c` stands in `s`.
pub fn has_char(s: &[char], c: char) -> (r: bool)
    ensures
        r == s@.contains(c),
{
    let k = index_from(s, c, 0);
    assert(s@.skip(0) =~= s@);
    k < s.len()
}

// -- trimming ----------------------------------------------------------------

/// The characters with the Unicode property White_Space.
pub open spec fn is_space(c: char) -> bool {
    ||| ('\u{9}' <= c && c <= '\u{d}')
    ||| c == ' '
    ||| c == '\u{85}'
    ||| c == '\u{a0}'
    ||| c == '\u{1680}'
    ||| ('\u{2000}' <= c && c <= '\u{200a}')
    ||| c == '\u{2028}'
    ||| c == '\u{2029}'
    ||| c == '\u{202f}'
    ||| c == '\u{205f}'
    ||| c == '\u{3000}'
}

/// Whether `c` is a white-space character.
pub fn space(c: char) -> (r: bool)
    ensures
        r == is_space(c),
{
    ('\u{9}' <= c && c <= '\u{d}') || c == ' ' || c == '\u{85}' || c == '\u{a0}' || c == '\u{1680}'
        || ('\u{2000}' <= c && c <= '\u{200a}') || c == '\u{2028}' || c == '\u{2029}' || c
        == '\u{202f}' || c == '\u{205f}' || c == '\u{3000}'
}

/// A text without its leading white space.
pub open spec fn trim_start(s: Seq<char>) -> Seq<char>
    decreases s.len(),
{
    if s.len() > 0 && is_space(s[0]) {
        trim_start(s.drop_first())
    } else {
        s
    }
}

/// A text without its trailing white space.
pub open spec fn trim_end(s: Seq<char>) -> Seq<char>
    decreases s.len(),
{
    if s.len() > 0 && is_space(s.last()) {
        trim_end(s.drop_last())
    } else {
        s
    }
}

/// A text without leading and trailing white space.
pub open spec fn trim(s: Seq<char>) -> Seq<char> {
    trim_end(trim_start(s))
}

/// `s` without leading and trailing white space.
pub fn trimmed<'a>(s: &'a [char]) -> (r: &'a [char])
    ensures
        r@ == trim(s@),
{
    let mut from: usize = 0;
    assert(s@.skip(0) =~= s@);
    while from < s.len() && space(s[from])
        invariant
            from <= s@.len(),
            trim_start(s@) == trim_start(s@.skip(from as int)),
        decreases s@.len() - from,
    {
        assert(s@.skip(from as int).drop_first() =~= s@.skip(from + 1));
        from = from + 1;
    }
    let ghost t = s@.skip(from as int);
    assert(trim_start(s@) == t);
    let mut to: usize = s.len();
    assert(s@.subrange(from as int, to as int) =~= t);
    while to > from && space(s[to - 1])
        invariant
            from <= to <= s@.len(),
            trim_end(t) == trim_end(s@.subrange(from as int, to as int)),
        decreases to - from,
    {
        assert(s@.subrange(from as int, to as int).drop_last() =~= s@.subrange(
            from as int,
            to - 1,
        ));
        assert(s@.subrange(from as int, to as int).last() == s@[to - 1]);
        to = to - 1;
    }
    proof {
        if to > from {
            assert(s@.subrange(from as int, to as int).last() == s@[to - 1]);
        }
    }
    slice_subrange(s, from, to)
}

// -- splitting and joining ---------------------------------------------------

/// The pieces of `s` between occurrences of the character `c`; always at least one.
pub open spec fn split(s: Seq<char>, c: char) -> Seq<Seq<char>>
    decreases s.len(),
    via split_decreases
{
    let k = index_of(s, c);
    if k < s.len() {
        seq![s.take(k)] + split(s.skip(k + 1), c)
    } else {
        seq![s]
    }
}

#[via_fn]
proof fn split_decreases(s: Seq<char>, c: char) {
    lemma_index_of(s, c);
}

/// The pieces of `s` between occurrences of `c`.
pub fn split_at_char(s: &[char], c: char) -> (r: Vec<Vec<char>>)
    ensures
        pieces(r@) == split(s@, c),
        r@.len() > 0,
{
    let mut r: Vec<Vec<char>> = Vec::new();
    let mut from: usize = 0;
    assert(s@.skip(0) =~= s@);
    loop
        invariant
            from <= s@.len(),
            split(s@, c) == pieces(r@) + split(s@.skip(from as int), c),
        decreases s@.len() - from,
    {
        let to = index_from(s, c, from);
        let piece = copy(slice_subrange(s, from, to));
        let ghost before = r@;
        r.push(piece);
        proof {
            let t = s@.skip(from as int);
            assert(pieces(r@) =~= pieces(before).push(piece@));
            assert(t.take(to - from) =~= s@.subrange(from as int, to as int));
            if to < s@.len() {
                assert(t.skip(to - from + 1) =~= s@.skip(to + 1));
                assert(split(s@, c) =~= pieces(r@) + split(s@.skip(to + 1), c));
            } else {
                assert(t =~= s@.subrange(from as int, to as int));
                assert(split(s@, c) =~= pieces(r@));
            }
        }
        if to >= s.len() {
            return r;
        }
        from = to + 1;
    }
}

/// The words of a text: its longest pieces without white space.
pub open spec fn words(s: Seq<char>) -> Seq<Seq<char>>
    decreases s.len(),
{
    if s.len() == 0 {
        Seq::empty()
    } else {
        let before = words(s.drop_last());
        if is_space(s.last()) {
            before
        } else if s.len() == 1 || is_space(s[s.len() - 2]) {
            before.push(seq![s.last()])
        } else {
            before.drop_last().push(before.last().push(s.last()))
        }
    }
}

proof fn lemma_some_word(s: Seq<char>)
    requires
        s.len() > 0,
        !is_space(s.last()),
    ensures
        words(s).len() > 0,
    decreases s.len(),
{
}

/// The words of `s`.
pub fn to_words(s: &[char]) -> (r: Vec<Vec<char>>)
    ensures
        pieces(r@) == words(s@),
{
    let mut r: Vec<Vec<char>> = Vec::new();
    assert(pieces(r@) =~= words(s@.take(0)));
    for i in 0..s.len()
        invariant
            pieces(r@) == words(s@.take(i as int)),
    {
        let ghost was = r@;
        proof {
            assert(s@.take(i + 1).drop_last() =~= s@.take(i as int));
            assert(s@.take(i + 1).last() == s@[i as int]);
        }
        if !space(s[i]) {
            let begins = i == 0 || space(s[i - 1]);
            let mut word: Vec<char> = Vec::new();
            if !begins {
                proof {
                    assert(s@.take(i as int).last() == s@[i - 1]);
                    lemma_some_word(s@.take(i as int));
                    assert(pieces(r@).len() == r@.len());
                }
                if let Some(last) = r.pop() {
                    word = last;
                }
                assert(pieces(was).last() == word@);
                assert(pieces(r@) =~= pieces(was).drop_last());
            }
            let ghost kept = r@;
            word.push(s[i]);
            proof {
                if begins {
                    assert(word@ =~= seq![s@[i as int]]);
                }
            }
            r.push(word);
            assert(pieces(r@) =~= pieces(kept).push(word@));
        }
    }
    assert(s@.take(s@.len() as int) =~= s@);
    r
}

/// A line's text without the carriage return that belongs to its line ending.
pub open spec fn strip_cr(s: Seq<char>) -> Seq<char> {
    if s.len() > 0 && s.last() == '\r' {
        s.drop_last()
    } else {
        s
    }
}

/// The lines of a text: each ends at a line feed, which with a carriage
/// return right before it is no part of the line; a last line without a
/// line feed counts if it is not empty.
pub open spec fn lines(s: Seq<char>) -> Seq<Seq<char>>
    decreases s.len(),
    via lines_decreases
{
    let k = index_of(s, '\n');
    if s.len() == 0 {
        Seq::empty()
    } else if k < s.len() {
        seq![strip_cr(s.take(k))] + lines(s.skip(k + 1))
    } else {
        seq![s]
    }
}

#[via_fn]
proof fn lines_decreases(s: Seq<char>) {
    lemma_index_of(s, '\n');
}

/// The lines of `s`.
pub fn to_lines(s: &[char]) -> (r: Vec<Vec<char>>)
    ensures
        pieces(r@) == lines(s@),
{
    let mut r: Vec<Vec<char>> = Vec::new();
    let mut from: usize = 0;
    assert(s@.skip(0) =~= s@);
    assert(lines(s@) =~= pieces(r@) + lines(s@.skip(0)));
    while from < s.len()
        invariant
            from <= s@.len(),
            lines(s@) == pieces(r@) + lines(s@.skip(from as int)),
        decreases s@.len() - from,
    {
        let to = index_from(s, '\n', from);
        let ghost before = r@;
        let ghost t = s@.skip(from as int);
        let end = if to < s.len() && to > from && s[to - 1] == '\r' {
            to - 1
        } else {
            to
        };
        let line = copy(slice_subrange(s, from, end));
        r.push(line);
        proof {
            assert(pieces(r@) =~= pieces(before).push(line@));
            if to < s@.len() {
                assert(t.take(to - from) =~= s@.subrange(from as int, to as int));
                assert(strip_cr(t.take(to - from)) =~= line@);
                assert(t.skip(to - from + 1) =~= s@.skip(to + 1));
                assert(lines(s@) =~= pieces(r@) + lines(s@.skip(to + 1)));
            } else {
                assert(t =~= line@);
                assert(lines(s@) =~= pieces(r@));
            }
        }
        if to >= s.len() {
            return r;
        }
        from = to + 1;
    }
    assert(s@.skip(from as int) =~= Seq::<char>::empty());
    assert(lines(s@) =~= pieces(r@));
    r
}

/// Texts one after the other, with `sep` between neighbours.
pub open spec fn join(parts: Seq<Seq<char>>, sep: Seq<char>) -> Seq<char>
    decreases parts.len(),
{
    if parts.len() == 0 {
        Seq::empty()
    } else if parts.len() == 1 {
        parts[0]
    } else {
        join(parts.drop_last(), sep) + sep + parts.last()
    }
}

/// The pieces from position `from` up to position `to`, with `sep` between neighbours.
pub fn join_range(parts: &Vec<Vec<char>>, from: usize, to: usize, sep: &str) -> (r: String)
    requires
        from <= to <= parts@.len(),
    ensures
        r@ == join(pieces(parts@).subrange(from as int, to as int), sep@),
{
    let mut r = String::new();
    let mut i = from;
    let ghost all = pieces(parts@);
    while i < to
        invariant
            from <= i <= to <= parts@.len(),
            all == pieces(parts@),
            r@ == join(all.subrange(from as int, i as int), sep@),
        decreases to - i,
    {
        if i > from {
            r.append(sep);
        }
        let piece = string(parts[i].as_slice());
        r.append(piece.as_str());
        proof {
            let now = all.subrange(from as int, i + 1);
            assert(now.drop_last() =~= all.subrange(from as int, i as int));
            assert(now.last() == parts@[i as int]@);
        }
        i = i + 1;
    }
    r
}

/// The strings with `sep` between neighbours.
pub fn join_strings(parts: &Vec<String>, sep: &str) -> (r: String)
    ensures
        r@ == join(texts(parts@), sep@),
{
    let mut r = String::new();
    let ghost all = texts(parts@);
    for i in 0..parts.len()
        invariant
            all == texts(parts@),
            r@ == join(all.take(i as int), sep@),
    {
        if i > 0 {
            r.append(sep);
        }
        r.append(parts[i].as_str());
        proof {
            let now = all.take(i + 1);
            assert(now.drop_last() =~= all.take(i as int));
            assert(now.last() == parts@[i as int]@);
        }
    }
    assert(all.take(parts@.len() as int) =~= all);
    r
}

/// Texts one directly after the other.
pub open spec fn concat(parts: Seq<Seq<char>>) -> Seq<char>
    decreases parts.len(),
{
    if parts.len() == 0 {
        Seq::empty()
    } else {
        concat(parts.drop_last()) + parts.last()
    }
}

/// Three texts one directly after the other.
pub fn chain(a: &str, b: &str, c: &str) -> (r: String)
    ensures
        r@ == a@ + b@ + c@,
{
    let mut r = String::new();
    r.append(a);
    assert(r@ =~= a@);
    r.append(b);
    r.append(c);
    r
}

/// Five texts one directly after the other.
pub fn chain5(a: &str, b: &str, c: &str, d: &str, e: &str) -> (r: String)
    ensures
        r@ == a@ + b@ + c@ + d@ + e@,
{
    let mut r = chain(a, b, c);
    r.append(d);
    r.append(e);
    r
}

/// Adds a string to a list of strings.
pub fn push_text(v: &mut Vec<String>, s: String)
    ensures
        texts(final(v)@) == texts(old(v)@).push(s@),
{
    v.push(s);
    assert(texts(v@) =~= texts(old(v)@).push(s@));
}

// -- replacing and padding ---------------------------------------------------

/// A text with every `a` replaced by `b`.
pub open spec fn replace(s: Seq<char>, a: char, b: char) -> Seq<char> {
    s.map_values(|c: char| if c == a { b } else { c })
}

/// `s` with every `a` replaced by `b`.
pub fn replaced(s: &str, a: char, b: char) -> (r: String)
    ensures
        r@ == replace(s@, a, b),
{
    let v = chars(s);
    let mut r = String::new();
    for i in 0..v.len()
        invariant
            v@ == s@,
            r@ == replace(s@.take(i as int), a, b),
    {
        let c = if v[i] == a {
            b
        } else {
            v[i]
        };
        r.push(c);
        assert(replace(s@.take(i + 1), a, b) =~= replace(s@.take(i as int), a, b).push(c));
    }
    assert(s@.take(s@.len() as int) =~= s@);
    r
}

/// `n` spaces.
pub open spec fn spaces(n: int) -> Seq<char> {
    Seq::new(if n > 0 { n as nat } else { 0 }, |i: int| ' ')
}

/// A text filled with spaces on the right to at least `width` characters.
pub open spec fn pad_right(s: Seq<char>, width: int) -> Seq<char> {
    s + spaces(width - s.len())
}

/// A text filled with spaces on the left to at least `width` characters.
pub open spec fn pad_left(s: Seq<char>, width: int) -> Seq<char> {
    spaces(width - s.len()) + s
}

/// Appends `s`, filled on the right with spaces to `width` characters.
pub fn push_padded(out: &mut String, s: &str, width: usize)
    ensures
        final(out)@ == old(out)@ + pad_right(s@, width as int),
{
    let n = chars(s).len();
    out.append(s);
    let mut k = n;
    while k < width
        invariant
            n == s@.len(),
            n <= k,
            k <= width || k == n,
            out@ == old(out)@ + s@ + spaces(k - n),
        decreases width - k,
    {
        out.push(' ');
        assert(spaces(k + 1 - n) =~= spaces(k - n).push(' '));
        k = k + 1;
    }
    assert(spaces(k - n) =~= spaces(width - s@.len()));
    assert(out@ =~= old(out)@ + pad_right(s@, width as int));
}

/// Appends `s`, filled on the left with spaces to `width` characters.
pub fn push_right_aligned(out: &mut String, s: &str, width: usize)
    ensures
        final(out)@ == old(out)@ + pad_left(s@, width as int),
{
    let n = chars(s).len();
    let mut k = n;
    while k < width
        invariant
            n == s@.len(),
            n <= k,
            k <= width || k == n,
            out@ == old(out)@ + spaces(k - n),
        decreases width - k,
    {
        out.push(' ');
        assert(spaces(k + 1 - n) =~= spaces(k - n).push(' '));
        k = k + 1;
    }
    assert(spaces(k - n) =~= spaces(width - s@.len()));
    out.append(s);
    assert(out@ =~= old(out)@ + pad_left(s@, width as int));
}

} // verus!
