//! Texts: letter case, occurrences, white space, lines, splitting and joining.

use crate::text;
use vstd::prelude::*;

verus! {

/// A text stands within another one: something comes before it and something after.
pub open spec fn stands_in(p: Seq<char>, s: Seq<char>) -> bool {
    exists|a: Seq<char>, b: Seq<char>| s == #[trigger] (a + p + b)
}

/// A text whose letters from A to Z are small.
pub open spec fn small(s: Seq<char>) -> Seq<char> {
    Seq::new(
        s.len(),
        |i: int|
            if 65 <= s[i] as int <= 90 {
                (s[i] as int + 32) as char
            } else {
                s[i]
            },
    )
}

/// Texts one after the other, each but the last with a separator behind it.
pub open spec fn strung(parts: Seq<Seq<char>>, sep: Seq<char>) -> Seq<char>
    decreases parts.len(),
{
    if parts.len() == 0 {
        Seq::empty()
    } else if parts.len() == 1 {
        parts[0]
    } else {
        parts[0] + sep + strung(parts.drop_first(), sep)
    }
}

pub proof fn lemma_stands_in(s: Seq<char>, p: Seq<char>)
    ensures
        text::contains(s, p) == stands_in(p, s),
{
    if text::contains(s, p) {
        let i = choose|i: int| text::occurs_at(s, p, i);
        let a = s.take(i);
        let b = s.skip(i + p.len());
        assert(s =~= a + p + b);
    }
    if stands_in(p, s) {
        let (a, b) = choose|a: Seq<char>, b: Seq<char>| s == #[trigger] (a + p + b);
        assert(s.subrange(a.len() as int, a.len() as int + p.len()) =~= p);
        assert(text::occurs_at(s, p, a.len() as int));
    }
}

pub proof fn lemma_small(s: Seq<char>)
    ensures
        text::lower(s) == small(s),
{
    assert(text::lower(s) =~= small(s));
}

pub proof fn lemma_strung(parts: Seq<Seq<char>>, sep: Seq<char>)
    ensures
        text::join(parts, sep) == strung(parts, sep),
    decreases parts.len(),
{
    if parts.len() > 1 {
        let init = parts.drop_last();
        let tail = parts.drop_first();
        lemma_strung(init, sep);
        lemma_strung(tail, sep);
        if parts.len() == 2 {
            assert(init[0] == parts[0]);
            assert(tail[0] == parts[1]);
        } else {
            assert(tail.drop_last() =~= init.drop_first());
            lemma_strung(tail.drop_last(), sep);
            assert(text::join(tail, sep) == text::join(tail.drop_last(), sep) + sep + tail.last());
            assert(strung(init, sep) == init[0] + sep + strung(init.drop_first(), sep));
            assert(text::join(parts, sep) =~= strung(parts, sep));
        }
    }
}

/// A text is found in another exactly if that one is made of something before
/// it, itself and something after it.
pub proof fn law_texts_are_found_where_they_stand(s: &[char], p: &str, r: bool)
    requires
        call_ensures(text::has, (s, p), r),
    ensures
        r <==> stands_in(p@, s@),
{
    lemma_stands_in(s@, p@);
}

/// The first occurrence is found: what is asked for stands there, and nowhere before.
pub proof fn law_the_first_occurrence_is_found(s: &[char], p: &[char], r: Option<usize>)
    requires
        call_ensures(text::find_in, (s, p), r),
    ensures
        r is Some <==> stands_in(p@, s@),
        r matches Some(k) ==> {
            &&& k + p@.len() <= s@.len()
            &&& s@.subrange(k as int, k + p@.len()) == p@
            &&& forall|a: Seq<char>, b: Seq<char>| s@ == #[trigger] (a + p@ + b) ==> k <= a.len()
        },
{
    lemma_stands_in(s@, p@);
    text::lemma_find(s@, p@);
    if let Some(k) = r {
        assert forall|a: Seq<char>, b: Seq<char>| s@ == #[trigger] (a + p@ + b) implies k
            <= a.len() by {
            assert(s@.subrange(a.len() as int, a.len() as int + p@.len()) =~= p@);
            assert(text::occurs_at(s@, p@, a.len() as int));
        }
    }
}

/// Letters from A to Z become small, one by one; nothing else changes.
pub proof fn law_only_letters_become_small(s: &[char], r: Vec<char>)
    requires
        call_ensures(text::to_lower, (s,), r),
    ensures
        r@ == small(s@),
{
    lemma_small(s@);
}

/// What begins with a text is that text and something after it.
pub proof fn law_beginnings(s: &[char], p: &str, r: bool)
    requires
        call_ensures(text::starts, (s, p), r),
    ensures
        r <==> exists|b: Seq<char>| s@ == #[trigger] (p@ + b),
{
    if r {
        assert(s@ =~= p@ + s@.skip(p@.len() as int));
    }
    if exists|b: Seq<char>| s@ == #[trigger] (p@ + b) {
        let b = choose|b: Seq<char>| s@ == #[trigger] (p@ + b);
        assert(p@ =~= s@.subrange(0, p@.len() as int));
    }
}

/// Two texts are the same exactly if their characters are.
pub proof fn law_same_texts(a: &str, b: &str, r: bool)
    requires
        call_ensures(text::same_str, (a, b), r),
    ensures
        r <==> a@ == b@,
{
}

/// What is white space at the ends goes, and nothing else: the rest begins and
/// ends with something else, or is empty.
pub proof fn law_only_the_ends_are_trimmed(s: &[char], r: &[char], c: char, white: bool)
    requires
        call_ensures(text::trimmed, (s,), r),
        call_ensures(text::space, (c,), white),
    ensures
        exists|a: Seq<char>, b: Seq<char>|
            {
                &&& s@ == #[trigger] (a + r@ + b)
                &&& forall|i: int| 0 <= i < a.len() ==> text::is_space(#[trigger] a[i])
                &&& forall|i: int| 0 <= i < b.len() ==> text::is_space(#[trigger] b[i])
            },
        r@.len() > 0 ==> !text::is_space(r@[0]) && !text::is_space(r@.last()),
        white == text::is_space(c),
        white <==> c == ' ' || (9 <= c as int <= 13) || c as int == 0x85 || c as int == 0xa0 || c as int
            == 0x1680 || (0x2000 <= c as int <= 0x200a) || c as int == 0x2028 || c as int == 0x2029
            || c as int == 0x202f || c as int == 0x205f || c as int == 0x3000,
{
    let t = text::trim_start(s@);
    let a = lemma_trim_start(s@);
    let b = lemma_trim_end(t);
    assert(s@ =~= a + r@ + b);
    if r@.len() > 0 {
        assert(t[0] == r@[0]);
    }
}

proof fn lemma_trim_start(s: Seq<char>) -> (a: Seq<char>)
    ensures
        s == a + text::trim_start(s),
        forall|i: int| 0 <= i < a.len() ==> text::is_space(#[trigger] a[i]),
        text::trim_start(s).len() > 0 ==> !text::is_space(text::trim_start(s)[0]),
    decreases s.len(),
{
    if s.len() > 0 && text::is_space(s[0]) {
        let a = lemma_trim_start(s.drop_first());
        let c = seq![s[0]] + a;
        assert(s =~= seq![s[0]] + s.drop_first());
        assert(s =~= c + text::trim_start(s));
        assert forall|i: int| 0 <= i < c.len() implies text::is_space(#[trigger] c[i]) by {
            if i > 0 {
                assert(c[i] == a[i - 1]);
            }
        }
        c
    } else {
        assert(s =~= Seq::<char>::empty() + s);
        Seq::empty()
    }
}

proof fn lemma_trim_end(s: Seq<char>) -> (b: Seq<char>)
    ensures
        s == text::trim_end(s) + b,
        forall|i: int| 0 <= i < b.len() ==> text::is_space(#[trigger] b[i]),
        text::trim_end(s).len() > 0 ==> !text::is_space(text::trim_end(s).last()),
    decreases s.len(),
{
    if s.len() > 0 && text::is_space(s.last()) {
        let b = lemma_trim_end(s.drop_last());
        let c = b.push(s.last());
        assert(s =~= s.drop_last().push(s.last()));
        assert(s =~= text::trim_end(s) + c);
        assert forall|i: int| 0 <= i < c.len() implies text::is_space(#[trigger] c[i]) by {
            if i < b.len() {
                assert(c[i] == b[i]);
            }
        }
        c
    } else {
        assert(s =~= s + Seq::<char>::empty());
        Seq::empty()
    }
}

pub proof fn lemma_first_line(a: Seq<char>, b: Seq<char>)
    requires
        !a.contains('\n'),
    ensures
        text::lines(a.push('\n') + b) == seq![text::strip_cr(a)] + text::lines(b),
        a.len() > 0 ==> text::lines(a) == seq![a],
{
    let s = a.push('\n') + b;
    let k = a.len() as int;
    text::lemma_index_of(s, '\n');
    let m = text::index_of(s, '\n');
    assert(s[k] == '\n');
    if m < k {
        assert(s[m] == a[m]);
        assert(a.contains(a[m]));
    }
    assert(m == k);
    assert(s.take(k) =~= a);
    assert(s.skip(k + 1) =~= b);
    if a.len() > 0 {
        text::lemma_index_of(a, '\n');
    }
}

/// A line ends at the first line feed, and a carriage return right before that
/// belongs to no line; the lines of the rest follow.
pub proof fn law_lines_end_at_line_feeds(
    s: &[char],
    a: Seq<char>,
    rest: &[char],
    r: Vec<Vec<char>>,
    t: Vec<Vec<char>>,
)
    requires
        call_ensures(text::to_lines, (s,), r),
        call_ensures(text::to_lines, (rest,), t),
        !a.contains('\n'),
        s@ == a.push('\n') + rest@,
    ensures
        r@.len() == t@.len() + 1,
        a.len() > 0 && a.last() == '\r' ==> r@[0]@ == a.drop_last(),
        !(a.len() > 0 && a.last() == '\r') ==> r@[0]@ == a,
        forall|i: int| 0 <= i < t@.len() ==> (#[trigger] t@[i])@ == r@[i + 1]@,
{
    lemma_first_line(a, rest@);
    let p = text::pieces(r@);
    assert(p == seq![text::strip_cr(a)] + text::pieces(t@));
    assert(p[0] == r@[0]@);
    assert forall|i: int| 0 <= i < t@.len() implies (#[trigger] t@[i])@ == r@[i + 1]@ by {
        assert(p[i + 1] == text::pieces(t@)[i]);
    }
}

/// A text without a line feed is one line, and no line if it is empty.
pub proof fn law_texts_without_line_feeds_are_one_line(s: &[char], r: Vec<Vec<char>>)
    requires
        call_ensures(text::to_lines, (s,), r),
        !s@.contains('\n'),
    ensures
        s@.len() == 0 ==> r@.len() == 0,
        s@.len() > 0 ==> r@.len() == 1 && r@[0]@ == s@,
{
    assert(text::pieces(r@).len() == r@.len());
    if s@.len() > 0 {
        lemma_first_line(s@, Seq::empty());
        assert(text::pieces(r@)[0] == r@[0]@);
    }
}

pub proof fn lemma_split_step(a: Seq<char>, c: char, b: Seq<char>)
    requires
        !a.contains(c),
    ensures
        text::split(a.push(c) + b, c) == seq![a] + text::split(b, c),
        text::split(a, c) == seq![a],
{
    let s = a.push(c) + b;
    let k = a.len() as int;
    text::lemma_index_of(s, c);
    let m = text::index_of(s, c);
    assert(s[k] == c);
    if m < k {
        assert(s[m] == a[m]);
        assert(a.contains(a[m]));
    }
    assert(s.take(k) =~= a);
    assert(s.skip(k + 1) =~= b);
    text::lemma_index_of(a, c);
}

/// Pieces that hold no separator, strung together with it, come apart again.
pub proof fn law_splitting_undoes_joining(
    parts: Seq<Seq<char>>,
    c: char,
    s: &[char],
    r: Vec<Vec<char>>,
)
    requires
        call_ensures(text::split_at_char, (s, c), r),
        parts.len() > 0,
        forall|i: int| 0 <= i < parts.len() ==> !(#[trigger] parts[i]).contains(c),
        s@ == strung(parts, seq![c]),
    ensures
        r@.len() == parts.len(),
        forall|i: int| 0 <= i < parts.len() ==> (#[trigger] r@[i])@ == parts[i],
{
    lemma_split_strung(parts, c);
    let p = text::pieces(r@);
    assert forall|i: int| 0 <= i < parts.len() implies (#[trigger] r@[i])@ == parts[i] by {
        assert(p[i] == r@[i]@);
    }
}

pub proof fn lemma_split_strung(parts: Seq<Seq<char>>, c: char)
    requires
        parts.len() > 0,
        forall|i: int| 0 <= i < parts.len() ==> !(#[trigger] parts[i]).contains(c),
    ensures
        text::split(strung(parts, seq![c]), c) == parts,
    decreases parts.len(),
{
    let rest = parts.drop_first();
    assert(!parts[0].contains(c));
    if parts.len() == 1 {
        lemma_split_step(parts[0], c, Seq::empty());
        assert(parts =~= seq![parts[0]]);
    } else {
        assert forall|i: int| 0 <= i < rest.len() implies !(#[trigger] rest[i]).contains(c) by {
            assert(rest[i] == parts[i + 1]);
        }
        lemma_split_strung(rest, c);
        lemma_split_step(parts[0], c, strung(rest, seq![c]));
        assert(strung(parts, seq![c]) =~= parts[0].push(c) + strung(rest, seq![c]));
        assert(seq![parts[0]] + rest =~= parts);
    }
}

/// Strings are strung together with the separator between neighbours.
pub proof fn law_joined_strings(parts: Vec<String>, sep: &str, r: String)
    requires
        call_ensures(text::join_strings, (&parts, sep), r),
    ensures
        r@ == strung(Seq::new(parts@.len(), |i: int| parts@[i]@), sep@),
{
    lemma_strung(text::texts(parts@), sep@);
    assert(text::texts(parts@) =~= Seq::new(parts@.len(), |i: int| parts@[i]@));
}

/// Only the one character is replaced, wherever it stands.
pub proof fn law_replaced_characters(s: &str, a: char, b: char, r: String)
    requires
        call_ensures(text::replaced, (s, a, b), r),
    ensures
        r@.len() == s@.len(),
        forall|i: int| 0 <= i < s@.len() ==> (#[trigger] r@[i]) == if s@[i] == a {
            b
        } else {
            s@[i]
        },
{
}

/// One text comes before another by the first character in which they differ,
/// or because it is the beginning of the other.
pub proof fn law_texts_are_ordered_by_their_characters(a: &[char], b: &[char], r: bool)
    requires
        call_ensures(text::comes_before, (a, b), r),
    ensures
        r <==> exists|k: int|
            #![trigger a@.take(k)]
            0 <= k <= a@.len() && k < b@.len() && a@.take(k) == b@.take(k) && (k == a@.len() || (
            a@[k] as int) < (b@[k] as int)),
{
}

} // verus!
