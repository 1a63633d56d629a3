//! Queries: patterns, properties, time windows, severities and lines.

use crate::agent;
use crate::laws::texts;
use crate::log_search;
use crate::log_search::{ParsedLine, Property, QueryParts, SearchError, SearchQuery};
use crate::number;
use crate::store::Job;
use crate::text;
use vstd::prelude::*;

verus! {

// -- numbers -----------------------------------------------------------------------

/// A number is written digit by digit: one below ten is one digit, and any other
/// is what is written of its tenth, and its last digit.
pub proof fn law_numbers_are_written_digit_by_digit(n: u64, tenth: String, r: String)
    requires
        call_ensures(number::number_text, (n,), r),
        call_ensures(number::number_text, (n / 10,), tenth),
    ensures
        n < 10 ==> r@ == seq![(48 + n as int) as char],
        n >= 10 ==> r@ == tenth@.push((48 + (n % 10) as int) as char),
{
}

/// What is written of a number reads as that number, with or without a plus sign,
/// and after a minus sign as its negative.
pub proof fn law_written_numbers_read_back(
    n: u64,
    t: String,
    plain: &[char],
    plus: &[char],
    minus: &[char],
    a: Option<u64>,
    b: Option<u64>,
    c: Option<i64>,
)
    requires
        call_ensures(number::number_text, (n,), t),
        plain@ == t@,
        plus@ == seq!['+'] + t@,
        minus@ == seq!['-'] + t@,
        call_ensures(number::parse_u64, (plain,), a),
        call_ensures(number::parse_u64, (plus,), b),
        call_ensures(number::parse_i64, (minus,), c),
    ensures
        a == Some(n),
        b == Some(n),
        c is Some <==> n <= 0x8000_0000_0000_0000,
        c is Some ==> c->0 == -n,
{
    number::lemma_dec(n as nat);
    assert(plus@.drop_first() =~= t@);
    assert(minus@.drop_first() =~= t@);
    assert('0' <= t@[0] <= '9');
}

/// Only digits, with at most one sign before them, are read as a number.
pub proof fn law_other_texts_are_no_numbers(s: &[char], i: int, a: Option<u64>, b: Option<i64>)
    requires
        call_ensures(number::parse_u64, (s,), a),
        call_ensures(number::parse_i64, (s,), b),
        0 <= i < s@.len(),
        !(48 <= s@[i] as int <= 57),
        i > 0 || (s@[i] != '+' && s@[i] != '-') || s@.len() == 1,
    ensures
        a is None,
        b is None,
{
    if i > 0 {
        assert(s@.drop_first()[i - 1] == s@[i]);
    }
    if s@.len() == 1 {
        assert(s@.drop_first().len() == 0);
    }
}

// -- patterns ----------------------------------------------------------------------

proof fn lemma_glob_prefix(a: Seq<char>, rest: Seq<char>, v: Seq<char>)
    requires
        !a.contains('*'),
    ensures
        log_search::glob(a + rest, v) == (a.is_prefix_of(v) && log_search::glob(
            rest,
            v.skip(a.len() as int),
        )),
    decreases a.len(),
{
    if a.len() == 0 {
        assert(a + rest =~= rest);
        assert(v.skip(0) =~= v);
        assert(a =~= v.subrange(0, 0));
    } else {
        let p = a + rest;
        assert(a.contains(a[0]));
        assert(p[0] == a[0]);
        assert(p.drop_first() =~= a.drop_first() + rest);
        if v.len() > 0 {
            assert forall|i: int| 0 <= i < a.drop_first().len() implies a.drop_first()[i] != '*' by {
                assert(a.contains(a[i + 1]));
            }
            lemma_glob_prefix(a.drop_first(), rest, v.drop_first());
            if a.len() <= v.len() {
                assert(v.drop_first().skip(a.drop_first().len() as int) =~= v.skip(a.len() as int));
            }
            let b = a.drop_first();
            let w = v.drop_first();
            if b.is_prefix_of(w) && a[0] == v[0] {
                assert forall|i: int| 0 <= i < a.len() implies a[i] == v[i] by {
                    if i > 0 {
                        assert(b[i - 1] == w.subrange(0, b.len() as int)[i - 1]);
                    }
                }
                assert(a =~= v.subrange(0, a.len() as int));
            }
            if a.is_prefix_of(v) {
                assert(a[0] == v.subrange(0, a.len() as int)[0]);
                assert forall|i: int| 0 <= i < b.len() implies b[i] == w[i] by {
                    assert(a[i + 1] == v.subrange(0, a.len() as int)[i + 1]);
                }
                assert(b =~= w.subrange(0, b.len() as int));
            }
        }
    }
}

proof fn lemma_glob_star(rest: Seq<char>, v: Seq<char>)
    ensures
        log_search::glob(seq!['*'] + rest, v) <==> exists|k: int|
            0 <= k <= v.len() && log_search::glob(rest, #[trigger] v.skip(k)),
    decreases v.len(),
{
    let p = seq!['*'] + rest;
    assert(p.drop_first() =~= rest);
    assert(v.skip(0) =~= v);
    if v.len() > 0 {
        let w = v.drop_first();
        lemma_glob_star(rest, w);
        if exists|k: int| 0 <= k <= w.len() && log_search::glob(rest, #[trigger] w.skip(k)) {
            let k = choose|k: int| 0 <= k <= w.len() && log_search::glob(rest, #[trigger] w.skip(k));
            assert(w.skip(k) =~= v.skip(k + 1));
        }
        if exists|k: int| 0 <= k <= v.len() && log_search::glob(rest, #[trigger] v.skip(k)) {
            let k = choose|k: int| 0 <= k <= v.len() && log_search::glob(rest, #[trigger] v.skip(k));
            if k > 0 {
                assert(w.skip(k - 1) =~= v.skip(k));
            }
        }
    }
}

proof fn lemma_small_parts(a: Seq<char>, b: Seq<char>)
    ensures
        texts::small(a + seq!['*'] + b) == texts::small(a) + seq!['*'] + texts::small(b),
        texts::small(a).contains('*') ==> a.contains('*'),
        a.contains('*') ==> texts::small(a).contains('*'),
{
    assert(texts::small(a + seq!['*'] + b) =~= texts::small(a) + seq!['*'] + texts::small(b));
    let s = texts::small(a);
    if s.contains('*') {
        let i = choose|i: int| 0 <= i < s.len() && s[i] == '*';
        assert(a[i] == '*');
    }
    if a.contains('*') {
        let i = choose|i: int| 0 <= i < a.len() && a[i] == '*';
        assert(s[i] == '*');
    }
}

/// A pattern without a star matches what holds it, whatever the case.
pub proof fn law_patterns_without_a_star_match_anywhere(pattern: &str, value: &str, r: bool)
    requires
        call_ensures(log_search::wildcard_match, (pattern, value), r),
        !pattern@.contains('*'),
    ensures
        r <==> texts::stands_in(texts::small(pattern@), texts::small(value@)),
{
    texts::lemma_small(pattern@);
    texts::lemma_small(value@);
    lemma_small_parts(pattern@, Seq::empty());
    texts::lemma_stands_in(texts::small(value@), texts::small(pattern@));
}

/// A star stands for any text, and the pattern has to match all of a value: with
/// one star, what begins with what stands before the star and goes on to end with
/// what stands after it, whatever the case.
pub proof fn law_a_star_stands_for_any_text(
    a: Seq<char>,
    b: Seq<char>,
    pattern: &str,
    value: &str,
    r: bool,
)
    requires
        call_ensures(log_search::wildcard_match, (pattern, value), r),
        pattern@ == a + seq!['*'] + b,
        !a.contains('*'),
        !b.contains('*'),
    ensures
        r <==> exists|x: Seq<char>|
            texts::small(value@) == #[trigger] (texts::small(a) + x + texts::small(b)),
{
    let p = texts::small(pattern@);
    let v = texts::small(value@);
    let sa = texts::small(a);
    let sb = texts::small(b);
    let star = seq!['*'];
    texts::lemma_small(pattern@);
    texts::lemma_small(value@);
    lemma_small_parts(a, b);
    lemma_small_parts(b, a);
    assert(p[sa.len() as int] == '*');
    assert(p.contains('*'));
    assert(sa + star + sb =~= sa + (star + sb));
    lemma_glob_prefix(sa, star + sb, v);
    let w = v.skip(sa.len() as int);
    lemma_glob_star(sb, w);
    if r {
        let k = choose|k: int| 0 <= k <= w.len() && log_search::glob(sb, #[trigger] w.skip(k));
        log_search::lemma_glob_literal(sb, w.skip(k));
        assert(v =~= sa + w.take(k) + sb);
    }
    if exists|x: Seq<char>| v == #[trigger] (sa + x + sb) {
        let x = choose|x: Seq<char>| v == #[trigger] (sa + x + sb);
        assert(sa =~= v.subrange(0, sa.len() as int));
        let k = x.len() as int;
        assert(w.skip(k) =~= sb);
        log_search::lemma_glob_literal(sb, w.skip(k));
    }
}

/// With several stars, what follows the first star matches an end of the value.
pub proof fn law_several_stars_match_one_after_the_other(
    a: Seq<char>,
    rest: Seq<char>,
    pattern: &str,
    value: &str,
    r: bool,
)
    requires
        call_ensures(log_search::wildcard_match, (pattern, value), r),
        pattern@ == a + seq!['*'] + rest,
        !a.contains('*'),
        rest.contains('*'),
    ensures
        r <==> exists|x: Seq<char>, y: Seq<char>|
            texts::small(value@) == #[trigger] (texts::small(a) + x + y) && log_search::fits(rest, y),
{
    let p = texts::small(pattern@);
    let v = texts::small(value@);
    let sa = texts::small(a);
    let sr = texts::small(rest);
    let star = seq!['*'];
    texts::lemma_small(pattern@);
    texts::lemma_small(value@);
    texts::lemma_small(rest);
    lemma_small_parts(a, rest);
    lemma_small_parts(rest, a);
    assert(p[sa.len() as int] == '*');
    assert(p.contains('*'));
    assert(sa + star + sr =~= sa + (star + sr));
    lemma_glob_prefix(sa, star + sr, v);
    let w = v.skip(sa.len() as int);
    lemma_glob_star(sr, w);
    assert forall|x: Seq<char>, y: Seq<char>| v == #[trigger] (sa + x + y) implies text::lower(y)
        == y by {
        texts::lemma_small(y);
        assert forall|i: int| 0 <= i < y.len() implies texts::small(y)[i] == y[i] by {
            assert(y[i] == v[sa.len() + x.len() + i]);
        }
        assert(texts::small(y) =~= y);
    }
    if r {
        let k = choose|k: int| 0 <= k <= w.len() && log_search::glob(sr, #[trigger] w.skip(k));
        let y = w.skip(k);
        assert(v =~= sa + w.take(k) + y);
        assert(log_search::fits(rest, y));
    }
    if exists|x: Seq<char>, y: Seq<char>|
        v == #[trigger] (sa + x + y) && log_search::fits(rest, y) {
        let (x, y) = choose|x: Seq<char>, y: Seq<char>|
            v == #[trigger] (sa + x + y) && log_search::fits(rest, y);
        assert(sa =~= v.subrange(0, sa.len() as int));
        assert(w.skip(x.len() as int) =~= y);
    }
}

// -- properties --------------------------------------------------------------------

/// What a job or a line says of a property: `repo`, `workflow`, `job` or
/// `job_name`, `branch`, and of a line `step` and `level`. What is not known is empty.
pub open spec fn told(job: Job, line: Option<&ParsedLine>, key: Seq<char>) -> Seq<char> {
    let of_job = if key == "repo"@ {
        Some(job.repo)
    } else if key == "workflow"@ {
        job.workflow
    } else if key == "job"@ || key == "job_name"@ {
        job.job_name
    } else if key == "branch"@ {
        job.head_branch
    } else if key == "step"@ && line is Some {
        line->0.step_name
    } else {
        None
    };
    if key == "level"@ && line is Some {
        line->0.level@
    } else {
        match of_job {
            Some(s) => s@,
            None => Seq::empty(),
        }
    }
}

pub(crate) proof fn lemma_told(job: Job, line: Option<&ParsedLine>, key: Seq<char>)
    ensures
        told(job, line, key) == log_search::property_of(job, log_search::opt_line(line), key),
{
    reveal_strlit("");
    reveal_strlit("repo");
    reveal_strlit("workflow");
    reveal_strlit("job");
    reveal_strlit("job_name");
    reveal_strlit("branch");
    reveal_strlit("step");
    reveal_strlit("level");
    assert(""@ =~= Seq::<char>::empty());
    assert("level"@.len() == 5 && "repo"@.len() == 4 && "workflow"@.len() == 8 && "job"@.len() == 3
        && "job_name"@.len() == 8 && "branch"@.len() == 6 && "step"@.len() == 4);
}

/// The conditions are met exactly if no pattern of a negated one matches, and of
/// the others, for every property that is asked for, one of its patterns does.
pub proof fn law_conditions_on_properties(
    job: Job,
    line: Option<&ParsedLine>,
    parts: QueryParts,
    r: bool,
)
    requires
        call_ensures(log_search::properties_match, (&job, line, &parts), r),
    ensures
        r <==> {
            &&& forall|i: int|
                0 <= i < parts.properties@.len() && (#[trigger] parts.properties@[i]).negated
                    ==> !log_search::fits(
                    parts.properties@[i].pattern@,
                    told(job, line, parts.properties@[i].key@),
                )
            &&& forall|i: int|
                0 <= i < parts.properties@.len() && !(#[trigger] parts.properties@[i]).negated
                    ==> exists|k: int|
                    0 <= k < parts.properties@.len() && !(#[trigger] parts.properties@[k]).negated
                        && parts.properties@[k].key@ == parts.properties@[i].key@
                        && log_search::fits(
                        parts.properties@[k].pattern@,
                        told(job, line, parts.properties@[i].key@),
                    )
        },
{
    let v = parts.properties@;
    let props = parts@.properties;
    let l = log_search::opt_line(line);
    assert(forall|i: int| 0 <= i < v.len() ==> #[trigger] props[i] == v[i]@);
    assert forall|key: Seq<char>| #[trigger] log_search::property_of(job, l, key) == told(
        job,
        line,
        key,
    ) by {
        lemma_told(job, line, key);
    }
    if r {
        assert forall|i: int| 0 <= i < v.len() && (#[trigger] v[i]).negated implies !log_search::fits(
            v[i].pattern@,
            told(job, line, v[i].key@),
        ) by {
            assert(log_search::holds(job, l, props, i));
            lemma_told(job, line, v[i].key@);
        }
        assert forall|i: int| 0 <= i < v.len() && !(#[trigger] v[i]).negated implies exists|k: int|
            0 <= k < v.len() && !(#[trigger] v[k]).negated && v[k].key@ == v[i].key@
                && log_search::fits(v[k].pattern@, told(job, line, v[i].key@)) by {
            assert(log_search::holds(job, l, props, i));
            let k = choose|k: int|
                0 <= k < props.len() && #[trigger] log_search::met_by(job, l, props[i], props[k]);
            lemma_told(job, line, v[i].key@);
            assert(!v[k].negated && v[k].key@ == v[i].key@);
        }
    } else {
        let i = choose|i: int|
            0 <= i < props.len() && !(#[trigger] log_search::holds(job, l, props, i));
        lemma_told(job, line, v[i].key@);
        if !v[i].negated {
            assert forall|k: int| 0 <= k < v.len() && !(#[trigger] v[k]).negated && v[k].key@
                == v[i].key@ implies !log_search::fits(v[k].pattern@, told(job, line, v[i].key@)) by {
                assert(!log_search::met_by(job, l, props[i], props[k]));
            }
        }
    }
}

/// What is given apart from a query is asked for in addition, each value of its
/// own property, in this order: repo, workflow, job, branch, step, level.
pub proof fn law_values_given_apart_are_asked_for_too(
    parts: &mut QueryParts,
    query: SearchQuery,
    key: Seq<char>,
    pattern: Seq<char>,
)
    requires
        call_ensures(log_search::add_explicit_properties, (parts, &query), ()),
    ensures
        text::texts(final(parts).included@) == text::texts(old(parts).included@),
        text::texts(final(parts).excluded@) == text::texts(old(parts).excluded@),
        (exists|i: int|
            0 <= i < final(parts).properties@.len() && (
            #[trigger] final(parts).properties@[i])@ == (log_search::PropertyView {
                key,
                pattern,
                negated: false,
            })) <==> {
            ||| exists|i: int|
                0 <= i < old(parts).properties@.len() && (#[trigger] old(parts).properties@[i])@
                    == (log_search::PropertyView { key, pattern, negated: false })
            ||| key == "repo"@ && text::opt_text(query.repo) == Some(pattern)
            ||| key == "workflow"@ && text::opt_text(query.workflow) == Some(pattern)
            ||| key == "job_name"@ && text::opt_text(query.job_name) == Some(pattern)
            ||| key == "branch"@ && text::opt_text(query.branch) == Some(pattern)
            ||| key == "step"@ && text::opt_text(query.step) == Some(pattern)
            ||| key == "level"@ && text::opt_text(query.level) == Some(pattern)
        },
{
    let x = log_search::PropertyView { key, pattern, negated: false };
    let a = log_search::property_views(old(parts).properties@);
    let b = log_search::property_views(final(parts).properties@);
    assert(b == a + log_search::all_given(query));
    lemma_views_contain(old(parts).properties@, x);
    lemma_views_contain(final(parts).properties@, x);
    lemma_concat_contains(a, log_search::all_given(query), x);
    let g1 = log_search::given("repo"@, query.repo);
    let g2 = log_search::given("workflow"@, query.workflow);
    let g3 = log_search::given("job_name"@, query.job_name);
    let g4 = log_search::given("branch"@, query.branch);
    let g5 = log_search::given("step"@, query.step);
    let g6 = log_search::given("level"@, query.level);
    lemma_concat_contains(g1 + g2 + g3 + g4 + g5, g6, x);
    lemma_concat_contains(g1 + g2 + g3 + g4, g5, x);
    lemma_concat_contains(g1 + g2 + g3, g4, x);
    lemma_concat_contains(g1 + g2, g3, x);
    lemma_concat_contains(g1, g2, x);
    lemma_given("repo"@, query.repo, x);
    lemma_given("workflow"@, query.workflow, x);
    lemma_given("job_name"@, query.job_name, x);
    lemma_given("branch"@, query.branch, x);
    lemma_given("step"@, query.step, x);
    lemma_given("level"@, query.level, x);
}

proof fn lemma_given(key: Seq<char>, value: Option<String>, x: log_search::PropertyView)
    ensures
        log_search::given(key, value).contains(x) <==> x.key == key && !x.negated && text::opt_text(
            value,
        ) == Some(x.pattern),
{
    let g = log_search::given(key, value);
    if value is Some {
        assert(g[0] == log_search::PropertyView { key, pattern: value->0@, negated: false });
    }
}

proof fn lemma_views_contain(v: Seq<Property>, x: log_search::PropertyView)
    ensures
        log_search::property_views(v).contains(x) <==> exists|i: int|
            0 <= i < v.len() && (#[trigger] v[i])@ == x,
{
    let w = log_search::property_views(v);
    if w.contains(x) {
        let i = choose|i: int| 0 <= i < w.len() && w[i] == x;
        assert(v[i]@ == x);
    }
    if exists|i: int| 0 <= i < v.len() && (#[trigger] v[i])@ == x {
        let i = choose|i: int| 0 <= i < v.len() && (#[trigger] v[i])@ == x;
        assert(w[i] == x);
    }
}

pub proof fn lemma_concat_contains<A>(a: Seq<A>, b: Seq<A>, x: A)
    ensures
        (a + b).contains(x) <==> a.contains(x) || b.contains(x),
{
    let s = a + b;
    if a.contains(x) {
        let i = choose|i: int| 0 <= i < a.len() && a[i] == x;
        assert(s[i] == x);
    }
    if b.contains(x) {
        let i = choose|i: int| 0 <= i < b.len() && b[i] == x;
        assert(s[a.len() + i] == x);
    }
    if s.contains(x) {
        let i = choose|i: int| 0 <= i < s.len() && s[i] == x;
        if i < a.len() {
            assert(a[i] == x);
        } else {
            assert(b[i - a.len()] == x);
        }
    }
}

// -- time windows --------------------------------------------------------------------

/// A window of a number and a unit goes back that many minutes, hours, days or
/// weeks; none at all is refused, and so is another unit or none. `all` goes back
/// without end.
pub proof fn law_windows_go_back_so_many_units(
    n: u64,
    t: String,
    unit: Seq<char>,
    value: &str,
    r: Result<Option<u128>, SearchError>,
)
    requires
        call_ensures(number::number_text, (n,), t),
        value@ == t@ + unit,
        unit.len() > 0 ==> !(48 <= unit[0] as int <= 57),
        call_ensures(log_search::window_seconds, (value,), r),
    ensures
        n > 0 && unit == "m"@ ==> r == Ok::<Option<u128>, SearchError>(Some((n * 60) as u128)),
        n > 0 && unit == "h"@ ==> r == Ok::<Option<u128>, SearchError>(
            Some((n * 60 * 60) as u128),
        ),
        n > 0 && unit == "d"@ ==> r == Ok::<Option<u128>, SearchError>(
            Some((n * 24 * 60 * 60) as u128),
        ),
        n > 0 && unit == "w"@ ==> r == Ok::<Option<u128>, SearchError>(
            Some((n * 7 * 24 * 60 * 60) as u128),
        ),
        n == 0 && unit.len() > 0 ==> r == Err::<Option<u128>, SearchError>(SearchError::SinceZero),
        unit.len() == 0 ==> r == Err::<Option<u128>, SearchError>(SearchError::SinceShape),
        n > 0 && unit.len() > 0 && unit != "m"@ && unit != "h"@ && unit != "d"@ && unit != "w"@
            ==> r == Err::<Option<u128>, SearchError>(SearchError::SinceUnit),
{
    reveal_strlit("m");
    reveal_strlit("h");
    reveal_strlit("d");
    reveal_strlit("w");
    reveal_strlit("all");
    number::lemma_dec(n as nat);
    let s = value@;
    let k = t@.len() as int;
    assert('0' <= t@[0] <= '9');
    assert(s[0] == t@[0]);
    assert forall|i: int| 0 <= i < k implies '0' <= #[trigger] s[i] <= '9' by {
        assert(s[i] == t@[i]);
    }
    if unit.len() > 0 {
        assert(s[k] == unit[0]);
    }
    log_search::lemma_leading_digits(s, k);
    assert(s.take(k) =~= t@);
    assert(s.skip(k) =~= unit);
    assert(s != "all"@) by {
        if s == "all"@ {
            assert(s[0] == 'a');
        }
    }
    assert("m"@.len() == 1 && "h"@.len() == 1 && "d"@.len() == 1 && "w"@.len() == 1);
    assert("m"@[0] == 'm' && "h"@[0] == 'h' && "d"@[0] == 'd' && "w"@[0] == 'w');
}

/// `all` has no beginning, and what does not begin with a digit is refused.
pub proof fn law_windows_without_a_number(
    value: &str,
    r: Result<Option<u128>, SearchError>,
)
    requires
        call_ensures(log_search::window_seconds, (value,), r),
        value@.len() > 0,
        !(48 <= value@[0] as int <= 57),
    ensures
        value@ == "all"@ ==> r == Ok::<Option<u128>, SearchError>(None),
        value@ != "all"@ ==> r == Err::<Option<u128>, SearchError>(SearchError::SinceAmount),
{
    assert(value@.take(0) =~= Seq::<char>::empty());
}

// -- severities ----------------------------------------------------------------------

/// A line is an error if, whatever the case, it holds one of the words that speak
/// of one; else a warning if it speaks of one; else debugging output if it says so;
/// else information.
pub proof fn law_severities(line: &str, r: &'static str)
    requires
        call_ensures(log_search::classify, (line,), r),
    ensures
        ({
            let l = texts::small(line@);
            let error = texts::stands_in("##[error"@, l) || texts::stands_in(" error"@, l)
                || texts::stands_in("fatal"@, l) || texts::stands_in("failed"@, l)
                || texts::stands_in("failure"@, l) || texts::stands_in("exception"@, l)
                || texts::stands_in("panic"@, l);
            let warning = texts::stands_in("##[warning"@, l) || texts::stands_in("warn"@, l);
            let debug = texts::stands_in("debug"@, l);
            &&& error ==> r@ == "error"@
            &&& !error && warning ==> r@ == "warn"@
            &&& !error && !warning && debug ==> r@ == "debug"@
            &&& !error && !warning && !debug ==> r@ == "info"@
        }),
{
    let l = texts::small(line@);
    texts::lemma_small(line@);
    assert forall|p: Seq<char>| #[trigger] text::contains(l, p) == texts::stands_in(p, l) by {
        texts::lemma_stands_in(l, p);
    }
}

// -- lines ---------------------------------------------------------------------------

/// Every line of a log is kept as it is, numbered from one, with its severity.
pub proof fn law_lines_are_kept_and_numbered(
    log: &str,
    s: &[char],
    lines: Vec<Vec<char>>,
    r: Vec<ParsedLine>,
    i: int,
    message: &str,
    level: &'static str,
)
    requires
        s@ == log@,
        call_ensures(text::to_lines, (s,), lines),
        call_ensures(log_search::parse_lines, (log,), r),
        0 <= i < lines@.len(),
        message@ == lines@[i]@,
        call_ensures(log_search::classify, (message,), level),
    ensures
        r@.len() == lines@.len(),
        r@[i].line_no == i + 1,
        r@[i].message@ == lines@[i]@,
        r@[i].level@ == level@,
{
    let v = log_search::line_views(r@);
    assert(v.len() == r@.len());
    assert(text::pieces(lines@).len() == lines@.len());
    assert(v[i] == r@[i]@);
    assert(text::pieces(lines@)[i] == lines@[i]@);
}

/// A text is made of three.
pub open spec fn made_of(s: Seq<char>, x: Seq<char>, p: Seq<char>, y: Seq<char>) -> bool {
    s == x + p + y
}

/// What follows a marker, where it first stands, names something, unless that is
/// nothing but white space.
pub proof fn law_names_follow_markers(
    a: Seq<char>,
    rest: &[char],
    name: &[char],
    line: &str,
    marker: &str,
    r: Option<String>,
)
    requires
        call_ensures(log_search::after_marker, (line, marker), r),
        call_ensures(text::trimmed, (rest,), name),
        line@ == a + marker@ + rest@,
        forall|x: Seq<char>, y: Seq<char>| #[trigger]
            made_of(line@, x, marker@, y) ==> a.len() <= x.len(),
    ensures
        name@.len() > 0 ==> r is Some && r->0@ == name@,
        name@.len() == 0 ==> r is None,
{
    text::lemma_find(line@, marker@);
    let s = line@;
    let p = marker@;
    assert(s.subrange(a.len() as int, a.len() as int + p.len()) =~= p);
    assert(text::occurs_at(s, p, a.len() as int));
    let k = text::find(s, p)->0;
    if k < a.len() {
        let x = s.take(k);
        let y = s.skip(k + p.len());
        assert(s =~= x + p + y);
        assert(made_of(s, x, p, y));
    }
    assert(k == a.len());
    assert(s.skip(k + p.len()) =~= rest@);
}

/// A line stands in the step that last started and has not finished, itself
/// included; where there is none, in the outermost group that is open.
pub proof fn law_lines_belong_to_the_open_step(log: &str, r: Vec<ParsedLine>, i: int)
    requires
        call_ensures(log_search::parse_lines, (log,), r),
        0 <= i < r@.len(),
    ensures
        ({
            let line = r@[i].message@;
            let starts = log_search::named_after(line, "Starting: "@);
            let before = log_search::place_after(text::lines(log@).take(i));
            let step = if starts is Some {
                starts
            } else {
                before.step
            };
            let groups = match log_search::named_after(line, "##[group]"@) {
                Some(g) => before.groups.push(g),
                None => before.groups,
            };
            &&& step is Some ==> text::opt_text(r@[i].step_name) == step
            &&& step is None && groups.len() > 0 ==> text::opt_text(r@[i].step_name) == Some(
                groups[0],
            )
            &&& step is None && groups.len() == 0 ==> r@[i].step_name is None
            // Where the next line comes to.
            &&& log_search::place_after(text::lines(log@).take(i + 1)).step == if texts::stands_in(
                "Finishing: "@,
                line,
            ) {
                None
            } else {
                step
            }
            &&& log_search::place_after(text::lines(log@).take(i + 1)).groups == if texts::stands_in(
                "##[endgroup]"@,
                line,
            ) && groups.len() > 0 {
                groups.drop_last()
            } else {
                groups
            }
            &&& i == 0 ==> before.step is None && before.groups.len() == 0
        }),
{
    let all = text::lines(log@);
    let v = log_search::line_views(r@);
    assert(v.len() == r@.len());
    assert(v[i] == r@[i]@);
    let line = all[i];
    texts::lemma_stands_in(line, "Finishing: "@);
    texts::lemma_stands_in(line, "##[endgroup]"@);
    assert(all.take(i + 1).drop_last() =~= all.take(i));
    assert(all.take(i + 1).last() == line);
}

} // verus!
