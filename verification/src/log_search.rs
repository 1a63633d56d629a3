//! Searching captured runner diagnostics. The budget for captured logs is
//! small, so retained logs are scanned, and what is found disappears when its
//! log is pruned.

use crate::agent;
use crate::agent::AgentError;
use crate::agent::Archive;
use crate::clock;
use crate::number;
use crate::order;
use crate::store;
use crate::store::Job;
use crate::store::Store;
use crate::text;
use vstd::prelude::*;

verus! {

/// What to search for: a query, and properties that may be given apart from it.
#[derive(Debug)]
pub struct SearchQuery {
    pub q: Option<String>,
    pub repo: Option<String>,
    pub workflow: Option<String>,
    pub job_name: Option<String>,
    pub branch: Option<String>,
    pub step: Option<String>,
    pub level: Option<String>,
    pub since: Option<String>,
    pub limit: Option<usize>,
}

impl Default for SearchQuery {
    fn default() -> (r: Self)
        ensures
            r.q is None,
            r.repo is None,
            r.workflow is None,
            r.job_name is None,
            r.branch is None,
            r.step is None,
            r.level is None,
            r.since is None,
            r.limit is None,
    {
        SearchQuery {
            q: None,
            repo: None,
            workflow: None,
            job_name: None,
            branch: None,
            step: None,
            level: None,
            since: None,
            limit: None,
        }
    }
}

/// Why a search is refused.
#[derive(Debug, Clone, Copy, PartialEq, Eq, Structural)]
pub enum SearchError {
    UnterminatedQuote,
    SinceShape,
    SinceAmount,
    SinceZero,
    SinceUnit,
}

impl SearchError {
    pub open spec fn spec_message(self) -> Seq<char> {
        match self {
            SearchError::UnterminatedQuote => "unterminated quote in log query"@,
            SearchError::SinceShape => "since must look like 24h, 7d, 4w, or 'all'"@,
            SearchError::SinceAmount => "since must start with a positive integer"@,
            SearchError::SinceZero => "since must be greater than zero"@,
            SearchError::SinceUnit => "since unit must be m, h, d, or w"@,
        }
    }

    pub fn message(self) -> (r: &'static str)
        ensures
            r@ == self.spec_message(),
    {
        match self {
            SearchError::UnterminatedQuote => "unterminated quote in log query",
            SearchError::SinceShape => "since must look like 24h, 7d, 4w, or 'all'",
            SearchError::SinceAmount => "since must start with a positive integer",
            SearchError::SinceZero => "since must be greater than zero",
            SearchError::SinceUnit => "since unit must be m, h, d, or w",
        }
    }
}

// -- time windows -----------------------------------------------------------------

/// How many decimal digits a text begins with.
pub open spec fn leading_digits(s: Seq<char>) -> int
    decreases s.len(),
{
    if s.len() > 0 && '0' <= s[0] <= '9' {
        1 + leading_digits(s.drop_first())
    } else {
        0
    }
}

/// The seconds of a unit of time.
pub open spec fn unit_seconds(unit: Seq<char>) -> Option<int> {
    if unit == "m"@ {
        Some(60)
    } else if unit == "h"@ {
        Some(3_600)
    } else if unit == "d"@ {
        Some(86_400)
    } else if unit == "w"@ {
        Some(604_800)
    } else {
        None
    }
}

/// The seconds that a window such as "24h" or "7d" goes back; "all" has none.
pub open spec fn window(s: Seq<char>) -> Result<Option<int>, SearchError> {
    let k = leading_digits(s);
    if s == "all"@ {
        Ok(None)
    } else if k == s.len() {
        Err(SearchError::SinceShape)
    } else {
        match number::unsigned(s.take(k), u64::MAX as nat) {
            None => Err(SearchError::SinceAmount),
            Some(n) => if n == 0 {
                Err(SearchError::SinceZero)
            } else {
                match unit_seconds(s.skip(k)) {
                    None => Err(SearchError::SinceUnit),
                    Some(u) => Ok(Some(n * u)),
                }
            },
        }
    }
}

pub(crate) proof fn lemma_leading_digits(s: Seq<char>, k: int)
    requires
        0 <= k <= s.len(),
        forall|i: int| 0 <= i < k ==> '0' <= #[trigger] s[i] <= '9',
        k < s.len() ==> !('0' <= s[k] <= '9'),
    ensures
        leading_digits(s) == k,
    decreases s.len(),
{
    if k > 0 {
        assert forall|i: int| 0 <= i < k - 1 implies '0' <= #[trigger] s.drop_first()[i] <= '9' by {
            assert(s.drop_first()[i] == s[i + 1]);
        }
        lemma_leading_digits(s.drop_first(), k - 1);
    }
}

/// The seconds that a window such as "24h" or "7d" goes back; "all" has none.
pub fn window_seconds(value: &str) -> (r: Result<Option<u128>, SearchError>)
    ensures
        match (r, window(value@)) {
            (Ok(Some(n)), Ok(Some(m))) => n == m,
            (Ok(None), Ok(None)) => true,
            (Err(a), Err(b)) => a == b,
            _ => false,
        },
{
    if text::same_str(value, "all") {
        return Ok(None);
    }
    let s = text::chars(value);
    let mut k: usize = 0;
    while k < s.len() && '0' <= s[k] && s[k] <= '9'
        invariant
            k <= s@.len(),
            forall|i: int| 0 <= i < k ==> '0' <= #[trigger] s@[i] <= '9',
        decreases s@.len() - k,
    {
        k = k + 1;
    }
    proof {
        lemma_leading_digits(s@, k as int);
    }
    if k == s.len() {
        return Err(SearchError::SinceShape);
    }
    let amount = match number::parse_u64(vstd::slice::slice_subrange(&s, 0, k)) {
        Some(n) => n,
        None => {
            assert(s@.subrange(0, k as int) =~= s@.take(k as int));
            return Err(SearchError::SinceAmount);
        },
    };
    assert(s@.subrange(0, k as int) =~= s@.take(k as int));
    if amount == 0 {
        return Err(SearchError::SinceZero);
    }
    let unit = text::string(vstd::slice::slice_subrange(&s, k, s.len()));
    assert(unit@ =~= s@.skip(k as int));
    let seconds: u128 = if text::same_str(unit.as_str(), "m") {
        60
    } else if text::same_str(unit.as_str(), "h") {
        3_600
    } else if text::same_str(unit.as_str(), "d") {
        86_400
    } else if text::same_str(unit.as_str(), "w") {
        604_800
    } else {
        return Err(SearchError::SinceUnit);
    };
    assert(0 <= amount * seconds <= u64::MAX * 604_800) by (nonlinear_arith)
        requires
            0 <= amount <= u64::MAX,
            0 <= seconds <= 604_800,
    ;
    Ok(Some(amount as u128 * seconds))
}

// -- queries ------------------------------------------------------------------------

/// The tokens of a query from here on, where `token` has been read of the
/// current one: white space outside quotes ends a token, a backslash takes the
/// next character as it is, and an open quote at the end is an error.
pub open spec fn scan(s: Seq<char>, token: Seq<char>, quoted: bool, escaped: bool) -> Option<
    Seq<Seq<char>>,
>
    decreases s.len(),
{
    if s.len() == 0 {
        let last = if escaped {
            token.push('\\')
        } else {
            token
        };
        if quoted {
            None
        } else if last.len() == 0 {
            Some(Seq::empty())
        } else {
            Some(seq![last])
        }
    } else {
        let c = s[0];
        let rest = s.drop_first();
        if escaped {
            scan(rest, token.push(c), quoted, false)
        } else if c == '\\' {
            scan(rest, token, quoted, true)
        } else if c == '"' {
            scan(rest, token, !quoted, false)
        } else if text::is_space(c) && !quoted {
            match scan(rest, Seq::empty(), quoted, false) {
                None => None,
                Some(more) => Some(
                    if token.len() == 0 {
                        more
                    } else {
                        seq![token] + more
                    },
                ),
            }
        } else {
            scan(rest, token.push(c), quoted, false)
        }
    }
}

/// The tokens of a query.
pub open spec fn spec_tokens(s: Seq<char>) -> Option<Seq<Seq<char>>> {
    scan(s, Seq::empty(), false, false)
}

/// The tokens of a query.
pub fn tokens(input: &str) -> (r: Result<Vec<String>, SearchError>)
    ensures
        match r {
            Ok(v) => spec_tokens(input@) == Some(text::texts(v@)),
            Err(e) => spec_tokens(input@) is None && e == SearchError::UnterminatedQuote,
        },
{
    let s = text::chars(input);
    let mut out: Vec<String> = Vec::new();
    let mut token = String::new();
    let mut empty = true;
    let mut quoted = false;
    let mut escaped = false;
    assert(s@.skip(0) =~= s@);
    assert(text::texts(out@) =~= Seq::empty());
    assert(token@ =~= Seq::empty());
    assert forall|m: Seq<Seq<char>>| #[trigger] (text::texts(out@) + m) == m by {
        assert(text::texts(out@) + m =~= m);
    }
    for i in 0..s.len()
        invariant
            s@ == input@,
            empty == (token@.len() == 0),
            match scan(s@.skip(i as int), token@, quoted, escaped) {
                Some(m) => spec_tokens(input@) == Some(text::texts(out@) + m),
                None => spec_tokens(input@) is None,
            },
    {
        let ch = s[i];
        let ghost now = s@.skip(i as int);
        assert(now[0] == ch);
        assert(now.drop_first() =~= s@.skip(i + 1));
        if escaped {
            token.push(ch);
            empty = false;
            escaped = false;
        } else if ch == '\\' {
            escaped = true;
        } else if ch == '"' {
            quoted = !quoted;
        } else if text::space(ch) && !quoted {
            if !empty {
                let ghost before = out@;
                let ghost t = token@;
                out.push(token);
                assert(text::texts(out@) =~= text::texts(before).push(t));
                token = String::new();
                empty = true;
                proof {
                    if let Some(m) = scan(s@.skip(i + 1), Seq::empty(), quoted, false) {
                        assert(text::texts(before) + (seq![t] + m) =~= text::texts(out@) + m);
                    }
                }
            }
            assert(token@ =~= Seq::empty());
        } else {
            token.push(ch);
            empty = false;
        }
    }
    assert(s@.skip(s@.len() as int).len() == 0);
    if quoted {
        return Err(SearchError::UnterminatedQuote);
    }
    let ghost before = out@;
    if escaped {
        token.push('\\');
        empty = false;
    }
    let ghost t = token@;
    if !empty {
        out.push(token);
        assert(text::texts(out@) =~= text::texts(before) + seq![t]);
    } else {
        assert(text::texts(before) + Seq::<Seq<char>>::empty() =~= text::texts(before));
    }
    Ok(out)
}

/// A condition on a job or a line: that a property matches a pattern, or, if
/// negated, that it does not.
#[derive(Debug)]
pub struct Property {
    pub key: String,
    pub pattern: String,
    pub negated: bool,
}

impl Property {
    pub open spec fn view(&self) -> PropertyView {
        PropertyView { key: self.key@, pattern: self.pattern@, negated: self.negated }
    }
}

pub ghost struct PropertyView {
    pub key: Seq<char>,
    pub pattern: Seq<char>,
    pub negated: bool,
}

/// A query taken apart.
#[derive(Debug)]
pub struct QueryParts {
    /// What a message must hold, in lower case.
    pub included: Vec<String>,
    /// What a message must not hold, in lower case.
    pub excluded: Vec<String>,
    pub properties: Vec<Property>,
}

pub open spec fn property_views(v: Seq<Property>) -> Seq<PropertyView> {
    v.map_values(|p: Property| p@)
}

#[verifier::ext_equal]
pub ghost struct PartsView {
    pub included: Seq<Seq<char>>,
    pub excluded: Seq<Seq<char>>,
    pub properties: Seq<PropertyView>,
}

impl QueryParts {
    pub open spec fn view(&self) -> PartsView {
        PartsView {
            included: text::texts(self.included@),
            excluded: text::texts(self.excluded@),
            properties: property_views(self.properties@),
        }
    }
}

/// The properties that a query can name.
pub open spec fn is_key(key: Seq<char>) -> bool {
    key == "repo"@ || key == "workflow"@ || key == "job"@ || key == "job_name"@ || key
        == "branch"@ || key == "step"@ || key == "level"@
}

/// One condition for every alternative that is not empty.
pub open spec fn alternatives(key: Seq<char>, values: Seq<Seq<char>>, negated: bool) -> Seq<
    PropertyView,
>
    decreases values.len(),
{
    if values.len() == 0 {
        Seq::empty()
    } else {
        let before = alternatives(key, values.drop_last(), negated);
        if values.last().len() == 0 {
            before
        } else {
            before.push(PropertyView { key, pattern: values.last(), negated })
        }
    }
}

/// A query with one more token: `AND` says nothing; a leading `-` negates;
/// `key:a,b` asks for one of the alternatives of a property; anything else
/// must stand in the message.
pub open spec fn with_token(p: PartsView, token: Seq<char>) -> PartsView {
    let negated = token.len() > 0 && token[0] == '-';
    let body = if negated {
        token.drop_first()
    } else {
        token
    };
    let colon = text::index_of(body, ':');
    let key = text::lower(body.take(colon));
    if text::lower(token) == "and"@ {
        p
    } else if colon < body.len() && is_key(key) {
        PartsView {
            properties: p.properties + alternatives(
                key,
                text::split(body.skip(colon + 1), ','),
                negated,
            ),
            ..p
        }
    } else if negated {
        PartsView { excluded: p.excluded.push(text::lower(body)), ..p }
    } else if body.len() > 0 {
        PartsView { included: p.included.push(text::lower(body)), ..p }
    } else {
        p
    }
}

/// A query of some tokens.
pub open spec fn parts_of(tokens: Seq<Seq<char>>) -> PartsView
    decreases tokens.len(),
{
    if tokens.len() == 0 {
        PartsView { included: Seq::empty(), excluded: Seq::empty(), properties: Seq::empty() }
    } else {
        with_token(parts_of(tokens.drop_last()), tokens.last())
    }
}

/// A query taken apart, unless a quote in it is not closed.
pub open spec fn parsed_query(s: Seq<char>) -> Option<PartsView> {
    match spec_tokens(s) {
        Some(t) => Some(parts_of(t)),
        None => None,
    }
}

fn known_key(key: &str) -> (r: bool)
    ensures
        r == is_key(key@),
{
    text::same_str(key, "repo") || text::same_str(key, "workflow") || text::same_str(key, "job")
        || text::same_str(key, "job_name") || text::same_str(key, "branch") || text::same_str(
        key,
        "step",
    ) || text::same_str(key, "level")
}

fn add_alternatives(properties: &mut Vec<Property>, key: &str, value: &[char], negated: bool)
    ensures
        property_views(final(properties)@) == property_views(old(properties)@) + alternatives(
            key@,
            text::split(value@, ','),
            negated,
        ),
{
    let values = text::split_at_char(value, ',');
    let ghost all = text::pieces(values@);
    let ghost start = property_views(properties@);
    assert(start + alternatives(key@, all.take(0), negated) =~= start);
    for i in 0..values.len()
        invariant
            all == text::pieces(values@),
            property_views(properties@) == start + alternatives(
                key@,
                all.take(i as int),
                negated,
            ),
    {
        let ghost before = properties@;
        let ghost now = all.take(i + 1);
        assert(now.drop_last() =~= all.take(i as int));
        assert(now.last() == values@[i as int]@);
        if values[i].len() > 0 {
            let p = Property { key: key.to_string(), pattern: text::string(&values[i]), negated };
            properties.push(p);
            assert(property_views(properties@) =~= property_views(before).push(p@));
            assert(property_views(properties@) =~= start + alternatives(key@, now, negated));
        }
    }
    assert(all.take(all.len() as int) =~= all);
}

fn add_token(parts: &mut QueryParts, token: &[char])
    ensures
        final(parts)@ == with_token(old(parts)@, token@),
{
    let ghost before = parts@;
    let low = text::string(&text::to_lower(token));
    if text::same_str(low.as_str(), "and") {
        return ;
    }
    let negated = token.len() > 0 && token[0] == '-';
    let from: usize = if negated {
        1
    } else {
        0
    };
    let body = vstd::slice::slice_subrange(token, from, token.len());
    proof {
        if negated {
            assert(body@ =~= token@.drop_first());
        } else {
            assert(body@ =~= token@);
        }
        text::lemma_index_of(body@, ':');
    }
    let colon = text::index_from(body, ':', 0);
    assert(body@.skip(0) =~= body@);
    if colon < body.len() {
        let name = vstd::slice::slice_subrange(body, 0, colon);
        assert(name@ =~= body@.take(colon as int));
        let key = text::string(&text::to_lower(name));
        if known_key(key.as_str()) {
            let value = vstd::slice::slice_subrange(body, colon + 1, body.len());
            assert(value@ =~= body@.skip(colon + 1));
            add_alternatives(&mut parts.properties, key.as_str(), value, negated);
            assert(parts@ =~= with_token(before, token@));
            return ;
        }
    }
    let word = text::string(&text::to_lower(body));
    if negated {
        let ghost was = parts.excluded@;
        parts.excluded.push(word);
        assert(text::texts(parts.excluded@) =~= text::texts(was).push(word@));
        assert(parts@ =~= with_token(before, token@));
    } else if body.len() > 0 {
        let ghost was = parts.included@;
        parts.included.push(word);
        assert(text::texts(parts.included@) =~= text::texts(was).push(word@));
        assert(parts@ =~= with_token(before, token@));
    }
}

/// A query taken apart.
pub fn parse_query(input: &str) -> (r: Result<QueryParts, SearchError>)
    ensures
        match r {
            Ok(p) => parsed_query(input@) == Some(p@),
            Err(e) => parsed_query(input@) is None && e == SearchError::UnterminatedQuote,
        },
{
    let words = match tokens(input) {
        Ok(words) => words,
        Err(e) => return Err(e),
    };
    let ghost all = text::texts(words@);
    let mut parts = QueryParts {
        included: Vec::new(),
        excluded: Vec::new(),
        properties: Vec::new(),
    };
    assert(parts@ =~= parts_of(all.take(0)));
    for i in 0..words.len()
        invariant
            all == text::texts(words@),
            parts@ == parts_of(all.take(i as int)),
    {
        assert(all.take(i + 1).drop_last() =~= all.take(i as int));
        assert(all.take(i + 1).last() == words@[i as int]@);
        add_token(&mut parts, &text::chars(words[i].as_str()));
    }
    assert(all.take(all.len() as int) =~= all);
    Ok(parts)
}

// -- patterns -----------------------------------------------------------------------

/// A pattern in which `*` stands for any text, and any other character for
/// itself, fits the whole of a value.
pub open spec fn glob(p: Seq<char>, v: Seq<char>) -> bool
    decreases p.len() + v.len(),
{
    if p.len() == 0 {
        v.len() == 0
    } else if p[0] == '*' {
        glob(p.drop_first(), v) || (v.len() > 0 && glob(p, v.drop_first()))
    } else {
        v.len() > 0 && v[0] == p[0] && glob(p.drop_first(), v.drop_first())
    }
}

/// A pattern without `*` stands somewhere in a value, one with `*` fits all of
/// it; case does not matter.
pub open spec fn fits(pattern: Seq<char>, value: Seq<char>) -> bool {
    let p = text::lower(pattern);
    let v = text::lower(value);
    if p.contains('*') {
        glob(p, v)
    } else {
        text::contains(v, p)
    }
}

/// Which ends of `v` a pattern fits from: one more character of the pattern,
/// `c`, before a pattern that fits the ends in `after`.
fn glob_step(c: char, v: &[char], after: &Vec<bool>, p: Ghost<Seq<char>>) -> (r: Vec<bool>)
    requires
        p@.len() > 0,
        p@[0] == c,
        after@.len() == v@.len() + 1,
        forall|j: int|
            0 <= j <= v@.len() ==> #[trigger] after@[j] == glob(p@.drop_first(), v@.skip(j)),
    ensures
        r@.len() == v@.len() + 1,
        forall|j: int| 0 <= j <= v@.len() ==> #[trigger] r@[j] == glob(p@, v@.skip(j)),
{
    let n = v.len();
    let mut r: Vec<bool> = Vec::new();
    while r.len() < n
        invariant
            n == v@.len(),
            r@.len() <= n,
        decreases n - r@.len(),
    {
        r.push(false);
    }
    r.push(false);
    let mut j: usize = n;
    loop
        invariant
            n == v@.len(),
            j <= n,
            r@.len() == n + 1,
            p@.len() > 0,
            p@[0] == c,
            after@.len() == n + 1,
            forall|i: int|
                0 <= i <= n ==> #[trigger] after@[i] == glob(p@.drop_first(), v@.skip(i)),
            forall|i: int| j < i <= n ==> #[trigger] r@[i] == glob(p@, v@.skip(i)),
        ensures
            r@.len() == n + 1,
            forall|i: int| 0 <= i <= n ==> #[trigger] r@[i] == glob(p@, v@.skip(i)),
        decreases j,
    {
        assert(after@[j as int] == glob(p@.drop_first(), v@.skip(j as int)));
        if j < n {
            assert(v@.skip(j as int).drop_first() =~= v@.skip(j + 1));
            assert(r@[j + 1] == glob(p@, v@.skip(j + 1)));
            assert(after@[j + 1] == glob(p@.drop_first(), v@.skip(j + 1)));
            assert(v@.skip(j as int)[0] == v@[j as int]);
        }
        let here = if c == '*' {
            after[j] || (j < n && r[j + 1])
        } else {
            j < n && v[j] == c && after[j + 1]
        };
        assert(here == glob(p@, v@.skip(j as int)));
        r.set(j, here);
        if j == 0 {
            break ;
        }
        j = j - 1;
    }
    r
}

/// Whether a pattern fits the whole of a value.
fn glob_match(p: &[char], v: &[char]) -> (r: bool)
    ensures
        r == glob(p@, v@),
{
    let n = v.len();
    let mut ends: Vec<bool> = Vec::new();
    let mut j: usize = 0;
    while j < n
        invariant
            n == v@.len(),
            j <= n,
            ends@.len() == j,
            forall|i: int| 0 <= i < j ==> !(#[trigger] ends@[i]),
        decreases n - j,
    {
        ends.push(false);
        j = j + 1;
    }
    ends.push(true);
    let mut k = p.len();
    assert(p@.skip(k as int).len() == 0);
    while k > 0
        invariant
            n == v@.len(),
            k <= p@.len(),
            ends@.len() == n + 1,
            forall|i: int|
                0 <= i <= n ==> #[trigger] ends@[i] == glob(p@.skip(k as int), v@.skip(i)),
        decreases k,
    {
        let ghost q = p@.skip(k - 1);
        assert(q.drop_first() =~= p@.skip(k as int));
        ends = glob_step(p[k - 1], v, &ends, Ghost(q));
        k = k - 1;
    }
    assert(p@.skip(0) =~= p@ && v@.skip(0) =~= v@);
    assert(ends@[0] == glob(p@.skip(0), v@.skip(0)));
    ends[0]
}

/// Whether a pattern matches a value, whatever the case: somewhere in it, or,
/// where the pattern holds a `*`, all of it.
pub fn wildcard_match(pattern: &str, value: &str) -> (r: bool)
    ensures
        r == fits(pattern@, value@),
{
    let p = text::to_lower(&text::chars(pattern));
    let v = text::to_lower(&text::chars(value));
    if text::has_char(&p, '*') {
        glob_match(&p, &v)
    } else {
        text::find_in(&v, &p).is_some()
    }
}

proof fn lemma_glob_tail(p: Seq<char>, v: Seq<char>, k: int)
    requires
        p.len() > 0,
        p[0] == '*',
        0 <= k <= v.len(),
        glob(p.drop_first(), v.skip(k)),
    ensures
        glob(p, v),
    decreases k,
{
    if k == 0 {
        assert(v.skip(0) =~= v);
    } else {
        assert(v.drop_first().skip(k - 1) =~= v.skip(k));
        lemma_glob_tail(p, v.drop_first(), k - 1);
    }
}

pub(crate) proof fn lemma_glob_literal(p: Seq<char>, v: Seq<char>)
    requires
        !p.contains('*'),
    ensures
        glob(p, v) == (p == v),
    decreases p.len(),
{
    if p.len() > 0 {
        assert(p[0] != '*');
        assert forall|i: int| 0 <= i < p.drop_first().len() implies p.drop_first()[i] != '*' by {
            assert(p.drop_first()[i] == p[i + 1]);
        }
        if v.len() > 0 {
            lemma_glob_literal(p.drop_first(), v.drop_first());
            if p.drop_first() == v.drop_first() && p[0] == v[0] {
                assert(p =~= seq![p[0]] + p.drop_first());
                assert(v =~= seq![v[0]] + v.drop_first());
            }
        }
    } else {
        assert(glob(p, v) == (p =~= v));
    }
}

/// A pattern that is one `*` at its end fits exactly what begins with the rest.
pub proof fn law_a_final_star_matches_prefixes(p: Seq<char>, v: Seq<char>)
    requires
        !p.contains('*'),
    ensures
        glob(p.push('*'), v) == p.is_prefix_of(v),
    decreases p.len(),
{
    let q = p.push('*');
    if p.len() == 0 {
        assert(q.drop_first() =~= Seq::<char>::empty());
        assert(v.skip(v.len() as int) =~= Seq::<char>::empty());
        lemma_glob_tail(q, v, v.len() as int);
        assert(v.subrange(0, 0) =~= p);
    } else {
        assert(q[0] == p[0] && p[0] != '*');
        assert(q.drop_first() =~= p.drop_first().push('*'));
        assert forall|i: int| 0 <= i < p.drop_first().len() implies p.drop_first()[i] != '*' by {
            assert(p.drop_first()[i] == p[i + 1]);
        }
        if v.len() > 0 {
            law_a_final_star_matches_prefixes(p.drop_first(), v.drop_first());
            let a = p.drop_first();
            let b = v.drop_first();
            if a.is_prefix_of(b) && v[0] == p[0] {
                assert forall|i: int| 0 <= i < p.len() implies p[i] == v.subrange(
                    0,
                    p.len() as int,
                )[i] by {
                    if i > 0 {
                        assert(a[i - 1] == b.subrange(0, a.len() as int)[i - 1]);
                    }
                }
                assert(p =~= v.subrange(0, p.len() as int));
            }
            if p.is_prefix_of(v) {
                assert forall|i: int| 0 <= i < a.len() implies a[i] == b.subrange(
                    0,
                    a.len() as int,
                )[i] by {
                    assert(p[i + 1] == v.subrange(0, p.len() as int)[i + 1]);
                }
                assert(a =~= b.subrange(0, a.len() as int));
                assert(p[0] == v.subrange(0, p.len() as int)[0]);
            }
        }
    }
}

/// A pattern that is one `*` at its beginning fits exactly what ends with the rest.
pub proof fn law_a_leading_star_matches_suffixes(p: Seq<char>, v: Seq<char>)
    requires
        !p.contains('*'),
    ensures
        glob(seq!['*'] + p, v) == p.is_suffix_of(v),
    decreases v.len(),
{
    let q = seq!['*'] + p;
    assert(q.drop_first() =~= p);
    lemma_glob_literal(p, v);
    if v.len() > 0 {
        law_a_leading_star_matches_suffixes(p, v.drop_first());
        if p.is_suffix_of(v) && p.len() < v.len() {
            assert(v.drop_first().subrange(
                (v.drop_first().len() - p.len()) as int,
                v.drop_first().len() as int,
            ) =~= v.subrange((v.len() - p.len()) as int, v.len() as int));
        } else if p.is_suffix_of(v) {
            assert(v.subrange(0, v.len() as int) =~= v);
        }
        if p.is_suffix_of(v.drop_first()) {
            assert(v.drop_first().subrange(
                (v.drop_first().len() - p.len()) as int,
                v.drop_first().len() as int,
            ) =~= v.subrange((v.len() - p.len()) as int, v.len() as int));
        }
    }
    if p == v {
        assert(v.subrange(0, v.len() as int) =~= v);
    }
    if v.len() == 0 && p.is_suffix_of(v) {
        assert(p =~= v);
    }
}

// -- lines ---------------------------------------------------------------------------

/// One line of a log, with the step it belongs to and how severe it is.
#[derive(Debug, PartialEq)]
pub struct ParsedLine {
    pub line_no: usize,
    pub step_name: Option<String>,
    pub level: &'static str,
    pub message: String,
}

pub ghost struct LineView {
    pub line_no: nat,
    pub step: Option<Seq<char>>,
    pub level: Seq<char>,
    pub message: Seq<char>,
}

impl ParsedLine {
    pub open spec fn view(&self) -> LineView {
        LineView {
            line_no: self.line_no as nat,
            step: text::opt_text(self.step_name),
            level: self.level@,
            message: self.message@,
        }
    }
}

pub open spec fn line_views(lines: Seq<ParsedLine>) -> Seq<LineView> {
    lines.map_values(|l: ParsedLine| l@)
}

/// A line, in lower case, that speaks of an error.
pub open spec fn is_error(line: Seq<char>) -> bool {
    text::contains(line, "##[error"@) || text::contains(line, " error"@) || text::contains(
        line,
        "fatal"@,
    ) || text::contains(line, "failed"@) || text::contains(line, "failure"@) || text::contains(
        line,
        "exception"@,
    ) || text::contains(line, "panic"@)
}

/// How severe a line is.
pub open spec fn severity(line: Seq<char>) -> Seq<char> {
    let l = text::lower(line);
    if is_error(l) {
        "error"@
    } else if text::contains(l, "##[warning"@) || text::contains(l, "warn"@) {
        "warn"@
    } else if text::contains(l, "debug"@) {
        "debug"@
    } else {
        "info"@
    }
}

/// How severe a line is.
pub fn classify(line: &str) -> (r: &'static str)
    ensures
        r@ == severity(line@),
{
    let l = text::to_lower(&text::chars(line));
    if text::has(&l, "##[error") || text::has(&l, " error") || text::has(&l, "fatal") || text::has(
        &l,
        "failed",
    ) || text::has(&l, "failure") || text::has(&l, "exception") || text::has(&l, "panic") {
        "error"
    } else if text::has(&l, "##[warning") || text::has(&l, "warn") {
        "warn"
    } else if text::has(&l, "debug") {
        "debug"
    } else {
        "info"
    }
}

/// What follows the first occurrence of a marker, trimmed, unless that is nothing.
pub open spec fn named_after(line: Seq<char>, marker: Seq<char>) -> Option<Seq<char>> {
    match text::find(line, marker) {
        None => None,
        Some(i) => {
            let rest = text::trim(line.skip(i + marker.len()));
            if rest.len() == 0 {
                None
            } else {
                Some(rest)
            }
        },
    }
}

/// What follows the first occurrence of a marker, trimmed, unless that is nothing.
pub fn after_marker(line: &str, marker: &str) -> (r: Option<String>)
    ensures
        text::opt_text(r) == named_after(line@, marker@),
{
    let l = text::chars(line);
    let m = text::chars(marker);
    match text::find_in(&l, &m) {
        None => None,
        Some(i) => {
            let n = l.len();
            assert(i + m@.len() <= n);
            let tail = vstd::slice::slice_subrange(&l, i + m.len(), n);
            assert(tail@ =~= l@.skip(i + m@.len()));
            let rest = text::trimmed(tail);
            if rest.len() == 0 {
                None
            } else {
                Some(text::string(rest))
            }
        },
    }
}

/// Where in a log a line stands: in a named step, and in groups.
pub ghost struct Place {
    pub step: Option<Seq<char>>,
    pub groups: Seq<Seq<char>>,
}

/// Where a line stands that comes to `place`: it may start a step or a group.
pub open spec fn entered(place: Place, line: Seq<char>) -> Place {
    let step = named_after(line, "Starting: "@);
    let group = named_after(line, "##[group]"@);
    Place {
        step: if step is Some {
            step
        } else {
            place.step
        },
        groups: match group {
            Some(g) => place.groups.push(g),
            None => place.groups,
        },
    }
}

/// Where the line after one that stands at `place` comes to: that one may end
/// a group or a step.
pub open spec fn left(place: Place, line: Seq<char>) -> Place {
    Place {
        step: if text::contains(line, "Finishing: "@) {
            None
        } else {
            place.step
        },
        groups: if text::contains(line, "##[endgroup]"@) && place.groups.len() > 0 {
            place.groups.drop_last()
        } else {
            place.groups
        },
    }
}

/// Where the line after the given ones comes to.
pub open spec fn place_after(lines: Seq<Seq<char>>) -> Place
    decreases lines.len(),
{
    if lines.len() == 0 {
        Place { step: None, groups: Seq::empty() }
    } else {
        left(entered(place_after(lines.drop_last()), lines.last()), lines.last())
    }
}

/// The step at a place: the named one, else the outermost group.
pub open spec fn step_at(place: Place) -> Option<Seq<char>> {
    if place.step is Some {
        place.step
    } else if place.groups.len() > 0 {
        Some(place.groups[0])
    } else {
        None
    }
}

/// The line at position `i`.
pub open spec fn line_at(lines: Seq<Seq<char>>, i: int) -> LineView {
    LineView {
        line_no: (i + 1) as nat,
        step: step_at(entered(place_after(lines.take(i)), lines[i])),
        level: severity(lines[i]),
        message: lines[i],
    }
}

/// The lines of a log, with their steps.
pub open spec fn parsed_lines(log: Seq<char>) -> Seq<LineView> {
    let lines = text::lines(log);
    Seq::new(lines.len(), |i: int| line_at(lines, i))
}

/// The lines of a log, with their steps.
pub fn parse_lines(log: &str) -> (r: Vec<ParsedLine>)
    ensures
        line_views(r@) == parsed_lines(log@),
{
    let lines = text::to_lines(&text::chars(log));
    let ghost all = text::pieces(lines@);
    let mut named: Option<String> = None;
    let mut groups: Vec<String> = Vec::new();
    let mut out: Vec<ParsedLine> = Vec::new();
    assert(text::texts(groups@) =~= Seq::empty());
    for i in 0..lines.len()
        invariant
            all == text::pieces(lines@),
            out@.len() == i,
            forall|k: int| 0 <= k < i ==> (#[trigger] out@[k])@ == line_at(all, k),
            text::opt_text(named) == place_after(all.take(i as int)).step,
            text::texts(groups@) == place_after(all.take(i as int)).groups,
    {
        let ghost before = place_after(all.take(i as int));
        let line = text::string(&lines[i]);
        assert(all[i as int] == line@);
        assert(all.take(i + 1).drop_last() =~= all.take(i as int));
        assert(all.take(i + 1).last() == line@);
        let step = after_marker(line.as_str(), "Starting: ");
        if step.is_some() {
            named = step;
        }
        if let Some(group) = after_marker(line.as_str(), "##[group]") {
            let ghost was = groups@;
            groups.push(group);
            assert(text::texts(groups@) =~= text::texts(was).push(group@));
        }
        let ghost here = entered(before, line@);
        assert(text::opt_text(named) == here.step);
        assert(text::texts(groups@) == here.groups);
        let step_name = if named.is_some() {
            text::clone_opt(&named)
        } else if groups.len() > 0 {
            assert(text::texts(groups@)[0] == groups@[0]@);
            Some(groups[0].clone())
        } else {
            None
        };
        let level = classify(line.as_str());
        let message = text::chars(line.as_str());
        out.push(ParsedLine { line_no: i + 1, step_name, level, message: line });
        assert(out@[i as int]@ == line_at(all, i as int));
        if text::has(&message, "##[endgroup]") {
            let ghost was = groups@;
            let _ = groups.pop();
            proof {
                if was.len() > 0 {
                    assert(text::texts(groups@) =~= text::texts(was).drop_last());
                }
            }
        }
        if text::has(&message, "Finishing: ") {
            named = None;
        }
    }
    assert(line_views(out@) =~= parsed_lines(log@));
    out
}

/// Lines are numbered from one, in order, and none is lost or changed.
pub proof fn law_lines_are_numbered_in_order(log: Seq<char>)
    ensures
        parsed_lines(log).len() == text::lines(log).len(),
        forall|i: int|
            0 <= i < text::lines(log).len() ==> (#[trigger] parsed_lines(log)[i]).line_no == i + 1
                && parsed_lines(log)[i].message == text::lines(log)[i],
{
}

// -- conditions ------------------------------------------------------------------------

/// A property of a job, or of one of its lines.
pub open spec fn property_of(job: Job, line: Option<LineView>, key: Seq<char>) -> Seq<char> {
    if key == "repo"@ {
        job.repo@
    } else if key == "workflow"@ {
        agent::text_or(job.workflow, ""@)
    } else if key == "job"@ || key == "job_name"@ {
        agent::text_or(job.job_name, ""@)
    } else if key == "branch"@ {
        agent::text_or(job.head_branch, ""@)
    } else if key == "step"@ {
        match line {
            Some(l) => match l.step {
                Some(s) => s,
                None => ""@,
            },
            None => ""@,
        }
    } else if key == "level"@ {
        match line {
            Some(l) => l.level,
            None => ""@,
        }
    } else {
        ""@
    }
}

pub open spec fn opt_line(line: Option<&ParsedLine>) -> Option<LineView> {
    match line {
        Some(l) => Some(l@),
        None => None,
    }
}

fn str_or_empty<'a>(o: &'a Option<String>) -> (r: &'a str)
    ensures
        r@ == agent::text_or(*o, ""@),
{
    match o {
        Some(s) => s.as_str(),
        None => "",
    }
}

fn property<'a>(job: &'a Job, line: Option<&'a ParsedLine>, key: &str) -> (r: &'a str)
    ensures
        r@ == property_of(*job, opt_line(line), key@),
{
    if text::same_str(key, "repo") {
        job.repo.as_str()
    } else if text::same_str(key, "workflow") {
        str_or_empty(&job.workflow)
    } else if text::same_str(key, "job") || text::same_str(key, "job_name") {
        str_or_empty(&job.job_name)
    } else if text::same_str(key, "branch") {
        str_or_empty(&job.head_branch)
    } else if text::same_str(key, "step") {
        match line {
            Some(l) => str_or_empty(&l.step_name),
            None => "",
        }
    } else if text::same_str(key, "level") {
        match line {
            Some(l) => l.level,
            None => "",
        }
    } else {
        ""
    }
}

/// Condition `q` asks for the property that condition `p` does, and is met.
pub open spec fn met_by(job: Job, line: Option<LineView>, p: PropertyView, q: PropertyView) -> bool {
    q.key == p.key && !q.negated && fits(q.pattern, property_of(job, line, p.key))
}

/// A condition is met: a negated one if its pattern does not match, another if
/// one of the patterns that are asked of its property does.
pub open spec fn holds(
    job: Job,
    line: Option<LineView>,
    props: Seq<PropertyView>,
    i: int,
) -> bool {
    if props[i].negated {
        !fits(props[i].pattern, property_of(job, line, props[i].key))
    } else {
        exists|k: int| 0 <= k < props.len() && #[trigger] met_by(job, line, props[i], props[k])
    }
}

/// Every condition is met.
pub open spec fn all_hold(job: Job, line: Option<LineView>, props: Seq<PropertyView>) -> bool {
    forall|i: int| 0 <= i < props.len() ==> #[trigger] holds(job, line, props, i)
}

fn property_holds(job: &Job, line: Option<&ParsedLine>, properties: &Vec<Property>, i: usize) -> (r:
    bool)
    requires
        i < properties@.len(),
    ensures
        r == holds(*job, opt_line(line), property_views(properties@), i as int),
{
    let ghost props = property_views(properties@);
    let p = &properties[i];
    let value = property(job, line, p.key.as_str());
    if p.negated {
        return !wildcard_match(p.pattern.as_str(), value);
    }
    for k in 0..properties.len()
        invariant
            i < properties@.len(),
            props == property_views(properties@),
            p@ == props[i as int],
            value@ == property_of(*job, opt_line(line), p@.key),
            !p.negated,
            forall|j: int|
                0 <= j < k ==> !(#[trigger] met_by(
                    *job,
                    opt_line(line),
                    props[i as int],
                    props[j],
                )),
    {
        let q = &properties[k];
        assert(q@ == props[k as int]);
        if text::same_str(q.key.as_str(), p.key.as_str()) && !q.negated && wildcard_match(
            q.pattern.as_str(),
            value,
        ) {
            assert(met_by(*job, opt_line(line), props[i as int], props[k as int]));
            return true;
        }
    }
    false
}

/// Whether a job, or one of its lines, meets every condition of a query.
pub fn properties_match(job: &Job, line: Option<&ParsedLine>, parts: &QueryParts) -> (r: bool)
    ensures
        r == all_hold(*job, opt_line(line), parts@.properties),
{
    for i in 0..parts.properties.len()
        invariant
            forall|j: int|
                0 <= j < i ==> #[trigger] holds(*job, opt_line(line), parts@.properties, j),
    {
        if !property_holds(job, line, &parts.properties, i) {
            assert(!holds(*job, opt_line(line), parts@.properties, i as int));
            return false;
        }
    }
    true
}

/// Several values for one property are alternatives: where no condition is
/// negated and all ask for one property, one that matches is enough.
pub proof fn law_values_of_a_property_are_alternatives(
    job: Job,
    line: Option<LineView>,
    props: Seq<PropertyView>,
    k: int,
)
    requires
        0 <= k < props.len(),
        forall|i: int|
            0 <= i < props.len() ==> !(#[trigger] props[i]).negated && props[i].key == props[k].key,
        fits(props[k].pattern, property_of(job, line, props[k].key)),
    ensures
        all_hold(job, line, props),
{
    assert forall|i: int| 0 <= i < props.len() implies #[trigger] holds(job, line, props, i) by {
        assert(!props[i].negated && props[i].key == props[k].key);
        assert(!props[k].negated);
        assert(met_by(job, line, props[i], props[k]));
    }
}

// -- searching --------------------------------------------------------------------------

/// A condition that is given apart from the query.
pub open spec fn given(key: Seq<char>, value: Option<String>) -> Seq<PropertyView> {
    match value {
        Some(v) => seq![PropertyView { key, pattern: v@, negated: false }],
        None => Seq::empty(),
    }
}

/// The conditions that are given apart from the query.
pub open spec fn all_given(q: SearchQuery) -> Seq<PropertyView> {
    given("repo"@, q.repo) + given("workflow"@, q.workflow) + given("job_name"@, q.job_name)
        + given("branch"@, q.branch) + given("step"@, q.step) + given("level"@, q.level)
}

fn add_given(properties: &mut Vec<Property>, key: &str, value: &Option<String>)
    ensures
        property_views(final(properties)@) == property_views(old(properties)@) + given(key@, *value),
{
    let ghost before = properties@;
    if let Some(v) = value {
        let p = Property { key: key.to_string(), pattern: v.clone(), negated: false };
        properties.push(p);
        assert(property_views(properties@) =~= property_views(before).push(p@));
    }
    assert(property_views(properties@) =~= property_views(before) + given(key@, *value));
}

/// Adds the conditions that are given apart from the query.
pub fn add_explicit_properties(parts: &mut QueryParts, query: &SearchQuery)
    ensures
        final(parts)@ == (PartsView {
            properties: old(parts)@.properties + all_given(*query),
            ..old(parts)@
        }),
{
    let ghost before = parts@;
    add_given(&mut parts.properties, "repo", &query.repo);
    add_given(&mut parts.properties, "workflow", &query.workflow);
    add_given(&mut parts.properties, "job_name", &query.job_name);
    add_given(&mut parts.properties, "branch", &query.branch);
    add_given(&mut parts.properties, "step", &query.step);
    add_given(&mut parts.properties, "level", &query.level);
    assert(parts@.properties =~= before.properties + all_given(*query));
}

/// The conditions that are on jobs rather than on lines.
pub open spec fn on_jobs() -> spec_fn(PropertyView) -> bool {
    |p: PropertyView| p.key != "step"@ && p.key != "level"@
}

fn job_conditions(parts: &QueryParts) -> (r: QueryParts)
    ensures
        r@.properties == parts@.properties.filter(on_jobs()),
{
    let ghost all = parts@.properties;
    let mut r: Vec<Property> = Vec::new();
    assert(property_views(r@) =~= all.take(0).filter(on_jobs())) by {
        reveal(Seq::filter);
    }
    for i in 0..parts.properties.len()
        invariant
            all == property_views(parts.properties@),
            property_views(r@) == all.take(i as int).filter(on_jobs()),
    {
        proof {
            order::lemma_filter_step(all, on_jobs(), i as int);
        }
        let p = &parts.properties[i];
        assert(all[i as int] == p@);
        if !text::same_str(p.key.as_str(), "step") && !text::same_str(p.key.as_str(), "level") {
            let ghost before = r@;
            let q = Property {
                key: p.key.clone(),
                pattern: p.pattern.clone(),
                negated: p.negated,
            };
            r.push(q);
            assert(property_views(r@) =~= property_views(before).push(q@));
        }
    }
    assert(all.take(all.len() as int) =~= all);
    QueryParts { included: Vec::new(), excluded: Vec::new(), properties: r }
}

/// A job whose log is searched: it completed within the window, meets the
/// conditions on jobs, and its log can be read.
pub open spec fn is_scanned(
    job: Job,
    archive: Archive,
    props: Seq<PropertyView>,
    cutoff: Option<int>,
) -> bool {
    let completed = match job.completed_at {
        Some(t) => t as int,
        None => 0,
    };
    &&& cutoff is Some ==> completed >= cutoff->0
    &&& all_hold(job, None, props.filter(on_jobs()))
    &&& agent::worker_log(job, archive) is Ok
}

/// A line that is found.
pub open spec fn is_found(job: Job, line: LineView, p: PartsView) -> bool {
    let message = text::lower(line.message);
    &&& all_hold(job, Some(line), p.properties)
    &&& forall|i: int|
        0 <= i < p.included.len() ==> text::contains(message, #[trigger] p.included[i])
    &&& forall|i: int|
        0 <= i < p.excluded.len() ==> !text::contains(message, #[trigger] p.excluded[i])
}

/// What is found among the first `n` lines of the job at position `j`: the
/// positions of the job and of the line.
pub open spec fn line_hits(
    j: int,
    job: Job,
    lines: Seq<LineView>,
    p: PartsView,
    n: int,
) -> Seq<(int, int)>
    decreases n,
{
    if n <= 0 {
        Seq::empty()
    } else {
        let before = line_hits(j, job, lines, p, n - 1);
        if is_found(job, lines[n - 1], p) {
            before.push((j, n - 1))
        } else {
            before
        }
    }
}

/// The lines of a job whose log can be read.
pub open spec fn job_lines(job: Job, archive: Archive) -> Seq<LineView> {
    parsed_lines(agent::worker_log(job, archive)->Ok_0)
}

/// What is found in the logs of the first `n` jobs.
pub open spec fn hits(
    jobs: Seq<Job>,
    archive: Archive,
    p: PartsView,
    cutoff: Option<int>,
    n: int,
) -> Seq<(int, int)>
    decreases n,
{
    if n <= 0 {
        Seq::empty()
    } else {
        let before = hits(jobs, archive, p, cutoff, n - 1);
        let job = jobs[n - 1];
        if is_scanned(job, archive, p.properties, cutoff) {
            let lines = job_lines(job, archive);
            before + line_hits(n - 1, job, lines, p, lines.len() as int)
        } else {
            before
        }
    }
}

/// How many of the first `n` jobs are searched.
pub open spec fn scanned(
    jobs: Seq<Job>,
    archive: Archive,
    props: Seq<PropertyView>,
    cutoff: Option<int>,
    n: int,
) -> nat
    decreases n,
{
    if n <= 0 {
        0
    } else {
        scanned(jobs, archive, props, cutoff, n - 1) + if is_scanned(
            jobs[n - 1],
            archive,
            props,
            cutoff,
        ) {
            1nat
        } else {
            0
        }
    }
}

/// A line that was found, with its job and its step.
#[derive(Debug)]
pub struct SearchHit {
    pub gh_job_id: i64,
    pub repo: String,
    pub workflow: Option<String>,
    pub job_name: Option<String>,
    pub branch: Option<String>,
    pub conclusion: Option<String>,
    pub completed_at: Option<i64>,
    pub html_url: Option<String>,
    pub line_no: usize,
    pub step_name: Option<String>,
    pub level: &'static str,
    pub message: String,
}

/// `h` is a line of a job.
pub open spec fn is_hit(h: SearchHit, job: Job, line: LineView) -> bool {
    &&& h.gh_job_id == job.gh_job_id
    &&& h.repo == job.repo
    &&& h.workflow == job.workflow
    &&& h.job_name == job.job_name
    &&& h.branch == job.head_branch
    &&& h.conclusion == job.conclusion
    &&& h.completed_at == job.completed_at
    &&& h.html_url == job.html_url
    &&& h.line_no == line.line_no
    &&& text::opt_text(h.step_name) == line.step
    &&& h.level@ == line.level
    &&& h.message@ == line.message
}

/// What a search found.
#[derive(Debug)]
pub struct SearchReport {
    pub query: Option<String>,
    pub window: String,
    pub scanned_jobs: usize,
    pub matches: u128,
    pub truncated: bool,
    pub results: Vec<SearchHit>,
}

/// How many results a search lists at most.
pub open spec fn result_limit(limit: Option<usize>) -> int {
    match limit {
        None => 100,
        Some(n) => if n < 1 {
            1
        } else if n > 1_000 {
            1_000
        } else {
            n as int
        },
    }
}

/// `results` are the first of what is found.
pub open spec fn listed(
    results: Seq<SearchHit>,
    jobs: Seq<Job>,
    archive: Archive,
    found: Seq<(int, int)>,
    limit: int,
) -> bool {
    &&& results.len() == if found.len() < limit {
        found.len() as int
    } else {
        limit
    }
    &&& forall|i: int|
        0 <= i < results.len() ==> is_hit(
            #[trigger] results[i],
            jobs[found[i].0],
            job_lines(jobs[found[i].0], archive)[found[i].1],
        )
}

/// The query as it is searched: what its text says and what is given apart from it.
pub open spec fn full_query(p: PartsView, query: SearchQuery) -> PartsView {
    PartsView { properties: p.properties + all_given(query), ..p }
}

/// The window that is searched, in words.
pub open spec fn window_text(query: SearchQuery) -> Seq<char> {
    agent::text_or(query.since, "30d"@)
}

/// Where a window begins.
pub open spec fn cutoff_of(now: i64, seconds: Option<int>) -> Option<int> {
    match seconds {
        Some(s) => Some(now - s * 1_000_000),
        None => None,
    }
}

/// `r` reports on the logs of `jobs`.
pub open spec fn reported(
    r: SearchReport,
    jobs: Seq<Job>,
    archive: Archive,
    query: SearchQuery,
    p: PartsView,
    cutoff: Option<int>,
) -> bool {
    let n = jobs.len() as int;
    let found = hits(jobs, archive, p, cutoff, n);
    &&& r.query == query.q
    &&& r.window@ == window_text(query)
    &&& r.scanned_jobs == scanned(jobs, archive, p.properties, cutoff, n)
    &&& r.matches == found.len()
    &&& r.truncated == (found.len() > r.results@.len())
    &&& listed(r.results@, jobs, archive, found, result_limit(query.limit))
}

/// `r` is what a search of the journal's jobs comes to.
pub open spec fn searched(
    r: Result<SearchReport, SearchError>,
    all: Seq<Job>,
    archive: Archive,
    query: SearchQuery,
    now: i64,
) -> bool {
    match parsed_query(agent::text_or(query.q, ""@)) {
        None => r == Err::<SearchReport, SearchError>(SearchError::UnterminatedQuote),
        Some(p) => match window(window_text(query)) {
            Err(e) => r == Err::<SearchReport, SearchError>(e),
            Ok(w) => {
                &&& r is Ok
                &&& exists|jobs: Seq<Job>|
                    {
                        &&& #[trigger] store::newest_first(
                            jobs,
                            all.filter(store::logged_job()),
                            10_000,
                        )
                        &&& reported(
                            r->Ok_0,
                            jobs,
                            archive,
                            query,
                            full_query(p, query),
                            cutoff_of(now, w),
                        )
                    }
            },
        },
    }
}

/// Whether a line is found: it meets the conditions, and its message holds what
/// it must and nothing that it must not.
pub fn line_found(job: &Job, line: &ParsedLine, parts: &QueryParts) -> (r: bool)
    ensures
        r == is_found(*job, line@, parts@),
{
    if !properties_match(job, Some(line), parts) {
        return false;
    }
    let message = text::to_lower(&text::chars(line.message.as_str()));
    for i in 0..parts.included.len()
        invariant
            message@ == text::lower(line@.message),
            forall|k: int|
                0 <= k < i ==> text::contains(message@, #[trigger] parts@.included[k]),
    {
        assert(parts@.included[i as int] == parts.included@[i as int]@);
        if !text::has(&message, parts.included[i].as_str()) {
            return false;
        }
    }
    for i in 0..parts.excluded.len()
        invariant
            message@ == text::lower(line@.message),
            forall|k: int|
                0 <= k < i ==> !text::contains(message@, #[trigger] parts@.excluded[k]),
    {
        assert(parts@.excluded[i as int] == parts.excluded@[i as int]@);
        if text::has(&message, parts.excluded[i].as_str()) {
            return false;
        }
    }
    true
}

fn hit(job: &Job, line: &ParsedLine) -> (r: SearchHit)
    ensures
        is_hit(r, *job, line@),
{
    SearchHit {
        gh_job_id: job.gh_job_id,
        repo: job.repo.clone(),
        workflow: text::clone_opt(&job.workflow),
        job_name: text::clone_opt(&job.job_name),
        branch: text::clone_opt(&job.head_branch),
        conclusion: text::clone_opt(&job.conclusion),
        completed_at: job.completed_at,
        html_url: text::clone_opt(&job.html_url),
        line_no: line.line_no,
        step_name: text::clone_opt(&line.step_name),
        level: line.level,
        message: line.message.clone(),
    }
}

/// Searches the log of the job at position `j`.
fn search_job(
    jobs: &Vec<Job>,
    archive: &Archive,
    parts: &QueryParts,
    j: usize,
    log: &str,
    limit: usize,
    results: &mut Vec<SearchHit>,
    matches: u128,
    found: Ghost<Seq<(int, int)>>,
) -> (r: u128)
    requires
        j < jobs@.len(),
        agent::worker_log(jobs@[j as int], *archive) == Ok::<Seq<char>, AgentError>(log@),
        listed(old(results)@, jobs@, *archive, found@, limit as int),
        matches == found@.len(),
        matches + usize::MAX <= u128::MAX,
    ensures
        ({
            let job = jobs@[j as int];
            let lines = job_lines(job, *archive);
            let more = found@ + line_hits(j as int, job, lines, parts@, lines.len() as int);
            &&& r == more.len()
            &&& r <= matches + usize::MAX
            &&& listed(final(results)@, jobs@, *archive, more, limit as int)
        }),
{
    let job = &jobs[j];
    let lines = parse_lines(log);
    let ghost views = job_lines(*job, *archive);
    assert(views == line_views(lines@));
    let mut total = matches;
    assert(found@ + line_hits(j as int, *job, views, parts@, 0) =~= found@);
    for i in 0..lines.len()
        invariant
            j < jobs@.len(),
            *job == jobs@[j as int],
            views == job_lines(*job, *archive),
            views == line_views(lines@),
            matches + usize::MAX <= u128::MAX,
            total == (found@ + line_hits(j as int, *job, views, parts@, i as int)).len(),
            total <= matches + i,
            listed(
                results@,
                jobs@,
                *archive,
                found@ + line_hits(j as int, *job, views, parts@, i as int),
                limit as int,
            ),
    {
        let line = &lines[i];
        assert(views[i as int] == line@);
        let ghost before = found@ + line_hits(j as int, *job, views, parts@, i as int);
        let ghost after = found@ + line_hits(j as int, *job, views, parts@, i + 1);
        if line_found(job, line, parts) {
            assert(after =~= before.push((j as int, i as int)));
            total = total + 1;
            if results.len() < limit {
                let ghost was = results@;
                let h = hit(job, line);
                results.push(h);
                assert forall|k: int| 0 <= k < results@.len() implies is_hit(
                    #[trigger] results@[k],
                    jobs@[after[k].0],
                    job_lines(jobs@[after[k].0], *archive)[after[k].1],
                ) by {
                    if k < was.len() {
                        assert(results@[k] == was[k]);
                        assert(after[k] == before[k]);
                    }
                }
            } else {
                assert forall|k: int| 0 <= k < results@.len() implies is_hit(
                    #[trigger] results@[k],
                    jobs@[after[k].0],
                    job_lines(jobs@[after[k].0], *archive)[after[k].1],
                ) by {
                    assert(after[k] == before[k]);
                }
            }
        } else {
            assert(after =~= before);
        }
    }
    total
}

/// Searches captured logs: the newest ten thousand jobs with logs, as far as
/// they lie in the window and meet the conditions, newest first, line by line.
pub fn search(store: &Store, archive: &Archive, query: &SearchQuery, now: i64) -> (r: Result<
    SearchReport,
    SearchError,
>)
    ensures
        searched(r, store.jobs@, *archive, *query, now),
{
    let mut parts = match parse_query(str_or_empty(&query.q)) {
        Ok(parts) => parts,
        Err(e) => return Err(e),
    };
    let ghost p = parts@;
    add_explicit_properties(&mut parts, query);
    assert(parts@ =~= full_query(p, *query));
    let words = match &query.since {
        Some(s) => s.clone(),
        None => "30d".to_string(),
    };
    let seconds = match window_seconds(words.as_str()) {
        Ok(seconds) => seconds,
        Err(e) => return Err(e),
    };
    let limit = match query.limit {
        None => 100,
        Some(n) => if n < 1 {
            1
        } else if n > 1_000 {
            1_000
        } else {
            n
        },
    };
    let ghost cutoff = cutoff_of(
        now,
        match seconds {
            Some(s) => Some(s as int),
            None => None,
        },
    );
    let on_job = job_conditions(&parts);
    let jobs = store.jobs_with_logs(10_000);
    let mut results: Vec<SearchHit> = Vec::new();
    let mut scanned_jobs: usize = 0;
    let mut matches: u128 = 0;
    for j in 0..jobs.len()
        invariant
            limit == result_limit(query.limit),
            jobs@.len() <= 10_000,
            on_job@.properties == parts@.properties.filter(on_jobs()),
            cutoff == cutoff_of(
                now,
                match seconds {
                    Some(s) => Some(s as int),
                    None => None,
                },
            ),
            scanned_jobs <= j,
            scanned_jobs == scanned(jobs@, *archive, parts@.properties, cutoff, j as int),
            matches <= j * usize::MAX,
            matches == hits(jobs@, *archive, parts@, cutoff, j as int).len(),
            listed(
                results@,
                jobs@,
                *archive,
                hits(jobs@, *archive, parts@, cutoff, j as int),
                limit as int,
            ),
    {
        let job = &jobs[j];
        assert(j * usize::MAX <= 10_000 * usize::MAX && (j + 1) * usize::MAX == j * usize::MAX
            + usize::MAX) by (nonlinear_arith)
            requires
                j < 10_000,
        ;
        let completed = match job.completed_at {
            Some(t) => t,
            None => 0,
        };
        let expired = match seconds {
            Some(s) => clock::older(completed, now, s),
            None => false,
        };
        if !expired && properties_match(job, None, &on_job) {
            if let Ok(log) = agent::read_worker_logs(job, archive) {
                scanned_jobs = scanned_jobs + 1;
                matches =
                search_job(
                    &jobs,
                    archive,
                    &parts,
                    j,
                    log.as_str(),
                    limit,
                    &mut results,
                    matches,
                    Ghost(hits(jobs@, *archive, parts@, cutoff, j as int)),
                );
            }
        }
    }
    let truncated = matches > results.len() as u128;
    let report = SearchReport {
        query: text::clone_opt(&query.q),
        window: words,
        scanned_jobs,
        matches,
        truncated,
        results,
    };
    assert(store::newest_first(jobs@, store.jobs@.filter(store::logged_job()), 10_000));
    Ok(report)
}

// -- suggestions ------------------------------------------------------------------------

/// Values that make the query language discoverable.
#[derive(Debug)]
pub struct Suggestions {
    pub indexed_jobs: usize,
    pub indexed_lines: u128,
    pub repos: Vec<String>,
    pub workflows: Vec<String>,
    pub job_names: Vec<String>,
    pub branches: Vec<String>,
    pub steps: Vec<String>,
    pub levels: Vec<&'static str>,
}

proof fn lemma_line_hits(j: int, job: Job, lines: Seq<LineView>, p: PartsView, n: int)
    requires
        n <= lines.len(),
    ensures
        forall|i: int|
            0 <= i < line_hits(j, job, lines, p, n).len() ==> ({
                let hit = #[trigger] line_hits(j, job, lines, p, n)[i];
                &&& hit.0 == j
                &&& 0 <= hit.1 < n
                &&& is_found(job, lines[hit.1], p)
            }),
    decreases n,
{
    if n > 0 {
        lemma_line_hits(j, job, lines, p, n - 1);
        let before = line_hits(j, job, lines, p, n - 1);
        let all = line_hits(j, job, lines, p, n);
        assert forall|i: int| 0 <= i < all.len() implies ({
            let hit = #[trigger] all[i];
            &&& hit.0 == j
            &&& 0 <= hit.1 < n
            &&& is_found(job, lines[hit.1], p)
        }) by {
            if i < before.len() {
                assert(all[i] == before[i]);
            }
        }
    }
}

/// What is found lies in a job that is searched.
pub open spec fn lies_in(
    hit: (int, int),
    jobs: Seq<Job>,
    archive: Archive,
    p: PartsView,
    cutoff: Option<int>,
) -> bool {
    &&& 0 <= hit.0 < jobs.len()
    &&& is_scanned(jobs[hit.0], archive, p.properties, cutoff)
    &&& 0 <= hit.1 < job_lines(jobs[hit.0], archive).len()
    &&& is_found(jobs[hit.0], job_lines(jobs[hit.0], archive)[hit.1], p)
}

pub(crate) proof fn lemma_hits(
    jobs: Seq<Job>,
    archive: Archive,
    p: PartsView,
    cutoff: Option<int>,
    n: int,
)
    requires
        n <= jobs.len(),
    ensures
        forall|i: int|
            0 <= i < hits(jobs, archive, p, cutoff, n).len() ==> lies_in(
                #[trigger] hits(jobs, archive, p, cutoff, n)[i],
                jobs,
                archive,
                p,
                cutoff,
            ),
    decreases n,
{
    if n > 0 {
        lemma_hits(jobs, archive, p, cutoff, n - 1);
        let job = jobs[n - 1];
        let lines = job_lines(job, archive);
        lemma_line_hits(n - 1, job, lines, p, lines.len() as int);
        let before = hits(jobs, archive, p, cutoff, n - 1);
        let found = line_hits(n - 1, job, lines, p, lines.len() as int);
        let all = hits(jobs, archive, p, cutoff, n);
        assert forall|i: int| 0 <= i < all.len() implies lies_in(
            #[trigger] all[i],
            jobs,
            archive,
            p,
            cutoff,
        ) by {
            if i < before.len() {
                assert(all[i] == before[i]);
            } else {
                assert(all[i] == found[i - before.len()]);
            }
        }
    }
}

/// Whatever a search lists is a line of a job in the window, and meets every
/// condition of the query.
pub proof fn law_results_match_the_query(
    r: SearchReport,
    jobs: Seq<Job>,
    archive: Archive,
    query: SearchQuery,
    p: PartsView,
    cutoff: Option<int>,
    i: int,
)
    requires
        reported(r, jobs, archive, query, p, cutoff),
        0 <= i < r.results@.len(),
    ensures
        exists|hit: (int, int)|
            #[trigger] lies_in(hit, jobs, archive, p, cutoff) && is_hit(
                r.results@[i],
                jobs[hit.0],
                job_lines(jobs[hit.0], archive)[hit.1],
            ),
{
    let n = jobs.len() as int;
    lemma_hits(jobs, archive, p, cutoff, n);
    let found = hits(jobs, archive, p, cutoff, n);
    assert(lies_in(found[i], jobs, archive, p, cutoff));
    assert(is_hit(
        r.results@[i],
        jobs[found[i].0],
        job_lines(jobs[found[i].0], archive)[found[i].1],
    ));
}

/// A search lists everything that it finds, unless it finds more than it may
/// list: then it says so.
pub proof fn law_only_long_searches_are_truncated(
    r: SearchReport,
    jobs: Seq<Job>,
    archive: Archive,
    query: SearchQuery,
    p: PartsView,
    cutoff: Option<int>,
)
    requires
        reported(r, jobs, archive, query, p, cutoff),
    ensures
        r.results@.len() <= 1_000,
        r.truncated == (r.matches > result_limit(query.limit)),
        !r.truncated ==> r.results@.len() == r.matches,
{
}

/// A job whose captured log can be read.
pub open spec fn is_readable(job: Job, archive: Archive) -> bool {
    agent::worker_log(job, archive) is Ok
}

/// How many of the first `n` jobs can be read.
pub open spec fn readable(jobs: Seq<Job>, archive: Archive, n: int) -> nat
    decreases n,
{
    if n <= 0 {
        0
    } else {
        readable(jobs, archive, n - 1) + if is_readable(jobs[n - 1], archive) {
            1nat
        } else {
            0
        }
    }
}

/// How many lines the first `n` jobs have that can be read.
pub open spec fn readable_lines(jobs: Seq<Job>, archive: Archive, n: int) -> nat
    decreases n,
{
    if n <= 0 {
        0
    } else {
        readable_lines(jobs, archive, n - 1) + if is_readable(jobs[n - 1], archive) {
            job_lines(jobs[n - 1], archive).len()
        } else {
            0
        }
    }
}

/// A set with one more text, unless there is none or it is empty.
pub open spec fn with_value(set: Set<Seq<char>>, value: Option<Seq<char>>) -> Set<Seq<char>> {
    match value {
        Some(v) => if v.len() == 0 {
            set
        } else {
            set.insert(v)
        },
        None => set,
    }
}

/// The values of a property that a query can name, over the first `n` jobs
/// that can be read.
pub open spec fn job_values(jobs: Seq<Job>, archive: Archive, key: Seq<char>, n: int) -> Set<
    Seq<char>,
>
    decreases n,
{
    if n <= 0 {
        Set::empty()
    } else {
        let before = job_values(jobs, archive, key, n - 1);
        if is_readable(jobs[n - 1], archive) {
            with_value(before, Some(property_of(jobs[n - 1], None, key)))
        } else {
            before
        }
    }
}

/// The steps of the first `n` lines.
pub open spec fn line_steps(set: Set<Seq<char>>, lines: Seq<LineView>, n: int) -> Set<Seq<char>>
    decreases n,
{
    if n <= 0 {
        set
    } else {
        with_value(line_steps(set, lines, n - 1), lines[n - 1].step)
    }
}

/// The steps of the first `n` jobs that can be read.
pub open spec fn job_steps(jobs: Seq<Job>, archive: Archive, n: int) -> Set<Seq<char>>
    decreases n,
{
    if n <= 0 {
        Set::empty()
    } else {
        let before = job_steps(jobs, archive, n - 1);
        if is_readable(jobs[n - 1], archive) {
            let lines = job_lines(jobs[n - 1], archive);
            line_steps(before, lines, lines.len() as int)
        } else {
            before
        }
    }
}

/// `v` is a set of texts in ascending order.
pub open spec fn is_listing(v: Seq<Seq<char>>, set: Set<Seq<char>>) -> bool {
    order::strictly_sorted(v) && v.to_set() == set
}

/// `v` is the first two hundred texts of a set in ascending order.
pub open spec fn is_offer(v: Seq<Seq<char>>, set: Set<Seq<char>>) -> bool {
    exists|all: Seq<Seq<char>>|
        {
            &&& #[trigger] is_listing(all, set)
            &&& v == if all.len() > 200 {
                all.take(200)
            } else {
                all
            }
        }
}

/// The first two hundred of some texts.
fn values(v: Vec<String>, set: Ghost<Set<Seq<char>>>) -> (r: Vec<String>)
    requires
        is_listing(text::texts(v@), set@),
    ensures
        is_offer(text::texts(r@), set@),
{
    let ghost all = text::texts(v@);
    assert(is_listing(all, set@));
    let mut r = v;
    if r.len() > 200 {
        r.truncate(200);
        assert(text::texts(r@) =~= all.take(200));
    }
    r
}

fn add_value(v: &mut Vec<String>, value: &str)
    requires
        order::strictly_sorted(text::texts(old(v)@)),
    ensures
        is_listing(
            text::texts(final(v)@),
            with_value(text::texts(old(v)@).to_set(), Some(value@)),
        ),
{
    if text::chars(value).len() > 0 {
        order::insert_text(v, value);
    }
}

/// `r` is what the logs of `jobs` suggest.
pub open spec fn suggested(r: Suggestions, jobs: Seq<Job>, archive: Archive) -> bool {
    let n = jobs.len() as int;
    &&& r.indexed_jobs == readable(jobs, archive, n)
    &&& r.indexed_lines == readable_lines(jobs, archive, n)
    &&& is_offer(text::texts(r.repos@), job_values(jobs, archive, "repo"@, n))
    &&& is_offer(text::texts(r.workflows@), job_values(jobs, archive, "workflow"@, n))
    &&& is_offer(text::texts(r.job_names@), job_values(jobs, archive, "job_name"@, n))
    &&& is_offer(text::texts(r.branches@), job_values(jobs, archive, "branch"@, n))
    &&& is_offer(text::texts(r.steps@), job_steps(jobs, archive, n))
    &&& r.levels@.map_values(|s: &str| s@) == seq!["error"@, "warn"@, "info"@, "debug"@]
}

/// Adds the steps of a log's lines; says how many lines there are.
fn add_steps(steps: &mut Vec<String>, log: &str, set: Ghost<Set<Seq<char>>>) -> (r: usize)
    requires
        is_listing(text::texts(old(steps)@), set@),
    ensures
        r == parsed_lines(log@).len(),
        is_listing(
            text::texts(final(steps)@),
            line_steps(set@, parsed_lines(log@), parsed_lines(log@).len() as int),
        ),
{
    let lines = parse_lines(log);
    let ghost views = parsed_lines(log@);
    for i in 0..lines.len()
        invariant
            views == line_views(lines@),
            is_listing(text::texts(steps@), line_steps(set@, views, i as int)),
    {
        assert(views[i as int] == lines@[i as int]@);
        if let Some(step) = &lines[i].step_name {
            add_value(steps, step.as_str());
        }
    }
    lines.len()
}

/// Values that make the query language discoverable, from the jobs whose
/// captured logs can still be read.
pub fn suggestions(store: &Store, archive: &Archive) -> (r: Suggestions)
    ensures
        exists|jobs: Seq<Job>|
            {
                &&& #[trigger] store::newest_first(
                    jobs,
                    store.jobs@.filter(store::logged_job()),
                    10_000,
                )
                &&& suggested(r, jobs, *archive)
            },
{
    let jobs = store.jobs_with_logs(10_000);
    let mut repos: Vec<String> = Vec::new();
    let mut workflows: Vec<String> = Vec::new();
    let mut job_names: Vec<String> = Vec::new();
    let mut branches: Vec<String> = Vec::new();
    let mut steps: Vec<String> = Vec::new();
    let mut indexed_jobs: usize = 0;
    let mut indexed_lines: u128 = 0;
    assert(text::texts(repos@).to_set() =~= Set::<Seq<char>>::empty());
    assert(text::texts(workflows@).to_set() =~= Set::<Seq<char>>::empty());
    assert(text::texts(job_names@).to_set() =~= Set::<Seq<char>>::empty());
    assert(text::texts(branches@).to_set() =~= Set::<Seq<char>>::empty());
    assert(text::texts(steps@).to_set() =~= Set::<Seq<char>>::empty());
    for j in 0..jobs.len()
        invariant
            jobs@.len() <= 10_000,
            indexed_jobs <= j,
            indexed_jobs == readable(jobs@, *archive, j as int),
            indexed_lines <= j * usize::MAX,
            indexed_lines == readable_lines(jobs@, *archive, j as int),
            is_listing(text::texts(repos@), job_values(jobs@, *archive, "repo"@, j as int)),
            is_listing(text::texts(workflows@), job_values(jobs@, *archive, "workflow"@, j as int)),
            is_listing(text::texts(job_names@), job_values(jobs@, *archive, "job_name"@, j as int)),
            is_listing(text::texts(branches@), job_values(jobs@, *archive, "branch"@, j as int)),
            is_listing(text::texts(steps@), job_steps(jobs@, *archive, j as int)),
    {
        let job = &jobs[j];
        assert(j * usize::MAX <= 10_000 * usize::MAX && (j + 1) * usize::MAX == j * usize::MAX
            + usize::MAX) by (nonlinear_arith)
            requires
                j < 10_000,
        ;
        if let Ok(log) = agent::read_worker_logs(job, archive) {
            indexed_jobs = indexed_jobs + 1;
            add_value(&mut repos, property(job, None, "repo"));
            add_value(&mut workflows, property(job, None, "workflow"));
            add_value(&mut job_names, property(job, None, "job_name"));
            add_value(&mut branches, property(job, None, "branch"));
            let n = add_steps(
                &mut steps,
                log.as_str(),
                Ghost(job_steps(jobs@, *archive, j as int)),
            );
            indexed_lines = indexed_lines + n as u128;
        }
    }
    let ghost n = jobs@.len() as int;
    let mut levels: Vec<&'static str> = Vec::new();
    levels.push("error");
    levels.push("warn");
    levels.push("info");
    levels.push("debug");
    assert(levels@.map_values(|s: &str| s@) =~= seq!["error"@, "warn"@, "info"@, "debug"@]);
    let r = Suggestions {
        indexed_jobs,
        indexed_lines,
        repos: values(repos, Ghost(job_values(jobs@, *archive, "repo"@, n))),
        workflows: values(workflows, Ghost(job_values(jobs@, *archive, "workflow"@, n))),
        job_names: values(job_names, Ghost(job_values(jobs@, *archive, "job_name"@, n))),
        branches: values(branches, Ghost(job_values(jobs@, *archive, "branch"@, n))),
        steps: values(steps, Ghost(job_steps(jobs@, *archive, n))),
        levels,
    };
    assert(store::newest_first(jobs@, store.jobs@.filter(store::logged_job()), 10_000));
    r
}

// -- timelines ----------------------------------------------------------------------------

/// What a step's lines come to.
#[derive(Debug)]
pub struct StepSummary {
    pub name: String,
    pub first_line: usize,
    pub last_line: usize,
    pub lines: usize,
    pub errors: usize,
    pub warnings: usize,
}

pub ghost struct StepView {
    pub name: Seq<char>,
    pub first_line: nat,
    pub last_line: nat,
    pub lines: nat,
    pub errors: nat,
    pub warnings: nat,
}

impl StepSummary {
    pub open spec fn view(&self) -> StepView {
        StepView {
            name: self.name@,
            first_line: self.first_line as nat,
            last_line: self.last_line as nat,
            lines: self.lines as nat,
            errors: self.errors as nat,
            warnings: self.warnings as nat,
        }
    }
}

pub open spec fn step_views(steps: Seq<StepSummary>) -> Seq<StepView> {
    steps.map_values(|s: StepSummary| s@)
}

/// The first step of a name, or how many steps there are.
pub open spec fn step_index(steps: Seq<StepView>, name: Seq<char>) -> int
    decreases steps.len(),
{
    if steps.len() == 0 || steps[0].name == name {
        0
    } else {
        1 + step_index(steps.drop_first(), name)
    }
}

/// A step with one more line.
pub open spec fn step_grown(s: StepView, line: LineView) -> StepView {
    StepView {
        last_line: line.line_no,
        lines: s.lines + 1,
        errors: if line.level == "error"@ {
            s.errors + 1
        } else {
            s.errors
        },
        warnings: if line.level == "warn"@ {
            s.warnings + 1
        } else {
            s.warnings
        },
        ..s
    }
}

/// Steps with one more line: it counts for its step, which it may begin.
pub open spec fn with_line(steps: Seq<StepView>, line: LineView) -> Seq<StepView> {
    match line.step {
        None => steps,
        Some(name) => {
            let i = step_index(steps, name);
            let all = if i < steps.len() {
                steps
            } else {
                steps.push(
                    StepView {
                        name,
                        first_line: line.line_no,
                        last_line: line.line_no,
                        lines: 0,
                        errors: 0,
                        warnings: 0,
                    },
                )
            };
            all.update(i, step_grown(all[i], line))
        },
    }
}

/// The steps of some lines, in the order in which they first occur.
pub open spec fn timeline(lines: Seq<LineView>) -> Seq<StepView>
    decreases lines.len(),
{
    if lines.len() == 0 {
        Seq::empty()
    } else {
        with_line(timeline(lines.drop_last()), lines.last())
    }
}

/// A job's steps.
#[derive(Debug)]
pub struct StepsReport {
    pub job: Job,
    pub steps: Vec<StepSummary>,
}

proof fn lemma_step_index(steps: Seq<StepView>, name: Seq<char>, k: int)
    requires
        0 <= k <= steps.len(),
        forall|i: int| 0 <= i < k ==> (#[trigger] steps[i]).name != name,
        k < steps.len() ==> steps[k].name == name,
    ensures
        step_index(steps, name) == k,
    decreases steps.len(),
{
    if k > 0 {
        assert forall|i: int| 0 <= i < k - 1 implies (#[trigger] steps.drop_first()[i]).name
            != name by {
            assert(steps.drop_first()[i] == steps[i + 1]);
        }
        lemma_step_index(steps.drop_first(), name, k - 1);
    }
}

fn add_line(steps: &mut Vec<StepSummary>, line: &ParsedLine, bound: usize)
    requires
        forall|i: int| 0 <= i < old(steps)@.len() ==> (#[trigger] old(steps)@[i]).lines <= bound,
        forall|i: int|
            0 <= i < old(steps)@.len() ==> (#[trigger] old(steps)@[i]).errors <= bound && old(
                steps,
            )@[i].warnings <= bound,
        bound < usize::MAX,
    ensures
        step_views(final(steps)@) == with_line(step_views(old(steps)@), line@),
        forall|i: int|
            0 <= i < final(steps)@.len() ==> {
                &&& (#[trigger] final(steps)@[i]).lines <= bound + 1
                &&& final(steps)@[i].errors <= bound + 1
                &&& final(steps)@[i].warnings <= bound + 1
            },
{
    let ghost views = step_views(steps@);
    let name = match &line.step_name {
        Some(name) => name,
        None => return ,
    };
    let mut k: usize = 0;
    while k < steps.len() && !text::same_str(steps[k].name.as_str(), name.as_str())
        invariant
            k <= steps@.len(),
            views == step_views(steps@),
            forall|i: int| 0 <= i < k ==> (#[trigger] views[i]).name != name@,
        decreases steps@.len() - k,
    {
        assert(views[k as int] == steps@[k as int]@);
        k = k + 1;
    }
    proof {
        if k < steps@.len() {
            assert(views[k as int] == steps@[k as int]@);
        }
        lemma_step_index(views, name@, k as int);
    }
    if k == steps.len() {
        steps.push(
            StepSummary {
                name: name.clone(),
                first_line: line.line_no,
                last_line: line.line_no,
                lines: 0,
                errors: 0,
                warnings: 0,
            },
        );
    }
    let ghost all = step_views(steps@);
    assert(k == views.len() ==> all =~= views.push(all[k as int]));
    assert(k < views.len() ==> all =~= views);
    let s = &steps[k];
    assert(all[k as int] == s@);
    let grown = StepSummary {
        name: s.name.clone(),
        first_line: s.first_line,
        last_line: line.line_no,
        lines: s.lines + 1,
        errors: if text::same_str(line.level, "error") {
            s.errors + 1
        } else {
            s.errors
        },
        warnings: if text::same_str(line.level, "warn") {
            s.warnings + 1
        } else {
            s.warnings
        },
    };
    assert(grown@ == step_grown(all[k as int], line@));
    steps.set(k, grown);
    assert(step_views(steps@) =~= all.update(k as int, grown@));
}

/// A job's steps, in the order in which its log first names them.
pub fn steps(job: &Job, archive: &Archive) -> (r: Result<StepsReport, AgentError>)
    ensures
        match r {
            Ok(report) => {
                &&& is_readable(*job, *archive)
                &&& report.job == *job
                &&& step_views(report.steps@) == timeline(job_lines(*job, *archive))
            },
            Err(e) => agent::log_read(Err(e), *job, *archive),
        },
{
    let log = match agent::read_worker_logs(job, archive) {
        Ok(log) => log,
        Err(e) => return Err(e),
    };
    let lines = parse_lines(log.as_str());
    let ghost views = job_lines(*job, *archive);
    let mut steps: Vec<StepSummary> = Vec::new();
    assert(step_views(steps@) =~= timeline(views.take(0)));
    for i in 0..lines.len()
        invariant
            views == line_views(lines@),
            step_views(steps@) == timeline(views.take(i as int)),
            forall|k: int|
                0 <= k < steps@.len() ==> (#[trigger] steps@[k]).lines <= i && steps@[k].errors <= i
                    && steps@[k].warnings <= i,
    {
        assert(views[i as int] == lines@[i as int]@);
        assert(views.take(i + 1).drop_last() =~= views.take(i as int));
        add_line(&mut steps, &lines[i], i);
    }
    assert(views.take(views.len() as int) =~= views);
    Ok(StepsReport { job: job.clone(), steps })
}

proof fn lemma_step_found(steps: Seq<StepView>, name: Seq<char>)
    ensures
        0 <= step_index(steps, name) <= steps.len(),
        step_index(steps, name) < steps.len() ==> steps[step_index(steps, name)].name == name,
        forall|i: int| 0 <= i < step_index(steps, name) ==> (#[trigger] steps[i]).name != name,
    decreases steps.len(),
{
    if steps.len() > 0 && steps[0].name != name {
        lemma_step_found(steps.drop_first(), name);
        assert forall|i: int| 0 <= i < step_index(steps, name) implies (#[trigger] steps[i]).name
            != name by {
            if i > 0 {
                assert(steps.drop_first()[i - 1] == steps[i]);
            }
        }
    }
}

/// A timeline names no step twice, and every step has at least one line.
pub proof fn law_timelines_name_steps_once(lines: Seq<LineView>)
    ensures
        forall|i: int, j: int|
            #![trigger timeline(lines)[i], timeline(lines)[j]]
            0 <= i < j < timeline(lines).len() ==> timeline(lines)[i].name != timeline(
                lines,
            )[j].name,
        forall|i: int| 0 <= i < timeline(lines).len() ==> (#[trigger] timeline(lines)[i]).lines >= 1,
    decreases lines.len(),
{
    if lines.len() > 0 {
        law_timelines_name_steps_once(lines.drop_last());
        let before = timeline(lines.drop_last());
        if let Some(name) = lines.last().step {
            lemma_step_found(before, name);
        }
    }
}

// -- reports in words ------------------------------------------------------------------------

/// One line that was found, in words.
pub open spec fn hit_text(h: SearchHit) -> Seq<char> {
    number::dec_int(h.gh_job_id as int) + " "@ + h.repo@ + " / "@ + agent::text_or(
        h.workflow,
        ""@,
    ) + " / "@ + agent::text_or(h.job_name, ""@) + step_part(h.step_name) + ":"@ + number::dec(
        h.line_no as nat,
    ) + " ["@ + h.level@ + "]\n"@ + h.message@ + "\n\n"@
}

/// A step in the line on a hit, if there is one.
pub open spec fn step_part(step: Option<String>) -> Seq<char> {
    match step {
        Some(s) => " / "@ + s@,
        None => ""@,
    }
}

/// The first line of a search report in words.
pub open spec fn report_head(r: SearchReport) -> Seq<char> {
    number::dec(r.matches as nat) + " matches across "@ + number::dec(r.scanned_jobs as nat)
        + " jobs"@ + if r.truncated {
        " (output truncated)"@
    } else {
        ""@
    } + "\n"@
}

/// A search report in words.
pub open spec fn report_text(r: SearchReport) -> Seq<char> {
    report_head(r) + text::concat(r.results@.map_values(|h: SearchHit| hit_text(h)))
}

fn hit_words(h: &SearchHit) -> (r: String)
    ensures
        r@ == hit_text(*h),
{
    let mut step = String::new();
    match &h.step_name {
        Some(s) => {
            step.append(" / ");
            assert(step@ =~= " / "@);
            step.append(s.as_str());
        },
        None => {
            proof {
                reveal_strlit("");
            }
            assert(step@ =~= ""@);
        },
    }
    let mut out = number::integer_text(h.gh_job_id);
    out.append(" ");
    out.append(h.repo.as_str());
    out.append(" / ");
    out.append(str_or_empty(&h.workflow));
    out.append(" / ");
    out.append(str_or_empty(&h.job_name));
    out.append(step.as_str());
    out.append(":");
    number::push_number(&mut out, h.line_no as u64);
    out.append(" [");
    out.append(h.level);
    out.append("]\n");
    out.append(h.message.as_str());
    out.append("\n\n");
    out
}

/// A search report in words.
pub fn search_text(report: &SearchReport) -> (r: String)
    ensures
        r@ == report_text(*report),
{
    let mut out = number::wide_number_text(report.matches);
    out.append(" matches across ");
    number::push_number(&mut out, report.scanned_jobs as u64);
    out.append(" jobs");
    out.append(
        if report.truncated {
            " (output truncated)"
        } else {
            ""
        },
    );
    out.append("\n");
    let ghost head = out@;
    let ghost all = report.results@.map_values(|h: SearchHit| hit_text(h));
    assert(head + text::concat(all.take(0)) =~= head);
    for i in 0..report.results.len()
        invariant
            all == report.results@.map_values(|h: SearchHit| hit_text(h)),
            out@ == head + text::concat(all.take(i as int)),
    {
        let words = hit_words(&report.results[i]);
        out.append(words.as_str());
        assert(all.take(i + 1).drop_last() =~= all.take(i as int));
        assert(all.take(i + 1).last() == words@);
        assert(out@ =~= head + text::concat(all.take(i + 1)));
    }
    assert(all.take(all.len() as int) =~= all);
    out
}

/// One step in words.
pub open spec fn step_text(s: StepView) -> Seq<char> {
    text::pad_left(number::dec(s.first_line), 6) + "-"@ + text::pad_left(
        number::dec(s.last_line),
        6,
    ) + "  "@ + text::pad_left(number::dec(s.lines), 6) + " lines  "@ + text::pad_left(
        number::dec(s.errors),
        3,
    ) + " errors  "@ + text::pad_left(number::dec(s.warnings), 3) + " warnings  "@ + s.name + "\n"@
}

/// A job's steps in words.
pub open spec fn timeline_text(steps: Seq<StepView>) -> Seq<char> {
    if steps.len() == 0 {
        "no step boundaries detected\n"@
    } else {
        text::concat(steps.map_values(|s: StepView| step_text(s)))
    }
}

fn push_count(out: &mut String, n: usize, width: usize)
    ensures
        final(out)@ == old(out)@ + text::pad_left(number::dec(n as nat), width as int),
{
    let t = number::number_text(n as u64);
    text::push_right_aligned(out, t.as_str(), width);
}

fn step_words(s: &StepSummary) -> (r: String)
    ensures
        r@ == step_text(s@),
{
    let mut out = String::new();
    push_count(&mut out, s.first_line, 6);
    assert(out@ =~= text::pad_left(number::dec(s.first_line as nat), 6));
    out.append("-");
    push_count(&mut out, s.last_line, 6);
    out.append("  ");
    push_count(&mut out, s.lines, 6);
    out.append(" lines  ");
    push_count(&mut out, s.errors, 3);
    out.append(" errors  ");
    push_count(&mut out, s.warnings, 3);
    out.append(" warnings  ");
    out.append(s.name.as_str());
    out.append("\n");
    out
}

/// A job's steps in words.
pub fn steps_text(report: &StepsReport) -> (r: String)
    ensures
        r@ == timeline_text(step_views(report.steps@)),
{
    if report.steps.len() == 0 {
        return "no step boundaries detected\n".to_string();
    }
    let ghost all = step_views(report.steps@).map_values(|s: StepView| step_text(s));
    let mut out = String::new();
    for i in 0..report.steps.len()
        invariant
            all == step_views(report.steps@).map_values(|s: StepView| step_text(s)),
            out@ == text::concat(all.take(i as int)),
    {
        let words = step_words(&report.steps[i]);
        out.append(words.as_str());
        assert(all.take(i + 1).drop_last() =~= all.take(i as int));
        assert(all.take(i + 1).last() == words@);
    }
    assert(all.take(all.len() as int) =~= all);
    out
}

} // verus!
