//! Captured logs: excerpts, queries, searches, severities and steps.

use crate::agent;
use crate::agent::Archive;
use crate::laws::texts;
use crate::log_search;
use crate::log_search::{ParsedLine, Property, QueryParts, SearchError, SearchQuery, SearchReport};
use crate::store::{Job, Store};
use crate::text;
use vstd::prelude::*;

verus! {

// -- excerpts ----------------------------------------------------------------------

/// An excerpt of a log that reports trouble goes from thirty lines before the
/// last line that holds "##[error" or "Process completed with exit code" to nine
/// lines after it, as far as the log goes.
pub proof fn law_excerpts_surround_the_last_reported_error(
    log: &str,
    s: &[char],
    lines: Vec<Vec<char>>,
    i: int,
    r: String,
)
    requires
        s@ == log@,
        call_ensures(text::to_lines, (s,), lines),
        call_ensures(agent::failure_excerpt, (log,), r),
        0 <= i < lines@.len(),
        texts::stands_in("##[error"@, lines@[i]@) || texts::stands_in(
            "Process completed with exit code"@,
            lines@[i]@,
        ),
        forall|j: int|
            i < j < lines@.len() ==> !texts::stands_in(
                "##[error"@,
                (#[trigger] lines@[j])@,
            ) && !texts::stands_in(
                "Process completed with exit code"@,
                lines@[j]@,
            ),
    ensures
        ({
            let from = if i >= 30 {
                i - 30
            } else {
                0
            };
            let to = if i + 10 <= lines@.len() {
                i + 10
            } else {
                lines@.len() as int
            };
            &&& from <= i < to
            &&& r@ == texts::strung(
                Seq::new((to - from) as nat, |k: int| lines@[from + k]@),
                "\n"@,
            )
        }),
{
    let all = text::pieces(lines@);
    assert forall|j: int| i <= j < all.len() implies agent::is_marker(#[trigger] all[j]) == (j
        == i) by {
        assert(all[j] == lines@[j]@);
        texts::lemma_stands_in(all[j], "##[error"@);
        texts::lemma_stands_in(all[j], "Process completed with exit code"@);
    }
    agent::law_excerpts_hold_the_last_marker(all);
    assert(agent::is_marker(all[i]));
    let from = if i >= 30 {
        i - 30
    } else {
        0
    };
    let to = if i + 10 <= lines@.len() {
        i + 10
    } else {
        lines@.len() as int
    };
    assert(agent::last_marker(all) == Some(i));
    texts::lemma_strung(all.subrange(from, to), "\n"@);
    assert(all.subrange(from, to) =~= Seq::new((to - from) as nat, |k: int| lines@[from + k]@));
}

/// Where no line reports trouble, the excerpt is the last forty lines.
pub proof fn law_excerpts_without_an_error_are_the_end_of_the_log(
    log: &str,
    s: &[char],
    lines: Vec<Vec<char>>,
    r: String,
)
    requires
        s@ == log@,
        call_ensures(text::to_lines, (s,), lines),
        call_ensures(agent::failure_excerpt, (log,), r),
        forall|j: int|
            0 <= j < lines@.len() ==> !texts::stands_in(
                "##[error"@,
                (#[trigger] lines@[j])@,
            ) && !texts::stands_in(
                "Process completed with exit code"@,
                lines@[j]@,
            ),
    ensures
        ({
            let n = if lines@.len() >= 40 {
                40
            } else {
                lines@.len() as int
            };
            r@ == texts::strung(
                Seq::new(n as nat, |k: int| lines@[lines@.len() - n + k]@),
                "\n"@,
            )
        }),
{
    let all = text::pieces(lines@);
    assert forall|j: int| 0 <= j < all.len() implies !agent::is_marker(#[trigger] all[j]) by {
        assert(all[j] == lines@[j]@);
        texts::lemma_stands_in(all[j], "##[error"@);
        texts::lemma_stands_in(all[j], "Process completed with exit code"@);
    }
    agent::law_excerpts_hold_the_last_marker(all);
    assert(agent::last_marker(all) is None);
    let n = if lines@.len() >= 40 {
        40
    } else {
        lines@.len() as int
    };
    let last = all.subrange(all.len() - n, all.len() as int);
    texts::lemma_strung(last, "\n"@);
    assert(last =~= Seq::new(n as nat, |k: int| lines@[lines@.len() - n + k]@));
}

// -- queries -----------------------------------------------------------------------

/// A character that means something to the query language outside of words.
pub open spec fn is_plain(word: Seq<char>) -> bool {
    word.len() > 0 && forall|i: int|
        0 <= i < word.len() ==> (#[trigger] word[i]) != '"' && word[i] != '\\' && !text::is_space(
            word[i],
        )
}

proof fn lemma_scan_word(word: Seq<char>, token: Seq<char>, rest: Seq<char>)
    requires
        forall|i: int|
            0 <= i < word.len() ==> (#[trigger] word[i]) != '"' && word[i] != '\\'
                && !text::is_space(word[i]),
    ensures
        log_search::scan(word + rest, token, false, false) == log_search::scan(
            rest,
            token + word,
            false,
            false,
        ),
    decreases word.len(),
{
    if word.len() == 0 {
        assert(word + rest =~= rest);
        assert(token + word =~= token);
    } else {
        let s = word + rest;
        assert(s[0] == word[0]);
        assert(s.drop_first() =~= word.drop_first() + rest);
        assert forall|i: int| 0 <= i < word.drop_first().len() implies (
        #[trigger] word.drop_first()[i]) != '"' && word.drop_first()[i] != '\\'
            && !text::is_space(word.drop_first()[i]) by {
            assert(word.drop_first()[i] == word[i + 1]);
        }
        lemma_scan_word(word.drop_first(), token.push(word[0]), rest);
        assert(token.push(word[0]) + word.drop_first() =~= token + word);
    }
}

proof fn lemma_scan_words(words: Seq<Seq<char>>)
    requires
        forall|i: int| 0 <= i < words.len() ==> is_plain(#[trigger] words[i]),
    ensures
        log_search::spec_tokens(texts::strung(words, seq![' '])) == Some(words),
    decreases words.len(),
{
    if words.len() == 0 {
        assert(words =~= Seq::empty());
    } else {
        assert(is_plain(words[0]));
        let none = Seq::<char>::empty();
        if words.len() == 1 {
            lemma_scan_word(words[0], none, none);
            assert(words[0] + none =~= words[0]);
            assert(none + words[0] =~= words[0]);
            assert(words =~= seq![words[0]]);
        } else {
            let rest = words.drop_first();
            assert forall|i: int| 0 <= i < rest.len() implies is_plain(#[trigger] rest[i]) by {
                assert(rest[i] == words[i + 1]);
            }
            lemma_scan_words(rest);
            let tail = texts::strung(rest, seq![' ']);
            lemma_scan_word(words[0], none, seq![' '] + tail);
            assert(none + words[0] =~= words[0]);
            assert(words[0] + seq![' '] + tail =~= words[0] + (seq![' '] + tail));
            let t = seq![' '] + tail;
            assert(t[0] == ' ');
            assert(t.drop_first() =~= tail);
            assert(seq![words[0]] + rest =~= words);
        }
    }
}

/// Words that hold no white space, quote or backslash, with a space between
/// neighbours, are the tokens of a query.
pub proof fn law_words_are_tokens(
    words: Seq<Seq<char>>,
    q: &str,
    r: Result<Vec<String>, SearchError>,
)
    requires
        call_ensures(log_search::tokens, (q,), r),
        forall|i: int| 0 <= i < words.len() ==> is_plain(#[trigger] words[i]),
        q@ == texts::strung(words, seq![' ']),
    ensures
        r is Ok,
        r->Ok_0@.len() == words.len(),
        forall|i: int| 0 <= i < words.len() ==> (#[trigger] r->Ok_0@[i])@ == words[i],
{
    lemma_scan_words(words);
    let v = r->Ok_0@;
    assert(text::texts(v) == words);
    assert forall|i: int| 0 <= i < words.len() implies (#[trigger] v[i])@ == words[i] by {
        assert(text::texts(v)[i] == v[i]@);
    }
}

proof fn lemma_scan_quoted(phrase: Seq<char>, token: Seq<char>, rest: Seq<char>)
    requires
        forall|i: int| 0 <= i < phrase.len() ==> (#[trigger] phrase[i]) != '"' && phrase[i] != '\\',
    ensures
        log_search::scan(phrase + rest, token, true, false) == log_search::scan(
            rest,
            token + phrase,
            true,
            false,
        ),
    decreases phrase.len(),
{
    if phrase.len() == 0 {
        assert(phrase + rest =~= rest);
        assert(token + phrase =~= token);
    } else {
        let s = phrase + rest;
        assert(s[0] == phrase[0]);
        assert(s.drop_first() =~= phrase.drop_first() + rest);
        assert forall|i: int| 0 <= i < phrase.drop_first().len() implies (
        #[trigger] phrase.drop_first()[i]) != '"' && phrase.drop_first()[i] != '\\' by {
            assert(phrase.drop_first()[i] == phrase[i + 1]);
        }
        lemma_scan_quoted(phrase.drop_first(), token.push(phrase[0]), rest);
        assert(token.push(phrase[0]) + phrase.drop_first() =~= token + phrase);
    }
}

/// What stands in quotes is one token, white space and all; a quote that is not
/// closed is refused.
pub proof fn law_quoted_phrases_are_one_token(
    phrase: Seq<char>,
    q: &str,
    open: &str,
    r: Result<Vec<String>, SearchError>,
    s: Result<Vec<String>, SearchError>,
)
    requires
        call_ensures(log_search::tokens, (q,), r),
        call_ensures(log_search::tokens, (open,), s),
        phrase.len() > 0,
        forall|i: int| 0 <= i < phrase.len() ==> (#[trigger] phrase[i]) != '"' && phrase[i] != '\\',
        q@ == seq!['"'] + phrase + seq!['"'],
        open@ == seq!['"'] + phrase,
    ensures
        r is Ok,
        r->Ok_0@.len() == 1,
        r->Ok_0@[0]@ == phrase,
        s == Err::<Vec<String>, SearchError>(SearchError::UnterminatedQuote),
{
    let none = Seq::<char>::empty();
    let quote = seq!['"'];
    assert(q@[0] == '"');
    assert(q@.drop_first() =~= phrase + quote);
    lemma_scan_quoted(phrase, none, quote);
    assert(none + phrase =~= phrase);
    assert(quote.drop_first() =~= none);
    assert(log_search::scan(quote, phrase, true, false) == log_search::scan(
        none,
        phrase,
        false,
        false,
    ));
    assert(text::texts(r->Ok_0@) == seq![phrase]);
    assert(text::texts(r->Ok_0@)[0] == r->Ok_0@[0]@);
    assert(open@[0] == '"');
    assert(open@.drop_first() =~= phrase + none);
    lemma_scan_quoted(phrase, none, none);
    assert(log_search::spec_tokens(open@) is None);
}

/// A token names a property: what stands before its first colon, whatever the
/// case, is the name of one.
pub open spec fn names_property(body: Seq<char>) -> bool {
    exists|key: Seq<char>, value: Seq<char>|
        {
            &&& body == #[trigger] (key + seq![':'] + value)
            &&& !key.contains(':')
            &&& texts::small(key) == "repo"@ || texts::small(key)
                == "workflow"@ || texts::small(key) == "job"@
                || texts::small(key) == "job_name"@ || texts::small(key)
                == "branch"@ || texts::small(key) == "step"@
                || texts::small(key) == "level"@
        }
}

proof fn lemma_names_property(body: Seq<char>)
    ensures
        names_property(body) == ({
            let colon = text::index_of(body, ':');
            colon < body.len() && log_search::is_key(text::lower(body.take(colon)))
        }),
{
    let colon = text::index_of(body, ':');
    text::lemma_index_of(body, ':');
    if colon < body.len() {
        let key = body.take(colon);
        let value = body.skip(colon + 1);
        assert(body =~= key + seq![':'] + value);
        assert(!key.contains(':'));
        texts::lemma_small(key);
    }
    if names_property(body) {
        let (key, value) = choose|key: Seq<char>, value: Seq<char>|
            {
                &&& body == #[trigger] (key + seq![':'] + value)
                &&& !key.contains(':')
                &&& texts::small(key) == "repo"@ || texts::small(key)
                    == "workflow"@ || texts::small(key) == "job"@
                    || texts::small(key) == "job_name"@
                    || texts::small(key) == "branch"@ || texts::small(key)
                    == "step"@ || texts::small(key) == "level"@
            };
        let k = key.len() as int;
        assert(body[k] == ':');
        if colon < k {
            assert(body[colon] == key[colon]);
            assert(key.contains(key[colon]));
        }
        assert(colon == k);
        assert(body.take(k) =~= key);
        texts::lemma_small(key);
    }
}

/// A token that excludes a word.
pub open spec fn excludes(token: Seq<char>, word: Seq<char>) -> bool {
    token.len() > 0 && token[0] == '-' && !names_property(token.drop_first()) && word
        == texts::small(token.drop_first())
}

/// A token that asks for a word.
pub open spec fn asks_for(token: Seq<char>, word: Seq<char>) -> bool {
    token.len() > 0 && token[0] != '-' && !names_property(token) && word
        == texts::small(token) && word != "and"@
}

proof fn lemma_parts(tokens: Seq<Seq<char>>, word: Seq<char>)
    ensures
        log_search::parts_of(tokens).excluded.contains(word) <==> exists|i: int|
            0 <= i < tokens.len() && excludes(#[trigger] tokens[i], word),
        log_search::parts_of(tokens).included.contains(word) <==> exists|i: int|
            0 <= i < tokens.len() && asks_for(#[trigger] tokens[i], word),
    decreases tokens.len(),
{
    if tokens.len() > 0 {
        let init = tokens.drop_last();
        let t = tokens.last();
        let before = log_search::parts_of(init);
        let after = log_search::parts_of(tokens);
        lemma_parts(init, word);
        lemma_names_property(t);
        if t.len() > 0 {
            lemma_names_property(t.drop_first());
            texts::lemma_small(t.drop_first());
            assert(t.len() > 0 && t[0] == '-' ==> text::lower(t) != "and"@) by {
                reveal_strlit("and");
                if t[0] == '-' && text::lower(t) == "and"@ {
                    assert(text::lower(t)[0] == '-');
                }
            }
        }
        texts::lemma_small(t);
        assert(after == log_search::with_token(before, t));
        assert forall|w: Seq<char>| #[trigger] before.excluded.push(w).contains(word)
            <==> before.excluded.contains(word) || w == word by {
            lemma_push_contains(before.excluded, w, word);
        }
        assert forall|w: Seq<char>| #[trigger] before.included.push(w).contains(word)
            <==> before.included.contains(word) || w == word by {
            lemma_push_contains(before.included, w, word);
        }
        assert(after.excluded.contains(word) <==> before.excluded.contains(word) || excludes(
            t,
            word,
        ));
        assert(after.included.contains(word) <==> before.included.contains(word) || asks_for(
            t,
            word,
        )) by {
            assert(t.len() == 0 ==> text::lower(t) =~= t);
        }
        if exists|i: int| 0 <= i < tokens.len() && excludes(#[trigger] tokens[i], word) {
            let i = choose|i: int| 0 <= i < tokens.len() && excludes(#[trigger] tokens[i], word);
            if i < init.len() {
                assert(excludes(init[i], word));
            }
        }
        if exists|i: int| 0 <= i < init.len() && excludes(#[trigger] init[i], word) {
            let i = choose|i: int| 0 <= i < init.len() && excludes(#[trigger] init[i], word);
            assert(excludes(tokens[i], word));
        }
        if exists|i: int| 0 <= i < tokens.len() && asks_for(#[trigger] tokens[i], word) {
            let i = choose|i: int| 0 <= i < tokens.len() && asks_for(#[trigger] tokens[i], word);
            if i < init.len() {
                assert(asks_for(init[i], word));
            }
        }
        if exists|i: int| 0 <= i < init.len() && asks_for(#[trigger] init[i], word) {
            let i = choose|i: int| 0 <= i < init.len() && asks_for(#[trigger] init[i], word);
            assert(asks_for(tokens[i], word));
        }
        if excludes(t, word) {
            assert(excludes(tokens[tokens.len() - 1], word));
        }
        if asks_for(t, word) {
            assert(asks_for(tokens[tokens.len() - 1], word));
        }
    }
}

pub proof fn lemma_push_contains<A>(s: Seq<A>, x: A, y: A)
    ensures
        s.push(x).contains(y) <==> s.contains(y) || x == y,
{
    let t = s.push(x);
    if s.contains(y) {
        let i = choose|i: int| 0 <= i < s.len() && s[i] == y;
        assert(t[i] == y);
    }
    if x == y {
        assert(t[s.len() as int] == y);
    }
    if t.contains(y) && x != y {
        let i = choose|i: int| 0 <= i < t.len() && t[i] == y;
        assert(s[i] == y);
    }
}

/// A word is excluded exactly if a token is that word with a dash before it, and
/// asked for exactly if a token is that word, whatever the case; `and` and what
/// names a property is no word.
pub proof fn law_words_with_a_dash_are_excluded(
    q: &str,
    tokens: Vec<String>,
    parts: QueryParts,
    word: Seq<char>,
)
    requires
        call_ensures(log_search::tokens, (q,), Ok(tokens)),
        call_ensures(log_search::parse_query, (q,), Ok(parts)),
    ensures
        (exists|i: int| 0 <= i < parts.excluded@.len() && (#[trigger] parts.excluded@[i])@ == word)
            <==> exists|i: int|
            0 <= i < tokens@.len() && excludes((#[trigger] tokens@[i])@, word),
        (exists|i: int| 0 <= i < parts.included@.len() && (#[trigger] parts.included@[i])@ == word)
            <==> exists|i: int|
            0 <= i < tokens@.len() && asks_for((#[trigger] tokens@[i])@, word),
{
    let t = text::texts(tokens@);
    lemma_parts(t, word);
    assert(parts@ == log_search::parts_of(t));
    lemma_texts_contain(parts.excluded@, word);
    lemma_texts_contain(parts.included@, word);
    assert forall|i: int| 0 <= i < t.len() implies #[trigger] t[i] == tokens@[i]@ by {}
    if exists|i: int| 0 <= i < t.len() && excludes(#[trigger] t[i], word) {
        let i = choose|i: int| 0 <= i < t.len() && excludes(#[trigger] t[i], word);
        assert(excludes(tokens@[i]@, word));
    }
    if exists|i: int| 0 <= i < tokens@.len() && excludes((#[trigger] tokens@[i])@, word) {
        let i = choose|i: int| 0 <= i < tokens@.len() && excludes((#[trigger] tokens@[i])@, word);
        assert(excludes(t[i], word));
    }
    if exists|i: int| 0 <= i < t.len() && asks_for(#[trigger] t[i], word) {
        let i = choose|i: int| 0 <= i < t.len() && asks_for(#[trigger] t[i], word);
        assert(asks_for(tokens@[i]@, word));
    }
    if exists|i: int| 0 <= i < tokens@.len() && asks_for((#[trigger] tokens@[i])@, word) {
        let i = choose|i: int| 0 <= i < tokens@.len() && asks_for((#[trigger] tokens@[i])@, word);
        assert(asks_for(t[i], word));
    }
}

proof fn lemma_texts_contain(v: Seq<String>, word: Seq<char>)
    ensures
        text::texts(v).contains(word) <==> exists|i: int|
            0 <= i < v.len() && (#[trigger] v[i])@ == word,
{
    let t = text::texts(v);
    if t.contains(word) {
        let i = choose|i: int| 0 <= i < t.len() && t[i] == word;
        assert(v[i]@ == word);
    }
    if exists|i: int| 0 <= i < v.len() && (#[trigger] v[i])@ == word {
        let i = choose|i: int| 0 <= i < v.len() && (#[trigger] v[i])@ == word;
        assert(t[i] == word);
    }
}

// -- searching ---------------------------------------------------------------------

/// A line is found exactly if the job and the line meet the conditions on
/// properties, its message holds every word that is asked for, and none of those
/// that are excluded, whatever the case.
pub proof fn law_found_lines_hold_what_is_asked_for_and_nothing_excluded(
    job: Job,
    line: ParsedLine,
    parts: QueryParts,
    m: bool,
    r: bool,
)
    requires
        call_ensures(log_search::properties_match, (&job, Some(&line), &parts), m),
        call_ensures(log_search::line_found, (&job, &line, &parts), r),
    ensures
        r <==> {
            &&& m
            &&& forall|i: int|
                0 <= i < parts.included@.len() ==> texts::stands_in(
                    (#[trigger] parts.included@[i])@,
                    texts::small(line.message@),
                )
            &&& forall|i: int|
                0 <= i < parts.excluded@.len() ==> !texts::stands_in(
                    (#[trigger] parts.excluded@[i])@,
                    texts::small(line.message@),
                )
        },
{
    let message = text::lower(line.message@);
    texts::lemma_small(line.message@);
    assert forall|p: Seq<char>| #[trigger] text::contains(message, p)
        == texts::stands_in(p, message) by {
        texts::lemma_stands_in(message, p);
    }
    let inc = parts@.included;
    let exc = parts@.excluded;
    assert(line@.message == line.message@);
    assert(forall|i: int| 0 <= i < inc.len() ==> #[trigger] inc[i] == parts.included@[i]@);
    assert(forall|i: int| 0 <= i < exc.len() ==> #[trigger] exc[i] == parts.excluded@[i]@);
    if r {
        assert forall|i: int| 0 <= i < parts.included@.len() implies texts::stands_in(
            (#[trigger] parts.included@[i])@,
            message,
        ) by {
            assert(inc[i] == parts.included@[i]@);
            assert(text::contains(message, inc[i]));
        }
        assert forall|i: int| 0 <= i < parts.excluded@.len() implies !texts::stands_in(
            (#[trigger] parts.excluded@[i])@,
            message,
        ) by {
            assert(exc[i] == parts.excluded@[i]@);
            assert(!text::contains(message, exc[i]));
        }
    }
}

proof fn lemma_word_in(words: Seq<Seq<char>>, word: Seq<char>) -> (i: int)
    requires
        words.contains(word),
    ensures
        0 <= i < words.len(),
        words[i] == word,
{
    choose|i: int| 0 <= i < words.len() && words[i] == word
}

/// No result of a search holds a word that the query excludes, and every result
/// holds each word that it asks for.
pub proof fn law_results_hold_no_excluded_word(
    store: Store,
    archive: Archive,
    query: SearchQuery,
    now: i64,
    report: SearchReport,
    q: &str,
    tokens: Vec<String>,
    k: int,
    i: int,
    word: Seq<char>,
)
    requires
        call_ensures(log_search::search, (&store, &archive, &query, now), Ok(report)),
        query.q matches Some(s) ==> q@ == s@,
        query.q is None ==> q@ == Seq::<char>::empty(),
        call_ensures(log_search::tokens, (q,), Ok(tokens)),
        0 <= i < tokens@.len(),
        0 <= k < report.results@.len(),
    ensures
        excludes(tokens@[i]@, word) ==> !texts::stands_in(
            word,
            texts::small(report.results@[k].message@),
        ),
        asks_for(tokens@[i]@, word) ==> texts::stands_in(
            word,
            texts::small(report.results@[k].message@),
        ),
{
    reveal_strlit("");
    assert(""@ =~= Seq::<char>::empty());
    let t = text::texts(tokens@);
    assert(t[i] == tokens@[i]@);
    let given = log_search::parts_of(t);
    assert(log_search::parsed_query(agent::text_or(query.q, ""@)) == Some(given));
    let w = log_search::window(log_search::window_text(query))->Ok_0;
    let p = log_search::full_query(given, query);
    let cutoff = log_search::cutoff_of(now, w);
    let jobs = choose|jobs: Seq<Job>|
        {
            &&& #[trigger] crate::store::newest_first(
                jobs,
                store.jobs@.filter(crate::store::logged_job()),
                10_000,
            )
            &&& log_search::reported(report, jobs, archive, query, p, cutoff)
        };
    log_search::law_results_match_the_query(report, jobs, archive, query, p, cutoff, k);
    let hit = choose|hit: (int, int)|
        #[trigger] log_search::lies_in(hit, jobs, archive, p, cutoff) && log_search::is_hit(
            report.results@[k],
            jobs[hit.0],
            log_search::job_lines(jobs[hit.0], archive)[hit.1],
        );
    let line = log_search::job_lines(jobs[hit.0], archive)[hit.1];
    let message = text::lower(line.message);
    assert(line.message == report.results@[k].message@);
    texts::lemma_small(line.message);
    texts::lemma_stands_in(message, word);
    lemma_parts(t, word);
    if excludes(t[i], word) {
        let a = lemma_word_in(p.excluded, word);
        assert(!text::contains(message, p.excluded[a]));
    }
    if asks_for(t[i], word) {
        let a = lemma_word_in(p.included, word);
        assert(text::contains(message, p.included[a]));
    }
}

/// The sum of what `f` gives for the first `n` numbers.
pub open spec fn tally(n: int, f: spec_fn(int) -> int) -> int
    decreases n,
{
    if n <= 0 {
        0
    } else {
        tally(n - 1, f) + f(n - 1)
    }
}

proof fn lemma_line_hits_count(
    j: int,
    job: Job,
    lines: Seq<log_search::LineView>,
    p: log_search::PartsView,
    n: int,
)
    requires
        0 <= n <= lines.len(),
    ensures
        log_search::line_hits(j, job, lines, p, n).len() == tally(
            n,
            |i: int|
                if log_search::is_found(job, lines[i], p) {
                    1
                } else {
                    0
                },
        ),
    decreases n,
{
    if n > 0 {
        lemma_line_hits_count(j, job, lines, p, n - 1);
    }
}

/// How many lines of a job a search finds: none if the job completed before the
/// window, does not meet the conditions on jobs or has no log that can be read.
pub open spec fn found_in(
    job: Job,
    archive: Archive,
    p: log_search::PartsView,
    cutoff: Option<int>,
) -> int {
    if !is_searched(job, archive, p, cutoff) {
        0
    } else {
        let lines = log_search::parsed_lines(agent::worker_log(job, archive)->Ok_0);
        tally(
            lines.len() as int,
            |i: int|
                if log_search::is_found(job, lines[i], p) {
                    1
                } else {
                    0
                },
        )
    }
}

/// A job whose log is searched. One without a completion counts as completed at
/// the epoch.
pub open spec fn is_searched(
    job: Job,
    archive: Archive,
    p: log_search::PartsView,
    cutoff: Option<int>,
) -> bool {
    &&& cutoff matches Some(c) ==> (match job.completed_at {
        Some(t) => t >= c,
        None => 0 >= c,
    })
    &&& log_search::all_hold(
        job,
        None,
        p.properties.filter(
            |x: log_search::PropertyView| !(x.key == "step"@ || x.key == "level"@),
        ),
    )
    &&& agent::worker_log(job, archive) is Ok
}

proof fn lemma_searched(
    job: Job,
    archive: Archive,
    p: log_search::PartsView,
    cutoff: Option<int>,
)
    ensures
        is_searched(job, archive, p, cutoff) == log_search::is_scanned(
            job,
            archive,
            p.properties,
            cutoff,
        ),
{
    crate::laws::pool::lemma_same_filter(
        p.properties,
        log_search::on_jobs(),
        |x: log_search::PropertyView| !(x.key == "step"@ || x.key == "level"@),
    );
}

proof fn lemma_hits_count(
    jobs: Seq<Job>,
    archive: Archive,
    p: log_search::PartsView,
    cutoff: Option<int>,
    n: int,
)
    requires
        0 <= n <= jobs.len(),
    ensures
        log_search::hits(jobs, archive, p, cutoff, n).len() == tally(
            n,
            |j: int| found_in(jobs[j], archive, p, cutoff),
        ),
        log_search::scanned(jobs, archive, p.properties, cutoff, n) == tally(
            n,
            |j: int|
                if is_searched(jobs[j], archive, p, cutoff) {
                    1
                } else {
                    0
                },
        ),
    decreases n,
{
    if n > 0 {
        lemma_hits_count(jobs, archive, p, cutoff, n - 1);
        let job = jobs[n - 1];
        lemma_searched(job, archive, p, cutoff);
        if is_searched(job, archive, p, cutoff) {
            let lines = log_search::job_lines(job, archive);
            lemma_line_hits_count(n - 1, job, lines, p, lines.len() as int);
        }
    }
}

/// A search counts every line that it finds in the newest ten thousand jobs with
/// logs, and lists the first hundred of them, or as many as it is asked for, but
/// one at least and a thousand at most.
pub proof fn law_searches_count_every_line_they_find(
    store: Store,
    archive: Archive,
    query: SearchQuery,
    now: i64,
    report: SearchReport,
    q: &str,
    since: &str,
    parts: QueryParts,
    seconds: Option<u128>,
    with_logs: Seq<Job>,
)
    requires
        with_logs == store.jobs@.filter(|j: Job| j.log_dir is Some),
        call_ensures(log_search::search, (&store, &archive, &query, now), Ok(report)),
        query.q matches Some(s) ==> q@ == s@,
        query.q is None ==> q@ == Seq::<char>::empty(),
        query.since matches Some(s) ==> since@ == s@,
        query.since is None ==> since@ == "30d"@,
        call_ensures(log_search::parse_query, (q,), Ok(parts)),
        call_ensures(log_search::window_seconds, (since,), Ok(seconds)),
    ensures
        exists|jobs: Seq<Job>|
            {
                let p = log_search::full_query(parts@, query);
                let cutoff = match seconds {
                    Some(n) => Some(now - n * 1_000_000),
                    None => None,
                };
                &&& #[trigger] crate::store::newest_first(
                    jobs,
                    with_logs,
                    10_000,
                )
                &&& report.matches == tally(
                    jobs.len() as int,
                    |j: int| found_in(jobs[j], archive, p, cutoff),
                )
                &&& report.scanned_jobs == tally(
                    jobs.len() as int,
                    |j: int|
                        if is_searched(jobs[j], archive, p, cutoff) {
                            1
                        } else {
                            0
                        },
                )
            },
        report.results@.len() <= report.matches,
        report.truncated <==> report.results@.len() < report.matches,
        query.limit is None ==> report.results@.len() <= 100 && (report.truncated
            ==> report.results@.len() == 100),
        query.limit is Some && 1 <= query.limit->0 <= 1_000 ==> report.results@.len()
            <= query.limit->0 && (report.truncated ==> report.results@.len() == query.limit->0),
        query.limit == Some(0usize) ==> report.results@.len() <= 1,
        query.limit is Some && query.limit->0 > 1_000 ==> report.results@.len() <= 1_000 && (
        report.truncated ==> report.results@.len() == 1_000),
        report.window@ == since@,
        report.query == query.q,
{
    reveal_strlit("");
    assert(""@ =~= Seq::<char>::empty());
    let p = log_search::full_query(parts@, query);
    let w = log_search::window(log_search::window_text(query))->Ok_0;
    let cutoff = log_search::cutoff_of(now, w);
    crate::laws::pool::lemma_same_filter(
        store.jobs@,
        crate::store::logged_job(),
        |j: Job| j.log_dir is Some,
    );
    let jobs = choose|jobs: Seq<Job>|
        {
            &&& #[trigger] crate::store::newest_first(
                jobs,
                store.jobs@.filter(crate::store::logged_job()),
                10_000,
            )
            &&& log_search::reported(report, jobs, archive, query, p, cutoff)
        };
    lemma_hits_count(jobs, archive, p, cutoff, jobs.len() as int);
}

} // verus!
