//! The line search engine: returns the lines of a text that contain a query,
//! under a selectable case policy, in their original order and casing.

use vstd::prelude::*;

use crate::config::Config;
use crate::text::contains_pat;
use crate::text::contains_query;
use crate::text::lemma_empty_pat_matches;
use crate::text::lines_of;
use crate::text::split_lines;

verus! {

/// What `str::to_lowercase` returns for a given character sequence; its
/// result depends on the characters alone.
pub uninterp spec fn lower_of(s: Seq<char>) -> Seq<char>;

/// Relies on str::to_lowercase: the result is a function of the characters
/// alone, and lowercasing the empty string yields the empty string.
#[verifier::external_body]
fn lowercase(s: &str) -> (r: String)
    ensures
        r@ == lower_of(s@),
        s@.len() == 0 ==> r@.len() == 0,
{
    s.to_lowercase()
}

/// Whether `line` is a match for `query`. Under the case-sensitive policy the
/// query must occur with its exact casing; otherwise the lowered forms are
/// compared.
pub open spec fn line_matches(line: Seq<char>, query: Seq<char>, case_sensitive: bool) -> bool {
    if case_sensitive {
        contains_pat(line, query)
    } else {
        contains_pat(lower_of(line), lower_of(query))
    }
}

/// The members of `lines` that match `query`, kept in order and unchanged.
pub open spec fn matches_in(query: Seq<char>, lines: Seq<Seq<char>>, case_sensitive: bool) -> Seq<
    Seq<char>,
>
    decreases lines.len(),
{
    if lines.len() == 0 {
        Seq::empty()
    } else {
        let rest = matches_in(query, lines.drop_last(), case_sensitive);
        if line_matches(lines.last(), query, case_sensitive) {
            rest.push(lines.last())
        } else {
            rest
        }
    }
}

/// The lines of `text` that match `query` under the given case policy, in
/// their original order.
pub open spec fn matching_lines(query: Seq<char>, text: Seq<char>, case_sensitive: bool) -> Seq<
    Seq<char>,
> {
    matches_in(query, lines_of(text), case_sensitive)
}

/// Appending a line to the list extends the matches with that line exactly
/// when it matches.
proof fn lemma_matches_in_push(
    query: Seq<char>,
    lines: Seq<Seq<char>>,
    line: Seq<char>,
    case_sensitive: bool,
)
    ensures
        matches_in(query, lines.push(line), case_sensitive) == if line_matches(
            line,
            query,
            case_sensitive,
        ) {
            matches_in(query, lines, case_sensitive).push(line)
        } else {
            matches_in(query, lines, case_sensitive)
        },
{
    let pushed = lines.push(line);
    assert(pushed.drop_last() =~= lines);
    assert(pushed.last() == line);
}

/// When every line matches, the search keeps the whole list.
proof fn lemma_all_match(query: Seq<char>, lines: Seq<Seq<char>>, case_sensitive: bool)
    requires
        forall|i: int| 0 <= i < lines.len() ==> line_matches(#[trigger] lines[i], query, case_sensitive),
    ensures
        matches_in(query, lines, case_sensitive) == lines,
    decreases lines.len(),
{
    if lines.len() > 0 {
        lemma_all_match(query, lines.drop_last(), case_sensitive);
        assert(line_matches(lines[lines.len() - 1], query, case_sensitive));
        assert(lines.drop_last().push(lines.last()) =~= lines);
    }
}

/// An empty query matches every line: searching for it returns the whole
/// text, line by line. Under the case-insensitive policy the same holds and
/// is stated on `search_case_insensitive` itself, since it rests on what
/// lowercasing the empty string yields.
pub proof fn lemma_empty_query_matches_all(query: Seq<char>, text: Seq<char>)
    requires
        query.len() == 0,
    ensures
        matching_lines(query, text, true) == lines_of(text),
{
    let lines = lines_of(text);
    assert forall|i: int| 0 <= i < lines.len() implies line_matches(
        #[trigger] lines[i],
        query,
        true,
    ) by {
        lemma_empty_pat_matches(lines[i], query);
    }
    lemma_all_match(query, lines, true);
}

/// An empty text has no lines, so searching it returns no matches, under
/// either case policy.
pub proof fn lemma_empty_text_no_matches(query: Seq<char>, case_sensitive: bool)
    ensures
        matching_lines(query, Seq::empty(), case_sensitive) == Seq::<Seq<char>>::empty(),
{
    assert(lines_of(Seq::empty()) == Seq::<Seq<char>>::empty());
}

/// Searching is a pure function of the query, the text and the case policy:
/// two runs on the same inputs return the same matches.
pub proof fn lemma_search_deterministic(
    first: Seq<Seq<char>>,
    second: Seq<Seq<char>>,
    query: Seq<char>,
    text: Seq<char>,
    case_sensitive: bool,
)
    requires
        first == matching_lines(query, text, case_sensitive),
        second == matching_lines(query, text, case_sensitive),
    ensures
        first == second,
{
}

/// Case-sensitive search: returns the lines of `contents` that contain
/// `query` as a literal substring, in their original order.
pub fn search<'a>(query: &str, contents: &'a str) -> (results: Vec<&'a str>)
    ensures
        results.deep_view() == matching_lines(query@, contents@, true),
        query@.len() == 0 ==> results.deep_view() == lines_of(contents@),
{
    let lines = split_lines(contents);
    let mut results: Vec<&'a str> = Vec::new();
    let mut idx: usize = 0;
    proof {
        assert(lines.deep_view().take(0) =~= Seq::<Seq<char>>::empty());
    }
    while idx < lines.len()
        invariant
            idx <= lines.len(),
            lines.deep_view() == lines_of(contents@),
            results.deep_view() == matches_in(query@, lines.deep_view().take(idx as int), true),
        decreases lines.len() - idx,
    {
        let ghost prev = results.deep_view();
        let ghost seen = lines.deep_view().take(idx as int);
        let line = lines[idx];
        proof {
            assert(line@ == lines.deep_view()[idx as int]);
        }
        if contains_query(line, query) {
            results.push(line);
            proof {
                assert(results.deep_view() =~= prev.push(line@));
            }
        }
        proof {
            assert(lines.deep_view().take(idx + 1) =~= seen.push(line@));
            lemma_matches_in_push(query@, seen, line@, true);
        }
        idx += 1;
    }
    proof {
        assert(lines.deep_view().take(lines.len() as int) =~= lines.deep_view());
        if query@.len() == 0 {
            lemma_empty_query_matches_all(query@, contents@);
        }
    }
    results
}

/// Case-insensitive search: returns the lines of `contents` whose lowered
/// form contains the lowered `query`, in their original order and with their
/// original casing.
pub fn search_case_insensitive<'a>(query: &str, contents: &'a str) -> (results: Vec<&'a str>)
    ensures
        results.deep_view() == matching_lines(query@, contents@, false),
        query@.len() == 0 ==> results.deep_view() == lines_of(contents@),
{
    let query_lower = lowercase(query);
    let lines = split_lines(contents);
    let mut results: Vec<&'a str> = Vec::new();
    let mut idx: usize = 0;
    proof {
        assert(lines.deep_view().take(0) =~= Seq::<Seq<char>>::empty());
    }
    while idx < lines.len()
        invariant
            idx <= lines.len(),
            lines.deep_view() == lines_of(contents@),
            query_lower@ == lower_of(query@),
            results.deep_view() == matches_in(query@, lines.deep_view().take(idx as int), false),
        decreases lines.len() - idx,
    {
        let ghost prev = results.deep_view();
        let ghost seen = lines.deep_view().take(idx as int);
        let line = lines[idx];
        proof {
            assert(line@ == lines.deep_view()[idx as int]);
        }
        let line_lower = lowercase(line);
        if contains_query(line_lower.as_str(), query_lower.as_str()) {
            results.push(line);
            proof {
                assert(results.deep_view() =~= prev.push(line@));
            }
        }
        proof {
            assert(lines.deep_view().take(idx + 1) =~= seen.push(line@));
            lemma_matches_in_push(query@, seen, line@, false);
        }
        idx += 1;
    }
    proof {
        assert(lines.deep_view().take(lines.len() as int) =~= lines.deep_view());
        if query@.len() == 0 {
            let all = lines.deep_view();
            assert forall|i: int| 0 <= i < all.len() implies line_matches(
                #[trigger] all[i],
                query@,
                false,
            ) by {
                lemma_empty_pat_matches(lower_of(all[i]), lower_of(query@));
            }
            lemma_all_match(query@, all, false);
        }
    }
    results
}

/// Runs the search with the query and case policy that `config` holds.
pub fn run_search<'a>(config: &Config, contents: &'a str) -> (results: Vec<&'a str>)
    ensures
        results.deep_view() == matching_lines(config.query@, contents@, config.case_sensitive),
{
    if config.case_sensitive {
        search(config.query.as_str(), contents)
    } else {
        search_case_insensitive(config.query.as_str(), contents)
    }
}

} // verus!
