use minigrep::run_search;
use minigrep::search;
use minigrep::search_case_insensitive;
use minigrep::Config;

#[test]
fn one_result() {
    let query = "duct";
    let contents = "\
Rust:
safe, fast, productive
Pick three.
Duct tape.";

    assert_eq!(vec!["safe, fast, productive"], search(query, contents));
}

#[test]
fn case_insensitive() {
    let query = "rUsT";
    let contents = "\
Rust:
safe, fast, productive
Pick three.
Trust me.";

    assert_eq!(
        vec!["Rust:", "Trust me."],
        search_case_insensitive(query, contents)
    );
}

#[test]
fn empty_query_matches_every_line() {
    let contents = "alpha\nbeta\ngamma";
    assert_eq!(vec!["alpha", "beta", "gamma"], search("", contents));
    assert_eq!(
        vec!["alpha", "beta", "gamma"],
        search_case_insensitive("", contents)
    );
}

#[test]
fn empty_corpus_yields_no_matches() {
    assert_eq!(Vec::<&str>::new(), search("query", ""));
    assert_eq!(Vec::<&str>::new(), search_case_insensitive("query", ""));
}

#[test]
fn empty_query_on_empty_corpus() {
    assert_eq!(Vec::<&str>::new(), search("", ""));
    assert_eq!(Vec::<&str>::new(), search_case_insensitive("", ""));
}

#[test]
fn search_is_case_sensitive() {
    assert_eq!(Vec::<&str>::new(), search("RUST", "Rust:\nTrust me."));
    assert_eq!(vec!["Rust:"], search("Rust", "Rust:\nTrust me.\nno trust"));
    assert_eq!(vec!["Trust me.", "no trust"], search("rust", "Rust:\nTrust me.\nno trust"));
}

#[test]
fn lowering_applies_to_query_and_lines() {
    // fails if lowercasing handed its argument back unchanged
    assert_eq!(vec!["duct tape"], search_case_insensitive("DUCT", "duct tape"));
    assert_eq!(vec!["DUCT TAPE"], search_case_insensitive("duct", "DUCT TAPE"));
}

#[test]
fn matches_keep_source_order() {
    let contents = "one match\nnothing here\nanother match\nmatch again";
    assert_eq!(
        vec!["one match", "another match", "match again"],
        search("match", contents)
    );
}

#[test]
fn trailing_newline_closes_last_line() {
    assert_eq!(vec!["tail"], search("tail", "tail\n"));
    assert_eq!(vec!["head", "tail"], search("", "head\ntail\n"));
}

#[test]
fn blank_lines_are_candidates() {
    assert_eq!(vec!["a", "", "b"], search("", "a\n\nb"));
}

#[test]
fn carriage_return_belongs_to_the_terminator() {
    assert_eq!(Vec::<&str>::new(), search("\r", "a\r\nb"));
    assert_eq!(vec!["a", "b"], search("", "a\r\nb"));
    assert_eq!(vec!["a", "b"], search_case_insensitive("", "a\r\nb"));
    assert_eq!(vec!["a"], search("a", "a\r\n"));
}

#[test]
fn lone_carriage_returns_stay_in_lines() {
    // only a carriage return directly before a newline is a terminator
    assert_eq!(vec!["a\r"], search("", "a\r"));
    assert_eq!(vec!["a\r"], search("\r", "a\r\r\n"));
    assert_eq!(vec!["a\rb"], search("\r", "a\rb\nc"));
}

#[test]
fn repeated_search_yields_identical_results() {
    let query = "pro";
    let contents = "safe, fast, productive\nPick three.";
    let first = search(query, contents);
    let second = search(query, contents);
    assert_eq!(first, second);
    let first_nocase = search_case_insensitive("PRO", contents);
    let second_nocase = search_case_insensitive("PRO", contents);
    assert_eq!(first_nocase, second_nocase);
}

#[test]
fn run_search_selects_policy() {
    let sensitive = Config {
        query: String::from("Rust"),
        filename: String::from("poem.txt"),
        case_sensitive: true,
    };
    let insensitive = Config {
        query: String::from("Rust"),
        filename: String::from("poem.txt"),
        case_sensitive: false,
    };
    let contents = "Rust:\nTrust me.";
    assert_eq!(vec!["Rust:"], run_search(&sensitive, contents));
    assert_eq!(vec!["Rust:", "Trust me."], run_search(&insensitive, contents));
}
