use minigrep::lines::{join_lines, split_lines};
use minigrep::text::contains_substring;
use minigrep::{run_search, search, search_case_insensitive, Config};

#[test]
fn one_result() {
    let query = "duct";
    let contents = "\
Rust:
safe, fast, productive.
Pick three.";

    assert_eq!(vec!["safe, fast, productive."], search(query, contents));
}

#[test]
fn case_sensitive() {
    let query = "duct";
    let contents = "\
Rust:
safe, fast, productive.
Pick three.
Duct tape.";

    assert_eq!(vec!["safe, fast, productive."], search(query, contents));
}

#[test]
fn case_insensitive() {
    let query = "rUsT";
    let contents = "\
Rust:
safe, fast, productive.
Pick three.
Trust me.";
    assert_eq!(
        vec!["Rust:", "Trust me."],
        search_case_insensitive(query, contents)
    );
}

#[test]
fn empty_query_matches_every_line_case_sensitive() {
    let contents = "alpha\n\nbeta\n";
    assert_eq!(vec!["alpha", "", "beta"], search("", contents));
}

#[test]
fn empty_query_matches_every_line_case_insensitive() {
    let contents = "alpha\n\nbeta\n";
    assert_eq!(vec!["alpha", "", "beta"], search_case_insensitive("", contents));
}

#[test]
fn empty_contents_has_no_lines() {
    assert_eq!(Vec::<&str>::new(), search("", ""));
    assert_eq!(Vec::<&str>::new(), search_case_insensitive("anything", ""));
}

#[test]
fn result_order_follows_source_order() {
    let contents = "alpha\nthree\ngamma\ndelta";
    assert_eq!(vec!["alpha", "gamma", "delta"], search("a", contents));
}

#[test]
fn line_with_repeated_occurrences_appears_once() {
    let contents = "aaa bb aa\nbbb";
    assert_eq!(vec!["aaa bb aa"], search("aa", contents));
}

#[test]
fn case_insensitive_is_superset_of_case_sensitive() {
    let query = "duct";
    let contents = "Rust:\nsafe, fast, productive.\nPick three.\nDuct tape.";
    let sensitive = search(query, contents);
    let insensitive = search_case_insensitive(query, contents);
    for line in &sensitive {
        assert!(insensitive.contains(line));
    }
    assert_eq!(
        vec!["safe, fast, productive.", "Duct tape."],
        insensitive
    );
}

#[test]
fn split_and_join_roundtrip_without_trailing_terminator() {
    let contents = "one\ntwo\nthree";
    let lines = split_lines(contents);
    assert_eq!(vec!["one", "two", "three"], lines);
    assert_eq!(contents, join_lines(&lines));
}

#[test]
fn split_and_join_roundtrip_drops_one_trailing_terminator() {
    let contents = "one\ntwo\nthree\n";
    let lines = split_lines(contents);
    assert_eq!(vec!["one", "two", "three"], lines);
    assert_eq!("one\ntwo\nthree", join_lines(&lines));
}

#[test]
fn split_keeps_interior_empty_lines() {
    let lines = split_lines("a\n\nb");
    assert_eq!(vec!["a", "", "b"], lines);
    assert_eq!("a\n\nb", join_lines(&lines));
}

#[test]
fn split_of_empty_text_yields_no_lines() {
    let lines = split_lines("");
    assert_eq!(Vec::<&str>::new(), lines);
    assert_eq!("", join_lines(&lines));
}

#[test]
fn crlf_terminator_is_stripped_from_lines() {
    assert_eq!(vec!["a"], search("a", "a\r\nb"));
    assert_eq!(vec!["a", "b"], search("", "a\r\nb"));
    assert_eq!(vec!["b"], search_case_insensitive("B", "a\r\nb"));
    assert_eq!(vec!["one", "two"], split_lines("one\r\ntwo\r\n"));
}

#[test]
fn bare_carriage_return_stays_in_the_line() {
    assert_eq!(vec!["a\rb"], split_lines("a\rb"));
    assert_eq!(vec!["b\r"], split_lines("b\r"));
    assert_eq!(vec!["a\rb"], search("a\rb", "a\rb"));
}

#[test]
fn join_writes_crlf_terminators_as_newlines() {
    let lines = split_lines("one\r\ntwo\nthree\r\n");
    assert_eq!(vec!["one", "two", "three"], lines);
    assert_eq!("one\ntwo\nthree", join_lines(&lines));
}

#[test]
fn substring_search_finds_exact_runs() {
    assert!(contains_substring("safe, fast, productive.", "duct"));
    assert!(!contains_substring("Duct tape.", "duct"));
    assert!(contains_substring("anything", ""));
    assert!(!contains_substring("short", "much too long"));
}

#[test]
fn run_search_dispatches_on_ignore_case() {
    let contents = "Rust:\nsafe, fast, productive.\nPick three.\nTrust me.";
    let sensitive = Config {
        query: String::from("rUsT"),
        file_path: String::new(),
        ignore_case: false,
    };
    let insensitive = Config {
        query: String::from("rUsT"),
        file_path: String::new(),
        ignore_case: true,
    };
    assert_eq!(Vec::<&str>::new(), run_search(&sensitive, contents));
    assert_eq!(vec!["Rust:", "Trust me."], run_search(&insensitive, contents));
}
