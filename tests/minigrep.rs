use vector_data_analysis::minigrep::{line_contains, search, search_case_insensitive, Config};

#[test]
fn lib_one_result() {
    let query = "duct";
    let contents = "\
Rust:
safe, fast, productive.
Pick three.";
    assert_eq!(vec!["safe, fast, productive."], search(query, contents));
}

#[test]
fn lib_case_sensitive() {
    let query = "duct";
    let contents = "\
Rust:
safe, fast, productive.
Pick three.
Duct tape.";

    assert_eq!(vec!["safe, fast, productive."], search(query, contents));
}

#[test]
fn lib_case_insensitive() {
    let query = "rUsT";
    let contents = "\
Rust:
safe, fast, productive.
Pick three.
Trust me.";

    assert_eq!(
        vec!["Rust:", "Trust me."],
        search_case_insensitive(query, contents)
    );
}

#[test]
fn search_strips_line_endings() {
    let contents = "one a\r\ntwo\r\nthree a\n";
    assert_eq!(vec!["one a", "three a"], search("a", contents));
}

#[test]
fn search_keeps_empty_lines_that_match_empty_query() {
    assert_eq!(vec!["x", "", "y"], search("", "x\n\ny\n"));
}

#[test]
fn search_in_empty_text_finds_nothing() {
    assert!(search("a", "").is_empty());
}

#[test]
fn case_insensitive_search_needs_lowercasing() {
    assert!(search("RUST", "rust is here").is_empty());
    assert_eq!(vec!["rust is here"], search_case_insensitive("RUST", "rust is here"));
}

#[test]
fn line_contains_finds_runs() {
    assert!(line_contains("productive", "duct"));
    assert!(!line_contains("Duct tape", "duct"));
    assert!(line_contains("abc", ""));
    assert!(!line_contains("ab", "abc"));
    assert!(line_contains("aab", "ab"));
}

#[test]
fn config_from_arguments() {
    let args: Vec<String> = vec!["prog".to_string(), "needle".to_string(), "poem.txt".to_string()];
    let c = Config::new(&args, false).unwrap();
    assert_eq!((c.query.as_str(), c.filename.as_str(), c.case_sensitive), ("needle", "poem.txt", false));
    let short: Vec<String> = vec!["prog".to_string(), "needle".to_string()];
    assert_eq!(Config::new(&short, true).err(), Some("not enough arguments"));
}
