use scbl_utils::error::StagingError;
use scbl_utils::text::{followed_by, same_text, split, without_lines};
use scbl_utils::xenium::dir::{parse_run_id, parse_slide_name, Listed, ParsedDataDir, SubDir};

fn texts(items: &[&str]) -> Vec<String> {
    items.iter().map(|item| item.to_string()).collect()
}

#[test]
fn split_without_delimiter_is_one_token() {
    assert_eq!(split("plain"), texts(&["plain"]));
    assert_eq!(split(""), texts(&[""]));
    assert_eq!(split("a_b"), texts(&["a_b"]));
}

#[test]
fn split_finds_delimiters_from_the_left() {
    assert_eq!(split("a__b"), texts(&["a", "b"]));
    assert_eq!(split("a___b"), texts(&["a", "_b"]));
    assert_eq!(split("a____b"), texts(&["a", "", "b"]));
    assert_eq!(split("a_____b"), texts(&["a", "", "_b"]));
}

#[test]
fn split_keeps_empty_tokens_at_the_ends() {
    assert_eq!(split("__a"), texts(&["", "a"]));
    assert_eq!(split("a__"), texts(&["a", ""]));
    assert_eq!(split("__"), texts(&["", ""]));
}

#[test]
fn split_agrees_with_std_on_many_names() {
    let names = [
        "2024-01-01__batch7__RUN42",
        "output-M1__SLIDE-A__regionA__2024-01-01__x",
        "_",
        "___",
        "______",
        "x_y__z_",
        "ünï__cödé__名前",
    ];
    for name in names {
        let expected: Vec<String> = name.split("__").map(|token| token.to_string()).collect();
        assert_eq!(split(name), expected);
    }
}

#[test]
fn followed_by_and_same_text() {
    assert_eq!(followed_by("ab", "cd"), "abcd");
    assert_eq!(followed_by("", ""), "");
    assert!(same_text("é", "é"));
    assert!(!same_text("a", "A"));
    assert!(!same_text("a", "ab"));
}

#[test]
fn without_lines_drops_the_first_lines() {
    assert_eq!(without_lines("title\nid,name\n1,a\n", 1), "id,name\n1,a\n");
    assert_eq!(without_lines("title\nid,name\n1,a\n", 2), "1,a\n");
    assert_eq!(without_lines("title\nid,name\n1,a\n", 0), "title\nid,name\n1,a\n");
    assert_eq!(without_lines("a\nb", 1), "b");
    assert_eq!(without_lines("a\n", 1), "");
    assert_eq!(without_lines("a", 1), "");
    assert_eq!(without_lines("a\nb", 5), "");
    assert_eq!(without_lines("\n\nx", 2), "x");
}

#[test]
fn run_id_is_the_last_token() {
    assert_eq!(parse_run_id("2024-01-01__batch7__RUN42"), Some("RUN42".to_string()));
    assert_eq!(parse_run_id("2024__x__R1"), Some("R1".to_string()));
    assert_eq!(parse_run_id("a__"), Some("".to_string()));
    assert_eq!(parse_run_id("x___RUN"), Some("_RUN".to_string()));
}

#[test]
fn run_id_needs_a_delimiter() {
    assert_eq!(parse_run_id("RUN42"), None);
    assert_eq!(parse_run_id("2024_batch7_RUN42"), None);
    assert_eq!(parse_run_id(""), None);
}

#[test]
fn slide_name_is_the_second_token() {
    assert_eq!(
        parse_slide_name("output-M1__SLIDE-A__regionA__2024-01-01__x"),
        Some("SLIDE-A".to_string())
    );
    assert_eq!(parse_slide_name("o__S1"), Some("S1".to_string()));
    assert_eq!(parse_slide_name("o____r"), Some("".to_string()));
    assert_eq!(parse_slide_name("output-M1"), None);
}

#[test]
fn run_name_without_delimiter_is_refused() {
    let parsed = ParsedDataDir::from_names("/data/RUN42", Some("RUN42".to_string()), &Vec::new());
    assert_eq!(parsed, Err(StagingError::MalformedRunName { path: "/data/RUN42".to_string() }));
    let unnamed = ParsedDataDir::from_names("/", None, &Vec::new());
    assert_eq!(unnamed, Err(StagingError::MalformedRunName { path: "/".to_string() }));
}

#[test]
fn from_names_keeps_the_listing_order_and_passes_over_the_marker() {
    let entries = vec![
        Listed { path: "run/o__S2__r".to_string(), name: Some("o__S2__r".to_string()) },
        Listed { path: "run/.gitkeep".to_string(), name: Some(".gitkeep".to_string()) },
        Listed { path: "run/o__S1__r".to_string(), name: Some("o__S1__r".to_string()) },
    ];
    let parsed = ParsedDataDir::from_names("run", Some("d__x__R9".to_string()), &entries).unwrap();
    assert_eq!(parsed.path, "run");
    assert_eq!(parsed.run_id, "R9");
    assert_eq!(
        parsed.subdirs,
        vec![
            SubDir { path: "run/o__S2__r".to_string(), slide_name: "S2".to_string() },
            SubDir { path: "run/o__S1__r".to_string(), slide_name: "S1".to_string() },
        ]
    );
}

#[test]
fn from_names_refuses_the_first_malformed_entry() {
    let entries = vec![
        Listed { path: "run/o__S2__r".to_string(), name: Some("o__S2__r".to_string()) },
        Listed { path: "run/notes".to_string(), name: Some("notes".to_string()) },
        Listed { path: "run/..".to_string(), name: None },
    ];
    let parsed = ParsedDataDir::from_names("run", Some("d__x__R9".to_string()), &entries);
    assert_eq!(parsed, Err(StagingError::MalformedSubdirName { path: "run/notes".to_string() }));
    let unnamed = vec![Listed { path: "run/..".to_string(), name: None }];
    let parsed = ParsedDataDir::from_names("run", Some("d__x__R9".to_string()), &unnamed);
    assert_eq!(parsed, Err(StagingError::MalformedSubdirName { path: "run/..".to_string() }));
}

#[test]
fn a_run_name_is_checked_before_the_entries() {
    let entries = vec![Listed { path: "run/notes".to_string(), name: Some("notes".to_string()) }];
    let parsed = ParsedDataDir::from_names("run", Some("run".to_string()), &entries);
    assert_eq!(parsed, Err(StagingError::MalformedRunName { path: "run".to_string() }));
}

#[test]
fn from_dir_takes_names_from_the_final_components() {
    let dir = "/runs__all/2024__x__R1";
    let entries = texts(&[
        "/runs__all/2024__x__R1/o__S1__r1__d__x",
        "/runs__all/2024__x__R1/.gitkeep",
        "/runs__all/2024__x__R1/o__S2__r2__d__x/",
    ]);
    let parsed = ParsedDataDir::from_dir(dir, &entries).unwrap();
    assert_eq!(parsed.path, dir);
    assert_eq!(parsed.run_id, "R1");
    assert_eq!(
        parsed.subdirs,
        vec![
            SubDir {
                path: "/runs__all/2024__x__R1/o__S1__r1__d__x".to_string(),
                slide_name: "S1".to_string()
            },
            SubDir {
                path: "/runs__all/2024__x__R1/o__S2__r2__d__x/".to_string(),
                slide_name: "S2".to_string()
            },
        ]
    );
}

#[test]
fn from_dir_refuses_a_directory_without_a_name() {
    assert_eq!(
        ParsedDataDir::from_dir("/", &Vec::new()),
        Err(StagingError::MalformedRunName { path: "/".to_string() })
    );
    assert_eq!(
        ParsedDataDir::from_dir("/a__b/..", &Vec::new()),
        Err(StagingError::MalformedRunName { path: "/a__b/..".to_string() })
    );
    assert_eq!(
        ParsedDataDir::from_dir("/a__b/plain", &Vec::new()),
        Err(StagingError::MalformedRunName { path: "/a__b/plain".to_string() })
    );
}

#[test]
fn from_dir_of_an_empty_run() {
    let parsed = ParsedDataDir::from_dir("d__x__R1", &texts(&["d__x__R1/.gitkeep"])).unwrap();
    assert_eq!(parsed.run_id, "R1");
    assert!(parsed.subdirs.is_empty());
}
