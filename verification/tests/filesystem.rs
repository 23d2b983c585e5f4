use cookbook::filesystem::{
    count_before, find_duplicates, is_not_hidden, is_recent_file, is_recent_json,
};

#[test]
fn hidden_entries_are_passed_over_below_the_root() {
    assert!(is_not_hidden(Some("."), 0));
    assert!(is_not_hidden(Some(".git"), 0));
    assert!(!is_not_hidden(Some(".git"), 1));
    assert!(!is_not_hidden(Some("."), 3));
    assert!(is_not_hidden(Some("src"), 1));
    assert!(is_not_hidden(Some("a.b"), 2));
    assert!(is_not_hidden(Some(""), 5));
    assert!(!is_not_hidden(None, 0));
    assert!(!is_not_hidden(None, 1));
}

#[test]
fn json_files_of_the_last_day() {
    assert!(is_recent_json("data.json", 0));
    assert!(is_recent_json(".json", 86399));
    assert!(!is_recent_json("data.json", 86400));
    assert!(!is_recent_json("data.jso", 0));
    assert!(!is_recent_json("json", 0));
    assert!(!is_recent_json("data.JSON", 0));
    assert!(!is_recent_json("data.json.bak", 0));
    assert!(!is_recent_json("", 0));
}

#[test]
fn files_of_the_last_day() {
    assert!(is_recent_file(true, 86399));
    assert!(!is_recent_file(true, 86400));
    assert!(!is_recent_file(false, 0));
}

#[test]
fn duplicates_are_named_at_their_second_occurrence() {
    let names: Vec<String> = ["a", "b", "a", "c", "b", "a", "a"].iter().map(|s| s.to_string()).collect();
    assert_eq!(find_duplicates(&names), vec!["a", "b"]);
    assert_eq!(count_before(&names, 7, &"a".to_string()), 4);
    assert_eq!(count_before(&names, 2, &"a".to_string()), 1);
    assert_eq!(count_before(&names, 0, &"a".to_string()), 0);
    let unique: Vec<String> = ["x", "y"].iter().map(|s| s.to_string()).collect();
    assert!(find_duplicates(&unique).is_empty());
    assert!(find_duplicates(&Vec::new()).is_empty());
}
