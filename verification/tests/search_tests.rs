use std::rc::Rc;

use generic_launcher::desktop_entry::XdgDesktopEntry;
use generic_launcher::search::{
    fetch_search_results, find_chars, get_search_score_for,
    get_xdg_index_from_last_search_result_idx, refetch_results, SearchContext,
    MAX_SEARCH_RESULTS,
};

fn entry(name: &str) -> XdgDesktopEntry {
    XdgDesktopEntry {
        display_name: name.to_string(),
        keywords: Vec::new(),
        path: format!("/usr/share/applications/{}.desktop", name),
    }
}

fn context(names: &[&str]) -> SearchContext {
    let mut c = SearchContext::default();
    c.set_desktop_files(Rc::new(names.iter().map(|n| entry(n)).collect()));
    c
}

#[test]
fn score_is_max_minus_byte_offset() {
    assert_eq!(get_search_score_for(&entry("Firefox"), "fox"), usize::MAX - 4);
    assert_eq!(get_search_score_for(&entry("Firefox"), "fire"), usize::MAX);
    assert_eq!(get_search_score_for(&entry("Firefox"), "chrome"), 0);
}

#[test]
fn score_counts_bytes_not_characters() {
    // 'É' is not lower-cased (not ASCII) and takes two bytes.
    assert_eq!(get_search_score_for(&entry("Éclair"), "clair"), usize::MAX - 2);
    assert_eq!(get_search_score_for(&entry("Éclair"), "éclair"), 0);
}

#[test]
fn score_of_empty_query_is_max() {
    assert_eq!(get_search_score_for(&entry("Anything"), ""), usize::MAX);
}

#[test]
fn find_chars_first_occurrence() {
    let hay: Vec<char> = "abcabc".chars().collect();
    let needle: Vec<char> = "ca".chars().collect();
    assert_eq!(find_chars(&hay, &needle), Some(2));
    let missing: Vec<char> = "cb".chars().collect();
    assert_eq!(find_chars(&hay, &missing), None);
    let empty: Vec<char> = Vec::new();
    assert_eq!(find_chars(&hay, &empty), Some(0));
}

#[test]
fn results_ranked_by_position_of_match() {
    let c = context(&["Wifi Settings", "GIMP", "Firefox", "Files"]);
    assert_eq!(fetch_search_results(&c, "fi".to_string()), vec![2, 3, 0]);
}

#[test]
fn search_ignores_ascii_case() {
    let c = context(&["Wifi Settings", "GIMP", "Firefox", "Files"]);
    assert_eq!(fetch_search_results(&c, "FI".to_string()), vec![2, 3, 0]);
    assert_eq!(fetch_search_results(&c, "gImP".to_string()), vec![1]);
}

#[test]
fn newline_lists_every_entry_in_order() {
    let c = context(&["b", "a", "c"]);
    assert_eq!(fetch_search_results(&c, "\n".to_string()), vec![0, 1, 2]);
}

#[test]
fn empty_query_gives_no_results() {
    let c = context(&["b", "a", "c"]);
    assert_eq!(fetch_search_results(&c, String::new()), Vec::<usize>::new());
}

#[test]
fn no_match_gives_no_results() {
    let c = context(&["Terminal", "Editor"]);
    assert_eq!(fetch_search_results(&c, "zzz".to_string()), Vec::<usize>::new());
}

#[test]
fn at_most_max_results_are_ranked() {
    let names: Vec<String> = (0..250).map(|i| format!("app{}", i)).collect();
    let refs: Vec<&str> = names.iter().map(|s| s.as_str()).collect();
    let c = context(&refs);
    let r = fetch_search_results(&c, "app".to_string());
    assert_eq!(r.len(), MAX_SEARCH_RESULTS);
    assert_eq!(r, (0..200).collect::<Vec<usize>>());
}

#[test]
fn later_match_of_the_first_200_is_kept_over_better_later_entries() {
    let mut names: Vec<String> = (0..200).map(|i| format!("my app{}", i)).collect();
    names.push("app".to_string());
    let refs: Vec<&str> = names.iter().map(|s| s.as_str()).collect();
    let c = context(&refs);
    let r = fetch_search_results(&c, "app".to_string());
    assert_eq!(r.len(), 200);
    assert!(!r.contains(&200));
}

#[test]
fn refetch_remembers_results() {
    let mut c = context(&["Terminal", "Text Editor", "Files"]);
    let r = refetch_results(&mut c, "te".to_string());
    assert_eq!(r, vec![0, 1]);
    assert_eq!(get_xdg_index_from_last_search_result_idx(&c, 0), Some(0));
    assert_eq!(get_xdg_index_from_last_search_result_idx(&c, 1), Some(1));
    assert_eq!(get_xdg_index_from_last_search_result_idx(&c, 2), None);
    let r = refetch_results(&mut c, "files".to_string());
    assert_eq!(r, vec![2]);
    assert_eq!(get_xdg_index_from_last_search_result_idx(&c, 0), Some(2));
}

#[test]
fn every_result_contains_the_query() {
    let c = context(&["Calculator", "Calendar", "Clock", "Maps", "Cal"]);
    let r = fetch_search_results(&c, "cal".to_string());
    for i in &r {
        assert!(c.user_desktop_files[*i].display_name.to_lowercase().contains("cal"));
    }
    assert_eq!(r, vec![0, 1, 4]);
}
