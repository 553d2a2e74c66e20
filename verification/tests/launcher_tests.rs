use std::rc::Rc;

use generic_launcher::desktop_entry::XdgDesktopEntry;
use generic_launcher::launcher::{
    display_search_results, handle_enter_key, handle_result_box_hovered, hide_window,
    scroll_search_results_down, scroll_search_results_up, ActivateAction, EnterKeyAction,
    LaunchTarget, Launcher, ScrollbarPosition, SearchResultBoxData, State, RESULT_ENTRY_COUNT,
};

fn entry(name: &str) -> XdgDesktopEntry {
    XdgDesktopEntry { display_name: name.to_string(), keywords: Vec::new(), path: String::new() }
}

fn started(names: &[&str]) -> Launcher {
    let mut l = Launcher::uninitialized();
    let files: Rc<Vec<XdgDesktopEntry>> = Rc::new(names.iter().map(|n| entry(n)).collect());
    l.user_desktop_files = Some(files.clone());
    l.search_context.set_desktop_files(files);
    l.custom_launchers = Some(Rc::new(vec![entry("Screenshot")]));
    l.state = State::Visible;
    l
}

fn many(n: usize) -> Vec<String> {
    (0..n).map(|i| format!("app{}", i)).collect()
}

#[test]
fn uninitialized_launcher() {
    let l = Launcher::uninitialized();
    assert_eq!(l.state, State::NotStarted);
    assert_eq!(l.result_boxes.len(), RESULT_ENTRY_COUNT);
    for (i, b) in l.result_boxes.iter().enumerate() {
        assert_eq!(*b, SearchResultBoxData::from(i));
    }
    assert_eq!(SearchResultBoxData::new(), SearchResultBoxData::from(0));
    assert!(l.selected_search_idx.is_none());
    assert!(!l.hovering_suppressed);
}

#[test]
fn box_data_setters() {
    let mut b = SearchResultBoxData::from(3);
    b.set_idx_in_xdg_entries_vector(7);
    b.set_idx_in_search_result_vector(9);
    assert_eq!(
        b,
        SearchResultBoxData {
            idx_in_container: 3,
            idx_in_xdg_entries_vector: 7,
            idx_in_search_result_vector: 9
        }
    );
}

#[test]
fn activating_twice_toggles_the_window() {
    let mut l = started(&["a"]);
    assert_eq!(l.activate((1920, 1080)), ActivateAction::Hide);
    assert_eq!(l.state, State::Hidden);
    assert_eq!(l.current_monitor, None);
    assert_eq!(l.activate((2560, 1440)), ActivateAction::Show);
    assert_eq!(l.state, State::Visible);
    assert_eq!(l.current_monitor, Some((2560, 1440)));
}

#[test]
fn typing_searches_and_shows_first_page() {
    let mut l = started(&["Files", "Firefox", "Terminal", "Wifi"]);
    let shown = l.search_text_changed("fi".to_string());
    assert_eq!(shown, 3);
    assert_eq!(l.search_results_cache, vec![0, 1, 3]);
    assert_eq!(l.search_context.result_cache, vec![0, 1, 3]);
    assert!(l.hovering_suppressed);
    assert_eq!(l.result_boxes[0].idx_in_xdg_entries_vector, 0);
    assert_eq!(l.result_boxes[2].idx_in_xdg_entries_vector, 3);
    assert_eq!(l.result_boxes[2].idx_in_search_result_vector, 2);
    assert_eq!(l.result_boxes[3], SearchResultBoxData::from(3));
}

#[test]
fn set_result_box_returns_label() {
    let mut l = started(&["Files", "Firefox"]);
    let label = l.set_search_result_box(1, 4, 8);
    assert_eq!(label, "Firefox");
    assert_eq!(
        l.result_boxes[4],
        SearchResultBoxData {
            idx_in_container: 4,
            idx_in_xdg_entries_vector: 1,
            idx_in_search_result_vector: 8
        }
    );
}

#[test]
fn display_page_from_a_start() {
    let names = many(10);
    let refs: Vec<&str> = names.iter().map(|s| s.as_str()).collect();
    let mut l = started(&refs);
    l.set_search_results_cache((0..10).rev().collect());
    assert_eq!(display_search_results(&mut l, Some(7)), 3);
    assert_eq!(l.result_boxes[0].idx_in_xdg_entries_vector, 2);
    assert_eq!(l.result_boxes[0].idx_in_search_result_vector, 7);
    assert_eq!(l.result_boxes[2].idx_in_xdg_entries_vector, 0);
    assert_eq!(display_search_results(&mut l, Some(10)), 0);
    assert_eq!(display_search_results(&mut l, None), 6);
    assert_eq!(l.result_boxes[5].idx_in_xdg_entries_vector, 4);
}

#[test]
fn enter_with_empty_bar_lists_everything() {
    let mut l = started(&["b", "a", "c"]);
    let action = handle_enter_key(&mut l, false, true);
    assert_eq!(action, EnterKeyAction::ShowAllApplications(3));
    assert_eq!(l.search_results_cache, vec![0, 1, 2]);
}

#[test]
fn enter_with_hidden_results_and_text_does_nothing() {
    let mut l = started(&["b", "a", "c"]);
    assert_eq!(handle_enter_key(&mut l, false, false), EnterKeyAction::Nothing);
    assert_eq!(l.search_results_cache, Vec::<usize>::new());
}

#[test]
fn enter_launches_selection_and_hides() {
    let mut l = started(&["Files", "Firefox", "Terminal"]);
    l.search_text_changed("ter".to_string());
    l.result_box_focused(0);
    assert_eq!(handle_enter_key(&mut l, true, false), EnterKeyAction::Launch(LaunchTarget::DesktopEntry(2)));
    assert_eq!(l.state, State::Hidden);
}

#[test]
fn enter_without_selection_focuses_first_result() {
    let mut l = started(&["Files", "Firefox", "Terminal"]);
    l.search_text_changed("f".to_string());
    l.search_bar_focused();
    assert_eq!(handle_enter_key(&mut l, true, false), EnterKeyAction::FocusFirstResult);
    assert_eq!(l.state, State::Visible);
}

#[test]
fn screenshot_button_launches_custom_launcher() {
    let mut l = started(&["Files"]);
    l.screenshot_button_focused();
    assert_eq!(l.selected_search_idx, Some(-1));
    assert_eq!(l.launch_selected_application(), Some(LaunchTarget::CustomLauncher(0)));
    l.custom_launchers = Some(Rc::new(Vec::new()));
    assert_eq!(l.launch_selected_application(), None);
}

#[test]
fn launch_target_of_selected_box() {
    let mut l = started(&["Files", "Firefox", "Terminal"]);
    l.search_text_changed("fi".to_string());
    l.result_box_focused(1);
    assert_eq!(l.launch_selected_application(), Some(LaunchTarget::DesktopEntry(1)));
    l.result_box_focused(9);
    assert_eq!(l.launch_selected_application(), None);
    l.search_bar_focused();
    assert_eq!(l.launch_selected_application(), Some(LaunchTarget::DesktopEntry(0)));
}

#[test]
fn scrolling_down_and_up() {
    let names = many(9);
    let refs: Vec<&str> = names.iter().map(|s| s.as_str()).collect();
    let mut l = started(&refs);
    l.search_text_changed("app".to_string());
    assert_eq!(l.search_results_cache.len(), 9);
    // Not on the last box: only the scroll bar is reported.
    l.result_box_focused(2);
    assert_eq!(
        scroll_search_results_down(&mut l),
        Some(ScrollbarPosition { top: 0, result_count: 9, per_page: 6 })
    );
    l.result_box_focused(5);
    assert_eq!(
        scroll_search_results_down(&mut l),
        Some(ScrollbarPosition { top: 1, result_count: 9, per_page: 6 })
    );
    assert_eq!(l.result_boxes[0].idx_in_xdg_entries_vector, 1);
    assert_eq!(scroll_search_results_down(&mut l).unwrap().top, 2);
    assert_eq!(scroll_search_results_down(&mut l).unwrap().top, 3);
    // No full page after result 3.
    assert_eq!(scroll_search_results_down(&mut l), None);
    assert_eq!(l.result_boxes[0].idx_in_search_result_vector, 3);
    l.result_box_focused(0);
    assert!(scroll_search_results_up(&mut l));
    assert_eq!(l.result_boxes[0].idx_in_search_result_vector, 2);
    assert!(scroll_search_results_up(&mut l));
    assert!(scroll_search_results_up(&mut l));
    assert!(!scroll_search_results_up(&mut l));
    assert_eq!(l.result_boxes[0].idx_in_search_result_vector, 0);
    assert_eq!(
        l.adjust_results_scrollbar(),
        ScrollbarPosition { top: 0, result_count: 9, per_page: 6 }
    );
}

#[test]
fn scrollbar_with_few_results() {
    let mut l = started(&["a1", "a2", "b"]);
    l.search_text_changed("a".to_string());
    assert_eq!(
        l.adjust_results_scrollbar(),
        ScrollbarPosition { top: 0, result_count: 2, per_page: 2 }
    );
    l.result_box_focused(5);
    assert_eq!(scroll_search_results_down(&mut l), None);
}

#[test]
fn hovering_after_typing_only_reenables_motion() {
    let mut l = started(&["a", "b"]);
    l.search_text_changed("a".to_string());
    assert!(l.hovering_suppressed);
    assert!(!handle_result_box_hovered(&mut l, 3));
    assert!(!l.hovering_suppressed);
    assert_eq!(l.selected_search_idx, None);
    assert!(handle_result_box_hovered(&mut l, 3));
    assert_eq!(l.selected_search_idx, Some(3));
    assert_eq!(l.hovered_idx, 3);
    l.disable_motion_events();
    assert!(l.hovering_suppressed);
    l.enable_motion_events();
    assert!(!l.hovering_suppressed);
}

#[test]
fn hiding_the_window() {
    let mut l = started(&["a"]);
    hide_window(&mut l);
    assert_eq!(l.state, State::Hidden);
}

#[test]
fn shown_results_on_last_page() {
    let names = many(8);
    let refs: Vec<&str> = names.iter().map(|s| s.as_str()).collect();
    let mut l = started(&refs);
    l.search_text_changed("app".to_string());
    assert_eq!(l.shown_results(), 6);
    display_search_results(&mut l, Some(5));
    assert_eq!(l.shown_results(), 3);
    let mut empty = started(&["x"]);
    empty.search_text_changed("zz".to_string());
    assert_eq!(empty.shown_results(), 0);
}

#[test]
fn scrolling_down_then_up_restores_the_page() {
    let names = many(12);
    let refs: Vec<&str> = names.iter().map(|s| s.as_str()).collect();
    let mut l = started(&refs);
    l.search_text_changed("app".to_string());
    display_search_results(&mut l, Some(2));
    let before = l.result_boxes.clone();
    l.result_box_focused(5);
    assert!(scroll_search_results_down(&mut l).is_some());
    assert_ne!(l.result_boxes, before);
    l.result_box_focused(0);
    assert!(scroll_search_results_up(&mut l));
    assert_eq!(l.result_boxes, before);
}

#[test]
fn first_hover_after_typing_keeps_selection() {
    let mut l = started(&["a", "b"]);
    l.result_box_focused(1);
    l.search_text_changed("a".to_string());
    assert!(!handle_result_box_hovered(&mut l, 0));
    assert_eq!(l.selected_search_idx, Some(1));
    assert!(handle_result_box_hovered(&mut l, 0));
    assert_eq!(l.selected_search_idx, Some(0));
}
