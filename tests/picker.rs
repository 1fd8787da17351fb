use nt_search::dashboard::{App, Window, WidgetType};
use nt_search::fuzzy::{FuzzySearch, Matcher, rank_by_scores};
use nt_search::nt::NtUpdate;

fn strings(items: &[&str]) -> Vec<String> {
    items.iter().map(|s| s.to_string()).collect()
}

fn app_with(topics: &[&str]) -> App {
    let mut app = App::new();
    let batch: Vec<NtUpdate> = topics
        .iter()
        .map(|t| NtUpdate::KV(t.to_string(), "None".to_string()))
        .collect();
    app.apply_updates(&batch);
    app
}

#[test]
fn rank_by_scores_orders_best_first_and_keeps_ties() {
    let items = strings(&["a", "b", "c", "d"]);
    let scores = vec![Some(1), None, Some(5), Some(1)];
    let r = rank_by_scores(&items, &scores);
    assert_eq!(r, vec![(5, "c".to_string()), (1, "a".to_string()), (1, "d".to_string())]);
}

#[test]
fn rank_by_scores_empty() {
    let r = rank_by_scores(&[], &[]);
    assert!(r.is_empty());
}

#[test]
fn match_items_prefers_tight_match_and_drops_non_matches() {
    let m = Matcher::new();
    let items = strings(&["abc", "xaybzc", "zzz"]);
    let r = m.match_items("ab", &items);
    assert_eq!(r.len(), 2);
    assert_eq!(r[0].1, "abc");
    assert_eq!(r[1].1, "xaybzc");
    assert!(r[0].0 >= r[1].0);
}

#[test]
fn match_items_scores_descend() {
    let m = Matcher::new();
    let items = strings(&["/robot/arm", "/robot/x", "/drive/left", "/robot/arm/angle"]);
    let r = m.match_items("rbt", &items);
    assert!(!r.is_empty());
    for w in r.windows(2) {
        assert!(w[0].0 >= w[1].0);
    }
    assert!(r.iter().all(|(_, t)| t.starts_with("/robot")));
}

#[test]
fn open_with_empty_query_shows_all_topics_with_cursor_at_start() {
    let mut app = app_with(&["/a/b", "/a/c", "/d"]);
    app.fuzzy_search.input = "zz".to_string();
    app.fuzzy_search.selected = Some(2);
    app.enter_fuzzy_search();
    assert_eq!(app.mode, Window::FuzzySearch);
    assert_eq!(app.fuzzy_search.input, "");
    assert_eq!(app.fuzzy_search.matches, strings(&["/a/b", "/a/c", "/d"]));
    assert_eq!(app.fuzzy_search.selected, Some(0));
}

#[test]
fn open_with_no_topics_has_no_cursor() {
    let mut app = App::new();
    app.enter_fuzzy_search();
    assert!(app.fuzzy_search.matches.is_empty());
    assert_eq!(app.fuzzy_search.selected, None);
    assert_eq!(app.fuzzy_search.get_selected(), None);
}

#[test]
fn query_filters_results() {
    let mut s = FuzzySearch::new();
    s.input = "ab".to_string();
    s.update_matches(&strings(&["abc", "xaybzc", "zzz"]));
    assert_eq!(s.matches, strings(&["abc", "xaybzc"]));
    assert_eq!(s.selected, Some(0));
}

#[test]
fn shrinking_results_clamps_cursor() {
    let mut s = FuzzySearch::new();
    s.update_matches(&strings(&["a", "b", "c", "d", "e"]));
    s.selected = Some(4);
    s.update_matches(&strings(&["a", "b"]));
    assert_eq!(s.selected, Some(1));
    assert_eq!(s.get_selected(), Some(&"b".to_string()));
}

#[test]
fn shrinking_results_keeps_cursor_in_range() {
    let mut s = FuzzySearch::new();
    s.update_matches(&strings(&["a", "b", "c", "d", "e"]));
    s.selected = Some(1);
    s.update_matches(&strings(&["x", "y", "z"]));
    assert_eq!(s.selected, Some(1));
}

#[test]
fn emptying_results_clears_cursor() {
    let mut s = FuzzySearch::new();
    s.update_matches(&strings(&["a", "b"]));
    s.selected = Some(1);
    s.input = "q".to_string();
    s.update_matches(&strings(&["a", "b"]));
    assert!(s.matches.is_empty());
    assert_eq!(s.selected, None);
}

#[test]
fn move_selection_wraps_both_ways() {
    let mut s = FuzzySearch::new();
    s.update_matches(&strings(&["a", "b", "c", "d", "e"]));
    s.move_selection(1);
    assert_eq!(s.selected, Some(1));
    s.move_selection(-2);
    assert_eq!(s.selected, Some(4));
    s.move_selection(1);
    assert_eq!(s.selected, Some(0));
    s.move_selection(13);
    assert_eq!(s.selected, Some(3));
    s.move_selection(-9);
    assert_eq!(s.selected, Some(4));
    s.move_selection(isize::MIN);
    assert_eq!(s.selected, Some(((4i128 + isize::MIN as i128).rem_euclid(5)) as usize));
}

#[test]
fn move_selection_round_trip() {
    let mut s = FuzzySearch::new();
    s.update_matches(&strings(&["a", "b", "c", "d", "e", "f", "g"]));
    s.selected = Some(2);
    for k in [-20isize, -7, -1, 0, 3, 7, 19] {
        s.move_selection(k);
        s.move_selection(7 - k);
        assert_eq!(s.selected, Some(2));
    }
}

#[test]
fn move_selection_on_empty_list_does_nothing() {
    let mut s = FuzzySearch::new();
    s.update_matches(&Vec::new());
    s.move_selection(3);
    assert_eq!(s.selected, None);
}

#[test]
fn selection_commits_a_text_widget() {
    let mut app = app_with(&["/a", "/b", "/c"]);
    app.enter_fuzzy_search();
    app.fuzzy_search.move_selection(2);
    let r = app.handle_search_selection();
    assert_eq!(r, Some("/c".to_string()));
    assert_eq!(app.widgets.len(), 1);
    assert_eq!(app.widgets[0].topic, "/c");
    assert_eq!(app.widgets[0].label, "/c");
    assert_eq!(app.widgets[0].widget_type, WidgetType::Text);
    assert_eq!(app.mode, Window::Main);
    assert_eq!(app.fuzzy_search.input, "");
}

#[test]
fn selection_with_nothing_selected_returns_none() {
    let mut app = App::new();
    app.enter_fuzzy_search();
    assert_eq!(app.handle_search_selection(), None);
    assert!(app.widgets.is_empty());
    assert_eq!(app.mode, Window::FuzzySearch);
}

#[test]
fn exit_clears_query() {
    let mut app = app_with(&["/a"]);
    app.enter_fuzzy_search();
    app.fuzzy_search.input = "a".to_string();
    app.exit_fuzzy_search();
    assert_eq!(app.mode, Window::Main);
    assert_eq!(app.fuzzy_search.input, "");
}

#[test]
fn updates_refresh_open_picker() {
    let mut app = app_with(&["/a/x", "/b/y"]);
    app.enter_fuzzy_search();
    app.fuzzy_search.input = "x".to_string();
    app.apply_updates(&vec![NtUpdate::KV("/c/x".to_string(), "1".to_string())]);
    assert_eq!(app.fuzzy_search.matches.len(), 2);
    assert!(app.fuzzy_search.matches.contains(&"/c/x".to_string()));
    assert!(!app.fuzzy_search.matches.contains(&"/b/y".to_string()));
}

#[test]
fn new_picker_has_no_cursor() {
    let s = FuzzySearch::new();
    assert!(s.input.is_empty());
    assert!(s.matches.is_empty());
    assert_eq!(s.selected, None);
    assert_eq!(s.get_selected(), None);
    assert_eq!(App::new().fuzzy_search.selected, None);
}

#[test]
fn match_items_smart_case() {
    let m = Matcher::new();
    let items = strings(&["abc", "ABc", "xyz"]);
    let lower: Vec<String> = m.match_items("ab", &items).into_iter().map(|(_, t)| t).collect();
    assert_eq!(lower.len(), 2);
    assert!(lower.contains(&"abc".to_string()) && lower.contains(&"ABc".to_string()));
    let upper: Vec<String> = m.match_items("AB", &items).into_iter().map(|(_, t)| t).collect();
    assert_eq!(upper, strings(&["ABc"]));
}

#[test]
fn match_items_empty_query_scores_zero() {
    let m = Matcher::new();
    let r = m.match_items("", &strings(&["a", "b"]));
    assert_eq!(r, vec![(0, "a".to_string()), (0, "b".to_string())]);
}
