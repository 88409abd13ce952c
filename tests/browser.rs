use trycli::app::{Action, App, KeyCode, KeyEvent, MouseKind, SortBy};
use trycli::collect::Package;

fn pkg(name: &str, epoch: u64, source: &str, description: &str) -> Package {
    Package {
        epoch,
        name: name.to_string(),
        source: source.to_string(),
        description: description.to_string(),
    }
}

fn key(code: KeyCode) -> KeyEvent {
    KeyEvent { code, ctrl: false, alt: false, press: true }
}

fn ch(c: char) -> KeyEvent {
    key(KeyCode::Char(c))
}

fn ctrl(c: char) -> KeyEvent {
    KeyEvent { code: KeyCode::Char(c), ctrl: true, alt: false, press: true }
}

fn alt(c: char) -> KeyEvent {
    KeyEvent { code: KeyCode::Char(c), ctrl: false, alt: true, press: true }
}

fn sample() -> App {
    App::new(
        vec![
            pkg("ripgrep", 300, "cargo", "Fast grep"),
            pkg("bat", 100, "pacman", "Cat clone with wings"),
            pkg("fd", 200, "brew", "Simple find"),
            pkg("eza", 200, "cargo", "Modern ls"),
        ],
        vec![("bat".to_string(), 7), ("fd".to_string(), 2), ("bat".to_string(), 99)],
        false,
    )
}

fn names(app: &App) -> Vec<String> {
    app.filtered.iter().map(|&i| app.packages[i].name.clone()).collect()
}

#[test]
fn end_to_end_sort_then_filter() {
    let mut app = App::new(
        vec![pkg("alpha", 100, "cargo", ""), pkg("beta", 200, "cargo", "")],
        vec![],
        false,
    );
    assert_eq!(app.sort_by, SortBy::Date);
    assert!(!app.sort_asc);
    app.apply_sort();
    assert_eq!(names(&app), vec!["beta", "alpha"]);
    app.selected = Some(1);
    app.filter = "alp".to_string();
    app.apply_filter();
    assert_eq!(names(&app), vec!["alpha"]);
    assert_eq!(app.selected, Some(0));
    assert_eq!(app.selected_package().unwrap().name, "alpha");
}

#[test]
fn new_lists_everything_and_selects_first() {
    let app = sample();
    assert_eq!(app.filtered, vec![0, 1, 2, 3]);
    assert_eq!(app.selected, Some(0));
    assert_eq!(app.split_pct, 65);
    let empty = App::new(vec![], vec![], true);
    assert_eq!(empty.selected, None);
    assert!(empty.auditd_warning);
}

#[test]
fn filter_is_case_insensitive_over_all_fields() {
    let mut app = sample();
    app.filter = "CAT".to_string();
    app.apply_filter();
    assert_eq!(names(&app), vec!["bat"]);
    app.filter = "Cargo".to_string();
    app.apply_filter();
    assert_eq!(names(&app), vec!["ripgrep", "eza"]);
    app.filter = "FIND".to_string();
    app.apply_filter();
    assert_eq!(names(&app), vec!["fd"]);
}

#[test]
fn empty_filter_keeps_every_row() {
    let mut app = sample();
    app.filter = String::new();
    app.apply_filter();
    assert_eq!(names(&app), vec!["ripgrep", "fd", "eza", "bat"]);
}

#[test]
fn date_ties_keep_their_order() {
    let mut app = sample();
    app.apply_sort();
    assert_eq!(names(&app), vec!["ripgrep", "fd", "eza", "bat"]);
    app.sort_asc = true;
    app.apply_sort();
    assert_eq!(names(&app), vec!["bat", "fd", "eza", "ripgrep"]);
}

#[test]
fn sorting_twice_equals_sorting_once() {
    let mut app = sample();
    app.sort_by = SortBy::Name;
    app.sort_asc = true;
    app.apply_sort();
    let once = app.filtered.clone();
    app.apply_sort();
    assert_eq!(app.filtered, once);
    assert_eq!(names(&app), vec!["bat", "eza", "fd", "ripgrep"]);
}

#[test]
fn toggling_direction_twice_restores_order() {
    let mut app = sample();
    app.handle_key(ch(','));
    app.handle_key(ch('n'));
    let first = names(&app);
    assert_eq!(first, vec!["bat", "eza", "fd", "ripgrep"]);
    app.handle_key(ch(','));
    app.handle_key(ch('n'));
    assert!(!app.sort_asc);
    assert_eq!(names(&app), vec!["ripgrep", "fd", "eza", "bat"]);
    app.handle_key(ch(','));
    app.handle_key(ch('n'));
    assert_eq!(names(&app), first);
}

#[test]
fn usage_sort_uses_first_count_and_zero_default() {
    let mut app = sample();
    app.handle_key(ch(','));
    app.handle_key(ch('u'));
    assert_eq!(app.sort_by, SortBy::Uses);
    assert!(!app.sort_asc);
    assert_eq!(names(&app), vec!["bat", "fd", "ripgrep", "eza"]);
    assert_eq!(trycli::app::usage_count(&app.counts, &"bat".to_string()), 7);
    assert_eq!(trycli::app::usage_count(&app.counts, &"eza".to_string()), 0);
}

#[test]
fn source_sort_and_unknown_sort_key() {
    let mut app = sample();
    app.handle_key(ch(','));
    assert!(app.pending_sort);
    app.handle_key(ch('x'));
    assert!(!app.pending_sort);
    assert_eq!(app.sort_by, SortBy::Date);
    app.handle_key(ch(','));
    app.handle_key(ch('s'));
    assert_eq!(app.sort_by, SortBy::Source);
    assert!(app.sort_asc);
    assert_eq!(names(&app), vec!["fd", "ripgrep", "eza", "bat"]);
}

#[test]
fn filter_emptying_clears_selection_and_navigation_is_noop() {
    let mut app = sample();
    app.filter = "zzz".to_string();
    app.apply_filter();
    assert!(app.filtered.is_empty());
    assert_eq!(app.selected, None);
    app.next();
    app.prev();
    app.first();
    app.last();
    app.jump_by(5);
    assert_eq!(app.selected, None);
    assert!(app.take_requests().is_empty());
}

#[test]
fn navigation_wraps_and_clamps() {
    let mut app = sample();
    app.prev();
    assert_eq!(app.selected, Some(3));
    app.next();
    assert_eq!(app.selected, Some(0));
    app.jump_by(10);
    assert_eq!(app.selected, Some(3));
    app.jump_by(-2);
    assert_eq!(app.selected, Some(1));
    app.jump_by(-50);
    assert_eq!(app.selected, Some(0));
    app.last();
    assert_eq!(app.selected, Some(3));
    app.first();
    assert_eq!(app.selected, Some(0));
}

#[test]
fn filter_entry_keys() {
    let mut app = sample();
    assert_eq!(app.handle_key(ch('/')), Action::Continue);
    assert!(app.filter_active);
    app.handle_key(ch('f'));
    app.handle_key(ch('D'));
    assert_eq!(app.filter, "fD");
    assert_eq!(names(&app), vec!["fd"]);
    app.handle_key(key(KeyCode::Backspace));
    assert_eq!(app.filter, "f");
    assert_eq!(app.handle_key(ch('q')), Action::Continue);
    assert_eq!(app.filter, "fq");
    app.handle_key(key(KeyCode::Enter));
    assert!(!app.filter_active);
    assert_eq!(app.filter, "fq");
}

#[test]
fn escape_is_context_sensitive() {
    let mut app = sample();
    app.handle_key(ch('/'));
    app.handle_key(ch('b'));
    assert_eq!(app.handle_key(key(KeyCode::Esc)), Action::Continue);
    assert!(!app.filter_active);
    assert_eq!(app.filter, "b");
    assert_eq!(app.handle_key(key(KeyCode::Esc)), Action::Continue);
    assert_eq!(app.filter, "");
    assert_eq!(app.filtered.len(), 4);
    assert_eq!(app.handle_key(key(KeyCode::Esc)), Action::Quit);
}

#[test]
fn quit_refresh_and_interrupt() {
    let mut app = sample();
    assert_eq!(app.handle_key(ch('q')), Action::Quit);
    assert_eq!(app.handle_key(ch('r')), Action::Refresh);
    app.handle_key(ch('/'));
    assert_eq!(app.handle_key(ctrl('c')), Action::Quit);
    let release = KeyEvent { code: KeyCode::Char('q'), ctrl: false, alt: false, press: false };
    app.filter_active = false;
    assert_eq!(app.handle_key(release), Action::Continue);
}

#[test]
fn pane_resize_is_bounded() {
    let mut app = sample();
    for _ in 0..20 {
        app.handle_key(alt('l'));
    }
    assert_eq!(app.split_pct, 85);
    for _ in 0..20 {
        app.handle_key(alt('h'));
    }
    assert_eq!(app.split_pct, 15);
}

#[test]
fn toggle_preview_requests_fetch_once() {
    let mut app = sample();
    app.handle_key(ch('i'));
    assert!(app.show_preview);
    assert!(app.preview_loading);
    app.request_preview();
    let reqs = app.take_requests();
    assert_eq!(reqs.len(), 1);
    assert_eq!(reqs[0].name, "ripgrep");
    assert_eq!(reqs[0].source, "cargo");
    assert_eq!(app.get_preview(), "");
    assert!(app.poll_preview(vec![("ripgrep".to_string(), "usage: rg".to_string())]));
    assert!(!app.preview_loading);
    assert_eq!(app.get_preview(), "usage: rg");
    assert!(app.poll_preview(vec![("ripgrep".to_string(), "second".to_string())]));
    assert_eq!(app.get_preview(), "usage: rg");
    assert_eq!(app.help_cache.len(), 1);
    assert!(!app.poll_preview(vec![]));
}

#[test]
fn stale_result_still_lands_in_cache() {
    let mut app = sample();
    app.toggle_preview();
    app.next();
    let reqs = app.take_requests();
    assert_eq!(reqs.len(), 2);
    assert_eq!(app.loading_name.as_deref(), Some("bat"));
    app.poll_preview(vec![("ripgrep".to_string(), "rg help".to_string())]);
    assert!(app.preview_loading);
    app.prev();
    assert!(!app.preview_loading);
    assert_eq!(app.get_preview(), "rg help");
}

#[test]
fn prefetch_skips_cached_and_pending() {
    let mut app = sample();
    app.receive_preview("bat".to_string(), "bat help".to_string());
    app.prefetch_previews(3);
    let reqs = app.take_requests();
    let got: Vec<&str> = reqs.iter().map(|r| r.name.as_str()).collect();
    assert_eq!(got, vec!["ripgrep", "fd"]);
    app.prefetch_previews(10);
    let reqs = app.take_requests();
    let got: Vec<&str> = reqs.iter().map(|r| r.name.as_str()).collect();
    assert_eq!(got, vec!["eza"]);
    assert_eq!(app.pending.len(), 3);
    app.receive_preview("fd".to_string(), "fd help".to_string());
    assert_eq!(app.pending.len(), 2);
}

#[test]
fn paging_scrolls_preview_or_jumps() {
    let mut app = sample();
    app.handle_key(key(KeyCode::PageDown));
    assert_eq!(app.selected, Some(3));
    app.handle_key(ctrl('u'));
    assert_eq!(app.selected, Some(0));
    app.handle_key(key(KeyCode::Enter));
    assert!(app.show_preview);
    app.handle_key(ctrl('d'));
    assert_eq!(app.preview_scroll, 8);
    app.handle_mouse(MouseKind::ScrollDown);
    assert_eq!(app.preview_scroll, 11);
    app.handle_key(key(KeyCode::PageUp));
    assert_eq!(app.preview_scroll, 3);
    app.handle_mouse(MouseKind::ScrollUp);
    app.handle_mouse(MouseKind::ScrollUp);
    assert_eq!(app.preview_scroll, 0);
    app.handle_key(key(KeyCode::Down));
    assert_eq!(app.selected, Some(1));
    assert_eq!(app.preview_scroll, 0);
}

#[test]
fn refresh_keeps_settings_and_cache() {
    let mut app = sample();
    app.receive_preview("fd".to_string(), "fd help".to_string());
    app.handle_key(ch('i'));
    app.handle_key(ch(','));
    app.handle_key(ch('n'));
    app.handle_key(ch('/'));
    app.handle_key(ch('d'));
    app.refresh(
        vec![pkg("fd", 5, "brew", "find"), pkg("dust", 6, "cargo", "du"), pkg("sd", 7, "cargo", "sed")],
        vec![],
        true,
    );
    assert!(app.show_preview);
    assert_eq!(app.sort_by, SortBy::Name);
    assert!(app.sort_asc);
    assert!(app.filter_active);
    assert_eq!(app.filter, "d");
    assert_eq!(names(&app), vec!["dust", "fd", "sd"]);
    assert_eq!(app.selected, Some(0));
    assert_eq!(app.help_cache.len(), 1);
    assert!(app.auditd_warning);
}

#[test]
fn default_directions() {
    assert!(!SortBy::Date.default_asc());
    assert!(!SortBy::Uses.default_asc());
    assert!(SortBy::Name.default_asc());
    assert!(SortBy::Source.default_asc());
}

#[test]
fn extreme_jumps_and_scroll_saturation() {
    let mut app = sample();
    app.jump_by(i32::MAX);
    assert_eq!(app.selected, Some(3));
    app.jump_by(i32::MIN);
    assert_eq!(app.selected, Some(0));
    app.toggle_preview();
    app.preview_scroll = u16::MAX - 1;
    app.handle_mouse(MouseKind::ScrollDown);
    assert_eq!(app.preview_scroll, u16::MAX);
    app.handle_key(key(KeyCode::PageDown));
    assert_eq!(app.preview_scroll, u16::MAX);
    app.toggle_preview();
    assert!(!app.show_preview);
    app.handle_mouse(MouseKind::ScrollUp);
    assert_eq!(app.preview_scroll, u16::MAX);
}

#[test]
fn unmatched_selection_stays_empty_until_moved() {
    let mut app = sample();
    app.filter = "zzz".to_string();
    app.apply_filter();
    assert_eq!(app.selected, None);
    app.filter = String::new();
    app.apply_filter();
    assert_eq!(app.filtered.len(), 4);
    assert_eq!(app.selected, None);
    assert!(app.selected_package().is_none());
    assert_eq!(app.get_preview(), "");
    app.next();
    assert_eq!(app.selected, Some(0));
}
