use text_to_cypher::viewer::{
    histogram_ceiling, score_bar, truncate, visible_rows, App, Flow, Key, Tab, BAR_WIDTH,
};

fn app_with(count: usize) -> App {
    App::new(count, "score".to_string(), "/tmp/results".to_string())
}

#[test]
fn tab_next_walks_in_display_order() {
    assert_eq!(Tab::Summary.next(), Tab::Histogram);
    assert_eq!(Tab::Histogram.next(), Tab::Distribution);
    assert_eq!(Tab::Distribution.next(), Tab::Files);
    assert_eq!(Tab::Files.next(), Tab::Summary);
}

#[test]
fn tab_prev_walks_backwards() {
    assert_eq!(Tab::Summary.prev(), Tab::Files);
    assert_eq!(Tab::Histogram.prev(), Tab::Summary);
    assert_eq!(Tab::Distribution.prev(), Tab::Histogram);
    assert_eq!(Tab::Files.prev(), Tab::Distribution);
}

#[test]
fn tab_next_then_prev_is_identity() {
    for t in [Tab::Summary, Tab::Histogram, Tab::Distribution, Tab::Files] {
        assert_eq!(t.next().prev(), t);
        assert_eq!(t.prev().next(), t);
        assert_eq!(t.next().next().next().next(), t);
    }
}

#[test]
fn tab_index_follows_display_order() {
    assert_eq!(Tab::Summary.index(), 0);
    assert_eq!(Tab::Histogram.index(), 1);
    assert_eq!(Tab::Distribution.index(), 2);
    assert_eq!(Tab::Files.index(), 3);
}

#[test]
fn new_app_starts_on_summary_at_top() {
    let a = app_with(7);
    assert_eq!(a.active_tab, Tab::Summary);
    assert_eq!(a.file_scroll, 0);
    assert_eq!(a.count, 7);
    assert_eq!(a.field, "score");
    assert_eq!(a.dir, "/tmp/results");
}

#[test]
fn scrolling_only_on_files_tab() {
    let mut a = app_with(3);
    a.scroll_down();
    assert_eq!(a.file_scroll, 0);
    a.active_tab = Tab::Files;
    a.scroll_down();
    a.scroll_down();
    a.scroll_down();
    assert_eq!(a.file_scroll, 2);
    a.scroll_up();
    assert_eq!(a.file_scroll, 1);
    a.scroll_up();
    a.scroll_up();
    assert_eq!(a.file_scroll, 0);
}

#[test]
fn scrolling_empty_list_stays_at_top() {
    let mut a = app_with(0);
    a.active_tab = Tab::Files;
    a.scroll_down();
    assert_eq!(a.file_scroll, 0);
    a.scroll_up();
    assert_eq!(a.file_scroll, 0);
}

#[test]
fn keys_switch_tabs_scroll_and_quit() {
    let mut a = app_with(5);
    assert_eq!(a.handle_key(Key::Right, true), Flow::Continue);
    assert_eq!(a.active_tab, Tab::Histogram);
    assert_eq!(a.handle_key(Key::Tab, true), Flow::Continue);
    assert_eq!(a.active_tab, Tab::Distribution);
    assert_eq!(a.handle_key(Key::BackTab, true), Flow::Continue);
    assert_eq!(a.active_tab, Tab::Histogram);
    a.handle_key(Key::Left, true);
    a.handle_key(Key::Left, true);
    assert_eq!(a.active_tab, Tab::Files);
    a.handle_key(Key::Char('j'), true);
    a.handle_key(Key::Down, true);
    assert_eq!(a.file_scroll, 2);
    a.handle_key(Key::Char('k'), true);
    assert_eq!(a.file_scroll, 1);
    a.handle_key(Key::Up, true);
    assert_eq!(a.file_scroll, 0);
    assert_eq!(a.handle_key(Key::Char('x'), true), Flow::Continue);
    assert_eq!(a.handle_key(Key::Other, true), Flow::Continue);
    assert_eq!(a.handle_key(Key::Char('q'), true), Flow::Quit);
    assert_eq!(a.handle_key(Key::Esc, true), Flow::Quit);
    assert_eq!(a.active_tab, Tab::Files);
}

#[test]
fn released_keys_are_ignored() {
    let mut a = app_with(5);
    assert_eq!(a.handle_key(Key::Char('q'), false), Flow::Continue);
    assert_eq!(a.handle_key(Key::Right, false), Flow::Continue);
    assert_eq!(a.active_tab, Tab::Summary);
}

#[test]
fn truncate_keeps_short_names() {
    assert_eq!(truncate("result-00000001.json", 30), "result-00000001.json");
    assert_eq!(truncate("", 0), "");
    assert_eq!(truncate("abcde", 5), "abcde");
}

#[test]
fn truncate_cuts_long_names_with_ellipsis() {
    assert_eq!(truncate("abcdefghij", 5), "abcd\u{2026}");
    assert_eq!(truncate("abcdef", 1), "\u{2026}");
    let long = "a-very-long-dataset-name-00000042.json";
    let t = truncate(long, 30);
    assert_eq!(t, "a-very-long-dataset-name-0000\u{2026}");
}

#[test]
fn truncate_counts_bytes_not_characters() {
    // "é" takes two bytes: "éé" is four bytes long.
    assert_eq!(truncate("\u{e9}\u{e9}", 4), "\u{e9}\u{e9}");
    assert_eq!(truncate("\u{e9}x\u{e9}y", 4), "\u{e9}x\u{2026}");
    assert_eq!(truncate("\u{e9}\u{e9}x", 3), "\u{e9}\u{2026}");
}

#[test]
fn truncate_twice_is_truncate_once() {
    let once = truncate("abcdefghijklmnop", 8);
    assert_eq!(truncate(&once, 8), once);
}

#[test]
fn visible_rows_follow_scroll_and_height() {
    assert_eq!(visible_rows(100, 0, 12), (0, 10));
    assert_eq!(visible_rows(100, 95, 12), (95, 100));
    assert_eq!(visible_rows(5, 9, 12), (5, 5));
    assert_eq!(visible_rows(5, 0, 1), (0, 0));
    assert_eq!(visible_rows(5, 2, 2), (2, 2));
}

#[test]
fn score_bar_fills_from_the_left() {
    assert_eq!(BAR_WIDTH, 20);
    assert_eq!(score_bar(0), "\u{2591}".repeat(20));
    assert_eq!(score_bar(20), "\u{2588}".repeat(20));
    assert_eq!(score_bar(7), "\u{2588}".repeat(7) + &"\u{2591}".repeat(13));
}

#[test]
fn histogram_ceiling_is_largest_count_or_one() {
    assert_eq!(histogram_ceiling(&vec![]), 1);
    assert_eq!(histogram_ceiling(&vec![0, 0]), 0);
    assert_eq!(histogram_ceiling(&vec![3, 9, 2]), 9);
}

#[test]
fn tab_after_presses_is_difference_mod_four() {
    let mut a = app_with(4);
    // 5 right presses, 2 left presses, plus releases and other keys.
    let events = [
        (Key::Right, true),
        (Key::Tab, true),
        (Key::Left, false),
        (Key::Right, true),
        (Key::Char('j'), true),
        (Key::BackTab, true),
        (Key::Right, true),
        (Key::Right, false),
        (Key::Tab, true),
        (Key::Left, true),
        (Key::Other, true),
    ];
    for (k, p) in events {
        a.handle_key(k, p);
    }
    assert_eq!(a.active_tab.index(), (5i64 - 2).rem_euclid(4) as usize);
    let mut b = app_with(4);
    for _ in 0..3 {
        b.handle_key(Key::Left, true);
    }
    assert_eq!(b.active_tab.index(), (0i64 - 3).rem_euclid(4) as usize);
    assert_eq!(b.file_scroll, 0);
}
