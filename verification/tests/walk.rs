use text_to_cypher::walk::{entry_action, EntryAction};

#[test]
fn directories_are_searched_below_max_depth() {
    assert_eq!(entry_action(true, 0, 2, None), EntryAction::Descend(1));
    assert_eq!(entry_action(true, 1, 2, Some("json")), EntryAction::Descend(2));
}

#[test]
fn directories_at_max_depth_are_treated_as_entries() {
    assert_eq!(entry_action(true, 0, 0, None), EntryAction::Skip);
    assert_eq!(entry_action(true, 2, 2, Some("json")), EntryAction::Collect);
}

#[test]
fn only_json_files_are_collected() {
    assert_eq!(entry_action(false, 0, 3, Some("json")), EntryAction::Collect);
    assert_eq!(entry_action(false, 0, 3, Some("JSON")), EntryAction::Skip);
    assert_eq!(entry_action(false, 0, 3, Some("txt")), EntryAction::Skip);
    assert_eq!(entry_action(false, 0, 3, None), EntryAction::Skip);
}
