use hayate_fileview::panes::{next_focus_logic, PaneFocus};

#[test]
fn focus_cycle_forward() {
    assert_eq!(next_focus_logic(PaneFocus::FileList, true, true, false), PaneFocus::Preview);
    assert_eq!(next_focus_logic(PaneFocus::Preview, true, true, false), PaneFocus::Sidebar);
    assert_eq!(next_focus_logic(PaneFocus::Sidebar, true, true, false), PaneFocus::FileList);
}

#[test]
fn focus_cycle_reverse() {
    assert_eq!(next_focus_logic(PaneFocus::FileList, true, true, true), PaneFocus::Sidebar);
}

#[test]
fn focus_skip_hidden() {
    assert_eq!(next_focus_logic(PaneFocus::FileList, false, true, false), PaneFocus::Preview);
    assert_eq!(next_focus_logic(PaneFocus::Preview, false, true, false), PaneFocus::FileList);
}

#[test]
fn focus_only_filelist() {
    assert_eq!(next_focus_logic(PaneFocus::FileList, false, false, false), PaneFocus::FileList);
}

#[test]
fn focus_round_trip_and_hidden_current() {
    for &(sb, pv) in &[(true, true), (true, false), (false, true), (false, false)] {
        for &rev in &[false, true] {
            let next = next_focus_logic(PaneFocus::FileList, sb, pv, rev);
            assert_eq!(next_focus_logic(next, sb, pv, !rev), PaneFocus::FileList);
        }
    }
    // A pane that is not shown counts as the first one.
    assert_eq!(next_focus_logic(PaneFocus::Sidebar, false, true, false), PaneFocus::Preview);
}
