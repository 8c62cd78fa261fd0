use palace_prop::editor::frames::{delete_frame, insert_after, move_frame, track_move};
use palace_prop::editor::history::History;

#[test]
fn undo_then_redo_gives_the_state_back() {
    let mut h: History<&str> = History::with_caps(8, 1000);
    h.push("a", 10);
    assert_eq!(h.undo("b", 20), Some(("a", 10)));
    assert!(h.can_redo());
    assert_eq!(h.memory_bytes(), 20);
    assert_eq!(h.redo("a", 10), Some(("b", 20)));
    assert_eq!(h.undo_len(), 1);
    assert_eq!(h.redo_len(), 0);
    assert_eq!(h.memory_bytes(), 10);
}

#[test]
fn the_depth_cap_evicts_the_oldest() {
    let mut h: History<u32> = History::with_caps(2, 1000);
    h.push(1, 1);
    h.push(2, 1);
    h.push(3, 1);
    assert_eq!(h.len(), 2);
    assert_eq!(h.undo(9, 1), Some((3, 1)));
    assert_eq!(h.undo(3, 1), Some((2, 1)));
    assert_eq!(h.undo(2, 1), None);
}

#[test]
fn the_byte_cap_keeps_the_newest_even_when_oversized() {
    let mut h: History<u32> = History::with_caps(10, 100);
    h.push(1, 60);
    h.push(2, 60);
    assert_eq!(h.len(), 1);
    h.push(3, 500);
    assert_eq!(h.len(), 1);
    assert_eq!(h.memory_bytes(), 500);
    assert_eq!(h.undo(0, 0), Some((3, 500)));
}

#[test]
fn a_new_push_discards_the_redo_branch() {
    let mut h: History<u32> = History::with_caps(10, 1000);
    h.push(1, 5);
    assert_eq!(h.undo(2, 5), Some((1, 5)));
    h.push(1, 5);
    assert!(!h.can_redo());
    assert_eq!(h.memory_bytes(), 5);
}

#[test]
fn a_zero_depth_cap_disables_history() {
    let mut h: History<u32> = History::with_caps(0, 1000);
    h.push(1, 5);
    assert!(h.is_empty());
    assert!(!h.can_undo());
}

#[test]
fn moving_a_frame_keeps_the_selection_on_it() {
    let mut frames = vec!['a', 'b', 'c', 'd'];
    assert_eq!(move_frame(&mut frames, 1, 1, 3), Some(3));
    assert_eq!(frames, vec!['a', 'c', 'd', 'b']);
    assert_eq!(move_frame(&mut frames, 2, 0, 3), Some(1));
    assert_eq!(frames, vec!['c', 'd', 'b', 'a']);
    assert_eq!(move_frame(&mut frames, 0, 0, 9), None);
    assert_eq!(track_move(2, 3, 0), 3);
}

#[test]
fn deleting_keeps_one_frame_and_a_valid_selection() {
    let mut frames = vec!['a', 'b', 'c'];
    assert_eq!(delete_frame(&mut frames, 2, 2), Some(('c', 1)));
    assert_eq!(delete_frame(&mut frames, 1, 0), Some(('a', 0)));
    assert_eq!(frames, vec!['b']);
    assert_eq!(delete_frame(&mut frames, 0, 0), None);
    let mut more = vec![1, 2, 3];
    assert_eq!(insert_after(&mut more, 0, 9), 1);
    assert_eq!(more, vec![1, 9, 2, 3]);
}
