use hyperblow::piece_picker::PiecePicker;

#[test]
fn chooses_rarest_available_piece() {
    let picker = PiecePicker::new(5);
    let peers = vec![vec![0, 1, 2], vec![0, 2], vec![0, 3]];

    assert_eq!(picker.next_rarest_piece(&peers), Some(1));
}

#[test]
fn ignores_completed_and_requested_pieces() {
    let mut picker = PiecePicker::new(5);
    picker.mark_completed(1);
    picker.mark_requested(3);
    let peers = vec![vec![1, 2, 3], vec![3, 4]];

    assert_eq!(picker.next_rarest_piece(&peers), Some(2));
}

#[test]
fn failed_request_makes_piece_eligible_again() {
    let mut picker = PiecePicker::new(3);
    picker.mark_requested(2);
    assert_eq!(picker.next_rarest_piece(&[vec![2]]), None);

    picker.mark_request_failed(2);

    assert_eq!(picker.next_rarest_piece(&[vec![2]]), Some(2));
}

#[test]
fn ignores_duplicate_and_out_of_range_peer_entries() {
    let picker = PiecePicker::new(3);
    let peers = vec![vec![0, 0, 99], vec![1, 2], vec![1]];

    assert_eq!(picker.next_rarest_piece(&peers), Some(0));
}

#[test]
fn completed_piece_is_never_picked_again() {
    let mut picker = PiecePicker::new(2);
    picker.mark_completed(0);
    picker.mark_request_failed(0);
    picker.mark_requested(0);
    assert_eq!(picker.next_rarest_piece(&[vec![0]]), None);
    assert_eq!(picker.completed_count(), 1);
    assert_eq!(picker.requested_count(), 0);
}

#[test]
fn counts_completed_and_requested_pieces() {
    let mut picker = PiecePicker::new(4);
    picker.mark_requested(0);
    picker.mark_requested(1);
    picker.mark_completed(1);
    picker.mark_completed(9);
    assert_eq!(picker.completed_count(), 1);
    assert_eq!(picker.requested_count(), 1);
}
