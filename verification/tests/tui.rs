use hyperblow::tui::{
    inset_rect, tab_index_at, torrent_index_at, AppLayout, MouseEv, MouseKind, Position, Rect, TUIState, Tab, TrackerViewport,
};

#[test]
fn tracker_viewport_keeps_last_item_reachable() {
    assert_eq!(TrackerViewport::start_for_selection(12, 13, 6), 7);
}

#[test]
fn viewport_edges() {
    assert_eq!(TrackerViewport::start_for_selection(0, 0, 6), 0);
    assert_eq!(TrackerViewport::start_for_selection(3, 13, 0), 0);
    assert_eq!(TrackerViewport::start_for_selection(2, 13, 6), 0);
    assert_eq!(TrackerViewport::start_for_selection(2, 3, 6), 0);
    assert_eq!(TrackerViewport::start_for_selection(usize::MAX, usize::MAX, 1), usize::MAX - 1);
}

fn tab_position(tab_bar: Rect, tab_index: usize) -> Position {
    let titles = ["Details", "Bandwidth", "Files", "Trackers", "Peers", "Pieces"];
    let tab_content = inset_rect(tab_bar, 1, 1);
    let x_offset: u16 = titles.iter().take(tab_index).map(|title| 2 + title.len() as u16 + 1).sum();
    Position { x: tab_content.x + x_offset + 1, y: tab_content.y }
}

#[test]
fn finds_clicked_tab_from_rendered_tab_bar() {
    let tab_bar = Rect::new(0, 20, 100, 3);

    assert_eq!(tab_index_at(tab_bar, tab_position(tab_bar, 0)), Some(0));
    assert_eq!(tab_index_at(tab_bar, tab_position(tab_bar, 2)), Some(2));
    assert_eq!(tab_index_at(tab_bar, Position { x: 99, y: 21 }), None);
}

#[test]
fn maps_torrent_rows_to_visible_indexes() {
    let torrent_rows = Rect::new(2, 4, 80, 8);

    assert_eq!(torrent_index_at(torrent_rows, Position { x: 3, y: 4 }), Some(0));
    assert_eq!(torrent_index_at(torrent_rows, Position { x: 3, y: 7 }), Some(3));
    assert_eq!(torrent_index_at(torrent_rows, Position { x: 3, y: 12 }), None);
}

#[test]
fn every_tab_title_is_clickable() {
    let tab_bar = Rect::new(0, 0, 100, 3);
    for i in 0..6 {
        assert_eq!(tab_index_at(tab_bar, tab_position(tab_bar, i)), Some(i));
    }
    assert_eq!(tab_index_at(tab_bar, Position { x: 0, y: 1 }), None);
    assert_eq!(inset_rect(Rect::new(0, 0, 1, 1), 2, 2), Rect::new(2, 2, 0, 0));
}

#[test]
fn tab_and_torrent_selection() {
    let mut state = TUIState::new();
    assert_eq!(state.tab(), Tab::Details);
    state.set_max_tab_index(5);
    state.increment_tab_index();
    assert_eq!(state.tab_index(), 1);
    assert_eq!(state.tab(), Tab::Bandwidth);
    state.decrement_tab_index();
    state.decrement_tab_index();
    assert_eq!(state.tab_index(), 5);
    assert_eq!(state.tab(), Tab::Pieces);
    state.increment_tab_index();
    assert_eq!(state.tab_index(), 0);
    state.set_max_tab_index(3);
    state.set_tab_index(3);
    assert_eq!(state.tab(), Tab::Trackers);
    state.set_max_tab_index(2);
    assert_eq!(state.tab_index(), 2);

    state.set_torrent_index(4);
    assert_eq!(state.torrent_index(), 0);
    state.set_max_torrent_index(3);
    state.increment_torrent_index();
    state.increment_torrent_index();
    state.set_torrent_index(10);
    assert_eq!(state.torrent_index(), 3);
    state.increment_torrent_index();
    assert_eq!(state.torrent_index(), 3);
    state.set_max_torrent_index(1);
    assert_eq!(state.torrent_index(), 1);
    state.decrement_torrent_index();
    state.decrement_torrent_index();
    assert_eq!(state.torrent_index(), 0);
    assert_eq!(state.max_tab_index(), 2);
}

/// Where the parts of a 100 by 32 terminal are: the torrents section on the upper 45%, its
/// rows inside a border and margin of 2 and below a 2-line header, the tabs below with their
/// 3-line bar.
fn layout_100_by_32() -> AppLayout {
    let torrents_section = Rect::new(0, 0, 100, 14);
    let inner = inset_rect(torrents_section, 2, 2);
    AppLayout {
        torrents_section,
        torrent_rows: Rect::new(inner.x, inner.y + 2, inner.width, inner.height - 2),
        tabs_section: Rect::new(0, 14, 100, 18),
        tab_bar: Rect::new(0, 14, 100, 3),
    }
}

#[test]
fn mouse_click_selects_tab() {
    let layout = layout_100_by_32();
    let mut state = TUIState::new();
    state.set_max_tab_index(5);

    let position = tab_position(layout.tab_bar, 3);
    state.handle_mouse(MouseKind::LeftDown, position, layout, Some(0));

    assert_eq!(state.tab_index(), 3);
    assert_eq!(state.mouse_x(), position.x);
    assert_eq!(state.mouse_y(), position.y);
    assert_eq!(state.mouse_event(), MouseEv::Clicked);
    state.handle_mouse(MouseKind::Up, position, layout, Some(0));
    assert_eq!(state.mouse_event(), MouseEv::NotClicked);
}

#[test]
fn mouse_click_selects_torrent_row() {
    let layout = layout_100_by_32();
    let mut state = TUIState::new();
    state.set_max_torrent_index(1);

    state.handle_mouse(
        MouseKind::LeftDown,
        Position { x: layout.torrent_rows.x + 1, y: layout.torrent_rows.y + 1 },
        layout,
        Some(2),
    );

    assert_eq!(state.torrent_index(), 1);
}

#[test]
fn mouse_wheel_changes_selection_in_context() {
    let layout = layout_100_by_32();
    let mut state = TUIState::new();
    state.set_max_tab_index(5);
    state.set_tab_index(1);
    state.set_max_torrent_index(2);
    state.set_torrent_index(1);

    state.handle_mouse(
        MouseKind::ScrollDown,
        Position { x: layout.torrents_section.x + 1, y: layout.torrents_section.y + 1 },
        layout,
        Some(3),
    );
    assert_eq!(state.torrent_index(), 2);

    state.handle_mouse(MouseKind::ScrollUp, tab_position(layout.tab_bar, 1), layout, Some(3));
    assert_eq!(state.tab_index(), 0);
}
