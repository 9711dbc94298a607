use jurassic_sandbox::ui::render::visible_tiles;
use jurassic_sandbox::ui::{is_quit_key, viewport_size, Camera, InputEvent, Key, SideTab};
use jurassic_sandbox::world::{Board, Position};

#[test]
fn tabs_cycle_both_ways() {
    assert_eq!(SideTab::Stats.next(), SideTab::Charts);
    assert_eq!(SideTab::Charts.next(), SideTab::Tps);
    assert_eq!(SideTab::Tps.next(), SideTab::Stats);
    assert_eq!(SideTab::Stats.prev(), SideTab::Tps);
    for tab in [SideTab::Stats, SideTab::Charts, SideTab::Tps] {
        assert_eq!(tab.next().prev(), tab);
        assert_eq!(tab.prev().next(), tab);
        assert_eq!(tab.next().next().next(), tab);
    }
}

#[test]
fn tab_index_wraps() {
    assert_eq!(SideTab::from_index(4), SideTab::Charts);
    assert_eq!(SideTab::from_index(0), SideTab::Stats);
    assert_eq!(SideTab::Tps.index(), 2);
    assert_eq!(SideTab::titles(), ["Stats", "Charts", "TPS"]);
    assert_eq!(SideTab::default(), SideTab::Stats);
}

#[test]
fn viewport_leaves_a_border_and_two_columns_per_cell() {
    assert_eq!(viewport_size(10, 5), (4, 3));
    assert_eq!(viewport_size(11, 2), (4, 0));
    assert_eq!(viewport_size(1, 1), (0, 0));
}

#[test]
fn camera_pan_is_clamped_to_the_board() {
    let board = Board { width: 100, height: 50 };
    let mut camera = Camera::new(0, 0);
    camera.move_by(-5, -5, &board, 20, 10);
    assert_eq!((camera.x, camera.y), (0, 0));
    camera.move_by(200, 3, &board, 20, 10);
    assert_eq!((camera.x, camera.y), (80, 3));
    camera.move_by(0, 100, &board, 20, 10);
    assert_eq!((camera.x, camera.y), (80, 40));
}

#[test]
fn camera_on_a_small_board_stays_at_zero() {
    let board = Board { width: 5, height: 5 };
    let mut camera = Camera::new(0, 0);
    camera.move_by(3, 3, &board, 20, 10);
    assert_eq!((camera.x, camera.y), (0, 0));
}

#[test]
fn fit_view_pulls_the_camera_back() {
    let board = Board { width: 30, height: 30 };
    let mut camera = Camera::new(15, 15);
    camera.fit_view(&board, 20, 10);
    assert_eq!((camera.x, camera.y), (10, 15));
    assert_eq!((camera.last_view_w, camera.last_view_h), (20, 10));
}

#[test]
fn fitting_twice_changes_nothing_more() {
    let board = Board { width: 30, height: 30 };
    let mut camera = Camera::new(29, 3);
    camera.fit_view(&board, 12, 40);
    assert_eq!((camera.x, camera.y), (18, 0));
    assert!(camera.x + 12 <= board.width);
    camera.fit_view(&board, 12, 40);
    assert_eq!((camera.x, camera.y), (18, 0));
}

#[test]
fn quit_keys() {
    assert!(is_quit_key(Key::Char('q'), false));
    assert!(is_quit_key(Key::Char('Q'), false));
    assert!(is_quit_key(Key::Char('c'), true));
    assert!(!is_quit_key(Key::Char('c'), false));
    assert!(!is_quit_key(Key::Up, true));
}

#[test]
fn key_events_quit_or_pan() {
    let board = Board { width: 100, height: 100 };
    let mut camera = Camera::new(10, 10);
    camera.fit_view(&board, 20, 20);
    let press = |key, ctrl| InputEvent::Key { key, ctrl, released: false };
    assert!(camera.handle_event(&board, press(Key::Char('q'), false)));
    assert!(!camera.handle_event(&board, InputEvent::Key { key: Key::Char('q'), ctrl: false, released: true }));
    assert!(!camera.handle_event(&board, press(Key::Right, false)));
    assert!(!camera.handle_event(&board, press(Key::Up, false)));
    assert_eq!((camera.x, camera.y), (11, 9));
    assert!(!camera.handle_event(&board, InputEvent::Key { key: Key::Left, ctrl: false, released: true }));
    assert_eq!((camera.x, camera.y), (11, 9));
    assert!(!camera.handle_event(&board, press(Key::Char('x'), false)));
    assert_eq!((camera.x, camera.y), (11, 9));
}

#[test]
fn middle_drag_pans_against_the_pointer() {
    let board = Board { width: 100, height: 100 };
    let mut camera = Camera::new(10, 10);
    camera.fit_view(&board, 20, 20);
    camera.handle_event(&board, InputEvent::MouseMoved { column: 50, row: 50 });
    assert_eq!((camera.x, camera.y), (10, 10));
    camera.handle_event(&board, InputEvent::MiddleDown { column: 30, row: 30 });
    assert!(camera.is_dragging);
    camera.handle_event(&board, InputEvent::MiddleDrag { column: 33, row: 28 });
    assert_eq!((camera.x, camera.y), (7, 12));
    assert_eq!(camera.last_mouse_pos, Some((33, 28)));
    camera.handle_event(&board, InputEvent::MiddleUp);
    assert!(!camera.is_dragging);
    assert_eq!(camera.last_mouse_pos, None);
    camera.handle_event(&board, InputEvent::MiddleDrag { column: 0, row: 0 });
    assert_eq!((camera.x, camera.y), (7, 12));
}

#[test]
fn tiles_show_the_highest_layer_first_among_equals() {
    let items = vec![
        Position { x: 1, y: 0, z: 1 },
        Position { x: 1, y: 0, z: 3 },
        Position { x: 0, y: 1, z: 0 },
        Position { x: 1, y: 0, z: 3 },
        Position { x: 1, y: 0, z: 2 },
        Position { x: 7, y: 7, z: 9 },
    ];
    let tiles = visible_tiles(2, 2, &items);
    assert_eq!(tiles, vec![None, Some(1), Some(2), None]);
}
