use hexaferrate::coordinates::{HexBoard, HexCoord, TileColor};
use hexaferrate::layout::{BoardLayoutProjector, LayoutConfig, CELL_HEIGHT, CELL_WIDTH};

fn cfg(x_margin: i32, y_margin: i32, canvas_width: i32, canvas_height: i32) -> LayoutConfig {
    LayoutConfig { x_margin, y_margin, canvas_width, canvas_height }
}

#[test]
fn side_two_board_projects_exactly() {
    let board = HexBoard::new(2);
    let projector = BoardLayoutProjector::new(cfg(0, 0, 200, 50));
    let plan = projector.project(&board);

    // Row-major paint order: r ascending, q ascending within each row.
    let expected = [
        (0, -1, 6, 1, TileColor::Dark),
        (1, -1, 12, 2, TileColor::Light),
        (-1, 0, 0, 3, TileColor::Dark),
        (0, 0, 6, 4, TileColor::Light),
        (1, 0, 12, 5, TileColor::Medium),
        (-1, 1, 0, 6, TileColor::Light),
        (0, 1, 6, 7, TileColor::Medium),
    ];
    assert_eq!(plan.commands.len(), expected.len());
    assert_eq!(plan.skipped, 0);
    for (cmd, (q, r, x, y, background)) in plan.commands.iter().zip(expected.iter()) {
        assert_eq!(cmd.coord, HexCoord::new(*q, *r));
        assert_eq!(cmd.x, *x);
        assert_eq!(cmd.y, *y);
        assert_eq!(cmd.width, CELL_WIDTH);
        assert_eq!(cmd.height, CELL_HEIGHT);
        assert_eq!(cmd.background, *background);
        assert_eq!(cmd.dark_foreground, *background == TileColor::Light);
    }
    // The bottommost cell starts at y == 7 and is 3 rows tall.
    assert_eq!(plan.bottom, 10);
}

#[test]
fn projection_is_order_stable() {
    let board = HexBoard::new(6);
    let projector = BoardLayoutProjector::new(cfg(2, 1, 200, 50));
    let first = projector.project(&board);
    let second = projector.project(&board);
    assert_eq!(first.commands, second.commands);
    assert_eq!(first.bottom, second.bottom);
    assert_eq!(first.skipped, second.skipped);
}

#[test]
fn margins_shift_every_cell() {
    let board = HexBoard::new(2);
    let flush = BoardLayoutProjector::new(cfg(0, 0, 200, 50)).project(&board);
    let shifted = BoardLayoutProjector::new(cfg(4, 2, 200, 50)).project(&board);
    assert_eq!(flush.commands.len(), shifted.commands.len());
    for (a, b) in flush.commands.iter().zip(shifted.commands.iter()) {
        assert_eq!(a.x + 4, b.x);
        assert_eq!(a.y + 2, b.y);
    }
    assert_eq!(flush.bottom + 2, shifted.bottom);
}

#[test]
fn cells_off_canvas_are_skipped_and_counted() {
    // A canvas of 13 x 6 cells holds only the cell of (-1, 0): every other
    // cell of the side-2 board overruns one canvas edge.
    let board = HexBoard::new(2);
    let projector = BoardLayoutProjector::new(cfg(0, 0, 13, 6));
    let plan = projector.project(&board);

    assert_eq!(plan.commands.len(), 1);
    assert_eq!(plan.skipped, 6);
    assert_eq!(plan.commands[0].coord, HexCoord::new(-1, 0));
    // The vertical extent still reflects the whole board.
    assert_eq!(plan.bottom, 10);
}

#[test]
fn single_tile_board_layout() {
    let board = HexBoard::new(1);
    let projector = BoardLayoutProjector::new(cfg(0, 0, 200, 50));
    let plan = projector.project(&board);
    assert_eq!(plan.commands.len(), 1);
    assert_eq!(plan.skipped, 0);
    assert_eq!(plan.commands[0].x, 0);
    assert_eq!(plan.commands[0].y, 0);
    assert_eq!(plan.commands[0].background, TileColor::Dark);
    assert_eq!(plan.bottom, 3);
}

#[test]
fn bottom_clears_the_rendered_board() {
    let board = HexBoard::new(6);
    let projector = BoardLayoutProjector::new(cfg(2, 1, 200, 50));
    let plan = projector.project(&board);
    assert_eq!(plan.bottom, 1 + 7 * 5 + 3);
    for cmd in &plan.commands {
        assert!(cmd.y + cmd.height <= plan.bottom);
    }
}
