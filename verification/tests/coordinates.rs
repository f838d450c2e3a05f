use hexaferrate::coordinates::{HexBoard, HexCoord, TileColor};

#[test]
fn test_hex_neighbors() {
    let center = HexCoord::new(0, 0);
    let neighbors = center.neighbors();

    assert_eq!(neighbors.len(), 6);
    assert!(neighbors.contains(&HexCoord::new(1, 0)));
    assert!(neighbors.contains(&HexCoord::new(0, 1)));
}

#[test]
fn test_hex_distance() {
    let a = HexCoord::new(0, 0);
    let b = HexCoord::new(3, -2);

    assert_eq!(a.distance(&b), 3);
}

#[test]
fn test_board_coordinates() {
    let board = HexBoard::new(6);
    let coords = board.all_coordinates();

    // A board with side length 6 has (3n^2 - 3n + 1) = 91 hexes
    assert_eq!(coords.len(), 91);
}

#[test]
fn test_tile_coloring() {
    let board = HexBoard::new(6);

    // The general rule colors by (q + r) mod 3, so a neighbor differs in
    // color exactly when the offset changes the coordinate sum; the two
    // diagonal offsets (+1,-1) and (-1,+1) preserve it and repeat the color.
    let center = HexCoord::new(0, 0);
    let center_color = board.tile_color(&center).unwrap();

    for neighbor in center.neighbors() {
        if board.is_valid_coord(&neighbor) {
            let neighbor_color = board.tile_color(&neighbor).unwrap();
            if neighbor.q + neighbor.r != center.q + center.r {
                assert_ne!(center_color, neighbor_color);
            } else {
                assert_eq!(center_color, neighbor_color);
            }
        }
    }
}

#[test]
fn neighbors_distinct_and_exclude_self() {
    let c = HexCoord::new(2, -3);
    let neighbors = c.neighbors();
    assert_eq!(neighbors.len(), 6);
    for (i, a) in neighbors.iter().enumerate() {
        assert_ne!(*a, c);
        for b in neighbors.iter().skip(i + 1) {
            assert_ne!(*a, *b);
        }
    }
}

#[test]
fn distance_symmetric_and_zero_on_self() {
    let a = HexCoord::new(-4, 1);
    let b = HexCoord::new(2, 3);
    assert_eq!(a.distance(&b), b.distance(&a));
    assert_eq!(a.distance(&a), 0);
    assert_eq!(b.distance(&b), 0);
}

#[test]
fn distance_exact_values() {
    let origin = HexCoord::new(0, 0);
    // A diagonal step: |1| + |-1| + |0| halves exactly to 1.
    assert_eq!(origin.distance(&HexCoord::new(1, -1)), 1);
    assert_eq!(origin.distance(&HexCoord::new(0, 5)), 5);
    assert_eq!(origin.distance(&HexCoord::new(-2, -2)), 4);
}

#[test]
fn coordinate_count_small_boards() {
    assert_eq!(HexBoard::new(1).all_coordinates().len(), 1);
    assert_eq!(HexBoard::new(2).all_coordinates().len(), 7);
    assert_eq!(HexBoard::new(3).all_coordinates().len(), 19);
}

#[test]
fn cube_coordinates_sum_to_zero() {
    for c in HexBoard::new(4).all_coordinates() {
        assert_eq!(c.q + c.r + c.s(), 0);
    }
}

#[test]
fn adjacent_colors_differ_exhaustively() {
    // For board sides 1 through 8, any two adjacent tiles whose coordinate
    // sums differ modulo 3 get different colors; the two sum-preserving
    // diagonal offsets repeat the color under the general rule.
    for side in 1..=8 {
        let board = HexBoard::new(side);
        for c in board.all_coordinates() {
            let c_color = board.tile_color(&c).unwrap();
            for d in c.neighbors() {
                if board.is_valid_coord(&d) {
                    let d_color = board.tile_color(&d).unwrap();
                    if c.q + c.r != d.q + d.r {
                        assert_ne!(c_color, d_color, "side {side}: {c:?} vs {d:?}");
                    }
                }
            }
        }
    }
}

#[test]
fn center_tile_follows_general_formula() {
    // (0 + 0) mod 3 == 0, and index 0 is Light.
    let board = HexBoard::new(6);
    assert_eq!(board.tile_color(&HexCoord::new(0, 0)), Some(TileColor::Light));
}

#[test]
fn polar_tiles_follow_general_formula() {
    // (0, -5) and (0, 5) are not corners in the sense of the corner rule
    // (only |r| and |s| reach 5, |q| stays 0), so the general rule decides:
    // (-5) mod 3 == 1 is Medium, 5 mod 3 == 2 is Dark.
    let board = HexBoard::new(6);
    assert_eq!(board.tile_color(&HexCoord::new(0, -5)), Some(TileColor::Medium));
    assert_eq!(board.tile_color(&HexCoord::new(0, 5)), Some(TileColor::Dark));
}

#[test]
fn single_tile_board_is_forced_dark() {
    // On a side-1 board the lone tile is a corner with r == -(side - 1),
    // so the forced topmost-corner color applies.
    let board = HexBoard::new(1);
    assert_eq!(board.tile_color(&HexCoord::new(0, 0)), Some(TileColor::Dark));
}

#[test]
fn out_of_board_coordinates_are_absent() {
    let board = HexBoard::new(3);
    let outside = HexCoord::new(3, 0);
    assert!(!board.is_valid_coord(&outside));
    assert_eq!(board.tile_color(&outside), None);
    assert!(!board.all_coordinates().contains(&outside));
}

#[test]
fn enumeration_is_valid_and_ordered() {
    let board = HexBoard::new(5);
    let coords = board.all_coordinates();
    for c in &coords {
        assert!(board.is_valid_coord(c));
    }
    for w in coords.windows(2) {
        assert!(w[0].q < w[1].q || (w[0].q == w[1].q && w[0].r < w[1].r));
    }
}

#[test]
fn within_radius_checks_all_three_axes() {
    let c = HexCoord::new(3, -1);
    // s = -2: the largest magnitude is q's 3.
    assert!(c.is_within_radius(3));
    assert!(!c.is_within_radius(2));
    // is_valid is the side-6 board check, radius 5.
    assert!(c.is_valid());
    assert!(!HexCoord::new(6, -3).is_valid());
}

#[test]
fn algebraic_notation_renders_coordinates() {
    assert_eq!(HexCoord::new(0, 0).to_algebraic(), "(0,0)");
    assert_eq!(HexCoord::new(3, -2).to_algebraic(), "(3,-2)");
    assert_eq!(HexCoord::new(-12, 105).to_algebraic(), "(-12,105)");
}

#[test]
fn algebraic_notation_is_not_parsed() {
    assert_eq!(HexCoord::from_algebraic("(0,0)"), None);
    assert_eq!(HexCoord::from_algebraic("e4"), None);
}

#[test]
fn color_names() {
    assert_eq!(TileColor::Light.as_str(), "Light");
    assert_eq!(TileColor::Medium.as_str(), "Medium");
    assert_eq!(TileColor::Dark.as_str(), "Dark");
}
