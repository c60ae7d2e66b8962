use dungeon::{Coord, Rect, Room};
use proptest::test_runner::TestRunner;

fn cells(pairs: &[(i32, i32)]) -> Vec<Coord> {
    pairs.iter().map(|&(x, y)| Coord::new(x, y)).collect()
}

#[test]
fn coord_to_coords() {
    let c = Coord::new(0, 0);
    let coords = c.to_coords();
    let coords_head = coords.get(0);
    match coords_head {
        None => panic!("Coord.to_coords should return a non-empty list"),
        Some(head) => assert_eq!(c, *head),
    }
}

#[test]
fn coord_to_coords_on_small_values() {
    let mut runner = TestRunner::default();
    let outcome = runner.run(&(0..256i32, 0..256i32), |(x, y)| {
        let c = Coord::new(x, y);
        let coords = c.to_coords();
        let coords_head = coords.get(0);
        match coords_head {
            None => panic!("Coord.to_coords should return a non-empty list"),
            Some(head) => assert_eq!(c, *head),
        }
        Ok(())
    });
    assert!(outcome.is_ok(), "{:?}", outcome);
}

#[test]
fn rect_to_coords_size() {
    // Small sizes, so that no cell overflows.
    let mut runner = TestRunner::default();
    let outcome = runner.run(
        &(0..256u32, 0..256u32, 0..256i32, 0..256i32),
        |(width, height, left_x, top_y)| {
            let r = Rect { left_x, top_y, width, height };
            let coords = r.to_coords();
            match usize::try_from(r.width * r.height) {
                Ok(area_size) => assert_eq!(coords.len(), area_size),
                Err(_) => panic!("Unexpected conversion failure"),
            }
            Ok(())
        },
    );
    assert!(outcome.is_ok(), "{:?}", outcome);
}

#[test]
fn rect_cells_stay_in_the_block() {
    let mut runner = TestRunner::default();
    let outcome = runner.run(
        &(0..40u32, 0..40u32, -300..300i32, -300..300i32),
        |(width, height, left_x, top_y)| {
            let r = Rect { left_x, top_y, width, height };
            for c in r.to_coords() {
                assert!(left_x <= c.x && i64::from(c.x) < i64::from(left_x) + i64::from(width));
                assert!(top_y <= c.y && i64::from(c.y) < i64::from(top_y) + i64::from(height));
            }
            Ok(())
        },
    );
    assert!(outcome.is_ok(), "{:?}", outcome);
}

#[test]
fn coord_new_keeps_both_components() {
    let c = Coord::new(7, -3);
    assert_eq!(c.x, 7);
    assert_eq!(c.y, -3);
    assert_eq!(c, Coord { x: 7, y: -3 });
    assert_ne!(c, Coord { x: -3, y: 7 });
}

#[test]
fn coord_yields_exactly_itself() {
    for &(x, y) in &[(0, 0), (-1, 5), (i32::MAX, i32::MIN), (i32::MIN, i32::MAX), (12, -40)] {
        let c = Coord::new(x, y);
        assert_eq!(c.to_coords(), cells(&[(x, y)]));
    }
}

#[test]
fn rect_lists_columns_left_to_right_and_each_from_the_top() {
    let r = Rect { left_x: 2, top_y: 3, width: 2, height: 3 };
    assert_eq!(r.to_coords(), cells(&[(2, 3), (2, 4), (2, 5), (3, 3), (3, 4), (3, 5)]));
}

#[test]
fn rect_of_one_cell_is_its_corner() {
    let r = Rect { left_x: -9, top_y: 4, width: 1, height: 1 };
    assert_eq!(r.to_coords(), cells(&[(-9, 4)]));
}

#[test]
fn rect_with_a_negative_corner_keeps_its_negative_cells() {
    let r = Rect { left_x: -1, top_y: -2, width: 2, height: 2 };
    assert_eq!(r.to_coords(), cells(&[(-1, -2), (-1, -1), (0, -2), (0, -1)]));
}

#[test]
fn rect_without_width_is_empty() {
    let r = Rect { left_x: 5, top_y: 5, width: 0, height: 7 };
    assert!(r.to_coords().is_empty());
}

#[test]
fn rect_without_height_is_empty() {
    let r = Rect { left_x: 5, top_y: 5, width: 7, height: 0 };
    assert!(r.to_coords().is_empty());
}

#[test]
fn rect_without_any_extent_is_empty() {
    let r = Rect { left_x: i32::MAX, top_y: i32::MIN, width: 0, height: 0 };
    assert!(r.to_coords().is_empty());
}

#[test]
fn rect_of_the_small_room_has_its_thirty_two_cells() {
    let r = Rect { left_x: 2, top_y: 2, width: 8, height: 4 };
    let coords = r.to_coords();
    assert_eq!(coords.len(), 32);
    for x in 2..10 {
        for y in 2..6 {
            assert!(coords.contains(&Coord::new(x, y)));
        }
    }
    assert!(!coords.contains(&Coord::new(10, 2)));
    assert!(!coords.contains(&Coord::new(2, 6)));
    assert!(!coords.contains(&Coord::new(1, 2)));
    assert!(!coords.contains(&Coord::new(2, 1)));
}

#[test]
fn rect_lists_no_cell_twice() {
    let r = Rect { left_x: -3, top_y: 1, width: 6, height: 5 };
    let coords = r.to_coords();
    assert_eq!(coords.len(), 30);
    for i in 0..coords.len() {
        for j in 0..i {
            assert_ne!(coords[i], coords[j]);
        }
    }
}

#[test]
fn rect_drops_the_columns_past_the_largest_x() {
    let r = Rect { left_x: i32::MAX - 1, top_y: 0, width: 4, height: 2 };
    let coords = r.to_coords();
    assert_eq!(
        coords,
        cells(&[(i32::MAX - 1, 0), (i32::MAX - 1, 1), (i32::MAX, 0), (i32::MAX, 1)])
    );
    assert!(coords.len() < 4 * 2);
}

#[test]
fn rect_drops_the_rows_past_the_largest_y() {
    let r = Rect { left_x: 10, top_y: i32::MAX, width: 3, height: 5 };
    let coords = r.to_coords();
    assert_eq!(coords, cells(&[(10, i32::MAX), (11, i32::MAX), (12, i32::MAX)]));
    assert!(coords.len() < 3 * 5);
}

#[test]
fn rect_drops_cells_past_either_limit() {
    let r = Rect { left_x: i32::MAX, top_y: i32::MAX - 1, width: 3, height: 3 };
    let coords = r.to_coords();
    assert_eq!(coords, cells(&[(i32::MAX, i32::MAX - 1), (i32::MAX, i32::MAX)]));
}

#[test]
fn rect_that_ends_at_the_largest_value_keeps_every_cell() {
    let r = Rect { left_x: i32::MAX - 2, top_y: i32::MAX - 1, width: 3, height: 2 };
    assert_eq!(r.to_coords().len(), 6);
}

#[test]
fn rect_from_the_smallest_corner_does_not_overflow() {
    let r = Rect { left_x: i32::MIN, top_y: i32::MIN, width: 2, height: 2 };
    assert_eq!(
        r.to_coords(),
        cells(&[
            (i32::MIN, i32::MIN),
            (i32::MIN, i32::MIN + 1),
            (i32::MIN + 1, i32::MIN),
            (i32::MIN + 1, i32::MIN + 1)
        ])
    );
}

#[test]
fn rooms_of_both_kinds_answer_through_the_trait() {
    let point = Coord::new(4, 4);
    let block = Rect { left_x: 0, top_y: 0, width: 1, height: 2 };
    let rooms: Vec<&dyn Room> = vec![&point, &block];
    let listed: Vec<Vec<Coord>> = rooms.iter().map(|room| room.to_coords()).collect();
    assert_eq!(listed, vec![cells(&[(4, 4)]), cells(&[(0, 0), (0, 1)])]);
}
