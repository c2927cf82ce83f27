use life_grid::cells::{CellState, Cells, CellsErr};

#[test]
fn set_get_test() {
    let mut cells = Cells::new(30, 20);

    assert_eq!(30, cells.x());
    assert_eq!(20, cells.y());

    cells.set(15, 12, CellState::Alive).unwrap();
    cells.set(13, 12, CellState::Alive).unwrap();
    cells.set(10, 11, CellState::Alive).unwrap();
    cells.set(0, 2, CellState::Alive).unwrap();

    assert_eq!(CellState::Alive, cells.get(15, 12).unwrap());
    assert_eq!(CellState::Alive, cells.get(13, 12).unwrap());
    assert_eq!(CellState::Alive, cells.get(10, 11).unwrap());
    assert_eq!(CellState::Alive, cells.get(0, 2).unwrap());

    assert_eq!(cells.get(31, 10).is_err(), true);
    assert_eq!(cells.set(0, 20, CellState::Alive).is_err(), true);

    cells.set(0, 2, CellState::Dead).unwrap();
    assert_eq!(CellState::Dead, cells.get(0, 2).unwrap());
}

#[test]
fn reduce_test() {
    let mut cells = Cells::new(20, 20);
    // [ ] [x] [ ]
    // [x] [x] [x]
    // [ ] [x] [ ]
    // [ ] [ ] [ ]
    cells.set(0, 1, CellState::Alive).unwrap();
    cells.set(1, 0, CellState::Alive).unwrap();
    cells.set(1, 1, CellState::Alive).unwrap();
    cells.set(1, 2, CellState::Alive).unwrap();
    cells.set(2, 1, CellState::Alive).unwrap();

    // [x] [x] [x]
    // [x] [ ] [x]
    // [x] [x] [x]
    // [ ] [ ] [ ]
    cells.reduce();
    assert_eq!(CellState::Dead, cells.get(1, 1).unwrap());
    assert_eq!(CellState::Alive, cells.get(0, 0).unwrap());
    assert_eq!(CellState::Alive, cells.get(0, 1).unwrap());
    assert_eq!(CellState::Alive, cells.get(0, 2).unwrap());
    assert_eq!(CellState::Alive, cells.get(1, 0).unwrap());
    assert_eq!(CellState::Alive, cells.get(1, 2).unwrap());
    assert_eq!(CellState::Alive, cells.get(2, 0).unwrap());
    assert_eq!(CellState::Alive, cells.get(2, 1).unwrap());
    assert_eq!(CellState::Alive, cells.get(2, 2).unwrap());

    // [x] [ ] [x] [ ]
    // [ ] [ ] [ ] [x]
    // [x] [ ] [x] [ ]
    // [ ] [x] [ ] [ ]
    // [ ] [ ] [ ] [ ]
    cells.reduce();
    assert_eq!(CellState::Alive, cells.get(0, 0).unwrap());
    assert_eq!(CellState::Alive, cells.get(0, 2).unwrap());
    assert_eq!(CellState::Alive, cells.get(1, 3).unwrap());
    assert_eq!(CellState::Alive, cells.get(2, 0).unwrap());
    assert_eq!(CellState::Alive, cells.get(2, 2).unwrap());
    assert_eq!(CellState::Alive, cells.get(3, 1).unwrap());
}

#[test]
fn set_then_get_returns_written_state() {
    let mut cells = Cells::new(7, 5);
    for x in 0..7 {
        for y in 0..5 {
            cells.set(x, y, CellState::Alive).unwrap();
            assert_eq!(CellState::Alive, cells.get(x, y).unwrap());
            cells.set(x, y, CellState::Dead).unwrap();
            assert_eq!(CellState::Dead, cells.get(x, y).unwrap());
        }
    }
}

#[test]
fn out_of_bounds_reports_oob() {
    let mut cells = Cells::new(4, 6);
    assert_eq!(Err(CellsErr::OOB), cells.get(4, 0));
    assert_eq!(Err(CellsErr::OOB), cells.get(0, 6));
    assert_eq!(Err(CellsErr::OOB), cells.get(usize::MAX, usize::MAX));
    assert_eq!(Err(CellsErr::OOB), cells.set(4, 0, CellState::Alive));
    assert_eq!(Err(CellsErr::OOB), cells.set(0, 6, CellState::Alive));
    // The failed writes left every cell untouched.
    for x in 0..4 {
        for y in 0..6 {
            assert_eq!(CellState::Dead, cells.get(x, y).unwrap());
        }
    }
}

#[test]
fn zero_sized_grid_rejects_every_access() {
    let mut empty_width = Cells::new(0, 5);
    assert_eq!(0, empty_width.x());
    assert_eq!(5, empty_width.y());
    assert_eq!(Err(CellsErr::OOB), empty_width.get(0, 0));
    assert_eq!(Err(CellsErr::OOB), empty_width.set(0, 0, CellState::Alive));
    empty_width.reduce();

    let mut empty_height = Cells::new(5, 0);
    assert_eq!(Err(CellsErr::OOB), empty_height.get(0, 0));
    empty_height.reduce();
}

#[test]
fn index_coordinate_roundtrip() {
    let cells = Cells::new(7, 3);
    for x in 0..7 {
        for y in 0..3 {
            let i = cells.c2i(x, y);
            assert!(i < 21);
            assert_eq!((x, y), cells.i2c(i));
        }
    }
    // Row-major order: y is the row, x the column.
    assert_eq!(0, cells.c2i(0, 0));
    assert_eq!(6, cells.c2i(6, 0));
    assert_eq!(7, cells.c2i(0, 1));
    assert_eq!(20, cells.c2i(6, 2));
}

#[test]
fn advance_is_deterministic() {
    let mut first = Cells::new(9, 9);
    let mut second = Cells::new(9, 9);
    let pattern = [(1, 1), (2, 1), (3, 1), (3, 2), (2, 3), (5, 5), (6, 5), (5, 6), (6, 6)];
    for &(x, y) in pattern.iter() {
        first.set(x, y, CellState::Alive).unwrap();
        second.set(x, y, CellState::Alive).unwrap();
    }
    first.reduce();
    second.reduce();
    for x in 0..9 {
        for y in 0..9 {
            assert_eq!(first.get(x, y).unwrap(), second.get(x, y).unwrap());
        }
    }
}

#[test]
fn block_still_life_is_stable() {
    let mut cells = Cells::new(6, 6);
    cells.set(2, 2, CellState::Alive).unwrap();
    cells.set(3, 2, CellState::Alive).unwrap();
    cells.set(2, 3, CellState::Alive).unwrap();
    cells.set(3, 3, CellState::Alive).unwrap();
    cells.reduce();
    for x in 0..6 {
        for y in 0..6 {
            let expected = if (x == 2 || x == 3) && (y == 2 || y == 3) {
                CellState::Alive
            } else {
                CellState::Dead
            };
            assert_eq!(expected, cells.get(x, y).unwrap());
        }
    }
}

#[test]
fn blinker_oscillates_with_period_two() {
    let mut cells = Cells::new(20, 20);
    cells.set(1, 0, CellState::Alive).unwrap();
    cells.set(1, 1, CellState::Alive).unwrap();
    cells.set(1, 2, CellState::Alive).unwrap();

    cells.reduce();
    for x in 0..20 {
        for y in 0..20 {
            let expected = if y == 1 && (x == 0 || x == 1 || x == 2) {
                CellState::Alive
            } else {
                CellState::Dead
            };
            assert_eq!(expected, cells.get(x, y).unwrap());
        }
    }

    cells.reduce();
    for x in 0..20 {
        for y in 0..20 {
            let expected = if x == 1 && (y == 0 || y == 1 || y == 2) {
                CellState::Alive
            } else {
                CellState::Dead
            };
            assert_eq!(expected, cells.get(x, y).unwrap());
        }
    }
}

#[test]
fn all_dead_grid_stays_all_dead() {
    for &(w, h) in [(1, 1), (3, 8), (16, 2), (20, 20)].iter() {
        let mut cells = Cells::new(w, h);
        cells.reduce();
        for x in 0..w {
            for y in 0..h {
                assert_eq!(CellState::Dead, cells.get(x, y).unwrap());
            }
        }
    }
}

#[test]
fn corner_cell_does_not_wrap_around() {
    let mut cells = Cells::new(4, 4);
    cells.set(0, 0, CellState::Alive).unwrap();
    cells.reduce();
    // A lone corner cell has no live neighbours, so it dies, and it gives no
    // birth anywhere: in particular nothing appears at the opposite edges,
    // which a wrapping grid would treat as adjacent.
    for x in 0..4 {
        for y in 0..4 {
            assert_eq!(CellState::Dead, cells.get(x, y).unwrap());
        }
    }
}
