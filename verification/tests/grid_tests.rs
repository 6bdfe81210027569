use loctrack::grid::{Grid, Timeline};

const SIZE: usize = 10;
const POINTS: usize = 1000;
const EPOCHS: usize = 10;

#[test]
fn new_grid() {
    let grid = Grid::new_empty(SIZE);
    assert_eq!(SIZE, grid.size);
    assert_eq!(SIZE * SIZE, grid.total_size);

    for square in grid.grid.iter() {
        assert_eq!(0, square.items.len())
    }
}

#[test]
fn new_filled_grid() {
    let grid = Grid::new_randomly_filled(SIZE, POINTS);

    assert_eq!(SIZE, grid.size);
    assert_eq!(SIZE * SIZE, grid.total_size);

    let mut n_points = 0;
    for square in grid.grid.iter() {
        n_points += square.items.len();
    }
    assert_eq!(POINTS, n_points)
}

#[test]
fn get_position() {
    let grid = Grid::new_randomly_filled(SIZE, POINTS);

    let index = SIZE + 5;

    let (x, y) = grid.get_position(index);

    assert_eq!(5, x);
    assert_eq!(1, y);

    assert_eq!(index, grid.get_index(x, y));
}

#[test]
fn build_timeline() {
    let timeline = Timeline::create_timeline(SIZE, POINTS, EPOCHS);

    assert_eq!(SIZE, timeline.size);

    assert_eq!(EPOCHS, timeline.epochs());
}

#[test]
fn is_point() {
    let timeline = Timeline::create_timeline(SIZE, POINTS, EPOCHS);
    assert!(timeline.is_point(POINTS - POINTS / 2));
    assert!(!timeline.is_point(POINTS + POINTS / 2));
}

#[test]
fn neighbours_come_from_the_window() {
    // a 3x3 grid with users placed by hand
    let mut grid = Grid::new_empty(3);
    // cell (0,0): user 1; cell (1,1): user 2; cell (2,2): user 3
    let i00 = grid.get_index(0, 0);
    let i11 = grid.get_index(1, 1);
    let i22 = grid.get_index(2, 2);
    grid.grid[i00].insert(1);
    grid.grid[i11].insert(2);
    grid.grid[i22].insert(3);
    // around the centre cell every user but the requester shows up
    let n = grid.get_neighbours(i11, 2);
    assert_eq!(2, n.len());
    assert!(n.contains(&1));
    assert!(n.contains(&3));
    // around the corner cell only the centre neighbour shows up
    let n0 = grid.get_neighbours(i00, 1);
    assert_eq!(vec![2], n0);
}
