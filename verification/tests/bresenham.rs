use log2gfx::bresenham::{bresenham, Bresenham};

fn collect(mut b: Bresenham) -> Vec<(i64, i64)> {
    let mut cells = Vec::new();
    while let Some(p) = b.next() {
        cells.push(p);
    }
    cells
}

#[test]
fn bresenham_simple() {
    let mut line = bresenham(0, 0, 3, 0);
    assert_eq!(line.next().unwrap(), (0, 0));
    assert_eq!(line.next().unwrap(), (1, 0));
    assert_eq!(line.next().unwrap(), (2, 0));
    assert_eq!(line.next().unwrap(), (3, 0));
    assert_eq!(line.next(), None);
}

#[test]
fn bresenham_single_cell() {
    let mut line = bresenham(7, -2, 7, -2);
    assert_eq!(line.next().unwrap(), (7, -2));
    assert_eq!(line.next(), None);
}

#[test]
fn bresenham_vertical_and_negative() {
    let cells = collect(bresenham(2, 5, 2, 1));
    assert_eq!(cells, vec![(2, 5), (2, 4), (2, 3), (2, 2), (2, 1)]);
}

#[test]
fn bresenham_diagonal() {
    let cells = collect(bresenham(-1, -1, 2, 2));
    assert_eq!(cells, vec![(-1, -1), (0, 0), (1, 1), (2, 2)]);
}

#[test]
fn bresenham_shallow_slope() {
    // dominant x axis, minor y axis stepping on the error threshold
    let cells = collect(bresenham(0, 0, 5, 2));
    assert_eq!(cells, vec![(0, 0), (1, 0), (2, 1), (3, 1), (4, 2), (5, 2)]);
}

#[test]
fn bresenham_steep_slope() {
    let cells = collect(bresenham(0, 0, 2, 5));
    assert_eq!(cells.first(), Some(&(0, 0)));
    assert_eq!(cells.last(), Some(&(2, 5)));
    assert_eq!(cells.len(), 6);
}

#[test]
fn bresenham_reversal_axis_aligned() {
    let forward = collect(bresenham(1, 4, 6, 4));
    let mut backward = collect(bresenham(6, 4, 1, 4));
    backward.reverse();
    assert_eq!(forward, backward);
}

#[test]
fn bresenham_reversal_diagonal() {
    let forward = collect(bresenham(2, 3, 5, 6));
    let mut backward = collect(bresenham(5, 6, 2, 3));
    backward.reverse();
    assert_eq!(forward, backward);
}
