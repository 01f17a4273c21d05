use zahlenmauer::wall::{factorial_fits, n_choose_k, Cell, Position};

#[test]
fn pascal_rows() {
    let rows: [&[usize]; 6] = [
        &[1],
        &[1, 1],
        &[1, 2, 1],
        &[1, 3, 3, 1],
        &[1, 4, 6, 4, 1],
        &[1, 5, 10, 10, 5, 1],
    ];
    for (n, row) in rows.iter().enumerate() {
        for (k, expected) in row.iter().enumerate() {
            assert_eq!(n_choose_k(n, k), *expected);
        }
    }
}

#[test]
fn pascal_rule_holds() {
    for n in 1..=20 {
        for k in 1..n {
            assert_eq!(
                n_choose_k(n, k),
                n_choose_k(n - 1, k - 1) + n_choose_k(n - 1, k)
            );
        }
    }
}

#[test]
fn larger_coefficients() {
    assert_eq!(n_choose_k(10, 5), 252);
    assert_eq!(n_choose_k(12, 6), 924);
    assert_eq!(n_choose_k(12, 11), 12);
    assert_eq!(n_choose_k(1000, 1), 1000);
    assert_eq!(n_choose_k(1000, 0), 1);
    assert_eq!(n_choose_k(1000, 1000), 1);
}

#[test]
fn factorial_limit() {
    assert!(factorial_fits(0));
    assert!(factorial_fits(1));
    assert!(factorial_fits(12));
    assert!(!factorial_fits(21));
    assert!(!factorial_fits(1000));
    assert!(!factorial_fits(usize::MAX));
}

#[test]
fn position_fields() {
    let pos = Position::new(6, 3);
    assert_eq!(pos.row, 6);
    assert_eq!(pos.col, 3);
    assert_eq!(Position::default(), Position::new(0, 0));
}

#[test]
fn cell_knows_its_weight() {
    let cell = Cell::new(Position::new(6, 3), None);
    assert_eq!(cell.nck(), 20);
    assert_eq!(cell.pos(), Position::new(6, 3));
    assert_eq!(cell.value(), None);
    let cell = Cell::new(Position::new(7, 2), Some(-4));
    assert_eq!(cell.nck(), 21);
    assert_eq!(cell.value(), Some(-4));
    let cell = Cell::new(Position::new(255, 255), None);
    assert_eq!(cell.nck(), 1);
    let cell = Cell::new(Position::new(255, 1), None);
    assert_eq!(cell.nck(), 255);
}

#[test]
fn cell_set() {
    let mut cell = Cell::new(Position::new(4, 2), None);
    assert_eq!(cell.set(5), Ok(()));
    assert_eq!(cell.value(), Some(5));
    assert_eq!(cell.set(5), Ok(()));
    assert_eq!(cell.set(6), Err(5));
    assert_eq!(cell.value(), Some(5));
    assert_eq!(cell.nck(), 6);
    assert_eq!(cell.pos(), Position::new(4, 2));
}

#[test]
fn default_cell() {
    let mut cell = Cell::default();
    assert_eq!(cell.pos(), Position::new(0, 0));
    assert_eq!(cell.nck(), 1);
    assert_eq!(cell.value(), None);
    assert_eq!(cell.set(-1), Ok(()));
    assert_eq!(cell.value(), Some(-1));
}
