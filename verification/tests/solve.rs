use zahlenmauer::mauer::{Mauer, Position, SolveStatus, WallError};

fn wall(rows: usize, seeds: &[(usize, usize, isize)]) -> Mauer {
    let mut mauer = Mauer::new(rows).unwrap();
    for (row, col, value) in seeds {
        mauer.set(Position::new(*row, *col), *value).unwrap();
    }
    mauer
}

fn values(mauer: &Mauer) -> Vec<Option<isize>> {
    let mut all = Vec::new();
    for row in 1..=mauer.rows() {
        for col in 1..=row {
            all.push(mauer.get(&Position::new(row, col)));
        }
    }
    all
}

#[test]
fn fresh_wall_is_not_solved() {
    for rows in 1..=12 {
        let mauer = Mauer::new(rows).unwrap();
        assert!(!mauer.solved());
        assert_eq!(mauer.rows(), rows);
        assert!(values(&mauer).iter().all(|v| v.is_none()));
    }
}

#[test]
fn wall_needs_a_row() {
    assert!(matches!(Mauer::new(0), Err(WallError::InvalidSize)));
}

#[test]
fn set_refuses_positions_outside_the_wall() {
    let mut mauer = Mauer::new(3).unwrap();
    assert_eq!(mauer.set(Position::new(0, 0), 1), Err(WallError::InvalidPosition));
    assert_eq!(mauer.set(Position::new(4, 1), 1), Err(WallError::InvalidPosition));
    assert_eq!(mauer.set(Position::new(2, 3), 1), Err(WallError::InvalidPosition));
    assert_eq!(mauer.set(Position::new(2, 0), 1), Err(WallError::InvalidPosition));
    assert!(values(&mauer).iter().all(|v| v.is_none()));
}

#[test]
fn set_refuses_another_value_and_accepts_the_same() {
    let mut mauer = Mauer::new(3).unwrap();
    assert_eq!(mauer.set(Position::new(2, 2), 7), Ok(()));
    assert_eq!(mauer.set(Position::new(2, 2), 7), Ok(()));
    assert_eq!(mauer.set(Position::new(2, 2), 8), Err(WallError::ValueConflict));
    assert_eq!(mauer.get(&Position::new(2, 2)), Some(7));
}

#[test]
fn get_is_empty_outside_the_wall() {
    let mauer = wall(2, &[(1, 1, 3), (2, 1, 1), (2, 2, 2)]);
    assert_eq!(mauer.get(&Position::new(1, 1)), Some(3));
    assert_eq!(mauer.get(&Position::new(3, 1)), None);
    assert_eq!(mauer.get(&Position::new(0, 0)), None);
    assert_eq!(mauer.get(&Position::new(1, 2)), None);
}

#[test]
fn seeded_bottom_row_solves_by_binomial_sums() {
    let mut mauer = wall(4, &[(4, 1, 1), (4, 2, 2), (4, 3, 3), (4, 4, 4)]);
    assert_eq!(mauer.solve(), SolveStatus::Solved);
    assert!(mauer.solved());
    assert_eq!(
        values(&mauer),
        vec![
            Some(20),
            Some(8),
            Some(12),
            Some(3),
            Some(5),
            Some(7),
            Some(1),
            Some(2),
            Some(3),
            Some(4)
        ]
    );
    // 1 * 1 + 3 * 2 + 3 * 3 + 1 * 4
    assert_eq!(mauer.get(&Position::new(1, 1)), Some(1 + 3 * 2 + 3 * 3 + 4));
}

#[test]
fn seeded_bottom_row_with_negative_values() {
    let mut mauer = wall(5, &[(5, 1, -3), (5, 2, 0), (5, 3, 7), (5, 4, -1), (5, 5, 2)]);
    assert_eq!(mauer.solve(), SolveStatus::Solved);
    // weights 1 4 6 4 1
    assert_eq!(mauer.get(&Position::new(1, 1)), Some(-3 + 6 * 7 - 4 + 2));
    // weights 1 3 3 1 over columns 2..=5
    assert_eq!(mauer.get(&Position::new(2, 2)), Some(3 * 7 - 3 + 2));
}

#[test]
fn single_cell_wall() {
    let mut empty = Mauer::new(1).unwrap();
    assert_eq!(empty.solve(), SolveStatus::Stuck);
    let mut seeded = wall(1, &[(1, 1, 9)]);
    assert_eq!(seeded.solve(), SolveStatus::Solved);
    assert_eq!(seeded.get(&Position::new(1, 1)), Some(9));
}

#[test]
fn left_and_right_rules_fill_downwards() {
    // top and left edge known: everything follows by subtraction
    let mut mauer = wall(3, &[(1, 1, 10), (2, 1, 4), (3, 1, 1)]);
    assert_eq!(mauer.solve(), SolveStatus::Solved);
    assert_eq!(
        values(&mauer),
        vec![Some(10), Some(4), Some(6), Some(1), Some(3), Some(3)]
    );
    // top and right edge known
    let mut mauer = wall(3, &[(1, 1, 10), (2, 2, 6), (3, 3, 3)]);
    assert_eq!(mauer.solve(), SolveStatus::Solved);
    assert_eq!(
        values(&mauer),
        vec![Some(10), Some(4), Some(6), Some(1), Some(3), Some(3)]
    );
}

#[test]
fn equation_without_integer_solution_is_stuck() {
    let mut mauer = wall(4, &[(1, 1, 100), (4, 1, 12), (4, 3, 17), (4, 4, 8)]);

    assert_eq!(mauer.solve(), SolveStatus::Stuck);
    assert_eq!(mauer.get(&Position::new(4, 2)), None);
    assert_eq!(mauer.get(&Position::new(3, 3)), Some(25));
    assert!(!mauer.solved());
    assert_eq!(
        values(&mauer),
        vec![
            Some(100),
            None,
            None,
            None,
            None,
            Some(25),
            Some(12),
            None,
            Some(17),
            Some(8)
        ]
    );
}

#[test]
fn equation_with_integer_solution_solves() {
    // 101 = 12 + 3 x + 3 * 17 + 8, so x = 10
    let mut mauer = wall(4, &[(1, 1, 101), (4, 1, 12), (4, 3, 17), (4, 4, 8)]);

    assert_eq!(mauer.solve(), SolveStatus::Solved);
    assert_eq!(
        values(&mauer),
        vec![
            Some(101),
            Some(49),
            Some(52),
            Some(22),
            Some(27),
            Some(25),
            Some(12),
            Some(10),
            Some(17),
            Some(8)
        ]
    );
}

#[test]
fn equation_with_negative_solution_solves() {
    // 2 = 12 + 3 x + 3 * 17 + 8, so x = -23
    let mut mauer = wall(4, &[(1, 1, 2), (4, 1, 12), (4, 3, 17), (4, 4, 8)]);

    assert_eq!(mauer.solve(), SolveStatus::Solved);
    assert_eq!(mauer.get(&Position::new(4, 2)), Some(-23));
    assert_eq!(mauer.get(&Position::new(3, 1)), Some(-11));
    assert_eq!(mauer.get(&Position::new(3, 2)), Some(-6));
    assert_eq!(mauer.get(&Position::new(2, 1)), Some(-17));
    assert_eq!(mauer.get(&Position::new(2, 2)), Some(19));
}

#[test]
fn two_missing_bottom_cells_are_stuck() {
    let mut mauer = wall(4, &[(1, 1, 100), (4, 1, 12), (4, 4, 8)]);
    assert_eq!(mauer.solve(), SolveStatus::Stuck);
    assert_eq!(mauer.get(&Position::new(4, 2)), None);
    assert_eq!(mauer.get(&Position::new(4, 3)), None);
}

#[test]
fn missing_bottom_cell_without_spire_is_stuck() {
    // the only known cell above the bottom row does not cover column 1
    let mut mauer = wall(3, &[(2, 2, 5), (3, 2, 2)]);
    assert_eq!(mauer.solve(), SolveStatus::Stuck);
    assert_eq!(mauer.get(&Position::new(3, 3)), Some(3));
    assert_eq!(mauer.get(&Position::new(3, 1)), None);
}

#[test]
fn contradiction_between_seed_and_derivation() {
    // the bottom row gives the top 4, the seed says 5
    let mut mauer = wall(3, &[(1, 1, 5), (3, 1, 1), (3, 2, 1), (3, 3, 1)]);
    assert_eq!(mauer.solve(), SolveStatus::Contradiction);
    assert_eq!(mauer.get(&Position::new(1, 1)), Some(5));
    assert_eq!(mauer.get(&Position::new(3, 1)), Some(1));
    assert_eq!(mauer.get(&Position::new(3, 2)), Some(1));
    assert_eq!(mauer.get(&Position::new(3, 3)), Some(1));
}

#[test]
fn contradiction_between_two_derivations() {
    // for (2, 2) the bottom rule gives 2 + 3 = 5, the left rule 10 - 3 = 7
    let mut mauer = wall(3, &[(1, 1, 10), (3, 1, 1), (3, 2, 2), (3, 3, 3)]);
    assert_eq!(mauer.solve(), SolveStatus::Contradiction);
    assert_eq!(mauer.get(&Position::new(1, 1)), Some(10));
    assert_eq!(mauer.get(&Position::new(2, 1)), Some(3));
    assert_eq!(mauer.get(&Position::new(2, 2)), None);
}

#[test]
fn contradiction_in_a_full_wall() {
    let mut mauer = wall(2, &[(1, 1, 5), (2, 1, 1), (2, 2, 1)]);
    assert!(mauer.solved());
    assert_eq!(mauer.solve(), SolveStatus::Contradiction);
    assert_eq!(values(&mauer), vec![Some(5), Some(1), Some(1)]);
}

#[test]
fn contradiction_after_the_equation() {
    // the equation gives (3, 2) = 3 from the top; then (2, 1) = 4 by the
    // bottom rule, but the seed says 9
    let mut mauer = wall(3, &[(1, 1, 10), (2, 1, 9), (3, 1, 1), (3, 3, 3)]);
    let status = mauer.solve();
    assert_eq!(status, SolveStatus::Contradiction);
    assert_eq!(mauer.get(&Position::new(2, 1)), Some(9));
    assert_eq!(mauer.get(&Position::new(1, 1)), Some(10));
}

#[test]
fn solving_twice_changes_nothing() {
    let seeds: Vec<Vec<(usize, usize, isize)>> = vec![
        vec![(4, 1, 1), (4, 2, 2), (4, 3, 3), (4, 4, 4)],
        vec![(1, 1, 100), (4, 1, 12), (4, 3, 17), (4, 4, 8)],
        vec![(1, 1, 101), (4, 1, 12), (4, 3, 17), (4, 4, 8)],
        vec![(1, 1, 100), (4, 1, 12), (4, 4, 8)],
        vec![(1, 1, 5), (3, 1, 1), (3, 2, 1), (3, 3, 1)],
        vec![(1, 1, 10), (3, 1, 1), (3, 2, 2), (3, 3, 3)],
        vec![],
    ];
    for seed in seeds {
        let mut mauer = wall(4, &seed);
        let first = mauer.solve();
        let after_first = values(&mauer);
        let second = mauer.solve();
        let after_second = values(&mauer);
        assert_eq!(first, second);
        for (before, after) in after_first.iter().zip(after_second.iter()) {
            if before.is_some() {
                assert_eq!(before, after);
            }
        }
        if first != SolveStatus::Contradiction {
            assert_eq!(after_first, after_second);
        }
    }
}

#[test]
fn solving_keeps_the_seeds() {
    let seeds = [(1, 1, 101), (4, 1, 12), (4, 3, 17), (4, 4, 8)];
    let mut mauer = wall(4, &seeds);
    mauer.solve();
    for (row, col, value) in seeds {
        assert_eq!(mauer.get(&Position::new(row, col)), Some(value));
    }
}

#[test]
fn sum_that_is_no_isize_is_not_derived() {
    let mut mauer = wall(2, &[(2, 1, isize::MAX), (2, 2, 1)]);
    assert_eq!(mauer.solve(), SolveStatus::Stuck);
    assert_eq!(mauer.get(&Position::new(1, 1)), None);

    let mut mauer = wall(2, &[(1, 1, isize::MIN), (2, 1, 1)]);
    assert_eq!(mauer.solve(), SolveStatus::Stuck);
    assert_eq!(mauer.get(&Position::new(2, 2)), None);
}

#[test]
fn full_wall_that_breaks_the_rule_beyond_isize_is_a_contradiction() {
    // isize::MAX + isize::MAX is no isize, and it is not isize::MIN either
    let mut mauer = wall(2, &[(1, 1, isize::MIN), (2, 1, isize::MAX), (2, 2, isize::MAX)]);
    assert_eq!(mauer.solve(), SolveStatus::Contradiction);
}

#[test]
fn solved_walls_obey_the_rule() {
    let seeds: Vec<Vec<(usize, usize, isize)>> = vec![
        vec![(5, 1, 1), (5, 2, -2), (5, 3, 3), (5, 4, -4), (5, 5, 5)],
        vec![(1, 1, 7), (2, 1, 3), (3, 1, 1), (4, 1, 0), (5, 1, -2)],
        vec![(1, 1, 7), (2, 2, 3), (3, 3, 1), (4, 4, 0), (5, 5, -2)],
        vec![(1, 1, 48), (5, 1, 1), (5, 2, 2), (5, 4, 4), (5, 5, 5)],
    ];
    for seed in seeds {
        let mut mauer = wall(5, &seed);
        assert_eq!(mauer.solve(), SolveStatus::Solved);
        for row in 1..5 {
            for col in 1..=row {
                let pos = Position::new(row, col);
                let value = mauer.get(&pos).unwrap();
                let left = mauer.get(&pos.bottom_left()).unwrap();
                let right = mauer.get(&pos.bottom_right()).unwrap();
                assert_eq!(value, left + right);
            }
        }
    }
}

#[test]
fn larger_wall_from_mixed_seeds() {
    // bottom row 1..=6 but for column 4, and the top
    let mut full = wall(6, &[(6, 1, 1), (6, 2, 2), (6, 3, 3), (6, 4, 4), (6, 5, 5), (6, 6, 6)]);
    assert_eq!(full.solve(), SolveStatus::Solved);
    let top = full.get(&Position::new(1, 1)).unwrap();
    // weights 1 5 10 10 5 1
    assert_eq!(top, 1 + 5 * 2 + 10 * 3 + 10 * 4 + 5 * 5 + 6);

    let mut partial = wall(
        6,
        &[(1, 1, top), (6, 1, 1), (6, 2, 2), (6, 3, 3), (6, 5, 5), (6, 6, 6)],
    );
    assert_eq!(partial.solve(), SolveStatus::Solved);
    assert_eq!(values(&partial), values(&full));
}
