use zahlenmauer::mauer::{Mauer, Position, SolveStatus};

struct Lcg(u64);

impl Lcg {
    fn next(&mut self) -> u64 {
        self.0 = self
            .0
            .wrapping_mul(6364136223846793005)
            .wrapping_add(1442695040888963407);
        self.0 >> 33
    }
}

/// The finished wall over `bottom`, row by row from the top.
fn finished(bottom: &[isize]) -> Vec<Vec<isize>> {
    let mut rows = vec![bottom.to_vec()];
    while rows[0].len() > 1 {
        let below = &rows[0];
        let above: Vec<isize> = below.windows(2).map(|pair| pair[0] + pair[1]).collect();
        rows.insert(0, above);
    }
    rows
}

#[test]
fn seeds_from_a_finished_wall_never_contradict() {
    let mut random = Lcg(7);
    for round in 0..400 {
        let rows = 1 + (round % 6);
        let bottom: Vec<isize> = (0..rows)
            .map(|_| (random.next() % 41) as isize - 20)
            .collect();
        let full = finished(&bottom);
        let mut mauer = Mauer::new(rows).unwrap();
        let mut seeded = 0;
        for row in 1..=rows {
            for col in 1..=row {
                if random.next() % 3 == 0 {
                    mauer
                        .set(Position::new(row, col), full[row - 1][col - 1])
                        .unwrap();
                    seeded += 1;
                }
            }
        }
        let status = mauer.solve();
        assert_ne!(status, SolveStatus::Contradiction);
        let mut known = 0;
        for row in 1..=rows {
            for col in 1..=row {
                if let Some(value) = mauer.get(&Position::new(row, col)) {
                    assert_eq!(value, full[row - 1][col - 1]);
                    known += 1;
                }
            }
        }
        assert!(known >= seeded);
        assert_eq!(status == SolveStatus::Solved, known == rows * (rows + 1) / 2);
        assert_eq!(mauer.solved(), status == SolveStatus::Solved);
    }
}

#[test]
fn one_missing_bottom_cell_under_a_known_top_is_found() {
    let mut random = Lcg(11);
    for round in 0..200 {
        let rows = 2 + (round % 7);
        let bottom: Vec<isize> = (0..rows)
            .map(|_| (random.next() % 201) as isize - 100)
            .collect();
        let full = finished(&bottom);
        let missing = 1 + (random.next() as usize % rows);
        let mut mauer = Mauer::new(rows).unwrap();
        mauer.set(Position::new(1, 1), full[0][0]).unwrap();
        for col in 1..=rows {
            if col != missing {
                mauer
                    .set(Position::new(rows, col), bottom[col - 1])
                    .unwrap();
            }
        }
        assert_eq!(mauer.solve(), SolveStatus::Solved);
        for row in 1..=rows {
            for col in 1..=row {
                assert_eq!(
                    mauer.get(&Position::new(row, col)),
                    Some(full[row - 1][col - 1])
                );
            }
        }
    }
}

#[test]
fn a_changed_seed_is_a_contradiction_or_leaves_the_wall_open() {
    let mut random = Lcg(13);
    for round in 0..200 {
        let rows = 2 + (round % 5);
        let bottom: Vec<isize> = (0..rows)
            .map(|_| (random.next() % 41) as isize - 20)
            .collect();
        let full = finished(&bottom);
        let mut mauer = Mauer::new(rows).unwrap();
        for col in 1..=rows {
            mauer
                .set(Position::new(rows, col), bottom[col - 1])
                .unwrap();
        }
        // one cell above the bottom row gets a wrong value
        let row = 1 + (random.next() as usize % (rows - 1));
        let col = 1 + (random.next() as usize % row);
        mauer
            .set(Position::new(row, col), full[row - 1][col - 1] + 1)
            .unwrap();
        assert_eq!(mauer.solve(), SolveStatus::Contradiction);
        assert_eq!(
            mauer.get(&Position::new(row, col)),
            Some(full[row - 1][col - 1] + 1)
        );
        for col in 1..=rows {
            assert_eq!(
                mauer.get(&Position::new(rows, col)),
                Some(bottom[col - 1])
            );
        }
    }
}

#[test]
fn walls_of_many_rows() {
    let rows = 40;
    let bottom: Vec<isize> = (0..rows).map(|i| (i as isize % 3) - 1).collect();
    let full = finished(&bottom);
    let mut mauer = Mauer::new(rows).unwrap();
    for col in 1..=rows {
        mauer
            .set(Position::new(rows, col), bottom[col - 1])
            .unwrap();
    }
    assert_eq!(mauer.solve(), SolveStatus::Solved);
    for row in 1..=rows {
        for col in 1..=row {
            assert_eq!(
                mauer.get(&Position::new(row, col)),
                Some(full[row - 1][col - 1])
            );
        }
    }
}
