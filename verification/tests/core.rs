use vardoku::board::BoardState;
use vardoku::digit::{Digit, DigitSize, Four, Nine, Sixteen, TwentyFive};
use vardoku::errors::Error;
use vardoku::location::CellLocation;
use vardoku::mask::{Difficulty, DifficultyMask};
use vardoku::notes::NoteState;
use vardoku::relations::RelationResolver;

fn loc(row: usize, col: usize) -> CellLocation {
    CellLocation { row, col }
}

fn solved_rows(n: usize) -> Vec<Vec<u8>> {
    // A fully filled grid is all the mask needs; values cycle through 1..=n.
    (0..n)
        .map(|i| (0..n).map(|j| ((i + j) % n + 1) as u8).collect())
        .collect()
}

fn solved4() -> Vec<Vec<u8>> {
    vec![
        vec![1, 2, 3, 4],
        vec![3, 4, 1, 2],
        vec![2, 1, 4, 3],
        vec![4, 3, 2, 1],
    ]
}

fn snapshot<T: DigitSize>(board: &BoardState<T>) -> Vec<Option<u8>> {
    let n = board.size();
    let mut out = Vec::new();
    for i in 0..n {
        for j in 0..n {
            out.push(board.get(loc(i, j)).unwrap().map(|d| d.get()));
        }
    }
    out
}

#[test]
fn digit_validated_new_in_range() {
    for raw in 1..=4u8 {
        assert_eq!(Digit::<Four>::new_checked(raw).unwrap().get(), raw);
    }
    for raw in 1..=9u8 {
        assert_eq!(Digit::<Nine>::new_checked(raw).unwrap().get(), raw);
    }
    for raw in 1..=16u8 {
        assert_eq!(Digit::<Sixteen>::new_checked(raw).unwrap().get(), raw);
    }
    for raw in 1..=25u8 {
        assert_eq!(Digit::<TwentyFive>::new_checked(raw).unwrap().get(), raw);
    }
}

#[test]
fn digit_validated_new_out_of_range() {
    assert!(Digit::<Four>::new_checked(0).is_none());
    assert!(Digit::<Four>::new_checked(5).is_none());
    assert!(Digit::<Nine>::new_checked(0).is_none());
    assert!(Digit::<Nine>::new_checked(10).is_none());
    assert!(Digit::<Sixteen>::new_checked(0).is_none());
    assert!(Digit::<Sixteen>::new_checked(17).is_none());
    assert!(Digit::<TwentyFive>::new_checked(0).is_none());
    assert!(Digit::<TwentyFive>::new_checked(26).is_none());
}

#[test]
fn digit_all_values_ascending() {
    let four = Digit::<Four>::all();
    assert_eq!(four.len(), 4);
    let nine = Digit::<Nine>::all();
    assert_eq!(nine.len(), 9);
    let twenty_five = Digit::<TwentyFive>::all();
    assert_eq!(twenty_five.len(), 25);
    for (i, d) in nine.iter().enumerate() {
        assert_eq!(d.get() as usize, i + 1);
        assert!(1 <= d.get() && d.get() <= 9);
    }
    for w in twenty_five.windows(2) {
        assert!(w[0].get() < w[1].get());
    }
}

#[test]
fn digit_index_round_trip() {
    let d = Digit::<Nine>::from_index(0);
    assert_eq!(d.get(), 1);
    assert_eq!(d.as_index(), 0);
    let d = Digit::<Nine>::from_index(8);
    assert_eq!(d.get(), 9);
    assert_eq!(d.as_index(), 8);
    assert_eq!(Digit::<Four>::new(3).as_index(), 2);
}

#[test]
fn cell_location_bounds() {
    assert_eq!(CellLocation::new(0, 3, 4).unwrap(), loc(0, 3));
    assert_eq!(CellLocation::new(4, 0, 4).unwrap_err(), Error::OutOfBounds);
    assert_eq!(CellLocation::new(0, 4, 4).unwrap_err(), Error::OutOfBounds);
}

#[test]
fn board_from_rows_and_get() {
    let b = BoardState::<Four>::from_rows(&solved4()).unwrap();
    assert_eq!(b.size(), 4);
    assert_eq!(b.get(loc(0, 0)).unwrap().unwrap().get(), 1);
    assert_eq!(b.get(loc(2, 3)).unwrap().unwrap().get(), 3);
    assert_eq!(b.filled_count(), 16);
}

#[test]
fn board_from_rows_rejects_bad_shapes_and_values() {
    let short: Vec<Vec<u8>> = vec![vec![1, 2, 3, 4]];
    assert_eq!(
        BoardState::<Four>::from_rows(&short).unwrap_err(),
        Error::OutOfBounds
    );
    let ragged = vec![vec![1, 2, 3, 4], vec![3, 4, 1], vec![2, 1, 4, 3], vec![4, 3, 2, 1]];
    assert_eq!(
        BoardState::<Four>::from_rows(&ragged).unwrap_err(),
        Error::OutOfBounds
    );
    let mut zero = solved4();
    zero[1][1] = 0;
    assert_eq!(
        BoardState::<Four>::from_rows(&zero).unwrap_err(),
        Error::OutOfRange
    );
    let mut high = solved4();
    high[3][2] = 5;
    assert_eq!(
        BoardState::<Four>::from_rows(&high).unwrap_err(),
        Error::OutOfRange
    );
}

#[test]
fn board_set_toggle_to_clear() {
    let mut b = BoardState::<Four>::from_rows(&solved4()).unwrap();
    b.unset(loc(0, 0)).unwrap();
    assert!(b.get(loc(0, 0)).unwrap().is_none());
    let d1 = Digit::<Four>::new(1);
    // Setting a digit on an empty cell stores it and reports the cell empty.
    assert!(b.set(loc(0, 0), d1).unwrap().is_none());
    assert_eq!(b.get(loc(0, 0)).unwrap().unwrap().get(), 1);
    // Setting the same digit again clears the cell (toggle-to-clear).
    assert_eq!(b.set(loc(0, 0), d1).unwrap().unwrap().get(), 1);
    assert!(b.get(loc(0, 0)).unwrap().is_none());
    // Setting two different digits in turn leaves the second one.
    let d2 = Digit::<Four>::new(2);
    b.set(loc(0, 0), d1).unwrap();
    b.set(loc(0, 0), d2).unwrap();
    assert_eq!(b.get(loc(0, 0)).unwrap().unwrap().get(), 2);
}

#[test]
fn board_out_of_bounds_operations_fail() {
    let mut b = BoardState::<Four>::from_rows(&solved4()).unwrap();
    let solution = BoardState::<Four>::from_rows(&solved4()).unwrap();
    let bad = loc(4, 0);
    assert_eq!(b.get(bad).unwrap_err(), Error::OutOfBounds);
    assert_eq!(b.set(bad, Digit::<Four>::new(1)).unwrap_err(), Error::OutOfBounds);
    assert_eq!(b.unset(bad).unwrap_err(), Error::OutOfBounds);
    assert_eq!(b.is_correct(bad, &solution).unwrap_err(), Error::OutOfBounds);
}

#[test]
fn board_is_correct_feedback() {
    let solution = BoardState::<Four>::from_rows(&solved4()).unwrap();
    let mut b = BoardState::<Four>::from_rows(&solved4()).unwrap();
    assert!(b.is_correct(loc(1, 1), &solution).unwrap());
    b.set(loc(1, 1), Digit::<Four>::new(1)).unwrap();
    assert!(!b.is_correct(loc(1, 1), &solution).unwrap());
    // Two empty cells agree.
    b.unset(loc(2, 2)).unwrap();
    let mut other = BoardState::<Four>::from_rows(&solved4()).unwrap();
    other.unset(loc(2, 2)).unwrap();
    assert!(b.is_correct(loc(2, 2), &other).unwrap());
}

#[test]
fn box_side_of_supported_sizes() {
    assert_eq!(RelationResolver::box_side(4).unwrap(), 2);
    assert_eq!(RelationResolver::box_side(9).unwrap(), 3);
    assert_eq!(RelationResolver::box_side(16).unwrap(), 4);
    assert_eq!(RelationResolver::box_side(25).unwrap(), 5);
}

#[test]
fn box_side_rejects_non_squares() {
    assert_eq!(
        RelationResolver::box_side(5).unwrap_err(),
        Error::UndefinedBoxGeometry
    );
    assert_eq!(
        RelationResolver::box_side(0).unwrap_err(),
        Error::UndefinedBoxGeometry
    );
    assert_eq!(
        RelationResolver::box_side(255).unwrap_err(),
        Error::UndefinedBoxGeometry
    );
}

#[test]
fn box_of_coordinates() {
    assert_eq!(RelationResolver::box_of(loc(4, 7), 9).unwrap(), (1, 2));
    assert_eq!(RelationResolver::box_of(loc(0, 0), 9).unwrap(), (0, 0));
    assert_eq!(RelationResolver::box_of(loc(3, 3), 4).unwrap(), (1, 1));
    assert_eq!(
        RelationResolver::box_of(loc(0, 0), 7).unwrap_err(),
        Error::UndefinedBoxGeometry
    );
}

#[test]
fn is_peer_examples() {
    // Row peers.
    assert!(RelationResolver::is_peer(loc(0, 0), loc(0, 8), 9).unwrap());
    // Column peers.
    assert!(RelationResolver::is_peer(loc(0, 2), loc(7, 2), 9).unwrap());
    // Box peers that share neither row nor column.
    assert!(RelationResolver::is_peer(loc(0, 0), loc(1, 1), 9).unwrap());
    // Reflexive and symmetric.
    assert!(RelationResolver::is_peer(loc(2, 3), loc(2, 3), 9).unwrap());
    assert_eq!(
        RelationResolver::is_peer(loc(5, 1), loc(1, 5), 9).unwrap(),
        RelationResolver::is_peer(loc(1, 5), loc(5, 1), 9).unwrap()
    );
    // Sharing no row, column or box.
    assert!(!RelationResolver::is_peer(loc(0, 0), loc(8, 8), 9).unwrap());
}

#[test]
fn difficulty_table() {
    assert_eq!(Difficulty::Easy.fill_percent(), 51);
    assert_eq!(Difficulty::Medium.fill_percent(), 58);
    assert_eq!(Difficulty::Hard.fill_percent(), 65);
    assert_eq!(Difficulty::Expert.fill_percent(), 73);
    assert_eq!(Difficulty::Extreme.fill_percent(), 75);
    assert_eq!(Difficulty::Easy.label(), "Easy");
    assert_eq!(Difficulty::Medium.label(), "Medium");
    assert_eq!(Difficulty::Hard.label(), "Hard");
    assert_eq!(Difficulty::Expert.label(), "Expert");
    assert_eq!(Difficulty::Extreme.label(), "Extreme");
}

#[test]
fn mask_clears_an_exact_count() {
    let solved = BoardState::<Nine>::from_rows(&solved_rows(9)).unwrap();
    // floor(81 * 0.51) = 41 cells cleared, 40 left filled.
    let masked = DifficultyMask::apply(&solved, 51).unwrap();
    assert_eq!(masked.filled_count(), 40);
    // A second run clears a (generally) different set but the same count.
    let again = DifficultyMask::apply(&solved, 51).unwrap();
    assert_eq!(again.filled_count(), 40);
    // Every surviving cell keeps its solved value.
    for i in 0..9 {
        for j in 0..9 {
            if let Some(d) = masked.get(loc(i, j)).unwrap() {
                assert_eq!(d.get(), solved.get(loc(i, j)).unwrap().unwrap().get());
            }
        }
    }
}

#[test]
fn mask_rejects_bad_ratios() {
    let solved = BoardState::<Nine>::from_rows(&solved_rows(9)).unwrap();
    assert_eq!(
        DifficultyMask::apply(&solved, 0).unwrap_err(),
        Error::InvalidDifficulty
    );
    assert_eq!(
        DifficultyMask::apply(&solved, 100).unwrap_err(),
        Error::InvalidDifficulty
    );
    assert_eq!(
        DifficultyMask::apply(&solved, 255).unwrap_err(),
        Error::InvalidDifficulty
    );
}

#[test]
fn mask_counts_for_every_difficulty() {
    let solved = BoardState::<Nine>::from_rows(&solved_rows(9)).unwrap();
    let cases = [
        (Difficulty::Easy, 81 - 41),
        (Difficulty::Medium, 81 - 46),
        (Difficulty::Hard, 81 - 52),
        (Difficulty::Expert, 81 - 59),
        (Difficulty::Extreme, 81 - 60),
    ];
    for (difficulty, expect_filled) in cases {
        let masked = DifficultyMask::apply(&solved, difficulty.fill_percent()).unwrap();
        assert_eq!(masked.filled_count(), expect_filled);
    }
}

#[test]
fn mask_largest_size() {
    let solved = BoardState::<TwentyFive>::from_rows(&solved_rows(25)).unwrap();
    assert_eq!(solved.filled_count(), 625);
    // floor(625 * 0.51) = 318 cells cleared.
    let masked = DifficultyMask::apply(&solved, 51).unwrap();
    assert_eq!(masked.filled_count(), 625 - 318);
}

#[test]
fn notes_toggle_round_trip() {
    let mut notes = NoteState::<Nine>::new();
    let d = Digit::<Nine>::new(7);
    assert!(!notes.is_marked(loc(3, 4), d).unwrap());
    notes.toggle(loc(3, 4), d).unwrap();
    assert!(notes.is_marked(loc(3, 4), d).unwrap());
    // An unrelated cell and an unrelated digit are untouched.
    assert!(!notes.is_marked(loc(4, 3), d).unwrap());
    assert!(!notes.is_marked(loc(3, 4), Digit::<Nine>::new(6)).unwrap());
    // The second toggle restores the original state.
    notes.toggle(loc(3, 4), d).unwrap();
    assert!(!notes.is_marked(loc(3, 4), d).unwrap());
}

#[test]
fn notes_reset_all() {
    let mut notes = NoteState::<Four>::new();
    notes.toggle(loc(0, 0), Digit::<Four>::new(1)).unwrap();
    notes.toggle(loc(3, 3), Digit::<Four>::new(4)).unwrap();
    notes.reset_all();
    for i in 0..4 {
        for j in 0..4 {
            for v in 1..=4u8 {
                assert!(!notes.is_marked(loc(i, j), Digit::<Four>::new(v)).unwrap());
            }
        }
    }
}

#[test]
fn notes_out_of_bounds() {
    let mut notes = NoteState::<Four>::new();
    let d = Digit::<Four>::new(2);
    assert_eq!(notes.toggle(loc(0, 4), d).unwrap_err(), Error::OutOfBounds);
    assert_eq!(notes.is_marked(loc(4, 0), d).unwrap_err(), Error::OutOfBounds);
}
