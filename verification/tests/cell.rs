use andaluz_core::cell::{Cell, CellContent};
use andaluz_core::error::BoardError;

#[test]
fn cell_starts_empty() {
    let cell = Cell::new(3, 4, 27);
    assert_eq!(cell.get_xyi(), (&3, &4, &27));
    assert_eq!(cell.get_content(), &CellContent::Empty);
    assert!(cell.is_empty());
    assert!(!cell.is_queen());
    assert!(!cell.is_attacked());
}

#[test]
fn cell_toggle_is_its_own_inverse() {
    let mut cell = Cell::new(1, 1, 0);
    assert_eq!(cell.toggle(), Ok(&CellContent::Queen));
    assert!(cell.is_queen());
    assert_eq!(cell.toggle(), Ok(&CellContent::Empty));
    assert!(cell.is_empty());
}

#[test]
fn cell_counts_attacks_up_and_down() {
    let mut cell = Cell::new(1, 1, 0);
    assert_eq!(cell.attack(), Ok(()));
    assert_eq!(cell.get_content(), &CellContent::Attack(1));
    assert!(cell.is_attacked());
    assert_eq!(cell.attack_or_relieve(&true), Ok(()));
    assert_eq!(cell.get_content(), &CellContent::Attack(2));
    assert_eq!(cell.toggle(), Err(BoardError::IllegalToggle));
    assert_eq!(cell.get_content(), &CellContent::Attack(2));
    assert_eq!(cell.relieve(), Ok(()));
    assert_eq!(cell.get_content(), &CellContent::Attack(1));
    assert_eq!(cell.attack_or_relieve(&false), Ok(()));
    assert_eq!(cell.get_content(), &CellContent::Empty);
    assert_eq!(cell.relieve(), Err(BoardError::IllegalToggle));
    assert_eq!(cell.attack_or_relieve(&false), Err(BoardError::IllegalToggle));
    assert_eq!(cell.get_content(), &CellContent::Empty);
}

#[test]
fn queen_cannot_be_attacked_or_relieved() {
    let mut cell = Cell::new(1, 1, 0);
    cell.toggle().unwrap();
    assert_eq!(cell.attack(), Err(BoardError::IllegalToggle));
    assert_eq!(cell.relieve(), Err(BoardError::IllegalToggle));
    assert_eq!(cell.attack_or_relieve(&true), Err(BoardError::IllegalToggle));
    assert!(cell.is_queen());
}

#[test]
fn attack_counter_stops_at_its_maximum() {
    let mut cell = Cell::new(1, 1, 0);
    for _ in 0..255 {
        cell.attack().unwrap();
    }
    assert_eq!(cell.get_content(), &CellContent::Attack(255));
    assert_eq!(cell.attack(), Err(BoardError::IllegalToggle));
    assert_eq!(cell.get_content(), &CellContent::Attack(255));
}

#[test]
fn errors_have_messages() {
    assert_eq!(BoardError::OutOfBounds.message(), "Coordinates out of bounds");
    assert_eq!(BoardError::IllegalToggle.message(), "Cell not available");
    assert_eq!(BoardError::ZeroWeightClassifier.message(), "Classifier without weight");
}
