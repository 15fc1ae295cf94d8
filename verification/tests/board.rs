use andaluz_core::board::Board;
use andaluz_core::cell::CellContent;
use andaluz_core::error::BoardError;

#[test]
fn single_move() {
    let mut board: Board = Board::new(8);
    board.toggle_cell(&1, &2).unwrap();
    assert_eq!(board.get_cell_content(&1, &2).unwrap(), &CellContent::Queen);
    assert_eq!(board.get_cell_attacks(&4, &5).unwrap(), &1);
    assert_eq!(board.get_cell_content(&3, &1).unwrap(), &CellContent::Empty);
}

#[test]
fn double_move() {
    let mut board: Board = Board::new(8);
    board.toggle_cell(&1, &2).unwrap();
    board.toggle_cell(&3, &1).unwrap();
    assert_eq!(board.get_cell_content(&1, &2).unwrap(), &CellContent::Queen);
    assert_eq!(board.get_cell_attacks(&2, &2).unwrap(), &2);
    assert_eq!(board.get_cell_content(&4, &3).unwrap(), &CellContent::Empty);
}

#[test]
fn null_move() {
    let mut board: Board = Board::new(8);

    board.toggle_cell(&1, &2).unwrap();
    board.toggle_cell(&1, &2).unwrap();

    assert_eq!(board.get_signature(), &vec![0_u8; 8]);

    board
        .get_cells()
        .iter()
        .for_each(|c| assert_eq!(c.get_content(), &CellContent::Empty));
}

#[test]
fn is_solved() {
    let mut board = Board::new(12);

    board.toggle_cell(&7, &1).unwrap();
    board.toggle_cell(&9, &2).unwrap();
    board.toggle_cell(&11, &3).unwrap();
    board.toggle_cell(&2, &4).unwrap();
    board.toggle_cell(&4, &5).unwrap();

    assert!(!board.is_solved());

    board.toggle_cell(&6, &6).unwrap();
    board.toggle_cell(&3, &7).unwrap();
    board.toggle_cell(&10, &8).unwrap();
    board.toggle_cell(&12, &9).unwrap();
    board.toggle_cell(&5, &10).unwrap();
    board.toggle_cell(&8, &11).unwrap();
    board.toggle_cell(&1, &12).unwrap();

    assert!(board.is_solved());

    assert_eq!(
        board.get_signature(),
        &vec![2_u8, 0, 8, 0, 36, 0, 16, 0, 64, 32, 0, 4, 0, 16, 128, 1, 8, 0]
    );
}

#[test]
fn new_board_is_empty_with_zero_signature() {
    let board = Board::new(6);
    board
        .get_cells()
        .iter()
        .for_each(|c| assert_eq!(c.get_content(), &CellContent::Empty));
    assert_eq!(board.get_signature(), &vec![0_u8; 5]);
    for cols in 1..=17usize {
        let board = Board::new(cols);
        assert_eq!(board.get_signature(), &vec![0_u8; (cols * cols + 7) / 8]);
        assert_eq!(board.get_cells().len(), cols * cols);
        assert_eq!(*board.get_cols(), cols);
    }
}

#[test]
fn toggle_sets_one_signature_bit() {
    let mut board = Board::new(8);
    board.toggle_cell(&2, &2).unwrap();
    assert_eq!(board.get_cell_content(&2, &2).unwrap(), &CellContent::Queen);
    assert_eq!(board.get_signature(), &vec![0_u8, 64, 0, 0, 0, 0, 0, 0]);
}

#[test]
fn toggle_refuses_attacked_and_outside_cells() {
    let mut board = Board::new(8);
    board.toggle_cell(&1, &1).unwrap();
    let before = board.get_signature().clone();
    assert_eq!(board.toggle_cell(&8, &8), Err(BoardError::IllegalToggle));
    assert_eq!(board.toggle_cell(&1, &5), Err(BoardError::IllegalToggle));
    assert_eq!(board.toggle_cell(&0, &1), Err(BoardError::OutOfBounds));
    assert_eq!(board.toggle_cell(&1, &0), Err(BoardError::OutOfBounds));
    assert_eq!(board.toggle_cell(&9, &1), Err(BoardError::OutOfBounds));
    assert_eq!(board.toggle_cell(&1, &9), Err(BoardError::OutOfBounds));
    assert_eq!(board.get_signature(), &before);
    assert_eq!(board.get_cell_content(&9, &9), Err(BoardError::OutOfBounds));
    assert_eq!(board.get_cell_attacks(&2, &3), Ok(&0));
    assert_eq!(board.get_cell_attacks(&1, &1), Ok(&0));
    assert_eq!(board.get_cell_attacks(&2, &2), Ok(&1));
    assert_eq!(board.get_cell_attacks(&0, &3), Err(BoardError::OutOfBounds));
}

#[test]
fn board_of_one_column() {
    let mut board = Board::new(1);
    assert!(!board.is_solved());
    board.toggle_cell(&1, &1).unwrap();
    assert!(board.is_solved());
    assert_eq!(board.get_signature(), &vec![128_u8]);
    board.toggle_cell(&1, &1).unwrap();
    assert_eq!(board.get_signature(), &vec![0_u8]);
}

#[test]
fn attack_counts_follow_all_four_lines() {
    let mut board = Board::new(5);
    board.toggle_cell(&3, &3).unwrap();
    for y in 1..=5usize {
        for x in 1..=5usize {
            let dx = if x > 3 { x - 3 } else { 3 - x };
            let dy = if y > 3 { y - 3 } else { 3 - y };
            let expected = if dx == 0 && dy == 0 {
                CellContent::Queen
            } else if dx == 0 || dy == 0 || dx == dy {
                CellContent::Attack(1)
            } else {
                CellContent::Empty
            };
            assert_eq!(board.get_cell_content(&x, &y).unwrap(), &expected);
        }
    }
    assert_eq!(board.get_available_cells().len(), 8);
    board.toggle_cell(&1, &2).unwrap();
    assert_eq!(board.get_cell_content(&3, &2).unwrap(), &CellContent::Attack(2));
    assert_eq!(board.get_cell_content(&1, &3).unwrap(), &CellContent::Attack(2));
    assert_eq!(board.get_cell_content(&2, &3).unwrap(), &CellContent::Attack(2));
    assert_eq!(board.get_cell_content(&1, &1).unwrap(), &CellContent::Attack(2));
    board.toggle_cell(&3, &3).unwrap();
    assert_eq!(board.get_cell_content(&3, &2).unwrap(), &CellContent::Attack(1));
    assert_eq!(board.get_cell_content(&3, &3).unwrap(), &CellContent::Empty);
    assert_eq!(board.get_cell_content(&4, &4).unwrap(), &CellContent::Empty);
}

#[test]
fn reset_empties_the_board() {
    let mut board = Board::new(6);
    board.toggle_cell(&1, &2).unwrap();
    board.reset();
    board
        .get_cells()
        .iter()
        .for_each(|c| assert_eq!(c.get_content(), &CellContent::Empty));
    assert_eq!(board.get_signature(), &vec![0_u8; 5]);
    assert!(!board.is_solved());
}

#[test]
fn from_signature_to_string() {
    let mut board = Board::new(12);

    board.toggle_cell(&7, &1).unwrap();
    board.toggle_cell(&9, &2).unwrap();
    board.toggle_cell(&11, &3).unwrap();
    board.toggle_cell(&2, &4).unwrap();
    board.toggle_cell(&4, &5).unwrap();
    board.toggle_cell(&6, &6).unwrap();
    board.toggle_cell(&3, &7).unwrap();
    board.toggle_cell(&10, &8).unwrap();
    board.toggle_cell(&12, &9).unwrap();
    board.toggle_cell(&5, &10).unwrap();
    board.toggle_cell(&8, &11).unwrap();
    board.toggle_cell(&1, &12).unwrap();

    let signature = board.get_signature().clone();
    let board = Board::from_signature(signature.clone()).unwrap();
    let board = board.to_string();
    let board = Board::from_bit_string(&board).unwrap();

    assert_eq!(board.get_signature(), &signature);
}

#[test]
fn eight_queens_golden_signature() {
    let mut board = Board::new(8);
    for (x, y) in [(1, 5), (2, 3), (3, 1), (4, 7), (5, 2), (6, 8), (7, 6), (8, 4)] {
        board.toggle_cell(&x, &y).unwrap();
    }
    assert!(board.is_solved());
    assert_eq!(board.get_signature(), &vec![32_u8, 8, 64, 1, 128, 2, 16, 4]);
    assert_eq!(board.get_available_cells().len(), 0);
    assert_eq!(
        board.to_string(),
        "0010000000001000010000000000000110000000000000100001000000000100"
    );
}

#[test]
fn equivalent_signatures_of_a_full_board() {
    let mut board = Board::new(8);

    board.toggle_cell(&1, &2).unwrap();
    board.toggle_cell(&2, &5).unwrap();
    board.toggle_cell(&3, &7).unwrap();
    board.toggle_cell(&4, &4).unwrap();
    board.toggle_cell(&5, &1).unwrap();
    board.toggle_cell(&6, &8).unwrap();
    board.toggle_cell(&7, &6).unwrap();
    board.toggle_cell(&8, &3).unwrap();

    let rs = board.get_equivalent_signatures().unwrap();

    assert_eq!(rs.len(), 8);
    assert_eq!(&rs[0], board.get_signature());
    assert_eq!(rs[0], vec![8, 128, 1, 16, 64, 2, 32, 4]);
    assert_eq!(rs[1], vec![2, 16, 64, 8, 1, 128, 32, 4]);
    assert_eq!(rs[2], vec![32, 4, 64, 2, 8, 128, 1, 16]);
    assert_eq!(rs[3], vec![32, 4, 1, 128, 16, 2, 8, 64]);
    assert_eq!(rs[4], vec![64, 8, 2, 16, 128, 1, 4, 32]);
    assert_eq!(rs[5], vec![16, 1, 128, 8, 2, 64, 4, 32]);
    assert_eq!(rs[6], vec![4, 32, 128, 1, 8, 64, 16, 2]);
    assert_eq!(rs[7], vec![4, 32, 2, 64, 16, 1, 128, 8]);

    let again = board.get_equivalent_signatures().unwrap();
    assert_eq!(again, rs);
    board.toggle_cell(&8, &3).unwrap();
    let fewer = board.get_equivalent_signatures().unwrap();
    assert_eq!(fewer.len(), 8);
    assert_eq!(&fewer[0], board.get_signature());
    assert_ne!(fewer, rs);
}

#[test]
fn equivalent_signatures_coincide_on_symmetric_boards() {
    let mut board = Board::new(5);
    let rs = board.get_equivalent_signatures().unwrap();
    assert_eq!(rs.len(), 8);
    for s in &rs {
        assert_eq!(s, &vec![0_u8; 4]);
    }
    board.toggle_cell(&3, &3).unwrap();
    let rs = board.get_equivalent_signatures().unwrap();
    assert_eq!(rs.len(), 8);
    for s in &rs {
        assert_eq!(s, board.get_signature());
    }
    board.toggle_cell(&3, &3).unwrap();
    board.toggle_cell(&1, &1).unwrap();
    let rs = board.get_equivalent_signatures().unwrap();
    assert_eq!(rs[0], vec![128, 0, 0, 0]);
    assert_eq!(rs[1], vec![8, 0, 0, 0]);
    assert_eq!(rs[2], vec![0, 0, 0, 128]);
    assert_eq!(rs[3], vec![0, 0, 8, 0]);
    assert_eq!(rs[4], rs[0]);
    assert_eq!(rs[5], rs[1]);
    assert_eq!(rs[6], rs[2]);
    assert_eq!(rs[7], rs[3]);
}

#[test]
fn mirror_swaps_columns_and_rows() {
    let mut board = Board::new(6);
    board.toggle_cell(&2, &1).unwrap();
    board.toggle_cell(&5, &2).unwrap();
    let mirrored = board.mirror().unwrap();
    assert_eq!(mirrored.get_cell_content(&1, &2).unwrap(), &CellContent::Queen);
    assert_eq!(mirrored.get_cell_content(&2, &5).unwrap(), &CellContent::Queen);
    assert_eq!(mirrored.get_cell_content(&2, &1).unwrap(), &CellContent::Attack(2));
    assert_eq!(mirrored.get_cell_content(&1, &1).unwrap(), &CellContent::Attack(1));
    let back = mirrored.mirror().unwrap();
    assert_eq!(back.get_signature(), board.get_signature());
}

#[test]
fn relative_coordinates_count_from_the_centre() {
    let even = Board::new(8);
    assert_eq!(even.to_relative_coord(&1, &8), (-4, 4));
    assert_eq!(even.to_relative_coord(&4, &5), (-1, 1));
    let odd = Board::new(5);
    assert_eq!(odd.to_relative_coord(&1, &5), (-2, 2));
    assert_eq!(odd.to_relative_coord(&3, &2), (0, -1));
    assert_eq!(odd.to_relative_coord(&0, &6), (-3, 3));
    assert_eq!(even.to_relative_coord(&0, &9), (-5, 5));
    assert_eq!(even.to_relative_coord(&usize::MAX, &4), (i32::MAX, -1));
}

#[test]
fn signature_round_trip_on_every_size_but_one_and_three() {
    for cols in [2usize, 4, 5, 6, 7, 8, 9, 10, 11, 12, 13] {
        let mut board = Board::new(cols);
        board.toggle_cell(&1, &1).unwrap();
        if cols >= 4 {
            board.toggle_cell(&cols, &(cols - 1)).unwrap();
            board.toggle_cell(&2, &cols).unwrap();
        }
        let again = Board::from_signature(board.get_signature().clone()).unwrap();
        assert_eq!(again.get_cols(), board.get_cols());
        assert_eq!(again.get_signature(), board.get_signature());
        for (a, b) in again.get_cells().iter().zip(board.get_cells().iter()) {
            assert_eq!(a.get_content(), b.get_content());
            assert_eq!(a.get_xyi(), b.get_xyi());
        }
    }
    let three = Board::new(3);
    let taken_for = Board::from_signature(three.get_signature().clone()).unwrap();
    assert_eq!(*taken_for.get_cols(), 4);
    let one = Board::new(1);
    let taken_for = Board::from_signature(one.get_signature().clone()).unwrap();
    assert_eq!(*taken_for.get_cols(), 2);
}

#[test]
fn from_signature_refuses_what_is_no_board() {
    assert_eq!(Board::from_signature(vec![]).err(), Some(BoardError::OutOfBounds));
    assert_eq!(Board::from_signature(vec![0b1100_0000]).err(), Some(BoardError::IllegalToggle));
    assert_eq!(Board::from_signature(vec![0b1000_0100]).err(), Some(BoardError::OutOfBounds));
    assert_eq!(Board::from_signature(vec![0b1001_0001]).err(), Some(BoardError::IllegalToggle));
    let board = Board::from_signature(vec![0b1000_0000]).unwrap();
    assert_eq!(*board.get_cols(), 2);
    assert_eq!(board.get_cell_content(&1, &1).unwrap(), &CellContent::Queen);
    assert_eq!(board.get_cell_content(&2, &2).unwrap(), &CellContent::Attack(1));
    assert_eq!(Board::from_bit_string("").err(), Some(BoardError::OutOfBounds));
    assert_eq!(Board::from_bit_string("1100").err(), Some(BoardError::IllegalToggle));
    assert_eq!(Board::from_bit_string("10001").err(), Some(BoardError::OutOfBounds));
    let board = Board::from_bit_string("0x1000000").unwrap();
    assert_eq!(*board.get_cols(), 3);
    assert_eq!(board.get_signature(), &vec![0b0010_0000_u8, 0]);
}

#[test]
fn multiline_string_lists_the_last_byte_first() {
    let mut board = Board::new(4);
    board.toggle_cell(&2, &1).unwrap();
    board.toggle_cell(&4, &2).unwrap();
    assert_eq!(board.get_signature(), &vec![0b0100_0001_u8, 0]);
    assert_eq!(board.to_string(), "0100000100000000");
    assert_eq!(board.to_multiline_string(), "00000000\n01000001\n");
}

#[test]
fn get_mut_cell_hands_out_the_cell() {
    let mut board = Board::new(4);
    assert!(board.get_mut_cell(&5, &1).is_err());
    let cell = board.get_mut_cell(&2, &3).unwrap();
    assert_eq!(cell.get_xyi(), (&2, &3, &9));
    assert!(cell.is_empty());
    assert_eq!(board.get_cell(&2, &3).unwrap().get_xyi(), (&2, &3, &9));
}

#[test]
fn clone_is_a_board_of_its_own() {
    let mut board = Board::new(8);
    board.toggle_cell(&2, &3).unwrap();
    board.get_equivalent_signatures().unwrap();
    let mut copy = board.clone();
    assert_eq!(copy.get_signature(), board.get_signature());
    assert_eq!(copy.get_cols(), board.get_cols());
    copy.toggle_cell(&5, &4).unwrap();
    assert_eq!(board.get_cell_content(&5, &4).unwrap(), &CellContent::Empty);
    assert_eq!(copy.get_cell_content(&5, &4).unwrap(), &CellContent::Queen);
    assert_eq!(
        copy.get_equivalent_signatures().unwrap()[0],
        copy.get_signature().clone()
    );
    assert_ne!(copy.get_signature(), board.get_signature());
}
