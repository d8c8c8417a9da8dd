use ascn_rs::board::position::BoardPosition;
use ascn_rs::board::Board;
use ascn_rs::filters::{Diagonal, Filter, FilterKind, Knight, Straight, overflow_selector, square_data};
use ascn_rs::pieces::{Piece, PieceType, Player};

// Square indices: a1 = 0, b1 = 1, ..., h8 = 63.
const A1: u8 = 0;
const D1: u8 = 3;
const E1: u8 = 4;
const H1: u8 = 7;
const A2: u8 = 8;
const C2: u8 = 10;
const B3: u8 = 17;
const F3: u8 = 21;
const A4: u8 = 24;
const D4: u8 = 27;
const E4: u8 = 28;
const H4: u8 = 31;
const A5: u8 = 32;
const B5: u8 = 33;
const D5: u8 = 35;
const F5: u8 = 37;
const B6: u8 = 41;
const E6: u8 = 44;
const G6: u8 = 46;
const C1: u8 = 2;

fn place(board: &mut Board, square: u8, kind: PieceType, player: Player) {
    board.set_square(
        &BoardPosition::new(square % 8 + 1, square / 8 + 1),
        &Some(Piece(kind, player)),
    );
}

#[test]
fn diagonal_square_data_test() {
    let mut chess = Board::blank_board();

    place(&mut chess, 19, PieceType::Pawn, Player::White);
    place(&mut chess, H1, PieceType::Bishop, Player::White);
    place(&mut chess, G6, PieceType::Queen, Player::White);
    place(&mut chess, D5, PieceType::King, Player::White);

    place(&mut chess, 56, PieceType::King, Player::Black);

    place(&mut chess, A2, PieceType::Pawn, Player::White);
    place(&mut chess, B3, PieceType::Pawn, Player::Black);

    assert_eq!(Diagonal::get_square_data(&B3, &chess), vec![None, None, Some(A2), None]);
    assert_eq!(
        Diagonal::get_square_data(&E4, &chess),
        vec![Some(G6), Some(H1), None, Some(D5)]
    );
}

#[test]
fn ep_square_data_test() {
    // The start, then a2a4 h7h6 a4a5 b7b5.
    let chess =
        Board::from_fen("rnbqkbnr/p1ppppp1/7p/Pp6/8/8/1PPPPPPP/RNBQKBNR w KQkq b6 0 3").unwrap();

    assert_eq!(Diagonal::get_square_data(&B6, &chess), vec![None, None, Some(A5), None]);
}

#[test]
fn knight_square_data_test() {
    let mut chess = Board::blank_board();
    place(&mut chess, A1, PieceType::King, Player::White);
    place(&mut chess, 63, PieceType::King, Player::Black);

    place(&mut chess, B5, PieceType::Knight, Player::White);
    place(&mut chess, C2, PieceType::Knight, Player::White);
    place(&mut chess, E6, PieceType::Knight, Player::White);
    place(&mut chess, F5, PieceType::Knight, Player::White);
    place(&mut chess, F3, PieceType::Knight, Player::White);

    assert_eq!(
        Knight::get_square_data(&D4, &chess),
        vec![Some(F5), Some(F3), Some(B5), None, Some(E6), None, None, Some(C2)]
    );
}

#[test]
fn simple_square_data_test() {
    let chess = Board::starting_board();

    assert_eq!(Straight::get_square_data(&A4, &chess), vec![None, None, Some(A2), None]);
}

#[test]
fn castling_square_data_test() {
    // The start, then d2d3 h7h6 c1d2 g7g6 b1c2 f7f6 e2e3 e7e6 d1e2 d7d6, each piece simply
    // moved to its target square.
    let chess =
        Board::from_fen("rnbqkbnr/ppp5/3ppppp/8/8/111PP111/PPNBQPPP/R3KBNR w KQkq - 0 6").unwrap();

    assert_eq!(Straight::get_square_data(&C1, &chess), vec![None, Some(E1), None, Some(A1)]);
}

#[test]
fn complex_square_data_test() {
    let mut chess = Board::blank_board();
    place(&mut chess, D4, PieceType::Pawn, Player::Black);
    place(&mut chess, H4, PieceType::Rook, Player::White);
    place(&mut chess, D1, PieceType::Queen, Player::White);
    place(&mut chess, D5, PieceType::King, Player::White);
    place(&mut chess, 56, PieceType::King, Player::Black);
    place(&mut chess, A2, PieceType::Pawn, Player::White);

    assert_eq!(
        Straight::get_square_data(&D4, &chess),
        vec![Some(D5), Some(H4), Some(D1), None]
    );
    assert_eq!(Straight::get_square_data(&A4, &chess), vec![None, None, Some(A2), None]);
}

#[test]
fn filter_ids_and_masks() {
    assert_eq!(Knight::get_raw_id(), 1);
    assert_eq!(Diagonal::get_raw_id(), 2);
    assert_eq!(Straight::get_raw_id(), 3);
    assert_eq!(Knight::get_id(), 0b0100_0000);
    assert_eq!(Diagonal::get_id(), 0b1000_0000);
    assert_eq!(Straight::get_id(), 0b1100_0000);
    assert_eq!(Knight::get_overflow_mask(), 0b111);
    assert_eq!(Straight::get_overflow_mask(), 0b11);
}

#[test]
fn overflow_only_when_ambiguous() {
    let mut chess = Board::blank_board();
    place(&mut chess, D4, PieceType::Pawn, Player::Black);
    place(&mut chess, H4, PieceType::Rook, Player::White);
    place(&mut chess, D1, PieceType::Queen, Player::White);
    place(&mut chess, D5, PieceType::King, Player::White);
    place(&mut chess, 56, PieceType::King, Player::Black);
    place(&mut chess, A2, PieceType::Pawn, Player::White);

    // Three candidates for d4: the rook on h4 fills slot 1 (right).
    assert_eq!(Straight::get_overflow(&D4, &H4, &chess), Some((1, 2)));
    assert_eq!(overflow_selector(FilterKind::Straight, D4, D1, &chess), Some((2, 2)));
    // One candidate for a4: no selector.
    assert_eq!(Straight::get_overflow(&A4, &A2, &chess), None);
    // An origin that is no candidate gets no selector.
    assert_eq!(Straight::get_overflow(&D4, &A2, &chess), None);
}

#[test]
fn candidate_set_sizes() {
    let chess = Board::starting_board();
    for to in 0..64u8 {
        let straight = square_data(FilterKind::Straight, to, &chess);
        let diagonal = square_data(FilterKind::Diagonal, to, &chess);
        let knight = square_data(FilterKind::Knight, to, &chess);
        assert_eq!(straight.len(), 4);
        assert_eq!(diagonal.len(), 4);
        assert_eq!(knight.len(), 8);
    }
    // From the start, f3 is reached by the g1 knight only.
    assert_eq!(
        square_data(FilterKind::Knight, F3, &chess),
        vec![None, None, None, None, None, Some(6), None, None]
    );
}
