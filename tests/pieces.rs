use ascn_rs::board::position::BoardPosition;
use ascn_rs::board::Board;
use ascn_rs::pieces::bishop::Bishop;
use ascn_rs::pieces::king::King;
use ascn_rs::pieces::knight::Knight;
use ascn_rs::pieces::pawn::Pawn;
use ascn_rs::pieces::queen::Queen;
use ascn_rs::pieces::rook::Rook;
use ascn_rs::pieces::{PartialPiece, Piece, PieceType, Player};
use ascn_rs::board::Move;

fn place(board: &mut Board, file: u8, rank: u8, kind: PieceType, player: Player) {
    board.set_square(&BoardPosition::new(file, rank), &Some(Piece(kind, player)));
}

#[test]
fn empty_diag() {
    let mut board = Board::blank_board();

    place(&mut board, 1, 1, PieceType::Bishop, Player::White);

    assert_eq!(Bishop::validate_move((1, 1), (8, 8), &board), true);
}

#[test]
fn empty_diag_2() {
    let mut board = Board::blank_board();

    place(&mut board, 1, 8, PieceType::Bishop, Player::White);

    assert_eq!(Bishop::validate_move((1, 8), (8, 1), &board), true);
}

#[test]
fn bishop_in_the_way_1() {
    let mut board = Board::blank_board();

    place(&mut board, 1, 1, PieceType::Bishop, Player::White);
    place(&mut board, 2, 2, PieceType::Knight, Player::White);

    assert_eq!(Bishop::validate_move((1, 1), (8, 8), &board), false);
}

#[test]
fn bishop_in_the_way_2() {
    let mut board = Board::blank_board();

    place(&mut board, 1, 1, PieceType::Bishop, Player::White);
    place(&mut board, 7, 7, PieceType::Rook, Player::Black);

    assert_eq!(Bishop::validate_move((1, 1), (8, 8), &board), false);
}

#[test]
fn bishop_capture() {
    let mut board = Board::blank_board();

    place(&mut board, 1, 1, PieceType::Bishop, Player::White);
    place(&mut board, 8, 8, PieceType::Rook, Player::Black);

    assert_eq!(Bishop::validate_move((1, 1), (8, 8), &board), true);
}

#[test]
fn vert() {
    let mut board = Board::blank_board();

    place(&mut board, 1, 1, PieceType::Bishop, Player::White);

    assert_eq!(Bishop::validate_move((1, 1), (1, 8), &board), false);
}

#[test]
fn king_chess_move() {
    let mut board = Board::blank_board();

    place(&mut board, 5, 1, PieceType::King, Player::White);

    assert_eq!(King::validate_move((5, 1), (5, 2), &board), true);
    assert_eq!(King::validate_move((5, 1), (6, 2), &board), true);
    assert_eq!(King::validate_move((5, 1), (6, 1), &board), true);
    assert_eq!(King::validate_move((5, 1), (5, 5), &board), false);
    assert_eq!(King::validate_move((5, 1), (8, 1), &board), false);
}

#[test]
fn knight_chess_move() {
    let mut board = Board::blank_board();

    place(&mut board, 1, 2, PieceType::Knight, Player::White);
    place(&mut board, 3, 3, PieceType::Knight, Player::Black);
    place(&mut board, 5, 2, PieceType::Knight, Player::White);

    assert_eq!(Knight::validate_move((2, 1), (3, 3), &board), true);
    assert_eq!(Knight::validate_move((3, 3), (5, 2), &board), true);
    assert_eq!(Knight::validate_move((5, 2), (6, 4), &board), true);
}

#[test]
fn empty_1() {
    let mut board = Board::blank_board();

    place(&mut board, 1, 1, PieceType::Pawn, Player::White);

    assert_eq!(Pawn::validate_move((1, 1), (1, 2), &board), true);
}

#[test]
fn empty_2() {
    let mut board = Board::blank_board();

    place(&mut board, 1, 7, PieceType::Pawn, Player::Black);

    assert_eq!(Pawn::validate_move((1, 7), (1, 5), &board), true);
}

#[test]
fn forward_2() {
    let mut board = Board::blank_board();

    place(&mut board, 1, 3, PieceType::Pawn, Player::White);

    assert_eq!(Pawn::validate_move((1, 3), (1, 5), &board), false);
}

#[test]
fn pawn_in_the_way_1() {
    let mut board = Board::blank_board();

    place(&mut board, 1, 1, PieceType::Pawn, Player::White);
    place(&mut board, 1, 2, PieceType::Knight, Player::White);

    assert_eq!(Pawn::validate_move((1, 1), (1, 2), &board), false);
}

#[test]
fn pawn_in_the_way_2() {
    let mut board = Board::blank_board();

    place(&mut board, 1, 2, PieceType::Pawn, Player::White);
    place(&mut board, 1, 3, PieceType::Knight, Player::White);

    assert_eq!(Pawn::validate_move((1, 2), (1, 4), &board), false);
}

#[test]
fn pawn_capture() {
    let mut board = Board::blank_board();

    place(&mut board, 1, 1, PieceType::Pawn, Player::White);
    place(&mut board, 2, 2, PieceType::Rook, Player::Black);

    assert_eq!(Pawn::validate_move((1, 1), (2, 2), &board), true);
}

#[test]
fn horizontal() {
    let mut board = Board::blank_board();

    place(&mut board, 1, 1, PieceType::Pawn, Player::White);

    assert_eq!(Pawn::validate_move((1, 1), (2, 1), &board), false);
}

#[test]
fn queen_chess_move() {
    let mut board = Board::blank_board();

    place(&mut board, 4, 1, PieceType::Queen, Player::White);

    assert_eq!(Queen::validate_move((4, 1), (4, 8), &board), true);
    assert_eq!(Queen::validate_move((4, 1), (6, 3), &board), true);
    assert_eq!(Queen::validate_move((4, 1), (1, 4), &board), true);
    assert_eq!(Queen::validate_move((4, 1), (2, 2), &board), false);
    assert_eq!(Queen::validate_move((4, 1), (8, 2), &board), false);
}

#[test]
fn empty_x() {
    let mut board = Board::blank_board();

    place(&mut board, 1, 2, PieceType::Rook, Player::White);

    assert_eq!(Rook::validate_move((1, 2), (5, 2), &board), true);
}

#[test]
fn empty_y() {
    let mut board = Board::blank_board();

    place(&mut board, 1, 1, PieceType::Rook, Player::White);

    assert_eq!(Rook::validate_move((1, 1), (1, 8), &board), true);
}

#[test]
fn rook_in_the_way_1() {
    let mut board = Board::blank_board();

    place(&mut board, 1, 1, PieceType::Rook, Player::White);
    place(&mut board, 1, 2, PieceType::Knight, Player::White);

    assert_eq!(Rook::validate_move((1, 1), (1, 3), &board), false);
}

#[test]
fn rook_in_the_way_2() {
    let mut board = Board::blank_board();

    place(&mut board, 1, 1, PieceType::Rook, Player::White);
    place(&mut board, 2, 1, PieceType::Knight, Player::White);

    assert_eq!(Rook::validate_move((1, 1), (3, 1), &board), false);
}

#[test]
fn rook_capture() {
    let mut board = Board::blank_board();

    place(&mut board, 1, 1, PieceType::Rook, Player::White);
    place(&mut board, 1, 8, PieceType::Rook, Player::Black);

    assert_eq!(Rook::validate_move((1, 1), (1, 8), &board), true);
}

#[test]
fn diag() {
    let mut board = Board::blank_board();

    place(&mut board, 1, 1, PieceType::Rook, Player::White);

    assert_eq!(Rook::validate_move((1, 1), (8, 8), &board), false);
}

#[test]
fn check() {}

#[test]
fn pawn_without_piece_is_invalid() {
    let board = Board::blank_board();
    assert_eq!(Pawn::validate_move((1, 2), (1, 3), &board), false);
}

#[test]
fn validate_and_execute_moves_the_piece() {
    let mut board = Board::blank_board();
    place(&mut board, 1, 1, PieceType::Rook, Player::White);
    let m = Move { from: BoardPosition::new(1, 1), to: BoardPosition::new(1, 5) };
    let (valid, after) = Piece::validate_and_execute_move(&m, &board);
    assert!(valid);
    assert_eq!(after.get_square(&BoardPosition::new(1, 1)), &None);
    assert_eq!(
        after.get_square(&BoardPosition::new(1, 5)),
        &Some(Piece(PieceType::Rook, Player::White))
    );

    let bad = Move { from: BoardPosition::new(1, 1), to: BoardPosition::new(2, 3) };
    let (valid, after) = Piece::validate_and_execute_move(&bad, &board);
    assert!(!valid);
    assert_eq!(after, board);

    let empty = Move { from: BoardPosition::new(4, 4), to: BoardPosition::new(4, 5) };
    let (valid, after) = Piece::validate_and_execute_move(&empty, &board);
    assert!(!valid);
    assert_eq!(after, board);
}

#[test]
fn is_check_finds_attackers() {
    let mut board = Board::blank_board();
    place(&mut board, 5, 1, PieceType::King, Player::White);
    place(&mut board, 5, 8, PieceType::Queen, Player::Black);
    assert!(Piece::is_check(&Player::White, &board));
    assert!(!Piece::is_check(&Player::Black, &board));
    place(&mut board, 5, 4, PieceType::Pawn, Player::White);
    assert!(!Piece::is_check(&Player::White, &board));
    place(&mut board, 6, 3, PieceType::Knight, Player::Black);
    assert!(Piece::is_check(&Player::White, &board));
}

#[test]
fn player_opposite() {
    assert_eq!(Player::White.opposite(), Player::Black);
    assert_eq!(Player::Black.opposite(), Player::White);
}
