use ascn_rs::board::position::BoardPosition;
use ascn_rs::board::{Board, CastlingRights};
use ascn_rs::fen::Error;
use ascn_rs::pieces::{Piece, PieceType, Player};

#[test]
fn starting_position_from_fen() {
    let parsed =
        Board::from_fen("rnbqkbnr/pppppppp/8/8/8/8/PPPPPPPP/RNBQKBNR w KQkq - 0 1").unwrap();
    assert_eq!(parsed, Board::starting_board());
    assert_eq!(
        String::from_utf8(parsed.to_fen()).unwrap(),
        "rnbqkbnr/pppppppp/11111111/11111111/11111111/11111111/PPPPPPPP/RNBQKBNR w KQkq - 0 1"
    );
}

#[test]
fn fen_fields() {
    let b = Board::from_fen("8/8/8/8/8/8/8/4K2R b Kq e3 4 20").unwrap();
    assert_eq!(b.get_to_move(), &Player::Black);
    assert_eq!(
        b.castling_rights(),
        CastlingRights {
            white_king_side: true,
            white_queen_side: false,
            black_king_side: false,
            black_queen_side: true
        }
    );
    assert_eq!(b.en_passant(), Some(20));
    assert_eq!(
        b.get_square(&BoardPosition::new(8, 1)),
        &Some(Piece(PieceType::Rook, Player::White))
    );
    assert_eq!(b.get_square(&BoardPosition::new(7, 1)), &None);
}

#[test]
fn fen_errors() {
    assert_eq!(Board::from_fen("8/8/8/8/8/8/8/8 w - -").unwrap_err(), Error::NotEnoughFields);
    assert_eq!(Board::from_fen("8/8/8/8/8/8/8 w - - 0 1").unwrap_err(), Error::NotEnoughRanks);
    assert_eq!(Board::from_fen("8/8/8/8/8/8/8/7 w - - 0 1").unwrap_err(), Error::NotEnoughFiles);
    assert_eq!(Board::from_fen("8/8/8/8/8/8/8/ppppppppp w - - 0 1").unwrap_err(), Error::NotEnoughFiles);
    assert_eq!(Board::from_fen("8/8/8/8/8/8/8/7x w - - 0 1").unwrap_err(), Error::InvalidPiece);
}

#[test]
fn fen_lenient_fields() {
    // Castling and en-passant fields that name nothing give no rights and no target.
    let b = Board::from_fen("8/8/8/8/8/8/8/8 w x - 0 1").unwrap();
    assert_eq!(b, Board::blank_board());
    let b = Board::from_fen("8/8/8/8/8/8/8/8 w KX e9 0 1").unwrap();
    assert_eq!(b, Board::blank_board());
    let b = Board::from_fen("8/8/8/8/8/8/8/8 b Qk zz 0 1").unwrap();
    assert_eq!(b.get_to_move(), &Player::Black);
    assert_eq!(
        b.castling_rights(),
        CastlingRights {
            white_king_side: false,
            white_queen_side: true,
            black_king_side: true,
            black_queen_side: false
        }
    );
    assert_eq!(b.en_passant(), None);
}

#[test]
fn board_basics() {
    let mut b = Board::new([[None; 8]; 8]);
    assert_eq!(b, Board::blank_board());
    b.set_to_move(Player::Black);
    assert_eq!(b.get_to_move(), &Player::Black);
    b.set_square(&BoardPosition::new(3, 2), &Some(Piece(PieceType::Knight, Player::White)));
    assert_eq!(b.piece_on(10), Some(Piece(PieceType::Knight, Player::White)));
    let mut it = ascn_rs::board::iterator::BoardIterator::new(&b);
    assert_eq!(
        it.next(),
        Some((Piece(PieceType::Knight, Player::White), BoardPosition::new(3, 2)))
    );
    assert_eq!(it.next(), None);
}

#[test]
fn board_position_coordinates() {
    let p = BoardPosition::new(3, 7);
    assert_eq!(p.get_index(), (2, 6));
    assert_eq!(BoardPosition::from_index((2, 6)), p);
    assert_eq!(p.tuple(), (3, 7));
    assert_eq!(BoardPosition::from((3, 7)), p);
    assert_eq!((p.file(), p.rank()), (3, 7));
}

#[test]
fn fen_error_messages() {
    assert_eq!(Error::NotEnoughFields.to_string(), "Not enough fields in the fen string");
    assert_eq!(Error::InvalidPiece.to_string(), "Invalid piece character");
}
