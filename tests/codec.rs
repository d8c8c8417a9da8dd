use ascn_rs::board::Board;
use ascn_rs::codec::{ReadError, WriteError};
use ascn_rs::engine::ChessMove;
use ascn_rs::outcome::Outcome;
use ascn_rs::pieces::PieceType;
use ascn_rs::reader::Reader;
use ascn_rs::writer::Writer;

fn fen_of(board: &Board) -> String {
    String::from_utf8(board.to_fen()).unwrap()
}

fn read_all(reader: &mut Reader) -> Vec<Result<(ChessMove, Board), ReadError>> {
    let mut out = Vec::new();
    while let Some(step) = reader.next() {
        out.push(step);
    }
    out
}

#[test]
fn unambiguous_pawn_push() {
    let start = Board::starting_board();
    let e2e4 = ChessMove::Normal { from: 12, to: 28, promotion: None };
    let mut writer = Writer::new();
    assert_eq!(writer.add_move(&e2e4, &start), Ok(()));
    let data = writer.get_data(Some(Outcome::Unknown));
    // Straight (3) in the top bits, e4 (28) below; then the terminator; no overflow.
    assert_eq!(data, vec![0b1100_0000 | 28, 0]);

    let mut reader = Reader::new(&data);
    let steps = read_all(&mut reader);
    assert_eq!(steps.len(), 1);
    let (m, position) = steps[0].clone().unwrap();
    assert_eq!(m, e2e4);
    assert_eq!(
        fen_of(&position),
        "rnbqkbnr/pppppppp/11111111/11111111/1111P111/11111111/PPPP1PPP/RNBQKBNR b KQkq - 0 1"
    );
    assert_eq!(reader.get_outcome(), &Some(Outcome::Unknown));
}

#[test]
fn knight_ambiguity() {
    let start = Board::from_fen("4k3/8/8/8/8/5N2/8/1N2K3 w - - 0 1").unwrap();
    let nb1d2 = ChessMove::Normal { from: 1, to: 11, promotion: None };
    let mut writer = Writer::new();
    assert_eq!(writer.add_move(&nb1d2, &start), Ok(()));
    let data = writer.get_data(Some(Outcome::WhiteWon));
    // Knight (1) to d2 (11); terminator with code 1; the 3-bit selector for slot 3 (b1).
    assert_eq!(data, vec![0b0100_0000 | 11, 1, 0b011]);

    let mut reader = Reader::with_position(&data, start);
    let steps = read_all(&mut reader);
    assert_eq!(steps.len(), 1);
    let (m, position) = steps[0].clone().unwrap();
    assert_eq!(m, nb1d2);
    assert_eq!(fen_of(&position), "1111k111/11111111/11111111/11111111/11111111/11111N11/111N1111/1111K111 b - - 0 1");
    assert_eq!(reader.get_outcome(), &Some(Outcome::WhiteWon));
}

#[test]
fn promotion_to_rook() {
    let start = Board::from_fen("4k3/P1111111/8/8/8/8/8/4K3 w - - 0 1").unwrap();
    let a7a8r = ChessMove::Normal { from: 48, to: 56, promotion: Some(PieceType::Rook) };
    let mut writer = Writer::new();
    assert_eq!(writer.add_move(&a7a8r, &start), Ok(()));
    let data = writer.get_data(None);
    // Straight to a8; terminator (unknown); promotion index 2 in two bits.
    assert_eq!(data, vec![0b1100_0000 | 56, 0, 0b10]);

    let mut reader = Reader::with_position(&data, start);
    let steps = read_all(&mut reader);
    assert_eq!(steps.len(), 1);
    let (m, position) = steps[0].clone().unwrap();
    assert_eq!(m, a7a8r);
    assert_eq!(fen_of(&position), "R111k111/11111111/11111111/11111111/11111111/11111111/11111111/1111K111 b - - 0 1");
}

#[test]
fn short_game_round_trip() {
    // e4 e5 Nf3 Nc6 Bb5 a6 Bxc6 dxc6 O-O
    let moves = [
        ChessMove::Normal { from: 12, to: 28, promotion: None },
        ChessMove::Normal { from: 52, to: 36, promotion: None },
        ChessMove::Normal { from: 6, to: 21, promotion: None },
        ChessMove::Normal { from: 57, to: 42, promotion: None },
        ChessMove::Normal { from: 5, to: 33, promotion: None },
        ChessMove::Normal { from: 48, to: 40, promotion: None },
        ChessMove::Normal { from: 33, to: 42, promotion: None },
        ChessMove::Normal { from: 51, to: 42, promotion: None },
        ChessMove::Castle { king: 4, rook: 7 },
    ];
    let mut writer = Writer::new();
    let mut reader_positions = Vec::new();
    let mut position = Board::starting_board();
    for m in moves.iter() {
        assert_eq!(writer.add_move(m, &position), Ok(()));
        position = ascn_rs::engine::play(&position, m).unwrap();
        reader_positions.push(position);
    }
    let data = writer.clone().get_data(Some(Outcome::Draw));
    assert_eq!(writer.get_data(Some(Outcome::Draw)), data);

    let mut reader = Reader::new(&data);
    let steps = read_all(&mut reader);
    assert_eq!(steps.len(), moves.len());
    for (i, step) in steps.into_iter().enumerate() {
        let (m, p) = step.unwrap();
        assert_eq!(m, moves[i]);
        assert_eq!(p, reader_positions[i]);
    }
    assert_eq!(reader.get_outcome(), &Some(Outcome::Draw));
    assert_eq!(
        fen_of(&position),
        "r1bqkbnr/1pp11ppp/p1p11111/1111p111/1111P111/11111N11/PPPP1PPP/RNBQ1RK1 b kq - 0 1"
    );
}

#[test]
fn en_passant_round_trip() {
    let start =
        Board::from_fen("rnbqkbnr/p1ppppp1/7p/Pp6/8/8/1PPPPPPP/RNBQKBNR w KQkq b6 0 3").unwrap();
    let ep = ChessMove::EnPassant { from: 32, to: 41 };
    let mut writer = Writer::new();
    assert_eq!(writer.add_move(&ep, &start), Ok(()));
    let data = writer.get_data(None);
    assert_eq!(data, vec![0b1000_0000 | 41, 0]);
    let mut reader = Reader::with_position(&data, start);
    let (m, _) = reader.next().unwrap().unwrap();
    assert_eq!(m, ep);
}

#[test]
fn writer_refusals() {
    let start = Board::starting_board();
    let mut writer = Writer::new();
    // No piece can go from e2 to e5.
    assert_eq!(
        writer.add_move(&ChessMove::Normal { from: 12, to: 36, promotion: None }, &start),
        Err(WriteError::OriginNotFound)
    );
    // A pawn push given with a promotion.
    assert_eq!(
        writer.add_move(
            &ChessMove::Normal { from: 12, to: 28, promotion: Some(PieceType::Queen) },
            &start
        ),
        Err(WriteError::MoveMismatch)
    );
    assert_eq!(
        writer.add_move(&ChessMove::Normal { from: 64, to: 28, promotion: None }, &start),
        Err(WriteError::OffBoard)
    );
    // Nothing was written.
    assert_eq!(writer.get_data(None), vec![0]);
}

#[test]
fn reader_failures() {
    // No terminator.
    let mut reader = Reader::new(&[0b1100_0000 | 28]);
    assert!(matches!(reader.next(), Some(Ok(_))));
    assert_eq!(reader.next(), Some(Err(ReadError::StreamUnderflow)));
    assert_eq!(reader.next(), None);

    // An outcome code above 3.
    let mut reader = Reader::new(&[7]);
    assert_eq!(reader.next(), Some(Err(ReadError::InvalidOutcomeCode)));
    assert_eq!(reader.get_outcome(), &None);

    // A knight move to d2 with two candidates but no overflow bits.
    let start = Board::from_fen("4k3/8/8/8/8/5N2/8/1N2K3 w - - 0 1").unwrap();
    let mut reader = Reader::with_position(&[0b0100_0000 | 11, 0], start);
    assert_eq!(reader.next(), Some(Err(ReadError::StreamUnderflow)));

    // A selector naming an empty slot.
    let mut reader = Reader::with_position(&[0b0100_0000 | 11, 0, 0b111], start);
    assert_eq!(reader.next(), Some(Err(ReadError::AmbiguityResolutionFailure)));

    // No piece reaches e5 from the start: with no candidate a selector is read, and is
    // missing here.
    let mut reader = Reader::new(&[0b1100_0000 | 36, 0]);
    assert_eq!(reader.next(), Some(Err(ReadError::StreamUnderflow)));
    assert_eq!(reader.next(), None);

    // With a selector present, it names an empty slot.
    let mut reader = Reader::new(&[0b1100_0000 | 36, 0, 0]);
    assert_eq!(reader.next(), Some(Err(ReadError::AmbiguityResolutionFailure)));
}

#[test]
fn encoding_is_deterministic() {
    let start = Board::starting_board();
    let nf3 = ChessMove::Normal { from: 6, to: 21, promotion: None };
    let mut first = Writer::new();
    let mut second = Writer::new();
    assert_eq!(first.add_move(&nf3, &start), Ok(()));
    assert_eq!(second.add_move(&nf3, &start), Ok(()));
    assert_eq!(first.get_data(Some(Outcome::BlackWon)), second.get_data(Some(Outcome::BlackWon)));
}
