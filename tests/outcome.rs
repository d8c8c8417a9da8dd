use ascn_rs::outcome::{InvalidOutcome, Outcome};

#[test]
fn outcome_draw_scenario() {
    assert_eq!(Outcome::from_string("1/2-1/2"), Ok(Outcome::Draw));
    assert_eq!(Outcome::Draw.to_string(), "1/2-1/2");
    assert_eq!(Outcome::from_id(3), Ok(Outcome::Draw));
    assert_eq!(Outcome::Draw.get_id(), 3);
}

#[test]
fn outcome_codes_and_texts() {
    let all = [
        (Outcome::Unknown, 0u8, "*"),
        (Outcome::WhiteWon, 1, "1-0"),
        (Outcome::BlackWon, 2, "0-1"),
        (Outcome::Draw, 3, "1/2-1/2"),
    ];
    for (o, id, text) in all {
        assert_eq!(o.get_id(), id);
        assert_eq!(Outcome::from_id(id), Ok(o));
        assert_eq!(o.to_string(), text);
        assert_eq!(Outcome::from_string(text), Ok(o));
    }
    assert_eq!(Outcome::default(), Outcome::Unknown);
}

#[test]
fn outcome_invalid_inputs() {
    assert_eq!(Outcome::from_id(4), Err(InvalidOutcome));
    assert_eq!(Outcome::from_id(63), Err(InvalidOutcome));
    assert_eq!(Outcome::from_string("1-1"), Err(InvalidOutcome));
    assert_eq!(Outcome::from_string(""), Err(InvalidOutcome));
    assert_eq!(Outcome::from_string("1/2"), Err(InvalidOutcome));
}
