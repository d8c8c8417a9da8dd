use vstd::prelude::*;
use vstd::string::{is_ascii_spec_bytes, StringSliceAdditionalSpecFns};

verus! {

/// The result of a game, carried in the low bits of the terminator byte.
#[derive(Clone, Copy, Debug, PartialEq, Eq, Structural)]
pub enum Outcome {
    WhiteWon,
    BlackWon,
    Draw,
    Unknown,
}

/// A numeric code or a text that names no outcome.
#[derive(Clone, Copy, Debug, PartialEq, Eq, Structural)]
pub struct InvalidOutcome;

impl Outcome {
    /// The wire code: `Unknown` 0, `WhiteWon` 1, `BlackWon` 2, `Draw` 3.
    pub open spec fn code(self) -> u8 {
        match self {
            Outcome::Unknown => 0,
            Outcome::WhiteWon => 1,
            Outcome::BlackWon => 2,
            Outcome::Draw => 3,
        }
    }

    /// The outcome with wire code `id`, for `id < 4`.
    pub open spec fn of_code(id: u8) -> Outcome {
        if id == 1 {
            Outcome::WhiteWon
        } else if id == 2 {
            Outcome::BlackWon
        } else if id == 3 {
            Outcome::Draw
        } else {
            Outcome::Unknown
        }
    }

    /// The text form, as bytes: `*`, `1-0`, `0-1`, `1/2-1/2`.
    pub open spec fn text(self) -> Seq<u8> {
        match self {
            Outcome::Unknown => seq![42u8],
            Outcome::WhiteWon => seq![49u8, 45u8, 48u8],
            Outcome::BlackWon => seq![48u8, 45u8, 49u8],
            Outcome::Draw => seq![49u8, 47u8, 50u8, 45u8, 49u8, 47u8, 50u8],
        }
    }

    pub fn get_id(&self) -> (r: u8)
        ensures
            r == self.code(),
    {
        match self {
            Outcome::WhiteWon => 1,
            Outcome::BlackWon => 2,
            Outcome::Draw => 3,
            Outcome::Unknown => 0,
        }
    }

    pub fn from_id(id: u8) -> (r: Result<Outcome, InvalidOutcome>)
        ensures
            id < 4 ==> r == Ok::<Outcome, InvalidOutcome>(Outcome::of_code(id)),
            id >= 4 ==> r == Err::<Outcome, InvalidOutcome>(InvalidOutcome),
    {
        match id {
            1 => Ok(Outcome::WhiteWon),
            2 => Ok(Outcome::BlackWon),
            3 => Ok(Outcome::Draw),
            0 => Ok(Outcome::Unknown),
            _ => Err(InvalidOutcome),
        }
    }

    pub fn to_string(&self) -> (r: &'static str)
        ensures
            r.spec_bytes() == self.text(),
    {
        broadcast use is_ascii_spec_bytes;

        match self {
            Outcome::WhiteWon => {
                proof {
                    reveal_strlit("1-0");
                    assert(vstd::string::is_ascii("1-0"));
                    assert("1-0".spec_bytes() =~= self.text());
                }
                "1-0"
            },
            Outcome::BlackWon => {
                proof {
                    reveal_strlit("0-1");
                    assert(vstd::string::is_ascii("0-1"));
                    assert("0-1".spec_bytes() =~= self.text());
                }
                "0-1"
            },
            Outcome::Draw => {
                proof {
                    reveal_strlit("1/2-1/2");
                    assert(vstd::string::is_ascii("1/2-1/2"));
                    assert("1/2-1/2".spec_bytes() =~= self.text());
                }
                "1/2-1/2"
            },
            Outcome::Unknown => {
                proof {
                    reveal_strlit("*");
                    assert(vstd::string::is_ascii("*"));
                    assert("*".spec_bytes() =~= self.text());
                }
                "*"
            },
        }
    }

    pub fn from_string(str: &str) -> (r: Result<Outcome, InvalidOutcome>)
        ensures
            forall|o: Outcome| r == Ok::<Outcome, InvalidOutcome>(o) <==> str.spec_bytes() == o.text(),
            r is Err <==> forall|o: Outcome| str.spec_bytes() != o.text(),
    {
        let b = str.as_bytes();
        let r = if b.len() == 1 && b[0] == 42 {
            Ok(Outcome::Unknown)
        } else if b.len() == 3 && b[0] == 49 && b[1] == 45 && b[2] == 48 {
            Ok(Outcome::WhiteWon)
        } else if b.len() == 3 && b[0] == 48 && b[1] == 45 && b[2] == 49 {
            Ok(Outcome::BlackWon)
        } else if b.len() == 7 && b[0] == 49 && b[1] == 47 && b[2] == 50 && b[3] == 45 && b[4]
            == 49 && b[5] == 47 && b[6] == 50 {
            Ok(Outcome::Draw)
        } else {
            Err(InvalidOutcome)
        };
        proof {
            assert forall|o: Outcome| #[trigger] o.text() == b@ implies r == Ok::<
                Outcome,
                InvalidOutcome,
            >(o) by {
                assert(o.text().len() == b@.len());
            }
            assert(r is Ok ==> exists|o: Outcome| o.text() =~= b@) by {
                if r is Ok {
                    assert(r->Ok_0.text() =~= b@);
                }
            }
        }
        r
    }
}

impl Default for Outcome {
    fn default() -> (r: Self)
        ensures
            r == Outcome::Unknown,
    {
        Outcome::Unknown
    }
}

/// Every outcome survives the trip through its wire code and through its text form.
pub proof fn lemma_outcome_round_trip(o: Outcome)
    ensures
        o.code() < 4,
        Outcome::of_code(o.code()) == o,
        forall|p: Outcome| p.text() == o.text() ==> p == o,
{
    assert forall|p: Outcome| p.text() == o.text() implies p == o by {
        if p != o {
            assert(p.text().len() != o.text().len() || p.text()[0] != o.text()[0] || p.text()[2]
                != o.text()[2]);
        }
    }
}

} // verus!
