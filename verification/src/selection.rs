//! The single-shot, bounds-checked numbered-choice protocol: candidates are
//! rendered as `"<index> - <label>"` lines, and one typed line picks one of
//! them by its 0-based index.

use vstd::prelude::*;
use vstd::string::StringExecFns;
use crate::numerals::dec_of;
use crate::numerals::dec_string;
use crate::parse::choice_of;
use crate::parse::parse_choice;

verus! {

/// A numeric choice that fell outside the candidate index range.
#[derive(Debug, Clone, Copy, PartialEq, Eq, Structural)]
pub struct ChoiceError {
    pub low: usize,
    pub high: usize,
}

/// The text of the bounds message for the range `low..=high`.
pub open spec fn choice_error_message(low: nat, high: nat) -> Seq<char> {
    "Not a valid choice. Must be between "@ + dec_of(low) + " and "@ + dec_of(high)
}

impl ChoiceError {
    pub fn new(low: usize, high: usize) -> (e: ChoiceError)
        ensures
            e.low == low,
            e.high == high,
    {
        ChoiceError { low, high }
    }

    /// The user-visible text of this error.
    pub fn message(&self) -> (m: String)
        ensures
            m@ == choice_error_message(self.low as nat, self.high as nat),
    {
        let mut m = "Not a valid choice. Must be between ".to_owned();
        m.append(dec_string(self.low).as_str());
        m.append(" and ");
        m.append(dec_string(self.high).as_str());
        proof {
            assert(m@ =~= choice_error_message(self.low as nat, self.high as nat));
        }
        m
    }
}

/// Why a selection failed: the typed line was not a number, or it was a
/// number outside the candidate range.
#[derive(Debug, Clone, Copy, PartialEq, Eq, Structural)]
pub enum SelectError {
    Parse,
    Bounds(ChoiceError),
}

/// Decides a selection: parses the typed line and checks it against the
/// candidate index range. Exactly one of three outcomes holds:
/// a malformed line fails with `Parse`; a number at or above the candidate
/// count fails with `Bounds(0, count - 1)`; a valid index returns that index
/// and a copy of the label at it. A number typed at an empty candidate list
/// is left out: the range `0 ..= count - 1` does not exist there.
pub fn select_item(choice: String, choices: &[String]) -> (r: Result<
    (usize, String),
    SelectError,
>)
    requires
        choices@.len() > 0 || choice_of(choice@) is None || choice_of(choice@)->0 > usize::MAX,
    ensures
        match r {
            Ok(p) => {
                &&& choice_of(choice@) == Some(p.0 as nat)
                &&& (p.0 as int) < choices@.len()
                &&& p.1@ == choices@[p.0 as int]@
            },
            Err(SelectError::Parse) => choice_of(choice@) is None || choice_of(choice@)->0
                > usize::MAX,
            Err(SelectError::Bounds(e)) => {
                &&& choice_of(choice@) matches Some(v) && choices@.len() <= v <= usize::MAX
                &&& e.low == 0
                &&& e.high == choices@.len() - 1
            },
        },
{
    let choice_num = match parse_choice(choice.as_str()) {
        Some(n) => n,
        None => {
            return Err(SelectError::Parse);
        },
    };
    proof {
        assert(choices@.len() > 0);
    }
    if choice_num >= choices.len() {
        Err(SelectError::Bounds(ChoiceError::new(0, choices.len() - 1)))
    } else {
        Ok((choice_num, choices[choice_num].clone()))
    }
}

/// One rendered candidate line of the selection prompt.
pub open spec fn prompt_line_of(i: nat, label: Seq<char>) -> Seq<char> {
    dec_of(i) + " - "@ + label
}

/// Renders the numbered candidate lines shown before a selection, one per
/// candidate, in input order.
pub fn prompt_lines(choices: &[String]) -> (r: Vec<String>)
    ensures
        r@.len() == choices@.len(),
        forall|i: int|
            0 <= i < choices@.len() ==> r@[i]@ == prompt_line_of(i as nat, choices@[i]@),
{
    let mut out: Vec<String> = Vec::new();
    let mut i: usize = 0;
    while i < choices.len()
        invariant
            0 <= i <= choices@.len(),
            out@.len() == i,
            forall|k: int| 0 <= k < i ==> out@[k]@ == prompt_line_of(k as nat, choices@[k]@),
        decreases choices@.len() - i,
    {
        let mut line = dec_string(i);
        line.append(" - ");
        line.append(choices[i].as_str());
        proof {
            assert(line@ =~= prompt_line_of(i as nat, choices@[i as int]@));
        }
        out.push(line);
        i += 1;
    }
    out
}

} // verus!
