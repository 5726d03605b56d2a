use crate::chart::StateId;
use vstd::prelude::*;
use vstd::string::StringExecFns;

verus! {

/// Result of the chart's and the builder's operations.
pub type StateMachineResult<T> = Result<T, StateMachineError>;

/// What can go wrong while a chart is built or driven.
#[derive(Clone, Copy, Debug, PartialEq, Eq, Structural)]
pub enum StateMachineError {
    /// The handle names a state that the chart does not have: the handle belongs
    /// to another chart. The state is the first such in the handle.
    UnknownState(StateId),
    /// The builder's content breaks one of the rules of a chart. Only building
    /// reports this.
    MalformedChart,
    /// Nothing in the configuration reacts to the trigger and no eventless
    /// transition is enabled: the trigger is ignored, the configuration stands.
    NoApplicableTransition,
    /// Eventless transitions were still enabled when the step limit was reached.
    Unsettled,
}

/// The message for each error; the one for an unknown state ends with the
/// number of the state.
pub open spec fn wording(e: StateMachineError) -> Seq<char> {
    match e {
        StateMachineError::UnknownState(id) => "unknown state "@ + digits(id.0 as nat),
        StateMachineError::MalformedChart => "malformed chart"@,
        StateMachineError::NoApplicableTransition => "no applicable transition"@,
        StateMachineError::Unsettled => "eventless transitions did not settle"@,
    }
}

impl StateMachineError {
    /// A message for the error.
    pub fn message(&self) -> (m: String)
        ensures
            m@ == wording(*self),
    {
        match self {
            StateMachineError::UnknownState(id) => {
                let head = "unknown state ".to_owned();
                let number = decimal(id.0);
                let m = head.concat(number.as_str());
                m
            },
            StateMachineError::MalformedChart => "malformed chart".to_owned(),
            StateMachineError::NoApplicableTransition => "no applicable transition".to_owned(),
            StateMachineError::Unsettled => "eventless transitions did not settle".to_owned(),
        }
    }

    /// A trigger that met this error changed nothing and may simply be dropped.
    pub fn is_ignorable(&self) -> (b: bool)
        ensures
            b == (*self is NoApplicableTransition),
    {
        match self {
            StateMachineError::NoApplicableTransition => true,
            _ => false,
        }
    }
}

/// The digits of a number, most significant first.
pub open spec fn digits(n: nat) -> Seq<char>
    decreases n,
{
    if n < 10 {
        seq![digit(n)]
    } else {
        digits(n / 10).push(digit(n % 10))
    }
}

/// The character of a digit.
pub open spec fn digit(d: nat) -> char {
    if d == 0 {
        '0'
    } else if d == 1 {
        '1'
    } else if d == 2 {
        '2'
    } else if d == 3 {
        '3'
    } else if d == 4 {
        '4'
    } else if d == 5 {
        '5'
    } else if d == 6 {
        '6'
    } else if d == 7 {
        '7'
    } else if d == 8 {
        '8'
    } else {
        '9'
    }
}

/// Writes a number in decimal.
pub fn decimal(n: usize) -> (s: String)
    ensures
        s@ == digits(n as nat),
    decreases n,
{
    let text = if n < 10 {
        unit(n)
    } else {
        let head = decimal(n / 10);
        head.concat(unit(n % 10).as_str())
    };
    text
}

/// Writes one digit.
fn unit(d: usize) -> (s: String)
    requires
        d < 10,
    ensures
        s@ == seq![digit(d as nat)],
{
    let text = if d == 0 {
        "0"
    } else if d == 1 {
        "1"
    } else if d == 2 {
        "2"
    } else if d == 3 {
        "3"
    } else if d == 4 {
        "4"
    } else if d == 5 {
        "5"
    } else if d == 6 {
        "6"
    } else if d == 7 {
        "7"
    } else if d == 8 {
        "8"
    } else {
        "9"
    };
    proof {
        reveal_strlit("0");
        reveal_strlit("1");
        reveal_strlit("2");
        reveal_strlit("3");
        reveal_strlit("4");
        reveal_strlit("5");
        reveal_strlit("6");
        reveal_strlit("7");
        reveal_strlit("8");
        reveal_strlit("9");
        assert(text@ =~= seq![digit(d as nat)]);
    }
    text.to_owned()
}

} // verus!
