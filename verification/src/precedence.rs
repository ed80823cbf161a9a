use vstd::prelude::*;

verus! {

/// Binding strength of operators, from weakest to strongest.
#[derive(Debug, Clone, Copy, PartialEq, Eq, PartialOrd, Structural)]
pub enum Precedence {
    Lowest,
    Assignment,
    Or,
    And,
    Equality,
    Comparison,
    Pipe,
    Term,
    Factor,
    Unary,
    Call,
    Primary,
}

/// The rank of a precedence level: later levels bind tighter.
pub open spec fn precedence_rank(p: Precedence) -> u8 {
    match p {
        Precedence::Lowest => 0,
        Precedence::Assignment => 1,
        Precedence::Or => 2,
        Precedence::And => 3,
        Precedence::Equality => 4,
        Precedence::Comparison => 5,
        Precedence::Pipe => 6,
        Precedence::Term => 7,
        Precedence::Factor => 8,
        Precedence::Unary => 9,
        Precedence::Call => 10,
        Precedence::Primary => 11,
    }
}

impl Precedence {
    /// The rank of this level: later levels bind tighter.
    pub fn rank(self) -> (r: u8)
        ensures
            r == precedence_rank(self),
    {
        match self {
            Precedence::Lowest => 0,
            Precedence::Assignment => 1,
            Precedence::Or => 2,
            Precedence::And => 3,
            Precedence::Equality => 4,
            Precedence::Comparison => 5,
            Precedence::Pipe => 6,
            Precedence::Term => 7,
            Precedence::Factor => 8,
            Precedence::Unary => 9,
            Precedence::Call => 10,
            Precedence::Primary => 11,
        }
    }
}

} // verus!
