use vstd::prelude::*;
use crate::errors::ParseError;

verus! {

/// The traffic direction of a steering hook.
#[derive(Debug, Clone, Copy, PartialEq, Eq, Hash, Structural)]
pub enum Direction {
    Ingress,
    Egress,
}

/// The direction that a request token names, if any.
pub open spec fn direction_of_token(t: Seq<char>) -> Option<Direction> {
    if t == "ingress"@ {
        Some(Direction::Ingress)
    } else if t == "egress"@ {
        Some(Direction::Egress)
    } else {
        None
    }
}

impl Direction {
    /// Parses `ingress` or `egress`; any other token is rejected.
    pub fn try_from(v: String) -> (r: Result<Direction, ParseError>)
        ensures
            match direction_of_token(v@) {
                Some(d) => r == Ok::<Direction, ParseError>(d),
                None => r matches Err(ParseError::InvalidDirection { direction }) && direction@ == v@,
            },
    {
        let ingress = String::from_str("ingress");
        let egress = String::from_str("egress");
        if v == ingress {
            Ok(Direction::Ingress)
        } else if v == egress {
            Ok(Direction::Egress)
        } else {
            Err(ParseError::InvalidDirection { direction: v })
        }
    }

    /// The short form used in names and listings: `in` or `eg`.
    pub open spec fn label(self) -> Seq<char> {
        match self {
            Direction::Ingress => "in"@,
            Direction::Egress => "eg"@,
        }
    }

    /// Renders the direction as `in` or `eg`.
    pub fn fmt(&self) -> (r: String)
        ensures
            r@ == self.label(),
    {
        match self {
            Direction::Ingress => String::from_str("in"),
            Direction::Egress => String::from_str("eg"),
        }
    }
}

} // verus!
