//! Query consistency levels, decoded from a 16-bit wire code.

use crate::cursor::Cursor;
use crate::error::DecodeError;
use crate::types::{parse_short, read_short};
use vstd::prelude::*;

verus! {

/// A consistency level a query was run at.
#[derive(Clone, Copy, Debug, PartialEq, Eq, Structural)]
pub enum Consistency {
    Any,
    One,
    Two,
    Three,
    Quorum,
    All,
    LocalQuorum,
    EachQuorum,
    Serial,
    LocalSerial,
    LocalOne,
}

/// The level a 16-bit wire code stands for, if any.
pub open spec fn consistency_of(code: int) -> Option<Consistency> {
    if code == 0 {
        Some(Consistency::Any)
    } else if code == 1 {
        Some(Consistency::One)
    } else if code == 2 {
        Some(Consistency::Two)
    } else if code == 3 {
        Some(Consistency::Three)
    } else if code == 4 {
        Some(Consistency::Quorum)
    } else if code == 5 {
        Some(Consistency::All)
    } else if code == 6 {
        Some(Consistency::LocalQuorum)
    } else if code == 7 {
        Some(Consistency::EachQuorum)
    } else if code == 8 {
        Some(Consistency::Serial)
    } else if code == 9 {
        Some(Consistency::LocalSerial)
    } else if code == 10 {
        Some(Consistency::LocalOne)
    } else {
        None
    }
}

/// A consistency level at the head of `s`: a 16-bit code, an unknown code
/// being a failure rather than a default.
pub open spec fn parse_consistency(s: Seq<u8>) -> Result<(Consistency, int), DecodeError> {
    match parse_short(s) {
        Ok((code, used)) => match consistency_of(code) {
            Some(cl) => Ok((cl, used)),
            None => Err(DecodeError::UnknownDiscriminant),
        },
        Err(e) => Err(e),
    }
}

impl Consistency {
    /// Reads a consistency level and advances past its code.
    pub fn from_cursor(c: &mut Cursor) -> (r: Result<Consistency, DecodeError>)
        requires
            old(c).wf(),
        ensures
            final(c).wf(),
            match parse_consistency(old(c).remaining()) {
                Ok((cl, used)) => r is Ok && r->Ok_0 == cl && final(c).remaining() == old(
                    c,
                ).remaining().skip(used),
                Err(e) => r is Err && r->Err_0 == e,
            },
    {
        let code = match read_short(c) {
            Ok(v) => v,
            Err(e) => { return Err(e) },
        };
        match code {
            0 => Ok(Consistency::Any),
            1 => Ok(Consistency::One),
            2 => Ok(Consistency::Two),
            3 => Ok(Consistency::Three),
            4 => Ok(Consistency::Quorum),
            5 => Ok(Consistency::All),
            6 => Ok(Consistency::LocalQuorum),
            7 => Ok(Consistency::EachQuorum),
            8 => Ok(Consistency::Serial),
            9 => Ok(Consistency::LocalSerial),
            10 => Ok(Consistency::LocalOne),
            _ => Err(DecodeError::UnknownDiscriminant),
        }
    }
}

} // verus!
