use vstd::prelude::*;
use crate::error::Error;
use crate::types::AccountId;

verus! {

/// Who submitted an instruction, as vouched for by the identity provider.
#[derive(Clone, Debug, PartialEq, Eq)]
pub enum Origin {
    /// An ordinary account that signed the instruction.
    Signed(AccountId),
    /// The privileged, administrative origin.
    Root,
    /// An instruction that nobody signed.
    Unsigned,
}

/// Accepts only instructions signed by an ordinary account.
pub fn ensure_signed(origin: &Origin) -> (r: Result<(), Error>)
    ensures
        r == (if origin is Signed { Ok(()) } else { Err(Error::BadOrigin) }),
{
    match origin {
        Origin::Signed(_) => Ok(()),
        _ => Err(Error::BadOrigin),
    }
}

/// Accepts only instructions of the privileged origin.
pub fn ensure_root(origin: &Origin) -> (r: Result<(), Error>)
    ensures
        r == (if origin is Root { Ok(()) } else { Err(Error::BadOrigin) }),
{
    match origin {
        Origin::Root => Ok(()),
        _ => Err(Error::BadOrigin),
    }
}

} // verus!
