use vstd::prelude::*;

verus! {

/// A malformed value in a request.
#[derive(Debug, Clone)]
pub enum ParseError {
    InvalidDirection { direction: String },
    InvalidProceedOn { proceedon: String },
    InvalidProgramType { program: u32 },
}

/// Every way a command can fail.
#[derive(Debug, Clone)]
pub enum BpfdError {
    /// A request field could not be parsed.
    InvalidArgument(ParseError),
    /// The bytecode could not be fetched.
    BytecodeFetch(String),
    /// The image names another program than the one asked for.
    BytecodeMetaDataMismatch { image_prog_name: String, provided_prog_name: String },
    /// The kernel refused the bytecode; carries its diagnostic.
    VerifierOrLoad(String),
    /// The kernel refused the attach step.
    Attach(String),
    /// No program has this identifier.
    NotFound(u128),
    /// The named map owner owns no maps.
    NotMapOwner(u128),
    /// The program owns maps that other programs still use.
    InUse(u128),
    /// An identifier is already taken.
    AlreadyExists(u128),
    /// The hook's dispatcher has no free slot for this program.
    TooManyPrograms(u128),
    /// Reading or writing the persisted state failed.
    PersistenceIo(String),
    /// An internal invariant does not hold.
    Error(String),
}

} // verus!
