use vstd::prelude::*;

verus! {

/// The ways in which a repository operation can fail. Each variant carries a
/// short fixed label that names the entity or the step concerned.
#[derive(Debug)]
pub enum CoreError {
    /// A referenced deck or card is absent.
    NotFound(&'static str),
    /// Malformed input reached the store layer.
    Invalid(&'static str),
    /// A deck with the same name already exists.
    Conflict(&'static str),
    /// Input, output or serialisation failed underneath the repository.
    Storage(&'static str),
}

impl CoreError {
    /// A stable number for each kind of error, suitable as an exit status:
    /// NotFound is 2, Invalid is 3, Conflict is 4 and Storage is 5.
    pub fn code(&self) -> (c: u8)
        ensures
            c == match *self {
                CoreError::NotFound(_) => 2u8,
                CoreError::Invalid(_) => 3u8,
                CoreError::Conflict(_) => 4u8,
                CoreError::Storage(_) => 5u8,
            },
    {
        match self {
            CoreError::NotFound(_) => 2,
            CoreError::Invalid(_) => 3,
            CoreError::Conflict(_) => 4,
            CoreError::Storage(_) => 5,
        }
    }
}

} // verus!
