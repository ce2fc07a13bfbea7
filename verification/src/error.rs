//! The failures an engine reports.

use vstd::prelude::*;

verus! {

/// `std::io::Error`, carried through unopened.
#[verifier::external_type_specification]
#[verifier::external_body]
pub struct ExIoError(std::io::Error);

/// Every way an engine operation can fail. Callers tell failures apart by
/// variant, never by message text.
#[non_exhaustive]
#[derive(Debug)]
pub enum EngineError {
    /// An I/O failure while persisting data.
    IoError(std::io::Error),
    /// The named table does not exist.
    TableNotFound(String),
    /// Persisted data failed an integrity check.
    Corruption(String),
    /// A call violated a precondition.
    InvalidArgument(String),
    /// A failure of a wrapped database.
    UnderlyingDatabaseError(String),
    /// The key is absent from an existing table.
    KeyNotFound(String),
}

impl EngineError {
    /// The error is `TableNotFound` and names `table`.
    pub open spec fn is_table_not_found(self, table: Seq<char>) -> bool {
        self matches EngineError::TableNotFound(name) && name@ == table
    }

    /// The error is `KeyNotFound` and carries `text`.
    pub open spec fn is_key_not_found(self, text: Seq<char>) -> bool {
        self matches EngineError::KeyNotFound(shown) && shown@ == text
    }
}

impl From<std::io::Error> for EngineError {
    fn from(e: std::io::Error) -> (r: EngineError) {
        EngineError::IoError(e)
    }
}

impl vstd::std_specs::convert::FromSpecImpl<std::io::Error> for EngineError {
    open spec fn obeys_from_spec() -> bool {
        true
    }

    open spec fn from_spec(e: std::io::Error) -> EngineError {
        EngineError::IoError(e)
    }
}

} // verus!
