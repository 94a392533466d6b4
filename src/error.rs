use vstd::prelude::*;

verus! {

/// Failures raised by the dispatcher itself.
#[derive(Debug, Clone, Copy, PartialEq, Eq, Structural)]
pub enum ExecuteError {
    /// The statement kind has no execution path.
    QueryNotSupported,
    /// A DROP names an object that is not a table.
    DropTypeNotSupported,
}

/// Every failure that executing a statement can report.
#[derive(Debug, Clone, Copy, PartialEq, Eq, Structural)]
pub enum Error {
    Execute(ExecuteError),
    /// An object name that does not reduce to a single table identifier.
    UnresolvedTableName,
    /// A reference to a column that the table does not declare.
    ColumnNotFound,
    /// The number of values does not fit the columns they are bound to.
    ArityMismatch,
    /// An operator applied to values of types it does not accept.
    TypeMismatch,
    /// Integer arithmetic that leaves the range of `i64`.
    Overflow,
    /// The table has no schema in storage.
    TableNotFound,
    /// The key addresses no row, or was never issued.
    KeyNotFound,
    /// The storage backend can issue no further keys.
    KeysExhausted,
}

} // verus!
