use vstd::prelude::*;

pub mod data;
pub mod error;
pub mod execute;
pub mod expr;
pub mod memory;
pub mod row;
pub mod store;
pub mod update;

pub use crate::data::{ColumnDef, DataType, ObjectName, Row, Schema, Value};
pub use crate::error::{Error, ExecuteError};
pub use crate::execute::{decide_update, execute, select_rows, ObjectType, Payload, Statement};
pub use crate::expr::{BinaryOperator, Expr};
pub use crate::memory::MemoryStore;
pub use crate::store::Store;
pub use crate::update::{Assignment, Update};

verus! {

} // verus!
