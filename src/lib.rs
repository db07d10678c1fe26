//! Conditional-branch trapping ("nanomites"): the code-section patcher, the
//! encrypted branch table, flag-based branch resolution and the decisions of
//! the debug loop that drives a patched program.

pub mod binary_parser;
pub mod code_section;
pub mod codec;
pub mod crypto;
pub mod flags;
pub mod infestor;
pub mod jump_data;
pub mod jump_data_exporter;
pub mod jump_data_table;
pub mod runtime;

pub use jump_data::{JumpData, JumpType};
pub use jump_data_table::{EncryptedJumpData, JumpDataTable, RekkEncKey};
