//! Management of local virtual machines driven through the `vmrun` tool:
//! scanning directories for machines, keeping a registry of them by name,
//! interpreting command lines and deciding which `vmrun` invocation to make.

pub mod command;
pub mod json;
pub mod operation;
pub mod profile;
pub mod registry;
pub mod scan;
pub mod table;
pub mod text;
pub mod vm;
