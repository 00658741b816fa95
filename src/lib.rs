//! Front-end core of a compiler: the syntax tree, a generic traversal engine over it,
//! the path and name model that resolution works with, and the instruction form that
//! lowering produces.

pub mod path;
pub mod name;
pub mod ast;
pub mod visitor;
pub mod trace;
pub mod ir;
