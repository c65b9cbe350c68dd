//! Copy-on-write git worktrees ("lanes"): the argument grammar, the rules that
//! decide what a lane is and whether its work has landed, and the text the tool
//! prints, as verified functions over plain values.

pub mod text;
pub mod help;
pub mod flags;
pub mod args;
pub mod paths;
pub mod worktree;
pub mod global;
pub mod info;
pub mod cli;
pub mod shell;
pub mod registry;
