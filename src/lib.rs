//! Tracks local git repositories and reports on their state: which files of
//! each have changed, and how far each branch stands from its remotes.

pub mod cli;
pub mod divergence;
pub mod inspect;
pub mod scan;
pub mod schedule;
pub mod shell;
pub mod status;
pub mod text;
pub mod tracking;
pub mod validate;
