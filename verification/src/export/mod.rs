pub mod apply;
pub mod convergence;
pub mod diff;
pub mod filemap;
pub mod markdown;
