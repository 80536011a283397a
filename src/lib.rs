pub mod grid;
pub mod morton;
