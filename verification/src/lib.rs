//! A persistent rope and the cursor, navigation and history layer of a text
//! editor built on it. Every index counts characters.

pub mod editor;
pub mod keys;
pub mod position;
pub mod rope;
pub mod words;
