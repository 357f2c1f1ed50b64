//! A todo list in a markdown file: reading and writing its lines, finding tasks and sections
//! in them, and everything that can be done with them, proved against a model of the file and
//! of the selection in it.
//!
//! The library does no input or output. It takes the texts of files, keys, and the outcomes
//! of commands, and says what the texts are afterwards, what is shown, and what is to be done
//! next.
pub mod app;
pub mod blocks;
pub mod bytes;
pub mod clock;
pub mod keys;
pub mod laws;
pub mod lines;
pub mod moves;
pub mod notes;
pub mod outline;
pub mod prompt;
pub mod rotate;
pub mod rows;
pub mod screen;
pub mod search;
pub mod sync;
pub mod task;
pub mod text;
pub mod toggle;
