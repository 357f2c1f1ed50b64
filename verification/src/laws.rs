//! What holds of the application as a whole, over all its states and files.
pub mod blanks;
pub mod edits;
pub mod entries;
pub mod file;
pub mod keys;
pub mod markdown;
pub mod months;
pub mod moves;
pub mod notes;
pub mod parts;
pub mod places;
pub mod plain;
pub mod pressed;
pub mod prompt;
pub mod reading;
pub mod reorder;
pub mod retyped;
pub mod rolling;
pub mod rotate;
pub mod rows;
pub mod sections;
pub mod running;
pub mod said;
pub mod selection;
pub mod shown;
pub mod stamps;
pub mod survive;
pub mod sync;
pub mod tidy;
pub mod toggle;
pub mod typed;
pub mod words;
