//! What the terminal shows: progress bars, colours and warnings.
pub mod progress_bar;
pub mod colors;
pub mod warnings;
