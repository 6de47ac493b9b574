//! What holds of the library as a whole: how results relate to inputs and to each
//! other, for every input.

pub mod archive;
pub mod calls;
pub mod documents;
pub mod files;
pub mod health;
pub mod listing;
pub mod loading;
pub mod overview;
pub mod repairs;
pub mod requests;
pub mod restoring;
pub mod sharing;
pub mod sizes;
pub mod texts;
