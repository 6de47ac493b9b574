//! What the commands decide and show.

pub mod doctor;
pub mod fixes;
pub mod history;
pub mod instants;
pub mod restore;
pub mod shares;
pub mod shown;
pub mod size;
pub mod status;
pub mod versions;
