pub mod patch;
pub mod sequencing;
pub mod synthesis;
