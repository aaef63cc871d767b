pub mod canonical;
pub mod constraints;
pub mod source;
