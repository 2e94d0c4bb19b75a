pub mod number;
pub mod ratio;
pub mod terms;
