//! What is known of a function from outside its body.

pub mod edit;
pub mod effects;
pub mod footprint;
pub mod interface;
pub mod laws;
pub mod make;
pub mod refs;
pub mod root;
pub mod signature;
