pub mod assets;
pub mod offers;
