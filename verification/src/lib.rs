pub mod bands;
pub mod font;
pub mod layout;
pub mod packing;
pub mod sort;
pub mod texture;
pub mod vertex;
