pub mod components;
pub mod index;
pub mod info;
pub mod paths;
pub mod table;
pub mod text;
