pub mod css;
pub mod dom;
pub mod layout;
pub mod number;
pub mod render;
pub mod style;
pub mod text;
