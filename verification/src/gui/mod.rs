//! The logic of the graphical front end: window sections, the layout grid and the small
//! types its views exchange.
pub mod layout;
pub mod window;
pub mod views;
pub mod tabs;
