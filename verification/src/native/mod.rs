pub mod apt;
pub mod coresim;
pub mod encode;
pub mod guest;
pub mod hid;
pub mod screen;
pub mod video;
