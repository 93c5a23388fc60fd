//! The logic of the Vesper split keyboard.
pub mod bootloader;
pub mod button_array;
pub mod bytes;
pub mod command;
pub mod hid;
pub mod keyboard;
pub mod led;
pub mod link;
pub mod time;
