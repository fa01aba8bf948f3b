pub mod text;
pub mod num;
pub mod device;
pub mod paths;
pub mod sysfs;
pub mod error;
pub mod properties;
pub mod control;
pub mod udev;
pub mod sort;
pub mod scan;
pub mod daemon;
pub mod helper;
pub mod gui;
pub mod desktop;
