//! The logic behind the desktop window: the sound device list, the work
//! handed to the background thread and the state of the window itself.
pub mod audio;
pub mod worker;
pub mod app;
pub mod detail;
