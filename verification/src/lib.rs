//! The decisions and text handling of the desktop widget host: the widget
//! registry, manifest synchronisation, pack installation and URL handling.
//! Everything that touches windows, files or the network lives in the
//! application around this library.

pub mod text;
pub mod installer;
pub mod manager;
pub mod manifest;
pub mod widgets;
pub mod protocol;
pub mod autostart;
pub mod shell;
pub mod archive;
