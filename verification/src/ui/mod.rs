//! The application state of the GUI and its update rules. Rendering and the
//! background work the updates ask for are done by the program around the
//! library.
pub mod app;
pub mod message;
pub mod theme;
pub mod views;
