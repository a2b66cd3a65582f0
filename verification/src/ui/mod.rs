//! The toolbar window: its look and layout (themes, hit testing, text
//! helpers) and what it does with clicks, the tray menu and the clipboard.
//! Drawing and the Win32 window are the application's.

pub mod layout;
pub mod popup;
pub mod theme;
pub mod toolbar;
