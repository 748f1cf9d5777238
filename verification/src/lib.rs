//! A hierarchical menu engine for single-input user interfaces.
//!
//! The library keeps a tree of entries (actions and nested submenus), a
//! cursor per submenu, and a nesting depth.  Two operations drive it: `skip`
//! advances the highlighted entry at the active level (wrapping around, with
//! a virtual Back entry joining the cycle below root level), and `ok`
//! confirms it (running an action, descending into a submenu, or ascending
//! via Back).  After every operation the host is told the highlighted
//! entry's display name.

pub mod host;
pub mod item;
pub mod laws;
pub mod menu;
pub mod model;

pub use host::EventLog;
pub use host::MenuHost;
pub use item::Action;
pub use item::Item;
pub use item::SubMenu;
pub use menu::Menu;
