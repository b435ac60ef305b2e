//! Verified core of a three-pane file viewer.

pub mod terminal_state;
pub mod lru_cache;
pub mod text;
pub mod file_ops;
pub mod fmt;
pub mod paths;
pub mod entry;
pub mod entry_order;
pub mod state;
pub mod keys;
pub mod terminal_view;
pub mod panes;
pub mod tabs;
pub mod sidebar;
pub mod config;
pub mod file_list;
pub mod preview;
pub mod status;
pub mod breadcrumb;
pub mod rename;
