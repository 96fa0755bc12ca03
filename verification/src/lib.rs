//! Portus: the verified core of a menu-bar port and process monitor.
pub mod docker;
pub mod ids;
pub mod logs;
pub mod ports;
pub mod process;
pub mod projects;
pub mod state;
pub mod text;
pub mod ui;
