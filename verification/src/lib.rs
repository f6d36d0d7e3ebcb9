pub mod action;
pub mod cell;
pub mod config;
pub mod dispatch;
pub mod keys;
pub mod layout;
pub mod palette;
pub mod pointer;
pub mod pty;
pub mod render;
pub mod screen;
pub mod session;
pub mod tabs;
pub mod terminal;
pub mod text;
pub mod workspace;
