//! The native host of packaged web apps: the rules by which a bundled app is
//! opened, served, updated and bridged to the system it runs on.
//!
//! Everything here computes on plain values. Windows, web views, files and
//! sockets belong to the program that calls this library.

pub mod archive;
pub mod assets;
pub mod backend;
pub mod bridge;
pub mod bundle;
pub mod cli;
pub mod codec;
pub mod config;
pub mod dialog;
pub mod extension;
pub mod files;
pub mod folder;
pub mod hash;
pub mod host;
pub mod html;
pub mod http;
pub mod icon;
pub mod installer;
pub mod ipc;
pub mod json;
pub mod mime;
pub mod reply;
pub mod sandbox;
pub mod splash;
pub mod text;
pub mod tray;
pub mod update;
pub mod urls;
pub mod utf16;
pub mod version;
pub mod winpath;
