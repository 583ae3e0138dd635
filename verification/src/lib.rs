//! The core of a LAN file-sharing server: the table of shared files and
//! their codes, the pages of the download site, the `Range` header of
//! resumable downloads, and the answers built from them.
pub mod text;
pub mod number;
pub mod range;
pub mod size_format;
pub mod icon;
pub mod pages;
pub mod url;
pub mod file_manager;
pub mod site;
pub mod download;
pub mod commands;
pub mod tuning;
