//! Core logic of a comic-book reader: which files of an archive are pages,
//! in which order they are shown, how an archive is recognised, and the
//! bookkeeping around decoded pages.

pub mod error;
pub mod types;
pub mod encoding;
pub mod order;
pub mod sort;
pub mod page_order;
pub mod reader;
pub mod detect;
pub mod zip_archive;
pub mod tar_archive;
pub mod sevenz_archive;
pub mod rar_archive;
pub mod folder_reader;
pub mod dispatch;
pub mod partial_reader;
pub mod loader;
pub mod cache;
pub mod session;
pub mod pixels;
pub mod rotate;
pub mod compositor;
pub mod thumbnail;
