//! Core of a declarative modlist installer: resolution of hash paths into
//! nested archives, planning of deduplicated and bounded archive extraction,
//! streaming size/hash validation, delta patching, and directive dispatch.
//!
//! File, process and network I/O live outside this crate; the logic here is
//! pure and verified, and talks to the outside world through plain values.

pub mod dispatch;
pub mod download_plan;
pub mod extract_plan;
pub mod hash_path;
pub mod hashing;
pub mod io_hook;
pub mod modlist;
pub mod patcher;
pub mod paths;
pub mod preheat;
pub mod progress;
pub mod queue;
pub mod remap;
pub mod resolver;
pub mod temps;
pub mod texconv;
pub mod text;
pub mod texture;
pub mod ttw_manifest;
pub mod validate;
