//! Kiln keeps modpacks: named lists of mods for a game that takes mods.
//!
//! A mod of a modpack is either a mod of the registry, known by its id and
//! pinned to a version, or a mod from anywhere else, known by a name and a
//! URL. This library holds the rules: which mods a modpack may take and how
//! one is removed ([`modpack_config`]), what has to be asked of the registry
//! for each mod and what comes of the answers ([`resolve`]), and how a
//! modpack becomes one portable file and a portable file a modpack again
//! ([`wire`], [`archive`]). It reads no file and opens no connection: the
//! program around it does, and hands what it read to the functions here.

pub mod archive;
pub mod args;
pub mod error;
pub mod layout;
pub mod modpack_config;
pub mod modpack_file;
pub mod resolve;
pub mod text;
pub mod wire;
