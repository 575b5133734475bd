//! Parsers for Wallpaper Engine scene packages: the `.pkg` archive, the
//! `.tex` texture container, the `.mdl` puppet-warp model and embedded
//! video/GIF payloads.
pub mod pkg_parser;
