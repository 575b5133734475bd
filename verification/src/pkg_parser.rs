pub mod wire;
pub mod text;
pub mod mdl_parser;
pub mod codecs;
pub mod tex_parser;
pub mod video_parser;
pub mod parser;
pub mod paths;
