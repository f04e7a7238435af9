//! The decisions behind a scrolling wall of photos, videos and music.

pub mod action_laws;
pub mod budget;
pub mod components;
pub mod dates;
pub mod decode;
pub mod edit;
pub mod frame;
pub mod frame_laws;
pub mod gif_laws;
pub mod gifs;
pub mod icons;
pub mod images;
pub mod input;
pub mod language_laws;
pub mod laws;
pub mod library;
pub mod manifest;
pub mod media;
pub mod media_laws;
pub mod order;
pub mod paths;
pub mod pointer;
pub mod pool;
pub mod pool_laws;
pub mod show_laws;
pub mod start_laws;
pub mod state;
pub mod status;
pub mod stream_laws;
pub mod system;
pub mod text;
pub mod text_laws;
pub mod tiles;
pub mod video;
pub mod view_laws;
pub mod wall;
pub mod whole_laws;
pub mod widget_laws;
pub mod widgets;
