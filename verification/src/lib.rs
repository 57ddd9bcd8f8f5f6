//! `subtools` is a library to check and manipulate subtitles: it classifies the
//! subtitle tracks of a media container, rebuilds the display time of every
//! subtitle line and renders each track as a standalone subtitle document.

pub mod extract;
pub mod file_encoding;
pub mod matroska;
pub mod subtitle_file;
pub mod text;
pub mod time;
pub mod track;
