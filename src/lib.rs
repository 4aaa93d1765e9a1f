//! Fetch-join-dedup pipeline for saving the media of liked posts: URL
//! composition, the wire models, the author cache, the join of posts with
//! authors and media, filename synthesis and the selection of new downloads.

pub mod download;
pub mod downloader;
pub mod filename;
pub mod model;
pub mod url;
