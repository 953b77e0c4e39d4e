pub mod bucket;
pub mod header_slices;
pub mod types;
pub mod stages;
pub mod downloader;
pub mod kv;
pub mod history;
pub mod state;
pub mod rpc;
pub mod tables;
