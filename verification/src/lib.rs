//! Storage services of a self-hosted file cloud: content-defined chunk
//! deduplication and its maintenance, blob layout, storage and WebDAV paths,
//! chunked uploads, WebDAV locks, share listings and permission checks,
//! and the policies of thumbnails, face indexing, tokens and the background
//! services.

pub mod authz;
pub mod blob_layout;
pub mod chunk_ranges;
pub mod chunked_upload;
pub mod content_index;
pub mod decimal;
pub mod dedup_index;
pub mod faces;
pub mod fs_path;
pub mod hashing;
pub mod maintenance;
pub mod ordering;
pub mod path_resolver;
pub mod path_service;
pub mod ingest;
pub mod retry;
pub mod schedules;
pub mod seq_facts;
pub mod share_listing;
pub mod storage_path;
pub mod text;
pub mod thumbnails;
pub mod tokens;
pub mod webdav_lock;
