//! Verified core of the blueboat application runtime: caches, key codecs,
//! request validation, font parsing and other logic of the runtime's host APIs.

pub mod text;
pub mod font;
pub mod cache;
pub mod keycodec;
pub mod kvutil;
pub mod mds_config;
pub mod kv;
pub mod codec;
pub mod crypto;
pub mod mds;
pub mod mysql;
pub mod fontmatch;
pub mod fontrule;
pub mod metadata;
pub mod pubsub;
pub mod logsvc;
pub mod layout;
pub mod ipc;
pub mod dom;
pub mod markdown;
pub mod aws;
pub mod shards;
pub mod lpch;
pub mod timestamp;
