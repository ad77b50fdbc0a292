//! Messages for the low-priority channel: background tasks scheduled by an
//! application, tagged with the application's package.

use vstd::prelude::*;
use crate::metadata::Metadata;

verus! {

/// An application's package: its path and version.
#[derive(Debug, Clone)]
pub struct PackageKey {
    pub path: String,
    pub version: String,
}

/// A background task: the application that scheduled it, the request that
/// did, and the task's serialized arguments.
#[derive(Debug, Clone)]
pub struct BackgroundEntry {
    pub app: PackageKey,
    pub request_id: String,
    pub wire_bytes: Vec<u8>,
}

/// The background entry for a task that an application schedules: tagged
/// with the package named by the application's metadata.
pub fn background_entry(md: &Metadata, request_id: String, wire_bytes: Vec<u8>) -> (res: BackgroundEntry)
    ensures
        res.app.path@ == md.path@,
        res.app.version@ == md.version@,
        res.request_id@ == request_id@,
        res.wire_bytes@ == wire_bytes@,
{
    BackgroundEntry { app: PackageKey { path: md.path.clone(), version: md.version.clone() }, request_id, wire_bytes }
}

} // verus!
