//! The AWS and S3 APIs' own logic: which region a request names, which
//! credentials sign it, the URL of a signed request, and the listing shapes
//! the S3 API answers with.

use vstd::prelude::*;
use vstd::string::StringExecFns;
use crate::keycodec::{from_utf8_lossy, utf8_lossy};

verus! {

/// Credentials a script passes for signing.
#[derive(Debug, Clone)]
pub struct JsAwsCredentials {
    pub key: String,
    pub secret: String,
}

/// A region as a script names it: by name, or by name with its own endpoint.
#[derive(Debug, Clone)]
pub struct AwsRegion {
    pub name: String,
    pub endpoint: Option<String>,
}

/// A region of the S3 API, named as `AwsRegion` is.
#[derive(Debug, Clone)]
pub struct S3Region {
    pub name: String,
    pub endpoint: Option<String>,
}

/// S3 credentials a script passes.
#[derive(Debug, Clone)]
pub struct S3Credentials {
    pub key: String,
    pub secret: String,
}

/// How long a presigned S3 URL stays valid.
#[derive(Debug, Clone, Copy)]
pub struct S3PresignOptions {
    pub expires_in_secs: u64,
}

/// The region a request is signed for: a custom one with its endpoint, or a
/// standard one that the signing library looks up by name.
#[derive(Debug, Clone)]
pub enum RegionChoice {
    Custom { name: String, endpoint: String },
    Named(String),
}

/// Whether a choice is the one a region's name and endpoint make.
pub open spec fn spec_region_choice(name: Seq<char>, endpoint: Option<Seq<char>>, c: RegionChoice) -> bool {
    match endpoint {
        Some(e) => c matches RegionChoice::Custom { name: n, endpoint: ep } && n@ == name && ep@ == e,
        None => c matches RegionChoice::Named(n) && n@ == name,
    }
}

/// The region of a name and an optional endpoint: custom when there is an
/// endpoint, else standard by name.
fn region_choice(name: String, endpoint: Option<String>) -> (res: RegionChoice)
    ensures
        spec_region_choice(name@, crate::mds::opt_string_view(endpoint), res),
{
    match endpoint {
        Some(e) => RegionChoice::Custom { name, endpoint: e },
        None => RegionChoice::Named(name),
    }
}

impl AwsRegion {
    /// The region a signing request names.
    pub fn choice(self) -> (res: RegionChoice)
        ensures
            spec_region_choice(self.name@, crate::mds::opt_string_view(self.endpoint), res),
    {
        region_choice(self.name, self.endpoint)
    }
}

impl S3Region {
    /// The region an S3 request names.
    pub fn choice(self) -> (res: RegionChoice)
        ensures
            spec_region_choice(self.name@, crate::mds::opt_string_view(self.endpoint), res),
    {
        region_choice(self.name, self.endpoint)
    }
}

/// The key and secret that sign a request: the script's, or empty ones (an
/// anonymous request) when it passes none.
pub fn signing_credentials(creds: Option<JsAwsCredentials>) -> (res: (String, String))
    ensures
        match creds {
            Some(c) => res.0@ == c.key@ && res.1@ == c.secret@,
            None => res.0@ == Seq::<char>::empty() && res.1@ == Seq::<char>::empty(),
        },
{
    match creds {
        Some(c) => (c.key, c.secret),
        None => (String::new(), String::new()),
    }
}

/// The URL of a signed request: scheme, `://`, host and canonical path, and
/// `?` with the canonical query when there is one.
pub open spec fn spec_signed_url(scheme: Seq<char>, host: Seq<char>, path: Seq<char>, query: Seq<char>) -> Seq<char> {
    let base = scheme + "://"@ + host + path;
    if query.len() == 0 {
        base
    } else {
        base + "?"@ + query
    }
}

/// Builds the URL of a signed request from its parts.
pub fn signed_url(scheme: &str, host: &str, path: &str, query: &str) -> (res: String)
    ensures
        res@ == spec_signed_url(scheme@, host@, path@, query@),
{
    let s = String::from_str(scheme);
    let s = s.concat("://");
    let s = s.concat(host);
    let s = s.concat(path);
    if query.is_empty() {
        s
    } else {
        let s = s.concat("?");
        s.concat(query)
    }
}

/// The text of a signed header value: its UTF-8 text, with invalid sequences
/// replaced.
pub fn header_value_text(bytes: &[u8]) -> (res: String)
    ensures
        res@ == utf8_lossy(bytes@),
{
    from_utf8_lossy(bytes)
}

/// The owner of an S3 object.
#[derive(Debug, Clone)]
pub struct S3Owner {
    pub display_name: Option<String>,
    pub id: Option<String>,
}

/// An optional owner, as the listing gives it.
#[derive(Debug, Clone)]
pub struct S3OwnerOptional {
    pub owner: Option<S3Owner>,
}

/// An object of an S3 listing.
#[derive(Debug, Clone)]
pub struct S3Object {
    pub e_tag: Option<String>,
    pub key: Option<String>,
    pub last_modified: Option<String>,
    pub owner: S3OwnerOptional,
    pub size: Option<i64>,
    pub storage_class: Option<String>,
}

/// The common prefixes of an S3 listing.
#[derive(Debug, Clone)]
pub struct CommonPrefixList {
    pub list: Option<Vec<Option<String>>>,
}

/// The objects of an S3 listing.
#[derive(Debug, Clone)]
pub struct S3ContentList {
    pub list: Option<Vec<S3Object>>,
}

} // verus!
