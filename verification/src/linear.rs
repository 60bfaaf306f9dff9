//! Plain data types of the issue tracker's interface, as the engine sees
//! them. The transport that fills them lives outside the library.

use vstd::prelude::*;

verus! {

/// A newly created tracker issue.
#[derive(Debug, Clone)]
pub struct LinearIssue {
    /// The issue's opaque id.
    pub id: String,
    /// The human-readable code, such as a team prefix plus a number.
    pub identifier: String,
    pub title: String,
    pub url: String,
}

/// One discussion item on a tracker issue.
#[derive(Debug, Clone)]
pub struct LinearComment {
    pub id: String,
    pub body: String,
    pub created_at: String,
    pub author_name: String,
}

/// One issue as the change poll reports it.
#[derive(Debug, Clone)]
pub struct LinearIssueStatus {
    pub id: String,
    pub identifier: String,
    pub status_name: String,
    pub updated_at: String,
}

/// An upload slot granted by the tracker for one attachment.
#[derive(Debug, Clone)]
pub struct UploadFile {
    pub upload_url: String,
    pub asset_url: String,
    pub headers: Vec<UploadHeader>,
}

/// One header the upload request must carry.
#[derive(Debug, Clone)]
pub struct UploadHeader {
    pub key: String,
    pub value: String,
}

} // verus!
