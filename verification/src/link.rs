//! The link command: what a run does in which order, and how a sync action
//! becomes a request.

use vstd::prelude::*;
use crate::archive::{base64_text, encodable, zip_image};
use crate::builder::{
    headers_view, link as link_request, relink as relink_request, relink_batch, BodyView, Client,
    Method, RelinkBody, SyncRequest,
};
use crate::bundle::{
    encode, fits_archive, is_under_root, packed_layout, pack_directory, relative, relative_path, under_root,
    TreeSnapshot,
};
use crate::configs::{Project, Vtex};
use crate::debounce::ChangeKind;
use crate::error::SyncError;
use crate::policy::{excluded, is_excluded, normalize, normalized};
use crate::routes::{route_url, Routes};
use crate::text::{decimal, string_of};

verus! {

/// The two switches of the link command.
#[derive(Debug, Clone, Copy, PartialEq, Eq, Structural)]
pub struct LinkOptions {
    /// Drop the remote build cache before the first sync.
    pub clean: bool,
    /// Skip validations for a faster start.
    pub quicker: bool,
}

/// One stage of a run.
#[derive(Debug, Clone, Copy, PartialEq, Eq, Structural)]
pub enum Step {
    /// Find the host that serves the project.
    Resolve,
    /// Ask for the remote build cache to be dropped.
    ClearCache,
    /// Send the whole project.
    FullSync,
    /// Open the three event streams.
    OpenStreams,
    /// Watch the project directory and sync what changes.
    Watch,
}

/// The stages of a run, in order.
pub open spec fn plan(options: LinkOptions) -> Seq<Step> {
    if options.clean {
        seq![Step::Resolve, Step::ClearCache, Step::FullSync, Step::OpenStreams, Step::Watch]
    } else {
        seq![Step::Resolve, Step::FullSync, Step::OpenStreams, Step::Watch]
    }
}

/// Plans a run. The two switches exclude each other: with both set there is
/// no plan, which is a configuration failure.
pub fn link(options: LinkOptions) -> (r: Result<Vec<Step>, SyncError>)
    ensures
        match r {
            Ok(steps) => !(options.clean && options.quicker) && steps@ == plan(options),
            Err(e) => options.clean && options.quicker && e == SyncError::ConfigError,
        },
{
    if options.clean && options.quicker {
        return Err(SyncError::ConfigError);
    }
    let mut steps: Vec<Step> = Vec::new();
    steps.push(Step::Resolve);
    if options.clean {
        steps.push(Step::ClearCache);
    }
    steps.push(Step::FullSync);
    steps.push(Step::OpenStreams);
    steps.push(Step::Watch);
    assert(steps@ =~= plan(options));
    Ok(steps)
}

/// The operation that answers a change.
#[derive(Debug, Clone, Copy, PartialEq, Eq, Structural)]
pub enum Operation {
    FullSync,
    IncrementalSync,
}

/// A file that appeared or changed is sent alone. A file that went away has
/// no bytes to send, so the whole project is sent again.
pub open spec fn operation_for(kind: ChangeKind) -> Operation {
    match kind {
        ChangeKind::Created => Operation::IncrementalSync,
        ChangeKind::Modified => Operation::IncrementalSync,
        ChangeKind::Removed => Operation::FullSync,
    }
}

/// The operation that answers a change.
pub fn choose_action(kind: ChangeKind) -> (r: Operation)
    ensures
        r == operation_for(kind),
{
    match kind {
        ChangeKind::Created => Operation::IncrementalSync,
        ChangeKind::Modified => Operation::IncrementalSync,
        ChangeKind::Removed => Operation::FullSync,
    }
}

/// What is sent for one sync action: the bytes, and for a single file its
/// path relative to the root.
#[derive(Debug, Clone)]
pub struct BundlePayload {
    pub bytes: Vec<u8>,
    pub relative_path: Option<String>,
}

/// The payload for the whole project: the archive of the tree, without a
/// path. There is one for every root that is a directory with no file too
/// large for an archive entry.
pub fn full_payload(snapshot: &TreeSnapshot, ignore: &Vec<String>) -> (r: Result<
    BundlePayload,
    SyncError,
>)
    ensures
        snapshot.is_directory && fits_archive(snapshot.entries@, snapshot.root@, ignore@) ==> r
            is Ok,
        match r {
            Ok(payload) => snapshot.is_directory && payload.relative_path is None
                && payload.bytes@ == zip_image(packed_layout(snapshot.entries@, snapshot.root@, ignore@)),
            Err(e) => e == SyncError::IOError,
        },
{
    match pack_directory(snapshot, ignore) {
        Ok(bytes) => Ok(BundlePayload { bytes, relative_path: None }),
        Err(e) => Err(e),
    }
}

/// `path` lies at or below `root`, whichever separators the two are
/// written with.
pub open spec fn watched(root: Seq<char>, path: Seq<char>) -> bool {
    under_root(normalized(root), normalized(path))
}

/// The path of a file relative to the root, whichever separators the two
/// are written with.
pub open spec fn watched_path(root: Seq<char>, path: Seq<char>) -> Seq<char> {
    relative(normalized(root), normalized(path))
}

/// The path of a file relative to the root, for a file at or below the
/// root.
pub fn relative_to(root: &str, path: &str) -> (r: Option<String>)
    ensures
        match r {
            Some(rel) => watched(root@, path@) && rel@ == watched_path(root@, path@),
            None => !watched(root@, path@),
        },
{
    let root_chars = normalize(root);
    let path_chars = normalize(path);
    if !is_under_root(&root_chars, &path_chars) {
        return None;
    }
    let rel = relative_path(&root_chars, &path_chars);
    Some(string_of(&rel))
}

/// The payload for one file: its bytes as read, and its path relative to
/// the root. A file that could not be read, or that does not lie under the
/// root, is an I/O error.
pub fn file_payload(root: &str, path: &str, content: Option<Vec<u8>>) -> (r: Result<
    BundlePayload,
    SyncError,
>)
    ensures
        match r {
            Ok(payload) => content is Some && watched(root@, path@) && payload.bytes@
                == content->0@ && payload.relative_path is Some && payload.relative_path->0@
                == watched_path(root@, path@),
            Err(e) => (content is None || !watched(root@, path@)) && e == SyncError::IOError,
        },
{
    let bytes = match content {
        Some(bytes) => bytes,
        None => {
            return Err(SyncError::IOError);
        },
    };
    match relative_to(root, path) {
        Some(rel) => Ok(BundlePayload { bytes, relative_path: Some(rel) }),
        None => Err(SyncError::IOError),
    }
}

/// The body of the request for one file: its bytes as base64 text, the
/// length of that text, and its relative path. Bytes too many for their
/// text to be addressed are an I/O error.
pub fn relink_body(bytes: &Vec<u8>, relative_path: String) -> (r: Result<RelinkBody, SyncError>)
    ensures
        match r {
            Ok(body) => encodable(bytes@.len()) && body.content@ == base64_text(bytes@)
                && body.byte_size == body.content@.len() && body.byte_size == (bytes@.len() + 2)
                / 3 * 4 && body.path@ == relative_path@,
            Err(e) => !encodable(bytes@.len()) && e == SyncError::IOError,
        },
{
    match encode(bytes) {
        Some(content) => {
            let byte_size = content.as_str().unicode_len();
            Ok(RelinkBody { content, byte_size, path: relative_path })
        },
        None => Err(SyncError::IOError),
    }
}

/// The request for a payload: a payload without a path goes out whole, as
/// the archive it is; one with a path goes out as one changed file.
pub fn payload_request(client: &Client, project: &Project, env: &Vtex, payload: BundlePayload) -> (r:
    Result<SyncRequest, SyncError>)
    ensures
        match r {
            Ok(request) => match payload.relative_path {
                None => {
                    &&& request.method == Method::Post
                    &&& request.url@ == route_url(Routes::Link, *project, *env)
                    &&& headers_view(request.headers@) == headers_view(client.headers@) + seq![
                        ("accept-encoding"@, "gzip"@),
                        ("content-type"@, "application/octet-stream"@),
                        ("content-length"@, decimal(payload.bytes@.len())),
                    ]
                    &&& request.body@ == BodyView::Binary(payload.bytes@)
                },
                Some(path) => {
                    &&& encodable(payload.bytes@.len())
                    &&& request.method == Method::Put
                    &&& request.url@ == route_url(Routes::Relink, *project, *env)
                    &&& headers_view(request.headers@) == headers_view(client.headers@) + seq![
                        ("accept-encoding"@, "gzip"@),
                        ("content-type"@, "application/json"@),
                    ]
                    &&& request.body@ == BodyView::Text(
                        relink_batch(
                            base64_text(payload.bytes@),
                            ((payload.bytes@.len() + 2) / 3 * 4) as nat,
                            path@,
                        ),
                    )
                },
            },
            Err(e) => payload.relative_path is Some && !encodable(payload.bytes@.len()) && e
                == SyncError::IOError,
        },
{
    let BundlePayload { bytes, relative_path } = payload;
    match relative_path {
        None => Ok(link_request(client, project, env, bytes)),
        Some(path) => match relink_body(&bytes, path) {
            Ok(body) => Ok(relink_request(client, project, env, body)),
            Err(e) => Err(e),
        },
    }
}

/// The request that sends the whole project. There is one for every root
/// that is a directory with no file too large for an archive entry.
pub fn send_package(
    client: &Client,
    project: &Project,
    env: &Vtex,
    snapshot: &TreeSnapshot,
    ignore: &Vec<String>,
) -> (r: Result<SyncRequest, SyncError>)
    ensures
        snapshot.is_directory && fits_archive(snapshot.entries@, snapshot.root@, ignore@) ==> r
            is Ok,
        match r {
            Ok(request) => {
                &&& snapshot.is_directory
                &&& request.method == Method::Post
                &&& request.url@ == route_url(Routes::Link, *project, *env)
                &&& headers_view(request.headers@) == headers_view(client.headers@) + seq![
                    ("accept-encoding"@, "gzip"@),
                    ("content-type"@, "application/octet-stream"@),
                    (
                        "content-length"@,
                        decimal(
                            zip_image(packed_layout(snapshot.entries@, snapshot.root@, ignore@)).len(),
                        ),
                    ),
                ]
                &&& request.body@ == BodyView::Binary(
                    zip_image(packed_layout(snapshot.entries@, snapshot.root@, ignore@)),
                )
            },
            Err(e) => e == SyncError::IOError,
        },
{
    match full_payload(snapshot, ignore) {
        Ok(payload) => payload_request(client, project, env, payload),
        Err(e) => Err(e),
    }
}

/// What `send_file` gives for a file under the root that the policy lets
/// through: the request for it.
pub open spec fn file_request(
    request: SyncRequest,
    client: Client,
    project: Project,
    env: Vtex,
    bytes: Seq<u8>,
    path: Seq<char>,
) -> bool {
    &&& request.method == Method::Put
    &&& request.url@ == route_url(Routes::Relink, project, env)
    &&& headers_view(request.headers@) == headers_view(client.headers@) + seq![
        ("accept-encoding"@, "gzip"@),
        ("content-type"@, "application/json"@),
    ]
    &&& request.body@ == BodyView::Text(
        relink_batch(base64_text(bytes), ((bytes.len() + 2) / 3 * 4) as nat, path),
    )
}

/// The request that sends one changed file. The policy judges the file by
/// its path relative to the root, as it judges the files of a full sync,
/// and for a file that it excludes there is nothing to send. A file that
/// does not lie under the root, that could not be read or that is too long
/// to encode is an I/O error.
pub fn send_file(
    client: &Client,
    project: &Project,
    env: &Vtex,
    root: &str,
    path: &str,
    content: Option<Vec<u8>>,
    ignore: &Vec<String>,
) -> (r: Result<Option<SyncRequest>, SyncError>)
    ensures
        match r {
            Ok(None) => watched(root@, path@) && excluded(watched_path(root@, path@), ignore@),
            Ok(Some(request)) => {
                &&& watched(root@, path@)
                &&& !excluded(watched_path(root@, path@), ignore@)
                &&& content is Some
                &&& encodable(content->0@.len())
                &&& file_request(
                    request,
                    *client,
                    *project,
                    *env,
                    content->0@,
                    watched_path(root@, path@),
                )
            },
            Err(e) => e == SyncError::IOError && (!watched(root@, path@) || (!excluded(
                watched_path(root@, path@),
                ignore@,
            ) && (content is None || !encodable(content->0@.len())))),
        },
{
    let rel = match relative_to(root, path) {
        Some(rel) => rel,
        None => {
            return Err(SyncError::IOError);
        },
    };
    if is_excluded(rel.as_str(), ignore) {
        return Ok(None);
    }
    let bytes = match content {
        Some(bytes) => bytes,
        None => {
            return Err(SyncError::IOError);
        },
    };
    let payload = BundlePayload { bytes, relative_path: Some(rel) };
    match payload_request(client, project, env, payload) {
        Ok(request) => Ok(Some(request)),
        Err(e) => Err(e),
    }
}

} // verus!
