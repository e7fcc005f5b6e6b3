//! The sync protocol in its versions.
//!
//! - V1: the document-storage JSON API (firmware 1.x-2.x)
//! - V1.5: batch operations
//! - V2: binary with metadata
//! - V3: hash-based, the one in use
//! - V4: extended metadata

use vstd::prelude::*;
use vstd::string::*;

use crate::clock::Timestamp;
use crate::readlater::prefixed;
use crate::text::{char_count, contains, same, slice};

verus! {

/// Sync protocol version
#[derive(Debug, Clone, Copy, PartialEq, Eq, Structural)]
pub enum SyncVersion {
    V1,
    V1_5,
    V2,
    V3,
    V4,
}

/// The version that a path speaks: the first of those whose segment is in it.
pub open spec fn version_of(path: Seq<char>) -> Option<SyncVersion> {
    if crate::text::holds(path, "/v1.5/"@) || crate::text::holds(path, "/v1_5/"@) {
        Some(SyncVersion::V1_5)
    } else if crate::text::holds(path, "/v1/"@) {
        Some(SyncVersion::V1)
    } else if crate::text::holds(path, "/v2/"@) {
        Some(SyncVersion::V2)
    } else if crate::text::holds(path, "/v3/"@) {
        Some(SyncVersion::V3)
    } else if crate::text::holds(path, "/v4/"@) {
        Some(SyncVersion::V4)
    } else {
        None
    }
}

impl SyncVersion {
    pub fn from_path(path: &str) -> (r: Option<Self>)
        ensures
            r == version_of(path@),
    {
        if contains(path, "/v1.5/") || contains(path, "/v1_5/") {
            Some(SyncVersion::V1_5)
        } else if contains(path, "/v1/") {
            Some(SyncVersion::V1)
        } else if contains(path, "/v2/") {
            Some(SyncVersion::V2)
        } else if contains(path, "/v3/") {
            Some(SyncVersion::V3)
        } else if contains(path, "/v4/") {
            Some(SyncVersion::V4)
        } else {
            None
        }
    }
}

/// A path speaks a version only if it holds a segment of it, and none only if it holds none.
pub proof fn law_a_path_speaks_what_it_holds(path: Seq<char>)
    ensures
        version_of(path) is None <==> !crate::text::holds(path, "/v1.5/"@) && !crate::text::holds(
            path,
            "/v1_5/"@,
        ) && !crate::text::holds(path, "/v1/"@) && !crate::text::holds(path, "/v2/"@)
            && !crate::text::holds(path, "/v3/"@) && !crate::text::holds(path, "/v4/"@),
        version_of(path) matches Some(v) ==> match v {
            SyncVersion::V1 => crate::text::holds(path, "/v1/"@),
            SyncVersion::V1_5 => crate::text::holds(path, "/v1.5/"@) || crate::text::holds(
                path,
                "/v1_5/"@,
            ),
            SyncVersion::V2 => crate::text::holds(path, "/v2/"@),
            SyncVersion::V3 => crate::text::holds(path, "/v3/"@),
            SyncVersion::V4 => crate::text::holds(path, "/v4/"@),
        },
{
}

/// When a link handed to a V1 client ends: never, as far as the client can tell.
pub const LINK_EXPIRES: &'static str = "2099-12-31T23:59:59Z";

/// Where a V1 client fetches a document.
pub const DOCS_PATH: &'static str = "/document-storage/json/2/docs/";

/// Where a V1 client puts a document.
pub const UPLOAD_PATH: &'static str = "/document-storage/json/2/upload/";

#[derive(Debug)]
pub struct V1Document {
    pub id: String,
    pub version: i32,
    pub message: String,
    pub success: bool,
    pub blob_url_get: String,
    pub blob_url_get_expires: String,
    pub blob_url_put: Option<String>,
    pub modified_client: String,
    pub doc_type: String,
    pub visible_name: String,
    pub current_page: i32,
    pub bookmarked: bool,
    pub parent: String,
}

/// Whether a file name is that of a notebook.
pub open spec fn is_notebook(filename: Seq<char>) -> bool {
    ".rm"@.is_suffix_of(filename)
}

/// The kind of document that a file is.
pub open spec fn kind_of(filename: Seq<char>) -> Seq<char> {
    if is_notebook(filename) {
        "DocumentType"@
    } else {
        "CollectionType"@
    }
}

/// The kind of document that a file is: by its name.
pub fn document_kind(filename: &str) -> (r: String)
    ensures
        r@ == kind_of(filename@),
{
    let n: usize = char_count(filename);
    proof {
        reveal_strlit(".rm");
    }
    if n >= 3 && same(slice(filename, n - 3, n), ".rm") {
        assert(filename@.subrange(n - 3, n as int) =~= filename@.subrange(
            filename@.len() - ".rm"@.len(),
            filename@.len() as int,
        ));
        "DocumentType".to_owned()
    } else {
        assert(!is_notebook(filename@)) by {
            if is_notebook(filename@) {
                assert(filename@.subrange(n - 3, n as int) =~= ".rm"@);
            }
        }
        "CollectionType".to_owned()
    }
}

/// Whether `d` is how a V1 client is told of a file.
pub open spec fn is_v1_document(
    d: V1Document,
    hash: Seq<char>,
    filename: Seq<char>,
    at: Timestamp,
) -> bool {
    &&& d.id@ == hash
    &&& d.version == 1
    &&& d.message@.len() == 0
    &&& d.success
    &&& d.blob_url_get@ == DOCS_PATH@ + hash
    &&& d.blob_url_get_expires@ == LINK_EXPIRES@
    &&& d.blob_url_put matches Some(p) && p@ == UPLOAD_PATH@ + hash
    &&& d.modified_client@ == crate::clock::rfc3339(at.seconds, at.nanos)
    &&& d.doc_type@ == kind_of(filename)
    &&& d.visible_name@ == filename
    &&& d.current_page == 0
    &&& !d.bookmarked
    &&& d.parent@.len() == 0
}

/// How a V1 client is told of files: hashes and names.
pub fn v1_documents(files: &Vec<(String, String)>, at: Timestamp) -> (r: Vec<V1Document>)
    requires
        at.valid(),
    ensures
        r@.len() == files@.len(),
        forall|i: int|
            0 <= i < r@.len() ==> is_v1_document(
                #[trigger] r@[i],
                files@[i].0@,
                files@[i].1@,
                at,
            ),
{
    let mut out: Vec<V1Document> = Vec::new();
    let mut i: usize = 0;
    while i < files.len()
        invariant
            i <= files@.len(),
            at.valid(),
            out@.len() == i,
            forall|k: int|
                0 <= k < i ==> is_v1_document(
                    #[trigger] out@[k],
                    files@[k].0@,
                    files@[k].1@,
                    at,
                ),
        decreases files@.len() - i,
    {
        let hash = files[i].0.as_str();
        let filename = files[i].1.as_str();
        out.push(
            V1Document {
                id: hash.to_owned(),
                version: 1,
                message: String::new(),
                success: true,
                blob_url_get: prefixed(DOCS_PATH, hash),
                blob_url_get_expires: LINK_EXPIRES.to_owned(),
                blob_url_put: Some(prefixed(UPLOAD_PATH, hash)),
                modified_client: crate::clock::to_rfc3339(at),
                doc_type: document_kind(filename),
                visible_name: filename.to_owned(),
                current_page: 0,
                bookmarked: false,
                parent: String::new(),
            },
        );
        i += 1;
    }
    out
}

/// What is listed for a V1 client: nothing. The blobs of the sync tree aren't V1 documents; listing
/// them as such invites a V1 client to delete live sync data.
pub fn v1_list_docs(at: Timestamp) -> (r: Vec<V1Document>)
    requires
        at.valid(),
    ensures
        r@.len() == 0,
{
    v1_documents(&Vec::new(), at)
}

#[derive(Debug)]
pub struct V1UploadRequest {
    pub id: String,
    pub version: i32,
    pub doc_type: Option<String>,
}

#[derive(Debug)]
pub struct V1UploadResponse {
    pub id: String,
    pub version: i32,
    pub message: String,
    pub success: bool,
    pub blob_url_put: String,
    pub blob_url_put_expires: String,
}

/// Whether `r` answers a request for a place to upload to.
pub open spec fn grants(r: V1UploadResponse, d: V1UploadRequest) -> bool {
    &&& r.id@ == d.id@
    &&& r.version == d.version
    &&& r.message@.len() == 0
    &&& r.success
    &&& r.blob_url_put@ == UPLOAD_PATH@ + d.id@
    &&& r.blob_url_put_expires@ == LINK_EXPIRES@
}

/// Each request is granted, in order.
pub fn v1_upload_request(docs: &Vec<V1UploadRequest>) -> (r: Vec<V1UploadResponse>)
    ensures
        r@.len() == docs@.len(),
        forall|i: int| 0 <= i < r@.len() ==> grants(#[trigger] r@[i], docs@[i]),
{
    let mut out: Vec<V1UploadResponse> = Vec::new();
    let mut i: usize = 0;
    while i < docs.len()
        invariant
            i <= docs@.len(),
            out@.len() == i,
            forall|k: int| 0 <= k < i ==> grants(#[trigger] out@[k], docs@[k]),
        decreases docs@.len() - i,
    {
        let id = docs[i].id.as_str();
        out.push(
            V1UploadResponse {
                id: id.to_owned(),
                version: docs[i].version,
                message: String::new(),
                success: true,
                blob_url_put: prefixed(UPLOAD_PATH, id),
                blob_url_put_expires: LINK_EXPIRES.to_owned(),
            },
        );
        i += 1;
    }
    out
}

#[derive(Debug)]
pub struct V1StatusUpdate {
    pub id: String,
    pub version: i32,
}

#[derive(Debug)]
pub struct V1StatusResponse {
    pub id: String,
    pub version: i32,
    pub message: String,
    pub success: bool,
}

/// Whether `r` says that all is well with a version of a document.
pub open spec fn acknowledges(r: V1StatusResponse, id: Seq<char>, version: i32) -> bool {
    &&& r.id@ == id
    &&& r.version == version
    &&& r.message@.len() == 0
    &&& r.success
}

fn acknowledge(id: &str, version: i32) -> (r: V1StatusResponse)
    ensures
        acknowledges(r, id@, version),
{
    V1StatusResponse { id: id.to_owned(), version, message: String::new(), success: true }
}

/// Each update is acknowledged, in order.
pub fn v1_update_status(updates: &Vec<V1StatusUpdate>) -> (r: Vec<V1StatusResponse>)
    ensures
        r@.len() == updates@.len(),
        forall|i: int|
            0 <= i < r@.len() ==> acknowledges(
                #[trigger] r@[i],
                updates@[i].id@,
                updates@[i].version,
            ),
{
    let mut out: Vec<V1StatusResponse> = Vec::new();
    let mut i: usize = 0;
    while i < updates.len()
        invariant
            i <= updates@.len(),
            out@.len() == i,
            forall|k: int|
                0 <= k < i ==> acknowledges(
                    #[trigger] out@[k],
                    updates@[k].id@,
                    updates@[k].version,
                ),
        decreases updates@.len() - i,
    {
        out.push(acknowledge(updates[i].id.as_str(), updates[i].version));
        i += 1;
    }
    out
}

#[derive(Debug)]
pub struct V1DeleteRequest {
    pub id: String,
    pub version: i32,
}

/// The ids of those requests whose blob the current root does not reference, in order.
pub open spec fn deleted(ids: Seq<V1DeleteRequest>, referenced: Seq<bool>) -> Seq<Seq<char>>
    decreases ids.len(),
{
    if ids.len() == 0 {
        Seq::empty()
    } else {
        let before = deleted(ids.drop_last(), referenced);
        if referenced[ids.len() - 1] {
            before
        } else {
            before.push(ids.last().id@)
        }
    }
}

/// What is deleted, and what the client is told. V1 ids aren't documents here, and blobs are shared
/// by the sync tree: one that the current root still references is never deleted, though each
/// request is acknowledged. `referenced` says of each request whether the root references its blob.
pub fn v1_delete(ids: &Vec<V1DeleteRequest>, referenced: &Vec<bool>) -> (r: (
    Vec<String>,
    Vec<V1StatusResponse>,
))
    requires
        referenced@.len() == ids@.len(),
    ensures
        crate::text::texts(r.0@) == deleted(ids@, referenced@),
        r.1@.len() == ids@.len(),
        forall|i: int|
            0 <= i < r.1@.len() ==> acknowledges(
                #[trigger] r.1@[i],
                ids@[i].id@,
                ids@[i].version,
            ),
{
    let mut gone: Vec<String> = Vec::new();
    let mut out: Vec<V1StatusResponse> = Vec::new();
    let mut i: usize = 0;
    assert(ids@.take(0) =~= Seq::empty());
    assert(crate::text::texts(gone@) =~= Seq::empty());
    while i < ids.len()
        invariant
            i <= ids@.len(),
            referenced@.len() == ids@.len(),
            crate::text::texts(gone@) == deleted(ids@.take(i as int), referenced@),
            out@.len() == i,
            forall|k: int|
                0 <= k < i ==> acknowledges(#[trigger] out@[k], ids@[k].id@, ids@[k].version),
        decreases ids@.len() - i,
    {
        let ghost was = crate::text::texts(gone@);
        assert(ids@.take(i as int + 1).drop_last() =~= ids@.take(i as int));
        if !referenced[i] {
            gone.push(ids[i].id.clone());
            assert(crate::text::texts(gone@) =~= was.push(ids@[i as int].id@));
        }
        out.push(acknowledge(ids[i].id.as_str(), ids[i].version));
        i += 1;
    }
    assert(ids@.take(i as int) =~= ids@);
    (gone, out)
}

/// Nothing that the current root references is deleted, whatever a V1 client asks.
pub proof fn law_referenced_blobs_survive(
    ids: Seq<V1DeleteRequest>,
    referenced: Seq<bool>,
    id: Seq<char>,
)
    requires
        referenced.len() == ids.len(),
        forall|i: int| 0 <= i < ids.len() && (#[trigger] ids[i]).id@ == id ==> referenced[i],
    ensures
        !deleted(ids, referenced).contains(id),
    decreases ids.len(),
{
    lemma_deleted(ids, referenced, id);
}

proof fn lemma_deleted(ids: Seq<V1DeleteRequest>, referenced: Seq<bool>, id: Seq<char>)
    requires
        referenced.len() >= ids.len(),
        forall|i: int| 0 <= i < ids.len() && (#[trigger] ids[i]).id@ == id ==> referenced[i],
    ensures
        !deleted(ids, referenced).contains(id),
    decreases ids.len(),
{
    if ids.len() > 0 {
        let rest = ids.drop_last();
        assert forall|i: int| 0 <= i < rest.len() && (#[trigger] rest[i]).id@
            == id implies referenced[i] by {
            assert(ids[i].id@ == id);
        }
        lemma_deleted(rest, referenced, id);
        let before = deleted(rest, referenced);
        if deleted(ids, referenced).contains(id) {
            let k = choose|k: int|
                0 <= k < deleted(ids, referenced).len() && deleted(ids, referenced)[k] == id;
            if k < before.len() {
                assert(before[k] == id);
                assert(before.contains(id));
            } else {
                assert(ids[ids.len() - 1].id@ == id);
            }
        }
    }
}

#[derive(Debug)]
pub struct V15BatchRequest {
    pub documents: Vec<V15Document>,
    pub generation: i64,
}

#[derive(Debug, Clone)]
pub struct V15Document {
    pub id: String,
    pub hash: String,
    pub doc_type: String,
    pub visible_name: String,
    pub parent: Option<String>,
    pub version: i32,
    pub modified_client: String,
}

#[derive(Debug)]
pub struct V15BatchResponse {
    pub documents: Vec<V15Document>,
    pub generation: i64,
    pub success: bool,
}

/// Whether `d` is how a V1.5 client is told of a file.
pub open spec fn is_v15_document(
    d: V15Document,
    hash: Seq<char>,
    filename: Seq<char>,
    at: Timestamp,
) -> bool {
    &&& d.id@ == hash
    &&& d.hash@ == hash
    &&& d.doc_type@ == kind_of(filename)
    &&& d.visible_name@ == filename
    &&& d.parent is None
    &&& d.version == 1
    &&& d.modified_client@ == crate::clock::rfc3339(at.seconds, at.nanos)
}

/// How a V1.5 client is told of files: hashes and names.
pub fn v15_documents(files: &Vec<(String, String)>, at: Timestamp) -> (r: Vec<V15Document>)
    requires
        at.valid(),
    ensures
        r@.len() == files@.len(),
        forall|i: int|
            0 <= i < r@.len() ==> is_v15_document(
                #[trigger] r@[i],
                files@[i].0@,
                files@[i].1@,
                at,
            ),
{
    let mut out: Vec<V15Document> = Vec::new();
    let mut i: usize = 0;
    while i < files.len()
        invariant
            i <= files@.len(),
            at.valid(),
            out@.len() == i,
            forall|k: int|
                0 <= k < i ==> is_v15_document(
                    #[trigger] out@[k],
                    files@[k].0@,
                    files@[k].1@,
                    at,
                ),
        decreases files@.len() - i,
    {
        let hash = files[i].0.as_str();
        let filename = files[i].1.as_str();
        out.push(
            V15Document {
                id: hash.to_owned(),
                hash: hash.to_owned(),
                doc_type: document_kind(filename),
                visible_name: filename.to_owned(),
                parent: None,
                version: 1,
                modified_client: crate::clock::to_rfc3339(at),
            },
        );
        i += 1;
    }
    out
}

/// What a batch is answered: no documents (as in [`v1_list_docs`]), and the root's generation.
pub fn v15_batch_sync(generation: u64, at: Timestamp) -> (r: V15BatchResponse)
    requires
        at.valid(),
    ensures
        r.documents@.len() == 0,
        r.generation == generation as i64,
        r.success,
{
    V15BatchResponse {
        documents: v15_documents(&Vec::new(), at),
        generation: generation as i64,
        success: true,
    }
}

#[derive(Debug)]
pub struct V2Root {
    pub hash: String,
    pub generation: i64,
    pub schema_version: i32,
}

/// The sync root, as V2 tells it.
pub fn v2_get_root(hash: String, generation: u64) -> (r: V2Root)
    ensures
        r == (V2Root { hash, generation: generation as i64, schema_version: 2 }),
{
    V2Root { hash, generation: generation as i64, schema_version: 2 }
}

/// The name under which a file is stored: the one that its `rm-filename` header gives, and else its
/// hash.
pub fn stored_name(header: Option<&str>, hash: &str) -> (r: String)
    ensures
        r@ == match header {
            Some(name) => name@,
            None => hash@,
        },
{
    match header {
        Some(name) => name.to_owned(),
        None => hash.to_owned(),
    }
}

#[derive(Debug)]
pub struct V4Root {
    pub hash: String,
    pub generation: i64,
    pub schema_version: i32,
    pub features: Vec<String>,
    pub capabilities: V4Capabilities,
}

#[derive(Debug, Clone, Copy, PartialEq, Eq, Structural)]
pub struct V4Capabilities {
    pub crdt: bool,
    pub sharing: bool,
    pub tags: bool,
    pub search: bool,
    pub calendar: bool,
}

/// What V4 offers.
pub open spec fn features() -> Seq<Seq<char>> {
    seq!["crdt"@, "sharing"@, "tags"@, "search"@, "calendar"@]
}

/// The sync root with its extended metadata, as V4 tells it.
pub fn v4_get_root(hash: String, generation: u64) -> (r: V4Root)
    ensures
        r.hash == hash,
        r.generation == generation as i64,
        r.schema_version == 4,
        crate::text::texts(r.features@) == features(),
        r.capabilities == (V4Capabilities {
            crdt: true,
            sharing: true,
            tags: true,
            search: true,
            calendar: true,
        }),
{
    let features = vec![
        "crdt".to_owned(),
        "sharing".to_owned(),
        "tags".to_owned(),
        "search".to_owned(),
        "calendar".to_owned(),
    ];
    assert(crate::text::texts(features@) =~= self::features());
    V4Root {
        hash,
        generation: generation as i64,
        schema_version: 4,
        features,
        capabilities: V4Capabilities {
            crdt: true,
            sharing: true,
            tags: true,
            search: true,
            calendar: true,
        },
    }
}

/// The headers that stand beside a file that V4 hands out: names and values.
pub fn v4_file_headers() -> (r: Vec<(&'static str, &'static str)>)
    ensures
        r@.len() == 2,
        r@[0].0@ == "x-rm-schema-version"@,
        r@[0].1@ == "4"@,
        r@[1].0@ == "x-rm-features"@,
        r@[1].1@ == "crdt,sharing,tags"@,
{
    vec![("x-rm-schema-version", "4"), ("x-rm-features", "crdt,sharing,tags")]
}

/// A path speaks the version that is one of its segments; the older a version, the more it counts,
/// but that the half step counts before both.
pub proof fn law_a_path_speaks_its_version(path: Seq<char>)
    ensures
        crate::text::holds(path, "/v1.5/"@) || crate::text::holds(path, "/v1_5/"@) ==> version_of(
            path,
        ) == Some(SyncVersion::V1_5),
        version_of(path) != Some(SyncVersion::V1_5) ==> {
            &&& crate::text::holds(path, "/v1/"@) ==> version_of(path) == Some(SyncVersion::V1)
            &&& !crate::text::holds(path, "/v1/"@) ==> {
                &&& crate::text::holds(path, "/v2/"@) ==> version_of(path) == Some(SyncVersion::V2)
                &&& !crate::text::holds(path, "/v2/"@) ==> {
                    &&& crate::text::holds(path, "/v3/"@) ==> version_of(path) == Some(
                        SyncVersion::V3,
                    )
                    &&& !crate::text::holds(path, "/v3/"@) && crate::text::holds(path, "/v4/"@)
                        ==> version_of(path) == Some(SyncVersion::V4)
                }
            }
        },
{
}

/// What nothing refers to is deleted when that is asked for.
pub proof fn law_unreferenced_blobs_are_deleted(
    ids: Seq<V1DeleteRequest>,
    referenced: Seq<bool>,
    i: int,
)
    requires
        referenced.len() == ids.len(),
        0 <= i < ids.len(),
        !referenced[i],
    ensures
        deleted(ids, referenced).contains(ids[i].id@),
    decreases ids.len(),
{
    let rest = ids.drop_last();
    let before = deleted(rest, referenced);
    let now = deleted(ids, referenced);
    lemma_deleted_prefix(rest, referenced, referenced.drop_last());
    if i == ids.len() - 1 {
        assert(now[now.len() - 1] == ids[i].id@);
    } else {
        law_unreferenced_blobs_are_deleted(rest, referenced.drop_last(), i);
        assert(before.contains(ids[i].id@));
        let k = choose|k: int| 0 <= k < before.len() && before[k] == ids[i].id@;
        assert(now[k] == ids[i].id@);
    }
}

proof fn lemma_deleted_prefix(ids: Seq<V1DeleteRequest>, a: Seq<bool>, b: Seq<bool>)
    requires
        ids.len() <= a.len(),
        ids.len() <= b.len(),
        forall|i: int| 0 <= i < ids.len() ==> a[i] == b[i],
    ensures
        deleted(ids, a) == deleted(ids, b),
    decreases ids.len(),
{
    if ids.len() > 0 {
        lemma_deleted_prefix(ids.drop_last(), a, b);
    }
}

/// A notebook is a document, and anything else a collection.
pub proof fn law_notebooks_are_documents(name: Seq<char>)
    ensures
        kind_of(name + ".rm"@) == "DocumentType"@,
        !".rm"@.is_suffix_of(name) ==> kind_of(name) == "CollectionType"@,
{
    let full = name + ".rm"@;
    assert(".rm"@ =~= full.subrange(full.len() - ".rm"@.len(), full.len() as int));
}

/// A document is told under the hash and the name that it is stored under, and where to read and
/// write it.
pub proof fn law_a_document_is_told_as_it_is_stored(
    d: V1Document,
    e: V15Document,
    hash: Seq<char>,
    filename: Seq<char>,
    at: Timestamp,
)
    requires
        is_v1_document(d, hash, filename, at),
        is_v15_document(e, hash, filename, at),
    ensures
        d.id@ == hash && e.id@ == hash && e.hash@ == hash,
        d.visible_name@ == filename && e.visible_name@ == filename,
        d.blob_url_get@ == "/document-storage/json/2/docs/"@ + hash,
        d.blob_url_put matches Some(p) && p@ == "/document-storage/json/2/upload/"@ + hash,
        d.success && d.version == 1 && e.version == 1,
        d.doc_type@ == e.doc_type@,
        ".rm"@.is_suffix_of(filename) <==> d.doc_type@ == "DocumentType"@,
        d.modified_client@ == crate::clock::rfc3339(at.seconds, at.nanos),
        e.modified_client@ == d.modified_client@,
{
    reveal_strlit("DocumentType");
    reveal_strlit("CollectionType");
    assert("DocumentType"@.len() != "CollectionType"@.len());
}

/// An upload is granted for the document and the version that were asked for, and a status is
/// acknowledged for the same.
pub proof fn law_answers_are_about_what_was_asked(
    r: V1UploadResponse,
    d: V1UploadRequest,
    s: V1StatusResponse,
    id: Seq<char>,
    version: i32,
)
    requires
        grants(r, d),
        acknowledges(s, id, version),
    ensures
        r.id@ == d.id@ && r.version == d.version && r.success,
        r.blob_url_put@ == "/document-storage/json/2/upload/"@ + d.id@,
        s.id@ == id && s.version == version && s.success,
{
}

} // verus!
