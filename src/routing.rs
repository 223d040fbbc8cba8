//! Request-level decisions: which handler serves a request, which upload
//! path a body takes, and the boundary token of a multipart body.

use vstd::prelude::*;
use vstd::string::is_ascii;

use crate::headers::{ascii_bytes, byte_from};
use crate::lines::range_equals;

verus! {

broadcast use vstd::string::is_ascii_spec_bytes;

/// The request methods the server tells apart.
#[derive(Clone, Copy, Debug, PartialEq, Eq, Structural)]
pub enum RequestMethod {
    Get,
    Post,
    Put,
    Delete,
    Head,
    Options,
    Connect,
    Patch,
    Trace,
    Other,
}

/// The handler that answers a request.
#[derive(Clone, Copy, Debug, PartialEq, Eq, Structural)]
pub enum Route {
    /// The method is known but not served.
    NotImplemented,
    /// A download path `/{id}/{filename}`.
    Download,
    /// `POST /upload`.
    Upload,
    /// `/upload` with another method.
    MethodNotAllowed,
    NotFound,
}

/// How an upload body is to be read.
#[derive(Clone, Copy, Debug, PartialEq, Eq, Structural)]
pub enum UploadKind {
    /// A `multipart/form-data` body, decoded part by part.
    Multipart,
    /// An `application/x-www-form-urlencoded` body, which is not served.
    UrlEncoded,
    /// Any other body, stored whole as one file.
    Raw,
}

pub open spec fn occurs_at(h: Seq<u8>, i: int, needle: Seq<u8>) -> bool {
    0 <= i && i + needle.len() <= h.len() && h.subrange(i, i + needle.len()) == needle
}

pub open spec fn contains(h: Seq<u8>, needle: Seq<u8>) -> bool {
    exists|i: int| occurs_at(h, i, needle)
}

/// The first position at or after `i` where `needle` occurs.
pub open spec fn first_occurrence(h: Seq<u8>, needle: Seq<u8>, i: int) -> Option<int>
    decreases h.len() + 1 - i,
{
    if i < 0 || i + needle.len() > h.len() {
        None
    } else if occurs_at(h, i, needle) {
        Some(i)
    } else {
        first_occurrence(h, needle, i + 1)
    }
}

pub open spec fn count_byte(s: Seq<u8>, v: u8) -> nat
    decreases s.len(),
{
    if s.len() == 0 {
        0
    } else {
        count_byte(s.drop_last(), v) + if s.last() == v {
            1nat
        } else {
            0nat
        }
    }
}

/// A path of the form `/{segment}/{segment}`, where a segment holds no `/`.
pub open spec fn is_download_path(p: Seq<u8>) -> bool {
    p.len() > 0 && p[0] == 47u8 && count_byte(p, 47u8) == 2
}

pub open spec fn upload_path() -> Seq<u8> {
    ascii_bytes("/upload"@)
}

pub open spec fn route_spec(m: RequestMethod, path: Seq<u8>) -> Route {
    match m {
        RequestMethod::Put | RequestMethod::Delete | RequestMethod::Head | RequestMethod::Options
        | RequestMethod::Connect | RequestMethod::Patch | RequestMethod::Trace => Route::NotImplemented,
        _ => if m == RequestMethod::Get && is_download_path(path) {
            Route::Download
        } else if path == upload_path() {
            if m == RequestMethod::Post {
                Route::Upload
            } else {
                Route::MethodNotAllowed
            }
        } else {
            Route::NotFound
        },
    }
}

pub open spec fn multipart_marker() -> Seq<u8> {
    ascii_bytes("multipart/form-data"@)
}

pub open spec fn urlencoded_type() -> Seq<u8> {
    ascii_bytes("application/x-www-form-urlencoded"@)
}

pub open spec fn upload_kind_spec(content_type: Option<Seq<u8>>) -> UploadKind {
    match content_type {
        Some(t) => if contains(t, multipart_marker()) {
            UploadKind::Multipart
        } else if t == urlencoded_type() {
            UploadKind::UrlEncoded
        } else {
            UploadKind::Raw
        },
        None => UploadKind::Raw,
    }
}

pub open spec fn boundary_key() -> Seq<u8> {
    ascii_bytes("boundary="@)
}

/// The boundary parameter of a content type: what follows the first
/// `boundary=`, up to the next `;` or the end.
pub open spec fn boundary_spec(t: Seq<u8>) -> Option<Seq<u8>> {
    match first_occurrence(t, boundary_key(), 0) {
        Some(p) => {
            let v = p + boundary_key().len();
            match byte_from(t, v, 59u8) {
                Some(e) => Some(t.subrange(v, e)),
                None => Some(t.subrange(v, t.len() as int)),
            }
        },
        None => None,
    }
}

fn upload_path_bytes() -> (r: &'static [u8])
    ensures
        r@ == upload_path(),
{
    let s = "/upload";
    proof {
        reveal_strlit("/upload");
    }
    assert(is_ascii(s));
    let r = s.as_bytes();
    assert(r@ =~= upload_path());
    r
}

fn multipart_marker_bytes() -> (r: &'static [u8])
    ensures
        r@ == multipart_marker(),
{
    let s = "multipart/form-data";
    proof {
        reveal_strlit("multipart/form-data");
    }
    assert(is_ascii(s));
    let r = s.as_bytes();
    assert(r@ =~= multipart_marker());
    r
}

fn urlencoded_type_bytes() -> (r: &'static [u8])
    ensures
        r@ == urlencoded_type(),
{
    let s = "application/x-www-form-urlencoded";
    proof {
        reveal_strlit("application/x-www-form-urlencoded");
    }
    assert(is_ascii(s));
    let r = s.as_bytes();
    assert(r@ =~= urlencoded_type());
    r
}

fn boundary_key_bytes() -> (r: &'static [u8])
    ensures
        r@ == boundary_key(),
{
    let s = "boundary=";
    proof {
        reveal_strlit("boundary=");
    }
    assert(is_ascii(s));
    let r = s.as_bytes();
    assert(r@ =~= boundary_key());
    r
}

proof fn lemma_first_occurrence_found(h: Seq<u8>, needle: Seq<u8>, i: int)
    requires
        0 <= i,
    ensures
        first_occurrence(h, needle, i) matches Some(p) ==> i <= p && occurs_at(h, p, needle),
        first_occurrence(h, needle, i) is None ==> forall|k: int| i <= k ==> !occurs_at(h, k, needle),
    decreases h.len() + 1 - i,
{
    if 0 <= i && i + needle.len() <= h.len() && !occurs_at(h, i, needle) {
        lemma_first_occurrence_found(h, needle, i + 1);
    }
}

/// The first position where `needle` occurs in `h`.
fn find_occurrence(h: &[u8], needle: &[u8]) -> (r: Option<usize>)
    ensures
        match r {
            Some(p) => first_occurrence(h@, needle@, 0) == Some(p as int),
            None => first_occurrence(h@, needle@, 0) is None,
        },
{
    let n = h.len();
    let k = needle.len();
    if k > n {
        return None;
    }
    if k == 0 {
        assert(h@.subrange(0, 0) =~= needle@);
        return Some(0);
    }
    let mut i: usize = 0;
    while i <= n - k
        invariant
            1 <= k <= n,
            n == h@.len(),
            k == needle@.len(),
            i <= n - k + 1,
            first_occurrence(h@, needle@, 0) == first_occurrence(h@, needle@, i as int),
        decreases n - k + 1 - i,
    {
        if range_equals(h, i, i + k, needle) {
            return Some(i);
        }
        i = i + 1;
    }
    None
}

fn contains_exec(h: &[u8], needle: &[u8]) -> (r: bool)
    ensures
        r == contains(h@, needle@),
{
    proof {
        lemma_first_occurrence_found(h@, needle@, 0);
    }
    match find_occurrence(h, needle) {
        Some(p) => true,
        None => {
            assert forall|k: int| !occurs_at(h@, k, needle@) by {
                if k >= 0 {
                    assert(!occurs_at(h@, k, needle@));
                }
            }
            false
        },
    }
}

fn count_byte_exec(s: &[u8], v: u8) -> (r: usize)
    ensures
        r == count_byte(s@, v),
{
    let mut i: usize = 0;
    let mut count: usize = 0;
    while i < s.len()
        invariant
            i <= s@.len(),
            count <= i,
            count == count_byte(s@.subrange(0, i as int), v),
        decreases s@.len() - i,
    {
        assert(s@.subrange(0, i + 1).drop_last() =~= s@.subrange(0, i as int));
        if s[i] == v {
            count = count + 1;
        }
        i = i + 1;
    }
    assert(s@.subrange(0, s@.len() as int) =~= s@);
    count
}

/// Chooses the handler for a request from its method and path.
pub fn route(method: RequestMethod, path: &[u8]) -> (r: Route)
    ensures
        r == route_spec(method, path@),
{
    match method {
        RequestMethod::Put | RequestMethod::Delete | RequestMethod::Head | RequestMethod::Options
        | RequestMethod::Connect | RequestMethod::Patch | RequestMethod::Trace => {
            return Route::NotImplemented;
        },
        _ => {},
    }
    let download = path.len() > 0 && path[0] == 47u8 && count_byte_exec(path, 47u8) == 2;
    if method == RequestMethod::Get && download {
        Route::Download
    } else if range_equals(path, 0, path.len(), upload_path_bytes()) {
        assert(path@.subrange(0, path@.len() as int) =~= path@);
        if method == RequestMethod::Post {
            Route::Upload
        } else {
            Route::MethodNotAllowed
        }
    } else {
        assert(path@.subrange(0, path@.len() as int) =~= path@);
        Route::NotFound
    }
}

/// Chooses how an upload body is read from its content type (`None` when
/// the request has none, or none that is text).
pub fn upload_kind(content_type: Option<&[u8]>) -> (r: UploadKind)
    ensures
        r == upload_kind_spec(
            match content_type {
                Some(t) => Some(t@),
                None => None,
            },
        ),
{
    match content_type {
        Some(t) => {
            if contains_exec(t, multipart_marker_bytes()) {
                UploadKind::Multipart
            } else if range_equals(t, 0, t.len(), urlencoded_type_bytes()) {
                assert(t@.subrange(0, t@.len() as int) =~= t@);
                UploadKind::UrlEncoded
            } else {
                assert(t@.subrange(0, t@.len() as int) =~= t@);
                UploadKind::Raw
            }
        },
        None => UploadKind::Raw,
    }
}

/// The boundary token of a multipart content type: what follows the first
/// `boundary=`, up to the next `;` or the end; `None` when there is no
/// `boundary=`.
pub fn extract_boundary(content_type: &[u8]) -> (r: Option<Vec<u8>>)
    ensures
        crate::headers::opt_bytes(r) == boundary_spec(content_type@),
{
    let key = boundary_key_bytes();
    let n = content_type.len();
    proof {
        lemma_first_occurrence_found(content_type@, key@, 0);
    }
    match find_occurrence(content_type, key) {
        Some(p) => {
            let v = p + key.len();
            proof {
                crate::headers::lemma_byte_from_bounds(content_type@, v as int, 59u8);
            }
            let end = match crate::headers::find_byte(content_type, v, 59u8) {
                Some(e) => e,
                None => content_type.len(),
            };
            Some(vstd::slice::slice_to_vec(&content_type[v..end]))
        },
        None => None,
    }
}

} // verus!
