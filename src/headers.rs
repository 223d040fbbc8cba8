//! Classification of one part header line.
//!
//! Recognised forms, all matched byte for byte:
//! - `Content-Disposition: form-data;` opens a part's description; its
//!   attributes ` name="..."` and ` filename="..."` are taken from it. The
//!   value is a run of bytes without `"`, closed by `"` and then `;` or CR LF.
//!   When an attribute occurs more than once, the last occurrence on the
//!   line, before any line feed, is taken.
//! - `Content-Type: ` introduces a media type, reported for diagnostics.
//! Anything else is left unclassified.

use vstd::prelude::*;
use vstd::string::is_ascii;

use crate::lines::{crlf, line_end_from};

verus! {

broadcast use vstd::string::is_ascii_spec_bytes;

/// The bytes of an ASCII text.
pub open spec fn ascii_bytes(s: Seq<char>) -> Seq<u8> {
    s.map_values(|c: char| c as u8)
}

pub open spec fn form_data_marker() -> Seq<u8> {
    ascii_bytes("Content-Disposition: form-data;"@)
}

/// Length of `Content-Disposition:`, where attribute search begins.
pub const DISPOSITION_LEN: usize = 20;

pub open spec fn name_key() -> Seq<u8> {
    ascii_bytes(" name=\""@)
}

pub open spec fn filename_key() -> Seq<u8> {
    ascii_bytes(" filename=\""@)
}

pub open spec fn content_type_prefix() -> Seq<u8> {
    ascii_bytes("Content-Type: "@)
}

pub open spec fn starts_with(l: Seq<u8>, p: Seq<u8>) -> bool {
    p.len() <= l.len() && l.subrange(0, p.len() as int) == p
}

/// The first position at or after `i` that holds `v`.
pub open spec fn byte_from(l: Seq<u8>, i: int, v: u8) -> Option<int>
    decreases l.len() - i,
{
    if i < 0 || i >= l.len() {
        None
    } else if l[i] == v {
        Some(i)
    } else {
        byte_from(l, i + 1, v)
    }
}

/// The quoted value of attribute `key` when it stands at position `p`:
/// `key`, a run of non-quote bytes, a closing quote, then `;` or CR LF.
pub open spec fn attr_value_at(l: Seq<u8>, p: int, key: Seq<u8>) -> Option<Seq<u8>> {
    let v = p + key.len();
    if 0 <= p && v <= l.len() && l.subrange(p, v) == key {
        match byte_from(l, v, 34u8) {
            Some(q) => if (q + 1 < l.len() && l[q + 1] == 59u8) || (q + 2 < l.len() && l[q + 1]
                == 13u8 && l[q + 2] == 10u8) {
                Some(l.subrange(v, q))
            } else {
                None
            },
            None => None,
        }
    } else {
        None
    }
}

/// The value of the rightmost occurrence of `key` at a position in
/// `[DISPOSITION_LEN, p]`.
pub open spec fn attr_search(l: Seq<u8>, key: Seq<u8>, p: int) -> Option<Seq<u8>>
    decreases p,
{
    if p < DISPOSITION_LEN {
        None
    } else if attr_value_at(l, p, key) is Some {
        attr_value_at(l, p, key)
    } else {
        attr_search(l, key, p - 1)
    }
}

/// Where attribute search stops: the first line feed after the
/// `Content-Disposition:` prefix, or the end of the line.
pub open spec fn search_limit(l: Seq<u8>) -> int {
    match byte_from(l, DISPOSITION_LEN as int, 10u8) {
        Some(n) => n,
        None => l.len() as int,
    }
}

pub open spec fn disposition_attr(l: Seq<u8>, key: Seq<u8>) -> Option<Seq<u8>> {
    attr_search(l, key, search_limit(l))
}

/// The media type after `Content-Type: `, up to the line terminator.
pub open spec fn content_type_value(l: Seq<u8>) -> Seq<u8> {
    let start = content_type_prefix().len() as int;
    match line_end_from(l, start) {
        Some(e) => l.subrange(start, e - 2),
        None => l.subrange(start, l.len() as int),
    }
}

pub struct HeaderModel {
    pub form_data: bool,
    pub name: Option<Seq<u8>>,
    pub filename: Option<Seq<u8>>,
    pub mime: Option<Seq<u8>>,
}

/// What a header line says.
pub open spec fn classify_spec(l: Seq<u8>) -> HeaderModel {
    if starts_with(l, form_data_marker()) {
        HeaderModel {
            form_data: true,
            name: disposition_attr(l, name_key()),
            filename: disposition_attr(l, filename_key()),
            mime: None,
        }
    } else if starts_with(l, content_type_prefix()) {
        HeaderModel { form_data: false, name: None, filename: None, mime: Some(content_type_value(l)) }
    } else {
        HeaderModel { form_data: false, name: None, filename: None, mime: None }
    }
}

pub open spec fn opt_bytes(o: Option<Vec<u8>>) -> Option<Seq<u8>> {
    match o {
        Some(v) => Some(v@),
        None => None,
    }
}

/// The result of classifying one header line.
pub struct HeaderInfo {
    /// The line opens a part's `form-data` description.
    pub form_data: bool,
    pub name: Option<Vec<u8>>,
    pub filename: Option<Vec<u8>>,
    pub mime: Option<Vec<u8>>,
}

impl HeaderInfo {
    pub open spec fn model(&self) -> HeaderModel {
        HeaderModel {
            form_data: self.form_data,
            name: opt_bytes(self.name),
            filename: opt_bytes(self.filename),
            mime: opt_bytes(self.mime),
        }
    }
}

fn form_data_marker_bytes() -> (r: &'static [u8])
    ensures
        r@ == form_data_marker(),
{
    let s = "Content-Disposition: form-data;";
    proof {
        reveal_strlit("Content-Disposition: form-data;");
    }
    assert(is_ascii(s));
    let r = s.as_bytes();
    assert(r@ =~= form_data_marker());
    r
}

fn name_key_bytes() -> (r: &'static [u8])
    ensures
        r@ == name_key(),
{
    let s = " name=\"";
    proof {
        reveal_strlit(" name=\"");
    }
    assert(is_ascii(s));
    let r = s.as_bytes();
    assert(r@ =~= name_key());
    r
}

fn filename_key_bytes() -> (r: &'static [u8])
    ensures
        r@ == filename_key(),
{
    let s = " filename=\"";
    proof {
        reveal_strlit(" filename=\"");
    }
    assert(is_ascii(s));
    let r = s.as_bytes();
    assert(r@ =~= filename_key());
    r
}

fn content_type_prefix_bytes() -> (r: &'static [u8])
    ensures
        r@ == content_type_prefix(),
{
    let s = "Content-Type: ";
    proof {
        reveal_strlit("Content-Type: ");
    }
    assert(is_ascii(s));
    let r = s.as_bytes();
    assert(r@ =~= content_type_prefix());
    r
}

/// The first position at or after `i` that holds `v`.
pub(crate) fn find_byte(l: &[u8], i: usize, v: u8) -> (r: Option<usize>)
    requires
        i <= l@.len(),
    ensures
        match r {
            Some(j) => byte_from(l@, i as int, v) == Some(j as int),
            None => byte_from(l@, i as int, v) is None,
        },
{
    let mut j: usize = i;
    while j < l.len()
        invariant
            i <= j <= l@.len(),
            byte_from(l@, i as int, v) == byte_from(l@, j as int, v),
        decreases l@.len() - j,
    {
        if l[j] == v {
            return Some(j);
        }
        j = j + 1;
    }
    None
}

fn starts_with_at(l: &[u8], p: usize, key: &[u8]) -> (r: bool)
    requires
        p <= l@.len(),
    ensures
        r == (p + key@.len() <= l@.len() && l@.subrange(p as int, p + key@.len()) == key@),
{
    if l.len() - p < key.len() {
        return false;
    }
    crate::lines::range_equals(l, p, p + key.len(), key)
}

fn attr_value_at_exec(l: &[u8], p: usize, key: &[u8]) -> (r: Option<Vec<u8>>)
    requires
        p <= l@.len(),
    ensures
        opt_bytes(r) == attr_value_at(l@, p as int, key@),
{
    let n = l.len();
    if !starts_with_at(l, p, key) {
        return None;
    }
    let v = p + key.len();
    proof {
        lemma_byte_from_bounds(l@, v as int, 34u8);
    }
    match find_byte(l, v, 34u8) {
        Some(q) => {
            let closed = (q + 1 < n && l[q + 1] == 59u8) || (n - q > 2 && l[q + 1]
                == 13u8 && l[q + 2] == 10u8);
            if closed {
                Some(vstd::slice::slice_to_vec(&l[v..q]))
            } else {
                None
            }
        },
        None => None,
    }
}

/// A position found by `byte_from` lies in the searched range.
pub proof fn lemma_byte_from_bounds(l: Seq<u8>, i: int, v: u8)
    ensures
        byte_from(l, i, v) matches Some(j) ==> 0 <= i <= j < l.len() && l[j] == v,
    decreases l.len() - i,
{
    if 0 <= i < l.len() && l[i] != v {
        lemma_byte_from_bounds(l, i + 1, v);
    }
}

/// The value of the rightmost attribute `key` after the
/// `Content-Disposition:` prefix and before any line feed.
fn disposition_attr_exec(l: &[u8], key: &[u8]) -> (r: Option<Vec<u8>>)
    requires
        DISPOSITION_LEN <= l@.len(),
    ensures
        opt_bytes(r) == disposition_attr(l@, key@),
{
    let limit = match find_byte(l, DISPOSITION_LEN, 10u8) {
        Some(n) => n,
        None => l.len(),
    };
    proof {
        lemma_byte_from_bounds(l@, DISPOSITION_LEN as int, 10u8);
    }
    let mut p: usize = limit;
    loop
        invariant
            DISPOSITION_LEN <= p <= limit <= l@.len(),
            disposition_attr(l@, key@) == attr_search(l@, key@, p as int),
        decreases p,
    {
        let found = attr_value_at_exec(l, p, key);
        if found.is_some() {
            return found;
        }
        if p == DISPOSITION_LEN {
            assert(attr_search(l@, key@, p - 1) is None);
            return None;
        }
        p = p - 1;
    }
}

/// Classifies one header line.
pub fn classify_header(line: &[u8]) -> (r: HeaderInfo)
    ensures
        r.model() == classify_spec(line@),
{
    proof {
        reveal_strlit("Content-Disposition: form-data;");
        crate::lines::lemma_line_end_bounds(line@, content_type_prefix().len() as int);
    }
    if starts_with_at(line, 0, form_data_marker_bytes()) {
        assert(form_data_marker().len() == 31);
        let name = disposition_attr_exec(line, name_key_bytes());
        let filename = disposition_attr_exec(line, filename_key_bytes());
        HeaderInfo { form_data: true, name, filename, mime: None }
    } else if starts_with_at(line, 0, content_type_prefix_bytes()) {
        let start = content_type_prefix_bytes().len();
        let end = match crate::lines::find_line_end(line, start) {
            Some(e) => e - 2,
            None => line.len(),
        };
        let mime = vstd::slice::slice_to_vec(&line[start..end]);
        HeaderInfo { form_data: false, name: None, filename: None, mime: Some(mime) }
    } else {
        HeaderInfo { form_data: false, name: None, filename: None, mime: None }
    }
}

} // verus!
