//! The decisions of the clipboard monitors and of the clipboard writer:
//! which MIME type to read, when content counts as new, and what exactly
//! is written back for a stored clip.
use vstd::prelude::*;
use vstd::utf8::{decode_utf8, encode_utf8, valid_utf8};
use crate::clips::ClipboardEvent;
use crate::clips_ui::{file_uri, file_uri_of};
use crate::textutil::{chars_are, chars_of, chars_start_with, from_utf8, push_str, string_of};

verus! {

/// SHA-256 digest of a clip's content.
pub type ContentHash = [u8; 32];

/// The SHA-256 digest of `data`.
pub uninterp spec fn sha256(data: Seq<u8>) -> Seq<u8>;

/// `sha2::Sha256::digest`. The contract names the 32-byte result.
#[verifier::external_body]
pub(crate) fn sha256_digest(data: &[u8]) -> (h: [u8; 32])
    ensures
        h@ == sha256(data@),
{
    <sha2::Sha256 as sha2::Digest>::digest(data).into()
}

/// Hash used to recognise content the daemon has already seen.
pub fn content_hash(data: &[u8]) -> (h: ContentHash)
    ensures
        h@ == sha256(data@),
{
    sha256_digest(data)
}

/// Whether content hashing to `h` differs from the last content seen.
pub fn is_new_content(last: &Option<ContentHash>, h: &ContentHash) -> (b: bool)
    ensures
        b == !(match last {
            Some(l) => l@ == h@,
            None => false,
        }),
{
    match last {
        None => true,
        Some(l) => {
            let mut i: usize = 0;
            while i < 32
                invariant
                    i <= 32,
                    *last == Some(*l),
                    l@.len() == 32,
                    h@.len() == 32,
                    forall|k: int| 0 <= k < i ==> l@[k] == h@[k],
                decreases 32 - i,
            {
                if l[i] != h[i] {
                    assert(l@[i as int] != h@[i as int]);
                    return true;
                }
                i = i + 1;
            }
            assert(l@ =~= h@);
            false
        },
    }
}

// ---------------------------------------------------------------------
// Writer.
// ---------------------------------------------------------------------

/// Errors of the clipboard writer.
#[derive(Debug)]
pub enum Error {
    Init(String),
    X11(String),
    Wayland(String),
    InvalidUtf8,
    NoBackend,
}

/// The text shown for an `Error`.
pub open spec fn error_text(e: Error) -> Seq<char> {
    match e {
        Error::Init(s) => "clipboard init: "@ + s@,
        Error::X11(s) => "x11 clipboard: "@ + s@,
        Error::Wayland(s) => "wayland clipboard: "@ + s@,
        Error::InvalidUtf8 => "invalid utf-8 in file-path clip"@,
        Error::NoBackend => "clipboard writer disabled"@,
    }
}

impl Error {
    /// Human-readable description.
    pub fn message(&self) -> (r: String)
        ensures
            r@ == error_text(*self),
    {
        let mut out: Vec<char> = Vec::new();
        match self {
            Error::Init(s) => {
                push_str(&mut out, "clipboard init: ");
                push_str(&mut out, s.as_str());
            },
            Error::X11(s) => {
                push_str(&mut out, "x11 clipboard: ");
                push_str(&mut out, s.as_str());
            },
            Error::Wayland(s) => {
                push_str(&mut out, "wayland clipboard: ");
                push_str(&mut out, s.as_str());
            },
            Error::InvalidUtf8 => {
                push_str(&mut out, "invalid utf-8 in file-path clip");
            },
            Error::NoBackend => {
                push_str(&mut out, "clipboard writer disabled");
            },
        }
        string_of(&out)
    }
}

/// A `file://` URI for a file clip: `Ok` exactly when the bytes are UTF-8.
pub fn to_file_uri(bytes: &[u8]) -> (r: Result<String, Error>)
    ensures
        r is Ok <==> valid_utf8(bytes@),
        r matches Ok(u) ==> u@ == file_uri(decode_utf8(bytes@)),
        r matches Err(e) ==> e is InvalidUtf8,
{
    match from_utf8(bytes) {
        Some(t) => Ok(file_uri_of(&chars_of(t))),
        None => Err(Error::InvalidUtf8),
    }
}

/// Where written bytes go: the plain-text target (`UTF8_STRING` on X11,
/// `MimeType::Text` on Wayland) or a specific MIME type.
#[derive(Debug, PartialEq, Eq)]
pub enum WriteTarget {
    Text,
    Mime(String),
}

fn bytes_of(s: &str) -> (v: Vec<u8>)
    ensures
        v@ == encode_utf8(s@),
{
    let b = s.as_bytes();
    let mut v: Vec<u8> = Vec::new();
    let mut i: usize = 0;
    while i < b.len()
        invariant
            i <= b@.len(),
            v@ == b@.take(i as int),
        decreases b.len() - i,
    {
        v.push(b[i]);
        i = i + 1;
        assert(b@.take(i as int) == b@.take((i - 1) as int).push(b@[i - 1]));
    }
    assert(b@.take(b@.len() as int) =~= b@);
    v
}

fn copy_bytes(b: &[u8]) -> (v: Vec<u8>)
    ensures
        v@ == b@,
{
    let mut v: Vec<u8> = Vec::new();
    let mut i: usize = 0;
    while i < b.len()
        invariant
            i <= b@.len(),
            v@ == b@.take(i as int),
        decreases b.len() - i,
    {
        v.push(b[i]);
        i = i + 1;
        assert(b@.take(i as int) == b@.take((i - 1) as int).push(b@[i - 1]));
    }
    assert(b@.take(b@.len() as int) =~= b@);
    v
}

/// What the writer puts on the clipboard for a clip: text variants collapse
/// to plain text, a file clip becomes a `text/uri-list` holding its URI,
/// anything else keeps its MIME type and bytes.
pub fn write_payload(content: &[u8], mime: &str) -> (r: Result<(WriteTarget, Vec<u8>), Error>)
    ensures
        (mime@ == "text/plain"@ || mime@ == "text/html"@ || mime@ == "text/markdown"@) ==> (r
            matches Ok((t, b)) && t is Text && b@ == content@),
        mime@ == "application/file"@ ==> match r {
            Ok((t, b)) => valid_utf8(content@) && (t matches WriteTarget::Mime(m) && m@
                == "text/uri-list"@) && b@ == encode_utf8(file_uri(decode_utf8(content@))),
            Err(e) => !valid_utf8(content@) && e is InvalidUtf8,
        },
        !(mime@ == "text/plain"@ || mime@ == "text/html"@ || mime@ == "text/markdown"@ || mime@
            == "application/file"@) ==> (r matches Ok((t, b)) && (t matches WriteTarget::Mime(m)
            && m@ == mime@) && b@ == content@),
{
    proof {
        reveal_strlit("text/plain");
        reveal_strlit("text/html");
        reveal_strlit("text/markdown");
        reveal_strlit("application/file");
        assert("application/file"@.len() != "text/plain"@.len());
        assert("application/file"@.len() != "text/html"@.len());
        assert("application/file"@.len() != "text/markdown"@.len());
    }
    let m = chars_of(mime);
    if chars_are(&m, "text/plain") || chars_are(&m, "text/html") || chars_are(&m, "text/markdown") {
        Ok((WriteTarget::Text, copy_bytes(content)))
    } else if chars_are(&m, "application/file") {
        match to_file_uri(content) {
            Ok(u) => Ok((WriteTarget::Mime(String::from_str("text/uri-list")), bytes_of(u.as_str()))),
            Err(e) => Err(e),
        }
    } else {
        Ok((WriteTarget::Mime(String::from_str(mime)), copy_bytes(content)))
    }
}

// ---------------------------------------------------------------------
// Monitors.
// ---------------------------------------------------------------------

/// MIME type priority of the Wayland monitor — highest priority first.
pub open spec fn mime_priority() -> Seq<Seq<char>> {
    seq![
        "text/html"@,
        "text/markdown"@,
        "image/png"@,
        "image/jpeg"@,
        "application/octet-stream"@,
        "text/plain"@,
    ]
}

/// The views of a list of strings.
pub open spec fn string_views(v: Seq<String>) -> Seq<Seq<char>> {
    v.map_values(|s: String| s@)
}

/// The MIME type read from a clipboard offering `types`: the first entry
/// of the priority list on offer, else the first offered `text/` type.
pub open spec fn chosen_mime(types: Seq<Seq<char>>) -> Option<Seq<char>> {
    if exists|k: int| 0 <= k < 6 && types.contains(#[trigger] mime_priority()[k]) {
        let k = choose|k: int|
            0 <= k < 6 && types.contains(#[trigger] mime_priority()[k]) && forall|j: int|
                0 <= j < k ==> !types.contains(#[trigger] mime_priority()[j]);
        Some(mime_priority()[k])
    } else if exists|k: int| 0 <= k < types.len() && "text/"@.is_prefix_of(#[trigger] types[k]) {
        let k = choose|k: int|
            0 <= k < types.len() && "text/"@.is_prefix_of(#[trigger] types[k]) && forall|j: int|
                0 <= j < k ==> !"text/"@.is_prefix_of(#[trigger] types[j]);
        Some(types[k])
    } else {
        None
    }
}

fn offers(types: &[String], m: &str) -> (b: bool)
    ensures
        b == string_views(types@).contains(m@),
{
    let mut i: usize = 0;
    while i < types.len()
        invariant
            i <= types@.len(),
            forall|k: int| 0 <= k < i ==> types@[k]@ != m@,
        decreases types.len() - i,
    {
        if str_equals(types[i].as_str(), m) {
            assert(string_views(types@)[i as int] == m@);
            return true;
        }
        i = i + 1;
    }
    assert forall|k: int| 0 <= k < string_views(types@).len() implies string_views(types@)[k] != m@ by {
        assert(types@[k]@ != m@);
    }
    false
}

fn str_equals(a: &str, b: &str) -> (r: bool)
    ensures
        r == (a@ == b@),
{
    let v = chars_of(a);
    chars_are(&v, b)
}

/// Which MIME type to read from a clipboard offering `types`.
pub fn choose_mime(types: &[String]) -> (r: Option<String>)
    ensures
        match r {
            Some(m) => chosen_mime(string_views(types@)) == Some(m@),
            None => chosen_mime(string_views(types@)) is None,
        },
{
    let ghost tv = string_views(types@);
    let ghost pr = mime_priority();
    proof {
        reveal_strlit("text/html");
        reveal_strlit("text/markdown");
        reveal_strlit("image/png");
        reveal_strlit("image/jpeg");
        reveal_strlit("application/octet-stream");
        reveal_strlit("text/plain");
    }
    if offers(types, "text/html") {
        assert(tv.contains(pr[0]));
        return Some(String::from_str("text/html"));
    }
    if offers(types, "text/markdown") {
        assert(tv.contains(pr[1]));
        return Some(String::from_str("text/markdown"));
    }
    if offers(types, "image/png") {
        assert(tv.contains(pr[2]));
        return Some(String::from_str("image/png"));
    }
    if offers(types, "image/jpeg") {
        assert(tv.contains(pr[3]));
        return Some(String::from_str("image/jpeg"));
    }
    if offers(types, "application/octet-stream") {
        assert(tv.contains(pr[4]));
        return Some(String::from_str("application/octet-stream"));
    }
    if offers(types, "text/plain") {
        assert(tv.contains(pr[5]));
        return Some(String::from_str("text/plain"));
    }
    assert(!exists|k: int| 0 <= k < 6 && tv.contains(#[trigger] pr[k]));
    let mut i: usize = 0;
    while i < types.len()
        invariant
            i <= types@.len(),
            tv == string_views(types@),
            pr == mime_priority(),
            !exists|k: int| 0 <= k < 6 && tv.contains(#[trigger] pr[k]),
            forall|j: int| 0 <= j < i ==> !"text/"@.is_prefix_of(#[trigger] tv[j]),
        decreases types.len() - i,
    {
        if str_starts(types[i].as_str(), "text/") {
            assert(tv[i as int] == types@[i as int]@);
            proof {
                let w = i as int;
                assert(0 <= w < tv.len() && "text/"@.is_prefix_of(tv[w]));
                let k = choose|k: int|
                    0 <= k < tv.len() && "text/"@.is_prefix_of(#[trigger] tv[k]) && forall|j: int|
                        0 <= j < k ==> !"text/"@.is_prefix_of(#[trigger] tv[j]);
                assert(k == w);
            }
            return Some(types[i].clone());
        }
        assert(tv[i as int] == types@[i as int]@);
        i = i + 1;
    }
    None
}

fn str_starts(a: &str, p: &str) -> (r: bool)
    ensures
        r == p@.is_prefix_of(a@),
{
    let v = chars_of(a);
    chars_start_with(&v, p)
}

/// The content type a read MIME type is stored under: raw octet streams
/// are file references.
pub open spec fn stored_type(mime: Seq<char>) -> Seq<char> {
    if mime == "application/octet-stream"@ {
        "application/file"@
    } else {
        mime
    }
}

/// The clipboard event for content read under `mime`; `None` for empty
/// content.
pub fn read_event(content: Vec<u8>, mime: &str) -> (r: Option<ClipboardEvent>)
    ensures
        content@.len() == 0 ==> r is None,
        content@.len() > 0 ==> (r matches Some(e) && e.content@ == content@ && e.content_type@
            == stored_type(mime@) && e.source_app is None),
{
    if content.len() == 0 {
        return None;
    }
    let m = chars_of(mime);
    let content_type = if chars_are(&m, "application/octet-stream") {
        String::from_str("application/file")
    } else {
        String::from_str(mime)
    };
    Some(ClipboardEvent { content, content_type, source_app: None })
}

} // verus!
