use vstd::prelude::*;

use crate::text::{chars_equal, chars_of};

verus! {

/// The four bytes that close a header block: `\r\n\r\n`.
pub open spec fn is_terminator_at(buf: Seq<u8>, i: int) -> bool {
    &&& 0 <= i
    &&& i + 4 <= buf.len()
    &&& buf[i] == 13u8
    &&& buf[i + 1] == 10u8
    &&& buf[i + 2] == 13u8
    &&& buf[i + 3] == 10u8
}

/// No terminator starts before position `n`.
pub open spec fn no_terminator_before(buf: Seq<u8>, n: int) -> bool {
    forall|j: int| 0 <= j < n ==> !#[trigger] is_terminator_at(buf, j)
}

/// Finds the end of the header block: the offset just past the first `\r\n\r\n`.
pub fn find_headers_end(buffer: &[u8]) -> (r: Option<usize>)
    ensures
        match r {
            Some(end) => {
                &&& end >= 4
                &&& is_terminator_at(buffer@, end - 4)
                &&& no_terminator_before(buffer@, end - 4)
            },
            None => forall|i: int| !#[trigger] is_terminator_at(buffer@, i),
        },
{
    let n = buffer.len();
    let mut i: usize = 0;
    while n >= 4 && i <= n - 4
        invariant
            n == buffer@.len(),
            i <= n,
            no_terminator_before(buffer@, i as int),
        decreases n - i,
    {
        if buffer[i] == 13u8 && buffer[i + 1] == 10u8 && buffer[i + 2] == 13u8 && buffer[i + 3] == 10u8 {
            return Some(i + 4);
        }
        i = i + 1;
    }
    None
}

/// What `std::path::Path::extension` gives for a path, as text.
pub uninterp spec fn extension_of(path: Seq<char>) -> Option<Seq<char>>;

/// What `str::to_lowercase` gives.
pub uninterp spec fn lower_of(s: Seq<char>) -> Seq<char>;

/// Relies on `std::path::Path::extension`, read back as UTF-8 text: the extension of the
/// path's last component, which depends on the path alone.
#[verifier::external_body]
fn path_extension(path: &str) -> (r: Option<String>)
    ensures
        match r {
            Some(e) => extension_of(path@) == Some(e@),
            None => extension_of(path@) is None,
        },
{
    std::path::Path::new(path).extension().and_then(|e| e.to_str()).map(|e| e.to_owned())
}

/// Relies on `str::to_lowercase`: the result depends on the characters alone, and the
/// empty string stays empty.
#[verifier::external_body]
fn lowercase(s: &str) -> (r: String)
    ensures
        r@ == lower_of(s@),
        s@.len() == 0 ==> r@.len() == 0,
{
    s.to_lowercase()
}

/// The media type served for a lower-case file extension.
pub open spec fn content_type_of(ext: Seq<char>) -> Seq<char> {
    if ext == "html"@ || ext == "htm"@ {
        "text/html"@
    } else if ext == "css"@ {
        "text/css"@
    } else if ext == "js"@ {
        "application/javascript"@
    } else if ext == "jpg"@ || ext == "jpeg"@ {
        "image/jpeg"@
    } else if ext == "png"@ {
        "image/png"@
    } else if ext == "gif"@ {
        "image/gif"@
    } else if ext == "svg"@ {
        "image/svg+xml"@
    } else if ext == "ico"@ {
        "image/x-icon"@
    } else if ext == "json"@ {
        "application/json"@
    } else if ext == "pdf"@ {
        "application/pdf"@
    } else if ext == "txt"@ {
        "text/plain"@
    } else if ext == "xml"@ {
        "application/xml"@
    } else {
        "application/octet-stream"@
    }
}

/// The media type served for a lower-case file extension, as `content_type_of` says.
pub fn content_type_for(ext: &str) -> (r: &'static str)
    ensures
        r@ == content_type_of(ext@),
{
    let c = chars_of(ext);
    let e = c.as_slice();
    if chars_equal(e, "html") || chars_equal(e, "htm") {
        "text/html"
    } else if chars_equal(e, "css") {
        "text/css"
    } else if chars_equal(e, "js") {
        "application/javascript"
    } else if chars_equal(e, "jpg") || chars_equal(e, "jpeg") {
        "image/jpeg"
    } else if chars_equal(e, "png") {
        "image/png"
    } else if chars_equal(e, "gif") {
        "image/gif"
    } else if chars_equal(e, "svg") {
        "image/svg+xml"
    } else if chars_equal(e, "ico") {
        "image/x-icon"
    } else if chars_equal(e, "json") {
        "application/json"
    } else if chars_equal(e, "pdf") {
        "application/pdf"
    } else if chars_equal(e, "txt") {
        "text/plain"
    } else if chars_equal(e, "xml") {
        "application/xml"
    } else {
        "application/octet-stream"
    }
}

/// The media type served for a file path: by its extension, compared without case; a path
/// without an extension is served as `application/octet-stream`.
pub fn get_content_type(path: &str) -> (r: &'static str)
    ensures
        r@ == content_type_of(
            lower_of(
                match extension_of(path@) {
                    Some(e) => e,
                    None => Seq::empty(),
                },
            ),
        ),
{
    let ext = match path_extension(path) {
        Some(e) => e,
        None => String::new(),
    };
    let lower = lowercase(ext.as_str());
    content_type_for(lower.as_str())
}

} // verus!
