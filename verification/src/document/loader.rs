//! Checks made when a document is loaded from a file.
use vstd::prelude::*;

use crate::document::document::Document;
use crate::error::{Result, TinyError};
use crate::text::{ascii_lower, chars_of, push_str, string_of, to_ascii_lowercase, trim, trim_range};

verus! {

/// `Path::extension` of `path`, as text.
pub uninterp spec fn path_extension(path: Seq<char>) -> Option<Seq<char>>;

/// `std::path::Path::extension`: the part of the file name after its last
/// `.`, if the name has one that does not start it. The path rules are not
/// restated; the result is named.
#[verifier::external_body]
fn extension_of(path: &str) -> (r: Option<String>)
    ensures
        r is Some <==> path_extension(path@) is Some,
        r matches Some(e) ==> path_extension(path@) == Some(e@),
{
    std::path::Path::new(path).extension().map(|e| e.to_string_lossy().into_owned())
}

/// Whether a file extension names a supported format: `txt` or `md` in any ASCII case.
pub open spec fn supported_extension(extension: Seq<char>) -> bool {
    let lower = extension.map_values(|c: char| ascii_lower(c));
    lower == "txt"@ || lower == "md"@
}

/// The message refusing the extension `extension`, named in lower case.
pub open spec fn unsupported_extension_text(extension: Seq<char>) -> Seq<char> {
    "unsupported document format `."@ + extension.map_values(|c: char| ascii_lower(c))
        + "`: supported formats are .txt and .md"@
}

/// Checks a file extension: `txt` and `md`, in any ASCII case, are accepted;
/// another extension, or none, is refused.
pub fn check_extension(extension: Option<&str>) -> (r: Result<()>)
    ensures
        r is Ok <==> (extension matches Some(e) && supported_extension(e@)),
        r matches Err(e) ==> e matches TinyError::InvalidArgument(m) && m@ == match extension {
            Some(x) => unsupported_extension_text(x@),
            None => "document has no file extension"@,
        },
{
    match extension {
        None => Err(TinyError::InvalidArgument("document has no file extension".to_string())),
        Some(ext) => {
            let chars = chars_of(ext);
            let mut lower: Vec<char> = Vec::new();
            let mut i: usize = 0;
            while i < chars.len()
                invariant
                    0 <= i <= chars@.len(),
                    lower@ == chars@.take(i as int).map_values(|c: char| ascii_lower(c)),
                decreases chars@.len() - i,
            {
                lower.push(to_ascii_lowercase(chars[i]));
                i = i + 1;
                assert(lower@ =~= chars@.take(i as int).map_values(|c: char| ascii_lower(c)));
            }
            assert(chars@.take(chars@.len() as int) =~= chars@);
            let txt = chars_of("txt");
            let md = chars_of("md");
            let n = lower.len();
            assert(lower@.subrange(0, n as int) =~= lower@);
            if crate::text::range_eq(&lower, 0, n, &txt) || crate::text::range_eq(&lower, 0, n, &md) {
                Ok(())
            } else {
                let mut message = "unsupported document format `.".to_string();
                let lowered = string_of(&lower, 0, n);
                push_str(&mut message, lowered.as_str());
                push_str(&mut message, "`: supported formats are .txt and .md");
                Err(TinyError::InvalidArgument(message))
            }
        },
    }
}

/// Checks the extension of a document's path, as [`check_extension`] does;
/// a path without one is named in the message.
pub fn validate_extension(path: &str) -> (r: Result<()>)
    ensures
        r is Ok <==> (path_extension(path@) matches Some(e) && supported_extension(e)),
        r matches Err(e) ==> e matches TinyError::InvalidArgument(m) && m@ == match path_extension(path@) {
            Some(x) => unsupported_extension_text(x),
            None => "document has no file extension: "@ + path@,
        },
{
    match extension_of(path) {
        Some(e) => check_extension(Some(e.as_str())),
        None => {
            let mut message = "document has no file extension: ".to_string();
            push_str(&mut message, path);
            Err(TinyError::InvalidArgument(message))
        },
    }
}

/// The document read from `source` with text `text`; a text that is empty
/// or white space only is refused.
pub fn document_from_text(source: &str, text: &str) -> (r: Result<Document>)
    ensures
        r is Ok <==> trim(text@).len() > 0,
        r matches Ok(d) ==> d.spec_source() == source@ && d.spec_text() == text@,
        r matches Err(e) ==> e matches TinyError::InvalidArgument(m) && m@ == "document is empty: "@ + source@,
{
    let chars = chars_of(text);
    let n = chars.len();
    assert(chars@.subrange(0, n as int) =~= chars@);
    let (a, b) = trim_range(&chars, 0, n);
    if a == b {
        let mut message = "document is empty: ".to_string();
        push_str(&mut message, source);
        return Err(TinyError::InvalidArgument(message));
    }
    Ok(Document::new(source, text))
}

} // verus!
