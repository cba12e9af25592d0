//! Conversion of plain graph-data files into the triple format the store
//! builder consumes: the decisions (which parser a file gets, what the
//! stats of a run look like); the reading and writing around them belongs
//! to the caller that owns the files.

use vstd::prelude::*;

use crate::negotiate::RdfFormatKind;
use crate::sparql::{extension_part, file_part, has_extension};

verus! {

/// Stats of one conversion run: how many files converted, and which inputs
/// no parser could be found for.
#[derive(Debug)]
pub struct ConvertResult {
    pub converted: i32,
    pub unhandled: Vec<String>,
}

impl Default for ConvertResult {
    /// A fresh run: nothing converted, nothing unhandled.
    fn default() -> (r: ConvertResult)
        ensures
            r.converted == 0,
            r.unhandled@.len() == 0,
    {
        ConvertResult { converted: 0, unhandled: Vec::new() }
    }
}

/// The converter backed by the RDF parsing crates; the trait it implements
/// lives with the file-handling caller.
pub struct OxRdfConvert {}

/// The parser a file extension selects.
pub open spec fn spec_format_for_extension(ext: Seq<char>) -> Option<RdfFormatKind> {
    if ext == "json"@ || ext == "jsonld"@ {
        Some(RdfFormatKind::JsonLd)
    } else if ext == "n3"@ {
        Some(RdfFormatKind::N3)
    } else if ext == "nq"@ {
        Some(RdfFormatKind::NQuads)
    } else if ext == "nt"@ || ext == "txt"@ {
        Some(RdfFormatKind::NTriples)
    } else if ext == "rdf"@ || ext == "xml"@ {
        Some(RdfFormatKind::RdfXml)
    } else if ext == "trig"@ {
        Some(RdfFormatKind::TriG)
    } else if ext == "ttl"@ {
        Some(RdfFormatKind::Turtle)
    } else {
        None
    }
}

/// The parser an input file gets: by its extension, with one fallback — a
/// `.owl` file is read as RDF/XML; anything else has no parser.
pub open spec fn spec_format_for_input(path: Seq<char>) -> Option<RdfFormatKind> {
    let f = file_part(path);
    if has_extension(f) && spec_format_for_extension(extension_part(f)) is Some {
        spec_format_for_extension(extension_part(f))
    } else if path.len() >= 4 && path.subrange(path.len() - 4, path.len() as int) == ".owl"@ {
        Some(RdfFormatKind::RdfXml)
    } else {
        None
    }
}

/// Whether two strings are equal.
pub(crate) fn str_eq(a: &str, b: &str) -> (r: bool)
    ensures
        r == (a@ == b@),
{
    let n = a.unicode_len();
    let m = b.unicode_len();
    if n != m {
        proof {
            assert(a@ != b@);
        }
        return false;
    }
    let mut i: usize = 0;
    while i < n
        invariant
            0 <= i <= n,
            n == a@.len(),
            n == b@.len(),
            forall|j: int| 0 <= j < i ==> a@[j] == b@[j],
        decreases n - i,
    {
        if a.get_char(i) != b.get_char(i) {
            return false;
        }
        i = i + 1;
    }
    proof {
        assert(a@ =~= b@);
    }
    true
}

/// Decides the parser for an input file, as [`spec_format_for_input`]
/// describes; a file nobody can parse is reported unhandled by the caller.
pub fn format_for_input(path: &String) -> (r: Option<RdfFormatKind>)
    ensures
        r == spec_format_for_input(path@),
{
    let by_ext = match crate::sparql::extension_of(path) {
        Some(ext) => {
            let e = ext.as_str();
            if str_eq(e, "json") || str_eq(e, "jsonld") {
                Some(RdfFormatKind::JsonLd)
            } else if str_eq(e, "n3") {
                Some(RdfFormatKind::N3)
            } else if str_eq(e, "nq") {
                Some(RdfFormatKind::NQuads)
            } else if str_eq(e, "nt") || str_eq(e, "txt") {
                Some(RdfFormatKind::NTriples)
            } else if str_eq(e, "rdf") || str_eq(e, "xml") {
                Some(RdfFormatKind::RdfXml)
            } else if str_eq(e, "trig") {
                Some(RdfFormatKind::TriG)
            } else if str_eq(e, "ttl") {
                Some(RdfFormatKind::Turtle)
            } else {
                None
            }
        },
        None => None,
    };
    match by_ext {
        Some(f) => Some(f),
        None => {
            let ps = path.as_str();
            let n = ps.unicode_len();
            if n >= 4 {
                let tail = ps.substring_char(n - 4, n);
                proof {
                    assert(tail@ =~= path@.subrange(path@.len() - 4, path@.len() as int));
                }
                if str_eq(tail, ".owl") {
                    return Some(RdfFormatKind::RdfXml);
                }
            }
            None
        },
    }
}

} // verus!
