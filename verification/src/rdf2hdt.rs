//! The boundary over store-file builders: a trait that conversion backends
//! implement, and the backend the server uses, which never converts.

use vstd::prelude::*;

use crate::errors::StoreError;
use crate::sparql::{extension_part, file_part, has_extension, path_is_file};

verus! {

/// A converter from a plain triple file to a native store file; backends
/// implement this for the callers that materialize graphs.
pub trait Rdf2Hdt {
    /// Converts the triples in `source` into a store file at `dest`.
    fn convert(&self, source: &String, dest: &String) -> Result<(), StoreError>;
}

/// The backend handed to the server, which is never expected to convert: a
/// native store file passes through untouched, anything else is refused.
pub struct NoopRdf2Hdt();

impl NoopRdf2Hdt {
    /// Accepts exactly a source that probes as a regular file and carries
    /// the native store extension; anything else is refused as
    /// [`StoreError::UnsupportedFormat`]. Nothing is read, written or
    /// converted either way.
    pub fn check_native(&self, source: &String) -> (r: Result<(), StoreError>)
        ensures
            r is Ok ==> has_extension(file_part(source@)) && extension_part(file_part(source@))
                == "hdt"@,
            !(has_extension(file_part(source@)) && extension_part(file_part(source@))
                == "hdt"@) ==> r is Err,
            r matches Err(e) ==> e is UnsupportedFormat,
    {
        let is_native = if path_is_file(source) {
            match crate::sparql::extension_of(source) {
                Some(ext) => ext == String::from_str("hdt"),
                None => false,
            }
        } else {
            false
        };
        if is_native {
            Ok(())
        } else {
            Err(StoreError::UnsupportedFormat(String::from_str("rdf2hdt is not implemented")))
        }
    }
}

impl Rdf2Hdt for NoopRdf2Hdt {
    fn convert(&self, source: &String, _dest: &String) -> Result<(), StoreError> {
        self.check_native(source)
    }
}

} // verus!
