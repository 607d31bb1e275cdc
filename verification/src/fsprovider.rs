//! The file-access capability the engine is parameterized over.
//!
//! Implementations supply real file access, an in-memory map, or a test
//! double. The engine makes no assumption about their behavior: every
//! result is handled, and a failed read of a referenced document is a
//! warning, never an abort.

use vstd::prelude::*;

verus! {

/// Abstract file access: reading, existence tests and path arithmetic.
pub trait FileProvider {
    /// UTF-8 contents of the file, or an error message.
    fn read_to_string(&self, path: &str) -> Result<String, String>;

    /// Whether a path exists (file or directory).
    fn path_exists(&self, path: &str) -> bool;

    /// Whether a path refers to a file rather than a directory.
    fn is_file(&self, path: &str) -> bool;

    /// A parent path and a relative segment joined into one path.
    fn join(&self, parent: &str, rel: &str) -> String;

    /// The lowercased extension of the basename, without its dot.
    fn extension_lowercase(&self, path: &str) -> Option<String>;

    /// The directory portion, without a trailing slash; empty for the root.
    fn parent(&self, path: &str) -> Option<String>;

    /// The file name without directories.
    fn file_name(&self, path: &str) -> Option<String>;

    /// A deterministic display form of a path, used for output naming.
    fn canonical_display(&self, path: &str) -> String {
        path.to_owned()
    }
}

} // verus!
