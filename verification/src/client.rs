//! Client-side data types around the signing workflow: builder and
//! signer handles that carry file paths, the custom metadata embedded
//! in assertions, file selection by extension, and the host-visible
//! application state.

use vstd::prelude::*;
use vstd::string::StringSliceAdditionalSpecFns;

verus! {

/// Custom metadata embedded in a capture assertion.
#[derive(Debug, Clone)]
pub struct CustomInfo {
    pub author: String,
    pub location: Option<String>,
    pub comment: Option<String>,
}

/// Builds assertion documents; carries the paths it reads and writes.
#[derive(Debug, Default)]
pub struct AssertionBuilder {
    input_file_path: String,
    output_file_path: String,
}

impl View for AssertionBuilder {
    type V = (Seq<char>, Seq<char>);

    closed spec fn view(&self) -> (Seq<char>, Seq<char>) {
        (self.input_file_path@, self.output_file_path@)
    }
}

impl AssertionBuilder {
    pub fn new(cert_path: String, key_path: String) -> (b: Self)
        ensures
            b@ == (cert_path@, key_path@),
    {
        Self { input_file_path: cert_path, output_file_path: key_path }
    }
}

/// Signs media files with a full capture assertion; carries the paths
/// it works between.
#[derive(Debug, Default)]
pub struct C2paSignerMaster {
    input_file_path: String,
    output_file_path: String,
}

impl View for C2paSignerMaster {
    type V = (Seq<char>, Seq<char>);

    closed spec fn view(&self) -> (Seq<char>, Seq<char>) {
        (self.input_file_path@, self.output_file_path@)
    }
}

/// The application state the host runtime shares with the library.
#[derive(Debug)]
pub struct AppState {
    pub counter: u64,
}

impl AppState {
    /// Counts one more host call.
    pub fn increment(&mut self)
        requires
            old(self).counter < u64::MAX,
        ensures
            final(self).counter == old(self).counter + 1,
    {
        self.counter = self.counter + 1;
    }
}

/// The UTF-8 bytes of `name` end in a dot followed by the bytes of
/// `ext`, with a non-empty stem before the dot.
pub open spec fn name_has_extension(name: Seq<u8>, ext: Seq<u8>) -> bool {
    &&& name.len() > ext.len() + 1
    &&& name.subrange(name.len() - ext.len(), name.len() as int) == ext
    &&& name[name.len() - ext.len() - 1] == 0x2e
}

/// Selects files by name.
pub struct FileManager;

impl FileManager {
    /// Does the file name end in `.` followed by the extension (the
    /// extension written without the dot), with a non-empty stem?
    pub fn has_extension(&self, name: &str, extension: &str) -> (r: bool)
        ensures
            r == name_has_extension(name.spec_bytes(), extension.spec_bytes()),
    {
        let n = name.as_bytes();
        let e = extension.as_bytes();
        let nlen = n.len();
        let elen = e.len();
        if nlen <= elen {
            return false;
        }
        if nlen - elen <= 1 {
            return false;
        }
        if n[nlen - elen - 1] != 0x2e {
            return false;
        }
        let mut i: usize = 0;
        while i < elen
            invariant
                n@ == name.spec_bytes(),
                e@ == extension.spec_bytes(),
                nlen == n@.len(),
                elen == e@.len(),
                nlen > elen + 1,
                n@[nlen - elen - 1] == 0x2e,
                0 <= i <= elen,
                forall|j: int| 0 <= j < i ==> n@[nlen - elen + j] == #[trigger] e@[j],
            decreases elen - i,
        {
            if n[nlen - elen + i] != e[i] {
                assert(n@.subrange(nlen - elen, nlen as int)[i as int] != e@[i as int]);
                return false;
            }
            i = i + 1;
        }
        assert(n@.subrange(nlen - elen, nlen as int) =~= e@);
        true
    }
}

} // verus!
