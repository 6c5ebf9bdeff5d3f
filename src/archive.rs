use vstd::prelude::*;
use vstd::string::StringSliceAdditionalSpecFns;
use crate::class::{class_at, class_error, Class};
use crate::error::ClassLoadError;

verus! {

/// The UTF-8 bytes of an archive entry's path name a class file: the path
/// ends in `.class`, and the file name has something before that suffix.
pub open spec fn is_class_path(b: Seq<u8>) -> bool {
    let n = b.len() as int;
    &&& n >= 7
    &&& b.subrange(n - 6, n) == seq![46u8, 99u8, 108u8, 97u8, 115u8, 115u8]
    &&& b[n - 7] != 47
}

/// Whether an archive entry with this path holds a class file.
pub fn is_class_file(path: &str) -> (r: bool)
    ensures
        r == is_class_path(path.spec_bytes()),
{
    let b = path.as_bytes();
    let n = b.len();
    if n < 7 {
        return false;
    }
    let r = b[n - 6] == 46 && b[n - 5] == 99 && b[n - 4] == 108 && b[n - 3] == 97 && b[n - 2] == 115 && b[n - 1] == 115
        && b[n - 7] != 47;
    assert(r == is_class_path(b@)) by {
        if r {
            assert(b@.subrange(n - 6, n as int) =~= seq![46u8, 99u8, 108u8, 97u8, 115u8, 115u8]);
        } else if b@.subrange(n - 6, n as int) == seq![46u8, 99u8, 108u8, 97u8, 115u8, 115u8] {
            assert(b@.subrange(n - 6, n as int)[0] == b@[n - 6]);
            assert(b@.subrange(n - 6, n as int)[1] == b@[n - 5]);
            assert(b@.subrange(n - 6, n as int)[2] == b@[n - 4]);
            assert(b@.subrange(n - 6, n as int)[3] == b@[n - 3]);
            assert(b@.subrange(n - 6, n as int)[4] == b@[n - 2]);
            assert(b@.subrange(n - 6, n as int)[5] == b@[n - 1]);
        }
    }
    r
}

/// Handles one archive entry: an entry that is not a class file is skipped
/// (`None`); a class file is decoded, and a failure is reported with the
/// entry's path.
pub fn read_archive_entry(path: &str, data: &[u8]) -> (r: Option<Result<Class, ClassLoadError>>)
    ensures
        r is None <==> !is_class_path(path.spec_bytes()),
        r matches Some(Ok(c)) ==> class_at(c, data@),
        r matches Some(Err(f)) ==> class_error(data@, f.error.kind) && f.entry@ == path@,
{
    if !is_class_file(path) {
        return None;
    }
    match Class::read(data) {
        Ok(c) => Some(Ok(c)),
        Err(e) => Some(Err(ClassLoadError::new(path.to_owned(), e))),
    }
}

} // verus!
