//! OpenSSL-specific userspace probe coordination.
use vstd::prelude::*;

verus! {

#[derive(Debug, Default)]
pub struct OpenSslInspector;

impl OpenSslInspector {
    pub fn library_name(&self) -> (r: &'static str)
        ensures
            r@ == "OpenSSL"@,
    {
        "OpenSSL"
    }
}

} // verus!
