//! The client: a chain of hooks that ends in the connection layer.
use crate::errors::DeboaError;
use vstd::prelude::*;

verus! {

/// An HTTP client that hands requests to its hook.
pub struct Client<H> {
    hook: H,
}

impl<H> Client<H> {
    /// A client that hands requests to `inner`.
    pub fn new(inner: H) -> (r: Self)
        ensures
            r.hook_spec() == inner,
    {
        Client { hook: inner }
    }

    /// The hook requests go to.
    pub closed spec fn hook_spec(&self) -> H {
        self.hook
    }

    /// The hook requests go to.
    pub fn hook(&self) -> (r: &H)
        ensures
            *r == self.hook_spec(),
    {
        &self.hook
    }
}

/// A compression scheme's marker.
pub struct CompressionImpl;

/// Something that can be compressed into a body.
pub trait Compression {
    /// The compressed bytes.
    fn compress(&self) -> Result<Vec<u8>, DeboaError>;
}

impl Compression for Vec<u8> {
    /// Bytes compress to themselves.
    fn compress(&self) -> (r: Result<Vec<u8>, DeboaError>)
        ensures
            r matches Ok(b) && b@ == self@,
    {
        Ok(self.clone())
    }
}

} // verus!
