use vstd::prelude::*;

verus! {

/// How a data source may be accessed.
#[derive(Debug)]
pub struct SourceAttributes {
    /// Whether reading should be done by streaming
    pub stream: bool,
    pub permissions: SourcePermissions,
}

impl SourceAttributes {
    /// The attributes of a source backed by a file: read whole, not streamed, and writable.
    pub fn file() -> (r: SourceAttributes)
        ensures
            !r.stream,
            r.permissions.write,
    {
        SourceAttributes { stream: false, permissions: SourcePermissions { write: true } }
    }
}

/// How far reading a source has come.
#[derive(Debug)]
pub struct SourceState {
    /// Whether streaming has finished
    pub stream_end: bool,
}

impl Default for SourceState {
    fn default() -> (r: SourceState)
        ensures
            !r.stream_end,
    {
        SourceState { stream_end: false }
    }
}

/// What may be done to a data source.
#[derive(Debug)]
pub struct SourcePermissions {
    pub write: bool,
}

} // verus!
