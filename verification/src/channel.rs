//! Transport configuration and transport errors.

use vstd::prelude::*;

verus! {

/// Errors of the transport between callers and the dispatcher.
#[derive(Debug, Clone, Copy, PartialEq, Eq, Structural)]
pub enum ChannelError {
    /// The peer endpoint has been dropped.
    Closed,
}

impl ChannelError {
    /// The text shown for this error.
    pub fn message(&self) -> (s: String)
        ensures
            s@ == "Channel is closed"@,
    {
        "Channel is closed".to_string()
    }
}

/// Builder for a transport; records the requested buffer size.
pub struct ChannelBuilder {
    buffer_size: Option<usize>,
}

impl ChannelBuilder {
    /// The buffer size asked for so far, if any.
    pub closed spec fn requested(&self) -> Option<usize> {
        self.buffer_size
    }

    /// A builder with no buffer size set.
    pub fn new() -> (b: Self)
        ensures
            b.requested() == None::<usize>,
    {
        ChannelBuilder { buffer_size: None }
    }

    /// Sets the buffer size.
    pub fn buffer_size(self, size: usize) -> (b: Self)
        ensures
            b.requested() == Some(size),
    {
        let mut b = self;
        b.buffer_size = Some(size);
        b
    }

    /// Reads back the buffer size asked for.
    pub fn requested_size(&self) -> (r: Option<usize>)
        ensures
            r == self.requested(),
    {
        self.buffer_size
    }
}

impl Default for ChannelBuilder {
    fn default() -> (b: Self)
        ensures
            b.requested() == None::<usize>,
    {
        ChannelBuilder::new()
    }
}

} // verus!
