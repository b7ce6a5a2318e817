use cabal::channel::{ChannelBuilder, ChannelError};

#[test]
fn builder_starts_without_buffer_size() {
    assert_eq!(ChannelBuilder::new().requested_size(), None);
    let b: ChannelBuilder = Default::default();
    assert_eq!(b.requested_size(), None);
}

#[test]
fn builder_records_the_buffer_size() {
    assert_eq!(ChannelBuilder::new().buffer_size(16).requested_size(), Some(16));
    assert_eq!(ChannelBuilder::new().buffer_size(16).buffer_size(0).requested_size(), Some(0));
}

#[test]
fn closed_error_text() {
    assert_eq!(ChannelError::Closed.message(), "Channel is closed");
    assert_eq!(ChannelError::Closed, ChannelError::Closed);
}
