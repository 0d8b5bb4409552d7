use nix_varlink_client::wire::frame;
use nix_varlink_client::wire::Progress;
use nix_varlink_client::wire::ReplyBuffer;
use nix_varlink_client::wire::MAX_REPLY_BYTES;

fn read(buffer: &mut ReplyBuffer, stream: &[u8]) -> (Progress, usize) {
    for (i, byte) in stream.iter().enumerate() {
        let progress = buffer.feed(Some(*byte));
        if progress != Progress::More {
            return (progress, i + 1);
        }
    }
    (buffer.feed(None), stream.len())
}

#[test]
fn frame_ends_a_message() {
    assert_eq!(frame(b"{}".to_vec()), b"{}\0");
    assert_eq!(frame(Vec::new()), b"\0");
}

#[test]
fn cap_is_one_mebibyte() {
    assert_eq!(MAX_REPLY_BYTES, 1 << 20);
}

#[test]
fn framed_message_is_read_back() {
    let mut stream = frame(b"{\"a\":1}".to_vec());
    stream.extend_from_slice(b"rest");
    let mut buffer = ReplyBuffer::new();
    assert_eq!(read(&mut buffer, &stream), (Progress::Complete, 8));
    assert_eq!(buffer.as_slice(), b"{\"a\":1}");
}

#[test]
fn longest_message_is_read_back() {
    let message = vec![b'x'; MAX_REPLY_BYTES - 1];
    let mut buffer = ReplyBuffer::new();
    let stream = frame(message.clone());
    assert_eq!(read(&mut buffer, &stream), (Progress::Complete, MAX_REPLY_BYTES));
    assert_eq!(buffer.as_slice(), &message[..]);
}

#[test]
fn reply_at_the_cap_is_too_long() {
    let mut stream = vec![b'x'; MAX_REPLY_BYTES];
    stream.push(0);
    let mut buffer = ReplyBuffer::new();
    assert_eq!(read(&mut buffer, &stream), (Progress::TooLong, MAX_REPLY_BYTES));
    assert_eq!(buffer.as_slice().len(), MAX_REPLY_BYTES);
    assert_eq!(buffer.feed(Some(b'y')), Progress::TooLong);
    assert_eq!(buffer.feed(Some(0)), Progress::TooLong);
    assert_eq!(buffer.feed(None), Progress::TooLong);
    assert_eq!(buffer.as_slice().len(), MAX_REPLY_BYTES);
}

#[test]
fn stream_that_ends_early_is_closed() {
    let mut buffer = ReplyBuffer::new();
    assert_eq!(read(&mut buffer, b"{\"a\""), (Progress::Closed, 4));
    assert_eq!(read(&mut ReplyBuffer::new(), b""), (Progress::Closed, 0));
}

#[test]
fn buffer_is_reused() {
    let mut buffer = ReplyBuffer::new();
    assert_eq!(read(&mut buffer, b"one\0"), (Progress::Complete, 4));
    buffer.clear();
    assert_eq!(buffer.as_slice(), b"");
    assert_eq!(read(&mut buffer, b"two\0"), (Progress::Complete, 4));
    assert_eq!(buffer.as_slice(), b"two");
}
