use termibbl::codec::{Error, NetworkMessage};
use termibbl::message::ToServer;

fn framed(payload: &[u8]) -> Vec<u8> {
    let mut codec: NetworkMessage<ToServer> = NetworkMessage::new();
    let mut buf = Vec::new();
    codec.encode(payload, &mut buf).unwrap();
    buf
}

#[test]
fn small_payload_uses_two_byte_length() {
    assert_eq!(framed(b"abc"), vec![2, 0, 3, b'a', b'b', b'c']);
}

#[test]
fn empty_payload_frame() {
    assert_eq!(framed(b""), vec![2, 0, 0]);
    let mut codec: NetworkMessage<ToServer> = NetworkMessage::new();
    let mut buf = vec![2, 0, 0];
    assert_eq!(codec.decode(&mut buf).unwrap(), Some(vec![]));
    assert!(buf.is_empty());
}

#[test]
fn length_tag_is_minimal() {
    let at_limit = vec![7u8; 0xffff];
    let f = framed(&at_limit);
    assert_eq!(&f[..3], &[2, 0xff, 0xff]);
    let above = vec![7u8; 0x1_0000];
    let f = framed(&above);
    assert_eq!(&f[..5], &[4, 0, 1, 0, 0]);
    assert_eq!(f.len(), 5 + 0x1_0000);
}

#[test]
fn decode_round_trip_leaves_the_rest() {
    let mut buf = framed(b"hello");
    buf.extend_from_slice(&[2, 0, 1]);
    let mut codec: NetworkMessage<ToServer> = NetworkMessage::new();
    assert_eq!(codec.decode(&mut buf).unwrap(), Some(b"hello".to_vec()));
    assert_eq!(buf, vec![2, 0, 1]);
    assert_eq!(codec.decode(&mut buf).unwrap(), None);
    buf.push(b'x');
    assert_eq!(codec.decode(&mut buf).unwrap(), Some(b"x".to_vec()));
    assert!(buf.is_empty());
}

#[test]
fn truncated_prefix_needs_more_data() {
    let full = framed(b"payload");
    let mut codec: NetworkMessage<ToServer> = NetworkMessage::new();
    for k in 0..full.len() {
        let mut buf = full[..k].to_vec();
        assert_eq!(codec.decode(&mut buf).unwrap(), None);
        assert_eq!(buf, full[..k].to_vec());
        buf.extend_from_slice(&full[k..]);
        assert_eq!(codec.decode(&mut buf).unwrap(), Some(b"payload".to_vec()));
    }
}

#[test]
fn eight_byte_length_field_is_read() {
    let mut buf = vec![8, 0, 0, 0, 0, 0, 0, 0, 2, b'o', b'k'];
    let mut codec: NetworkMessage<ToServer> = NetworkMessage::new();
    assert_eq!(codec.decode(&mut buf).unwrap(), Some(b"ok".to_vec()));
}

#[test]
fn invalid_length_tags_are_errors() {
    let mut codec: NetworkMessage<ToServer> = NetworkMessage::new();
    let mut buf = vec![0, 0, 0, 0];
    assert_eq!(codec.decode(&mut buf), Err(Error::InvalidLengthBye(0)));
    let mut buf = vec![3];
    assert_eq!(codec.decode(&mut buf), Err(Error::InvalidLengthBye(3)));
    assert_eq!(buf, vec![3]);
}
