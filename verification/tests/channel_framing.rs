use reticulum::channel::framing::{deenvelope_raw, envelope_raw};
use reticulum::channel::ChannelError;

#[test]
fn test_envelope_raw() {
    let data = vec![0x43, 0x11, 0x00];
    let env = envelope_raw(data.as_slice(), 0x1000, Some(10));

    assert_eq!(
        env,
        vec![0x10, 0x00, 0x00, 0x0a, 0x00, 0x03, 0x43, 0x11, 0x00]
    );
}

#[test]
fn envelope_round_trip() {
    let payload: Vec<u8> = (0..200u16).map(|i| (i % 251) as u8).collect();
    let raw = envelope_raw(payload.as_slice(), 0xABCD, Some(0xFFFE));
    assert_eq!(deenvelope_raw(raw.as_slice()), Ok((0xABCD, 0xFFFE, 200)));
    assert_eq!(&raw[6..], payload.as_slice());
}

#[test]
fn short_frame_is_refused() {
    assert_eq!(deenvelope_raw(&[1, 2, 3, 4, 5]), Err(ChannelError::Misc));
    assert_eq!(deenvelope_raw(&[0, 1, 0, 2, 0, 0]), Ok((1, 2, 0)));
}
