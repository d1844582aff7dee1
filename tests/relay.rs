use audio_relay::cipher::{frame_plaintext, AudioEncryptor, CipherError};
use audio_relay::config::{EncryptionConfig, ServerConfig};
use audio_relay::jitter::{JitterBuffer, HIGH_WATERMARK, LOW_WATERMARK};
use audio_relay::mixer::{convert_to_mono, upmix};
use audio_relay::transport::{accept_packet, outgoing_packet};
use audio_relay::volume::sum_of_squares;

fn test_key() -> Vec<u8> {
    (0u8..32).collect()
}

fn encryptor() -> AudioEncryptor {
    AudioEncryptor::new(&test_key()).unwrap()
}

#[test]
fn downmix_and_upmix_equal_channel_pairs() {
    assert_eq!(convert_to_mono(&[100, 200, 100, 200], 2), vec![150, 150]);
    assert_eq!(upmix(&[150, 150], 4, 2), vec![150, 150, 150, 150]);
}

#[test]
fn single_channel_is_identity() {
    let s: Vec<i16> = vec![7, -3, 32767, -32768, 0];
    assert_eq!(convert_to_mono(&s, 1), s);
    assert_eq!(upmix(&s, s.len(), 1), s);
}

#[test]
fn downmix_truncates_toward_zero() {
    assert_eq!(convert_to_mono(&[-3, 0], 2), vec![-1]);
    assert_eq!(convert_to_mono(&[3, 0], 2), vec![1]);
    assert_eq!(convert_to_mono(&[-32768, -32768, -32768], 3), vec![-32768]);
}

#[test]
fn downmix_drops_partial_group() {
    assert_eq!(convert_to_mono(&[10, 20, 30], 2), vec![15]);
    assert_eq!(convert_to_mono(&[], 2), Vec::<i16>::new());
}

#[test]
fn upmix_zero_fills_shortfall() {
    assert_eq!(upmix(&[5], 6, 2), vec![5, 5, 0, 0, 0, 0]);
    assert_eq!(upmix(&[1, 2], 5, 2), vec![1, 1, 2, 2, 0]);
    assert_eq!(upmix(&[1, 2, 3], 4, 2), vec![1, 1, 2, 2]);
}

#[test]
fn key_must_be_32_bytes() {
    assert_eq!(AudioEncryptor::new(&[0u8; 31]).err(), Some(CipherError::InvalidKeyLength));
    assert_eq!(AudioEncryptor::new(&[0u8; 33]).err(), Some(CipherError::InvalidKeyLength));
    assert!(AudioEncryptor::new(&[0u8; 32]).is_ok());
}

#[test]
fn hex_key_errors() {
    assert_eq!(AudioEncryptor::from_hex_key("abc").err(), Some(CipherError::InvalidKeyHex));
    assert_eq!(AudioEncryptor::from_hex_key("zz").err(), Some(CipherError::InvalidKeyHex));
    assert_eq!(AudioEncryptor::from_hex_key("00ff").err(), Some(CipherError::InvalidKeyLength));
}

#[test]
fn hex_key_matches_raw_key() {
    let text = "000102030405060708090A0B0C0D0E0F101112131415161718191a1b1c1d1e1f";
    let from_text = AudioEncryptor::from_hex_key(text).unwrap();
    let frame: Vec<i16> = vec![1, 2, 3, 4, 5];
    assert_eq!(from_text.encrypt(&frame).unwrap(), encryptor().encrypt(&frame).unwrap());
}

#[test]
fn plaintext_is_little_endian_and_zero_padded() {
    let p = frame_plaintext(&[1000, -1000]);
    let mut expected = vec![0xe8u8, 0x03, 0x18, 0xfc];
    expected.resize(16, 0);
    assert_eq!(p, expected);
    assert_eq!(frame_plaintext(&[]), Vec::<u8>::new());
}

#[test]
fn aes256_known_answer_first_block() {
    // Plaintext bytes 00 11 22 .. ff, little-endian.
    let frame: Vec<i16> = vec![4352, 13090, 21828, 30566, -26232, -17494, -8756, -18];
    let c = encryptor().encrypt(&frame).unwrap();
    let expected: Vec<u8> = vec![
        0x8e, 0xa2, 0xb7, 0xca, 0x51, 0x67, 0x45, 0xbf, 0xea, 0xfc, 0x49, 0x90, 0x4b, 0x49, 0x60,
        0x89,
    ];
    assert_eq!(c, expected);
}

#[test]
fn encrypted_length_is_block_multiple() {
    let e = encryptor();
    assert_eq!(e.encrypt(&[]).unwrap().len(), 0);
    assert_eq!(e.encrypt(&[1, 2, 3]).unwrap().len(), 16);
    assert_eq!(e.encrypt(&[0; 8]).unwrap().len(), 16);
    assert_eq!(e.encrypt(&[0; 9]).unwrap().len(), 32);
    let c = e.encrypt(&[1, 2, 3]).unwrap();
    assert_ne!(c, frame_plaintext(&[1, 2, 3]));
}

#[test]
fn decrypt_rejects_misaligned() {
    let e = encryptor();
    assert_eq!(e.decrypt(&[0u8; 15]).err(), Some(CipherError::MisalignedPacket));
    assert_eq!(e.decrypt(&[0u8; 17]).err(), Some(CipherError::MisalignedPacket));
    assert!(e.decrypt(&[0u8; 32]).is_ok());
}

#[test]
fn round_trip_keeps_samples_as_prefix() {
    let e = encryptor();
    let frame: Vec<i16> = (0..21).map(|i| (i * 1537 - 16000) as i16).collect();
    let back = e.decrypt(&e.encrypt(&frame).unwrap()).unwrap();
    assert_eq!(back.len(), 24);
    assert_eq!(&back[..21], &frame[..]);
    assert!(back[21..].iter().all(|&x| x == 0));
}

#[test]
fn end_to_end_two_sample_frame() {
    let e = encryptor();
    let back = e.decrypt(&e.encrypt(&[1000, -1000]).unwrap()).unwrap();
    assert_eq!(back, vec![1000, -1000, 0, 0, 0, 0, 0, 0]);
}

#[test]
fn wrong_key_does_not_recover_frame() {
    let e = encryptor();
    let other = AudioEncryptor::new(&[9u8; 32]).unwrap();
    let c = e.encrypt(&[1000, -1000]).unwrap();
    let back = other.decrypt(&c).unwrap();
    assert_eq!(back.len(), 8);
    assert_ne!(back, vec![1000, -1000, 0, 0, 0, 0, 0, 0]);
}

#[test]
fn append_below_watermark_keeps_all() {
    let mut q = JitterBuffer::new();
    q.append(&[1, 2, 3]);
    q.append(&[4]);
    assert_eq!(q.samples(), &[1, 2, 3, 4]);
    let big = vec![5i16; HIGH_WATERMARK - 4];
    q.append(&big);
    assert_eq!(q.len(), HIGH_WATERMARK);
}

#[test]
fn append_past_watermark_trims_to_newest() {
    let mut q = JitterBuffer::new();
    let first: Vec<i16> = (0..8000).map(|i| (i % 30000) as i16).collect();
    q.append(&first);
    let second: Vec<i16> = (8000..8193).map(|i| (i % 30000) as i16).collect();
    q.append(&second);
    assert_eq!(q.len(), LOW_WATERMARK);
    let expected: Vec<i16> = (8193 - 4096..8193).map(|i| (i % 30000) as i16).collect();
    assert_eq!(q.samples(), &expected[..]);
}

#[test]
fn append_of_huge_packet_keeps_its_tail() {
    let mut q = JitterBuffer::new();
    q.append(&[1, 2, 3]);
    let huge: Vec<i16> = (0..10000).map(|i| i as i16).collect();
    q.append(&huge);
    assert_eq!(q.samples(), &huge[10000 - 4096..]);
}

#[test]
fn drain_from_empty_is_silence() {
    let mut q = JitterBuffer::new();
    assert_eq!(q.drain_frame(6, 2), vec![0; 6]);
    assert_eq!(q.drain_frame(5, 1), vec![0; 5]);
    assert_eq!(q.len(), 0);
}

#[test]
fn drain_takes_oldest_samples() {
    let mut q = JitterBuffer::new();
    q.append(&[1, 2, 3]);
    assert_eq!(q.drain_frame(4, 2), vec![1, 1, 2, 2]);
    assert_eq!(q.samples(), &[3]);
    assert_eq!(q.drain_frame(4, 1), vec![3, 0, 0, 0]);
    assert_eq!(q.len(), 0);
}

#[test]
fn closed_gate_sends_nothing() {
    assert_eq!(outgoing_packet(&encryptor(), &[100, 200], 2, false), None);
}

#[test]
fn open_gate_sends_downmixed_frame() {
    let e = encryptor();
    let p = outgoing_packet(&e, &[100, 200, 100, 200], 2, true).unwrap();
    assert_eq!(p.len(), 16);
    assert_eq!(e.decrypt(&p).unwrap()[..2], [150, 150]);
}

#[test]
fn received_packet_goes_to_queue() {
    let e = encryptor();
    let mut q = JitterBuffer::new();
    let p = e.encrypt(&[1000, -1000]).unwrap();
    assert!(accept_packet(&e, &mut q, &p));
    assert_eq!(q.samples(), &[1000, -1000, 0, 0, 0, 0, 0, 0]);
    assert!(!accept_packet(&e, &mut q, &p[..10]));
    assert_eq!(q.len(), 8);
}

#[test]
fn energy_of_frames() {
    assert_eq!(sum_of_squares(&[]), 0);
    assert_eq!(sum_of_squares(&[0, 0, 0]), 0);
    assert_eq!(sum_of_squares(&[3, -4]), 25);
    assert_eq!(sum_of_squares(&[-32768]), 1073741824);
    assert_eq!(sum_of_squares(&[32767, 32767]), 2 * 32767 * 32767);
}

#[test]
fn config_values() {
    let s = ServerConfig { bind_address: "0.0.0.0:5000".to_string(), output_device: "default".to_string() };
    let k = EncryptionConfig { key: "00".to_string() };
    assert_eq!(s.bind_address, "0.0.0.0:5000");
    assert_eq!(k.key, "00");
}
