use orchestrator_rust::wav::{fits, generate_bytes, parse_header, WavHeader, HEADER_LEN};

fn u32_le(bytes: &[u8], at: usize) -> u32 {
    u32::from_le_bytes([bytes[at], bytes[at + 1], bytes[at + 2], bytes[at + 3]])
}

fn u16_le(bytes: &[u8], at: usize) -> u16 {
    u16::from_le_bytes([bytes[at], bytes[at + 1]])
}

#[test]
fn empty_file_is_a_bare_header() {
    let bytes = generate_bytes(&[], 44100);
    assert_eq!(bytes.len(), 44);
    assert_eq!(HEADER_LEN, 44);
    assert_eq!(&bytes[0..4], b"RIFF");
    assert_eq!(u32_le(&bytes, 4), 36);
    assert_eq!(&bytes[8..12], b"WAVE");
    assert_eq!(&bytes[12..16], b"fmt ");
    assert_eq!(u32_le(&bytes, 16), 16);
    assert_eq!(u16_le(&bytes, 20), 1);
    assert_eq!(u16_le(&bytes, 22), 1);
    assert_eq!(u32_le(&bytes, 24), 44100);
    assert_eq!(u32_le(&bytes, 28), 88200);
    assert_eq!(u16_le(&bytes, 32), 2);
    assert_eq!(u16_le(&bytes, 34), 16);
    assert_eq!(&bytes[36..40], b"data");
    assert_eq!(u32_le(&bytes, 40), 0);
}

#[test]
fn file_is_bit_exact() {
    let bytes = generate_bytes(&[0, 1, -1, 32767, -32768, 256, -256], 8000);
    let expected: Vec<u8> = vec![
        0x52, 0x49, 0x46, 0x46, 50, 0, 0, 0, 0x57, 0x41, 0x56, 0x45, 0x66, 0x6D, 0x74, 0x20, 16,
        0, 0, 0, 1, 0, 1, 0, 0x40, 0x1F, 0, 0, 0x80, 0x3E, 0, 0, 2, 0, 16, 0, 0x64, 0x61, 0x74,
        0x61, 14, 0, 0, 0, 0x00, 0x00, 0x01, 0x00, 0xFF, 0xFF, 0xFF, 0x7F, 0x00, 0x80, 0x00,
        0x01, 0x00, 0xFF,
    ];
    assert_eq!(bytes, expected);
}

#[test]
fn samples_are_little_endian_twos_complement() {
    let samples: Vec<i16> = vec![-32768, -12345, -2, -1, 0, 1, 2, 12345, 32767];
    let bytes = generate_bytes(&samples, 44100);
    assert_eq!(bytes.len(), 44 + 2 * samples.len());
    for (i, sample) in samples.iter().enumerate() {
        let le = sample.to_le_bytes();
        assert_eq!(bytes[44 + 2 * i], le[0]);
        assert_eq!(bytes[44 + 2 * i + 1], le[1]);
    }
}

#[test]
fn header_round_trip() {
    for &(count, rate) in &[(0usize, 1u32), (1, 8000), (22050, 44100), (1000, 96000), (3, 0)] {
        let samples: Vec<i16> = (0..count).map(|i| (i % 1000) as i16 - 500).collect();
        let bytes = generate_bytes(&samples, rate);
        let header = parse_header(&bytes).unwrap();
        assert_eq!(
            header,
            WavHeader {
                riff_size: 36 + 2 * count as u32,
                channels: 1,
                sample_rate: rate,
                byte_rate: 2 * rate,
                block_align: 2,
                bits_per_sample: 16,
                data_size: 2 * count as u32,
            }
        );
        assert_eq!(bytes.len(), 44 + header.data_size as usize);
    }
}

#[test]
fn largest_sample_rate_fits() {
    let rate = u32::MAX / 2;
    let bytes = generate_bytes(&[7], rate);
    let header = parse_header(&bytes).unwrap();
    assert_eq!(header.sample_rate, rate);
    assert_eq!(header.byte_rate, u32::MAX - 1);
}

#[test]
fn short_input_has_no_header() {
    assert_eq!(parse_header(&[]), None);
    let bytes = generate_bytes(&[1, 2, 3], 44100);
    assert_eq!(parse_header(&bytes[..43]), None);
    assert!(parse_header(&bytes[..44]).is_some());
}

#[test]
fn wrong_tags_are_refused() {
    let good = generate_bytes(&[1, 2, 3], 44100);
    for &at in &[0usize, 3, 8, 11, 12, 15, 36, 39] {
        let mut bad = good.clone();
        bad[at] ^= 0x20;
        assert_eq!(parse_header(&bad), None);
    }
    // another format chunk length, another format tag
    let mut bad = good.clone();
    bad[16] = 18;
    assert_eq!(parse_header(&bad), None);
    let mut bad = good.clone();
    bad[20] = 3;
    assert_eq!(parse_header(&bad), None);
}

#[test]
fn parser_reports_what_the_fields_hold() {
    let mut bytes = generate_bytes(&[1, 2, 3], 44100);
    bytes[22] = 2;
    bytes[34] = 24;
    bytes[4] = 0xFF;
    let header = parse_header(&bytes).unwrap();
    assert_eq!(header.channels, 2);
    assert_eq!(header.bits_per_sample, 24);
    assert_eq!(header.riff_size, 255);
    assert_eq!(header.data_size, 6);
}

#[test]
fn sizes_that_fit_the_header() {
    assert!(fits(0, 0));
    assert!(fits(22050, 44100));
    assert!(fits(2147483629, 2147483647));
    assert!(!fits(2147483630, 44100));
    assert!(!fits(22050, 2147483648));
    assert!(!fits(usize::MAX, 44100));
}
