use mp4ff::golomb::{read_se, read_ue};
use mp4ff::simple::{Rgb, RgbImage};
use mp4ff::{decode_idr_to_rgb, parse_sps_nalu, BitReader, BitWriter, EbspReader};
use mp4ff::ebsp::remove_emulation_prevention_bytes;

#[test]
fn test_writer() {
    let cases: Vec<(Vec<u32>, Vec<u8>, u32)> = vec![
        (vec![255u32], vec![0xffu8], 8),
        (vec![15, 15], vec![0xffu8], 4),
        (vec![3, 3, 3, 3], vec![0xffu8], 2),
        (vec![1, 1, 1, 1, 1, 1, 1, 1], vec![0xffu8], 1),
        (vec![15, 15, 15], vec![0xffu8, 0xf0u8], 4),
        (vec![3, 3, 3, 3, 3, 3], vec![0xffu8, 0xf0u8], 2),
    ];
    for (inputs, want, size) in cases {
        let mut w = BitWriter::new();
        for bits in inputs {
            w.write(bits, size);
        }
        assert!(w.acc_error().is_none());
        w.flush();
        assert!(w.acc_error().is_none());
        assert_eq!(w.into_bytes(), want);
    }
}

#[test]
fn test_bit_reader() {
    let mut r = BitReader::new(vec![0xAB, 0xCD]);
    assert_eq!(r.read(4), 0xA);
    assert_eq!(r.read(8), 0xBC);
    assert_eq!(r.nr_bits_read(), 12);
    assert_eq!(r.read(4), 0xD);
    assert!(r.acc_error().is_none());
    // Reading past the end sets the sticky error; reads return 0.
    assert_eq!(r.read(1), 0);
    assert!(r.acc_error().is_some());
    assert_eq!(r.read(8), 0);
}

#[test]
fn test_bit_reader_signed_and_flags() {
    let mut r = BitReader::new(vec![0xF0, 0x80]);
    assert_eq!(r.read_signed(4), -1);
    assert_eq!(r.read_signed(4), 0);
    assert!(r.read_flag());
    let mut r2 = BitReader::new(vec![0x12, 0x34]);
    assert_eq!(r2.read(0), 0);
    let rest = r2.read_remaining_bytes();
    assert_eq!(rest, vec![0x12, 0x34]);
    // Asking for the remaining bytes while unaligned is an error.
    let mut r3 = BitReader::new(vec![0x12, 0x34]);
    let _ = r3.read(3);
    assert!(r3.read_remaining_bytes().is_empty());
    assert!(r3.acc_error().is_some());
}

#[test]
fn test_exp_golomb() {
    // 0x40 = 0 1 0 ...: one leading zero, the marker, one suffix bit.
    let mut r = BitReader::new(vec![0x40]);
    assert_eq!(read_ue(&mut r), 1);
    assert_eq!(r.nr_bits_read(), 3);
    // 0x80 codes value 0 in a single bit.
    let mut r2 = BitReader::new(vec![0x80]);
    assert_eq!(read_ue(&mut r2), 0);
    assert_eq!(r2.nr_bits_read(), 1);
    // 00111 00000... codes 6: two zeros, the marker, suffix 0b11 = 3.
    let mut r3 = BitReader::new(vec![0b0011_1000]);
    assert_eq!(read_ue(&mut r3), 6);
    assert_eq!(r3.nr_bits_read(), 5);
}

#[test]
fn test_exp_golomb_signed() {
    // The standard mapping: 1 -> +1, 2 -> -1, 3 -> +2, 4 -> -2.
    let mut r = BitReader::new(vec![0x40]);
    assert_eq!(read_se(&mut r), 1);
    let mut r2 = BitReader::new(vec![0x60]);
    assert_eq!(read_se(&mut r2), -1);
    let mut r3 = BitReader::new(vec![0b0010_0000]);
    assert_eq!(read_se(&mut r3), 2);
    let mut r4 = BitReader::new(vec![0b0010_1000]);
    assert_eq!(read_se(&mut r4), -2);
}

#[test]
fn test_ebsp_reader_unescapes() {
    // 00 00 03 01: the 03 is an emulation-prevention byte.
    let mut r = EbspReader::new(vec![0x00, 0x00, 0x03, 0x01]);
    assert_eq!(r.read(8), 0);
    assert_eq!(r.read(8), 0);
    assert_eq!(r.read(8), 1);
    assert!(r.acc_error().is_none());
    assert_eq!(r.nr_bytes_read(), 4);
}

#[test]
fn test_remove_emulation_prevention_bytes() {
    assert_eq!(
        remove_emulation_prevention_bytes(&[0x00, 0x00, 0x03, 0x01]),
        vec![0x00, 0x00, 0x01]
    );
    // Only a run of exactly two zeros arms the escape.
    assert_eq!(
        remove_emulation_prevention_bytes(&[0x00, 0x03, 0x00]),
        vec![0x00, 0x03, 0x00]
    );
    assert_eq!(
        remove_emulation_prevention_bytes(&[0x00, 0x00, 0x03, 0x03]),
        vec![0x00, 0x00, 0x03]
    );
}

#[test]
fn test_black_frame() {
    let img = RgbImage::from_pixel(2, 3, Rgb(7, 8, 9));
    assert_eq!(img.width, 2);
    assert_eq!(img.height, 3);
    assert_eq!(img.data.len(), 2 * 3 * 3);
    assert_eq!(&img.data[0..3], &[7, 8, 9]);
    let sps_hex = "6764000dacd941419f9e10000003001000000303c0f1429960";
    let sps_bytes: Vec<u8> = {
        let s = sps_hex.as_bytes();
        let mut out = Vec::new();
        let mut i = 0;
        while i + 1 < s.len() {
            let hi = (s[i] as char).to_digit(16).unwrap();
            let lo = (s[i + 1] as char).to_digit(16).unwrap();
            out.push(((hi << 4) | lo) as u8);
            i += 2;
        }
        out
    };
    let sps = parse_sps_nalu(&sps_bytes).unwrap();
    let frame = decode_idr_to_rgb(&Vec::new(), &sps);
    assert_eq!(frame.width, 320);
    assert_eq!(frame.height, 180);
    assert!(frame.data.iter().all(|&b| b == 0));
}
