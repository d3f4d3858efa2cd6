use entroptui::hexdump::hex_dump_line;
use entroptui::spectral::{clamp_max_n, pick_n, plan_sizes, resample, spectrum_end};

fn line(addr: u64, chunk: &[u8]) -> String {
    String::from_utf8(hex_dump_line(addr, chunk)).unwrap()
}

#[test]
fn full_hex_line() {
    let chunk: Vec<u8> = (0x41u8..0x51).collect();
    assert_eq!(
        line(0, &chunk),
        "0000000000  41 42 43 44 45 46 47 48  49 4A 4B 4C 4D 4E 4F 50 |ABCDEFGHIJKLMNOP|"
    );
}

#[test]
fn short_hex_line_is_padded() {
    assert_eq!(
        line(0x1234, &[0x00, 0x7F, 0x20, 0xFF]),
        format!("0000001234  00 7F 20 FF {}{}|.. .{}|", "   ".repeat(4), " ".to_string() + &"   ".repeat(8), " ".repeat(12))
    );
}

#[test]
fn hex_line_matches_format() {
    let chunk = [1u8, 2, 0x80, b'z', b'~', 0x1F, b'0'];
    for addr in [0u64, 15, 16, 0xABCDEF, 0xFF_FFFF_FFFF, u64::MAX] {
        let mut hex = String::new();
        for i in 0..16 {
            if i < chunk.len() {
                hex.push_str(&format!("{:02X} ", chunk[i]));
            } else {
                hex.push_str("   ");
            }
            if i == 7 {
                hex.push(' ');
            }
        }
        let mut ascii = String::new();
        for &b in &chunk {
            ascii.push(if (0x20..=0x7E).contains(&b) { b as char } else { '.' });
        }
        for _ in chunk.len()..16 {
            ascii.push(' ');
        }
        assert_eq!(line(addr, &chunk), format!("{addr:010X}  {hex}|{ascii}|"));
    }
}

#[test]
fn fft_sizes() {
    assert_eq!(clamp_max_n(10), 64);
    assert_eq!(clamp_max_n(2048), 2048);
    assert_eq!(clamp_max_n(1 << 20), 16384);
    assert_eq!(plan_sizes(2048), vec![64, 128, 256, 512, 1024, 2048]);
    assert_eq!(plan_sizes(100), vec![64]);
    assert_eq!(pick_n(2048, 300), Some(512));
    assert_eq!(pick_n(2048, 10), None);
    assert_eq!(pick_n(2048, 64), Some(64));
    assert_eq!(pick_n(2048, 1 << 20), Some(2048));
    assert_eq!(pick_n(2048, 1025), Some(2048));
    assert_eq!(pick_n(32, 100), None);
    assert_eq!(spectrum_end(64), 32);
    assert_eq!(spectrum_end(2), 2);
}

#[test]
fn resampling() {
    let s: Vec<u8> = (0..10).collect();
    assert_eq!(resample(&s, 5), vec![0, 2, 4, 6, 8]);
    assert_eq!(resample(&s, 4), vec![0, 2, 5, 7]);
    assert_eq!(resample(&[9], 3), vec![9, 9, 9]);
}

#[test]
fn fft_plan_selection_works() {
    let max_n = clamp_max_n(2048);
    let n = pick_n(max_n, 300).expect("should pick 512");
    assert!(n.is_power_of_two());
    assert!(plan_sizes(max_n).contains(&n));
}
