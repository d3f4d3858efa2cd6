use entroptui::magic::{find_subslice, has_compression_magic, scan_magic, MagicHit};
use entroptui::stats::{sample_stats, SAMPLE_LIMIT};

fn names(h: &[MagicHit]) -> Vec<(&'static str, usize, bool)> {
    h.iter().map(|x| (x.name, x.at, x.strong)).collect()
}

#[test]
fn subslice_search() {
    assert_eq!(find_subslice(b"hello", b""), Some(0));
    assert_eq!(find_subslice(b"", b""), Some(0));
    assert_eq!(find_subslice(b"hello", b"l"), Some(2));
    assert_eq!(find_subslice(b"hello", b"lo"), Some(3));
    assert_eq!(find_subslice(b"hello", b"hello!"), None);
    assert_eq!(find_subslice(b"hello", b"xyz"), None);
    assert_eq!(find_subslice(b"aaab", b"ab"), Some(2));
}

#[test]
fn png_at_start_is_strong() {
    let mut data = b"\x89PNG\r\n\x1a\n".to_vec();
    data.extend_from_slice(&[0u8; 32]);
    let hits = scan_magic(&data);
    assert_eq!(hits[0].name, "PNG");
    assert_eq!(hits[0].at, 0);
    assert!(hits[0].strong);
}

#[test]
fn signature_inside_window_is_weak() {
    let mut data = vec![0x41u8; 10];
    data.extend_from_slice(b"%PDF-1.7");
    let hits = scan_magic(&data);
    assert_eq!(names(&hits), vec![("PDF", 10, false)]);
}

#[test]
fn table_order_and_first_occurrence() {
    let data = b"xxMZyyPK\x03\x04MZ";
    let hits = scan_magic(data);
    assert_eq!(
        names(&hits),
        vec![("ZIP (local file header)", 6, false), ("PE/COFF (MZ)", 2, false)]
    );
}

#[test]
fn fixed_offset_checks() {
    let mut riff = b"RIFF\x00\x00\x00\x00WAVEfmt ".to_vec();
    riff.extend_from_slice(&[1u8; 8]);
    let hits = scan_magic(&riff);
    assert!(names(&hits).contains(&("WAV (RIFF/WAVE)", 0, true)));

    let mut riff2 = b"RIFF\x00\x00\x00\x00ABCD".to_vec();
    riff2.extend_from_slice(&[1u8; 8]);
    assert!(names(&scan_magic(&riff2)).contains(&("RIFF container", 0, true)));

    let mp4 = b"\x00\x00\x00\x18ftypisom\x01\x01\x01\x01";
    assert!(names(&scan_magic(mp4)).contains(&("ISO BMFF / MP4 (ftyp)", 4, false)));

    let mut tar = vec![1u8; 600];
    tar[257..262].copy_from_slice(b"ustar");
    assert!(names(&scan_magic(&tar)).contains(&("TAR (ustar)", 257, false)));

    let mut mbr = vec![1u8; 512];
    mbr[510] = 0x55;
    mbr[511] = 0xAA;
    assert!(names(&scan_magic(&mbr)).contains(&("MBR boot sector (0x55AA)", 510, false)));

    let mut gpt = vec![1u8; 600];
    gpt[512..520].copy_from_slice(b"EFI PART");
    assert!(names(&scan_magic(&gpt)).contains(&("GPT header (EFI PART)", 512, false)));

    let mut ext = vec![1u8; 1100];
    ext[1080] = 0x53;
    ext[1081] = 0xEF;
    assert!(names(&scan_magic(&ext)).contains(&("ext2/3/4 filesystem (EF53)", 1080, false)));

    let mut ts = vec![1u8; 400];
    ts[0] = 0x47;
    ts[188] = 0x47;
    ts[376] = 0x47;
    assert!(names(&scan_magic(&ts)).contains(&("MPEG-TS (188-byte packets)", 0, true)));

    let mut iso = vec![1u8; 0x8010];
    iso[0x8001..0x8006].copy_from_slice(b"CD001");
    assert!(names(&scan_magic(&iso)).contains(&("ISO9660 (CD001)", 0x8001, false)));

    let zlib = [0x78u8, 0x9C, 1, 2];
    assert!(names(&scan_magic(&zlib)).contains(&("zlib/deflate (0x78 ?? header)", 0, true)));
    let not_zlib = [0x78u8, 0x00, 1, 2];
    assert!(!names(&scan_magic(&not_zlib)).iter().any(|h| h.0.starts_with("zlib")));
}

#[test]
fn json_heuristic() {
    let hits = scan_magic(b"  \n {\"a\": [1, 2, 3]}");
    assert_eq!(names(&hits), vec![("JSON (text, heuristic)", 4, false)]);
    let mut bin = b"[".to_vec();
    bin.extend_from_slice(&[0u8; 10]);
    assert!(!names(&scan_magic(&bin)).iter().any(|h| h.0.starts_with("JSON")));
    // 19 printable out of 20 is exactly 95%, which is not enough.
    let mut edge = b"{".to_vec();
    edge.extend_from_slice(&[b'a'; 18]);
    edge.push(0);
    assert_eq!(edge.len(), 20);
    assert!(!names(&scan_magic(&edge)).iter().any(|h| h.0.starts_with("JSON")));
    edge[19] = b'b';
    assert!(names(&scan_magic(&edge)).iter().any(|h| h.0.starts_with("JSON")));
    assert!(scan_magic(b"").is_empty());
    assert!(scan_magic(b"   ").is_empty());
}

#[test]
fn stats_of_small_sample() {
    let data = b"AB\x00\x00\xff==\n 12";
    let st = sample_stats(data);
    assert_eq!(st.sample_len, 11);
    assert_eq!(st.hist.len(), 256);
    assert_eq!(st.hist[0], 2);
    assert_eq!(st.hist[b'=' as usize], 2);
    assert_eq!(st.zeros, 2);
    assert_eq!(st.ffs, 1);
    assert_eq!(st.printable, 8);
    assert_eq!(st.whitespace, 2);
    assert_eq!(st.newlines, 1);
    assert_eq!(st.base64_ok, 8);
    assert_eq!(st.base64_pad, 2);
    assert_eq!(st.hex_ok, 6);
    assert_eq!(st.hex_digits, 4);
    assert!(st.hex_digits_even);
    assert_eq!(st.adjacent_equal, 2);
    assert_eq!(st.top1, 2);
    assert!(!st.utf8_valid);
    assert_eq!(st.hist.iter().map(|&c| c as usize).sum::<usize>(), 11);
}

#[test]
fn stats_utf8_and_limit() {
    let st = sample_stats("héllo wörld".as_bytes());
    assert!(st.utf8_valid);
    let st = sample_stats(&[0xC3, 0x28]);
    assert!(!st.utf8_valid);
    let big = vec![0u8; SAMPLE_LIMIT + 100];
    let st = sample_stats(&big);
    assert_eq!(st.sample_len, SAMPLE_LIMIT);
    assert_eq!(st.zeros as usize, SAMPLE_LIMIT);
    assert_eq!(st.top1 as usize, SAMPLE_LIMIT);
    assert_eq!(st.adjacent_equal as usize, SAMPLE_LIMIT - 1);
    let st = sample_stats(&[]);
    assert_eq!(st.sample_len, 0);
    assert!(st.utf8_valid);
    assert_eq!(st.top1, 0);
    assert!(st.magic_hits.is_empty());
}

#[test]
fn appending_keeps_signature_hits() {
    let mut data = b"xxMZyy".to_vec();
    data.extend_from_slice(&[0u8; 504]);
    data.extend_from_slice(&[0x55, 0xAA]);
    let before = names(&scan_magic(&data));
    assert!(before.contains(&("PE/COFF (MZ)", 2, false)));
    assert!(before.contains(&("MBR boot sector (0x55AA)", 510, false)));
    let mut longer = data.clone();
    longer.extend_from_slice(b"%PDF-1.7 MZ EFI PART");
    let after = names(&scan_magic(&longer));
    for h in &before {
        assert!(after.contains(h));
    }
    assert!(after.contains(&("PDF", 512, false)));
}

#[test]
fn compression_magic_detection() {
    let gz = scan_magic(b"\x1f\x8b\x08\x00rest");
    assert!(has_compression_magic(&gz));
    let png = scan_magic(b"\x89PNG\r\n\x1a\nrest");
    assert!(!png.is_empty());
    assert!(!has_compression_magic(&png));
    assert!(!has_compression_magic(&[]));
    let hits = vec![
        MagicHit { name: "PNG", at: 0, strong: true },
        MagicHit { name: "XZ", at: 9, strong: false },
    ];
    assert!(has_compression_magic(&hits));
    let near = vec![MagicHit { name: "XZ ", at: 0, strong: true }];
    assert!(!has_compression_magic(&near));
}
