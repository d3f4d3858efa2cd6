//! Signature ("magic bytes") detection in a byte sample.
use vstd::prelude::*;
use vstd::string::StringSliceAdditionalSpecFns;

use crate::bytes::{count_class, count_in_range, in_class, is_ws, lemma_count_class_le_len, ByteClass};

verus! {

/// A signature found in the sample: its name, the offset of the match within
/// the sample, and whether the match is at the very start of the sample.
#[derive(Copy, Clone, Debug)]
pub struct MagicHit {
    pub name: &'static str,
    pub at: usize,
    pub strong: bool,
}

impl View for MagicHit {
    type V = (Seq<char>, int, bool);

    open spec fn view(&self) -> (Seq<char>, int, bool) {
        (self.name@, self.at as int, self.strong)
    }
}

/// The abstract hit for signature `name` found at `at`; a hit is strong
/// exactly when it is at offset 0.
pub open spec fn magic_hit(name: Seq<char>, at: int) -> (Seq<char>, int, bool) {
    (name, at, at == 0)
}

pub open spec fn hits_view(hits: Seq<MagicHit>) -> Seq<(Seq<char>, int, bool)> {
    hits.map_values(|h: MagicHit| h@)
}

/// `needle` occurs in `hay` starting at position `p`.
pub open spec fn matches_at(hay: Seq<u8>, needle: Seq<u8>, p: int) -> bool {
    &&& 0 <= p
    &&& p + needle.len() <= hay.len()
    &&& hay.subrange(p, p + needle.len()) == needle
}

/// The first position at which `needle` occurs in `hay`, if any.
/// An empty needle occurs at position 0.
pub open spec fn first_match(hay: Seq<u8>, needle: Seq<u8>) -> Option<int> {
    if exists|p: int| matches_at(hay, needle, p) {
        Some(
            choose|p: int|
                matches_at(hay, needle, p) && forall|q: int| 0 <= q < p ==> !matches_at(hay, needle, q),
        )
    } else {
        None
    }
}

proof fn lemma_first_match_is(hay: Seq<u8>, needle: Seq<u8>, p: int)
    requires
        matches_at(hay, needle, p),
        forall|q: int| 0 <= q < p ==> !matches_at(hay, needle, q),
    ensures
        first_match(hay, needle) == Some(p),
{
    assert(matches_at(hay, needle, p) && forall|q: int| 0 <= q < p ==> !matches_at(hay, needle, q));
    let c = choose|c: int|
        matches_at(hay, needle, c) && forall|q: int| 0 <= q < c ==> !matches_at(hay, needle, q);
    if c < p {
        assert(!matches_at(hay, needle, c));
    }
    if p < c {
        assert(!matches_at(hay, needle, p));
    }
}

/// Number of signatures in the table that is searched anywhere in the sample.
pub const MAGIC_TABLE_LEN: usize = 63;

/// Name of table signature `i`.
pub open spec fn signature_name(i: usize) -> Seq<char> {
    match i {
        0 => "PNG"@,
        1 => "JPEG"@,
        2 => "GIF87a"@,
        3 => "GIF89a"@,
        4 => "BMP"@,
        5 => "TIFF (LE)"@,
        6 => "TIFF (BE)"@,
        7 => "ICO"@,
        8 => "CUR"@,
        9 => "Photoshop PSD"@,
        10 => "OpenEXR"@,
        11 => "ZIP (local file header)"@,
        12 => "ZIP (central directory)"@,
        13 => "ZIP (end of central dir)"@,
        14 => "7-Zip"@,
        15 => "RAR (v1.5+)"@,
        16 => "RAR (v5+)"@,
        17 => "CAB"@,
        18 => "ar archive"@,
        19 => "GZIP"@,
        20 => "Zstandard"@,
        21 => "XZ"@,
        22 => "Bzip2"@,
        23 => "LZ4 frame"@,
        24 => "LZIP"@,
        25 => "Unix compress (.Z)"@,
        26 => "LZMA (.lzma)"@,
        27 => "PDF"@,
        28 => "PostScript"@,
        29 => "SQLite 3"@,
        30 => "Apache Parquet"@,
        31 => "Apache ORC"@,
        32 => "bplist (binary plist)"@,
        33 => "Microsoft OLE2/CFBF"@,
        34 => "ELF"@,
        35 => "PE/COFF (MZ)"@,
        36 => "Wasm"@,
        37 => "Java class"@,
        38 => "Dalvik DEX"@,
        39 => "Dalvik DEX (036)"@,
        40 => "TrueType font (TTF)"@,
        41 => "OpenType font (OTF)"@,
        42 => "WOFF"@,
        43 => "WOFF2"@,
        44 => "Ogg"@,
        45 => "FLAC"@,
        46 => "MIDI"@,
        47 => "Matroska/WebM (EBML)"@,
        48 => "MP3 (ID3 tag)"@,
        49 => "pcap (LE)"@,
        50 => "pcap (BE)"@,
        51 => "pcapng"@,
        52 => "UTF-8 BOM"@,
        53 => "UTF-16 LE BOM"@,
        54 => "UTF-16 BE BOM"@,
        55 => "OpenSSL salted"@,
        56 => "PEM (BEGIN ...)"@,
        57 => "XML (declaration)"@,
        58 => "Shebang script"@,
        59 => "Mach-O (FE ED FA CE)"@,
        60 => "Mach-O (FE ED FA CF)"@,
        61 => "Mach-O (CE FA ED FE)"@,
        _ => "Mach-O (CF FA ED FE)"@,    }
}

/// Bytes of table signature `i`.
pub open spec fn signature_bytes(i: usize) -> Seq<u8> {
    match i {
        0 => seq![0x89u8, 0x50, 0x4E, 0x47, 0x0D, 0x0A, 0x1A, 0x0A],
        1 => seq![0xFFu8, 0xD8, 0xFF],
        2 => seq![0x47u8, 0x49, 0x46, 0x38, 0x37, 0x61],
        3 => seq![0x47u8, 0x49, 0x46, 0x38, 0x39, 0x61],
        4 => seq![0x42u8, 0x4D],
        5 => seq![0x49u8, 0x49, 0x2A, 0x00],
        6 => seq![0x4Du8, 0x4D, 0x00, 0x2A],
        7 => seq![0x00u8, 0x00, 0x01, 0x00],
        8 => seq![0x00u8, 0x00, 0x02, 0x00],
        9 => seq![0x38u8, 0x42, 0x50, 0x53],
        10 => seq![0x76u8, 0x2F, 0x31, 0x01],
        11 => seq![0x50u8, 0x4B, 0x03, 0x04],
        12 => seq![0x50u8, 0x4B, 0x01, 0x02],
        13 => seq![0x50u8, 0x4B, 0x05, 0x06],
        14 => seq![0x37u8, 0x7A, 0xBC, 0xAF, 0x27, 0x1C],
        15 => seq![0x52u8, 0x61, 0x72, 0x21, 0x1A, 0x07, 0x00],
        16 => seq![0x52u8, 0x61, 0x72, 0x21, 0x1A, 0x07, 0x01, 0x00],
        17 => seq![0x4Du8, 0x53, 0x43, 0x46],
        18 => seq![0x21u8, 0x3C, 0x61, 0x72, 0x63, 0x68, 0x3E, 0x0A],
        19 => seq![0x1Fu8, 0x8B],
        20 => seq![0x28u8, 0xB5, 0x2F, 0xFD],
        21 => seq![0xFDu8, 0x37, 0x7A, 0x58, 0x5A, 0x00],
        22 => seq![0x42u8, 0x5A, 0x68],
        23 => seq![0x04u8, 0x22, 0x4D, 0x18],
        24 => seq![0x4Cu8, 0x5A, 0x49, 0x50],
        25 => seq![0x1Fu8, 0x9D],
        26 => seq![0x5Du8, 0x00, 0x00, 0x80, 0x00],
        27 => seq![0x25u8, 0x50, 0x44, 0x46, 0x2D],
        28 => seq![0x25u8, 0x21, 0x50, 0x53, 0x2D, 0x41, 0x64, 0x6F, 0x62, 0x65, 0x2D],
        29 => seq![0x53u8, 0x51, 0x4C, 0x69, 0x74, 0x65, 0x20, 0x66, 0x6F, 0x72, 0x6D, 0x61, 0x74, 0x20, 0x33, 0x00],
        30 => seq![0x50u8, 0x41, 0x52, 0x31],
        31 => seq![0x4Fu8, 0x52, 0x43],
        32 => seq![0x62u8, 0x70, 0x6C, 0x69, 0x73, 0x74, 0x30, 0x30],
        33 => seq![0xD0u8, 0xCF, 0x11, 0xE0, 0xA1, 0xB1, 0x1A, 0xE1],
        34 => seq![0x7Fu8, 0x45, 0x4C, 0x46],
        35 => seq![0x4Du8, 0x5A],
        36 => seq![0x00u8, 0x61, 0x73, 0x6D],
        37 => seq![0xCAu8, 0xFE, 0xBA, 0xBE],
        38 => seq![0x64u8, 0x65, 0x78, 0x0A, 0x30, 0x33, 0x35, 0x00],
        39 => seq![0x64u8, 0x65, 0x78, 0x0A, 0x30, 0x33, 0x36, 0x00],
        40 => seq![0x00u8, 0x01, 0x00, 0x00],
        41 => seq![0x4Fu8, 0x54, 0x54, 0x4F],
        42 => seq![0x77u8, 0x4F, 0x46, 0x46],
        43 => seq![0x77u8, 0x4F, 0x46, 0x32],
        44 => seq![0x4Fu8, 0x67, 0x67, 0x53],
        45 => seq![0x66u8, 0x4C, 0x61, 0x43],
        46 => seq![0x4Du8, 0x54, 0x68, 0x64],
        47 => seq![0x1Au8, 0x45, 0xDF, 0xA3],
        48 => seq![0x49u8, 0x44, 0x33],
        49 => seq![0xD4u8, 0xC3, 0xB2, 0xA1],
        50 => seq![0xA1u8, 0xB2, 0xC3, 0xD4],
        51 => seq![0x0Au8, 0x0D, 0x0D, 0x0A],
        52 => seq![0xEFu8, 0xBB, 0xBF],
        53 => seq![0xFFu8, 0xFE],
        54 => seq![0xFEu8, 0xFF],
        55 => seq![0x53u8, 0x61, 0x6C, 0x74, 0x65, 0x64, 0x5F, 0x5F],
        56 => seq![0x2Du8, 0x2D, 0x2D, 0x2D, 0x2D, 0x42, 0x45, 0x47, 0x49, 0x4E, 0x20],
        57 => seq![0x3Cu8, 0x3F, 0x78, 0x6D, 0x6C],
        58 => seq![0x23u8, 0x21],
        59 => seq![0xFEu8, 0xED, 0xFA, 0xCE],
        60 => seq![0xFEu8, 0xED, 0xFA, 0xCF],
        61 => seq![0xCEu8, 0xFA, 0xED, 0xFE],
        _ => seq![0xCFu8, 0xFA, 0xED, 0xFE],    }
}

/// Table signature `i`: its name and its bytes. The table lists image,
/// archive, compression, document, executable, font, media, capture and
/// text-encoding signatures, then the common Mach-O magics.
pub fn signature(i: usize) -> (r: (&'static str, &'static [u8]))
    requires
        i < MAGIC_TABLE_LEN,
    ensures
        r.0@ == signature_name(i),
        r.1@ == signature_bytes(i),
{
    match i {
        0 => ("PNG", &[0x89u8, 0x50, 0x4E, 0x47, 0x0D, 0x0A, 0x1A, 0x0A]),  // \x89PNG\x0D\x0A\x1A\x0A
        1 => ("JPEG", &[0xFFu8, 0xD8, 0xFF]),  // \xFF\xD8\xFF
        2 => ("GIF87a", &[0x47u8, 0x49, 0x46, 0x38, 0x37, 0x61]),  // GIF87a
        3 => ("GIF89a", &[0x47u8, 0x49, 0x46, 0x38, 0x39, 0x61]),  // GIF89a
        4 => ("BMP", &[0x42u8, 0x4D]),  // BM
        5 => ("TIFF (LE)", &[0x49u8, 0x49, 0x2A, 0x00]),  // II*\x00
        6 => ("TIFF (BE)", &[0x4Du8, 0x4D, 0x00, 0x2A]),  // MM\x00*
        7 => ("ICO", &[0x00u8, 0x00, 0x01, 0x00]),  // \x00\x00\x01\x00
        8 => ("CUR", &[0x00u8, 0x00, 0x02, 0x00]),  // \x00\x00\x02\x00
        9 => ("Photoshop PSD", &[0x38u8, 0x42, 0x50, 0x53]),  // 8BPS
        10 => ("OpenEXR", &[0x76u8, 0x2F, 0x31, 0x01]),  // v/1\x01
        11 => ("ZIP (local file header)", &[0x50u8, 0x4B, 0x03, 0x04]),  // PK\x03\x04
        12 => ("ZIP (central directory)", &[0x50u8, 0x4B, 0x01, 0x02]),  // PK\x01\x02
        13 => ("ZIP (end of central dir)", &[0x50u8, 0x4B, 0x05, 0x06]),  // PK\x05\x06
        14 => ("7-Zip", &[0x37u8, 0x7A, 0xBC, 0xAF, 0x27, 0x1C]),  // 7z\xBC\xAF'\x1C
        15 => ("RAR (v1.5+)", &[0x52u8, 0x61, 0x72, 0x21, 0x1A, 0x07, 0x00]),  // Rar!\x1A\x07\x00
        16 => ("RAR (v5+)", &[0x52u8, 0x61, 0x72, 0x21, 0x1A, 0x07, 0x01, 0x00]),  // Rar!\x1A\x07\x01\x00
        17 => ("CAB", &[0x4Du8, 0x53, 0x43, 0x46]),  // MSCF
        18 => ("ar archive", &[0x21u8, 0x3C, 0x61, 0x72, 0x63, 0x68, 0x3E, 0x0A]),  // !<arch>\x0A
        19 => ("GZIP", &[0x1Fu8, 0x8B]),  // \x1F\x8B
        20 => ("Zstandard", &[0x28u8, 0xB5, 0x2F, 0xFD]),  // (\xB5/\xFD
        21 => ("XZ", &[0xFDu8, 0x37, 0x7A, 0x58, 0x5A, 0x00]),  // \xFD7zXZ\x00
        22 => ("Bzip2", &[0x42u8, 0x5A, 0x68]),  // BZh
        23 => ("LZ4 frame", &[0x04u8, 0x22, 0x4D, 0x18]),  // \x04"M\x18
        24 => ("LZIP", &[0x4Cu8, 0x5A, 0x49, 0x50]),  // LZIP
        25 => ("Unix compress (.Z)", &[0x1Fu8, 0x9D]),  // \x1F\x9D
        26 => ("LZMA (.lzma)", &[0x5Du8, 0x00, 0x00, 0x80, 0x00]),  // ]\x00\x00\x80\x00
        27 => ("PDF", &[0x25u8, 0x50, 0x44, 0x46, 0x2D]),  // %PDF-
        28 => ("PostScript", &[0x25u8, 0x21, 0x50, 0x53, 0x2D, 0x41, 0x64, 0x6F, 0x62, 0x65, 0x2D]),  // %!PS-Adobe-
        29 => ("SQLite 3", &[0x53u8, 0x51, 0x4C, 0x69, 0x74, 0x65, 0x20, 0x66, 0x6F, 0x72, 0x6D, 0x61, 0x74, 0x20, 0x33, 0x00]),  // SQLite format 3\x00
        30 => ("Apache Parquet", &[0x50u8, 0x41, 0x52, 0x31]),  // PAR1
        31 => ("Apache ORC", &[0x4Fu8, 0x52, 0x43]),  // ORC
        32 => ("bplist (binary plist)", &[0x62u8, 0x70, 0x6C, 0x69, 0x73, 0x74, 0x30, 0x30]),  // bplist00
        33 => ("Microsoft OLE2/CFBF", &[0xD0u8, 0xCF, 0x11, 0xE0, 0xA1, 0xB1, 0x1A, 0xE1]),  // \xD0\xCF\x11\xE0\xA1\xB1\x1A\xE1
        34 => ("ELF", &[0x7Fu8, 0x45, 0x4C, 0x46]),  // \x7FELF
        35 => ("PE/COFF (MZ)", &[0x4Du8, 0x5A]),  // MZ
        36 => ("Wasm", &[0x00u8, 0x61, 0x73, 0x6D]),  // \x00asm
        37 => ("Java class", &[0xCAu8, 0xFE, 0xBA, 0xBE]),  // \xCA\xFE\xBA\xBE
        38 => ("Dalvik DEX", &[0x64u8, 0x65, 0x78, 0x0A, 0x30, 0x33, 0x35, 0x00]),  // dex\x0A035\x00
        39 => ("Dalvik DEX (036)", &[0x64u8, 0x65, 0x78, 0x0A, 0x30, 0x33, 0x36, 0x00]),  // dex\x0A036\x00
        40 => ("TrueType font (TTF)", &[0x00u8, 0x01, 0x00, 0x00]),  // \x00\x01\x00\x00
        41 => ("OpenType font (OTF)", &[0x4Fu8, 0x54, 0x54, 0x4F]),  // OTTO
        42 => ("WOFF", &[0x77u8, 0x4F, 0x46, 0x46]),  // wOFF
        43 => ("WOFF2", &[0x77u8, 0x4F, 0x46, 0x32]),  // wOF2
        44 => ("Ogg", &[0x4Fu8, 0x67, 0x67, 0x53]),  // OggS
        45 => ("FLAC", &[0x66u8, 0x4C, 0x61, 0x43]),  // fLaC
        46 => ("MIDI", &[0x4Du8, 0x54, 0x68, 0x64]),  // MThd
        47 => ("Matroska/WebM (EBML)", &[0x1Au8, 0x45, 0xDF, 0xA3]),  // \x1AE\xDF\xA3
        48 => ("MP3 (ID3 tag)", &[0x49u8, 0x44, 0x33]),  // ID3
        49 => ("pcap (LE)", &[0xD4u8, 0xC3, 0xB2, 0xA1]),  // \xD4\xC3\xB2\xA1
        50 => ("pcap (BE)", &[0xA1u8, 0xB2, 0xC3, 0xD4]),  // \xA1\xB2\xC3\xD4
        51 => ("pcapng", &[0x0Au8, 0x0D, 0x0D, 0x0A]),  // \x0A\x0D\x0D\x0A
        52 => ("UTF-8 BOM", &[0xEFu8, 0xBB, 0xBF]),  // \xEF\xBB\xBF
        53 => ("UTF-16 LE BOM", &[0xFFu8, 0xFE]),  // \xFF\xFE
        54 => ("UTF-16 BE BOM", &[0xFEu8, 0xFF]),  // \xFE\xFF
        55 => ("OpenSSL salted", &[0x53u8, 0x61, 0x6C, 0x74, 0x65, 0x64, 0x5F, 0x5F]),  // Salted__
        56 => ("PEM (BEGIN ...)", &[0x2Du8, 0x2D, 0x2D, 0x2D, 0x2D, 0x42, 0x45, 0x47, 0x49, 0x4E, 0x20]),  // -----BEGIN 
        57 => ("XML (declaration)", &[0x3Cu8, 0x3F, 0x78, 0x6D, 0x6C]),  // <?xml
        58 => ("Shebang script", &[0x23u8, 0x21]),  // #!
        59 => ("Mach-O (FE ED FA CE)", &[0xFEu8, 0xED, 0xFA, 0xCE]),  // \xFE\xED\xFA\xCE
        60 => ("Mach-O (FE ED FA CF)", &[0xFEu8, 0xED, 0xFA, 0xCF]),  // \xFE\xED\xFA\xCF
        61 => ("Mach-O (CE FA ED FE)", &[0xCEu8, 0xFA, 0xED, 0xFE]),  // \xCE\xFA\xED\xFE
        _ => ("Mach-O (CF FA ED FE)", &[0xCFu8, 0xFA, 0xED, 0xFE]),    }
}

/// Whether `lit` occurs in `hay` at position `start`.
pub fn bytes_match_at(hay: &[u8], start: usize, lit: &[u8]) -> (r: bool)
    ensures
        r == matches_at(hay@, lit@, start as int),
{
    if start > hay.len() || lit.len() > hay.len() - start {
        return false;
    }
    let mut j: usize = 0;
    while j < lit.len()
        invariant
            start + lit.len() <= hay.len(),
            j <= lit.len(),
            forall|k: int| 0 <= k < j ==> hay@[start + k] == lit@[k],
        decreases lit.len() - j,
    {
        if hay[start + j] != lit[j] {
            assert(hay@.subrange(start as int, start + lit.len())[j as int] != lit@[j as int]);
            return false;
        }
        j = j + 1;
    }
    assert(hay@.subrange(start as int, start + lit.len()) =~= lit@);
    true
}

/// The first position at which `needle` occurs in `hay` (0 for an empty
/// needle), or `None` when it does not occur.
pub fn find_subslice(hay: &[u8], needle: &[u8]) -> (r: Option<usize>)
    ensures
        match r {
            Some(p) => first_match(hay@, needle@) == Some(p as int),
            None => first_match(hay@, needle@) is None,
        },
{
    if needle.len() == 0 {
        assert(hay@.subrange(0, 0) =~= needle@);
        proof {
            lemma_first_match_is(hay@, needle@, 0);
        }
        return Some(0);
    }
    if hay.len() < needle.len() {
        return None;
    }
    let last = hay.len() - needle.len();
    let mut p: usize = 0;
    while p <= last
        invariant
            last + needle.len() == hay.len(),
            p <= last + 1,
            needle@.len() > 0,
            forall|q: int| 0 <= q < p ==> !matches_at(hay@, needle@, q),
        decreases last + 1 - p,
    {
        if bytes_match_at(hay, p, needle) {
            proof {
                lemma_first_match_is(hay@, needle@, p as int);
            }
            return Some(p);
        }
        p = p + 1;
    }
    None
}

/// Hits of the first `n` table signatures, each at its first occurrence,
/// in table order.
pub open spec fn table_hits(sample: Seq<u8>, n: int) -> Seq<(Seq<char>, int, bool)>
    decreases n,
{
    if n <= 0 {
        Seq::empty()
    } else {
        let prev = table_hits(sample, n - 1);
        match first_match(sample, signature_bytes((n - 1) as usize)) {
            Some(at) => prev.push(magic_hit(signature_name((n - 1) as usize), at)),
            None => prev,
        }
    }
}

/// One hit when `cond` holds, none otherwise.
pub open spec fn hit_if(cond: bool, name: Seq<char>, at: int) -> Seq<(Seq<char>, int, bool)> {
    if cond {
        seq![magic_hit(name, at)]
    } else {
        Seq::empty()
    }
}

/// zlib stream header: 0x78 followed by 0x01, 0x5E, 0x9C or 0xDA.
#[verifier::opaque]
pub open spec fn zlib_hits(s: Seq<u8>) -> Seq<(Seq<char>, int, bool)> {
    hit_if(
        s.len() >= 2 && s[0] == 0x78 && (s[1] == 0x01 || s[1] == 0x5E || s[1] == 0x9C || s[1]
            == 0xDA),
        "zlib/deflate (0x78 ?? header)"@,
        0,
    )
}

/// Name of a RIFF container by the form type at offset 8.
pub open spec fn riff_name(s: Seq<u8>) -> Seq<char> {
    if matches_at(s, seq![0x57u8, 0x41, 0x56, 0x45], 8) {
        "WAV (RIFF/WAVE)"@
    } else if matches_at(s, seq![0x41u8, 0x56, 0x49, 0x20], 8) {
        "AVI (RIFF/AVI)"@
    } else if matches_at(s, seq![0x57u8, 0x45, 0x42, 0x50], 8) {
        "WebP (RIFF/WEBP)"@
    } else {
        "RIFF container"@
    }
}

/// "RIFF" at offset 0 of a sample of at least 12 bytes.
#[verifier::opaque]
pub open spec fn riff_hits(s: Seq<u8>) -> Seq<(Seq<char>, int, bool)> {
    hit_if(s.len() >= 12 && matches_at(s, seq![0x52u8, 0x49, 0x46, 0x46], 0), riff_name(s), 0)
}

/// "ftyp" at offset 4 of a sample of at least 12 bytes.
#[verifier::opaque]
pub open spec fn ftyp_hits(s: Seq<u8>) -> Seq<(Seq<char>, int, bool)> {
    hit_if(
        s.len() >= 12 && matches_at(s, seq![0x66u8, 0x74, 0x79, 0x70], 4),
        "ISO BMFF / MP4 (ftyp)"@,
        4,
    )
}

/// "ustar" at offset 257.
#[verifier::opaque]
pub open spec fn tar_hits(s: Seq<u8>) -> Seq<(Seq<char>, int, bool)> {
    hit_if(
        s.len() >= 262 && matches_at(s, seq![0x75u8, 0x73, 0x74, 0x61, 0x72], 257),
        "TAR (ustar)"@,
        257,
    )
}

/// Sync byte 0x47 at offsets 0, 188 and 376.
#[verifier::opaque]
pub open spec fn mpegts_hits(s: Seq<u8>) -> Seq<(Seq<char>, int, bool)> {
    hit_if(
        s.len() > 376 && s[0] == 0x47 && s[188] == 0x47 && s[376] == 0x47,
        "MPEG-TS (188-byte packets)"@,
        0,
    )
}

/// Superblock magic 0xEF53 (little endian) at offset 1080.
#[verifier::opaque]
pub open spec fn ext_hits(s: Seq<u8>) -> Seq<(Seq<char>, int, bool)> {
    hit_if(
        s.len() >= 1082 && s[1080] == 0x53 && s[1081] == 0xEF,
        "ext2/3/4 filesystem (EF53)"@,
        1080,
    )
}

/// Boot signature 0x55 0xAA at offset 510.
#[verifier::opaque]
pub open spec fn mbr_hits(s: Seq<u8>) -> Seq<(Seq<char>, int, bool)> {
    hit_if(
        s.len() >= 512 && s[510] == 0x55 && s[511] == 0xAA,
        "MBR boot sector (0x55AA)"@,
        510,
    )
}

/// "EFI PART" at offset 512.
#[verifier::opaque]
pub open spec fn gpt_hits(s: Seq<u8>) -> Seq<(Seq<char>, int, bool)> {
    hit_if(
        s.len() >= 520 && matches_at(s, seq![0x45u8, 0x46, 0x49, 0x20, 0x50, 0x41, 0x52, 0x54], 512),
        "GPT header (EFI PART)"@,
        512,
    )
}

/// "CD001" at offset 0x8001.
#[verifier::opaque]
pub open spec fn iso_hits(s: Seq<u8>) -> Seq<(Seq<char>, int, bool)> {
    hit_if(
        s.len() >= 0x8006 && matches_at(s, seq![0x43u8, 0x44, 0x30, 0x30, 0x31], 0x8001),
        "ISO9660 (CD001)"@,
        0x8001,
    )
}

/// Number of leading whitespace bytes of `s`.
pub open spec fn leading_ws(s: Seq<u8>) -> nat
    decreases s.len(),
{
    if s.len() > 0 && is_ws(s[0]) {
        1 + leading_ws(s.drop_first())
    } else {
        0
    }
}

proof fn lemma_leading_ws(s: Seq<u8>, i: int)
    requires
        0 <= i <= s.len(),
        forall|j: int| 0 <= j < i ==> is_ws(#[trigger] s[j]),
        i == s.len() || !is_ws(s[i]),
    ensures
        leading_ws(s) == i,
    decreases i,
{
    if i > 0 {
        let t = s.drop_first();
        assert forall|j: int| 0 <= j < i - 1 implies is_ws(#[trigger] t[j]) by {
            assert(t[j] == s[j + 1]);
        }
        if i - 1 < t.len() {
            assert(t[i - 1] == s[i]);
        }
        lemma_leading_ws(t, i - 1);
    }
}

/// End of the look-ahead window of 64 bytes that starts at `i`.
pub open spec fn json_look_end(s: Seq<u8>, i: int) -> int {
    if s.len() < i + 64 {
        s.len() as int
    } else {
        i + 64
    }
}

/// After leading whitespace, the sample starts with `{` or `[`, and more
/// than 95% of the next 64 bytes (fewer at the end of the sample) are
/// printable.
#[verifier::opaque]
pub open spec fn json_hits(s: Seq<u8>) -> Seq<(Seq<char>, int, bool)> {
    let i = leading_ws(s) as int;
    let end = json_look_end(s, i);
    hit_if(
        i < s.len() && (s[i] == 0x7B || s[i] == 0x5B) && 20 * count_class(
            s.subrange(i, end),
            ByteClass::Printable,
        ) > 19 * (end - i),
        "JSON (text, heuristic)"@,
        i,
    )
}

/// The hits that rest on bytes alone: the table signatures in table order,
/// then the checks at fixed offsets in the order they are made.
pub open spec fn signature_hits(s: Seq<u8>) -> Seq<(Seq<char>, int, bool)> {
    table_hits(s, MAGIC_TABLE_LEN as int) + zlib_hits(s) + riff_hits(s) + ftyp_hits(s) + tar_hits(s)
        + mpegts_hits(s) + ext_hits(s) + mbr_hits(s) + gpt_hits(s) + iso_hits(s)
}

/// All hits for a sample: the signature hits, then the JSON heuristic.
pub open spec fn magic_hits(s: Seq<u8>) -> Seq<(Seq<char>, int, bool)> {
    signature_hits(s) + json_hits(s)
}

fn push_hit(hits: &mut Vec<MagicHit>, name: &'static str, at: usize)
    ensures
        hits_view(final(hits)@) == hits_view(old(hits)@).push(magic_hit(name@, at as int)),
{
    hits.push(MagicHit { name, at, strong: at == 0 });
    assert(hits_view(hits@) =~= hits_view(old(hits)@).push(magic_hit(name@, at as int)));
}

fn push_if(hits: &mut Vec<MagicHit>, cond: bool, name: &'static str, at: usize)
    ensures
        hits_view(final(hits)@) == hits_view(old(hits)@) + hit_if(cond, name@, at as int),
{
    if cond {
        push_hit(hits, name, at);
        assert(hits_view(hits@) =~= hits_view(old(hits)@) + hit_if(cond, name@, at as int));
    } else {
        assert(hits_view(hits@) =~= hits_view(old(hits)@) + hit_if(cond, name@, at as int));
    }
}

fn scan_table(sample: &[u8]) -> (hits: Vec<MagicHit>)
    ensures
        hits_view(hits@) == table_hits(sample@, MAGIC_TABLE_LEN as int),
{
    let mut hits: Vec<MagicHit> = Vec::new();
    let mut i: usize = 0;
    assert(hits_view(hits@) =~= table_hits(sample@, 0));
    while i < MAGIC_TABLE_LEN
        invariant
            i <= MAGIC_TABLE_LEN,
            hits_view(hits@) == table_hits(sample@, i as int),
        decreases MAGIC_TABLE_LEN - i,
    {
        let (name, sig) = signature(i);
        match find_subslice(sample, sig) {
            Some(at) => {
                push_hit(&mut hits, name, at);
            },
            None => {},
        }
        i = i + 1;
    }
    hits
}

fn riff_kind_name(sample: &[u8]) -> (r: &'static str)
    ensures
        r@ == riff_name(sample@),
{
    if bytes_match_at(sample, 8, &[0x57u8, 0x41, 0x56, 0x45]) {
        "WAV (RIFF/WAVE)"
    } else if bytes_match_at(sample, 8, &[0x41u8, 0x56, 0x49, 0x20]) {
        "AVI (RIFF/AVI)"
    } else if bytes_match_at(sample, 8, &[0x57u8, 0x45, 0x42, 0x50]) {
        "WebP (RIFF/WEBP)"
    } else {
        "RIFF container"
    }
}

fn json_check(sample: &[u8]) -> (r: (bool, usize))
    ensures
        json_hits(sample@) == hit_if(r.0, "JSON (text, heuristic)"@, r.1 as int),
{
    let mut i: usize = 0;
    while i < sample.len() && (sample[i] == 0x20 || sample[i] == 0x09 || sample[i] == 0x0D
        || sample[i] == 0x0A)
        invariant
            i <= sample.len(),
            forall|j: int| 0 <= j < i ==> is_ws(#[trigger] sample@[j]),
        decreases sample.len() - i,
    {
        i = i + 1;
    }
    proof {
        lemma_leading_ws(sample@, i as int);
        reveal(json_hits);
    }
    if i < sample.len() && (sample[i] == 0x7B || sample[i] == 0x5B) {
        let end = if sample.len() - i < 64 {
            sample.len()
        } else {
            i + 64
        };
        let printable = count_in_range(sample, i, end, ByteClass::Printable);
        proof {
            lemma_count_class_le_len(sample@.subrange(i as int, end as int), ByteClass::Printable);
        }
        let ok = 20 * printable > 19 * (end - i);
        (ok, i)
    } else {
        (false, i)
    }
}

fn zlib_check(sample: &[u8]) -> (r: bool)
    ensures
        zlib_hits(sample@) == hit_if(r, "zlib/deflate (0x78 ?? header)"@, 0),
{
    reveal(zlib_hits);
    sample.len() >= 2 && sample[0] == 0x78 && (sample[1] == 0x01 || sample[1] == 0x5E
        || sample[1] == 0x9C || sample[1] == 0xDA)
}

fn ftyp_check(sample: &[u8]) -> (r: bool)
    ensures
        ftyp_hits(sample@) == hit_if(r, "ISO BMFF / MP4 (ftyp)"@, 4),
{
    reveal(ftyp_hits);
    sample.len() >= 12 && bytes_match_at(sample, 4, &[0x66u8, 0x74, 0x79, 0x70])
}

fn tar_check(sample: &[u8]) -> (r: bool)
    ensures
        tar_hits(sample@) == hit_if(r, "TAR (ustar)"@, 257),
{
    reveal(tar_hits);
    sample.len() >= 262 && bytes_match_at(sample, 257, &[0x75u8, 0x73, 0x74, 0x61, 0x72])
}

fn mpegts_check(sample: &[u8]) -> (r: bool)
    ensures
        mpegts_hits(sample@) == hit_if(r, "MPEG-TS (188-byte packets)"@, 0),
{
    reveal(mpegts_hits);
    sample.len() > 376 && sample[0] == 0x47 && sample[188] == 0x47 && sample[376] == 0x47
}

fn ext_check(sample: &[u8]) -> (r: bool)
    ensures
        ext_hits(sample@) == hit_if(r, "ext2/3/4 filesystem (EF53)"@, 1080),
{
    reveal(ext_hits);
    sample.len() >= 1082 && sample[1080] == 0x53 && sample[1081] == 0xEF
}

fn mbr_check(sample: &[u8]) -> (r: bool)
    ensures
        mbr_hits(sample@) == hit_if(r, "MBR boot sector (0x55AA)"@, 510),
{
    reveal(mbr_hits);
    sample.len() >= 512 && sample[510] == 0x55 && sample[511] == 0xAA
}

fn gpt_check(sample: &[u8]) -> (r: bool)
    ensures
        gpt_hits(sample@) == hit_if(r, "GPT header (EFI PART)"@, 512),
{
    reveal(gpt_hits);
    sample.len() >= 520 && bytes_match_at(
        sample,
        512,
        &[0x45u8, 0x46, 0x49, 0x20, 0x50, 0x41, 0x52, 0x54],
    )
}

fn iso_check(sample: &[u8]) -> (r: bool)
    ensures
        iso_hits(sample@) == hit_if(r, "ISO9660 (CD001)"@, 0x8001),
{
    reveal(iso_hits);
    sample.len() >= 0x8006 && bytes_match_at(sample, 0x8001, &[0x43u8, 0x44, 0x30, 0x30, 0x31])
}

fn riff_check(sample: &[u8]) -> (r: (bool, &'static str))
    ensures
        riff_hits(sample@) == hit_if(r.0, r.1@, 0),
{
    reveal(riff_hits);
    let riff = sample.len() >= 12 && bytes_match_at(sample, 0, &[0x52u8, 0x49, 0x46, 0x46]);
    (riff, riff_kind_name(sample))
}

/// Every signature found in `sample`: the table signatures (each at its first
/// occurrence, in table order), then the checks at fixed offsets (zlib header,
/// RIFF, ftyp, ustar, MPEG-TS, ext superblock, MBR, GPT, ISO9660, JSON).
pub fn scan_magic(sample: &[u8]) -> (hits: Vec<MagicHit>)
    ensures
        hits_view(hits@) == magic_hits(sample@),
{
    let ghost s = sample@;
    let mut hits = scan_table(sample);
    let ghost mut expect = table_hits(s, MAGIC_TABLE_LEN as int);

    let zlib = zlib_check(sample);
    push_if(&mut hits, zlib, "zlib/deflate (0x78 ?? header)", 0);
    proof { expect = expect + zlib_hits(s); }

    let (riff, riff_kind) = riff_check(sample);
    push_if(&mut hits, riff, riff_kind, 0);
    proof { expect = expect + riff_hits(s); }

    let ftyp = ftyp_check(sample);
    push_if(&mut hits, ftyp, "ISO BMFF / MP4 (ftyp)", 4);
    proof { expect = expect + ftyp_hits(s); }

    let tar = tar_check(sample);
    push_if(&mut hits, tar, "TAR (ustar)", 257);
    proof { expect = expect + tar_hits(s); }

    let ts = mpegts_check(sample);
    push_if(&mut hits, ts, "MPEG-TS (188-byte packets)", 0);
    proof { expect = expect + mpegts_hits(s); }

    let ext = ext_check(sample);
    push_if(&mut hits, ext, "ext2/3/4 filesystem (EF53)", 1080);
    proof { expect = expect + ext_hits(s); }

    let mbr = mbr_check(sample);
    push_if(&mut hits, mbr, "MBR boot sector (0x55AA)", 510);
    proof { expect = expect + mbr_hits(s); }

    let gpt = gpt_check(sample);
    push_if(&mut hits, gpt, "GPT header (EFI PART)", 512);
    proof { expect = expect + gpt_hits(s); }

    let iso = iso_check(sample);
    push_if(&mut hits, iso, "ISO9660 (CD001)", 0x8001);
    proof { expect = expect + iso_hits(s); }

    let (json, json_at) = json_check(sample);
    push_if(&mut hits, json, "JSON (text, heuristic)", json_at);
    proof { expect = expect + json_hits(s); }

    assert(expect == magic_hits(s));
    hits
}

/// `name` is the name of a signature of compressed data or of an archive.
pub open spec fn is_compression_name(name: &str) -> bool {
    let b = name.spec_bytes();
    ||| b == "ZIP (local file header)".spec_bytes()
    ||| b == "ZIP (central directory)".spec_bytes()
    ||| b == "ZIP (end of central dir)".spec_bytes()
    ||| b == "7-Zip".spec_bytes()
    ||| b == "RAR (v1.5+)".spec_bytes()
    ||| b == "RAR (v5+)".spec_bytes()
    ||| b == "CAB".spec_bytes()
    ||| b == "ar archive".spec_bytes()
    ||| b == "GZIP".spec_bytes()
    ||| b == "Zstandard".spec_bytes()
    ||| b == "XZ".spec_bytes()
    ||| b == "Bzip2".spec_bytes()
    ||| b == "LZ4 frame".spec_bytes()
    ||| b == "LZIP".spec_bytes()
    ||| b == "Unix compress (.Z)".spec_bytes()
    ||| b == "LZMA (.lzma)".spec_bytes()
}

/// A hit counts as compressed data or an archive exactly when it is one of
/// the ZIP records (local file header, central directory, end of central
/// directory), 7-Zip, RAR (v1.5+ or v5+), CAB, ar, GZIP, Zstandard, XZ,
/// Bzip2, LZ4 frame, LZIP, Unix compress or LZMA.
pub proof fn lemma_compression_names(name: &str)
    ensures
        is_compression_name(name) <==> {
        ||| name.spec_bytes() == "ZIP (local file header)".spec_bytes()
        ||| name.spec_bytes() == "ZIP (central directory)".spec_bytes()
        ||| name.spec_bytes() == "ZIP (end of central dir)".spec_bytes()
        ||| name.spec_bytes() == "7-Zip".spec_bytes()
        ||| name.spec_bytes() == "RAR (v1.5+)".spec_bytes()
        ||| name.spec_bytes() == "RAR (v5+)".spec_bytes()
        ||| name.spec_bytes() == "CAB".spec_bytes()
        ||| name.spec_bytes() == "ar archive".spec_bytes()
        ||| name.spec_bytes() == "GZIP".spec_bytes()
        ||| name.spec_bytes() == "Zstandard".spec_bytes()
        ||| name.spec_bytes() == "XZ".spec_bytes()
        ||| name.spec_bytes() == "Bzip2".spec_bytes()
        ||| name.spec_bytes() == "LZ4 frame".spec_bytes()
        ||| name.spec_bytes() == "LZIP".spec_bytes()
        ||| name.spec_bytes() == "Unix compress (.Z)".spec_bytes()
        ||| name.spec_bytes() == "LZMA (.lzma)".spec_bytes()
        },
{
}

/// `a` and `b` hold the same text.
fn same_text(a: &str, b: &str) -> (r: bool)
    ensures
        r == (a.spec_bytes() == b.spec_bytes()),
{
    let x = a.as_bytes();
    let y = b.as_bytes();
    if x.len() != y.len() {
        return false;
    }
    let mut i: usize = 0;
    while i < x.len()
        invariant
            x@ == a.spec_bytes(),
            y@ == b.spec_bytes(),
            x@.len() == y@.len(),
            i <= x@.len(),
            forall|j: int| 0 <= j < i ==> x@[j] == y@[j],
        decreases x@.len() - i,
    {
        if x[i] != y[i] {
            return false;
        }
        i = i + 1;
    }
    assert(x@ =~= y@);
    true
}

fn compression_name(name: &str) -> (r: bool)
    ensures
        r == is_compression_name(name),
{
    same_text(name, "ZIP (local file header)")
        || same_text(name, "ZIP (central directory)")
        || same_text(name, "ZIP (end of central dir)")
        || same_text(name, "7-Zip")
        || same_text(name, "RAR (v1.5+)")
        || same_text(name, "RAR (v5+)")
        || same_text(name, "CAB")
        || same_text(name, "ar archive")
        || same_text(name, "GZIP")
        || same_text(name, "Zstandard")
        || same_text(name, "XZ")
        || same_text(name, "Bzip2")
        || same_text(name, "LZ4 frame")
        || same_text(name, "LZIP")
        || same_text(name, "Unix compress (.Z)")
        || same_text(name, "LZMA (.lzma)")
}

/// Some hit names a signature of compressed data or of an archive.
pub fn has_compression_magic(hits: &[MagicHit]) -> (r: bool)
    ensures
        r == exists|i: int| 0 <= i < hits@.len() && is_compression_name(#[trigger] hits@[i].name),
{
    let mut i: usize = 0;
    while i < hits.len()
        invariant
            i <= hits@.len(),
            forall|j: int| 0 <= j < i ==> !is_compression_name(#[trigger] hits@[j].name),
        decreases hits@.len() - i,
    {
        if compression_name(hits[i].name) {
            return true;
        }
        i = i + 1;
    }
    false
}

/// Every element of `a` occurs in `b`.
pub open spec fn hits_included(a: Seq<(Seq<char>, int, bool)>, b: Seq<(Seq<char>, int, bool)>) -> bool {
    forall|h: (Seq<char>, int, bool)| a.contains(h) ==> b.contains(h)
}

proof fn lemma_included_concat(
    a: Seq<(Seq<char>, int, bool)>,
    b: Seq<(Seq<char>, int, bool)>,
    a2: Seq<(Seq<char>, int, bool)>,
    b2: Seq<(Seq<char>, int, bool)>,
)
    requires
        hits_included(a, a2),
        hits_included(b, b2),
    ensures
        hits_included(a + b, a2 + b2),
{
    assert forall|h: (Seq<char>, int, bool)| (a + b).contains(h) implies (a2 + b2).contains(h) by {
        let i = choose|i: int| 0 <= i < (a + b).len() && (a + b)[i] == h;
        if i < a.len() {
            assert(a[i] == h);
            assert(a.contains(h));
            let j = choose|j: int| 0 <= j < a2.len() && a2[j] == h;
            assert((a2 + b2)[j] == h);
        } else {
            assert(b[i - a.len()] == h);
            assert(b.contains(h));
            let j = choose|j: int| 0 <= j < b2.len() && b2[j] == h;
            assert((a2 + b2)[a2.len() + j] == h);
        }
    }
}

/// Some match comes first: below any match lies a least one.
proof fn lemma_least_match(hay: Seq<u8>, needle: Seq<u8>, p: int)
    requires
        matches_at(hay, needle, p),
    ensures
        exists|m: int|
            matches_at(hay, needle, m) && forall|q: int| 0 <= q < m ==> !matches_at(hay, needle, q),
    decreases p,
{
    if exists|q: int| 0 <= q < p && matches_at(hay, needle, q) {
        let q = choose|q: int| 0 <= q < p && matches_at(hay, needle, q);
        lemma_least_match(hay, needle, q);
    } else {
        assert(forall|q: int| 0 <= q < p ==> !matches_at(hay, needle, q));
    }
}

/// A match inside `s` is still a match, and still the first one, once bytes
/// are appended.
proof fn lemma_first_match_extend(s: Seq<u8>, t: Seq<u8>, needle: Seq<u8>)
    requires
        first_match(s, needle) is Some,
    ensures
        first_match(s + t, needle) == first_match(s, needle),
{
    let p0 = choose|p: int| matches_at(s, needle, p);
    lemma_least_match(s, needle, p0);
    let p = first_match(s, needle)->0;
    let u = s + t;
    assert(matches_at(s, needle, p));
    assert(u.subrange(p, p + needle.len()) =~= s.subrange(p, p + needle.len()));
    assert forall|q: int| 0 <= q < p implies !matches_at(u, needle, q) by {
        assert(!matches_at(s, needle, q));
        assert(u.subrange(q, q + needle.len()) =~= s.subrange(q, q + needle.len()));
    }
    lemma_first_match_is(u, needle, p);
}

proof fn lemma_table_hits_extend(s: Seq<u8>, t: Seq<u8>, n: int)
    ensures
        hits_included(table_hits(s, n), table_hits(s + t, n)),
    decreases n,
{
    if n > 0 {
        lemma_table_hits_extend(s, t, n - 1);
        let sig = signature_bytes((n - 1) as usize);
        let prev = table_hits(s, n - 1);
        let prev2 = table_hits(s + t, n - 1);
        if first_match(s, sig) is Some {
            lemma_first_match_extend(s, t, sig);
            let x = magic_hit(signature_name((n - 1) as usize), first_match(s, sig)->0);
            lemma_included_concat(prev, seq![x], prev2, seq![x]);
            assert(prev.push(x) =~= prev + seq![x]);
            assert(prev2.push(x) =~= prev2 + seq![x]);
        } else {
            assert forall|h: (Seq<char>, int, bool)| prev.contains(h) implies table_hits(
                s + t,
                n,
            ).contains(h) by {
                let j = choose|j: int| 0 <= j < prev2.len() && prev2[j] == h;
                match first_match(s + t, sig) {
                    Some(at) => {
                        let x = magic_hit(signature_name((n - 1) as usize), at);
                        assert(prev2.push(x)[j] == h);
                    },
                    None => {},
                }
            }
        }
    }
}

/// A check at fixed offsets that holds of `s` holds, with the same hit, once
/// bytes are appended.
proof fn lemma_fixed_hits_extend(s: Seq<u8>, t: Seq<u8>)
    ensures
        hits_included(zlib_hits(s), zlib_hits(s + t)),
        hits_included(riff_hits(s), riff_hits(s + t)),
        hits_included(ftyp_hits(s), ftyp_hits(s + t)),
        hits_included(tar_hits(s), tar_hits(s + t)),
        hits_included(mpegts_hits(s), mpegts_hits(s + t)),
        hits_included(ext_hits(s), ext_hits(s + t)),
        hits_included(mbr_hits(s), mbr_hits(s + t)),
        hits_included(gpt_hits(s), gpt_hits(s + t)),
        hits_included(iso_hits(s), iso_hits(s + t)),
{
    let u = s + t;
    reveal(zlib_hits);
    reveal(riff_hits);
    reveal(ftyp_hits);
    reveal(tar_hits);
    reveal(mpegts_hits);
    reveal(ext_hits);
    reveal(mbr_hits);
    reveal(gpt_hits);
    reveal(iso_hits);
    if s.len() >= 2 {
        assert(u[0] == s[0] && u[1] == s[1]);
    }
    if s.len() >= 12 {
        assert(u.subrange(0, 4) =~= s.subrange(0, 4));
        assert(u.subrange(4, 8) =~= s.subrange(4, 8));
        assert(u.subrange(8, 12) =~= s.subrange(8, 12));
        assert(riff_name(u) == riff_name(s));
    }
    if s.len() >= 262 {
        assert(u.subrange(257, 262) =~= s.subrange(257, 262));
    }
    if s.len() > 376 {
        assert(u[0] == s[0] && u[188] == s[188] && u[376] == s[376]);
    }
    if s.len() >= 1082 {
        assert(u[1080] == s[1080] && u[1081] == s[1081]);
    }
    if s.len() >= 512 {
        assert(u[510] == s[510] && u[511] == s[511]);
    }
    if s.len() >= 520 {
        assert(u.subrange(512, 520) =~= s.subrange(512, 520));
    }
    if s.len() >= 0x8006 {
        assert(u.subrange(0x8001, 0x8006) =~= s.subrange(0x8001, 0x8006));
    }
}

/// Appending bytes to a sample never drops or moves a signature hit: every
/// table signature and every check at a fixed offset found in `s` is found,
/// with the same name, offset and strength, in `s + t`. (The JSON heuristic
/// looks at the bytes that follow and is not covered.)
pub proof fn lemma_scan_magic_append(s: Seq<u8>, t: Seq<u8>)
    ensures
        hits_included(signature_hits(s), magic_hits(s + t)),
{
    let u = s + t;
    lemma_table_hits_extend(s, t, MAGIC_TABLE_LEN as int);
    lemma_fixed_hits_extend(s, t);
    let a0 = table_hits(s, MAGIC_TABLE_LEN as int);
    let b0 = table_hits(u, MAGIC_TABLE_LEN as int);
    let a1 = a0 + zlib_hits(s);
    let b1 = b0 + zlib_hits(u);
    lemma_included_concat(a0, zlib_hits(s), b0, zlib_hits(u));
    let a2 = a1 + riff_hits(s);
    let b2 = b1 + riff_hits(u);
    lemma_included_concat(a1, riff_hits(s), b1, riff_hits(u));
    let a3 = a2 + ftyp_hits(s);
    let b3 = b2 + ftyp_hits(u);
    lemma_included_concat(a2, ftyp_hits(s), b2, ftyp_hits(u));
    let a4 = a3 + tar_hits(s);
    let b4 = b3 + tar_hits(u);
    lemma_included_concat(a3, tar_hits(s), b3, tar_hits(u));
    let a5 = a4 + mpegts_hits(s);
    let b5 = b4 + mpegts_hits(u);
    lemma_included_concat(a4, mpegts_hits(s), b4, mpegts_hits(u));
    let a6 = a5 + ext_hits(s);
    let b6 = b5 + ext_hits(u);
    lemma_included_concat(a5, ext_hits(s), b5, ext_hits(u));
    let a7 = a6 + mbr_hits(s);
    let b7 = b6 + mbr_hits(u);
    lemma_included_concat(a6, mbr_hits(s), b6, mbr_hits(u));
    let a8 = a7 + gpt_hits(s);
    let b8 = b7 + gpt_hits(u);
    lemma_included_concat(a7, gpt_hits(s), b7, gpt_hits(u));
    lemma_included_concat(a8, iso_hits(s), b8, iso_hits(u));
    assert(hits_included(signature_hits(s), signature_hits(u)));
    assert forall|h: (Seq<char>, int, bool)| signature_hits(u).contains(h) implies magic_hits(
        u,
    ).contains(h) by {
        let j = choose|j: int| 0 <= j < signature_hits(u).len() && signature_hits(u)[j] == h;
        assert(magic_hits(u)[j] == h);
    }
}

proof fn lemma_in_concat(a: Seq<(Seq<char>, int, bool)>, b: Seq<(Seq<char>, int, bool)>, h: (Seq<char>, int, bool))
    ensures
        (a.contains(h) || b.contains(h)) ==> (a + b).contains(h),
{
    if a.contains(h) {
        let i = choose|i: int| 0 <= i < a.len() && a[i] == h;
        assert((a + b)[i] == h);
    } else if b.contains(h) {
        let i = choose|i: int| 0 <= i < b.len() && b[i] == h;
        assert((a + b)[a.len() + i] == h);
    }
}

/// Every hit of a part of the scan is a hit of the whole scan.
proof fn lemma_parts_in_magic(s: Seq<u8>, h: (Seq<char>, int, bool))
    ensures
        (table_hits(s, MAGIC_TABLE_LEN as int).contains(h) || zlib_hits(s).contains(h)
            || riff_hits(s).contains(h) || ftyp_hits(s).contains(h) || tar_hits(s).contains(h)
            || mpegts_hits(s).contains(h) || ext_hits(s).contains(h) || mbr_hits(s).contains(h)
            || gpt_hits(s).contains(h) || iso_hits(s).contains(h) || json_hits(s).contains(h))
            ==> magic_hits(s).contains(h),
{
    let a0 = table_hits(s, MAGIC_TABLE_LEN as int);
    let a1 = a0 + zlib_hits(s);
    let a2 = a1 + riff_hits(s);
    let a3 = a2 + ftyp_hits(s);
    let a4 = a3 + tar_hits(s);
    let a5 = a4 + mpegts_hits(s);
    let a6 = a5 + ext_hits(s);
    let a7 = a6 + mbr_hits(s);
    let a8 = a7 + gpt_hits(s);
    let a9 = a8 + iso_hits(s);
    lemma_in_concat(a0, zlib_hits(s), h);
    lemma_in_concat(a1, riff_hits(s), h);
    lemma_in_concat(a2, ftyp_hits(s), h);
    lemma_in_concat(a3, tar_hits(s), h);
    lemma_in_concat(a4, mpegts_hits(s), h);
    lemma_in_concat(a5, ext_hits(s), h);
    lemma_in_concat(a6, mbr_hits(s), h);
    lemma_in_concat(a7, gpt_hits(s), h);
    lemma_in_concat(a8, iso_hits(s), h);
    lemma_in_concat(a9, json_hits(s), h);
}

/// The checks at fixed offsets, stated on the bytes: a zlib header
/// (0x78 then 0x01, 0x5E, 0x9C or 0xDA) at the start; "RIFF" at the start
/// of a sample of at least 12 bytes, named by the form type at offset 8;
/// "ftyp" at offset 4 (at least 12 bytes); "ustar" at offset 257; the
/// MPEG-TS sync byte 0x47 at offsets 0, 188 and 376; the ext superblock
/// magic 0x53 0xEF at offset 1080; the MBR signature 0x55 0xAA at offset
/// 510; "EFI PART" at offset 512; "CD001" at offset 0x8001. Each gives a
/// hit with its name at its offset, strong exactly at offset 0.
pub proof fn lemma_fixed_offset_hits(s: Seq<u8>)
    ensures
        s.len() >= 2 && s[0] == 0x78 && (s[1] == 0x01 || s[1] == 0x5E || s[1] == 0x9C || s[1]
            == 0xDA) ==> magic_hits(s).contains(("zlib/deflate (0x78 ?? header)"@, 0int, true)),
        s.len() >= 12 && s.subrange(0, 4) == seq![0x52u8, 0x49, 0x46, 0x46] ==> {
            let kind = s.subrange(8, 12);
            let name = if kind == seq![0x57u8, 0x41, 0x56, 0x45] {
                "WAV (RIFF/WAVE)"@
            } else if kind == seq![0x41u8, 0x56, 0x49, 0x20] {
                "AVI (RIFF/AVI)"@
            } else if kind == seq![0x57u8, 0x45, 0x42, 0x50] {
                "WebP (RIFF/WEBP)"@
            } else {
                "RIFF container"@
            };
            magic_hits(s).contains((name, 0int, true))
        },
        s.len() >= 12 && s.subrange(4, 8) == seq![0x66u8, 0x74, 0x79, 0x70] ==> magic_hits(
            s,
        ).contains(("ISO BMFF / MP4 (ftyp)"@, 4int, false)),
        s.len() >= 262 && s.subrange(257, 262) == seq![0x75u8, 0x73, 0x74, 0x61, 0x72]
            ==> magic_hits(s).contains(("TAR (ustar)"@, 257int, false)),
        s.len() > 376 && s[0] == 0x47 && s[188] == 0x47 && s[376] == 0x47 ==> magic_hits(
            s,
        ).contains(("MPEG-TS (188-byte packets)"@, 0int, true)),
        s.len() >= 1082 && s[1080] == 0x53 && s[1081] == 0xEF ==> magic_hits(s).contains(
            ("ext2/3/4 filesystem (EF53)"@, 1080int, false),
        ),
        s.len() >= 512 && s[510] == 0x55 && s[511] == 0xAA ==> magic_hits(s).contains(
            ("MBR boot sector (0x55AA)"@, 510int, false),
        ),
        s.len() >= 520 && s.subrange(512, 520) == seq![0x45u8, 0x46, 0x49, 0x20, 0x50, 0x41, 0x52, 0x54]
            ==> magic_hits(s).contains(("GPT header (EFI PART)"@, 512int, false)),
        s.len() >= 0x8006 && s.subrange(0x8001, 0x8006) == seq![0x43u8, 0x44, 0x30, 0x30, 0x31]
            ==> magic_hits(s).contains(("ISO9660 (CD001)"@, 0x8001int, false)),
{
    reveal(zlib_hits);
    reveal(riff_hits);
    reveal(ftyp_hits);
    reveal(tar_hits);
    reveal(mpegts_hits);
    reveal(ext_hits);
    reveal(mbr_hits);
    reveal(gpt_hits);
    reveal(iso_hits);
    let z = ("zlib/deflate (0x78 ?? header)"@, 0int, true);
    if zlib_hits(s).len() == 1 {
        assert(zlib_hits(s)[0] == z);
        lemma_parts_in_magic(s, z);
    }
    if s.len() >= 12 {
        let r = (riff_name(s), 0int, true);
        if riff_hits(s).len() == 1 {
            assert(riff_hits(s)[0] == r);
            lemma_parts_in_magic(s, r);
        }
        let f = ("ISO BMFF / MP4 (ftyp)"@, 4int, false);
        if ftyp_hits(s).len() == 1 {
            assert(ftyp_hits(s)[0] == f);
            lemma_parts_in_magic(s, f);
        }
    }
    let t = ("TAR (ustar)"@, 257int, false);
    if tar_hits(s).len() == 1 {
        assert(tar_hits(s)[0] == t);
        lemma_parts_in_magic(s, t);
    }
    let m = ("MPEG-TS (188-byte packets)"@, 0int, true);
    if mpegts_hits(s).len() == 1 {
        assert(mpegts_hits(s)[0] == m);
        lemma_parts_in_magic(s, m);
    }
    let e = ("ext2/3/4 filesystem (EF53)"@, 1080int, false);
    if ext_hits(s).len() == 1 {
        assert(ext_hits(s)[0] == e);
        lemma_parts_in_magic(s, e);
    }
    let b = ("MBR boot sector (0x55AA)"@, 510int, false);
    if mbr_hits(s).len() == 1 {
        assert(mbr_hits(s)[0] == b);
        lemma_parts_in_magic(s, b);
    }
    let g = ("GPT header (EFI PART)"@, 512int, false);
    if gpt_hits(s).len() == 1 {
        assert(gpt_hits(s)[0] == g);
        lemma_parts_in_magic(s, g);
    }
    let i = ("ISO9660 (CD001)"@, 0x8001int, false);
    if iso_hits(s).len() == 1 {
        assert(iso_hits(s)[0] == i);
        lemma_parts_in_magic(s, i);
    }
}

proof fn lemma_count_all(s: Seq<u8>, c: ByteClass)
    requires
        forall|i: int| 0 <= i < s.len() ==> in_class(c, #[trigger] s[i]),
    ensures
        count_class(s, c) == s.len(),
    decreases s.len(),
{
    if s.len() > 0 {
        let t = s.drop_last();
        assert forall|i: int| 0 <= i < t.len() implies in_class(c, #[trigger] t[i]) by {
            assert(t[i] == s[i]);
        }
        lemma_count_all(t, c);
        assert(in_class(c, s[s.len() - 1]));
    }
}

/// A sample that, after `k` bytes of whitespace (space, tab, CR, LF),
/// continues with `{` or `[` followed by printable ASCII up to 64 bytes
/// from there (or to the end of the sample) gets the JSON hit at offset `k`.
pub proof fn lemma_json_hit(s: Seq<u8>, k: int)
    requires
        0 <= k < s.len(),
        forall|i: int| 0 <= i < k ==> (s[i] == 0x20 || s[i] == 0x09 || s[i] == 0x0D || s[i] == 0x0A),
        s[k] == 0x7B || s[k] == 0x5B,
        forall|i: int| k <= i < s.len() && i < k + 64 ==> 0x20 <= #[trigger] s[i] <= 0x7E,
    ensures
        magic_hits(s).contains(("JSON (text, heuristic)"@, k, k == 0)),
{
    reveal(json_hits);
    assert forall|j: int| 0 <= j < k implies is_ws(#[trigger] s[j]) by {}
    lemma_leading_ws(s, k);
    let end = json_look_end(s, k);
    let look = s.subrange(k, end);
    assert forall|i: int| 0 <= i < look.len() implies in_class(ByteClass::Printable, #[trigger] look[i]) by {
        assert(look[i] == s[k + i]);
    }
    lemma_count_all(look, ByteClass::Printable);
    let h = ("JSON (text, heuristic)"@, k, k == 0);
    assert(json_hits(s)[0] == h);
    lemma_parts_in_magic(s, h);
}

/// A table signature found at the start of the sample gives a strong hit
/// with its name.
proof fn lemma_table_hit_at_start(s: Seq<u8>, i: int)
    requires
        0 <= i < MAGIC_TABLE_LEN,
        matches_at(s, signature_bytes(i as usize), 0),
    ensures
        magic_hits(s).contains((signature_name(i as usize), 0int, true)),
{
    let h = (signature_name(i as usize), 0int, true);
    lemma_first_match_is(s, signature_bytes(i as usize), 0);
    assert(table_hits(s, i + 1) == table_hits(s, i).push(h));
    assert(table_hits(s, i + 1)[table_hits(s, i).len() as int] == h);
    lemma_table_hits_grow(s, i + 1, MAGIC_TABLE_LEN as int, h);
    lemma_parts_in_magic(s, h);
}

/// Hits of the first `m` signatures stay among the hits of the first `n`.
proof fn lemma_table_hits_grow(s: Seq<u8>, m: int, n: int, h: (Seq<char>, int, bool))
    requires
        m <= n,
        table_hits(s, m).contains(h),
    ensures
        table_hits(s, n).contains(h),
    decreases n - m,
{
    if m < n {
        lemma_table_hits_grow(s, m, n - 1, h);
        let prev = table_hits(s, n - 1);
        let j = choose|j: int| 0 <= j < prev.len() && prev[j] == h;
        match first_match(s, signature_bytes((n - 1) as usize)) {
            Some(at) => {
                assert(prev.push(magic_hit(signature_name((n - 1) as usize), at))[j] == h);
            },
            None => {},
        }
    }
}

/// The signature table (images, archives and compressed data), stated as what the scan
/// finds: a sample that starts with one of these byte strings gets a strong
/// hit at offset 0 with the name beside it.
#[verifier::rlimit(60)]
pub proof fn lemma_signature_table_1(s: Seq<u8>)
    ensures
        matches_at(s, seq![0x89u8, 0x50, 0x4E, 0x47, 0x0D, 0x0A, 0x1A, 0x0A], 0) ==> magic_hits(s).contains(("PNG"@, 0int, true)),
        matches_at(s, seq![0xFFu8, 0xD8, 0xFF], 0) ==> magic_hits(s).contains(("JPEG"@, 0int, true)),
        matches_at(s, seq![0x47u8, 0x49, 0x46, 0x38, 0x37, 0x61], 0) ==> magic_hits(s).contains(("GIF87a"@, 0int, true)),
        matches_at(s, seq![0x47u8, 0x49, 0x46, 0x38, 0x39, 0x61], 0) ==> magic_hits(s).contains(("GIF89a"@, 0int, true)),
        matches_at(s, seq![0x42u8, 0x4D], 0) ==> magic_hits(s).contains(("BMP"@, 0int, true)),
        matches_at(s, seq![0x49u8, 0x49, 0x2A, 0x00], 0) ==> magic_hits(s).contains(("TIFF (LE)"@, 0int, true)),
        matches_at(s, seq![0x4Du8, 0x4D, 0x00, 0x2A], 0) ==> magic_hits(s).contains(("TIFF (BE)"@, 0int, true)),
        matches_at(s, seq![0x00u8, 0x00, 0x01, 0x00], 0) ==> magic_hits(s).contains(("ICO"@, 0int, true)),
        matches_at(s, seq![0x00u8, 0x00, 0x02, 0x00], 0) ==> magic_hits(s).contains(("CUR"@, 0int, true)),
        matches_at(s, seq![0x38u8, 0x42, 0x50, 0x53], 0) ==> magic_hits(s).contains(("Photoshop PSD"@, 0int, true)),
        matches_at(s, seq![0x76u8, 0x2F, 0x31, 0x01], 0) ==> magic_hits(s).contains(("OpenEXR"@, 0int, true)),
        matches_at(s, seq![0x50u8, 0x4B, 0x03, 0x04], 0) ==> magic_hits(s).contains(("ZIP (local file header)"@, 0int, true)),
        matches_at(s, seq![0x50u8, 0x4B, 0x01, 0x02], 0) ==> magic_hits(s).contains(("ZIP (central directory)"@, 0int, true)),
        matches_at(s, seq![0x50u8, 0x4B, 0x05, 0x06], 0) ==> magic_hits(s).contains(("ZIP (end of central dir)"@, 0int, true)),
        matches_at(s, seq![0x37u8, 0x7A, 0xBC, 0xAF, 0x27, 0x1C], 0) ==> magic_hits(s).contains(("7-Zip"@, 0int, true)),
        matches_at(s, seq![0x52u8, 0x61, 0x72, 0x21, 0x1A, 0x07, 0x00], 0) ==> magic_hits(s).contains(("RAR (v1.5+)"@, 0int, true)),
        matches_at(s, seq![0x52u8, 0x61, 0x72, 0x21, 0x1A, 0x07, 0x01, 0x00], 0) ==> magic_hits(s).contains(("RAR (v5+)"@, 0int, true)),
        matches_at(s, seq![0x4Du8, 0x53, 0x43, 0x46], 0) ==> magic_hits(s).contains(("CAB"@, 0int, true)),
        matches_at(s, seq![0x21u8, 0x3C, 0x61, 0x72, 0x63, 0x68, 0x3E, 0x0A], 0) ==> magic_hits(s).contains(("ar archive"@, 0int, true)),
        matches_at(s, seq![0x1Fu8, 0x8B], 0) ==> magic_hits(s).contains(("GZIP"@, 0int, true)),
        matches_at(s, seq![0x28u8, 0xB5, 0x2F, 0xFD], 0) ==> magic_hits(s).contains(("Zstandard"@, 0int, true)),
{
    if matches_at(s, seq![0x89u8, 0x50, 0x4E, 0x47, 0x0D, 0x0A, 0x1A, 0x0A], 0) {
        assert(signature_bytes(0) == seq![0x89u8, 0x50, 0x4E, 0x47, 0x0D, 0x0A, 0x1A, 0x0A]);
        lemma_table_hit_at_start(s, 0);
    }
    if matches_at(s, seq![0xFFu8, 0xD8, 0xFF], 0) {
        assert(signature_bytes(1) == seq![0xFFu8, 0xD8, 0xFF]);
        lemma_table_hit_at_start(s, 1);
    }
    if matches_at(s, seq![0x47u8, 0x49, 0x46, 0x38, 0x37, 0x61], 0) {
        assert(signature_bytes(2) == seq![0x47u8, 0x49, 0x46, 0x38, 0x37, 0x61]);
        lemma_table_hit_at_start(s, 2);
    }
    if matches_at(s, seq![0x47u8, 0x49, 0x46, 0x38, 0x39, 0x61], 0) {
        assert(signature_bytes(3) == seq![0x47u8, 0x49, 0x46, 0x38, 0x39, 0x61]);
        lemma_table_hit_at_start(s, 3);
    }
    if matches_at(s, seq![0x42u8, 0x4D], 0) {
        assert(signature_bytes(4) == seq![0x42u8, 0x4D]);
        lemma_table_hit_at_start(s, 4);
    }
    if matches_at(s, seq![0x49u8, 0x49, 0x2A, 0x00], 0) {
        assert(signature_bytes(5) == seq![0x49u8, 0x49, 0x2A, 0x00]);
        lemma_table_hit_at_start(s, 5);
    }
    if matches_at(s, seq![0x4Du8, 0x4D, 0x00, 0x2A], 0) {
        assert(signature_bytes(6) == seq![0x4Du8, 0x4D, 0x00, 0x2A]);
        lemma_table_hit_at_start(s, 6);
    }
    if matches_at(s, seq![0x00u8, 0x00, 0x01, 0x00], 0) {
        assert(signature_bytes(7) == seq![0x00u8, 0x00, 0x01, 0x00]);
        lemma_table_hit_at_start(s, 7);
    }
    if matches_at(s, seq![0x00u8, 0x00, 0x02, 0x00], 0) {
        assert(signature_bytes(8) == seq![0x00u8, 0x00, 0x02, 0x00]);
        lemma_table_hit_at_start(s, 8);
    }
    if matches_at(s, seq![0x38u8, 0x42, 0x50, 0x53], 0) {
        assert(signature_bytes(9) == seq![0x38u8, 0x42, 0x50, 0x53]);
        lemma_table_hit_at_start(s, 9);
    }
    if matches_at(s, seq![0x76u8, 0x2F, 0x31, 0x01], 0) {
        assert(signature_bytes(10) == seq![0x76u8, 0x2F, 0x31, 0x01]);
        lemma_table_hit_at_start(s, 10);
    }
    if matches_at(s, seq![0x50u8, 0x4B, 0x03, 0x04], 0) {
        assert(signature_bytes(11) == seq![0x50u8, 0x4B, 0x03, 0x04]);
        lemma_table_hit_at_start(s, 11);
    }
    if matches_at(s, seq![0x50u8, 0x4B, 0x01, 0x02], 0) {
        assert(signature_bytes(12) == seq![0x50u8, 0x4B, 0x01, 0x02]);
        lemma_table_hit_at_start(s, 12);
    }
    if matches_at(s, seq![0x50u8, 0x4B, 0x05, 0x06], 0) {
        assert(signature_bytes(13) == seq![0x50u8, 0x4B, 0x05, 0x06]);
        lemma_table_hit_at_start(s, 13);
    }
    if matches_at(s, seq![0x37u8, 0x7A, 0xBC, 0xAF, 0x27, 0x1C], 0) {
        assert(signature_bytes(14) == seq![0x37u8, 0x7A, 0xBC, 0xAF, 0x27, 0x1C]);
        lemma_table_hit_at_start(s, 14);
    }
    if matches_at(s, seq![0x52u8, 0x61, 0x72, 0x21, 0x1A, 0x07, 0x00], 0) {
        assert(signature_bytes(15) == seq![0x52u8, 0x61, 0x72, 0x21, 0x1A, 0x07, 0x00]);
        lemma_table_hit_at_start(s, 15);
    }
    if matches_at(s, seq![0x52u8, 0x61, 0x72, 0x21, 0x1A, 0x07, 0x01, 0x00], 0) {
        assert(signature_bytes(16) == seq![0x52u8, 0x61, 0x72, 0x21, 0x1A, 0x07, 0x01, 0x00]);
        lemma_table_hit_at_start(s, 16);
    }
    if matches_at(s, seq![0x4Du8, 0x53, 0x43, 0x46], 0) {
        assert(signature_bytes(17) == seq![0x4Du8, 0x53, 0x43, 0x46]);
        lemma_table_hit_at_start(s, 17);
    }
    if matches_at(s, seq![0x21u8, 0x3C, 0x61, 0x72, 0x63, 0x68, 0x3E, 0x0A], 0) {
        assert(signature_bytes(18) == seq![0x21u8, 0x3C, 0x61, 0x72, 0x63, 0x68, 0x3E, 0x0A]);
        lemma_table_hit_at_start(s, 18);
    }
    if matches_at(s, seq![0x1Fu8, 0x8B], 0) {
        assert(signature_bytes(19) == seq![0x1Fu8, 0x8B]);
        lemma_table_hit_at_start(s, 19);
    }
    if matches_at(s, seq![0x28u8, 0xB5, 0x2F, 0xFD], 0) {
        assert(signature_bytes(20) == seq![0x28u8, 0xB5, 0x2F, 0xFD]);
        lemma_table_hit_at_start(s, 20);
    }
}

/// The signature table (documents, executables, fonts and media), stated as what the scan
/// finds: a sample that starts with one of these byte strings gets a strong
/// hit at offset 0 with the name beside it.
#[verifier::rlimit(60)]
pub proof fn lemma_signature_table_2(s: Seq<u8>)
    ensures
        matches_at(s, seq![0xFDu8, 0x37, 0x7A, 0x58, 0x5A, 0x00], 0) ==> magic_hits(s).contains(("XZ"@, 0int, true)),
        matches_at(s, seq![0x42u8, 0x5A, 0x68], 0) ==> magic_hits(s).contains(("Bzip2"@, 0int, true)),
        matches_at(s, seq![0x04u8, 0x22, 0x4D, 0x18], 0) ==> magic_hits(s).contains(("LZ4 frame"@, 0int, true)),
        matches_at(s, seq![0x4Cu8, 0x5A, 0x49, 0x50], 0) ==> magic_hits(s).contains(("LZIP"@, 0int, true)),
        matches_at(s, seq![0x1Fu8, 0x9D], 0) ==> magic_hits(s).contains(("Unix compress (.Z)"@, 0int, true)),
        matches_at(s, seq![0x5Du8, 0x00, 0x00, 0x80, 0x00], 0) ==> magic_hits(s).contains(("LZMA (.lzma)"@, 0int, true)),
        matches_at(s, seq![0x25u8, 0x50, 0x44, 0x46, 0x2D], 0) ==> magic_hits(s).contains(("PDF"@, 0int, true)),
        matches_at(s, seq![0x25u8, 0x21, 0x50, 0x53, 0x2D, 0x41, 0x64, 0x6F, 0x62, 0x65, 0x2D], 0) ==> magic_hits(s).contains(("PostScript"@, 0int, true)),
        matches_at(s, seq![0x53u8, 0x51, 0x4C, 0x69, 0x74, 0x65, 0x20, 0x66, 0x6F, 0x72, 0x6D, 0x61, 0x74, 0x20, 0x33, 0x00], 0) ==> magic_hits(s).contains(("SQLite 3"@, 0int, true)),
        matches_at(s, seq![0x50u8, 0x41, 0x52, 0x31], 0) ==> magic_hits(s).contains(("Apache Parquet"@, 0int, true)),
        matches_at(s, seq![0x4Fu8, 0x52, 0x43], 0) ==> magic_hits(s).contains(("Apache ORC"@, 0int, true)),
        matches_at(s, seq![0x62u8, 0x70, 0x6C, 0x69, 0x73, 0x74, 0x30, 0x30], 0) ==> magic_hits(s).contains(("bplist (binary plist)"@, 0int, true)),
        matches_at(s, seq![0xD0u8, 0xCF, 0x11, 0xE0, 0xA1, 0xB1, 0x1A, 0xE1], 0) ==> magic_hits(s).contains(("Microsoft OLE2/CFBF"@, 0int, true)),
        matches_at(s, seq![0x7Fu8, 0x45, 0x4C, 0x46], 0) ==> magic_hits(s).contains(("ELF"@, 0int, true)),
        matches_at(s, seq![0x4Du8, 0x5A], 0) ==> magic_hits(s).contains(("PE/COFF (MZ)"@, 0int, true)),
        matches_at(s, seq![0x00u8, 0x61, 0x73, 0x6D], 0) ==> magic_hits(s).contains(("Wasm"@, 0int, true)),
        matches_at(s, seq![0xCAu8, 0xFE, 0xBA, 0xBE], 0) ==> magic_hits(s).contains(("Java class"@, 0int, true)),
        matches_at(s, seq![0x64u8, 0x65, 0x78, 0x0A, 0x30, 0x33, 0x35, 0x00], 0) ==> magic_hits(s).contains(("Dalvik DEX"@, 0int, true)),
        matches_at(s, seq![0x64u8, 0x65, 0x78, 0x0A, 0x30, 0x33, 0x36, 0x00], 0) ==> magic_hits(s).contains(("Dalvik DEX (036)"@, 0int, true)),
        matches_at(s, seq![0x00u8, 0x01, 0x00, 0x00], 0) ==> magic_hits(s).contains(("TrueType font (TTF)"@, 0int, true)),
        matches_at(s, seq![0x4Fu8, 0x54, 0x54, 0x4F], 0) ==> magic_hits(s).contains(("OpenType font (OTF)"@, 0int, true)),
{
    if matches_at(s, seq![0xFDu8, 0x37, 0x7A, 0x58, 0x5A, 0x00], 0) {
        assert(signature_bytes(21) == seq![0xFDu8, 0x37, 0x7A, 0x58, 0x5A, 0x00]);
        lemma_table_hit_at_start(s, 21);
    }
    if matches_at(s, seq![0x42u8, 0x5A, 0x68], 0) {
        assert(signature_bytes(22) == seq![0x42u8, 0x5A, 0x68]);
        lemma_table_hit_at_start(s, 22);
    }
    if matches_at(s, seq![0x04u8, 0x22, 0x4D, 0x18], 0) {
        assert(signature_bytes(23) == seq![0x04u8, 0x22, 0x4D, 0x18]);
        lemma_table_hit_at_start(s, 23);
    }
    if matches_at(s, seq![0x4Cu8, 0x5A, 0x49, 0x50], 0) {
        assert(signature_bytes(24) == seq![0x4Cu8, 0x5A, 0x49, 0x50]);
        lemma_table_hit_at_start(s, 24);
    }
    if matches_at(s, seq![0x1Fu8, 0x9D], 0) {
        assert(signature_bytes(25) == seq![0x1Fu8, 0x9D]);
        lemma_table_hit_at_start(s, 25);
    }
    if matches_at(s, seq![0x5Du8, 0x00, 0x00, 0x80, 0x00], 0) {
        assert(signature_bytes(26) == seq![0x5Du8, 0x00, 0x00, 0x80, 0x00]);
        lemma_table_hit_at_start(s, 26);
    }
    if matches_at(s, seq![0x25u8, 0x50, 0x44, 0x46, 0x2D], 0) {
        assert(signature_bytes(27) == seq![0x25u8, 0x50, 0x44, 0x46, 0x2D]);
        lemma_table_hit_at_start(s, 27);
    }
    if matches_at(s, seq![0x25u8, 0x21, 0x50, 0x53, 0x2D, 0x41, 0x64, 0x6F, 0x62, 0x65, 0x2D], 0) {
        assert(signature_bytes(28) == seq![0x25u8, 0x21, 0x50, 0x53, 0x2D, 0x41, 0x64, 0x6F, 0x62, 0x65, 0x2D]);
        lemma_table_hit_at_start(s, 28);
    }
    if matches_at(s, seq![0x53u8, 0x51, 0x4C, 0x69, 0x74, 0x65, 0x20, 0x66, 0x6F, 0x72, 0x6D, 0x61, 0x74, 0x20, 0x33, 0x00], 0) {
        assert(signature_bytes(29) == seq![0x53u8, 0x51, 0x4C, 0x69, 0x74, 0x65, 0x20, 0x66, 0x6F, 0x72, 0x6D, 0x61, 0x74, 0x20, 0x33, 0x00]);
        lemma_table_hit_at_start(s, 29);
    }
    if matches_at(s, seq![0x50u8, 0x41, 0x52, 0x31], 0) {
        assert(signature_bytes(30) == seq![0x50u8, 0x41, 0x52, 0x31]);
        lemma_table_hit_at_start(s, 30);
    }
    if matches_at(s, seq![0x4Fu8, 0x52, 0x43], 0) {
        assert(signature_bytes(31) == seq![0x4Fu8, 0x52, 0x43]);
        lemma_table_hit_at_start(s, 31);
    }
    if matches_at(s, seq![0x62u8, 0x70, 0x6C, 0x69, 0x73, 0x74, 0x30, 0x30], 0) {
        assert(signature_bytes(32) == seq![0x62u8, 0x70, 0x6C, 0x69, 0x73, 0x74, 0x30, 0x30]);
        lemma_table_hit_at_start(s, 32);
    }
    if matches_at(s, seq![0xD0u8, 0xCF, 0x11, 0xE0, 0xA1, 0xB1, 0x1A, 0xE1], 0) {
        assert(signature_bytes(33) == seq![0xD0u8, 0xCF, 0x11, 0xE0, 0xA1, 0xB1, 0x1A, 0xE1]);
        lemma_table_hit_at_start(s, 33);
    }
    if matches_at(s, seq![0x7Fu8, 0x45, 0x4C, 0x46], 0) {
        assert(signature_bytes(34) == seq![0x7Fu8, 0x45, 0x4C, 0x46]);
        lemma_table_hit_at_start(s, 34);
    }
    if matches_at(s, seq![0x4Du8, 0x5A], 0) {
        assert(signature_bytes(35) == seq![0x4Du8, 0x5A]);
        lemma_table_hit_at_start(s, 35);
    }
    if matches_at(s, seq![0x00u8, 0x61, 0x73, 0x6D], 0) {
        assert(signature_bytes(36) == seq![0x00u8, 0x61, 0x73, 0x6D]);
        lemma_table_hit_at_start(s, 36);
    }
    if matches_at(s, seq![0xCAu8, 0xFE, 0xBA, 0xBE], 0) {
        assert(signature_bytes(37) == seq![0xCAu8, 0xFE, 0xBA, 0xBE]);
        lemma_table_hit_at_start(s, 37);
    }
    if matches_at(s, seq![0x64u8, 0x65, 0x78, 0x0A, 0x30, 0x33, 0x35, 0x00], 0) {
        assert(signature_bytes(38) == seq![0x64u8, 0x65, 0x78, 0x0A, 0x30, 0x33, 0x35, 0x00]);
        lemma_table_hit_at_start(s, 38);
    }
    if matches_at(s, seq![0x64u8, 0x65, 0x78, 0x0A, 0x30, 0x33, 0x36, 0x00], 0) {
        assert(signature_bytes(39) == seq![0x64u8, 0x65, 0x78, 0x0A, 0x30, 0x33, 0x36, 0x00]);
        lemma_table_hit_at_start(s, 39);
    }
    if matches_at(s, seq![0x00u8, 0x01, 0x00, 0x00], 0) {
        assert(signature_bytes(40) == seq![0x00u8, 0x01, 0x00, 0x00]);
        lemma_table_hit_at_start(s, 40);
    }
    if matches_at(s, seq![0x4Fu8, 0x54, 0x54, 0x4F], 0) {
        assert(signature_bytes(41) == seq![0x4Fu8, 0x54, 0x54, 0x4F]);
        lemma_table_hit_at_start(s, 41);
    }
}

/// The signature table (captures, text encodings, keys, scripts and Mach-O), stated as what the scan
/// finds: a sample that starts with one of these byte strings gets a strong
/// hit at offset 0 with the name beside it.
#[verifier::rlimit(60)]
pub proof fn lemma_signature_table_3(s: Seq<u8>)
    ensures
        matches_at(s, seq![0x77u8, 0x4F, 0x46, 0x46], 0) ==> magic_hits(s).contains(("WOFF"@, 0int, true)),
        matches_at(s, seq![0x77u8, 0x4F, 0x46, 0x32], 0) ==> magic_hits(s).contains(("WOFF2"@, 0int, true)),
        matches_at(s, seq![0x4Fu8, 0x67, 0x67, 0x53], 0) ==> magic_hits(s).contains(("Ogg"@, 0int, true)),
        matches_at(s, seq![0x66u8, 0x4C, 0x61, 0x43], 0) ==> magic_hits(s).contains(("FLAC"@, 0int, true)),
        matches_at(s, seq![0x4Du8, 0x54, 0x68, 0x64], 0) ==> magic_hits(s).contains(("MIDI"@, 0int, true)),
        matches_at(s, seq![0x1Au8, 0x45, 0xDF, 0xA3], 0) ==> magic_hits(s).contains(("Matroska/WebM (EBML)"@, 0int, true)),
        matches_at(s, seq![0x49u8, 0x44, 0x33], 0) ==> magic_hits(s).contains(("MP3 (ID3 tag)"@, 0int, true)),
        matches_at(s, seq![0xD4u8, 0xC3, 0xB2, 0xA1], 0) ==> magic_hits(s).contains(("pcap (LE)"@, 0int, true)),
        matches_at(s, seq![0xA1u8, 0xB2, 0xC3, 0xD4], 0) ==> magic_hits(s).contains(("pcap (BE)"@, 0int, true)),
        matches_at(s, seq![0x0Au8, 0x0D, 0x0D, 0x0A], 0) ==> magic_hits(s).contains(("pcapng"@, 0int, true)),
        matches_at(s, seq![0xEFu8, 0xBB, 0xBF], 0) ==> magic_hits(s).contains(("UTF-8 BOM"@, 0int, true)),
        matches_at(s, seq![0xFFu8, 0xFE], 0) ==> magic_hits(s).contains(("UTF-16 LE BOM"@, 0int, true)),
        matches_at(s, seq![0xFEu8, 0xFF], 0) ==> magic_hits(s).contains(("UTF-16 BE BOM"@, 0int, true)),
        matches_at(s, seq![0x53u8, 0x61, 0x6C, 0x74, 0x65, 0x64, 0x5F, 0x5F], 0) ==> magic_hits(s).contains(("OpenSSL salted"@, 0int, true)),
        matches_at(s, seq![0x2Du8, 0x2D, 0x2D, 0x2D, 0x2D, 0x42, 0x45, 0x47, 0x49, 0x4E, 0x20], 0) ==> magic_hits(s).contains(("PEM (BEGIN ...)"@, 0int, true)),
        matches_at(s, seq![0x3Cu8, 0x3F, 0x78, 0x6D, 0x6C], 0) ==> magic_hits(s).contains(("XML (declaration)"@, 0int, true)),
        matches_at(s, seq![0x23u8, 0x21], 0) ==> magic_hits(s).contains(("Shebang script"@, 0int, true)),
        matches_at(s, seq![0xFEu8, 0xED, 0xFA, 0xCE], 0) ==> magic_hits(s).contains(("Mach-O (FE ED FA CE)"@, 0int, true)),
        matches_at(s, seq![0xFEu8, 0xED, 0xFA, 0xCF], 0) ==> magic_hits(s).contains(("Mach-O (FE ED FA CF)"@, 0int, true)),
        matches_at(s, seq![0xCEu8, 0xFA, 0xED, 0xFE], 0) ==> magic_hits(s).contains(("Mach-O (CE FA ED FE)"@, 0int, true)),
        matches_at(s, seq![0xCFu8, 0xFA, 0xED, 0xFE], 0) ==> magic_hits(s).contains(("Mach-O (CF FA ED FE)"@, 0int, true)),
{
    if matches_at(s, seq![0x77u8, 0x4F, 0x46, 0x46], 0) {
        assert(signature_bytes(42) == seq![0x77u8, 0x4F, 0x46, 0x46]);
        lemma_table_hit_at_start(s, 42);
    }
    if matches_at(s, seq![0x77u8, 0x4F, 0x46, 0x32], 0) {
        assert(signature_bytes(43) == seq![0x77u8, 0x4F, 0x46, 0x32]);
        lemma_table_hit_at_start(s, 43);
    }
    if matches_at(s, seq![0x4Fu8, 0x67, 0x67, 0x53], 0) {
        assert(signature_bytes(44) == seq![0x4Fu8, 0x67, 0x67, 0x53]);
        lemma_table_hit_at_start(s, 44);
    }
    if matches_at(s, seq![0x66u8, 0x4C, 0x61, 0x43], 0) {
        assert(signature_bytes(45) == seq![0x66u8, 0x4C, 0x61, 0x43]);
        lemma_table_hit_at_start(s, 45);
    }
    if matches_at(s, seq![0x4Du8, 0x54, 0x68, 0x64], 0) {
        assert(signature_bytes(46) == seq![0x4Du8, 0x54, 0x68, 0x64]);
        lemma_table_hit_at_start(s, 46);
    }
    if matches_at(s, seq![0x1Au8, 0x45, 0xDF, 0xA3], 0) {
        assert(signature_bytes(47) == seq![0x1Au8, 0x45, 0xDF, 0xA3]);
        lemma_table_hit_at_start(s, 47);
    }
    if matches_at(s, seq![0x49u8, 0x44, 0x33], 0) {
        assert(signature_bytes(48) == seq![0x49u8, 0x44, 0x33]);
        lemma_table_hit_at_start(s, 48);
    }
    if matches_at(s, seq![0xD4u8, 0xC3, 0xB2, 0xA1], 0) {
        assert(signature_bytes(49) == seq![0xD4u8, 0xC3, 0xB2, 0xA1]);
        lemma_table_hit_at_start(s, 49);
    }
    if matches_at(s, seq![0xA1u8, 0xB2, 0xC3, 0xD4], 0) {
        assert(signature_bytes(50) == seq![0xA1u8, 0xB2, 0xC3, 0xD4]);
        lemma_table_hit_at_start(s, 50);
    }
    if matches_at(s, seq![0x0Au8, 0x0D, 0x0D, 0x0A], 0) {
        assert(signature_bytes(51) == seq![0x0Au8, 0x0D, 0x0D, 0x0A]);
        lemma_table_hit_at_start(s, 51);
    }
    if matches_at(s, seq![0xEFu8, 0xBB, 0xBF], 0) {
        assert(signature_bytes(52) == seq![0xEFu8, 0xBB, 0xBF]);
        lemma_table_hit_at_start(s, 52);
    }
    if matches_at(s, seq![0xFFu8, 0xFE], 0) {
        assert(signature_bytes(53) == seq![0xFFu8, 0xFE]);
        lemma_table_hit_at_start(s, 53);
    }
    if matches_at(s, seq![0xFEu8, 0xFF], 0) {
        assert(signature_bytes(54) == seq![0xFEu8, 0xFF]);
        lemma_table_hit_at_start(s, 54);
    }
    if matches_at(s, seq![0x53u8, 0x61, 0x6C, 0x74, 0x65, 0x64, 0x5F, 0x5F], 0) {
        assert(signature_bytes(55) == seq![0x53u8, 0x61, 0x6C, 0x74, 0x65, 0x64, 0x5F, 0x5F]);
        lemma_table_hit_at_start(s, 55);
    }
    if matches_at(s, seq![0x2Du8, 0x2D, 0x2D, 0x2D, 0x2D, 0x42, 0x45, 0x47, 0x49, 0x4E, 0x20], 0) {
        assert(signature_bytes(56) == seq![0x2Du8, 0x2D, 0x2D, 0x2D, 0x2D, 0x42, 0x45, 0x47, 0x49, 0x4E, 0x20]);
        lemma_table_hit_at_start(s, 56);
    }
    if matches_at(s, seq![0x3Cu8, 0x3F, 0x78, 0x6D, 0x6C], 0) {
        assert(signature_bytes(57) == seq![0x3Cu8, 0x3F, 0x78, 0x6D, 0x6C]);
        lemma_table_hit_at_start(s, 57);
    }
    if matches_at(s, seq![0x23u8, 0x21], 0) {
        assert(signature_bytes(58) == seq![0x23u8, 0x21]);
        lemma_table_hit_at_start(s, 58);
    }
    if matches_at(s, seq![0xFEu8, 0xED, 0xFA, 0xCE], 0) {
        assert(signature_bytes(59) == seq![0xFEu8, 0xED, 0xFA, 0xCE]);
        lemma_table_hit_at_start(s, 59);
    }
    if matches_at(s, seq![0xFEu8, 0xED, 0xFA, 0xCF], 0) {
        assert(signature_bytes(60) == seq![0xFEu8, 0xED, 0xFA, 0xCF]);
        lemma_table_hit_at_start(s, 60);
    }
    if matches_at(s, seq![0xCEu8, 0xFA, 0xED, 0xFE], 0) {
        assert(signature_bytes(61) == seq![0xCEu8, 0xFA, 0xED, 0xFE]);
        lemma_table_hit_at_start(s, 61);
    }
    if matches_at(s, seq![0xCFu8, 0xFA, 0xED, 0xFE], 0) {
        assert(signature_bytes(62) == seq![0xCFu8, 0xFA, 0xED, 0xFE]);
        lemma_table_hit_at_start(s, 62);
    }
}

} // verus!
