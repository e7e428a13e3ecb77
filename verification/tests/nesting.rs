use filefish::dissectors::bmp::BmpDissector;
use filefish::dissectors::elf::ElfDissector;
use filefish::dissectors::flac::FlacDissector;
use filefish::dissectors::generic::GenericDissector;
use filefish::dissectors::gif::GifDissector;
use filefish::dissectors::gzip::GzipDissector;
use filefish::dissectors::mp4::{parse_box_header, Mp4Dissector};
use filefish::dissectors::ogg::OggDissector;
use filefish::dissectors::pe::PeDissector;
use filefish::dissectors::sqlite::SqliteDissector;
use filefish::dissectors::tar::TarDissector;
use filefish::dissectors::zip::ZipDissector;
use filefish::dissectors::{dissect, identify, Block, Dissector};

fn nests(b: &Block) -> bool {
    b.range.start <= b.range.end
        && b.children.iter().all(|c| {
            b.range.start <= c.range.start && c.range.end <= b.range.end && nests(c)
        })
}

/// Every prefix of `data` dissects into blocks within the prefix that nest.
fn assert_prefixes_nest<D: Dissector>(d: &D, data: &[u8]) {
    for n in 0..=data.len() {
        let prefix = &data[..n];
        for b in d.dissect(prefix) {
            assert!(b.range.end <= n as u64, "{:?} past the end of {n} bytes", b.label);
            assert!(nests(&b), "{:?} does not nest in {n} bytes", b.label);
        }
    }
}

fn gif() -> Vec<u8> {
    let mut d = b"GIF89a".to_vec();
    d.extend_from_slice(&[2, 0, 2, 0, 0x80, 0, 0]);
    d.extend_from_slice(&[0, 0, 0, 255, 255, 255]);
    d.extend_from_slice(&[0x21, 0xf9, 4, 0, 0, 0, 0, 0]);
    d.extend_from_slice(&[0x2c, 0, 0, 0, 0, 2, 0, 2, 0, 0x80]);
    d.extend_from_slice(&[1, 2, 3, 4, 5, 6]);
    d.extend_from_slice(&[2, 2, 0x84, 0x51, 0, 0x3b]);
    d
}

fn zip() -> Vec<u8> {
    let mut d = Vec::new();
    d.extend_from_slice(&0x04034b50u32.to_le_bytes());
    d.extend_from_slice(&[20, 0, 0, 0, 0, 0, 0, 0, 0, 0, 0, 0, 0, 0]);
    d.extend_from_slice(&3u32.to_le_bytes());
    d.extend_from_slice(&3u32.to_le_bytes());
    d.extend_from_slice(&[1, 0, 2, 0]);
    d.extend_from_slice(b"aXYabc");
    d.extend_from_slice(&0x02014b50u32.to_le_bytes());
    d.extend_from_slice(&[0u8; 24]);
    d.extend_from_slice(&[1, 0, 0, 0, 2, 0]);
    d.extend_from_slice(&[0u8; 12]);
    d.extend_from_slice(b"aOK");
    d.extend_from_slice(&0x06054b50u32.to_le_bytes());
    d.extend_from_slice(&[0, 0, 0, 0, 1, 0, 1, 0, 49, 0, 0, 0, 39, 0, 0, 0, 2, 0]);
    d.extend_from_slice(b"hi");
    d
}

fn tar() -> Vec<u8> {
    let mut h = vec![0u8; 512];
    h[..5].copy_from_slice(b"a.txt");
    h[124..136].copy_from_slice(b"00000000005\0");
    h[156] = b'0';
    h[257..262].copy_from_slice(b"ustar");
    h.extend_from_slice(b"hello");
    h.resize(1024 + 512, 0);
    h
}

fn flac() -> Vec<u8> {
    let mut d = b"fLaC".to_vec();
    d.extend_from_slice(&[0x00, 0, 0, 34]);
    d.extend_from_slice(&[0x10, 0, 0x10, 0, 0, 0, 1, 0, 0, 2, 0x0a, 0xc4, 0x42, 0xf0, 0, 0, 0, 100]);
    d.extend_from_slice(&[0u8; 16]);
    d.extend_from_slice(&[0x84, 0, 0, 2, 9, 9]);
    d.extend_from_slice(&[0xff, 0xf8, 1, 2]);
    d
}

fn gzip() -> Vec<u8> {
    let mut d = vec![0x1f, 0x8b, 8, 0x1a, 0, 0, 0, 0, 0, 3];
    d.extend_from_slice(b"name\0note\0");
    d.extend_from_slice(&[0xab, 0xcd]);
    d.extend_from_slice(&[1, 2, 3]);
    d.extend_from_slice(&[0u8; 8]);
    d
}

fn bmp() -> Vec<u8> {
    let mut d = b"BM".to_vec();
    d.extend_from_slice(&58u32.to_le_bytes());
    d.extend_from_slice(&[0, 0, 0, 0]);
    d.extend_from_slice(&54u32.to_le_bytes());
    d.extend_from_slice(&40u32.to_le_bytes());
    d.extend_from_slice(&[1, 0, 0, 0, 1, 0, 0, 0, 1, 0, 24, 0]);
    d.extend_from_slice(&[0u8; 24]);
    d.extend_from_slice(&[0, 0, 255, 0]);
    d
}

fn sqlite() -> Vec<u8> {
    let mut d = b"SQLite format 3\0".to_vec();
    d.extend_from_slice(&[0x10, 0, 1, 1, 0, 64, 32, 32]);
    d.resize(100, 7);
    d.extend_from_slice(&[0u8; 20]);
    d
}

fn pe() -> Vec<u8> {
    let mut d = vec![0u8; 64];
    d[0] = b'M';
    d[1] = b'Z';
    d[0x3c] = 64;
    d.extend_from_slice(b"PE\0\0");
    d.extend_from_slice(&[0x4c, 0x01, 1, 0]);
    d.extend_from_slice(&[0u8; 12]);
    d.extend_from_slice(&[4, 0, 0, 0]);
    d.extend_from_slice(&[0x0b, 0x01, 9, 9]);
    let mut s = b".text\0\0\0".to_vec();
    s.resize(40, 1);
    d.extend_from_slice(&s);
    d
}

fn ogg() -> Vec<u8> {
    let mut d = b"OggS".to_vec();
    d.extend_from_slice(&[0, 2]);
    d.extend_from_slice(&[0u8; 20]);
    d.extend_from_slice(&[2, 3, 1]);
    d.extend_from_slice(b"abcd");
    d
}

#[test]
fn gif_blocks_nest_in_every_prefix() {
    assert_prefixes_nest(&GifDissector, &gif());
}

#[test]
fn zip_blocks_nest_in_every_prefix() {
    assert_prefixes_nest(&ZipDissector, &zip());
}

#[test]
fn tar_blocks_nest_in_every_prefix() {
    assert_prefixes_nest(&TarDissector, &tar());
}

#[test]
fn flac_blocks_nest_in_every_prefix() {
    assert_prefixes_nest(&FlacDissector, &flac());
}

#[test]
fn gzip_blocks_nest_in_every_prefix() {
    assert_prefixes_nest(&GzipDissector, &gzip());
}

#[test]
fn bmp_blocks_nest_in_every_prefix() {
    assert_prefixes_nest(&BmpDissector, &bmp());
}

#[test]
fn sqlite_blocks_nest_in_every_prefix() {
    assert_prefixes_nest(&SqliteDissector, &sqlite());
}

#[test]
fn pe_blocks_nest_in_every_prefix() {
    assert_prefixes_nest(&PeDissector, &pe());
}

#[test]
fn ogg_blocks_nest_in_every_prefix() {
    assert_prefixes_nest(&OggDissector, &ogg());
}

#[test]
fn generic_block_spans_the_data() {
    let data = [1u8, 2, 3];
    let blocks = GenericDissector.dissect(&data);
    assert_eq!(blocks.len(), 1);
    assert_eq!((blocks[0].range.start, blocks[0].range.end), (0, 3));
    assert!(nests(&blocks[0]));
}

#[test]
fn sample_files_are_dissected_past_their_headers() {
    assert!(GifDissector.dissect(&gif()).iter().any(|b| b.label == "Image descriptor"));
    assert!(ZipDissector.dissect(&zip()).iter().any(|b| b.label == "End of central directory"));
    assert!(TarDissector.dissect(&tar()).iter().any(|b| b.label == "End of archive"));
    assert!(FlacDissector.dissect(&flac()).iter().any(|b| b.label == "Audio frames"));
    assert!(GzipDissector.dissect(&gzip()).iter().any(|b| b.label == "Trailer"));
    assert!(BmpDissector.dissect(&bmp()).iter().any(|b| b.label == "Pixel data"));
    assert!(SqliteDissector.dissect(&sqlite()).iter().any(|b| b.label == "Database pages"));
    assert!(PeDissector.dissect(&pe()).iter().any(|b| b.label == "Section: .text"));
    assert_eq!(OggDissector.dissect(&ogg()).len(), 1);
}

fn elf64() -> Vec<u8> {
    let mut d = vec![0x7f, b'E', b'L', b'F', 2, 1, 1, 0];
    d.resize(16, 0);
    d.extend_from_slice(&[2, 0, 0x3e, 0, 1, 0, 0, 0]);
    d.extend_from_slice(&0x401000u64.to_le_bytes());
    d.extend_from_slice(&64u64.to_le_bytes());
    d.extend_from_slice(&120u64.to_le_bytes());
    d.extend_from_slice(&[0, 0, 0, 0, 64, 0, 56, 0, 1, 0, 64, 0, 1, 0, 0, 0]);
    d.resize(184, 0);
    d
}

#[test]
fn elf_blocks_nest_in_every_prefix() {
    let data = elf64();
    for n in 0..=data.len() {
        for b in ElfDissector.dissect(&data[..n]) {
            assert!(nests(&b), "{:?} does not nest in {n} bytes", b.label);
        }
    }
    let blocks = ElfDissector.dissect(&data);
    assert_eq!(blocks.len(), 4);
    assert_eq!((blocks[2].range.start, blocks[2].range.end), (64, 120));
    assert_eq!((blocks[3].range.start, blocks[3].range.end), (120, 184));
}

#[test]
fn elf_table_past_the_largest_offset_still_nests() {
    let mut data = elf64();
    data[32..40].copy_from_slice(&0xffff_ffff_ffff_fff0u64.to_le_bytes());
    let blocks = ElfDissector.dissect(&data);
    assert_eq!(blocks[2].range.start, 0xffff_ffff_ffff_fff0);
    assert_eq!(blocks[2].range.end, u64::MAX);
    assert!(nests(&blocks[2]));
}

fn mp4_box(t: &[u8], body: &[u8]) -> Vec<u8> {
    let mut d = ((body.len() + 8) as u32).to_be_bytes().to_vec();
    d.extend_from_slice(t);
    d.extend_from_slice(body);
    d
}

fn mp4() -> Vec<u8> {
    let mut d = mp4_box(b"ftyp", b"isom\0\0\0\x01isomavc1");
    let mut mvhd = vec![0u8; 4];
    mvhd.extend_from_slice(&[0u8; 8]);
    mvhd.extend_from_slice(&1000u32.to_be_bytes());
    mvhd.extend_from_slice(&5000u32.to_be_bytes());
    mvhd.extend_from_slice(&0x0001_0000u32.to_be_bytes());
    mvhd.extend_from_slice(&[1, 0]);
    let trak = mp4_box(b"trak", &mp4_box(b"free", b"xy"));
    let mut moov_body = mp4_box(b"mvhd", &mvhd);
    moov_body.extend(trak);
    d.extend(mp4_box(b"moov", &moov_body));
    d.extend(mp4_box(b"mdat", &[1, 2, 3, 4]));
    d
}

#[test]
fn mp4_blocks_nest_in_every_prefix() {
    assert_prefixes_nest(&Mp4Dissector, &mp4());
    assert!(Mp4Dissector.dissect(&mp4()).iter().any(|b| b.label.starts_with("mdat")));
}

#[test]
fn mp4_box_header_longer_than_its_parent_runs_past_it() {
    let mut child = 1u32.to_be_bytes().to_vec();
    child.extend_from_slice(b"free");
    child.extend_from_slice(&16u64.to_be_bytes());
    let mut d = 20u32.to_be_bytes().to_vec();
    d.extend_from_slice(b"moov");
    d.extend(child);
    let blocks = Mp4Dissector.dissect(&d);
    let moov = &blocks[0];
    assert_eq!((moov.range.start, moov.range.end), (0, 20));
    let free = moov.children.iter().find(|c| c.range.start == 8).unwrap();
    assert_eq!(free.range.end, 20);
    assert!(free.children.iter().any(|c| c.range.end == 24));
    assert!(!nests(moov));
}

#[test]
fn mp4_box_header_sizes() {
    let d = mp4();
    let (t, hl, end) = parse_box_header(&d, 0).unwrap();
    assert_eq!((t.as_str(), hl, end), ("ftyp", 8, 24));
    let mut big = 1u32.to_be_bytes().to_vec();
    big.extend_from_slice(b"mdat");
    big.extend_from_slice(&u64::MAX.to_be_bytes());
    big.extend_from_slice(&[0u8; 4]);
    assert_eq!(parse_box_header(&big, 0).unwrap().1, 16);
    assert_eq!(parse_box_header(&big, 0).unwrap().2, 20);
    let mut small = 4u32.to_be_bytes().to_vec();
    small.extend_from_slice(b"free");
    assert!(parse_box_header(&small, 0).is_none());
    assert!(parse_box_header(&big[..12], 0).is_none());
}

fn tree_ok(b: &Block) -> bool {
    b.range.start <= b.range.end && (b.expandable || b.children.is_empty()) && b.children.iter().all(tree_ok)
}

/// Every prefix of `data` dissects into trees whose spans run forwards and
/// whose leaves have no children.
fn assert_prefixes_tree_ok(data: &[u8]) {
    for n in 0..=data.len() {
        for b in dissect(&data[..n]) {
            assert!(tree_ok(&b), "{:?} is malformed in {n} bytes", b.label);
        }
    }
}

fn png() -> Vec<u8> {
    let mut d = vec![0x89, b'P', b'N', b'G', 0x0d, 0x0a, 0x1a, 0x0a];
    d.extend_from_slice(&13u32.to_be_bytes());
    d.extend_from_slice(b"IHDR");
    d.extend_from_slice(&[0, 0, 0, 1, 0, 0, 0, 1, 8, 2, 0, 0, 0]);
    d.extend_from_slice(&[1, 2, 3, 4]);
    d.extend_from_slice(&0u32.to_be_bytes());
    d.extend_from_slice(b"IEND");
    d.extend_from_slice(&[5, 6, 7, 8]);
    d
}

fn riff(form: &[u8], chunks: &[(&[u8], &[u8])]) -> Vec<u8> {
    let mut d = b"RIFF\0\0\0\0".to_vec();
    d.extend_from_slice(form);
    for (id, body) in chunks {
        d.extend_from_slice(id);
        d.extend_from_slice(&(body.len() as u32).to_le_bytes());
        d.extend_from_slice(body);
    }
    d
}

fn ico() -> Vec<u8> {
    let mut d = vec![0, 0, 1, 0, 1, 0];
    d.extend_from_slice(&[1, 1, 0, 0, 1, 0, 32, 0]);
    d.extend_from_slice(&40u32.to_le_bytes());
    d.extend_from_slice(&22u32.to_le_bytes());
    d.extend_from_slice(&40u32.to_le_bytes());
    d.extend_from_slice(&[1, 0, 0, 0, 2, 0, 0, 0, 1, 0, 32, 0]);
    d.resize(62, 0);
    d
}

fn macho() -> Vec<u8> {
    let mut d = 0xfeedfacfu32.to_le_bytes().to_vec();
    d.extend_from_slice(&[7, 0, 0, 1, 3, 0, 0, 0, 2, 0, 0, 0]);
    d.extend_from_slice(&1u32.to_le_bytes());
    d.extend_from_slice(&24u32.to_le_bytes());
    d.extend_from_slice(&[0u8; 8]);
    d.extend_from_slice(&0x19u32.to_le_bytes());
    d.extend_from_slice(&24u32.to_le_bytes());
    d.extend_from_slice(b"__TEXT\0\0\0\0\0\0\0\0\0\0");
    d
}

fn jpeg() -> Vec<u8> {
    let mut d = vec![0xff, 0xd8];
    d.extend_from_slice(&[0xff, 0xe0, 0, 16]);
    d.extend_from_slice(b"JFIF\0");
    d.extend_from_slice(&[1, 1, 0, 0, 1, 0, 1, 0, 0]);
    d.extend_from_slice(&[0xff, 0xc0, 0, 11, 8, 0, 1, 0, 1, 1, 1, 0x11, 0]);
    d.extend_from_slice(&[0xff, 0xda, 0, 8, 1, 1, 0, 0, 0x3f, 0]);
    d.extend_from_slice(&[0x12, 0x34, 0xff, 0x00, 0x56]);
    d.extend_from_slice(&[0xff, 0xd9]);
    d
}

#[test]
fn block_trees_run_forwards_with_childless_leaves_in_every_format() {
    let samples: Vec<(Vec<u8>, &str)> = vec![
        (png(), "PNG"),
        (riff(b"WAVE", &[(b"fmt ", &[1, 0, 1, 0, 0x44, 0xac, 0, 0, 0x88, 0x58, 1, 0, 2, 0, 16, 0]), (b"data", &[0, 0, 1, 1])]), "WAV"),
        (riff(b"WEBP", &[(b"VP8X", &[0x10, 0, 0, 0, 1, 0, 0, 1, 0, 0]), (b"ALPH", &[9])]), "WebP"),
        (ico(), "ICO"),
        (macho(), "Mach-O"),
        (jpeg(), "JPEG"),
        (mp4(), "MP4"),
        (gif(), "GIF"),
        (zip(), "ZIP"),
        (tar(), "TAR"),
        (flac(), "FLAC"),
        (gzip(), "Gzip"),
        (bmp(), "BMP"),
        (sqlite(), "SQLite"),
        (pe(), "PE"),
        (ogg(), "OGG"),
        (elf64(), "ELF"),
    ];
    for (data, name) in &samples {
        assert_eq!(identify(data), *name);
        assert_prefixes_tree_ok(data);
    }
}
