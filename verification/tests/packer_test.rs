use fastlog::plugin::packer::{GZipPacker, LZ4Packer, LogPacker, ZipPacker};
use std::io::Read;

#[test]
fn pack_names() {
    assert_eq!(LogPacker {}.pack_name(), "log");
    assert_eq!(ZipPacker {}.pack_name(), "zip");
    assert_eq!(LZ4Packer {}.pack_name(), "lz4");
    assert_eq!(GZipPacker {}.pack_name(), "gz");
}

#[test]
fn log_packer_keeps_the_source() {
    let data: Vec<u8> = b"hello".to_vec();
    let r = LogPacker {}.do_pack(&data, "logs/temp1.log").unwrap();
    assert!(!r.remove_source);
    assert!(r.artifact.is_none());
}

#[test]
fn gzip_packer_produces_a_decodable_sibling() {
    let data: Vec<u8> = b"some log content\nanother line\n".repeat(20);
    let r = GZipPacker {}.do_pack(&data, "logs/temp1.log").unwrap();
    assert!(r.remove_source);
    let (dest, bytes) = r.artifact.unwrap();
    assert_eq!(dest, "logs/temp1.gz");
    assert!(bytes != data);
    let mut dec = flate2::read::GzDecoder::new(&bytes[..]);
    let mut out = Vec::new();
    dec.read_to_end(&mut out).unwrap();
    assert_eq!(out, data);
}

#[test]
fn lz4_packer_produces_a_decodable_sibling() {
    let data: Vec<u8> = b"lz4 payload\n".repeat(50);
    let r = LZ4Packer {}.do_pack(&data, "logs/temp2.log").unwrap();
    assert!(r.remove_source);
    let (dest, bytes) = r.artifact.unwrap();
    assert_eq!(dest, "logs/temp2.lz4");
    assert!(bytes != data);
    let mut dec = lz4_flex::frame::FrameDecoder::new(&bytes[..]);
    let mut out = Vec::new();
    dec.read_to_end(&mut out).unwrap();
    assert_eq!(out, data);
}

#[test]
fn zip_packer_produces_an_archive_with_one_named_entry() {
    let data: Vec<u8> = b"zipped log body\n".repeat(30);
    let r = ZipPacker {}.do_pack(&data, "logs/temp3.log").unwrap();
    assert!(r.remove_source);
    let (dest, bytes) = r.artifact.unwrap();
    assert_eq!(dest, "logs/temp3.zip");
    assert!(bytes != data);
    let mut archive = zip::ZipArchive::new(std::io::Cursor::new(bytes)).unwrap();
    assert_eq!(archive.len(), 1);
    let mut entry = archive.by_index(0).unwrap();
    assert_eq!(entry.name(), "temp3.log");
    let mut out = Vec::new();
    entry.read_to_end(&mut out).unwrap();
    assert_eq!(out, data);
}

#[test]
fn pack_destination_without_log_suffix_gets_the_extension_appended() {
    let data: Vec<u8> = b"x".to_vec();
    let r = GZipPacker {}.do_pack(&data, "logs/odd.txt").unwrap();
    let (dest, _) = r.artifact.unwrap();
    assert_eq!(dest, "logs/odd.txt.gz");
}
