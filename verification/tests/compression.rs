use packobf::deflate::dynamic::{
    dynamic_deflate, dynamic_zlib, fast_zopfli_options, fastest_zopfli_options, normal_zopfli_options,
    slow_zopfli_options, slowest_zopfli_options, Level, PreCheckResult,
};
use packobf::deflate::libdeflater::{libdeflater_deflate, libdeflater_zlib};
use packobf::deflate::zopfli::{zopfli_deflate, zopfli_zlib};
use packobf::deflate::DeflateError;
use packobf::digest::sha256;
use packobf::png::crc::modify_png_crcs;

fn inflate(data: &[u8], size: usize) -> Vec<u8> {
    let mut out = vec![0u8; size];
    let n = libdeflater::Decompressor::new().deflate_decompress(data, &mut out).unwrap();
    out.truncate(n);
    out
}

fn sample() -> Vec<u8> {
    let mut v = Vec::new();
    for i in 0..150u32 {
        v.extend_from_slice(format!("line {} of a fairly repetitive text\n", i % 37).as_bytes());
    }
    v
}

#[test]
fn sha256_of_abc() {
    let h = sha256(b"abc");
    assert_eq!(h[0..4], [0xba, 0x78, 0x16, 0xbf]);
    assert_eq!(h[28..32], [0xf2, 0x00, 0x15, 0xad]);
}

#[test]
fn libdeflate_streams_decompress_to_the_input() {
    let data = sample();
    let raw = libdeflater_deflate(&data, 6).unwrap();
    assert!(raw.len() < data.len());
    assert_eq!(inflate(&raw, data.len()), data);
    let z = libdeflater_zlib(&data, 12, true).unwrap();
    assert_eq!(z[0..2], [0x78, 0x9C]);
    assert_eq!(z[z.len() - 4..], libdeflater::adler32(&data).to_be_bytes());
    assert_eq!(inflate(&z[2..z.len() - 4], data.len()), data);
    let z0 = libdeflater_zlib(&data, 12, false).unwrap();
    assert_eq!(z0[z0.len() - 4..], [0, 0, 0, 0]);
}

#[test]
fn zlib_checksum_is_adler32() {
    let z = libdeflater_zlib(b"Wikipedia", 6, true).unwrap();
    assert_eq!(z[z.len() - 4..], [0x11, 0xE6, 0x03, 0x98]);
}

#[test]
fn zopfli_streams_decompress_to_the_input() {
    let data = sample();
    let raw = zopfli_deflate(&data, fastest_zopfli_options()).unwrap();
    assert_eq!(inflate(&raw, data.len()), data);
    let z = zopfli_zlib(&data, fastest_zopfli_options(), true).unwrap();
    assert_eq!(z[z.len() - 4..], libdeflater::adler32(&data).to_be_bytes());
}

#[test]
fn zopfli_presets() {
    let f = fastest_zopfli_options();
    assert_eq!((f.iteration_count, f.iterations_without_improvement, f.maximum_block_splits), (5, 5, 15));
    let s = slowest_zopfli_options();
    assert_eq!((s.iteration_count, s.iterations_without_improvement, s.maximum_block_splits), (40, 40, 25));
    assert_eq!(fast_zopfli_options().iteration_count, 10);
    assert_eq!(normal_zopfli_options().iteration_count, 15);
    assert_eq!(slow_zopfli_options().maximum_block_splits, 20);
}

#[test]
fn prechecks_pick_the_compressor() {
    assert_eq!(Level::Normal.analysis_level(), 9);
    assert_eq!(Level::Best.analysis_level(), 9);
    assert_eq!(Level::Normal.get_precheck_result(0, 1000), PreCheckResult::Skip);
    assert_eq!(Level::Normal.get_precheck_result(9, 1000), PreCheckResult::Skip);
    assert_eq!(Level::Normal.get_precheck_result(10, 1000), PreCheckResult::LibDeflater);
    assert_eq!(Level::Best.get_precheck_result(79, 1000), PreCheckResult::CompressWithZopfli(fast_zopfli_options()));
    assert_eq!(Level::Normal.get_precheck_result(80, 1000), PreCheckResult::CompressWithZopfli(normal_zopfli_options()));
    assert_eq!(Level::Best.get_precheck_result(500, 1000), PreCheckResult::CompressWithZopfli(slowest_zopfli_options()));
    assert_eq!(Level::Normal.get_precheck_result(100_000, 100_000), PreCheckResult::CompressWithZopfli(fast_zopfli_options()));
    assert_eq!(Level::Best.get_precheck_result(600_000, 600_000), PreCheckResult::CompressWithZopfli(normal_zopfli_options()));
}

#[test]
fn dynamic_compression_round_trips() {
    assert_eq!(dynamic_deflate(&[], Level::Normal, true), Err(DeflateError::CompressionFailed));
    let data = sample();
    let raw = dynamic_deflate(&data, Level::Normal, false).unwrap();
    assert_eq!(inflate(&raw, data.len()), data);
    let z = dynamic_zlib(&data, Level::Best, true).unwrap();
    assert_eq!(inflate(&z[2..z.len() - 4], data.len()), data);
    // incompressible data is stored unless compression is forced
    let noise: Vec<u8> = (0..4000u32).map(|i| (i.wrapping_mul(2654435761) >> 13) as u8).collect();
    if let Ok(v) = dynamic_deflate(&noise, Level::Normal, false) {
        if v.is_empty() {
            assert!(!dynamic_deflate(&noise, Level::Normal, true).unwrap().is_empty());
        }
    }
}

fn chunk(kind: &[u8; 4], data: &[u8]) -> Vec<u8> {
    let mut v = (data.len() as u32).to_be_bytes().to_vec();
    v.extend_from_slice(kind);
    v.extend_from_slice(data);
    let mut crc_input = kind.to_vec();
    crc_input.extend_from_slice(data);
    v.extend_from_slice(&libdeflater::crc32(&crc_input).to_be_bytes());
    v
}

pub fn tiny_png() -> Vec<u8> {
    let mut png = vec![137u8, 80, 78, 71, 13, 10, 26, 10];
    let ihdr = [0, 0, 0, 2, 0, 0, 0, 2, 8, 6, 0, 0, 0];
    png.extend(chunk(b"IHDR", &ihdr));
    let rows = [0u8, 255, 0, 0, 255, 0, 255, 0, 255, 0, 0, 0, 255, 255, 0, 0, 0, 255];
    let mut c = libdeflater::Compressor::new(libdeflater::CompressionLvl::default());
    let mut z = vec![0u8; c.zlib_compress_bound(rows.len())];
    let n = c.zlib_compress(&rows, &mut z).unwrap();
    z.truncate(n);
    png.extend(chunk(b"IDAT", &z));
    png.extend(chunk(b"IEND", &[]));
    png
}

#[test]
fn corrupted_pngs_lose_four_bytes() {
    let png = tiny_png();
    let out = modify_png_crcs(&png).unwrap();
    assert_eq!(out.len(), png.len() - 4);
    assert_eq!(out[0..8], png[0..8]);
    // the IHDR CRC is zeroed
    assert_eq!(out[29..33], [0, 0, 0, 0]);
    assert!(out.ends_with(b"IEND"));
    assert!(modify_png_crcs(b"not a png").is_err());
    assert!(modify_png_crcs(&[]).is_err());
}

#[test]
fn raw_compressors_accept_empty_input() {
    let raw = libdeflater_deflate(&[], 12).unwrap();
    assert_eq!(inflate(&raw, 0), Vec::<u8>::new());
    let z = zopfli_deflate(&[], fastest_zopfli_options()).unwrap();
    assert_eq!(inflate(&z, 0), Vec::<u8>::new());
    assert!(zopfli_zlib(&[], fastest_zopfli_options(), true).is_ok());
    assert!(libdeflater_zlib(&[], 0, false).is_ok());
}
