use rotating_file::codec::{artifact_name, encode_artifact, gzip_round_trip, zip_round_trip, EncodeError};
use rotating_file::naming::allocate_name;
use rotating_file::Compression;

#[test]
fn artifact_names_carry_the_codec_extension() {
    assert_eq!(artifact_name("a.log", Compression::GZip), "a.log.gz");
    assert_eq!(artifact_name("a.log", Compression::Zip), "a.log.zip");
}

#[test]
fn gzip_restores_the_original_bytes() {
    let data: Vec<u8> = b"The quick brown fox jumps over the lazy dog\n".repeat(40);
    let back = gzip_round_trip(data.as_slice());
    assert_eq!(back, data);
}

#[test]
fn gzip_artifact_is_a_real_gzip_stream() {
    let data: Vec<u8> = b"The quick brown fox jumps over the lazy dog\n".repeat(40);
    let artifact = encode_artifact(Compression::GZip, "f.log", data.as_slice()).unwrap();
    assert_ne!(artifact, data);
    assert!(artifact.len() < data.len());
    // decode with flate2 directly, not through the library.
    let mut dec = flate2::read::GzDecoder::new(artifact.as_slice());
    let mut out = Vec::new();
    std::io::Read::read_to_end(&mut dec, &mut out).unwrap();
    assert_eq!(out, data);
}

#[test]
fn zip_restores_the_entry_and_its_bytes() {
    let data: Vec<u8> = b"line one\nline two\n".repeat(12);
    let (name, back) = zip_round_trip("2021-01-01.log", data.as_slice()).unwrap();
    assert_eq!(name, "2021-01-01.log");
    assert_eq!(back, data);
}

#[test]
fn zip_artifact_is_a_real_archive() {
    let data: Vec<u8> = b"payload bytes".to_vec();
    let artifact = encode_artifact(Compression::Zip, "f.log", data.as_slice()).unwrap();
    assert_ne!(artifact, data);
    // read it back with the zip crate directly, not through the library.
    let mut ar = zip::ZipArchive::new(std::io::Cursor::new(artifact)).unwrap();
    assert_eq!(ar.len(), 1);
    let mut entry = ar.by_index(0).unwrap();
    assert_eq!(entry.name(), "f.log");
    let mut out = Vec::new();
    std::io::Read::read_to_end(&mut entry, &mut out).unwrap();
    assert_eq!(out, data);
}

#[test]
fn gzip_of_empty_input_round_trips() {
    let back = gzip_round_trip(&[]);
    assert_eq!(back, Vec::<u8>::new());
}

#[test]
fn zip_rejects_a_name_over_the_format_limit() {
    let long_name = "x".repeat(0x1_0000);
    match zip_round_trip(&long_name, b"data") {
        Err(e) => assert_eq!(e, EncodeError::Codec),
        Ok(_) => panic!("a 65536-byte entry name does not fit the format's name field"),
    }
}

#[test]
fn allocator_probes_in_order() {
    let existing: Vec<String> = Vec::new();
    assert_eq!(allocate_name(&existing, "p-", "S", ".log"), "p-S.log");
    let existing = vec!["p-S.log".to_string()];
    assert_eq!(allocate_name(&existing, "p-", "S", ".log"), "p-S-1.log");
    let existing = vec!["p-S.log".to_string(), "p-S-1.log".to_string()];
    assert_eq!(allocate_name(&existing, "p-", "S", ".log"), "p-S-2.log");
    // a gap is reused: the first free index wins.
    let existing = vec!["p-S.log".to_string(), "p-S-2.log".to_string()];
    assert_eq!(allocate_name(&existing, "p-", "S", ".log"), "p-S-1.log");
}

#[test]
fn repeated_allocation_never_collides() {
    let mut existing: Vec<String> = vec!["old.log".to_string()];
    let mut seen: Vec<String> = existing.clone();
    for _ in 0..12 {
        let name = allocate_name(&existing, "", "old", ".log");
        assert!(!seen.contains(&name));
        seen.push(name.clone());
        existing.push(name);
    }
}

#[test]
fn allocator_counts_past_ten() {
    let mut existing: Vec<String> = vec!["S".to_string()];
    for i in 1..=11 {
        existing.push(format!("S-{}", i));
    }
    assert_eq!(allocate_name(&existing, "", "S", ""), "S-12");
}
