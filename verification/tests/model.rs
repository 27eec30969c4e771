use rotating_file::policy::RotationPolicy;
use rotating_file::rotation::{next_epoch, plan_write, ActiveFileState, WriteDecision};
use rotating_file::sink::{RotatingSink, SinkError};
use rotating_file::Compression;

const TEXT: &'static str = "The quick brown fox jumps over the lazy dog";

fn stamp_of(epoch: u64) -> String {
    chrono::DateTime::<chrono::Utc>::from_timestamp(epoch as i64, 0)
        .unwrap()
        .format("%Y-%m-%d-%H-%M-%S")
        .to_string()
}

fn sink_with(
    size: Option<usize>,
    interval: Option<u64>,
    compression: Option<Compression>,
    now: u64,
) -> RotatingSink {
    let policy = RotationPolicy::new("./target/logs", size, interval, compression, None, None, None);
    RotatingSink::new(policy, Vec::new(), now).unwrap()
}

#[test]
fn policy_defaults() {
    let p = RotationPolicy::new("root", None, None, None, None, None, None);
    assert_eq!(p.root_dir, "root");
    assert_eq!(p.size, 0);
    assert_eq!(p.interval, 0);
    assert!(p.compression.is_none());
    assert_eq!(p.date_format, "%Y-%m-%d-%H-%M-%S");
    assert_eq!(p.prefix, "");
    assert_eq!(p.suffix, ".log");
}

#[test]
fn epoch_is_interval_aligned() {
    let p = RotationPolicy::new("r", None, Some(10), None, None, None, None);
    assert_eq!(next_epoch(&p, 57), 50);
    assert_eq!(next_epoch(&p, 60), 60);
    let q = RotationPolicy::new("r", Some(1), None, None, None, None, None);
    assert_eq!(next_epoch(&q, 57), 57);
}

#[test]
fn plan_fires_size_trigger_exactly_at_threshold() {
    let p = RotationPolicy::new("r", Some(1), None, None, None, None, None);
    let a = ActiveFileState {
        name: String::new(),
        epoch: 0,
        bytes_written: 979,
    };
    // 979 + 43 + 1 < 1024: keep
    assert_eq!(plan_write(&p, &a, TEXT, 0), WriteDecision::Keep);
    let b = ActiveFileState {
        name: String::new(),
        epoch: 0,
        bytes_written: 980,
    };
    // 980 + 43 + 1 >= 1024: rotate
    assert_eq!(plan_write(&p, &b, TEXT, 0), WriteDecision::Rotate { epoch: 0 });
}

#[test]
fn rotate_by_size() {
    // 23 writes of 44 bytes stay under 1 KB: one file only.
    let mut s = sink_with(Some(1), None, None, 0);
    for _ in 0..23 {
        s.write_line(TEXT, 0).unwrap();
    }
    s.close(&Vec::new());
    assert_eq!(s.retired.len(), 0);
    assert_eq!(s.active.name, stamp_of(0) + ".log");
    assert_eq!(s.active.bytes_written, 23 * 44);

    // the 24th write retires the first file and lands in the second.
    let mut s = sink_with(Some(1), None, None, 0);
    for _ in 0..24 {
        s.write_line(TEXT, 0).unwrap();
    }
    s.close(&Vec::new());
    assert_eq!(s.retired.len(), 1);
    assert_eq!(s.retired[0].name, stamp_of(0) + ".log");
    assert_eq!(s.retired[0].bytes, 23 * 44);
    assert_eq!(s.retired[0].lines.len(), 23);
    assert_eq!(s.active.name, stamp_of(0) + "-1.log");
    assert_eq!(s.active_lines, vec![TEXT.to_string()]);
    assert_eq!(s.active.bytes_written, 44);
}

#[test]
fn rotate_by_time() {
    let mut s = sink_with(None, Some(1), None, 100);
    s.write_line(TEXT, 100).unwrap();
    s.write_line(TEXT, 101).unwrap();
    s.close(&Vec::new());
    assert_eq!(s.retired.len(), 1);
    assert_eq!(s.retired[0].name, stamp_of(100) + ".log");
    assert_eq!(s.active.name, stamp_of(101) + ".log");
}

#[test]
fn same_window_same_file() {
    let mut s = sink_with(None, Some(10), None, 50);
    s.write_line(TEXT, 52).unwrap();
    s.write_line(TEXT, 59).unwrap();
    assert_eq!(s.retired.len(), 0);
    assert_eq!(s.active_lines.len(), 2);
    assert_eq!(s.active.epoch, 50);
    // crossing the window boundary rotates, onto the aligned epoch.
    s.write_line(TEXT, 61).unwrap();
    assert_eq!(s.retired.len(), 1);
    assert_eq!(s.active.epoch, 60);
}

#[test]
fn rotate_by_size_and_gzip() {
    let mut s = sink_with(Some(1), None, Some(Compression::GZip), 0);
    for _ in 0..24 {
        s.write_line(TEXT, 0).unwrap();
    }
    assert_eq!(s.pending.len(), 1);
    assert_eq!(s.pending[0].name, stamp_of(0) + ".log");
    s.close(&vec![true]);
    assert_eq!(s.pending.len(), 0);
    assert_eq!(s.retired[0].archived, Some(Compression::GZip));
    assert_eq!(s.retired[0].name, stamp_of(0) + ".log");
    assert_eq!(s.active.name, stamp_of(0) + "-1.log");
}

#[test]
fn rotate_by_size_and_zip() {
    let mut s = sink_with(Some(1), None, Some(Compression::Zip), 0);
    for _ in 0..24 {
        s.write_line(TEXT, 0).unwrap();
    }
    s.close(&vec![true]);
    assert_eq!(s.retired[0].archived, Some(Compression::Zip));
    assert_eq!(s.retired[0].name, stamp_of(0) + ".log");
    assert_eq!(s.active.name, stamp_of(0) + "-1.log");
}

#[test]
fn rotate_by_time_and_gzip() {
    let mut s = sink_with(None, Some(1), Some(Compression::GZip), 200);
    s.write_line(TEXT, 200).unwrap();
    s.write_line(TEXT, 201).unwrap();
    s.close(&vec![true]);
    assert_eq!(s.retired.len(), 1);
    assert_eq!(s.retired[0].archived, Some(Compression::GZip));
    assert_eq!(s.retired[0].name, stamp_of(200) + ".log");
    assert_eq!(s.active.name, stamp_of(201) + ".log");
}

#[test]
fn rotate_by_time_and_zip() {
    let mut s = sink_with(None, Some(1), Some(Compression::Zip), 200);
    s.write_line(TEXT, 200).unwrap();
    s.write_line(TEXT, 201).unwrap();
    s.close(&vec![true]);
    assert_eq!(s.retired[0].archived, Some(Compression::Zip));
    assert_eq!(s.retired[0].name, stamp_of(200) + ".log");
    assert_eq!(s.active.name, stamp_of(201) + ".log");
}

#[test]
fn interleaved_writers_fill_three_files() {
    // two producers of 23 lines each and one more line, serialized: every
    // line lands in exactly one file, 47 in all, across three files.
    let mut s = sink_with(Some(1), None, Some(Compression::GZip), 0);
    for _ in 0..47 {
        s.write_line(TEXT, 0).unwrap();
    }
    s.close(&vec![true, true]);
    assert_eq!(s.retired.len(), 2);
    assert_eq!(s.retired[0].name, stamp_of(0) + ".log");
    assert_eq!(s.retired[0].archived, Some(Compression::GZip));
    assert_eq!(s.retired[1].name, stamp_of(0) + "-1.log");
    assert_eq!(s.retired[1].archived, Some(Compression::GZip));
    assert_eq!(s.active.name, stamp_of(0) + "-2.log");
    assert_eq!(s.active.bytes_written as usize, TEXT.len() + 1);
    let total: usize =
        s.retired.iter().map(|f| f.lines.len()).sum::<usize>() + s.active_lines.len();
    assert_eq!(total, 47);
    for f in &s.retired {
        for l in &f.lines {
            assert_eq!(l, TEXT);
        }
    }
}

#[test]
fn failed_compression_keeps_the_original_file() {
    let mut s = sink_with(Some(1), None, Some(Compression::GZip), 0);
    for _ in 0..24 {
        s.write_line(TEXT, 0).unwrap();
    }
    assert_eq!(s.pending.len(), 1);
    s.close(&vec![false]);
    assert_eq!(s.pending.len(), 0);
    assert_eq!(s.retired[0].archived, None);
    assert_eq!(s.retired[0].name, stamp_of(0) + ".log");
    assert_eq!(s.retired[0].lines.len(), 23);
}

#[test]
fn close_is_idempotent() {
    let mut s = sink_with(Some(1), None, Some(Compression::GZip), 0);
    for _ in 0..24 {
        s.write_line(TEXT, 0).unwrap();
    }
    s.close(&vec![true]);
    let names: Vec<String> = s.retired.iter().map(|f| f.name.clone()).collect();
    let flags: Vec<Option<Compression>> = s.retired.iter().map(|f| f.archived).collect();
    s.close(&Vec::new());
    assert_eq!(s.pending.len(), 0);
    assert_eq!(
        s.retired.iter().map(|f| f.name.clone()).collect::<Vec<String>>(),
        names
    );
    assert_eq!(
        s.retired.iter().map(|f| f.archived).collect::<Vec<Option<Compression>>>(),
        flags
    );
}

#[test]
fn oversized_line_fills_a_file_alone() {
    let mut s = sink_with(Some(1), None, None, 0);
    let big = "x".repeat(2000);
    // the oversized line already trips the trigger, so the empty first file
    // is retired and the line opens the second file alone.
    s.write_line(&big, 0).unwrap();
    assert_eq!(s.retired.len(), 1);
    assert_eq!(s.retired[0].lines.len(), 0);
    assert_eq!(s.retired[0].bytes, 0);
    assert_eq!(s.active.bytes_written, 2001);
    // the next write rotates again; the oversized file holds its line alone.
    s.write_line(TEXT, 0).unwrap();
    assert_eq!(s.retired.len(), 2);
    assert_eq!(s.retired[1].lines.len(), 1);
    assert_eq!(s.retired[1].bytes, 2001);
    assert_eq!(s.active_lines, vec![TEXT.to_string()]);
}

#[test]
fn invalid_date_format_is_rejected() {
    let policy = RotationPolicy::new(
        "r",
        Some(1),
        None,
        None,
        Some("%".to_string()),
        None,
        None,
    );
    match RotatingSink::new(policy, Vec::new(), 0) {
        Err(e) => assert_eq!(e, SinkError::TimeFormat),
        Ok(_) => panic!("a lone % is not a valid strftime pattern"),
    }
}

#[test]
fn unrenderable_epoch_rejects_the_write_and_changes_nothing() {
    // constructed at a renderable time, but the rotation epoch of a write at
    // the far end of the clock is beyond chrono's range: the write reports
    // the error and leaves the sink exactly as it was.
    let mut s = sink_with(None, Some(1), None, 0);
    s.write_line(TEXT, 0).unwrap();
    let before_name = s.active.name.clone();
    let before_bytes = s.active.bytes_written;
    match s.write_line(TEXT, u64::MAX) {
        Err(e) => assert_eq!(e, SinkError::TimeFormat),
        Ok(()) => panic!("an unrenderable epoch must reject the write"),
    }
    assert_eq!(s.active.name, before_name);
    assert_eq!(s.active.bytes_written, before_bytes);
    assert_eq!(s.retired.len(), 0);
    assert_eq!(s.active_lines.len(), 1);
}

#[test]
fn prefix_and_suffix_shape_names() {
    let policy = RotationPolicy::new(
        "r",
        Some(1),
        None,
        None,
        None,
        Some("app-".to_string()),
        Some(".txt".to_string()),
    );
    let s = RotatingSink::new(policy, Vec::new(), 0).unwrap();
    assert_eq!(s.active.name, format!("app-{}.txt", stamp_of(0)));
}

#[test]
fn construction_avoids_existing_files() {
    let taken = vec![stamp_of(0) + ".log", stamp_of(0) + "-1.log"];
    let policy = RotationPolicy::new("r", Some(1), None, None, None, None, None);
    let s = RotatingSink::new(policy, taken, 0).unwrap();
    assert_eq!(s.active.name, stamp_of(0) + "-2.log");
}
