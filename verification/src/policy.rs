//! The immutable rotation policy and its trigger conditions.

use vstd::prelude::*;
use vstd::string::StringExecFns;

verus! {

/// The compression codec applied to a retired file, if any.
#[derive(Copy, Clone, PartialEq, Eq, Structural, Debug)]
pub enum Compression {
    GZip,
    Zip,
}

/// Configuration fixed at construction time: where files live, when the
/// active file is retired, and how retired files are compressed and named.
pub struct RotationPolicy {
    /// Directory that holds the files.
    pub root_dir: String,
    /// Size threshold in kilobytes; 0 means no size trigger.
    pub size: usize,
    /// Rotation interval in seconds; 0 means no time trigger.
    pub interval: u64,
    /// Codec for retired files; `None` leaves them uncompressed.
    pub compression: Option<Compression>,
    /// Timestamp layout for file names, in strftime syntax.
    pub date_format: String,
    /// File name prefix.
    pub prefix: String,
    /// File name suffix.
    pub suffix: String,
}

/// How many bytes appending `line` costs: its UTF-8 length, as the machine
/// measures it, plus one for the trailing newline.
pub open spec fn line_cost(line: Seq<char>) -> int {
    (vstd::utf8::encode_utf8(line).len() as usize) + 1
}

impl RotationPolicy {
    /// The size threshold in bytes.
    pub open spec fn max_bytes(self) -> int {
        self.size * 1024
    }

    /// The size trigger: appending a line costing `cost` bytes to a file
    /// already holding `bytes_written` bytes would reach the threshold.
    pub open spec fn size_trigger(self, bytes_written: u64, cost: int) -> bool {
        self.size > 0 && bytes_written + cost >= self.max_bytes()
    }

    /// The time trigger: the configured interval has elapsed since the epoch
    /// the active file was opened under.
    pub open spec fn time_trigger(self, epoch: u64, now: u64) -> bool {
        self.interval > 0 && now >= epoch + self.interval
    }

    /// A write costing `cost` bytes at time `now` retires the active file
    /// when either trigger fires.
    pub open spec fn rotates(self, bytes_written: u64, cost: int, epoch: u64, now: u64) -> bool {
        self.size_trigger(bytes_written, cost) || self.time_trigger(epoch, now)
    }

    /// The epoch a file opened at time `now` is named under: the start of the
    /// current interval when a time trigger is configured, else `now` itself.
    pub open spec fn next_epoch(self, now: u64) -> int {
        if self.interval > 0 {
            (now as int / self.interval as int) * self.interval as int
        } else {
            now as int
        }
    }

    /// Builds a policy from the optional settings, filling in the defaults:
    /// no size or time trigger, no compression, a second-resolution timestamp,
    /// an empty prefix and the suffix `.log`.
    pub fn new(
        root_dir: &str,
        size: Option<usize>,
        interval: Option<u64>,
        compression: Option<Compression>,
        date_format: Option<String>,
        prefix: Option<String>,
        suffix: Option<String>,
    ) -> (r: Self)
        ensures
            r.root_dir@ == root_dir@,
            r.size == size.unwrap_or(0),
            r.interval == interval.unwrap_or(0),
            r.compression == compression,
            (match date_format {
                Some(f) => r.date_format@ == f@,
                None => r.date_format@ == "%Y-%m-%d-%H-%M-%S"@,
            }),
            (match prefix {
                Some(p) => r.prefix@ == p@,
                None => r.prefix@ == ""@,
            }),
            (match suffix {
                Some(s) => r.suffix@ == s@,
                None => r.suffix@ == ".log"@,
            }),
    {
        let date_format = match date_format {
            Some(f) => f,
            None => String::from_str("%Y-%m-%d-%H-%M-%S"),
        };
        let prefix = match prefix {
            Some(p) => p,
            None => String::from_str(""),
        };
        let suffix = match suffix {
            Some(s) => s,
            None => String::from_str(".log"),
        };
        RotationPolicy {
            root_dir: String::from_str(root_dir),
            size: size.unwrap_or(0),
            interval: interval.unwrap_or(0),
            compression,
            date_format,
            prefix,
            suffix,
        }
    }
}

} // verus!
