//! The rotation controller: an in-memory model of the directory of log
//! files, the active file, and the handoff of retired files to compression.
//!
//! The controller owns exactly one active file.  Every write first evaluates
//! the rotation triggers; when one fires, the active file is retired, a
//! successor is opened under a fresh collision-free name, and — when a codec
//! is configured — the retired file is handed to a pending compression task.
//! `close` settles every pending task against its reported outcome: a
//! retired file whose task succeeded exists afterwards only as its
//! compressed artifact, while one whose task failed keeps its original,
//! uncompressed file.

use crate::codec::{artifact_name, artifact_name_spec};
use crate::naming::{allocate_name, allocation_ok};
use crate::policy::{line_cost, Compression, RotationPolicy};
use crate::rotation::{next_epoch, plan_write, ActiveFileState, WriteDecision};
use crate::timefmt::{format_epoch, formatted_time};
use vstd::prelude::*;

verus! {

/// A file the controller has retired: its name, its byte count, the lines it
/// holds, and — once `close` has settled its compression task — the codec
/// whose artifact replaced it on disk.
pub struct FileRecord {
    /// Name the file was created under.
    pub name: String,
    /// Bytes written to it, trailing newlines included.
    pub bytes: u64,
    /// The lines it holds, in the order they were written.
    pub lines: Vec<String>,
    /// `Some(kind)` once the file exists only as its compressed artifact.
    pub archived: Option<Compression>,
}

/// A retired file handed off for background compression.  The controller
/// keeps only this reference; it does not touch the file again.
pub struct PendingCompression {
    /// Name of the retired file.
    pub name: String,
    /// Codec the task will apply.
    pub kind: Compression,
}

/// An error a write can report.
#[derive(Copy, Clone, PartialEq, Eq, Structural, Debug)]
pub enum SinkError {
    /// The rotation epoch could not be rendered under the configured
    /// timestamp format.
    TimeFormat,
}

/// The rotation controller and its view of the directory.
pub struct RotatingSink {
    /// The immutable policy.
    pub policy: RotationPolicy,
    /// Names that were already present in the directory at construction.
    pub foreign: Vec<String>,
    /// Files retired so far, oldest first.
    pub retired: Vec<FileRecord>,
    /// The file currently being written.
    pub active: ActiveFileState,
    /// The lines of the active file, in order.
    pub active_lines: Vec<String>,
    /// Compression tasks dispatched but not yet settled by `close`.
    pub pending: Vec<PendingCompression>,
}

/// The name under which a retired file currently exists: its own name, or
/// its artifact's name once archived.
pub open spec fn stored_name(f: FileRecord) -> Seq<char> {
    match f.archived {
        None => f.name@,
        Some(k) => artifact_name_spec(f.name@, k),
    }
}

/// Total byte cost of a sequence of lines.
pub open spec fn lines_bytes(ls: Seq<Seq<char>>) -> int
    decreases ls.len(),
{
    if ls.len() == 0 {
        0
    } else {
        lines_bytes(ls.drop_last()) + line_cost(ls.last())
    }
}

/// A file never exceeds the size threshold unless a single oversized line
/// fills it alone.
pub open spec fn size_bounded_record(policy: RotationPolicy, bytes: u64, nlines: nat) -> bool {
    policy.size > 0 ==> (bytes < policy.max_bytes() || nlines == 1)
}

/// How the file named `name` is settled when the pending tasks report the
/// outcomes `succeeded`, one per task in order: the codec of the first task
/// that names it, when that task's compression succeeded; `None` when no
/// task names it or its task failed, in which case the original file stays.
pub open spec fn settled_kind(
    pending: Seq<PendingCompression>,
    succeeded: Seq<bool>,
    name: Seq<char>,
) -> Option<Compression>
    decreases pending.len(),
{
    if pending.len() == 0 {
        None
    } else if pending[0].name@ == name {
        if succeeded.len() > 0 && succeeded[0] {
            Some(pending[0].kind)
        } else {
            None
        }
    } else {
        settled_kind(pending.drop_first(), succeeded.drop_first(), name)
    }
}

impl RotatingSink {
    /// Every name present in the directory: the pre-existing entries, the
    /// retired files under their stored names, and the active file.
    pub open spec fn occupied(self) -> Seq<Seq<char>> {
        self.foreign.deep_view() + self.retired@.map_values(|f: FileRecord| stored_name(f))
            + seq![self.active.name@]
    }

    /// Byte counters agree with the lines they account for.
    pub open spec fn bytes_accounted(self) -> bool {
        &&& self.active.bytes_written as int == lines_bytes(self.active_lines.deep_view())
        &&& forall|i: int|
            0 <= i < self.retired@.len() ==> (#[trigger] self.retired@[i]).bytes as int
                == lines_bytes(self.retired@[i].lines.deep_view())
    }

    /// No file outgrows the size threshold, except by a lone oversized line.
    pub open spec fn size_bounded(self) -> bool {
        &&& size_bounded_record(self.policy, self.active.bytes_written, self.active_lines@.len())
        &&& forall|i: int|
            0 <= i < self.retired@.len() ==> size_bounded_record(
                self.policy,
                (#[trigger] self.retired@[i]).bytes,
                self.retired@[i].lines@.len(),
            )
    }

    /// Live (not yet archived) files carry pairwise distinct names, and the
    /// active file's name differs from all of them.
    pub open spec fn names_fresh(self) -> bool {
        &&& forall|i: int, j: int|
            0 <= i < j < self.retired@.len() && (#[trigger] self.retired@[i]).archived is None && (
            #[trigger] self.retired@[j]).archived is None ==> self.retired@[i].name@
                != self.retired@[j].name@
        &&& forall|i: int|
            0 <= i < self.retired@.len() && (#[trigger] self.retired@[i]).archived is None
                ==> self.retired@[i].name@ != self.active.name@
    }

    /// Every pending task names exactly one live retired file, and no two
    /// tasks name the same file.
    pub open spec fn pending_ok(self) -> bool {
        &&& forall|t: int|
            0 <= t < self.pending@.len() ==> exists|i: int|
                0 <= i < self.retired@.len() && (#[trigger] self.retired@[i]).archived is None
                    && self.retired@[i].name@ == (#[trigger] self.pending@[t]).name@
        &&& forall|t: int, u: int|
            0 <= t < u < self.pending@.len() ==> (#[trigger] self.pending@[t]).name@ != (
            #[trigger] self.pending@[u]).name@
    }

    /// The controller's invariant.
    pub open spec fn wf(self) -> bool {
        &&& self.bytes_accounted()
        &&& self.size_bounded()
        &&& self.names_fresh()
        &&& self.pending_ok()
    }
}

/// The write at time `now` retires the active file first.
pub open spec fn rotation_due(s: RotatingSink, line: Seq<char>, now: u64) -> bool {
    s.policy.rotates(s.active.bytes_written, line_cost(line), s.active.epoch, now)
}

/// The stamp the successor file would be named under.
pub open spec fn rotation_stamp(s: RotatingSink, now: u64) -> Option<Seq<char>> {
    formatted_time(s.policy.next_epoch(now) as u64, s.policy.date_format@)
}

/// The write is rejected: rotation is due but the epoch cannot be rendered
/// under the configured format.
pub open spec fn write_rejected(s: RotatingSink, line: Seq<char>, now: u64) -> bool {
    rotation_due(s, line, now) && rotation_stamp(s, now) is None
}

/// A write that keeps the active file: the line is appended to it and
/// nothing else changes.
pub open spec fn keeps_write(pre: RotatingSink, line: Seq<char>, post: RotatingSink) -> bool {
    &&& post.policy == pre.policy
    &&& post.foreign == pre.foreign
    &&& post.retired == pre.retired
    &&& post.pending == pre.pending
    &&& post.active.name == pre.active.name
    &&& post.active.epoch == pre.active.epoch
    &&& post.active.bytes_written as int == pre.active.bytes_written as int + line_cost(line)
    &&& post.active_lines.deep_view() == pre.active_lines.deep_view().push(line)
}

/// A write that rotates: the active file is retired unchanged, a task for it
/// is dispatched when a codec is configured, and the triggering line lands
/// as the first line of the successor, which is opened under the aligned
/// epoch and a name that collides with nothing in the directory.
pub open spec fn rotates_write(
    pre: RotatingSink,
    line: Seq<char>,
    now: u64,
    post: RotatingSink,
) -> bool {
    let stamp = rotation_stamp(pre, now).unwrap();
    let retired = post.retired@.last();
    &&& post.policy == pre.policy
    &&& post.foreign == pre.foreign
    &&& post.retired@.len() == pre.retired@.len() + 1
    &&& forall|i: int| 0 <= i < pre.retired@.len() ==> post.retired@[i] == pre.retired@[i]
    &&& retired.name == pre.active.name
    &&& retired.bytes == pre.active.bytes_written
    &&& retired.lines == pre.active_lines
    &&& retired.archived is None
    &&& allocation_ok(pre.occupied(), pre.policy.prefix@, stamp, pre.policy.suffix@,
    post.active.name@)
    &&& post.active.epoch as int == pre.policy.next_epoch(now)
    &&& post.active.bytes_written as int == line_cost(line)
    &&& post.active_lines.deep_view() == seq![line]
    &&& match pre.policy.compression {
        None => post.pending == pre.pending,
        Some(k) => {
            &&& post.pending@.len() == pre.pending@.len() + 1
            &&& forall|t: int| 0 <= t < pre.pending@.len() ==> post.pending@[t] == pre.pending@[t]
            &&& post.pending@.last().name@ == pre.active.name@
            &&& post.pending@.last().kind == k
        },
    }
}

/// Everything a completed write guarantees, by case.
pub open spec fn write_post(
    pre: RotatingSink,
    line: Seq<char>,
    now: u64,
    post: RotatingSink,
    ok: bool,
) -> bool {
    if write_rejected(pre, line, now) {
        !ok && post == pre
    } else if rotation_due(pre, line, now) {
        ok && rotates_write(pre, line, now, post)
    } else {
        ok && keeps_write(pre, line, post)
    }
}

/// Everything `close` guarantees when the pending tasks report the outcomes
/// `succeeded`: no task is left pending; a retired file whose task succeeded
/// is archived under that task's codec; one whose task failed, or that no
/// task named, keeps its original file; all else is kept.
pub open spec fn close_post(pre: RotatingSink, succeeded: Seq<bool>, post: RotatingSink) -> bool {
    &&& post.policy == pre.policy
    &&& post.foreign == pre.foreign
    &&& post.active == pre.active
    &&& post.active_lines == pre.active_lines
    &&& post.pending@.len() == 0
    &&& post.retired@.len() == pre.retired@.len()
    &&& forall|i: int|
        0 <= i < pre.retired@.len() ==> {
            let f = pre.retired@[i];
            let g = #[trigger] post.retired@[i];
            &&& g.name == f.name
            &&& g.bytes == f.bytes
            &&& g.lines == f.lines
            &&& g.archived == (if f.archived is Some {
                f.archived
            } else {
                settled_kind(pre.pending@, succeeded, f.name@)
            })
        }
}

impl RotatingSink {
    /// Collects every name present in the directory, for the allocator.
    fn occupied_names(&self) -> (r: Vec<String>)
        ensures
            r.deep_view() == self.occupied(),
    {
        let ghost stored = self.retired@.map_values(|f: FileRecord| stored_name(f));
        let mut out: Vec<String> = Vec::new();
        let n = self.foreign.len();
        let mut k: usize = 0;
        while k < n
            invariant
                k <= n,
                n == self.foreign.len(),
                out.deep_view() == self.foreign.deep_view().take(k as int),
            decreases n - k,
        {
            let c = self.foreign[k].clone();
            proof {
                assert(c@ == self.foreign.deep_view()[k as int]);
            }
            let ghost snap = out.deep_view();
            out.push(c);
            proof {
                assert(out.deep_view() =~= snap.push(c@));
                assert(out.deep_view() =~= self.foreign.deep_view().take(k as int + 1));
            }
            k = k + 1;
        }
        proof {
            assert(out.deep_view() =~= self.foreign.deep_view());
        }
        let m = self.retired.len();
        let mut j: usize = 0;
        while j < m
            invariant
                j <= m,
                m == self.retired.len(),
                stored == self.retired@.map_values(|f: FileRecord| stored_name(f)),
                out.deep_view() == self.foreign.deep_view() + stored.take(j as int),
            decreases m - j,
        {
            let f = &self.retired[j];
            let nm = match f.archived {
                None => f.name.clone(),
                Some(c) => artifact_name(f.name.as_str(), c),
            };
            proof {
                assert(nm@ == stored[j as int]);
                assert(stored.take(j as int + 1) =~= stored.take(j as int).push(stored[j as int]));
            }
            let ghost snap = out.deep_view();
            out.push(nm);
            proof {
                assert(out.deep_view() =~= snap.push(stored[j as int]));
                assert(out.deep_view() =~= self.foreign.deep_view() + stored.take(j as int + 1));
            }
            j = j + 1;
        }
        proof {
            assert(stored.take(m as int) =~= stored);
        }
        out.push(self.active.name.clone());
        proof {
            assert(out.deep_view() =~= self.occupied());
        }
        out
    }

    /// Opens a controller over a directory whose entries are `existing`: the
    /// first file is opened under the aligned epoch of `now` and a name that
    /// collides with no entry.  Fails exactly when the epoch cannot be
    /// rendered under the policy's timestamp format.
    pub fn new(policy: RotationPolicy, existing: Vec<String>, now: u64) -> (r: Result<
        RotatingSink,
        SinkError,
    >)
        ensures
            r matches Ok(s) ==> {
                &&& s.wf()
                &&& s.policy == policy
                &&& s.foreign == existing
                &&& s.retired@.len() == 0
                &&& s.pending@.len() == 0
                &&& s.active_lines@.len() == 0
                &&& s.active.bytes_written == 0
                &&& s.active.epoch as int == policy.next_epoch(now)
                &&& allocation_ok(
                    existing.deep_view(),
                    policy.prefix@,
                    formatted_time(policy.next_epoch(now) as u64, policy.date_format@).unwrap(),
                    policy.suffix@,
                    s.active.name@,
                )
            },
            (r is Err) == (formatted_time(policy.next_epoch(now) as u64, policy.date_format@)
                is None),
            r matches Err(e) ==> e == SinkError::TimeFormat,
    {
        let epoch = next_epoch(&policy, now);
        match format_epoch(epoch, policy.date_format.as_str()) {
            None => Err(SinkError::TimeFormat),
            Some(stamp) => {
                let name = allocate_name(
                    &existing,
                    policy.prefix.as_str(),
                    stamp.as_str(),
                    policy.suffix.as_str(),
                );
                let active = ActiveFileState::fresh(name, epoch);
                let s = RotatingSink {
                    policy,
                    foreign: existing,
                    retired: Vec::new(),
                    active,
                    active_lines: Vec::new(),
                    pending: Vec::new(),
                };
                proof {
                    assert(s.active_lines.deep_view() =~= Seq::<Seq<char>>::empty());
                    assert(lines_bytes(Seq::<Seq<char>>::empty()) == 0);
                }
                Ok(s)
            },
        }
    }

    /// Appends `line` at time `now`, rotating first when a trigger fires.
    /// The triggering line always lands in the successor file, never in the
    /// file it retired.
    pub fn write_line(&mut self, line: &str, now: u64) -> (r: Result<(), SinkError>)
        requires
            old(self).wf(),
            old(self).active.bytes_written + line_cost(line@) <= u64::MAX,
        ensures
            final(self).wf(),
            write_post(*old(self), line@, now, *final(self), r is Ok),
            (r is Err) == write_rejected(*old(self), line@, now),
            r matches Err(e) ==> e == SinkError::TimeFormat,
    {
        let len = line.len();
        proof {
            assert(len + 1 == line_cost(line@));
        }
        let d = plan_write(&self.policy, &self.active, line, now);
        match d {
            WriteDecision::Keep => {
                let ghost pre_lines = self.active_lines.deep_view();
                self.active_lines.push(line.to_owned());
                self.active.bytes_written = self.active.bytes_written + (len as u64) + 1;
                proof {
                    assert(self.active_lines.deep_view() =~= pre_lines.push(line@));
                    assert(self.active_lines.deep_view().drop_last() =~= pre_lines);
                    assert(lines_bytes(self.active_lines.deep_view()) == lines_bytes(pre_lines)
                        + line_cost(line@));
                }
                Ok(())
            },
            WriteDecision::Rotate { epoch } => {
                match format_epoch(epoch, self.policy.date_format.as_str()) {
                    None => Err(SinkError::TimeFormat),
                    Some(stamp) => {
                        proof {
                            lemma_occupied_covers_live(*self);
                        }
                        let occ = self.occupied_names();
                        let retiring_name = self.active.name.clone();
                        let new_name = allocate_name(
                            &occ,
                            self.policy.prefix.as_str(),
                            stamp.as_str(),
                            self.policy.suffix.as_str(),
                        );
                        let mut replaced = ActiveFileState::fresh(new_name, epoch);
                        core::mem::swap(&mut self.active, &mut replaced);
                        let mut old_lines: Vec<String> = Vec::new();
                        core::mem::swap(&mut self.active_lines, &mut old_lines);
                        if let Some(k) = self.policy.compression {
                            self.pending.push(PendingCompression { name: retiring_name, kind: k });
                        }
                        self.retired.push(
                            FileRecord {
                                name: replaced.name,
                                bytes: replaced.bytes_written,
                                lines: old_lines,
                                archived: None,
                            },
                        );
                        self.active_lines.push(line.to_owned());
                        self.active.bytes_written = (len as u64) + 1;
                        proof {
                            assert(self.active_lines.deep_view() =~= seq![line@]);
                            let one = seq![line@];
                            assert(one.len() == 1 && one.last() == line@);
                            assert(one.drop_last() =~= Seq::<Seq<char>>::empty());
                            assert(lines_bytes(one) == lines_bytes(one.drop_last()) + line_cost(
                                one.last(),
                            ));
                            assert(lines_bytes(Seq::<Seq<char>>::empty()) == 0);
                            assert(lines_bytes(seq![line@]) == line_cost(line@));
                            lemma_rotate_wf(*old(self), line@, now, *self);
                        }
                        Ok(())
                    },
                }
            },
        }
    }

    /// Settles every pending compression task against its reported outcome,
    /// one entry of `succeeded` per task in dispatch order: a retired file
    /// whose task succeeded exists afterwards only as its artifact, one
    /// whose task failed keeps its original file, and no task is left
    /// pending either way.
    pub fn close(&mut self, succeeded: &Vec<bool>)
        requires
            old(self).wf(),
            succeeded@.len() == old(self).pending@.len(),
        ensures
            final(self).wf(),
            close_post(*old(self), succeeded@, *final(self)),
    {
        let n = self.retired.len();
        let mut i: usize = 0;
        while i < n
            invariant
                i <= n,
                n == self.retired.len(),
                self.policy == old(self).policy,
                self.foreign == old(self).foreign,
                self.active == old(self).active,
                self.active_lines == old(self).active_lines,
                self.pending == old(self).pending,
                succeeded@.len() == old(self).pending@.len(),
                self.retired@.len() == old(self).retired@.len(),
                forall|j: int| i <= j < n ==> self.retired@[j] == old(self).retired@[j],
                forall|j: int|
                    0 <= j < i ==> {
                        let f = old(self).retired@[j];
                        let g = #[trigger] self.retired@[j];
                        &&& g.name == f.name
                        &&& g.bytes == f.bytes
                        &&& g.lines == f.lines
                        &&& g.archived == (if f.archived is Some {
                            f.archived
                        } else {
                            settled_kind(old(self).pending@, succeeded@, f.name@)
                        })
                    },
            decreases n - i,
        {
            if self.retired[i].archived.is_none() {
                let nm = self.retired[i].name.clone();
                let k = lookup_pending(&self.pending, succeeded, &nm);
                self.retired[i].archived = k;
            }
            i = i + 1;
        }
        self.pending.clear();
        proof {
            lemma_close_wf(*old(self), succeeded@, *self);
        }
    }
}

/// The name a file opened under `epoch` gets, probed against the directory
/// entries `existing`: the policy's prefix, the rendered epoch, and its
/// suffix, with the first free `-1`, `-2`, ... infix when the base name is
/// taken.  Fails exactly when the epoch cannot be rendered under the
/// policy's timestamp format.
pub fn next_file_name(policy: &RotationPolicy, epoch: u64, existing: &Vec<String>) -> (r: Result<
    String,
    SinkError,
>)
    ensures
        (r is Err) == (formatted_time(epoch, policy.date_format@) is None),
        r matches Ok(name) ==> allocation_ok(
            existing.deep_view(),
            policy.prefix@,
            formatted_time(epoch, policy.date_format@).unwrap(),
            policy.suffix@,
            name@,
        ) && !existing.deep_view().contains(name@),
        r matches Err(e) ==> e == SinkError::TimeFormat,
{
    match format_epoch(epoch, policy.date_format.as_str()) {
        None => Err(SinkError::TimeFormat),
        Some(stamp) => Ok(
            allocate_name(
                existing,
                policy.prefix.as_str(),
                stamp.as_str(),
                policy.suffix.as_str(),
            ),
        ),
    }
}

/// How the tasks' reported outcomes settle the file named `name`.
fn lookup_pending(
    pending: &Vec<PendingCompression>,
    succeeded: &Vec<bool>,
    name: &String,
) -> (r: Option<Compression>)
    requires
        succeeded@.len() == pending@.len(),
    ensures
        r == settled_kind(pending@, succeeded@, name@),
{
    let n = pending.len();
    proof {
        assert(pending@.skip(0) =~= pending@);
        assert(succeeded@.skip(0) =~= succeeded@);
    }
    let mut t: usize = 0;
    while t < n
        invariant
            t <= n,
            n == pending.len(),
            succeeded@.len() == pending@.len(),
            settled_kind(pending@, succeeded@, name@) == settled_kind(
                pending@.skip(t as int),
                succeeded@.skip(t as int),
                name@,
            ),
        decreases n - t,
    {
        proof {
            assert(pending@.skip(t as int)[0] == pending@[t as int]);
            assert(succeeded@.skip(t as int)[0] == succeeded@[t as int]);
            assert(pending@.skip(t as int).drop_first() =~= pending@.skip(t as int + 1));
            assert(succeeded@.skip(t as int).drop_first() =~= succeeded@.skip(t as int + 1));
        }
        if pending[t].name.eq(name) {
            return if succeeded[t] {
                Some(pending[t].kind)
            } else {
                None
            };
        }
        t = t + 1;
    }
    proof {
        assert(pending@.skip(n as int).len() == 0);
    }
    None
}

/// The directory listing covers the names that must stay collision free:
/// every live retired file's name and the active file's name.
proof fn lemma_occupied_covers_live(s: RotatingSink)
    ensures
        forall|i: int|
            0 <= i < s.retired@.len() && (#[trigger] s.retired@[i]).archived is None
                ==> s.occupied().contains(s.retired@[i].name@),
        s.occupied().contains(s.active.name@),
{
    let f = s.foreign.deep_view();
    let stored = s.retired@.map_values(|r: FileRecord| stored_name(r));
    let occ = s.occupied();
    assert forall|i: int|
        0 <= i < s.retired@.len() && (#[trigger] s.retired@[i]).archived is None
        implies occ.contains(s.retired@[i].name@) by {
        assert(stored[i] == stored_name(s.retired@[i]));
        assert(occ[f.len() as int + i] == stored[i]);
    }
    assert(occ[f.len() as int + stored.len() as int] == s.active.name@);
}

/// Rotation preserves the invariant.
proof fn lemma_rotate_wf(pre: RotatingSink, line: Seq<char>, now: u64, post: RotatingSink)
    requires
        pre.wf(),
        rotates_write(pre, line, now, post),
        post.active.bytes_written as int == line_cost(line),
        lines_bytes(post.active_lines.deep_view()) == line_cost(line),
        post.active_lines@.len() == 1,
    ensures
        post.wf(),
{
    lemma_occupied_covers_live(pre);
    let n = pre.retired@.len();
    assert(post.retired@[n as int] == post.retired@.last());
    // the fresh name collides with nothing live
    assert(!pre.occupied().contains(post.active.name@));
    assert forall|i: int|
        0 <= i < post.retired@.len() && (#[trigger] post.retired@[i]).archived is None
        implies post.retired@[i].name@ != post.active.name@ by {
        if i < n {
            assert(pre.occupied().contains(pre.retired@[i].name@));
        } else {
            assert(pre.occupied().contains(pre.active.name@));
        }
    }
    // live names stay pairwise distinct
    assert forall|i: int, j: int|
        0 <= i < j < post.retired@.len() && (#[trigger] post.retired@[i]).archived is None && (
        #[trigger] post.retired@[j]).archived is None
        implies post.retired@[i].name@ != post.retired@[j].name@ by {
        if j < n {
        } else {
            assert(post.retired@[j].name@ == pre.active.name@);
        }
    }
    // pending tasks still name live files
    assert forall|t: int| 0 <= t < post.pending@.len() implies exists|i: int|
        0 <= i < post.retired@.len() && (#[trigger] post.retired@[i]).archived is None
            && post.retired@[i].name@ == (#[trigger] post.pending@[t]).name@ by {
        match pre.policy.compression {
            None => {
                let w = choose|i: int|
                    0 <= i < pre.retired@.len() && (#[trigger] pre.retired@[i]).archived is None
                        && pre.retired@[i].name@ == pre.pending@[t].name@;
                assert(post.retired@[w].archived is None && post.retired@[w].name@
                    == post.pending@[t].name@);
            },
            Some(_) => {
                if t < pre.pending@.len() {
                    let w = choose|i: int|
                        0 <= i < pre.retired@.len() && (#[trigger] pre.retired@[i]).archived
                            is None && pre.retired@[i].name@ == pre.pending@[t].name@;
                    assert(post.retired@[w].archived is None && post.retired@[w].name@
                        == post.pending@[t].name@);
                } else {
                    assert(post.pending@[t] == post.pending@.last());
                    assert(post.retired@[n as int].archived is None && post.retired@[n
                        as int].name@ == post.pending@[t].name@);
                }
            },
        }
    }
    // pending names stay pairwise distinct
    assert forall|t: int, u: int|
        0 <= t < u < post.pending@.len() implies (#[trigger] post.pending@[t]).name@ != (
        #[trigger] post.pending@[u]).name@ by {
        match pre.policy.compression {
            None => {},
            Some(_) => {
                if u < pre.pending@.len() {
                } else {
                    assert(post.pending@[u].name@ == pre.active.name@);
                    let w = choose|i: int|
                        0 <= i < pre.retired@.len() && (#[trigger] pre.retired@[i]).archived
                            is None && pre.retired@[i].name@ == pre.pending@[t].name@;
                    assert(pre.retired@[w].name@ != pre.active.name@);
                }
            },
        }
    }
}

/// Settling the pending tasks preserves the invariant.
proof fn lemma_close_wf(pre: RotatingSink, succeeded: Seq<bool>, post: RotatingSink)
    requires
        pre.wf(),
        close_post(pre, succeeded, post),
    ensures
        post.wf(),
{
    assert forall|i: int|
        0 <= i < post.retired@.len() implies (#[trigger] post.retired@[i]).bytes as int
        == lines_bytes(post.retired@[i].lines.deep_view()) && size_bounded_record(
        post.policy,
        post.retired@[i].bytes,
        post.retired@[i].lines@.len(),
    ) by {
        assert(pre.retired@[i].bytes as int == lines_bytes(pre.retired@[i].lines.deep_view()));
        assert(post.retired@[i].lines == pre.retired@[i].lines);
    }
    assert forall|i: int, j: int|
        0 <= i < j < post.retired@.len() && (#[trigger] post.retired@[i]).archived is None && (
        #[trigger] post.retired@[j]).archived is None
        implies post.retired@[i].name@ != post.retired@[j].name@ by {
        assert(pre.retired@[i].archived is None && pre.retired@[j].archived is None);
    }
    assert forall|i: int|
        0 <= i < post.retired@.len() && (#[trigger] post.retired@[i]).archived is None
        implies post.retired@[i].name@ != post.active.name@ by {
        assert(pre.retired@[i].archived is None);
    }
}

} // verus!
