//! Guarantees that hold across whole runs of writes.

use crate::codec::artifact_name_spec;
use crate::policy::Compression;
use crate::sink::{
    close_post, keeps_write, rotates_write, rotation_due, settled_kind, stored_name, write_post,
    FileRecord, PendingCompression, RotatingSink,
};
use vstd::arithmetic::div_mod::{lemma_fundamental_div_mod, lemma_mod_bound};
use vstd::prelude::*;

verus! {

/// The lines of a sequence of retired files, oldest file first, writing
/// order within each file.
pub open spec fn retired_lines(rs: Seq<FileRecord>) -> Seq<Seq<char>>
    decreases rs.len(),
{
    if rs.len() == 0 {
        Seq::empty()
    } else {
        retired_lines(rs.drop_last()) + rs.last().lines.deep_view()
    }
}

/// Every line the sink holds, across all its files, in writing order.
pub open spec fn all_lines(s: RotatingSink) -> Seq<Seq<char>> {
    retired_lines(s.retired@) + s.active_lines.deep_view()
}

/// One completed write appends exactly its line to the sink's lines, at the
/// end: no line is lost, duplicated, truncated, or split across files.
pub proof fn lemma_write_appends(pre: RotatingSink, line: Seq<char>, now: u64, post: RotatingSink)
    requires
        write_post(pre, line, now, post, true),
    ensures
        all_lines(post) == all_lines(pre).push(line),
{
    if rotation_due(pre, line, now) {
        assert(rotates_write(pre, line, now, post));
        assert(post.retired@.len() > 0);
        assert(post.retired@.drop_last() =~= pre.retired@);
        assert(retired_lines(post.retired@) == retired_lines(post.retired@.drop_last())
            + post.retired@.last().lines.deep_view());
        assert(post.retired@.last().lines.deep_view() == pre.active_lines.deep_view());
        assert(all_lines(post) =~= all_lines(pre).push(line));
    } else {
        assert(keeps_write(pre, line, post));
        assert(all_lines(post) =~= all_lines(pre).push(line));
    }
}

/// A completed run of writes: starting from `states[0]`, the k-th write
/// appends `lines[k]` at time `times[k]` and completes.
pub open spec fn write_run(
    lines: Seq<Seq<char>>,
    times: Seq<u64>,
    states: Seq<RotatingSink>,
) -> bool {
    &&& states.len() == lines.len() + 1
    &&& times.len() == lines.len()
    &&& forall|k: int|
        0 <= k < lines.len() ==> write_post(
            #[trigger] states[k],
            lines[k],
            times[k],
            states[k + 1],
            true,
        )
}

/// However many writes complete, the sink ends up holding exactly the lines
/// that were written, appended in the order the writes were applied.  With N
/// writers contributing M lines each, serialized by a lock, that is all N*M
/// lines, none lost or interleaved.
pub proof fn lemma_run_preserves_lines(
    lines: Seq<Seq<char>>,
    times: Seq<u64>,
    states: Seq<RotatingSink>,
)
    requires
        write_run(lines, times, states),
    ensures
        all_lines(states.last()) == all_lines(states[0]) + lines,
    decreases lines.len(),
{
    if lines.len() == 0 {
        assert(all_lines(states[0]) + lines =~= all_lines(states[0]));
    } else {
        let m = lines.len() - 1;
        assert(write_run(lines.drop_last(), times.drop_last(), states.drop_last())) by {
            assert forall|k: int| 0 <= k < lines.drop_last().len() implies write_post(
                #[trigger] states.drop_last()[k],
                lines.drop_last()[k],
                times.drop_last()[k],
                states.drop_last()[k + 1],
                true,
            ) by {
                assert(states.drop_last()[k] == states[k]);
                assert(states.drop_last()[k + 1] == states[k + 1]);
            }
        }
        lemma_run_preserves_lines(lines.drop_last(), times.drop_last(), states.drop_last());
        assert(states.drop_last().last() == states[m]);
        assert(states.drop_last()[0] == states[0]);
        lemma_write_appends(states[m], lines[m], times[m], states[m + 1]);
        assert(states[m + 1] == states.last());
        assert(all_lines(states[m]).push(lines[m]) =~= all_lines(states[m]) + seq![lines[m]]);
        assert(lines.drop_last() + seq![lines[m]] =~= lines);
        assert(all_lines(states.last()) =~= all_lines(states[0]) + lines);
    }
}

/// With a time trigger configured and a clock that has not run backwards, a
/// completed write at time `now` lands in a file whose epoch starts the
/// interval window that contains `now`.
pub proof fn lemma_write_epoch_brackets(
    pre: RotatingSink,
    line: Seq<char>,
    now: u64,
    post: RotatingSink,
)
    requires
        pre.policy.interval > 0,
        pre.active.epoch <= now,
        write_post(pre, line, now, post, true),
    ensures
        post.active.epoch <= now,
        now < post.active.epoch + pre.policy.interval,
{
    let i = pre.policy.interval as int;
    if rotation_due(pre, line, now) {
        assert(rotates_write(pre, line, now, post));
        lemma_fundamental_div_mod(now as int, i);
        lemma_mod_bound(now as int, i);
        assert(post.active.epoch as int == (now as int / i) * i);
        assert((now as int / i) * i == now as int - (now as int % i));
    } else {
        assert(keeps_write(pre, line, post));
        assert(!pre.policy.time_trigger(pre.active.epoch, now));
    }
}

/// Two completed writes separated by at least the configured interval land in
/// files with different epochs: the second write's file is strictly newer.
pub proof fn lemma_interval_separates(
    s0: RotatingSink,
    l1: Seq<char>,
    t1: u64,
    s1: RotatingSink,
    l2: Seq<char>,
    t2: u64,
    s2: RotatingSink,
)
    requires
        s0.policy.interval > 0,
        s0.active.epoch <= t1,
        t1 <= t2,
        t2 >= t1 + s0.policy.interval,
        write_post(s0, l1, t1, s1, true),
        write_post(s1, l2, t2, s2, true),
    ensures
        s2.active.epoch > s1.active.epoch,
{
    let i = s0.policy.interval as int;
    assert(s1.policy == s0.policy);
    lemma_write_epoch_brackets(s0, l1, t1, s1);
    assert(s1.active.epoch <= t1);
    assert(t2 >= s1.active.epoch + i);
    assert(s1.policy.time_trigger(s1.active.epoch, t2));
    assert(rotation_due(s1, l2, t2));
    assert(rotates_write(s1, l2, t2, s2));
    lemma_fundamental_div_mod(t2 as int, i);
    lemma_mod_bound(t2 as int, i);
    assert(s2.active.epoch as int == (t2 as int / i) * i);
    assert((t2 as int / i) * i == t2 as int - (t2 as int % i));
    assert(s2.active.epoch as int > t2 - i);
}

/// A completed write inside the active file's interval window, with no size
/// trigger configured, lands in the same file: nothing rotates.
pub proof fn lemma_same_window_same_file(
    s1: RotatingSink,
    l2: Seq<char>,
    t2: u64,
    s2: RotatingSink,
)
    requires
        s1.policy.interval > 0,
        s1.policy.size == 0,
        t2 < s1.active.epoch + s1.policy.interval,
        write_post(s1, l2, t2, s2, true),
    ensures
        s2.active.name == s1.active.name,
        s2.retired == s1.retired,
{
    assert(!rotation_due(s1, l2, t2));
    assert(keeps_write(s1, l2, s2));
}

/// The line whose write triggers a rotation lands in the successor file,
/// never in the file it retired: the retired file's lines are exactly what
/// was there before, and the new file starts with the triggering line alone.
pub proof fn lemma_trigger_lands_in_new_file(
    pre: RotatingSink,
    line: Seq<char>,
    now: u64,
    post: RotatingSink,
)
    requires
        rotation_due(pre, line, now),
        write_post(pre, line, now, post, true),
    ensures
        post.retired@.last().lines == pre.active_lines,
        post.active_lines.deep_view() == seq![line],
{
    assert(rotates_write(pre, line, now, post));
}

proof fn lemma_settled_kind_of_task(pending: Seq<PendingCompression>, succeeded: Seq<bool>, t: int)
    requires
        0 <= t < pending.len(),
        succeeded.len() == pending.len(),
        forall|a: int, b: int|
            0 <= a < b < pending.len() ==> (#[trigger] pending[a]).name@ != (
            #[trigger] pending[b]).name@,
    ensures
        settled_kind(pending, succeeded, pending[t].name@) == (if succeeded[t] {
            Some(pending[t].kind)
        } else {
            None::<Compression>
        }),
    decreases pending.len(),
{
    if t == 0 {
    } else {
        assert(pending[0].name@ != pending[t].name@);
        let rest = pending.drop_first();
        let rest_s = succeeded.drop_first();
        assert forall|a: int, b: int|
            0 <= a < b < rest.len() implies (#[trigger] rest[a]).name@ != (
        #[trigger] rest[b]).name@ by {
            assert(rest[a] == pending[a + 1] && rest[b] == pending[b + 1]);
        }
        assert(rest[t - 1] == pending[t]);
        assert(rest_s[t - 1] == succeeded[t]);
        lemma_settled_kind_of_task(rest, rest_s, t - 1);
    }
}

/// After `close`, every file whose compression task succeeded exists only as
/// its artifact — the file keeps its record, but its stored name is the
/// original name with the task's codec extension — and every file whose task
/// failed still exists under its own, uncompressed name.
pub proof fn lemma_close_archives(pre: RotatingSink, succeeded: Seq<bool>, post: RotatingSink)
    requires
        pre.wf(),
        succeeded.len() == pre.pending@.len(),
        close_post(pre, succeeded, post),
    ensures
        forall|t: int|
            0 <= t < pre.pending@.len() && succeeded[t] ==> exists|i: int|
                0 <= i < post.retired@.len() && post.retired@[i].name@ == (
                #[trigger] pre.pending@[t]).name@ && stored_name(post.retired@[i])
                    == artifact_name_spec(pre.pending@[t].name@, pre.pending@[t].kind),
        forall|t: int|
            0 <= t < pre.pending@.len() && !succeeded[t] ==> exists|i: int|
                0 <= i < post.retired@.len() && post.retired@[i].name@ == (
                #[trigger] pre.pending@[t]).name@ && stored_name(post.retired@[i])
                    == pre.pending@[t].name@,
{
    assert forall|t: int| 0 <= t < pre.pending@.len() && succeeded[t] implies exists|i: int|
        0 <= i < post.retired@.len() && post.retired@[i].name@ == (
        #[trigger] pre.pending@[t]).name@ && stored_name(post.retired@[i]) == artifact_name_spec(
        pre.pending@[t].name@,
        pre.pending@[t].kind,
    ) by {
        let i = choose|i: int|
            0 <= i < pre.retired@.len() && (#[trigger] pre.retired@[i]).archived is None
                && pre.retired@[i].name@ == pre.pending@[t].name@;
        lemma_settled_kind_of_task(pre.pending@, succeeded, t);
        assert(post.retired@[i].archived == Some(pre.pending@[t].kind));
        assert(stored_name(post.retired@[i]) == artifact_name_spec(
            pre.pending@[t].name@,
            pre.pending@[t].kind,
        ));
    }
    assert forall|t: int| 0 <= t < pre.pending@.len() && !succeeded[t] implies exists|i: int|
        0 <= i < post.retired@.len() && post.retired@[i].name@ == (
        #[trigger] pre.pending@[t]).name@ && stored_name(post.retired@[i])
        == pre.pending@[t].name@ by {
        let i = choose|i: int|
            0 <= i < pre.retired@.len() && (#[trigger] pre.retired@[i]).archived is None
                && pre.retired@[i].name@ == pre.pending@[t].name@;
        lemma_settled_kind_of_task(pre.pending@, succeeded, t);
        assert(post.retired@[i].archived is None);
        assert(stored_name(post.retired@[i]) == pre.pending@[t].name@);
    }
}

/// With a size threshold configured, no file the sink holds exceeds it,
/// except a file filled by one single oversized line.
pub proof fn lemma_size_never_exceeded(s: RotatingSink)
    requires
        s.wf(),
        s.policy.size > 0,
    ensures
        forall|i: int|
            0 <= i < s.retired@.len() ==> ((#[trigger] s.retired@[i]).bytes < s.policy.max_bytes()
                || s.retired@[i].lines@.len() == 1),
        s.active.bytes_written < s.policy.max_bytes() || s.active_lines@.len() == 1,
{
}

} // verus!
