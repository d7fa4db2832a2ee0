//! When segments are closed and how long they are kept, in nanoseconds and bytes.

use vstd::prelude::*;

use crate::log::entry::{Offset, RetentionPolicy};
use crate::log::state::appending;
use crate::log::state::appending::{AppendAction, AppendOutcome, AppendPhase, IoEvent};
use crate::log::state::{ClosedModel, SegmentLog};

verus! {

/// Whether a policy with an age lets a segment go, at a time in nanoseconds, by
/// the time at which its last entry was appended.
pub open spec fn too_old(policy: RetentionPolicy, now: u64, last_appended: u64) -> bool {
    match policy {
        RetentionPolicy::TimeBased { max_age_secs } => now - last_appended > max_age_secs
            * 1_000_000_000,
        RetentionPolicy::Hybrid { max_age_secs, .. } => now - last_appended > max_age_secs
            * 1_000_000_000,
        _ => false,
    }
}

/// Whether a policy with a size does not allow so many bytes.
pub open spec fn too_large(policy: RetentionPolicy, bytes: int) -> bool {
    match policy {
        RetentionPolicy::SizeBased { max_bytes } => bytes > max_bytes,
        RetentionPolicy::Hybrid { max_bytes, .. } => bytes > max_bytes,
        _ => false,
    }
}

/// The sum of the sizes of some segments.
pub open spec fn sum_of_sizes(segments: Seq<ClosedModel>) -> int
    decreases segments.len(),
{
    if segments.len() == 0 {
        0
    } else {
        sum_of_sizes(segments.drop_last()) + segments.last().size
    }
}

/// A sum can be taken from the other end.
proof fn lemma_sum_from_the_front(segments: Seq<ClosedModel>)
    requires
        segments.len() > 0,
    ensures
        sum_of_sizes(segments) == segments[0].size + sum_of_sizes(segments.skip(1)),
    decreases segments.len(),
{
    if segments.len() == 1 {
        assert(segments.drop_last() =~= seq![]);
        assert(segments.skip(1) =~= seq![]);
    } else {
        lemma_sum_from_the_front(segments.drop_last());
        assert(segments.drop_last().skip(1) =~= segments.skip(1).drop_last());
    }
}

/// The sizes of the segments from one number on.
proof fn lemma_sum(closed: Seq<ClosedModel>, k: int)
    requires
        0 <= k <= closed.len(),
    ensures
        appending::total_size(closed, k) == sum_of_sizes(closed.skip(k)),
    decreases closed.len() - k,
{
    if k < closed.len() {
        lemma_sum(closed, k + 1);
        lemma_sum_from_the_front(closed.skip(k));
        assert(closed.skip(k).skip(1) =~= closed.skip(k + 1));
    } else {
        assert(closed.skip(k) =~= seq![]);
    }
}

/// Fewer segments are no larger.
proof fn lemma_sums_fall(closed: Seq<ClosedModel>, j: int, k: int)
    requires
        0 <= j <= k <= closed.len(),
    ensures
        appending::total_size(closed, k) <= appending::total_size(closed, j),
    decreases k - j,
{
    if j < k {
        lemma_sums_fall(closed, j + 1, k);
    }
}

/// A segment goes for the size if and only if it and those behind it are too
/// large.
proof fn lemma_oversize(closed: Seq<ClosedModel>, active_size: int, max: int, from: int, k: int)
    requires
        0 <= from <= k < closed.len(),
    ensures
        k < appending::oversize(closed, active_size, max, from) <==> appending::total_size(closed, k)
            + active_size > max,
    decreases k - from,
{
    if appending::total_size(closed, from) + active_size > max {
        if from < k {
            lemma_oversize(closed, active_size, max, from + 1, k);
        } else {
            appending::law_oversize(closed, active_size, max, from + 1);
        }
    } else {
        lemma_sums_fall(closed, from, k);
    }
}

/// Once the watermark of an append is written, the oldest segments are deleted
/// that are not kept any longer, and no others: a closed segment goes if and
/// only if it and all older ones had their last entry appended more than
/// `max_age_secs * 1_000_000_000` nanoseconds ago, or it, those behind it and the
/// active segment take more than `max_bytes` bytes. With neither limit none goes.
///
/// The closed segments can be counted in memory.
pub proof fn law_what_is_not_kept(
    log: &mut SegmentLog,
    event: IoEvent,
    now: u64,
    r: AppendAction,
    k: int,
)
    requires
        call_ensures(SegmentLog::resume, (log, event, now), r),
        old(log).pending() == Some(AppendPhase::Watermarking),
        event != IoEvent::Failed,
        old(log)@.closed.len() <= usize::MAX,
        0 <= k < old(log)@.closed.len(),
    ensures
        ({
            let closed = old(log)@.closed;
            let policy = old(log).settings().retention;
            let active_bytes = match old(log)@.active {
                Some(a) => a.size as int,
                None => 0,
            };
            let deleted = match final(log).pending() {
                Some(AppendPhase::Evicting { left }) => left as int,
                _ => 0,
            };
            &&& k < deleted <==> (forall|j: int|
                0 <= j <= k ==> too_old(policy, now, (#[trigger] closed[j]).last_appended))
                || too_large(policy, sum_of_sizes(closed.skip(k)) + active_bytes)
            &&& final(log)@ == old(log)@
            &&& if deleted > 0 {
                r == AppendAction::DeleteSegment { base: closed[0].base }
            } else {
                r == AppendAction::Finish(
                    AppendOutcome::Appended(Offset((old(log)@.next - 1) as u64)),
                )
            }
        }),
{
    let m = old(log)@;
    let closed = m.closed;
    let policy = old(log).settings().retention;
    appending::lemma_evictable(m, policy, now);
    lemma_sum(closed, k);
    match policy {
        RetentionPolicy::Indefinite => {
            assert(!too_old(policy, now, closed[k].last_appended));
        },
        RetentionPolicy::TimeBased { max_age_secs } => {
            lemma_age(closed, policy, now, max_age_secs, k);
        },
        RetentionPolicy::SizeBased { max_bytes } => {
            assert(!too_old(policy, now, closed[k].last_appended));
            lemma_oversize(closed, appending::active_size(m), max_bytes as int, 0, k);
        },
        RetentionPolicy::Hybrid { max_age_secs, max_bytes } => {
            lemma_age(closed, policy, now, max_age_secs, k);
            let gone = appending::expired(closed, appending::cutoff(now, max_age_secs), 0);
            appending::law_expired(closed, appending::cutoff(now, max_age_secs), 0);
            appending::law_oversize(closed, appending::active_size(m), max_bytes as int, gone);
            if gone <= k {
                lemma_oversize(closed, appending::active_size(m), max_bytes as int, gone, k);
            }
        },
    }
}

/// A segment goes for its age if and only if it and all older ones are too old.
proof fn lemma_age(
    closed: Seq<ClosedModel>,
    policy: RetentionPolicy,
    now: u64,
    max_age_secs: u64,
    k: int,
)
    requires
        policy == (RetentionPolicy::TimeBased { max_age_secs }) || (policy matches
            RetentionPolicy::Hybrid { max_age_secs: secs, .. } && secs == max_age_secs),
        0 <= k < closed.len(),
    ensures
        k < appending::expired(closed, appending::cutoff(now, max_age_secs), 0) <==> (forall|j: int|
            0 <= j <= k ==> too_old(policy, now, (#[trigger] closed[j]).last_appended)),
{
    let before = appending::cutoff(now, max_age_secs);
    appending::law_expired(closed, before, 0);
    let n = appending::expired(closed, before, 0);
    assert forall|j: int| 0 <= j < closed.len() implies ((#[trigger] closed[j]).last_appended < before
        <==> too_old(policy, now, closed[j].last_appended)) by {}
    if k >= n {
        assert(!too_old(policy, now, closed[n].last_appended));
    }
}

/// Once a batch is there, the active segment is closed if and only if it holds
/// as many bytes of records as a segment may, or was begun
/// `max_segment_age_secs * 1_000_000_000` nanoseconds ago or more; a clock that has
/// gone back counts as no time at all.
///
/// The age in nanoseconds fits in 64 bits.
pub proof fn law_when_a_segment_is_closed(
    log: &mut SegmentLog,
    event: IoEvent,
    now: u64,
    r: AppendAction,
)
    requires
        call_ensures(SegmentLog::resume, (log, event, now), r),
        old(log).pending() == Some(AppendPhase::Waking),
        old(log)@.active is Some,
        old(log).settings().max_segment_age_secs * 1_000_000_000 <= u64::MAX,
    ensures
        ({
            let a = old(log)@.active->Some_0;
            let config = old(log).settings();
            let closes = a.size >= config.max_segment_bytes || now - a.created
                >= config.max_segment_age_secs * 1_000_000_000 || config.max_segment_age_secs == 0;
            &&& final(log)@ == old(log)@
            &&& if closes {
                &&& final(log).pending() == Some(AppendPhase::Syncing)
                &&& r == AppendAction::Sync { base: a.base }
            } else {
                &&& final(log).pending() is None
                &&& r == AppendAction::Finish(
                    AppendOutcome::Appended(Offset((old(log)@.next - 1) as u64)),
                )
            }
        }),
{
}

/// An age that does not fit in 64 bits is no limit but at the end of time.
pub proof fn law_a_great_age_closes_nothing(
    log: &mut SegmentLog,
    event: IoEvent,
    now: u64,
    r: AppendAction,
)
    requires
        call_ensures(SegmentLog::resume, (log, event, now), r),
        old(log).pending() == Some(AppendPhase::Waking),
        old(log)@.active matches Some(a) && now - a.created < u64::MAX && a.size
            < old(log).settings().max_segment_bytes,
        old(log).settings().max_segment_age_secs * 1_000_000_000 > u64::MAX,
    ensures
        final(log).pending() is None,
        r == AppendAction::Finish(AppendOutcome::Appended(Offset((old(log)@.next - 1) as u64))),
{
}

} // verus!
