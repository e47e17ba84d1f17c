//! The fan-out of one query: the descriptor handed to the source tasks, the
//! messages they multiplex back over the shared channel, and the completion
//! accounting that drives the progress display.
//!
//! The orchestrator spawns one task per source, announces "0 of N sources
//! finished", and after every task has ended announces "N of N". In between
//! each task reports candidates and exactly one forced completion signal.
//! However those messages interleave, the finished counter equals at every
//! point the number of completion signals observed so far, so it reaches N
//! exactly once — after all N tasks have completed — and the "all sources
//! finished" state holds at exactly those points.

use vstd::prelude::*;

use crate::img::SongImg;
use crate::parser::TagData;
use crate::song::{SongHash, SongId};
use crate::text::{clone_opt_string, vopt};

verus! {

/// Song information a cover is searched for, queued for the fan-out.
pub struct TagsInput {
    pub id: SongId,
    pub hash: SongHash,
    pub artist: Option<String>,
    pub title: Option<String>,
    pub album: Option<String>,
}

impl TagsInput {
    /// The query descriptor of a song: its index, the hash that recognizes
    /// stale results, and the current tag values.
    pub fn from_data(id: SongId, hash: u64, data: &TagData) -> (r: Self)
        ensures
            r.id == id,
            r.hash == hash,
            vopt(r.artist) == vopt(data.artist),
            vopt(r.title) == vopt(data.title),
            vopt(r.album) == vopt(data.album),
    {
        Self {
            id,
            hash,
            artist: clone_opt_string(&data.artist),
            title: clone_opt_string(&data.title),
            album: clone_opt_string(&data.album),
        }
    }
}

/// One message from a source task to the consumer.
pub enum QueueMessage {
    /// A candidate artwork was found.
    GotArt(SongImg),
    /// Progress: so many of so many sources are finished.
    SetSources(i32, i32),
    /// One task's forced completion signal, sent exactly once per task,
    /// also when the task failed.
    SourceFinished,
}

/// The orchestrator of one query's fan-out. Spawning the tasks and pumping
/// the channel is the caller's business; the accounting below is the
/// contract the message stream obeys.
pub struct Queue;

impl Queue {
    /// How many source tasks one query spawns.
    pub const TOTAL_SOURCES: i32 = 4;
}

/// What one message does to a song's `(finished, total)` progress counter.
pub open spec fn progress_step(p: (int, int), m: QueueMessage) -> (int, int) {
    match m {
        QueueMessage::GotArt(_) => p,
        QueueMessage::SetSources(a, b) => (a as int, b as int),
        QueueMessage::SourceFinished => (p.0 + 1, Queue::TOTAL_SOURCES as int),
    }
}

/// The counter after a whole message sequence.
pub open spec fn progress_after(p: (int, int), evs: Seq<QueueMessage>) -> (int, int)
    decreases evs.len(),
{
    if evs.len() == 0 {
        p
    } else {
        progress_after(progress_step(p, evs[0]), evs.drop_first())
    }
}

/// How many completion signals a message sequence holds.
pub open spec fn count_finished(evs: Seq<QueueMessage>) -> int
    decreases evs.len(),
{
    if evs.len() == 0 {
        0
    } else {
        (if evs[0] is SourceFinished {
            1int
        } else {
            0int
        }) + count_finished(evs.drop_first())
    }
}

/// Whether a sequence holds only what tasks themselves send: candidates and
/// completion signals, never a progress announcement.
pub open spec fn task_events_only(evs: Seq<QueueMessage>) -> bool {
    forall|i: int| 0 <= i < evs.len() ==> !((#[trigger] evs[i]) is SetSources)
}

/// The search is complete: as many sources finished as there are.
pub open spec fn is_done(p: (int, int)) -> bool {
    p.0 == p.1
}

/// Candidates never move the finished counter; each completion signal moves
/// it by exactly one; a completion signal pins the total to the source
/// count.
pub proof fn lemma_progress_counts(p: (int, int), evs: Seq<QueueMessage>)
    requires
        task_events_only(evs),
    ensures
        progress_after(p, evs).0 == p.0 + count_finished(evs),
        progress_after(p, evs).1 == (if count_finished(evs) > 0 {
            Queue::TOTAL_SOURCES as int
        } else {
            p.1
        }),
        count_finished(evs) >= 0,
    decreases evs.len(),
{
    if evs.len() > 0 {
        assert(forall|i: int| 0 <= i < evs.len() - 1 ==> evs.drop_first()[i] == evs[i + 1]);
        lemma_progress_counts(progress_step(p, evs[0]), evs.drop_first());
    }
}

/// Completion accounting: for any number of tasks, however their candidate
/// and completion messages interleave, the finished counter started at
/// "0 of n" equals, at every point, the number of completion signals seen
/// so far. It therefore reaches n exactly once all n signals have arrived;
/// and with n the actual source total, the "all sources finished" state
/// holds at exactly those points — it becomes true once and stays true.
pub proof fn lemma_completion_accounting(evs: Seq<QueueMessage>, n: int)
    requires
        task_events_only(evs),
        count_finished(evs) == n,
    ensures
        progress_after((0, n), evs).0 == n,
        forall|k: int|
            0 <= k <= evs.len() ==> progress_after((0, n), #[trigger] evs.take(k)).0
                == count_finished(evs.take(k)),
        forall|k1: int, k2: int|
            0 <= k1 <= k2 <= evs.len() ==> count_finished(evs.take(k1)) <= count_finished(
                evs.take(k2),
            ),
        n == Queue::TOTAL_SOURCES as int ==> forall|k: int|
            0 <= k <= evs.len() ==> (is_done(progress_after((0, n), #[trigger] evs.take(k)))
                <==> count_finished(evs.take(k)) == n),
    decreases evs.len(),
{
    lemma_progress_counts((0, n), evs);
    assert(evs.take(evs.len() as int) =~= evs);
    assert forall|k: int| 0 <= k <= evs.len() implies progress_after(
        (0, n),
        #[trigger] evs.take(k),
    ).0 == count_finished(evs.take(k)) by {
        lemma_take_task_events_only(evs, k);
        lemma_progress_counts((0, n), evs.take(k));
    }
    assert forall|k1: int, k2: int| 0 <= k1 <= k2 <= evs.len() implies count_finished(
        evs.take(k1),
    ) <= count_finished(evs.take(k2)) by {
        lemma_count_finished_split(evs.take(k2), k1);
        lemma_take_task_events_only(evs.take(k2), k1);
        assert(evs.take(k2).take(k1) =~= evs.take(k1));
        lemma_count_finished_nonneg(evs.take(k2).skip(k1));
    }
    if n == Queue::TOTAL_SOURCES as int {
        assert forall|k: int| 0 <= k <= evs.len() implies (is_done(
            progress_after((0, n), #[trigger] evs.take(k)),
        ) <==> count_finished(evs.take(k)) == n) by {
            lemma_take_task_events_only(evs, k);
            lemma_progress_counts((0, n), evs.take(k));
        }
    }
}

proof fn lemma_take_task_events_only(evs: Seq<QueueMessage>, k: int)
    requires
        task_events_only(evs),
        0 <= k <= evs.len(),
    ensures
        task_events_only(evs.take(k)),
{
    assert(forall|i: int| 0 <= i < k ==> evs.take(k)[i] == evs[i]);
}

proof fn lemma_count_finished_nonneg(evs: Seq<QueueMessage>)
    ensures
        count_finished(evs) >= 0,
    decreases evs.len(),
{
    if evs.len() > 0 {
        lemma_count_finished_nonneg(evs.drop_first());
    }
}

/// Completion signals add up over a split of the sequence.
proof fn lemma_count_finished_split(evs: Seq<QueueMessage>, k: int)
    requires
        0 <= k <= evs.len(),
    ensures
        count_finished(evs) == count_finished(evs.take(k)) + count_finished(evs.skip(k)),
    decreases k,
{
    if k == 0 {
        assert(evs.take(0) =~= Seq::<QueueMessage>::empty());
        assert(evs.skip(0) =~= evs);
    } else {
        assert(evs.len() > 0);
        lemma_count_finished_split(evs.drop_first(), k - 1);
        assert(evs.take(k).drop_first() =~= evs.drop_first().take(k - 1));
        assert(evs.skip(k) =~= evs.drop_first().skip(k - 1));
        assert(evs.take(k).len() > 0);
        assert(evs.take(k)[0] == evs[0]);
    }
}

} // verus!
