//! The backfill orchestrator's decisions: which channels still need their
//! history walked, where to resume, and which threads to sync in what
//! order.
//!
//! The walk itself — fetching active threads, the per-thread forward sync,
//! the throttling delay — runs outside the library. Selection and cursor
//! rules live here, so an interrupted walk resumes exactly after the last
//! synced thread and a completed channel is never walked again.

use vstd::prelude::*;
use crate::forward::ThreadInfo;
use crate::store::SyncStore;

verus! {

/// Milliseconds waited between two backfilled threads, to throttle the
/// outbound request rate.
pub const BACKFILL_THROTTLE_MS: u64 = 500;

/// Whether a channel's history has already been fully walked.
pub open spec fn channel_completed(store: SyncStore, channel_id: u64) -> bool {
    match store.backfill_for(channel_id) {
        Some(b) => b.completed,
        None => false,
    }
}

/// Whether to skip a channel entirely: only a cursor marked completed does.
pub fn backfill_channel_gate(store: &SyncStore, channel_id: u64) -> (done: bool)
    ensures
        done == channel_completed(*store, channel_id),
{
    match store.get_backfill_state(channel_id) {
        Some(b) => b.completed,
        None => false,
    }
}

/// The thread id an interrupted walk stopped at, if any.
pub open spec fn resume_cursor_spec(store: SyncStore, channel_id: u64) -> Option<u64> {
    match store.backfill_for(channel_id) {
        Some(b) => b.last_thread_id,
        None => None,
    }
}

/// Read the channel's resume cursor.
pub fn resume_cursor(store: &SyncStore, channel_id: u64) -> (r: Option<u64>)
    ensures
        r == resume_cursor_spec(*store, channel_id),
{
    match store.get_backfill_state(channel_id) {
        Some(b) => b.last_thread_id,
        None => None,
    }
}

/// Whether a thread id lies beyond the resume cursor: all of them do when
/// no cursor is persisted.
pub open spec fn in_backfill_window(id: u64, resume_after: Option<u64>) -> bool {
    match resume_after {
        None => true,
        Some(c) => id > c,
    }
}

/// What the selected thread list must be: strictly increasing by id — the
/// creation order — and holding exactly the given threads that belong to
/// the channel and lie beyond the cursor.
pub open spec fn backfill_selection(
    threads: Seq<ThreadInfo>,
    channel_id: u64,
    resume_after: Option<u64>,
    r: Seq<ThreadInfo>,
) -> bool {
    &&& (forall|p: int, q: int|
        #![trigger r[p], r[q]]
        0 <= p < q < r.len() ==> r[p].id < r[q].id)
    &&& (forall|t: ThreadInfo|
        #[trigger] r.contains(t) ==> threads.contains(t) && t.parent_id == Some(channel_id)
            && in_backfill_window(t.id, resume_after))
    &&& (forall|t: ThreadInfo|
        #[trigger] threads.contains(t) && t.parent_id == Some(channel_id) && in_backfill_window(
            t.id,
            resume_after,
        ) ==> r.contains(t))
}

proof fn lemma_insert_contains(s: Seq<ThreadInfo>, j: int, v: ThreadInfo, t: Seq<ThreadInfo>)
    requires
        0 <= j <= s.len(),
        t == s.insert(j, v),
    ensures
        forall|x: ThreadInfo| t.contains(x) <==> (s.contains(x) || x == v),
{
    s.insert_ensures(j, v);
    assert forall|x: ThreadInfo| t.contains(x) <==> (s.contains(x) || x == v) by {
        if t.contains(x) {
            let i = choose|i: int| 0 <= i < t.len() && t[i] == x;
            if i < j {
                assert(s[i] == x);
            } else if i > j {
                assert(t[(i - 1) + 1] == x);
                assert(s[i - 1] == x);
            }
        }
        if s.contains(x) {
            let i = choose|i: int| 0 <= i < s.len() && s[i] == x;
            if i < j {
                assert(t[i] == x);
            } else {
                assert(t[i + 1] == x);
            }
        }
        if x == v {
            assert(t[j] == x);
        }
    }
}

proof fn lemma_take_step_contains(s: Seq<ThreadInfo>, k: int)
    requires
        0 <= k < s.len(),
    ensures
        forall|x: ThreadInfo|
            s.take(k + 1).contains(x) <==> (s.take(k).contains(x) || s[k] == x),
{
    assert forall|x: ThreadInfo|
        s.take(k + 1).contains(x) <==> (s.take(k).contains(x) || s[k] == x) by {
        if s.take(k + 1).contains(x) {
            let i = choose|i: int| 0 <= i < s.take(k + 1).len() && #[trigger] s.take(k + 1)[i]
                == x;
            if i < k {
                assert(s.take(k)[i] == x);
            } else {
                assert(s[k] == x);
            }
        }
        if s.take(k).contains(x) {
            let i = choose|i: int| 0 <= i < s.take(k).len() && s.take(k)[i] == x;
            assert(s.take(k + 1)[i] == x);
        }
        if s[k] == x {
            assert(s.take(k + 1)[k] == x);
        }
    }
}

/// Select and order the threads a channel's backfill walk must sync: those
/// under the channel's parent, beyond the resume cursor, in creation order.
/// Thread ids are unique — the platform assigns them monotonically — which
/// the selection relies on.
pub fn select_backfill_threads(
    threads: Vec<ThreadInfo>,
    channel_id: u64,
    resume_after: Option<u64>,
) -> (r: Vec<ThreadInfo>)
    requires
        forall|i: int, j: int|
            #![trigger threads@[i], threads@[j]]
            0 <= i < j < threads@.len() ==> threads@[i].id != threads@[j].id,
    ensures
        backfill_selection(threads@, channel_id, resume_after, r@),
{
    let ghost orig = threads@;
    let mut rest = threads;
    let mut out: Vec<ThreadInfo> = Vec::new();
    let ghost mut k: int = 0;
    proof {
        assert(orig.skip(0) =~= orig);
        assert(orig.take(0) =~= Seq::<ThreadInfo>::empty());
    }
    while rest.len() > 0
        invariant
            0 <= k <= orig.len(),
            rest@ == orig.skip(k),
            forall|i: int, j: int|
                #![trigger orig[i], orig[j]]
                0 <= i < j < orig.len() ==> orig[i].id != orig[j].id,
            forall|p: int, q: int|
                #![trigger out@[p], out@[q]]
                0 <= p < q < out@.len() ==> out@[p].id < out@[q].id,
            forall|x: ThreadInfo|
                #[trigger] out@.contains(x) <==> (orig.take(k).contains(x) && x.parent_id == Some(
                    channel_id,
                ) && in_backfill_window(x.id, resume_after)),
        decreases rest@.len(),
    {
        proof {
            assert(orig.skip(k)[0] == orig[k]);
            assert(orig.skip(k).drop_first() =~= orig.skip(k + 1));
        }
        let t = rest.remove(0);
        let keep = match t.parent_id {
            Some(p) => p == channel_id,
            None => false,
        };
        let in_window = match resume_after {
            Some(c) => t.id > c,
            None => true,
        };
        if keep && in_window {
            let ghost gt = t;
            let mut j: usize = 0;
            loop
                invariant
                    gt == t,
                    j <= out@.len(),
                    forall|p: int, q: int|
                        #![trigger out@[p], out@[q]]
                        0 <= p < q < out@.len() ==> out@[p].id < out@[q].id,
                    forall|m: int| 0 <= m < j ==> #[trigger] out@[m].id < gt.id,
                ensures
                    j <= out@.len(),
                    forall|m: int| 0 <= m < j ==> #[trigger] out@[m].id < gt.id,
                    j == out@.len() || out@[j as int].id >= gt.id,
                decreases out@.len() - j,
            {
                if j == out.len() {
                    break ;
                }
                if out[j].id >= t.id {
                    break ;
                }
                j = j + 1;
            }
            proof {
                // the element at the insert position carries a different id:
                // everything already selected comes from an earlier position
                // of the original list, whose ids are all distinct
                if j < out@.len() {
                    assert(out@.contains(out@[j as int]));
                    let m = choose|m: int| 0 <= m < orig.take(k).len() && orig.take(k)[m]
                        == out@[j as int];
                    assert(orig[m] == out@[j as int]);
                    assert(orig[m].id != orig[k].id);
                    assert(out@[j as int].id > gt.id);
                }
            }
            let ghost old_out = out@;
            out.insert(j, t);
            proof {
                assert(out@ =~= old_out.insert(j as int, gt));
                old_out.insert_ensures(j as int, gt);
                lemma_insert_contains(old_out, j as int, gt, out@);
                assert forall|p: int, q: int|
                    #![trigger out@[p], out@[q]]
                    0 <= p < q < out@.len() implies out@[p].id < out@[q].id by {
                    if q < j {
                        assert(out@[p] == old_out[p] && out@[q] == old_out[q]);
                    } else if q == j {
                        assert(out@[q] == gt);
                        assert(old_out[p].id < gt.id);
                    } else {
                        assert(out@[q] == old_out[q - 1]);
                        if p < j {
                            assert(out@[p] == old_out[p]);
                        } else if p == j {
                            assert(out@[p] == gt);
                        } else {
                            assert(out@[p] == old_out[p - 1]);
                        }
                    }
                }
                lemma_take_step_contains(orig, k);
                assert forall|x: ThreadInfo|
                    #[trigger] out@.contains(x) <==> (orig.take(k + 1).contains(x) && x.parent_id
                        == Some(channel_id) && in_backfill_window(x.id, resume_after)) by {
                    assert(out@.contains(x) <==> (old_out.contains(x) || x == gt));
                    assert(old_out.contains(x) <==> (orig.take(k).contains(x) && x.parent_id
                        == Some(channel_id) && in_backfill_window(x.id, resume_after)));
                }
            }
        } else {
            proof {
                lemma_take_step_contains(orig, k);
                assert forall|x: ThreadInfo|
                    #[trigger] out@.contains(x) <==> (orig.take(k + 1).contains(x) && x.parent_id
                        == Some(channel_id) && in_backfill_window(x.id, resume_after)) by {
                    assert(out@.contains(x) <==> (orig.take(k).contains(x) && x.parent_id == Some(
                        channel_id,
                    ) && in_backfill_window(x.id, resume_after)));
                    if x == orig[k] {
                        assert(!(x.parent_id == Some(channel_id) && in_backfill_window(
                            x.id,
                            resume_after,
                        )));
                    }
                }
            }
        }
        proof {
            k = k + 1;
        }
    }
    proof {
        assert(orig.take(k) =~= orig);
    }
    out
}

/// Resuming never re-syncs what the cursor covers: with a persisted cursor,
/// every selected thread lies strictly beyond it, and every thread of the
/// channel beyond it is selected — an interrupted walk picks up exactly
/// after the last synced thread.
pub proof fn lemma_backfill_resumes_after_cursor(
    threads: Seq<ThreadInfo>,
    channel_id: u64,
    cursor: u64,
    r: Seq<ThreadInfo>,
)
    requires
        backfill_selection(threads, channel_id, Some(cursor), r),
    ensures
        forall|t: ThreadInfo| #[trigger] r.contains(t) ==> t.id > cursor,
        forall|t: ThreadInfo|
            #[trigger] threads.contains(t) && t.parent_id == Some(channel_id) && t.id > cursor
                ==> r.contains(t),
{
}

} // verus!
