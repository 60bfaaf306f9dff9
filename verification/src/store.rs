//! The persistent-state model of the engine: the thread/issue mapping table,
//! the posted-status cache, the mirrored-comment table and the per-channel
//! backfill cursors.
//!
//! A [`SyncStore`] is the in-memory image of those four tables. All reads and
//! writes the engine makes go through it; the process around the library
//! loads it from durable storage at startup and writes every mutation
//! through. Inserts on keyed tables ignore duplicates instead of failing, so
//! that the check-then-insert races described in the design are
//! self-correcting.

use vstd::prelude::*;
use crate::config::ChannelKind;
use crate::text::str_eq;

verus! {

/// One binding between a chat thread and a tracker issue. Created exactly
/// once per thread, never mutated, never deleted; its existence is the
/// idempotency gate for both sync directions.
#[derive(Debug, Clone, PartialEq, Eq)]
pub struct SyncMapping {
    /// The chat thread.
    pub discord_thread_id: u64,
    /// The tracker issue's opaque id.
    pub linear_issue_id: String,
    /// The issue's human-readable code.
    pub linear_identifier: String,
    /// The sync direction of the channel the thread came from.
    pub channel_type: ChannelKind,
    /// When the binding was recorded, as the caller's clock rendered it.
    pub created_at: String,
}

/// The last status value posted to the chat side for one issue.
#[derive(Debug, Clone, PartialEq, Eq)]
pub struct LinearStatusCache {
    pub linear_issue_id: String,
    pub status_name: String,
    pub updated_at: String,
}

/// One mirrored discussion item; its existence is the idempotency gate for
/// comment mirroring.
#[derive(Debug, Clone, PartialEq, Eq)]
pub struct SyncedItem {
    pub linear_comment_id: String,
    pub linear_issue_id: String,
    pub discord_message_id: u64,
    pub created_at: String,
}

/// The backfill cursor of one source channel.
#[derive(Debug, Clone, PartialEq, Eq)]
pub struct BackfillState {
    pub channel_id: u64,
    /// `true` once the channel's history has been fully walked.
    pub completed: bool,
    /// The last thread synced while the walk is still in progress.
    pub last_thread_id: Option<u64>,
    pub updated_at: String,
}

/// The mapping row for a thread, by first match.
pub open spec fn mapping_by_thread(rows: Seq<SyncMapping>, t: u64) -> Option<SyncMapping>
    decreases rows.len(),
{
    if rows.len() == 0 {
        None
    } else if rows[0].discord_thread_id == t {
        Some(rows[0])
    } else {
        mapping_by_thread(rows.drop_first(), t)
    }
}

/// The mapping row for a tracker issue, by first match.
pub open spec fn mapping_by_issue(rows: Seq<SyncMapping>, id: Seq<char>) -> Option<SyncMapping>
    decreases rows.len(),
{
    if rows.len() == 0 {
        None
    } else if rows[0].linear_issue_id@ == id {
        Some(rows[0])
    } else {
        mapping_by_issue(rows.drop_first(), id)
    }
}

/// The cache row for a tracker issue, by first match.
pub open spec fn status_by_issue(rows: Seq<LinearStatusCache>, id: Seq<char>) -> Option<
    LinearStatusCache,
>
    decreases rows.len(),
{
    if rows.len() == 0 {
        None
    } else if rows[0].linear_issue_id@ == id {
        Some(rows[0])
    } else {
        status_by_issue(rows.drop_first(), id)
    }
}

/// The mirrored-comment row for a tracker comment, by first match.
pub open spec fn item_by_comment(rows: Seq<SyncedItem>, cid: Seq<char>) -> Option<SyncedItem>
    decreases rows.len(),
{
    if rows.len() == 0 {
        None
    } else if rows[0].linear_comment_id@ == cid {
        Some(rows[0])
    } else {
        item_by_comment(rows.drop_first(), cid)
    }
}

/// The backfill cursor of a channel, by first match.
pub open spec fn backfill_by_channel(rows: Seq<BackfillState>, ch: u64) -> Option<BackfillState>
    decreases rows.len(),
{
    if rows.len() == 0 {
        None
    } else if rows[0].channel_id == ch {
        Some(rows[0])
    } else {
        backfill_by_channel(rows.drop_first(), ch)
    }
}

/// No two mapping rows bind the same thread, and no two the same issue.
pub open spec fn unique_mapping_keys(rows: Seq<SyncMapping>) -> bool {
    forall|i: int, j: int|
        #![trigger rows[i], rows[j]]
        0 <= i < j < rows.len() ==> rows[i].discord_thread_id != rows[j].discord_thread_id
            && rows[i].linear_issue_id@ != rows[j].linear_issue_id@
}

/// No two cache rows speak of the same issue.
pub open spec fn unique_status_keys(rows: Seq<LinearStatusCache>) -> bool {
    forall|i: int, j: int|
        #![trigger rows[i], rows[j]]
        0 <= i < j < rows.len() ==> rows[i].linear_issue_id@ != rows[j].linear_issue_id@
}

/// No two rows record the same tracker comment.
pub open spec fn unique_item_keys(rows: Seq<SyncedItem>) -> bool {
    forall|i: int, j: int|
        #![trigger rows[i], rows[j]]
        0 <= i < j < rows.len() ==> rows[i].linear_comment_id@ != rows[j].linear_comment_id@
}

/// No two cursor rows speak of the same channel.
pub open spec fn unique_backfill_keys(rows: Seq<BackfillState>) -> bool {
    forall|i: int, j: int|
        #![trigger rows[i], rows[j]]
        0 <= i < j < rows.len() ==> rows[i].channel_id != rows[j].channel_id
}

/// The four tables, keys unique in each.
pub struct SyncStore {
    mappings: Vec<SyncMapping>,
    statuses: Vec<LinearStatusCache>,
    items: Vec<SyncedItem>,
    backfill: Vec<BackfillState>,
}

impl SyncStore {
    /// The mapping table's rows.
    pub closed spec fn mapping_rows(&self) -> Seq<SyncMapping> {
        self.mappings@
    }

    /// The status cache's rows.
    pub closed spec fn status_rows(&self) -> Seq<LinearStatusCache> {
        self.statuses@
    }

    /// The mirrored-comment table's rows.
    pub closed spec fn item_rows(&self) -> Seq<SyncedItem> {
        self.items@
    }

    /// The backfill cursor table's rows.
    pub closed spec fn backfill_rows(&self) -> Seq<BackfillState> {
        self.backfill@
    }

    /// Every table's key is unique: at most one mapping per thread and per
    /// issue, one cached status per issue, one row per mirrored comment, one
    /// cursor per channel.
    pub open spec fn wf(&self) -> bool {
        &&& unique_mapping_keys(self.mapping_rows())
        &&& unique_status_keys(self.status_rows())
        &&& unique_item_keys(self.item_rows())
        &&& unique_backfill_keys(self.backfill_rows())
    }

    /// The mapping row bound to a thread, if any.
    pub open spec fn mapping_for_thread(&self, t: u64) -> Option<SyncMapping> {
        mapping_by_thread(self.mapping_rows(), t)
    }

    /// The mapping row bound to a tracker issue, if any.
    pub open spec fn mapping_for_issue(&self, id: Seq<char>) -> Option<SyncMapping> {
        mapping_by_issue(self.mapping_rows(), id)
    }

    /// Whether a thread has been synced.
    pub open spec fn thread_mapped(&self, t: u64) -> bool {
        self.mapping_for_thread(t) is Some
    }

    /// Whether a tracker issue is one the engine tracks.
    pub open spec fn issue_mapped(&self, id: Seq<char>) -> bool {
        self.mapping_for_issue(id) is Some
    }

    /// The last status posted for an issue, if any.
    pub open spec fn cached_status(&self, id: Seq<char>) -> Option<Seq<char>> {
        match status_by_issue(self.status_rows(), id) {
            Some(e) => Some(e.status_name@),
            None => None,
        }
    }

    /// Whether a tracker comment has already been mirrored.
    pub open spec fn comment_synced(&self, cid: Seq<char>) -> bool {
        item_by_comment(self.item_rows(), cid) is Some
    }

    /// The backfill cursor of a channel, if any.
    pub open spec fn backfill_for(&self, ch: u64) -> Option<BackfillState> {
        backfill_by_channel(self.backfill_rows(), ch)
    }

    /// An empty store: nothing synced, nothing cached, no cursors.
    pub fn new() -> (s: SyncStore)
        ensures
            s.wf(),
            s.mapping_rows() == Seq::<SyncMapping>::empty(),
            s.status_rows() == Seq::<LinearStatusCache>::empty(),
            s.item_rows() == Seq::<SyncedItem>::empty(),
            s.backfill_rows() == Seq::<BackfillState>::empty(),
    {
        let s = SyncStore {
            mappings: Vec::new(),
            statuses: Vec::new(),
            items: Vec::new(),
            backfill: Vec::new(),
        };
        proof {
            assert(s.mapping_rows() =~= Seq::<SyncMapping>::empty());
            assert(s.status_rows() =~= Seq::<LinearStatusCache>::empty());
            assert(s.item_rows() =~= Seq::<SyncedItem>::empty());
            assert(s.backfill_rows() =~= Seq::<BackfillState>::empty());
        }
        s
    }

    /// The mapping row for a thread, if one exists.
    pub fn get_mapping_by_discord_thread(&self, discord_thread_id: u64) -> (r: Option<
        &SyncMapping,
    >)
        ensures
            match r {
                Some(m) => self.mapping_for_thread(discord_thread_id) == Some(*m),
                None => self.mapping_for_thread(discord_thread_id) is None,
            },
    {
        let rows = &self.mappings;
        let mut i: usize = 0;
        proof {
            assert(rows@.skip(0) =~= rows@);
        }
        while i < rows.len()
            invariant
                rows@ == self.mapping_rows(),
                i <= rows@.len(),
                mapping_by_thread(rows@, discord_thread_id) == mapping_by_thread(
                    rows@.skip(i as int),
                    discord_thread_id,
                ),
            decreases rows@.len() - i,
        {
            proof {
                assert(rows@.skip(i as int).drop_first() =~= rows@.skip(i + 1));
                assert(rows@.skip(i as int)[0] == rows@[i as int]);
            }
            if rows[i].discord_thread_id == discord_thread_id {
                return Some(&rows[i]);
            }
            i = i + 1;
        }
        None
    }

    /// The mapping row for a tracker issue, if one exists.
    pub fn get_mapping_by_linear_issue(&self, linear_issue_id: &str) -> (r: Option<&SyncMapping>)
        ensures
            match r {
                Some(m) => self.mapping_for_issue(linear_issue_id@) == Some(*m),
                None => self.mapping_for_issue(linear_issue_id@) is None,
            },
    {
        let rows = &self.mappings;
        let mut i: usize = 0;
        proof {
            assert(rows@.skip(0) =~= rows@);
        }
        while i < rows.len()
            invariant
                rows@ == self.mapping_rows(),
                i <= rows@.len(),
                mapping_by_issue(rows@, linear_issue_id@) == mapping_by_issue(
                    rows@.skip(i as int),
                    linear_issue_id@,
                ),
            decreases rows@.len() - i,
        {
            proof {
                assert(rows@.skip(i as int).drop_first() =~= rows@.skip(i + 1));
                assert(rows@.skip(i as int)[0] == rows@[i as int]);
            }
            if str_eq(rows[i].linear_issue_id.as_str(), linear_issue_id) {
                return Some(&rows[i]);
            }
            i = i + 1;
        }
        None
    }

    /// The last status posted for an issue, if any.
    pub fn get_cached_status(&self, linear_issue_id: &str) -> (r: Option<String>)
        ensures
            match r {
                Some(s) => self.cached_status(linear_issue_id@) == Some(s@),
                None => self.cached_status(linear_issue_id@) is None,
            },
    {
        let rows = &self.statuses;
        let mut i: usize = 0;
        proof {
            assert(rows@.skip(0) =~= rows@);
        }
        while i < rows.len()
            invariant
                rows@ == self.status_rows(),
                i <= rows@.len(),
                status_by_issue(rows@, linear_issue_id@) == status_by_issue(
                    rows@.skip(i as int),
                    linear_issue_id@,
                ),
            decreases rows@.len() - i,
        {
            proof {
                assert(rows@.skip(i as int).drop_first() =~= rows@.skip(i + 1));
                assert(rows@.skip(i as int)[0] == rows@[i as int]);
            }
            if str_eq(rows[i].linear_issue_id.as_str(), linear_issue_id) {
                return Some(rows[i].status_name.clone());
            }
            i = i + 1;
        }
        None
    }

    /// Whether a tracker comment has already been mirrored.
    pub fn is_comment_synced(&self, linear_comment_id: &str) -> (r: bool)
        ensures
            r == self.comment_synced(linear_comment_id@),
    {
        let rows = &self.items;
        let mut i: usize = 0;
        proof {
            assert(rows@.skip(0) =~= rows@);
        }
        while i < rows.len()
            invariant
                rows@ == self.item_rows(),
                i <= rows@.len(),
                item_by_comment(rows@, linear_comment_id@) == item_by_comment(
                    rows@.skip(i as int),
                    linear_comment_id@,
                ),
            decreases rows@.len() - i,
        {
            proof {
                assert(rows@.skip(i as int).drop_first() =~= rows@.skip(i + 1));
                assert(rows@.skip(i as int)[0] == rows@[i as int]);
            }
            if str_eq(rows[i].linear_comment_id.as_str(), linear_comment_id) {
                return true;
            }
            i = i + 1;
        }
        false
    }

    /// The backfill cursor of a channel, if one exists.
    pub fn get_backfill_state(&self, channel_id: u64) -> (r: Option<&BackfillState>)
        ensures
            match r {
                Some(b) => self.backfill_for(channel_id) == Some(*b),
                None => self.backfill_for(channel_id) is None,
            },
    {
        let rows = &self.backfill;
        let mut i: usize = 0;
        proof {
            assert(rows@.skip(0) =~= rows@);
        }
        while i < rows.len()
            invariant
                rows@ == self.backfill_rows(),
                i <= rows@.len(),
                backfill_by_channel(rows@, channel_id) == backfill_by_channel(
                    rows@.skip(i as int),
                    channel_id,
                ),
            decreases rows@.len() - i,
        {
            proof {
                assert(rows@.skip(i as int).drop_first() =~= rows@.skip(i + 1));
                assert(rows@.skip(i as int)[0] == rows@[i as int]);
            }
            if rows[i].channel_id == channel_id {
                return Some(&rows[i]);
            }
            i = i + 1;
        }
        None
    }

    /// Record the binding between a thread and the issue created for it.
    ///
    /// A conditional insert: when a row for the thread or for the issue
    /// already exists the store is left untouched and `created` is false, so
    /// a race between the live event path and the backfill path cannot
    /// produce a second row.
    pub fn create_mapping(
        &mut self,
        discord_thread_id: u64,
        linear_issue_id: String,
        linear_identifier: String,
        channel_type: ChannelKind,
        created_at: String,
    ) -> (created: bool)
        requires
            old(self).wf(),
        ensures
            final(self).wf(),
            created == (!old(self).thread_mapped(discord_thread_id) && !old(self).issue_mapped(
                linear_issue_id@,
            )),
            !created ==> *final(self) == *old(self),
            created ==> final(self).mapping_rows() == old(self).mapping_rows().push(
                (SyncMapping {
                    discord_thread_id,
                    linear_issue_id,
                    linear_identifier,
                    channel_type,
                    created_at,
                }),
            ),
            final(self).thread_mapped(discord_thread_id) == (old(self).thread_mapped(
                discord_thread_id,
            ) || created),
            final(self).issue_mapped(linear_issue_id@) == (old(self).issue_mapped(
                linear_issue_id@,
            ) || created),
            forall|t2: u64|
                t2 != discord_thread_id ==> final(self).mapping_for_thread(t2) == old(
                    self,
                ).mapping_for_thread(t2),
            forall|x: Seq<char>|
                x != linear_issue_id@ ==> final(self).mapping_for_issue(x) == old(
                    self,
                ).mapping_for_issue(x),
            final(self).status_rows() == old(self).status_rows(),
            final(self).item_rows() == old(self).item_rows(),
            final(self).backfill_rows() == old(self).backfill_rows(),
    {
        let has_thread = self.get_mapping_by_discord_thread(discord_thread_id).is_some();
        if has_thread {
            return false;
        }
        let has_issue = self.get_mapping_by_linear_issue(linear_issue_id.as_str()).is_some();
        if has_issue {
            return false;
        }
        let row = SyncMapping {
            discord_thread_id,
            linear_issue_id,
            linear_identifier,
            channel_type,
            created_at,
        };
        let ghost grow = row;
        self.mappings.push(row);
        proof {
            assert(self.mapping_rows() =~= old(self).mapping_rows().push(grow));
            lemma_mapping_thread_absent(old(self).mapping_rows(), discord_thread_id);
            lemma_mapping_issue_absent(old(self).mapping_rows(), grow.linear_issue_id@);
            lemma_mapping_thread_push(old(self).mapping_rows(), grow, discord_thread_id);
            lemma_mapping_issue_push(old(self).mapping_rows(), grow, grow.linear_issue_id@);
            assert forall|t2: u64| t2 != discord_thread_id implies self.mapping_for_thread(t2)
                == old(self).mapping_for_thread(t2) by {
                lemma_mapping_thread_push(old(self).mapping_rows(), grow, t2);
            }
            assert forall|x: Seq<char>| x != grow.linear_issue_id@ implies self.mapping_for_issue(
                x,
            ) == old(self).mapping_for_issue(x) by {
                lemma_mapping_issue_push(old(self).mapping_rows(), grow, x);
            }
            assert forall|i: int, j: int|
                #![trigger self.mapping_rows()[i], self.mapping_rows()[j]]
                0 <= i < j < self.mapping_rows().len() implies self.mapping_rows()[
                i
            ].discord_thread_id != self.mapping_rows()[j].discord_thread_id
                && self.mapping_rows()[i].linear_issue_id@ != self.mapping_rows()[
                j
            ].linear_issue_id@ by {
                assert(self.mapping_rows()[i] == old(self).mapping_rows()[i]);
                if j == self.mapping_rows().len() - 1 {
                    assert(self.mapping_rows()[j] == grow);
                    assert(old(self).mapping_rows()[i].discord_thread_id != discord_thread_id);
                    assert(old(self).mapping_rows()[i].linear_issue_id@ != grow.linear_issue_id@);
                } else {
                    assert(self.mapping_rows()[j] == old(self).mapping_rows()[j]);
                }
            }
        }
        true
    }

    /// Remember the status value just posted for an issue, replacing what
    /// was cached for it before.
    pub fn upsert_cached_status(&mut self, linear_issue_id: &str, status_name: &str, updated_at: &str)
        requires
            old(self).wf(),
        ensures
            final(self).wf(),
            final(self).cached_status(linear_issue_id@) == Some(status_name@),
            (status_by_issue(final(self).status_rows(), linear_issue_id@) matches Some(e)
                && e.linear_issue_id@ == linear_issue_id@ && e.status_name@ == status_name@
                && e.updated_at@ == updated_at@),
            forall|x: Seq<char>|
                x != linear_issue_id@ ==> status_by_issue(final(self).status_rows(), x)
                    == status_by_issue(old(self).status_rows(), x),
            old(self).cached_status(linear_issue_id@) is Some ==> final(self).status_rows().len()
                == old(self).status_rows().len(),
            old(self).cached_status(linear_issue_id@) is None ==> final(self).status_rows().len()
                == old(self).status_rows().len() + 1 && final(self).status_rows().drop_last()
                == old(self).status_rows(),
            final(self).mapping_rows() == old(self).mapping_rows(),
            final(self).item_rows() == old(self).item_rows(),
            final(self).backfill_rows() == old(self).backfill_rows(),
    {
        let entry = LinearStatusCache {
            linear_issue_id: linear_issue_id.to_owned(),
            status_name: status_name.to_owned(),
            updated_at: updated_at.to_owned(),
        };
        let ghost gentry = entry;
        let mut i: usize = 0;
        proof {
            assert(old(self).status_rows().skip(0) =~= old(self).status_rows());
        }
        while i < self.statuses.len()
            invariant
                self.statuses@ == old(self).status_rows(),
                i <= old(self).status_rows().len(),
                status_by_issue(old(self).status_rows(), linear_issue_id@) == status_by_issue(
                    old(self).status_rows().skip(i as int),
                    linear_issue_id@,
                ),
                forall|k: int|
                    0 <= k < i ==> #[trigger] old(self).status_rows()[k].linear_issue_id@
                        != linear_issue_id@,
            ensures
                self.statuses@ == old(self).status_rows(),
                i <= old(self).status_rows().len(),
                forall|k: int|
                    0 <= k < i ==> #[trigger] old(self).status_rows()[k].linear_issue_id@
                        != linear_issue_id@,
                i < old(self).status_rows().len() ==> old(self).status_rows()[
                    i as int
                ].linear_issue_id@ == linear_issue_id@ && status_by_issue(
                    old(self).status_rows(),
                    linear_issue_id@,
                ) == Some(old(self).status_rows()[i as int]),
                i == old(self).status_rows().len() ==> status_by_issue(
                    old(self).status_rows(),
                    linear_issue_id@,
                ) is None,
            decreases old(self).status_rows().len() - i,
        {
            proof {
                assert(old(self).status_rows().skip(i as int).drop_first() =~= old(
                    self,
                ).status_rows().skip(i + 1));
                assert(old(self).status_rows().skip(i as int)[0] == old(self).status_rows()[
                    i as int
                ]);
            }
            if str_eq(self.statuses[i].linear_issue_id.as_str(), linear_issue_id) {
                break ;
            }
            i = i + 1;
            proof {
                if i == old(self).status_rows().len() {
                    assert(old(self).status_rows().skip(i as int)
                        =~= Seq::<LinearStatusCache>::empty());
                }
            }
        }
        if i < self.statuses.len() {
            self.statuses[i] = entry;
            proof {
                assert(self.status_rows() =~= old(self).status_rows().update(i as int, gentry));
                lemma_status_update(old(self).status_rows(), i as int, gentry);
                assert forall|p: int, q: int|
                    #![trigger self.status_rows()[p], self.status_rows()[q]]
                    0 <= p < q < self.status_rows().len() implies self.status_rows()[
                    p
                ].linear_issue_id@ != self.status_rows()[q].linear_issue_id@ by {
                    assert(self.status_rows()[p].linear_issue_id@ == old(self).status_rows()[
                        p
                    ].linear_issue_id@);
                    assert(self.status_rows()[q].linear_issue_id@ == old(self).status_rows()[
                        q
                    ].linear_issue_id@);
                }
            }
        } else {
            self.statuses.push(entry);
            proof {
                assert(self.status_rows() =~= old(self).status_rows().push(gentry));
                lemma_status_push(old(self).status_rows(), gentry, linear_issue_id@);
                assert forall|x: Seq<char>| x != linear_issue_id@ implies status_by_issue(
                    self.status_rows(),
                    x,
                ) == status_by_issue(old(self).status_rows(), x) by {
                    lemma_status_push(old(self).status_rows(), gentry, x);
                }
                assert(self.status_rows().drop_last() =~= old(self).status_rows());
                assert forall|p: int, q: int|
                    #![trigger self.status_rows()[p], self.status_rows()[q]]
                    0 <= p < q < self.status_rows().len() implies self.status_rows()[
                    p
                ].linear_issue_id@ != self.status_rows()[q].linear_issue_id@ by {
                    assert(self.status_rows()[p] == old(self).status_rows()[p]);
                    if q == self.status_rows().len() - 1 {
                        assert(old(self).status_rows()[p].linear_issue_id@ != linear_issue_id@);
                    } else {
                        assert(self.status_rows()[q] == old(self).status_rows()[q]);
                    }
                }
            }
        }
    }

    /// Record that a tracker comment has been mirrored as a chat message.
    ///
    /// A conditional insert: a comment already recorded leaves the store
    /// untouched, so re-running comment sync cannot double-post.
    pub fn insert_synced_comment(
        &mut self,
        linear_comment_id: &str,
        linear_issue_id: &str,
        discord_message_id: u64,
        created_at: &str,
    ) -> (inserted: bool)
        requires
            old(self).wf(),
        ensures
            final(self).wf(),
            inserted == !old(self).comment_synced(linear_comment_id@),
            !inserted ==> *final(self) == *old(self),
            final(self).comment_synced(linear_comment_id@),
            inserted ==> (item_by_comment(final(self).item_rows(), linear_comment_id@)
                matches Some(e) && e.linear_issue_id@ == linear_issue_id@
                && e.discord_message_id == discord_message_id && e.created_at@ == created_at@),
            forall|x: Seq<char>|
                x != linear_comment_id@ ==> item_by_comment(final(self).item_rows(), x)
                    == item_by_comment(old(self).item_rows(), x),
            inserted ==> final(self).item_rows().len() == old(self).item_rows().len() + 1
                && final(self).item_rows().drop_last() == old(self).item_rows(),
            final(self).mapping_rows() == old(self).mapping_rows(),
            final(self).status_rows() == old(self).status_rows(),
            final(self).backfill_rows() == old(self).backfill_rows(),
    {
        if self.is_comment_synced(linear_comment_id) {
            return false;
        }
        let row = SyncedItem {
            linear_comment_id: linear_comment_id.to_owned(),
            linear_issue_id: linear_issue_id.to_owned(),
            discord_message_id,
            created_at: created_at.to_owned(),
        };
        let ghost grow = row;
        self.items.push(row);
        proof {
            assert(self.item_rows() =~= old(self).item_rows().push(grow));
            lemma_item_absent(old(self).item_rows(), linear_comment_id@);
            lemma_item_push(old(self).item_rows(), grow, linear_comment_id@);
            assert forall|x: Seq<char>| x != linear_comment_id@ implies item_by_comment(
                self.item_rows(),
                x,
            ) == item_by_comment(old(self).item_rows(), x) by {
                lemma_item_push(old(self).item_rows(), grow, x);
            }
            assert(self.item_rows().drop_last() =~= old(self).item_rows());
            assert forall|p: int, q: int|
                #![trigger self.item_rows()[p], self.item_rows()[q]]
                0 <= p < q < self.item_rows().len() implies self.item_rows()[
                p
            ].linear_comment_id@ != self.item_rows()[q].linear_comment_id@ by {
                assert(self.item_rows()[p] == old(self).item_rows()[p]);
                if q == self.item_rows().len() - 1 {
                    assert(old(self).item_rows()[p].linear_comment_id@ != linear_comment_id@);
                } else {
                    assert(self.item_rows()[q] == old(self).item_rows()[q]);
                }
            }
        }
        true
    }

    /// Set a channel's backfill cursor: still in progress with the last
    /// synced thread, or completed.
    pub fn upsert_backfill_state(
        &mut self,
        channel_id: u64,
        completed: bool,
        last_thread_id: Option<u64>,
        updated_at: &str,
    )
        requires
            old(self).wf(),
        ensures
            final(self).wf(),
            (backfill_by_channel(final(self).backfill_rows(), channel_id) matches Some(e)
                && e.channel_id == channel_id && e.completed == completed && e.last_thread_id
                == last_thread_id && e.updated_at@ == updated_at@),
            forall|c2: u64|
                c2 != channel_id ==> backfill_by_channel(final(self).backfill_rows(), c2)
                    == backfill_by_channel(old(self).backfill_rows(), c2),
            final(self).mapping_rows() == old(self).mapping_rows(),
            final(self).status_rows() == old(self).status_rows(),
            final(self).item_rows() == old(self).item_rows(),
    {
        let entry = BackfillState {
            channel_id,
            completed,
            last_thread_id,
            updated_at: updated_at.to_owned(),
        };
        let ghost gentry = entry;
        let mut i: usize = 0;
        proof {
            assert(old(self).backfill_rows().skip(0) =~= old(self).backfill_rows());
        }
        while i < self.backfill.len()
            invariant
                self.backfill@ == old(self).backfill_rows(),
                i <= old(self).backfill_rows().len(),
                backfill_by_channel(old(self).backfill_rows(), channel_id) == backfill_by_channel(
                    old(self).backfill_rows().skip(i as int),
                    channel_id,
                ),
                forall|k: int|
                    0 <= k < i ==> #[trigger] old(self).backfill_rows()[k].channel_id
                        != channel_id,
            ensures
                self.backfill@ == old(self).backfill_rows(),
                i <= old(self).backfill_rows().len(),
                forall|k: int|
                    0 <= k < i ==> #[trigger] old(self).backfill_rows()[k].channel_id
                        != channel_id,
                i < old(self).backfill_rows().len() ==> old(self).backfill_rows()[
                    i as int
                ].channel_id == channel_id,
                i == old(self).backfill_rows().len() ==> backfill_by_channel(
                    old(self).backfill_rows(),
                    channel_id,
                ) is None,
            decreases old(self).backfill_rows().len() - i,
        {
            proof {
                assert(old(self).backfill_rows().skip(i as int).drop_first() =~= old(
                    self,
                ).backfill_rows().skip(i + 1));
                assert(old(self).backfill_rows().skip(i as int)[0] == old(self).backfill_rows()[
                    i as int
                ]);
            }
            if self.backfill[i].channel_id == channel_id {
                break ;
            }
            i = i + 1;
            proof {
                if i == old(self).backfill_rows().len() {
                    assert(old(self).backfill_rows().skip(i as int)
                        =~= Seq::<BackfillState>::empty());
                }
            }
        }
        if i < self.backfill.len() {
            self.backfill[i] = entry;
            proof {
                assert(self.backfill_rows() =~= old(self).backfill_rows().update(
                    i as int,
                    gentry,
                ));
                lemma_backfill_update(old(self).backfill_rows(), i as int, gentry);
                assert forall|p: int, q: int|
                    #![trigger self.backfill_rows()[p], self.backfill_rows()[q]]
                    0 <= p < q < self.backfill_rows().len() implies self.backfill_rows()[
                    p
                ].channel_id != self.backfill_rows()[q].channel_id by {
                    assert(self.backfill_rows()[p].channel_id == old(self).backfill_rows()[
                        p
                    ].channel_id);
                    assert(self.backfill_rows()[q].channel_id == old(self).backfill_rows()[
                        q
                    ].channel_id);
                }
            }
        } else {
            self.backfill.push(entry);
            proof {
                assert(self.backfill_rows() =~= old(self).backfill_rows().push(gentry));
                lemma_backfill_push(old(self).backfill_rows(), gentry, channel_id);
                assert forall|c2: u64| c2 != channel_id implies backfill_by_channel(
                    self.backfill_rows(),
                    c2,
                ) == backfill_by_channel(old(self).backfill_rows(), c2) by {
                    lemma_backfill_push(old(self).backfill_rows(), gentry, c2);
                }
                assert forall|p: int, q: int|
                    #![trigger self.backfill_rows()[p], self.backfill_rows()[q]]
                    0 <= p < q < self.backfill_rows().len() implies self.backfill_rows()[
                    p
                ].channel_id != self.backfill_rows()[q].channel_id by {
                    assert(self.backfill_rows()[p] == old(self).backfill_rows()[p]);
                    if q == self.backfill_rows().len() - 1 {
                        assert(old(self).backfill_rows()[p].channel_id != channel_id);
                    } else {
                        assert(self.backfill_rows()[q] == old(self).backfill_rows()[q]);
                    }
                }
            }
        }
    }
}

proof fn lemma_mapping_thread_push(rows: Seq<SyncMapping>, row: SyncMapping, t: u64)
    ensures
        mapping_by_thread(rows.push(row), t) == (if mapping_by_thread(rows, t) is Some {
            mapping_by_thread(rows, t)
        } else if row.discord_thread_id == t {
            Some(row)
        } else {
            None
        }),
    decreases rows.len(),
{
    if rows.len() == 0 {
        assert(rows.push(row)[0] == row);
        assert(rows.push(row).drop_first() =~= rows);
    } else {
        assert(rows.push(row).drop_first() =~= rows.drop_first().push(row));
        assert(rows.push(row)[0] == rows[0]);
        lemma_mapping_thread_push(rows.drop_first(), row, t);
    }
}

proof fn lemma_mapping_issue_push(rows: Seq<SyncMapping>, row: SyncMapping, id: Seq<char>)
    ensures
        mapping_by_issue(rows.push(row), id) == (if mapping_by_issue(rows, id) is Some {
            mapping_by_issue(rows, id)
        } else if row.linear_issue_id@ == id {
            Some(row)
        } else {
            None
        }),
    decreases rows.len(),
{
    if rows.len() == 0 {
        assert(rows.push(row)[0] == row);
        assert(rows.push(row).drop_first() =~= rows);
    } else {
        assert(rows.push(row).drop_first() =~= rows.drop_first().push(row));
        assert(rows.push(row)[0] == rows[0]);
        lemma_mapping_issue_push(rows.drop_first(), row, id);
    }
}

proof fn lemma_status_push(rows: Seq<LinearStatusCache>, row: LinearStatusCache, id: Seq<char>)
    ensures
        status_by_issue(rows.push(row), id) == (if status_by_issue(rows, id) is Some {
            status_by_issue(rows, id)
        } else if row.linear_issue_id@ == id {
            Some(row)
        } else {
            None
        }),
    decreases rows.len(),
{
    if rows.len() == 0 {
        assert(rows.push(row)[0] == row);
        assert(rows.push(row).drop_first() =~= rows);
    } else {
        assert(rows.push(row).drop_first() =~= rows.drop_first().push(row));
        assert(rows.push(row)[0] == rows[0]);
        lemma_status_push(rows.drop_first(), row, id);
    }
}

proof fn lemma_item_push(rows: Seq<SyncedItem>, row: SyncedItem, cid: Seq<char>)
    ensures
        item_by_comment(rows.push(row), cid) == (if item_by_comment(rows, cid) is Some {
            item_by_comment(rows, cid)
        } else if row.linear_comment_id@ == cid {
            Some(row)
        } else {
            None
        }),
    decreases rows.len(),
{
    if rows.len() == 0 {
        assert(rows.push(row)[0] == row);
        assert(rows.push(row).drop_first() =~= rows);
    } else {
        assert(rows.push(row).drop_first() =~= rows.drop_first().push(row));
        assert(rows.push(row)[0] == rows[0]);
        lemma_item_push(rows.drop_first(), row, cid);
    }
}

proof fn lemma_backfill_push(rows: Seq<BackfillState>, row: BackfillState, ch: u64)
    ensures
        backfill_by_channel(rows.push(row), ch) == (if backfill_by_channel(rows, ch) is Some {
            backfill_by_channel(rows, ch)
        } else if row.channel_id == ch {
            Some(row)
        } else {
            None
        }),
    decreases rows.len(),
{
    if rows.len() == 0 {
        assert(rows.push(row)[0] == row);
        assert(rows.push(row).drop_first() =~= rows);
    } else {
        assert(rows.push(row).drop_first() =~= rows.drop_first().push(row));
        assert(rows.push(row)[0] == rows[0]);
        lemma_backfill_push(rows.drop_first(), row, ch);
    }
}

proof fn lemma_mapping_thread_absent(rows: Seq<SyncMapping>, t: u64)
    requires
        mapping_by_thread(rows, t) is None,
    ensures
        forall|i: int| 0 <= i < rows.len() ==> #[trigger] rows[i].discord_thread_id != t,
    decreases rows.len(),
{
    if rows.len() > 0 {
        lemma_mapping_thread_absent(rows.drop_first(), t);
        assert forall|i: int| 0 <= i < rows.len() implies #[trigger] rows[i].discord_thread_id
            != t by {
            if i > 0 {
                assert(rows.drop_first()[i - 1] == rows[i]);
            }
        }
    }
}

proof fn lemma_mapping_issue_absent(rows: Seq<SyncMapping>, id: Seq<char>)
    requires
        mapping_by_issue(rows, id) is None,
    ensures
        forall|i: int| 0 <= i < rows.len() ==> #[trigger] rows[i].linear_issue_id@ != id,
    decreases rows.len(),
{
    if rows.len() > 0 {
        lemma_mapping_issue_absent(rows.drop_first(), id);
        assert forall|i: int| 0 <= i < rows.len() implies #[trigger] rows[i].linear_issue_id@
            != id by {
            if i > 0 {
                assert(rows.drop_first()[i - 1] == rows[i]);
            }
        }
    }
}

proof fn lemma_item_absent(rows: Seq<SyncedItem>, cid: Seq<char>)
    requires
        item_by_comment(rows, cid) is None,
    ensures
        forall|i: int| 0 <= i < rows.len() ==> #[trigger] rows[i].linear_comment_id@ != cid,
    decreases rows.len(),
{
    if rows.len() > 0 {
        lemma_item_absent(rows.drop_first(), cid);
        assert forall|i: int| 0 <= i < rows.len() implies #[trigger] rows[i].linear_comment_id@
            != cid by {
            if i > 0 {
                assert(rows.drop_first()[i - 1] == rows[i]);
            }
        }
    }
}

proof fn lemma_status_update(rows: Seq<LinearStatusCache>, i: int, e: LinearStatusCache)
    requires
        0 <= i < rows.len(),
        rows[i].linear_issue_id@ == e.linear_issue_id@,
        forall|k: int| 0 <= k < i ==> #[trigger] rows[k].linear_issue_id@ != e.linear_issue_id@,
    ensures
        status_by_issue(rows.update(i, e), e.linear_issue_id@) == Some(e),
        forall|x: Seq<char>|
            x != e.linear_issue_id@ ==> status_by_issue(rows.update(i, e), x) == status_by_issue(
                rows,
                x,
            ),
    decreases i,
{
    let t = rows.update(i, e);
    if i == 0 {
        assert(t[0] == e);
        assert(t.drop_first() =~= rows.drop_first());
    } else {
        assert(t.drop_first() =~= rows.drop_first().update(i - 1, e));
        assert(t[0] == rows[0]);
        assert(rows[0].linear_issue_id@ != e.linear_issue_id@);
        assert forall|k: int| 0 <= k < i - 1 implies #[trigger] rows.drop_first()[
            k
        ].linear_issue_id@ != e.linear_issue_id@ by {
            assert(rows.drop_first()[k] == rows[k + 1]);
        }
        lemma_status_update(rows.drop_first(), i - 1, e);
        assert forall|x: Seq<char>| x != e.linear_issue_id@ implies status_by_issue(t, x)
            == status_by_issue(rows, x) by {
            assert(status_by_issue(t.drop_first(), x) == status_by_issue(rows.drop_first(), x));
        }
    }
}

proof fn lemma_backfill_update(rows: Seq<BackfillState>, i: int, e: BackfillState)
    requires
        0 <= i < rows.len(),
        rows[i].channel_id == e.channel_id,
        forall|k: int| 0 <= k < i ==> #[trigger] rows[k].channel_id != e.channel_id,
    ensures
        backfill_by_channel(rows.update(i, e), e.channel_id) == Some(e),
        forall|c2: u64|
            c2 != e.channel_id ==> backfill_by_channel(rows.update(i, e), c2)
                == backfill_by_channel(rows, c2),
    decreases i,
{
    let t = rows.update(i, e);
    if i == 0 {
        assert(t[0] == e);
        assert(t.drop_first() =~= rows.drop_first());
    } else {
        assert(t.drop_first() =~= rows.drop_first().update(i - 1, e));
        assert(t[0] == rows[0]);
        assert(rows[0].channel_id != e.channel_id);
        assert forall|k: int| 0 <= k < i - 1 implies #[trigger] rows.drop_first()[k].channel_id
            != e.channel_id by {
            assert(rows.drop_first()[k] == rows[k + 1]);
        }
        lemma_backfill_update(rows.drop_first(), i - 1, e);
        assert forall|c2: u64| c2 != e.channel_id implies backfill_by_channel(t, c2)
            == backfill_by_channel(rows, c2) by {
            assert(backfill_by_channel(t.drop_first(), c2) == backfill_by_channel(
                rows.drop_first(),
                c2,
            ));
        }
    }
}

/// A row whose thread id matches makes the thread lookup succeed.
pub proof fn lemma_mapping_thread_present(rows: Seq<SyncMapping>, i: int)
    requires
        0 <= i < rows.len(),
    ensures
        mapping_by_thread(rows, rows[i].discord_thread_id) is Some,
    decreases rows.len(),
{
    if i > 0 && rows[0].discord_thread_id != rows[i].discord_thread_id {
        assert(rows.drop_first()[i - 1] == rows[i]);
        lemma_mapping_thread_present(rows.drop_first(), i - 1);
    }
}

/// A row whose comment id matches makes the comment lookup succeed.
pub proof fn lemma_item_present(rows: Seq<SyncedItem>, i: int)
    requires
        0 <= i < rows.len(),
    ensures
        item_by_comment(rows, rows[i].linear_comment_id@) is Some,
    decreases rows.len(),
{
    if i > 0 && rows[0].linear_comment_id@ != rows[i].linear_comment_id@ {
        assert(rows.drop_first()[i - 1] == rows[i]);
        lemma_item_present(rows.drop_first(), i - 1);
    }
}

/// A successful comment lookup names a row position that matches.
pub proof fn lemma_item_found(rows: Seq<SyncedItem>, cid: Seq<char>)
    requires
        item_by_comment(rows, cid) is Some,
    ensures
        exists|i: int| 0 <= i < rows.len() && #[trigger] rows[i].linear_comment_id@ == cid,
    decreases rows.len(),
{
    if rows.len() > 0 {
        if rows[0].linear_comment_id@ == cid {
            assert(rows[0].linear_comment_id@ == cid);
        } else {
            lemma_item_found(rows.drop_first(), cid);
            let i = choose|i: int|
                0 <= i < rows.drop_first().len() && #[trigger] rows.drop_first()[
                    i
                ].linear_comment_id@ == cid;
            assert(rows[i + 1].linear_comment_id@ == cid);
        }
    }
}

/// A well-formed store holds at most one mapping row per thread: if two row
/// positions carry the same thread id, they are the same position. Together
/// with the conditional insert of `create_mapping`, running forward sync any
/// number of times leaves exactly one row for the thread.
pub proof fn lemma_at_most_one_mapping_per_thread(s: &SyncStore, t: u64, i: int, j: int)
    requires
        s.wf(),
        0 <= i < s.mapping_rows().len(),
        0 <= j < s.mapping_rows().len(),
        s.mapping_rows()[i].discord_thread_id == t,
        s.mapping_rows()[j].discord_thread_id == t,
    ensures
        i == j,
{
}

/// A well-formed store mirrors each tracker comment at most once: if two row
/// positions carry the same comment id, they are the same position.
pub proof fn lemma_at_most_one_item_per_comment(s: &SyncStore, cid: Seq<char>, i: int, j: int)
    requires
        s.wf(),
        0 <= i < s.item_rows().len(),
        0 <= j < s.item_rows().len(),
        s.item_rows()[i].linear_comment_id@ == cid,
        s.item_rows()[j].linear_comment_id@ == cid,
    ensures
        i == j,
{
}

} // verus!
