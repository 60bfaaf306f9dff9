//! Forward sync: one newly observed chat thread becomes one tracker issue,
//! idempotently.
//!
//! The outside process drives the operation and performs the network calls;
//! every decision and every composed text comes from here. The dedup check
//! below is the only door to issue creation: it answers `AlreadySynced`
//! whenever a mapping row exists, so running the operation again — or racing
//! it between the live event path and the backfill path — cannot create a
//! second issue.

use vstd::prelude::*;
use vstd::string::StringExecFns;
use crate::config::{ChannelConfig, tag_lookup};
use crate::error::AppError;
use crate::store::{SyncStore, SyncMapping, lemma_mapping_thread_present};
use crate::text::{dec_digits, u64_to_dec, joined_with, join_lines};

verus! {

/// How many times the first message of a thread is fetched before the
/// placeholder body is used: the creation notification can race the message
/// becoming fetchable.
pub const MESSAGE_FETCH_ATTEMPTS: u32 = 3;

/// Milliseconds between two attempts to fetch the first message.
pub const MESSAGE_FETCH_RETRY_DELAY_MS: u64 = 2000;

/// A thread as the chat platform reports it: its id, the forum channel it
/// belongs to, its name and the forum tags applied to it.
#[derive(Debug, Clone)]
pub struct ThreadInfo {
    pub id: u64,
    pub parent_id: Option<u64>,
    pub name: String,
    pub applied_tags: Vec<u64>,
}

/// One attachment of a chat message.
#[derive(Debug, Clone)]
pub struct AttachmentInfo {
    pub url: String,
    pub filename: String,
}

/// A chat message: its text and its attachments.
#[derive(Debug, Clone)]
pub struct MessageInfo {
    pub content: String,
    pub attachments: Vec<AttachmentInfo>,
}

/// What the forward-sync gate decides for a thread.
#[derive(Clone, Copy, Debug, PartialEq, Eq, Structural)]
pub enum ForwardGate {
    /// A mapping row exists: succeed without side effects.
    AlreadySynced,
    /// The thread has no parent channel: abort with an error.
    MissingParent,
    /// Proceed with the sync under this parent channel.
    Proceed { parent_id: u64 },
}

/// The dedup decision: an already-mapped thread is never synced again; an
/// unmapped thread without a parent channel is an error; anything else
/// proceeds.
pub open spec fn forward_gate_spec(store: SyncStore, thread: ThreadInfo) -> ForwardGate {
    if store.thread_mapped(thread.id) {
        ForwardGate::AlreadySynced
    } else {
        match thread.parent_id {
            None => ForwardGate::MissingParent,
            Some(p) => ForwardGate::Proceed { parent_id: p },
        }
    }
}

/// Decide whether a thread is synced, skipped or refused.
pub fn forward_sync_gate(store: &SyncStore, thread: &ThreadInfo) -> (r: ForwardGate)
    ensures
        r == forward_gate_spec(*store, *thread),
{
    if store.get_mapping_by_discord_thread(thread.id).is_some() {
        return ForwardGate::AlreadySynced;
    }
    match thread.parent_id {
        None => ForwardGate::MissingParent,
        Some(p) => ForwardGate::Proceed { parent_id: p },
    }
}

/// The error surfaced when an unmapped thread has no parent channel.
pub fn missing_parent_error() -> (e: AppError)
    ensures
        e matches AppError::Internal(m) && m@ == "Thread has no parent channel"@,
{
    AppError::Internal("Thread has no parent channel".to_owned())
}

/// The issue body text for a resolved first message: its content, or the
/// placeholder when the message never became fetchable.
pub open spec fn message_body_spec(first_message: Option<MessageInfo>) -> Seq<char> {
    match first_message {
        Some(m) => m.content@,
        None => "(No message content available)"@,
    }
}

/// The body the issue is created with, placeholder included: a transient
/// race must not block issue creation.
pub fn resolve_message_body(first_message: &Option<MessageInfo>) -> (r: String)
    ensures
        r@ == message_body_spec(*first_message),
{
    match first_message {
        Some(m) => m.content.clone(),
        None => "(No message content available)".to_owned(),
    }
}

/// The additional labels the applied tags map to, in tag order; unmapped
/// tags contribute nothing.
pub open spec fn mapped_tag_labels(pairs: Seq<(String, String)>, tags: Seq<u64>) -> Seq<Seq<char>>
    decreases tags.len(),
{
    if tags.len() == 0 {
        Seq::empty()
    } else {
        (match tag_lookup(pairs, dec_digits(tags[0])) {
            Some(l) => seq![l],
            None => Seq::empty(),
        }) + mapped_tag_labels(pairs, tags.drop_first())
    }
}

/// The whole label set of a new issue: the channel's primary label first,
/// then the labels its applied tags map to, in order.
pub open spec fn labels_spec(cfg: ChannelConfig, tags: Seq<u64>) -> Seq<Seq<char>> {
    seq![cfg.linear_label_id@] + mapped_tag_labels(cfg.tag_label_map@, tags)
}

proof fn lemma_mapped_tag_labels_push(pairs: Seq<(String, String)>, tags: Seq<u64>, t: u64)
    ensures
        mapped_tag_labels(pairs, tags.push(t)) == mapped_tag_labels(pairs, tags) + (match tag_lookup(
            pairs,
            dec_digits(t),
        ) {
            Some(l) => seq![l],
            None => Seq::<Seq<char>>::empty(),
        }),
    decreases tags.len(),
{
    if tags.len() == 0 {
        assert(tags.push(t).drop_first() =~= tags);
        assert(mapped_tag_labels(pairs, tags.push(t)) =~= mapped_tag_labels(pairs, tags) + (
        match tag_lookup(pairs, dec_digits(t)) {
            Some(l) => seq![l],
            None => Seq::<Seq<char>>::empty(),
        }));
    } else {
        assert(tags.push(t).drop_first() =~= tags.drop_first().push(t));
        lemma_mapped_tag_labels_push(pairs, tags.drop_first(), t);
        assert(mapped_tag_labels(pairs, tags.push(t)) =~= mapped_tag_labels(pairs, tags) + (
        match tag_lookup(pairs, dec_digits(t)) {
            Some(l) => seq![l],
            None => Seq::<Seq<char>>::empty(),
        }));
    }
}

/// Resolve the label set of a new issue from the channel configuration and
/// the thread's applied tags.
pub fn resolve_labels(cfg: &ChannelConfig, applied_tags: &Vec<u64>) -> (labels: Vec<String>)
    ensures
        labels.deep_view() == labels_spec(*cfg, applied_tags@),
{
    let mut labels: Vec<String> = Vec::new();
    labels.push(cfg.linear_label_id.clone());
    proof {
        assert(applied_tags@.take(0) =~= Seq::<u64>::empty());
        assert(labels.deep_view() =~= seq![cfg.linear_label_id@] + mapped_tag_labels(
            cfg.tag_label_map@,
            applied_tags@.take(0),
        ));
    }
    let mut i: usize = 0;
    while i < applied_tags.len()
        invariant
            i <= applied_tags@.len(),
            labels.deep_view() == seq![cfg.linear_label_id@] + mapped_tag_labels(
                cfg.tag_label_map@,
                applied_tags@.take(i as int),
            ),
        decreases applied_tags@.len() - i,
    {
        let ghost old_dv = labels.deep_view();
        let tag_str = u64_to_dec(applied_tags[i]);
        match cfg.label_for_tag(tag_str.as_str()) {
            Some(l) => {
                let label = l.clone();
                labels.push(label);
                proof {
                    assert(labels.deep_view() =~= old_dv.push(label@));
                }
            },
            None => {},
        }
        proof {
            assert(applied_tags@.take(i + 1) =~= applied_tags@.take(i as int).push(
                applied_tags@[i as int],
            ));
            lemma_mapped_tag_labels_push(
                cfg.tag_label_map@,
                applied_tags@.take(i as int),
                applied_tags@[i as int],
            );
            assert(labels.deep_view() =~= seq![cfg.linear_label_id@] + mapped_tag_labels(
                cfg.tag_label_map@,
                applied_tags@.take(i + 1),
            ));
        }
        i = i + 1;
    }
    proof {
        assert(applied_tags@.take(applied_tags@.len() as int) =~= applied_tags@);
    }
    labels
}

/// What became of one attachment's best-effort mirroring.
#[derive(Debug, Clone, PartialEq, Eq)]
pub enum UploadOutcome {
    /// Mirrored; carries the asset URL the tracker serves it under.
    Uploaded(String),
    /// Failed; carries the failure's description. The sync goes on without
    /// this attachment.
    Failed(String),
}

/// The rendered link line of one mirrored attachment.
pub open spec fn attachment_line_spec(filename: Seq<char>, asset_url: Seq<char>) -> Seq<char> {
    "!["@ + filename + "]("@ + asset_url + ")"@
}

/// Render the link line of one mirrored attachment.
pub fn attachment_line(filename: &str, asset_url: &str) -> (r: String)
    ensures
        r@ == attachment_line_spec(filename@, asset_url@),
{
    let mut s = String::from_str("![");
    s.append(filename);
    s.append("](");
    s.append(asset_url);
    s.append(")");
    proof {
        assert(s@ =~= attachment_line_spec(filename@, asset_url@));
    }
    s
}

/// The link lines of exactly the attachments whose upload succeeded, in
/// attachment order.
pub open spec fn attachment_links_spec(atts: Seq<AttachmentInfo>, outs: Seq<UploadOutcome>) -> Seq<
    Seq<char>,
>
    decreases atts.len(),
{
    if atts.len() == 0 || outs.len() == 0 {
        Seq::empty()
    } else {
        (match outs[0] {
            UploadOutcome::Uploaded(u) => seq![attachment_line_spec(atts[0].filename@, u@)],
            UploadOutcome::Failed(_) => Seq::empty(),
        }) + attachment_links_spec(atts.drop_first(), outs.drop_first())
    }
}

proof fn lemma_attachment_links_push(
    atts: Seq<AttachmentInfo>,
    outs: Seq<UploadOutcome>,
    a: AttachmentInfo,
    o: UploadOutcome,
)
    requires
        atts.len() == outs.len(),
    ensures
        attachment_links_spec(atts.push(a), outs.push(o)) == attachment_links_spec(atts, outs) + (
        match o {
            UploadOutcome::Uploaded(u) => seq![attachment_line_spec(a.filename@, u@)],
            UploadOutcome::Failed(_) => Seq::<Seq<char>>::empty(),
        }),
    decreases atts.len(),
{
    if atts.len() == 0 {
        assert(atts.push(a).drop_first() =~= atts);
        assert(outs.push(o).drop_first() =~= outs);
        assert(attachment_links_spec(atts.push(a), outs.push(o)) =~= attachment_links_spec(
            atts,
            outs,
        ) + (match o {
            UploadOutcome::Uploaded(u) => seq![attachment_line_spec(a.filename@, u@)],
            UploadOutcome::Failed(_) => Seq::<Seq<char>>::empty(),
        }));
    } else {
        assert(atts.push(a).drop_first() =~= atts.drop_first().push(a));
        assert(outs.push(o).drop_first() =~= outs.drop_first().push(o));
        lemma_attachment_links_push(atts.drop_first(), outs.drop_first(), a, o);
        assert(attachment_links_spec(atts.push(a), outs.push(o)) =~= attachment_links_spec(
            atts,
            outs,
        ) + (match o {
            UploadOutcome::Uploaded(u) => seq![attachment_line_spec(a.filename@, u@)],
            UploadOutcome::Failed(_) => Seq::<Seq<char>>::empty(),
        }));
    }
}

/// Collect the link lines of the successfully mirrored attachments, in
/// order; a failed upload contributes nothing and aborts nothing.
pub fn collect_attachment_links(
    attachments: &Vec<AttachmentInfo>,
    outcomes: &Vec<UploadOutcome>,
) -> (links: Vec<String>)
    requires
        outcomes@.len() == attachments@.len(),
    ensures
        links.deep_view() == attachment_links_spec(attachments@, outcomes@),
{
    let mut links: Vec<String> = Vec::new();
    proof {
        assert(attachments@.take(0) =~= Seq::<AttachmentInfo>::empty());
        assert(outcomes@.take(0) =~= Seq::<UploadOutcome>::empty());
        assert(links.deep_view() =~= attachment_links_spec(
            attachments@.take(0),
            outcomes@.take(0),
        ));
    }
    let mut i: usize = 0;
    while i < attachments.len()
        invariant
            i <= attachments@.len(),
            outcomes@.len() == attachments@.len(),
            links.deep_view() == attachment_links_spec(
                attachments@.take(i as int),
                outcomes@.take(i as int),
            ),
        decreases attachments@.len() - i,
    {
        let ghost old_dv = links.deep_view();
        match &outcomes[i] {
            UploadOutcome::Uploaded(u) => {
                let line = attachment_line(attachments[i].filename.as_str(), u.as_str());
                let ghost gline = line@;
                links.push(line);
                proof {
                    assert(links.deep_view() =~= old_dv.push(gline));
                }
            },
            UploadOutcome::Failed(_) => {},
        }
        proof {
            assert(attachments@.take(i + 1) =~= attachments@.take(i as int).push(
                attachments@[i as int],
            ));
            assert(outcomes@.take(i + 1) =~= outcomes@.take(i as int).push(outcomes@[i as int]));
            assert(attachments@.take(i as int).len() == outcomes@.take(i as int).len());
            lemma_attachment_links_push(
                attachments@.take(i as int),
                outcomes@.take(i as int),
                attachments@[i as int],
                outcomes@[i as int],
            );
            assert(links.deep_view() =~= attachment_links_spec(
                attachments@.take(i + 1),
                outcomes@.take(i + 1),
            ));
        }
        i = i + 1;
    }
    proof {
        assert(attachments@.take(attachments@.len() as int) =~= attachments@);
        assert(outcomes@.take(outcomes@.len() as int) =~= outcomes@);
    }
    links
}

/// The back-link into the chat platform for a thread.
pub open spec fn thread_link_spec(guild_id: u64, parent_id: u64, thread_id: u64) -> Seq<char> {
    "https://discord.com/channels/"@ + dec_digits(guild_id) + "/"@ + dec_digits(parent_id) + "/"@
        + dec_digits(thread_id)
}

/// Render the back-link into the chat platform for a thread.
pub fn thread_link(guild_id: u64, parent_id: u64, thread_id: u64) -> (r: String)
    ensures
        r@ == thread_link_spec(guild_id, parent_id, thread_id),
{
    let mut s = String::from_str("https://discord.com/channels/");
    let g = u64_to_dec(guild_id);
    s.append(g.as_str());
    s.append("/");
    let p = u64_to_dec(parent_id);
    s.append(p.as_str());
    s.append("/");
    let t = u64_to_dec(thread_id);
    s.append(t.as_str());
    proof {
        assert(s@ =~= thread_link_spec(guild_id, parent_id, thread_id));
    }
    s
}

/// The full issue body: the message text, the back-link to the thread, and
/// — only when at least one attachment was mirrored — the list of mirrored
/// attachment links.
pub open spec fn description_spec(
    body: Seq<char>,
    guild_id: u64,
    parent_id: u64,
    thread_id: u64,
    lines: Seq<Seq<char>>,
) -> Seq<char> {
    let base = body + "\n\n---\n[Discord Thread]("@ + thread_link_spec(
        guild_id,
        parent_id,
        thread_id,
    ) + ")"@;
    if lines.len() == 0 {
        base
    } else {
        base + "\n\n**Attachments:**\n"@ + joined_with(lines, "\n"@)
    }
}

/// Compose the full issue body.
pub fn compose_issue_description(
    message_body: &str,
    guild_id: u64,
    parent_id: u64,
    thread_id: u64,
    attachment_lines: &Vec<String>,
) -> (r: String)
    ensures
        r@ == description_spec(
            message_body@,
            guild_id,
            parent_id,
            thread_id,
            attachment_lines.deep_view(),
        ),
{
    let mut s = message_body.to_owned();
    s.append("\n\n---\n[Discord Thread](");
    let link = thread_link(guild_id, parent_id, thread_id);
    s.append(link.as_str());
    s.append(")");
    if attachment_lines.len() > 0 {
        s.append("\n\n**Attachments:**\n");
        let joined = join_lines(attachment_lines);
        s.append(joined.as_str());
    }
    proof {
        assert(s@ =~= description_spec(
            message_body@,
            guild_id,
            parent_id,
            thread_id,
            attachment_lines.deep_view(),
        ));
    }
    s
}

/// The confirmation message posted back into the thread once the issue
/// exists, carrying the issue's human-readable code and URL.
pub open spec fn confirmation_message_spec(identifier: Seq<char>, url: Seq<char>) -> Seq<char> {
    "Tracked as **["@ + identifier + "]("@ + url + ")** in Linear"@
}

/// Render the confirmation message.
pub fn confirmation_message(identifier: &str, url: &str) -> (r: String)
    ensures
        r@ == confirmation_message_spec(identifier@, url@),
{
    let mut s = String::from_str("Tracked as **[");
    s.append(identifier);
    s.append("](");
    s.append(url);
    s.append(")** in Linear");
    proof {
        assert(s@ =~= confirmation_message_spec(identifier@, url@));
    }
    s
}

/// Forward sync is idempotent at its entry check: once a mapping row for a
/// thread exists, the answer is `AlreadySynced`, so the operation ends without
/// creating an issue, posting a message or touching the store.
pub proof fn lemma_forward_sync_idempotent(store: SyncStore, thread: ThreadInfo)
    requires
        store.thread_mapped(thread.id),
    ensures
        forward_gate_spec(store, thread) is AlreadySynced,
{
}

/// Running forward sync twice creates exactly one issue and one row: after
/// a successful commit — the store gained exactly the thread's new mapping
/// row — a second run on the same thread is answered `AlreadySynced`, before any
/// issue creation or store write.
pub proof fn lemma_forward_sync_second_run_skips(
    s0: SyncStore,
    s1: SyncStore,
    thread: ThreadInfo,
    row: SyncMapping,
)
    requires
        row.discord_thread_id == thread.id,
        s1.mapping_rows() == s0.mapping_rows().push(row),
    ensures
        forward_gate_spec(s1, thread) is AlreadySynced,
{
    assert(s1.mapping_rows()[s1.mapping_rows().len() - 1] == row);
    lemma_mapping_thread_present(s1.mapping_rows(), s1.mapping_rows().len() - 1);
}

} // verus!
