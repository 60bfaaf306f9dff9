//! Per-channel configuration binding a chat forum channel to a tracker team.

use vstd::prelude::*;
use vstd::string::StringExecFns;
use crate::text::{lex_lt, str_lt, str_eq, lemma_lex_lt_total, lemma_lex_lt_transitive};

verus! {

/// What went wrong while assembling the configuration.
#[derive(Debug, Clone, PartialEq, Eq)]
pub enum ConfigError {
    /// A required setting was absent; carries the setting's name.
    Missing(String),
    /// A setting held a value that could not be used; carries the setting's
    /// name and a description of the problem.
    Invalid(String, String),
    /// The channel list was empty.
    NoChannels,
}

/// The sync direction of a monitored channel, a closed set resolved at
/// configuration-load time; unknown names are rejected there, never
/// defaulted.
#[derive(Clone, Copy, Debug, PartialEq, Eq, Structural)]
pub enum ChannelKind {
    Feature,
    Bug,
}

/// The configuration name of a channel kind.
pub open spec fn kind_name(k: ChannelKind) -> Seq<char> {
    match k {
        ChannelKind::Feature => "feature"@,
        ChannelKind::Bug => "bug"@,
    }
}

/// The channel kind a configuration name denotes, if any.
pub open spec fn kind_from_name(s: Seq<char>) -> Option<ChannelKind> {
    if s == "feature"@ {
        Some(ChannelKind::Feature)
    } else if s == "bug"@ {
        Some(ChannelKind::Bug)
    } else {
        None
    }
}

impl ChannelKind {
    /// The kind's configuration name.
    pub fn name(&self) -> (r: &'static str)
        ensures
            r@ == kind_name(*self),
    {
        match self {
            ChannelKind::Feature => "feature",
            ChannelKind::Bug => "bug",
        }
    }

    /// Parse a configuration name; `None` for anything outside the closed set.
    pub fn from_name(s: &str) -> (r: Option<ChannelKind>)
        ensures
            r == kind_from_name(s@),
    {
        if str_eq(s, "feature") {
            Some(ChannelKind::Feature)
        } else if str_eq(s, "bug") {
            Some(ChannelKind::Bug)
        } else {
            None
        }
    }
}

/// Rendering a kind's name and parsing it again yields the kind: the closed
/// enumeration loses nothing over the configuration's string form.
pub proof fn lemma_kind_name_round_trip(k: ChannelKind)
    ensures
        kind_from_name(kind_name(k)) == Some(k),
{
    reveal_strlit("feature");
    reveal_strlit("bug");
    assert("feature"@.len() == 7);
    assert("bug"@.len() == 3);
}

/// One monitored forum channel and the tracker team it feeds.
#[derive(Debug, Clone)]
pub struct ChannelConfig {
    /// The forum channel being watched.
    pub discord_channel_id: u64,
    /// The guild the channel belongs to.
    pub guild_id: u64,
    /// The sync direction of the channel.
    pub channel_type: ChannelKind,
    /// The tracker team issues are created in.
    pub linear_team_id: String,
    /// The primary tracker label for this channel.
    pub linear_label_id: String,
    /// Forum tag ids (rendered in decimal) mapped to additional tracker
    /// label ids; keys are unique in a well-formed configuration.
    pub tag_label_map: Vec<(String, String)>,
}

/// The label mapped to a tag key, by first match over the pair list.
pub open spec fn tag_lookup(pairs: Seq<(String, String)>, key: Seq<char>) -> Option<Seq<char>>
    decreases pairs.len(),
{
    if pairs.len() == 0 {
        None
    } else if pairs[0].0@ == key {
        Some(pairs[0].1@)
    } else {
        tag_lookup(pairs.drop_first(), key)
    }
}

impl ChannelConfig {
    /// The additional tracker label mapped to a forum tag key, if any.
    pub fn label_for_tag(&self, tag: &str) -> (r: Option<&String>)
        ensures
            match r {
                Some(l) => tag_lookup(self.tag_label_map@, tag@) == Some(l@),
                None => tag_lookup(self.tag_label_map@, tag@) is None,
            },
    {
        let pairs = &self.tag_label_map;
        let mut i: usize = 0;
        proof {
            assert(pairs@.skip(0) =~= pairs@);
        }
        while i < pairs.len()
            invariant
                pairs@ == self.tag_label_map@,
                i <= pairs@.len(),
                tag_lookup(pairs@, tag@) == tag_lookup(pairs@.skip(i as int), tag@),
            decreases pairs@.len() - i,
        {
            proof {
                assert(pairs@.skip(i as int).drop_first() =~= pairs@.skip(i + 1));
            }
            let entry = &pairs[i];
            if str_eq(entry.0.as_str(), tag) {
                proof {
                    assert(pairs@.skip(i as int)[0] == pairs@[i as int]);
                    assert(*entry == pairs@[i as int]);
                    assert(tag_lookup(self.tag_label_map@, tag@) == Some(entry.1@));
                }
                return Some(&entry.1);
            }
            i = i + 1;
        }
        None
    }
}

/// The whole process configuration, already validated.
#[derive(Debug, Clone)]
pub struct Config {
    pub discord_token: String,
    pub linear_api_key: String,
    pub channels: Vec<ChannelConfig>,
    pub database_url: String,
    pub poll_interval_secs: u64,
}

/// The configuration of the channel with the given id, by first match.
pub open spec fn channel_for(channels: Seq<ChannelConfig>, id: u64) -> Option<ChannelConfig>
    decreases channels.len(),
{
    if channels.len() == 0 {
        None
    } else if channels[0].discord_channel_id == id {
        Some(channels[0])
    } else {
        channel_for(channels.drop_first(), id)
    }
}

/// Whether some entry of `v` views as the text `x`.
pub open spec fn seq_has_view(v: Seq<String>, x: Seq<char>) -> bool {
    exists|i: int| 0 <= i < v.len() && #[trigger] v[i]@ == x
}

/// Whether some channel names the tracker team `x`.
pub open spec fn has_team(channels: Seq<ChannelConfig>, x: Seq<char>) -> bool {
    exists|i: int| 0 <= i < channels.len() && #[trigger] channels[i].linear_team_id@ == x
}

/// Whether some channel belongs to the guild `g`.
pub open spec fn has_guild(channels: Seq<ChannelConfig>, g: u64) -> bool {
    exists|i: int| 0 <= i < channels.len() && #[trigger] channels[i].guild_id == g
}

proof fn lemma_has_team_take_step(channels: Seq<ChannelConfig>, c: int)
    requires
        0 <= c < channels.len(),
    ensures
        forall|x: Seq<char>|
            has_team(channels.take(c + 1), x) <==> (has_team(channels.take(c), x)
                || channels[c].linear_team_id@ == x),
{
    assert forall|x: Seq<char>|
        has_team(channels.take(c + 1), x) <==> (has_team(channels.take(c), x)
            || channels[c].linear_team_id@ == x) by {
        if has_team(channels.take(c + 1), x) {
            let i = choose|i: int|
                0 <= i < channels.take(c + 1).len() && #[trigger] channels.take(
                    c + 1,
                )[i].linear_team_id@ == x;
            if i < c {
                assert(channels.take(c)[i].linear_team_id@ == x);
            } else {
                assert(channels[c].linear_team_id@ == x);
            }
        }
        if has_team(channels.take(c), x) {
            let i = choose|i: int|
                0 <= i < channels.take(c).len() && #[trigger] channels.take(
                    c,
                )[i].linear_team_id@ == x;
            assert(channels.take(c + 1)[i].linear_team_id@ == x);
        }
        if channels[c].linear_team_id@ == x {
            assert(channels.take(c + 1)[c].linear_team_id@ == x);
        }
    }
}

proof fn lemma_has_guild_take_step(channels: Seq<ChannelConfig>, c: int)
    requires
        0 <= c < channels.len(),
    ensures
        forall|g: u64|
            has_guild(channels.take(c + 1), g) <==> (has_guild(channels.take(c), g)
                || channels[c].guild_id == g),
{
    assert forall|g: u64|
        has_guild(channels.take(c + 1), g) <==> (has_guild(channels.take(c), g)
            || channels[c].guild_id == g) by {
        if has_guild(channels.take(c + 1), g) {
            let i = choose|i: int|
                0 <= i < channels.take(c + 1).len() && #[trigger] channels.take(c + 1)[i].guild_id
                    == g;
            if i < c {
                assert(channels.take(c)[i].guild_id == g);
            } else {
                assert(channels[c].guild_id == g);
            }
        }
        if has_guild(channels.take(c), g) {
            let i = choose|i: int|
                0 <= i < channels.take(c).len() && #[trigger] channels.take(c)[i].guild_id == g;
            assert(channels.take(c + 1)[i].guild_id == g);
        }
        if channels[c].guild_id == g {
            assert(channels.take(c + 1)[c].guild_id == g);
        }
    }
}

proof fn lemma_insert_views(s: Seq<String>, j: int, v: String, t: Seq<String>)
    requires
        0 <= j <= s.len(),
        t == s.insert(j, v),
    ensures
        forall|x: Seq<char>| seq_has_view(t, x) <==> (seq_has_view(s, x) || v@ == x),
{
    s.insert_ensures(j, v);
    assert forall|x: Seq<char>| seq_has_view(t, x) <==> (seq_has_view(s, x) || v@ == x) by {
        if seq_has_view(t, x) {
            let i = choose|i: int| 0 <= i < t.len() && #[trigger] t[i]@ == x;
            if i < j {
                assert(s[i]@ == x);
            } else if i == j {
                assert(v@ == x);
            } else {
                assert(t[(i - 1) + 1]@ == x);
                assert(s[i - 1]@ == x);
            }
        }
        if seq_has_view(s, x) {
            let i = choose|i: int| 0 <= i < s.len() && #[trigger] s[i]@ == x;
            if i < j {
                assert(t[i]@ == x);
            } else {
                assert(t[i + 1]@ == x);
            }
        }
        if v@ == x {
            assert(t[j]@ == x);
        }
    }
}

impl Config {
    /// Assemble a configuration from already-decoded parts, applying the
    /// documented defaults and rejecting an empty channel list.
    pub fn from_parts(
        discord_token: String,
        linear_api_key: String,
        channels: Vec<ChannelConfig>,
        database_url: Option<String>,
        poll_interval_secs: Option<u64>,
    ) -> (r: Result<Config, ConfigError>)
        ensures
            match r {
                Ok(c) => {
                    &&& channels@.len() > 0
                    &&& c.discord_token@ == discord_token@
                    &&& c.linear_api_key@ == linear_api_key@
                    &&& c.channels == channels
                    &&& (match database_url {
                        Some(u) => c.database_url@ == u@,
                        None => c.database_url@ == "sqlite:bot.db"@,
                    })
                    &&& (match poll_interval_secs {
                        Some(p) => c.poll_interval_secs == p,
                        None => c.poll_interval_secs == 30,
                    })
                },
                Err(e) => channels@.len() == 0 && e == ConfigError::NoChannels,
            },
    {
        if channels.len() == 0 {
            return Err(ConfigError::NoChannels);
        }
        let database_url = match database_url {
            Some(u) => u,
            None => String::from_str("sqlite:bot.db"),
        };
        let poll_interval_secs = match poll_interval_secs {
            Some(p) => p,
            None => 30,
        };
        Ok(
            Config {
                discord_token,
                linear_api_key,
                channels,
                database_url,
                poll_interval_secs,
            },
        )
    }

    /// Look up channel configuration by channel id.
    pub fn channel_config(&self, discord_channel_id: u64) -> (r: Option<&ChannelConfig>)
        ensures
            match r {
                Some(c) => channel_for(self.channels@, discord_channel_id) == Some(*c),
                None => channel_for(self.channels@, discord_channel_id) is None,
            },
    {
        let mut i: usize = 0;
        proof {
            assert(self.channels@.skip(0) =~= self.channels@);
        }
        while i < self.channels.len()
            invariant
                i <= self.channels@.len(),
                channel_for(self.channels@, discord_channel_id) == channel_for(
                    self.channels@.skip(i as int),
                    discord_channel_id,
                ),
            decreases self.channels@.len() - i,
        {
            proof {
                assert(self.channels@.skip(i as int).drop_first() =~= self.channels@.skip(i + 1));
            }
            if self.channels[i].discord_channel_id == discord_channel_id {
                return Some(&self.channels[i]);
            }
            i = i + 1;
        }
        None
    }

    /// Whether a channel id is monitored.
    pub fn is_monitored_channel(&self, channel_id: u64) -> (r: bool)
        ensures
            r == (channel_for(self.channels@, channel_id) is Some),
    {
        self.channel_config(channel_id).is_some()
    }

    /// All unique tracker team ids across all channels, in increasing
    /// lexicographic order, each exactly once.
    pub fn unique_team_ids(&self) -> (r: Vec<String>)
        ensures
            forall|p: int, q: int| 0 <= p < q < r@.len() ==> lex_lt(r@[p]@, r@[q]@),
            forall|x: Seq<char>| seq_has_view(r@, x) <==> has_team(self.channels@, x),
    {
        let mut r: Vec<String> = Vec::new();
        let mut c: usize = 0;
        while c < self.channels.len()
            invariant
                c <= self.channels@.len(),
                forall|p: int, q: int| 0 <= p < q < r@.len() ==> lex_lt(r@[p]@, r@[q]@),
                forall|x: Seq<char>|
                    seq_has_view(r@, x) <==> has_team(self.channels@.take(c as int), x),
            decreases self.channels@.len() - c,
        {
            let ghost r_pre = r@;
            let id = &self.channels[c].linear_team_id;
            let mut j: usize = 0;
            loop
                invariant
                    j <= r@.len(),
                    r@ == r_pre,
                    forall|k: int| 0 <= k < j ==> lex_lt(r@[k]@, id@),
                ensures
                    j <= r@.len(),
                    r@ == r_pre,
                    forall|k: int| 0 <= k < j ==> lex_lt(r@[k]@, id@),
                    j == r@.len() || !lex_lt(r@[j as int]@, id@),
                decreases r@.len() - j,
            {
                if j == r.len() {
                    break ;
                }
                if !str_lt(r[j].as_str(), id.as_str()) {
                    break ;
                }
                j = j + 1;
            }
            let mut present = false;
            if j < r.len() {
                if str_eq(r[j].as_str(), id.as_str()) {
                    present = true;
                }
            }
            if present {
                proof {
                    assert(r@[j as int]@ == id@);
                    assert(seq_has_view(r@, id@));
                    lemma_has_team_take_step(self.channels@, c as int);
                    assert forall|x: Seq<char>|
                        seq_has_view(r@, x) <==> has_team(
                            self.channels@.take(c as int + 1),
                            x,
                        ) by {
                        assert(seq_has_view(r@, x) <==> has_team(
                            self.channels@.take(c as int),
                            x,
                        ));
                    }
                }
            } else {
                proof {
                    if j < r@.len() {
                        assert(lex_lt(id@, r@[j as int]@)) by {
                            if !lex_lt(id@, r@[j as int]@) {
                                lemma_lex_lt_total(r@[j as int]@, id@);
                            }
                        }
                    }
                }
                let ghost old_r = r@;
                r.insert(j, id.clone());
                proof {
                    old_r.insert_ensures(j as int, r@[j as int]);
                    assert(r@ =~= old_r.insert(j as int, r@[j as int]));
                    assert(r@[j as int]@ == id@);
                    lemma_insert_views(old_r, j as int, r@[j as int], r@);
                    assert forall|p: int, q: int|
                        0 <= p < q < r@.len() implies lex_lt(r@[p]@, r@[q]@) by {
                        if q < j {
                            assert(lex_lt(old_r[p]@, old_r[q]@));
                        } else if q == j {
                            assert(r@[q]@ == id@);
                            assert(lex_lt(old_r[p]@, id@));
                        } else {
                            // q > j: r[q] is old_r[q - 1] with q - 1 >= j
                            assert(r@[q]@ == old_r[q - 1]@);
                            assert(lex_lt(id@, r@[q]@)) by {
                                if q - 1 > j {
                                    assert(lex_lt(old_r[j as int]@, old_r[q - 1]@));
                                    lemma_lex_lt_transitive(id@, old_r[j as int]@, old_r[q - 1]@);
                                }
                            }
                            if p < j {
                                lemma_lex_lt_transitive(old_r[p]@, id@, r@[q]@);
                                assert(lex_lt(r@[p]@, r@[q]@));
                            } else if p == j {
                                assert(lex_lt(r@[p]@, r@[q]@));
                            } else {
                                assert(r@[p]@ == old_r[p - 1]@);
                                assert(lex_lt(old_r[p - 1]@, old_r[q - 1]@));
                            }
                        }
                    }
                    lemma_has_team_take_step(self.channels@, c as int);
                    assert forall|x: Seq<char>|
                        seq_has_view(r@, x) <==> has_team(
                            self.channels@.take(c as int + 1),
                            x,
                        ) by {
                        assert(seq_has_view(old_r, x) <==> has_team(
                            self.channels@.take(c as int),
                            x,
                        ));
                        assert(seq_has_view(r@, x) <==> (seq_has_view(old_r, x) || id@ == x));
                    }
                }
            }
            c = c + 1;
        }
        proof {
            assert(self.channels@.take(c as int) =~= self.channels@);
        }
        r
    }

    /// All unique guild ids across all channels, in increasing order, each
    /// exactly once.
    pub fn unique_guild_ids(&self) -> (r: Vec<u64>)
        ensures
            forall|p: int, q: int| 0 <= p < q < r@.len() ==> r@[p] < r@[q],
            forall|g: u64| r@.contains(g) <==> has_guild(self.channels@, g),
    {
        let mut r: Vec<u64> = Vec::new();
        let mut c: usize = 0;
        while c < self.channels.len()
            invariant
                c <= self.channels@.len(),
                forall|p: int, q: int| 0 <= p < q < r@.len() ==> r@[p] < r@[q],
                forall|g: u64| r@.contains(g) <==> has_guild(self.channels@.take(c as int), g),
            decreases self.channels@.len() - c,
        {
            let ghost r_pre = r@;
            let g = self.channels[c].guild_id;
            let mut j: usize = 0;
            loop
                invariant
                    j <= r@.len(),
                    r@ == r_pre,
                    forall|k: int| 0 <= k < j ==> r@[k] < g,
                ensures
                    j <= r@.len(),
                    r@ == r_pre,
                    forall|k: int| 0 <= k < j ==> r@[k] < g,
                    j == r@.len() || r@[j as int] >= g,
                decreases r@.len() - j,
            {
                if j == r.len() {
                    break ;
                }
                if r[j] >= g {
                    break ;
                }
                j = j + 1;
            }
            let mut present = false;
            if j < r.len() {
                if r[j] == g {
                    present = true;
                }
            }
            if present {
                proof {
                    assert(r@.contains(g)) by {
                        assert(r@[j as int] == g);
                    }
                    lemma_has_guild_take_step(self.channels@, c as int);
                    assert forall|x: u64|
                        r@.contains(x) <==> has_guild(self.channels@.take(c as int + 1), x) by {
                        assert(r@.contains(x) <==> has_guild(self.channels@.take(c as int), x));
                    }
                }
            } else {
                let ghost old_r = r@;
                r.insert(j, g);
                proof {
                    old_r.insert_ensures(j as int, g);
                    assert(r@ =~= old_r.insert(j as int, g));
                    assert forall|p: int, q: int| 0 <= p < q < r@.len() implies r@[p] < r@[q] by {
                        if q > j {
                            assert(r@[q] == old_r[q - 1]);
                        }
                        if p > j {
                            assert(r@[p] == old_r[p - 1]);
                        }
                    }
                    assert forall|x: u64| r@.contains(x) <==> (old_r.contains(x) || x == g) by {
                        if r@.contains(x) {
                            let i = choose|i: int| 0 <= i < r@.len() && r@[i] == x;
                            if i < j {
                                assert(old_r[i] == x);
                            } else if i > j {
                                assert(old_r[i - 1] == x);
                            }
                        }
                        if old_r.contains(x) {
                            let i = choose|i: int| 0 <= i < old_r.len() && old_r[i] == x;
                            if i < j {
                                assert(r@[i] == x);
                            } else {
                                assert(r@[i + 1] == x);
                            }
                        }
                        if x == g {
                            assert(r@[j as int] == x);
                        }
                    }
                    lemma_has_guild_take_step(self.channels@, c as int);
                    assert forall|x: u64|
                        r@.contains(x) <==> has_guild(self.channels@.take(c as int + 1), x) by {
                        assert(old_r.contains(x) <==> has_guild(self.channels@.take(c as int), x));
                        assert(r@.contains(x) <==> (old_r.contains(x) || x == g));
                    }
                }
            }
            c = c + 1;
        }
        proof {
            assert(self.channels@.take(c as int) =~= self.channels@);
        }
        r
    }
}

} // verus!
