//! The tile store and its change channel, modelled in memory: tiles keyed by
//! a `dashboard:tile` space, dashboards keyed by name, and the per-dashboard
//! pub/sub channel over which tile writes are announced to the sessions
//! subscribed to it. The deployment backs this contract with an external
//! key/value store; the gateway and its laws are verified against this model.

use vstd::prelude::*;

verus! {

use vstd::string::StringExecFns;
use crate::dashboard::Dashboard;
use crate::payload::{is_json_object, object_shaped, inject_tile_id, payload_with_tile_id};
use crate::text::str_eq;

/// The connection URL for a store address: `redis://<ip:port>/`.
pub open spec fn redis_url_of(ip_port: Seq<char>) -> Seq<char> {
    "redis://"@ + ip_port + "/"@
}

/// Writes the connection URL for the store living at `ip_port`.
pub fn redis_url(ip_port: &str) -> (r: String)
    ensures
        r@ == redis_url_of(ip_port@),
{
    let mut s = "redis://".to_owned();
    s.append(ip_port);
    s.append("/");
    s
}

/// The channel on which changes to a dashboard's tiles are announced: the
/// configured namespace prefix, `:`, and the dashboard name.
pub open spec fn channel_of(prefix: Seq<char>, dashboard_name: Seq<char>) -> Seq<char> {
    prefix + seq![':'] + dashboard_name
}

/// Returns the channel for the `dashboard_name` dashboard where changes are
/// announced, under the configured namespace `prefix`.
pub fn get_dashboard_channel(prefix: &str, dashboard_name: &str) -> (r: String)
    ensures
        r@ == channel_of(prefix@, dashboard_name@),
{
    proof {
        reveal_strlit(":");
    }
    let mut s = prefix.to_owned();
    s.append(":");
    s.append(dashboard_name);
    proof {
        assert(s@ =~= channel_of(prefix@, dashboard_name@));
    }
    s
}

/// Distinct dashboards never share a channel: under one prefix, the channel
/// determines the dashboard name.
pub proof fn lemma_channel_collision_free(prefix: Seq<char>, n1: Seq<char>, n2: Seq<char>)
    requires
        channel_of(prefix, n1) == channel_of(prefix, n2),
    ensures
        n1 == n2,
{
    let c1 = channel_of(prefix, n1);
    let c2 = channel_of(prefix, n2);
    assert(c1.len() == prefix.len() + 1 + n1.len());
    assert(c2.len() == prefix.len() + 1 + n2.len());
    assert forall|i: int| 0 <= i < n1.len() implies n1[i] == n2[i] by {
        assert(c1[prefix.len() + 1 + i] == n1[i]);
        assert(c2[prefix.len() + 1 + i] == n2[i]);
    }
    assert(n1 =~= n2);
}

/// The store key under which a tile's payload is kept: `dashboard:tile`.
pub open spec fn space_of(dashboard_name: Seq<char>, tile_id: Seq<char>) -> Seq<char> {
    dashboard_name + seq![':'] + tile_id
}

/// First-match lookup in an association list of store entries.
pub open spec fn lookup(entries: Seq<(String, String)>, key: Seq<char>) -> Option<Seq<char>>
    decreases entries.len(),
{
    if entries.len() == 0 {
        None
    } else if entries[0].0@ == key {
        Some(entries[0].1@)
    } else {
        lookup(entries.drop_first(), key)
    }
}

/// First-match lookup of a dashboard by name.
pub open spec fn lookup_dashboard(entries: Seq<Dashboard>, name: Seq<char>) -> Option<Dashboard>
    decreases entries.len(),
{
    if entries.len() == 0 {
        None
    } else if entries[0].name@ == name {
        Some(entries[0])
    } else {
        lookup_dashboard(entries.drop_first(), name)
    }
}

/// The sessions a message published on `channel` is delivered to: one
/// delivery per matching subscription, in subscription order.
pub open spec fn deliveries(subs: Seq<(u64, Seq<char>)>, channel: Seq<char>) -> Seq<u64>
    decreases subs.len(),
{
    if subs.len() == 0 {
        Seq::empty()
    } else {
        deliveries(subs.drop_last(), channel) + (if subs.last().1 == channel {
            seq![subs.last().0]
        } else {
            Seq::empty()
        })
    }
}

/// The message the store gives back when a tile payload is not one JSON
/// object.
pub open spec fn payload_not_object_msg() -> Seq<char> {
    "Payload is not an object"@
}

/// The tile store model: the stored tiles, the stored dashboards, the open
/// channel subscriptions, and the configured channel-namespace prefix.
pub struct Store {
    prefix: String,
    tiles: Vec<(String, String)>,
    dashboards: Vec<Dashboard>,
    subs: Vec<(u64, String)>,
}

impl Store {
    /// The configured channel-namespace prefix.
    pub closed spec fn prefix_view(self) -> Seq<char> {
        self.prefix@
    }

    /// The payload stored under a tile space, if any.
    pub closed spec fn stored_tile(self, space: Seq<char>) -> Option<Seq<char>> {
        lookup(self.tiles@, space)
    }

    /// The dashboard stored under a name, if any.
    pub closed spec fn dashboard_at(self, name: Seq<char>) -> Option<Dashboard> {
        lookup_dashboard(self.dashboards@, name)
    }

    /// The stored dashboards, in insertion order.
    pub closed spec fn dashboards_view(self) -> Seq<Dashboard> {
        self.dashboards@
    }

    /// The open subscriptions: session id and channel, in subscription order.
    pub closed spec fn subs_view(self) -> Seq<(u64, Seq<char>)> {
        self.subs@.map_values(|e: (u64, String)| (e.0, e.1@))
    }

    /// An empty store configured with a channel-namespace prefix.
    pub fn new(prefix: String) -> (r: Store)
        ensures
            r.prefix_view() == prefix@,
            forall|space: Seq<char>| r.stored_tile(space) is None,
            forall|name: Seq<char>| r.dashboard_at(name) is None,
            r.subs_view() == Seq::<(u64, Seq<char>)>::empty(),
            r.dashboards_view() == Seq::<Dashboard>::empty(),
    {
        let r = Store { prefix, tiles: Vec::new(), dashboards: Vec::new(), subs: Vec::new() };
        proof {
            assert(r.subs_view() =~= Seq::<(u64, Seq<char>)>::empty());
        }
        r
    }

    /// Joins a dashboard name and a tile id into the store key under which
    /// the tile payload is kept.
    pub fn get_tile_space(&self, dashboard_name: &str, tile_id: &str) -> (r: String)
        ensures
            r@ == space_of(dashboard_name@, tile_id@),
    {
        proof {
            reveal_strlit(":");
        }
        let mut s = dashboard_name.to_owned();
        s.append(":");
        s.append(tile_id);
        proof {
            assert(s@ =~= space_of(dashboard_name@, tile_id@));
        }
        s
    }

    /// Returns the stored `tile` payload for `tile_id` under
    /// `dashboard_name`.
    pub fn get_tile(&self, dashboard_name: &str, tile_id: &str) -> (r: Option<String>)
        ensures
            match r {
                Some(p) => self.stored_tile(space_of(dashboard_name@, tile_id@)) == Some(p@),
                None => self.stored_tile(space_of(dashboard_name@, tile_id@)) is None,
            },
    {
        let key = self.get_tile_space(dashboard_name, tile_id);
        proof {
            assert(self.tiles@.skip(0) =~= self.tiles@);
        }
        let mut i: usize = 0;
        while i < self.tiles.len()
            invariant
                i <= self.tiles.len(),
                key@ == space_of(dashboard_name@, tile_id@),
                lookup(self.tiles@, key@) == lookup(self.tiles@.skip(i as int), key@),
            decreases self.tiles.len() - i,
        {
            proof {
                assert(self.tiles@.skip(i as int)[0] == self.tiles@[i as int]);
                assert(self.tiles@.skip(i as int).drop_first() =~= self.tiles@.skip(i + 1));
            }
            if str_eq(self.tiles[i].0.as_str(), key.as_str()) {
                return Some(self.tiles[i].1.clone());
            }
            i = i + 1;
        }
        proof {
            assert(self.tiles@.skip(self.tiles@.len() as int).len() == 0);
        }
        None
    }

    /// Records a subscription of `session` to `channel`.
    pub fn subscribe(&mut self, session: u64, channel: &str)
        ensures
            final(self).subs_view() == old(self).subs_view().push((session, channel@)),
            final(self).prefix_view() == old(self).prefix_view(),
            final(self).dashboards_view() == old(self).dashboards_view(),
            forall|space: Seq<char>|
                final(self).stored_tile(space) == old(self).stored_tile(space),
            forall|name: Seq<char>|
                final(self).dashboard_at(name) == old(self).dashboard_at(name),
    {
        self.subs.push((session, channel.to_owned()));
        proof {
            assert(self.subs_view() =~= old(self).subs_view().push((session, channel@)));
        }
    }

    /// Announces a message on `channel`: the sessions it reaches, one per
    /// matching subscription, in subscription order.
    pub fn publish(&self, channel: &str) -> (r: Vec<u64>)
        ensures
            r@ == deliveries(self.subs_view(), channel@),
    {
        let mut out: Vec<u64> = Vec::new();
        let mut i: usize = 0;
        while i < self.subs.len()
            invariant
                i <= self.subs.len(),
                out@ == deliveries(self.subs_view().take(i as int), channel@),
            decreases self.subs.len() - i,
        {
            let ghost pre = self.subs_view().take(i as int);
            let ghost cur = self.subs_view().take(i + 1);
            proof {
                assert(cur.drop_last() =~= pre);
                assert(cur.last() == self.subs_view()[i as int]);
                assert(self.subs_view()[i as int] == (self.subs@[i as int].0, self.subs@[i as int].1@));
            }
            if str_eq(self.subs[i].1.as_str(), channel) {
                out.push(self.subs[i].0);
                proof {
                    assert(out@ =~= deliveries(pre, channel@) + seq![cur.last().0]);
                }
            } else {
                proof {
                    assert(deliveries(cur, channel@) =~= deliveries(pre, channel@));
                }
            }
            i = i + 1;
        }
        proof {
            assert(self.subs_view().take(self.subs_view().len() as int) =~= self.subs_view());
        }
        out
    }

    /// Adds `tile_json` at `tile_id` for `dashboard_name` (or updates it when
    /// it already exists), with the `tile-id` member injected, and announces
    /// the write on the dashboard's channel. Succeeds exactly when the
    /// payload is one JSON object; returns the sessions the announcement
    /// reaches.
    pub fn upsert_tile(&mut self, dashboard_name: &str, tile_id: &str, tile_json: &str) -> (r:
        Result<Vec<u64>, String>)
        ensures
            r is Ok <==> is_json_object(tile_json@) && object_shaped(tile_json@),
            r matches Ok(sessions) ==> {
                &&& final(self).stored_tile(space_of(dashboard_name@, tile_id@)) == Some(
                    inject_tile_id(tile_json@, tile_id@),
                )
                &&& forall|space: Seq<char>|
                    space != space_of(dashboard_name@, tile_id@) ==> final(self).stored_tile(space)
                        == old(self).stored_tile(space)
                &&& sessions@ == deliveries(
                    old(self).subs_view(),
                    channel_of(old(self).prefix_view(), dashboard_name@),
                )
            },
            r matches Err(e) ==> e@ == payload_not_object_msg() && *final(self) == *old(self),
            final(self).subs_view() == old(self).subs_view(),
            final(self).prefix_view() == old(self).prefix_view(),
            final(self).dashboards_view() == old(self).dashboards_view(),
            forall|name: Seq<char>|
                final(self).dashboard_at(name) == old(self).dashboard_at(name),
    {
        let stored = match payload_with_tile_id(tile_json, tile_id) {
            None => {
                return Err("Payload is not an object".to_owned());
            },
            Some(s) => s,
        };
        let space = self.get_tile_space(dashboard_name, tile_id);
        let channel = get_dashboard_channel(self.prefix.as_str(), dashboard_name);
        let ghost old_tiles = self.tiles@;

        // Replace the first entry under this space, or append one.
        let mut i: usize = 0;
        let mut replaced = false;
        while i < self.tiles.len() && !replaced
            invariant
                i <= self.tiles.len(),
                self.subs == old(self).subs,
                self.prefix == old(self).prefix,
                self.dashboards == old(self).dashboards,
                self.tiles@.len() == old_tiles.len(),
                replaced ==> i - 1 < old_tiles.len(),
                space@ == space_of(dashboard_name@, tile_id@),
                !replaced ==> self.tiles@ == old_tiles,
                !replaced ==> forall|j: int| 0 <= j < i ==> old_tiles[j].0@ != space@,
                replaced ==> i >= 1 && self.tiles@ == old_tiles.update(
                    i - 1,
                    (old_tiles[i - 1].0, self.tiles@[i - 1].1),
                ) && self.tiles@[i - 1].0@ == space@ && self.tiles@[i - 1].1@ == stored@ && (
                forall|j: int| 0 <= j < i - 1 ==> old_tiles[j].0@ != space@),
            decreases self.tiles.len() - i,
        {
            if str_eq(self.tiles[i].0.as_str(), space.as_str()) {
                let entry_key = self.tiles.remove(i);
                self.tiles.insert(i, (entry_key.0, stored.clone()));
                proof {
                    assert(self.tiles@ =~= old_tiles.update(
                        i as int,
                        (old_tiles[i as int].0, self.tiles@[i as int].1),
                    ));
                }
                replaced = true;
            }
            i = i + 1;
        }
        if !replaced {
            self.tiles.push((space.clone(), stored));
        }
        proof {
            let key = space_of(dashboard_name@, tile_id@);
            let inj = inject_tile_id(tile_json@, tile_id@);
            if replaced {
                lemma_lookup_update(old_tiles, i - 1, self.tiles@[i - 1], key);
                assert forall|q: Seq<char>| q != key implies lookup(self.tiles@, q) == lookup(
                    old_tiles,
                    q,
                ) by {
                    lemma_lookup_update(old_tiles, i - 1, self.tiles@[i - 1], q);
                }
            } else {
                lemma_lookup_push(old_tiles, self.tiles@.last(), key);
                assert forall|q: Seq<char>| q != key implies lookup(self.tiles@, q) == lookup(
                    old_tiles,
                    q,
                ) by {
                    lemma_lookup_push(old_tiles, self.tiles@.last(), q);
                }
                assert(self.tiles@ =~= old_tiles.push(self.tiles@.last()));
            }
        }
        let sessions = self.publish(channel.as_str());
        Ok(sessions)
    }
}

/// Relies on natord's `compare`: the natural-order comparison of two strings
/// (whitespace skipped, runs of decimal digits compared by value), given back
/// as its sign.
#[verifier::external_body]
fn natord_compare(a: &str, b: &str) -> (r: i8)
    ensures
        -1 <= r <= 1,
        r as int == natural_cmp(a@, b@),
{
    match natord::compare(a, b) {
        std::cmp::Ordering::Less => -1,
        std::cmp::Ordering::Equal => 0,
        std::cmp::Ordering::Greater => 1,
    }
}

/// The sign of natord's natural-order comparison of two strings.
pub uninterp spec fn natural_cmp(a: Seq<char>, b: Seq<char>) -> int;

/// Sorted by dashboard name in natural order: each adjacent pair was placed
/// consistently with the comparison (for a total order the two disjuncts
/// coincide with "non-decreasing").
pub open spec fn natord_sorted(s: Seq<Dashboard>) -> bool {
    forall|i: int|
        0 <= i && i + 1 < s.len() ==> (natural_cmp(#[trigger] s[i].name@, s[i + 1].name@) <= 0
            || natural_cmp(s[i + 1].name@, s[i].name@) > 0)
}

impl Store {
    /// Returns the stored `Dashboard` saved under `dashboard_name`.
    pub fn get_dashboard(&self, dashboard_name: &str) -> (r: Option<Dashboard>)
        ensures
            match r {
                Some(d) => self.dashboard_at(dashboard_name@) == Some(d),
                None => self.dashboard_at(dashboard_name@) is None,
            },
    {
        proof {
            assert(self.dashboards@.skip(0) =~= self.dashboards@);
        }
        let mut i: usize = 0;
        while i < self.dashboards.len()
            invariant
                i <= self.dashboards.len(),
                lookup_dashboard(self.dashboards@, dashboard_name@) == lookup_dashboard(
                    self.dashboards@.skip(i as int),
                    dashboard_name@,
                ),
            decreases self.dashboards.len() - i,
        {
            proof {
                assert(self.dashboards@.skip(i as int)[0] == self.dashboards@[i as int]);
                assert(self.dashboards@.skip(i as int).drop_first() =~= self.dashboards@.skip(
                    i + 1,
                ));
            }
            if str_eq(self.dashboards[i].name.as_str(), dashboard_name) {
                return Some(self.dashboards[i].clone());
            }
            i = i + 1;
        }
        None
    }

    /// Inserts `dashboard` (or updates it when one of the same name already
    /// exists).
    pub fn upsert_dashboard(&mut self, dashboard: &Dashboard) -> (r: Result<(), String>)
        ensures
            r is Ok,
            final(self).dashboard_at(dashboard.name@) == Some(*dashboard),
            forall|name: Seq<char>|
                name != dashboard.name@ ==> final(self).dashboard_at(name) == old(
                    self,
                ).dashboard_at(name),
            final(self).prefix_view() == old(self).prefix_view(),
            final(self).subs_view() == old(self).subs_view(),
            forall|space: Seq<char>|
                final(self).stored_tile(space) == old(self).stored_tile(space),
            final(self).dashboards_view().to_multiset() =~= (match old(self).dashboard_at(
                dashboard.name@,
            ) {
                Some(prev) => old(self).dashboards_view().to_multiset().remove(prev).insert(
                    *dashboard,
                ),
                None => old(self).dashboards_view().to_multiset().insert(*dashboard),
            }),
    {
        broadcast use vstd::multiset::group_multiset_axioms;

        let ghost old_dashboards = self.dashboards@;
        let mut i: usize = 0;
        let mut replaced = false;
        while i < self.dashboards.len() && !replaced
            invariant
                i <= self.dashboards.len(),
                self.subs == old(self).subs,
                self.prefix == old(self).prefix,
                self.tiles == old(self).tiles,
                self.dashboards@.len() == old_dashboards.len(),
                replaced ==> i - 1 < old_dashboards.len(),
                !replaced ==> self.dashboards@ == old_dashboards,
                !replaced ==> forall|j: int|
                    0 <= j < i ==> old_dashboards[j].name@ != dashboard.name@,
                replaced ==> i >= 1 && self.dashboards@ == old_dashboards.update(
                    i - 1,
                    self.dashboards@[i - 1],
                ) && self.dashboards@[i - 1] == *dashboard && old_dashboards[i - 1].name@
                    == dashboard.name@ && (forall|j: int|
                    0 <= j < i - 1 ==> old_dashboards[j].name@ != dashboard.name@),
            decreases self.dashboards.len() - i,
        {
            if str_eq(self.dashboards[i].name.as_str(), dashboard.name.as_str()) {
                self.dashboards.remove(i);
                self.dashboards.insert(i, dashboard.clone());
                proof {
                    assert(self.dashboards@ =~= old_dashboards.update(
                        i as int,
                        self.dashboards@[i as int],
                    ));
                }
                replaced = true;
            }
            i = i + 1;
        }
        if !replaced {
            self.dashboards.push(dashboard.clone());
        }
        proof {
            if replaced {
                lemma_lookup_dashboard_update(old_dashboards, i - 1, *dashboard, dashboard.name@);
                assert forall|q: Seq<char>| q != dashboard.name@ implies lookup_dashboard(
                    self.dashboards@,
                    q,
                ) == lookup_dashboard(old_dashboards, q) by {
                    lemma_lookup_dashboard_update(old_dashboards, i - 1, *dashboard, q);
                }
                lemma_lookup_dashboard_first(old_dashboards, i - 1);
                let prev = old_dashboards[i - 1];
                assert(self.dashboards@ == old_dashboards.update(i - 1, *dashboard));
                vstd::seq_lib::to_multiset_update(old_dashboards, i - 1, *dashboard);
                assert(old_dashboards.contains(prev));
                vstd::seq_lib::to_multiset_contains(old_dashboards, prev);
                assert(old_dashboards.to_multiset().count(prev) > 0);
                assert(old_dashboards.to_multiset().insert(*dashboard).remove(prev)
                    =~= old_dashboards.to_multiset().remove(prev).insert(*dashboard));
            } else {
                lemma_lookup_dashboard_none(old_dashboards, dashboard.name@);
                lemma_lookup_dashboard_push(old_dashboards, *dashboard, dashboard.name@);
                assert forall|q: Seq<char>| q != dashboard.name@ implies lookup_dashboard(
                    self.dashboards@,
                    q,
                ) == lookup_dashboard(old_dashboards, q) by {
                    lemma_lookup_dashboard_push(old_dashboards, *dashboard, q);
                }
                assert(self.dashboards@ =~= old_dashboards.push(*dashboard));
                vstd::seq_lib::to_multiset_build(old_dashboards, *dashboard);
                assert(self.dashboards@.to_multiset() =~= old_dashboards.to_multiset().insert(
                    *dashboard,
                ));
            }
        }
        Ok(())
    }

    /// Saves `dashboard` under its name.
    ///
    /// Errs when a dashboard of that name already exists, leaving the store
    /// as it was.
    pub fn create_dashboard(&mut self, dashboard: &Dashboard) -> (r: Result<(), String>)
        ensures
            r is Err <==> old(self).dashboard_at(dashboard.name@) is Some,
            r matches Err(e) ==> e@ == dashboard_exists_msg(dashboard.name@) && *final(self)
                == *old(self),
            r is Ok ==> {
                &&& final(self).dashboard_at(dashboard.name@) == Some(*dashboard)
                &&& forall|name: Seq<char>|
                    name != dashboard.name@ ==> final(self).dashboard_at(name) == old(
                        self,
                    ).dashboard_at(name)
                &&& final(self).dashboards_view() == old(self).dashboards_view().push(*dashboard)
            },
            final(self).prefix_view() == old(self).prefix_view(),
            final(self).subs_view() == old(self).subs_view(),
            forall|space: Seq<char>|
                final(self).stored_tile(space) == old(self).stored_tile(space),
    {
        let existing = self.get_dashboard(dashboard.name.as_str());
        if existing.is_some() {
            let mut e = "Dashboard ".to_owned();
            e.append(dashboard.name.as_str());
            e.append(" already exists");
            proof {
                assert(e@ =~= dashboard_exists_msg(dashboard.name@));
            }
            return Err(e);
        }
        let ghost old_dashboards = self.dashboards@;
        self.dashboards.push(dashboard.clone());
        proof {
            lemma_lookup_dashboard_none(old_dashboards, dashboard.name@);
            lemma_lookup_dashboard_push(old_dashboards, *dashboard, dashboard.name@);
            assert forall|q: Seq<char>| q != dashboard.name@ implies lookup_dashboard(
                self.dashboards@,
                q,
            ) == lookup_dashboard(old_dashboards, q) by {
                lemma_lookup_dashboard_push(old_dashboards, *dashboard, q);
            }
            assert(self.dashboards@ =~= old_dashboards.push(*dashboard));
        }
        Ok(())
    }

    /// Returns the stored dashboards, sorted by name in natural order.
    pub fn get_dashboards(&self) -> (r: Vec<Dashboard>)
        ensures
            r@.to_multiset() == self.dashboards_view().to_multiset(),
            natord_sorted(r@),
    {
        let mut out: Vec<Dashboard> = Vec::new();
        proof {
            assert(out@ =~= self.dashboards@.take(0));
        }
        let mut k: usize = 0;
        while k < self.dashboards.len()
            invariant
                k <= self.dashboards.len(),
                natord_sorted(out@),
                out@.to_multiset() == self.dashboards@.take(k as int).to_multiset(),
            decreases self.dashboards.len() - k,
        {
            let d = self.dashboards[k].clone();
            let mut j = out.len();
            while j > 0 && natord_compare(out[j - 1].name.as_str(), d.name.as_str()) > 0
                invariant
                    j <= out.len(),
                    k < self.dashboards@.len(),
                    d == self.dashboards@[k as int],
                    natord_sorted(out@),
                    forall|t: int|
                        j <= t < out@.len() ==> natural_cmp(#[trigger] out@[t].name@, d.name@) > 0,
                decreases j,
            {
                j = j - 1;
            }
            let ghost pre = out@;
            out.insert(j, d);
            proof {
                assert(out@ =~= pre.insert(j as int, self.dashboards@[k as int]));
                vstd::seq_lib::to_multiset_insert(pre, j as int, self.dashboards@[k as int]);
                vstd::seq_lib::to_multiset_build(
                    self.dashboards@.take(k as int),
                    self.dashboards@[k as int],
                );
                assert forall|t: int| 0 <= t && t + 1 < out@.len() implies (natural_cmp(
                    #[trigger] out@[t].name@,
                    out@[t + 1].name@,
                ) <= 0 || natural_cmp(out@[t + 1].name@, out@[t].name@) > 0) by {
                    if t + 1 < j {
                        assert(out@[t] == pre[t] && out@[t + 1] == pre[t + 1]);
                    } else if t + 1 == j {
                        assert(out@[t] == pre[t] && out@[t + 1] == self.dashboards@[k as int]);
                    } else if t == j {
                        assert(out@[t] == self.dashboards@[k as int] && out@[t + 1] == pre[t]);
                    } else {
                        assert(out@[t] == pre[t - 1] && out@[t + 1] == pre[t]);
                    }
                }
                assert(self.dashboards@.take(k + 1).drop_last() =~= self.dashboards@.take(
                    k as int,
                ));
                assert(self.dashboards@.take(k + 1) =~= self.dashboards@.take(k as int).push(
                    self.dashboards@[k as int],
                ));
            }
            k = k + 1;
        }
        proof {
            assert(self.dashboards@.take(self.dashboards@.len() as int) =~= self.dashboards@);
        }
        out
    }
}

/// The message given back when a dashboard to be created already exists.
pub open spec fn dashboard_exists_msg(name: Seq<char>) -> Seq<char> {
    "Dashboard "@ + name + " already exists"@
}

proof fn lemma_lookup_dashboard_first(entries: Seq<Dashboard>, i: int)
    requires
        0 <= i < entries.len(),
        forall|j: int| 0 <= j < i ==> entries[j].name@ != entries[i].name@,
    ensures
        lookup_dashboard(entries, entries[i].name@) == Some(entries[i]),
    decreases i,
{
    if i == 0 {
    } else {
        lemma_lookup_dashboard_first(entries.drop_first(), i - 1);
        assert(entries.drop_first()[i - 1] == entries[i]);
    }
}

proof fn lemma_lookup_dashboard_update(entries: Seq<Dashboard>, i: int, e: Dashboard, q: Seq<char>)
    requires
        0 <= i < entries.len(),
        forall|j: int| 0 <= j < i ==> entries[j].name@ != e.name@,
        entries[i].name@ == e.name@,
    ensures
        lookup_dashboard(entries.update(i, e), e.name@) == Some(e),
        q != e.name@ ==> lookup_dashboard(entries.update(i, e), q) == lookup_dashboard(entries, q),
    decreases i,
{
    let u = entries.update(i, e);
    if i == 0 {
        assert(u[0] == e);
        if q != e.name@ {
            assert(u.drop_first() =~= entries.drop_first());
        }
    } else {
        assert(u[0] == entries[0]);
        assert(u.drop_first() =~= entries.drop_first().update(i - 1, e));
        lemma_lookup_dashboard_update(entries.drop_first(), i - 1, e, q);
        assert(entries.drop_first()[i - 1] == entries[i]);
    }
}

proof fn lemma_lookup_dashboard_none(entries: Seq<Dashboard>, q: Seq<char>)
    ensures
        (lookup_dashboard(entries, q) is None) <==> (forall|j: int|
            0 <= j < entries.len() ==> entries[j].name@ != q),
    decreases entries.len(),
{
    if entries.len() > 0 {
        lemma_lookup_dashboard_none(entries.drop_first(), q);
        assert forall|j: int| 0 <= j < entries.len() - 1 implies entries.drop_first()[j]
            == entries[j + 1] by {}
        if entries[0].name@ != q && (forall|j: int|
            0 <= j < entries.drop_first().len() ==> entries.drop_first()[j].name@ != q) {
            assert forall|j: int| 0 <= j < entries.len() implies entries[j].name@ != q by {
                if j > 0 {
                    assert(entries.drop_first()[j - 1] == entries[j]);
                }
            }
        }
    }
}

proof fn lemma_lookup_dashboard_push(entries: Seq<Dashboard>, e: Dashboard, q: Seq<char>)
    requires
        forall|j: int| 0 <= j < entries.len() ==> entries[j].name@ != e.name@,
    ensures
        lookup_dashboard(entries.push(e), e.name@) == Some(e),
        q != e.name@ ==> lookup_dashboard(entries.push(e), q) == lookup_dashboard(entries, q),
    decreases entries.len(),
{
    let u = entries.push(e);
    if entries.len() == 0 {
        assert(u[0] == e);
        if q != e.name@ {
            assert(u.drop_first() =~= Seq::<Dashboard>::empty());
            assert(lookup_dashboard(Seq::<Dashboard>::empty(), q) is None);
        }
    } else {
        assert(u[0] == entries[0]);
        assert(u.drop_first() =~= entries.drop_first().push(e));
        lemma_lookup_dashboard_push(entries.drop_first(), e, q);
    }
}

proof fn lemma_lookup_update(entries: Seq<(String, String)>, i: int, e: (String, String), q: Seq<
    char,
>)
    requires
        0 <= i < entries.len(),
        forall|j: int| 0 <= j < i ==> entries[j].0@ != e.0@,
        entries[i].0@ == e.0@,
    ensures
        lookup(entries.update(i, e), e.0@) == Some(e.1@),
        q != e.0@ ==> lookup(entries.update(i, e), q) == lookup(entries, q),
    decreases i,
{
    let u = entries.update(i, e);
    if i == 0 {
        assert(u[0] == e);
        if q != e.0@ {
            assert(u.drop_first() =~= entries.drop_first());
        }
    } else {
        assert(u[0] == entries[0]);
        assert(u.drop_first() =~= entries.drop_first().update(i - 1, e));
        lemma_lookup_update(entries.drop_first(), i - 1, e, q);
        assert(entries.drop_first()[i - 1] == entries[i]);
    }
}

proof fn lemma_lookup_push(entries: Seq<(String, String)>, e: (String, String), q: Seq<char>)
    requires
        forall|j: int| 0 <= j < entries.len() ==> entries[j].0@ != e.0@,
    ensures
        lookup(entries.push(e), e.0@) == Some(e.1@),
        q != e.0@ ==> lookup(entries.push(e), q) == lookup(entries, q),
    decreases entries.len(),
{
    let u = entries.push(e);
    if entries.len() == 0 {
        assert(u[0] == e);
        if q != e.0@ {
            assert(u.drop_first() =~= Seq::<(String, String)>::empty());
            assert(lookup(Seq::<(String, String)>::empty(), q) is None);
        }
    } else {
        assert(u[0] == entries[0]);
        assert(u.drop_first() =~= entries.drop_first().push(e));
        lemma_lookup_push(entries.drop_first(), e, q);
    }
}

} // verus!
