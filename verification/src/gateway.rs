//! The per-session gateway: it binds a freshly opened session to its
//! dashboard's channel, services client `update` requests one store
//! round-trip at a time, and turns broker change events into outbound `tile`
//! pushes. Every decision is a function from the session's state and the
//! inbound event to the frames that leave; the surrounding process only moves
//! bytes and blocks on the next event.

use vstd::prelude::*;

verus! {

use vstd::string::StringExecFns;
use crate::codec::{Message, decode_message, parse_envelope, parse_id_list, parse_tile_ids};
use crate::payload::{inject_tile_id, is_json_object, object_shaped};
use crate::store::{
    Store,
    channel_of,
    deliveries,
    get_dashboard_channel,
    payload_not_object_msg,
    space_of,
};
use crate::text::str_eq;

pub open spec fn kind_update() -> Seq<char> {
    "update"@
}

pub open spec fn kind_tile() -> Seq<char> {
    "tile"@
}

pub open spec fn kind_error() -> Seq<char> {
    "error"@
}

/// An `error` frame carrying a diagnostic.
pub fn error_message(text: String) -> (m: Message)
    ensures
        m.kind@ == kind_error(),
        m.text@ == text@,
{
    Message { kind: "error".to_owned(), text }
}

/// A `tile` frame carrying a stored payload.
pub fn tile_message(payload: String) -> (m: Message)
    ensures
        m.kind@ == kind_tile(),
        m.text@ == payload@,
{
    Message { kind: "tile".to_owned(), text: payload }
}

/// The resource path without its leading path separators.
pub open spec fn trim_start_slashes(s: Seq<char>) -> Seq<char>
    decreases s.len(),
{
    if s.len() > 0 && s[0] == '/' {
        trim_start_slashes(s.drop_first())
    } else {
        s
    }
}

/// The resource path without its trailing path separators.
pub open spec fn trim_end_slashes(s: Seq<char>) -> Seq<char>
    decreases s.len(),
{
    if s.len() > 0 && s.last() == '/' {
        trim_end_slashes(s.drop_last())
    } else {
        s
    }
}

/// The dashboard name a handshake's resource path denotes: the path with
/// leading and trailing separators stripped; no further structure is read.
pub open spec fn trimmed_resource(s: Seq<char>) -> Seq<char> {
    trim_end_slashes(trim_start_slashes(s))
}

/// Derives the dashboard name from the requested resource path.
pub fn dashboard_name_from_resource(resource: &str) -> (r: String)
    ensures
        r@ == trimmed_resource(resource@),
{
    let v = crate::text::chars_of(resource);
    proof {
        assert(v@.skip(0) =~= v@);
    }
    let mut i: usize = 0;
    while i < v.len() && v[i] == '/'
        invariant
            i <= v.len(),
            trim_start_slashes(v@) == trim_start_slashes(v@.skip(i as int)),
        decreases v.len() - i,
    {
        proof {
            assert(v@.skip(i as int)[0] == v@[i as int]);
            assert(v@.skip(i as int).drop_first() =~= v@.skip(i + 1));
        }
        i = i + 1;
    }
    proof {
        if i < v.len() {
            assert(v@.skip(i as int)[0] == v@[i as int]);
        }
        assert(trim_start_slashes(v@.skip(i as int)) == v@.skip(i as int));
    }
    let ghost suffix = v@.skip(i as int);
    proof {
        assert(suffix.take(v@.len() - i) =~= suffix);
    }
    let mut j: usize = v.len();
    while j > i && v[j - 1] == '/'
        invariant
            i <= j <= v.len(),
            suffix == v@.skip(i as int),
            trim_end_slashes(suffix) == trim_end_slashes(suffix.take(j - i)),
        decreases j,
    {
        proof {
            assert(suffix.take(j - i).last() == v@[j - 1]);
            assert(suffix.take(j - i).drop_last() =~= suffix.take(j - 1 - i));
        }
        j = j - 1;
    }
    proof {
        if j > i {
            assert(suffix.take(j - i).last() == v@[j - 1]);
        }
        assert(trim_end_slashes(suffix.take(j - i)) == suffix.take(j - i));
    }
    let mut out: Vec<char> = Vec::new();
    let mut k: usize = i;
    while k < j
        invariant
            i <= k <= j <= v.len(),
            out@ =~= v@.skip(i as int).take(k - i),
        decreases j - k,
    {
        out.push(v[k]);
        k = k + 1;
    }
    proof {
        assert(out@ =~= trimmed_resource(resource@));
    }
    crate::text::string_of(&out)
}

/// What the handler does when a session opens: reject it with one `error`
/// frame and no listener, or spawn the session's one listener, subscribed to
/// the given channel.
pub enum OpenPlan {
    Reject(Message),
    Subscribe(String),
}

/// The error text sent when a session opens without a usable dashboard name.
pub open spec fn no_dashboard_msg() -> Seq<char> {
    "Can't find dashboard name"@
}

/// Whether the handshake produced no usable dashboard name. An empty name is
/// treated as missing: it would otherwise silently bind the session to the
/// bare-prefix channel, so it is rejected explicitly.
pub open spec fn name_missing(dashboard_name: Option<&String>) -> bool {
    match dashboard_name {
        None => true,
        Some(n) => n@.len() == 0,
    }
}

/// Decides `on_open`: a session without a usable dashboard name gets exactly
/// one `error` frame and no listener; any other session gets exactly one
/// listener, bound to `channel_for(dashboard_name)`.
pub fn on_open_plan(dashboard_name: Option<&String>, prefix: &str) -> (r: OpenPlan)
    ensures
        r is Reject <==> name_missing(dashboard_name),
        r matches OpenPlan::Reject(m) ==> m.kind@ == kind_error() && m.text@ == no_dashboard_msg(),
        r matches OpenPlan::Subscribe(ch) ==> (match dashboard_name {
            Some(n) => ch@ == channel_of(prefix@, n@),
            None => false,
        }),
{
    match dashboard_name {
        None => OpenPlan::Reject(error_message("Can't find dashboard name".to_owned())),
        Some(name) => {
            if name.as_str().is_empty() {
                OpenPlan::Reject(error_message("Can't find dashboard name".to_owned()))
            } else {
                OpenPlan::Subscribe(get_dashboard_channel(prefix, name.as_str()))
            }
        },
    }
}

/// What a tile lookup came back with: the stored payload, no stored payload,
/// or a store failure with its diagnostic.
pub enum Lookup {
    Found(String),
    Missing,
    Failed(String),
}

/// The error text the update path sends for a tile id with no stored payload.
pub open spec fn missing_tile_msg() -> Seq<char> {
    "FAILED tile data doesn't exist"@
}

/// The error text the update path sends when the store fails.
pub open spec fn lookup_failed_msg(tile_id: Seq<char>, detail: Seq<char>) -> Seq<char> {
    "FAILED getting value for "@ + tile_id + " ("@ + detail + ")"@
}

/// Maps one tile lookup outcome to the one frame the update path sends for
/// it: the stored payload as a `tile` frame on a hit, an `error` frame on a
/// miss or a store failure.
pub fn frame_for_lookup(tile_id: &str, outcome: Lookup) -> (m: Message)
    ensures
        match outcome {
            Lookup::Found(p) => m.kind@ == kind_tile() && m.text@ == p@,
            Lookup::Missing => m.kind@ == kind_error() && m.text@ == missing_tile_msg(),
            Lookup::Failed(e) => m.kind@ == kind_error() && m.text@ == lookup_failed_msg(
                tile_id@,
                e@,
            ),
        },
{
    match outcome {
        Lookup::Found(p) => tile_message(p),
        Lookup::Missing => error_message("FAILED tile data doesn't exist".to_owned()),
        Lookup::Failed(e) => {
            let mut t = "FAILED getting value for ".to_owned();
            t.append(tile_id);
            t.append(" (");
            t.append(e.as_str());
            t.append(")");
            proof {
                assert(t@ =~= lookup_failed_msg(tile_id@, e@));
            }
            error_message(t)
        },
    }
}

/// The error text the listener sends for a published tile id with no stored
/// payload.
pub open spec fn listener_missing_msg(tile_id: Seq<char>) -> Seq<char> {
    "Tile doesn't exists: "@ + tile_id
}

/// The error text the listener sends when the store fails.
pub open spec fn listener_store_failed_msg() -> Seq<char> {
    "Can't get tile data"@
}

/// Maps one broker event's lookup outcome to the one frame the listener
/// writes for it: `tile` on a hit, `error` on a miss or a store failure.
/// Every outcome is non-fatal: the listener goes back to its blocking
/// receive.
pub fn listener_frame(tile_id: &str, outcome: Lookup) -> (m: Message)
    ensures
        match outcome {
            Lookup::Found(p) => m.kind@ == kind_tile() && m.text@ == p@,
            Lookup::Missing => m.kind@ == kind_error() && m.text@ == listener_missing_msg(
                tile_id@,
            ),
            Lookup::Failed(e) => m.kind@ == kind_error() && m.text@
                == listener_store_failed_msg(),
        },
{
    match outcome {
        Lookup::Found(p) => tile_message(p),
        Lookup::Missing => {
            let mut t = "Tile doesn't exists: ".to_owned();
            t.append(tile_id);
            proof {
                assert(t@ =~= listener_missing_msg(tile_id@));
            }
            error_message(t)
        },
        Lookup::Failed(_) => error_message("Can't get tile data".to_owned()),
    }
}

/// One round of the listener against the model store: a tile id arrives on
/// the session's channel, the tile is loaded, and the outcome becomes exactly
/// one frame.
pub fn listener_on_event(store: &Store, dashboard_name: &str, tile_id: &str) -> (m: Message)
    ensures
        match store.stored_tile(space_of(dashboard_name@, tile_id@)) {
            Some(p) => m.kind@ == kind_tile() && m.text@ == p,
            None => m.kind@ == kind_error() && m.text@ == listener_missing_msg(tile_id@),
        },
{
    match store.get_tile(dashboard_name, tile_id) {
        Some(json) => tile_message(json),
        None => listener_frame(tile_id, Lookup::Missing),
    }
}

/// The one frame the update path owes for a tile id: the stored payload as a
/// `tile` frame when the store holds one, the miss diagnostic as an `error`
/// frame when it does not.
pub open spec fn is_update_frame(
    m: Message,
    store: Store,
    dashboard_name: Seq<char>,
    tile_id: Seq<char>,
) -> bool {
    match store.stored_tile(space_of(dashboard_name, tile_id)) {
        Some(p) => m.kind@ == kind_tile() && m.text@ == p,
        None => m.kind@ == kind_error() && m.text@ == missing_tile_msg(),
    }
}

/// Services an `update` request against the model store: one synchronous
/// lookup per requested id, and exactly one frame per id, in request order,
/// each independently `tile` or `error` by that id's outcome.
pub fn publish_tiles(store: &Store, dashboard_name: &str, tile_ids: &Vec<String>) -> (frames: Vec<
    Message,
>)
    ensures
        frames@.len() == tile_ids@.len(),
        forall|i: int|
            0 <= i < frames@.len() ==> is_update_frame(
                #[trigger] frames@[i],
                *store,
                dashboard_name@,
                tile_ids@[i]@,
            ),
{
    let mut frames: Vec<Message> = Vec::new();
    let mut i: usize = 0;
    while i < tile_ids.len()
        invariant
            i <= tile_ids.len(),
            frames@.len() == i,
            forall|j: int|
                0 <= j < i ==> is_update_frame(
                    #[trigger] frames@[j],
                    *store,
                    dashboard_name@,
                    tile_ids@[j]@,
                ),
        decreases tile_ids.len() - i,
    {
        let m = match store.get_tile(dashboard_name, tile_ids[i].as_str()) {
            Some(json) => tile_message(json),
            None => frame_for_lookup(tile_ids[i].as_str(), Lookup::Missing),
        };
        frames.push(m);
        i = i + 1;
    }
    frames
}

/// The error text sent back for an inbound frame that is not a valid
/// envelope.
pub open spec fn parse_error_msg(raw: Seq<char>) -> Seq<char> {
    "FAILED unjsoning: "@ + raw
}

/// The error text sent back for an `update` whose `text` is not a JSON array
/// of strings.
pub open spec fn update_parse_error_msg(text: Seq<char>) -> Seq<char> {
    "FAILED unjsoning: '"@ + text + "'"@
}

/// The error text sent back for an `update` on a session with no dashboard
/// name.
pub open spec fn no_name_update_msg() -> Seq<char> {
    "Can't publish (Can't find Dashboard name)"@
}

/// The error text sent back for a valid envelope with an unrecognized kind;
/// it names the offending kind.
pub open spec fn unknown_kind_msg(kind: Seq<char>) -> Seq<char> {
    "Unknown message kind: ("@ + kind + ")"@
}

/// Decides one inbound client frame without touching the store: the ordered
/// tile ids an `update` asks to be looked up, one store round-trip at a time,
/// or the one `error` frame owed instead. A malformed envelope, an unparsable
/// id list, a missing dashboard name and an unrecognized kind each yield
/// exactly one `error` frame, and none of them closes the session.
pub fn handle_client_frame_plan(dashboard_name: Option<&String>, raw: &str) -> (r: Result<
    Vec<String>,
    Message,
>)
    ensures
        match parse_envelope(raw@) {
            None => r matches Err(m) && m.kind@ == kind_error() && m.text@ == parse_error_msg(
                raw@,
            ),
            Some(kt) => {
                if kt.0 == kind_update() {
                    match parse_id_list(kt.1) {
                        None => r matches Err(m) && m.kind@ == kind_error() && m.text@
                            == update_parse_error_msg(kt.1),
                        Some(ids) => {
                            match dashboard_name {
                                None => r matches Err(m) && m.kind@ == kind_error() && m.text@
                                    == no_name_update_msg(),
                                Some(name) => r matches Ok(v) && v.deep_view() == ids,
                            }
                        },
                    }
                } else {
                    r matches Err(m) && m.kind@ == kind_error() && m.text@ == unknown_kind_msg(
                        kt.0,
                    )
                }
            },
        },
{
    let msg = match decode_message(raw) {
        None => {
            let mut t = "FAILED unjsoning: ".to_owned();
            t.append(raw);
            proof {
                assert(t@ =~= parse_error_msg(raw@));
            }
            return Err(error_message(t));
        },
        Some(m) => m,
    };
    if str_eq(msg.kind.as_str(), "update") {
        let ids = match parse_tile_ids(msg.text.as_str()) {
            None => {
                let mut t = "FAILED unjsoning: '".to_owned();
                t.append(msg.text.as_str());
                t.append("'");
                proof {
                    assert(t@ =~= update_parse_error_msg(msg.text@));
                }
                return Err(error_message(t));
            },
            Some(ids) => ids,
        };
        match dashboard_name {
            None => Err(error_message("Can't publish (Can't find Dashboard name)".to_owned())),
            Some(_) => Ok(ids),
        }
    } else {
        let mut t = "Unknown message kind: (".to_owned();
        t.append(msg.kind.as_str());
        t.append(")");
        proof {
            assert(t@ =~= unknown_kind_msg(msg.kind@));
        }
        Err(error_message(t))
    }
}

/// Handles one inbound client frame against the model store: decodes it and
/// services it, returning every outbound frame, in order.
///
/// A malformed envelope, an unparsable id list, a missing dashboard name and
/// an unrecognized kind each yield exactly one `error` frame; a well-formed
/// `update` yields exactly one frame per named id, in request order. No
/// inbound frame closes the session: the handler only ever answers.
pub fn handle_client_frame(store: &Store, dashboard_name: Option<&String>, raw: &str) -> (frames:
    Vec<Message>)
    ensures
        match parse_envelope(raw@) {
            None => frames@.len() == 1 && frames@[0].kind@ == kind_error() && frames@[0].text@
                == parse_error_msg(raw@),
            Some(kt) => {
                if kt.0 == kind_update() {
                    match parse_id_list(kt.1) {
                        None => frames@.len() == 1 && frames@[0].kind@ == kind_error()
                            && frames@[0].text@ == update_parse_error_msg(kt.1),
                        Some(ids) => {
                            match dashboard_name {
                                None => frames@.len() == 1 && frames@[0].kind@ == kind_error()
                                    && frames@[0].text@ == no_name_update_msg(),
                                Some(name) => frames@.len() == ids.len() && (forall|i: int|
                                    0 <= i < frames@.len() ==> is_update_frame(
                                        #[trigger] frames@[i],
                                        *store,
                                        name@,
                                        ids[i],
                                    )),
                            }
                        },
                    }
                } else {
                    frames@.len() == 1 && frames@[0].kind@ == kind_error() && frames@[0].text@
                        == unknown_kind_msg(kt.0)
                }
            },
        },
{
    match handle_client_frame_plan(dashboard_name, raw) {
        Err(m) => {
            let mut frames: Vec<Message> = Vec::new();
            frames.push(m);
            frames
        },
        Ok(ids) => {
            let name = match dashboard_name {
                None => {
                    proof {
                        assert(false);
                    }
                    let frames: Vec<Message> = Vec::new();
                    return frames;
                },
                Some(name) => name,
            };
            let frames = publish_tiles(store, name.as_str(), &ids);
            proof {
                assert(ids.deep_view().len() == ids@.len());
                assert forall|i: int| 0 <= i < ids@.len() implies ids.deep_view()[i]
                    == ids@[i]@ by {}
            }
            frames
        },
    }
}

/// Writes a tile and fans the announcement out, as one round of the whole
/// pipeline: the store write injects the tile id and announces the write on
/// the dashboard's channel; every session the announcement reaches runs one
/// listener round and receives exactly one frame.
pub fn upsert_and_notify(
    store: &mut Store,
    dashboard_name: &str,
    tile_id: &str,
    tile_json: &str,
) -> (r: Result<Vec<(u64, Message)>, String>)
    ensures
        r is Ok <==> is_json_object(tile_json@) && object_shaped(tile_json@),
        r matches Err(e) ==> e@ == payload_not_object_msg() && *final(store) == *old(store),
        r matches Ok(out) ==> {
            let sessions = deliveries(
                old(store).subs_view(),
                channel_of(old(store).prefix_view(), dashboard_name@),
            );
            let stored = inject_tile_id(tile_json@, tile_id@);
            &&& final(store).stored_tile(space_of(dashboard_name@, tile_id@)) == Some(stored)
            &&& forall|space: Seq<char>|
                space != space_of(dashboard_name@, tile_id@) ==> final(store).stored_tile(space)
                    == old(store).stored_tile(space)
            &&& out@.len() == sessions.len()
            &&& forall|i: int|
                0 <= i < out@.len() ==> (#[trigger] out@[i]).0 == sessions[i] && out@[i].1.kind@
                    == kind_tile() && out@[i].1.text@ == stored
        },
        final(store).subs_view() == old(store).subs_view(),
        final(store).prefix_view() == old(store).prefix_view(),
        final(store).dashboards_view() == old(store).dashboards_view(),
{
    let sessions = match store.upsert_tile(dashboard_name, tile_id, tile_json) {
        Err(e) => {
            return Err(e);
        },
        Ok(s) => s,
    };
    let mut out: Vec<(u64, Message)> = Vec::new();
    let mut i: usize = 0;
    while i < sessions.len()
        invariant
            i <= sessions.len(),
            out@.len() == i,
            store.stored_tile(space_of(dashboard_name@, tile_id@)) == Some(
                inject_tile_id(tile_json@, tile_id@),
            ),
            forall|j: int|
                0 <= j < i ==> (#[trigger] out@[j]).0 == sessions@[j] && out@[j].1.kind@
                    == kind_tile() && out@[j].1.text@ == inject_tile_id(tile_json@, tile_id@),
        decreases sessions.len() - i,
    {
        let m = listener_on_event(store, dashboard_name, tile_id);
        out.push((sessions[i], m));
        i = i + 1;
    }
    Ok(out)
}

/// What a publish on a channel delivers: exactly the sessions of the
/// subscriptions bound to that channel, one delivery each, in subscription
/// order. Together with `upsert_and_notify` this says that a tile write
/// reaches every session subscribed to the dashboard, each with one `tile`
/// frame holding the stored payload.
/// A publish on a dashboard's channel reaches exactly that dashboard's
/// subscribers: the delivery list is the matching subscriptions' sessions, in
/// order, and no other dashboard's channel is the same, so a session
/// subscribed elsewhere is never among them.
pub proof fn lemma_publish_reaches_exactly_subscribers(
    subs: Seq<(u64, Seq<char>)>,
    prefix: Seq<char>,
    dashboard_name: Seq<char>,
    other_name: Seq<char>,
)
    requires
        other_name != dashboard_name,
    ensures
        deliveries(subs, channel_of(prefix, dashboard_name)) == subs.filter(
            |e: (u64, Seq<char>)| e.1 == channel_of(prefix, dashboard_name),
        ).map_values(|e: (u64, Seq<char>)| e.0),
        channel_of(prefix, other_name) != channel_of(prefix, dashboard_name),
{
    lemma_deliveries_are_matching_subs(subs, channel_of(prefix, dashboard_name));
    if channel_of(prefix, other_name) == channel_of(prefix, dashboard_name) {
        crate::store::lemma_channel_collision_free(prefix, other_name, dashboard_name);
    }
}

pub proof fn lemma_deliveries_are_matching_subs(subs: Seq<(u64, Seq<char>)>, channel: Seq<char>)
    ensures
        deliveries(subs, channel) == subs.filter(|e: (u64, Seq<char>)| e.1 == channel).map_values(
            |e: (u64, Seq<char>)| e.0,
        ),
    decreases subs.len(),
{
    reveal(Seq::filter);
    let pred = |e: (u64, Seq<char>)| e.1 == channel;
    let proj = |e: (u64, Seq<char>)| e.0;
    if subs.len() == 0 {
        assert(subs.filter(pred).map_values(proj) =~= Seq::<u64>::empty());
    } else {
        lemma_deliveries_are_matching_subs(subs.drop_last(), channel);
        let fl = subs.drop_last().filter(pred);
        if pred(subs.last()) {
            assert(subs.filter(pred) == fl.push(subs.last()));
            assert(fl.push(subs.last()).map_values(proj) =~= fl.map_values(proj).push(
                subs.last().0,
            ));
            assert(deliveries(subs, channel) =~= fl.map_values(proj).push(subs.last().0));
        } else {
            assert(subs.filter(pred) == fl);
            assert(deliveries(subs, channel) =~= fl.map_values(proj));
        }
    }
}

} // verus!
