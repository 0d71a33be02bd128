//! Decisions of the HTTP layer: pagination of the dashboard list, the
//! dashboard pages' data, and the status and body answered to tile reads,
//! tile writes and dashboard creation. The surrounding process only extracts
//! the request's parts and renders what these functions decide.

use vstd::prelude::*;

verus! {

use vstd::string::StringExecFns;
use crate::codec::escape_str;
use crate::dashboard::Dashboard;
use crate::gateway::Lookup;
use crate::payload::{is_json_object, is_json_text, object_shaped, check_json_text,
    inject_tile_id};
use crate::store::{Store, space_of, dashboard_exists_msg};
use crate::text::{dec_rep, parse_u64_spec, parse_u64, u64_to_string, chars_of};

/// The greatest page number that shows an item: the item count divided by the
/// page size, rounded up.
pub open spec fn max_page_of(count: nat, per_page: nat) -> nat
    recommends
        per_page >= 1,
{
    if count % per_page > 0 {
        count / per_page + 1
    } else {
        count / per_page
    }
}

/// The items standing on a page: the page's slice of the item list, clipped
/// to the list's end.
pub open spec fn page_slice<T>(items: Seq<T>, page0: nat, per_page: nat) -> Seq<T> {
    let lo = if page0 * per_page > items.len() {
        items.len() as int
    } else {
        page0 * per_page as int
    };
    let hi = if page0 * per_page + per_page > items.len() {
        items.len() as int
    } else {
        page0 * per_page + per_page as int
    };
    items.subrange(lo, hi)
}

/// The message given back for a page number of zero.
pub open spec fn page_zero_msg() -> Seq<char> {
    "Page number must be 1 or greater"@
}

/// The message given back for a page number past the last page.
pub open spec fn page_out_of_range_msg(max_page: nat) -> Seq<char> {
    "Page doesn't exist. Page number should be at most: "@ + dec_rep(max_page)
}

/// Cuts one page out of a list of items: the page's items and the greatest
/// page number. Pages count from 1; a page number of zero, or one more than
/// one past the last page, is rejected with a message saying so.
pub fn get_page_items<T>(items: Vec<T>, page_number: u64, per_page: u64) -> (r: Result<
    (Vec<T>, usize),
    String,
>)
    requires
        per_page >= 1,
    ensures
        ({
            let count = items@.len() as nat;
            let maxp = max_page_of(count, per_page as nat);
            match r {
                Err(e) => {
                    if page_number == 0 {
                        e@ == page_zero_msg()
                    } else {
                        page_number - 1 > maxp && e@ == page_out_of_range_msg(maxp)
                    }
                },
                Ok(p) => {
                    &&& page_number >= 1
                    &&& page_number - 1 <= maxp
                    &&& p.1 == maxp
                    &&& p.0@ == page_slice(items@, (page_number - 1) as nat, per_page as nat)
                },
            }
        }),
{
    let mut items = items;
    if page_number < 1 {
        return Err("Page number must be 1 or greater".to_owned());
    }
    let page0: u64 = page_number - 1;
    let count: u64 = items.len() as u64;
    let max_page: u64 = if count % per_page > 0 {
        proof {
            assert(per_page != 1 ==> per_page >= 2);
            assert(count % 1 == 0) by (nonlinear_arith);
            assert(count / per_page < u64::MAX) by (nonlinear_arith)
                requires
                    per_page >= 2,
                    count <= u64::MAX,
            ;
        }
        count / per_page + 1
    } else {
        count / per_page
    };
    proof {
        assert(max_page <= count) by (nonlinear_arith)
            requires
                per_page >= 1,
                max_page == max_page_of(count as nat, per_page as nat),
        ;
    }
    if page0 > max_page {
        let mut e = "Page doesn't exist. Page number should be at most: ".to_owned();
        let m = u64_to_string(max_page);
        e.append(m.as_str());
        proof {
            assert(e@ =~= page_out_of_range_msg(max_page as nat));
        }
        return Err(e);
    }

    // The start of the page, clipped to the end of the list; the product
    // never overflows where it matters, because the page was just checked
    // against the last page.
    let start: u64 = if page0 == 0 {
        0
    } else if per_page > count / page0 {
        proof {
            let p0 = page0 as nat;
            let pp = per_page as nat;
            let c = count as nat;
            assert(p0 * pp > c) by (nonlinear_arith)
                requires
                    pp > c / p0,
                    p0 >= 1,
            ;
        }
        count
    } else {
        proof {
            let p0 = page0 as nat;
            let pp = per_page as nat;
            let c = count as nat;
            assert(p0 * pp <= c) by (nonlinear_arith)
                requires
                    pp <= c / p0,
                    p0 >= 1,
            ;
        }
        page0 * per_page
    };
    let end: u64 = if per_page > count - start {
        count
    } else {
        start + per_page
    };
    let ghost orig = items@;

    let mut skipped: u64 = 0;
    while skipped < start
        invariant
            skipped <= start <= end <= count == orig.len(),
            items@ == orig.skip(skipped as int),
        decreases start - skipped,
    {
        items.remove(0);
        proof {
            assert(orig.skip(skipped as int).remove(0) =~= orig.skip(skipped + 1));
        }
        skipped = skipped + 1;
    }
    let mut page: Vec<T> = Vec::new();
    let mut taken: u64 = 0;
    while taken < end - start
        invariant
            taken <= end - start,
            start <= end <= count == orig.len(),
            items@ == orig.skip(start + taken),
            page@ =~= orig.subrange(start as int, start + taken),
        decreases end - start - taken,
    {
        let item = items.remove(0);
        proof {
            assert(orig.skip(start + taken)[0] == orig[start + taken]);
            assert(orig.skip(start + taken).remove(0) =~= orig.skip(start + taken + 1));
        }
        page.push(item);
        taken = taken + 1;
    }
    proof {
        assert(page@ =~= page_slice(orig, (page_number - 1) as nat, per_page as nat));
    }
    Ok((page, max_page as usize))
}

/// The message given back for a page parameter that is not a number.
pub open spec fn bad_page_msg(v: Seq<char>) -> Seq<char> {
    "Page should be a positive number ("@ + v + ")"@
}

/// How the dashboard list page is answered: a complaint about the page
/// parameter, a complaint about the page number, or the page itself with its
/// pagination data.
pub enum ListPlan {
    BadPageParam(String),
    PageError(String),
    Page { dashboards: Vec<Dashboard>, page_current: u64, page_max: usize, show_pagination: bool },
}

/// Decides the dashboard list page: reads the page number from the request's
/// `page` parameter (1 when absent), cuts the dashboards into pages, and
/// hands back the page's rows with the pagination data the template shows.
pub fn dashboard_list_plan(page_param: Option<&String>, dashboards: Vec<Dashboard>, per_page: u64)
    -> (r: ListPlan)
    requires
        per_page >= 1,
    ensures
        ({
            let count = dashboards@.len() as nat;
            let maxp = max_page_of(count, per_page as nat);
            match page_param {
                Some(v) => {
                    match parse_u64_spec(v@) {
                        None => r matches ListPlan::BadPageParam(m) && m@ == bad_page_msg(v@),
                        Some(p) => list_plan_for_page(r, dashboards@, p as nat, per_page as nat),
                    }
                },
                None => list_plan_for_page(r, dashboards@, 1, per_page as nat),
            }
        }),
{
    let page_current: u64 = match page_param {
        Some(v) => {
            let cs = chars_of(v.as_str());
            match parse_u64(&cs) {
                None => {
                    let mut m = "Page should be a positive number (".to_owned();
                    m.append(v.as_str());
                    m.append(")");
                    proof {
                        assert(m@ =~= bad_page_msg(v@));
                    }
                    return ListPlan::BadPageParam(m);
                },
                Some(p) => p,
            }
        },
        None => 1,
    };
    match get_page_items(dashboards, page_current, per_page) {
        Err(e) => ListPlan::PageError(e),
        Ok((rows, page_max)) => ListPlan::Page {
            dashboards: rows,
            page_current,
            page_max,
            show_pagination: page_max > 1,
        },
    }
}

/// The page the list plan owes for a well-formed page number.
pub open spec fn list_plan_for_page(
    r: ListPlan,
    dashboards: Seq<Dashboard>,
    page: nat,
    per_page: nat,
) -> bool {
    let maxp = max_page_of(dashboards.len() as nat, per_page);
    match r {
        ListPlan::BadPageParam(_) => false,
        ListPlan::PageError(e) => {
            if page == 0 {
                e@ == page_zero_msg()
            } else {
                page - 1 > maxp && e@ == page_out_of_range_msg(maxp)
            }
        },
        ListPlan::Page { dashboards: rows, page_current, page_max, show_pagination } => {
            &&& page >= 1
            &&& page - 1 <= maxp
            &&& page_current == page
            &&& page_max == maxp
            &&& show_pagination == (maxp > 1)
            &&& rows@ == page_slice(dashboards, (page - 1) as nat, per_page)
        },
    }
}

/// The address a dashboard page's script connects to for live updates:
/// `ws://<host>` or, with SSL, `wss://<host>`.
pub open spec fn websocket_uri_of(ssl: bool, host: Seq<char>) -> Seq<char> {
    (if ssl {
        "wss"@
    } else {
        "ws"@
    }) + "://"@ + host
}

/// Writes the address a dashboard page's script connects to for live
/// updates.
pub fn websocket_uri(ssl: bool, host: &str) -> (r: String)
    ensures
        r@ == websocket_uri_of(ssl, host@),
{
    let mut s = if ssl {
        "wss".to_owned()
    } else {
        "ws".to_owned()
    };
    s.append("://");
    s.append(host);
    s
}

/// The body of a JSON status answer: one object with a `message` member.
pub open spec fn message_json(msg: Seq<char>) -> Seq<char> {
    seq!['{', '"', 'm', 'e', 's', 's', 'a', 'g', 'e', '"', ':', '"'] + escape_str(msg) + seq![
        '"',
        '}',
    ]
}

/// The `message` sent for a dashboard-creation answer: the details alone on
/// success, wrapped in a complaint otherwise.
pub open spec fn creation_msg(created: bool, details: Seq<char>) -> Seq<char> {
    if created {
        details
    } else {
        "Couldn't create dashboard ("@ + details + ")"@
    }
}

/// Writes the JSON body answered for a dashboard-creation request: a
/// `message` object holding the details, wrapped in a complaint unless the
/// dashboard was created.
pub fn message_response_json(created: bool, details: &str) -> (r: String)
    ensures
        r@ == message_json(creation_msg(created, details@)),
{
    let msg = if created {
        details.to_owned()
    } else {
        let mut m = "Couldn't create dashboard (".to_owned();
        m.append(details);
        m.append(")");
        proof {
            assert(m@ =~= creation_msg(false, details@));
        }
        m
    };
    let msg_chars = chars_of(msg.as_str());
    let mut out: Vec<char> = Vec::new();
    out.push('{');
    out.push('"');
    out.push('m');
    out.push('e');
    out.push('s');
    out.push('s');
    out.push('a');
    out.push('g');
    out.push('e');
    out.push('"');
    out.push(':');
    out.push('"');
    crate::codec::push_escaped_str(&mut out, &msg_chars);
    out.push('"');
    out.push('}');
    proof {
        assert(out@ =~= message_json(creation_msg(created, details@)));
    }
    crate::text::string_of(&out)
}

/// Decides a tile read: the stored payload with status 200, an empty 404 for
/// a tile never written, the failure's text with status 500.
pub fn tile_get_decision(outcome: Lookup) -> (r: (u16, String))
    ensures
        match outcome {
            Lookup::Found(p) => r.0 == 200 && r.1@ == p@,
            Lookup::Missing => r.0 == 404 && r.1@.len() == 0,
            Lookup::Failed(e) => r.0 == 500 && r.1@ == e@,
        },
{
    match outcome {
        Lookup::Found(p) => (200, p),
        Lookup::Missing => (404, String::new()),
        Lookup::Failed(e) => (500, e),
    }
}

/// The status and body a tile write is owed, given the request's token, the
/// dashboard looked up under the name, and the payload: in order, a missing
/// token, a missing dashboard, a dashboard without a token, an unmatched
/// token, and a payload that is not JSON each end the request; only a JSON
/// object is stored.
pub open spec fn tile_post_response(
    r: (u16, String),
    dashboard: Option<Dashboard>,
    request_token: Option<&String>,
    payload: Seq<char>,
) -> bool {
    match request_token {
        None => r.0 == 403 && r.1@ == "Token missing"@,
        Some(tok) => match dashboard {
            None => r.0 == 404 && r.1@ == "Dashboard doesn't exist"@,
            Some(d) => {
                if !d.has_api_token() {
                    r.0 == 500 && r.1@
                        == "Dashboard doens't have API Token, contact webpage administrators"@
                } else if tok@ != d.api_token_view() {
                    r.0 == 403 && r.1@ == "Tokens unmatched"@
                } else if !is_json_text(payload) {
                    r.0 == 400 && r.1@ == "Unable to unjson payload"@
                } else if !(is_json_object(payload) && object_shaped(payload)) {
                    r.0 == 500 && r.1@ == "We're working on fix"@
                } else {
                    r.0 == 201 && r.1@.len() == 0
                }
            },
        },
    }
}

/// Whether a tile write request is the authorized write of a JSON object:
/// only then does it change the store.
pub open spec fn tile_post_accepted(
    dashboard: Option<Dashboard>,
    request_token: Option<&String>,
    payload: Seq<char>,
) -> bool {
    match request_token {
        None => false,
        Some(tok) => match dashboard {
            None => false,
            Some(d) => d.has_api_token() && tok@ == d.api_token_view() && is_json_text(payload)
                && is_json_object(payload) && object_shaped(payload),
        },
    }
}

/// Decides a tile write and performs it: the write must carry the dashboard's
/// API token and a payload that is one JSON object; then the payload is
/// stored with the tile id injected, the write is announced on the
/// dashboard's channel, and an empty 201 is answered. Anything less leaves
/// the store untouched and answers the complaint.
pub fn tile_post(
    store: &mut Store,
    dashboard_name: &str,
    tile_id: &str,
    request_token: Option<&String>,
    payload: &str,
) -> (r: (u16, String))
    ensures
        tile_post_response(r, old(store).dashboard_at(dashboard_name@), request_token, payload@),
        tile_post_accepted(old(store).dashboard_at(dashboard_name@), request_token, payload@)
            ==> {
            &&& final(store).stored_tile(space_of(dashboard_name@, tile_id@)) == Some(
                inject_tile_id(payload@, tile_id@),
            )
            &&& forall|space: Seq<char>|
                space != space_of(dashboard_name@, tile_id@) ==> final(store).stored_tile(space)
                    == old(store).stored_tile(space)
            &&& final(store).subs_view() == old(store).subs_view()
            &&& final(store).prefix_view() == old(store).prefix_view()
            &&& final(store).dashboards_view() == old(store).dashboards_view()
        },
        !tile_post_accepted(old(store).dashboard_at(dashboard_name@), request_token, payload@)
            ==> *final(store) == *old(store),
{
    let token = match request_token {
        None => {
            return (403, "Token missing".to_owned());
        },
        Some(t) => t,
    };
    let dashboard = match store.get_dashboard(dashboard_name) {
        None => {
            return (404, "Dashboard doesn't exist".to_owned());
        },
        Some(d) => d,
    };
    let api_token = match dashboard.get_api_token() {
        None => {
            return (
                500,
                "Dashboard doens't have API Token, contact webpage administrators".to_owned(),
            );
        },
        Some(t) => t,
    };
    if !crate::text::str_eq(token.as_str(), api_token.as_str()) {
        return (403, "Tokens unmatched".to_owned());
    }
    if !check_json_text(payload) {
        return (400, "Unable to unjson payload".to_owned());
    }
    match store.upsert_tile(dashboard_name, tile_id, payload) {
        Err(_) => (500, "We're working on fix".to_owned()),
        Ok(_) => (201, String::new()),
    }
}

/// Decides a dashboard-creation request and performs it: the parsed body (or
/// nothing, when it was missing or unreadable) becomes a stored dashboard
/// with a freshly assigned API token, answered with status 201 and a message
/// naming the token; a missing body or an already-taken name is answered with
/// status 400 and the complaint.
pub fn dashboard_post(store: &mut Store, dashboard: Option<Dashboard>) -> (r: (u16, String))
    ensures
        match dashboard {
            None => r.0 == 400 && r.1@ == message_json(creation_msg(false, "Payload is missing"@))
                && *final(store) == *old(store),
            Some(d) => {
                if old(store).dashboard_at(d.name@) is Some {
                    r.0 == 400 && r.1@ == message_json(
                        creation_msg(false, dashboard_exists_msg(d.name@)),
                    ) && *final(store) == *old(store)
                } else {
                    &&& r.0 == 201
                    &&& match final(store).dashboard_at(d.name@) {
                        Some(nd) => {
                            &&& nd.name == d.name
                            &&& nd.owner_email == d.owner_email
                            &&& nd.layout == d.layout
                            &&& nd.has_api_token()
                            &&& r.1@ == message_json(created_msg(nd.api_token_view()))
                        },
                        None => false,
                    }
                    &&& forall|name: Seq<char>|
                        name != d.name@ ==> final(store).dashboard_at(name) == old(
                            store,
                        ).dashboard_at(name)
                }
            },
        },
        final(store).prefix_view() == old(store).prefix_view(),
        final(store).subs_view() == old(store).subs_view(),
        forall|space: Seq<char>| final(store).stored_tile(space) == old(store).stored_tile(space),
{
    let mut d = match dashboard {
        None => {
            return (400, message_response_json(false, "Payload is missing"));
        },
        Some(d) => d,
    };
    d.assign_api_token();
    let token = match d.get_api_token() {
        None => {
            return (500, message_response_json(false, "Can't generate token"));
        },
        Some(t) => t.clone(),
    };
    match store.create_dashboard(&d) {
        Err(e) => (400, message_response_json(false, e.as_str())),
        Ok(()) => {
            let mut m = "Dashboard is created! Save your personal token: ".to_owned();
            m.append(token.as_str());
            proof {
                assert(m@ =~= created_msg(d.api_token_view()));
            }
            (201, message_response_json(true, m.as_str()))
        },
    }
}

/// The `message` answered when a dashboard was created: it hands the caller
/// the assigned API token.
pub open spec fn created_msg(token: Seq<char>) -> Seq<char> {
    "Dashboard is created! Save your personal token: "@ + token
}

/// How a dashboard page is answered: a complaint that the dashboard does not
/// exist, or the layout's template with the data it shows.
pub enum ShowPlan {
    NotFound(String),
    Render { template: String, websocket_uri: String, dashboard_name: String },
}

/// Decides a dashboard page: the dashboard's layout names the template, and
/// the page carries the live-update address and the dashboard name.
pub fn dashboard_show_plan(store: &Store, dashboard_name: &str, ssl: bool, front_host: &str) -> (r:
    ShowPlan)
    ensures
        match store.dashboard_at(dashboard_name@) {
            None => (match r {
                ShowPlan::NotFound(m) => m@ == "Dashboard missing"@,
                ShowPlan::Render { .. } => false,
            }),
            Some(d) => (match r {
                ShowPlan::NotFound(_) => false,
                ShowPlan::Render { template, websocket_uri: uri, dashboard_name: name } => {
                    &&& template@ == "dashboards/"@ + d.layout@
                    &&& uri@ == websocket_uri_of(ssl, front_host@)
                    &&& name@ == d.name@
                },
            }),
        },
{
    match store.get_dashboard(dashboard_name) {
        None => ShowPlan::NotFound("Dashboard missing".to_owned()),
        Some(d) => {
            let mut template = "dashboards/".to_owned();
            template.append(d.layout.as_str());
            ShowPlan::Render {
                template,
                websocket_uri: websocket_uri(ssl, front_host),
                dashboard_name: d.name,
            }
        },
    }
}

} // verus!
