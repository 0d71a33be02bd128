//! Tile payload handling. A tile's payload is an opaque JSON object; before
//! it is persisted the store appends a `"tile-id"` member naming the tile, so
//! that every `tile` frame a viewer receives carries the id it was addressed
//! by. The payload is checked to be a JSON object through serde_json; the
//! member is spliced in by verified code, just before the object's closing
//! brace.

use vstd::prelude::*;

verus! {

use crate::codec::{escape_str, is_json_ws, skip_ws, is_json_ws_exec, skip_ws_exec,
    push_escaped_str};
use crate::text::{chars_of, string_of};

/// Whether the text is one JSON object: what serde_json's
/// `from_str::<Map<String, Value>>` accepts.
pub uninterp spec fn is_json_object(s: Seq<char>) -> bool;

/// Whether the text is one JSON value: what serde_json's `from_str::<Value>`
/// accepts.
pub uninterp spec fn is_json_text(s: Seq<char>) -> bool;

/// Relies on serde_json's `from_str::<Map<String, Value>>`: it succeeds
/// exactly on text that is one JSON object.
#[verifier::external_body]
pub(crate) fn check_json_object(s: &str) -> (r: bool)
    ensures
        r == is_json_object(s@),
{
    serde_json::from_str::<serde_json::Map<String, serde_json::Value>>(s).is_ok()
}

/// Relies on serde_json's `from_str::<Value>`: it succeeds exactly on text
/// that is one JSON value.
#[verifier::external_body]
pub(crate) fn check_json_text(s: &str) -> (r: bool)
    ensures
        r == is_json_text(s@),
{
    serde_json::from_str::<serde_json::Value>(s).is_ok()
}

/// The text with its trailing whitespace removed.
pub open spec fn trim_ws_end(s: Seq<char>) -> Seq<char>
    decreases s.len(),
{
    if s.len() > 0 && is_json_ws(s.last()) {
        trim_ws_end(s.drop_last())
    } else {
        s
    }
}

/// Whether the text has the outer shape of a JSON object: its first
/// non-whitespace character is `{`, and its last non-whitespace character is
/// a later `}`. Every JSON object has this shape; the splice below needs no
/// more.
pub open spec fn object_shaped(s: Seq<char>) -> bool {
    let open = s.len() - skip_ws(s).len();
    let t = trim_ws_end(s);
    &&& skip_ws(s).len() > 0
    &&& skip_ws(s)[0] == '{'
    &&& t.len() >= 1
    &&& t.last() == '}'
    &&& open < t.len() - 1
}

/// The member text appended to a payload: `"tile-id":"<id>"`, with the id
/// escaped as in any JSON string.
pub open spec fn tile_id_member(id: Seq<char>) -> Seq<char> {
    seq!['"', 't', 'i', 'l', 'e', '-', 'i', 'd', '"', ':', '"'] + escape_str(id) + seq!['"']
}

/// The payload with the `"tile-id"` member spliced in just before the
/// object's closing brace, after a comma when the object already has members.
pub open spec fn inject_tile_id(payload: Seq<char>, id: Seq<char>) -> Seq<char>
    recommends
        object_shaped(payload),
{
    let open = payload.len() - skip_ws(payload).len();
    let close = trim_ws_end(payload).len() - 1;
    let blank = forall|i: int| open < i < close ==> is_json_ws(payload[i]);
    payload.take(close) + (if blank {
        Seq::<char>::empty()
    } else {
        seq![',']
    }) + tile_id_member(id) + payload.skip(close)
}

proof fn lemma_trim_ws_end_prefix(s: Seq<char>)
    ensures
        trim_ws_end(s) == s.take(trim_ws_end(s).len() as int),
        trim_ws_end(s).len() <= s.len(),
    decreases s.len(),
{
    if s.len() > 0 && is_json_ws(s.last()) {
        lemma_trim_ws_end_prefix(s.drop_last());
        assert(s.drop_last() =~= s.take(s.len() - 1));
        assert(s.drop_last().take(trim_ws_end(s).len() as int) =~= s.take(
            trim_ws_end(s).len() as int,
        ));
    } else {
        assert(s.take(s.len() as int) =~= s);
    }
}

/// Returns the payload with `"tile-id": <tile_id>` appended to its members,
/// exactly when the payload is one JSON object; `None` otherwise.
pub fn payload_with_tile_id(payload: &str, tile_id: &str) -> (r: Option<String>)
    ensures
        r is Some <==> is_json_object(payload@) && object_shaped(payload@),
        r matches Some(out) ==> out@ == inject_tile_id(payload@, tile_id@),
{
    if !check_json_object(payload) {
        return None;
    }
    let v = chars_of(payload);
    let ghost s = payload@;

    // The first non-whitespace character must be `{`.
    let open = skip_ws_exec(&v, 0);
    proof {
        assert(v@.skip(0) =~= v@);
        assert(v@.skip(open as int).len() == v@.len() - open);
    }
    if open == v.len() {
        return None;
    }
    proof {
        assert(v@.skip(open as int)[0] == v@[open as int]);
    }
    if v[open] != '{' {
        return None;
    }

    // The last non-whitespace character must be a later `}`.
    let mut j: usize = v.len();
    while j > 0 && is_json_ws_exec(v[j - 1])
        invariant
            j <= v.len(),
            trim_ws_end(v@) == trim_ws_end(v@.take(j as int)),
        decreases j,
    {
        proof {
            assert(v@.take(j as int).last() == v@[j - 1]);
            assert(v@.take(j as int).drop_last() =~= v@.take(j - 1));
        }
        j = j - 1;
    }
    proof {
        if j > 0 {
            assert(v@.take(j as int).last() == v@[j - 1]);
        }
        assert(trim_ws_end(v@.take(j as int)) == v@.take(j as int));
        assert(trim_ws_end(v@).len() == j);
    }
    if j == 0 {
        return None;
    }
    let close = j - 1;
    proof {
        assert(trim_ws_end(v@).last() == v@[close as int]);
    }
    if v[close] != '}' {
        return None;
    }
    if !(open < close) {
        return None;
    }

    // Is there a member between the braces, or only whitespace?
    let mut blank = true;
    let mut k: usize = open + 1;
    while k < close && blank
        invariant
            open + 1 <= k <= close < v.len(),
            blank == (forall|i: int| open < i < k ==> is_json_ws(v@[i])),
        decreases close - k,
    {
        if !is_json_ws_exec(v[k]) {
            blank = false;
        }
        k = k + 1;
    }
    let ghost spec_blank = (forall|i: int|
        open < i < trim_ws_end(s).len() - 1 ==> is_json_ws(s[i]));
    proof {
        if blank {
            assert(spec_blank);
        } else {
            assert(!spec_blank);
        }
    }

    // Splice the member in before the closing brace.
    let mut out: Vec<char> = Vec::new();
    let mut i: usize = 0;
    while i < close
        invariant
            i <= close < v.len(),
            out@ =~= v@.take(i as int),
        decreases close - i,
    {
        out.push(v[i]);
        i = i + 1;
    }
    proof {
        assert(out@ =~= v@.take(close as int));
    }
    if !blank {
        out.push(',');
    }
    let ghost before_member = out@;
    out.push('"');
    out.push('t');
    out.push('i');
    out.push('l');
    out.push('e');
    out.push('-');
    out.push('i');
    out.push('d');
    out.push('"');
    out.push(':');
    out.push('"');
    let id_chars = chars_of(tile_id);
    push_escaped_str(&mut out, &id_chars);
    out.push('"');
    proof {
        assert(out@ =~= before_member + tile_id_member(tile_id@));
    }
    let mut i2: usize = close;
    while i2 < v.len()
        invariant
            close <= i2 <= v.len(),
            out@ =~= before_member + tile_id_member(tile_id@) + v@.skip(close as int).take(
                i2 - close,
            ),
        decreases v.len() - i2,
    {
        out.push(v[i2]);
        i2 = i2 + 1;
        proof {
            assert(out@ =~= before_member + tile_id_member(tile_id@) + v@.skip(
                close as int,
            ).take(i2 - close));
        }
    }
    proof {
        assert(v@.skip(close as int).take(v@.len() - close) =~= v@.skip(close as int));
        assert(out@ =~= inject_tile_id(payload@, tile_id@));
    }
    Some(string_of(&out))
}

} // verus!
