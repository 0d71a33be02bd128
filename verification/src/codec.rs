//! The message codec: the wire envelope is a JSON object with exactly two
//! string fields, `kind` and `text`. `encode_message` writes it; and
//! `decode_message` reads it back, accepting the full JSON string syntax
//! (escapes included) and rejecting everything that is not such an envelope.

use vstd::prelude::*;

verus! {

use crate::text::string_of;

/// One wire frame: a `kind` that says how to read `text`.
///
/// For `kind == "update"` the text is a JSON array of tile ids (client to
/// server); for `kind == "tile"` it is a tile's stored JSON payload; for
/// `kind == "error"` it is a human-readable diagnostic (both server to
/// client).
#[derive(Debug)]
pub struct Message {
    pub kind: String,
    pub text: String,
}

/// The character for a hexadecimal digit (lower case).
pub open spec fn hex_char(d: nat) -> char {
    if d < 10 {
        crate::text::digit_char(d)
    } else if d == 10 {
        'a'
    } else if d == 11 {
        'b'
    } else if d == 12 {
        'c'
    } else if d == 13 {
        'd'
    } else if d == 14 {
        'e'
    } else {
        'f'
    }
}

/// How one character is written inside a JSON string: quote and backslash get
/// a two-character escape, control characters get their short escape or a
/// `\u00XX` escape, everything else stands for itself.
pub open spec fn escape_char(c: char) -> Seq<char> {
    if c == '"' {
        seq!['\\', '"']
    } else if c == '\\' {
        seq!['\\', '\\']
    } else if c as u32 == 8 {
        seq!['\\', 'b']
    } else if c as u32 == 9 {
        seq!['\\', 't']
    } else if c as u32 == 10 {
        seq!['\\', 'n']
    } else if c as u32 == 12 {
        seq!['\\', 'f']
    } else if c as u32 == 13 {
        seq!['\\', 'r']
    } else if (c as u32) < 32 {
        seq!['\\', 'u', '0', '0', hex_char((c as u32 / 16) as nat), hex_char((c as u32 % 16) as nat)]
    } else {
        seq![c]
    }
}

/// A whole character sequence written inside a JSON string.
pub open spec fn escape_str(s: Seq<char>) -> Seq<char>
    decreases s.len(),
{
    if s.len() == 0 {
        Seq::empty()
    } else {
        escape_char(s[0]) + escape_str(s.drop_first())
    }
}

pub open spec fn envelope_prefix() -> Seq<char> {
    seq!['{', '"', 'k', 'i', 'n', 'd', '"', ':', '"']
}

pub open spec fn envelope_mid() -> Seq<char> {
    seq!['"', ',', '"', 't', 'e', 'x', 't', '"', ':', '"']
}

pub open spec fn envelope_suffix() -> Seq<char> {
    seq!['"', '}']
}

/// The exact text `encode_message` produces for a message with the given
/// `kind` and `text`.
pub open spec fn spec_encode_message(kind: Seq<char>, text: Seq<char>) -> Seq<char> {
    envelope_prefix() + escape_str(kind) + envelope_mid() + escape_str(text) + envelope_suffix()
}

fn hex_char_exec(d: u32) -> (c: char)
    requires
        d < 16,
    ensures
        c == hex_char(d as nat),
{
    if d < 10 {
        crate::text::digit_char_exec_u32(d)
    } else if d == 10 {
        'a'
    } else if d == 11 {
        'b'
    } else if d == 12 {
        'c'
    } else if d == 13 {
        'd'
    } else if d == 14 {
        'e'
    } else {
        'f'
    }
}

fn push_escaped(out: &mut Vec<char>, c: char)
    ensures
        final(out)@ == old(out)@ + escape_char(c),
{
    let v = c as u32;
    if c == '"' {
        out.push('\\');
        out.push('"');
    } else if c == '\\' {
        out.push('\\');
        out.push('\\');
    } else if v == 8 {
        out.push('\\');
        out.push('b');
    } else if v == 9 {
        out.push('\\');
        out.push('t');
    } else if v == 10 {
        out.push('\\');
        out.push('n');
    } else if v == 12 {
        out.push('\\');
        out.push('f');
    } else if v == 13 {
        out.push('\\');
        out.push('r');
    } else if v < 32 {
        out.push('\\');
        out.push('u');
        out.push('0');
        out.push('0');
        out.push(hex_char_exec(v / 16));
        out.push(hex_char_exec(v % 16));
    } else {
        out.push(c);
    }
    proof {
        assert(out@ =~= old(out)@ + escape_char(c));
    }
}

proof fn lemma_escape_str_push(s: Seq<char>, c: char)
    ensures
        escape_str(s.push(c)) == escape_str(s) + escape_char(c),
    decreases s.len(),
{
    if s.len() == 0 {
        assert(s.push(c)[0] == c);
        assert(s.push(c).drop_first() =~= Seq::<char>::empty());
        assert(escape_str(Seq::<char>::empty()) == Seq::<char>::empty());
        assert(escape_str(s.push(c)) == escape_char(c) + Seq::<char>::empty());
        assert(escape_char(c) + Seq::<char>::empty() =~= escape_char(c));
        assert(escape_str(s) + escape_char(c) =~= escape_char(c));
    } else {
        assert(s.push(c)[0] == s[0]);
        assert(s.push(c).drop_first() =~= s.drop_first().push(c));
        lemma_escape_str_push(s.drop_first(), c);
        assert(escape_str(s.push(c)) == escape_char(s[0]) + (escape_str(s.drop_first())
            + escape_char(c)));
        assert(escape_char(s[0]) + (escape_str(s.drop_first()) + escape_char(c)) =~= (escape_char(
            s[0],
        ) + escape_str(s.drop_first())) + escape_char(c));
    }
}

pub(crate) fn push_escaped_str(out: &mut Vec<char>, s: &Vec<char>)
    ensures
        final(out)@ == old(out)@ + escape_str(s@),
{
    let mut i: usize = 0;
    while i < s.len()
        invariant
            i <= s.len(),
            out@ == old(out)@ + escape_str(s@.take(i as int)),
        decreases s.len() - i,
    {
        proof {
            lemma_escape_str_push(s@.take(i as int), s@[i as int]);
            assert(s@.take(i as int).push(s@[i as int]) =~= s@.take(i + 1));
        }
        push_escaped(out, s[i]);
        proof {
            assert(out@ =~= old(out)@ + escape_str(s@.take(i + 1)));
        }
        i = i + 1;
    }
    proof {
        assert(s@.take(s@.len() as int) =~= s@);
        assert(escape_str(Seq::<char>::empty()) =~= Seq::<char>::empty());
        assert(old(out)@ + escape_str(Seq::<char>::empty()) =~= old(out)@);
    }
}

/// Writes the wire envelope for a message: a JSON object with the two string
/// fields `kind` and `text`, in that order, with no extra whitespace.
pub fn encode_message(m: &Message) -> (r: String)
    ensures
        r@ == spec_encode_message(m.kind@, m.text@),
{
    let kind_chars = crate::text::chars_of(m.kind.as_str());
    let text_chars = crate::text::chars_of(m.text.as_str());
    let mut out: Vec<char> = Vec::new();
    out.push('{');
    out.push('"');
    out.push('k');
    out.push('i');
    out.push('n');
    out.push('d');
    out.push('"');
    out.push(':');
    out.push('"');
    proof {
        assert(out@ =~= envelope_prefix());
    }
    push_escaped_str(&mut out, &kind_chars);
    out.push('"');
    out.push(',');
    out.push('"');
    out.push('t');
    out.push('e');
    out.push('x');
    out.push('t');
    out.push('"');
    out.push(':');
    out.push('"');
    proof {
        assert(out@ =~= envelope_prefix() + escape_str(m.kind@) + envelope_mid());
    }
    push_escaped_str(&mut out, &text_chars);
    out.push('"');
    out.push('}');
    proof {
        assert(out@ =~= spec_encode_message(m.kind@, m.text@));
    }
    string_of(&out)
}

/// Relies on std's `char::from_u32`: it returns the character for every valid
/// Unicode scalar value, and `None` exactly for surrogates and values over
/// `char::MAX`.
pub assume_specification[ char::from_u32 ](v: u32) -> (r: Option<char>)
    ensures
        r is Some <==> vstd::utf8::is_scalar(v),
        r matches Some(c) ==> c as u32 == v,
;

/// JSON whitespace: space, tab, line feed, carriage return.
pub open spec fn is_json_ws(c: char) -> bool {
    c == ' ' || c == '\u{9}' || c == '\u{A}' || c == '\u{D}'
}

/// The rest of the text after its leading whitespace.
pub open spec fn skip_ws(s: Seq<char>) -> Seq<char>
    decreases s.len(),
{
    if s.len() > 0 && is_json_ws(s[0]) {
        skip_ws(s.drop_first())
    } else {
        s
    }
}

/// The value of a hexadecimal digit character, `-1` for any other character.
pub open spec fn hex_val(c: char) -> int {
    let v = c as u32;
    if 48 <= v <= 57 {
        v - 48
    } else if 97 <= v <= 102 {
        v - 87
    } else if 65 <= v <= 70 {
        v - 55
    } else {
        -1
    }
}

/// The value of four hexadecimal digit characters, `-1` when one of them is
/// not a hexadecimal digit.
pub open spec fn hex4_val(a: char, b: char, c: char, d: char) -> int {
    if hex_val(a) >= 0 && hex_val(b) >= 0 && hex_val(c) >= 0 && hex_val(d) >= 0 {
        hex_val(a) * 4096 + hex_val(b) * 256 + hex_val(c) * 16 + hex_val(d)
    } else {
        -1
    }
}

/// One step of reading a JSON string body: its closing quote, one decoded
/// character (possibly written as an escape), or a failure.
pub enum StrStep {
    End(Seq<char>),
    Chunk(Seq<char>, Seq<char>),
    Fail,
}

/// Reads one unit of a JSON string body. Escapes follow the JSON grammar:
/// the two-character escapes, and `\u` escapes with surrogate pairs combined
/// into one character; lone surrogates and raw control characters fail.
pub open spec fn str_step(s: Seq<char>) -> StrStep {
    if s.len() == 0 {
        StrStep::Fail
    } else if s[0] == '"' {
        StrStep::End(s.drop_first())
    } else if s[0] == '\\' {
        if s.len() < 2 {
            StrStep::Fail
        } else if s[1] == '"' || s[1] == '\\' || s[1] == '/' {
            StrStep::Chunk(seq![s[1]], s.skip(2))
        } else if s[1] == 'b' {
            StrStep::Chunk(seq!['\u{8}'], s.skip(2))
        } else if s[1] == 't' {
            StrStep::Chunk(seq!['\u{9}'], s.skip(2))
        } else if s[1] == 'n' {
            StrStep::Chunk(seq!['\u{A}'], s.skip(2))
        } else if s[1] == 'f' {
            StrStep::Chunk(seq!['\u{C}'], s.skip(2))
        } else if s[1] == 'r' {
            StrStep::Chunk(seq!['\u{D}'], s.skip(2))
        } else if s[1] == 'u' {
            if s.len() < 6 {
                StrStep::Fail
            } else {
                let v = hex4_val(s[2], s[3], s[4], s[5]);
                if v < 0 {
                    StrStep::Fail
                } else if v < 0xD800 || v >= 0xE000 {
                    StrStep::Chunk(seq![(v as u32) as char], s.skip(6))
                } else if v < 0xDC00 {
                    if s.len() < 12 || s[6] != '\\' || s[7] != 'u' {
                        StrStep::Fail
                    } else {
                        let w = hex4_val(s[8], s[9], s[10], s[11]);
                        if 0xDC00 <= w < 0xE000 {
                            StrStep::Chunk(
                                seq![
                                    ((0x10000 + (v - 0xD800) * 0x400 + (w - 0xDC00)) as u32) as char,
                                ],
                                s.skip(12),
                            )
                        } else {
                            StrStep::Fail
                        }
                    }
                } else {
                    StrStep::Fail
                }
            }
        } else {
            StrStep::Fail
        }
    } else if (s[0] as u32) < 32 {
        StrStep::Fail
    } else {
        StrStep::Chunk(seq![s[0]], s.drop_first())
    }
}

/// Reads a JSON string body, after its opening quote, up to and over its
/// closing quote: the decoded characters and the rest of the text.
pub open spec fn parse_str(s: Seq<char>) -> Option<(Seq<char>, Seq<char>)>
    decreases s.len(),
{
    match str_step(s) {
        StrStep::Fail => None,
        StrStep::End(rest) => Some((Seq::empty(), rest)),
        StrStep::Chunk(out, rest) => {
            if rest.len() < s.len() {
                match parse_str(rest) {
                    None => None,
                    Some(p) => Some((out + p.0, p.1)),
                }
            } else {
                None
            }
        },
    }
}

/// Reads one `"name": "value"` member, both JSON strings: the name, the
/// value, and the rest of the text.
pub open spec fn parse_member(s: Seq<char>) -> Option<((Seq<char>, Seq<char>), Seq<char>)> {
    if s.len() == 0 || s[0] != '"' {
        None
    } else {
        match parse_str(s.drop_first()) {
            None => None,
            Some(name_p) => {
                let r2 = skip_ws(name_p.1);
                if r2.len() == 0 || r2[0] != ':' {
                    None
                } else {
                    let r3 = skip_ws(r2.drop_first());
                    if r3.len() == 0 || r3[0] != '"' {
                        None
                    } else {
                        match parse_str(r3.drop_first()) {
                            None => None,
                            Some(val_p) => Some(((name_p.0, val_p.0), val_p.1)),
                        }
                    }
                }
            },
        }
    }
}

pub open spec fn kind_field() -> Seq<char> {
    seq!['k', 'i', 'n', 'd']
}

pub open spec fn text_field() -> Seq<char> {
    seq!['t', 'e', 'x', 't']
}

/// What a wire frame means: `Some((kind, text))` exactly when the whole text
/// is one JSON object with exactly two string members named `kind` and `text`
/// (in either order), `None` otherwise.
pub open spec fn parse_envelope(s: Seq<char>) -> Option<(Seq<char>, Seq<char>)> {
    let s1 = skip_ws(s);
    if s1.len() == 0 || s1[0] != '{' {
        None
    } else {
        match parse_member(skip_ws(s1.drop_first())) {
            None => None,
            Some(m1) => {
                let r2 = skip_ws(m1.1);
                if r2.len() == 0 || r2[0] != ',' {
                    None
                } else {
                    match parse_member(skip_ws(r2.drop_first())) {
                        None => None,
                        Some(m2) => {
                            let r4 = skip_ws(m2.1);
                            if r4.len() == 0 || r4[0] != '}' {
                                None
                            } else if skip_ws(r4.drop_first()).len() != 0 {
                                None
                            } else if m1.0.0 == kind_field() && m2.0.0 == text_field() {
                                Some((m1.0.1, m2.0.1))
                            } else if m1.0.0 == text_field() && m2.0.0 == kind_field() {
                                Some((m2.0.1, m1.0.1))
                            } else {
                                None
                            }
                        },
                    }
                }
            },
        }
    }
}

pub(crate) fn is_json_ws_exec(c: char) -> (r: bool)
    ensures
        r == is_json_ws(c),
{
    c == ' ' || c == '\u{9}' || c == '\u{A}' || c == '\u{D}'
}

pub(crate) fn skip_ws_exec(v: &Vec<char>, i: usize) -> (j: usize)
    requires
        i <= v.len(),
    ensures
        i <= j <= v.len(),
        v@.skip(j as int) == skip_ws(v@.skip(i as int)),
{
    let mut j = i;
    while j < v.len() && is_json_ws_exec(v[j])
        invariant
            i <= j <= v.len(),
            skip_ws(v@.skip(i as int)) == skip_ws(v@.skip(j as int)),
        decreases v.len() - j,
    {
        proof {
            assert(v@.skip(j as int)[0] == v@[j as int]);
            assert(v@.skip(j as int).drop_first() =~= v@.skip(j + 1));
        }
        j = j + 1;
    }
    proof {
        if j < v.len() {
            assert(v@.skip(j as int)[0] == v@[j as int]);
        }
        assert(skip_ws(v@.skip(j as int)) == v@.skip(j as int));
    }
    j
}

fn hex_val_exec(c: char) -> (r: Option<u32>)
    ensures
        r is Some <==> hex_val(c) >= 0,
        r matches Some(x) ==> x == hex_val(c),
{
    let v = c as u32;
    if 48 <= v && v <= 57 {
        Some(v - 48)
    } else if 97 <= v && v <= 102 {
        Some(v - 87)
    } else if 65 <= v && v <= 70 {
        Some(v - 55)
    } else {
        None
    }
}

/// Reads the four hexadecimal digits of a `\u` escape starting at `i`.
fn hex4_exec(v: &Vec<char>, i: usize) -> (r: Option<u32>)
    requires
        i + 4 <= v.len(),
    ensures
        r is Some <==> hex4_val(v@[i as int], v@[i + 1], v@[i + 2], v@[i + 3]) >= 0,
        r matches Some(x) ==> x == hex4_val(v@[i as int], v@[i + 1], v@[i + 2], v@[i + 3]) && x
            < 0x10000,
{
    let a = match hex_val_exec(v[i]) {
        None => return None,
        Some(x) => x,
    };
    let b = match hex_val_exec(v[i + 1]) {
        None => return None,
        Some(x) => x,
    };
    let c = match hex_val_exec(v[i + 2]) {
        None => return None,
        Some(x) => x,
    };
    let d = match hex_val_exec(v[i + 3]) {
        None => return None,
        Some(x) => x,
    };
    Some(a * 4096 + b * 256 + c * 16 + d)
}

/// Reads a JSON string body of `v` starting at `i` (just after the opening
/// quote): the decoded characters and the position after the closing quote.
#[verifier::rlimit(60)]
fn parse_str_exec(v: &Vec<char>, start: usize) -> (r: Option<(Vec<char>, usize)>)
    requires
        start <= v.len(),
    ensures
        match r {
            Some(p) => p.1 <= v.len() && parse_str(v@.skip(start as int)) == Some(
                (p.0@, v@.skip(p.1 as int)),
            ),
            None => parse_str(v@.skip(start as int)) is None,
        },
{
    let mut acc: Vec<char> = Vec::new();
    let mut i: usize = start;
    loop
        invariant
            start <= i <= v.len(),
            (match parse_str(v@.skip(i as int)) {
                Some(p) => parse_str(v@.skip(start as int)) == Some((acc@ + p.0, p.1)),
                None => parse_str(v@.skip(start as int)) is None,
            }),
        decreases v.len() - i,
    {
        let ghost s = v@.skip(i as int);
        proof {
            assert(s.len() == v@.len() - i);
            assert forall|k: int| 0 <= k < s.len() implies s[k] == v@[i + k] by {}
        }
        if i == v.len() {
            proof {
                assert(str_step(s) == StrStep::Fail);
            }
            return None;
        }
        let c = v[i];
        if c == '"' {
            proof {
                assert(s.drop_first() =~= v@.skip(i + 1));
                assert(str_step(s) == StrStep::End(v@.skip(i + 1)));
                assert(parse_str(s) == Some((Seq::<char>::empty(), v@.skip(i + 1))));
                assert(acc@ + Seq::<char>::empty() =~= acc@);
            }
            return Some((acc, i + 1));
        }
        let ghost acc0 = acc@;
        let consumed: usize;
        if c == '\\' {
            if i + 1 == v.len() {
                proof {
                    assert(str_step(s) == StrStep::Fail);
                }
                return None;
            }
            let e = v[i + 1];
            if e == '"' || e == '\\' || e == '/' {
                acc.push(e);
                consumed = 2;
            } else if e == 'b' {
                acc.push('\u{8}');
                consumed = 2;
            } else if e == 't' {
                acc.push('\u{9}');
                consumed = 2;
            } else if e == 'n' {
                acc.push('\u{A}');
                consumed = 2;
            } else if e == 'f' {
                acc.push('\u{C}');
                consumed = 2;
            } else if e == 'r' {
                acc.push('\u{D}');
                consumed = 2;
            } else if e == 'u' {
                if v.len() - i < 6 {
                    proof {
                        assert(str_step(s) == StrStep::Fail);
                    }
                    return None;
                }
                let val = match hex4_exec(v, i + 2) {
                    None => {
                        proof {
                            assert(str_step(s) == StrStep::Fail);
                        }
                        return None;
                    },
                    Some(x) => x,
                };
                if val < 0xD800 || val >= 0xE000 {
                    proof {
                        vstd::utf8::char_is_scalar('a');
                    }
                    let ch = match char::from_u32(val) {
                        None => {
                            proof {
                                assert(vstd::utf8::is_scalar(val));
                                assert(false);
                            }
                            return None;
                        },
                        Some(ch) => ch,
                    };
                    proof {
                        vstd::utf8::char_u32_cast(ch, val);
                    }
                    acc.push(ch);
                    consumed = 6;
                } else if val < 0xDC00 {
                    if v.len() - i < 12 {
                        proof {
                            assert(str_step(s) == StrStep::Fail);
                        }
                        return None;
                    }
                    if !(v[i + 6] == '\\' && v[i + 7] == 'u') {
                        proof {
                            assert(str_step(s) == StrStep::Fail);
                        }
                        return None;
                    }
                    let w = match hex4_exec(v, i + 8) {
                        None => {
                            proof {
                                assert(str_step(s) == StrStep::Fail);
                            }
                            return None;
                        },
                        Some(x) => x,
                    };
                    if !(0xDC00 <= w && w < 0xE000) {
                        proof {
                            assert(str_step(s) == StrStep::Fail);
                        }
                        return None;
                    }
                    let scalar: u32 = 0x10000 + (val - 0xD800) * 0x400 + (w - 0xDC00);
                    let ch = match char::from_u32(scalar) {
                        None => {
                            proof {
                                assert(vstd::utf8::is_scalar(scalar));
                                assert(false);
                            }
                            return None;
                        },
                        Some(ch) => ch,
                    };
                    proof {
                        vstd::utf8::char_u32_cast(ch, scalar);
                    }
                    acc.push(ch);
                    consumed = 12;
                } else {
                    proof {
                        assert(str_step(s) == StrStep::Fail);
                    }
                    return None;
                }
            } else {
                proof {
                    assert(str_step(s) == StrStep::Fail);
                }
                return None;
            }
        } else if (c as u32) < 32 {
            proof {
                assert(str_step(s) == StrStep::Fail);
            }
            return None;
        } else {
            acc.push(c);
            consumed = 1;
        }
        proof {
            assert(s.drop_first() =~= v@.skip(i + 1));
            assert(s.skip(consumed as int) =~= v@.skip(i + consumed));
            assert(acc@ == acc0.push(acc@.last()));
            assert(str_step(s) == StrStep::Chunk(
                seq![acc@.last()],
                v@.skip(i + consumed),
            ));
            assert(v@.skip(i + consumed).len() < s.len());
            assert(parse_str(s) == (match parse_str(v@.skip(i + consumed)) {
                None => None::<(Seq<char>, Seq<char>)>,
                Some(p) => Some((seq![acc@.last()] + p.0, p.1)),
            }));
            if parse_str(v@.skip(i + consumed)) is Some {
                let p = parse_str(v@.skip(i + consumed)).unwrap();
                assert(acc0 + (seq![acc@.last()] + p.0) =~= acc@ + p.0);
            }
        }
        i = i + consumed;
    }
}

proof fn lemma_skip_ws_len(s: Seq<char>)
    ensures
        skip_ws(s).len() <= s.len(),
    decreases s.len(),
{
    if s.len() > 0 && is_json_ws(s[0]) {
        lemma_skip_ws_len(s.drop_first());
    }
}

proof fn lemma_parse_str_consumes(s: Seq<char>)
    ensures
        parse_str(s) matches Some(p) ==> p.1.len() < s.len(),
    decreases s.len(),
{
    match str_step(s) {
        StrStep::Fail => {},
        StrStep::End(rest) => {
            assert(rest.len() < s.len());
        },
        StrStep::Chunk(out, rest) => {
            if rest.len() < s.len() {
                lemma_parse_str_consumes(rest);
            }
        },
    }
}

fn parse_member_exec(v: &Vec<char>, start: usize) -> (r: Option<((Vec<char>, Vec<char>), usize)>)
    requires
        start <= v.len(),
    ensures
        match r {
            Some(p) => p.1 <= v.len() && parse_member(v@.skip(start as int)) == Some(
                ((p.0.0@, p.0.1@), v@.skip(p.1 as int)),
            ),
            None => parse_member(v@.skip(start as int)) is None,
        },
{
    let ghost s = v@.skip(start as int);
    if start == v.len() {
        return None;
    }
    proof {
        assert(s[0] == v@[start as int]);
    }
    if v[start] != '"' {
        return None;
    }
    proof {
        assert(s.drop_first() =~= v@.skip(start + 1));
    }
    let (name, j1) = match parse_str_exec(v, start + 1) {
        None => {
            return None;
        },
        Some(p) => p,
    };
    let j2 = skip_ws_exec(v, j1);
    if j2 == v.len() {
        return None;
    }
    proof {
        assert(v@.skip(j2 as int)[0] == v@[j2 as int]);
    }
    if v[j2] != ':' {
        return None;
    }
    proof {
        assert(v@.skip(j2 as int).drop_first() =~= v@.skip(j2 + 1));
    }
    let j3 = skip_ws_exec(v, j2 + 1);
    if j3 == v.len() {
        return None;
    }
    proof {
        assert(v@.skip(j3 as int)[0] == v@[j3 as int]);
    }
    if v[j3] != '"' {
        return None;
    }
    proof {
        assert(v@.skip(j3 as int).drop_first() =~= v@.skip(j3 + 1));
    }
    let (value, j4) = match parse_str_exec(v, j3 + 1) {
        None => {
            return None;
        },
        Some(p) => p,
    };
    Some(((name, value), j4))
}

fn eq_kind(name: &Vec<char>) -> (r: bool)
    ensures
        r == (name@ == kind_field()),
{
    let r = name.len() == 4 && name[0] == 'k' && name[1] == 'i' && name[2] == 'n' && name[3] == 'd';
    proof {
        if r {
            assert(name@ =~= kind_field());
        } else {
            assert(name@ != kind_field());
        }
    }
    r
}

fn eq_text(name: &Vec<char>) -> (r: bool)
    ensures
        r == (name@ == text_field()),
{
    let r = name.len() == 4 && name[0] == 't' && name[1] == 'e' && name[2] == 'x' && name[3] == 't';
    proof {
        if r {
            assert(name@ =~= text_field());
        } else {
            assert(name@ != text_field());
        }
    }
    r
}

/// Reads a wire frame: the message exactly when the text is a valid envelope,
/// `None` for everything else (invalid JSON, a missing or mistyped field, an
/// extra member, trailing text).
pub fn decode_message(raw: &str) -> (r: Option<Message>)
    ensures
        match r {
            Some(m) => parse_envelope(raw@) == Some((m.kind@, m.text@)),
            None => parse_envelope(raw@) is None,
        },
{
    let v = crate::text::chars_of(raw);
    proof {
        assert(v@.skip(0) =~= v@);
    }
    let i1 = skip_ws_exec(&v, 0);
    if i1 == v.len() {
        return None;
    }
    proof {
        assert(v@.skip(i1 as int)[0] == v@[i1 as int]);
    }
    if v[i1] != '{' {
        return None;
    }
    proof {
        assert(v@.skip(i1 as int).drop_first() =~= v@.skip(i1 + 1));
    }
    let i2 = skip_ws_exec(&v, i1 + 1);
    let ((n1, val1), j1) = match parse_member_exec(&v, i2) {
        None => {
            return None;
        },
        Some(p) => p,
    };
    let j2 = skip_ws_exec(&v, j1);
    if j2 == v.len() {
        return None;
    }
    proof {
        assert(v@.skip(j2 as int)[0] == v@[j2 as int]);
    }
    if v[j2] != ',' {
        return None;
    }
    proof {
        assert(v@.skip(j2 as int).drop_first() =~= v@.skip(j2 + 1));
    }
    let j3 = skip_ws_exec(&v, j2 + 1);
    let ((n2, val2), j4) = match parse_member_exec(&v, j3) {
        None => {
            return None;
        },
        Some(p) => p,
    };
    let j5 = skip_ws_exec(&v, j4);
    if j5 == v.len() {
        return None;
    }
    proof {
        assert(v@.skip(j5 as int)[0] == v@[j5 as int]);
    }
    if v[j5] != '}' {
        return None;
    }
    proof {
        assert(v@.skip(j5 as int).drop_first() =~= v@.skip(j5 + 1));
    }
    let j6 = skip_ws_exec(&v, j5 + 1);
    if j6 != v.len() {
        return None;
    }
    if eq_kind(&n1) && eq_text(&n2) {
        Some(
            Message {
                kind: string_of(&val1),
                text: string_of(&val2),
            },
        )
    } else if eq_text(&n1) && eq_kind(&n2) {
        Some(
            Message {
                kind: string_of(&val2),
                text: string_of(&val1),
            },
        )
    } else {
        None
    }
}

/// Reads the members of a JSON array of strings from a point where a string
/// must start: the remaining elements, demanding that the array and the whole
/// text end there.
pub open spec fn parse_ids_rest(s: Seq<char>) -> Option<Seq<Seq<char>>>
    decreases s.len(),
{
    if s.len() == 0 || s[0] != '"' {
        None
    } else {
        match parse_str(s.drop_first()) {
            None => None,
            Some(p) => {
                let r = skip_ws(p.1);
                if r.len() == 0 {
                    None
                } else if r[0] == ']' {
                    if skip_ws(r.drop_first()).len() == 0 {
                        Some(seq![p.0])
                    } else {
                        None
                    }
                } else if r[0] == ',' {
                    let r2 = skip_ws(r.drop_first());
                    if r2.len() < s.len() {
                        match parse_ids_rest(r2) {
                            None => None,
                            Some(ids) => Some(seq![p.0] + ids),
                        }
                    } else {
                        None
                    }
                } else {
                    None
                }
            },
        }
    }
}

/// What an `update` request's `text` means: `Some(ids)` exactly when the
/// whole text is one JSON array of strings, `None` otherwise.
pub open spec fn parse_id_list(s: Seq<char>) -> Option<Seq<Seq<char>>> {
    let s1 = skip_ws(s);
    if s1.len() == 0 || s1[0] != '[' {
        None
    } else {
        let s2 = skip_ws(s1.drop_first());
        if s2.len() == 0 {
            None
        } else if s2[0] == ']' {
            if skip_ws(s2.drop_first()).len() == 0 {
                Some(Seq::empty())
            } else {
                None
            }
        } else {
            parse_ids_rest(s2)
        }
    }
}

/// Reads an `update` request's `text` as an ordered list of tile ids.
pub fn parse_tile_ids(text: &str) -> (r: Option<Vec<String>>)
    ensures
        match r {
            Some(ids) => parse_id_list(text@) == Some(ids.deep_view()),
            None => parse_id_list(text@) is None,
        },
{
    let v = crate::text::chars_of(text);
    proof {
        assert(v@.skip(0) =~= v@);
    }
    let i1 = skip_ws_exec(&v, 0);
    if i1 == v.len() {
        return None;
    }
    proof {
        assert(v@.skip(i1 as int)[0] == v@[i1 as int]);
    }
    if v[i1] != '[' {
        return None;
    }
    proof {
        assert(v@.skip(i1 as int).drop_first() =~= v@.skip(i1 + 1));
    }
    let i2 = skip_ws_exec(&v, i1 + 1);
    if i2 == v.len() {
        return None;
    }
    proof {
        assert(v@.skip(i2 as int)[0] == v@[i2 as int]);
    }
    if v[i2] == ']' {
        proof {
            assert(v@.skip(i2 as int).drop_first() =~= v@.skip(i2 + 1));
        }
        let i3 = skip_ws_exec(&v, i2 + 1);
        if i3 == v.len() {
            let ids: Vec<String> = Vec::new();
            proof {
                assert(ids.deep_view() =~= Seq::<Seq<char>>::empty());
            }
            return Some(ids);
        } else {
            return None;
        }
    }
    let mut acc: Vec<String> = Vec::new();
    let mut i: usize = i2;
    loop
        invariant
            i2 <= i <= v.len(),
            (match parse_ids_rest(v@.skip(i as int)) {
                Some(ids) => parse_id_list(text@) == Some(acc.deep_view() + ids),
                None => parse_id_list(text@) is None,
            }),
        decreases v.len() - i,
    {
        let ghost s = v@.skip(i as int);
        let ghost dv0 = acc.deep_view();
        if i == v.len() {
            return None;
        }
        proof {
            assert(s[0] == v@[i as int]);
        }
        if v[i] != '"' {
            return None;
        }
        proof {
            assert(s.drop_first() =~= v@.skip(i + 1));
        }
        let (id, j1) = match parse_str_exec(&v, i + 1) {
            None => {
                return None;
            },
            Some(p) => p,
        };
        proof {
            lemma_parse_str_consumes(v@.skip(i + 1));
        }
        let j2 = skip_ws_exec(&v, j1);
        if j2 == v.len() {
            return None;
        }
        proof {
            assert(v@.skip(j2 as int)[0] == v@[j2 as int]);
        }
        acc.push(crate::text::string_of(&id));
        proof {
            assert(acc.deep_view() =~= dv0.push(id@));
        }
        if v[j2] == ']' {
            proof {
                assert(v@.skip(j2 as int).drop_first() =~= v@.skip(j2 + 1));
            }
            let j3 = skip_ws_exec(&v, j2 + 1);
            if j3 == v.len() {
                proof {
                    assert(parse_ids_rest(s) == Some(seq![id@]));
                    assert(dv0 + seq![id@] =~= acc.deep_view());
                }
                return Some(acc);
            } else {
                return None;
            }
        }
        if v[j2] != ',' {
            return None;
        }
        proof {
            assert(v@.skip(j2 as int).drop_first() =~= v@.skip(j2 + 1));
        }
        let j3 = skip_ws_exec(&v, j2 + 1);
        proof {
            lemma_skip_ws_len(v@.skip(j2 + 1));
            assert(v@.skip(j3 as int).len() < s.len());
            if parse_ids_rest(v@.skip(j3 as int)) is Some {
                let ids = parse_ids_rest(v@.skip(j3 as int)).unwrap();
                assert(parse_ids_rest(s) == Some(seq![id@] + ids));
                assert(dv0 + (seq![id@] + ids) =~= acc.deep_view() + ids);
            }
        }
        i = j3;
    }
}

proof fn lemma_hex_char_val(d: nat)
    requires
        d < 16,
    ensures
        hex_val(hex_char(d)) == d,
{
}

proof fn lemma_escape_roundtrip_char(c: char, tail: Seq<char>)
    ensures
        str_step(escape_char(c) + tail) == StrStep::Chunk(seq![c], tail),
{
    let s = escape_char(c) + tail;
    if c == '"' {
        assert(s[0] == '\\' && s[1] == '"');
        assert(s.skip(2) =~= tail);
    } else if c == '\\' {
        assert(s[0] == '\\' && s[1] == '\\');
        assert(s.skip(2) =~= tail);
    } else if c as u32 == 8 {
        assert(s[0] == '\\' && s[1] == 'b');
        assert(s.skip(2) =~= tail);
        vstd::utf8::char_u32_cast(c, 8);
        vstd::utf8::char_u32_cast('\u{8}', 8);
        assert(seq!['\u{8}'] =~= seq![c]);
    } else if c as u32 == 9 {
        assert(s[0] == '\\' && s[1] == 't');
        assert(s.skip(2) =~= tail);
        vstd::utf8::char_u32_cast(c, 9);
        vstd::utf8::char_u32_cast('\u{9}', 9);
        assert(seq!['\u{9}'] =~= seq![c]);
    } else if c as u32 == 10 {
        assert(s[0] == '\\' && s[1] == 'n');
        assert(s.skip(2) =~= tail);
        vstd::utf8::char_u32_cast(c, 10);
        vstd::utf8::char_u32_cast('\u{A}', 10);
        assert(seq!['\u{A}'] =~= seq![c]);
    } else if c as u32 == 12 {
        assert(s[0] == '\\' && s[1] == 'f');
        assert(s.skip(2) =~= tail);
        vstd::utf8::char_u32_cast(c, 12);
        vstd::utf8::char_u32_cast('\u{C}', 12);
        assert(seq!['\u{C}'] =~= seq![c]);
    } else if c as u32 == 13 {
        assert(s[0] == '\\' && s[1] == 'r');
        assert(s.skip(2) =~= tail);
        vstd::utf8::char_u32_cast(c, 13);
        vstd::utf8::char_u32_cast('\u{D}', 13);
        assert(seq!['\u{D}'] =~= seq![c]);
    } else if (c as u32) < 32 {
        let v = c as u32;
        assert(s[0] == '\\' && s[1] == 'u');
        assert(s.len() >= 6);
        assert(s[2] == '0' && s[3] == '0');
        assert(s[4] == hex_char((v / 16) as nat) && s[5] == hex_char((v % 16) as nat));
        lemma_hex_char_val((v / 16) as nat);
        lemma_hex_char_val((v % 16) as nat);
        assert(hex_val('0') == 0);
        assert(hex4_val(s[2], s[3], s[4], s[5]) == (v / 16) * 16 + v % 16);
        assert((v / 16) * 16 + v % 16 == v);
        vstd::utf8::char_u32_cast(c, v);
        assert(seq![(v as u32) as char] =~= seq![c]);
        assert(s.skip(6) =~= tail);
    } else {
        assert(s[0] == c);
        assert(s.drop_first() =~= tail);
    }
}

proof fn lemma_parse_str_escaped(x: Seq<char>, rest: Seq<char>)
    ensures
        parse_str(escape_str(x) + seq!['"'] + rest) == Some((x, rest)),
    decreases x.len(),
{
    let s = escape_str(x) + seq!['"'] + rest;
    if x.len() == 0 {
        assert(escape_str(x) == Seq::<char>::empty());
        assert(s =~= seq!['"'] + rest);
        assert(s[0] == '"');
        assert(s.drop_first() =~= rest);
        assert(x =~= Seq::<char>::empty());
    } else {
        let c = x[0];
        let x1 = x.drop_first();
        let tail = escape_str(x1) + seq!['"'] + rest;
        assert(escape_str(x) == escape_char(c) + escape_str(x1));
        assert(s =~= escape_char(c) + tail);
        lemma_escape_roundtrip_char(c, tail);
        assert(escape_char(c).len() >= 1);
        assert(tail.len() < s.len());
        lemma_parse_str_escaped(x1, rest);
        assert(parse_str(s) == Some((seq![c] + x1, rest)));
        assert(seq![c] + x1 =~= x);
    }
}

/// A character that stands for itself inside a JSON string.
pub open spec fn is_plain_char(c: char) -> bool {
    c != '"' && c != '\\' && c as u32 >= 32
}

proof fn lemma_escape_str_plain(s: Seq<char>)
    requires
        forall|i: int| 0 <= i < s.len() ==> is_plain_char(s[i]),
    ensures
        escape_str(s) == s,
    decreases s.len(),
{
    if s.len() > 0 {
        assert(is_plain_char(s[0]));
        assert(escape_char(s[0]) == seq![s[0]]);
        lemma_escape_str_plain(s.drop_first());
        assert(seq![s[0]] + s.drop_first() =~= s);
    }
}

/// Decoding inverts encoding: the envelope `encode_message` writes for any
/// `kind` and `text` parses back to exactly that pair, so a frame is never
/// mangled on its way out.
#[verifier::rlimit(100)]
pub proof fn lemma_encode_decode_roundtrip(kind: Seq<char>, text: Seq<char>)
    ensures
        parse_envelope(spec_encode_message(kind, text)) == Some((kind, text)),
{
    let s = spec_encode_message(kind, text);
    let suffix = envelope_suffix();
    let mid_tail = seq![',', '"', 't', 'e', 'x', 't', '"', ':', '"'];
    assert(envelope_mid() =~= seq!['"'] + mid_tail);

    assert(forall|i: int| 0 <= i < kind_field().len() ==> is_plain_char(kind_field()[i]));
    lemma_escape_str_plain(kind_field());
    assert(forall|i: int| 0 <= i < text_field().len() ==> is_plain_char(text_field()[i]));
    lemma_escape_str_plain(text_field());

    // The text as the parser walks it.
    assert(s[0] == '{');
    assert(!is_json_ws(s[0]));
    assert(skip_ws(s) == s);

    let d1 = s.drop_first();
    let a = seq![':', '"'] + escape_str(kind) + envelope_mid() + escape_str(text) + suffix;
    assert(d1 =~= seq!['"'] + escape_str(kind_field()) + seq!['"'] + a);
    assert(!is_json_ws(d1[0]));
    assert(skip_ws(d1) == d1);

    // First member: name.
    assert(d1[0] == '"');
    assert(d1.drop_first() =~= escape_str(kind_field()) + seq!['"'] + a);
    lemma_parse_str_escaped(kind_field(), a);
    // First member: value.
    assert(a[0] == ':');
    assert(!is_json_ws(a[0]));
    assert(skip_ws(a) == a);
    let b = escape_str(kind) + envelope_mid() + escape_str(text) + suffix;
    assert(a.drop_first() =~= seq!['"'] + b);
    assert(!is_json_ws(a.drop_first()[0]));
    assert(skip_ws(a.drop_first()) == a.drop_first());
    let c = mid_tail + escape_str(text) + suffix;
    assert(b =~= escape_str(kind) + seq!['"'] + c);
    assert(a.drop_first().drop_first() =~= b);
    lemma_parse_str_escaped(kind, c);
    assert(parse_member(d1) == Some(((kind_field(), kind), c)));

    // Separator between the members.
    assert(c[0] == ',');
    assert(!is_json_ws(c[0]));
    assert(skip_ws(c) == c);
    let d = seq!['"', 't', 'e', 'x', 't', '"', ':', '"'] + escape_str(text) + suffix;
    assert(c.drop_first() =~= d);
    assert(!is_json_ws(d[0]));
    assert(skip_ws(d) == d);

    // Second member: name.
    let e = seq![':', '"'] + escape_str(text) + suffix;
    assert(d[0] == '"');
    assert(d.drop_first() =~= escape_str(text_field()) + seq!['"'] + e);
    lemma_parse_str_escaped(text_field(), e);
    // Second member: value.
    assert(e[0] == ':');
    assert(!is_json_ws(e[0]));
    assert(skip_ws(e) == e);
    let f = seq!['"'] + escape_str(text) + suffix;
    assert(e.drop_first() =~= f);
    assert(!is_json_ws(f[0]));
    assert(skip_ws(f) == f);
    assert(f[0] == '"');
    let g = seq!['}'];
    assert(f.drop_first() =~= escape_str(text) + seq!['"'] + g);
    lemma_parse_str_escaped(text, g);
    assert(parse_member(d) == Some(((text_field(), text), g)));

    // Closing brace, then the end of the text.
    assert(g[0] == '}');
    assert(!is_json_ws(g[0]));
    assert(skip_ws(g) == g);
    assert(g.drop_first() =~= Seq::<char>::empty());
    assert(skip_ws(Seq::<char>::empty()).len() == 0);

    assert(kind_field() != text_field());
    assert(parse_envelope(s) == Some((kind, text)));
}

} // verus!

