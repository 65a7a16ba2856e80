//! Decoding one wire frame back into a message.
//!
//! The decoder is a recursive-descent parser for the fixed frame shape: one
//! JSON object whose members are `message` (string), `type` (one of the six
//! kind names), `meta` (string or null) and `streaming` (boolean), each
//! member at most once, in any order, with any JSON whitespace between
//! tokens. A member the sender leaves out keeps its default; a member with
//! an unknown key is ignored, whatever well-formed value it carries (up to a
//! fixed nesting limit). Anything else — a wrong value type on a known key,
//! a repeated known key, trailing text, a malformed escape — is a decode
//! failure.

use vstd::prelude::*;
use vstd::string::StringExecFns;

use crate::message::MessageData;
use crate::message::MessageType;
use crate::message::MessageView;
use crate::message::default_view;

verus! {

// ---------------------------------------------------------------------------
// Spec: the grammar.
// ---------------------------------------------------------------------------

/// JSON whitespace.
pub open spec fn is_ws(c: char) -> bool {
    c == ' ' || c == '\t' || c == '\n' || c == '\r'
}

/// The first position at or after `i` that does not hold whitespace.
pub open spec fn skip_ws(s: Seq<char>, i: int) -> int
    decreases s.len() - i,
{
    if 0 <= i < s.len() && is_ws(s[i]) {
        skip_ws(s, i + 1)
    } else {
        i
    }
}

/// The value of a hexadecimal digit character, if it is one.
pub open spec fn hex_value(c: char) -> Option<int> {
    let x = (c as u32) as int;
    if 48 <= x <= 57 {
        Some(x - 48)
    } else if 97 <= x <= 102 {
        Some(x - 87)
    } else if 65 <= x <= 70 {
        Some(x - 55)
    } else {
        None
    }
}

/// The value of four hexadecimal digit characters starting at `i`.
pub open spec fn hex4(s: Seq<char>, i: int) -> Option<int>
    recommends
        0 <= i && i + 4 <= s.len(),
{
    match (hex_value(s[i]), hex_value(s[i + 1]), hex_value(s[i + 2]), hex_value(s[i + 3])) {
        (Some(d1), Some(d2), Some(d3), Some(d4)) => Some(d1 * 4096 + d2 * 256 + d3 * 16 + d4),
        _ => None,
    }
}

/// The leading half of a surrogate pair.
pub open spec fn is_high_surrogate(v: int) -> bool {
    0xD800 <= v <= 0xDBFF
}

/// The trailing half of a surrogate pair.
pub open spec fn is_low_surrogate(v: int) -> bool {
    0xDC00 <= v <= 0xDFFF
}

/// The character a two-character escape stands for.
pub open spec fn unescape(e: char) -> Option<char> {
    if e == '"' {
        Some('"')
    } else if e == '\\' {
        Some('\\')
    } else if e == '/' {
        Some('/')
    } else if e == 'n' {
        Some('\n')
    } else if e == 'r' {
        Some('\r')
    } else if e == 't' {
        Some('\t')
    } else if e == 'b' {
        Some(8 as char)
    } else if e == 'f' {
        Some(12 as char)
    } else {
        None
    }
}

/// Parses the body of a JSON string from `i` (just past the opening quote)
/// up to and over the closing quote: the decoded payload and the position
/// after the closing quote. A `\uXXXX` escape names any scalar value in the
/// basic plane, and a surrogate pair of them any other; a lone surrogate or
/// a raw control character is refused.
pub open spec fn parse_string_body(s: Seq<char>, i: int) -> Option<(Seq<char>, int)>
    decreases s.len() - i,
{
    if !(0 <= i < s.len()) {
        None
    } else if s[i] == '"' {
        Some((Seq::<char>::empty(), i + 1))
    } else if s[i] == '\\' {
        if i + 2 <= s.len() {
            let e = s[i + 1];
            if e == 'u' {
                if i + 6 <= s.len() {
                    match hex4(s, i + 2) {
                        Some(val) => {
                            if !(0xD800 <= val <= 0xDFFF) {
                                match parse_string_body(s, i + 6) {
                                    Some((t, j)) => Some((seq![val as char] + t, j)),
                                    None => None,
                                }
                            } else if is_high_surrogate(val) {
                                if i + 12 <= s.len() && s[i + 6] == '\\' && s[i + 7] == 'u' {
                                    match hex4(s, i + 8) {
                                        Some(lo) => {
                                            if is_low_surrogate(lo) {
                                                let cp = 0x10000 + (val - 0xD800) * 1024 + (lo
                                                    - 0xDC00);
                                                match parse_string_body(s, i + 12) {
                                                    Some((t, j)) => Some(
                                                        (seq![cp as char] + t, j),
                                                    ),
                                                    None => None,
                                                }
                                            } else {
                                                None
                                            }
                                        },
                                        None => None,
                                    }
                                } else {
                                    None
                                }
                            } else {
                                None
                            }
                        },
                        None => None,
                    }
                } else {
                    None
                }
            } else {
                match unescape(e) {
                    Some(c) => match parse_string_body(s, i + 2) {
                        Some((t, j)) => Some((seq![c] + t, j)),
                        None => None,
                    },
                    None => None,
                }
            }
        } else {
            None
        }
    } else if (s[i] as u32) < 32 {
        None
    } else {
        match parse_string_body(s, i + 1) {
            Some((t, j)) => Some((seq![s[i]] + t, j)),
            None => None,
        }
    }
}

/// Parses a whole JSON string token starting at `i`.
pub open spec fn parse_json_string(s: Seq<char>, i: int) -> Option<(Seq<char>, int)> {
    if 0 <= i < s.len() && s[i] == '"' {
        parse_string_body(s, i + 1)
    } else {
        None
    }
}

/// Parses the fixed word `lit` at `i`.
pub open spec fn parse_lit(s: Seq<char>, i: int, lit: Seq<char>) -> Option<int> {
    if 0 <= i && i + lit.len() <= s.len() && s.subrange(i, i + lit.len()) == lit {
        Some(i + lit.len())
    } else {
        None
    }
}

/// Parses a `meta` value: a string or `null`.
pub open spec fn parse_meta_value(s: Seq<char>, i: int) -> Option<(Option<Seq<char>>, int)> {
    match parse_lit(s, i, "null"@) {
        Some(j) => Some((None, j)),
        None => match parse_json_string(s, i) {
            Some((x, j)) => Some((Some(x), j)),
            None => None,
        },
    }
}

/// Parses a boolean value.
pub open spec fn parse_bool(s: Seq<char>, i: int) -> Option<(bool, int)> {
    match parse_lit(s, i, "true"@) {
        Some(j) => Some((true, j)),
        None => match parse_lit(s, i, "false"@) {
            Some(j) => Some((false, j)),
            None => None,
        },
    }
}

/// How deep an ignored member's value may nest.
pub const IGNORED_NESTING_LIMIT: usize = 128;

/// A decimal digit.
pub open spec fn is_digit(c: char) -> bool {
    48 <= c as u32 <= 57
}

/// The first position at or after `i` that does not hold a digit.
pub open spec fn skip_digits(s: Seq<char>, i: int) -> int
    decreases s.len() - i,
{
    if 0 <= i < s.len() && is_digit(s[i]) {
        skip_digits(s, i + 1)
    } else {
        i
    }
}

/// The position after a JSON number starting at `i`, if one starts there:
/// an optional minus, an integer part without leading zeros, an optional
/// fraction, an optional exponent.
pub open spec fn skip_number(s: Seq<char>, i: int) -> Option<int> {
    let a = if 0 <= i < s.len() && s[i] == '-' {
        i + 1
    } else {
        i
    };
    if 0 <= a < s.len() && is_digit(s[a]) {
        let b = if s[a] == '0' {
            a + 1
        } else {
            skip_digits(s, a)
        };
        let c = if b < s.len() && s[b] == '.' {
            if b + 1 < s.len() && is_digit(s[b + 1]) {
                skip_digits(s, b + 1)
            } else {
                -1
            }
        } else {
            b
        };
        if c < 0 {
            None
        } else {
            let d = if c < s.len() && (s[c] == 'e' || s[c] == 'E') {
                let e0 = if c + 1 < s.len() && (s[c + 1] == '+' || s[c + 1] == '-') {
                    c + 2
                } else {
                    c + 1
                };
                if e0 < s.len() && is_digit(s[e0]) {
                    skip_digits(s, e0)
                } else {
                    -1
                }
            } else {
                c
            };
            if d < 0 {
                None
            } else {
                Some(d)
            }
        }
    } else {
        None
    }
}

/// The position after one well-formed JSON value starting at `i`, read only
/// to be discarded; containers may nest at most `depth` levels.
pub open spec fn skip_value(s: Seq<char>, i: int, depth: nat) -> Option<int>
    decreases depth, 0nat, 1nat,
{
    if !(0 <= i < s.len()) {
        None
    } else if s[i] == '"' {
        match parse_string_body(s, i + 1) {
            Some((_x, j)) => Some(j),
            None => None,
        }
    } else if s[i] == 't' {
        parse_lit(s, i, "true"@)
    } else if s[i] == 'f' {
        parse_lit(s, i, "false"@)
    } else if s[i] == 'n' {
        parse_lit(s, i, "null"@)
    } else if s[i] == '[' {
        if depth == 0 {
            None
        } else {
            let j = skip_ws(s, i + 1);
            if j < s.len() && s[j] == ']' {
                Some(j + 1)
            } else {
                skip_items(s, j, (depth - 1) as nat, s.len() as nat)
            }
        }
    } else if s[i] == '{' {
        if depth == 0 {
            None
        } else {
            let j = skip_ws(s, i + 1);
            if j < s.len() && s[j] == '}' {
                Some(j + 1)
            } else {
                skip_members(s, j, (depth - 1) as nat, s.len() as nat)
            }
        }
    } else {
        skip_number(s, i)
    }
}

/// The rest of an ignored array: values separated by commas up to the
/// closing bracket; `more` bounds how many commas may still follow.
pub open spec fn skip_items(s: Seq<char>, i: int, depth: nat, more: nat) -> Option<int>
    decreases depth, more, 0nat,
{
    if more == 0 {
        None
    } else {
        match skip_value(s, i, depth) {
            None => None,
            Some(j) => {
                let k = skip_ws(s, j);
                if k < s.len() && s[k] == ',' {
                    skip_items(s, skip_ws(s, k + 1), depth, (more - 1) as nat)
                } else if k < s.len() && s[k] == ']' {
                    Some(k + 1)
                } else {
                    None
                }
            },
        }
    }
}

/// The rest of an ignored object: `"key" : value` members separated by
/// commas up to the closing brace; `more` bounds how many commas may still
/// follow.
pub open spec fn skip_members(s: Seq<char>, i: int, depth: nat, more: nat) -> Option<int>
    decreases depth, more, 0nat,
{
    if more == 0 {
        None
    } else {
        match parse_json_string(s, i) {
            None => None,
            Some((_key, j)) => {
                let k = skip_ws(s, j);
                if k < s.len() && s[k] == ':' {
                    match skip_value(s, skip_ws(s, k + 1), depth) {
                        None => None,
                        Some(j2) => {
                            let k2 = skip_ws(s, j2);
                            if k2 < s.len() && s[k2] == ',' {
                                skip_members(s, skip_ws(s, k2 + 1), depth, (more - 1) as nat)
                            } else if k2 < s.len() && s[k2] == '}' {
                                Some(k2 + 1)
                            } else {
                                None
                            }
                        },
                    }
                } else {
                    None
                }
            },
        }
    }
}

/// The message kind a wire name stands for.
pub open spec fn kind_of_name(n: Seq<char>) -> Option<MessageType> {
    if n == "error"@ {
        Some(MessageType::Error)
    } else if n == "echo"@ {
        Some(MessageType::Echo)
    } else if n == "time"@ {
        Some(MessageType::Time)
    } else if n == "ls"@ {
        Some(MessageType::Ls)
    } else if n == "sh"@ {
        Some(MessageType::Sh)
    } else if n == "empty"@ {
        Some(MessageType::Empty)
    } else {
        None
    }
}

/// The members seen so far while parsing a frame; `Some` marks a member as
/// present, so a repeated member can be refused.
#[verifier::ext_equal]
pub struct PartialView {
    pub message: Option<Seq<char>>,
    pub msg_type: Option<MessageType>,
    pub meta: Option<Option<Seq<char>>>,
    pub streaming: Option<bool>,
}

/// No member seen yet.
pub open spec fn empty_partial() -> PartialView {
    PartialView { message: None, msg_type: None, meta: None, streaming: None }
}

/// The message a finished frame stands for: defaults fill the members the
/// sender left out.
pub open spec fn complete_view(p: PartialView) -> MessageView {
    MessageView {
        message: match p.message {
            Some(m) => m,
            None => default_view().message,
        },
        msg_type: match p.msg_type {
            Some(t) => t,
            None => default_view().msg_type,
        },
        meta: match p.meta {
            Some(m) => m,
            None => default_view().meta,
        },
        streaming: match p.streaming {
            Some(b) => b,
            None => default_view().streaming,
        },
    }
}

/// Parses one `"key" : value` member starting at the key's opening quote and
/// records it in `p`; a member with an unknown key is read and discarded;
/// a repeated known key or a value of the wrong type fails.
pub open spec fn parse_member(s: Seq<char>, i: int, p: PartialView) -> Option<(PartialView, int)> {
    match parse_json_string(s, i) {
        None => None,
        Some((key, j)) => {
            let k = skip_ws(s, j);
            if k < s.len() && s[k] == ':' {
                let v = skip_ws(s, k + 1);
                if key == "message"@ {
                    if p.message is None {
                        match parse_json_string(s, v) {
                            Some((x, e)) => Some((PartialView { message: Some(x), ..p }, e)),
                            None => None,
                        }
                    } else {
                        None
                    }
                } else if key == "type"@ {
                    if p.msg_type is None {
                        match parse_json_string(s, v) {
                            Some((nm, e)) => match kind_of_name(nm) {
                                Some(t) => Some((PartialView { msg_type: Some(t), ..p }, e)),
                                None => None,
                            },
                            None => None,
                        }
                    } else {
                        None
                    }
                } else if key == "meta"@ {
                    if p.meta is None {
                        match parse_meta_value(s, v) {
                            Some((m, e)) => Some((PartialView { meta: Some(m), ..p }, e)),
                            None => None,
                        }
                    } else {
                        None
                    }
                } else if key == "streaming"@ {
                    if p.streaming is None {
                        match parse_bool(s, v) {
                            Some((b, e)) => Some((PartialView { streaming: Some(b), ..p }, e)),
                            None => None,
                        }
                    } else {
                        None
                    }
                } else {
                    match skip_value(s, v, IGNORED_NESTING_LIMIT as nat) {
                        Some(e) => Some((p, e)),
                        None => None,
                    }
                }
            } else {
                None
            }
        },
    }
}

/// Parses members separated by commas until the closing brace; `more` bounds
/// how many commas may still follow.
pub open spec fn parse_members(s: Seq<char>, i: int, p: PartialView, more: nat) -> Option<
    (PartialView, int),
>
    decreases more,
{
    match parse_member(s, i, p) {
        None => None,
        Some((p2, j)) => {
            let k = skip_ws(s, j);
            if k < s.len() && s[k] == ',' {
                if more > 0 {
                    parse_members(s, skip_ws(s, k + 1), p2, (more - 1) as nat)
                } else {
                    None
                }
            } else if k < s.len() && s[k] == '}' {
                Some((p2, k + 1))
            } else {
                None
            }
        },
    }
}

/// The message one whole frame decodes to, or `None` where the text is not a
/// well-formed frame.
pub open spec fn spec_decode(s: Seq<char>) -> Option<MessageView> {
    let i = skip_ws(s, 0);
    if i < s.len() && s[i] == '{' {
        let j = skip_ws(s, i + 1);
        let body = if j < s.len() && s[j] == '}' {
            Some((empty_partial(), j + 1))
        } else {
            parse_members(s, j, empty_partial(), s.len() as nat)
        };
        match body {
            None => None,
            Some((p, k)) => {
                if skip_ws(s, k) == s.len() {
                    Some(complete_view(p))
                } else {
                    None
                }
            },
        }
    } else {
        None
    }
}

// ---------------------------------------------------------------------------
// Exec: the parser, each function mirroring its spec function exactly.
// ---------------------------------------------------------------------------

/// The characters of a text, for indexed parsing.
fn str_to_chars(s: &str) -> (r: Vec<char>)
    ensures
        r@ == s@,
{
    let n = s.unicode_len();
    let mut r: Vec<char> = Vec::new();
    let mut i: usize = 0;
    while i < n
        invariant
            n == s@.len(),
            i <= n,
            r@ == s@.subrange(0, i as int),
        decreases n - i,
    {
        r.push(s.get_char(i));
        proof {
            assert(r@ =~= s@.subrange(0, i + 1 as int));
        }
        i = i + 1;
    }
    proof {
        assert(r@ =~= s@);
    }
    r
}

fn skip_ws_x(v: &Vec<char>, i: usize) -> (r: usize)
    requires
        i <= v@.len(),
    ensures
        r as int == skip_ws(v@, i as int),
        i <= r <= v@.len(),
{
    let mut j = i;
    while j < v.len() && is_ws_x(v[j])
        invariant
            i <= j <= v@.len(),
            skip_ws(v@, i as int) == skip_ws(v@, j as int),
        decreases v@.len() - j,
    {
        j = j + 1;
    }
    j
}

/// Whitespace test, matching [`is_ws`].
fn is_ws_x(c: char) -> (r: bool)
    ensures
        r == is_ws(c),
{
    c == ' ' || c == '\t' || c == '\n' || c == '\r'
}

fn hex_value_x(c: char) -> (r: Option<u32>)
    ensures
        match r {
            Some(d) => hex_value(c) == Some(d as int) && d < 16,
            None => hex_value(c) is None,
        },
{
    let x = c as u32;
    if 48 <= x && x <= 57 {
        Some(x - 48)
    } else if 97 <= x && x <= 102 {
        Some(x - 87)
    } else if 65 <= x && x <= 70 {
        Some(x - 55)
    } else {
        None
    }
}

fn hex4_x(v: &Vec<char>, i: usize) -> (r: Option<u32>)
    requires
        i + 4 <= v.len(),
    ensures
        match r {
            Some(x) => hex4(v@, i as int) == Some(x as int) && x < 0x10000,
            None => hex4(v@, i as int) is None,
        },
{
    let d1 = hex_value_x(v[i]);
    let d2 = hex_value_x(v[i + 1]);
    let d3 = hex_value_x(v[i + 2]);
    let d4 = hex_value_x(v[i + 3]);
    match (d1, d2, d3, d4) {
        (Some(d1), Some(d2), Some(d3), Some(d4)) => Some(d1 * 4096 + d2 * 256 + d3 * 16 + d4),
        _ => None,
    }
}

fn unescape_x(e: char) -> (r: Option<char>)
    ensures
        r == unescape(e),
{
    if e == '"' {
        Some('"')
    } else if e == '\\' {
        Some('\\')
    } else if e == '/' {
        Some('/')
    } else if e == 'n' {
        Some('\n')
    } else if e == 'r' {
        Some('\r')
    } else if e == 't' {
        Some('\t')
    } else if e == 'b' {
        Some(8u8 as char)
    } else if e == 'f' {
        Some(12u8 as char)
    } else {
        None
    }
}

/// What the string-body parser yields once `pre` has already been decoded.
pub open spec fn psb_with_prefix(pre: Seq<char>, r: Option<(Seq<char>, int)>) -> Option<
    (Seq<char>, int),
> {
    match r {
        None => None,
        Some((t, j)) => Some((pre + t, j)),
    }
}

fn parse_string_body_x(v: &Vec<char>, start: usize) -> (r: Option<(String, usize)>)
    requires
        start <= v@.len(),
    ensures
        match r {
            None => parse_string_body(v@, start as int) is None,
            Some((x, j)) => parse_string_body(v@, start as int) == Some((x@, j as int)) && j
                <= v@.len(),
        },
{
    let mut acc = String::new();
    let mut i = start;
    loop
        invariant
            start <= i <= v@.len(),
            psb_with_prefix(acc@, parse_string_body(v@, i as int)) == parse_string_body(
                v@,
                start as int,
            ),
        decreases v@.len() - i,
    {
        if i >= v.len() {
            return None;
        }
        let c = v[i];
        if c == '"' {
            proof {
                assert(acc@ + Seq::<char>::empty() =~= acc@);
            }
            return Some((acc, i + 1));
        }
        if c == '\\' {
            if v.len() - i < 2 {
                return None;
            }
            let e = v[i + 1];
            if e == 'u' {
                if v.len() - i < 6 {
                    return None;
                }
                let val = match hex4_x(v, i + 2) {
                    Some(val) => val,
                    None => {
                        return None;
                    },
                };
                if !(0xD800 <= val && val <= 0xDFFF) {
                    let c2 = match char::from_u32(val) {
                        Some(c2) => c2,
                        None => {
                            proof {
                                assert(false);
                            }
                            return None;
                        },
                    };
                    proof {
                        let ghost old_acc = acc@;
                        let ghost rest = parse_string_body(v@, i + 6 as int);
                        assert(parse_string_body(v@, i as int) == psb_with_prefix(seq![c2], rest));
                        if rest is Some {
                            assert(old_acc + (seq![c2] + rest.unwrap().0) =~= (old_acc + seq![c2])
                                + rest.unwrap().0);
                        }
                    }
                    acc.push(c2);
                    i = i + 6;
                } else if val <= 0xDBFF {
                    if v.len() - i < 12 {
                        return None;
                    }
                    if !(v[i + 6] == '\\' && v[i + 7] == 'u') {
                        return None;
                    }
                    let lo = match hex4_x(v, i + 8) {
                        Some(lo) => lo,
                        None => {
                            return None;
                        },
                    };
                    if !(0xDC00 <= lo && lo <= 0xDFFF) {
                        return None;
                    }
                    let cp = 0x10000 + (val - 0xD800) * 1024 + (lo - 0xDC00);
                    let c2 = match char::from_u32(cp) {
                        Some(c2) => c2,
                        None => {
                            proof {
                                assert(false);
                            }
                            return None;
                        },
                    };
                    proof {
                        let ghost old_acc = acc@;
                        let ghost rest = parse_string_body(v@, i + 12 as int);
                        assert(parse_string_body(v@, i as int) == psb_with_prefix(seq![c2], rest));
                        if rest is Some {
                            assert(old_acc + (seq![c2] + rest.unwrap().0) =~= (old_acc + seq![c2])
                                + rest.unwrap().0);
                        }
                    }
                    acc.push(c2);
                    i = i + 12;
                } else {
                    // a lone trailing surrogate half
                    return None;
                }
            } else {
                match unescape_x(e) {
                    Some(c2) => {
                        proof {
                            let ghost old_acc = acc@;
                            let ghost rest = parse_string_body(v@, i + 2 as int);
                            assert(parse_string_body(v@, i as int) == psb_with_prefix(
                                seq![c2],
                                rest,
                            ));
                            if rest is Some {
                                assert(old_acc + (seq![c2] + rest.unwrap().0) =~= (old_acc
                                    + seq![c2]) + rest.unwrap().0);
                            }
                        }
                        acc.push(c2);
                        i = i + 2;
                    },
                    None => {
                        return None;
                    },
                }
            }
        } else if (c as u32) < 32 {
            return None;
        } else {
            proof {
                let ghost old_acc = acc@;
                let ghost rest = parse_string_body(v@, i + 1 as int);
                assert(parse_string_body(v@, i as int) == psb_with_prefix(seq![c], rest));
                if rest is Some {
                    assert(old_acc + (seq![c] + rest.unwrap().0) =~= (old_acc + seq![c])
                        + rest.unwrap().0);
                }
            }
            acc.push(c);
            i = i + 1;
        }
    }
}

fn parse_json_string_x(v: &Vec<char>, i: usize) -> (r: Option<(String, usize)>)
    requires
        i <= v@.len(),
    ensures
        match r {
            None => parse_json_string(v@, i as int) is None,
            Some((x, j)) => parse_json_string(v@, i as int) == Some((x@, j as int)) && j
                <= v@.len(),
        },
{
    if i < v.len() && v[i] == '"' {
        parse_string_body_x(v, i + 1)
    } else {
        None
    }
}

fn parse_lit_x(v: &Vec<char>, i: usize, lit: &str) -> (r: Option<usize>)
    requires
        i <= v@.len(),
    ensures
        match r {
            None => parse_lit(v@, i as int, lit@) is None,
            Some(j) => parse_lit(v@, i as int, lit@) == Some(j as int) && i <= j <= v@.len(),
        },
{
    let n = lit.unicode_len();
    if v.len() - i < n {
        return None;
    }
    let mut k: usize = 0;
    while k < n
        invariant
            n == lit@.len(),
            i + n <= v.len(),
            k <= n,
            forall|m: int| 0 <= m < k ==> v@[i + m] == lit@[m],
        decreases n - k,
    {
        if v[i + k] != lit.get_char(k) {
            proof {
                assert(v@.subrange(i as int, i + lit@.len()) != lit@) by {
                    assert(v@.subrange(i as int, i + lit@.len())[k as int] != lit@[k as int]);
                }
            }
            return None;
        }
        k = k + 1;
    }
    proof {
        assert(v@.subrange(i as int, i + lit@.len()) =~= lit@);
    }
    Some(i + n)
}

fn parse_meta_value_x(v: &Vec<char>, i: usize) -> (r: Option<(Option<String>, usize)>)
    requires
        i <= v@.len(),
    ensures
        match r {
            None => parse_meta_value(v@, i as int) is None,
            Some((m, j)) => parse_meta_value(v@, i as int) == Some(
                (
                    match m {
                        None => None::<Seq<char>>,
                        Some(x) => Some(x@),
                    },
                    j as int,
                ),
            ) && j <= v@.len(),
        },
{
    match parse_lit_x(v, i, "null") {
        Some(j) => Some((None, j)),
        None => match parse_json_string_x(v, i) {
            Some((x, j)) => Some((Some(x), j)),
            None => None,
        },
    }
}

fn parse_bool_x(v: &Vec<char>, i: usize) -> (r: Option<(bool, usize)>)
    requires
        i <= v@.len(),
    ensures
        match r {
            None => parse_bool(v@, i as int) is None,
            Some((b, j)) => parse_bool(v@, i as int) == Some((b, j as int)) && j <= v@.len(),
        },
{
    match parse_lit_x(v, i, "true") {
        Some(j) => Some((true, j)),
        None => match parse_lit_x(v, i, "false") {
            Some(j) => Some((false, j)),
            None => None,
        },
    }
}

/// Digit test, matching [`is_digit`].
fn is_digit_x(c: char) -> (r: bool)
    ensures
        r == is_digit(c),
{
    let x = c as u32;
    48 <= x && x <= 57
}

fn skip_digits_x(v: &Vec<char>, i: usize) -> (r: usize)
    requires
        i <= v.len(),
    ensures
        r as int == skip_digits(v@, i as int),
        i <= r <= v@.len(),
{
    let mut j = i;
    while j < v.len() && is_digit_x(v[j])
        invariant
            i <= j <= v@.len(),
            skip_digits(v@, i as int) == skip_digits(v@, j as int),
        decreases v@.len() - j,
    {
        j = j + 1;
    }
    j
}

fn skip_number_x(v: &Vec<char>, i: usize) -> (r: Option<usize>)
    requires
        i <= v.len(),
    ensures
        match r {
            None => skip_number(v@, i as int) is None,
            Some(j) => skip_number(v@, i as int) == Some(j as int) && j <= v@.len(),
        },
{
    let a = if i < v.len() && v[i] == '-' {
        i + 1
    } else {
        i
    };
    if !(a < v.len() && is_digit_x(v[a])) {
        return None;
    }
    let b = if v[a] == '0' {
        a + 1
    } else {
        skip_digits_x(v, a)
    };
    let c = if b < v.len() && v[b] == '.' {
        if b + 1 < v.len() && is_digit_x(v[b + 1]) {
            skip_digits_x(v, b + 1)
        } else {
            return None;
        }
    } else {
        b
    };
    let d = if c < v.len() && (v[c] == 'e' || v[c] == 'E') {
        let e0 = if c + 1 < v.len() && (v[c + 1] == '+' || v[c + 1] == '-') {
            c + 2
        } else {
            c + 1
        };
        if e0 < v.len() && is_digit_x(v[e0]) {
            skip_digits_x(v, e0)
        } else {
            return None;
        }
    } else {
        c
    };
    Some(d)
}

fn skip_value_x(v: &Vec<char>, i: usize, depth: usize) -> (r: Option<usize>)
    requires
        i <= v.len(),
    ensures
        match r {
            None => skip_value(v@, i as int, depth as nat) is None,
            Some(j) => skip_value(v@, i as int, depth as nat) == Some(j as int) && j <= v@.len(),
        },
    decreases depth,
{
    if i >= v.len() {
        return None;
    }
    let c = v[i];
    if c == '"' {
        match parse_string_body_x(v, i + 1) {
            Some((_x, j)) => Some(j),
            None => None,
        }
    } else if c == 't' {
        parse_lit_x(v, i, "true")
    } else if c == 'f' {
        parse_lit_x(v, i, "false")
    } else if c == 'n' {
        parse_lit_x(v, i, "null")
    } else if c == '[' {
        if depth == 0 {
            return None;
        }
        let start = skip_ws_x(v, i + 1);
        if start < v.len() && v[start] == ']' {
            return Some(start + 1);
        }
        let ghost d = (depth - 1) as nat;
        proof {
            assert(skip_value(v@, i as int, depth as nat) == skip_items(
                v@,
                start as int,
                d,
                v@.len() as nat,
            ));
        }
        let mut j = start;
        let mut more: usize = v.len();
        loop
            invariant
                j <= v.len(),
                1 <= depth,
                d == (depth - 1) as nat,
                skip_value(v@, i as int, depth as nat) == skip_items(
                    v@,
                    j as int,
                    d,
                    more as nat,
                ),
            decreases more,
        {
            if more == 0 {
                return None;
            }
            match skip_value_x(v, j, depth - 1) {
                None => {
                    return None;
                },
                Some(j2) => {
                    let k = skip_ws_x(v, j2);
                    if k < v.len() && v[k] == ',' {
                        j = skip_ws_x(v, k + 1);
                        more = more - 1;
                    } else if k < v.len() && v[k] == ']' {
                        return Some(k + 1);
                    } else {
                        return None;
                    }
                },
            }
        }
    } else if c == '{' {
        if depth == 0 {
            return None;
        }
        let start = skip_ws_x(v, i + 1);
        if start < v.len() && v[start] == '}' {
            return Some(start + 1);
        }
        let ghost d = (depth - 1) as nat;
        proof {
            assert(skip_value(v@, i as int, depth as nat) == skip_members(
                v@,
                start as int,
                d,
                v@.len() as nat,
            ));
        }
        let mut j = start;
        let mut more: usize = v.len();
        loop
            invariant
                j <= v.len(),
                1 <= depth,
                d == (depth - 1) as nat,
                skip_value(v@, i as int, depth as nat) == skip_members(
                    v@,
                    j as int,
                    d,
                    more as nat,
                ),
            decreases more,
        {
            if more == 0 {
                return None;
            }
            let key_j = match parse_json_string_x(v, j) {
                None => {
                    return None;
                },
                Some(kj) => kj,
            };
            let k = skip_ws_x(v, key_j.1);
            if !(k < v.len() && v[k] == ':') {
                return None;
            }
            let w = skip_ws_x(v, k + 1);
            match skip_value_x(v, w, depth - 1) {
                None => {
                    return None;
                },
                Some(j2) => {
                    let k2 = skip_ws_x(v, j2);
                    if k2 < v.len() && v[k2] == ',' {
                        j = skip_ws_x(v, k2 + 1);
                        more = more - 1;
                    } else if k2 < v.len() && v[k2] == '}' {
                        return Some(k2 + 1);
                    } else {
                        return None;
                    }
                },
            }
        }
    } else {
        skip_number_x(v, i)
    }
}

/// Character-for-character equality of two texts.
fn str_eq(a: &str, b: &str) -> (r: bool)
    ensures
        r == (a@ == b@),
{
    let na = a.unicode_len();
    let nb = b.unicode_len();
    if na != nb {
        proof {
            assert(a@ != b@);
        }
        return false;
    }
    let mut k: usize = 0;
    while k < na
        invariant
            na == a@.len(),
            na == b@.len(),
            k <= na,
            forall|m: int| 0 <= m < k ==> a@[m] == b@[m],
        decreases na - k,
    {
        if a.get_char(k) != b.get_char(k) {
            proof {
                assert(a@[k as int] != b@[k as int]);
            }
            return false;
        }
        k = k + 1;
    }
    proof {
        assert(a@ =~= b@);
    }
    true
}

/// The message kind a wire name stands for, matching [`kind_of_name`].
fn kind_of_name_x(n: &str) -> (r: Option<MessageType>)
    ensures
        r == kind_of_name(n@),
{
    if str_eq(n, "error") {
        Some(MessageType::Error)
    } else if str_eq(n, "echo") {
        Some(MessageType::Echo)
    } else if str_eq(n, "time") {
        Some(MessageType::Time)
    } else if str_eq(n, "ls") {
        Some(MessageType::Ls)
    } else if str_eq(n, "sh") {
        Some(MessageType::Sh)
    } else if str_eq(n, "empty") {
        Some(MessageType::Empty)
    } else {
        None
    }
}

/// Exec counterpart of [`PartialView`].
struct PartialFrame {
    message: Option<String>,
    msg_type: Option<MessageType>,
    meta: Option<Option<String>>,
    streaming: Option<bool>,
}

impl View for PartialFrame {
    type V = PartialView;

    closed spec fn view(&self) -> PartialView {
        PartialView {
            message: match self.message {
                Some(ref m) => Some(m@),
                None => None,
            },
            msg_type: self.msg_type,
            meta: match self.meta {
                Some(ref m) => match m {
                    Some(ref x) => Some(Some(x@)),
                    None => Some(None),
                },
                None => None,
            },
            streaming: self.streaming,
        }
    }
}

fn parse_member_x(v: &Vec<char>, i: usize, p: PartialFrame) -> (r: Option<(PartialFrame, usize)>)
    requires
        i <= v@.len(),
    ensures
        match r {
            None => parse_member(v@, i as int, p@) is None,
            Some((p2, j)) => parse_member(v@, i as int, p@) == Some((p2@, j as int)) && j
                <= v@.len(),
        },
{
    let key_j = match parse_json_string_x(v, i) {
        None => {
            return None;
        },
        Some(kj) => kj,
    };
    let key = key_j.0;
    let j = key_j.1;
    let k = skip_ws_x(v, j);
    if !(k < v.len() && v[k] == ':') {
        return None;
    }
    let w = skip_ws_x(v, k + 1);
    if str_eq(key.as_str(), "message") {
        if p.message.is_none() {
            match parse_json_string_x(v, w) {
                Some((x, e)) => {
                    let p2 = PartialFrame { message: Some(x), ..p };
                    proof {
                        assert(p2@ =~= (PartialView { message: Some(p2.message.unwrap()@), ..p@ }));
                    }
                    Some((p2, e))
                },
                None => None,
            }
        } else {
            None
        }
    } else if str_eq(key.as_str(), "type") {
        if p.msg_type.is_none() {
            match parse_json_string_x(v, w) {
                Some((nm, e)) => match kind_of_name_x(nm.as_str()) {
                    Some(t) => {
                        let p2 = PartialFrame { msg_type: Some(t), ..p };
                        proof {
                            assert(p2@ =~= (PartialView { msg_type: Some(t), ..p@ }));
                        }
                        Some((p2, e))
                    },
                    None => None,
                },
                None => None,
            }
        } else {
            None
        }
    } else if str_eq(key.as_str(), "meta") {
        if p.meta.is_none() {
            match parse_meta_value_x(v, w) {
                Some((m, e)) => {
                    let ghost m_v = match m {
                        None => None::<Seq<char>>,
                        Some(ref x) => Some(x@),
                    };
                    let p2 = PartialFrame { meta: Some(m), ..p };
                    proof {
                        assert(p2@ =~= (PartialView { meta: Some(m_v), ..p@ }));
                    }
                    Some((p2, e))
                },
                None => None,
            }
        } else {
            None
        }
    } else if str_eq(key.as_str(), "streaming") {
        if p.streaming.is_none() {
            match parse_bool_x(v, w) {
                Some((b, e)) => {
                    let p2 = PartialFrame { streaming: Some(b), ..p };
                    proof {
                        assert(p2@ =~= (PartialView { streaming: Some(b), ..p@ }));
                    }
                    Some((p2, e))
                },
                None => None,
            }
        } else {
            None
        }
    } else {
        match skip_value_x(v, w, IGNORED_NESTING_LIMIT) {
            Some(e) => Some((p, e)),
            None => None,
        }
    }
}

fn parse_members_x(v: &Vec<char>, start: usize, first: PartialFrame) -> (r: Option<
    (PartialFrame, usize),
>)
    requires
        start <= v@.len(),
    ensures
        match r {
            None => parse_members(v@, start as int, first@, v@.len() as nat) is None,
            Some((p2, j)) => parse_members(v@, start as int, first@, v@.len() as nat) == Some(
                (p2@, j as int),
            ) && j <= v@.len(),
        },
{
    let mut more: usize = v.len();
    let mut i = start;
    let mut p = first;
    loop
        invariant
            i <= v@.len(),
            parse_members(v@, start as int, first@, v@.len() as nat) == parse_members(
                v@,
                i as int,
                p@,
                more as nat,
            ),
        decreases more,
    {
        let ghost p_v = p@;
        match parse_member_x(v, i, p) {
            None => {
                return None;
            },
            Some((p2, j)) => {
                let k = skip_ws_x(v, j);
                if k < v.len() && v[k] == ',' {
                    if more > 0 {
                        i = skip_ws_x(v, k + 1);
                        p = p2;
                        more = more - 1;
                    } else {
                        return None;
                    }
                } else if k < v.len() && v[k] == '}' {
                    return Some((p2, k + 1));
                } else {
                    return None;
                }
            },
        }
    }
}

/// Decodes one wire frame; `None` where the text is not a well-formed frame.
pub fn decode_frame(s: &str) -> (r: Option<MessageData>)
    ensures
        r is Some <==> spec_decode(s@) is Some,
        r is Some ==> r.unwrap()@ == spec_decode(s@).unwrap(),
{
    let v = str_to_chars(s);
    let i = skip_ws_x(&v, 0);
    if !(i < v.len() && v[i] == '{') {
        return None;
    }
    let j = skip_ws_x(&v, i + 1);
    let empty = PartialFrame { message: None, msg_type: None, meta: None, streaming: None };
    proof {
        assert(empty@ =~= empty_partial());
    }
    let body = if j < v.len() && v[j] == '}' {
        Some((empty, j + 1))
    } else {
        parse_members_x(&v, j, empty)
    };
    match body {
        None => None,
        Some((p, k)) => {
            if skip_ws_x(&v, k) == v.len() {
                let r = MessageData {
                    message: match p.message {
                        Some(m) => m,
                        None => String::new(),
                    },
                    msg_type: match p.msg_type {
                        Some(t) => t,
                        None => MessageType::Echo,
                    },
                    meta: match p.meta {
                        Some(m) => m,
                        None => None,
                    },
                    streaming: match p.streaming {
                        Some(b) => b,
                        None => true,
                    },
                };
                proof {
                    assert(r@ =~= complete_view(p@));
                }
                Some(r)
            } else {
                None
            }
        },
    }
}

/// Decodes an inbound frame; a decode failure becomes an Error-kind message
/// carrying a description, so a malformed frame never drops the connection.
pub fn decode_incoming(raw: &str) -> (r: MessageData)
    ensures
        spec_decode(raw@) is Some ==> r@ == spec_decode(raw@).unwrap(),
        spec_decode(raw@) is None ==> r@ == (MessageView {
            message: "malformed message frame"@,
            msg_type: MessageType::Error,
            ..default_view()
        }),
{
    match decode_frame(raw) {
        Some(m) => m,
        None => MessageData::new_error(String::from_str("malformed message frame")),
    }
}

} // verus!
