//! The codec round trip: decoding a canonically encoded message gives back
//! every field unchanged.

use vstd::prelude::*;

use crate::codec::bool_text;
use crate::codec::escape_char;
use crate::codec::escape_seq;
use crate::codec::json_string;
use crate::codec::kind_name;
use crate::codec::meta_text;
use crate::codec::spec_encode;
use crate::codec::hex_digit;
use crate::decode::hex_value;
use crate::decode::is_ws;
use crate::decode::kind_of_name;
use crate::decode::parse_bool;
use crate::decode::parse_json_string;
use crate::decode::parse_lit;
use crate::decode::parse_member;
use crate::decode::parse_members;
use crate::decode::parse_meta_value;
use crate::decode::parse_string_body;
use crate::decode::skip_ws;
use crate::decode::spec_decode;
use crate::decode::PartialView;
use crate::decode::complete_view;
use crate::decode::empty_partial;
use crate::decode::unescape;
use crate::message::MessageType;
use crate::message::MessageView;

verus! {

/// Parsing a string body from the escaped form of `x` recovers `x` and stops
/// just past the closing quote.
proof fn lemma_parse_escaped(s: Seq<char>, i: int, x: Seq<char>, rest: Seq<char>)
    requires
        0 <= i <= s.len(),
        s.subrange(i, s.len() as int) == escape_seq(x) + seq!['"'] + rest,
    ensures
        parse_string_body(s, i) == Some((x, i + escape_seq(x).len() + 1)),
    decreases x.len(),
{
    let tail = s.subrange(i, s.len() as int);
    let e = escape_seq(x);
    assert(tail.len() == e.len() + 1 + rest.len());
    assert(forall|k: int| 0 <= k < tail.len() ==> #[trigger] tail[k] == s[i + k]);
    if x.len() == 0 {
        assert(e.len() == 0);
        assert(tail[0] == (e + seq!['"'] + rest)[0]);
        assert(s[i] == '"');
        assert(parse_string_body(s, i) == Some((Seq::<char>::empty(), i + 1)));
        assert(x =~= Seq::<char>::empty());
    } else {
        let c = x[0];
        let x2 = x.drop_first();
        let ec = escape_char(c);
        let e2 = escape_seq(x2);
        assert(e == ec + e2);
        let d = ec.len();
        let after = e2 + seq!['"'] + rest;
        assert(tail =~= ec + after) by {
            assert forall|k: int| 0 <= k < tail.len() implies tail[k] == (ec + after)[k] by {
                assert(tail[k] == ((ec + e2) + seq!['"'] + rest)[k]);
            }
        }
        // the characters of the current escape are visible at i, i + 1, ...
        assert forall|k: int| 0 <= k < d implies #[trigger] s[i + k] == ec[k] by {
            assert(tail[k] == (ec + after)[k]);
        }
        // the recursive tail starts right after this escape
        assert(s.subrange(i + d, s.len() as int) =~= after) by {
            assert forall|k: int| 0 <= k < s.len() - i - d implies #[trigger] s.subrange(
                i + d,
                s.len() as int,
            )[k] == after[k] by {
                assert(s.subrange(i + d, s.len() as int)[k] == s[i + d + k]);
                assert(tail[d + k] == (ec + after)[d + k]);
            }
        }
        if c == '"' || c == '\\' || c == '\n' || c == '\r' || c == '\t' {
            // a two-character escape
            assert(d == 2);
            assert(s[i + 0] == ec[0] && s[i + 1] == ec[1]);
            assert(s[i] == '\\' && s[i + 1] == ec[1]);
            assert(unescape(ec[1]) == Some(c));
            lemma_parse_escaped(s, i + 2, x2, rest);
            assert(parse_string_body(s, i + 2) == Some((x2, i + 2 + e2.len() + 1)));
            assert(parse_string_body(s, i) == Some((seq![c] + x2, i + 2 + e2.len() + 1)));
            assert(seq![c] + x2 =~= x);
        } else if (c as u32) < 32 {
            // a \u00XX escape
            let hi = ((c as u32) / 16) as int;
            let lo = ((c as u32) % 16) as int;
            vstd::utf8::char_is_scalar(c);
            vstd::utf8::char_u32_cast(c, c as u32);
            assert(d == 6);
            assert(s[i + 0] == ec[0] && s[i + 1] == ec[1] && s[i + 2] == ec[2] && s[i + 3] == ec[3]
                && s[i + 4] == ec[4] && s[i + 5] == ec[5]);
            assert(s[i] == '\\' && s[i + 1] == 'u' && s[i + 2] == '0' && s[i + 3] == '0');
            assert(s[i + 4] == hex_digit(hi) && s[i + 5] == hex_digit(lo));
            assert(0 <= hi < 2 && 0 <= lo < 16);
            assert(hex_value('0') == Some(0int));
            assert(hex_value(hex_digit(hi)) == Some(hi));
            assert(hex_value(hex_digit(lo)) == Some(lo));
            let val = 0 * 4096 + 0 * 256 + hi * 16 + lo;
            assert(val == c as u32) by {
                assert((c as u32) / 16 * 16 + (c as u32) % 16 == c as u32);
            }
            assert(val < 128);
            assert(val as char == c);
            lemma_parse_escaped(s, i + 6, x2, rest);
            assert(parse_string_body(s, i + 6) == Some((x2, i + 6 + e2.len() + 1)));
            assert(parse_string_body(s, i) == Some((seq![val as char] + x2, i + 6 + e2.len()
                + 1)));
            assert(seq![val as char] + x2 =~= x);
        } else {
            // a plain character
            assert(d == 1);
            assert(s[i + 0] == ec[0]);
            assert(s[i] == c);
            lemma_parse_escaped(s, i + 1, x2, rest);
            assert(parse_string_body(s, i + 1) == Some((x2, i + 1 + e2.len() + 1)));
            assert(parse_string_body(s, i) == Some((seq![c] + x2, i + 1 + e2.len() + 1)));
            assert(seq![c] + x2 =~= x);
        }
    }
}

/// Parsing a whole string token from the encoded form of `x` recovers `x`.
proof fn lemma_parse_json_string(s: Seq<char>, i: int, x: Seq<char>, rest: Seq<char>)
    requires
        0 <= i <= s.len(),
        s.subrange(i, s.len() as int) == json_string(x) + rest,
    ensures
        parse_json_string(s, i) == Some((x, i + json_string(x).len())),
{
    let tail = s.subrange(i, s.len() as int);
    let e = escape_seq(x);
    let after = e + seq!['"'] + rest;
    assert(tail.len() == e.len() + 2 + rest.len());
    assert(forall|k: int| 0 <= k < tail.len() ==> #[trigger] tail[k] == s[i + k]);
    assert(tail =~= seq!['"'] + after) by {
        assert forall|k: int| 0 <= k < tail.len() implies tail[k] == (seq!['"'] + after)[k] by {
            assert(tail[k] == (((seq!['"'] + e) + seq!['"']) + rest)[k]);
        }
    }
    assert(s[i] == tail[0]);
    assert(s[i] == '"');
    assert(s.subrange(i + 1, s.len() as int) =~= after) by {
        assert forall|k: int| 0 <= k < s.len() - i - 1 implies #[trigger] s.subrange(
            i + 1,
            s.len() as int,
        )[k] == after[k] by {
            assert(s.subrange(i + 1, s.len() as int)[k] == s[i + 1 + k]);
            assert(tail[1 + k] == (seq!['"'] + after)[1 + k]);
        }
    }
    lemma_parse_escaped(s, i + 1, x, rest);
}

/// Parsing the fixed word `lit` where the text holds exactly `lit` succeeds.
proof fn lemma_parse_lit(s: Seq<char>, i: int, lit: Seq<char>, rest: Seq<char>)
    requires
        0 <= i <= s.len(),
        s.subrange(i, s.len() as int) == lit + rest,
    ensures
        parse_lit(s, i, lit) == Some(i + lit.len()),
{
    let tail = s.subrange(i, s.len() as int);
    assert(tail.len() == lit.len() + rest.len());
    assert(i + lit.len() <= s.len());
    assert(forall|k: int| 0 <= k < tail.len() ==> #[trigger] tail[k] == s[i + k]);
    assert(s.subrange(i, i + lit.len()) =~= lit) by {
        assert forall|k: int| 0 <= k < lit.len() implies s.subrange(i, i + lit.len())[k]
            == lit[k] by {
            assert(s.subrange(i, i + lit.len())[k] == s[i + k]);
            assert(tail[k] == (lit + rest)[k]);
        }
    }
}

/// A suffix fact moves past its head token: what follows `head` at `i` is
/// `tail2` at `i + head.len()`.
proof fn lemma_suffix(s: Seq<char>, i: int, head: Seq<char>, tail2: Seq<char>)
    requires
        0 <= i <= s.len(),
        s.subrange(i, s.len() as int) == head + tail2,
    ensures
        s.subrange(i + head.len(), s.len() as int) == tail2,
        i + head.len() <= s.len(),
{
    let t = s.subrange(i, s.len() as int);
    assert(t.len() == head.len() + tail2.len());
    assert(forall|k: int| 0 <= k < t.len() ==> #[trigger] t[k] == s[i + k]);
    assert(s.subrange(i + head.len(), s.len() as int) =~= tail2) by {
        assert forall|k: int| 0 <= k < tail2.len() implies s.subrange(
            i + head.len(),
            s.len() as int,
        )[k] == tail2[k] by {
            assert(s.subrange(i + head.len(), s.len() as int)[k] == s[i + head.len() + k]);
            assert(t[head.len() + k] == (head + tail2)[head.len() + k]);
        }
    }
}

/// The first character of the suffix at `i` is the head token's first
/// character.
proof fn lemma_head_char(s: Seq<char>, i: int, head: Seq<char>, tail2: Seq<char>)
    requires
        0 <= i <= s.len(),
        s.subrange(i, s.len() as int) == head + tail2,
        head.len() > 0,
    ensures
        i < s.len(),
        s[i] == head[0],
{
    let t = s.subrange(i, s.len() as int);
    assert(t.len() == head.len() + tail2.len());
    assert(t[0] == s[i + 0]);
    assert(t[0] == (head + tail2)[0]);
    assert(s[i + 0] == s[i]);
}

/// The wire name of a kind reads back as that kind.
proof fn lemma_kind_name_round(t: MessageType)
    ensures
        kind_of_name(kind_name(t)) == Some(t),
{
    broadcast use vstd::string::group_string_axioms;

    reveal_strlit("error");
    reveal_strlit("echo");
    reveal_strlit("time");
    reveal_strlit("ls");
    reveal_strlit("sh");
    reveal_strlit("empty");
    assert("error"@.len() == 5 && "echo"@.len() == 4 && "time"@.len() == 4 && "ls"@.len() == 2
        && "sh"@.len() == 2 && "empty"@.len() == 5);
    assert("time"@[0] == 't' && "echo"@[0] == 'e');
    assert("sh"@[0] == 's' && "ls"@[0] == 'l');
    assert("empty"@[1] == 'm' && "error"@[1] == 'r');
    match t {
        MessageType::Error => {
            assert(kind_of_name("error"@) == Some(MessageType::Error));
        },
        MessageType::Echo => {
            assert("echo"@ != "error"@);
            assert(kind_of_name("echo"@) == Some(MessageType::Echo));
        },
        MessageType::Time => {
            assert("time"@ != "error"@);
            assert("time"@ != "echo"@);
            assert(kind_of_name("time"@) == Some(MessageType::Time));
        },
        MessageType::Ls => {
            assert(kind_of_name("ls"@) == Some(MessageType::Ls));
        },
        MessageType::Sh => {
            assert("sh"@ != "ls"@);
            assert(kind_of_name("sh"@) == Some(MessageType::Sh));
        },
        MessageType::Empty => {
            assert("empty"@ != "error"@);
            assert(kind_of_name("empty"@) == Some(MessageType::Empty));
        },
    }
}

/// One parsed member whose value is a string token.
proof fn lemma_member_message(s: Seq<char>, i: int, x: Seq<char>, after: Seq<char>, p: PartialView)
    requires
        0 <= i <= s.len(),
        s.subrange(i, s.len() as int) == json_string("message"@) + (seq![':'] + (json_string(x)
            + after)),
        after.len() > 0,
        !is_ws(after[0]),
        p.message is None,
    ensures
        ({
            let e = i + json_string("message"@).len() + 1 + json_string(x).len();
            &&& parse_member(s, i, p) == Some(((PartialView { message: Some(x), ..p }), e))
            &&& s.subrange(e, s.len() as int) == after
            &&& e < s.len()
            &&& s[e] == after[0]
        }),
{
    broadcast use vstd::string::group_string_axioms;

    reveal_strlit("message");
    let k = json_string("message"@);
    let a = i + k.len() as int;
    let b = a + 1;
    let v_after = json_string(x) + after;
    lemma_parse_json_string(s, i, "message"@, seq![':'] + v_after);
    lemma_suffix(s, i, k, seq![':'] + v_after);
    lemma_head_char(s, a, seq![':'], v_after);
    lemma_suffix(s, a, seq![':'], v_after);
    assert(skip_ws(s, a) == a);
    lemma_head_char(s, b, json_string(x), after);
    assert(json_string(x)[0] == '"');
    assert(skip_ws(s, b) == b);
    lemma_parse_json_string(s, b, x, after);
    let e = b + json_string(x).len() as int;
    lemma_suffix(s, b, json_string(x), after);
    assert(after =~= after + Seq::<char>::empty());
    lemma_head_char(s, e, after, Seq::<char>::empty());
    assert(parse_member(s, i, p) == Some(((PartialView { message: Some(x), ..p }), e)));
}

/// One parsed member whose value is a kind name.
proof fn lemma_member_type(s: Seq<char>, i: int, t: MessageType, after: Seq<char>, p: PartialView)
    requires
        0 <= i <= s.len(),
        s.subrange(i, s.len() as int) == json_string("type"@) + (seq![':'] + (json_string(
            kind_name(t),
        ) + after)),
        after.len() > 0,
        !is_ws(after[0]),
        p.msg_type is None,
    ensures
        ({
            let e = i + json_string("type"@).len() + 1 + json_string(kind_name(t)).len();
            &&& parse_member(s, i, p) == Some(((PartialView { msg_type: Some(t), ..p }), e))
            &&& s.subrange(e, s.len() as int) == after
            &&& e < s.len()
            &&& s[e] == after[0]
        }),
{
    broadcast use vstd::string::group_string_axioms;

    reveal_strlit("type");
    reveal_strlit("message");
    assert("type"@.len() == 4 && "message"@.len() == 7);
    assert("type"@ != "message"@);
    let k = json_string("type"@);
    let a = i + k.len() as int;
    let b = a + 1;
    let v_after = json_string(kind_name(t)) + after;
    lemma_parse_json_string(s, i, "type"@, seq![':'] + v_after);
    lemma_suffix(s, i, k, seq![':'] + v_after);
    lemma_head_char(s, a, seq![':'], v_after);
    lemma_suffix(s, a, seq![':'], v_after);
    assert(skip_ws(s, a) == a);
    lemma_head_char(s, b, json_string(kind_name(t)), after);
    assert(json_string(kind_name(t))[0] == '"');
    assert(skip_ws(s, b) == b);
    lemma_parse_json_string(s, b, kind_name(t), after);
    lemma_kind_name_round(t);
    let e = b + json_string(kind_name(t)).len() as int;
    lemma_suffix(s, b, json_string(kind_name(t)), after);
    assert(after =~= after + Seq::<char>::empty());
    lemma_head_char(s, e, after, Seq::<char>::empty());
    assert(parse_member(s, i, p) == Some(((PartialView { msg_type: Some(t), ..p }), e)));
}

/// One parsed member whose value is a correlation tag: a string or null.
proof fn lemma_member_meta(
    s: Seq<char>,
    i: int,
    m: Option<Seq<char>>,
    after: Seq<char>,
    p: PartialView,
)
    requires
        0 <= i <= s.len(),
        s.subrange(i, s.len() as int) == json_string("meta"@) + (seq![':'] + (meta_text(m)
            + after)),
        after.len() > 0,
        !is_ws(after[0]),
        p.meta is None,
    ensures
        ({
            let e = i + json_string("meta"@).len() + 1 + meta_text(m).len();
            &&& parse_member(s, i, p) == Some(((PartialView { meta: Some(m), ..p }), e))
            &&& s.subrange(e, s.len() as int) == after
            &&& e < s.len()
            &&& s[e] == after[0]
        }),
{
    broadcast use vstd::string::group_string_axioms;

    reveal_strlit("meta");
    reveal_strlit("message");
    reveal_strlit("type");
    reveal_strlit("null");
    assert("meta"@.len() == 4 && "message"@.len() == 7 && "type"@.len() == 4 && "null"@.len()
        == 4);
    assert("meta"@[0] == 'm' && "type"@[0] == 't');
    assert("meta"@ != "message"@ && "meta"@ != "type"@);
    assert("null"@[0] == 'n');
    let k = json_string("meta"@);
    let a = i + k.len() as int;
    let b = a + 1;
    let v_after = meta_text(m) + after;
    lemma_parse_json_string(s, i, "meta"@, seq![':'] + v_after);
    lemma_suffix(s, i, k, seq![':'] + v_after);
    lemma_head_char(s, a, seq![':'], v_after);
    lemma_suffix(s, a, seq![':'], v_after);
    assert(skip_ws(s, a) == a);
    lemma_head_char(s, b, meta_text(m), after);
    let e = b + meta_text(m).len() as int;
    match m {
        None => {
            assert(meta_text(m) == "null"@);
            assert(s[b] == 'n');
            assert(skip_ws(s, b) == b);
            lemma_parse_lit(s, b, "null"@, after);
            assert(parse_meta_value(s, b) == Some((None::<Seq<char>>, e)));
        },
        Some(x) => {
            assert(meta_text(m) == json_string(x));
            assert(json_string(x)[0] == '"');
            assert(s[b] == '"');
            assert(skip_ws(s, b) == b);
            if b + 4 <= s.len() {
                assert(s.subrange(b, b + 4)[0] == s[b + 0]);
                assert(s.subrange(b, b + 4) != "null"@);
            }
            assert(parse_lit(s, b, "null"@) is None);
            lemma_parse_json_string(s, b, x, after);
            assert(parse_meta_value(s, b) == Some((Some(x), e)));
        },
    }
    lemma_suffix(s, b, meta_text(m), after);
    assert(after =~= after + Seq::<char>::empty());
    lemma_head_char(s, e, after, Seq::<char>::empty());
    assert(parse_member(s, i, p) == Some(((PartialView { meta: Some(m), ..p }), e)));
}

/// One parsed member whose value is a boolean.
proof fn lemma_member_streaming(s: Seq<char>, i: int, b0: bool, after: Seq<char>, p: PartialView)
    requires
        0 <= i <= s.len(),
        s.subrange(i, s.len() as int) == json_string("streaming"@) + (seq![':'] + (bool_text(b0)
            + after)),
        after.len() > 0,
        !is_ws(after[0]),
        p.streaming is None,
    ensures
        ({
            let e = i + json_string("streaming"@).len() + 1 + bool_text(b0).len();
            &&& parse_member(s, i, p) == Some(((PartialView { streaming: Some(b0), ..p }), e))
            &&& s.subrange(e, s.len() as int) == after
            &&& e < s.len()
            &&& s[e] == after[0]
        }),
{
    broadcast use vstd::string::group_string_axioms;

    reveal_strlit("streaming");
    reveal_strlit("message");
    reveal_strlit("type");
    reveal_strlit("meta");
    reveal_strlit("true");
    reveal_strlit("false");
    assert("streaming"@.len() == 9 && "message"@.len() == 7 && "type"@.len() == 4
        && "meta"@.len() == 4 && "true"@.len() == 4 && "false"@.len() == 5);
    assert("streaming"@ != "message"@ && "streaming"@ != "type"@ && "streaming"@ != "meta"@);
    assert("true"@[0] == 't' && "false"@[0] == 'f');
    let k = json_string("streaming"@);
    let a = i + k.len() as int;
    let b = a + 1;
    let v_after = bool_text(b0) + after;
    lemma_parse_json_string(s, i, "streaming"@, seq![':'] + v_after);
    lemma_suffix(s, i, k, seq![':'] + v_after);
    lemma_head_char(s, a, seq![':'], v_after);
    lemma_suffix(s, a, seq![':'], v_after);
    assert(skip_ws(s, a) == a);
    lemma_head_char(s, b, bool_text(b0), after);
    let e = b + bool_text(b0).len() as int;
    if b0 {
        assert(bool_text(b0) == "true"@);
        assert(s[b] == 't');
        assert(skip_ws(s, b) == b);
        lemma_parse_lit(s, b, "true"@, after);
        assert(parse_bool(s, b) == Some((true, e)));
    } else {
        assert(bool_text(b0) == "false"@);
        assert(s[b] == 'f');
        assert(skip_ws(s, b) == b);
        if b + 4 <= s.len() {
            assert(s.subrange(b, b + 4)[0] == s[b + 0]);
            assert(s.subrange(b, b + 4) != "true"@);
        }
        assert(parse_lit(s, b, "true"@) is None);
        lemma_parse_lit(s, b, "false"@, after);
        assert(parse_bool(s, b) == Some((false, e)));
    }
    lemma_suffix(s, b, bool_text(b0), after);
    assert(after =~= after + Seq::<char>::empty());
    lemma_head_char(s, e, after, Seq::<char>::empty());
    assert(parse_member(s, i, p) == Some(((PartialView { streaming: Some(b0), ..p }), e)));
}

/// One comma-separated step of the member list.
proof fn lemma_members_step(
    s: Seq<char>,
    i: int,
    p: PartialView,
    p2: PartialView,
    e: int,
    more: nat,
    r: Option<(PartialView, int)>,
)
    requires
        parse_member(s, i, p) == Some((p2, e)),
        0 <= e < s.len(),
        skip_ws(s, e) == e,
        s[e] == ',',
        more > 0,
        parse_members(s, skip_ws(s, e + 1), p2, (more - 1) as nat) == r,
    ensures
        parse_members(s, i, p, more) == r,
{
}

/// The last member, followed by the closing brace.
proof fn lemma_members_last(
    s: Seq<char>,
    i: int,
    p: PartialView,
    p2: PartialView,
    e: int,
    more: nat,
)
    requires
        parse_member(s, i, p) == Some((p2, e)),
        0 <= e < s.len(),
        skip_ws(s, e) == e,
        s[e] == '}',
    ensures
        parse_members(s, i, p, more) == Some((p2, e + 1)),
{
    assert(is_ws('}') == false);
}

/// A whole frame: a brace, the four members, the closing brace, nothing
/// after.
proof fn lemma_decode_shape(s: Seq<char>, p: PartialView)
    requires
        1 < s.len(),
        s[0] == '{',
        skip_ws(s, 0) == 0,
        skip_ws(s, 1) == 1,
        s[1] != '}',
        parse_members(s, 1, empty_partial(), s.len() as nat) == Some((p, s.len() as int)),
        skip_ws(s, s.len() as int) == s.len(),
    ensures
        spec_decode(s) == Some(complete_view(p)),
{
}

/// Concatenation rebracketed: the middle piece joins the suffix.
proof fn lemma_assoc3(a: Seq<char>, b: Seq<char>, c: Seq<char>)
    ensures
        (a + b) + c == a + (b + c),
{
    assert((a + b) + c =~= a + (b + c));
}

/// The encoded frame regrouped so that each token heads its own suffix.
proof fn lemma_encode_shape(v: MessageView)
    ensures
        spec_encode(v) == seq!['{'] + (json_string("message"@) + (seq![':'] + (json_string(
            v.message,
        ) + (seq![','] + (json_string("type"@) + (seq![':'] + (json_string(
            kind_name(v.msg_type),
        ) + (seq![','] + (json_string("meta"@) + (seq![':'] + (meta_text(v.meta) + (seq![','] + (
        json_string("streaming"@) + (seq![':'] + (bool_text(v.streaming) + (
        seq!['}']
        )))))))))))))))),
{
    let p0 = seq!['{'];
    let p1 = json_string("message"@);
    let p2 = seq![':'];
    let p3 = json_string(v.message);
    let p4 = seq![','];
    let p5 = json_string("type"@);
    let p6 = seq![':'];
    let p7 = json_string(kind_name(v.msg_type));
    let p8 = seq![','];
    let p9 = json_string("meta"@);
    let p10 = seq![':'];
    let p11 = meta_text(v.meta);
    let p12 = seq![','];
    let p13 = json_string("streaming"@);
    let p14 = seq![':'];
    let p15 = bool_text(v.streaming);
    let p16 = seq!['}'];
    let s16 = p16;
    let s15 = p15 + s16;
    let s14 = p14 + s15;
    let s13 = p13 + s14;
    let s12 = p12 + s13;
    let s11 = p11 + s12;
    let s10 = p10 + s11;
    let s9 = p9 + s10;
    let s8 = p8 + s9;
    let s7 = p7 + s8;
    let s6 = p6 + s7;
    let s5 = p5 + s6;
    let s4 = p4 + s5;
    let s3 = p3 + s4;
    let s2 = p2 + s3;
    let s1 = p1 + s2;
    let l0 = p0;
    let l1 = l0 + p1;
    let l2 = l1 + p2;
    let l3 = l2 + p3;
    let l4 = l3 + p4;
    let l5 = l4 + p5;
    let l6 = l5 + p6;
    let l7 = l6 + p7;
    let l8 = l7 + p8;
    let l9 = l8 + p9;
    let l10 = l9 + p10;
    let l11 = l10 + p11;
    let l12 = l11 + p12;
    let l13 = l12 + p13;
    let l14 = l13 + p14;
    let l15 = l14 + p15;
    let l16 = l15 + p16;
    assert(spec_encode(v) == l16);
    assert(spec_encode(v) == l15 + s16);
    lemma_assoc3(l14, p15, s16);
    assert(spec_encode(v) == l14 + s15);
    lemma_assoc3(l13, p14, s15);
    assert(spec_encode(v) == l13 + s14);
    lemma_assoc3(l12, p13, s14);
    assert(spec_encode(v) == l12 + s13);
    lemma_assoc3(l11, p12, s13);
    assert(spec_encode(v) == l11 + s12);
    lemma_assoc3(l10, p11, s12);
    assert(spec_encode(v) == l10 + s11);
    lemma_assoc3(l9, p10, s11);
    assert(spec_encode(v) == l9 + s10);
    lemma_assoc3(l8, p9, s10);
    assert(spec_encode(v) == l8 + s9);
    lemma_assoc3(l7, p8, s9);
    assert(spec_encode(v) == l7 + s8);
    lemma_assoc3(l6, p7, s8);
    assert(spec_encode(v) == l6 + s7);
    lemma_assoc3(l5, p6, s7);
    assert(spec_encode(v) == l5 + s6);
    lemma_assoc3(l4, p5, s6);
    assert(spec_encode(v) == l4 + s5);
    lemma_assoc3(l3, p4, s5);
    assert(spec_encode(v) == l3 + s4);
    lemma_assoc3(l2, p3, s4);
    assert(spec_encode(v) == l2 + s3);
    lemma_assoc3(l1, p2, s3);
    assert(spec_encode(v) == l1 + s2);
    lemma_assoc3(l0, p1, s2);
    assert(spec_encode(v) == l0 + s1);
}

/// The round trip law: decoding a canonically encoded message yields exactly
/// the message that was encoded — every field, a `None` correlation tag and a
/// false streaming flag included.
#[verifier::rlimit(100)]
pub proof fn lemma_encode_decode_round_trip(v: MessageView)
    ensures
        spec_decode(spec_encode(v)) == Some(v),
{
    let s = spec_encode(v);
    let k1 = json_string("message"@);
    let v1 = json_string(v.message);
    let k2 = json_string("type"@);
    let v2 = json_string(kind_name(v.msg_type));
    let k3 = json_string("meta"@);
    let v3 = meta_text(v.meta);
    let k4 = json_string("streaming"@);
    let v4 = bool_text(v.streaming);
    let r16 = v4 + seq!['}'];
    let r15 = seq![':'] + r16;
    let r14 = k4 + r15;
    let r13 = seq![','] + r14;
    let r12 = v3 + r13;
    let r11 = seq![':'] + r12;
    let r10 = k3 + r11;
    let r9 = seq![','] + r10;
    let r8 = v2 + r9;
    let r7 = seq![':'] + r8;
    let r6 = k2 + r7;
    let r5 = seq![','] + r6;
    let r4 = v1 + r5;
    let r3 = seq![':'] + r4;
    let r2 = k1 + r3;
    lemma_encode_shape(v);
    assert(s == seq!['{'] + r2);
    assert(s.subrange(0, s.len() as int) =~= seq!['{'] + r2);
    lemma_head_char(s, 0int, seq!['{'], r2);
    lemma_suffix(s, 0int, seq!['{'], r2);
    assert(skip_ws(s, 0) == 0);
    lemma_head_char(s, 1int, k1, r3);
    assert(k1[0] == '"');
    assert(skip_ws(s, 1) == 1);
    assert(s[1] != '}');
    let p0 = empty_partial();
    // member "message"
    lemma_member_message(s, 1int, v.message, r5, p0);
    let p1 = PartialView { message: Some(v.message), ..p0 };
    let e1 = 1 + k1.len() + 1 + v1.len() as int;
    assert(s[e1] == ',');
    assert(skip_ws(s, e1) == e1);
    lemma_suffix(s, e1, seq![','], r6);
    let m2 = e1 + 1;
    lemma_head_char(s, m2, k2, r7);
    assert(k2[0] == '"');
    assert(skip_ws(s, m2) == m2);
    // member "type"
    lemma_member_type(s, m2, v.msg_type, r9, p1);
    let p2 = PartialView { msg_type: Some(v.msg_type), ..p1 };
    let e2 = m2 + k2.len() + 1 + v2.len() as int;
    assert(s[e2] == ',');
    assert(skip_ws(s, e2) == e2);
    lemma_suffix(s, e2, seq![','], r10);
    let m3 = e2 + 1;
    lemma_head_char(s, m3, k3, r11);
    assert(k3[0] == '"');
    assert(skip_ws(s, m3) == m3);
    // member "meta"
    lemma_member_meta(s, m3, v.meta, r13, p2);
    let p3 = PartialView { meta: Some(v.meta), ..p2 };
    let e3 = m3 + k3.len() + 1 + v3.len() as int;
    assert(s[e3] == ',');
    assert(skip_ws(s, e3) == e3);
    lemma_suffix(s, e3, seq![','], r14);
    let m4 = e3 + 1;
    lemma_head_char(s, m4, k4, r15);
    assert(k4[0] == '"');
    assert(skip_ws(s, m4) == m4);
    // member "streaming"
    lemma_member_streaming(s, m4, v.streaming, seq!['}'], p3);
    let p4 = PartialView { streaming: Some(v.streaming), ..p3 };
    let e4 = m4 + k4.len() + 1 + v4.len() as int;
    assert(s[e4] == '}');
    assert(skip_ws(s, e4) == e4);
    assert(s.len() == e4 + 1);
    // the chain of members, innermost first
    assert(s.len() >= 4);
    lemma_members_last(s, m4, p3, p4, e4, (s.len() - 3) as nat);
    lemma_members_step(s, m3, p2, p3, e3, (s.len() - 2) as nat, Some((p4, e4 + 1)));
    lemma_members_step(s, m2, p1, p2, e2, (s.len() - 1) as nat, Some((p4, e4 + 1)));
    lemma_members_step(s, 1int, p0, p1, e1, s.len() as nat, Some((p4, e4 + 1)));
    // the whole frame
    assert(skip_ws(s, s.len() as int) == s.len());
    lemma_decode_shape(s, p4);
    assert(complete_view(p4) =~= v);
}

} // verus!
