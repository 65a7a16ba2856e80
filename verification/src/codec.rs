//! The wire codec: each frame on the transport is one JSON object of the
//! fixed shape
//! `{ "message": string, "type": string, "meta": string|null, "streaming": bool }`.
//!
//! Encoding is canonical (fields in that order, no extra whitespace, every
//! control character escaped). Decoding accepts the members in any order,
//! with any JSON whitespace, and fills in the defaults for members the sender
//! left out.

use vstd::prelude::*;

use crate::message::MessageData;
use crate::message::MessageType;
use crate::message::MessageView;
use crate::message::default_view;

verus! {

// ---------------------------------------------------------------------------
// Spec: the encoded form.
// ---------------------------------------------------------------------------

/// The hexadecimal digit character for `n` (lower case).
pub open spec fn hex_digit(n: int) -> char {
    if n < 10 {
        (48 + n) as char  // '0' is code point 48
    } else {
        (87 + n) as char  // 'a' is code point 97
    }
}

/// How one character of a string payload is written inside a JSON string.
pub open spec fn escape_char(c: char) -> Seq<char> {
    if c == '"' {
        seq!['\\', '"']
    } else if c == '\\' {
        seq!['\\', '\\']
    } else if c == '\n' {
        seq!['\\', 'n']
    } else if c == '\r' {
        seq!['\\', 'r']
    } else if c == '\t' {
        seq!['\\', 't']
    } else if (c as u32) < 32 {
        seq!['\\', 'u', '0', '0', hex_digit(((c as u32) / 16) as int), hex_digit(((c as u32) % 16) as int)]
    } else {
        seq![c]
    }
}

/// A string payload with every character escaped as needed.
pub open spec fn escape_seq(s: Seq<char>) -> Seq<char>
    decreases s.len(),
{
    if s.len() == 0 {
        Seq::<char>::empty()
    } else {
        escape_char(s[0]) + escape_seq(s.drop_first())
    }
}

/// A JSON string token: quote, escaped payload, quote.
pub open spec fn json_string(s: Seq<char>) -> Seq<char> {
    seq!['"'] + escape_seq(s) + seq!['"']
}

/// The wire name of each message kind.
pub open spec fn kind_name(t: MessageType) -> Seq<char> {
    match t {
        MessageType::Error => "error"@,
        MessageType::Echo => "echo"@,
        MessageType::Time => "time"@,
        MessageType::Ls => "ls"@,
        MessageType::Sh => "sh"@,
        MessageType::Empty => "empty"@,
    }
}

/// The wire form of the `meta` member: a string or `null`.
pub open spec fn meta_text(m: Option<Seq<char>>) -> Seq<char> {
    match m {
        None => "null"@,
        Some(s) => json_string(s),
    }
}

/// The wire form of a boolean member.
pub open spec fn bool_text(b: bool) -> Seq<char> {
    if b {
        "true"@
    } else {
        "false"@
    }
}

/// The canonical encoding of a message: every member present, in a fixed
/// order, with no whitespace.
pub open spec fn spec_encode(v: MessageView) -> Seq<char> {
    seq!['{'] + json_string("message"@) + seq![':'] + json_string(v.message) + seq![',']
        + json_string("type"@) + seq![':'] + json_string(kind_name(v.msg_type)) + seq![',']
        + json_string("meta"@) + seq![':'] + meta_text(v.meta) + seq![','] + json_string(
        "streaming"@,
    ) + seq![':'] + bool_text(v.streaming) + seq!['}']
}

// ---------------------------------------------------------------------------
// Exec: the encoder.
// ---------------------------------------------------------------------------

/// `escape_seq` applied to a concatenation splits at the boundary.
proof fn lemma_escape_seq_concat(a: Seq<char>, b: Seq<char>)
    ensures
        escape_seq(a + b) == escape_seq(a) + escape_seq(b),
    decreases a.len(),
{
    if a.len() == 0 {
        assert(a + b =~= b);
        assert(escape_seq(a) + escape_seq(b) =~= escape_seq(b));
    } else {
        lemma_escape_seq_concat(a.drop_first(), b);
        assert((a + b).drop_first() =~= a.drop_first() + b);
        assert(escape_seq(a + b) == escape_char((a + b)[0]) + escape_seq((a + b).drop_first()));
        assert((a + b)[0] == a[0]);
        assert(escape_char(a[0]) + (escape_seq(a.drop_first()) + escape_seq(b)) =~= (escape_char(
            a[0],
        ) + escape_seq(a.drop_first())) + escape_seq(b));
    }
}

/// `escape_seq` of a one-character string is that character's escape.
proof fn lemma_escape_seq_one(c: char)
    ensures
        escape_seq(seq![c]) == escape_char(c),
{
    assert(seq![c].drop_first() =~= Seq::<char>::empty());
    assert(escape_seq(seq![c]) == escape_char(seq![c][0]) + escape_seq(seq![c].drop_first()));
    assert(escape_seq(seq![c]) =~= escape_char(c));
}

/// The hexadecimal digit character for `d`, matching [`hex_digit`].
fn hex_digit_char(d: u8) -> (r: char)
    requires
        d < 16,
    ensures
        r == hex_digit(d as int),
{
    if d < 10 {
        (48 + d) as char
    } else {
        (87 + d) as char
    }
}

/// Appends the escaped form of one payload character.
fn push_escaped(out: &mut String, c: char)
    ensures
        final(out)@ == old(out)@ + escape_char(c),
{
    if c == '"' {
        out.push('\\');
        out.push('"');
    } else if c == '\\' {
        out.push('\\');
        out.push('\\');
    } else if c == '\n' {
        out.push('\\');
        out.push('n');
    } else if c == '\r' {
        out.push('\\');
        out.push('r');
    } else if c == '\t' {
        out.push('\\');
        out.push('t');
    } else if (c as u32) < 32 {
        let n = c as u32;
        out.push('\\');
        out.push('u');
        out.push('0');
        out.push('0');
        out.push(hex_digit_char((n / 16) as u8));
        out.push(hex_digit_char((n % 16) as u8));
    } else {
        out.push(c);
    }
    proof {
        assert(final(out)@ =~= old(out)@ + escape_char(c));
    }
}

/// Appends the JSON string token for `s`.
fn append_json_string(out: &mut String, s: &str)
    ensures
        final(out)@ == old(out)@ + json_string(s@),
{
    out.push('"');
    let n = s.unicode_len();
    let mut i: usize = 0;
    while i < n
        invariant
            n == s@.len(),
            i <= n,
            out@ == old(out)@ + seq!['"'] + escape_seq(s@.subrange(0, i as int)),
        decreases n - i,
    {
        let c = s.get_char(i);
        push_escaped(out, c);
        proof {
            assert(s@.subrange(0, i + 1 as int) =~= s@.subrange(0, i as int) + seq![c]);
            lemma_escape_seq_concat(s@.subrange(0, i as int), seq![c]);
            lemma_escape_seq_one(c);
            assert(out@ =~= old(out)@ + seq!['"'] + escape_seq(s@.subrange(0, i + 1 as int)));
        }
        i = i + 1;
    }
    out.push('"');
    proof {
        assert(s@.subrange(0, n as int) =~= s@);
        assert(final(out)@ =~= old(out)@ + json_string(s@));
    }
}

/// The wire name of a message kind, matching [`kind_name`].
fn kind_name_str(t: MessageType) -> (r: &'static str)
    ensures
        r@ == kind_name(t),
{
    match t {
        MessageType::Error => "error",
        MessageType::Echo => "echo",
        MessageType::Time => "time",
        MessageType::Ls => "ls",
        MessageType::Sh => "sh",
        MessageType::Empty => "empty",
    }
}

impl MessageData {
    /// Encodes this message as one canonical wire frame.
    pub fn encode(&self) -> (r: String)
        ensures
            r@ == spec_encode(self@),
    {
        let mut out = String::new();
        out.push('{');
        append_json_string(&mut out, "message");
        out.push(':');
        append_json_string(&mut out, self.message.as_str());
        out.push(',');
        append_json_string(&mut out, "type");
        out.push(':');
        append_json_string(&mut out, kind_name_str(self.msg_type));
        out.push(',');
        append_json_string(&mut out, "meta");
        out.push(':');
        match &self.meta {
            None => {
                out.push('n');
                out.push('u');
                out.push('l');
                out.push('l');
                proof {
                    reveal_strlit("null");
                    assert(out@ =~= seq!['{'] + json_string("message"@) + seq![':'] + json_string(
                        self@.message,
                    ) + seq![','] + json_string("type"@) + seq![':'] + json_string(
                        kind_name(self@.msg_type),
                    ) + seq![','] + json_string("meta"@) + seq![':'] + meta_text(self@.meta));
                }
            },
            Some(m) => {
                append_json_string(&mut out, m.as_str());
                proof {
                    assert(out@ =~= seq!['{'] + json_string("message"@) + seq![':'] + json_string(
                        self@.message,
                    ) + seq![','] + json_string("type"@) + seq![':'] + json_string(
                        kind_name(self@.msg_type),
                    ) + seq![','] + json_string("meta"@) + seq![':'] + meta_text(self@.meta));
                }
            },
        }
        out.push(',');
        append_json_string(&mut out, "streaming");
        out.push(':');
        if self.streaming {
            out.push('t');
            out.push('r');
            out.push('u');
            out.push('e');
            proof {
                reveal_strlit("true");
            }
        } else {
            out.push('f');
            out.push('a');
            out.push('l');
            out.push('s');
            out.push('e');
            proof {
                reveal_strlit("false");
            }
        }
        out.push('}');
        proof {
            assert(out@ =~= spec_encode(self@));
        }
        out
    }
}

} // verus!
