//! The wire JSON format of the request schemas: an exact specification of
//! the emitted text, the executable serializer proved against it, a
//! specification-level parser of the same format, and the round-trip laws
//! showing that every field, optional fields in both their present and
//! absent states, survives serialization and parsing unchanged.

use vstd::prelude::*;
use vstd::string::StrSliceExecFns;
use vstd::string::StringExecFns;
use crate::schema::{ChatCompletionRequest, ChatRequestV, EmbeddingRequest, EmbeddingRequestV,
    Message, MessageV};

verus! {

// ---------------------------------------------------------------------------
// Characters and digits
// ---------------------------------------------------------------------------

/// The decimal digit character of a value below ten.
pub open spec fn digit_char(n: nat) -> char {
    if n == 0 {
        '0'
    } else if n == 1 {
        '1'
    } else if n == 2 {
        '2'
    } else if n == 3 {
        '3'
    } else if n == 4 {
        '4'
    } else if n == 5 {
        '5'
    } else if n == 6 {
        '6'
    } else if n == 7 {
        '7'
    } else if n == 8 {
        '8'
    } else {
        '9'
    }
}

/// The lower-case hexadecimal digit character of a value below sixteen.
pub open spec fn hex_char(n: nat) -> char {
    if n < 10 {
        digit_char(n)
    } else if n == 10 {
        'a'
    } else if n == 11 {
        'b'
    } else if n == 12 {
        'c'
    } else if n == 13 {
        'd'
    } else if n == 14 {
        'e'
    } else {
        'f'
    }
}

pub open spec fn is_digit(c: char) -> bool {
    c == '0' || c == '1' || c == '2' || c == '3' || c == '4' || c == '5' || c == '6' || c == '7'
        || c == '8' || c == '9'
}

pub open spec fn digit_val(c: char) -> nat {
    if c == '0' {
        0
    } else if c == '1' {
        1
    } else if c == '2' {
        2
    } else if c == '3' {
        3
    } else if c == '4' {
        4
    } else if c == '5' {
        5
    } else if c == '6' {
        6
    } else if c == '7' {
        7
    } else if c == '8' {
        8
    } else {
        9
    }
}

// ---------------------------------------------------------------------------
// String escaping
// ---------------------------------------------------------------------------

/// How one character appears inside a JSON string literal: the two-character
/// escapes of JSON for the quote, the backslash and the common control
/// characters, `\u00XX` for the remaining control characters, and the
/// character itself otherwise.
pub open spec fn esc_char(c: char) -> Seq<char> {
    if c == '"' {
        seq!['\\', '"']
    } else if c == '\\' {
        seq!['\\', '\\']
    } else if c == '\n' {
        seq!['\\', 'n']
    } else if c == '\r' {
        seq!['\\', 'r']
    } else if c == '\t' {
        seq!['\\', 't']
    } else if (c as u32) < 32 {
        seq!['\\', 'u', '0', '0', hex_char(((c as u32) / 16) as nat), hex_char(
            ((c as u32) % 16) as nat,
        )]
    } else {
        seq![c]
    }
}

/// A text escaped for the inside of a JSON string literal.
pub open spec fn escape(s: Seq<char>) -> Seq<char>
    decreases s.len(),
{
    if s.len() == 0 {
        Seq::empty()
    } else {
        esc_char(s[0]) + escape(s.drop_first())
    }
}

/// Escaping one character at a time from the left is escaping the whole.
pub proof fn lemma_escape_snoc(s: Seq<char>, c: char)
    ensures
        escape(s.push(c)) == escape(s) + esc_char(c),
    decreases s.len(),
{
    if s.len() == 0 {
        assert(s.push(c)[0] == c);
        assert(s.push(c).drop_first() =~= Seq::<char>::empty());
        assert(escape(Seq::<char>::empty()) == Seq::<char>::empty());
        assert(escape(s.push(c)) == esc_char(c) + Seq::<char>::empty());
        assert(escape(s.push(c)) =~= escape(s) + esc_char(c));
    } else {
        assert(s.push(c)[0] == s[0]);
        assert(s.push(c).drop_first() =~= s.drop_first().push(c));
        lemma_escape_snoc(s.drop_first(), c);
        assert(escape(s.push(c)) =~= escape(s) + esc_char(c));
    }
}

/// A JSON string literal: the escaped text between double quotes.
pub open spec fn jstr(s: Seq<char>) -> Seq<char> {
    seq!['"'] + escape(s) + seq!['"']
}

// ---------------------------------------------------------------------------
// Numbers
// ---------------------------------------------------------------------------

/// The decimal representation of a natural number, most significant digit
/// first, without leading zeros (a single zero for zero).
pub open spec fn dec_rep(n: nat) -> Seq<char>
    decreases n,
{
    if n < 10 {
        seq![digit_char(n)]
    } else {
        dec_rep(n / 10).push(digit_char(n % 10))
    }
}

/// The wire form of a sampling temperature held in thousandths: the whole
/// part, a dot, and exactly three fractional digits.
pub open spec fn temp_rep(t: u32) -> Seq<char> {
    dec_rep((t as nat) / 1000) + seq![
        '.',
        digit_char(((t as nat) % 1000) / 100),
        digit_char(((t as nat) % 100) / 10),
        digit_char((t as nat) % 10),
    ]
}

// ---------------------------------------------------------------------------
// The emitted JSON of the request schemas
// ---------------------------------------------------------------------------

pub open spec fn lit_role_open() -> Seq<char> {
    seq!['{', '"', 'r', 'o', 'l', 'e', '"', ':']
}

pub open spec fn lit_content() -> Seq<char> {
    seq![',', '"', 'c', 'o', 'n', 't', 'e', 'n', 't', '"', ':']
}

pub open spec fn lit_messages_open() -> Seq<char> {
    seq!['{', '"', 'm', 'e', 's', 's', 'a', 'g', 'e', 's', '"', ':', '[']
}

pub open spec fn lit_model() -> Seq<char> {
    seq![']', ',', '"', 'm', 'o', 'd', 'e', 'l', '"', ':']
}

pub open spec fn lit_temperature() -> Seq<char> {
    seq![',', '"', 't', 'e', 'm', 'p', 'e', 'r', 'a', 't', 'u', 'r', 'e', '"', ':']
}

pub open spec fn lit_stream() -> Seq<char> {
    seq![',', '"', 's', 't', 'r', 'e', 'a', 'm', '"', ':']
}

pub open spec fn lit_true() -> Seq<char> {
    seq!['t', 'r', 'u', 'e']
}

pub open spec fn lit_false() -> Seq<char> {
    seq!['f', 'a', 'l', 's', 'e']
}

pub open spec fn lit_input_open() -> Seq<char> {
    seq!['{', '"', 'i', 'n', 'p', 'u', 't', '"', ':']
}

pub open spec fn lit_model_mid() -> Seq<char> {
    seq![',', '"', 'm', 'o', 'd', 'e', 'l', '"', ':']
}

pub open spec fn lit_encoding_format() -> Seq<char> {
    seq![',', '"', 'e', 'n', 'c', 'o', 'd', 'i', 'n', 'g', '_', 'f', 'o', 'r', 'm', 'a', 't', '"',
        ':']
}

pub open spec fn lit_dimensions() -> Seq<char> {
    seq![',', '"', 'd', 'i', 'm', 'e', 'n', 's', 'i', 'o', 'n', 's', '"', ':']
}

pub open spec fn lit_user() -> Seq<char> {
    seq![',', '"', 'u', 's', 'e', 'r', '"', ':']
}

/// The wire JSON of one message.
pub open spec fn jmessage(m: MessageV) -> Seq<char> {
    lit_role_open() + jstr(m.role) + lit_content() + jstr(m.content) + seq!['}']
}

/// The wire JSON of a message list, comma separated, in order.
pub open spec fn jmessages(ms: Seq<MessageV>) -> Seq<char>
    decreases ms.len(),
{
    if ms.len() == 0 {
        Seq::empty()
    } else if ms.len() == 1 {
        jmessage(ms[0])
    } else {
        jmessage(ms[0]) + seq![','] + jmessages(ms.drop_first())
    }
}

pub open spec fn jbool(b: bool) -> Seq<char> {
    if b {
        lit_true()
    } else {
        lit_false()
    }
}

/// The wire JSON of a chat completion request. An absent optional field is
/// absent from the text, not null.
pub open spec fn chat_request_json(r: ChatRequestV) -> Seq<char> {
    lit_messages_open() + jmessages(r.messages) + lit_model() + jstr(r.model) + (match r
        .temperature {
        Some(t) => lit_temperature() + temp_rep(t),
        None => Seq::empty(),
    }) + (match r.stream {
        Some(b) => lit_stream() + jbool(b),
        None => Seq::empty(),
    }) + seq!['}']
}

/// The wire JSON of an embedding request. An absent optional field is absent
/// from the text, not null.
pub open spec fn embedding_request_json(r: EmbeddingRequestV) -> Seq<char> {
    lit_input_open() + jstr(r.input) + lit_model_mid() + jstr(r.model) + (match r.encoding_format {
        Some(e) => lit_encoding_format() + jstr(e),
        None => Seq::empty(),
    }) + (match r.dimensions {
        Some(d) => lit_dimensions() + dec_rep(d as nat),
        None => Seq::empty(),
    }) + (match r.user {
        Some(u) => lit_user() + jstr(u),
        None => Seq::empty(),
    }) + seq!['}']
}

// ---------------------------------------------------------------------------
// The executable serializer
// ---------------------------------------------------------------------------

/// Relies on String::push: appends the given character to the string.
#[verifier::external_body]
pub(crate) fn push_char(s: &mut String, c: char)
    ensures
        final(s)@ == old(s)@.push(c),
{
    s.push(c);
}

/// A decimal digit character, as a value.
fn digit_char_exec(d: u32) -> (r: char)
    requires
        d < 10,
    ensures
        r == digit_char(d as nat),
{
    if d == 0 {
        '0'
    } else if d == 1 {
        '1'
    } else if d == 2 {
        '2'
    } else if d == 3 {
        '3'
    } else if d == 4 {
        '4'
    } else if d == 5 {
        '5'
    } else if d == 6 {
        '6'
    } else if d == 7 {
        '7'
    } else if d == 8 {
        '8'
    } else {
        '9'
    }
}

/// A lower-case hexadecimal digit character, as a value.
fn hex_char_exec(d: u32) -> (r: char)
    requires
        d < 16,
    ensures
        r == hex_char(d as nat),
{
    if d < 10 {
        digit_char_exec(d)
    } else if d == 10 {
        'a'
    } else if d == 11 {
        'b'
    } else if d == 12 {
        'c'
    } else if d == 13 {
        'd'
    } else if d == 14 {
        'e'
    } else {
        'f'
    }
}

/// Append the escaped form of one character.
fn append_esc_char(out: &mut String, c: char)
    ensures
        final(out)@ == old(out)@ + esc_char(c),
{
    if c == '"' {
        out.append("\\\"");
        proof {
            reveal_strlit("\\\"");
            assert(old(out)@ + "\\\""@ =~= old(out)@ + esc_char(c));
        }
    } else if c == '\\' {
        out.append("\\\\");
        proof {
            reveal_strlit("\\\\");
            assert(old(out)@ + "\\\\"@ =~= old(out)@ + esc_char(c));
        }
    } else if c == '\n' {
        out.append("\\n");
        proof {
            reveal_strlit("\\n");
            assert(old(out)@ + "\\n"@ =~= old(out)@ + esc_char(c));
        }
    } else if c == '\r' {
        out.append("\\r");
        proof {
            reveal_strlit("\\r");
            assert(old(out)@ + "\\r"@ =~= old(out)@ + esc_char(c));
        }
    } else if c == '\t' {
        out.append("\\t");
        proof {
            reveal_strlit("\\t");
            assert(old(out)@ + "\\t"@ =~= old(out)@ + esc_char(c));
        }
    } else if (c as u32) < 32 {
        let v: u32 = c as u32;
        out.append("\\u00");
        push_char(out, hex_char_exec(v / 16));
        push_char(out, hex_char_exec(v % 16));
        proof {
            reveal_strlit("\\u00");
            assert(old(out)@ + "\\u00"@ + seq![hex_char((v / 16) as nat)] + seq![hex_char(
                (v % 16) as nat,
            )] =~= old(out)@ + esc_char(c));
            assert(final(out)@ =~= old(out)@ + "\\u00"@ + seq![hex_char((v / 16) as nat)] + seq![
                hex_char((v % 16) as nat),
            ]);
        }
    } else {
        push_char(out, c);
        proof {
            assert(old(out)@.push(c) =~= old(out)@ + esc_char(c));
        }
    }
}

/// Append the escaped form of a whole text.
fn append_escaped(out: &mut String, s: &str)
    ensures
        final(out)@ == old(out)@ + escape(s@),
{
    let n = s.unicode_len();
    let mut i: usize = 0;
    while i < n
        invariant
            i <= n,
            n == s@.len(),
            out@ == old(out)@ + escape(s@.take(i as int)),
        decreases n - i,
    {
        let c = s.get_char(i);
        append_esc_char(out, c);
        proof {
            lemma_escape_snoc(s@.take(i as int), c);
            assert(s@.take(i as int + 1) =~= s@.take(i as int).push(c));
            assert(old(out)@ + escape(s@.take(i as int)) + esc_char(c) =~= old(out)@ + escape(
                s@.take(i as int + 1),
            ));
        }
        i = i + 1;
    }
    proof {
        assert(s@.take(n as int) =~= s@);
    }
}

/// Append a JSON string literal.
fn append_json_string(out: &mut String, s: &str)
    ensures
        final(out)@ == old(out)@ + jstr(s@),
{
    push_char(out, '"');
    append_escaped(out, s);
    push_char(out, '"');
    proof {
        assert(old(out)@.push('"') =~= old(out)@ + seq!['"']);
        assert((old(out)@ + seq!['"'] + escape(s@)).push('"') =~= old(out)@ + jstr(s@));
    }
}

/// Append the decimal representation of a number.
fn append_u32(out: &mut String, n: u32)
    ensures
        final(out)@ == old(out)@ + dec_rep(n as nat),
    decreases n,
{
    if n < 10 {
        push_char(out, digit_char_exec(n));
        proof {
            assert(old(out)@.push(digit_char(n as nat)) =~= old(out)@ + dec_rep(n as nat));
        }
    } else {
        append_u32(out, n / 10);
        push_char(out, digit_char_exec(n % 10));
        proof {
            assert((n / 10) as nat == (n as nat) / 10);
            assert((n % 10) as nat == (n as nat) % 10);
            assert((old(out)@ + dec_rep((n as nat) / 10)).push(digit_char((n as nat) % 10)) =~= old(
                out,
            )@ + dec_rep(n as nat));
        }
    }
}

/// Append the wire form of a temperature held in thousandths.
fn append_temperature(out: &mut String, t: u32)
    ensures
        final(out)@ == old(out)@ + temp_rep(t),
{
    append_u32(out, t / 1000);
    push_char(out, '.');
    push_char(out, digit_char_exec((t % 1000) / 100));
    push_char(out, digit_char_exec((t % 100) / 10));
    push_char(out, digit_char_exec(t % 10));
    proof {
        assert(((t % 1000) / 100) as nat == ((t as nat) % 1000) / 100);
        assert(((t % 100) / 10) as nat == ((t as nat) % 100) / 10);
        assert((t % 10) as nat == (t as nat) % 10);
        assert(final(out)@ =~= old(out)@ + temp_rep(t));
    }
}

/// Append one message.
fn append_message(out: &mut String, m: &Message)
    ensures
        final(out)@ == old(out)@ + jmessage(m@),
{
    out.append("{\"role\":");
    append_json_string(out, m.role.as_str());
    out.append(",\"content\":");
    append_json_string(out, m.content.as_str());
    push_char(out, '}');
    proof {
        reveal_strlit("{\"role\":");
        reveal_strlit(",\"content\":");
        assert("{\"role\":"@ =~= lit_role_open());
        assert(",\"content\":"@ =~= lit_content());
        assert(final(out)@ =~= old(out)@ + jmessage(m@));
    }
}

/// Append the messages from position `i` on, comma separated.
fn append_messages_from(out: &mut String, ms: &Vec<Message>, i: usize)
    requires
        i <= ms@.len(),
    ensures
        final(out)@ == old(out)@ + jmessages(ms.deep_view().skip(i as int)),
    decreases ms@.len() - i,
{
    if i < ms.len() {
        append_message(out, &ms[i]);
        proof {
            assert(ms.deep_view().skip(i as int)[0] == ms@[i as int]@);
        }
        if i + 1 < ms.len() {
            push_char(out, ',');
            append_messages_from(out, ms, i + 1);
            proof {
                assert(ms.deep_view().skip(i as int).drop_first() =~= ms.deep_view().skip(
                    i as int + 1,
                ));
                assert(final(out)@ =~= old(out)@ + jmessages(ms.deep_view().skip(i as int)));
            }
        } else {
            proof {
                assert(ms.deep_view().skip(i as int).len() == 1);
                assert(final(out)@ =~= old(out)@ + jmessages(ms.deep_view().skip(i as int)));
            }
        }
    } else {
        proof {
            assert(ms.deep_view().skip(i as int).len() == 0);
        }
    }
}

impl ChatCompletionRequest {
    /// The wire JSON body of this request, exactly `chat_request_json` of
    /// its value.
    pub fn to_json(&self) -> (r: String)
        ensures
            r@ == chat_request_json(self@),
    {
        let mut out = String::new();
        out.append("{\"messages\":[");
        proof {
            reveal_strlit("{\"messages\":[");
            assert(Seq::<char>::empty() + "{\"messages\":["@ =~= lit_messages_open());
        }
        append_messages_from(&mut out, &self.messages, 0);
        proof {
            assert(self.messages.deep_view().skip(0) =~= self.messages.deep_view());
        }
        out.append("],\"model\":");
        proof {
            reveal_strlit("],\"model\":");
            assert("],\"model\":"@ =~= lit_model());
        }
        append_json_string(&mut out, self.model.as_str());
        match self.temperature {
            Some(t) => {
                out.append(",\"temperature\":");
                proof {
                    reveal_strlit(",\"temperature\":");
                    assert(",\"temperature\":"@ =~= lit_temperature());
                }
                append_temperature(&mut out, t);
            },
            None => {},
        }
        match self.stream {
            Some(b) => {
                out.append(",\"stream\":");
                proof {
                    reveal_strlit(",\"stream\":");
                    assert(",\"stream\":"@ =~= lit_stream());
                }
                if b {
                    out.append("true");
                    proof {
                        reveal_strlit("true");
                        assert("true"@ =~= lit_true());
                    }
                } else {
                    out.append("false");
                    proof {
                        reveal_strlit("false");
                        assert("false"@ =~= lit_false());
                    }
                }
            },
            None => {},
        }
        push_char(&mut out, '}');
        proof {
            assert(out@ =~= chat_request_json(self@));
        }
        out
    }
}

impl EmbeddingRequest {
    /// The wire JSON body of this request, exactly `embedding_request_json`
    /// of its value.
    pub fn to_json(&self) -> (r: String)
        ensures
            r@ == embedding_request_json(self@),
    {
        let mut out = String::new();
        out.append("{\"input\":");
        proof {
            reveal_strlit("{\"input\":");
            assert(Seq::<char>::empty() + "{\"input\":"@ =~= lit_input_open());
        }
        append_json_string(&mut out, self.input.as_str());
        out.append(",\"model\":");
        proof {
            reveal_strlit(",\"model\":");
            assert(",\"model\":"@ =~= lit_model_mid());
        }
        append_json_string(&mut out, self.model.as_str());
        match self.encoding_format {
            Some(ref e) => {
                out.append(",\"encoding_format\":");
                proof {
                    reveal_strlit(",\"encoding_format\":");
                    assert(",\"encoding_format\":"@ =~= lit_encoding_format());
                }
                append_json_string(&mut out, e.as_str());
            },
            None => {},
        }
        match self.dimensions {
            Some(d) => {
                out.append(",\"dimensions\":");
                proof {
                    reveal_strlit(",\"dimensions\":");
                    assert(",\"dimensions\":"@ =~= lit_dimensions());
                }
                append_u32(&mut out, d);
            },
            None => {},
        }
        match self.user {
            Some(ref u) => {
                out.append(",\"user\":");
                proof {
                    reveal_strlit(",\"user\":");
                    assert(",\"user\":"@ =~= lit_user());
                }
                append_json_string(&mut out, u.as_str());
            },
            None => {},
        }
        push_char(&mut out, '}');
        proof {
            assert(out@ =~= embedding_request_json(self@));
        }
        out
    }
}

} // verus!
