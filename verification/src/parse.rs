//! A specification-level parser of the wire JSON emitted for the request
//! schemas, and the round-trip laws: serializing any request and parsing the
//! text back recovers every field, optional fields in both their present
//! and absent states.

use vstd::prelude::*;
use vstd::arithmetic::div_mod::lemma_fundamental_div_mod;
use vstd::arithmetic::div_mod::lemma_mod_multiples_vanish;
use crate::schema::{ChatRequestV, EmbeddingRequestV, MessageV};
use crate::wire::{chat_request_json, dec_rep, digit_char, digit_val, embedding_request_json,
    esc_char, escape, hex_char, is_digit, jbool, jmessage, jmessages, jstr, lit_content,
    lit_dimensions, lit_encoding_format, lit_false, lit_input_open, lit_messages_open, lit_model,
    lit_model_mid, lit_role_open, lit_stream, lit_temperature, lit_true, lit_user, temp_rep};

verus! {

// ---------------------------------------------------------------------------
// Primitive parsers: each consumes a prefix and yields the rest
// ---------------------------------------------------------------------------

/// Consume an expected literal text.
pub open spec fn p_lit(lit: Seq<char>, s: Seq<char>) -> Option<Seq<char>> {
    if lit.len() <= s.len() && s.take(lit.len() as int) == lit {
        Some(s.skip(lit.len() as int))
    } else {
        None
    }
}

pub open spec fn is_esc2(c: char) -> bool {
    c == '"' || c == '\\' || c == 'n' || c == 'r' || c == 't'
}

/// The character a two-character escape stands for.
pub open spec fn unesc2(c: char) -> char {
    if c == '"' {
        '"'
    } else if c == '\\' {
        '\\'
    } else if c == 'n' {
        '\n'
    } else if c == 'r' {
        '\r'
    } else {
        '\t'
    }
}

pub open spec fn is_hex(c: char) -> bool {
    is_digit(c) || c == 'a' || c == 'b' || c == 'c' || c == 'd' || c == 'e' || c == 'f'
}

pub open spec fn hex_val(c: char) -> nat {
    if is_digit(c) {
        digit_val(c)
    } else if c == 'a' {
        10
    } else if c == 'b' {
        11
    } else if c == 'c' {
        12
    } else if c == 'd' {
        13
    } else if c == 'e' {
        14
    } else {
        15
    }
}

/// The inside of a JSON string literal, after the opening quote: the
/// unescaped text and what follows the closing quote.
pub open spec fn p_str_body(s: Seq<char>) -> Option<(Seq<char>, Seq<char>)>
    decreases s.len(),
{
    if s.len() == 0 {
        None
    } else if s[0] == '"' {
        Some((Seq::empty(), s.drop_first()))
    } else if s[0] == '\\' {
        if s.len() < 2 {
            None
        } else if is_esc2(s[1]) {
            match p_str_body(s.skip(2)) {
                Some(tr) => Some((seq![unesc2(s[1])] + tr.0, tr.1)),
                None => None,
            }
        } else if s[1] == 'u' {
            if s.len() >= 6 && s[2] == '0' && s[3] == '0' && is_hex(s[4]) && is_hex(s[5]) {
                let v = hex_val(s[4]) * 16 + hex_val(s[5]);
                if v < 32 {
                    match p_str_body(s.skip(6)) {
                        Some(tr) => Some((seq![(v as u8) as char] + tr.0, tr.1)),
                        None => None,
                    }
                } else {
                    None
                }
            } else {
                None
            }
        } else {
            None
        }
    } else {
        match p_str_body(s.drop_first()) {
            Some(tr) => Some((seq![s[0]] + tr.0, tr.1)),
            None => None,
        }
    }
}

/// A whole JSON string literal.
pub open spec fn p_string(s: Seq<char>) -> Option<(Seq<char>, Seq<char>)> {
    if s.len() >= 1 && s[0] == '"' {
        p_str_body(s.drop_first())
    } else {
        None
    }
}

/// A run of decimal digits, left to right, accumulating the value.
pub open spec fn p_digits_loop(acc: nat, s: Seq<char>) -> (nat, Seq<char>)
    decreases s.len(),
{
    if s.len() > 0 && is_digit(s[0]) {
        p_digits_loop(acc * 10 + digit_val(s[0]), s.drop_first())
    } else {
        (acc, s)
    }
}

/// A nonempty run of decimal digits.
pub open spec fn p_number(s: Seq<char>) -> Option<(nat, Seq<char>)> {
    if s.len() > 0 && is_digit(s[0]) {
        Some(p_digits_loop(0, s))
    } else {
        None
    }
}

/// A temperature literal: whole part, a dot, exactly three fractional
/// digits; the value in thousandths.
pub open spec fn p_temp(s: Seq<char>) -> Option<(u32, Seq<char>)> {
    match p_number(s) {
        Some((q, s1)) => {
            if s1.len() >= 4 && s1[0] == '.' && is_digit(s1[1]) && is_digit(s1[2]) && is_digit(
                s1[3],
            ) {
                let t = q * 1000 + digit_val(s1[1]) * 100 + digit_val(s1[2]) * 10 + digit_val(
                    s1[3],
                );
                if t < 4294967296 {
                    Some((t as u32, s1.skip(4)))
                } else {
                    None
                }
            } else {
                None
            }
        },
        None => None,
    }
}

pub open spec fn p_bool(s: Seq<char>) -> Option<(bool, Seq<char>)> {
    match p_lit(lit_true(), s) {
        Some(r) => Some((true, r)),
        None => match p_lit(lit_false(), s) {
            Some(r) => Some((false, r)),
            None => None,
        },
    }
}

// ---------------------------------------------------------------------------
// Schema parsers
// ---------------------------------------------------------------------------

/// One message object.
pub open spec fn p_message(s: Seq<char>) -> Option<(MessageV, Seq<char>)> {
    match p_lit(lit_role_open(), s) {
        Some(s1) => match p_string(s1) {
            Some((role, s2)) => match p_lit(lit_content(), s2) {
                Some(s3) => match p_string(s3) {
                    Some((content, s4)) => match p_lit(seq!['}'], s4) {
                        Some(s5) => Some((MessageV { role, content }, s5)),
                        None => None,
                    },
                    None => None,
                },
                None => None,
            },
            None => None,
        },
        None => None,
    }
}

/// A comma-separated message list, stopping (without consuming) at the `]`
/// that closes the array.
pub open spec fn p_messages(s: Seq<char>) -> Option<(Seq<MessageV>, Seq<char>)>
    decreases s.len(),
{
    if s.len() > 0 && s[0] == ']' {
        Some((Seq::empty(), s))
    } else {
        match p_message(s) {
            Some((m, r)) => {
                if r.len() < s.len() {
                    if r.len() > 0 && r[0] == ',' {
                        match p_messages(r.drop_first()) {
                            Some((ms, r2)) => Some((seq![m] + ms, r2)),
                            None => None,
                        }
                    } else {
                        Some((seq![m], r))
                    }
                } else {
                    None
                }
            },
            None => None,
        }
    }
}

/// The optional temperature field.
pub open spec fn p_opt_temp(s: Seq<char>) -> Option<(Option<u32>, Seq<char>)> {
    match p_lit(lit_temperature(), s) {
        Some(s1) => match p_temp(s1) {
            Some((t, s2)) => Some((Some(t), s2)),
            None => None,
        },
        None => Some((None, s)),
    }
}

/// The optional stream field.
pub open spec fn p_opt_stream(s: Seq<char>) -> Option<(Option<bool>, Seq<char>)> {
    match p_lit(lit_stream(), s) {
        Some(s1) => match p_bool(s1) {
            Some((b, s2)) => Some((Some(b), s2)),
            None => None,
        },
        None => Some((None, s)),
    }
}

/// An optional string-valued field introduced by the given literal.
pub open spec fn p_opt_str_field(lit: Seq<char>, s: Seq<char>) -> Option<(
    Option<Seq<char>>,
    Seq<char>,
)> {
    match p_lit(lit, s) {
        Some(s1) => match p_string(s1) {
            Some((v, s2)) => Some((Some(v), s2)),
            None => None,
        },
        None => Some((None, s)),
    }
}

/// The optional dimensions field.
pub open spec fn p_opt_dimensions(s: Seq<char>) -> Option<(Option<u32>, Seq<char>)> {
    match p_lit(lit_dimensions(), s) {
        Some(s1) => match p_number(s1) {
            Some((n, s2)) => if n < 4294967296 {
                Some((Some(n as u32), s2))
            } else {
                None
            },
            None => None,
        },
        None => Some((None, s)),
    }
}

/// A whole chat completion request document.
pub open spec fn p_chat_request(s: Seq<char>) -> Option<ChatRequestV> {
    match p_lit(lit_messages_open(), s) {
        Some(s1) => match p_messages(s1) {
            Some((messages, s2)) => match p_lit(lit_model(), s2) {
                Some(s3) => match p_string(s3) {
                    Some((model, s4)) => match p_opt_temp(s4) {
                        Some((temperature, s5)) => match p_opt_stream(s5) {
                            Some((stream, s6)) => if s6 == seq!['}'] {
                                Some(ChatRequestV { messages, model, temperature, stream })
                            } else {
                                None
                            },
                            None => None,
                        },
                        None => None,
                    },
                    None => None,
                },
                None => None,
            },
            None => None,
        },
        None => None,
    }
}

/// A whole embedding request document.
pub open spec fn p_embedding_request(s: Seq<char>) -> Option<EmbeddingRequestV> {
    match p_lit(lit_input_open(), s) {
        Some(s1) => match p_string(s1) {
            Some((input, s2)) => match p_lit(lit_model_mid(), s2) {
                Some(s3) => match p_string(s3) {
                    Some((model, s4)) => match p_opt_str_field(lit_encoding_format(), s4) {
                        Some((encoding_format, s5)) => match p_opt_dimensions(s5) {
                            Some((dimensions, s6)) => match p_opt_str_field(lit_user(), s6) {
                                Some((user, s7)) => if s7 == seq!['}'] {
                                    Some(
                                        EmbeddingRequestV {
                                            input,
                                            model,
                                            encoding_format,
                                            dimensions,
                                            user,
                                        },
                                    )
                                } else {
                                    None
                                },
                                None => None,
                            },
                            None => None,
                        },
                        None => None,
                    },
                    None => None,
                },
                None => None,
            },
            None => None,
        },
        None => None,
    }
}

// ---------------------------------------------------------------------------
// Round-trip lemmas, bottom up
// ---------------------------------------------------------------------------

/// A literal parses off the front of itself.
pub proof fn lemma_p_lit(lit: Seq<char>, rest: Seq<char>)
    ensures
        p_lit(lit, lit + rest) == Some(rest),
{
    assert((lit + rest).take(lit.len() as int) =~= lit);
    assert((lit + rest).skip(lit.len() as int) =~= rest);
}

/// A literal does not parse where the input differs from it.
pub proof fn lemma_p_lit_mismatch(lit: Seq<char>, s: Seq<char>, i: int)
    requires
        0 <= i < lit.len(),
        i < s.len(),
        s[i] != lit[i],
    ensures
        p_lit(lit, s) is None,
{
    if lit.len() <= s.len() && s.take(lit.len() as int) == lit {
        assert(s.take(lit.len() as int)[i] == s[i]);
    }
}

/// A control character survives the trip through its code point.
pub proof fn lemma_control_char_cast(c: char)
    requires
        (c as u32) < 32,
    ensures
        (((c as u32) as u8) as char) == c,
{
}

pub proof fn lemma_hex_round_trip(h: nat)
    requires
        h < 16,
    ensures
        is_hex(hex_char(h)),
        hex_val(hex_char(h)) == h,
{
}

/// The string-body parser undoes the escaper exactly.
pub proof fn lemma_p_str_body(x: Seq<char>, rest: Seq<char>)
    ensures
        p_str_body(escape(x) + seq!['"'] + rest) == Some((x, rest)),
    decreases x.len(),
{
    if x.len() == 0 {
        let s = escape(x) + seq!['"'] + rest;
        assert(s =~= seq!['"'] + rest);
        assert(s[0] == '"');
        assert(s.drop_first() =~= rest);
    } else {
        let c = x[0];
        let s = escape(x) + seq!['"'] + rest;
        let s2 = escape(x.drop_first()) + seq!['"'] + rest;
        assert(escape(x) == esc_char(c) + escape(x.drop_first()));
        assert(s =~= esc_char(c) + s2);
        lemma_p_str_body(x.drop_first(), rest);
        if c == '"' || c == '\\' || c == '\n' || c == '\r' || c == '\t' {
            assert(s[0] == '\\');
            assert(is_esc2(s[1]));
            assert(unesc2(s[1]) == c);
            assert(s.skip(2) =~= s2);
            assert(seq![c] + x.drop_first() =~= x);
        } else if (c as u32) < 32 {
            let v: u32 = c as u32;
            assert(s[0] == '\\' && s[1] == 'u' && s[2] == '0' && s[3] == '0');
            assert(s[4] == hex_char((v / 16) as nat));
            assert(s[5] == hex_char((v % 16) as nat));
            lemma_hex_round_trip((v / 16) as nat);
            lemma_hex_round_trip((v % 16) as nat);
            lemma_fundamental_div_mod(v as int, 16);
            assert(hex_val(s[4]) * 16 + hex_val(s[5]) == v as nat);
            assert(s.skip(6) =~= s2);
            assert((v as nat) < 32);
            assert(((v as nat) as u8) == (v as u8));
            lemma_control_char_cast(c);
            assert(((v as nat) as u8) as char == c);
            assert(seq![c] + x.drop_first() =~= x);
        } else {
            assert(s[0] == c);
            assert(c != '"' && c != '\\');
            assert(s.drop_first() =~= s2);
            assert(seq![c] + x.drop_first() =~= x);
        }
    }
}

/// A JSON string literal parses back to the text it was made from.
pub proof fn lemma_p_string(x: Seq<char>, rest: Seq<char>)
    ensures
        p_string(jstr(x) + rest) == Some((x, rest)),
{
    let s = jstr(x) + rest;
    assert(s[0] == '"');
    assert(s.drop_first() =~= escape(x) + seq!['"'] + rest);
    lemma_p_str_body(x, rest);
}

/// Ten to the k-th power.
pub open spec fn ten_pow(k: nat) -> nat
    decreases k,
{
    if k == 0 {
        1
    } else {
        10 * ten_pow((k - 1) as nat)
    }
}

/// The first character of a decimal representation is a digit.
pub proof fn lemma_dec_rep_first_digit(n: nat)
    ensures
        dec_rep(n).len() >= 1,
        is_digit(dec_rep(n)[0]),
    decreases n,
{
    if n >= 10 {
        lemma_dec_rep_first_digit(n / 10);
        assert(dec_rep(n)[0] == dec_rep(n / 10)[0]);
    }
}

/// Scanning the decimal representation of n accumulates exactly n.
pub proof fn lemma_p_digits_loop(acc: nat, n: nat, rest: Seq<char>)
    ensures
        p_digits_loop(acc, dec_rep(n) + rest) == p_digits_loop(
            acc * ten_pow(dec_rep(n).len()) + n,
            rest,
        ),
    decreases n,
{
    if n < 10 {
        let s = dec_rep(n) + rest;
        assert(s[0] == digit_char(n));
        assert(is_digit(digit_char(n)) && digit_val(digit_char(n)) == n);
        assert(s.drop_first() =~= rest);
        assert(ten_pow(0) == 1);
        assert(ten_pow(1) == 10);
        assert(p_digits_loop(acc, s) == p_digits_loop(acc * 10 + n, rest));
    } else {
        let d = n % 10;
        let rest1 = seq![digit_char(d)] + rest;
        assert(dec_rep(n) =~= dec_rep(n / 10) + seq![digit_char(d)]);
        assert(dec_rep(n) + rest =~= dec_rep(n / 10) + rest1);
        lemma_p_digits_loop(acc, n / 10, rest1);
        let p = ten_pow(dec_rep(n / 10).len());
        let a1 = acc * p + n / 10;
        assert(rest1[0] == digit_char(d));
        assert(is_digit(digit_char(d)) && digit_val(digit_char(d)) == d);
        assert(rest1.drop_first() =~= rest);
        assert(p_digits_loop(a1, rest1) == p_digits_loop(a1 * 10 + d, rest));
        assert(dec_rep(n).len() == dec_rep(n / 10).len() + 1);
        assert(ten_pow(dec_rep(n).len()) == 10 * p);
        assert(a1 * 10 + d == acc * (10 * p) + n) by (nonlinear_arith)
            requires
                a1 == acc * p + n / 10,
                d == n % 10,
                n >= 10,
        ;
    }
}

/// A decimal representation followed by a non-digit parses back to its value.
pub proof fn lemma_p_number(n: nat, rest: Seq<char>)
    requires
        rest.len() == 0 || !is_digit(rest[0]),
    ensures
        p_number(dec_rep(n) + rest) == Some((n, rest)),
{
    lemma_dec_rep_first_digit(n);
    assert((dec_rep(n) + rest)[0] == dec_rep(n)[0]);
    lemma_p_digits_loop(0, n, rest);
    assert(0 * ten_pow(dec_rep(n).len()) == 0);
    assert(p_digits_loop(n, rest) == (n, rest));
}

/// A temperature literal followed by a non-digit parses back to its value.
pub proof fn lemma_p_temp(t: u32, rest: Seq<char>)
    requires
        rest.len() == 0 || !is_digit(rest[0]),
    ensures
        p_temp(temp_rep(t) + rest) == Some((t, rest)),
{
    let tn = t as nat;
    let q = tn / 1000;
    let frac = seq![
        '.',
        digit_char((tn % 1000) / 100),
        digit_char((tn % 100) / 10),
        digit_char(tn % 10),
    ];
    assert(temp_rep(t) + rest =~= dec_rep(q) + (frac + rest));
    assert((frac + rest)[0] == '.');
    lemma_p_number(q, frac + rest);
    let s1 = frac + rest;
    assert(s1[1] == digit_char((tn % 1000) / 100));
    assert(s1[2] == digit_char((tn % 100) / 10));
    assert(s1[3] == digit_char(tn % 10));
    assert((tn % 1000) / 100 < 10);
    assert((tn % 100) / 10 < 10);
    assert(tn % 10 < 10);
    let h = (tn % 1000) / 100;
    let te = (tn % 100) / 10;
    let o = tn % 10;
    assert(digit_val(s1[1]) == h && digit_val(s1[2]) == te && digit_val(s1[3]) == o);
    lemma_fundamental_div_mod(tn as int, 1000);
    lemma_fundamental_div_mod((tn % 1000) as int, 100);
    lemma_fundamental_div_mod((tn % 100) as int, 10);
    lemma_mod_multiples_vanish(10 * (q as int), (tn % 1000) as int, 100);
    assert(100 * (10 * (q as int)) == 1000 * (q as int));
    assert(tn % 100 == (tn % 1000) % 100);
    lemma_mod_multiples_vanish(10 * ((tn / 100) as int), (tn % 100) as int, 10);
    assert(10 * (10 * ((tn / 100) as int)) == 100 * ((tn / 100) as int));
    lemma_fundamental_div_mod(tn as int, 100);
    assert(tn % 10 == (tn % 100) % 10);
    assert(q * 1000 + h * 100 + te * 10 + o == tn);
    assert(s1.skip(4) =~= rest);
}

pub proof fn lemma_p_bool(b: bool, rest: Seq<char>)
    ensures
        p_bool(jbool(b) + rest) == Some((b, rest)),
{
    if b {
        lemma_p_lit(lit_true(), rest);
    } else {
        assert((lit_false() + rest)[0] == 'f');
        lemma_p_lit_mismatch(lit_true(), lit_false() + rest, 0);
        lemma_p_lit(lit_false(), rest);
    }
}

/// A message object parses back to the message it was made from.
pub proof fn lemma_p_message(m: MessageV, rest: Seq<char>)
    ensures
        p_message(jmessage(m) + rest) == Some((m, rest)),
{
    let t4 = seq!['}'] + rest;
    let t3 = jstr(m.content) + t4;
    let t2 = lit_content() + t3;
    let t1 = jstr(m.role) + t2;
    assert(jmessage(m) + rest =~= lit_role_open() + t1);
    lemma_p_lit(lit_role_open(), t1);
    lemma_p_string(m.role, t2);
    lemma_p_lit(lit_content(), t3);
    lemma_p_string(m.content, t4);
    lemma_p_lit(seq!['}'], rest);
    assert((MessageV { role: m.role, content: m.content }) == m);
}

/// A message list parses back to the messages it was made from, up to the
/// closing bracket.
pub proof fn lemma_p_messages(ms: Seq<MessageV>, rest: Seq<char>)
    requires
        rest.len() > 0,
        rest[0] == ']',
    ensures
        p_messages(jmessages(ms) + rest) == Some((ms, rest)),
    decreases ms.len(),
{
    if ms.len() == 0 {
        assert(jmessages(ms) + rest =~= rest);
    } else if ms.len() == 1 {
        let s = jmessages(ms) + rest;
        assert(s =~= jmessage(ms[0]) + rest);
        assert(s[0] == lit_role_open()[0]);
        lemma_p_message(ms[0], rest);
        assert(jmessage(ms[0]).len() >= lit_role_open().len());
        assert(rest.len() < s.len());
        assert(rest[0] != ',');
        assert(seq![ms[0]] =~= ms);
    } else {
        let s = jmessages(ms) + rest;
        let r = seq![','] + (jmessages(ms.drop_first()) + rest);
        assert(s =~= jmessage(ms[0]) + r);
        assert(s[0] == lit_role_open()[0]);
        lemma_p_message(ms[0], r);
        assert(jmessage(ms[0]).len() >= lit_role_open().len());
        assert(r.len() < s.len());
        assert(r[0] == ',');
        assert(r.drop_first() =~= jmessages(ms.drop_first()) + rest);
        lemma_p_messages(ms.drop_first(), rest);
        assert(seq![ms[0]] + ms.drop_first() =~= ms);
    }
}

/// Round trip: any chat request, serialized to wire JSON and parsed back,
/// is recovered field for field — every optional field in both its present
/// and its absent state.
#[verifier::rlimit(100)]
pub proof fn lemma_chat_request_round_trip(v: ChatRequestV)
    ensures
        p_chat_request(chat_request_json(v)) == Some(v),
{
    let t5 = seq!['}'];
    let t4 = (match v.stream {
        Some(b) => lit_stream() + jbool(b),
        None => Seq::<char>::empty(),
    }) + t5;
    let t3 = (match v.temperature {
        Some(t) => lit_temperature() + temp_rep(t),
        None => Seq::<char>::empty(),
    }) + t4;
    let t2 = jstr(v.model) + t3;
    let t1 = lit_model() + t2;
    let t0 = jmessages(v.messages) + t1;
    assert(chat_request_json(v) =~= lit_messages_open() + t0);
    lemma_p_lit(lit_messages_open(), t0);
    assert(t1[0] == ']');
    lemma_p_messages(v.messages, t1);
    lemma_p_lit(lit_model(), t2);
    lemma_p_string(v.model, t3);
    match v.temperature {
        Some(t) => {
            assert(t3 =~= lit_temperature() + (temp_rep(t) + t4));
            lemma_p_lit(lit_temperature(), temp_rep(t) + t4);
            assert(t4[0] == ',' || t4[0] == '}');
            assert(!is_digit(t4[0]));
            lemma_p_temp(t, t4);
            assert(p_opt_temp(t3) == Some((Some(t), t4)));
        },
        None => {
            assert(t3 == t4);
            match v.stream {
                Some(b) => {
                    assert(t4[2] == 's');
                    lemma_p_lit_mismatch(lit_temperature(), t4, 2);
                },
                None => {
                    assert(t4.len() == 1);
                },
            }
            assert(p_opt_temp(t3) == Some((None::<u32>, t4)));
        },
    }
    match v.stream {
        Some(b) => {
            assert(t4 =~= lit_stream() + (jbool(b) + t5));
            lemma_p_lit(lit_stream(), jbool(b) + t5);
            lemma_p_bool(b, t5);
            assert(p_opt_stream(t4) == Some((Some(b), t5)));
        },
        None => {
            assert(t4.len() == 1);
            assert(p_opt_stream(t4) == Some((None::<bool>, t5)));
        },
    }
    assert(t5 == seq!['}']);
    assert((ChatRequestV {
        messages: v.messages,
        model: v.model,
        temperature: v.temperature,
        stream: v.stream,
    }) == v);
}

/// Round trip: any embedding request, serialized to wire JSON and parsed
/// back, is recovered field for field — every optional field in both its
/// present and its absent state.
#[verifier::rlimit(100)]
pub proof fn lemma_embedding_request_round_trip(v: EmbeddingRequestV)
    ensures
        p_embedding_request(embedding_request_json(v)) == Some(v),
{
    let t6 = seq!['}'];
    let t5 = (match v.user {
        Some(u) => lit_user() + jstr(u),
        None => Seq::<char>::empty(),
    }) + t6;
    let t4 = (match v.dimensions {
        Some(d) => lit_dimensions() + dec_rep(d as nat),
        None => Seq::<char>::empty(),
    }) + t5;
    let t3 = (match v.encoding_format {
        Some(e) => lit_encoding_format() + jstr(e),
        None => Seq::<char>::empty(),
    }) + t4;
    let t2 = jstr(v.model) + t3;
    let t1 = lit_model_mid() + t2;
    assert(embedding_request_json(v) =~= lit_input_open() + (jstr(v.input) + t1));
    lemma_p_lit(lit_input_open(), jstr(v.input) + t1);
    lemma_p_string(v.input, t1);
    lemma_p_lit(lit_model_mid(), t2);
    lemma_p_string(v.model, t3);
    // the encoding_format junction
    match v.encoding_format {
        Some(e) => {
            assert(t3 =~= lit_encoding_format() + (jstr(e) + t4));
            lemma_p_lit(lit_encoding_format(), jstr(e) + t4);
            lemma_p_string(e, t4);
            assert(p_opt_str_field(lit_encoding_format(), t3) == Some((Some(e), t4)));
        },
        None => {
            assert(t3 == t4);
            match v.dimensions {
                Some(d) => {
                    assert(t4[2] == 'd');
                    lemma_p_lit_mismatch(lit_encoding_format(), t4, 2);
                },
                None => {
                    match v.user {
                        Some(u) => {
                            assert(t4[2] == 'u');
                            lemma_p_lit_mismatch(lit_encoding_format(), t4, 2);
                        },
                        None => {
                            assert(t4.len() == 1);
                        },
                    }
                },
            }
            assert(p_opt_str_field(lit_encoding_format(), t3) == Some((None::<Seq<char>>, t4)));
        },
    }
    // the dimensions junction
    match v.dimensions {
        Some(d) => {
            assert(t4 =~= lit_dimensions() + (dec_rep(d as nat) + t5));
            lemma_p_lit(lit_dimensions(), dec_rep(d as nat) + t5);
            assert(t5[0] == ',' || t5[0] == '}');
            assert(!is_digit(t5[0]));
            lemma_p_number(d as nat, t5);
            assert(p_opt_dimensions(t4) == Some((Some(d), t5)));
        },
        None => {
            assert(t4 == t5);
            match v.user {
                Some(u) => {
                    assert(t5[2] == 'u');
                    lemma_p_lit_mismatch(lit_dimensions(), t5, 2);
                },
                None => {
                    assert(t5.len() == 1);
                },
            }
            assert(p_opt_dimensions(t4) == Some((None::<u32>, t5)));
        },
    }
    // the user junction
    match v.user {
        Some(u) => {
            assert(t5 =~= lit_user() + (jstr(u) + t6));
            lemma_p_lit(lit_user(), jstr(u) + t6);
            lemma_p_string(u, t6);
            assert(p_opt_str_field(lit_user(), t5) == Some((Some(u), t6)));
        },
        None => {
            assert(t5.len() == 1);
            assert(p_opt_str_field(lit_user(), t5) == Some((None::<Seq<char>>, t6)));
        },
    }
    assert(t6 == seq!['}']);
    assert((EmbeddingRequestV {
        input: v.input,
        model: v.model,
        encoding_format: v.encoding_format,
        dimensions: v.dimensions,
        user: v.user,
    }) == v);
}

} // verus!
