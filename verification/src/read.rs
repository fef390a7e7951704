//! The executable reader of the wire JSON format: scanning functions proved
//! equal to the specification-level parser, and `from_json` constructors for
//! the request schemas, so the round-trip laws can be exercised end to end.

use vstd::prelude::*;
use vstd::string::StrSliceExecFns;
use crate::parse::{hex_val, is_esc2, is_hex, p_bool, p_chat_request, p_digits_loop,
    p_embedding_request, p_lit, p_message, p_messages, p_number, p_str_body, p_string, p_temp,
    unesc2};
use crate::schema::{ChatCompletionRequest, EmbeddingRequest, Message, MessageV};
use crate::wire::{digit_val, is_digit, lit_content, lit_dimensions, lit_encoding_format,
    lit_false, lit_input_open, lit_messages_open, lit_model, lit_model_mid, lit_role_open,
    lit_stream, lit_temperature, lit_true, lit_user, push_char};

verus! {

/// Prepend a text to the parsed half of a string-parser outcome.
pub open spec fn prepend_str(a: Seq<char>, o: Option<(Seq<char>, Seq<char>)>) -> Option<(
    Seq<char>,
    Seq<char>,
)> {
    match o {
        Some(tr) => Some((a + tr.0, tr.1)),
        None => None,
    }
}

/// Scan an expected literal at position `i`; on success the position after it.
fn scan_lit(s: &str, i: usize, lit: &str) -> (r: Option<usize>)
    requires
        i <= s@.len(),
    ensures
        match r {
            Some(j) => i <= j <= s@.len() && j == i + lit@.len() && p_lit(lit@, s@.skip(i as int))
                == Some(s@.skip(j as int)),
            None => p_lit(lit@, s@.skip(i as int)) is None,
        },
{
    let n = s.unicode_len();
    let litn = lit.unicode_len();
    if n - i < litn {
        return None;
    }
    let mut k: usize = 0;
    while k < litn
        invariant
            k <= litn,
            i <= s@.len(),
            n == s@.len(),
            litn == lit@.len(),
            litn <= n - i,
            forall|m: int| 0 <= m < k ==> s@.skip(i as int)[m] == lit@[m],
        decreases litn - k,
    {
        let c = s.get_char(i + k);
        let e = lit.get_char(k);
        if c != e {
            proof {
                assert(s@.skip(i as int)[k as int] == s@[i as int + k as int]);
                crate::parse::lemma_p_lit_mismatch(lit@, s@.skip(i as int), k as int);
            }
            return None;
        }
        proof {
            assert(s@.skip(i as int)[k as int] == s@[i as int + k as int]);
        }
        k = k + 1;
    }
    proof {
        assert(s@.skip(i as int).take(litn as int) =~= lit@);
        assert(s@.skip(i as int).skip(litn as int) =~= s@.skip(i as int + litn as int));
    }
    Some(i + litn)
}

/// The value of a hexadecimal digit character, if it is one.
fn hex_val_exec(c: char) -> (r: Option<u32>)
    ensures
        match r {
            Some(v) => is_hex(c) && v as nat == hex_val(c) && v < 16,
            None => !is_hex(c),
        },
{
    if c == '0' {
        Some(0)
    } else if c == '1' {
        Some(1)
    } else if c == '2' {
        Some(2)
    } else if c == '3' {
        Some(3)
    } else if c == '4' {
        Some(4)
    } else if c == '5' {
        Some(5)
    } else if c == '6' {
        Some(6)
    } else if c == '7' {
        Some(7)
    } else if c == '8' {
        Some(8)
    } else if c == '9' {
        Some(9)
    } else if c == 'a' {
        Some(10)
    } else if c == 'b' {
        Some(11)
    } else if c == 'c' {
        Some(12)
    } else if c == 'd' {
        Some(13)
    } else if c == 'e' {
        Some(14)
    } else if c == 'f' {
        Some(15)
    } else {
        None
    }
}

/// Scan the inside of a JSON string literal from position `i` (just after
/// the opening quote): the unescaped text and the position after the closing
/// quote.
fn scan_str_body(s: &str, i: usize) -> (r: Option<(String, usize)>)
    requires
        i <= s@.len(),
    ensures
        match r {
            Some(vj) => vj.1 <= s@.len() && i <= vj.1 && p_str_body(s@.skip(i as int)) == Some(
                (vj.0@, s@.skip(vj.1 as int)),
            ),
            None => p_str_body(s@.skip(i as int)) is None,
        },
{
    let n = s.unicode_len();
    let mut acc = String::new();
    let mut k: usize = i;
    while k < n
        invariant
            i <= k <= n,
            n == s@.len(),
            prepend_str(acc@, p_str_body(s@.skip(k as int))) == p_str_body(s@.skip(i as int)),
        decreases n - k,
    {
        let ghost cur = s@.skip(k as int);
        let ghost acc0 = acc@;
        proof {
            assert(cur[0] == s@[k as int]);
        }
        let c0 = s.get_char(k);
        if c0 == '"' {
            proof {
                assert(cur.drop_first() =~= s@.skip(k as int + 1));
                assert(p_str_body(cur) == Some((Seq::<char>::empty(), s@.skip(k as int + 1))));
                assert(acc0 + Seq::<char>::empty() =~= acc0);
            }
            return Some((acc, k + 1));
        } else if c0 == '\\' {
            if k + 1 >= n {
                proof {
                    assert(cur.len() < 2);
                }
                return None;
            }
            proof {
                assert(cur[1] == s@[k as int + 1]);
            }
            let c1 = s.get_char(k + 1);
            if c1 == '"' || c1 == '\\' || c1 == 'n' || c1 == 'r' || c1 == 't' {
                let u: char = if c1 == '"' {
                    '"'
                } else if c1 == '\\' {
                    '\\'
                } else if c1 == 'n' {
                    '\n'
                } else if c1 == 'r' {
                    '\r'
                } else {
                    '\t'
                };
                proof {
                    assert(is_esc2(c1) && u == unesc2(c1));
                    assert(cur.skip(2) =~= s@.skip(k as int + 2));
                }
                push_char(&mut acc, u);
                proof {
                    assert(acc@ == acc0.push(u));
                    match p_str_body(s@.skip(k as int + 2)) {
                        Some(tr) => {
                            assert(acc0 + (seq![u] + tr.0) =~= acc0.push(u) + tr.0);
                        },
                        None => {},
                    }
                    assert(prepend_str(acc@, p_str_body(s@.skip(k as int + 2))) == p_str_body(
                        s@.skip(i as int),
                    ));
                }
                k = k + 2;
            } else if c1 == 'u' {
                if n - k < 6 {
                    proof {
                        assert(cur.len() < 6);
                    }
                    return None;
                }
                proof {
                    assert(cur[2] == s@[k as int + 2]);
                    assert(cur[3] == s@[k as int + 3]);
                    assert(cur[4] == s@[k as int + 4]);
                    assert(cur[5] == s@[k as int + 5]);
                }
                let c2 = s.get_char(k + 2);
                let c3 = s.get_char(k + 3);
                if c2 != '0' || c3 != '0' {
                    return None;
                }
                let h1 = match hex_val_exec(s.get_char(k + 4)) {
                    Some(v) => v,
                    None => {
                        return None;
                    },
                };
                let h2 = match hex_val_exec(s.get_char(k + 5)) {
                    Some(v) => v,
                    None => {
                        return None;
                    },
                };
                let v: u32 = h1 * 16 + h2;
                proof {
                    assert(hex_val(cur[4]) * 16 + hex_val(cur[5]) == v as nat);
                }
                if v >= 32 {
                    return None;
                }
                let u: char = (v as u8) as char;
                proof {
                    assert(cur.skip(6) =~= s@.skip(k as int + 6));
                }
                push_char(&mut acc, u);
                proof {
                    assert(acc@ == acc0.push(u));
                    match p_str_body(s@.skip(k as int + 6)) {
                        Some(tr) => {
                            assert(acc0 + (seq![u] + tr.0) =~= acc0.push(u) + tr.0);
                        },
                        None => {},
                    }
                    assert(prepend_str(acc@, p_str_body(s@.skip(k as int + 6))) == p_str_body(
                        s@.skip(i as int),
                    ));
                }
                k = k + 6;
            } else {
                return None;
            }
        } else {
            proof {
                assert(cur.drop_first() =~= s@.skip(k as int + 1));
            }
            push_char(&mut acc, c0);
            proof {
                assert(acc@ == acc0.push(c0));
                match p_str_body(s@.skip(k as int + 1)) {
                    Some(tr) => {
                        assert(acc0 + (seq![c0] + tr.0) =~= acc0.push(c0) + tr.0);
                    },
                    None => {},
                }
                assert(prepend_str(acc@, p_str_body(s@.skip(k as int + 1))) == p_str_body(
                    s@.skip(i as int),
                ));
            }
            k = k + 1;
        }
    }
    proof {
        assert(s@.skip(k as int).len() == 0);
    }
    None
}

/// Scan a whole JSON string literal at position `i`.
fn scan_string(s: &str, i: usize) -> (r: Option<(String, usize)>)
    requires
        i <= s@.len(),
    ensures
        match r {
            Some(vj) => vj.1 <= s@.len() && i < vj.1 && p_string(s@.skip(i as int)) == Some(
                (vj.0@, s@.skip(vj.1 as int)),
            ),
            None => p_string(s@.skip(i as int)) is None,
        },
{
    let n = s.unicode_len();
    if i >= n {
        return None;
    }
    proof {
        assert(s@.skip(i as int)[0] == s@[i as int]);
    }
    if s.get_char(i) != '"' {
        return None;
    }
    proof {
        assert(s@.skip(i as int).drop_first() =~= s@.skip(i as int + 1));
    }
    scan_str_body(s, i + 1)
}

/// The value of a decimal digit character, if it is one.
fn digit_val_exec(c: char) -> (r: Option<u32>)
    ensures
        match r {
            Some(d) => is_digit(c) && d as nat == digit_val(c) && d < 10,
            None => !is_digit(c),
        },
{
    if c == '0' {
        Some(0)
    } else if c == '1' {
        Some(1)
    } else if c == '2' {
        Some(2)
    } else if c == '3' {
        Some(3)
    } else if c == '4' {
        Some(4)
    } else if c == '5' {
        Some(5)
    } else if c == '6' {
        Some(6)
    } else if c == '7' {
        Some(7)
    } else if c == '8' {
        Some(8)
    } else if c == '9' {
        Some(9)
    } else {
        None
    }
}

/// Scan a run of decimal digits at position `i`. The first component of a
/// success says whether the value fits in 32 bits.
fn scan_number(s: &str, i: usize) -> (r: Option<(Option<u32>, usize)>)
    requires
        i <= s@.len(),
    ensures
        match p_number(s@.skip(i as int)) {
            Some(nr) => match r {
                Some(vj) => i <= vj.1 <= s@.len() && s@.skip(vj.1 as int) == nr.1 && (match vj.0 {
                    Some(u) => u as nat == nr.0,
                    None => nr.0 >= 4294967296,
                }),
                None => false,
            },
            None => r is None,
        },
{
    let n = s.unicode_len();
    if i >= n {
        return None;
    }
    proof {
        assert(s@.skip(i as int)[0] == s@[i as int]);
    }
    if digit_val_exec(s.get_char(i)).is_none() {
        return None;
    }
    let mut val: u32 = 0;
    let mut over: bool = false;
    let ghost mut a: nat = 0;
    let mut k: usize = i;
    while k < n
        invariant
            i <= k <= n,
            n == s@.len(),
            p_digits_loop(0, s@.skip(i as int)) == p_digits_loop(a, s@.skip(k as int)),
            if over {
                a >= 4294967296
            } else {
                val as nat == a
            },
        ensures
            i <= k <= n,
            n == s@.len(),
            p_digits_loop(0, s@.skip(i as int)) == p_digits_loop(a, s@.skip(k as int)),
            if over {
                a >= 4294967296
            } else {
                val as nat == a
            },
            k == n || !is_digit(s@.skip(k as int)[0]),
        decreases n - k,
    {
        let ghost cur = s@.skip(k as int);
        proof {
            assert(cur[0] == s@[k as int]);
        }
        let d = match digit_val_exec(s.get_char(k)) {
            Some(d) => d,
            None => {
                break ;
            },
        };
        proof {
            assert(cur.drop_first() =~= s@.skip(k as int + 1));
            assert(p_digits_loop(a, cur) == p_digits_loop(a * 10 + digit_val(cur[0]), s@.skip(
                k as int + 1,
            )));
        }
        let t: u64 = (val as u64) * 10 + (d as u64);
        proof {
            if over {
                assert(a * 10 + digit_val(cur[0]) >= a);
            } else {
                assert(t as nat == a * 10 + digit_val(cur[0]));
            }
        }
        if t > 0xFFFF_FFFF {
            over = true;
        } else if !over {
            val = t as u32;
        }
        proof {
            a = a * 10 + digit_val(cur[0]);
        }
        k = k + 1;
    }
    proof {
        if k == n {
            assert(s@.skip(k as int).len() == 0);
        }
        assert(p_digits_loop(a, s@.skip(k as int)) == (a, s@.skip(k as int)));
    }
    if over {
        Some((None, k))
    } else {
        Some((Some(val), k))
    }
}

/// Scan a temperature literal (whole part, dot, three fractional digits) at
/// position `i`; the value in thousandths.
fn scan_temp(s: &str, i: usize) -> (r: Option<(u32, usize)>)
    requires
        i <= s@.len(),
    ensures
        match p_temp(s@.skip(i as int)) {
            Some(tr) => match r {
                Some(vj) => i <= vj.1 <= s@.len() && vj.0 == tr.0 && s@.skip(vj.1 as int) == tr.1,
                None => false,
            },
            None => r is None,
        },
{
    let n = s.unicode_len();
    let (q_opt, j) = match scan_number(s, i) {
        Some(vj) => vj,
        None => {
            return None;
        },
    };
    let ghost s1 = s@.skip(j as int);
    if n - j < 4 {
        return None;
    }
    proof {
        assert(s1[0] == s@[j as int]);
        assert(s1[1] == s@[j as int + 1]);
        assert(s1[2] == s@[j as int + 2]);
        assert(s1[3] == s@[j as int + 3]);
    }
    if s.get_char(j) != '.' {
        return None;
    }
    let d2 = match digit_val_exec(s.get_char(j + 1)) {
        Some(d) => d,
        None => {
            return None;
        },
    };
    let d1 = match digit_val_exec(s.get_char(j + 2)) {
        Some(d) => d,
        None => {
            return None;
        },
    };
    let d0 = match digit_val_exec(s.get_char(j + 3)) {
        Some(d) => d,
        None => {
            return None;
        },
    };
    let q = match q_opt {
        Some(q) => q,
        None => {
            // the whole part alone already exceeds the 32-bit range
            proof {
                let qn = p_number(s@.skip(i as int)).unwrap().0;
                assert(qn * 1000 >= qn);
            }
            return None;
        },
    };
    let t: u64 = (q as u64) * 1000 + (d2 as u64) * 100 + (d1 as u64) * 10 + (d0 as u64);
    if t > 0xFFFF_FFFF {
        return None;
    }
    proof {
        assert(s1.skip(4) =~= s@.skip(j as int + 4));
    }
    Some((t as u32, j + 4))
}

/// Scan a JSON boolean at position `i`.
fn scan_bool(s: &str, i: usize) -> (r: Option<(bool, usize)>)
    requires
        i <= s@.len(),
    ensures
        match p_bool(s@.skip(i as int)) {
            Some(br) => match r {
                Some(vj) => i <= vj.1 <= s@.len() && vj.0 == br.0 && s@.skip(vj.1 as int) == br.1,
                None => false,
            },
            None => r is None,
        },
{
    proof {
        reveal_strlit("true");
        reveal_strlit("false");
        assert("true"@ =~= lit_true());
        assert("false"@ =~= lit_false());
    }
    match scan_lit(s, i, "true") {
        Some(j) => Some((true, j)),
        None => match scan_lit(s, i, "false") {
            Some(j) => Some((false, j)),
            None => None,
        },
    }
}

/// Scan one message object at position `i`.
fn scan_message(s: &str, i: usize) -> (r: Option<(Message, usize)>)
    requires
        i <= s@.len(),
    ensures
        match p_message(s@.skip(i as int)) {
            Some(mr) => match r {
                Some(mj) => i < mj.1 <= s@.len() && mj.0@ == mr.0 && s@.skip(mj.1 as int) == mr.1,
                None => false,
            },
            None => r is None,
        },
{
    proof {
        reveal_strlit("{\"role\":");
        reveal_strlit(",\"content\":");
        reveal_strlit("}");
        assert("{\"role\":"@ =~= lit_role_open());
        assert(",\"content\":"@ =~= lit_content());
        assert("}"@ =~= seq!['}']);
    }
    let j1 = match scan_lit(s, i, "{\"role\":") {
        Some(j) => j,
        None => {
            return None;
        },
    };
    let (role, j2) = match scan_string(s, j1) {
        Some(vj) => vj,
        None => {
            return None;
        },
    };
    let j3 = match scan_lit(s, j2, ",\"content\":") {
        Some(j) => j,
        None => {
            return None;
        },
    };
    let (content, j4) = match scan_string(s, j3) {
        Some(vj) => vj,
        None => {
            return None;
        },
    };
    let j5 = match scan_lit(s, j4, "}") {
        Some(j) => j,
        None => {
            return None;
        },
    };
    let m = Message { role, content };
    proof {
        assert(m@ == p_message(s@.skip(i as int)).unwrap().0);
    }
    Some((m, j5))
}

/// Scan a comma-separated message list at position `i`, stopping (without
/// consuming) at the closing `]`.
fn scan_messages(s: &str, i: usize) -> (r: Option<(Vec<Message>, usize)>)
    requires
        i <= s@.len(),
    ensures
        match p_messages(s@.skip(i as int)) {
            Some(mr) => match r {
                Some(vj) => i <= vj.1 <= s@.len() && vj.0.deep_view() == mr.0 && s@.skip(
                    vj.1 as int,
                ) == mr.1,
                None => false,
            },
            None => r is None,
        },
    decreases s@.len() - i,
{
    let n = s.unicode_len();
    if i < n {
        proof {
            assert(s@.skip(i as int)[0] == s@[i as int]);
        }
        if s.get_char(i) == ']' {
            let v: Vec<Message> = Vec::new();
            proof {
                assert(v.deep_view() =~~= Seq::<MessageV>::empty());
            }
            return Some((v, i));
        }
    }
    let (m, j) = match scan_message(s, i) {
        Some(mj) => mj,
        None => {
            return None;
        },
    };
    proof {
        assert(s@.skip(j as int).len() < s@.skip(i as int).len());
    }
    if j < n && s.get_char(j) == ',' {
        proof {
            assert(s@.skip(j as int)[0] == s@[j as int]);
            assert(s@.skip(j as int).drop_first() =~= s@.skip(j as int + 1));
        }
        let (mut v, j2) = match scan_messages(s, j + 1) {
            Some(vj) => vj,
            None => {
                return None;
            },
        };
        let ghost tail_view = v.deep_view();
        v.insert(0, m);
        proof {
            assert(v.deep_view() =~~= seq![m@] + tail_view);
        }
        Some((v, j2))
    } else {
        proof {
            if j < n {
                assert(s@.skip(j as int)[0] == s@[j as int]);
            } else {
                assert(s@.skip(j as int).len() == 0);
            }
        }
        let mut v: Vec<Message> = Vec::new();
        v.push(m);
        proof {
            assert(v.deep_view() =~~= seq![m@]);
        }
        Some((v, j))
    }
}

impl ChatCompletionRequest {
    /// Read a chat completion request back from its wire JSON; exactly the
    /// documents the specification parser accepts are accepted.
    pub fn from_json(s: &str) -> (r: Option<ChatCompletionRequest>)
        ensures
            match r {
                Some(v) => p_chat_request(s@) == Some(v@),
                None => p_chat_request(s@) is None,
            },
    {
        let n = s.unicode_len();
        proof {
            assert(s@.skip(0) =~= s@);
            reveal_strlit("{\"messages\":[");
            reveal_strlit("],\"model\":");
            reveal_strlit(",\"temperature\":");
            reveal_strlit(",\"stream\":");
            assert("{\"messages\":["@ =~= lit_messages_open());
            assert("],\"model\":"@ =~= lit_model());
            assert(",\"temperature\":"@ =~= lit_temperature());
            assert(",\"stream\":"@ =~= lit_stream());
        }
        let j0 = match scan_lit(s, 0, "{\"messages\":[") {
            Some(j) => j,
            None => {
                return None;
            },
        };
        let (messages, j1) = match scan_messages(s, j0) {
            Some(vj) => vj,
            None => {
                return None;
            },
        };
        let j2 = match scan_lit(s, j1, "],\"model\":") {
            Some(j) => j,
            None => {
                return None;
            },
        };
        let (model, j3) = match scan_string(s, j2) {
            Some(vj) => vj,
            None => {
                return None;
            },
        };
        let (temperature, j4) = match scan_lit(s, j3, ",\"temperature\":") {
            Some(ja) => match scan_temp(s, ja) {
                Some((t, jb)) => (Some(t), jb),
                None => {
                    return None;
                },
            },
            None => (None, j3),
        };
        let (stream, j5) = match scan_lit(s, j4, ",\"stream\":") {
            Some(ja) => match scan_bool(s, ja) {
                Some((b, jb)) => (Some(b), jb),
                None => {
                    return None;
                },
            },
            None => (None, j4),
        };
        if n - j5 == 1 && s.get_char(j5) == '}' {
            proof {
                assert(s@.skip(j5 as int)[0] == s@[j5 as int]);
                assert(s@.skip(j5 as int) =~= seq!['}']);
            }
            let v = ChatCompletionRequest { messages, model, temperature, stream };
            proof {
                assert(p_chat_request(s@) == Some(v@));
            }
            Some(v)
        } else {
            proof {
                if s@.skip(j5 as int) == seq!['}'] {
                    assert(s@.skip(j5 as int).len() == 1);
                    assert(s@.skip(j5 as int)[0] == s@[j5 as int]);
                }
            }
            None
        }
    }
}

impl EmbeddingRequest {
    /// Read an embedding request back from its wire JSON; exactly the
    /// documents the specification parser accepts are accepted.
    #[verifier::rlimit(100)]
    pub fn from_json(s: &str) -> (r: Option<EmbeddingRequest>)
        ensures
            match r {
                Some(v) => p_embedding_request(s@) == Some(v@),
                None => p_embedding_request(s@) is None,
            },
    {
        let n = s.unicode_len();
        proof {
            assert(s@.skip(0) =~= s@);
            reveal_strlit("{\"input\":");
            reveal_strlit(",\"model\":");
            reveal_strlit(",\"encoding_format\":");
            reveal_strlit(",\"dimensions\":");
            reveal_strlit(",\"user\":");
            assert("{\"input\":"@ =~= lit_input_open());
            assert(",\"model\":"@ =~= lit_model_mid());
            assert(",\"encoding_format\":"@ =~= lit_encoding_format());
            assert(",\"dimensions\":"@ =~= lit_dimensions());
            assert(",\"user\":"@ =~= lit_user());
        }
        let j0 = match scan_lit(s, 0, "{\"input\":") {
            Some(j) => j,
            None => {
                return None;
            },
        };
        let (input, j1) = match scan_string(s, j0) {
            Some(vj) => vj,
            None => {
                return None;
            },
        };
        let j2 = match scan_lit(s, j1, ",\"model\":") {
            Some(j) => j,
            None => {
                return None;
            },
        };
        let (model, j3) = match scan_string(s, j2) {
            Some(vj) => vj,
            None => {
                return None;
            },
        };
        let (encoding_format, j4) = match scan_lit(s, j3, ",\"encoding_format\":") {
            Some(ja) => match scan_string(s, ja) {
                Some((v, jb)) => (Some(v), jb),
                None => {
                    return None;
                },
            },
            None => (None, j3),
        };
        let (dimensions, j5) = match scan_lit(s, j4, ",\"dimensions\":") {
            Some(ja) => match scan_number(s, ja) {
                Some((Some(d), jb)) => (Some(d), jb),
                Some((None, _)) => {
                    return None;
                },
                None => {
                    return None;
                },
            },
            None => (None, j4),
        };
        let (user, j6) = match scan_lit(s, j5, ",\"user\":") {
            Some(ja) => match scan_string(s, ja) {
                Some((v, jb)) => (Some(v), jb),
                None => {
                    return None;
                },
            },
            None => (None, j5),
        };
        if n - j6 == 1 && s.get_char(j6) == '}' {
            proof {
                assert(s@.skip(j6 as int)[0] == s@[j6 as int]);
                assert(s@.skip(j6 as int) =~= seq!['}']);
            }
            let v = EmbeddingRequest { input, model, encoding_format, dimensions, user };
            proof {
                assert(p_embedding_request(s@) == Some(v@));
            }
            Some(v)
        } else {
            proof {
                if s@.skip(j6 as int) == seq!['}'] {
                    assert(s@.skip(j6 as int).len() == 1);
                    assert(s@.skip(j6 as int)[0] == s@[j6 as int]);
                }
            }
            None
        }
    }
}

} // verus!
