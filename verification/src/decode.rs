//! The executable decoder: JSON text to message values, proved to return
//! exactly what the parsing spec functions in [`crate::codec`] say.

use vstd::prelude::*;

use crate::codec::{
    dec_val, digit_run_end, digit_val, is_digit, parse_elems, parse_int, parse_json,
    parse_members, parse_str_body, parse_value, skip_ws, unesc_char, word_at,
};
use crate::error::DecodeError;
use crate::message::{
    Id, IdV, JsonRpcError, JsonRpcErrorV, Request, RequestV, Response, ResponsePayload,
    ResponsePayloadV, ResponseV, seq_rep,
};
use crate::value::{Value, ValueV, value_rep};

verus! {

// ---------------------------------------------------------------------------
// From a parsed value to a message: the envelope rules
// ---------------------------------------------------------------------------

/// The `id` member name.
pub open spec fn id_key() -> Seq<char> {
    seq!['i', 'd']
}

/// The `jsonrpc` member name.
pub open spec fn ver_key() -> Seq<char> {
    seq!['j', 's', 'o', 'n', 'r', 'p', 'c']
}

/// The `method` member name.
pub open spec fn method_key() -> Seq<char> {
    seq!['m', 'e', 't', 'h', 'o', 'd']
}

/// The `params` member name.
pub open spec fn params_key() -> Seq<char> {
    seq!['p', 'a', 'r', 'a', 'm', 's']
}

/// The `result` member name.
pub open spec fn result_key() -> Seq<char> {
    seq!['r', 'e', 's', 'u', 'l', 't']
}

/// The `error` member name.
pub open spec fn error_key() -> Seq<char> {
    seq!['e', 'r', 'r', 'o', 'r']
}

/// The `code` member name.
pub open spec fn code_key() -> Seq<char> {
    seq!['c', 'o', 'd', 'e']
}

/// The `message` member name.
pub open spec fn message_key() -> Seq<char> {
    seq!['m', 'e', 's', 's', 'a', 'g', 'e']
}

/// The value of the first member named `k`, if any.
pub open spec fn lookup(m: Seq<(Seq<char>, ValueV)>, k: Seq<char>) -> Option<ValueV>
    decreases m.len(),
{
    if m.len() == 0 {
        None
    } else if m[0].0 == k {
        Some(m[0].1)
    } else {
        lookup(m.drop_first(), k)
    }
}

/// Whether some member is named `k`.
pub open spec fn has_key(m: Seq<(Seq<char>, ValueV)>, k: Seq<char>) -> bool {
    lookup(m, k) is Some
}

/// The correlator a wire value stands for: an integer stays an integer id, a
/// string stays a string id, anything else is no id at all.
pub open spec fn id_of_value(v: ValueV) -> Option<IdV> {
    match v {
        ValueV::Int(n) => Some(IdV::Number(n)),
        ValueV::Str(t) => Some(IdV::String(t)),
        _ => None,
    }
}

/// The protocol error a wire value stands for: an object with an integer
/// `code` and a string `message`.
pub open spec fn error_of_value(v: ValueV) -> Option<JsonRpcErrorV> {
    match v {
        ValueV::Obj(em) => match (lookup(em, code_key()), lookup(em, message_key())) {
            (Some(ValueV::Int(c)), Some(ValueV::Str(t))) => Some(
                JsonRpcErrorV { code: c, message: t },
            ),
            _ => None,
        },
        _ => None,
    }
}

/// The envelope rules for a response: the top-level value must be an object,
/// `jsonrpc` a string, `id` an integer or a string, and exactly one of
/// `result` and `error` must be present; the presence of `result` or `error`
/// alone decides the payload variant.
pub open spec fn response_of_value(v: ValueV) -> Result<ResponseV, DecodeError> {
    match v {
        ValueV::Obj(m) => match lookup(m, ver_key()) {
            Some(ValueV::Str(ver)) => match lookup(m, id_key()) {
                Some(idval) => match id_of_value(idval) {
                    Some(id) => {
                        if has_key(m, result_key()) && has_key(m, error_key()) {
                            Err(DecodeError::BothPayloads)
                        } else {
                            match lookup(m, result_key()) {
                                Some(rv) => Ok(
                                    ResponseV {
                                        id,
                                        jsonrpc: ver,
                                        payload: ResponsePayloadV::Result(rv),
                                    },
                                ),
                                None => match lookup(m, error_key()) {
                                    Some(ev) => match error_of_value(ev) {
                                        Some(je) => Ok(
                                            ResponseV {
                                                id,
                                                jsonrpc: ver,
                                                payload: ResponsePayloadV::Error(je),
                                            },
                                        ),
                                        None => Err(DecodeError::BadErrorObject),
                                    },
                                    None => Err(DecodeError::NoPayload),
                                },
                            }
                        }
                    },
                    None => Err(DecodeError::BadId),
                },
                None => Err(DecodeError::BadId),
            },
            _ => Err(DecodeError::BadVersion),
        },
        _ => Err(DecodeError::NotObject),
    }
}

/// The envelope rules for a request: the top-level value must be an object,
/// `jsonrpc` a string, `id` an integer or a string, `method` a string and
/// `params` an array.
pub open spec fn request_of_value(v: ValueV) -> Result<RequestV, DecodeError> {
    match v {
        ValueV::Obj(m) => match lookup(m, ver_key()) {
            Some(ValueV::Str(ver)) => match lookup(m, id_key()) {
                Some(idval) => match id_of_value(idval) {
                    Some(id) => match lookup(m, method_key()) {
                        Some(ValueV::Str(method)) => match lookup(m, params_key()) {
                            Some(ValueV::Arr(params)) => Ok(
                                RequestV { id, jsonrpc: ver, method, params },
                            ),
                            _ => Err(DecodeError::BadParams),
                        },
                        _ => Err(DecodeError::BadMethod),
                    },
                    None => Err(DecodeError::BadId),
                },
                None => Err(DecodeError::BadId),
            },
            _ => Err(DecodeError::BadVersion),
        },
        _ => Err(DecodeError::NotObject),
    }
}

/// What decoding a response text yields: a parse per the JSON grammar spec,
/// then the envelope rules.
pub open spec fn spec_decode_response(s: Seq<char>) -> Result<ResponseV, DecodeError> {
    match parse_json(s) {
        None => Err(DecodeError::Syntax),
        Some(v) => response_of_value(v),
    }
}

/// What decoding a request text yields.
pub open spec fn spec_decode_request(s: Seq<char>) -> Result<RequestV, DecodeError> {
    match parse_json(s) {
        None => Err(DecodeError::Syntax),
        Some(v) => request_of_value(v),
    }
}

// ---------------------------------------------------------------------------
// Executable parser
// ---------------------------------------------------------------------------

/// The characters of a text, in order.
pub fn str_to_chars(s: &str) -> (r: Vec<char>)
    ensures
        r@ == s@,
{
    let n = s.unicode_len();
    let mut r: Vec<char> = Vec::new();
    let mut i: usize = 0;
    while i < n
        invariant
            n == s@.len(),
            i <= n,
            r@ == s@.take(i as int),
        decreases n - i,
    {
        r.push(s.get_char(i));
        proof {
            assert(s@.take(i as int).push(s@[i as int]) =~= s@.take(i as int + 1));
        }
        i = i + 1;
    }
    proof {
        assert(s@.take(n as int) =~= s@);
    }
    r
}

fn skip_ws_x(s: &Vec<char>, i: usize) -> (j: usize)
    requires
        i <= s@.len(),
    ensures
        j as int == skip_ws(s@, i as int),
        i <= j <= s@.len(),
    decreases s@.len() - i,
{
    if i < s.len() {
        let c = s[i];
        if c == ' ' || c == '\n' || c == '\r' || c == '\t' {
            return skip_ws_x(s, i + 1);
        }
    }
    i
}

fn digit_run_end_x(s: &Vec<char>, i: usize) -> (j: usize)
    requires
        i <= s@.len(),
    ensures
        j as int == digit_run_end(s@, i as int),
        i <= j <= s@.len(),
    decreases s@.len() - i,
{
    if i < s.len() {
        let c = s[i];
        if '0' <= c && c <= '9' {
            return digit_run_end_x(s, i + 1);
        }
    }
    i
}

fn parse_str_body_x(s: &Vec<char>, i: usize, acc: &mut String) -> (r: Option<usize>)
    requires
        i <= s@.len(),
    ensures
        (match r {
            None => parse_str_body(s@, i as int, old(acc)@) is None,
            Some(j) => parse_str_body(s@, i as int, old(acc)@) == Some((final(acc)@, j as int))
                && i < j <= s@.len(),
        }),
    decreases s@.len() - i,
{
    if i >= s.len() {
        return None;
    }
    let c = s[i];
    if c == '"' {
        return Some(i + 1);
    }
    if c == '\\' {
        if i + 1 >= s.len() {
            return None;
        }
        let e = s[i + 1];
        let u: Option<char> = if e == '"' {
            Some('"')
        } else if e == '\\' {
            Some('\\')
        } else if e == '/' {
            Some('/')
        } else if e == 'n' {
            Some('\n')
        } else if e == 'r' {
            Some('\r')
        } else if e == 't' {
            Some('\t')
        } else if e == 'b' {
            Some('\u{0008}')
        } else if e == 'f' {
            Some('\u{000C}')
        } else {
            None
        };
        assert(u == unesc_char(s@[i as int + 1]));
        match u {
            None => return None,
            Some(c2) => {
                crate::codec::push_char(acc, c2);
                return parse_str_body_x(s, i + 2, acc);
            },
        }
    }
    crate::codec::push_char(acc, c);
    parse_str_body_x(s, i + 1, acc)
}

/// The run of digits starting at `i` is made of digits.
proof fn lemma_digit_run_chars(s: Seq<char>, i: int)
    requires
        0 <= i <= s.len(),
    ensures
        i <= digit_run_end(s, i) <= s.len(),
        forall|k: int| i <= k < digit_run_end(s, i) ==> is_digit(s[k]),
    decreases s.len() - i,
{
    if i < s.len() && is_digit(s[i]) {
        lemma_digit_run_chars(s, i + 1);
    }
}

/// A digit run denotes a non-negative number.
proof fn lemma_dec_val_nonneg(ds: Seq<char>)
    requires
        forall|k: int| 0 <= k < ds.len() ==> is_digit(ds[k]),
    ensures
        dec_val(ds) >= 0,
    decreases ds.len(),
{
    if ds.len() > 0 {
        lemma_dec_val_nonneg(ds.drop_last());
    }
}

/// Reading more digits never makes the number smaller.
proof fn lemma_dec_val_prefix_le(ds: Seq<char>, j: int)
    requires
        0 <= j <= ds.len(),
        forall|k: int| 0 <= k < ds.len() ==> is_digit(ds[k]),
    ensures
        dec_val(ds.take(j)) <= dec_val(ds),
    decreases ds.len() - j,
{
    if j < ds.len() {
        assert(ds.take(j + 1).drop_last() =~= ds.take(j));
        assert(ds.take(j + 1).last() == ds[j]);
        lemma_dec_val_nonneg(ds.take(j));
        assert(dec_val(ds.take(j)) <= dec_val(ds.take(j + 1)));
        lemma_dec_val_prefix_le(ds, j + 1);
    } else {
        assert(ds.take(j) =~= ds);
    }
}

#[verifier::loop_isolation(false)]
fn parse_int_x(s: &Vec<char>, i: usize) -> (r: Option<(i64, usize)>)
    requires
        i < s@.len(),
    ensures
        (match r {
            None => parse_int(s@, i as int) is None,
            Some((n, e)) => parse_int(s@, i as int) == Some((ValueV::Int(n), e as int)) && i < e
                <= s@.len(),
        }),
{
    let n = s.len();
    let neg = s[i] == '-';
    let d0 = if neg {
        i + 1
    } else {
        i
    };
    let e = digit_run_end_x(s, d0);
    proof {
        lemma_digit_run_chars(s@, d0 as int);
    }
    if e == d0 {
        return None;
    }
    if e < s.len() {
        let t = s[e];
        if t == '.' || t == 'e' || t == 'E' {
            return None;
        }
    }
    let limit: u64 = if neg {
        9223372036854775808u64
    } else {
        9223372036854775807u64
    };
    let ghost run = s@.subrange(d0 as int, e as int);
    proof {
        assert(forall|k: int| 0 <= k < run.len() ==> is_digit(run[k]));
    }
    let mut acc: u64 = 0;
    let mut j = d0;
    while j < e
        invariant
            d0 <= j <= e,
            e <= s@.len(),
            run == s@.subrange(d0 as int, e as int),
            forall|k: int| 0 <= k < run.len() ==> is_digit(run[k]),
            acc as int == dec_val(run.take(j as int - d0 as int)),
            acc <= limit,
            limit >= 9223372036854775807u64,
        decreases e - j,
    {
        let c = s[j];
        assert(c == run[j as int - d0 as int]);
        assert(is_digit(c));
        let d: u64 = (c as u32 as u64) - 48;
        assert(d as int == digit_val(c));
        assert(d <= 9);
        proof {
            assert(run.take(j as int - d0 as int + 1).drop_last() =~= run.take(
                j as int - d0 as int,
            ));
            assert(run.take(j as int - d0 as int + 1).last() == c);
        }
        if acc > (limit - d) / 10 {
            proof {
                lemma_dec_val_nonneg(run.take(j as int - d0 as int));
                assert((limit - d) / 10 * 10 + (limit - d) % 10 == limit - d) by (nonlinear_arith);
                assert(acc as int * 10 >= (limit - d) / 10 * 10 + 10) by (nonlinear_arith)
                    requires
                        acc as int >= (limit - d) / 10 + 1,
                ;
                assert(dec_val(run.take(j as int - d0 as int + 1)) > limit);
                lemma_dec_val_prefix_le(run, j as int - d0 as int + 1);
                assert(dec_val(run) > limit);
                assert(parse_int(s@, i as int) is None);
            }
            return None;
        }
        acc = acc * 10 + d;
        j = j + 1;
    }
    proof {
        assert(run.take(e as int - d0 as int) =~= run);
        assert(acc as int == dec_val(run));
    }
    if neg {
        if acc == 9223372036854775808u64 {
            Some((i64::MIN, e))
        } else {
            Some((-(acc as i64), e))
        }
    } else {
        Some((acc as i64, e))
    }
}

/// How an executable parse result corresponds to a spec parse result.
pub open spec fn val_corr(sp: Option<(ValueV, int)>, r: Option<(Value, usize)>) -> bool {
    match (sp, r) {
        (None, None) => true,
        (Some((vv, kk)), Some((v, k))) => value_rep(v) == vv && k as int == kk,
        _ => false,
    }
}

/// The model of a member list, entry by entry.
pub open spec fn mem_rep(s: Seq<(String, Value)>) -> Seq<(Seq<char>, ValueV)> {
    Seq::new(s.len(), |i: int| (s[i].0@, value_rep(s[i].1)))
}

fn parse_value_x(s: &Vec<char>, i: usize) -> (r: Option<(Value, usize)>)
    requires
        i <= s@.len(),
    ensures
        val_corr(parse_value(s@, i as int), r),
        r matches Some((v, k)) ==> i < k <= s@.len(),
    decreases s@.len() - i, 0nat,
{
    if i >= s.len() {
        return None;
    }
    let c = s[i];
    if c == 'n' {
        if s.len() - i >= 4 && s[i + 1] == 'u' && s[i + 2] == 'l' && s[i + 3] == 'l' {
            proof {
                assert(s@.subrange(i as int, i as int + 4) =~= seq!['n', 'u', 'l', 'l']);
            }
            return Some((Value::Null, i + 4));
        } else {
            proof {
                if word_at(s@, i as int, seq!['n', 'u', 'l', 'l']) {
                    assert(s@.subrange(i as int, i as int + 4)[1] == s@[i as int + 1]);
                    assert(s@.subrange(i as int, i as int + 4)[2] == s@[i as int + 2]);
                    assert(s@.subrange(i as int, i as int + 4)[3] == s@[i as int + 3]);
                }
            }
            return None;
        }
    }
    if c == 't' {
        if s.len() - i >= 4 && s[i + 1] == 'r' && s[i + 2] == 'u' && s[i + 3] == 'e' {
            proof {
                assert(s@.subrange(i as int, i as int + 4) =~= seq!['t', 'r', 'u', 'e']);
            }
            return Some((Value::Bool(true), i + 4));
        } else {
            proof {
                if word_at(s@, i as int, seq!['t', 'r', 'u', 'e']) {
                    assert(s@.subrange(i as int, i as int + 4)[1] == s@[i as int + 1]);
                    assert(s@.subrange(i as int, i as int + 4)[2] == s@[i as int + 2]);
                    assert(s@.subrange(i as int, i as int + 4)[3] == s@[i as int + 3]);
                }
            }
            return None;
        }
    }
    if c == 'f' {
        if s.len() - i >= 5 && s[i + 1] == 'a' && s[i + 2] == 'l' && s[i + 3] == 's' && s[i + 4]
            == 'e' {
            proof {
                assert(s@.subrange(i as int, i as int + 5) =~= seq!['f', 'a', 'l', 's', 'e']);
            }
            return Some((Value::Bool(false), i + 5));
        } else {
            proof {
                if word_at(s@, i as int, seq!['f', 'a', 'l', 's', 'e']) {
                    assert(s@.subrange(i as int, i as int + 5)[1] == s@[i as int + 1]);
                    assert(s@.subrange(i as int, i as int + 5)[2] == s@[i as int + 2]);
                    assert(s@.subrange(i as int, i as int + 5)[3] == s@[i as int + 3]);
                    assert(s@.subrange(i as int, i as int + 5)[4] == s@[i as int + 4]);
                }
            }
            return None;
        }
    }
    if c == '"' {
        let mut content = String::new();
        match parse_str_body_x(s, i + 1, &mut content) {
            None => return None,
            Some(j) => {
                return Some((Value::Str(content), j));
            },
        }
    }
    if c == '-' || ('0' <= c && c <= '9') {
        match parse_int_x(s, i) {
            None => return None,
            Some((n, e)) => {
                return Some((Value::Int(n), e));
            },
        }
    }
    if c == '[' {
        let j = skip_ws_x(s, i + 1);
        if j < s.len() && s[j] == ']' {
            let empty: Vec<Value> = Vec::new();
            proof {
                assert(empty@.len() == 0);
                let vr = value_rep(Value::Arr(empty));
                assert(vr is Arr);
                assert(vr->Arr_0 =~= Seq::<ValueV>::empty());
                assert(vr =~~= ValueV::Arr(Seq::<ValueV>::empty()));
            }
            return Some((Value::Arr(empty), j + 1));
        }
        let mut acc: Vec<Value> = Vec::new();
        proof {
            assert(seq_rep(acc@) =~= Seq::<ValueV>::empty());
        }
        match parse_elems_x(s, i + 1, &mut acc) {
            None => return None,
            Some(k) => {
                proof {
                    let vr = value_rep(Value::Arr(acc));
                    assert(vr->Arr_0 =~= seq_rep(acc@));
                    assert(vr =~~= ValueV::Arr(seq_rep(acc@)));
                }
                return Some((Value::Arr(acc), k));
            },
        }
    }
    if c == '{' {
        let j = skip_ws_x(s, i + 1);
        if j < s.len() && s[j] == '}' {
            let empty: Vec<(String, Value)> = Vec::new();
            proof {
                assert(empty@.len() == 0);
                let vr = value_rep(Value::Obj(empty));
                assert(vr is Obj);
                assert(vr->Obj_0 =~= Seq::<(Seq<char>, ValueV)>::empty());
                assert(vr =~~= ValueV::Obj(Seq::<(Seq<char>, ValueV)>::empty()));
            }
            return Some((Value::Obj(empty), j + 1));
        }
        let mut acc: Vec<(String, Value)> = Vec::new();
        proof {
            assert(mem_rep(acc@) =~= Seq::<(Seq<char>, ValueV)>::empty());
        }
        match parse_members_x(s, i + 1, &mut acc) {
            None => return None,
            Some(k) => {
                proof {
                    let vr = value_rep(Value::Obj(acc));
                    assert(vr->Obj_0 =~= mem_rep(acc@));
                    assert(vr =~~= ValueV::Obj(mem_rep(acc@)));
                }
                return Some((Value::Obj(acc), k));
            },
        }
    }
    None
}

fn parse_elems_x(s: &Vec<char>, i: usize, acc: &mut Vec<Value>) -> (r: Option<usize>)
    requires
        i <= s@.len(),
    ensures
        (match r {
            None => parse_elems(s@, i as int, seq_rep(old(acc)@)) is None,
            Some(k) => parse_elems(s@, i as int, seq_rep(old(acc)@)) == Some(
                (seq_rep(final(acc)@), k as int),
            ) && i < k <= s@.len(),
        }),
    decreases s@.len() - i, 1nat,
{
    let j = skip_ws_x(s, i);
    match parse_value_x(s, j) {
        None => None,
        Some((v, k)) => {
            let m = skip_ws_x(s, k);
            if m >= s.len() {
                return None;
            }
            let c = s[m];
            if c == ',' {
                let ghost before = acc@;
                acc.push(v);
                proof {
                    assert(seq_rep(before.push(v)) =~= seq_rep(before).push(value_rep(v)));
                }
                parse_elems_x(s, m + 1, acc)
            } else if c == ']' {
                let ghost before = acc@;
                acc.push(v);
                proof {
                    assert(seq_rep(before.push(v)) =~= seq_rep(before).push(value_rep(v)));
                }
                Some(m + 1)
            } else {
                None
            }
        },
    }
}

fn parse_members_x(s: &Vec<char>, i: usize, acc: &mut Vec<(String, Value)>) -> (r: Option<usize>)
    requires
        i <= s@.len(),
    ensures
        (match r {
            None => parse_members(s@, i as int, mem_rep(old(acc)@)) is None,
            Some(k) => parse_members(s@, i as int, mem_rep(old(acc)@)) == Some(
                (mem_rep(final(acc)@), k as int),
            ) && i < k <= s@.len(),
        }),
    decreases s@.len() - i, 1nat,
{
    let j = skip_ws_x(s, i);
    if !(j < s.len()) {
        return None;
    }
    if s[j] != '"' {
        return None;
    }
    let mut key = String::new();
    match parse_str_body_x(s, j + 1, &mut key) {
        None => None,
        Some(k) => {
            let c = skip_ws_x(s, k);
            if c >= s.len() {
                return None;
            }
            if s[c] != ':' {
                return None;
            }
            let w = skip_ws_x(s, c + 1);
            match parse_value_x(s, w) {
                None => None,
                Some((v, e)) => {
                    let m = skip_ws_x(s, e);
                    if m >= s.len() {
                        return None;
                    }
                    let t = s[m];
                    if t == ',' {
                        let ghost before = acc@;
                        acc.push((key, v));
                        proof {
                            assert(mem_rep(before.push((key, v))) =~= mem_rep(before).push(
                                (key@, value_rep(v)),
                            ));
                        }
                        parse_members_x(s, m + 1, acc)
                    } else if t == '}' {
                        let ghost before = acc@;
                        acc.push((key, v));
                        proof {
                            assert(mem_rep(before.push((key, v))) =~= mem_rep(before).push(
                                (key@, value_rep(v)),
                            ));
                        }
                        Some(m + 1)
                    } else {
                        None
                    }
                },
            }
        },
    }
}

/// Parses a complete JSON text into a value: one value with whitespace
/// allowed around it and nothing else.
pub fn parse_json_text(s: &str) -> (r: Option<Value>)
    ensures
        (match r {
            None => parse_json(s@) is None,
            Some(v) => parse_json(s@) == Some(value_rep(v)),
        }),
{
    let chars = str_to_chars(s);
    let i = skip_ws_x(&chars, 0);
    match parse_value_x(&chars, i) {
        None => None,
        Some((v, k)) => {
            let e = skip_ws_x(&chars, k);
            if e == chars.len() {
                Some(v)
            } else {
                None
            }
        },
    }
}


// ---------------------------------------------------------------------------
// From a parsed value to a message: executable extraction
// ---------------------------------------------------------------------------

/// The first member named `k` decides the lookup.
proof fn lemma_lookup_first(s: Seq<(Seq<char>, ValueV)>, i: int, k: Seq<char>)
    requires
        0 <= i < s.len(),
        s[i].0 == k,
        forall|jj: int| 0 <= jj < i ==> (#[trigger] s[jj]).0 != k,
    ensures
        lookup(s, k) == Some(s[i].1),
    decreases i,
{
    if i > 0 {
        lemma_lookup_first(s.drop_first(), i - 1, k);
    }
}

/// With no member named `k` the lookup yields nothing.
proof fn lemma_lookup_none(s: Seq<(Seq<char>, ValueV)>, k: Seq<char>)
    requires
        forall|jj: int| 0 <= jj < s.len() ==> (#[trigger] s[jj]).0 != k,
    ensures
        lookup(s, k) is None,
    decreases s.len(),
{
    if s.len() > 0 {
        lemma_lookup_none(s.drop_first(), k);
    }
}

/// Removing a member with another name leaves a lookup unchanged.
proof fn lemma_lookup_remove(s: Seq<(Seq<char>, ValueV)>, i: int, k: Seq<char>)
    requires
        0 <= i < s.len(),
        s[i].0 != k,
    ensures
        lookup(s.remove(i), k) == lookup(s, k),
    decreases s.len(),
{
    if i == 0 {
        assert(s.remove(0) =~= s.drop_first());
    } else {
        assert(s.remove(i).drop_first() =~= s.drop_first().remove(i - 1));
        if s[0].0 == k {
            assert(s.remove(i)[0] == s[0]);
        } else {
            assert(s.remove(i)[0] == s[0]);
            lemma_lookup_remove(s.drop_first(), i - 1, k);
        }
    }
}

/// Removes the first member named `key` and hands its value out; lookups of
/// every other name are unchanged by the removal.
#[verifier::loop_isolation(false)]
fn take_first(m: &mut Vec<(String, Value)>, key: &String) -> (r: Option<Value>)
    ensures
        (match r {
            None => lookup(mem_rep(old(m)@), key@) is None && final(m)@ == old(m)@,
            Some(v) => lookup(mem_rep(old(m)@), key@) == Some(value_rep(v)) && (forall|
                k2: Seq<char>,
            |
                k2 != key@ ==> lookup(mem_rep(final(m)@), k2) == lookup(
                    mem_rep(old(m)@),
                    k2,
                )),
        }),
{
    let n = m.len();
    let mut i: usize = 0;
    while i < n
        invariant
            i <= n,
            n == m@.len(),
            m@ == old(m)@,
            forall|jj: int| 0 <= jj < i ==> (#[trigger] mem_rep(m@)[jj]).0 != key@,
        decreases n - i,
    {
        let hit = m[i].0.eq(key);
        if hit {
            let ghost before = m@;
            let kv = m.remove(i);
            proof {
                lemma_lookup_first(mem_rep(before), i as int, key@);
                assert(mem_rep(m@) =~= mem_rep(before).remove(i as int));
                assert forall|k2: Seq<char>| k2 != key@ implies lookup(mem_rep(m@), k2) == lookup(
                    mem_rep(before),
                    k2,
                ) by {
                    lemma_lookup_remove(mem_rep(before), i as int, k2);
                }
            }
            return Some(kv.1);
        }
        i = i + 1;
    }
    proof {
        lemma_lookup_none(mem_rep(m@), key@);
    }
    None
}

/// Applies the envelope rules for a response to a parsed value.
pub fn value_to_response(v: Value) -> (r: Result<Response, DecodeError>)
    ensures
        (match response_of_value(value_rep(v)) {
            Ok(rv) => r matches Ok(resp) && resp@ == rv,
            Err(e) => r == Err::<Response, DecodeError>(e),
        }),
{
    proof {
        reveal_strlit("jsonrpc");
        reveal_strlit("id");
        reveal_strlit("result");
        reveal_strlit("error");
        reveal_strlit("code");
        reveal_strlit("message");
        assert("jsonrpc"@ =~= ver_key());
        assert("id"@ =~= id_key());
        assert("result"@ =~= result_key());
        assert("error"@ =~= error_key());
        assert("code"@ =~= code_key());
        assert("message"@ =~= message_key());
    }
    let mut m = match v {
        Value::Obj(m) => m,
        _ => {
            return Err(DecodeError::NotObject);
        },
    };
    let ghost m0 = mem_rep(m@);
    proof {
        assert(value_rep(v)->Obj_0 =~= m0);
    }
    let key_ver = String::from_str("jsonrpc");
    let ver = match take_first(&mut m, &key_ver) {
        Some(Value::Str(t)) => t,
        _ => {
            return Err(DecodeError::BadVersion);
        },
    };
    let key_id = String::from_str("id");
    let id = match take_first(&mut m, &key_id) {
        Some(Value::Int(n)) => Id::Number(n),
        Some(Value::Str(t)) => Id::String(t),
        _ => {
            return Err(DecodeError::BadId);
        },
    };
    let key_res = String::from_str("result");
    let res = take_first(&mut m, &key_res);
    let key_err = String::from_str("error");
    let errv = take_first(&mut m, &key_err);
    match (res, errv) {
        (Some(_), Some(_)) => Err(DecodeError::BothPayloads),
        (Some(rv), None) => Ok(
            Response { id, jsonrpc: ver, payload: ResponsePayload::Result(rv) },
        ),
        (None, Some(ev)) => {
            let mut em = match ev {
                Value::Obj(em) => em,
                _ => {
                    return Err(DecodeError::BadErrorObject);
                },
            };
            proof {
                assert(value_rep(ev)->Obj_0 =~= mem_rep(em@));
            }
            let key_code = String::from_str("code");
            let code = match take_first(&mut em, &key_code) {
                Some(Value::Int(c)) => c,
                _ => {
                    return Err(DecodeError::BadErrorObject);
                },
            };
            let key_msg = String::from_str("message");
            let msg = match take_first(&mut em, &key_msg) {
                Some(Value::Str(t)) => t,
                _ => {
                    return Err(DecodeError::BadErrorObject);
                },
            };
            Ok(
                Response {
                    id,
                    jsonrpc: ver,
                    payload: ResponsePayload::Error(JsonRpcError { code, message: msg }),
                },
            )
        },
        (None, None) => Err(DecodeError::NoPayload),
    }
}

/// Applies the envelope rules for a request to a parsed value.
pub fn value_to_request(v: Value) -> (r: Result<Request, DecodeError>)
    ensures
        (match request_of_value(value_rep(v)) {
            Ok(rv) => r matches Ok(req) && req@ == rv,
            Err(e) => r == Err::<Request, DecodeError>(e),
        }),
{
    proof {
        reveal_strlit("jsonrpc");
        reveal_strlit("id");
        reveal_strlit("method");
        reveal_strlit("params");
        assert("jsonrpc"@ =~= ver_key());
        assert("id"@ =~= id_key());
        assert("method"@ =~= method_key());
        assert("params"@ =~= params_key());
    }
    let mut m = match v {
        Value::Obj(m) => m,
        _ => {
            return Err(DecodeError::NotObject);
        },
    };
    let ghost m0 = mem_rep(m@);
    proof {
        assert(value_rep(v)->Obj_0 =~= m0);
    }
    let key_ver = String::from_str("jsonrpc");
    let ver = match take_first(&mut m, &key_ver) {
        Some(Value::Str(t)) => t,
        _ => {
            return Err(DecodeError::BadVersion);
        },
    };
    let key_id = String::from_str("id");
    let id = match take_first(&mut m, &key_id) {
        Some(Value::Int(n)) => Id::Number(n),
        Some(Value::Str(t)) => Id::String(t),
        _ => {
            return Err(DecodeError::BadId);
        },
    };
    let key_method = String::from_str("method");
    let method = match take_first(&mut m, &key_method) {
        Some(Value::Str(t)) => t,
        _ => {
            return Err(DecodeError::BadMethod);
        },
    };
    let key_params = String::from_str("params");
    let params = match take_first(&mut m, &key_params) {
        Some(Value::Arr(a)) => a,
        _ => {
            return Err(DecodeError::BadParams);
        },
    };
    let req = Request { id, jsonrpc: ver, method, params };
    proof {
        assert(value_rep(Value::Arr(params))->Arr_0 =~= seq_rep(params@));
    }
    Ok(req)
}

/// Deserializes a response from its wire text: accepts a JSON object with
/// `jsonrpc`, `id` and exactly one of `result` and `error`, with any member
/// order and any insignificant whitespace; everything else is rejected with
/// the exact error [`spec_decode_response`] gives.
pub fn decode_response(s: &str) -> (r: Result<Response, DecodeError>)
    ensures
        (match spec_decode_response(s@) {
            Ok(rv) => r matches Ok(resp) && resp@ == rv,
            Err(e) => r == Err::<Response, DecodeError>(e),
        }),
{
    match parse_json_text(s) {
        None => Err(DecodeError::Syntax),
        Some(v) => value_to_response(v),
    }
}

/// Deserializes a request from its wire text, under the same grammar, with
/// `method` and `params` in place of the payload members.
pub fn decode_request(s: &str) -> (r: Result<Request, DecodeError>)
    ensures
        (match spec_decode_request(s@) {
            Ok(rv) => r matches Ok(req) && req@ == rv,
            Err(e) => r == Err::<Request, DecodeError>(e),
        }),
{
    match parse_json_text(s) {
        None => Err(DecodeError::Syntax),
        Some(v) => value_to_request(v),
    }
}

} // verus!
