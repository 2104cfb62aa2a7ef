//! The laws the codec obeys: the round trip of a request through the
//! encoder and the decoder, the result/error discrimination of a decoded
//! response, and the fidelity of the correlator's wire form.

use vstd::prelude::*;

use crate::codec::{
    dec_rep, dec_val, digit_char, digit_run_end, digit_val, enc_elems, enc_members, enc_request,
    enc_value, esc_char, id_value, int_rep, is_digit, is_ws, parse_elems, parse_json,
    parse_members, parse_str_body, parse_value, quoted_rep, request_obj, skip_ws, str_body_rep,
    unesc_char,
};
use crate::decode::{
    error_key, has_key, id_key, id_of_value, lookup, method_key, params_key, request_of_value,
    response_of_value, result_key, spec_decode_request, ver_key,
};
use crate::message::{IdV, RequestV};
use crate::value::ValueV;

verus! {

/// The digits the encoder writes are digit characters.
proof fn lemma_dec_rep_digits(n: nat)
    ensures
        dec_rep(n).len() >= 1,
        forall|k: int| 0 <= k < dec_rep(n).len() ==> is_digit(#[trigger] dec_rep(n)[k]),
    decreases n,
{
    if n < 10 {
        assert(is_digit(digit_char(n as int)));
    } else {
        lemma_dec_rep_digits(n / 10);
        assert forall|k: int| 0 <= k < dec_rep(n).len() implies is_digit(
            #[trigger] dec_rep(n)[k],
        ) by {
            if k < dec_rep(n / 10).len() {
                assert(dec_rep(n)[k] == dec_rep(n / 10)[k]);
            } else {
                assert(dec_rep(n)[k] == digit_char((n % 10) as int));
            }
        }
    }
}

/// Reading the digits the encoder wrote gives the number back.
proof fn lemma_dec_val_of_dec_rep(n: nat)
    ensures
        dec_val(dec_rep(n)) == n,
    decreases n,
{
    if n < 10 {
        assert(dec_rep(n).drop_last() =~= Seq::<char>::empty());
        assert(dec_val(Seq::<char>::empty()) == 0);
        assert(digit_val(digit_char(n as int)) == n);
    } else {
        lemma_dec_val_of_dec_rep(n / 10);
        assert(dec_rep(n).drop_last() =~= dec_rep(n / 10));
        assert(digit_val(digit_char((n % 10) as int)) == (n % 10) as int);
        vstd::arithmetic::div_mod::lemma_fundamental_div_mod(n as int, 10);
    }
}

/// A run of digits followed by a non-digit (or the end) is scanned to
/// exactly its end.
proof fn lemma_digit_run_lands(s: Seq<char>, i: int, e: int)
    requires
        0 <= i <= e <= s.len(),
        forall|p: int| i <= p < e ==> is_digit(#[trigger] s[p]),
        e == s.len() || !is_digit(s[e]),
    ensures
        digit_run_end(s, i) == e,
    decreases e - i,
{
    if i < e {
        lemma_digit_run_lands(s, i + 1, e);
    }
}

/// The number the encoder writes is read back, and the read stops exactly
/// after its digits.
proof fn lemma_parse_int_enc(n: i64, s: Seq<char>, i: int)
    requires
        0 <= i,
        i + int_rep(n as int).len() <= s.len(),
        s.subrange(i, i + int_rep(n as int).len()) == int_rep(n as int),
        i + int_rep(n as int).len() == s.len() || (!is_digit(s[i + int_rep(n as int).len()]) && s[i
            + int_rep(n as int).len()] != '.' && s[i + int_rep(n as int).len()] != 'e' && s[i
            + int_rep(n as int).len()] != 'E'),
    ensures
        crate::codec::parse_int(s, i) == Some((ValueV::Int(n), i + int_rep(n as int).len())),
{
    let rep = int_rep(n as int);
    let len = rep.len() as int;
    let e = i + len;
    assert forall|p: int| i <= p < e implies #[trigger] s[p] == rep[p - i] by {
        assert(s[p] == s.subrange(i, e)[p - i]);
    }
    if n >= 0 {
        lemma_dec_rep_digits(n as nat);
        assert forall|p: int| i <= p < e implies is_digit(#[trigger] s[p]) by {
            assert(s[p] == rep[p - i]);
        }
        assert(s[i] == rep[0]);
        assert(!(s[i] == '-'));
        lemma_digit_run_lands(s, i, e);
        assert(s.subrange(i, e) =~= rep);
        lemma_dec_val_of_dec_rep(n as nat);
    } else {
        assert(s[i] == rep[0]);
        assert(s[i] == '-');
        let mag = (-(n as int)) as nat;
        lemma_dec_rep_digits(mag);
        assert forall|p: int| i + 1 <= p < e implies is_digit(#[trigger] s[p]) by {
            assert(s[p] == rep[p - i]);
            assert(rep[p - i] == dec_rep(mag)[p - i - 1]);
        }
        lemma_digit_run_lands(s, i + 1, e);
        assert(s.subrange(i + 1, e) =~= dec_rep(mag));
        lemma_dec_val_of_dec_rep(mag);
    }
}

/// The escaped string body the encoder writes is read back to the same
/// characters, and the read stops just past the closing quote.
proof fn lemma_parse_str_body_enc(content: Seq<char>, s: Seq<char>, j: int, acc: Seq<char>)
    requires
        0 <= j,
        j + str_body_rep(content).len() < s.len(),
        s.subrange(j, j + str_body_rep(content).len()) == str_body_rep(content),
        s[j + str_body_rep(content).len()] == '"',
    ensures
        parse_str_body(s, j, acc) == Some((acc + content, j + str_body_rep(content).len() + 1)),
    decreases content.len(),
{
    let body = str_body_rep(content);
    let bn = body.len() as int;
    assert forall|p: int| j <= p < j + bn implies #[trigger] s[p] == body[p - j] by {
        assert(s[p] == s.subrange(j, j + bn)[p - j]);
    }
    if content.len() == 0 {
        assert(s[j] == '"');
        assert(acc + content =~= acc);
    } else {
        let c = content[0];
        let rest = content.drop_first();
        let ec = esc_char(c);
        let rbody = str_body_rep(rest);
        assert(body == ec + rbody);
        let en = ec.len() as int;
        assert(s.subrange(j + en, j + bn) =~= rbody);
        assert(s[j + en + rbody.len()] == '"');
        if c == '"' || c == '\\' || c == '\n' || c == '\r' || c == '\t' {
            assert(s[j] == body[0] && body[0] == ec[0] && ec[0] == '\\');
            assert(s[j + 1] == body[1] && body[1] == ec[1]);
            assert(unesc_char(s[j + 1]) == Some(c));
            lemma_parse_str_body_enc(rest, s, j + 2, acc.push(c));
            assert(acc.push(c) + rest =~= acc + content);
        } else {
            assert(s[j] == body[0] && body[0] == ec[0] && ec[0] == c);
            assert(s[j] != '"' && s[j] != '\\');
            lemma_parse_str_body_enc(rest, s, j + 1, acc.push(c));
            assert(acc.push(c) + rest =~= acc + content);
        }
    }
}

/// A character that can start an encoded value.
pub open spec fn value_start(c: char) -> bool {
    c == 'n' || c == 't' || c == 'f' || c == '"' || c == '-' || is_digit(c) || c == '[' || c == '{'
}

/// Every encoding is non-empty and starts with a value-start character.
proof fn lemma_enc_first(v: ValueV)
    ensures
        enc_value(v).len() >= 1,
        value_start(enc_value(v)[0]),
{
    match v {
        ValueV::Int(n) => {
            if n >= 0 {
                lemma_dec_rep_digits(n as nat);
            } else {
                lemma_dec_rep_digits((-(n as int)) as nat);
            }
        },
        _ => {},
    }
}

/// The text the encoder writes for a value is read back as that value, with
/// the read stopping exactly at its end, whenever what follows cannot extend
/// a number.
#[verifier::rlimit(100)]
#[verifier::spinoff_prover]
proof fn lemma_parse_enc_value(v: ValueV, s: Seq<char>, i: int)
    requires
        0 <= i,
        i + enc_value(v).len() <= s.len(),
        s.subrange(i, i + enc_value(v).len()) == enc_value(v),
        i + enc_value(v).len() == s.len() || (!is_digit(s[i + enc_value(v).len()]) && s[i
            + enc_value(v).len()] != '.' && s[i + enc_value(v).len()] != 'e' && s[i
            + enc_value(v).len()] != 'E'),
    ensures
        parse_value(s, i) == Some((v, i + enc_value(v).len())),
    decreases v, 0nat,
{
    let rep = enc_value(v);
    let n = rep.len() as int;
    assert forall|p: int| i <= p < i + n implies #[trigger] s[p] == rep[p - i] by {
        assert(s[p] == s.subrange(i, i + n)[p - i]);
    }
    match v {
        ValueV::Null => {
            assert(s.subrange(i, i + 4) =~= seq!['n', 'u', 'l', 'l']);
        },
        ValueV::Bool(b) => {
            if b {
                assert(s.subrange(i, i + 4) =~= seq!['t', 'r', 'u', 'e']);
            } else {
                assert(s.subrange(i, i + 5) =~= seq!['f', 'a', 'l', 's', 'e']);
            }
        },
        ValueV::Int(m) => {
            lemma_enc_first(v);
            assert(s[i] == rep[0]);
            lemma_parse_int_enc(m, s, i);
        },
        ValueV::Str(t) => {
            let body = str_body_rep(t);
            assert(s[i] == rep[0] && rep[0] == '"');
            assert(s.subrange(i + 1, i + 1 + body.len()) =~= body);
            assert(s[i + 1 + body.len()] == '"');
            lemma_parse_str_body_enc(t, s, i + 1, Seq::empty());
            assert(Seq::empty() + t =~= t);
        },
        ValueV::Arr(a) => {
            assert(s[i] == rep[0] && rep[0] == '[');
            let elems = enc_elems(a);
            if a.len() == 0 {
                assert(s[i + 1] == rep[1] && rep[1] == ']');
                assert(!is_ws(s[i + 1]));
            } else {
                assert(decreases_to!(a => a[0]));
                lemma_enc_first(a[0]);
                assert(elems[0] == enc_value(a[0])[0]);
                assert(s[i + 1] == rep[1] && rep[1] == elems[0]);
                assert(!is_ws(s[i + 1]));
                assert(s[i + 1] != ']');
                assert(s.subrange(i + 1, i + 1 + elems.len()) =~= elems);
                assert(s[i + 1 + elems.len()] == ']');
                lemma_parse_enc_elems(a, s, i + 1, Seq::empty());
                assert(Seq::empty() + a =~= a);
            }
        },
        ValueV::Obj(m) => {
            assert(s[i] == rep[0] && rep[0] == '{');
            let members = enc_members(m);
            if m.len() == 0 {
                assert(s[i + 1] == rep[1] && rep[1] == '}');
                assert(!is_ws(s[i + 1]));
            } else {
                assert(members[0] == '"');
                assert(s[i + 1] == rep[1] && rep[1] == members[0]);
                assert(!is_ws(s[i + 1]));
                assert(s[i + 1] != '}');
                assert(s.subrange(i + 1, i + 1 + members.len()) =~= members);
                assert(s[i + 1 + members.len()] == '}');
                lemma_parse_enc_members(m, s, i + 1, Seq::empty());
                assert(Seq::empty() + m =~= m);
            }
        },
    }
}

/// The element list the encoder writes inside an array is read back to the
/// same elements, consuming the closing bracket.
proof fn lemma_parse_enc_elems(a: Seq<ValueV>, s: Seq<char>, i: int, acc: Seq<ValueV>)
    requires
        a.len() >= 1,
        0 <= i,
        i + enc_elems(a).len() < s.len(),
        s.subrange(i, i + enc_elems(a).len()) == enc_elems(a),
        s[i + enc_elems(a).len()] == ']',
    ensures
        parse_elems(s, i, acc) == Some((acc + a, i + enc_elems(a).len() + 1)),
    decreases a, 1nat,
{
    let elems = enc_elems(a);
    let n = elems.len() as int;
    assert forall|p: int| i <= p < i + n implies #[trigger] s[p] == elems[p - i] by {
        assert(s[p] == s.subrange(i, i + n)[p - i]);
    }
    assert(decreases_to!(a => a[0]));
    let head = enc_value(a[0]);
    let hn = head.len() as int;
    lemma_enc_first(a[0]);
    assert(s[i] == elems[0] && elems[0] == head[0]);
    assert(!is_ws(s[i]));
    assert(skip_ws(s, i) == i);
    if a.len() == 1 {
        assert(elems == head);
        assert(s.subrange(i, i + hn) =~= head);
        lemma_parse_enc_value(a[0], s, i);
        assert(!is_ws(s[i + hn]));
        assert(skip_ws(s, i + hn) == i + hn);
        assert(acc.push(a[0]) =~= acc + a);
    } else {
        let rest = a.drop_first();
        let relems = enc_elems(rest);
        assert(elems == head + seq![','] + relems);
        assert(s.subrange(i, i + hn) =~= head);
        assert(s[i + hn] == elems[hn] && elems[hn] == ',');
        lemma_parse_enc_value(a[0], s, i);
        assert(!is_ws(s[i + hn]));
        assert(skip_ws(s, i + hn) == i + hn);
        assert(s.subrange(i + hn + 1, i + hn + 1 + relems.len()) =~= relems);
        assert(s[i + hn + 1 + relems.len()] == ']');
        lemma_parse_enc_elems(rest, s, i + hn + 1, acc.push(a[0]));
        assert(acc.push(a[0]) + rest =~= acc + a);
    }
}

/// The member list the encoder writes inside an object is read back to the
/// same members, consuming the closing brace.
#[verifier::rlimit(100)]
proof fn lemma_parse_enc_members(
    m: Seq<(Seq<char>, ValueV)>,
    s: Seq<char>,
    i: int,
    acc: Seq<(Seq<char>, ValueV)>,
)
    requires
        m.len() >= 1,
        0 <= i,
        i + enc_members(m).len() < s.len(),
        s.subrange(i, i + enc_members(m).len()) == enc_members(m),
        s[i + enc_members(m).len()] == '}',
    ensures
        parse_members(s, i, acc) == Some((acc + m, i + enc_members(m).len() + 1)),
    decreases m, 1nat,
{
    let members = enc_members(m);
    let n = members.len() as int;
    assert forall|p: int| i <= p < i + n implies #[trigger] s[p] == members[p - i] by {
        assert(s[p] == s.subrange(i, i + n)[p - i]);
    }
    assert(decreases_to!(m => m[0]));
    assert(decreases_to!(m[0] => m[0].1));
    let key = m[0].0;
    let qk = quoted_rep(key);
    let body = str_body_rep(key);
    let hv = enc_value(m[0].1);
    let head = qk + seq![':'] + hv;
    assert(s[i] == members[0] && members[0] == '"');
    assert(!is_ws(s[i]));
    assert(skip_ws(s, i) == i);
    assert(s.subrange(i + 1, i + 1 + body.len()) =~= body);
    assert(s[i + 1 + body.len()] == members[1 + body.len() as int] && members[1 + body.len() as int] == '"');
    lemma_parse_str_body_enc(key, s, i + 1, Seq::empty());
    assert(Seq::empty() + key =~= key);
    let k = i + body.len() as int + 2;
    assert(s[k] == members[k - i] && members[k - i] == ':');
    assert(!is_ws(s[k]));
    assert(skip_ws(s, k) == k);
    let w = k + 1;
    lemma_enc_first(m[0].1);
    assert(s[w] == members[w - i] && members[w - i] == hv[0]);
    assert(!is_ws(s[w]));
    assert(skip_ws(s, w) == w);
    assert(s.subrange(w, w + hv.len()) =~= hv);
    let e = w + hv.len() as int;
    if m.len() == 1 {
        assert(members == head);
        assert(s[e] == '}');
        lemma_parse_enc_value(m[0].1, s, w);
        assert(!is_ws(s[e]));
        assert(skip_ws(s, e) == e);
        assert(acc.push(m[0]) =~= acc + m);
    } else {
        let rest = m.drop_first();
        let rmembers = enc_members(rest);
        assert(members == head + seq![','] + rmembers);
        assert(s[e] == members[e - i] && members[e - i] == ',');
        lemma_parse_enc_value(m[0].1, s, w);
        assert(!is_ws(s[e]));
        assert(skip_ws(s, e) == e);
        assert(s.subrange(e + 1, e + 1 + rmembers.len()) =~= rmembers);
        assert(s[e + 1 + rmembers.len()] == '}');
        lemma_parse_enc_members(rest, s, e + 1, acc.push(m[0]));
        assert(acc.push(m[0]) + rest =~= acc + m);
    }
}

/// The canonical text of any value parses back as exactly that value.
pub proof fn lemma_parse_json_enc_value(v: ValueV)
    ensures
        parse_json(enc_value(v)) == Some(v),
{
    let s = enc_value(v);
    lemma_enc_first(v);
    assert(!is_ws(s[0]));
    assert(skip_ws(s, 0) == 0);
    assert(s.subrange(0, s.len() as int) =~= s);
    lemma_parse_enc_value(v, s, 0);
    assert(skip_ws(s, s.len() as int) == s.len());
}

/// Round trip: any request, encoded and decoded, comes back field for field
/// the same, id and params included.
#[verifier::rlimit(100)]
pub proof fn lemma_request_round_trip(r: RequestV)
    ensures
        spec_decode_request(enc_request(r)) == Ok::<RequestV, crate::error::DecodeError>(r),
{
    reveal_with_fuel(lookup, 6);
    lemma_parse_json_enc_value(request_obj(r));
    let mm = request_obj(r)->Obj_0;
    let m0 = (seq!['i', 'd'], id_value(r.id));
    let m1 = (seq!['j', 's', 'o', 'n', 'r', 'p', 'c'], ValueV::Str(r.jsonrpc));
    let m2 = (seq!['m', 'e', 't', 'h', 'o', 'd'], ValueV::Str(r.method));
    let m3 = (seq!['p', 'a', 'r', 'a', 'm', 's'], ValueV::Arr(r.params));
    assert(mm =~= seq![m0, m1, m2, m3]);
    assert(mm.drop_first() =~= seq![m1, m2, m3]);
    assert(seq![m1, m2, m3].drop_first() =~= seq![m2, m3]);
    assert(seq![m2, m3].drop_first() =~= seq![m3]);
    assert(id_key() != ver_key() && id_key() != method_key() && id_key() != params_key());
    assert(ver_key() != method_key() && ver_key() != params_key());
    assert(method_key()[0] == 'm' && params_key()[0] == 'p');
    assert(method_key() != params_key());
    assert(lookup(mm, id_key()) == Some(id_value(r.id)));
    assert(lookup(mm, ver_key()) == Some(ValueV::Str(r.jsonrpc)));
    assert(lookup(mm, method_key()) == Some(ValueV::Str(r.method)));
    assert(lookup(mm, params_key()) == Some(ValueV::Arr(r.params)));
    assert(id_of_value(id_value(r.id)) == Some(r.id));
    assert(request_of_value(request_obj(r)) == Ok::<RequestV, crate::error::DecodeError>(r));
}

/// Discrimination: for a decoded wire object, the presence of `result`
/// decides the `Result` payload and the presence of `error` the `Error`
/// payload; an object carrying both, or neither, never decodes.
pub proof fn lemma_payload_discrimination(v: ValueV)
    ensures
        (v matches ValueV::Obj(m) && has_key(m, result_key()) && has_key(m, error_key()))
            ==> response_of_value(v) is Err,
        (v matches ValueV::Obj(m) && !has_key(m, result_key()) && !has_key(m, error_key()))
            ==> response_of_value(v) is Err,
        response_of_value(v) matches Ok(rv) ==> (rv.payload is Result <==> has_key(
            v->Obj_0,
            result_key(),
        )),
        response_of_value(v) matches Ok(rv) ==> (rv.payload is Error <==> has_key(
            v->Obj_0,
            error_key(),
        )),
{
}

/// Id fidelity: a response that decodes keeps the wire form of its `id`
/// exactly: an integer id stays an integer id with the same value, a string
/// id stays a string id with the same text.
pub proof fn lemma_id_fidelity(v: ValueV)
    ensures
        response_of_value(v) matches Ok(rv) ==> (match lookup(v->Obj_0, id_key()) {
            Some(ValueV::Int(n)) => rv.id == IdV::Number(n),
            Some(ValueV::Str(t)) => rv.id == IdV::String(t),
            _ => false,
        }),
{
}

} // verus!
