//! The wire codec: what each message looks like as JSON text, and how JSON
//! text is read back.
//!
//! The encoding spec functions pin the canonical output of the encoder down
//! to the character. The parsing spec functions define, character by
//! character, which texts are accepted and what they decode to; the
//! executable decoder is proved to return exactly what they say.

use vstd::prelude::*;

use crate::message::{Id, IdV, JsonRpcError, Request, RequestV};
use crate::value::{Value, ValueV, value_rep};

verus! {

// ---------------------------------------------------------------------------
// Encoding: message model -> canonical JSON text
// ---------------------------------------------------------------------------

/// The decimal digit character for `d` (meaningful for `0 <= d <= 9`).
pub open spec fn digit_char(d: int) -> char {
    ((48 + d) as u8) as char
}

/// The canonical decimal digits of `n`, most significant first.
pub open spec fn dec_rep(n: nat) -> Seq<char>
    decreases n,
{
    if n < 10 {
        seq![digit_char(n as int)]
    } else {
        dec_rep(n / 10).push(digit_char((n % 10) as int))
    }
}

/// The canonical decimal text of `n`, with a leading minus sign if negative.
pub open spec fn int_rep(n: int) -> Seq<char> {
    if n < 0 {
        seq!['-'] + dec_rep((-n) as nat)
    } else {
        dec_rep(n as nat)
    }
}

/// How one character of a JSON string is written on the wire: the quote, the
/// backslash and the common control characters are escaped, everything else
/// is written as itself.
pub open spec fn esc_char(c: char) -> Seq<char> {
    if c == '"' {
        seq!['\\', '"']
    } else if c == '\\' {
        seq!['\\', '\\']
    } else if c == '\n' {
        seq!['\\', 'n']
    } else if c == '\r' {
        seq!['\\', 'r']
    } else if c == '\t' {
        seq!['\\', 't']
    } else {
        seq![c]
    }
}

/// The escaped body of a JSON string.
pub open spec fn str_body_rep(s: Seq<char>) -> Seq<char>
    decreases s.len(),
{
    if s.len() == 0 {
        Seq::empty()
    } else {
        esc_char(s[0]) + str_body_rep(s.drop_first())
    }
}

/// A JSON string: the escaped body between double quotes.
pub open spec fn quoted_rep(s: Seq<char>) -> Seq<char> {
    seq!['"'] + str_body_rep(s) + seq!['"']
}

/// The canonical JSON text of a value. Members and elements are written in
/// order, without any whitespace.
pub open spec fn enc_value(v: ValueV) -> Seq<char>
    decreases v,
{
    match v {
        ValueV::Null => seq!['n', 'u', 'l', 'l'],
        ValueV::Bool(b) => if b {
            seq!['t', 'r', 'u', 'e']
        } else {
            seq!['f', 'a', 'l', 's', 'e']
        },
        ValueV::Int(n) => int_rep(n as int),
        ValueV::Str(s) => quoted_rep(s),
        ValueV::Arr(a) => seq!['['] + enc_elems(a) + seq![']'],
        ValueV::Obj(m) => seq!['{'] + enc_members(m) + seq!['}'],
    }
}

/// The canonical comma-separated texts of array elements.
pub open spec fn enc_elems(a: Seq<ValueV>) -> Seq<char>
    decreases a,
{
    if a.len() == 0 {
        Seq::empty()
    } else {
        let head = {
            proof {
                assert(decreases_to!(a => a[0]));
            }
            enc_value(a[0])
        };
        if a.len() == 1 {
            head
        } else {
            head + seq![','] + enc_elems(a.drop_first())
        }
    }
}

/// The canonical comma-separated texts of object members.
pub open spec fn enc_members(m: Seq<(Seq<char>, ValueV)>) -> Seq<char>
    decreases m,
{
    if m.len() == 0 {
        Seq::empty()
    } else {
        let head = {
            proof {
                assert(decreases_to!(m => m[0]));
                assert(decreases_to!(m[0] => m[0].1));
            }
            quoted_rep(m[0].0) + seq![':'] + enc_value(m[0].1)
        };
        if m.len() == 1 {
            head
        } else {
            head + seq![','] + enc_members(m.drop_first())
        }
    }
}

/// The wire value that an [`IdV`] is carried as.
pub open spec fn id_value(id: IdV) -> ValueV {
    match id {
        IdV::Number(n) => ValueV::Int(n),
        IdV::String(s) => ValueV::Str(s),
    }
}

/// The wire object of a request: the four members `id`, `jsonrpc`, `method`
/// and `params`, in that order.
pub open spec fn request_obj(r: RequestV) -> ValueV {
    ValueV::Obj(
        seq![
            (seq!['i', 'd'], id_value(r.id)),
            (seq!['j', 's', 'o', 'n', 'r', 'p', 'c'], ValueV::Str(r.jsonrpc)),
            (seq!['m', 'e', 't', 'h', 'o', 'd'], ValueV::Str(r.method)),
            (seq!['p', 'a', 'r', 'a', 'm', 's'], ValueV::Arr(r.params)),
        ],
    )
}

/// The canonical wire text of a request.
pub open spec fn enc_request(r: RequestV) -> Seq<char> {
    enc_value(request_obj(r))
}

// ---------------------------------------------------------------------------
// Parsing: JSON text -> values
// ---------------------------------------------------------------------------

/// JSON insignificant whitespace.
pub open spec fn is_ws(c: char) -> bool {
    c == ' ' || c == '\n' || c == '\r' || c == '\t'
}

/// A decimal digit.
pub open spec fn is_digit(c: char) -> bool {
    '0' <= c && c <= '9'
}

/// The numeric value of a digit character.
pub open spec fn digit_val(c: char) -> int {
    c as int - 48
}

/// The first position at or after `i` holding a non-whitespace character
/// (or the end of the text).
pub open spec fn skip_ws(s: Seq<char>, i: int) -> int
    decreases s.len() - i,
{
    if 0 <= i < s.len() && is_ws(s[i]) {
        skip_ws(s, i + 1)
    } else {
        i
    }
}

/// The end of the run of digit characters starting at `i`.
pub open spec fn digit_run_end(s: Seq<char>, i: int) -> int
    decreases s.len() - i,
{
    if 0 <= i < s.len() && is_digit(s[i]) {
        digit_run_end(s, i + 1)
    } else {
        i
    }
}

/// The number that a run of digit characters denotes.
pub open spec fn dec_val(ds: Seq<char>) -> int
    decreases ds.len(),
{
    if ds.len() == 0 {
        0
    } else {
        dec_val(ds.drop_last()) * 10 + digit_val(ds.last())
    }
}

/// What a backslash escape stands for; `None` for an escape this codec does
/// not accept (among them `\u`, whose four-digit form carries no character
/// this layer needs).
pub open spec fn unesc_char(c: char) -> Option<char> {
    if c == '"' {
        Some('"')
    } else if c == '\\' {
        Some('\\')
    } else if c == '/' {
        Some('/')
    } else if c == 'n' {
        Some('\n')
    } else if c == 'r' {
        Some('\r')
    } else if c == 't' {
        Some('\t')
    } else if c == 'b' {
        Some('\u{0008}')
    } else if c == 'f' {
        Some('\u{000C}')
    } else {
        None
    }
}

/// Reads the body of a JSON string from position `i` up to its closing
/// quote. `acc` holds the characters read so far; the result is the full
/// content and the position after the closing quote.
pub open spec fn parse_str_body(s: Seq<char>, i: int, acc: Seq<char>) -> Option<(Seq<char>, int)>
    decreases s.len() - i,
{
    if !(0 <= i < s.len()) {
        None
    } else if s[i] == '"' {
        Some((acc, i + 1))
    } else if s[i] == '\\' {
        if i + 1 < s.len() {
            match unesc_char(s[i + 1]) {
                Some(c) => parse_str_body(s, i + 2, acc.push(c)),
                None => None,
            }
        } else {
            None
        }
    } else {
        parse_str_body(s, i + 1, acc.push(s[i]))
    }
}

/// Reads a JSON number from position `i`: an optional minus sign and a digit
/// run, rejected if a fraction or exponent follows or if the value does not
/// fit a signed 64-bit integer.
pub open spec fn parse_int(s: Seq<char>, i: int) -> Option<(ValueV, int)> {
    let neg = 0 <= i < s.len() && s[i] == '-';
    let d0 = if neg {
        i + 1
    } else {
        i
    };
    let e = digit_run_end(s, d0);
    if e == d0 {
        None
    } else if e < s.len() && (s[e] == '.' || s[e] == 'e' || s[e] == 'E') {
        None
    } else {
        let mag = dec_val(s.subrange(d0, e));
        let val = if neg {
            -mag
        } else {
            mag
        };
        if i64::MIN <= val <= i64::MAX {
            Some((ValueV::Int(val as i64), e))
        } else {
            None
        }
    }
}

/// Whether the text at position `i` starts with the word `w`.
pub open spec fn word_at(s: Seq<char>, i: int, w: Seq<char>) -> bool {
    0 <= i && i + w.len() <= s.len() && s.subrange(i, i + w.len()) == w
}

/// Reads one JSON value from position `i`; whitespace before the value is
/// not accepted here (callers skip it first). Returns the value and the
/// position just after it.
pub open spec fn parse_value(s: Seq<char>, i: int) -> Option<(ValueV, int)>
    decreases s.len() - i, 0nat,
{
    if !(0 <= i < s.len()) {
        None
    } else if s[i] == 'n' {
        if word_at(s, i, seq!['n', 'u', 'l', 'l']) {
            Some((ValueV::Null, i + 4))
        } else {
            None
        }
    } else if s[i] == 't' {
        if word_at(s, i, seq!['t', 'r', 'u', 'e']) {
            Some((ValueV::Bool(true), i + 4))
        } else {
            None
        }
    } else if s[i] == 'f' {
        if word_at(s, i, seq!['f', 'a', 'l', 's', 'e']) {
            Some((ValueV::Bool(false), i + 5))
        } else {
            None
        }
    } else if s[i] == '"' {
        match parse_str_body(s, i + 1, Seq::empty()) {
            Some((content, j)) => Some((ValueV::Str(content), j)),
            None => None,
        }
    } else if s[i] == '-' || is_digit(s[i]) {
        parse_int(s, i)
    } else if s[i] == '[' {
        let j = skip_ws(s, i + 1);
        if j < i + 1 || j > s.len() {
            None
        } else if j < s.len() && s[j] == ']' {
            Some((ValueV::Arr(Seq::empty()), j + 1))
        } else {
            match parse_elems(s, i + 1, Seq::empty()) {
                Some((elems, k)) => Some((ValueV::Arr(elems), k)),
                None => None,
            }
        }
    } else if s[i] == '{' {
        let j = skip_ws(s, i + 1);
        if j < i + 1 || j > s.len() {
            None
        } else if j < s.len() && s[j] == '}' {
            Some((ValueV::Obj(Seq::empty()), j + 1))
        } else {
            match parse_members(s, i + 1, Seq::empty()) {
                Some((members, k)) => Some((ValueV::Obj(members), k)),
                None => None,
            }
        }
    } else {
        None
    }
}

/// Reads the remaining elements of a non-empty array: a value, then either a
/// comma and further elements or the closing bracket.
pub open spec fn parse_elems(s: Seq<char>, i: int, acc: Seq<ValueV>) -> Option<
    (Seq<ValueV>, int),
>
    decreases s.len() - i, 1nat,
{
    let j = skip_ws(s, i);
    if j < i || j > s.len() {
        None
    } else {
        match parse_value(s, j) {
            None => None,
            Some((v, k)) => {
                if k <= j || k > s.len() {
                    None
                } else {
                    let m = skip_ws(s, k);
                    if m < k || m >= s.len() {
                        None
                    } else if s[m] == ',' {
                        parse_elems(s, m + 1, acc.push(v))
                    } else if s[m] == ']' {
                        Some((acc.push(v), m + 1))
                    } else {
                        None
                    }
                }
            },
        }
    }
}

/// Reads the remaining members of a non-empty object: a quoted key, a colon,
/// a value, then either a comma and further members or the closing brace.
pub open spec fn parse_members(s: Seq<char>, i: int, acc: Seq<(Seq<char>, ValueV)>) -> Option<
    (Seq<(Seq<char>, ValueV)>, int),
>
    decreases s.len() - i, 1nat,
{
    let j = skip_ws(s, i);
    if j < i || j > s.len() {
        None
    } else if !(j < s.len() && s[j] == '"') {
        None
    } else {
        match parse_str_body(s, j + 1, Seq::empty()) {
            None => None,
            Some((key, k)) => {
                if k <= j || k > s.len() {
                    None
                } else {
                    let c = skip_ws(s, k);
                    if c < k || c >= s.len() || s[c] != ':' {
                        None
                    } else {
                        let w = skip_ws(s, c + 1);
                        if w < c + 1 || w > s.len() {
                            None
                        } else {
                            match parse_value(s, w) {
                                None => None,
                                Some((v, e)) => {
                                    if e <= w || e > s.len() {
                                        None
                                    } else {
                                        let m = skip_ws(s, e);
                                        if m < e || m >= s.len() {
                                            None
                                        } else if s[m] == ',' {
                                            parse_members(s, m + 1, acc.push((key, v)))
                                        } else if s[m] == '}' {
                                            Some((acc.push((key, v)), m + 1))
                                        } else {
                                            None
                                        }
                                    }
                                },
                            }
                        }
                    }
                }
            },
        }
    }
}

/// Reads a complete JSON text: one value, with whitespace allowed around it
/// and nothing else before or after.
pub open spec fn parse_json(s: Seq<char>) -> Option<ValueV> {
    let i = skip_ws(s, 0);
    if i < 0 || i > s.len() {
        None
    } else {
        match parse_value(s, i) {
            None => None,
            Some((v, k)) => {
                if k < 0 || k > s.len() {
                    None
                } else if skip_ws(s, k) == s.len() {
                    Some(v)
                } else {
                    None
                }
            },
        }
    }
}


// ---------------------------------------------------------------------------
// Executable encoder
// ---------------------------------------------------------------------------

/// Relies on String::push: appends the one character to the end of the string.
#[verifier::external_body]
pub(crate) fn push_char(out: &mut String, c: char)
    ensures
        final(out)@ == old(out)@.push(c),
{
    out.push(c)
}

/// Appending one character to a string body escapes just that character.
proof fn lemma_str_body_snoc(s: Seq<char>, c: char)
    ensures
        str_body_rep(s.push(c)) == str_body_rep(s) + esc_char(c),
    decreases s.len(),
{
    if s.len() == 0 {
        assert(s.push(c)[0] == c);
        assert(s.push(c).drop_first() =~= Seq::<char>::empty());
        assert(str_body_rep(s.push(c)) == esc_char(c) + str_body_rep(Seq::<char>::empty()));
        assert(esc_char(c) + Seq::<char>::empty() =~= str_body_rep(s) + esc_char(c));
    } else {
        assert(s.push(c).drop_first() =~= s.drop_first().push(c));
        lemma_str_body_snoc(s.drop_first(), c);
        assert(str_body_rep(s.push(c)) =~= str_body_rep(s) + esc_char(c));
    }
}

/// Appending one element extends the element list text by a comma (if any
/// element came before) and the element's own text.
proof fn lemma_enc_elems_snoc(a: Seq<ValueV>, x: ValueV)
    ensures
        a.len() == 0 ==> enc_elems(a.push(x)) == enc_value(x),
        a.len() > 0 ==> enc_elems(a.push(x)) == enc_elems(a) + seq![','] + enc_value(x),
    decreases a.len(),
{
    if a.len() == 0 {
        assert(a.push(x)[0] == x);
        assert(enc_elems(a.push(x)) == enc_value(x));
    } else {
        assert(a.push(x).drop_first() =~= a.drop_first().push(x));
        assert(a.push(x)[0] == a[0]);
        lemma_enc_elems_snoc(a.drop_first(), x);
        if a.len() == 1 {
            assert(enc_elems(a.push(x)) =~= enc_elems(a) + seq![','] + enc_value(x));
        } else {
            assert(enc_elems(a.push(x)) =~= enc_elems(a) + seq![','] + enc_value(x));
        }
    }
}

/// Appending one member extends the member list text by a comma (if any
/// member came before) and the member's own text.
proof fn lemma_enc_members_snoc(m: Seq<(Seq<char>, ValueV)>, x: (Seq<char>, ValueV))
    ensures
        m.len() == 0 ==> enc_members(m.push(x)) == quoted_rep(x.0) + seq![':'] + enc_value(x.1),
        m.len() > 0 ==> enc_members(m.push(x)) == enc_members(m) + seq![','] + quoted_rep(x.0)
            + seq![':'] + enc_value(x.1),
    decreases m.len(),
{
    if m.len() == 0 {
        assert(m.push(x)[0] == x);
        assert(enc_members(m.push(x)) == quoted_rep(x.0) + seq![':'] + enc_value(x.1));
    } else {
        assert(m.push(x).drop_first() =~= m.drop_first().push(x));
        assert(m.push(x)[0] == m[0]);
        lemma_enc_members_snoc(m.drop_first(), x);
        if m.len() == 1 {
            assert(enc_members(m.push(x)) =~= enc_members(m) + seq![','] + quoted_rep(x.0)
                + seq![':'] + enc_value(x.1));
        } else {
            assert(enc_members(m.push(x)) =~= enc_members(m) + seq![','] + quoted_rep(x.0)
                + seq![':'] + enc_value(x.1));
        }
    }
}

/// Writes the decimal digits of `n`, most significant first.
fn encode_u64_dec(n: u64, out: &mut String)
    ensures
        final(out)@ == old(out)@ + dec_rep(n as nat),
    decreases n,
{
    if n < 10 {
        let d: u8 = 48 + (n as u8);
        push_char(out, d as char);
        assert(out@ =~= old(out)@ + dec_rep(n as nat));
    } else {
        encode_u64_dec(n / 10, out);
        let d: u8 = 48 + ((n % 10) as u8);
        push_char(out, d as char);
        assert(out@ =~= old(out)@ + dec_rep(n as nat));
    }
}

/// Writes the canonical decimal text of `n`.
fn encode_i64(n: i64, out: &mut String)
    ensures
        final(out)@ == old(out)@ + int_rep(n as int),
{
    if n < 0 {
        push_char(out, '-');
        let mag: u64 = ((-(n + 1)) as u64) + 1;
        assert(mag as nat == (-(n as int)) as nat);
        encode_u64_dec(mag, out);
        assert(out@ =~= old(out)@ + int_rep(n as int));
    } else {
        encode_u64_dec(n as u64, out);
        assert(out@ =~= old(out)@ + int_rep(n as int));
    }
}

/// Writes the body of a JSON string, escaping as [`esc_char`] says.
fn encode_str_body(s: &str, out: &mut String)
    ensures
        final(out)@ == old(out)@ + str_body_rep(s@),
{
    let n = s.unicode_len();
    let mut i: usize = 0;
    while i < n
        invariant
            n == s@.len(),
            i <= n,
            out@ == old(out)@ + str_body_rep(s@.take(i as int)),
        decreases n - i,
    {
        let c = s.get_char(i);
        if c == '"' {
            push_char(out, '\\');
            push_char(out, '"');
        } else if c == '\\' {
            push_char(out, '\\');
            push_char(out, '\\');
        } else if c == '\n' {
            push_char(out, '\\');
            push_char(out, 'n');
        } else if c == '\r' {
            push_char(out, '\\');
            push_char(out, 'r');
        } else if c == '\t' {
            push_char(out, '\\');
            push_char(out, 't');
        } else {
            push_char(out, c);
        }
        proof {
            lemma_str_body_snoc(s@.take(i as int), c);
            assert(s@.take(i as int).push(c) =~= s@.take(i as int + 1));
            assert(out@ =~= old(out)@ + str_body_rep(s@.take(i as int + 1)));
        }
        i = i + 1;
    }
    proof {
        assert(s@.take(n as int) =~= s@);
    }
}

/// Writes a JSON string: the escaped body between double quotes.
fn encode_quoted(s: &str, out: &mut String)
    ensures
        final(out)@ == old(out)@ + quoted_rep(s@),
{
    push_char(out, '"');
    encode_str_body(s, out);
    push_char(out, '"');
    assert(out@ =~= old(out)@ + quoted_rep(s@));
}

/// Writes the canonical JSON text of a value.
#[verifier::loop_isolation(false)]
#[verifier::rlimit(100)]
fn encode_value(v: &Value, out: &mut String)
    ensures
        final(out)@ == old(out)@ + enc_value(v@),
    decreases v,
{
    match v {
        Value::Null => {
            push_char(out, 'n');
            push_char(out, 'u');
            push_char(out, 'l');
            push_char(out, 'l');
            assert(out@ =~= old(out)@ + enc_value(v@));
        },
        Value::Bool(b) => {
            if *b {
                push_char(out, 't');
                push_char(out, 'r');
                push_char(out, 'u');
                push_char(out, 'e');
            } else {
                push_char(out, 'f');
                push_char(out, 'a');
                push_char(out, 'l');
                push_char(out, 's');
                push_char(out, 'e');
            }
            assert(out@ =~= old(out)@ + enc_value(v@));
        },
        Value::Int(n) => {
            encode_i64(*n, out);
        },
        Value::Str(s) => {
            encode_quoted(s.as_str(), out);
        },
        Value::Arr(a) => {
            push_char(out, '[');
            let ghost reps = v@->Arr_0;
            let n = a.len();
            let mut i: usize = 0;
            while i < n
                invariant
                    n == a@.len(),
                    i <= n,
                    reps == v@->Arr_0,
                    reps.len() == n,
                    forall|k: int| 0 <= k < n ==> reps[k] == value_rep(a@[k]),
                    out@ == old(out)@ + seq!['['] + enc_elems(reps.take(i as int)),
                decreases n - i,
            {
                if i > 0 {
                    push_char(out, ',');
                }
                proof {
                    assert(*v == Value::Arr(*a));
                    assert(decreases_to!(*v => v->Arr_0));
                    vstd::std_specs::vec::axiom_vec_index_decreases(*a, i as int);
                }
                encode_value(&a[i], out);
                proof {
                    lemma_enc_elems_snoc(reps.take(i as int), reps[i as int]);
                    assert(reps.take(i as int).push(reps[i as int]) =~= reps.take(i as int + 1));
                    assert(out@ =~= old(out)@ + seq!['['] + enc_elems(reps.take(i as int + 1)));
                }
                i = i + 1;
            }
            push_char(out, ']');
            proof {
                assert(reps.take(n as int) =~= reps);
                assert(out@ =~= old(out)@ + enc_value(v@));
            }
        },
        Value::Obj(m) => {
            push_char(out, '{');
            let ghost reps = v@->Obj_0;
            let n = m.len();
            let mut i: usize = 0;
            while i < n
                invariant
                    n == m@.len(),
                    i <= n,
                    reps == v@->Obj_0,
                    reps.len() == n,
                    forall|k: int| 0 <= k < n ==> #[trigger] reps[k] == (
                        m@[k].0@,
                        value_rep(m@[k].1),
                    ),
                    out@ == old(out)@ + seq!['{'] + enc_members(reps.take(i as int)),
                decreases n - i,
            {
                if i > 0 {
                    push_char(out, ',');
                }
                let entry = &m[i];
                encode_quoted(entry.0.as_str(), out);
                push_char(out, ':');
                proof {
                    assert(*v == Value::Obj(*m));
                    assert(decreases_to!(*v => v->Obj_0));
                    vstd::std_specs::vec::axiom_vec_index_decreases(*m, i as int);
                    assert(decreases_to!(m@[i as int] => m@[i as int].1));
                }
                encode_value(&entry.1, out);
                proof {
                    lemma_enc_members_snoc(reps.take(i as int), reps[i as int]);
                    assert(reps.take(i as int).push(reps[i as int]) =~= reps.take(i as int + 1));
                    assert(out@ =~= old(out)@ + seq!['{'] + enc_members(reps.take(i as int + 1)));
                }
                i = i + 1;
            }
            push_char(out, '}');
            proof {
                assert(reps.take(n as int) =~= reps);
                assert(out@ =~= old(out)@ + enc_value(v@));
            }
        },
    }
}

/// Serializes one value to its canonical JSON text: members and elements in
/// order, without whitespace.
pub fn encode_json_text(v: &Value) -> (out: String)
    ensures
        out@ == enc_value(v@),
{
    let mut out = String::new();
    encode_value(v, &mut out);
    out
}

/// Serializes a request to its canonical wire text: the object with the four
/// members `id`, `jsonrpc`, `method` and `params`, in that order, without
/// whitespace.
#[verifier::loop_isolation(false)]
#[verifier::rlimit(100)]
pub fn encode_request(r: &Request) -> (out: String)
    ensures
        out@ == enc_request(r@),
{
    let mut out = String::new();
    push_char(&mut out, '{');
    encode_quoted("id", &mut out);
    push_char(&mut out, ':');
    match &r.id {
        Id::Number(n) => encode_i64(*n, &mut out),
        Id::String(s) => encode_quoted(s.as_str(), &mut out),
    }
    push_char(&mut out, ',');
    encode_quoted("jsonrpc", &mut out);
    push_char(&mut out, ':');
    encode_quoted(r.jsonrpc.as_str(), &mut out);
    push_char(&mut out, ',');
    encode_quoted("method", &mut out);
    push_char(&mut out, ':');
    encode_quoted(r.method.as_str(), &mut out);
    push_char(&mut out, ',');
    encode_quoted("params", &mut out);
    push_char(&mut out, ':');
    push_char(&mut out, '[');
    let ghost reps = r@.params;
    let n = r.params.len();
    let ghost mid = out@;
    let mut i: usize = 0;
    while i < n
        invariant
            n == r.params@.len(),
            i <= n,
            reps == r@.params,
            reps.len() == n,
            forall|k: int| 0 <= k < n ==> reps[k] == value_rep(r.params@[k]),
            out@ == mid + enc_elems(reps.take(i as int)),
        decreases n - i,
    {
        if i > 0 {
            push_char(&mut out, ',');
        }
        encode_value(&r.params[i], &mut out);
        proof {
            lemma_enc_elems_snoc(reps.take(i as int), reps[i as int]);
            assert(reps.take(i as int).push(reps[i as int]) =~= reps.take(i as int + 1));
            assert(out@ =~= mid + enc_elems(reps.take(i as int + 1)));
        }
        i = i + 1;
    }
    push_char(&mut out, ']');
    push_char(&mut out, '}');
    proof {
        assert(reps.take(n as int) =~= reps);
        reveal_strlit("id");
        reveal_strlit("jsonrpc");
        reveal_strlit("method");
        reveal_strlit("params");
        assert("id"@ =~= seq!['i', 'd']);
        assert("jsonrpc"@ =~= seq!['j', 's', 'o', 'n', 'r', 'p', 'c']);
        assert("method"@ =~= seq!['m', 'e', 't', 'h', 'o', 'd']);
        assert("params"@ =~= seq!['p', 'a', 'r', 'a', 'm', 's']);
        let m0 = (seq!['i', 'd'], id_value(r@.id));
        let m1 = (seq!['j', 's', 'o', 'n', 'r', 'p', 'c'], ValueV::Str(r@.jsonrpc));
        let m2 = (seq!['m', 'e', 't', 'h', 'o', 'd'], ValueV::Str(r@.method));
        let m3 = (seq!['p', 'a', 'r', 'a', 'm', 's'], ValueV::Arr(r@.params));
        let mm = seq![m0, m1, m2, m3];
        assert(request_obj(r@) == ValueV::Obj(mm));
        assert(seq![m3].len() == 1);
        assert(enc_members(seq![m3]) == quoted_rep(m3.0) + seq![':'] + enc_value(m3.1));
        assert(seq![m2, m3].drop_first() =~= seq![m3]);
        assert(enc_members(seq![m2, m3]) == quoted_rep(m2.0) + seq![':'] + enc_value(m2.1)
            + seq![','] + enc_members(seq![m3]));
        assert(seq![m1, m2, m3].drop_first() =~= seq![m2, m3]);
        assert(enc_members(seq![m1, m2, m3]) == quoted_rep(m1.0) + seq![':'] + enc_value(m1.1)
            + seq![','] + enc_members(seq![m2, m3]));
        assert(mm.drop_first() =~= seq![m1, m2, m3]);
        assert(enc_members(mm) == quoted_rep(m0.0) + seq![':'] + enc_value(m0.1) + seq![',']
            + enc_members(seq![m1, m2, m3]));
        assert(enc_value(m3.1) == seq!['['] + enc_elems(r@.params) + seq![']']);
        assert(enc_value(request_obj(r@)) == seq!['{'] + enc_members(mm) + seq!['}']);
        assert(out@ =~= enc_request(r@));
    }
    out
}


/// The text a protocol error renders as: the fixed prefix, the decimal code,
/// a separating colon, and the peer's message.
pub open spec fn error_text(code: i64, message: Seq<char>) -> Seq<char> {
    "JSON-RPC request failed with code "@ + int_rep(code as int) + ": "@ + message
}

impl JsonRpcError {
    /// Renders the error as the one line the protocol layer reports:
    /// `JSON-RPC request failed with code <code>: <message>`.
    pub fn render(&self) -> (out: String)
        ensures
            out@ == error_text(self.code, self.message@),
    {
        let mut out = String::from_str("JSON-RPC request failed with code ");
        encode_i64(self.code, &mut out);
        out.append(": ");
        out.append(self.message.as_str());
        out
    }
}

} // verus!
