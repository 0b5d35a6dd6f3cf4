//! JSON document model: a value tree, a serializer and a parser.
//!
//! Number tokens are kept as their literal decimal text, so the model holds
//! no floating point. The serializer emits a canonical form (no whitespace,
//! minimal escaping); the parser accepts the full grammar, with whitespace
//! between tokens and the standard string escapes.

use vstd::prelude::*;

verus! {

broadcast use vstd::seq::axiom_seq_index_decreases, vstd::seq::axiom_seq_subrange_decreases;

/// Mathematical model of a JSON value.
pub enum JsonVal {
    Null,
    Bool(bool),
    Num(Seq<char>),
    Str(Seq<char>),
    Arr(Seq<JsonVal>),
    Obj(Seq<(Seq<char>, JsonVal)>),
}

/// Executable JSON value; `jmodel` maps it onto `JsonVal`.
pub enum Json {
    Null,
    Bool(bool),
    Num(String),
    Str(String),
    Arr(JsonList),
    Obj(MemberList),
}

/// Executable list of array elements.
pub enum JsonList {
    Nil,
    Cons(Box<Json>, Box<JsonList>),
}

/// Executable list of object members.
pub enum MemberList {
    Nil,
    Cons(String, Box<Json>, Box<MemberList>),
}

/// The model of an executable JSON value.
pub open spec fn jmodel(j: Json) -> JsonVal
    decreases j,
{
    match j {
        Json::Null => JsonVal::Null,
        Json::Bool(b) => JsonVal::Bool(b),
        Json::Num(t) => JsonVal::Num(t@),
        Json::Str(s) => JsonVal::Str(s@),
        Json::Arr(es) => JsonVal::Arr(lmodel(es)),
        Json::Obj(ms) => JsonVal::Obj(mmodel(ms)),
    }
}

/// The model of an executable element list.
pub open spec fn lmodel(l: JsonList) -> Seq<JsonVal>
    decreases l,
{
    match l {
        JsonList::Nil => Seq::empty(),
        JsonList::Cons(h, t) => seq![jmodel(*h)] + lmodel(*t),
    }
}

/// The model of an executable member list.
pub open spec fn mmodel(m: MemberList) -> Seq<(Seq<char>, JsonVal)>
    decreases m,
{
    match m {
        MemberList::Nil => Seq::empty(),
        MemberList::Cons(k, v, t) => seq![(k@, jmodel(*v))] + mmodel(*t),
    }
}

// ---------------------------------------------------------------------------
// Character classes and number tokens
// ---------------------------------------------------------------------------

pub open spec fn is_ws(c: char) -> bool {
    c == ' ' || c == '\t' || c == '\n' || c == '\r'
}

pub open spec fn is_digit(c: char) -> bool {
    48 <= c as u32 <= 57
}

pub open spec fn digit_val(c: char) -> nat {
    (c as u32 - 48) as nat
}

/// Characters that can occur in a JSON number token.
pub open spec fn is_num_char(c: char) -> bool {
    is_digit(c) || c == '-' || c == '+' || c == '.' || c == 'e' || c == 'E'
}

/// First position at or after `pos` that does not hold a decimal digit.
pub open spec fn digits_run(s: Seq<char>, pos: int) -> int
    decreases s.len() - pos,
{
    if 0 <= pos < s.len() && is_digit(s[pos]) {
        digits_run(s, pos + 1)
    } else {
        pos
    }
}

/// First position at or after `pos` that does not hold a number character.
pub open spec fn num_run(s: Seq<char>, pos: int) -> int
    decreases s.len() - pos,
{
    if 0 <= pos < s.len() && is_num_char(s[pos]) {
        num_run(s, pos + 1)
    } else {
        pos
    }
}

/// Whether `t` is a well-formed JSON number token:
/// `-?(0|[1-9][0-9]*)(\.[0-9]+)?([eE][+-]?[0-9]+)?`.
pub open spec fn num_token_ok(t: Seq<char>) -> bool {
    let p0: int = if t.len() > 0 && t[0] == '-' { 1 } else { 0 };
    let p1 = digits_run(t, p0);
    let int_ok = p1 > p0 && (t[p0] == '0' ==> p1 == p0 + 1);
    let p2 = if p1 < t.len() && t[p1] == '.' { digits_run(t, p1 + 1) } else { p1 };
    let frac_ok = p1 < t.len() && t[p1] == '.' ==> p2 > p1 + 1;
    let has_exp = p2 < t.len() && (t[p2] == 'e' || t[p2] == 'E');
    let p3: int = if has_exp {
        if p2 + 1 < t.len() && (t[p2 + 1] == '+' || t[p2 + 1] == '-') {
            p2 + 2
        } else {
            p2 + 1
        }
    } else {
        p2
    };
    let p4 = if has_exp { digits_run(t, p3) } else { p3 };
    let exp_ok = has_exp ==> p4 > p3;
    int_ok && frac_ok && exp_ok && p4 == t.len()
}

/// Numeric value of a sequence of decimal digits.
pub open spec fn digits_val(t: Seq<char>) -> nat
    decreases t.len(),
{
    if t.len() == 0 {
        0
    } else {
        digits_val(t.drop_last()) * 10 + digit_val(t.last())
    }
}

/// Whether `t` is a nonempty run of decimal digits.
pub open spec fn all_digits(t: Seq<char>) -> bool {
    forall|i: int| 0 <= i < t.len() ==> is_digit(#[trigger] t[i])
}

/// Decimal text of an unsigned integer, without leading zeros.
pub open spec fn dec_tok(n: nat) -> Seq<char>
    decreases n,
{
    if n < 10 {
        seq![digit_char(n)]
    } else {
        dec_tok(n / 10).push(digit_char(n % 10))
    }
}

/// The decimal digit character for `n < 10`.
pub open spec fn digit_char(n: nat) -> char {
    if n == 0 { '0' }
    else if n == 1 { '1' }
    else if n == 2 { '2' }
    else if n == 3 { '3' }
    else if n == 4 { '4' }
    else if n == 5 { '5' }
    else if n == 6 { '6' }
    else if n == 7 { '7' }
    else if n == 8 { '8' }
    else { '9' }
}

/// The lower-case hexadecimal digit character for `n < 16`.
pub open spec fn hex_char(n: nat) -> char {
    if n < 10 { digit_char(n) }
    else if n == 10 { 'a' }
    else if n == 11 { 'b' }
    else if n == 12 { 'c' }
    else if n == 13 { 'd' }
    else if n == 14 { 'e' }
    else { 'f' }
}

// ---------------------------------------------------------------------------
// Serializer specification
// ---------------------------------------------------------------------------

/// Escape of one string character: quote and backslash get a backslash,
/// control characters a `\u00xx` form, everything else stands as itself.
pub open spec fn esc_char(c: char) -> Seq<char> {
    if c == '"' {
        seq!['\\', '"']
    } else if c == '\\' {
        seq!['\\', '\\']
    } else if (c as u32) < 32 {
        seq!['\\', 'u', '0', '0', hex_char((c as u32 / 16) as nat), hex_char((c as u32 % 16) as nat)]
    } else {
        seq![c]
    }
}

/// Escape of a whole string body.
pub open spec fn esc(s: Seq<char>) -> Seq<char>
    decreases s.len(),
{
    if s.len() == 0 {
        Seq::empty()
    } else {
        esc_char(s[0]) + esc(s.subrange(1, s.len() as int))
    }
}

/// Canonical serialization of a JSON value: no whitespace, minimal escapes.
pub open spec fn ser(j: JsonVal) -> Seq<char>
    decreases j,
{
    match j {
        JsonVal::Null => seq!['n', 'u', 'l', 'l'],
        JsonVal::Bool(b) => if b { seq!['t', 'r', 'u', 'e'] } else { seq!['f', 'a', 'l', 's', 'e'] },
        JsonVal::Num(t) => t,
        JsonVal::Str(s) => seq!['"'] + esc(s) + seq!['"'],
        JsonVal::Arr(es) => seq!['['] + ser_elems(es) + seq![']'],
        JsonVal::Obj(ms) => seq!['{'] + ser_members(ms) + seq!['}'],
    }
}

/// Serialization of array elements, comma-separated.
pub open spec fn ser_elems(es: Seq<JsonVal>) -> Seq<char>
    decreases es,
{
    if es.len() == 0 {
        Seq::empty()
    } else if es.len() == 1 {
        ser(es[0])
    } else {
        ser(es[0]) + seq![','] + ser_elems(es.subrange(1, es.len() as int))
    }
}

/// Serialization of object members, comma-separated; each member is
/// `"key":value` with the key escaped like any string.
pub open spec fn ser_members(ms: Seq<(Seq<char>, JsonVal)>) -> Seq<char>
    decreases ms,
{
    if ms.len() == 0 {
        Seq::empty()
    } else if ms.len() == 1 {
        seq!['"'] + esc(ms[0].0) + seq!['"', ':'] + ser(ms[0].1)
    } else {
        seq!['"'] + esc(ms[0].0) + seq!['"', ':'] + ser(ms[0].1) + seq![','] + ser_members(
            ms.subrange(1, ms.len() as int),
        )
    }
}

/// Well-formedness of a JSON value: every number token follows the grammar.
pub open spec fn wf_json(j: JsonVal) -> bool
    decreases j,
{
    match j {
        JsonVal::Null => true,
        JsonVal::Bool(_) => true,
        JsonVal::Num(t) => num_token_ok(t),
        JsonVal::Str(_) => true,
        JsonVal::Arr(es) => wf_elems(es),
        JsonVal::Obj(ms) => wf_members(ms),
    }
}

/// Well-formedness of each element of an array.
pub open spec fn wf_elems(es: Seq<JsonVal>) -> bool
    decreases es,
{
    es.len() == 0 || (wf_json(es[0]) && wf_elems(es.subrange(1, es.len() as int)))
}

/// Well-formedness of each member value of an object.
pub open spec fn wf_members(ms: Seq<(Seq<char>, JsonVal)>) -> bool
    decreases ms,
{
    ms.len() == 0 || (wf_json(ms[0].1) && wf_members(ms.subrange(1, ms.len() as int)))
}

// ---------------------------------------------------------------------------
// Executable serializer
// ---------------------------------------------------------------------------

/// Appending one more character extends the escape of a string by that
/// character's escape.
proof fn lemma_esc_snoc(s: Seq<char>, c: char)
    ensures
        esc(s.push(c)) == esc(s) + esc_char(c),
    decreases s.len(),
{
    let t = s.push(c).subrange(1, s.push(c).len() as int);
    if s.len() == 0 {
        assert(s.push(c)[0] == c);
        assert(t =~= Seq::<char>::empty());
        assert(esc(t) == Seq::<char>::empty());
        assert(esc(s.push(c)) =~= esc(s) + esc_char(c));
    } else {
        assert(s.push(c)[0] == s[0]);
        assert(t =~= s.subrange(1, s.len() as int).push(c));
        lemma_esc_snoc(s.subrange(1, s.len() as int), c);
        assert(esc(s.push(c)) == esc_char(s[0]) + esc(t));
        assert(esc(s.push(c)) =~= esc(s) + esc_char(c));
    }
}

/// Append the characters of `s` to `out`.
fn push_str_chars(s: &str, out: &mut Vec<char>)
    ensures
        final(out)@ == old(out)@ + s@,
{
    let n = s.unicode_len();
    let mut i: usize = 0;
    while i < n
        invariant
            n == s@.len(),
            0 <= i <= n,
            out@ == old(out)@ + s@.subrange(0, i as int),
        decreases n - i,
    {
        let c = s.get_char(i);
        out.push(c);
        assert(s@.subrange(0, i + 1 as int) =~= s@.subrange(0, i as int).push(s@[i as int]));
        i = i + 1;
    }
    assert(s@.subrange(0, n as int) =~= s@);
}

/// The lower-case hexadecimal digit for `v < 16`.
fn hex_char_x(v: u32) -> (r: char)
    requires
        v < 16,
    ensures
        r == hex_char(v as nat),
{
    if v == 0 { '0' }
    else if v == 1 { '1' }
    else if v == 2 { '2' }
    else if v == 3 { '3' }
    else if v == 4 { '4' }
    else if v == 5 { '5' }
    else if v == 6 { '6' }
    else if v == 7 { '7' }
    else if v == 8 { '8' }
    else if v == 9 { '9' }
    else if v == 10 { 'a' }
    else if v == 11 { 'b' }
    else if v == 12 { 'c' }
    else if v == 13 { 'd' }
    else if v == 14 { 'e' }
    else { 'f' }
}

/// Append the escaped body of string `s` to `out`.
fn push_escaped(s: &str, out: &mut Vec<char>)
    ensures
        final(out)@ == old(out)@ + esc(s@),
{
    let n = s.unicode_len();
    let mut i: usize = 0;
    assert(esc(s@.subrange(0, 0)) =~= Seq::<char>::empty());
    assert(out@ =~= old(out)@ + esc(s@.subrange(0, 0)));
    while i < n
        invariant
            n == s@.len(),
            0 <= i <= n,
            out@ == old(out)@ + esc(s@.subrange(0, i as int)),
        decreases n - i,
    {
        let c = s.get_char(i);
        let v = c as u32;
        if c == '"' {
            out.push('\\');
            out.push('"');
        } else if c == '\\' {
            out.push('\\');
            out.push('\\');
        } else if v < 32 {
            out.push('\\');
            out.push('u');
            out.push('0');
            out.push('0');
            out.push(hex_char_x(v / 16));
            out.push(hex_char_x(v % 16));
        } else {
            out.push(c);
        }
        proof {
            lemma_esc_snoc(s@.subrange(0, i as int), s@[i as int]);
            assert(s@.subrange(0, i + 1 as int) =~= s@.subrange(0, i as int).push(s@[i as int]));
            assert(out@ =~= old(out)@ + esc(s@.subrange(0, i + 1 as int)));
        }
        i = i + 1;
    }
    assert(s@.subrange(0, n as int) =~= s@);
}

/// Append the canonical serialization of `j` to `out`.
pub fn write_json(j: &Json, out: &mut Vec<char>)
    ensures
        final(out)@ == old(out)@ + ser(jmodel(*j)),
    decreases j,
{
    match j {
        Json::Null => {
            out.push('n');
            out.push('u');
            out.push('l');
            out.push('l');
            assert(out@ =~= old(out)@ + ser(jmodel(*j)));
        },
        Json::Bool(b) => {
            if *b {
                out.push('t');
                out.push('r');
                out.push('u');
                out.push('e');
            } else {
                out.push('f');
                out.push('a');
                out.push('l');
                out.push('s');
                out.push('e');
            }
            assert(out@ =~= old(out)@ + ser(jmodel(*j)));
        },
        Json::Num(t) => {
            push_str_chars(t.as_str(), out);
        },
        Json::Str(s) => {
            out.push('"');
            push_escaped(s.as_str(), out);
            out.push('"');
            assert(out@ =~= old(out)@ + ser(jmodel(*j)));
        },
        Json::Arr(es) => {
            out.push('[');
            write_elems(es, out);
            out.push(']');
            assert(out@ =~= old(out)@ + ser(jmodel(*j)));
        },
        Json::Obj(ms) => {
            out.push('{');
            write_members(ms, out);
            out.push('}');
            assert(out@ =~= old(out)@ + ser(jmodel(*j)));
        },
    }
}

/// Append the comma-separated serialization of the elements of `l` to `out`.
fn write_elems(l: &JsonList, out: &mut Vec<char>)
    ensures
        final(out)@ == old(out)@ + ser_elems(lmodel(*l)),
    decreases l,
{
    match l {
        JsonList::Nil => {
            assert(ser_elems(lmodel(*l)) =~= Seq::<char>::empty());
            assert(out@ =~= old(out)@ + ser_elems(lmodel(*l)));
        },
        JsonList::Cons(h, t) => {
            write_json(h, out);
            proof {
                assert(lmodel(*l)[0] == jmodel(**h));
                assert(lmodel(*l).subrange(1, lmodel(*l).len() as int) =~= lmodel(**t));
            }
            match &**t {
                JsonList::Nil => {
                    assert(lmodel(*l).len() == 1);
                    assert(out@ =~= old(out)@ + ser_elems(lmodel(*l)));
                },
                JsonList::Cons(_, _) => {
                    out.push(',');
                    write_elems(t, out);
                    assert(lmodel(*l).len() >= 2);
                    assert(out@ =~= old(out)@ + ser_elems(lmodel(*l)));
                },
            }
        },
    }
}

/// Append the comma-separated serialization of the members of `m` to `out`.
fn write_members(m: &MemberList, out: &mut Vec<char>)
    ensures
        final(out)@ == old(out)@ + ser_members(mmodel(*m)),
    decreases m,
{
    match m {
        MemberList::Nil => {
            assert(ser_members(mmodel(*m)) =~= Seq::<char>::empty());
            assert(out@ =~= old(out)@ + ser_members(mmodel(*m)));
        },
        MemberList::Cons(k, v, t) => {
            out.push('"');
            push_escaped(k.as_str(), out);
            out.push('"');
            out.push(':');
            write_json(v, out);
            proof {
                assert(mmodel(*m)[0] == (k@, jmodel(**v)));
                assert(mmodel(*m).subrange(1, mmodel(*m).len() as int) =~= mmodel(**t));
            }
            match &**t {
                MemberList::Nil => {
                    assert(mmodel(*m).len() == 1);
                    assert(out@ =~= old(out)@ + ser_members(mmodel(*m)));
                },
                MemberList::Cons(_, _, _) => {
                    out.push(',');
                    write_members(t, out);
                    assert(mmodel(*m).len() >= 2);
                    assert(out@ =~= old(out)@ + ser_members(mmodel(*m)));
                },
            }
        },
    }
}

/// Canonical serialization of `j` as a character vector.
pub fn json_to_chars(j: &Json) -> (out: Vec<char>)
    ensures
        out@ == ser(jmodel(*j)),
{
    let mut out: Vec<char> = Vec::new();
    write_json(j, &mut out);
    assert(out@ =~= ser(jmodel(*j)));
    out
}

// ---------------------------------------------------------------------------
// Parser specification
// ---------------------------------------------------------------------------

/// First position at or after `pos` that does not hold whitespace.
pub open spec fn skip_ws(s: Seq<char>, pos: int) -> int
    decreases s.len() - pos,
{
    if 0 <= pos < s.len() && is_ws(s[pos]) {
        skip_ws(s, pos + 1)
    } else {
        pos
    }
}

pub open spec fn is_hex(c: char) -> bool {
    is_digit(c) || 97 <= c as u32 <= 102 || 65 <= c as u32 <= 70
}

pub open spec fn hex_val(c: char) -> nat {
    if is_digit(c) {
        digit_val(c)
    } else if 97 <= c as u32 <= 102 {
        (c as u32 - 87) as nat
    } else {
        (c as u32 - 55) as nat
    }
}

/// The single-character escapes of the JSON grammar.
pub open spec fn esc_short(e: char) -> Option<char> {
    if e == '"' { Some('"') }
    else if e == '\\' { Some('\\') }
    else if e == '/' { Some('/') }
    else if e == 'b' { Some('\u{0008}') }
    else if e == 'f' { Some('\u{000C}') }
    else if e == 'n' { Some('\n') }
    else if e == 'r' { Some('\r') }
    else if e == 't' { Some('\t') }
    else { None }
}

/// Unicode scalar values: what `\u` escapes may denote.
pub open spec fn scalar_ok(v: u32) -> bool {
    v < 0xD800 || (0xE000 <= v < 0x110000)
}

/// The scalar value of a character.
pub open spec fn cval(c: char) -> u32 {
    c as u32
}

/// The character with scalar value `v`.
pub open spec fn uchar(v: u32) -> char {
    choose|c: char| cval(c) == v
}

/// Parse the body of a string after its opening quote, up to and including
/// the closing quote; yields the unescaped content and the next position.
pub open spec fn parse_str_chars(s: Seq<char>, pos: int) -> Option<(Seq<char>, int)>
    decreases s.len() - pos,
{
    if pos < 0 || pos >= s.len() {
        None
    } else if s[pos] == '"' {
        Some((Seq::empty(), pos + 1))
    } else if s[pos] == '\\' {
        if pos + 1 >= s.len() {
            None
        } else if s[pos + 1] == 'u' {
            if pos + 6 > s.len() {
                None
            } else if is_hex(s[pos + 2]) && is_hex(s[pos + 3]) && is_hex(s[pos + 4]) && is_hex(
                s[pos + 5],
            ) {
                let code = (hex_val(s[pos + 2]) * 4096 + hex_val(s[pos + 3]) * 256 + hex_val(
                    s[pos + 4],
                ) * 16 + hex_val(s[pos + 5])) as u32;
                if scalar_ok(code) {
                    match parse_str_chars(s, pos + 6) {
                        Some(r) => Some((seq![uchar(code)] + r.0, r.1)),
                        None => None,
                    }
                } else {
                    None
                }
            } else {
                None
            }
        } else {
            match esc_short(s[pos + 1]) {
                Some(c) => match parse_str_chars(s, pos + 2) {
                    Some(r) => Some((seq![c] + r.0, r.1)),
                    None => None,
                },
                None => None,
            }
        }
    } else if (s[pos] as u32) < 32 {
        None
    } else {
        match parse_str_chars(s, pos + 1) {
            Some(r) => Some((seq![s[pos]] + r.0, r.1)),
            None => None,
        }
    }
}

/// Parse one JSON value starting at `pos` (leading whitespace allowed).
/// `fuel` bounds the recursion; any fuel above the input length suffices.
pub open spec fn parse_value(s: Seq<char>, pos: int, fuel: nat) -> Option<(JsonVal, int)>
    decreases fuel, 0int,
{
    if fuel == 0 {
        None
    } else {
        let p = skip_ws(s, pos);
        if p < 0 || p >= s.len() {
            None
        } else if s[p] == 'n' {
            if p + 4 <= s.len() && s[p + 1] == 'u' && s[p + 2] == 'l' && s[p + 3] == 'l' {
                Some((JsonVal::Null, p + 4))
            } else {
                None
            }
        } else if s[p] == 't' {
            if p + 4 <= s.len() && s[p + 1] == 'r' && s[p + 2] == 'u' && s[p + 3] == 'e' {
                Some((JsonVal::Bool(true), p + 4))
            } else {
                None
            }
        } else if s[p] == 'f' {
            if p + 5 <= s.len() && s[p + 1] == 'a' && s[p + 2] == 'l' && s[p + 3] == 's' && s[p + 4]
                == 'e' {
                Some((JsonVal::Bool(false), p + 5))
            } else {
                None
            }
        } else if s[p] == '"' {
            match parse_str_chars(s, p + 1) {
                Some(r) => Some((JsonVal::Str(r.0), r.1)),
                None => None,
            }
        } else if s[p] == '-' || is_digit(s[p]) {
            let e = num_run(s, p);
            let t = s.subrange(p, e);
            if num_token_ok(t) {
                Some((JsonVal::Num(t), e))
            } else {
                None
            }
        } else if s[p] == '[' {
            let p1 = skip_ws(s, p + 1);
            if p1 < s.len() && s[p1] == ']' {
                Some((JsonVal::Arr(Seq::empty()), p1 + 1))
            } else {
                match parse_elems(s, p + 1, (fuel - 1) as nat) {
                    Some(r) => Some((JsonVal::Arr(r.0), r.1)),
                    None => None,
                }
            }
        } else if s[p] == '{' {
            let p1 = skip_ws(s, p + 1);
            if p1 < s.len() && s[p1] == '}' {
                Some((JsonVal::Obj(Seq::empty()), p1 + 1))
            } else {
                match parse_members(s, p + 1, (fuel - 1) as nat) {
                    Some(r) => Some((JsonVal::Obj(r.0), r.1)),
                    None => None,
                }
            }
        } else {
            None
        }
    }
}

/// Parse one or more comma-separated elements and the closing `]`.
pub open spec fn parse_elems(s: Seq<char>, pos: int, fuel: nat) -> Option<(Seq<JsonVal>, int)>
    decreases fuel, 1int,
{
    if fuel == 0 {
        None
    } else {
        match parse_value(s, pos, fuel) {
            None => None,
            Some(r) => {
                let p2 = skip_ws(s, r.1);
                if p2 < s.len() && s[p2] == ',' {
                    match parse_elems(s, p2 + 1, (fuel - 1) as nat) {
                        Some(q) => Some((seq![r.0] + q.0, q.1)),
                        None => None,
                    }
                } else if p2 < s.len() && s[p2] == ']' {
                    Some((seq![r.0], p2 + 1))
                } else {
                    None
                }
            },
        }
    }
}

/// Parse one or more comma-separated members and the closing `}`.
pub open spec fn parse_members(s: Seq<char>, pos: int, fuel: nat) -> Option<
    (Seq<(Seq<char>, JsonVal)>, int),
>
    decreases fuel, 1int,
{
    if fuel == 0 {
        None
    } else {
        let p = skip_ws(s, pos);
        if p >= s.len() || s[p] != '"' {
            None
        } else {
            match parse_str_chars(s, p + 1) {
                None => None,
                Some(k) => {
                    let p2 = skip_ws(s, k.1);
                    if p2 < s.len() && s[p2] == ':' {
                        match parse_value(s, p2 + 1, fuel) {
                            None => None,
                            Some(v) => {
                                let p4 = skip_ws(s, v.1);
                                if p4 < s.len() && s[p4] == ',' {
                                    match parse_members(s, p4 + 1, (fuel - 1) as nat) {
                                        Some(q) => Some((seq![(k.0, v.0)] + q.0, q.1)),
                                        None => None,
                                    }
                                } else if p4 < s.len() && s[p4] == '}' {
                                    Some((seq![(k.0, v.0)], p4 + 1))
                                } else {
                                    None
                                }
                            },
                        }
                    } else {
                        None
                    }
                },
            }
        }
    }
}

// ---------------------------------------------------------------------------
// Executable parser
// ---------------------------------------------------------------------------

/// Relies on `String: FromIterator<char>`: collecting characters yields the
/// string of exactly those characters, in order.
#[verifier::external_body]
pub(crate) fn chars_to_string(v: Vec<char>) -> (s: String)
    ensures
        s@ == v@,
{
    v.into_iter().collect()
}

/// Relies on `char::from_u32`: `Some` exactly for Unicode scalar values
/// (below the surrogate range or above it, up to the maximum code point),
/// and the returned character has the given scalar value.
#[verifier::external_body]
fn char_from_u32(v: u32) -> (r: Option<char>)
    ensures
        (r matches Some(c) ==> c as u32 == v),
        scalar_ok(v) ==> r is Some,
{
    char::from_u32(v)
}

/// Two characters with the same scalar value are the same character.
proof fn lemma_char_injective(a: char, b: char)
    requires
        a as u32 == b as u32,
    ensures
        a == b,
{
}

fn skip_ws_x(s: &Vec<char>, pos: usize) -> (r: usize)
    requires
        pos <= s@.len(),
    ensures
        r as int == skip_ws(s@, pos as int),
        pos <= r <= s@.len(),
{
    let mut i: usize = pos;
    loop
        invariant
            pos <= i <= s@.len(),
            skip_ws(s@, pos as int) == skip_ws(s@, i as int),
        decreases s@.len() - i,
    {
        if i >= s.len() {
            return i;
        }
        let c = s[i];
        if c == ' ' || c == '\t' || c == '\n' || c == '\r' {
            i = i + 1;
        } else {
            return i;
        }
    }
}

fn digits_run_x(s: &Vec<char>, pos: usize) -> (r: usize)
    requires
        pos <= s@.len(),
    ensures
        r as int == digits_run(s@, pos as int),
        pos <= r <= s@.len(),
{
    let mut i: usize = pos;
    loop
        invariant
            pos <= i <= s@.len(),
            digits_run(s@, pos as int) == digits_run(s@, i as int),
        decreases s@.len() - i,
    {
        if i >= s.len() {
            return i;
        }
        let v = s[i] as u32;
        if 48 <= v && v <= 57 {
            i = i + 1;
        } else {
            return i;
        }
    }
}

fn num_run_x(s: &Vec<char>, pos: usize) -> (r: usize)
    requires
        pos <= s@.len(),
    ensures
        r as int == num_run(s@, pos as int),
        pos <= r <= s@.len(),
{
    let mut i: usize = pos;
    loop
        invariant
            pos <= i <= s@.len(),
            num_run(s@, pos as int) == num_run(s@, i as int),
        decreases s@.len() - i,
    {
        if i >= s.len() {
            return i;
        }
        let c = s[i];
        let v = c as u32;
        if (48 <= v && v <= 57) || c == '-' || c == '+' || c == '.' || c == 'e' || c == 'E' {
            i = i + 1;
        } else {
            return i;
        }
    }
}

/// Whether `t` holds a well-formed JSON number token.
pub fn num_token_ok_x(t: &Vec<char>) -> (r: bool)
    ensures
        r == num_token_ok(t@),
{
    let n = t.len();
    let p0: usize = if n > 0 && t[0] == '-' {
        1
    } else {
        0
    };
    let p1 = digits_run_x(t, p0);
    let int_ok = p1 > p0 && (t[p0] != '0' || p1 == p0 + 1);
    let has_frac = p1 < n && t[p1] == '.';
    let p2 = if has_frac {
        digits_run_x(t, p1 + 1)
    } else {
        p1
    };
    let frac_ok = !has_frac || p2 > p1 + 1;
    let has_exp = p2 < n && (t[p2] == 'e' || t[p2] == 'E');
    let p3: usize = if has_exp {
        if p2 + 1 < n && (t[p2 + 1] == '+' || t[p2 + 1] == '-') {
            p2 + 2
        } else {
            p2 + 1
        }
    } else {
        p2
    };
    let p4 = if has_exp {
        digits_run_x(t, p3)
    } else {
        p3
    };
    let exp_ok = !has_exp || p4 > p3;
    int_ok && frac_ok && exp_ok && p4 == n
}

fn hex_val_x(c: char) -> (r: Option<u32>)
    ensures
        is_hex(c) ==> r == Some(hex_val(c) as u32),
        !is_hex(c) ==> r is None,
        r matches Some(v) ==> v < 16,
{
    let v = c as u32;
    if 48 <= v && v <= 57 {
        Some(v - 48)
    } else if 97 <= v && v <= 102 {
        Some(v - 87)
    } else if 65 <= v && v <= 70 {
        Some(v - 55)
    } else {
        None
    }
}

fn esc_short_x(e: char) -> (r: Option<char>)
    ensures
        r == esc_short(e),
{
    if e == '"' { Some('"') }
    else if e == '\\' { Some('\\') }
    else if e == '/' { Some('/') }
    else if e == 'b' { Some('\u{0008}') }
    else if e == 'f' { Some('\u{000C}') }
    else if e == 'n' { Some('\n') }
    else if e == 'r' { Some('\r') }
    else if e == 't' { Some('\t') }
    else { None }
}

/// Prepend already-read content onto the outcome of reading the rest.
pub open spec fn prepend_chars(a: Seq<char>, r: Option<(Seq<char>, int)>) -> Option<
    (Seq<char>, int),
> {
    match r {
        Some(t) => Some((a + t.0, t.1)),
        None => None,
    }
}

/// Read a string body after the opening quote.
fn parse_string_body_x(s: &Vec<char>, pos: usize) -> (r: Option<(String, usize)>)
    requires
        pos <= s@.len(),
    ensures
        (r matches Some(t) ==> parse_str_chars(s@, pos as int) == Some((t.0@, t.1 as int))
            && pos < t.1 <= s@.len()),
        r is None ==> parse_str_chars(s@, pos as int) is None,
{
    let mut buf: Vec<char> = Vec::new();
    let mut i: usize = pos;
    loop
        invariant
            pos <= i <= s@.len(),
            prepend_chars(buf@, parse_str_chars(s@, i as int)) == parse_str_chars(
                s@,
                pos as int,
            ),
        decreases s@.len() - i,
    {
        let ghost i0 = i as int;
        let ghost b0 = buf@;
        if i >= s.len() {
            return None;
        }
        let c = s[i];
        if c == '"' {
            proof {
                assert(b0 + Seq::<char>::empty() =~= b0);
            }
            let out = chars_to_string(buf);
            return Some((out, i + 1));
        } else if c == '\\' {
            if i + 1 >= s.len() {
                return None;
            }
            let e = s[i + 1];
            if e == 'u' {
                if s.len() - i < 6 {
                    assert(i as int + 6 > s@.len());
                    return None;
                }
                let h1 = hex_val_x(s[i + 2]);
                let h2 = hex_val_x(s[i + 3]);
                let h3 = hex_val_x(s[i + 4]);
                let h4 = hex_val_x(s[i + 5]);
                if h1.is_none() || h2.is_none() || h3.is_none() || h4.is_none() {
                    return None;
                }
                let code = h1.unwrap() * 4096 + h2.unwrap() * 256 + h3.unwrap() * 16 + h4.unwrap();
                if code < 0xD800 || (0xE000 <= code && code <= 0xFFFF) {
                    match char_from_u32(code) {
                        Some(c2) => {
                            proof {
                                assert(cval(c2) == code);
                                lemma_char_injective(uchar(code), c2);
                                assert(uchar(code) == c2);
                            }
                            buf.push(c2);
                            i = i + 6;
                        },
                        None => {
                            proof {
                                assert(false);
                            }
                            return None;
                        },
                    }
                } else {
                    return None;
                }
            } else {
                match esc_short_x(e) {
                    Some(c2) => {
                        buf.push(c2);
                        i = i + 2;
                    },
                    None => {
                        return None;
                    },
                }
            }
        } else if (c as u32) < 32 {
            return None;
        } else {
            buf.push(c);
            i = i + 1;
        }
        proof {
            match parse_str_chars(s@, i as int) {
                Some(r2) => {
                    assert(b0 + (seq![buf@.last()] + r2.0) =~= buf@ + r2.0);
                },
                None => {},
            }
        }
    }
}

/// Parse a whole document: one value with nothing but whitespace after it.
pub open spec fn parse_json(s: Seq<char>) -> Option<JsonVal> {
    match parse_value(s, 0, s.len() + 1) {
        Some(r) => if skip_ws(s, r.1) == s.len() {
            Some(r.0)
        } else {
            None
        },
        None => None,
    }
}

/// Read one JSON value starting at `pos`.
fn parse_value_x(s: &Vec<char>, pos: usize, Ghost(fuel): Ghost<nat>) -> (r: Option<(Json, usize)>)
    requires
        pos <= s@.len(),
        fuel > s@.len() - pos,
    ensures
        (r matches Some(t) ==> parse_value(s@, pos as int, fuel) == Some((jmodel(t.0), t.1 as int))
            && pos <= t.1 <= s@.len() && wf_json(jmodel(t.0))),
        r is None ==> parse_value(s@, pos as int, fuel) is None,
    decreases fuel, 0int,
{
    let p = skip_ws_x(s, pos);
    if p >= s.len() {
        return None;
    }
    let c = s[p];
    if c == 'n' {
        if s.len() - p >= 4 && s[p + 1] == 'u' && s[p + 2] == 'l' && s[p + 3] == 'l' {
            Some((Json::Null, p + 4))
        } else {
            None
        }
    } else if c == 't' {
        if s.len() - p >= 4 && s[p + 1] == 'r' && s[p + 2] == 'u' && s[p + 3] == 'e' {
            Some((Json::Bool(true), p + 4))
        } else {
            None
        }
    } else if c == 'f' {
        if s.len() - p >= 5 && s[p + 1] == 'a' && s[p + 2] == 'l' && s[p + 3] == 's' && s[p + 4]
            == 'e' {
            Some((Json::Bool(false), p + 5))
        } else {
            None
        }
    } else if c == '"' {
        match parse_string_body_x(s, p + 1) {
            Some(t) => Some((Json::Str(t.0), t.1)),
            None => None,
        }
    } else if c == '-' || (48 <= c as u32 && c as u32 <= 57) {
        let e = num_run_x(s, p);
        let mut tok: Vec<char> = Vec::new();
        let mut k: usize = p;
        while k < e
            invariant
                p <= k <= e <= s@.len(),
                tok@ == s@.subrange(p as int, k as int),
            decreases e - k,
        {
            tok.push(s[k]);
            assert(s@.subrange(p as int, k + 1 as int) =~= s@.subrange(p as int, k as int).push(
                s@[k as int],
            ));
            k = k + 1;
        }
        if num_token_ok_x(&tok) {
            let st = chars_to_string(tok);
            Some((Json::Num(st), e))
        } else {
            None
        }
    } else if c == '[' {
        let p1 = skip_ws_x(s, p + 1);
        if p1 < s.len() && s[p1] == ']' {
            proof {
                assert(lmodel(JsonList::Nil) =~= Seq::<JsonVal>::empty());
            }
            Some((Json::Arr(JsonList::Nil), p1 + 1))
        } else {
            match parse_elems_x(s, p + 1, Ghost((fuel - 1) as nat)) {
                Some(t) => Some((Json::Arr(t.0), t.1)),
                None => None,
            }
        }
    } else if c == '{' {
        let p1 = skip_ws_x(s, p + 1);
        if p1 < s.len() && s[p1] == '}' {
            proof {
                assert(mmodel(MemberList::Nil) =~= Seq::<(Seq<char>, JsonVal)>::empty());
            }
            Some((Json::Obj(MemberList::Nil), p1 + 1))
        } else {
            match parse_members_x(s, p + 1, Ghost((fuel - 1) as nat)) {
                Some(t) => Some((Json::Obj(t.0), t.1)),
                None => None,
            }
        }
    } else {
        None
    }
}

/// Read one or more comma-separated array elements and the closing `]`.
fn parse_elems_x(s: &Vec<char>, pos: usize, Ghost(fuel): Ghost<nat>) -> (r: Option<
    (JsonList, usize),
>)
    requires
        pos <= s@.len(),
        fuel > s@.len() - pos,
    ensures
        (r matches Some(t) ==> parse_elems(s@, pos as int, fuel) == Some((lmodel(t.0), t.1 as int))
            && pos <= t.1 <= s@.len() && wf_json(JsonVal::Arr(lmodel(t.0)))),
        r is None ==> parse_elems(s@, pos as int, fuel) is None,
    decreases fuel, 1int,
{
    match parse_value_x(s, pos, Ghost(fuel)) {
        None => None,
        Some(t) => {
            let (j, p) = t;
            let p2 = skip_ws_x(s, p);
            if p2 < s.len() && s[p2] == ',' {
                match parse_elems_x(s, p2 + 1, Ghost((fuel - 1) as nat)) {
                    Some(q) => {
                        let (rest, p3) = q;
                        let ghost jm = jmodel(j);
                        let ghost rm = lmodel(rest);
                        let out = JsonList::Cons(Box::new(j), Box::new(rest));
                        proof {
                            assert(lmodel(out) =~= seq![jm] + rm);
                            assert(lmodel(out).subrange(1, lmodel(out).len() as int) =~= rm);
                            assert(lmodel(out)[0] == jm);
                            assert(wf_elems(rm));
                            assert(wf_elems(lmodel(out)));
                            assert(wf_json(JsonVal::Arr(lmodel(out))));
                        }
                        Some((out, p3))
                    },
                    None => None,
                }
            } else if p2 < s.len() && s[p2] == ']' {
                let ghost jm = jmodel(j);
                let out = JsonList::Cons(Box::new(j), Box::new(JsonList::Nil));
                proof {
                    assert(lmodel(JsonList::Nil) =~= Seq::<JsonVal>::empty());
                    assert(lmodel(out) =~= seq![jm]);
                    assert(lmodel(out).subrange(1, lmodel(out).len() as int) =~= Seq::<JsonVal>::empty());
                    assert(wf_elems(Seq::<JsonVal>::empty()));
                    assert(lmodel(out)[0] == jm);
                    assert(wf_elems(lmodel(out)));
                    assert(wf_json(JsonVal::Arr(lmodel(out))));
                }
                Some((out, p2 + 1))
            } else {
                None
            }
        },
    }
}

/// Read one or more comma-separated object members and the closing `}`.
fn parse_members_x(s: &Vec<char>, pos: usize, Ghost(fuel): Ghost<nat>) -> (r: Option<
    (MemberList, usize),
>)
    requires
        pos <= s@.len(),
        fuel > s@.len() - pos,
    ensures
        (r matches Some(t) ==> parse_members(s@, pos as int, fuel) == Some(
            (mmodel(t.0), t.1 as int),
        ) && pos <= t.1 <= s@.len() && wf_json(JsonVal::Obj(mmodel(t.0)))),
        r is None ==> parse_members(s@, pos as int, fuel) is None,
    decreases fuel, 1int,
{
    let p = skip_ws_x(s, pos);
    if p >= s.len() {
        return None;
    }
    if s[p] != '"' {
        return None;
    }
    match parse_string_body_x(s, p + 1) {
        None => None,
        Some(kt) => {
            let (key, p1) = kt;
            let p2 = skip_ws_x(s, p1);
            if p2 < s.len() && s[p2] == ':' {
                match parse_value_x(s, p2 + 1, Ghost(fuel)) {
                    None => None,
                    Some(vt) => {
                        let (v, p3) = vt;
                        let p4 = skip_ws_x(s, p3);
                        if p4 < s.len() && s[p4] == ',' {
                            match parse_members_x(s, p4 + 1, Ghost((fuel - 1) as nat)) {
                                Some(q) => {
                                    let (rest, p5) = q;
                                    let ghost km = key@;
                                    let ghost vm = jmodel(v);
                                    let ghost rm = mmodel(rest);
                                    let out = MemberList::Cons(key, Box::new(v), Box::new(rest));
                                    proof {
                                        assert(mmodel(out) =~= seq![(km, vm)] + rm);
                                        assert(mmodel(out).subrange(1, mmodel(out).len() as int) =~= rm);
                                        assert(mmodel(out)[0] == (km, vm));
                                        assert(wf_members(rm));
                                        assert(wf_members(mmodel(out)));
                                        assert(wf_json(JsonVal::Obj(mmodel(out))));
                                    }
                                    Some((out, p5))
                                },
                                None => None,
                            }
                        } else if p4 < s.len() && s[p4] == '}' {
                            let ghost km = key@;
                            let ghost vm = jmodel(v);
                            let out = MemberList::Cons(key, Box::new(v), Box::new(MemberList::Nil));
                            proof {
                                assert(mmodel(MemberList::Nil) =~= Seq::<(Seq<char>, JsonVal)>::empty());
                                assert(mmodel(out) =~= seq![(km, vm)]);
                                assert(mmodel(out).subrange(1, mmodel(out).len() as int) =~= Seq::<(Seq<char>, JsonVal)>::empty());
                                assert(wf_members(Seq::<(Seq<char>, JsonVal)>::empty()));
                                assert(mmodel(out)[0] == (km, vm));
                                assert(wf_members(mmodel(out)));
                                assert(wf_json(JsonVal::Obj(mmodel(out))));
                            }
                            Some((out, p4 + 1))
                        } else {
                            None
                        }
                    },
                }
            } else {
                None
            }
        },
    }
}

// ---------------------------------------------------------------------------
// Round trip: the canonical serialization of a well-formed value parses
// back to that value.
// ---------------------------------------------------------------------------

/// Everything in a digit run is a digit.
proof fn lemma_digits_run_chars(s: Seq<char>, a: int, k: int)
    requires
        a <= k < digits_run(s, a),
    ensures
        is_digit(s[k]),
    decreases s.len() - a,
{
    if !(0 <= a < s.len() && is_digit(s[a])) {
    } else if k > a {
        lemma_digits_run_chars(s, a + 1, k);
    }
}

/// A digit run reaches at least as far as its start.
proof fn lemma_digits_run_le(s: Seq<char>, a: int)
    ensures
        digits_run(s, a) >= a,
        digits_run(s, a) <= s.len() || digits_run(s, a) == a,
    decreases s.len() - a,
{
    if 0 <= a < s.len() && is_digit(s[a]) {
        lemma_digits_run_le(s, a + 1);
    }
}

/// Every character of a well-formed number token is a number character.
proof fn lemma_num_token_chars(t: Seq<char>, k: int)
    requires
        num_token_ok(t),
        0 <= k < t.len(),
    ensures
        is_num_char(t[k]),
{
    let p0: int = if t.len() > 0 && t[0] == '-' { 1 } else { 0 };
    let p1 = digits_run(t, p0);
    let p2 = if p1 < t.len() && t[p1] == '.' { digits_run(t, p1 + 1) } else { p1 };
    let has_exp = p2 < t.len() && (t[p2] == 'e' || t[p2] == 'E');
    let p3: int = if has_exp {
        if p2 + 1 < t.len() && (t[p2 + 1] == '+' || t[p2 + 1] == '-') {
            p2 + 2
        } else {
            p2 + 1
        }
    } else {
        p2
    };
    lemma_digits_run_le(t, p0);
    lemma_digits_run_le(t, p1 + 1);
    lemma_digits_run_le(t, p3);
    if k < p0 {
    } else if k < p1 {
        lemma_digits_run_chars(t, p0, k);
    } else if k == p1 && p1 < p2 {
    } else if k < p2 {
        lemma_digits_run_chars(t, p1 + 1, k);
    } else if k == p2 && has_exp {
    } else if has_exp && k < p3 {
    } else if has_exp {
        lemma_digits_run_chars(t, p3, k);
    }
}

/// A run of number characters followed by something else is lexed exactly.
proof fn lemma_num_run_exact(s: Seq<char>, pos: int, n: int)
    requires
        0 <= pos,
        0 <= n,
        pos + n <= s.len(),
        forall|k: int| 0 <= k < n ==> is_num_char(#[trigger] s[pos + k]),
        pos + n == s.len() || !is_num_char(s[pos + n]),
    ensures
        num_run(s, pos) == pos + n,
    decreases n,
{
    if n == 0 {
    } else {
        assert(is_num_char(s[pos + 0]));
        assert forall|k: int| 0 <= k < n - 1 implies is_num_char(#[trigger] s[pos + 1 + k]) by {
            assert(s[pos + 1 + k] == s[pos + (k + 1)]);
        }
        lemma_num_run_exact(s, pos + 1, n - 1);
    }
}

/// Size measure of a value: how much parser fuel it needs.
pub open spec fn jsize(j: JsonVal) -> nat
    decreases j,
{
    match j {
        JsonVal::Null => 1,
        JsonVal::Bool(_) => 1,
        JsonVal::Num(_) => 1,
        JsonVal::Str(_) => 1,
        JsonVal::Arr(es) => 1 + lsize(es),
        JsonVal::Obj(ms) => 1 + msize(ms),
    }
}

pub open spec fn lsize(es: Seq<JsonVal>) -> nat
    decreases es,
{
    if es.len() == 0 {
        0
    } else {
        jsize(es[0]) + lsize(es.subrange(1, es.len() as int)) + 1
    }
}

pub open spec fn msize(ms: Seq<(Seq<char>, JsonVal)>) -> nat
    decreases ms,
{
    if ms.len() == 0 {
        0
    } else {
        jsize(ms[0].1) + msize(ms.subrange(1, ms.len() as int)) + 1
    }
}

/// The size measure never exceeds the serialized length.
proof fn lemma_jsize_le(j: JsonVal)
    requires
        wf_json(j),
    ensures
        jsize(j) <= ser(j).len(),
    decreases jsize(j),
{
    match j {
        JsonVal::Num(t) => {
            lemma_digits_run_le(t, if t.len() > 0 && t[0] == '-' { 1int } else { 0int });
        },
        JsonVal::Arr(es) => {
            lemma_lsize_le(es);
        },
        JsonVal::Obj(ms) => {
            lemma_msize_le(ms);
        },
        _ => {},
    }
}

proof fn lemma_lsize_le(es: Seq<JsonVal>)
    requires
        wf_elems(es),
    ensures
        lsize(es) <= ser_elems(es).len() + 1,
    decreases lsize(es),
{
    if es.len() == 0 {
    } else {
        lemma_jsize_le(es[0]);
        lemma_lsize_le(es.subrange(1, es.len() as int));
    }
}

proof fn lemma_msize_le(ms: Seq<(Seq<char>, JsonVal)>)
    requires
        wf_members(ms),
    ensures
        msize(ms) <= ser_members(ms).len() + 1,
    decreases msize(ms),
{
    if ms.len() == 0 {
    } else {
        lemma_jsize_le(ms[0].1);
        lemma_msize_le(ms.subrange(1, ms.len() as int));
    }
}

/// One character of the prefix `a` of the suffix of `s` at `pos`.
proof fn lemma_at(s: Seq<char>, pos: int, a: Seq<char>, b: Seq<char>, k: int)
    requires
        0 <= pos <= s.len(),
        s.subrange(pos, s.len() as int) == a + b,
        0 <= k < a.len(),
    ensures
        s[pos + k] == a[k],
{
    assert((a + b).len() == a.len() + b.len());
    assert(s.subrange(pos, s.len() as int).len() == s.len() - pos);
    assert((a + b)[k] == a[k]);
    assert(s.subrange(pos, s.len() as int)[k] == s[pos + k]);
}

/// Dropping the prefix `a` from the suffix of `s` at `pos` leaves `b`.
proof fn lemma_shift(s: Seq<char>, pos: int, a: Seq<char>, b: Seq<char>)
    requires
        0 <= pos <= s.len(),
        s.subrange(pos, s.len() as int) == a + b,
    ensures
        0 <= pos + a.len() <= s.len(),
        s.subrange(pos + a.len(), s.len() as int) == b,
    decreases 0int,
{
    let suf = s.subrange(pos, s.len() as int);
    assert((a + b).len() == a.len() + b.len());
    assert(suf.len() == a.len() + b.len());
    let d = a.len() as int;
    assert forall|i: int| 0 <= i < b.len() implies s.subrange(pos + d, s.len() as int)[i] == b[i] by {
        assert((a + b)[d + i] == b[i]);
        assert(suf[d + i] == s[pos + (d + i)]);
        assert(s.subrange(pos + d, s.len() as int)[i] == s[pos + d + i]);
    }
    assert(s.subrange(pos + d, s.len() as int) =~= b);
}

/// Parsing a string body that was produced by escaping recovers the string.
proof fn lemma_rt_string(sc: Seq<char>, s: Seq<char>, pos: int, rest: Seq<char>)
    requires
        0 <= pos <= s.len(),
        s.subrange(pos, s.len() as int) == esc(sc) + (seq!['"'] + rest),
    ensures
        parse_str_chars(s, pos) == Some((sc, pos + esc(sc).len() + 1)),
    decreases sc.len(),
{
    if sc.len() == 0 {
        assert(esc(sc) =~= Seq::<char>::empty());
        assert(sc =~= Seq::<char>::empty());
        assert(esc(sc) + (seq!['"'] + rest) =~= (seq!['"'] + rest) + Seq::<char>::empty());
        assert(s.subrange(pos, s.len() as int) == (seq!['"'] + rest) + Seq::<char>::empty());
        lemma_at(s, pos, seq!['"'] + rest, Seq::empty(), 0);
        assert((seq!['"'] + rest)[0] == '"');
        assert(s[pos] == '"');
    } else {
        let c = sc[0];
        let sc2 = sc.subrange(1, sc.len() as int);
        let ec = esc_char(c);
        assert(esc(sc) == ec + esc(sc2));
        let tail = esc(sc2) + (seq!['"'] + rest);
        assert(esc(sc) + (seq!['"'] + rest) =~= ec + tail);
        assert(s.subrange(pos, s.len() as int) == ec + tail);
        let d = ec.len() as int;
        lemma_shift(s, pos, ec, tail);
        lemma_rt_string(sc2, s, pos + d, rest);
        assert(seq![c] + sc2 =~= sc);
        if c == '"' {
            lemma_at(s, pos, ec, tail, 0);
            lemma_at(s, pos, ec, tail, 1);
            assert(ec[0] == '\\' && ec[1] == '"');
            assert(esc_short('"') == Some('"'));
        } else if c == '\\' {
            lemma_at(s, pos, ec, tail, 0);
            lemma_at(s, pos, ec, tail, 1);
            assert(ec[0] == '\\' && ec[1] == '\\');
        } else if (c as u32) < 32 {
            let n1 = (c as u32 / 16) as nat;
            let n2 = (c as u32 % 16) as nat;
            lemma_at(s, pos, ec, tail, 0);
            lemma_at(s, pos, ec, tail, 1);
            lemma_at(s, pos, ec, tail, 2);
            lemma_at(s, pos, ec, tail, 3);
            lemma_at(s, pos, ec, tail, 4);
            lemma_at(s, pos, ec, tail, 5);
            assert(s[pos] == '\\' && s[pos + 1] == 'u' && s[pos + 2] == '0' && s[pos + 3] == '0');
            assert(s[pos + 4] == hex_char(n1) && s[pos + 5] == hex_char(n2));
            assert(is_hex(hex_char(n1)) && hex_val(hex_char(n1)) == n1);
            assert(is_hex(hex_char(n2)) && hex_val(hex_char(n2)) == n2);
            assert(is_hex('0') && hex_val('0') == 0);
            let code = (hex_val(s[pos + 2]) * 4096 + hex_val(s[pos + 3]) * 256 + hex_val(
                s[pos + 4],
            ) * 16 + hex_val(s[pos + 5])) as u32;
            assert(code == c as u32);
            assert(scalar_ok(code));
            assert(exists|c2: char| cval(c2) == code) by {
                assert(cval(c) == code);
            }
            assert(cval(uchar(code)) == code);
            lemma_char_injective(uchar(code), c);
            assert(seq![uchar(code)] + sc2 =~= sc);
        } else {
            lemma_at(s, pos, ec, tail, 0);
            assert(ec[0] == c);
            assert(s[pos] == c);
        }
    }
}

/// The serialization of a well-formed value is nonempty and starts with a
/// character that is no whitespace, comma or closing bracket.
proof fn lemma_ser_first(j: JsonVal)
    requires
        wf_json(j),
    ensures
        ser(j).len() > 0,
        !is_ws(ser(j)[0]),
        ser(j)[0] != ']',
        ser(j)[0] != '}',
        ser(j)[0] != ',',
{
    match j {
        JsonVal::Null => {
            assert(ser(j)[0] == 'n');
        },
        JsonVal::Bool(b) => {
            assert(ser(j)[0] == (if b { 't' } else { 'f' }));
        },
        JsonVal::Num(t) => {
            let p0: int = if t.len() > 0 && t[0] == '-' { 1 } else { 0 };
            lemma_digits_run_le(t, p0);
            if p0 == 0 {
                lemma_digits_run_chars(t, 0, 0);
            }
        },
        JsonVal::Str(sc) => {
            assert(ser(j)[0] == '"');
        },
        JsonVal::Arr(es) => {
            assert(ser(j)[0] == '[');
        },
        JsonVal::Obj(ms) => {
            assert(ser(j)[0] == '{');
        },
    }
}

/// The serialization of a well-formed value parses back to that value,
/// whatever follows it, as long as what follows cannot extend a number.
proof fn lemma_rt_value(j: JsonVal, s: Seq<char>, pos: int, rest: Seq<char>, fuel: nat)
    requires
        wf_json(j),
        0 <= pos <= s.len(),
        s.subrange(pos, s.len() as int) == ser(j) + rest,
        rest.len() > 0 ==> !is_num_char(rest[0]),
        fuel >= jsize(j),
    ensures
        parse_value(s, pos, fuel) == Some((j, pos + ser(j).len())),
    decreases jsize(j), 1int,
{
    match j {
        JsonVal::Null => {
            lemma_rt_value_lit(j, s, pos, rest, fuel);
        },
        JsonVal::Bool(b) => {
            lemma_rt_value_lit(j, s, pos, rest, fuel);
        },
        JsonVal::Str(sc) => {
            lemma_rt_value_str(j, s, pos, rest, fuel);
        },
        JsonVal::Num(t) => {
            lemma_rt_value_num(j, s, pos, rest, fuel);
        },
        JsonVal::Arr(es) => {
            lemma_rt_value_arr(j, s, pos, rest, fuel);
        },
        JsonVal::Obj(ms) => {
            lemma_rt_value_obj(j, s, pos, rest, fuel);
        },
    }
}

proof fn lemma_rt_value_lit(j: JsonVal, s: Seq<char>, pos: int, rest: Seq<char>, fuel: nat)
    requires
        wf_json(j),
        j is Null || j is Bool,
        0 <= pos <= s.len(),
        s.subrange(pos, s.len() as int) == ser(j) + rest,
        fuel >= jsize(j),
    ensures
        parse_value(s, pos, fuel) == Some((j, pos + ser(j).len())),
    decreases jsize(j), 0int,
{
    lemma_ser_first(j);
    assert((ser(j) + rest).len() == ser(j).len() + rest.len());
    assert(s.subrange(pos, s.len() as int).len() == s.len() - pos);
    assert(pos + ser(j).len() + rest.len() == s.len());
    lemma_at(s, pos, ser(j), rest, 0);
    assert(skip_ws(s, pos) == pos);
    lemma_at(s, pos, ser(j), rest, 1);
    lemma_at(s, pos, ser(j), rest, 2);
    lemma_at(s, pos, ser(j), rest, 3);
    match j {
        JsonVal::Null => {
            assert(parse_value(s, pos, fuel) == Some((JsonVal::Null, pos + 4)));
        },
        JsonVal::Bool(b) => {
            if !b {
                lemma_at(s, pos, ser(j), rest, 4);
            }
            assert(parse_value(s, pos, fuel) == Some((JsonVal::Bool(b), pos + ser(j).len())));
        },
        _ => {},
    }
}

proof fn lemma_rt_value_str(j: JsonVal, s: Seq<char>, pos: int, rest: Seq<char>, fuel: nat)
    requires
        wf_json(j),
        j is Str,
        0 <= pos <= s.len(),
        s.subrange(pos, s.len() as int) == ser(j) + rest,
        fuel >= jsize(j),
    ensures
        parse_value(s, pos, fuel) == Some((j, pos + ser(j).len())),
    decreases jsize(j), 0int,
{
    lemma_ser_first(j);
    assert((ser(j) + rest).len() == ser(j).len() + rest.len());
    assert(s.subrange(pos, s.len() as int).len() == s.len() - pos);
    lemma_at(s, pos, ser(j), rest, 0);
    assert(skip_ws(s, pos) == pos);
    match j {
        JsonVal::Str(sc) => {
            assert(s[pos] == '"');
            let tail = esc(sc) + (seq!['"'] + rest);
            assert(ser(j) + rest =~= seq!['"'] + tail);
            assert(s.subrange(pos, s.len() as int) == seq!['"'] + tail);
            lemma_shift(s, pos, seq!['"'], tail);
            lemma_rt_string(sc, s, pos + 1, rest);
            assert(ser(j).len() == esc(sc).len() + 2);
            assert(parse_value(s, pos, fuel) == Some((JsonVal::Str(sc), pos + ser(j).len())));
        },
        _ => {},
    }
}

proof fn lemma_rt_value_num(j: JsonVal, s: Seq<char>, pos: int, rest: Seq<char>, fuel: nat)
    requires
        wf_json(j),
        j is Num,
        0 <= pos <= s.len(),
        s.subrange(pos, s.len() as int) == ser(j) + rest,
        rest.len() > 0 ==> !is_num_char(rest[0]),
        fuel >= jsize(j),
    ensures
        parse_value(s, pos, fuel) == Some((j, pos + ser(j).len())),
    decreases jsize(j), 0int,
{
    lemma_ser_first(j);
    assert((ser(j) + rest).len() == ser(j).len() + rest.len());
    assert(s.subrange(pos, s.len() as int).len() == s.len() - pos);
    lemma_at(s, pos, ser(j), rest, 0);
    assert(skip_ws(s, pos) == pos);
    match j {
        JsonVal::Num(t) => {
            assert forall|k: int| 0 <= k < t.len() implies is_num_char(#[trigger] s[pos + k]) by {
                lemma_num_token_chars(t, k);
                lemma_at(s, pos, t, rest, k);
            }
            assert(pos + t.len() == s.len() || !is_num_char(s[pos + t.len()])) by {
                lemma_shift(s, pos, t, rest);
                if rest.len() > 0 {
                    assert(s.subrange(pos + t.len(), s.len() as int)[0] == s[pos + t.len() + 0]);
                }
            }
            lemma_num_run_exact(s, pos, t.len() as int);
            assert(num_run(s, pos) == pos + t.len());
            assert(s.subrange(pos, pos + t.len()) =~= t) by {
                assert forall|k: int| 0 <= k < t.len() implies s.subrange(pos, pos + t.len())[k]
                    == t[k] by {
                    lemma_at(s, pos, t, rest, k);
                    assert(s.subrange(pos, pos + t.len())[k] == s[pos + k]);
                }
            }
            assert(parse_value(s, pos, fuel) == Some((JsonVal::Num(t), pos + t.len())));
        },
        _ => {},
    }
}

proof fn lemma_rt_value_arr(j: JsonVal, s: Seq<char>, pos: int, rest: Seq<char>, fuel: nat)
    requires
        wf_json(j),
        j is Arr,
        0 <= pos <= s.len(),
        s.subrange(pos, s.len() as int) == ser(j) + rest,
        fuel >= jsize(j),
    ensures
        parse_value(s, pos, fuel) == Some((j, pos + ser(j).len())),
    decreases jsize(j), 0int,
{
    lemma_ser_first(j);
    assert((ser(j) + rest).len() == ser(j).len() + rest.len());
    assert(s.subrange(pos, s.len() as int).len() == s.len() - pos);
    lemma_at(s, pos, ser(j), rest, 0);
    assert(skip_ws(s, pos) == pos);
    match j {
        JsonVal::Arr(es) => {
            assert(s[pos] == '[');
            if es.len() == 0 {
                assert(es =~= Seq::<JsonVal>::empty());
                assert(ser_elems(es) =~= Seq::<char>::empty());
                assert(ser(j) =~= seq!['[', ']']);
                lemma_at(s, pos, ser(j), rest, 1);
                assert(s[pos + 1] == ']');
                assert(skip_ws(s, pos + 1) == pos + 1);
                assert(ser(j).len() == 2);
                assert(parse_value(s, pos, fuel) == Some((JsonVal::Arr(es), pos + 2)));
            } else {
                let tail = ser_elems(es) + (seq![']'] + rest);
                assert(ser(j) + rest =~= seq!['['] + tail);
                assert(s.subrange(pos, s.len() as int) == seq!['['] + tail);
                lemma_shift(s, pos, seq!['['], tail);
                assert(wf_elems(es));
                lemma_rt_elems(es, s, pos + 1, rest, (fuel - 1) as nat);
                lemma_ser_first(es[0]);
                assert(ser_elems(es)[0] == ser(es[0])[0]);
                lemma_at(s, pos + 1, ser_elems(es), seq![']'] + rest, 0);
                assert(skip_ws(s, pos + 1) == pos + 1);
                assert(ser(j).len() == ser_elems(es).len() + 2);
                assert(parse_value(s, pos, fuel) == Some((JsonVal::Arr(es), pos + ser(j).len())));
            }
        },
        _ => {},
    }
}

proof fn lemma_rt_value_obj(j: JsonVal, s: Seq<char>, pos: int, rest: Seq<char>, fuel: nat)
    requires
        wf_json(j),
        j is Obj,
        0 <= pos <= s.len(),
        s.subrange(pos, s.len() as int) == ser(j) + rest,
        fuel >= jsize(j),
    ensures
        parse_value(s, pos, fuel) == Some((j, pos + ser(j).len())),
    decreases jsize(j), 0int,
{
    lemma_ser_first(j);
    assert((ser(j) + rest).len() == ser(j).len() + rest.len());
    assert(s.subrange(pos, s.len() as int).len() == s.len() - pos);
    lemma_at(s, pos, ser(j), rest, 0);
    assert(skip_ws(s, pos) == pos);
    match j {
        JsonVal::Obj(ms) => {
            assert(s[pos] == '{');
            if ms.len() == 0 {
                assert(ms =~= Seq::<(Seq<char>, JsonVal)>::empty());
                assert(ser_members(ms) =~= Seq::<char>::empty());
                assert(ser(j) =~= seq!['{', '}']);
                lemma_at(s, pos, ser(j), rest, 1);
                assert(s[pos + 1] == '}');
                assert(skip_ws(s, pos + 1) == pos + 1);
                assert(ser(j).len() == 2);
                assert(parse_value(s, pos, fuel) == Some((JsonVal::Obj(ms), pos + 2)));
            } else {
                let tail = ser_members(ms) + (seq!['}'] + rest);
                assert(ser(j) + rest =~= seq!['{'] + tail);
                assert(s.subrange(pos, s.len() as int) == seq!['{'] + tail);
                lemma_shift(s, pos, seq!['{'], tail);
                assert(wf_members(ms));
                lemma_rt_members(ms, s, pos + 1, rest, (fuel - 1) as nat);
                assert(ser_members(ms)[0] == '"');
                lemma_at(s, pos + 1, ser_members(ms), seq!['}'] + rest, 0);
                assert(skip_ws(s, pos + 1) == pos + 1);
                assert(ser(j).len() == ser_members(ms).len() + 2);
                assert(parse_value(s, pos, fuel) == Some((JsonVal::Obj(ms), pos + ser(j).len())));
            }
        },
        _ => {},
    }
}

/// Elements followed by `]` parse back to the element sequence.
#[verifier::rlimit(100)]
proof fn lemma_rt_elems(es: Seq<JsonVal>, s: Seq<char>, pos: int, rest: Seq<char>, fuel: nat)
    requires
        es.len() > 0,
        wf_elems(es),
        0 <= pos <= s.len(),
        s.subrange(pos, s.len() as int) == ser_elems(es) + (seq![']'] + rest),
        fuel >= lsize(es),
    ensures
        parse_elems(s, pos, fuel) == Some((es, pos + ser_elems(es).len() + 1)),
    decreases lsize(es), 1int,
{
    assert((ser_elems(es) + (seq![']'] + rest)).len() == ser_elems(es).len() + 1 + rest.len());
    assert(s.subrange(pos, s.len() as int).len() == s.len() - pos);
    let v = es[0];
    let d = ser(v).len() as int;
    if es.len() == 1 {
        assert(ser_elems(es) == ser(v));
        assert(ser_elems(es) + (seq![']'] + rest) =~= ser(v) + (seq![']'] + rest));
        lemma_rt_value(v, s, pos, seq![']'] + rest, fuel);
        lemma_shift(s, pos, ser(v), seq![']'] + rest);
        assert(s.subrange(pos + d, s.len() as int)[0] == s[pos + d + 0]);
        assert(s[pos + d] == ']');
        assert(skip_ws(s, pos + d) == pos + d);
        assert(seq![v] =~= es);
    } else {
        let es2 = es.subrange(1, es.len() as int);
        assert(ser_elems(es) == ser(v) + seq![','] + ser_elems(es2));
        let tail = seq![','] + (ser_elems(es2) + (seq![']'] + rest));
        assert(ser_elems(es) + (seq![']'] + rest) =~= ser(v) + tail);
        assert(s.subrange(pos, s.len() as int) == ser(v) + tail);
        lemma_rt_value(v, s, pos, tail, fuel);
        lemma_shift(s, pos, ser(v), tail);
        lemma_at(s, pos + d, tail, Seq::empty(), 0);
        assert(tail + Seq::<char>::empty() =~= tail);
        assert(s.subrange(pos + d, s.len() as int) == tail + Seq::<char>::empty());
        assert(s[pos + d] == ',');
        assert(skip_ws(s, pos + d) == pos + d);
        assert(s.subrange(pos + d, s.len() as int) == tail);
        lemma_shift(s, pos + d, seq![','], ser_elems(es2) + (seq![']'] + rest));
        assert(wf_elems(es2));
        lemma_rt_elems(es2, s, pos + d + 1, rest, (fuel - 1) as nat);
        assert(seq![v] + es2 =~= es);
        assert(pos + d + 1 + ser_elems(es2).len() + 1 == pos + ser_elems(es).len() + 1);
    }
}

/// Members followed by `}` parse back to the member sequence.
#[verifier::rlimit(100)]
proof fn lemma_rt_members(
    ms: Seq<(Seq<char>, JsonVal)>,
    s: Seq<char>,
    pos: int,
    rest: Seq<char>,
    fuel: nat,
)
    requires
        ms.len() > 0,
        wf_members(ms),
        0 <= pos <= s.len(),
        s.subrange(pos, s.len() as int) == ser_members(ms) + (seq!['}'] + rest),
        fuel >= msize(ms),
    ensures
        parse_members(s, pos, fuel) == Some((ms, pos + ser_members(ms).len() + 1)),
    decreases msize(ms), 1int,
{
    assert((ser_members(ms) + (seq!['}'] + rest)).len() == ser_members(ms).len() + 1 + rest.len());
    assert(s.subrange(pos, s.len() as int).len() == s.len() - pos);
    let key = ms[0].0;
    let v = ms[0].1;
    let dk = esc(key).len() as int;
    let single = ms.len() == 1;
    let after: Seq<char> = if single { seq!['}'] + rest } else {
        seq![','] + (ser_members(ms.subrange(1, ms.len() as int)) + (seq!['}'] + rest))
    };
    let vtail = ser(v) + after;
    let ktail = seq![':'] + vtail;
    let stail = esc(key) + (seq!['"'] + ktail);
    if single {
        assert(ser_members(ms) == seq!['"'] + esc(key) + seq!['"', ':'] + ser(v));
        assert(ser_members(ms) + (seq!['}'] + rest) =~= seq!['"'] + stail);
    } else {
        let ms2 = ms.subrange(1, ms.len() as int);
        assert(ser_members(ms) == seq!['"'] + esc(key) + seq!['"', ':'] + ser(v) + seq![',']
            + ser_members(ms2));
        assert(ser_members(ms) + (seq!['}'] + rest) =~= seq!['"'] + stail);
    }
    assert(s.subrange(pos, s.len() as int) == seq!['"'] + stail);
    lemma_at(s, pos, seq!['"'], stail, 0);
    assert(s[pos] == '"');
    assert(skip_ws(s, pos) == pos);
    lemma_shift(s, pos, seq!['"'], stail);
    lemma_rt_string(key, s, pos + 1, ktail);
    let pk = pos + 1 + dk + 1;
    lemma_shift(s, pos + 1, esc(key), seq!['"'] + ktail);
    lemma_shift(s, pos + 1 + dk, seq!['"'], ktail);
    lemma_at(s, pk, seq![':'], vtail, 0);
    assert(s[pk] == ':');
    assert(skip_ws(s, pk) == pk);
    lemma_shift(s, pk, seq![':'], vtail);
    assert(rest_head_ok(after)) by {
        if single {
            assert(after[0] == (seq!['}'] + rest)[0]);
            assert(after[0] == '}');
        } else {
            assert(after[0] == ',');
        }
    }
    lemma_rt_value(v, s, pk + 1, after, fuel);
    let pv = pk + 1 + ser(v).len();
    lemma_shift(s, pk + 1, ser(v), after);
    lemma_at(s, pv, after, Seq::empty(), 0);
    assert(after + Seq::<char>::empty() =~= after);
    assert(s.subrange(pv, s.len() as int) == after + Seq::<char>::empty());
    if single {
        assert(s[pv] == '}');
        assert(skip_ws(s, pv) == pv);
        assert(seq![(key, v)] =~= ms);
        assert(pv + 1 == pos + ser_members(ms).len() + 1);
    } else {
        let ms2 = ms.subrange(1, ms.len() as int);
        assert(s[pv] == ',');
        assert(skip_ws(s, pv) == pv);
        assert(s.subrange(pv, s.len() as int) == after);
        lemma_shift(s, pv, seq![','], ser_members(ms2) + (seq!['}'] + rest));
        assert(wf_members(ms2));
        lemma_rt_members(ms2, s, pv + 1, rest, (fuel - 1) as nat);
        assert(seq![(key, v)] + ms2 =~= ms);
        assert(pv + 1 + ser_members(ms2).len() + 1 == pos + ser_members(ms).len() + 1);
    }
}

/// Whether a following sequence cannot extend a number token.
pub open spec fn rest_head_ok(rest: Seq<char>) -> bool {
    rest.len() > 0 ==> !is_num_char(rest[0])
}

/// Round trip: parsing the canonical serialization of any well-formed JSON
/// value yields exactly that value.
pub proof fn lemma_parse_ser(j: JsonVal)
    requires
        wf_json(j),
    ensures
        parse_json(ser(j)) == Some(j),
{
    let s = ser(j);
    assert(s.subrange(0, s.len() as int) =~= ser(j) + Seq::<char>::empty());
    lemma_jsize_le(j);
    lemma_rt_value(j, s, 0, Seq::empty(), s.len() + 1);
    assert(skip_ws(s, s.len() as int) == s.len());
}

/// Read a whole JSON document from `s`.
pub fn parse_json_x(s: &Vec<char>) -> (r: Option<Json>)
    ensures
        (r matches Some(j) ==> parse_json(s@) == Some(jmodel(j)) && wf_json(jmodel(j))),
        r is None ==> parse_json(s@) is None,
{
    match parse_value_x(s, 0, Ghost(s@.len() + 1)) {
        None => None,
        Some(t) => {
            let (j, p) = t;
            let p2 = skip_ws_x(s, p);
            if p2 == s.len() {
                Some(j)
            } else {
                None
            }
        },
    }
}

} // verus!
