//! A small JSON codec for the wire protocol.
//!
//! Requests and responses travel as JSON objects whose members are
//! strings; the daemon also renders snapshots as JSON.  This module
//! holds the canonical grammar: string escaping, string-valued object
//! members, and their parsers.  Encoders always emit the canonical
//! form; parsers read that grammar plus JSON's short string escapes,
//! and a round trip through the two is proved lossless.

use vstd::prelude::*;

verus! {

pub open spec fn is_control(c: char) -> bool {
    (c as u32) < 32
}

pub open spec fn hex_char(d: int) -> char {
    if d < 10 {
        crate::text::digit_char(d)
    } else if d == 10 {
        'a'
    } else if d == 11 {
        'b'
    } else if d == 12 {
        'c'
    } else if d == 13 {
        'd'
    } else if d == 14 {
        'e'
    } else {
        'f'
    }
}

pub open spec fn is_hex(c: char) -> bool {
    crate::text::is_digit(c) || ('a' as u32 <= c as u32 <= 'f' as u32)
}

pub open spec fn hex_val(c: char) -> int {
    if crate::text::is_digit(c) {
        crate::text::digit_val(c)
    } else {
        c as u32 - 'a' as u32 + 10
    }
}

/// How one character appears inside a JSON string literal: quotes and
/// backslashes carry a backslash, control characters become `\u00XX`
/// with lowercase hex, everything else stands for itself.
pub open spec fn esc_char(c: char) -> Seq<char> {
    if c == '"' {
        seq!['\\', '"']
    } else if c == '\\' {
        seq!['\\', '\\']
    } else if is_control(c) {
        seq!['\\', 'u', '0', '0', hex_char((c as u32) as int / 16), hex_char((c as u32) as int % 16)]
    } else {
        seq![c]
    }
}

/// A whole character sequence escaped for a JSON string literal.
pub open spec fn esc(s: Seq<char>) -> Seq<char>
    decreases s.len(),
{
    if s.len() == 0 {
        Seq::empty()
    } else {
        esc_char(s[0]) + esc(s.drop_first())
    }
}

/// A JSON string literal: quote, escaped content, quote.
pub open spec fn jstr(s: Seq<char>) -> Seq<char> {
    seq!['"'] + esc(s) + seq!['"']
}

/// One `"key":"value"` member.
pub open spec fn enc_pair(p: (Seq<char>, Seq<char>)) -> Seq<char> {
    jstr(p.0) + seq![':'] + jstr(p.1)
}

/// Comma-separated members, in order.
pub open spec fn enc_pairs(a: Seq<(Seq<char>, Seq<char>)>) -> Seq<char>
    decreases a.len(),
{
    if a.len() == 0 {
        Seq::empty()
    } else if a.len() == 1 {
        enc_pair(a[0])
    } else {
        enc_pair(a[0]) + seq![','] + enc_pairs(a.drop_first())
    }
}

/// An object of string members.
pub open spec fn enc_obj(a: Seq<(Seq<char>, Seq<char>)>) -> Seq<char> {
    seq!['{'] + enc_pairs(a) + seq!['}']
}

pub proof fn lemma_esc_snoc(s: Seq<char>, c: char)
    ensures
        esc(s.push(c)) == esc(s) + esc_char(c),
    decreases s.len(),
{
    if s.len() == 0 {
        assert(s.push(c)[0] == c);
        assert(s.push(c).drop_first() =~= Seq::<char>::empty());
        assert(esc(s.push(c).drop_first()) == Seq::<char>::empty());
        assert(esc(s.push(c)) =~= esc_char(c));
        assert(esc(s) + esc_char(c) =~= esc_char(c));
    } else {
        assert(s.push(c).drop_first() =~= s.drop_first().push(c));
        lemma_esc_snoc(s.drop_first(), c);
        assert(s.push(c)[0] == s[0]);
        assert(esc(s.push(c)) =~= esc_char(s[0]) + (esc(s.drop_first()) + esc_char(c)));
        assert(esc_char(s[0]) + (esc(s.drop_first()) + esc_char(c)) =~= (esc_char(s[0]) + esc(
            s.drop_first(),
        )) + esc_char(c));
    }
}

pub proof fn lemma_enc_pairs_snoc(a: Seq<(Seq<char>, Seq<char>)>, p: (Seq<char>, Seq<char>))
    ensures
        a.len() == 0 ==> enc_pairs(a.push(p)) == enc_pair(p),
        a.len() > 0 ==> enc_pairs(a.push(p)) == enc_pairs(a) + seq![','] + enc_pair(p),
    decreases a.len(),
{
    if a.len() == 0 {
        assert(a.push(p)[0] == p);
        assert(enc_pairs(a.push(p)) =~= enc_pair(p));
    } else {
        assert(a.push(p).drop_first() =~= a.drop_first().push(p));
        lemma_enc_pairs_snoc(a.drop_first(), p);
        assert(a.push(p)[0] == a[0]);
        if a.len() == 1 {
            assert(enc_pairs(a.push(p)) =~= enc_pair(a[0]) + seq![','] + enc_pair(p));
            assert(enc_pairs(a) == enc_pair(a[0]));
        } else {
            assert(enc_pairs(a.push(p)) =~= enc_pair(a[0]) + seq![','] + (enc_pairs(
                a.drop_first(),
            ) + seq![','] + enc_pair(p)));
            assert(enc_pair(a[0]) + seq![','] + (enc_pairs(a.drop_first()) + seq![','] + enc_pair(
                p,
            )) =~= (enc_pair(a[0]) + seq![','] + enc_pairs(a.drop_first())) + seq![','] + enc_pair(
                p,
            ));
        }
    }
}

// ---------------------------------------------------------------------
// Parsing
// ---------------------------------------------------------------------

/// JSON's named short escapes, beyond quote, backslash and solidus.
pub open spec fn is_short_escape(c: char) -> bool {
    c == 'b' || c == 'f' || c == 'n' || c == 'r' || c == 't'
}

/// The character a named short escape stands for.
pub open spec fn short_escape_char(c: char) -> char {
    if c == 'b' {
        (8 as u8) as char
    } else if c == 'f' {
        (12 as u8) as char
    } else if c == 'n' {
        '\n'
    } else if c == 'r' {
        '\r'
    } else {
        '\t'
    }
}

/// Parse escaped string content up to an unescaped closing quote.
/// Yields the unescaped content and the input past the quote.  Beyond
/// the canonical escapes the encoder emits, JSON's short escapes are
/// accepted too.
pub open spec fn parse_esc(v: Seq<char>) -> Option<(Seq<char>, Seq<char>)>
    decreases v.len(),
{
    if v.len() == 0 {
        None
    } else if v[0] == '"' {
        Some((Seq::empty(), v.drop_first()))
    } else if v[0] == '\\' {
        if v.len() >= 2 && (v[1] == '"' || v[1] == '\\' || v[1] == '/') {
            match parse_esc(v.skip(2)) {
                Some((s, r)) => Some((seq![v[1]] + s, r)),
                None => None,
            }
        } else if v.len() >= 2 && is_short_escape(v[1]) {
            match parse_esc(v.skip(2)) {
                Some((s, r)) => Some((seq![short_escape_char(v[1])] + s, r)),
                None => None,
            }
        } else if v.len() >= 6 && v[1] == 'u' && v[2] == '0' && v[3] == '0' && is_hex(v[4])
            && is_hex(v[5]) {
            match parse_esc(v.skip(6)) {
                Some((s, r)) => Some(
                    (seq![((hex_val(v[4]) * 16 + hex_val(v[5])) as u8) as char] + s, r),
                ),
                None => None,
            }
        } else {
            None
        }
    } else {
        match parse_esc(v.drop_first()) {
            Some((s, r)) => Some((seq![v[0]] + s, r)),
            None => None,
        }
    }
}

/// Parse a JSON string literal: a quote, then escaped content.
pub open spec fn parse_jstr(v: Seq<char>) -> Option<(Seq<char>, Seq<char>)> {
    if v.len() > 0 && v[0] == '"' {
        parse_esc(v.drop_first())
    } else {
        None
    }
}

/// A parsed string literal leaves a strictly shorter rest.
pub proof fn lemma_parse_esc_len(v: Seq<char>)
    ensures
        parse_esc(v) matches Some(sr) ==> sr.1.len() < v.len(),
    decreases v.len(),
{
    if v.len() == 0 {
    } else if v[0] == '"' {
    } else if v[0] == '\\' {
        if v.len() >= 2 && (v[1] == '"' || v[1] == '\\' || v[1] == '/') {
            lemma_parse_esc_len(v.skip(2));
        } else if v.len() >= 2 && is_short_escape(v[1]) {
            lemma_parse_esc_len(v.skip(2));
        } else if v.len() >= 6 && v[1] == 'u' && v[2] == '0' && v[3] == '0' && is_hex(v[4])
            && is_hex(v[5]) {
            lemma_parse_esc_len(v.skip(6));
        }
    } else {
        lemma_parse_esc_len(v.drop_first());
    }
}

pub proof fn lemma_parse_jstr_len(v: Seq<char>)
    ensures
        parse_jstr(v) matches Some(sr) ==> sr.1.len() < v.len() - 1,
{
    if v.len() > 0 && v[0] == '"' {
        lemma_parse_esc_len(v.drop_first());
    }
}

/// Parse `"k":"v"` members separated by commas, up to and including the
/// closing brace.
pub open spec fn parse_pairs(v: Seq<char>) -> Option<
    (Seq<(Seq<char>, Seq<char>)>, Seq<char>),
>
    decreases v.len(),
        via parse_pairs_dec
{
    match parse_jstr(v) {
        None => None,
        Some((k, r1)) => if r1.len() > 0 && r1[0] == ':' {
            match parse_jstr(r1.drop_first()) {
                None => None,
                Some((val, r2)) => if r2.len() > 0 && r2[0] == ',' {
                    match parse_pairs(r2.drop_first()) {
                        Some((rest, r3)) => Some((seq![(k, val)] + rest, r3)),
                        None => None,
                    }
                } else if r2.len() > 0 && r2[0] == '}' {
                    Some((seq![(k, val)], r2.drop_first()))
                } else {
                    None
                },
            }
        } else {
            None
        },
    }
}

#[via_fn]
proof fn parse_pairs_dec(v: Seq<char>) {
    lemma_parse_jstr_len(v);
    if let Some((k, r1)) = parse_jstr(v) {
        if r1.len() > 0 && r1[0] == ':' {
            lemma_parse_jstr_len(r1.drop_first());
        }
    }
}

/// Parse an object of string members, including both braces.
pub open spec fn parse_obj(v: Seq<char>) -> Option<(Seq<(Seq<char>, Seq<char>)>, Seq<char>)> {
    if v.len() >= 2 && v[0] == '{' && v[1] == '}' {
        Some((Seq::empty(), v.skip(2)))
    } else if v.len() > 0 && v[0] == '{' {
        parse_pairs(v.drop_first())
    } else {
        None
    }
}

// ---------------------------------------------------------------------
// Round trips
// ---------------------------------------------------------------------

pub proof fn lemma_hex_rt(d: int)
    requires
        0 <= d < 16,
    ensures
        is_hex(hex_char(d)),
        hex_val(hex_char(d)) == d,
{
}

/// Parsing escaped content recovers the original characters and leaves
/// exactly what follows the closing quote.
pub proof fn lemma_parse_esc_rt(s: Seq<char>, rest: Seq<char>)
    ensures
        parse_esc(esc(s) + seq!['"'] + rest) == Some((s, rest)),
    decreases s.len(),
{
    let w = esc(s) + seq!['"'] + rest;
    if s.len() == 0 {
        assert(w[0] == '"');
        assert(w.drop_first() =~= rest);
        assert(s =~= Seq::<char>::empty());
    } else {
        let c = s[0];
        let s2 = s.drop_first();
        lemma_parse_esc_rt(s2, rest);
        let w2 = esc(s2) + seq!['"'] + rest;
        assert(esc(s) == esc_char(c) + esc(s2));
        if c == '"' {
            assert(w =~= seq!['\\', '"'] + w2);
            assert(w[0] == '\\' && w[1] == '"');
            assert(w.skip(2) =~= w2);
            assert(seq![w[1]] + s2 =~= s);
        } else if c == '\\' {
            assert(w =~= seq!['\\', '\\'] + w2);
            assert(w[0] == '\\' && w[1] == '\\');
            assert(w.skip(2) =~= w2);
            assert(seq![w[1]] + s2 =~= s);
        } else if is_control(c) {
            let code = (c as u32) as int;
            lemma_hex_rt(code / 16);
            lemma_hex_rt(code % 16);
            assert(w =~= seq!['\\', 'u', '0', '0', hex_char(code / 16), hex_char(code % 16)] + w2);
            assert(w[0] == '\\' && w[1] == 'u' && w[2] == '0' && w[3] == '0');
            assert(w[4] == hex_char(code / 16) && w[5] == hex_char(code % 16));
            assert(w.skip(6) =~= w2);
            assert(hex_val(w[4]) * 16 + hex_val(w[5]) == code);
            vstd::utf8::char_u32_cast(c, c as u32);
            assert(((code as u8) as char) == c);
            assert(seq![((hex_val(w[4]) * 16 + hex_val(w[5])) as u8) as char] + s2 =~= s);
        } else {
            assert(w =~= seq![c] + w2);
            assert(w[0] == c);
            assert(w[0] != '"' && w[0] != '\\');
            assert(w.drop_first() =~= w2);
            assert(seq![w[0]] + s2 =~= s);
        }
    }
}

/// Parsing a string literal recovers the original content.
pub proof fn lemma_parse_jstr_rt(s: Seq<char>, rest: Seq<char>)
    ensures
        parse_jstr(jstr(s) + rest) == Some((s, rest)),
{
    let w = jstr(s) + rest;
    assert(w[0] == '"');
    assert(w.drop_first() =~= esc(s) + seq!['"'] + rest);
    lemma_parse_esc_rt(s, rest);
}

/// Parsing members up to the closing brace recovers the member list.
#[verifier::rlimit(50)]
pub proof fn lemma_parse_pairs_rt(a: Seq<(Seq<char>, Seq<char>)>, rest: Seq<char>)
    requires
        a.len() >= 1,
    ensures
        parse_pairs(enc_pairs(a) + seq!['}'] + rest) == Some((a, rest)),
    decreases a.len(),
{
    let w = enc_pairs(a) + seq!['}'] + rest;
    let k = a[0].0;
    let val = a[0].1;
    if a.len() == 1 {
        let tail1 = seq![':'] + jstr(val) + seq!['}'] + rest;
        assert(w =~= jstr(k) + tail1);
        lemma_parse_jstr_rt(k, tail1);
        assert(tail1[0] == ':');
        let tail2 = jstr(val) + (seq!['}'] + rest);
        assert(tail1.drop_first() =~= tail2);
        lemma_parse_jstr_rt(val, seq!['}'] + rest);
        let r2 = seq!['}'] + rest;
        assert(r2[0] == '}');
        assert(r2[0] != ',');
        assert(r2.drop_first() =~= rest);
        assert(seq![(k, val)] =~= a);
    } else {
        let a2 = a.drop_first();
        lemma_parse_pairs_rt(a2, rest);
        let tail1 = seq![':'] + jstr(val) + seq![','] + enc_pairs(a2) + seq!['}'] + rest;
        assert(w =~= jstr(k) + tail1);
        lemma_parse_jstr_rt(k, tail1);
        assert(tail1[0] == ':');
        let inner = seq![','] + enc_pairs(a2) + seq!['}'] + rest;
        assert(tail1.drop_first() =~= jstr(val) + inner);
        lemma_parse_jstr_rt(val, inner);
        assert(inner[0] == ',');
        assert(inner.drop_first() =~= enc_pairs(a2) + seq!['}'] + rest);
        assert(seq![(k, val)] + a2 =~= a);
    }
}

/// Parsing an object recovers the member list.
pub proof fn lemma_parse_obj_rt(a: Seq<(Seq<char>, Seq<char>)>, rest: Seq<char>)
    ensures
        parse_obj(enc_obj(a) + rest) == Some((a, rest)),
{
    let w = enc_obj(a) + rest;
    assert(w[0] == '{');
    if a.len() == 0 {
        assert(w[1] == '}');
        assert(w.skip(2) =~= rest);
        assert(a =~= Seq::<(Seq<char>, Seq<char>)>::empty());
    } else {
        assert(enc_pairs(a)[0] == jstr(a[0].0)[0]) by {
            if a.len() == 1 {
            }
        }
        assert(w[1] == '"');
        assert(w.drop_first() =~= enc_pairs(a) + seq!['}'] + rest);
        lemma_parse_pairs_rt(a, rest);
    }
}

// ---------------------------------------------------------------------
// Executable encoders
// ---------------------------------------------------------------------

fn hex_digit_char(d: u32) -> (c: char)
    requires
        d < 16,
    ensures
        c == hex_char(d as int),
{
    match d {
        0 => '0',
        1 => '1',
        2 => '2',
        3 => '3',
        4 => '4',
        5 => '5',
        6 => '6',
        7 => '7',
        8 => '8',
        9 => '9',
        10 => 'a',
        11 => 'b',
        12 => 'c',
        13 => 'd',
        14 => 'e',
        _ => 'f',
    }
}

fn hex_digit_val(c: char) -> (r: Option<u32>)
    ensures
        r matches Some(d) <==> is_hex(c),
        r matches Some(d) ==> d == hex_val(c) && d < 16,
{
    let code = c as u32;
    if 48 <= code && code <= 57 {
        Some(code - 48)
    } else if 97 <= code && code <= 102 {
        Some(code - 97 + 10)
    } else {
        None
    }
}

/// Append the escaped form of `s` to `out`.
pub fn emit_esc(out: &mut Vec<char>, s: &Vec<char>)
    ensures
        final(out)@ == old(out)@ + esc(s@),
{
    let mut i: usize = 0;
    proof {
        assert(s@.take(0) =~= Seq::<char>::empty());
        assert(out@ + esc(s@.take(0)) =~= out@);
    }
    while i < s.len()
        invariant
            i <= s@.len(),
            out@ == old(out)@ + esc(s@.take(i as int)),
        decreases s@.len() - i,
    {
        let c = s[i];
        if c == '"' {
            out.push('\\');
            out.push('"');
        } else if c == '\\' {
            out.push('\\');
            out.push('\\');
        } else if (c as u32) < 32 {
            let code = c as u32;
            out.push('\\');
            out.push('u');
            out.push('0');
            out.push('0');
            out.push(hex_digit_char(code / 16));
            out.push(hex_digit_char(code % 16));
        } else {
            out.push(c);
        }
        proof {
            lemma_esc_snoc(s@.take(i as int), s@[i as int]);
            assert(s@.take(i + 1) =~= s@.take(i as int).push(s@[i as int]));
            assert(out@ =~= old(out)@ + esc(s@.take(i + 1)));
        }
        i += 1;
    }
    assert(s@.take(s@.len() as int) =~= s@);
}

/// Append the JSON string literal for `s` to `out`.
pub fn emit_jstr(out: &mut Vec<char>, s: &Vec<char>)
    ensures
        final(out)@ == old(out)@ + jstr(s@),
{
    out.push('"');
    emit_esc(out, s);
    out.push('"');
    assert(out@ =~= old(out)@ + jstr(s@));
}

// ---------------------------------------------------------------------
// Executable parsers
// ---------------------------------------------------------------------

/// Option result with a prefix prepended to the parsed content.
pub open spec fn prepend_content(p: Seq<char>, o: Option<(Seq<char>, Seq<char>)>) -> Option<
    (Seq<char>, Seq<char>),
> {
    match o {
        Some((s, r)) => Some((p + s, r)),
        None => None,
    }
}

/// Parse escaped string content of `cs` from `i` (just past the opening
/// quote).  On success, the content and the position past the closing
/// quote.
pub fn parse_esc_at(cs: &Vec<char>, i: usize) -> (r: Option<(Vec<char>, usize)>)
    requires
        i <= cs@.len(),
    ensures
        match r {
            Some((s, j)) => i <= j <= cs@.len() && parse_esc(cs@.skip(i as int)) == Some(
                (s@, cs@.skip(j as int)),
            ),
            None => parse_esc(cs@.skip(i as int)) is None,
        },
{
    let mut acc: Vec<char> = Vec::new();
    let mut j: usize = i;
    loop
        invariant
            i <= j <= cs@.len(),
            prepend_content(acc@, parse_esc(cs@.skip(j as int))) == parse_esc(cs@.skip(i as int)),
        decreases cs@.len() - j,
    {
        let ghost v = cs@.skip(j as int);
        if j == cs.len() {
            assert(v.len() == 0);
            return None;
        }
        assert(v[0] == cs@[j as int]);
        let c = cs[j];
        if c == '"' {
            assert(v.drop_first() =~= cs@.skip(j + 1));
            assert(parse_esc(v) == Some((Seq::<char>::empty(), cs@.skip(j + 1))));
            assert(acc@ + Seq::<char>::empty() =~= acc@);
            return Some((acc, j + 1));
        }
        if c == '\\' {
            if j + 1 == cs.len() {
                assert(v.len() == 1);
                assert(parse_esc(v) is None);
                return None;
            }
            assert(v[1] == cs@[j + 1]);
            let c2 = cs[j + 1];
            if c2 == '"' || c2 == '\\' || c2 == '/' {
                assert(v.skip(2) =~= cs@.skip(j + 2));
                proof {
                    assert(parse_esc(v) == prepend_content(
                        seq![v[1]],
                        parse_esc(cs@.skip(j + 2)),
                    ));
                    lemma_prepend_assoc(acc@, seq![v[1]], parse_esc(cs@.skip(j + 2)));
                }
                acc.push(c2);
                j += 2;
            } else if c2 == 'b' || c2 == 'f' || c2 == 'n' || c2 == 'r' || c2 == 't' {
                let ch = match c2 {
                    'b' => (8 as u8) as char,
                    'f' => (12 as u8) as char,
                    'n' => '\n',
                    'r' => '\r',
                    _ => '\t',
                };
                assert(ch == short_escape_char(v[1]));
                assert(v.skip(2) =~= cs@.skip(j + 2));
                proof {
                    assert(parse_esc(v) == prepend_content(
                        seq![short_escape_char(v[1])],
                        parse_esc(cs@.skip(j + 2)),
                    ));
                    lemma_prepend_assoc(acc@, seq![ch], parse_esc(cs@.skip(j + 2)));
                }
                acc.push(ch);
                j += 2;
            } else if c2 == 'u' {
                if cs.len() - j < 6 {
                    assert(v.len() < 6);
                    assert(parse_esc(v) is None);
                    return None;
                }
                assert(v[2] == cs@[j + 2] && v[3] == cs@[j + 3] && v[4] == cs@[j + 4] && v[5]
                    == cs@[j + 5]);
                if !(cs[j + 2] == '0' && cs[j + 3] == '0') {
                    assert(parse_esc(v) is None);
                    return None;
                }
                let h1 = match hex_digit_val(cs[j + 4]) {
                    Some(d) => d,
                    None => {
                        assert(!is_hex(v[4]));
                        assert(parse_esc(v) is None);
                        return None;
                    },
                };
                let h2 = match hex_digit_val(cs[j + 5]) {
                    Some(d) => d,
                    None => {
                        assert(!is_hex(v[5]));
                        assert(parse_esc(v) is None);
                        return None;
                    },
                };
                let code = h1 * 16 + h2;
                let ch = (code as u8) as char;
                assert(v.skip(6) =~= cs@.skip(j + 6));
                proof {
                    assert(parse_esc(v) == prepend_content(
                        seq![((hex_val(v[4]) * 16 + hex_val(v[5])) as u8) as char],
                        parse_esc(cs@.skip(j + 6)),
                    ));
                    assert(ch == ((hex_val(v[4]) * 16 + hex_val(v[5])) as u8) as char);
                    lemma_prepend_assoc(acc@, seq![ch], parse_esc(cs@.skip(j + 6)));
                }
                acc.push(ch);
                j += 6;
            } else {
                assert(parse_esc(v) is None);
                return None;
            }
        } else {
            assert(v.drop_first() =~= cs@.skip(j + 1));
            proof {
                assert(parse_esc(v) == prepend_content(seq![v[0]], parse_esc(cs@.skip(j + 1))));
                lemma_prepend_assoc(acc@, seq![v[0]], parse_esc(cs@.skip(j + 1)));
            }
            acc.push(c);
            j += 1;
        }
    }
}

proof fn lemma_prepend_assoc(p: Seq<char>, q: Seq<char>, o: Option<(Seq<char>, Seq<char>)>)
    ensures
        prepend_content(p, prepend_content(q, o)) == prepend_content(p + q, o),
{
    match o {
        Some((s, r)) => {
            assert(p + (q + s) =~= (p + q) + s);
        },
        None => {},
    }
}

/// Parse a JSON string literal of `cs` from `i`.
pub fn parse_jstr_at(cs: &Vec<char>, i: usize) -> (r: Option<(Vec<char>, usize)>)
    requires
        i <= cs@.len(),
    ensures
        match r {
            Some((s, j)) => i <= j <= cs@.len() && parse_jstr(cs@.skip(i as int)) == Some(
                (s@, cs@.skip(j as int)),
            ),
            None => parse_jstr(cs@.skip(i as int)) is None,
        },
{
    let ghost v = cs@.skip(i as int);
    if i == cs.len() {
        return None;
    }
    assert(v[0] == cs@[i as int]);
    if cs[i] != '"' {
        return None;
    }
    assert(v.drop_first() =~= cs@.skip(i + 1));
    parse_esc_at(cs, i + 1)
}

/// Option result with members prepended to the parsed member list.
pub open spec fn prepend_pairs(
    p: Seq<(Seq<char>, Seq<char>)>,
    o: Option<(Seq<(Seq<char>, Seq<char>)>, Seq<char>)>,
) -> Option<(Seq<(Seq<char>, Seq<char>)>, Seq<char>)> {
    match o {
        Some((a, r)) => Some((p + a, r)),
        None => None,
    }
}

/// Parse `"k":"v"` members of `cs` from `i` up to and including the
/// closing brace.
pub fn parse_pairs_at(cs: &Vec<char>, i: usize) -> (r: Option<(Vec<(String, String)>, usize)>)
    requires
        i <= cs@.len(),
    ensures
        match r {
            Some((a, j)) => i <= j <= cs@.len() && parse_pairs(cs@.skip(i as int)) == Some(
                (a@.map_values(|p: (String, String)| (p.0@, p.1@)), cs@.skip(j as int)),
            ),
            None => parse_pairs(cs@.skip(i as int)) is None,
        },
{
    let mut acc: Vec<(String, String)> = Vec::new();
    let mut j: usize = i;
    proof {
        assert(acc@.map_values(|p: (String, String)| (p.0@, p.1@)) =~= Seq::<
            (Seq<char>, Seq<char>),
        >::empty());
    }
    loop
        invariant
            i <= j <= cs@.len(),
            prepend_pairs(
                acc@.map_values(|p: (String, String)| (p.0@, p.1@)),
                parse_pairs(cs@.skip(j as int)),
            ) == parse_pairs(cs@.skip(i as int)),
        decreases cs@.len() - j,
    {
        let ghost v = cs@.skip(j as int);
        let ghost accv = acc@.map_values(|p: (String, String)| (p.0@, p.1@));
        let (k, j1) = match parse_jstr_at(cs, j) {
            Some(kj) => kj,
            None => {
                return None;
            },
        };
        let ghost r1 = cs@.skip(j1 as int);
        if j1 == cs.len() {
            assert(r1.len() == 0);
            return None;
        }
        assert(r1[0] == cs@[j1 as int]);
        if cs[j1] != ':' {
            return None;
        }
        assert(r1.drop_first() =~= cs@.skip(j1 + 1));
        let (val, j2) = match parse_jstr_at(cs, j1 + 1) {
            Some(vj) => vj,
            None => {
                return None;
            },
        };
        let ghost r2 = cs@.skip(j2 as int);
        if j2 == cs.len() {
            assert(r2.len() == 0);
            return None;
        }
        assert(r2[0] == cs@[j2 as int]);
        let ks = crate::text::chars_to_string(&k);
        let vs = crate::text::chars_to_string(&val);
        if cs[j2] == '}' {
            assert(r2.drop_first() =~= cs@.skip(j2 + 1));
            assert(parse_pairs(v) == Some((seq![(k@, val@)], cs@.skip(j2 + 1))));
            acc.push((ks, vs));
            proof {
                assert(acc@.map_values(|p: (String, String)| (p.0@, p.1@)) =~= accv.push(
                    (k@, val@),
                ));
                assert(accv + seq![(k@, val@)] =~= accv.push((k@, val@)));
            }
            return Some((acc, j2 + 1));
        }
        if cs[j2] != ',' {
            assert(parse_pairs(v) is None);
            return None;
        }
        assert(r2.drop_first() =~= cs@.skip(j2 + 1));
        proof {
            assert(parse_pairs(v) == prepend_pairs(
                seq![(k@, val@)],
                parse_pairs(cs@.skip(j2 + 1)),
            ));
            lemma_prepend_pairs_assoc(accv, seq![(k@, val@)], parse_pairs(cs@.skip(j2 + 1)));
        }
        acc.push((ks, vs));
        proof {
            assert(acc@.map_values(|p: (String, String)| (p.0@, p.1@)) =~= accv + seq![
                (k@, val@)
            ]);
        }
        j = j2 + 1;
    }
}

proof fn lemma_prepend_pairs_assoc(
    p: Seq<(Seq<char>, Seq<char>)>,
    q: Seq<(Seq<char>, Seq<char>)>,
    o: Option<(Seq<(Seq<char>, Seq<char>)>, Seq<char>)>,
)
    ensures
        prepend_pairs(p, prepend_pairs(q, o)) == prepend_pairs(p + q, o),
{
    match o {
        Some((a, r)) => {
            assert(p + (q + a) =~= (p + q) + a);
        },
        None => {},
    }
}

/// Parse an object of string members of `cs` from `i`, both braces
/// included.
pub fn parse_obj_at(cs: &Vec<char>, i: usize) -> (r: Option<(Vec<(String, String)>, usize)>)
    requires
        i <= cs@.len(),
    ensures
        match r {
            Some((a, j)) => i <= j <= cs@.len() && parse_obj(cs@.skip(i as int)) == Some(
                (a@.map_values(|p: (String, String)| (p.0@, p.1@)), cs@.skip(j as int)),
            ),
            None => parse_obj(cs@.skip(i as int)) is None,
        },
{
    let ghost v = cs@.skip(i as int);
    if i == cs.len() {
        return None;
    }
    assert(v[0] == cs@[i as int]);
    if cs[i] != '{' {
        return None;
    }
    if i + 1 < cs.len() {
        assert(v[1] == cs@[i + 1]);
        if cs[i + 1] == '}' {
            let empty: Vec<(String, String)> = Vec::new();
            assert(v.skip(2) =~= cs@.skip(i + 2));
            proof {
                assert(empty@.map_values(|p: (String, String)| (p.0@, p.1@)) =~= Seq::<
                    (Seq<char>, Seq<char>),
                >::empty());
            }
            return Some((empty, i + 2));
        }
    }
    assert(v.drop_first() =~= cs@.skip(i + 1));
    assert(!(v.len() >= 2 && v[0] == '{' && v[1] == '}'));
    parse_pairs_at(cs, i + 1)
}

} // verus!
