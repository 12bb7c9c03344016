//! Characters, decimal numbers and small string utilities.
//!
//! The wire protocol carries every argument as text, so the dispatcher
//! needs strict, fully specified coercions: unsigned integers for track
//! ids, and decimal fractions (scaled by 1000) for volumes and second
//! counts.  Formatting runs the other way when responses are rendered.

use vstd::prelude::*;
use vstd::string::StrSliceExecFns;
use vstd::string::StringExecFns;

verus! {

/// Scale shared by volumes (1000 = gain 1.0) and positions
/// (1000 = one second): three decimal digits of fraction.
pub const DECIMAL_SCALE: u64 = 1000;

pub open spec fn is_digit(c: char) -> bool {
    '0' as u32 <= c as u32 <= '9' as u32
}

pub open spec fn digit_val(c: char) -> int {
    c as u32 - 48
}

pub open spec fn digit_char(d: int) -> char {
    if d == 0 {
        '0'
    } else if d == 1 {
        '1'
    } else if d == 2 {
        '2'
    } else if d == 3 {
        '3'
    } else if d == 4 {
        '4'
    } else if d == 5 {
        '5'
    } else if d == 6 {
        '6'
    } else if d == 7 {
        '7'
    } else if d == 8 {
        '8'
    } else {
        '9'
    }
}

/// Decimal digits of a nonnegative number, most significant first.
pub open spec fn dec_digits(n: int) -> Seq<char>
    recommends
        n >= 0,
    decreases n,
{
    if n < 10 {
        seq![digit_char(n)]
    } else {
        dec_digits(n / 10) + seq![digit_char(n % 10)]
    }
}

/// The number read from a digit string, most significant first.
pub open spec fn dec_value(s: Seq<char>) -> int
    decreases s.len(),
{
    if s.len() == 0 {
        0
    } else {
        dec_value(s.drop_last()) * 10 + digit_val(s.last())
    }
}

pub open spec fn all_digits(s: Seq<char>) -> bool {
    forall|i: int| 0 <= i < s.len() ==> is_digit(#[trigger] s[i])
}

/// The characters of a string slice, in order.
pub fn string_to_chars(s: &str) -> (r: Vec<char>)
    ensures
        r@ == s@,
{
    let n = s.unicode_len();
    let mut r: Vec<char> = Vec::new();
    let mut i: usize = 0;
    while i < n
        invariant
            i <= n,
            n == s@.len(),
            r@ == s@.take(i as int),
        decreases n - i,
    {
        r.push(s.get_char(i));
        i += 1;
        assert(s@.take(i as int) == s@.take(i - 1) + seq![s@[i - 1]]);
    }
    assert(s@.take(n as int) == s@);
    r
}

/// Relies on `String: FromIterator<char>`: collecting an iterator of
/// characters builds the string of exactly those characters, in order.
#[verifier::external_body]
pub(crate) fn chars_to_string(v: &Vec<char>) -> (r: String)
    ensures
        r@ == v@,
{
    v.iter().collect()
}

/// Character-for-character equality of two string slices.
pub fn str_eq(a: &str, b: &str) -> (r: bool)
    ensures
        r == (a@ == b@),
{
    let n = a.unicode_len();
    if n != b.unicode_len() {
        assert(a@ != b@);
        return false;
    }
    let mut i: usize = 0;
    while i < n
        invariant
            i <= n,
            n == a@.len() == b@.len(),
            forall|k: int| 0 <= k < i ==> a@[k] == b@[k],
        decreases n - i,
    {
        if a.get_char(i) != b.get_char(i) {
            return false;
        }
        i += 1;
    }
    assert(a@ =~= b@);
    true
}

fn digit_to_char(d: u64) -> (c: char)
    requires
        d < 10,
    ensures
        c == digit_char(d as int),
{
    match d {
        0 => '0',
        1 => '1',
        2 => '2',
        3 => '3',
        4 => '4',
        5 => '5',
        6 => '6',
        7 => '7',
        8 => '8',
        _ => '9',
    }
}

fn char_to_digit(c: char) -> (r: Option<u32>)
    ensures
        r matches Some(d) <==> is_digit(c),
        r matches Some(d) ==> d == digit_val(c) && d < 10,
{
    let code = c as u32;
    if 48 <= code && code <= 57 {
        Some(code - 48)
    } else {
        None
    }
}

/// The decimal digits of `n`, most significant first.
pub fn u64_to_dec(n: u64) -> (r: Vec<char>)
    ensures
        r@ == dec_digits(n as int),
    decreases n,
{
    if n < 10 {
        let mut r: Vec<char> = Vec::new();
        r.push(digit_to_char(n));
        r
    } else {
        let mut r = u64_to_dec(n / 10);
        r.push(digit_to_char(n % 10));
        r
    }
}

/// The decimal digits of `n` as a `String`.
pub fn u64_to_dec_string(n: u64) -> (r: String)
    ensures
        r@ == dec_digits(n as int),
{
    let v = u64_to_dec(n);
    chars_to_string(&v)
}

proof fn lemma_dec_value_step(s: Seq<char>, i: int)
    requires
        0 <= i < s.len(),
    ensures
        dec_value(s.take(i + 1)) == dec_value(s.take(i)) * 10 + digit_val(s[i]),
{
    assert(s.take(i + 1).drop_last() == s.take(i));
    assert(s.take(i + 1).last() == s[i]);
}

proof fn lemma_dec_value_prefix_le(s: Seq<char>, i: int, j: int)
    requires
        all_digits(s),
        0 <= i <= j <= s.len(),
    ensures
        dec_value(s.take(i)) <= dec_value(s.take(j)),
    decreases j - i,
{
    if i < j {
        lemma_dec_value_prefix_le(s, i, j - 1);
        lemma_dec_value_step(s, j - 1);
        lemma_dec_value_nonneg(s.take(j - 1));
        assert(all_digits(s.take(j - 1)));
        assert(is_digit(s[j - 1]));
    }
}

proof fn lemma_dec_value_nonneg(s: Seq<char>)
    requires
        all_digits(s),
    ensures
        dec_value(s) >= 0,
    decreases s.len(),
{
    if s.len() > 0 {
        assert(all_digits(s.drop_last()));
        lemma_dec_value_nonneg(s.drop_last());
        assert(is_digit(s.last()));
    }
}

/// A digit string parsed as `u32`: present exactly when the text is one
/// or more decimal digits whose value fits.
pub open spec fn spec_parse_u32(s: Seq<char>) -> Option<u32> {
    if s.len() > 0 && all_digits(s) && dec_value(s) <= u32::MAX {
        Some(dec_value(s) as u32)
    } else {
        None
    }
}

/// Parse an unsigned decimal integer, strictly: digits only, no sign, no
/// blanks, and the value must fit in 32 bits.
pub fn parse_u32(s: &str) -> (r: Option<u32>)
    ensures
        r == spec_parse_u32(s@),
{
    let cs = string_to_chars(s);
    if cs.len() == 0 {
        return None;
    }
    let mut acc: u64 = 0;
    let mut over: bool = false;
    let mut i: usize = 0;
    while i < cs.len()
        invariant
            i <= cs@.len(),
            cs@ == s@,
            all_digits(s@.take(i as int)),
            !over ==> acc == dec_value(s@.take(i as int)) && acc <= u32::MAX,
            over ==> dec_value(s@.take(i as int)) > u32::MAX,
        decreases cs@.len() - i,
    {
        let d = match char_to_digit(cs[i]) {
            Some(d) => d,
            None => {
                assert(!is_digit(s@[i as int]));
                return None;
            },
        };
        proof {
            lemma_dec_value_step(s@, i as int);
            assert(s@.take(i + 1).drop_last() == s@.take(i as int));
        }
        if over {
            proof {
                lemma_dec_value_nonneg(s@.take(i as int));
            }
        } else {
            acc = acc * 10 + d as u64;
            if acc > u32::MAX as u64 {
                over = true;
            }
        }
        i += 1;
    }
    assert(s@.take(cs@.len() as int) == s@);
    if over {
        return None;
    }
    Some(acc as u32)
}

/// How many scale units a fraction part is worth: the first three
/// fraction digits, padded with zeros on the right.
pub open spec fn frac_value(f: Seq<char>) -> int {
    if f.len() >= 3 {
        dec_value(f.take(3))
    } else if f.len() == 2 {
        dec_value(f) * 10
    } else {
        dec_value(f) * 100
    }
}

/// A decimal fraction read as a multiple of 1/1000, truncated after
/// three fraction digits.  Accepted forms: `D+`, `D+.D+` and either with
/// a leading `-`; a negative value reads as zero.  `None` on anything
/// else, and on values whose scaled form exceeds `u64`.
pub open spec fn spec_parse_scaled(s: Seq<char>) -> Option<u64> {
    if s.len() > 0 && s[0] == '-' {
        match spec_parse_scaled_nonneg(s.skip(1)) {
            Some(_) => Some(0u64),
            None => None,
        }
    } else {
        spec_parse_scaled_nonneg(s)
    }
}

pub open spec fn spec_parse_scaled_nonneg(s: Seq<char>) -> Option<u64> {
    if s.len() > 0 && all_digits(s) {
        if dec_value(s) * 1000 <= u64::MAX {
            Some((dec_value(s) * 1000) as u64)
        } else {
            None
        }
    } else if exists|k: int|
        0 <= k < s.len() && s[k] == '.' && #[trigger] valid_point_split(s, k) {
        let k = choose|k: int| 0 <= k < s.len() && s[k] == '.' && #[trigger] valid_point_split(s, k);
        if dec_value(s.take(k)) * 1000 + frac_value(s.skip(k + 1)) <= u64::MAX {
            Some((dec_value(s.take(k)) * 1000 + frac_value(s.skip(k + 1))) as u64)
        } else {
            None
        }
    } else {
        None
    }
}

/// `s` splits at position `k` into nonempty digits, a point, and
/// nonempty digits.
pub open spec fn valid_point_split(s: Seq<char>, k: int) -> bool {
    &&& 1 <= k < s.len() - 1
    &&& s[k] == '.'
    &&& all_digits(s.take(k))
    &&& all_digits(s.skip(k + 1))
}

proof fn lemma_point_split_unique(s: Seq<char>, k1: int, k2: int)
    requires
        valid_point_split(s, k1),
        valid_point_split(s, k2),
    ensures
        k1 == k2,
{
    if k1 < k2 {
        assert(is_digit(s.take(k2)[k1]));
    }
    if k2 < k1 {
        assert(is_digit(s.take(k1)[k2]));
    }
}

/// First position of `target` in `cs` at or after `start`.
fn find_char(cs: &Vec<char>, start: usize, target: char) -> (r: Option<usize>)
    requires
        start <= cs@.len(),
    ensures
        match r {
            Some(p) => start <= p < cs@.len() && cs@[p as int] == target && forall|m: int|
                start <= m < p ==> cs@[m] != target,
            None => forall|m: int| start <= m < cs@.len() ==> cs@[m] != target,
        },
{
    let mut i: usize = start;
    while i < cs.len()
        invariant
            start <= i <= cs@.len(),
            forall|m: int| start <= m < i ==> cs@[m] != target,
        decreases cs@.len() - i,
    {
        if cs[i] == target {
            return Some(i);
        }
        i += 1;
    }
    None
}

/// Whether every character in `cs[lo..hi]` is a decimal digit.
fn digits_check(cs: &Vec<char>, lo: usize, hi: usize) -> (r: bool)
    requires
        lo <= hi <= cs@.len(),
    ensures
        r == all_digits(cs@.subrange(lo as int, hi as int)),
{
    let mut i: usize = lo;
    while i < hi
        invariant
            lo <= i <= hi <= cs@.len(),
            forall|m: int| lo <= m < i ==> is_digit(#[trigger] cs@[m]),
        decreases hi - i,
    {
        if char_to_digit(cs[i]).is_none() {
            assert(!is_digit(cs@.subrange(lo as int, hi as int)[i - lo]));
            return false;
        }
        i += 1;
    }
    assert forall|m: int| 0 <= m < hi - lo implies is_digit(
        #[trigger] cs@.subrange(lo as int, hi as int)[m],
    ) by {
        assert(cs@.subrange(lo as int, hi as int)[m] == cs@[lo + m]);
    }
    true
}

/// Value of the digit run `cs[lo..hi]`, or `None` when a character is no
/// digit or the value exceeds `bound`.  The empty run has value zero.
fn parse_digits_u64(cs: &Vec<char>, lo: usize, hi: usize, bound: u64) -> (r: Option<u64>)
    requires
        lo <= hi <= cs@.len(),
        bound <= (u64::MAX - 9) / 10,
    ensures
        ({
            let sub = cs@.subrange(lo as int, hi as int);
            r == if all_digits(sub) && dec_value(sub) <= bound {
                Some(dec_value(sub) as u64)
            } else {
                None::<u64>
            }
        }),
{
    let ghost sub = cs@.subrange(lo as int, hi as int);
    let mut acc: u64 = 0;
    let mut over: bool = false;
    let mut i: usize = lo;
    while i < hi
        invariant
            lo <= i <= hi <= cs@.len(),
            sub == cs@.subrange(lo as int, hi as int),
            bound <= (u64::MAX - 9) / 10,
            all_digits(sub.take(i - lo)),
            !over ==> acc == dec_value(sub.take(i - lo)) && acc <= bound,
            over ==> dec_value(sub.take(i - lo)) > bound,
        decreases hi - i,
    {
        let d = match char_to_digit(cs[i]) {
            Some(d) => d,
            None => {
                assert(!is_digit(sub[i - lo]));
                return None;
            },
        };
        assert(cs@[i as int] == sub[i - lo]);
        proof {
            lemma_dec_value_step(sub, i - lo);
        }
        if over {
            proof {
                lemma_dec_value_nonneg(sub.take(i - lo));
            }
        } else {
            acc = acc * 10 + d as u64;
            if acc > bound {
                over = true;
            }
        }
        i += 1;
    }
    assert(sub.take(hi - lo) == sub);
    if over {
        proof {
            lemma_dec_value_nonneg(sub);
        }
        return None;
    }
    Some(acc)
}

/// Largest integer part whose scaled value still fits in `u64`.
pub const SCALED_INT_BOUND: u64 = u64::MAX / 1000;

/// Parse a decimal fraction into units of 1/1000, strictly, as
/// [`spec_parse_scaled`] describes.
pub fn parse_scaled(s: &str) -> (r: Option<u64>)
    ensures
        r == spec_parse_scaled(s@),
{
    let cs = string_to_chars(s);
    let start: usize = if cs.len() > 0 && cs[0] == '-' {
        1
    } else {
        0
    };
    let r = parse_scaled_at(&cs, start);
    if start == 1 {
        match r {
            Some(_) => Some(0),
            None => None,
        }
    } else {
        assert(cs@.skip(0) == cs@);
        r
    }
}

/// Parse the unsigned part of a scaled decimal from position `start`.
fn parse_scaled_at(cs: &Vec<char>, start: usize) -> (r: Option<u64>)
    requires
        start <= cs@.len(),
    ensures
        r == spec_parse_scaled_nonneg(cs@.skip(start as int)),
{
    let ghost t = cs@.skip(start as int);
    let len = cs.len();
    assert(forall|m: int| 0 <= m < t.len() ==> t[m] == cs@[start + m]);
    match find_char(cs, start, '.') {
        None => {
            // No point: the whole run must be nonempty digits.
            if start == len {
                return None;
            }
            assert(t == cs@.subrange(start as int, len as int));
            match parse_digits_u64(cs, start, len, SCALED_INT_BOUND) {
                Some(v) => {
                    proof {
                        lemma_no_split_without_point(t);
                        lemma_dec_value_nonneg(t);
                        assert(dec_value(t) * 1000 <= SCALED_INT_BOUND * 1000 <= u64::MAX);
                    }
                    Some(v * 1000)
                },
                None => {
                    proof {
                        lemma_no_split_without_point(t);
                        if all_digits(t) {
                            assert(dec_value(t) >= SCALED_INT_BOUND + 1);
                            assert(dec_value(t) * 1000 >= (SCALED_INT_BOUND + 1) * 1000
                                > u64::MAX);
                        }
                    }
                    None
                },
            }
        },
        Some(p) => {
            let ghost k = p - start;
            assert(t[k] == '.');
            // Any valid split must sit on this, the first point.
            assert forall|k2: int| valid_point_split(t, k2) implies k2 == k by {
                if k2 < k {
                    assert(t[k2] == cs@[start + k2]);
                } else if k2 > k {
                    assert(is_digit(t.take(k2)[k]));
                }
            }
            if p == start || p + 1 == len {
                // Empty integer or fraction part: no valid split at all.
                assert(forall|k2: int| !valid_point_split(t, k2));
                assert(!all_digits(t));
                return None;
            }
            assert(t.take(k) == cs@.subrange(start as int, p as int));
            assert(t.skip(k + 1) == cs@.subrange(p + 1, len as int));
            let int_part = match parse_digits_u64(cs, start, p, SCALED_INT_BOUND) {
                Some(v) => v,
                None => {
                    proof {
                        assert(!is_digit(t[k]));
                        assert(!all_digits(t));
                        if all_digits(t.take(k)) && all_digits(t.skip(k + 1)) {
                            assert(valid_point_split(t, k));
                            assert(dec_value(t.take(k)) >= SCALED_INT_BOUND + 1);
                            assert(dec_value(t.take(k)) * 1000 >= (SCALED_INT_BOUND + 1) * 1000
                                > u64::MAX);
                            lemma_frac_value_bounds(t.skip(k + 1));
                        } else {
                            assert(!valid_point_split(t, k));
                            assert(forall|k2: int| !valid_point_split(t, k2));
                        }
                    }
                    return None;
                },
            };
            if !digits_check(cs, p + 1, len) {
                assert(forall|k2: int| !valid_point_split(t, k2));
                assert(is_digit(t[k]) ==> false);
                assert(!all_digits(t));
                return None;
            }
            assert(valid_point_split(t, k));
            assert(!all_digits(t));
            let frac = frac_value_exec(cs, p + 1, len);
            proof {
                lemma_frac_value_bounds(t.skip(k + 1));
                lemma_dec_value_nonneg(t.take(k));
                assert(dec_value(t.take(k)) * 1000 <= SCALED_INT_BOUND * 1000 <= u64::MAX);
            }
            let base = int_part * 1000;
            if base > u64::MAX - frac {
                return None;
            }
            Some(base + frac)
        },
    }
}

proof fn lemma_dec_value_small(f: Seq<char>)
    requires
        f.len() <= 3,
    ensures
        f.len() == 1 ==> dec_value(f) == digit_val(f[0]),
        f.len() == 2 ==> dec_value(f) == digit_val(f[0]) * 10 + digit_val(f[1]),
        f.len() == 3 ==> dec_value(f) == digit_val(f[0]) * 100 + digit_val(f[1]) * 10 + digit_val(
            f[2],
        ),
    decreases f.len(),
{
    if f.len() == 1 {
        assert(f.drop_last() =~= Seq::<char>::empty());
        assert(dec_value(f.drop_last()) == 0);
    } else if f.len() == 2 {
        assert(f.drop_last() =~= seq![f[0]]);
        lemma_dec_value_small(f.drop_last());
    } else if f.len() == 3 {
        assert(f.drop_last() =~= seq![f[0], f[1]]);
        lemma_dec_value_small(f.drop_last());
    }
}

/// A nonempty digit run's worth in 1/1000 units lies under 1000.
proof fn lemma_frac_value_bounds(f: Seq<char>)
    requires
        all_digits(f),
        f.len() >= 1,
    ensures
        0 <= frac_value(f) < 1000,
{
    if f.len() >= 3 {
        assert(all_digits(f.take(3)));
        lemma_dec_value_small(f.take(3));
        assert(is_digit(f.take(3)[0]) && is_digit(f.take(3)[1]) && is_digit(f.take(3)[2]));
    } else {
        lemma_dec_value_small(f);
        assert(is_digit(f[0]));
        if f.len() == 2 {
            assert(is_digit(f[1]));
        }
    }
}

/// Without a point character there is no valid split.
proof fn lemma_no_split_without_point(t: Seq<char>)
    requires
        forall|m: int| 0 <= m < t.len() ==> t[m] != '.',
    ensures
        forall|k2: int| !valid_point_split(t, k2),
{
}

/// The worth of the fraction run `cs[lo..hi]` in 1/1000 units.
fn frac_value_exec(cs: &Vec<char>, lo: usize, hi: usize) -> (r: u64)
    requires
        lo < hi <= cs@.len(),
        all_digits(cs@.subrange(lo as int, hi as int)),
    ensures
        r == frac_value(cs@.subrange(lo as int, hi as int)),
{
    let ghost f = cs@.subrange(lo as int, hi as int);
    let d0 = match char_to_digit(cs[lo]) {
        Some(d) => d,
        None => {
            assert(is_digit(f[0]));
            assert(false);
            0
        },
    } as u64;
    if hi - lo == 1 {
        proof {
            lemma_dec_value_small(f);
        }
        return d0 * 100;
    }
    let d1 = match char_to_digit(cs[lo + 1]) {
        Some(d) => d,
        None => {
            assert(is_digit(f[1]));
            assert(false);
            0
        },
    } as u64;
    if hi - lo == 2 {
        proof {
            lemma_dec_value_small(f);
        }
        return d0 * 100 + d1 * 10;
    }
    let d2 = match char_to_digit(cs[lo + 2]) {
        Some(d) => d,
        None => {
            assert(is_digit(f[2]));
            assert(false);
            0
        },
    } as u64;
    proof {
        lemma_dec_value_small(f.take(3));
        assert(f.take(3)[0] == f[0] && f.take(3)[1] == f[1] && f.take(3)[2] == f[2]);
    }
    d0 * 100 + d1 * 10 + d2
}

/// Render a value in 1/1000 units as decimal text: the integer part,
/// then a point and one to three fraction digits with trailing zeros
/// dropped, or no fraction at all when it is zero.
pub open spec fn scaled_dec(n: u64) -> Seq<char> {
    let ip = n as int / 1000;
    let f = n as int % 1000;
    if f == 0 {
        dec_digits(ip)
    } else if f % 100 == 0 {
        dec_digits(ip) + seq!['.', digit_char(f / 100)]
    } else if f % 10 == 0 {
        dec_digits(ip) + seq!['.', digit_char(f / 100), digit_char((f / 10) % 10)]
    } else {
        dec_digits(ip) + seq!['.', digit_char(f / 100), digit_char((f / 10) % 10), digit_char(f % 10)]
    }
}

/// Render a scaled value as characters, as [`scaled_dec`] describes.
pub fn scaled_to_dec(n: u64) -> (r: Vec<char>)
    ensures
        r@ == scaled_dec(n),
{
    let ip = n / 1000;
    let f = n % 1000;
    let mut r = u64_to_dec(ip);
    if f == 0 {
        return r;
    }
    r.push('.');
    r.push(digit_to_char(f / 100));
    if f % 100 == 0 {
        return r;
    }
    r.push(digit_to_char((f / 10) % 10));
    if f % 10 == 0 {
        return r;
    }
    r.push(digit_to_char(f % 10));
    r
}

/// Render a scaled value as a `String`.
pub fn scaled_to_dec_string(n: u64) -> (r: String)
    ensures
        r@ == scaled_dec(n),
{
    let v = scaled_to_dec(n);
    chars_to_string(&v)
}

} // verus!
