//! Numeric token recognition: unsigned decimal tokens with their values, and
//! the grammar of floating-point tokens, the one `f32::from_str` documents
//! (an optional sign, then `inf`, `infinity`, `nan` — case-insensitive — or
//! digits with at most one point and an optional exponent). A float token is
//! recognized, never evaluated, here: every syntactically valid token
//! converts without error downstream.

use vstd::prelude::*;
use vstd::string::*;

use crate::text::count_char;

verus! {

/// A decimal digit.
pub open spec fn is_digit_char(c: char) -> bool {
    48 <= c as u32 && c as u32 <= 57
}

/// The value of one digit.
pub open spec fn digit_val(c: char) -> int {
    (c as u32) as int - 48
}

/// The value of a digit string, most significant first.
pub open spec fn digits_value(s: Seq<char>) -> int
    decreases s.len(),
{
    if s.len() == 0 {
        0
    } else {
        digits_value(s.drop_last()) * 10 + digit_val(s.last())
    }
}

/// `s` without one leading plus sign, the shape unsigned `from_str` strips.
pub open spec fn strip_plus(s: Seq<char>) -> Seq<char> {
    if s.len() > 0 && s[0] == '+' {
        s.drop_first()
    } else {
        s
    }
}

/// Whether `s` is a token that unsigned `from_str` accepts: an optional
/// plus sign, then one digit or more.
pub open spec fn is_uint_string(s: Seq<char>) -> bool {
    let b = strip_plus(s);
    b.len() > 0 && forall|i: int| 0 <= i < b.len() ==> is_digit_char(b[i])
}

/// The value of an unsigned decimal token.
pub open spec fn uint_value(s: Seq<char>) -> int {
    digits_value(strip_plus(s))
}

proof fn lemma_digits_value_nonneg(s: Seq<char>)
    requires
        forall|i: int| 0 <= i < s.len() ==> is_digit_char(s[i]),
    ensures
        digits_value(s) >= 0,
    decreases s.len(),
{
    if s.len() > 0 {
        assert(forall|i: int|
            0 <= i < s.drop_last().len() ==> is_digit_char(s.drop_last()[i]));
        lemma_digits_value_nonneg(s.drop_last());
    }
}

/// On an all-digit string the value of a prefix is no more than the value
/// of the whole.
proof fn lemma_digits_value_take_le(s: Seq<char>, j: int)
    requires
        forall|i: int| 0 <= i < s.len() ==> is_digit_char(s[i]),
        0 <= j <= s.len(),
    ensures
        digits_value(s.take(j)) <= digits_value(s),
    decreases s.len() - j,
{
    if j == s.len() {
        assert(s.take(j) =~= s);
    } else {
        let d = s.drop_last();
        assert(forall|i: int| 0 <= i < d.len() ==> d[i] == s[i] && is_digit_char(d[i]));
        assert(s.take(j) =~= d.take(j));
        lemma_digits_value_take_le(d, j);
        lemma_digits_value_nonneg(d);
        assert(digits_value(s) == digits_value(d) * 10 + digit_val(s.last()));
        assert(digits_value(d) * 10 >= digits_value(d));
    }
}

/// Parses an unsigned decimal token, accepting a value up to `max`: the
/// exact behaviour of unsigned `from_str` with overflow collapsed into the
/// `None` outcome.
pub fn parse_uint_capped(s: &str, max: u64) -> (r: Option<u64>)
    ensures
        match r {
            Some(v) => is_uint_string(s@) && v as int == uint_value(s@) && v <= max,
            None => !(is_uint_string(s@) && uint_value(s@) <= max),
        },
{
    let n = s.unicode_len();
    let start: usize = if n > 0 && s.get_char(0) == '+' {
        1
    } else {
        0
    };
    let ghost b = s@.skip(start as int);
    proof {
        assert(strip_plus(s@) =~= b);
    }
    if start >= n {
        return None;
    }
    let mut acc: u64 = 0;
    let mut i: usize = start;
    while i < n
        invariant
            start <= i <= n,
            start < n,
            n == s@.len(),
            b == s@.skip(start as int),
            strip_plus(s@) == b,
            forall|j: int| 0 <= j < i - start ==> is_digit_char(b[j]),
            acc as int == digits_value(b.take(i - start)),
            acc <= max,
        decreases n - i,
    {
        let c = s.get_char(i);
        proof {
            assert(b[i - start] == s@[i as int]);
        }
        if !(48 <= c as u32 && c as u32 <= 57) {
            assert(!is_uint_string(s@));
            return None;
        }
        let d: u64 = (c as u32 - 48) as u64;
        let wide: u128 = acc as u128 * 10 + d as u128;
        proof {
            assert(b.take(i - start + 1).drop_last() =~= b.take(i - start));
            assert(b.take(i - start + 1).last() == b[i - start]);
            assert(digits_value(b.take(i - start + 1)) == acc as int * 10 + d as int);
        }
        if wide > max as u128 {
            proof {
                if is_uint_string(s@) {
                    lemma_digits_value_take_le(b, i - start + 1);
                }
            }
            return None;
        }
        acc = wide as u64;
        i = i + 1;
    }
    proof {
        assert(b.take(n - start) =~= b);
    }
    Some(acc)
}

/// The digit character of one digit value.
pub open spec fn digit_char(d: int) -> char {
    if d == 0 {
        '0'
    } else if d == 1 {
        '1'
    } else if d == 2 {
        '2'
    } else if d == 3 {
        '3'
    } else if d == 4 {
        '4'
    } else if d == 5 {
        '5'
    } else if d == 6 {
        '6'
    } else if d == 7 {
        '7'
    } else if d == 8 {
        '8'
    } else {
        '9'
    }
}

/// The decimal rendering of `n`, most significant digit first, no sign
/// and no leading zero but for the value zero itself.
pub open spec fn dec_digits(n: nat) -> Seq<char>
    decreases n,
{
    if n < 10 {
        seq![digit_char(n as int)]
    } else {
        dec_digits(n / 10).push(digit_char((n % 10) as int))
    }
}

/// The digit character of `d`, as text.
fn digit_str(d: u64) -> (r: &'static str)
    requires
        d <= 9,
    ensures
        r@ == seq![digit_char(d as int)],
{
    proof {
        reveal_strlit("0");
        reveal_strlit("1");
        reveal_strlit("2");
        reveal_strlit("3");
        reveal_strlit("4");
        reveal_strlit("5");
        reveal_strlit("6");
        reveal_strlit("7");
        reveal_strlit("8");
        reveal_strlit("9");
        assert("0"@ =~= seq!['0']);
        assert("1"@ =~= seq!['1']);
        assert("2"@ =~= seq!['2']);
        assert("3"@ =~= seq!['3']);
        assert("4"@ =~= seq!['4']);
        assert("5"@ =~= seq!['5']);
        assert("6"@ =~= seq!['6']);
        assert("7"@ =~= seq!['7']);
        assert("8"@ =~= seq!['8']);
        assert("9"@ =~= seq!['9']);
    }
    if d == 0 {
        "0"
    } else if d == 1 {
        "1"
    } else if d == 2 {
        "2"
    } else if d == 3 {
        "3"
    } else if d == 4 {
        "4"
    } else if d == 5 {
        "5"
    } else if d == 6 {
        "6"
    } else if d == 7 {
        "7"
    } else if d == 8 {
        "8"
    } else {
        "9"
    }
}

/// Renders `n` in decimal.
pub fn dec_str(n: u64) -> (r: String)
    ensures
        r@ == dec_digits(n as nat),
    decreases n,
{
    if n < 10 {
        digit_str(n).to_owned()
    } else {
        let mut s = dec_str(n / 10);
        s.append(digit_str(n % 10));
        proof {
            assert(s@ =~= dec_digits(n as nat));
        }
        s
    }
}

/// `s` without one leading plus or minus sign.
pub open spec fn strip_sign(s: Seq<char>) -> Seq<char> {
    if s.len() > 0 && (s[0] == '+' || s[0] == '-') {
        s.drop_first()
    } else {
        s
    }
}

/// The word `inf`, in any letter case.
pub open spec fn is_inf_word(s: Seq<char>) -> bool {
    s.len() == 3 && (s[0] == 'i' || s[0] == 'I') && (s[1] == 'n' || s[1] == 'N') && (s[2] == 'f'
        || s[2] == 'F')
}

/// The word `infinity`, in any letter case.
pub open spec fn is_infinity_word(s: Seq<char>) -> bool {
    s.len() == 8 && (s[0] == 'i' || s[0] == 'I') && (s[1] == 'n' || s[1] == 'N') && (s[2] == 'f'
        || s[2] == 'F') && (s[3] == 'i' || s[3] == 'I') && (s[4] == 'n' || s[4] == 'N') && (s[5]
        == 'i' || s[5] == 'I') && (s[6] == 't' || s[6] == 'T') && (s[7] == 'y' || s[7] == 'Y')
}

/// The word `nan`, in any letter case.
pub open spec fn is_nan_word(s: Seq<char>) -> bool {
    s.len() == 3 && (s[0] == 'n' || s[0] == 'N') && (s[1] == 'a' || s[1] == 'A') && (s[2] == 'n'
        || s[2] == 'N')
}

/// The position of the first exponent marker `e` or `E` in `s`, if any.
pub open spec fn first_exp_pos(s: Seq<char>) -> Option<int>
    decreases s.len(),
{
    if s.len() == 0 {
        None
    } else if s[0] == 'e' || s[0] == 'E' {
        Some(0int)
    } else {
        match first_exp_pos(s.drop_first()) {
            None => None,
            Some(i) => Some(i + 1),
        }
    }
}

proof fn lemma_first_exp_pos_found(s: Seq<char>, k: int)
    requires
        0 <= k < s.len(),
        s[k] == 'e' || s[k] == 'E',
        forall|j: int| 0 <= j < k ==> s[j] != 'e' && s[j] != 'E',
    ensures
        first_exp_pos(s) == Some(k),
    decreases k,
{
    if k > 0 {
        let d = s.drop_first();
        assert(forall|j: int| 0 <= j < k - 1 ==> d[j] == s[j + 1] && d[j] != 'e' && d[j] != 'E');
        assert(d[k - 1] == s[k]);
        lemma_first_exp_pos_found(d, k - 1);
    }
}

proof fn lemma_first_exp_pos_none(s: Seq<char>)
    requires
        forall|j: int| 0 <= j < s.len() ==> s[j] != 'e' && s[j] != 'E',
    ensures
        first_exp_pos(s) == None::<int>,
    decreases s.len(),
{
    if s.len() > 0 {
        let d = s.drop_first();
        assert(forall|j: int| 0 <= j < d.len() ==> d[j] == s[j + 1] && d[j] != 'e' && d[j] != 'E');
        lemma_first_exp_pos_none(d);
    }
}

/// The digits-and-point part of a float token: one digit or more, at most
/// one point, nothing else.
pub open spec fn is_mantissa(m: Seq<char>) -> bool {
    m.len() > 0 && (forall|i: int| 0 <= i < m.len() ==> is_digit_char(m[i]) || m[i] == '.')
        && count_char(m, '.') <= 1 && (exists|i: int| 0 <= i < m.len() && is_digit_char(m[i]))
}

/// The exponent part after the marker: an optional sign, then one digit or
/// more.
pub open spec fn is_exp_part(x: Seq<char>) -> bool {
    let b = strip_sign(x);
    b.len() > 0 && forall|i: int| 0 <= i < b.len() ==> is_digit_char(b[i])
}

/// An unsigned float number: a mantissa, optionally followed by an
/// exponent marker and an exponent part.
pub open spec fn is_float_number(b: Seq<char>) -> bool {
    match first_exp_pos(b) {
        None => is_mantissa(b),
        Some(i) => is_mantissa(b.take(i)) && is_exp_part(b.skip(i + 1)),
    }
}

/// Whether `s` is a token that `f32::from_str` accepts. Conversion of a
/// valid token never fails: out-of-range values round to infinity or zero.
pub open spec fn is_float_token(s: Seq<char>) -> bool {
    let b = strip_sign(s);
    is_inf_word(b) || is_infinity_word(b) || is_nan_word(b) || is_float_number(b)
}

proof fn lemma_count_char_push(s: Seq<char>, x: char, c: char)
    ensures
        count_char(s.push(x), c) == count_char(s, c) + if x == c {
            1int
        } else {
            0int
        },
    decreases s.len(),
{
    if s.len() == 0 {
        assert(s.push(x).drop_first() =~= s);
    } else {
        assert(s.push(x).drop_first() =~= s.drop_first().push(x));
        lemma_count_char_push(s.drop_first(), x, c);
    }
}

/// Decides mantissa shape for `s@` between `from` and `to`.
fn check_mantissa(s: &str, n: usize, from: usize, to: usize) -> (r: bool)
    requires
        from <= to <= n,
        n == s@.len(),
    ensures
        r == is_mantissa(s@.subrange(from as int, to as int)),
{
    let ghost m = s@.subrange(from as int, to as int);
    let mut dots: u64 = 0;
    let mut has_digit = false;
    let mut i: usize = from;
    while i < to
        invariant
            from <= i <= to <= n,
            n == s@.len(),
            m == s@.subrange(from as int, to as int),
            dots as int == count_char(m.take(i - from), '.'),
            dots <= i - from,
            has_digit == exists|j: int| 0 <= j < i - from && is_digit_char(m[j]),
            forall|j: int| 0 <= j < i - from ==> is_digit_char(m[j]) || m[j] == '.',
        decreases to - i,
    {
        let c = s.get_char(i);
        proof {
            assert(m[i - from] == s@[i as int]);
            assert(m.take(i - from + 1) =~= m.take(i - from).push(m[i - from]));
            lemma_count_char_push(m.take(i - from), m[i - from], '.');
        }
        if c == '.' {
            dots = dots + 1;
        } else if 48 <= c as u32 && c as u32 <= 57 {
            has_digit = true;
        } else {
            assert(!(is_digit_char(m[i - from]) || m[i - from] == '.'));
            return false;
        }
        i = i + 1;
    }
    proof {
        assert(m.take(to - from) =~= m);
    }
    to - from > 0 && dots <= 1 && has_digit
}

/// Decides whether `s@` from `from` on is an exponent part.
fn check_exp_part(s: &str, n: usize, from: usize) -> (r: bool)
    requires
        from <= n,
        n == s@.len(),
    ensures
        r == is_exp_part(s@.skip(from as int)),
{
    let ghost x = s@.skip(from as int);
    let start: usize = if from < n && {
        let c = s.get_char(from);
        c == '+' || c == '-'
    } {
        from + 1
    } else {
        from
    };
    let ghost b = s@.skip(start as int);
    proof {
        assert(strip_sign(x) =~= b);
    }
    if start >= n {
        return false;
    }
    let mut i: usize = start;
    while i < n
        invariant
            start <= i <= n,
            start < n,
            n == s@.len(),
            b == s@.skip(start as int),
            x == s@.skip(from as int),
            strip_sign(x) == b,
            forall|j: int| 0 <= j < i - start ==> is_digit_char(b[j]),
        decreases n - i,
    {
        let c = s.get_char(i);
        proof {
            assert(b[i - start] == s@[i as int]);
        }
        if !(48 <= c as u32 && c as u32 <= 57) {
            assert(0 <= i - start < b.len() && !is_digit_char(b[i - start]));
            return false;
        }
        i = i + 1;
    }
    true
}

/// Decides whether `s` is a float token, the grammar of `f32::from_str`.
pub fn is_float_str(s: &str) -> (r: bool)
    ensures
        r == is_float_token(s@),
{
    let n = s.unicode_len();
    let off: usize = if n > 0 && {
        let c = s.get_char(0);
        c == '+' || c == '-'
    } {
        1
    } else {
        0
    };
    let ghost b = s@.skip(off as int);
    proof {
        assert(strip_sign(s@) =~= b);
    }
    if n - off == 3 {
        let c0 = s.get_char(off);
        let c1 = s.get_char(off + 1);
        let c2 = s.get_char(off + 2);
        proof {
            assert(b[0] == s@[off as int] && b[1] == s@[off + 1] && b[2] == s@[off + 2]);
        }
        if (c0 == 'i' || c0 == 'I') && (c1 == 'n' || c1 == 'N') && (c2 == 'f' || c2 == 'F') {
            return true;
        }
        if (c0 == 'n' || c0 == 'N') && (c1 == 'a' || c1 == 'A') && (c2 == 'n' || c2 == 'N') {
            return true;
        }
    }
    if n - off == 8 {
        let c0 = s.get_char(off);
        let c1 = s.get_char(off + 1);
        let c2 = s.get_char(off + 2);
        let c3 = s.get_char(off + 3);
        let c4 = s.get_char(off + 4);
        let c5 = s.get_char(off + 5);
        let c6 = s.get_char(off + 6);
        let c7 = s.get_char(off + 7);
        proof {
            assert(forall|j: int| 0 <= j < 8 ==> b[j] == s@[off + j]);
        }
        if (c0 == 'i' || c0 == 'I') && (c1 == 'n' || c1 == 'N') && (c2 == 'f' || c2 == 'F') && (c3
            == 'i' || c3 == 'I') && (c4 == 'n' || c4 == 'N') && (c5 == 'i' || c5 == 'I') && (c6
            == 't' || c6 == 'T') && (c7 == 'y' || c7 == 'Y') {
            return true;
        }
    }
    let mut je: usize = n;
    let mut found = false;
    let mut i: usize = off;
    while i < n && !found
        invariant
            off <= i <= n,
            n == s@.len(),
            b == s@.skip(off as int),
            !found ==> je == n && forall|j: int| 0 <= j < i - off ==> b[j] != 'e' && b[j] != 'E',
            found ==> off <= je < n && i == je + 1 && (b[je - off] == 'e' || b[je - off] == 'E')
                && forall|j: int| 0 <= j < je - off ==> b[j] != 'e' && b[j] != 'E',
        decreases n - i,
    {
        let c = s.get_char(i);
        proof {
            assert(b[i - off] == s@[i as int]);
        }
        if c == 'e' || c == 'E' {
            je = i;
            found = true;
        }
        i = i + 1;
    }
    proof {
        if found {
            lemma_first_exp_pos_found(b, je - off);
        } else {
            lemma_first_exp_pos_none(b);
        }
        assert(b.take(je - off) =~= s@.subrange(off as int, je as int));
    }
    let mant_ok = check_mantissa(s, n, off, je);
    if !mant_ok {
        return false;
    }
    if found {
        proof {
            assert(b.skip(je - off + 1) =~= s@.skip(je + 1));
        }
        check_exp_part(s, n, je + 1)
    } else {
        true
    }
}

} // verus!
