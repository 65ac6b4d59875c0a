//! Type coercion of a substituted string scalar: unsigned integer first, then
//! floating-point syntax, then the boolean literals, and otherwise the string
//! itself.  Coercion only runs when substitution actually changed the text.

use vstd::prelude::*;

use crate::text::{find_char, find_char_idx, lemma_find_char_idx, str_eq, upper_seq, ascii_upper};
use crate::value::{Node, NodeV};

verus! {

/// Whether `c` is a decimal digit.
pub open spec fn is_digit(c: char) -> bool {
    '0' <= c && c <= '9'
}

/// The numeric value of a digit character.
pub open spec fn digit_val(c: char) -> int {
    c as int - '0' as int
}

/// Whether `s` is one or more decimal digits.
pub open spec fn all_digits(s: Seq<char>) -> bool {
    s.len() > 0 && (forall|i: int| 0 <= i < s.len() ==> is_digit(s[i]))
}

/// Whether `s` is zero or more decimal digits.
pub open spec fn digits_or_empty(s: Seq<char>) -> bool {
    forall|i: int| 0 <= i < s.len() ==> is_digit(s[i])
}

/// The value of a digit string, most significant digit first.
pub open spec fn digits_val(s: Seq<char>) -> int
    decreases s.len(),
{
    if s.len() == 0 {
        0
    } else {
        digits_val(s.drop_last()) * 10 + digit_val(s.last())
    }
}

/// `s` without a single leading `+` or `-`.
pub open spec fn strip_sign(s: Seq<char>) -> Seq<char> {
    if s.len() > 0 && (s[0] == '+' || s[0] == '-') {
        s.drop_first()
    } else {
        s
    }
}

/// `s` without a single leading `+`.
pub open spec fn strip_plus(s: Seq<char>) -> Seq<char> {
    if s.len() > 0 && s[0] == '+' {
        s.drop_first()
    } else {
        s
    }
}

/// Whether `s` is the text of an unsigned 64-bit integer: an optional `+`,
/// then digits whose value fits.
pub open spec fn is_u64_text(s: Seq<char>) -> bool {
    all_digits(strip_plus(s)) && digits_val(strip_plus(s)) <= u64::MAX
}

/// The integer value of a `is_u64_text` string.
pub open spec fn u64_text_val(s: Seq<char>) -> int {
    digits_val(strip_plus(s))
}

proof fn lemma_digits_val_step(s: Seq<char>, i: int)
    requires
        0 <= i < s.len(),
    ensures
        digits_val(s.take(i + 1)) == digits_val(s.take(i)) * 10 + digit_val(s[i]),
{
    assert(s.take(i + 1).drop_last() =~= s.take(i));
    assert(s.take(i + 1).last() == s[i]);
}

proof fn lemma_digits_val_nonneg(s: Seq<char>)
    requires
        digits_or_empty(s),
    ensures
        digits_val(s) >= 0,
    decreases s.len(),
{
    if s.len() > 0 {
        assert(digits_or_empty(s.drop_last()));
        lemma_digits_val_nonneg(s.drop_last());
        assert(is_digit(s.last()));
        assert(digits_val(s.drop_last()) * 10 >= 0) by (nonlinear_arith)
            requires
                digits_val(s.drop_last()) >= 0,
        ;
    }
}

proof fn lemma_digits_val_mono(s: Seq<char>, i: int, j: int)
    requires
        0 <= i <= j <= s.len(),
        digits_or_empty(s),
    ensures
        digits_val(s.take(i)) <= digits_val(s.take(j)),
    decreases j - i,
{
    if i < j {
        lemma_digits_val_mono(s, i, j - 1);
        lemma_digits_val_step(s, j - 1);
        assert(digits_or_empty(s.take(j - 1)));
        lemma_digits_val_nonneg(s.take(j - 1));
        let v = digits_val(s.take(j - 1));
        assert(v * 10 >= v) by (nonlinear_arith)
            requires
                v >= 0,
        ;
    }
}

/// Parses `s` as an unsigned 64-bit integer; returns `None` exactly when `s`
/// is not such a number.
pub fn parse_u64(s: &str) -> (r: Option<u64>)
    ensures
        match r {
            Some(v) => is_u64_text(s@) && v as int == u64_text_val(s@),
            None => !is_u64_text(s@),
        },
{
    let n = s.unicode_len();
    let start: usize = if n > 0 && s.get_char(0) == '+' {
        1
    } else {
        0
    };
    let ghost digits = strip_plus(s@);
    proof {
        assert(digits =~= s@.skip(start as int));
    }
    if start == n {
        proof {
            assert(digits.len() == 0);
        }
        return None;
    }
    let mut acc: u64 = 0;
    let mut i: usize = start;
    while i < n
        invariant
            start <= i <= n,
            n == s@.len(),
            start < n,
            digits == strip_plus(s@),
            digits =~= s@.skip(start as int),
            forall|j: int| start <= j < i ==> is_digit(s@[j]),
            acc as int == digits_val(digits.take(i - start)),
        decreases n - i,
    {
        let c = s.get_char(i);
        if !('0' <= c && c <= '9') {
            proof {
                assert(digits[i - start] == s@[i as int]);
                assert(!all_digits(digits));
            }
            return None;
        }
        let d: u64 = ((c as u32) - ('0' as u32)) as u64;
        proof {
            assert(digits[i - start] == s@[i as int]);
            assert(forall|j: int| 0 <= j < i - start ==> digits[j] == s@[start + j]);
            lemma_digits_val_step(digits, i - start);
        }
        let step = match acc.checked_mul(10) {
            Some(m) => m.checked_add(d),
            None => None,
        };
        match step {
            Some(v) => {
                acc = v;
            },
            None => {
                proof {
                    if is_u64_text(s@) {
                        assert(digits_or_empty(digits));
                        lemma_digits_val_mono(digits, i - start + 1, digits.len() as int);
                        assert(digits.take(digits.len() as int) =~= digits);
                    }
                }
                return None;
            },
        }
        i += 1;
    }
    proof {
        assert(digits.take(n - start) =~= digits);
        assert(all_digits(digits));
    }
    Some(acc)
}

/// The first position of an exponent letter `e` or `E`, or `-1`.
pub open spec fn find_exp_idx(s: Seq<char>) -> int
    decreases s.len(),
{
    if s.len() == 0 {
        -1
    } else if s[0] == 'e' || s[0] == 'E' {
        0
    } else {
        let r = find_exp_idx(s.drop_first());
        if r == -1 {
            -1
        } else {
            r + 1
        }
    }
}

proof fn lemma_find_exp_idx(s: Seq<char>)
    ensures
        find_exp_idx(s) == -1 ==> forall|i: int| 0 <= i < s.len() ==> s[i] != 'e' && s[i] != 'E',
        find_exp_idx(s) != -1 ==> {
            let r = find_exp_idx(s);
            &&& 0 <= r < s.len()
            &&& (s[r] == 'e' || s[r] == 'E')
            &&& forall|i: int| 0 <= i < r ==> s[i] != 'e' && s[i] != 'E'
        },
    decreases s.len(),
{
    if s.len() == 0 {
    } else if s[0] == 'e' || s[0] == 'E' {
    } else {
        lemma_find_exp_idx(s.drop_first());
        let r = find_exp_idx(s.drop_first());
        if r != -1 {
            assert forall|i: int| 0 <= i < r + 1 implies s[i] != 'e' && s[i] != 'E' by {
                if i > 0 {
                    assert(s.drop_first()[i - 1] != 'e' && s.drop_first()[i - 1] != 'E');
                }
            }
        } else {
            assert forall|i: int| 0 <= i < s.len() implies s[i] != 'e' && s[i] != 'E' by {
                if i > 0 {
                    assert(s.drop_first()[i - 1] != 'e' && s.drop_first()[i - 1] != 'E');
                }
            }
        }
    }
}

/// Whether `m` is a valid mantissa: digits, optionally with one decimal
/// point, and at least one digit overall.
pub open spec fn is_mantissa(m: Seq<char>) -> bool {
    let d = find_char_idx(m, '.');
    if d == -1 {
        all_digits(m)
    } else {
        digits_or_empty(m.take(d)) && digits_or_empty(m.skip(d + 1)) && m.len() > 1
    }
}

/// Whether `e` is a valid exponent: an optional sign, then digits.
pub open spec fn is_exponent(e: Seq<char>) -> bool {
    all_digits(strip_sign(e))
}

/// Whether `b` (sign already stripped) is a number in floating-point syntax.
pub open spec fn is_float_number(b: Seq<char>) -> bool {
    let e = find_exp_idx(b);
    if e == -1 {
        is_mantissa(b)
    } else {
        is_mantissa(b.take(e)) && is_exponent(b.skip(e + 1))
    }
}

/// Whether `s` is floating-point text: an optional sign, then an infinity or
/// not-a-number word in any letter case, or a mantissa with an optional
/// exponent.
pub open spec fn is_float_text(s: Seq<char>) -> bool {
    let b = strip_sign(s);
    ||| upper_seq(b) == "INF"@
    ||| upper_seq(b) == "INFINITY"@
    ||| upper_seq(b) == "NAN"@
    ||| is_float_number(b)
}

proof fn lemma_backslash_not_mantissa(m: Seq<char>)
    requires
        m.len() > 0 ==> m[0] == '\\',
    ensures
        !is_mantissa(m),
{
    lemma_find_char_idx(m, '.');
    let d = find_char_idx(m, '.');
    if m.len() == 0 {
    } else if d == -1 {
        assert(!is_digit(m[0]));
    } else if d == 0 {
        assert(m[0] == '.');
    } else {
        assert(m.take(d)[0] == m[0]);
        assert(!is_digit(m.take(d)[0]));
    }
}

/// A changed text that begins with a backslash is never retyped: it stays a
/// string, whatever follows the backslash.
pub proof fn lemma_backslash_stays_string(orig: Seq<char>, out: Seq<char>)
    requires
        out.len() > 0,
        out[0] == '\\',
        out != orig,
    ensures
        coerced(orig, out) == NodeV::Str(out),
{
    reveal_strlit("INF");
    reveal_strlit("INFINITY");
    reveal_strlit("NAN");
    reveal_strlit("true");
    reveal_strlit("false");
    assert(!is_digit(out[0]));
    assert(strip_plus(out) == out);
    assert(!is_u64_text(out));
    let b = strip_sign(out);
    assert(b == out);
    assert(upper_seq(b)[0] == '\\');
    assert(upper_seq(b) != "INF"@);
    assert(upper_seq(b) != "INFINITY"@);
    assert(upper_seq(b) != "NAN"@);
    lemma_find_exp_idx(b);
    let e = find_exp_idx(b);
    if e == -1 {
        lemma_backslash_not_mantissa(b);
    } else {
        if e == 0 {
            assert(b.take(0).len() == 0);
            lemma_backslash_not_mantissa(b.take(0));
        } else {
            assert(b.take(e)[0] == '\\');
            lemma_backslash_not_mantissa(b.take(e));
        }
    }
    assert(!is_float_text(out));
    assert(out != "true"@);
    assert(out != "false"@);
}

/// Whether the characters of `s` at positions `from..to` are all digits.
fn digits_range(s: &str, from: usize, to: usize) -> (r: bool)
    requires
        from <= to <= s@.len(),
    ensures
        r == forall|i: int| from <= i < to ==> is_digit(s@[i]),
{
    let mut i: usize = from;
    while i < to
        invariant
            from <= i <= to,
            to <= s@.len(),
            forall|j: int| from <= j < i ==> is_digit(s@[j]),
        decreases to - i,
    {
        let c = s.get_char(i);
        if !('0' <= c && c <= '9') {
            return false;
        }
        i += 1;
    }
    true
}

/// Whether `m` is a valid mantissa, per `is_mantissa`.
fn check_mantissa(m: &str) -> (r: bool)
    ensures
        r == is_mantissa(m@),
{
    let n = m.unicode_len();
    match find_char(m, '.') {
        None => {
            if n == 0 {
                return false;
            }
            let ok = digits_range(m, 0, n);
            proof {
                if ok {
                    assert(all_digits(m@));
                } else {
                    let i = choose|i: int| 0 <= i < n && !is_digit(m@[i]);
                    assert(!all_digits(m@));
                }
            }
            ok
        },
        Some(d) => {
            proof {
                lemma_find_char_idx(m@, '.');
            }
            if n <= 1 {
                return false;
            }
            let left = digits_range(m, 0, d);
            let right = digits_range(m, d + 1, n);
            proof {
                let dd = d as int;
                assert(forall|i: int| 0 <= i < dd ==> #[trigger] m@.take(dd)[i] == m@[i]);
                assert(forall|i: int|
                    0 <= i < m@.len() - dd - 1 ==> #[trigger] m@.skip(dd + 1)[i] == m@[dd + 1
                        + i]);
                if left && right {
                    assert(digits_or_empty(m@.take(dd)));
                    assert(digits_or_empty(m@.skip(dd + 1)));
                } else if !left {
                    let i = choose|i: int| 0 <= i < dd && !is_digit(m@[i]);
                    assert(m@.take(dd)[i] == m@[i]);
                    assert(!digits_or_empty(m@.take(dd)));
                } else {
                    let i = choose|i: int| d + 1 <= i < n && !is_digit(m@[i]);
                    assert(m@.skip(dd + 1)[i - dd - 1] == m@[i]);
                    assert(!digits_or_empty(m@.skip(dd + 1)));
                }
            }
            left && right
        },
    }
}

/// The first exponent-letter position in `s`, per `find_exp_idx`.
fn find_exp(s: &str) -> (r: Option<usize>)
    ensures
        match r {
            Some(j) => find_exp_idx(s@) == j && j < s@.len(),
            None => find_exp_idx(s@) == -1,
        },
{
    let n = s.unicode_len();
    let mut i: usize = 0;
    while i < n
        invariant
            i <= n,
            n == s@.len(),
            forall|j: int| 0 <= j < i ==> s@[j] != 'e' && s@[j] != 'E',
        decreases n - i,
    {
        let c = s.get_char(i);
        if c == 'e' || c == 'E' {
            proof {
                lemma_find_exp_idx(s@);
                let f = find_exp_idx(s@);
                assert(f != -1);
                assert(f == i) by {
                    if f < i {
                        assert(s@[f] != 'e' && s@[f] != 'E');
                    }
                    if f > i {
                        assert(s@[i as int] != 'e' && s@[i as int] != 'E');
                    }
                }
            }
            return Some(i);
        }
        i += 1;
    }
    proof {
        lemma_find_exp_idx(s@);
        if find_exp_idx(s@) != -1 {
            let f = find_exp_idx(s@);
            assert(s@[f] != 'e' && s@[f] != 'E');
        }
    }
    None
}

/// Whether `s` is floating-point text, per `is_float_text`.
pub fn is_float(s: &str) -> (r: bool)
    ensures
        r == is_float_text(s@),
{
    let n = s.unicode_len();
    let b: &str = if n > 0 && (s.get_char(0) == '+' || s.get_char(0) == '-') {
        s.substring_char(1, n)
    } else {
        s
    };
    proof {
        assert(b@ =~= strip_sign(s@));
    }
    let ub = ascii_upper(b);
    if str_eq(ub.as_str(), "INF") || str_eq(ub.as_str(), "INFINITY") || str_eq(
        ub.as_str(),
        "NAN",
    ) {
        return true;
    }
    let bn = b.unicode_len();
    match find_exp(b) {
        None => check_mantissa(b),
        Some(e) => {
            let mant = b.substring_char(0, e);
            let exp = b.substring_char(e + 1, bn);
            proof {
                assert(mant@ =~= b@.take(e as int));
                assert(exp@ =~= b@.skip(e as int + 1));
            }
            if !check_mantissa(mant) {
                return false;
            }
            let en = exp.unicode_len();
            let estart: usize = if en > 0 && (exp.get_char(0) == '+' || exp.get_char(0)
                == '-') {
                1
            } else {
                0
            };
            proof {
                assert(strip_sign(exp@) =~= exp@.skip(estart as int));
            }
            if en == estart {
                return false;
            }
            let eok = digits_range(exp, estart, en);
            proof {
                let ss = strip_sign(exp@);
                assert(forall|i: int|
                    0 <= i < en - estart ==> #[trigger] ss[i] == exp@[estart + i]);
                if eok {
                    assert(all_digits(ss));
                } else {
                    let i = choose|i: int| estart <= i < en && !is_digit(exp@[i]);
                    assert(ss[i - estart] == exp@[i]);
                    assert(!all_digits(ss));
                }
            }
            eok
        },
    }
}

/// Whether `s` is exactly one of the two boolean literals.
pub open spec fn is_bool_text(s: Seq<char>) -> bool {
    s == "true"@ || s == "false"@
}

/// The scalar that a changed string leaf becomes: unchanged text stays a
/// string, otherwise the first of unsigned integer, floating-point number and
/// boolean whose syntax the text matches, and failing all three the text
/// itself.
pub open spec fn coerced(orig: Seq<char>, out: Seq<char>) -> NodeV {
    if out == orig {
        NodeV::Str(orig)
    } else if is_u64_text(out) {
        NodeV::UInt(u64_text_val(out) as u64)
    } else if is_float_text(out) {
        NodeV::Float(out)
    } else if is_bool_text(out) {
        NodeV::Bool(out == "true"@)
    } else {
        NodeV::Str(out)
    }
}

/// Coerces the substituted text `out` of a leaf whose original text was
/// `orig`.
pub fn coerce(orig: &str, out: String) -> (r: Node)
    ensures
        r@ == coerced(orig@, out@),
{
    if str_eq(out.as_str(), orig) {
        return Node::Str(String::from_str(orig));
    }
    match parse_u64(out.as_str()) {
        Some(v) => {
            return Node::UInt(v);
        },
        None => {},
    }
    if is_float(out.as_str()) {
        return Node::Float(out);
    }
    if str_eq(out.as_str(), "true") {
        return Node::Bool(true);
    }
    if str_eq(out.as_str(), "false") {
        return Node::Bool(false);
    }
    Node::Str(out)
}

} // verus!
