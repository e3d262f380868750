//! Small verified helpers on strings: comparison and decimal rendering.

use vstd::prelude::*;
use vstd::string::{StringExecFns, StringExecFnsIsAscii};

verus! {

/// String-slice equality, decided through `String` comparison.
pub fn str_eq(a: &str, b: &str) -> (r: bool)
    ensures
        r == (a@ == b@),
{
    let sa: String = String::from_str(a);
    let sb: String = String::from_str(b);
    sa == sb
}

/// The decimal digit character for `d` in `0..10`.
pub open spec fn digit_char(d: int) -> char {
    if d == 0 {
        '0'
    } else if d == 1 {
        '1'
    } else if d == 2 {
        '2'
    } else if d == 3 {
        '3'
    } else if d == 4 {
        '4'
    } else if d == 5 {
        '5'
    } else if d == 6 {
        '6'
    } else if d == 7 {
        '7'
    } else if d == 8 {
        '8'
    } else {
        '9'
    }
}

/// The usual decimal rendering of `n`: most significant digit first, no
/// leading zeros (a single `'0'` for zero).
pub open spec fn decimal_spec(n: int) -> Seq<char>
    decreases n,
{
    if n < 10 {
        seq![digit_char(n)]
    } else {
        decimal_spec(n / 10).push(digit_char(n % 10))
    }
}

/// One decimal digit as a string.
fn digit_str(d: u64) -> (s: String)
    requires
        d < 10,
    ensures
        s@ =~= seq![digit_char(d as int)],
{
    let t: &str = if d == 0 {
        "0"
    } else if d == 1 {
        "1"
    } else if d == 2 {
        "2"
    } else if d == 3 {
        "3"
    } else if d == 4 {
        "4"
    } else if d == 5 {
        "5"
    } else if d == 6 {
        "6"
    } else if d == 7 {
        "7"
    } else if d == 8 {
        "8"
    } else {
        "9"
    };
    proof {
        reveal_strlit("0");
        reveal_strlit("1");
        reveal_strlit("2");
        reveal_strlit("3");
        reveal_strlit("4");
        reveal_strlit("5");
        reveal_strlit("6");
        reveal_strlit("7");
        reveal_strlit("8");
        reveal_strlit("9");
    }
    String::from_str(t)
}

/// Whether `c` is a decimal digit.
pub open spec fn is_digit_char(c: char) -> bool {
    '0' <= c <= '9'
}

/// Numeric value of a digit character.
pub open spec fn digit_val(c: char) -> int {
    c as int - '0' as int
}

/// Whether every character of `s` is a decimal digit.
pub open spec fn all_digits(s: Seq<char>) -> bool {
    forall|i: int| 0 <= i < s.len() ==> is_digit_char(#[trigger] s[i])
}

/// The number written by a digit sequence, most significant digit first.
pub open spec fn digits_val(s: Seq<char>) -> int
    decreases s.len(),
{
    if s.len() == 0 {
        0
    } else {
        digits_val(s.drop_last()) * 10 + digit_val(s.last())
    }
}

/// A canonical decimal: non-empty, all digits, no leading zero.
pub open spec fn canonical_digits(s: Seq<char>) -> bool {
    s.len() > 0 && all_digits(s) && (s.len() == 1 || s[0] != '0')
}

/// Index of the first `'_'` in `s`, or -1 when there is none.
pub open spec fn first_underscore(s: Seq<char>) -> int
    decreases s.len(),
{
    if s.len() == 0 {
        -1
    } else if s[0] == '_' {
        0
    } else {
        let r = first_underscore(s.skip(1));
        if r < 0 {
            -1
        } else {
            r + 1
        }
    }
}

/// `first_underscore` finds exactly the first underscore position.
pub proof fn lemma_first_underscore_at(s: Seq<char>, p: int)
    requires
        0 <= p < s.len(),
        s[p] == '_',
        forall|m: int| 0 <= m < p ==> s[m] != '_',
    ensures
        first_underscore(s) == p,
    decreases s.len(),
{
    if p > 0 {
        assert(s.skip(1)[p - 1] == '_');
        assert(forall|m: int| 0 <= m < p - 1 ==> #[trigger] s.skip(1)[m] == s[m + 1]);
        lemma_first_underscore_at(s.skip(1), p - 1);
    }
}

/// Without any underscore, `first_underscore` reports -1.
pub proof fn lemma_first_underscore_none(s: Seq<char>)
    requires
        forall|m: int| 0 <= m < s.len() ==> s[m] != '_',
    ensures
        first_underscore(s) == -1,
    decreases s.len(),
{
    if s.len() > 0 {
        assert(forall|m: int| 0 <= m < s.skip(1).len() ==> #[trigger] s.skip(1)[m] == s[m + 1]);
        lemma_first_underscore_none(s.skip(1));
    }
}

/// The decimal rendering of `n >= 0` is canonical, consists of digits, and
/// reads back as `n`.
pub proof fn lemma_decimal_canonical(n: int)
    requires
        n >= 0,
    ensures
        canonical_digits(decimal_spec(n)),
        digits_val(decimal_spec(n)) == n,
        n >= 1 ==> decimal_spec(n)[0] != '0',
    decreases n,
{
    if n < 10 {
        assert(decimal_spec(n) =~= seq![digit_char(n)]);
        assert(digit_val(digit_char(n)) == n);
        assert(digits_val(Seq::<char>::empty()) == 0);
        assert(seq![digit_char(n)].last() == digit_char(n));
        assert(seq![digit_char(n)].drop_last() =~= Seq::<char>::empty());
        assert(digits_val(decimal_spec(n)) == n);
    } else {
        vstd::arithmetic::div_mod::lemma_div_pos_is_pos(n, 10);
        vstd::arithmetic::div_mod::lemma_div_is_ordered(10, n, 10);
        assert(n / 10 < n) by (nonlinear_arith)
            requires
                n >= 10,
        ;
        lemma_decimal_canonical(n / 10);
        let d = decimal_spec(n);
        let pre = decimal_spec(n / 10);
        assert(d == pre.push(digit_char(n % 10)));
        assert(d.drop_last() =~= pre);
        assert(d.last() == digit_char(n % 10));
        vstd::arithmetic::div_mod::lemma_mod_bound(n, 10);
        assert(digit_val(digit_char(n % 10)) == n % 10);
        vstd::arithmetic::div_mod::lemma_fundamental_div_mod(n, 10);
        assert(digits_val(d) == (n / 10) * 10 + n % 10);
        assert(10 * (n / 10) == (n / 10) * 10) by (nonlinear_arith);
        assert(d[0] == pre[0]);
        assert(n / 10 >= 1);
    }
}

/// Growing a digit prefix never shrinks its value.
pub proof fn lemma_digits_val_prefix_le(s: Seq<char>, j: int)
    requires
        all_digits(s),
        0 <= j <= s.len(),
    ensures
        digits_val(s.take(j)) <= digits_val(s),
        digits_val(s) >= 0,
    decreases s.len() - j,
{
    if j == s.len() {
        assert(s.take(j) =~= s);
        lemma_digits_val_nonneg(s);
    } else {
        lemma_digits_val_prefix_le(s, j + 1);
        let t = s.take(j + 1);
        assert(t.drop_last() =~= s.take(j));
        lemma_digits_val_nonneg(s.take(j));
        assert(digits_val(s.take(j)) * 10 >= digits_val(s.take(j))) by (nonlinear_arith)
            requires
                digits_val(s.take(j)) >= 0,
        ;
        assert(digit_val(t.last()) >= 0);
    }
}

/// The value of a digit sequence is non-negative.
pub proof fn lemma_digits_val_nonneg(s: Seq<char>)
    requires
        all_digits(s),
    ensures
        digits_val(s) >= 0,
    decreases s.len(),
{
    if s.len() > 0 {
        assert(all_digits(s.drop_last())) by {
            assert(forall|i: int|
                0 <= i < s.len() - 1 ==> #[trigger] s.drop_last()[i] == s[i]);
        }
        lemma_digits_val_nonneg(s.drop_last());
        assert(digits_val(s.drop_last()) * 10 >= 0) by (nonlinear_arith)
            requires
                digits_val(s.drop_last()) >= 0,
        ;
    }
}

/// Render `n` in decimal; mirrors `decimal_spec`.
pub fn u64_to_string(n: u64) -> (s: String)
    ensures
        s@ == decimal_spec(n as int),
    decreases n,
{
    if n < 10 {
        let s = digit_str(n);
        proof {
            assert(s@ == decimal_spec(n as int));
        }
        s
    } else {
        let mut s = u64_to_string(n / 10);
        let d = digit_str(n % 10);
        s.append(d.as_str());
        proof {
            assert(s@ =~= decimal_spec((n / 10) as int).push(digit_char((n % 10) as int)));
        }
        s
    }
}

} // verus!
