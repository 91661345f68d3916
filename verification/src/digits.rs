//! Decimal rendering and parsing of integer identifiers, with the
//! round-trip facts the codec's proofs rest on.

use vstd::prelude::*;

verus! {

/// Whether `c` is a decimal digit.
pub open spec fn is_digit(c: char) -> bool {
    48 <= c as u32 <= 57
}

/// Numeric value of a digit character.
pub open spec fn digit_val(c: char) -> nat
    recommends
        is_digit(c),
{
    (c as u32 - 48) as nat
}

/// The character for one decimal digit value.
pub open spec fn digit_char(d: nat) -> char
    recommends
        d < 10,
{
    if d == 0 {
        '0'
    } else if d == 1 {
        '1'
    } else if d == 2 {
        '2'
    } else if d == 3 {
        '3'
    } else if d == 4 {
        '4'
    } else if d == 5 {
        '5'
    } else if d == 6 {
        '6'
    } else if d == 7 {
        '7'
    } else if d == 8 {
        '8'
    } else {
        '9'
    }
}

/// Canonical decimal rendering of `n`, most significant digit first,
/// with no leading zeros.
pub open spec fn dec_rep(n: nat) -> Seq<char>
    decreases n,
{
    if n < 10 {
        seq![digit_char(n)]
    } else {
        dec_rep(n / 10).push(digit_char(n % 10))
    }
}

/// Left fold of a digit run onto an accumulator: the value of the
/// digits of `d` appended after the digits already folded into `acc`.
pub open spec fn digits_value(acc: nat, d: Seq<char>) -> nat
    decreases d.len(),
{
    if d.len() == 0 {
        acc
    } else {
        digits_value(acc * 10 + digit_val(d[0]), d.drop_first())
    }
}

/// Greedy digit-run parser starting at `i`: folds digits into `acc`
/// until a non-digit or the end, refusing values above `u64::MAX`.
pub open spec fn parse_digits(s: Seq<char>, i: int, acc: u64) -> Option<(u64, int)>
    decreases s.len() - i,
{
    if i < 0 || i >= s.len() || !is_digit(s[i]) {
        Some((acc, i))
    } else if acc as nat * 10 + digit_val(s[i]) > u64::MAX as nat {
        None
    } else {
        parse_digits(s, i + 1, (acc * 10 + digit_val(s[i]) as u64) as u64)
    }
}

/// JSON-style number at `i`: either a lone `0`, or a digit run that
/// does not start with `0`.
pub open spec fn parse_number(s: Seq<char>, i: int) -> Option<(u64, int)> {
    if 0 <= i < s.len() && is_digit(s[i]) {
        if s[i] == '0' {
            Some((0, i + 1))
        } else {
            parse_digits(s, i, 0)
        }
    } else {
        None
    }
}

/// Powers of ten.
pub open spec fn pow10(k: nat) -> nat
    decreases k,
{
    if k == 0 {
        1
    } else {
        10 * pow10((k - 1) as nat)
    }
}

/// Every character of a decimal rendering is a digit.
pub proof fn lemma_dec_rep_digits(n: nat)
    ensures
        forall|k: int| 0 <= k < dec_rep(n).len() ==> is_digit(#[trigger] dec_rep(n)[k]),
        dec_rep(n).len() >= 1,
    decreases n,
{
    if n >= 10 {
        lemma_dec_rep_digits(n / 10);
    }
}

/// A positive number's rendering does not start with `0`.
pub proof fn lemma_dec_rep_leading(n: nat)
    ensures
        n > 0 ==> dec_rep(n)[0] != '0',
        n == 0 ==> dec_rep(n) == seq!['0'],
    decreases n,
{
    if n >= 10 {
        lemma_dec_rep_leading(n / 10);
    }
}

/// Folding never shrinks the accumulator.
pub proof fn lemma_digits_value_ge(acc: nat, d: Seq<char>)
    ensures
        digits_value(acc, d) >= acc,
    decreases d.len(),
{
    if d.len() > 0 {
        lemma_digits_value_ge(acc * 10 + digit_val(d[0]), d.drop_first());
    }
}

/// Folding one more digit onto the right multiplies by ten and adds it.
pub proof fn lemma_digits_value_snoc(acc: nat, d: Seq<char>, c: char)
    ensures
        digits_value(acc, d.push(c)) == digits_value(acc, d) * 10 + digit_val(c),
    decreases d.len(),
{
    assert(d.push(c)[0] == if d.len() == 0 { c } else { d[0] });
    if d.len() == 0 {
        assert(d.push(c).drop_first() =~= Seq::<char>::empty());
        assert(digits_value(acc * 10 + digit_val(c), Seq::<char>::empty()) == acc * 10
            + digit_val(c));
    } else {
        assert(d.push(c).drop_first() =~= d.drop_first().push(c));
        lemma_digits_value_snoc(acc * 10 + digit_val(d[0]), d.drop_first(), c);
    }
}

/// The value of a rendering folded onto `acc` is positional:
/// `acc` shifted past the rendering's digits, plus `n`.
pub proof fn lemma_digits_value_dec_rep(acc: nat, n: nat)
    ensures
        digits_value(acc, dec_rep(n)) == acc * pow10(dec_rep(n).len()) + n,
    decreases n,
{
    if n < 10 {
        assert(digits_value(acc * 10 + n, Seq::<char>::empty()) == acc * 10 + n);
        assert(dec_rep(n) =~= seq![digit_char(n)]);
        assert(dec_rep(n)[0] == digit_char(n));
        assert(dec_rep(n).drop_first() =~= Seq::<char>::empty());
        assert(digit_val(digit_char(n)) == n);
        assert(pow10(0) == 1);
        assert(pow10(1) == 10);
    } else {
        lemma_digits_value_dec_rep(acc, n / 10);
        lemma_digits_value_snoc(acc, dec_rep(n / 10), digit_char(n % 10));
        assert(digit_val(digit_char(n % 10)) == n % 10);
        let l = dec_rep(n / 10).len();
        assert(dec_rep(n).len() == l + 1);
        assert(pow10(l + 1) == 10 * pow10(l));
        assert((acc * pow10(l) + n / 10) * 10 + n % 10 == acc * (10 * pow10(l)) + ((n / 10) * 10
            + n % 10)) by (nonlinear_arith);
        assert((n / 10) * 10 + n % 10 == n) by (nonlinear_arith);
    }
}

/// Parsing a digit run whose fold fits in `u64` yields exactly that fold,
/// stopping at the first non-digit.
pub proof fn lemma_parse_digit_run(s: Seq<char>, i: int, acc: u64, j: int)
    requires
        0 <= i <= j <= s.len(),
        forall|k: int| i <= k < j ==> is_digit(#[trigger] s[k]),
        j == s.len() || !is_digit(s[j]),
        digits_value(acc as nat, s.subrange(i, j)) <= u64::MAX,
    ensures
        parse_digits(s, i, acc) == Some((digits_value(acc as nat, s.subrange(i, j)) as u64, j)),
    decreases j - i,
{
    let d = s.subrange(i, j);
    if i == j {
        assert(d =~= Seq::<char>::empty());
    } else {
        assert(is_digit(s[i]));
        assert(d[0] == s[i]);
        let acc2 = acc as nat * 10 + digit_val(s[i]);
        lemma_digits_value_ge(acc2, d.drop_first());
        assert(d.drop_first() =~= s.subrange(i + 1, j));
        assert(digits_value(acc as nat, d) == digits_value(acc2, s.subrange(i + 1, j)));
        assert(acc2 <= u64::MAX);
        lemma_parse_digit_run(s, i + 1, (acc * 10 + digit_val(s[i]) as u64) as u64, j);
    }
}

/// Round trip for numbers: parsing the canonical rendering of `n`,
/// followed by a non-digit, yields `n` and stops right after it.
pub proof fn lemma_parse_number_dec_rep(s: Seq<char>, i: int, n: u64)
    requires
        0 <= i,
        i + dec_rep(n as nat).len() <= s.len(),
        s.subrange(i, i + dec_rep(n as nat).len() as int) == dec_rep(n as nat),
        i + dec_rep(n as nat).len() == s.len() || !is_digit(
            s[i + dec_rep(n as nat).len() as int],
        ),
    ensures
        parse_number(s, i) == Some((n, i + dec_rep(n as nat).len() as int)),
{
    let l = dec_rep(n as nat).len() as int;
    let j = i + l;
    lemma_dec_rep_digits(n as nat);
    lemma_dec_rep_leading(n as nat);
    assert(forall|k: int| i <= k < j ==> is_digit(#[trigger] s[k])) by {
        assert(forall|k: int| i <= k < j ==> s[k] == dec_rep(n as nat)[k - i]);
    }
    assert(s[i] == dec_rep(n as nat)[0]);
    if n == 0 {
        assert(s[i] == '0');
    } else {
        assert(s[i] != '0');
        lemma_digits_value_dec_rep(0, n as nat);
        assert(0 * pow10(dec_rep(n as nat).len()) + n as nat == n as nat);
        assert(s.subrange(i, j) == dec_rep(n as nat));
        lemma_parse_digit_run(s, i, 0, j);
    }
}

} // verus!
