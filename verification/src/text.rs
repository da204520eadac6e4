//! Decimal text: rendering a number as decimal digits, parsing decimal
//! digits back, and taking the first space-delimited token of a line.
//!
//! The crawl needs these in three places: page numbers inside page
//! addresses, the advertised page and item counts read during discovery,
//! and the sequence component of cache file names. The rendering is
//! injective, which the uniqueness of cache file names rests on.

use vstd::prelude::*;

verus! {

/// The decimal digit character for `d`.
pub open spec fn digit_char(d: int) -> char {
    if d == 0 {
        '0'
    } else if d == 1 {
        '1'
    } else if d == 2 {
        '2'
    } else if d == 3 {
        '3'
    } else if d == 4 {
        '4'
    } else if d == 5 {
        '5'
    } else if d == 6 {
        '6'
    } else if d == 7 {
        '7'
    } else if d == 8 {
        '8'
    } else {
        '9'
    }
}

/// Whether `c` is a decimal digit character.
pub open spec fn is_digit(c: char) -> bool {
    48 <= c as int && c as int <= 57
}

/// The numeric value of a digit character.
pub open spec fn digit_val(c: char) -> int {
    c as int - 48
}

/// The decimal rendering of `n`, most significant digit first, with no
/// leading zeros (`0` renders as `"0"`).
pub open spec fn dec_chars(n: nat) -> Seq<char>
    decreases n,
{
    if n < 10 {
        seq![digit_char(n as int)]
    } else {
        dec_chars(n / 10).push(digit_char((n % 10) as int))
    }
}

/// Whether every character of `s` is a decimal digit.
pub open spec fn all_digits(s: Seq<char>) -> bool {
    forall|i: int| 0 <= i < s.len() ==> is_digit(s[i])
}

/// The numeric value of a digit string, most significant digit first.
pub open spec fn dec_value(s: Seq<char>) -> int
    decreases s.len(),
{
    if s.len() == 0 {
        0
    } else {
        dec_value(s.drop_last()) * 10 + digit_val(s.last())
    }
}

/// What parsing a decimal number from `s` yields: the value, if `s` is a
/// nonempty string of digits whose value fits in a `u64`; nothing
/// otherwise.
pub open spec fn parse_u64_spec(s: Seq<char>) -> Option<u64> {
    if s.len() > 0 && all_digits(s) && dec_value(s) <= u64::MAX {
        Some(dec_value(s) as u64)
    } else {
        None
    }
}

/// The longest space-free prefix of `s`.
pub open spec fn first_token_spec(s: Seq<char>) -> Seq<char>
    decreases s.len(),
{
    if s.len() == 0 || s[0] == ' ' {
        Seq::empty()
    } else {
        seq![s[0]] + first_token_spec(s.drop_first())
    }
}

/// A decimal rendering consists of digits alone.
pub proof fn lemma_dec_chars_digits(n: nat)
    ensures
        dec_chars(n).len() >= 1,
        all_digits(dec_chars(n)),
    decreases n,
{
    if n >= 10 {
        lemma_dec_chars_digits(n / 10);
    }
}

/// The value of a digit string is nonnegative.
pub proof fn lemma_dec_value_nonneg(s: Seq<char>)
    requires
        all_digits(s),
    ensures
        dec_value(s) >= 0,
    decreases s.len(),
{
    if s.len() > 0 {
        lemma_dec_value_nonneg(s.drop_last());
    }
}

/// Appending digits never shrinks the value.
pub proof fn lemma_dec_value_prefix_mono(s: Seq<char>, j: int)
    requires
        all_digits(s),
        0 <= j <= s.len(),
    ensures
        dec_value(s.take(j)) <= dec_value(s),
    decreases s.len(),
{
    if j < s.len() {
        assert(s.take(j) == s.drop_last().take(j));
        assert(all_digits(s.drop_last()));
        lemma_dec_value_prefix_mono(s.drop_last(), j);
        lemma_dec_value_nonneg(s.drop_last());
    } else {
        assert(s.take(j) == s);
    }
}

/// A digit survives the round trip through its character.
pub proof fn lemma_digit_roundtrip(d: int)
    requires
        0 <= d < 10,
    ensures
        digit_val(digit_char(d)) == d,
        is_digit(digit_char(d)),
{
    assert('0' as int == 48);
    assert('1' as int == 49);
    assert('2' as int == 50);
    assert('3' as int == 51);
    assert('4' as int == 52);
    assert('5' as int == 53);
    assert('6' as int == 54);
    assert('7' as int == 55);
    assert('8' as int == 56);
    assert('9' as int == 57);
}

/// Rendering and evaluating are inverse: the value of `dec_chars(n)` is `n`.
pub proof fn lemma_dec_chars_value(n: nat)
    ensures
        dec_value(dec_chars(n)) == n,
    decreases n,
{
    lemma_digit_roundtrip((n % 10) as int);
    if n < 10 {
        lemma_digit_roundtrip(n as int);
        assert(dec_chars(n) == seq![digit_char(n as int)]);
        assert(dec_chars(n).drop_last() =~= Seq::<char>::empty());
        assert(dec_chars(n).last() == digit_char(n as int));
        assert(dec_value(dec_chars(n)) == dec_value(Seq::<char>::empty()) * 10 + digit_val(
            digit_char(n as int),
        ));
    } else {
        lemma_dec_chars_value(n / 10);
        assert(dec_chars(n) == dec_chars(n / 10).push(digit_char((n % 10) as int)));
        assert(dec_chars(n).drop_last() =~= dec_chars(n / 10));
        assert(dec_chars(n).last() == digit_char((n % 10) as int));
        assert(dec_value(dec_chars(n)) == dec_value(dec_chars(n / 10)) * 10 + digit_val(
            digit_char((n % 10) as int),
        ));
        assert(dec_value(dec_chars(n)) == (n / 10) * 10 + (n % 10));
    }
}

/// Decimal rendering is injective: distinct numbers render as distinct
/// digit strings.
pub proof fn lemma_dec_chars_injective(a: nat, b: nat)
    requires
        dec_chars(a) == dec_chars(b),
    ensures
        a == b,
{
    lemma_dec_chars_value(a);
    lemma_dec_chars_value(b);
}

/// A decimal rendering never contains a separator character such as `-`.
pub proof fn lemma_dec_chars_no_char(n: nat, c: char)
    requires
        !is_digit(c),
    ensures
        !dec_chars(n).contains(c),
    decreases n,
{
    lemma_dec_chars_digits(n);
    if dec_chars(n).contains(c) {
        let i = choose|i: int| 0 <= i < dec_chars(n).len() && dec_chars(n)[i] == c;
        assert(is_digit(dec_chars(n)[i]));
    }
}

/// The digit character for a digit below ten, as a one-character string.
fn digit_str(d: u64) -> (r: &'static str)
    requires
        d < 10,
    ensures
        r@ =~= seq![digit_char(d as int)],
{
    proof {
        reveal_strlit("0");
        reveal_strlit("1");
        reveal_strlit("2");
        reveal_strlit("3");
        reveal_strlit("4");
        reveal_strlit("5");
        reveal_strlit("6");
        reveal_strlit("7");
        reveal_strlit("8");
        reveal_strlit("9");
    }
    match d {
        0 => "0",
        1 => "1",
        2 => "2",
        3 => "3",
        4 => "4",
        5 => "5",
        6 => "6",
        7 => "7",
        8 => "8",
        _ => "9",
    }
}

/// The digit characters of the `ds` written backwards.
spec fn rev_digit_chars(ds: Seq<u8>) -> Seq<char> {
    Seq::new(ds.len(), |i: int| digit_char(ds[ds.len() - 1 - i] as int))
}

/// Renders `n` as its decimal digits.
pub fn to_decimal(n: u64) -> (r: String)
    ensures
        r@ == dec_chars(n as nat),
{
    let mut digits: Vec<u8> = Vec::new();
    let d0: u64 = n % 10;
    digits.push(d0 as u8);
    let mut m: u64 = n / 10;
    proof {
        assert(rev_digit_chars(digits@) =~= seq![digit_char(d0 as int)]);
        if m > 0 {
            assert(dec_chars(n as nat) =~= dec_chars(m as nat) + rev_digit_chars(digits@));
        }
    }
    while m > 0
        invariant
            m > 0 ==> dec_chars(n as nat) =~= dec_chars(m as nat) + rev_digit_chars(digits@),
            m == 0 ==> dec_chars(n as nat) =~= rev_digit_chars(digits@),
            forall|j: int| 0 <= j < digits@.len() ==> digits@[j] < 10,
        decreases m,
    {
        let ghost pre = digits@;
        let d: u64 = m % 10;
        digits.push(d as u8);
        proof {
            assert(rev_digit_chars(digits@) =~= seq![digit_char(d as int)] + rev_digit_chars(pre));
            if m >= 10 {
                assert(dec_chars(m as nat) == dec_chars((m / 10) as nat).push(
                    digit_char((m % 10) as int),
                ));
                assert(dec_chars(m as nat) =~= dec_chars((m / 10) as nat) + seq![
                    digit_char(d as int),
                ]);
                assert(dec_chars((m / 10) as nat) + rev_digit_chars(digits@) =~= (dec_chars(
                    (m / 10) as nat,
                ) + seq![digit_char(d as int)]) + rev_digit_chars(pre));
            } else {
                assert(dec_chars(m as nat) =~= seq![digit_char(d as int)]);
                assert(rev_digit_chars(digits@) =~= dec_chars(m as nat) + rev_digit_chars(pre));
            }
        }
        m = m / 10;
    }
    let mut out = String::new();
    let mut i = digits.len();
    while i > 0
        invariant
            i <= digits@.len(),
            out@ =~= rev_digit_chars(digits@).take(digits@.len() - i),
            forall|j: int| 0 <= j < digits@.len() ==> digits@[j] < 10,
        decreases i,
    {
        i = i - 1;
        let s = digit_str(digits[i] as u64);
        out.append(s);
        proof {
            assert(out@ =~= rev_digit_chars(digits@).take(digits@.len() - i));
        }
    }
    proof {
        assert(rev_digit_chars(digits@).take(digits@.len() as int) =~= rev_digit_chars(digits@));
    }
    out
}

/// Parses `s` as a decimal `u64`: the value, if `s` is a nonempty string
/// of digits whose value fits; `None` otherwise.
pub fn parse_u64(s: &str) -> (r: Option<u64>)
    ensures
        r == parse_u64_spec(s@),
{
    let n: usize = s.unicode_len();
    if n == 0 {
        return None;
    }
    let mut val: u64 = 0;
    let mut i: usize = 0;
    while i < n
        invariant
            0 <= i <= n,
            n == s@.len(),
            all_digits(s@.take(i as int)),
            val == dec_value(s@.take(i as int)),
        decreases n - i,
    {
        let c = s.get_char(i);
        let v: u32 = c as u32;
        if v < 48 || v > 57 {
            assert(!is_digit(s@[i as int]));
            return None;
        }
        let d: u64 = (v - 48) as u64;
        if val > (u64::MAX - d) / 10 {
            proof {
                let t = s@.take(i as int + 1);
                assert(t.drop_last() == s@.take(i as int));
                assert(t.last() == s@[i as int]);
                assert(val * 10 + d > u64::MAX) by (nonlinear_arith)
                    requires
                        val > (u64::MAX - d) / 10,
                        d <= 9,
                ;
                assert(dec_value(t) > u64::MAX);
                if all_digits(s@) {
                    lemma_dec_value_prefix_mono(s@, i as int + 1);
                }
            }
            return None;
        }
        proof {
            let t = s@.take(i as int + 1);
            assert(t.drop_last() == s@.take(i as int));
            assert(t.last() == s@[i as int]);
            assert(val * 10 + d <= u64::MAX) by (nonlinear_arith)
                requires
                    val <= (u64::MAX - d) / 10,
                    d <= 9,
            ;
        }
        val = val * 10 + d;
        i = i + 1;
    }
    proof {
        assert(s@.take(n as int) == s@);
    }
    Some(val)
}

/// Takes the first space-delimited token of `s`.
pub fn first_token(s: &str) -> (r: &str)
    ensures
        r@ == first_token_spec(s@),
{
    let n: usize = s.unicode_len();
    let mut i: usize = 0;
    while i < n && s.get_char(i) != ' '
        invariant
            0 <= i <= n,
            n == s@.len(),
            forall|j: int| 0 <= j < i ==> s@[j] != ' ',
        decreases n - i,
    {
        i = i + 1;
    }
    proof {
        lemma_first_token_take(s@, i as int);
    }
    s.substring_char(0, i)
}

/// A space-free prefix that ends at a space or at the end of the string
/// is the first token.
proof fn lemma_first_token_take(s: Seq<char>, i: int)
    requires
        0 <= i <= s.len(),
        forall|j: int| 0 <= j < i ==> s[j] != ' ',
        i == s.len() || s[i] == ' ',
    ensures
        first_token_spec(s) == s.take(i),
    decreases s.len(),
{
    if s.len() == 0 || s[0] == ' ' {
        assert(i == 0);
        assert(s.take(0) =~= Seq::<char>::empty());
    } else {
        assert(i >= 1);
        lemma_first_token_take(s.drop_first(), i - 1);
        assert(s.drop_first().take(i - 1) =~= s.take(i).drop_first());
        assert(first_token_spec(s) =~= seq![s[0]] + s.drop_first().take(i - 1));
        assert(first_token_spec(s) =~= s.take(i));
    }
}

} // verus!
