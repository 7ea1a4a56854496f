//! Decimal numerals: how a number is written, and how it is read back.

use vstd::prelude::*;

verus! {

/// The character that stands for the digit `d`.
pub open spec fn digit_char(d: nat) -> char
    recommends
        d < 10,
{
    ((d + 48) as u8) as char
}

/// Whether `c` is one of `0` to `9`.
pub open spec fn is_digit(c: char) -> bool {
    48 <= c as u32 <= 57
}

/// The digit that the character `c` stands for.
pub open spec fn digit_value(c: char) -> nat
    recommends
        is_digit(c),
{
    (c as u32 - 48) as nat
}

/// The decimal numeral of `n`: no sign, no leading zero, `"0"` for zero.
pub open spec fn decimal(n: nat) -> Seq<char>
    decreases n,
{
    if n < 10 {
        seq![digit_char(n)]
    } else {
        decimal(n / 10).push(digit_char(n % 10))
    }
}

/// Whether `s` is a decimal numeral: one digit or more, and no leading zero
/// before another digit.
pub open spec fn is_numeral(s: Seq<char>) -> bool {
    &&& s.len() > 0
    &&& forall|i: int| 0 <= i < s.len() ==> is_digit(#[trigger] s[i])
    &&& s.len() > 1 ==> s[0] != '0'
}

/// The number that a sequence of digits denotes, read in base ten.
pub open spec fn numeral_value(s: Seq<char>) -> nat
    decreases s.len(),
{
    if s.len() == 0 {
        0
    } else {
        10 * numeral_value(s.drop_last()) + digit_value(s.last())
    }
}

/// A digit character is the character of the digit that it stands for.
pub proof fn lemma_digit_char_of_value(c: char)
    requires
        is_digit(c),
    ensures
        digit_value(c) < 10,
        digit_char(digit_value(c)) == c,
{
    let k = c as u32;
    assert(k as char == c);
    assert((k as u8) as char == k as char);
}

/// A digit's character is a digit character and stands for that digit.
pub proof fn lemma_digit_value_of_char(d: nat)
    requires
        d < 10,
    ensures
        is_digit(digit_char(d)),
        digit_value(digit_char(d)) == d,
{
}

/// Writing a number gives a numeral, and reading that numeral gives the
/// number back. A number of one digit is written with one character and
/// only such a number is.
pub proof fn lemma_decimal_reads_back(n: nat)
    ensures
        is_numeral(decimal(n)),
        numeral_value(decimal(n)) == n,
        n < 10 <==> decimal(n).len() == 1,
        n > 0 ==> decimal(n)[0] != '0',
    decreases n,
{
    lemma_digit_value_of_char(n % 10);
    if n < 10 {
        assert(decimal(n).drop_last() =~= Seq::<char>::empty());
        assert(numeral_value(decimal(n).drop_last()) == 0);
    } else {
        lemma_decimal_reads_back(n / 10);
        let head = decimal(n / 10);
        assert(decimal(n).drop_last() =~= head);
        assert(decimal(n)[0] == head[0]);
    }
}

/// Reading a numeral and writing the number that it denotes gives the
/// numeral back.
pub proof fn lemma_numeral_writes_back(s: Seq<char>)
    requires
        is_numeral(s),
    ensures
        decimal(numeral_value(s)) == s,
        s.len() > 1 ==> numeral_value(s) >= 10,
        s[0] != '0' ==> numeral_value(s) > 0,
    decreases s.len(),
{
    lemma_digit_char_of_value(s.last());
    if s.len() == 1 {
        assert(s.drop_last() =~= Seq::<char>::empty());
        assert(numeral_value(s.drop_last()) == 0);
        assert(decimal(numeral_value(s)) =~= s);
    } else {
        let head = s.drop_last();
        assert(head[0] == s[0]);
        assert(is_numeral(head)) by {
            assert forall|i: int| 0 <= i < head.len() implies is_digit(#[trigger] head[i]) by {
                assert(head[i] == s[i]);
            }
        }
        lemma_numeral_writes_back(head);
        let v = numeral_value(s);
        assert(numeral_value(head) > 0);
        assert(v / 10 == numeral_value(head));
        assert(v % 10 == digit_value(s.last()));
        assert(decimal(v) =~= s);
    }
}

/// How long the numerals of small numbers are.
pub proof fn lemma_decimal_len(n: nat)
    ensures
        n < 10 ==> decimal(n).len() == 1,
        10 <= n < 100 ==> decimal(n).len() == 2,
        100 <= n < 1000 ==> decimal(n).len() == 3,
{
    if 10 <= n < 1000 {
        assert(decimal(n).len() == decimal(n / 10).len() + 1);
        if 100 <= n {
            assert(decimal(n / 10).len() == decimal(n / 10 / 10).len() + 1);
        }
    }
}

/// Reading a longer sequence of digits never gives a smaller number than
/// reading its beginning.
pub proof fn lemma_value_grows(s: Seq<char>, k: int)
    requires
        0 <= k <= s.len(),
        forall|i: int| 0 <= i < s.len() ==> is_digit(#[trigger] s[i]),
    ensures
        numeral_value(s.take(k)) <= numeral_value(s),
    decreases s.len(),
{
    if k == s.len() {
        assert(s.take(k) =~= s);
    } else {
        let head = s.drop_last();
        assert(head.take(k) =~= s.take(k));
        lemma_value_grows(head, k);
    }
}

/// The one-character text of the digit `d`.
pub fn digit_text(d: usize) -> (r: &'static str)
    requires
        d < 10,
    ensures
        r@ == seq![digit_char(d as nat)],
{
    let digits = "0123456789";
    proof {
        reveal_strlit("0123456789");
    }
    assert(digits.is_ascii());
    let r = digits.substring_ascii(d, d + 1);
    assert(r@ =~= seq![digit_char(d as nat)]);
    r
}

/// Writes `n` as a decimal numeral.
pub fn decimal_text(n: usize) -> (r: String)
    ensures
        r@ == decimal(n as nat),
    decreases n,
{
    if n < 10 {
        String::from_str(digit_text(n))
    } else {
        let mut r = decimal_text(n / 10);
        r.append(digit_text(n % 10));
        assert(r@ =~= decimal(n as nat));
        r
    }
}

/// Reads a decimal numeral.
///
/// Gives the number if `s` is a numeral of a number that fits in `u32`, and
/// nothing otherwise.
pub fn read_decimal(s: &str) -> (r: Option<u32>)
    ensures
        r.is_some() <==> is_numeral(s@) && numeral_value(s@) <= u32::MAX,
        r.is_some() ==> r.unwrap() == numeral_value(s@),
{
    let n = s.unicode_len();
    if n == 0 {
        return None;
    }
    let mut value: u32 = 0;
    let mut i: usize = 0;
    while i < n
        invariant
            0 <= i <= n,
            n == s@.len(),
            forall|j: int| 0 <= j < i ==> is_digit(#[trigger] s@[j]),
            i > 1 ==> s@[0] != '0',
            value == numeral_value(s@.take(i as int)),
        decreases n - i,
    {
        let c = s.get_char(i);
        if c < '0' || c > '9' {
            return None;
        }
        if i == 1 && s.get_char(0) == '0' {
            return None;
        }
        let d: u32 = c as u32 - 48;
        proof {
            assert(s@.take(i + 1).drop_last() =~= s@.take(i as int));
            assert(s@.take(i + 1).last() == c);
            assert(numeral_value(s@.take(i + 1)) == 10 * value + d);
            if 10 * value + d > u32::MAX {
                if is_numeral(s@) {
                    lemma_value_grows(s@, i + 1);
                }
            }
        }
        if value > (u32::MAX - d) / 10 {
            return None;
        }
        value = 10 * value + d;
        i = i + 1;
    }
    proof {
        assert(s@.take(n as int) =~= s@);
    }
    Some(value)
}

} // verus!
