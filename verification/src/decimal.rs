//! Numbers in decimal.
use vstd::prelude::*;

verus! {

pub open spec fn digit_char(d: nat) -> char {
    (48 + d) as char
}

pub open spec fn is_digit(c: char) -> bool {
    48 <= c as u32 <= 57
}

/// The number written in decimal, without leading zeros.
pub open spec fn decimal(n: nat) -> Seq<char>
    decreases n,
{
    if n < 10 {
        seq![digit_char(n)]
    } else {
        decimal(n / 10).push(digit_char(n % 10))
    }
}

pub open spec fn all_digits(s: Seq<char>) -> bool {
    forall|i: int| 0 <= i < s.len() ==> is_digit(#[trigger] s[i])
}

/// The number that a sequence of digits stands for.
pub open spec fn decimal_value(s: Seq<char>) -> nat
    decreases s.len(),
{
    if s.len() == 0 {
        0
    } else {
        10 * decimal_value(s.drop_last()) + (s.last() as u32 - 48) as nat
    }
}

/// The text without one leading plus sign, if more follows it.
pub open spec fn unsigned_part(s: Seq<char>) -> Seq<char> {
    if s.len() > 1 && s[0] == '+' {
        s.drop_first()
    } else {
        s
    }
}

/// The number that a text is: an optional plus sign, then one or more digits whose value fits
/// 64 bits.
pub open spec fn parsed(s: Seq<char>) -> Option<u64> {
    let digits = unsigned_part(s);
    if digits.len() > 0 && all_digits(digits) && decimal_value(digits) <= u64::MAX {
        Some(decimal_value(digits) as u64)
    } else {
        None
    }
}

fn digit_text(d: u64) -> (s: &'static str)
    requires
        d < 10,
    ensures
        s@ == seq![digit_char(d as nat)],
{
    proof {
        reveal_strlit("0");
        reveal_strlit("1");
        reveal_strlit("2");
        reveal_strlit("3");
        reveal_strlit("4");
        reveal_strlit("5");
        reveal_strlit("6");
        reveal_strlit("7");
        reveal_strlit("8");
        reveal_strlit("9");
    }
    let s: &'static str = if d == 0 {
        "0"
    } else if d == 1 {
        "1"
    } else if d == 2 {
        "2"
    } else if d == 3 {
        "3"
    } else if d == 4 {
        "4"
    } else if d == 5 {
        "5"
    } else if d == 6 {
        "6"
    } else if d == 7 {
        "7"
    } else if d == 8 {
        "8"
    } else {
        "9"
    };
    assert(s@ =~= seq![digit_char(d as nat)]);
    s
}

/// The number in decimal.
pub fn decimal_text(n: u64) -> (s: String)
    ensures
        s@ == decimal(n as nat),
    decreases n,
{
    if n < 10 {
        digit_text(n).to_owned()
    } else {
        let mut s: String = decimal_text(n / 10);
        let ghost before = s@;
        s.append(digit_text(n % 10));
        assert(s@ =~= before.push(digit_char((n % 10) as nat)));
        s
    }
}

/// A longer run of digits stands for no smaller number.
proof fn lemma_value_grows(s: Seq<char>, k: int)
    requires
        0 <= k <= s.len(),
    ensures
        decimal_value(s.take(k)) <= decimal_value(s),
    decreases s.len(),
{
    if k == s.len() {
        assert(s.take(k) =~= s);
    } else {
        assert(s.drop_last().take(k) =~= s.take(k));
        lemma_value_grows(s.drop_last(), k);
    }
}

/// Reads a number in decimal.
pub fn parse_decimal(s: &str) -> (r: Option<u64>)
    ensures
        r == parsed(s@),
{
    let len: usize = s.unicode_len();
    let first: usize = if len > 1 && s.get_char(0) == '+' {
        1
    } else {
        0
    };
    if len == 0 {
        return None;
    }
    let ghost digits = unsigned_part(s@);
    proof {
        assert(digits =~= s@.skip(first as int));
        assert(digits.take(0) =~= Seq::<char>::empty());
    }
    let mut value: u64 = 0;
    let mut i: usize = first;
    while i < len
        invariant
            first <= i <= len,
            first <= 1,
            len == s@.len(),
            digits == unsigned_part(s@),
            digits == s@.skip(first as int),
            digits.len() == len - first,
            forall|j: int| 0 <= j < i - first ==> is_digit(#[trigger] digits[j]),
            value == decimal_value(digits.take(i - first)),
        decreases len - i,
    {
        let c: char = s.get_char(i);
        let code: u32 = c as u32;
        assert(digits[i - first] == c);
        if code < 48 || code > 57 {
            return None;
        }
        let d: u64 = (code - 48) as u64;
        let wide: u128 = 10 * (value as u128) + d as u128;
        proof {
            let next = digits.take(i - first + 1);
            assert(next.drop_last() =~= digits.take(i - first));
            assert(next.last() == c);
            lemma_value_grows(digits, i - first + 1);
        }
        if wide > 0xffff_ffff_ffff_ffff {
            return None;
        }
        value = wide as u64;
        i += 1;
    }
    proof {
        assert(digits.take(len - first) =~= digits);
    }
    Some(value)
}

/// What was written in decimal is read back as the same number.
pub proof fn law_decimal_reads_back(n: u64)
    ensures
        parsed(decimal(n as nat)) == Some(n),
{
    lemma_decimal(n as nat);
    let s = decimal(n as nat);
    assert(is_digit(s[0]));
}

proof fn lemma_decimal(n: nat)
    ensures
        decimal(n).len() > 0,
        all_digits(decimal(n)),
        decimal_value(decimal(n)) == n,
    decreases n,
{
    if n < 10 {
        let s = decimal(n);
        assert(s.drop_last() =~= Seq::<char>::empty());
        assert(s.last() as u32 == 48 + n);
        assert(decimal_value(s.drop_last()) == 0);
    } else {
        lemma_decimal(n / 10);
        let s = decimal(n);
        assert(s.drop_last() =~= decimal(n / 10));
        assert(s.last() as u32 == 48 + n % 10);
    }
}

/// The digit `d` as a character.
pub open spec fn is_digit_for(c: char, d: nat) -> bool {
    d <= 9 && c as u32 == 48 + d
}

/// A single character reads as a number exactly if it is a digit, and a longer text of digits
/// reads as ten times what all but the last digit read as, plus that digit, if that fits.
pub proof fn law_digits_read_in_turn(s: Seq<char>, c: char, d: nat)
    requires
        is_digit_for(c, d),
    ensures
        parsed(seq![c]) == Some(d as u64),
        parsed(s) matches Some(n) ==> parsed(s.push(c)) == (if 10 * n + d <= 0xffff_ffff_ffff_ffff {
            Some((10 * n + d) as u64)
        } else {
            None
        }),
{
    let one = seq![c];
    assert(unsigned_part(one) == one);
    assert(one.drop_last() =~= Seq::<char>::empty());
    assert(decimal_value(one.drop_last()) == 0);
    if parsed(s) is Some {
        let digits = unsigned_part(s);
        let longer = unsigned_part(s.push(c));
        assert(longer =~= digits.push(c)) by {
            if s.len() == 1 {
                assert(is_digit(digits[0]));
                assert(s.push(c)[0] == s[0]);
            }
        }
        assert(longer.drop_last() =~= digits);
        assert(all_digits(longer)) by {
            assert forall|i: int| 0 <= i < longer.len() implies is_digit(#[trigger] longer[i]) by {
                if i < digits.len() {
                    assert(longer[i] == digits[i]);
                }
            }
        }
    }
}

/// A text with a character that is no digit, other than one plus sign in front, is no number;
/// nor is one without a digit. A plus sign in front of a number changes nothing.
pub proof fn law_texts_that_are_no_number(s: Seq<char>, i: int)
    ensures
        0 < i < s.len() && !(48 <= s[i] as u32 <= 57) ==> parsed(s) is None,
        s.len() > 0 && !(48 <= s[0] as u32 <= 57) && s[0] != '+' ==> parsed(s) is None,
        s.len() == 0 ==> parsed(s) is None,
        s.len() == 1 && s[0] == '+' ==> parsed(s) is None,
        s.len() > 0 && s[0] != '+' ==> parsed(seq!['+'] + s) == parsed(s),
{
    let digits = unsigned_part(s);
    if 0 < i < s.len() && !is_digit(s[i]) {
        if s[0] == '+' {
            assert(digits[i - 1] == s[i]);
        } else {
            assert(digits[i] == s[i]);
        }
    }
    if s.len() > 0 && s[0] != '+' {
        assert(digits == s);
        assert((seq!['+'] + s).drop_first() =~= s);
        assert(s[0] == digits[0]);
    }
    if s.len() == 1 && s[0] == '+' {
        assert(digits == s);
        assert(!is_digit(digits[0]));
    }
}

/// A number is written without a sign and without a zero in front, unless it is zero itself,
/// which is written as one.
pub proof fn law_numbers_are_written_plainly(n: nat)
    ensures
        decimal(n).len() > 0,
        forall|i: int| 0 <= i < decimal(n).len() ==> 48 <= (#[trigger] decimal(n)[i]) as u32 <= 57,
        n > 0 ==> decimal(n)[0] as u32 != 48,
        n < 10 ==> decimal(n).len() == 1,
    decreases n,
{
    lemma_decimal(n);
    assert forall|i: int| 0 <= i < decimal(n).len() implies 48 <= (#[trigger] decimal(n)[i]) as u32
        <= 57 by {
        assert(is_digit(decimal(n)[i]));
    }
    if n >= 10 {
        law_numbers_are_written_plainly(n / 10);
    }
}

} // verus!
