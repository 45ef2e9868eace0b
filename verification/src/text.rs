//! Decimal numerals and small string helpers.

use vstd::prelude::*;
use vstd::string::*;

verus! {

/// The character of one decimal digit.
pub open spec fn digit_char(d: nat) -> char {
    (48 + d) as char
}

/// The decimal numeral of `n`, without leading zeros.
pub open spec fn decimal_text(n: nat) -> Seq<char>
    decreases n,
{
    if n < 10 {
        seq![digit_char(n)]
    } else {
        decimal_text(n / 10).push(digit_char(n % 10))
    }
}

fn digit_str(d: u64) -> (s: &'static str)
    requires
        d < 10,
    ensures
        s@ == seq![digit_char(d as nat)],
{
    proof {
        reveal_strlit("0");
        reveal_strlit("1");
        reveal_strlit("2");
        reveal_strlit("3");
        reveal_strlit("4");
        reveal_strlit("5");
        reveal_strlit("6");
        reveal_strlit("7");
        reveal_strlit("8");
        reveal_strlit("9");
    }
    match d {
        0 => "0",
        1 => "1",
        2 => "2",
        3 => "3",
        4 => "4",
        5 => "5",
        6 => "6",
        7 => "7",
        8 => "8",
        _ => "9",
    }
}

/// Writes `n` in decimal.
pub fn decimal(n: u64) -> (s: String)
    ensures
        s@ == decimal_text(n as nat),
    decreases n,
{
    if n < 10 {
        digit_str(n).to_owned()
    } else {
        decimal(n / 10).concat(digit_str(n % 10))
    }
}

/// Whether `a` and `b` hold the same characters.
pub fn same_text(a: &String, b: &str) -> (r: bool)
    ensures
        r == (a@ == b@),
{
    *a == b.to_owned()
}

/// Every character of a numeral is a decimal digit.
pub proof fn lemma_decimal_digits(n: nat)
    ensures
        forall|i: int|
            0 <= i < decimal_text(n).len() ==> '0' <= #[trigger] decimal_text(n)[i] <= '9',
    decreases n,
{
    if n >= 10 {
        lemma_decimal_digits(n / 10);
        let head = decimal_text(n / 10);
        assert forall|i: int| 0 <= i < decimal_text(n).len() implies '0' <= #[trigger] decimal_text(
            n,
        )[i] <= '9' by {
            if i < head.len() {
                assert(decimal_text(n)[i] == head[i]);
            }
        }
    }
}

/// Numbers from a hundred thousand up to a million have six digits.
pub proof fn lemma_six_digits(n: nat)
    requires
        100_000 <= n < 1_000_000,
    ensures
        decimal_text(n).len() == 6,
{
    reveal_with_fuel(decimal_text, 7);
}

/// The number that decimal digits stand for.
pub open spec fn decimal_value(digits: Seq<char>) -> int
    decreases digits.len(),
{
    if digits.len() == 0 {
        0
    } else {
        decimal_value(digits.drop_last()) * 10 + (digits.last() as int - '0' as int)
    }
}

/// Whether a text is a numeral: decimal digits, with no zero before others.
pub open spec fn is_numeral(text: Seq<char>) -> bool {
    &&& text.len() > 0
    &&& forall|i: int| 0 <= i < text.len() ==> '0' <= #[trigger] text[i] <= '9'
    &&& text.len() > 1 ==> text[0] != '0'
}

/// What is written for a number is a numeral that stands for it.
pub proof fn law_a_numeral_stands_for_its_number(n: nat)
    ensures
        is_numeral(decimal_text(n)),
        decimal_value(decimal_text(n)) == n,
        decimal_text(n)[0] == '0' ==> n == 0,
    decreases n,
{
    lemma_decimal_digits(n);
    let text = decimal_text(n);
    if n < 10 {
        assert(text.drop_last() =~= Seq::empty());
        assert(decimal_value(text.drop_last()) == 0);
    } else {
        law_a_numeral_stands_for_its_number(n / 10);
        assert(text.drop_last() =~= decimal_text(n / 10));
        assert(text[0] == decimal_text(n / 10)[0]);
    }
}

/// A numeral is what is written for the number that it stands for, and for no
/// other.
pub proof fn law_a_number_has_one_numeral(text: Seq<char>)
    requires
        is_numeral(text),
    ensures
        decimal_value(text) >= 0,
        decimal_text(decimal_value(text) as nat) == text,
        forall|n: nat| #[trigger] decimal_text(n) == text ==> n == decimal_value(text),
    decreases text.len(),
{
    let head = text.drop_last();
    let digit = text.last() as int - '0' as int;
    assert('0' <= text[text.len() - 1] <= '9');
    if text.len() == 1 {
        assert(head =~= Seq::empty());
        assert(decimal_value(head) == 0);
        assert(decimal_text(digit as nat) =~= text);
    } else {
        assert forall|i: int| 0 <= i < head.len() implies '0' <= #[trigger] head[i] <= '9' by {
            assert(head[i] == text[i]);
        }
        assert(head[0] == text[0]);
        law_a_number_has_one_numeral(head);
        let value = decimal_value(head);
        if value == 0 {
            assert(decimal_text(0) == head);
        }
        let whole = value * 10 + digit;
        assert(whole / 10 == value && whole % 10 == digit);
        assert(decimal_text(whole as nat) =~= text);
    }
    assert forall|n: nat| #[trigger] decimal_text(n) == text implies n == decimal_value(text) by {
        law_a_numeral_stands_for_its_number(n);
    }
}

} // verus!
