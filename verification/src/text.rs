//! Pieces of text that error messages are made of.

use vstd::prelude::*;

verus! {

/// The digits of a number, in base ten and without leading zeros.
pub open spec fn decimal(n: nat) -> Seq<char>
    decreases n,
{
    if n < 10 {
        seq!["0123456789"@[n as int]]
    } else {
        decimal(n / 10).push("0123456789"@[(n % 10) as int])
    }
}

/// The parts one after another, with the separator between each two.
pub open spec fn joined(parts: Seq<Seq<char>>, separator: Seq<char>) -> Seq<char>
    decreases parts.len(),
{
    if parts.len() == 0 {
        seq![]
    } else if parts.len() == 1 {
        parts[0]
    } else {
        joined(parts.drop_last(), separator) + separator + parts.last()
    }
}

/// A name in single quotes.
pub open spec fn quoted(name: Seq<char>) -> Seq<char> {
    "'"@ + name + "'"@
}

/// The digits of a number in base ten.
pub fn decimal_text(n: usize) -> (text: String)
    ensures
        text@ == decimal(n as nat),
    decreases n,
{
    let digits: &str = "0123456789";
    let last: usize = n % 10;
    proof {
        reveal_strlit("0123456789");
    }
    let digit: &str = digits.substring_ascii(last, last + 1);
    assert(digit@ =~= seq!["0123456789"@[last as int]]);
    if n < 10 {
        digit.to_owned()
    } else {
        let mut text: String = decimal_text(n / 10);
        text.append(digit);
        assert(text@ =~= decimal(n as nat));
        text
    }
}

/// The number that a text of digits stands for.
pub open spec fn number(text: Seq<char>) -> int
    decreases text.len(),
{
    if text.len() == 0 {
        0
    } else {
        number(text.drop_last()) * 10 + (text.last() as int - '0' as int)
    }
}

/// The digits of a number stand for it: there is nothing but digits, there is at least one, no zero
/// leads a longer text, and read as a number it is the number.
pub proof fn law_decimal_reads_back(n: nat)
    ensures
        number(decimal(n)) == n,
        decimal(n).len() > 0,
        decimal(n).len() > 1 ==> decimal(n)[0] != '0',
        n > 0 ==> decimal(n)[0] != '0',
        forall|i: int| 0 <= i < decimal(n).len() ==> '0' <= #[trigger] decimal(n)[i] <= '9',
    decreases n,
{
    reveal_strlit("0123456789");
    let digits = "0123456789"@;
    assert forall|d: int| 0 <= d < 10 implies (#[trigger] digits[d]) as int == '0' as int + d by {}
    if n < 10 {
        let text = decimal(n);
        assert(text.drop_last() =~= seq![]);
        assert(number(text.drop_last()) == 0);
        assert(text.last() == digits[n as int]);
    } else {
        let before = decimal(n / 10);
        law_decimal_reads_back(n / 10);
        assert(decimal(n).drop_last() =~= before);
        assert(decimal(n).last() == digits[(n % 10) as int]);
        assert(decimal(n)[0] == before[0]);
        assert forall|i: int| 0 <= i < decimal(n).len() implies '0' <= #[trigger] decimal(n)[i]
            <= '9' by {
            if i < before.len() {
                assert(decimal(n)[i] == before[i]);
            } else {
                assert(decimal(n)[i] == digits[(n % 10) as int]);
            }
        }
    }
}

/// Joining nothing gives nothing, joining one part gives it, and each further part follows behind a
/// separator.
pub proof fn law_parts_are_joined_in_order(
    parts: Seq<Seq<char>>,
    part: Seq<char>,
    separator: Seq<char>,
)
    ensures
        joined(seq![], separator) == Seq::<char>::empty(),
        joined(seq![part], separator) == part,
        parts.len() > 0 ==> joined(parts.push(part), separator) == joined(parts, separator)
            + separator + part,
{
    assert(parts.push(part).drop_last() =~= parts);
}

} // verus!
