//! The wording of numbers and compound messages.

use vstd::prelude::*;
use vstd::string::*;

verus! {

/// The character of a decimal digit.
pub open spec fn digit(d: int) -> char {
    (0x30 + d) as char
}

/// A number in decimal.
pub open spec fn decimal(n: nat) -> Seq<char>
    decreases n,
{
    if n < 10 {
        seq![digit(n as int)]
    } else {
        decimal(n / 10).push(digit((n % 10) as int))
    }
}

/// The text of a decimal digit.
fn digit_text(d: u64) -> (text: &'static str)
    requires
        d < 10,
    ensures
        text@ == seq![digit(d as int)],
{
    proof {
        reveal_strlit("0");
        reveal_strlit("1");
        reveal_strlit("2");
        reveal_strlit("3");
        reveal_strlit("4");
        reveal_strlit("5");
        reveal_strlit("6");
        reveal_strlit("7");
        reveal_strlit("8");
        reveal_strlit("9");
    }
    let text = match d {
        0 => "0",
        1 => "1",
        2 => "2",
        3 => "3",
        4 => "4",
        5 => "5",
        6 => "6",
        7 => "7",
        8 => "8",
        _ => "9",
    };
    assert(text@ =~= seq![digit(d as int)]);
    text
}

/// A number in decimal.
pub fn decimal_text(n: u64) -> (text: String)
    ensures
        text@ == decimal(n as nat),
    decreases n,
{
    if n < 10 {
        digit_text(n).to_owned()
    } else {
        let mut text = decimal_text(n / 10);
        let ghost start = text@;
        text.append(digit_text(n % 10));
        assert(text@ =~= start.push(digit((n % 10) as int)));
        text
    }
}

/// A message that starts with one text and ends with another.
pub fn message(start: &str, end: &str) -> (text: String)
    ensures
        text@ == start@ + end@,
{
    let mut text = start.to_owned();
    text.append(end);
    text
}

/// Aggregate counts of one stage of the planning. Paths and file content are deliberately
/// left out.
pub open spec fn counts(stage: Seq<char>, considered: nat, accepted: nat, auxiliary: nat) -> Seq<
    char,
> {
    "git-sprout-diagnostic: stage="@ + stage + " considered="@ + decimal(considered)
        + " accepted="@ + decimal(accepted) + " auxiliary="@ + decimal(auxiliary)
}

/// The line that reports aggregate counts of one stage of the planning.
pub fn diagnostic_counts(stage: &str, considered: usize, accepted: usize, auxiliary: usize) -> (r:
    String)
    ensures
        r@ == counts(stage@, considered as nat, accepted as nat, auxiliary as nat),
{
    let mut line = message("git-sprout-diagnostic: stage=", stage);
    line.append(" considered=");
    line.append(decimal_text(considered as u64).as_str());
    line.append(" accepted=");
    line.append(decimal_text(accepted as u64).as_str());
    line.append(" auxiliary=");
    line.append(decimal_text(auxiliary as u64).as_str());
    line
}

/// The number that decimal digits stand for.
pub open spec fn value_of(digits: Seq<char>) -> int
    decreases digits.len(),
{
    if digits.len() == 0 {
        0
    } else {
        10 * value_of(digits.drop_last()) + (digits.last() as int - '0' as int)
    }
}

/// A number in decimal reads back as the number, holds digits alone, and starts with a zero
/// only where it is zero.
pub proof fn decimal_numbers_read_back(n: nat)
    ensures
        value_of(decimal(n)) == n,
        decimal(n).len() > 0,
        forall|i: int|
            0 <= i < decimal(n).len() ==> '0' as int <= #[trigger] decimal(n)[i] as int <= '9'
                as int,
        n > 0 ==> decimal(n)[0] != '0',
    decreases n,
{
    if n < 10 {
        assert(decimal(n).drop_last() =~= Seq::<char>::empty());
        assert(value_of(decimal(n).drop_last()) == 0);
    } else {
        decimal_numbers_read_back(n / 10);
        assert(decimal(n).drop_last() =~= decimal(n / 10));
    }
}

/// A line of counts names the stage and holds the three numbers, in decimal and in order.
pub proof fn counts_are_written_in_order(
    stage: Seq<char>,
    considered: nat,
    accepted: nat,
    auxiliary: nat,
)
    ensures
        ({
            let start = "git-sprout-diagnostic: stage="@ + stage;
            let first = start + " considered="@ + decimal(considered);
            let second = first + " accepted="@ + decimal(accepted);
            let line = second + " auxiliary="@ + decimal(auxiliary);
            counts(stage, considered, accepted, auxiliary) == line
        }),
{
}

} // verus!
