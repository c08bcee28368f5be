//! The text of the summary report.

use vstd::prelude::*;
use crate::counts::{Census, TriadCounts};

verus! {

/// The character of the decimal digit `d`.
pub open spec fn digit(d: int) -> char {
    if d == 0 {
        '0'
    } else if d == 1 {
        '1'
    } else if d == 2 {
        '2'
    } else if d == 3 {
        '3'
    } else if d == 4 {
        '4'
    } else if d == 5 {
        '5'
    } else if d == 6 {
        '6'
    } else if d == 7 {
        '7'
    } else if d == 8 {
        '8'
    } else {
        '9'
    }
}

/// The decimal numeral of `n`, without sign or leading zero.
pub open spec fn decimal(n: nat) -> Seq<char>
    decreases n,
{
    if n < 10 {
        seq![digit(n as int)]
    } else {
        decimal(n / 10).push(digit((n % 10) as int))
    }
}

/// The report of a tally: a rule of 45 asterisks, the stable and unstable
/// triads, an empty line, the four buckets from three positive edges down to
/// none, and the rule again, each line closed by a line feed.
pub open spec fn report_text(c: Census) -> Seq<char> {
    "*********************************************\n"@ + "Stable triads: "@ + decimal(c.stable())
        + "\nUnstable triads: "@ + decimal(c.unstable()) + "\n\nCounts by positive edges:\n3: "@
        + decimal(c.three) + "\n2: "@ + decimal(c.two) + "\n1: "@ + decimal(c.one) + "\n0: "@
        + decimal(c.zero) + "\n*********************************************\n"@
}

fn digit_text(d: u64) -> (s: &'static str)
    requires
        d < 10,
    ensures
        s@ == seq![digit(d as int)],
{
    proof {
        reveal_strlit("0");
        reveal_strlit("1");
        reveal_strlit("2");
        reveal_strlit("3");
        reveal_strlit("4");
        reveal_strlit("5");
        reveal_strlit("6");
        reveal_strlit("7");
        reveal_strlit("8");
        reveal_strlit("9");
    }
    let s = match d {
        0 => "0",
        1 => "1",
        2 => "2",
        3 => "3",
        4 => "4",
        5 => "5",
        6 => "6",
        7 => "7",
        8 => "8",
        _ => "9",
    };
    assert(s@ =~= seq![digit(d as int)]);
    s
}

/// Writes `n` in decimal.
pub fn to_decimal(n: u64) -> (s: String)
    ensures
        s@ == decimal(n as nat),
    decreases n,
{
    if n < 10 {
        String::from_str(digit_text(n))
    } else {
        let mut s = to_decimal(n / 10);
        s.append(digit_text(n % 10));
        assert(s@ =~= decimal(n as nat));
        s
    }
}

/// Renders the report of `counts`.
pub fn render(counts: &TriadCounts) -> (text: String)
    requires
        counts@.fits(),
    ensures
        text@ == report_text(counts@),
{
    let mut text = String::from_str("*********************************************\n");
    text.append("Stable triads: ");
    text.append(to_decimal(counts.stable()).as_str());
    text.append("\nUnstable triads: ");
    text.append(to_decimal(counts.unstable()).as_str());
    text.append("\n\nCounts by positive edges:\n3: ");
    text.append(to_decimal(counts.three_positive).as_str());
    text.append("\n2: ");
    text.append(to_decimal(counts.two_positive).as_str());
    text.append("\n1: ");
    text.append(to_decimal(counts.one_positive).as_str());
    text.append("\n0: ");
    text.append(to_decimal(counts.zero_positive).as_str());
    text.append("\n*********************************************\n");
    text
}

} // verus!
