//! Human-readable byte counts.
use vstd::prelude::*;
use vstd::string::StringExecFns;

verus! {

/// How many times larger each unit is than the one before it.
pub const UNIT_STEP: u64 = 1024;

/// A count is shown in the next larger unit only while it exceeds this many
/// of the next larger unit's steps.
pub const UNIT_SPAN: u64 = 10;

/// The decimal digit `d`.
pub open spec fn digit_char(d: nat) -> char {
    seq!['0', '1', '2', '3', '4', '5', '6', '7', '8', '9'][d as int]
}

/// The decimal representation of `n`, without leading zeros.
pub open spec fn decimal(n: nat) -> Seq<char>
    decreases n,
{
    if n < 10 {
        seq![digit_char(n)]
    } else {
        decimal(n / 10).push(digit_char(n % 10))
    }
}

/// The count and the unit index that `bytes` is shown with: the count is
/// divided by 1024 while it exceeds ten times that and a larger unit is left.
pub open spec fn scaled(count: nat, unit: nat) -> (nat, nat)
    decreases 3 - unit,
{
    if unit < 3 && count > UNIT_SPAN * UNIT_STEP {
        scaled(count / (UNIT_STEP as nat), unit + 1)
    } else {
        (count, unit)
    }
}

/// The name of unit `i`.
pub open spec fn unit_name(i: nat) -> Seq<char> {
    if i == 0 {
        seq!['B']
    } else if i == 1 {
        seq!['K', 'B']
    } else if i == 2 {
        seq!['M', 'B']
    } else {
        seq!['G', 'B']
    }
}

fn digit_str(d: u64) -> (r: &'static str)
    requires
        d < 10,
    ensures
        r@ == seq![digit_char(d as nat)],
{
    proof {
        reveal_strlit("0");
        reveal_strlit("1");
        reveal_strlit("2");
        reveal_strlit("3");
        reveal_strlit("4");
        reveal_strlit("5");
        reveal_strlit("6");
        reveal_strlit("7");
        reveal_strlit("8");
        reveal_strlit("9");
    }
    match d {
        0 => "0",
        1 => "1",
        2 => "2",
        3 => "3",
        4 => "4",
        5 => "5",
        6 => "6",
        7 => "7",
        8 => "8",
        _ => "9",
    }
}

fn unit_str(i: u64) -> (r: &'static str)
    ensures
        r@ == unit_name(i as nat),
{
    proof {
        reveal_strlit("B");
        reveal_strlit("KB");
        reveal_strlit("MB");
        reveal_strlit("GB");
    }
    if i == 0 {
        "B"
    } else if i == 1 {
        "KB"
    } else if i == 2 {
        "MB"
    } else {
        "GB"
    }
}

/// Appends the decimal representation of `n`.
fn push_decimal(s: &mut String, n: u64)
    ensures
        final(s)@ == old(s)@ + decimal(n as nat),
    decreases n,
{
    if n >= 10 {
        push_decimal(s, n / 10);
    }
    s.append(digit_str(n % 10));
    assert(final(s)@ =~= old(s)@ + decimal(n as nat));
}

/// `bytes` as a count and a unit (B, KB, MB or GB), such as `20KB`: the
/// count is divided by 1024 for each larger unit while it exceeds ten times
/// that, and the division rounds down.
pub fn format_bytes(bytes: u64) -> (r: String)
    ensures
        r@ == decimal(scaled(bytes as nat, 0).0) + unit_name(scaled(bytes as nat, 0).1),
{
    let mut unit: u64 = 0;
    let mut count: u64 = bytes;
    while unit < 3 && count > UNIT_SPAN * UNIT_STEP
        invariant
            unit <= 3,
            scaled(count as nat, unit as nat) == scaled(bytes as nat, 0),
        decreases 3 - unit,
    {
        count = count / UNIT_STEP;
        unit = unit + 1;
    }
    let mut s = String::new();
    push_decimal(&mut s, count);
    s.append(unit_str(unit));
    s
}

} // verus!
