//! Rendering the backdated commit commands that would fill a short day.
use vstd::prelude::*;

use crate::calendar::{day_in_calendar, format_day, iso_date_of};
use crate::deficiency::DeficiencyEntry;

verus! {

/// The hour of day at which the first remediation commit is dated.
pub const FIRST_HOUR: u64 = 12;

/// The decimal digit for `d` (below ten).
pub open spec fn digit_char(d: nat) -> char {
    if d == 0 {
        '0'
    } else if d == 1 {
        '1'
    } else if d == 2 {
        '2'
    } else if d == 3 {
        '3'
    } else if d == 4 {
        '4'
    } else if d == 5 {
        '5'
    } else if d == 6 {
        '6'
    } else if d == 7 {
        '7'
    } else if d == 8 {
        '8'
    } else {
        '9'
    }
}

/// `n` in decimal, without leading zeros.
pub open spec fn decimal(n: nat) -> Seq<char>
    decreases n,
{
    if n < 10 {
        seq![digit_char(n)]
    } else {
        decimal(n / 10).push(digit_char(n % 10))
    }
}

/// `n` in decimal, padded with a leading zero to at least two digits.
pub open spec fn two_digits(n: nat) -> Seq<char> {
    if n < 10 {
        seq!['0', digit_char(n)]
    } else {
        decimal(n)
    }
}

/// The command that commits with its date set to `hour:00:00` on the day
/// whose text is `date`.
pub open spec fn command_text(date: Seq<char>, hour: nat) -> Seq<char> {
    "git commit --date=\""@ + date + " "@ + two_digits(hour) + ":00:00\" -m \"feat: your commit message here\""@
}

/// The commands for a day whose text is `date` and that lacks `n` commits:
/// one per commit, dated at successive hours from `FIRST_HOUR` on.
pub open spec fn commands_for(date: Seq<char>, n: nat) -> Seq<Seq<char>> {
    Seq::new(n, |i: int| command_text(date, (FIRST_HOUR + i) as nat))
}

fn digit_text(d: u64) -> (r: &'static str)
    requires
        d < 10,
    ensures
        r@ == seq![digit_char(d as nat)],
{
    if d == 0 {
        proof { reveal_strlit("0"); }
        "0"
    } else if d == 1 {
        proof { reveal_strlit("1"); }
        "1"
    } else if d == 2 {
        proof { reveal_strlit("2"); }
        "2"
    } else if d == 3 {
        proof { reveal_strlit("3"); }
        "3"
    } else if d == 4 {
        proof { reveal_strlit("4"); }
        "4"
    } else if d == 5 {
        proof { reveal_strlit("5"); }
        "5"
    } else if d == 6 {
        proof { reveal_strlit("6"); }
        "6"
    } else if d == 7 {
        proof { reveal_strlit("7"); }
        "7"
    } else if d == 8 {
        proof { reveal_strlit("8"); }
        "8"
    } else {
        proof { reveal_strlit("9"); }
        "9"
    }
}

/// Writes `n` in decimal.
pub fn decimal_text(n: u64) -> (r: String)
    ensures
        r@ == decimal(n as nat),
    decreases n,
{
    if n < 10 {
        String::from_str(digit_text(n))
    } else {
        let mut r = decimal_text(n / 10);
        r.append(digit_text(n % 10));
        r
    }
}

/// Writes `n` in decimal with at least two digits.
pub fn two_digit_text(n: u64) -> (r: String)
    ensures
        r@ == two_digits(n as nat),
{
    if n < 10 {
        let mut r = String::from_str("0");
        proof { reveal_strlit("0"); }
        r.append(digit_text(n));
        assert(r@ =~= two_digits(n as nat));
        r
    } else {
        decimal_text(n)
    }
}

/// Builds the command that backdates one commit to `hour:00:00` on `date`.
pub fn command_line(date: &str, hour: u64) -> (r: String)
    ensures
        r@ == command_text(date@, hour as nat),
{
    let mut r = String::from_str("git commit --date=\"");
    r.append(date);
    r.append(" ");
    let hh = two_digit_text(hour);
    r.append(hh.as_str());
    r.append(":00:00\" -m \"feat: your commit message here\"");
    r
}

/// The remediation for a short day: one command per missing commit, dated
/// 12:00:00, 13:00:00, ... on that day. Hours are not wrapped past 23.
pub fn synthesize_commands(entry: &DeficiencyEntry) -> (r: Vec<String>)
    requires
        day_in_calendar(entry.day as int),
    ensures
        r@.len() == entry.shortfall,
        forall|i: int| 0 <= i < r@.len() ==> #[trigger] r@[i]@ == commands_for(iso_date_of(entry.day as int), entry.shortfall as nat)[i],
{
    let date = format_day(entry.day);
    let mut out: Vec<String> = Vec::new();
    let mut i: u32 = 0;
    while i < entry.shortfall
        invariant
            i <= entry.shortfall,
            date@ == iso_date_of(entry.day as int),
            out@.len() == i,
            forall|k: int| 0 <= k < i ==> #[trigger] out@[k]@ == command_text(date@, (FIRST_HOUR + k) as nat),
        decreases entry.shortfall - i,
    {
        let cmd = command_line(date.as_str(), FIRST_HOUR + i as u64);
        out.push(cmd);
        i += 1;
    }
    out
}

/// Distinct numbers have distinct decimal texts.
proof fn lemma_decimal_injective(a: nat, b: nat)
    requires
        decimal(a) == decimal(b),
    ensures
        a == b,
    decreases a,
{
    lemma_decimal_len(a);
    lemma_decimal_len(b);
    if a >= 10 && b >= 10 {
        assert(decimal(a).drop_last() =~= decimal(a / 10));
        assert(decimal(b).drop_last() =~= decimal(b / 10));
        lemma_decimal_injective(a / 10, b / 10);
        assert(decimal(a).last() == digit_char(a % 10));
        assert(decimal(b).last() == digit_char(b % 10));
        lemma_digit_char_injective(a % 10, b % 10);
    } else if a < 10 && b < 10 {
        assert(decimal(a)[0] == digit_char(a));
        assert(decimal(b)[0] == digit_char(b));
        lemma_digit_char_injective(a, b);
    }
}

proof fn lemma_decimal_len(n: nat)
    ensures
        decimal(n).len() >= 1,
        n >= 10 ==> decimal(n).len() >= 2,
    decreases n,
{
    if n >= 10 {
        lemma_decimal_len(n / 10);
    }
}

proof fn lemma_digit_char_injective(a: nat, b: nat)
    requires
        a < 10,
        b < 10,
        digit_char(a) == digit_char(b),
    ensures
        a == b,
{
}

/// The commands for a day lacking `n` commits are `n` in number, the first
/// dated at `FIRST_HOUR`, each an hour after the one before, and no two alike.
pub proof fn lemma_commands_distinct_hours(date: Seq<char>, n: nat)
    ensures
        commands_for(date, n).len() == n,
        forall|i: int| 0 <= i < n ==> #[trigger] commands_for(date, n)[i] == command_text(date, (FIRST_HOUR + i) as nat),
        forall|i: int, j: int|
            0 <= i < j < n ==> #[trigger] commands_for(date, n)[i] != #[trigger] commands_for(date, n)[j],
{
    let cmds = commands_for(date, n);
    assert forall|i: int, j: int| 0 <= i < j < n implies #[trigger] cmds[i] != #[trigger] cmds[j] by {
        let hi = (FIRST_HOUR + i) as nat;
        let hj = (FIRST_HOUR + j) as nat;
        if cmds[i] == cmds[j] {
            let head = "git commit --date=\""@ + date + " "@;
            let tail = ":00:00\" -m \"feat: your commit message here\""@;
            assert(command_text(date, hi) == head + decimal(hi) + tail);
            assert(command_text(date, hj) == head + decimal(hj) + tail);
            assert((head + decimal(hi) + tail).len() == (head + decimal(hj) + tail).len());
            assert(decimal(hi) =~= (head + decimal(hi) + tail).subrange(head.len() as int, (head.len() + decimal(hi).len()) as int));
            assert(decimal(hj) =~= (head + decimal(hj) + tail).subrange(head.len() as int, (head.len() + decimal(hj).len()) as int));
            lemma_decimal_injective(hi, hj);
        }
    }
}

} // verus!
