use vstd::prelude::*;

use crate::timer::{Timer, TimerStage};

verus! {

/// Relies on std's `String::push`: the character is added at the end.
pub assume_specification[ String::push ](s: &mut String, ch: char)
    ensures
        final(s)@ == old(s)@.push(ch),
;

/// The decimal digit for a value below ten.
pub open spec fn digit_char(d: nat) -> char {
    ((d + 48) as u8) as char
}

/// The decimal numeral of `n`, without leading zeros.
pub open spec fn decimal(n: nat) -> Seq<char>
    decreases n,
{
    if n < 10 {
        seq![digit_char(n)]
    } else {
        decimal(n / 10).push(digit_char(n % 10))
    }
}

/// The decimal numeral of `n`, with a leading zero below ten.
pub open spec fn two_digits(n: nat) -> Seq<char> {
    if n < 10 {
        seq!['0', digit_char(n)]
    } else {
        decimal(n)
    }
}

/// `hh:mm:ss`, the hours not limited to two digits.
pub open spec fn clock_text(seconds: nat) -> Seq<char> {
    two_digits(seconds / 3600) + seq![':'] + two_digits((seconds % 3600) / 60) + seq![':'] + two_digits(seconds % 60)
}

fn push_decimal(s: &mut String, n: u32)
    ensures
        final(s)@ == old(s)@ + decimal(n as nat),
    decreases n,
{
    if n >= 10 {
        push_decimal(s, n / 10);
    }
    s.push(((n % 10) as u8 + 48u8) as char);
    proof {
        assert(final(s)@ =~= old(s)@ + decimal(n as nat));
    }
}

fn push_two_digits(s: &mut String, n: u32)
    ensures
        final(s)@ == old(s)@ + two_digits(n as nat),
{
    if n < 10 {
        s.push('0');
    }
    push_decimal(s, n);
    proof {
        assert(final(s)@ =~= old(s)@ + two_digits(n as nat));
    }
}

/// Writes a number of seconds as hours, minutes and seconds, each at least
/// two digits wide.
pub fn format_seconds(seconds: u32) -> (r: String)
    ensures
        r@ == clock_text(seconds as nat),
{
    let hrs = seconds / 3600;
    let min = (seconds % 3600) / 60;
    let sec = seconds % 60;
    let mut r = String::new();
    push_two_digits(&mut r, hrs);
    r.push(':');
    push_two_digits(&mut r, min);
    r.push(':');
    push_two_digits(&mut r, sec);
    proof {
        assert(r@ =~= clock_text(seconds as nat));
    }
    r
}

/// The heading of a stage's bar: its name, then either that the timer is
/// paused or the time left and the stage's whole duration.
pub open spec fn title_text(stage: TimerStage, paused: bool) -> Seq<char> {
    if paused {
        stage.name@ + seq![':', ' ', 'P', 'a', 'u', 's', 'e', 'd']
    } else {
        stage.name@ + seq![':', ' '] + clock_text(stage.remaining() as nat) + seq![' ', '/', ' ']
            + clock_text(stage.duration_s as nat)
    }
}

pub fn stage_title(stage: &TimerStage, paused: bool) -> (r: String)
    requires
        stage.wf(),
    ensures
        r@ == title_text(*stage, paused),
{
    let mut r = stage.name.clone();
    if paused {
        r.append(": Paused");
        proof {
            reveal_strlit(": Paused");
            assert(r@ =~= title_text(*stage, paused));
        }
    } else {
        let left = format_seconds(stage.remaining_s());
        let total = format_seconds(stage.duration_s);
        r.append(": ");
        r.append(left.as_str());
        r.append(" / ");
        r.append(total.as_str());
        proof {
            reveal_strlit(": ");
            reveal_strlit(" / ");
            assert(r@ =~= title_text(*stage, paused));
        }
    }
    r
}

/// How a stage's bar is coloured.
#[derive(Clone, Copy, Debug, PartialEq, Eq, Structural)]
pub enum StageStyle {
    /// The active stage.
    Active,
    /// The active stage, at or below the warning threshold.
    Warning,
    /// Any other stage.
    Inactive,
}

/// The active stage is highlighted, in the warning style when a threshold is
/// set and no more than that many seconds are left; the others are muted.
pub open spec fn style_of(timer: Timer, index: int, warning_threshold: u32) -> StageStyle {
    if index == timer.current_index {
        if warning_threshold > 0 && timer.stages@[index].remaining() <= warning_threshold {
            StageStyle::Warning
        } else {
            StageStyle::Active
        }
    } else {
        StageStyle::Inactive
    }
}

pub fn stage_style(timer: &Timer, index: usize, warning_threshold: u32) -> (r: StageStyle)
    requires
        timer.wf(),
        index < timer.stages@.len(),
    ensures
        r == style_of(*timer, index as int, warning_threshold),
{
    if index == timer.current_index {
        let remaining = timer.stages[index].remaining_s();
        if warning_threshold > 0 && remaining <= warning_threshold {
            StageStyle::Warning
        } else {
            StageStyle::Active
        }
    } else {
        StageStyle::Inactive
    }
}

/// The rows of the screen for `stages` bars: how many rows, and the share
/// of the height in percent that each row gets. None when there is no stage
/// or the count does not fit in `u16`.
pub fn row_layout(stages: usize) -> (r: Option<(u16, u16)>)
    ensures
        r is Some <==> stages > 0 && stages + 100int % (stages as int) <= u16::MAX,
        r matches Some((rows, percent)) ==> {
            &&& rows == stages + 100int % (stages as int)
            &&& percent == 100int / (rows as int)
        },
{
    if stages == 0 {
        return None;
    }
    let extra = 100 % stages;
    assert(extra <= 100) by (nonlinear_arith)
        requires
            extra == 100usize % stages,
            stages > 0,
    ;
    if stages > 0xffff - extra {
        return None;
    }
    let rows = (stages + extra) as u16;
    Some((rows, 100 / rows))
}

} // verus!
