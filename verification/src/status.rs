//! The status lines that a transfer shows in the terminal.

use vstd::prelude::*;
use vstd::string::*;
use vstd::utf8::encode_utf8;

use crate::bytes::copy_range;
use crate::text::{
    concat, decimal, decimal_digit, is_control, is_control_char, push_decimal, to_chars,
};
use crate::zmodem_runtime::{
    FileOutcome, FileOutcomeView, Role, TransferEvent, TransferEventView, TransferId,
    TransferOutcome, TransferOutcomeView,
};

verus! {

/// Longest name that is shown, in characters.
pub const MAX_SHOWN_NAME: usize = 256;

/// Characters that reorder the text around them.
pub open spec fn is_bidi_control(c: char) -> bool {
    0x202a <= (c as u32) <= 0x202e || 0x2066 <= (c as u32) <= 0x2069
}

/// What is shown for a character of a name.
pub open spec fn shown_char(c: char) -> char {
    if is_control(c) || is_bidi_control(c) {
        '?'
    } else {
        c
    }
}

/// What is shown for a name.
pub open spec fn shown_name(name: Seq<char>) -> Seq<char> {
    Seq::new(
        if name.len() <= MAX_SHOWN_NAME {
            name.len()
        } else {
            MAX_SHOWN_NAME as nat
        },
        |i: int| shown_char(name[i]),
    )
}

/// A name with everything replaced that could command the terminal, cut to a
/// bounded length.
pub fn sanitized_name(name: &str) -> (r: String)
    ensures
        r@ == shown_name(name@),
{
    let chars: Vec<char> = to_chars(name);
    let mut out = String::new();
    let mut index: usize = 0;
    while index < chars.len() && index < MAX_SHOWN_NAME
        invariant
            index <= chars.len(),
            index <= MAX_SHOWN_NAME,
            chars@ == name@,
            out@ == shown_name(name@).take(index as int),
        decreases chars.len() - index,
    {
        let c: char = chars[index];
        let code: u32 = c as u32;
        let hidden: bool = is_control_char(c) || (0x202a <= code && code <= 0x202e) || (0x2066
            <= code && code <= 0x2069);
        out.push(if hidden {
            '?'
        } else {
            c
        });
        index = index + 1;
        assert(out@ =~= shown_name(name@).take(index as int));
    }
    assert(out@ =~= shown_name(name@));
    out
}

/// A shown name commands nothing: it holds no control character and none that
/// reorders text, and is bounded.
pub proof fn law_shown_names_are_inert(name: Seq<char>, index: int)
    requires
        0 <= index < shown_name(name).len(),
    ensures
        shown_name(name).len() <= MAX_SHOWN_NAME,
        !is_control(shown_name(name)[index]),
        !is_bidi_control(shown_name(name)[index]),
{
}

/// `value / unit`, rounded to the nearest integer and to the even one where
/// two are equally near.
pub open spec fn round_half_even(value: int, unit: int) -> int {
    let quotient = value / unit;
    let rest = value % unit;
    if 2 * rest < unit || (2 * rest == unit && quotient % 2 == 0) {
        quotient
    } else {
        quotient + 1
    }
}

/// First integer beyond which not every integer is a double-precision number.
pub const EXACT_LIMIT: u64 = 0x20_0000_0000_0000;

/// Distance of the double-precision numbers around `value`, where it exceeds
/// one.
pub open spec fn double_step(value: nat) -> nat
    decreases value,
{
    if value < EXACT_LIMIT {
        1
    } else {
        2 * double_step(value / 2)
    }
}

/// The double-precision number nearest to `value`.
pub open spec fn nearest_double(value: nat) -> int {
    round_half_even(value as int, double_step(value) as int) * double_step(value)
}

/// A count in `unit`s with one decimal, as double-precision arithmetic shows it.
pub open spec fn tenths_text(value: nat, unit: nat) -> Seq<char> {
    let tenths = round_half_even(10 * nearest_double(value), unit as int);
    decimal((tenths / 10) as nat) + seq!['.', decimal_digit(tenths % 10)]
}

/// 1024 bytes.
pub const KIB: u64 = 0x400;

/// 1024 times [`KIB`].
pub const MIB: u64 = 0x10_0000;

/// 1024 times [`MIB`].
pub const GIB: u64 = 0x4000_0000;

/// A byte count in the units a person reads.
pub open spec fn bytes_text(bytes: u64) -> Seq<char> {
    if bytes >= GIB {
        tenths_text(bytes as nat, GIB as nat) + " GiB"@
    } else if bytes >= MIB {
        tenths_text(bytes as nat, MIB as nat) + " MiB"@
    } else if bytes >= KIB {
        decimal(round_half_even(nearest_double(bytes as nat), KIB as int) as nat) + " KiB"@
    } else {
        decimal(bytes as nat) + " B"@
    }
}

proof fn lemma_round_bound(value: int, unit: int)
    requires
        value >= 0,
        unit > 0,
    ensures
        0 <= round_half_even(value, unit) <= value / unit + 1,
        value / unit <= value,
        round_half_even(value, unit) * unit <= value + unit,
{
    let quotient = value / unit;
    assert(0 <= quotient <= value && quotient * unit <= value) by (nonlinear_arith)
        requires
            quotient == value / unit,
            unit > 0,
            value >= 0,
    ;
    let rounded = round_half_even(value, unit);
    assert(rounded * unit <= value + unit) by (nonlinear_arith)
        requires
            quotient * unit <= value,
            0 <= rounded <= quotient + 1,
            unit > 0,
    ;
}

fn rounded(value: u128, unit: u128) -> (r: u128)
    requires
        0 < unit <= 0x1_0000_0000,
        value <= 0x1000_0000_0000_0000_0000,
    ensures
        r == round_half_even(value as int, unit as int),
{
    proof {
        lemma_round_bound(value as int, unit as int);
    }
    let quotient: u128 = value / unit;
    let rest: u128 = value % unit;
    if 2 * rest < unit || (2 * rest == unit && quotient % 2 == 0) {
        quotient
    } else {
        quotient + 1
    }
}

/// The double-precision number nearest to `value`.
fn to_double(value: u64) -> (r: u128)
    ensures
        r == nearest_double(value as nat),
        r <= value + 4096,
{
    let mut step: u64 = 1;
    let mut rest: u64 = value;
    assert(rest * step == value) by (nonlinear_arith)
        requires
            rest == value,
            step == 1,
    ;
    while rest >= EXACT_LIMIT
        invariant
            double_step(value as nat) == step * double_step(rest as nat),
            rest * step <= value,
            1 <= step <= 4096,
        decreases rest,
    {
        assert(step <= 2047) by (nonlinear_arith)
            requires
                rest * step <= value,
                rest >= EXACT_LIMIT,
                EXACT_LIMIT == 0x20_0000_0000_0000,
                value <= 0xffff_ffff_ffff_ffff,
        ;
        let ghost before = rest;
        let ghost small = step;
        rest = rest / 2;
        step = step * 2;
        proof {
            assert(rest * step <= before * small) by (nonlinear_arith)
                requires
                    rest == before / 2,
                    step == small * 2,
                    small >= 1,
                    before >= 0,
            ;
            let inner = double_step(rest as nat);
            assert(small * (2 * inner) == step * inner) by (nonlinear_arith)
                requires
                    step == small * 2,
            ;
        }
    }
    proof {
        assert(step * double_step(rest as nat) == step) by (nonlinear_arith)
            requires
                double_step(rest as nat) == 1,
        ;
        lemma_round_bound(value as int, step as int);
    }
    let count: u128 = rounded(value as u128, step as u128);
    assert(count * step <= value + step);
    count * (step as u128)
}

/// Appends `value` in `unit`s with one decimal.
fn push_tenths(out: &mut String, value: u64, unit: u64)
    requires
        0x10_0000 <= unit <= 0x1_0000_0000,
    ensures
        final(out)@ == old(out)@ + tenths_text(value as nat, unit as nat),
{
    let double: u128 = to_double(value);
    let tenths: u128 = rounded(10 * double, unit as u128);
    proof {
        lemma_round_bound(10 * double as int, unit as int);
        let scaled = 10 * double as int;
        assert(scaled / unit as int <= scaled / 0x10_0000) by (nonlinear_arith)
            requires
                unit >= 0x10_0000,
                scaled >= 0,
        ;
    }
    push_decimal(out, (tenths / 10) as u64);
    out.push('.');
    push_decimal(out, (tenths % 10) as u64);
    assert(out@ =~= old(out)@ + tenths_text(value as nat, unit as nat));
}

/// Byte counts in the units a person reads, sized for a progress line.
pub fn format_bytes(bytes: u64) -> (r: String)
    ensures
        r@ == bytes_text(bytes),
{
    let mut out = String::new();
    if bytes >= GIB {
        push_tenths(&mut out, bytes, GIB);
        out.append(" GiB");
    } else if bytes >= MIB {
        push_tenths(&mut out, bytes, MIB);
        out.append(" MiB");
    } else if bytes >= KIB {
        let double: u128 = to_double(bytes);
        proof {
            lemma_round_bound(double as int, KIB as int);
        }
        push_decimal(&mut out, rounded(double, KIB as u128) as u64);
        out.append(" KiB");
    } else {
        push_decimal(&mut out, bytes);
        out.append(" B");
    }
    assert(out@ =~= bytes_text(bytes));
    out
}

/// A number under a hundred with two digits.
pub open spec fn two_digits(value: int) -> Seq<char> {
    seq![decimal_digit(value / 10), decimal_digit(value % 10)]
}

/// A time span in seconds, compactly.
pub open spec fn duration_text(seconds: u64) -> Seq<char> {
    let minutes = seconds / 60;
    if seconds < 60 {
        decimal(seconds as nat) + "s"@
    } else if minutes < 60 {
        decimal(minutes as nat) + "m"@ + two_digits((seconds % 60) as int) + "s"@
    } else {
        decimal((minutes / 60) as nat) + "h"@ + two_digits((minutes % 60) as int) + "m"@
    }
}

fn push_two_digits(out: &mut String, value: u64)
    requires
        value < 100,
    ensures
        final(out)@ == old(out)@ + two_digits(value as int),
{
    push_decimal(out, value / 10);
    push_decimal(out, value % 10);
    assert(out@ =~= old(out)@ + two_digits(value as int));
}

/// Renders a remaining-time estimate compactly, e.g. `12s`, `3m05s`.
pub fn format_duration(seconds: u64) -> (r: String)
    ensures
        r@ == duration_text(seconds),
{
    let mut out = String::new();
    if seconds < 60 {
        push_decimal(&mut out, seconds);
        out.append("s");
        assert(out@ =~= duration_text(seconds));
        return out;
    }
    let minutes: u64 = seconds / 60;
    if minutes < 60 {
        push_decimal(&mut out, minutes);
        out.append("m");
        push_two_digits(&mut out, seconds % 60);
        out.append("s");
        assert(out@ =~= duration_text(seconds));
        return out;
    }
    push_decimal(&mut out, minutes / 60);
    out.append("h");
    push_two_digits(&mut out, minutes % 60);
    out.append("m");
    assert(out@ =~= duration_text(seconds));
    out
}

/// The larger integers stop at the end of their type.
pub open spec fn capped(value: int) -> int {
    if value > u64::MAX {
        u64::MAX as int
    } else {
        value
    }
}

/// `value * factor`, or the largest number where that is too large.
pub fn scaled(value: u64, factor: u64) -> (r: u64)
    ensures
        r == capped(value * factor),
{
    assert(value * factor <= 0xffff_ffff_ffff_ffff * 0xffff_ffff_ffff_ffff) by (nonlinear_arith)
        requires
            value <= 0xffff_ffff_ffff_ffff,
            factor <= 0xffff_ffff_ffff_ffff,
    ;
    assert(value * factor >= 0) by (nonlinear_arith)
        requires
            value >= 0,
            factor >= 0,
    ;
    let product: u128 = value as u128 * factor as u128;
    if product > 0xffff_ffff_ffff_ffff {
        u64::MAX
    } else {
        product as u64
    }
}

/// How much of a file is through, in percent.
pub open spec fn percent(bytes: u64, total: u64) -> int {
    let share = capped(bytes * 100) / total as int;
    if share > 100 {
        100
    } else {
        share
    }
}

/// Seconds left at `rate` bytes per second, rounded up.
pub open spec fn seconds_left(bytes: u64, total: u64, rate: u64) -> int {
    let remaining = if bytes < total {
        total - bytes
    } else {
        0
    };
    capped(remaining + rate - 1) / rate as int
}

/// Percentage, amounts, rate and remaining time, as far as they are known.
pub open spec fn detail_text(bytes: u64, total: Option<u64>, rate: Option<u64>) -> Seq<char> {
    let speed = match rate {
        Some(rate) => rate,
        None => 0,
    };
    match total {
        Some(total) if total > 0 => {
            let amounts = decimal(percent(bytes, total) as nat) + "%, "@ + bytes_text(bytes)
                + "/"@ + bytes_text(total);
            if speed > 0 {
                amounts + ", "@ + bytes_text(speed) + "/s, ETA "@ + duration_text(
                    seconds_left(bytes, total, speed) as u64,
                )
            } else {
                amounts
            }
        },
        _ => if speed > 0 {
            bytes_text(bytes) + ", "@ + bytes_text(speed) + "/s"@
        } else {
            bytes_text(bytes)
        },
    }
}

/// Formats `percent, transferred/total, rate, ETA`.
pub fn progress_detail(bytes: u64, total: Option<u64>, rate: Option<u64>) -> (r: String)
    ensures
        r@ == detail_text(bytes, total, rate),
{
    let speed: u64 = match rate {
        Some(rate) => rate,
        None => 0,
    };
    let transferred = format_bytes(bytes);
    let whole: u64 = match total {
        Some(total) => total,
        None => 0,
    };
    let mut out = String::new();
    if whole > 0 {
        let share: u64 = scaled(bytes, 100) / whole;
        let shown: u64 = if share > 100 {
            100
        } else {
            share
        };
        push_decimal(&mut out, shown);
        out.append("%, ");
        out.append(transferred.as_str());
        out.append("/");
        out.append(format_bytes(whole).as_str());
        if speed > 0 {
            let remaining: u64 = whole.saturating_sub(bytes);
            out.append(", ");
            out.append(format_bytes(speed).as_str());
            out.append("/s, ETA ");
            out.append(format_duration(remaining.saturating_add(speed - 1) / speed).as_str());
        }
    } else {
        out.append(transferred.as_str());
        if speed > 0 {
            out.append(", ");
            out.append(format_bytes(speed).as_str());
            out.append("/s");
        }
    }
    assert(out@ =~= detail_text(bytes, total, rate));
    out
}

/// The remote command and the direction of its data.
pub open spec fn direction_text(role: Role) -> Seq<char> {
    match role {
        Role::Upload => "rz >>"@,
        Role::Download => "sz <<"@,
    }
}

/// The color of a line.
pub open spec fn line_color(event: TransferEventView) -> Seq<char> {
    match event {
        TransferEventView::FileResult { outcome, .. } => match outcome {
            FileOutcomeView::Completed => "\x1b[90m"@,
            FileOutcomeView::Skipped => "\x1b[33m"@,
            FileOutcomeView::Failed(_) => "\x1b[31m"@,
        },
        TransferEventView::Finished { outcome, .. } => match outcome {
            TransferOutcomeView::Completed => "\x1b[90m"@,
            TransferOutcomeView::Cancelled => "\x1b[33m"@,
            TransferOutcomeView::RemoteCancelled => "\x1b[33m"@,
            TransferOutcomeView::Failed(_) => "\x1b[31m"@,
        },
        _ => "\x1b[32m"@,
    }
}

/// What a line says, with its line end.
pub open spec fn line_text(event: TransferEventView, rate: Option<u64>) -> Seq<char> {
    match event {
        TransferEventView::Requested { role, .. } => match role {
            Role::Download => "** sz waiting to send, please choose receive folder **\r\n"@,
            Role::Upload => "** rz waiting to receive, please choose files **\r\n"@,
        },
        TransferEventView::FileStarted { role, name, .. } => direction_text(role) + " "@
            + shown_name(name) + "\r\n"@,
        TransferEventView::Progress { role, name, bytes, total, .. } => direction_text(role)
            + " "@ + shown_name(name) + "::"@ + detail_text(bytes, total, rate) + "\r\n"@,
        TransferEventView::FileResult { role, name, bytes, outcome, .. } => direction_text(role)
            + " "@ + shown_name(name) + "::"@ + detail_text(bytes, None, rate) + match outcome {
            FileOutcomeView::Completed => ", completed\r\n"@,
            FileOutcomeView::Skipped => ", skipped\r\n"@,
            FileOutcomeView::Failed(_) => ", failed\r\n"@,
        },
        TransferEventView::Finished { role, outcome, .. } => direction_text(role)
            + match outcome {
            TransferOutcomeView::Completed => " completed\r\n"@,
            TransferOutcomeView::Cancelled => " cancelled\r\n"@,
            TransferOutcomeView::RemoteCancelled => " cancelled by remote\r\n"@,
            TransferOutcomeView::Failed(_) => " failed\r\n"@,
        },
    }
}

/// The status line of an event: progress and file results take the place of
/// the line above, and every line ends with plain colors.
pub open spec fn status_text(event: TransferEventView, rate: Option<u64>) -> Seq<char> {
    let move_up = if event is Progress || event is FileResult {
        "\x1b[1A"@
    } else {
        ""@
    };
    move_up + "\r\x1b[2K"@ + line_color(event) + line_text(event, rate) + "\x1b[0m"@
}

fn direction(role: Role) -> (r: &'static str)
    ensures
        r@ == direction_text(role),
{
    match role {
        Role::Upload => "rz >>",
        Role::Download => "sz <<",
    }
}

/// The status line of an event, as bytes for the terminal.
#[verifier::rlimit(60)]
#[verifier::spinoff_prover]
pub fn status_line(event: &TransferEvent, rate: Option<u64>) -> (r: Vec<u8>)
    ensures
        r@ == encode_utf8(status_text(event@, rate)),
{
    let mut out = match event {
        TransferEvent::Progress { .. } => concat("\x1b[1A", "\r\x1b[2K"),
        TransferEvent::FileResult { .. } => concat("\x1b[1A", "\r\x1b[2K"),
        _ => concat("", "\r\x1b[2K"),
    };
    match event {
        TransferEvent::Requested { role, .. } => {
            out.append("\x1b[32m");
            match role {
                Role::Download => {
                    out.append("** sz waiting to send, please choose receive folder **\r\n");
                },
                Role::Upload => {
                    out.append("** rz waiting to receive, please choose files **\r\n");
                },
            }
        },
        TransferEvent::FileStarted { role, name, .. } => {
            out.append("\x1b[32m");
            out.append(direction(*role));
            out.append(" ");
            out.append(sanitized_name(name.as_str()).as_str());
            out.append("\r\n");
        },
        TransferEvent::Progress { role, name, bytes, total, .. } => {
            out.append("\x1b[32m");
            out.append(direction(*role));
            out.append(" ");
            out.append(sanitized_name(name.as_str()).as_str());
            out.append("::");
            out.append(progress_detail(*bytes, *total, rate).as_str());
            out.append("\r\n");
        },
        TransferEvent::FileResult { role, name, bytes, outcome, .. } => {
            out.append(
                match outcome {
                    FileOutcome::Completed => "\x1b[90m",
                    FileOutcome::Skipped => "\x1b[33m",
                    FileOutcome::Failed(_) => "\x1b[31m",
                },
            );
            out.append(direction(*role));
            out.append(" ");
            out.append(sanitized_name(name.as_str()).as_str());
            out.append("::");
            out.append(progress_detail(*bytes, None, rate).as_str());
            out.append(
                match outcome {
                    FileOutcome::Completed => ", completed\r\n",
                    FileOutcome::Skipped => ", skipped\r\n",
                    FileOutcome::Failed(_) => ", failed\r\n",
                },
            );
        },
        TransferEvent::Finished { role, outcome, .. } => {
            out.append(
                match outcome {
                    TransferOutcome::Completed => "\x1b[90m",
                    TransferOutcome::Cancelled => "\x1b[33m",
                    TransferOutcome::RemoteCancelled => "\x1b[33m",
                    TransferOutcome::Failed(_) => "\x1b[31m",
                },
            );
            out.append(direction(*role));
            out.append(
                match outcome {
                    TransferOutcome::Completed => " completed\r\n",
                    TransferOutcome::Cancelled => " cancelled\r\n",
                    TransferOutcome::RemoteCancelled => " cancelled by remote\r\n",
                    TransferOutcome::Failed(_) => " failed\r\n",
                },
            );
        },
    }
    out.append("\x1b[0m");
    assert(out@ =~= status_text(event@, rate));
    let bytes = out.as_str().as_bytes();
    let line: Vec<u8> = copy_range(bytes, 0, bytes.len());
    assert(line@ =~= bytes@);
    line
}

/// The shown percentage never exceeds a hundred, and reaches it with the last
/// byte of a file whose size can be scaled.
pub proof fn law_percentage_is_bounded(bytes: u64, total: u64)
    requires
        total > 0,
    ensures
        0 <= percent(bytes, total) <= 100,
        bytes >= total && bytes * 100 <= u64::MAX ==> percent(bytes, total) == 100,
{
    if bytes >= total && bytes * 100 <= u64::MAX {
        assert(bytes * 100 / total as int >= 100) by (nonlinear_arith)
            requires
                bytes >= total,
                total > 0,
        ;
    }
    let scaled = capped(bytes * 100);
    assert(scaled / total as int >= 0) by (nonlinear_arith)
        requires
            scaled >= 0,
            total > 0,
    ;
}

/// Whether text ends with `end`.
pub open spec fn ends_with(text: Seq<char>, end: Seq<char>) -> bool {
    text.len() >= end.len() && text.skip(text.len() - end.len()) == end
}

/// Whether text starts with `start`.
pub open spec fn starts_with(text: Seq<char>, start: Seq<char>) -> bool {
    text.len() >= start.len() && text.take(start.len() as int) == start
}

proof fn lemma_ends_with(front: Seq<char>, end: Seq<char>)
    ensures
        ends_with(front + end, end),
{
    assert((front + end).skip(front.len() as int) =~= end);
}

proof fn lemma_starts_with(start: Seq<char>, rest: Seq<char>)
    ensures
        starts_with(start + rest, start),
{
    assert((start + rest).take(start.len() as int) =~= start);
}

/// The remaining time that is shown of a file is the least number of seconds in
/// which the rest of the file comes at the given rate.
pub proof fn law_remaining_time_is_the_least(bytes: u64, total: u64, rate: u64, seconds: u64)
    requires
        0 < total,
        bytes <= total,
        0 < rate,
        total - bytes + rate - 1 <= u64::MAX,
        seconds * rate >= total - bytes,
        seconds == 0 || (seconds - 1) * rate < total - bytes,
    ensures
        ends_with(
            detail_text(bytes, Some(total), Some(rate)),
            ", "@ + bytes_text(rate) + "/s, ETA "@ + duration_text(seconds),
        ),
{
    let rest = total - bytes;
    let shown = capped(
        (if bytes < total {
            total - bytes
        } else {
            0
        }) + rate - 1,
    ) / rate as int;
    assert(shown == (rest + rate - 1) / rate as int);
    assert((rest + rate - 1) / rate as int == seconds) by (nonlinear_arith)
        requires
            0 < rate,
            seconds * rate >= rest,
            seconds == 0 || (seconds - 1) * rate < rest,
            rest >= 0,
            seconds >= 0,
    ;
    assert(seconds_left(bytes, total, rate) == seconds);
    let end = ", "@ + bytes_text(rate) + "/s, ETA "@ + duration_text(seconds);
    let front = decimal(percent(bytes, total) as nat) + "%, "@ + bytes_text(bytes) + "/"@
        + bytes_text(total);
    assert(detail_text(bytes, Some(total), Some(rate)) =~= front + end);
    lemma_ends_with(front, end);
}

/// The remaining time is 0 exactly when nothing is left, and does not grow
/// while a file does.
pub proof fn law_remaining_time_falls(bytes: u64, more: u64, total: u64, rate: u64)
    requires
        bytes <= more <= total,
        0 < rate,
        total + rate - 1 <= u64::MAX,
    ensures
        seconds_left(bytes, total, rate) == 0 <==> bytes == total,
        0 <= seconds_left(more, total, rate) <= seconds_left(bytes, total, rate),
        (seconds_left(bytes, total, rate) - 1) * rate < total - bytes <= seconds_left(
            bytes,
            total,
            rate,
        ) * rate,
{
    let (rest, less) = (total - bytes, total - more);
    let (slow, fast) = ((rest + rate - 1) / rate as int, (less + rate - 1) / rate as int);
    assert(0 <= fast <= slow && (slow == 0 <==> rest == 0) && (slow - 1) * rate < rest && rest
        <= slow * rate) by (nonlinear_arith)
        requires
            0 < rate,
            0 <= less <= rest,
            slow == (rest + rate - 1) / rate as int,
            fast == (less + rate - 1) / rate as int,
    ;
    assert(seconds_left(bytes, total, rate) == slow);
    assert(seconds_left(more, total, rate) == fast);
}

/// The percentage that is shown is the whole part of the share, and at most a
/// hundred.
pub proof fn law_percentage_is_the_share(
    bytes: u64,
    total: u64,
    rate: Option<u64>,
    percentage: nat,
)
    requires
        0 < total,
        bytes * 100 <= u64::MAX,
        bytes <= total ==> percentage * total <= 100 * bytes < (percentage + 1) * total,
        bytes > total ==> percentage == 100,
    ensures
        starts_with(
            detail_text(bytes, Some(total), rate),
            decimal(percentage) + "%, "@ + bytes_text(bytes) + "/"@ + bytes_text(total),
        ),
{
    let share = bytes * 100 / total as int;
    if bytes <= total {
        assert(share == percentage && share <= 100) by (nonlinear_arith)
            requires
                0 < total,
                bytes <= total,
                percentage * total <= 100 * bytes,
                100 * bytes < (percentage + 1) * total,
                share == bytes * 100 / total as int,
        ;
    } else {
        assert(share >= 100) by (nonlinear_arith)
            requires
                0 < total,
                bytes > total,
                share == bytes * 100 / total as int,
        ;
    }
    let start = decimal(percentage) + "%, "@ + bytes_text(bytes) + "/"@ + bytes_text(total);
    let speed = match rate {
        Some(rate) => rate,
        None => 0,
    };
    let rest = if speed > 0 {
        ", "@ + bytes_text(speed) + "/s, ETA "@ + duration_text(
            seconds_left(bytes, total, speed) as u64,
        )
    } else {
        Seq::empty()
    };
    assert(detail_text(bytes, Some(total), rate) =~= start + rest);
    lemma_starts_with(start, rest);
}

/// Without a size only the amount and the rate are shown, and without a rate
/// neither a rate nor a remaining time.
pub proof fn law_unknown_figures_are_left_out(bytes: u64, total: u64, rate: u64)
    ensures
        detail_text(bytes, None, None) == bytes_text(bytes),
        detail_text(bytes, Some(0), None) == bytes_text(bytes),
        detail_text(bytes, None, Some(0)) == bytes_text(bytes),
        rate > 0 ==> detail_text(bytes, None, Some(rate)) == bytes_text(bytes) + ", "@
            + bytes_text(rate) + "/s"@,
        total > 0 ==> ends_with(detail_text(bytes, Some(total), None), bytes_text(total)),
        total > 0 ==> detail_text(bytes, Some(total), None) == detail_text(
            bytes,
            Some(total),
            Some(0),
        ),
{
    if total > 0 {
        let front = decimal(percent(bytes, total) as nat) + "%, "@ + bytes_text(bytes) + "/"@;
        assert(detail_text(bytes, Some(total), None) =~= front + bytes_text(total));
        lemma_ends_with(front, bytes_text(total));
    }
}

proof fn lemma_nearest(value: int, unit: int, count: int)
    requires
        value >= 0,
        unit > 0,
        2 * (value - count * unit) < unit,
        2 * (count * unit - value) < unit,
    ensures
        round_half_even(value, unit) == count,
{
    let (quotient, rest) = (value / unit, value % unit);
    assert(value == quotient * unit + rest && 0 <= rest < unit) by (nonlinear_arith)
        requires
            unit > 0,
            quotient == value / unit,
            rest == value % unit,
    ;
    assert(count == quotient && 2 * rest < unit || count == quotient + 1 && 2 * rest > unit)
        by (nonlinear_arith)
        requires
            value == quotient * unit + rest,
            0 <= rest < unit,
            2 * (value - count * unit) < unit,
            2 * (count * unit - value) < unit,
    ;
}

/// Amounts below the limit of exact doubles are shown as the nearest tenth of
/// the largest unit that they reach, or in whole kibibytes or bytes.
pub proof fn law_amounts_are_shown_to_the_nearest(bytes: u64, count: nat)
    requires
        bytes < EXACT_LIMIT,
    ensures
        bytes < 0x400 ==> bytes_text(bytes) == decimal(bytes as nat) + " B"@,
        0x400 <= bytes < 0x10_0000 && 2 * (bytes - count * 0x400) < 0x400 && 2 * (count * 0x400
            - bytes) < 0x400 ==> bytes_text(bytes) == decimal(count) + " KiB"@,
        0x10_0000 <= bytes < 0x4000_0000 && 2 * (10 * bytes - count * 0x10_0000) < 0x10_0000 && 2
            * (count * 0x10_0000 - 10 * bytes) < 0x10_0000 ==> bytes_text(bytes) == decimal(
            count / 10,
        ) + seq!['.', decimal_digit((count % 10) as int)] + " MiB"@,
        0x4000_0000 <= bytes && 2 * (10 * bytes - count * 0x4000_0000) < 0x4000_0000 && 2 * (count
            * 0x4000_0000 - 10 * bytes) < 0x4000_0000 ==> bytes_text(bytes) == decimal(
            count / 10,
        ) + seq!['.', decimal_digit((count % 10) as int)] + " GiB"@,
{
    assert(double_step(bytes as nat) == 1);
    assert(round_half_even(bytes as int, 1) == bytes);
    assert(nearest_double(bytes as nat) == bytes);
    if 0x400 <= bytes < 0x10_0000 && 2 * (bytes - count * 0x400) < 0x400 && 2 * (count * 0x400
        - bytes) < 0x400 {
        lemma_nearest(bytes as int, 0x400, count as int);
    }
    if 0x10_0000 <= bytes < 0x4000_0000 && 2 * (10 * bytes - count * 0x10_0000) < 0x10_0000 && 2
        * (count * 0x10_0000 - 10 * bytes) < 0x10_0000 {
        lemma_nearest(10 * bytes as int, 0x10_0000, count as int);
    }
    if 0x4000_0000 <= bytes && 2 * (10 * bytes - count * 0x4000_0000) < 0x4000_0000 && 2 * (count
        * 0x4000_0000 - 10 * bytes) < 0x4000_0000 {
        lemma_nearest(10 * bytes as int, 0x4000_0000, count as int);
    }
}

/// Spans are shown in their two largest units: seconds, minutes with seconds,
/// or hours with minutes.
pub proof fn law_durations_add_up(hours: u64, minutes: u64, seconds: u64)
    requires
        minutes < 60,
        seconds < 60,
        hours * 3600 + minutes * 60 + seconds <= u64::MAX,
    ensures
        duration_text(seconds) == decimal(seconds as nat) + "s"@,
        minutes > 0 ==> duration_text((minutes * 60 + seconds) as u64) == decimal(minutes as nat)
            + "m"@ + seq![
            decimal_digit((seconds / 10) as int),
            decimal_digit((seconds % 10) as int),
        ] + "s"@,
        hours > 0 ==> duration_text((hours * 3600 + minutes * 60 + seconds) as u64) == decimal(
            hours as nat,
        ) + "h"@ + seq![
            decimal_digit((minutes / 10) as int),
            decimal_digit((minutes % 10) as int),
        ] + "m"@,
{
    let all = hours * 3600 + minutes * 60 + seconds;
    assert(all / 60 == hours * 60 + minutes);
    assert((hours * 60 + minutes) / 60 == hours);
}

/// A name without anything to hide and within the limit is shown as it is, and
/// every shown name keeps the place of each character.
pub proof fn law_plain_names_are_shown_whole(name: Seq<char>)
    ensures
        name.len() <= 256 && (forall|i: int|
            0 <= i < name.len() ==> !is_control(#[trigger] name[i]) && !is_bidi_control(name[i]))
            ==> shown_name(name) == name,
        shown_name(name).len() == if name.len() <= 256 {
            name.len()
        } else {
            256
        },
        forall|i: int|
            0 <= i < shown_name(name).len() ==> #[trigger] shown_name(name)[i] == name[i]
                || shown_name(name)[i] == '?',
{
    if name.len() <= 256 && (forall|i: int|
        0 <= i < name.len() ==> !is_control(#[trigger] name[i]) && !is_bidi_control(name[i])) {
        assert(shown_name(name) =~= name);
    }
}

/// Progress and file results take the place of the line above, every other line
/// starts a new one, and all lines end with plain colors.
pub proof fn law_lines_are_closed(event: TransferEventView, rate: Option<u64>)
    ensures
        event is Progress || event is FileResult ==> starts_with(
            status_text(event, rate),
            "\x1b[1A"@ + "\r\x1b[2K"@,
        ),
        !(event is Progress || event is FileResult) ==> starts_with(
            status_text(event, rate),
            "\r\x1b[2K"@,
        ),
        ends_with(status_text(event, rate), "\x1b[0m"@),
{
    reveal_strlit("");
    let rest = line_color(event) + line_text(event, rate) + "\x1b[0m"@;
    let up = "\x1b[1A"@ + "\r\x1b[2K"@;
    let text = status_text(event, rate);
    if event is Progress || event is FileResult {
        assert(text =~= up + rest);
        lemma_starts_with(up, rest);
        assert(text =~= up + line_color(event) + line_text(event, rate) + "\x1b[0m"@);
        lemma_ends_with(up + line_color(event) + line_text(event, rate), "\x1b[0m"@);
    } else {
        assert(text =~= "\r\x1b[2K"@ + rest);
        lemma_starts_with("\r\x1b[2K"@, rest);
        let front = "\r\x1b[2K"@ + line_color(event) + line_text(event, rate);
        assert(text =~= front + "\x1b[0m"@);
        lemma_ends_with(front, "\x1b[0m"@);
    }
}

/// Every line of a file names the file as it may be shown, and the figures are
/// those of the event: its bytes, and its total where there is one.
pub proof fn law_lines_name_their_file(
    id: TransferId,
    role: Role,
    name: Seq<char>,
    bytes: u64,
    total: Option<u64>,
    rate: Option<u64>,
)
    ensures
        ends_with(
            status_text(TransferEventView::FileStarted { id, role, name, size: total }, rate),
            direction_text(role) + " "@ + shown_name(name) + "\r\n"@ + "\x1b[0m"@,
        ),
        ends_with(
            status_text(TransferEventView::Progress { id, role, name, bytes, total }, rate),
            direction_text(role) + " "@ + shown_name(name) + "::"@ + detail_text(
                bytes,
                total,
                rate,
            ) + "\r\n"@ + "\x1b[0m"@,
        ),
        ends_with(
            status_text(
                TransferEventView::FileResult {
                    id,
                    role,
                    name,
                    bytes,
                    outcome: FileOutcomeView::Skipped,
                    path: None,
                },
                rate,
            ),
            direction_text(role) + " "@ + shown_name(name) + "::"@ + detail_text(
                bytes,
                None,
                rate,
            ) + ", skipped\r\n"@ + "\x1b[0m"@,
        ),
{
    let started = TransferEventView::FileStarted { id, role, name, size: total };
    let front = ""@ + "\r\x1b[2K"@ + line_color(started);
    let end = direction_text(role) + " "@ + shown_name(name) + "\r\n"@ + "\x1b[0m"@;
    assert(status_text(started, rate) =~= front + end);
    lemma_ends_with(front, end);
    let progress = TransferEventView::Progress { id, role, name, bytes, total };
    let front = "\x1b[1A"@ + "\r\x1b[2K"@ + line_color(progress);
    let end = direction_text(role) + " "@ + shown_name(name) + "::"@ + detail_text(
        bytes,
        total,
        rate,
    ) + "\r\n"@ + "\x1b[0m"@;
    assert(status_text(progress, rate) =~= front + end);
    lemma_ends_with(front, end);
    let skipped = TransferEventView::FileResult {
        id,
        role,
        name,
        bytes,
        outcome: FileOutcomeView::Skipped,
        path: None,
    };
    let front = "\x1b[1A"@ + "\r\x1b[2K"@ + line_color(skipped);
    let end = direction_text(role) + " "@ + shown_name(name) + "::"@ + detail_text(
        bytes,
        None,
        rate,
    ) + ", skipped\r\n"@ + "\x1b[0m"@;
    assert(status_text(skipped, rate) =~= front + end);
    lemma_ends_with(front, end);
}

/// A line says what became of its file or transfer, in the words and the color
/// of that outcome: a failure is red, what was skipped or cancelled yellow, and
/// what went well neither.
pub proof fn law_lines_say_the_outcome(
    id: TransferId,
    role: Role,
    name: Seq<char>,
    bytes: u64,
    outcome: FileOutcomeView,
    path: Option<Seq<u8>>,
    end: TransferOutcomeView,
    committed_paths: Seq<Seq<u8>>,
    rate: Option<u64>,
)
    ensures
        ({
            let event = TransferEventView::FileResult { id, role, name, bytes, outcome, path };
            let front = direction_text(role) + " "@ + shown_name(name) + "::"@ + detail_text(
                bytes,
                None,
                rate,
            );
            &&& outcome is Completed ==> ends_with(
                status_text(event, rate),
                "\x1b[90m"@ + (front + ", completed\r\n"@) + "\x1b[0m"@,
            )
            &&& outcome is Skipped ==> ends_with(
                status_text(event, rate),
                "\x1b[33m"@ + (front + ", skipped\r\n"@) + "\x1b[0m"@,
            )
            &&& outcome is Failed ==> ends_with(
                status_text(event, rate),
                "\x1b[31m"@ + (front + ", failed\r\n"@) + "\x1b[0m"@,
            )
        }),
        ({
            let event = TransferEventView::Finished { id, role, outcome: end, committed_paths };
            let front = direction_text(role);
            &&& end is Completed ==> ends_with(
                status_text(event, rate),
                "\x1b[90m"@ + (front + " completed\r\n"@) + "\x1b[0m"@,
            )
            &&& end is Cancelled ==> ends_with(
                status_text(event, rate),
                "\x1b[33m"@ + (front + " cancelled\r\n"@) + "\x1b[0m"@,
            )
            &&& end is RemoteCancelled ==> ends_with(
                status_text(event, rate),
                "\x1b[33m"@ + (front + " cancelled by remote\r\n"@) + "\x1b[0m"@,
            )
            &&& end is Failed ==> ends_with(
                status_text(event, rate),
                "\x1b[31m"@ + (front + " failed\r\n"@) + "\x1b[0m"@,
            )
        }),
        direction_text(Role::Upload) == "rz >>"@,
        direction_text(Role::Download) == "sz <<"@,
{
    let file = TransferEventView::FileResult { id, role, name, bytes, outcome, path };
    lemma_line_is_last(file, rate);
    let whole = TransferEventView::Finished { id, role, outcome: end, committed_paths };
    lemma_line_is_last(whole, rate);
}

proof fn lemma_line_is_last(event: TransferEventView, rate: Option<u64>)
    ensures
        ends_with(
            status_text(event, rate),
            line_color(event) + line_text(event, rate) + "\x1b[0m"@,
        ),
{
    let move_up = if event is Progress || event is FileResult {
        "\x1b[1A"@
    } else {
        ""@
    };
    let front = move_up + "\r\x1b[2K"@;
    let end = line_color(event) + line_text(event, rate) + "\x1b[0m"@;
    assert(status_text(event, rate) =~= front + end);
    lemma_ends_with(front, end);
}

/// Rounding goes to the nearest, and to the even one of two that are equally
/// near; the double that stands for a large amount is no further from it than
/// half of the distance of doubles there.
pub proof fn law_rounding_is_to_the_nearest(value: nat, unit: nat)
    requires
        unit > 0,
    ensures
        ({
            let rounded = round_half_even(value as int, unit as int);
            let error = value - rounded * unit;
            &&& 2 * error <= unit
            &&& -2 * error <= unit
            &&& 2 * error == unit || -2 * error == unit ==> rounded % 2 == 0
        }),
        ({
            let error = value - nearest_double(value);
            &&& 2 * error <= double_step(value)
            &&& -2 * error <= double_step(value)
        }),
        value < EXACT_LIMIT ==> nearest_double(value) == value,
{
    lemma_rounding(value as int, unit as int);
    lemma_double_step(value);
    lemma_rounding(value as int, double_step(value) as int);
    if value < EXACT_LIMIT {
        assert(round_half_even(value as int, 1) == value);
    }
}

proof fn lemma_double_step(value: nat)
    ensures
        double_step(value) > 0,
    decreases value,
{
    if value >= EXACT_LIMIT {
        lemma_double_step(value / 2);
    }
}

proof fn lemma_rounding(value: int, unit: int)
    requires
        value >= 0,
        unit > 0,
    ensures
        ({
            let rounded = round_half_even(value, unit);
            let error = value - rounded * unit;
            &&& 2 * error <= unit
            &&& -2 * error <= unit
            &&& 2 * error == unit || -2 * error == unit ==> rounded % 2 == 0
        }),
{
    let quotient = value / unit;
    let rest = value % unit;
    vstd::arithmetic::div_mod::lemma_fundamental_div_mod(value, unit);
    assert(0 <= rest < unit) by (nonlinear_arith)
        requires
            unit > 0,
            rest == value % unit,
    ;
    assert(unit * quotient == quotient * unit) by (nonlinear_arith);
    assert((quotient + 1) * unit == quotient * unit + unit) by (nonlinear_arith);
}

} // verus!
