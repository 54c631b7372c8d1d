//! Texts of the status line under the columns.

use crate::pane::Pane;
use crate::path::{join_path, joined};
use bit::BitIndex;
use chrono::DateTime;
use vstd::prelude::*;
use vstd::string::*;

verus! {

/// Whether bit `pos` of `value` is set, bit 0 being the least significant.
pub open spec fn bit_is_set(value: u32, pos: u32) -> bool {
    value & (1u32 << pos) != 0
}

/// `letter` where bit `pos` of `mode` is set, a dash where it is not.
pub open spec fn mode_flag(mode: u32, pos: u32, letter: char) -> char {
    if bit_is_set(mode, pos) {
        letter
    } else {
        '-'
    }
}

/// The ten characters that stand for a Unix file mode: the directory flag,
/// then read, write and execute for the owner, the group and the others.
pub open spec fn symbolic_permissions(mode: u32) -> Seq<char> {
    seq![
        mode_flag(mode, 14, 'd'),
        mode_flag(mode, 8, 'r'),
        mode_flag(mode, 7, 'w'),
        mode_flag(mode, 6, 'x'),
        mode_flag(mode, 5, 'r'),
        mode_flag(mode, 4, 'w'),
        mode_flag(mode, 3, 'x'),
        mode_flag(mode, 2, 'r'),
        mode_flag(mode, 1, 'w'),
        mode_flag(mode, 0, 'x'),
    ]
}

/// Calls `bit::BitIndex::bit` on a `u32`. The crate computes
/// `value & 1 << pos != 0` and panics when `pos` is 32 or more, which the
/// precondition rules out.
#[verifier::external_body]
fn bit_at(value: u32, pos: u32) -> (set: bool)
    requires
        pos < 32,
    ensures
        set == bit_is_set(value, pos),
{
    value.bit(pos as usize)
}

/// Appends the flag for bit `pos` of `mode` to `text`.
fn push_flag(text: &mut String, mode: u32, pos: u32, letter: &str, Ghost(c): Ghost<char>)
    requires
        pos < 32,
        letter@.len() == 1,
        letter@[0] == c,
    ensures
        final(text)@ == old(text)@.push(mode_flag(mode, pos, c)),
{
    if bit_at(mode, pos) {
        text.append(letter);
    } else {
        proof {
            reveal_strlit("-");
        }
        text.append("-");
    }
    assert(text@ =~= old(text)@.push(mode_flag(mode, pos, c)));
}

/// The symbolic form of a Unix file mode, such as `-rw-r--r--` for `0o644`.
pub fn get_symbolic_permissions(permissions: u32) -> (symbolic: String)
    ensures
        symbolic@ == symbolic_permissions(permissions),
{
    proof {
        reveal_strlit("d");
        reveal_strlit("r");
        reveal_strlit("w");
        reveal_strlit("x");
    }
    let mut symbolic = String::new();
    push_flag(&mut symbolic, permissions, 14, "d", Ghost('d'));
    let mut shift: u32 = 9;
    while shift > 0
        invariant
            shift == 9 || shift == 6 || shift == 3 || shift == 0,
            "r"@.len() == 1 && "r"@[0] == 'r',
            "w"@.len() == 1 && "w"@[0] == 'w',
            "x"@.len() == 1 && "x"@[0] == 'x',
            symbolic@ =~= symbolic_permissions(permissions).take(10 - shift),
        decreases shift,
    {
        shift = shift - 3;
        push_flag(&mut symbolic, permissions, shift + 2, "r", Ghost('r'));
        push_flag(&mut symbolic, permissions, shift + 1, "w", Ghost('w'));
        push_flag(&mut symbolic, permissions, shift, "x", Ghost('x'));
    }
    symbolic
}

/// What chrono writes for the moment `seconds` after the Unix epoch, taken
/// in UTC, under the strftime pattern `pattern`; `None` where chrono cannot
/// hold that moment or refuses the pattern.
pub uninterp spec fn utc_text(seconds: i64, pattern: Seq<char>) -> Option<Seq<char>>;

/// Makes a `chrono::DateTime<Utc>` with `DateTime::from_timestamp` from
/// `seconds` and no nanoseconds, and writes it with `DateTime::format` and
/// `DelayedFormat::write_to`. The first gives nothing for a moment outside
/// chrono's range and the last fails on a pattern that chrono cannot read;
/// neither panics. UTC has no daylight saving and chrono's default locale
/// is fixed, so the text depends on the two arguments alone: that is all
/// the contract claims.
#[verifier::external_body]
fn format_utc(seconds: i64, pattern: &str) -> (text: Option<String>)
    ensures
        match text {
            Some(written) => utc_text(seconds, pattern@) == Some(written@),
            None => utc_text(seconds, pattern@) is None,
        },
{
    let moment = DateTime::from_timestamp(seconds, 0)?;
    let mut written = String::new();
    match moment.format(pattern).write_to(&mut written) {
        Ok(()) => Some(written),
        Err(_) => None,
    }
}

/// The text that stands for a time of last change: a blank and the time,
/// or nothing where the time could not be written.
pub open spec fn modified_label(stamp: Option<Seq<char>>) -> Seq<char> {
    match stamp {
        Some(text) => seq![' '] + text,
        None => Seq::empty(),
    }
}

/// The label for a time that was already written out, if it could be.
pub fn label_modified(stamp: Option<String>) -> (label: String)
    ensures
        label@ == modified_label(
            match stamp {
                Some(text) => Some(text@),
                None => None,
            },
        ),
{
    let mut label = String::new();
    match stamp {
        Some(text) => {
            proof {
                reveal_strlit(" ");
            }
            label.append(" ");
            label.append(text.as_str());
            assert(label@ =~= seq![' '] + text@);
        },
        None => {},
    }
    label
}

/// The label for a file last changed `seconds` after the Unix epoch: a
/// blank, then day, month and year with dashes between, a blank, and hour
/// and minute with a colon between, all in UTC.
pub fn last_modified_text(seconds: i64) -> (label: String)
    ensures
        label@ == modified_label(utc_text(seconds, "%d-%m-%Y %H:%M"@)),
{
    label_modified(format_utc(seconds, "%d-%m-%Y %H:%M"))
}

/// The path shown above the columns for the entry `name` of `dir`.
pub fn path_text(dir: &str, name: &str) -> (text: String)
    ensures
        text@ == joined(dir@, name@),
{
    join_path(dir, name)
}

/// The character of the decimal digit `d`.
pub open spec fn digit_char(d: nat) -> char {
    (('0' as u8) + d) as char
}

/// The decimal digits of `n`, without leading zeros.
pub open spec fn decimal(n: nat) -> Seq<char>
    decreases n,
{
    if n < 10 {
        seq![digit_char(n)]
    } else {
        decimal(n / 10).push(digit_char(n % 10))
    }
}

/// The text of one decimal digit.
fn digit_text(d: usize) -> (text: &'static str)
    requires
        d < 10,
    ensures
        text@ == seq![digit_char(d as nat)],
{
    proof {
        reveal_strlit("0");
        reveal_strlit("1");
        reveal_strlit("2");
        reveal_strlit("3");
        reveal_strlit("4");
        reveal_strlit("5");
        reveal_strlit("6");
        reveal_strlit("7");
        reveal_strlit("8");
        reveal_strlit("9");
    }
    let text = if d == 0 {
        "0"
    } else if d == 1 {
        "1"
    } else if d == 2 {
        "2"
    } else if d == 3 {
        "3"
    } else if d == 4 {
        "4"
    } else if d == 5 {
        "5"
    } else if d == 6 {
        "6"
    } else if d == 7 {
        "7"
    } else if d == 8 {
        "8"
    } else {
        "9"
    };
    assert(text@ =~= seq![digit_char(d as nat)]);
    text
}

/// `n` in decimal digits.
pub fn decimal_text(n: usize) -> (text: String)
    ensures
        text@ == decimal(n as nat),
    decreases n,
{
    if n < 10 {
        digit_text(n).to_owned()
    } else {
        let mut text = decimal_text(n / 10);
        text.append(digit_text(n % 10));
        assert(text@ =~= decimal((n / 10) as nat).push(digit_char((n % 10) as nat)));
        text
    }
}

/// The position of the cursor among `count` entries, counted from one,
/// then a slash and `count`.
pub open spec fn position_label(selected: int, count: nat) -> Seq<char> {
    decimal((selected + 1) as nat) + seq!['/'] + decimal(count)
}

/// The text that says where the cursor of `pane` stands, such as `3/10`;
/// nothing where the column has no cursor.
pub fn position_text(pane: &Pane) -> (text: Option<String>)
    ensures
        match text {
            Some(label) => pane@.selected matches Some(i) && label@ == position_label(
                i,
                pane@.entries.len(),
            ),
            None => pane@.selected is None,
        },
{
    match pane.selected_index() {
        Some(i) => {
            proof {
                reveal_strlit("/");
            }
            let count = pane.len();
            let mut label = decimal_text(i + 1);
            label.append("/");
            label.append(decimal_text(count).as_str());
            assert(label@ =~= position_label(i as int, pane@.entries.len()));
            Some(label)
        },
        None => None,
    }
}

} // verus!
