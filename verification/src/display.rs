//! Labels of the terminal bar meters.
//!
//! The terminal renderer draws one horizontal bar per channel and one
//! per visible pitch band; this module builds the text labels in front
//! of those bars. The drawing itself is ANSI terminal output and lives
//! with the application.

use vstd::prelude::*;

verus! {

/// The decimal digit character of a value below ten.
pub open spec fn spec_digit(d: int) -> char {
    if d == 0 {
        '0'
    } else if d == 1 {
        '1'
    } else if d == 2 {
        '2'
    } else if d == 3 {
        '3'
    } else if d == 4 {
        '4'
    } else if d == 5 {
        '5'
    } else if d == 6 {
        '6'
    } else if d == 7 {
        '7'
    } else if d == 8 {
        '8'
    } else {
        '9'
    }
}

/// The decimal digits of a nonnegative value, most significant first.
pub open spec fn spec_dec_str(n: int) -> Seq<char>
    decreases n,
{
    if n < 10 {
        seq![spec_digit(n)]
    } else {
        spec_dec_str(n / 10) + seq![spec_digit(n % 10)]
    }
}

/// The one-character string of a decimal digit.
fn digit_str(d: usize) -> (s: &'static str)
    requires
        d < 10,
    ensures
        s@ == seq![spec_digit(d as int)],
{
    let s = match d {
        0 => "0",
        1 => "1",
        2 => "2",
        3 => "3",
        4 => "4",
        5 => "5",
        6 => "6",
        7 => "7",
        8 => "8",
        _ => "9",
    };
    proof {
        reveal_strlit("0");
        reveal_strlit("1");
        reveal_strlit("2");
        reveal_strlit("3");
        reveal_strlit("4");
        reveal_strlit("5");
        reveal_strlit("6");
        reveal_strlit("7");
        reveal_strlit("8");
        reveal_strlit("9");
        assert(s@ =~= seq![spec_digit(d as int)]);
    }
    s
}

/// Writes a value in decimal.
pub fn usize_to_string(n: usize) -> (s: String)
    ensures
        s@ == spec_dec_str(n as int),
    decreases n,
{
    if n < 10 {
        let s = digit_str(n).to_string();
        s
    } else {
        let mut s = usize_to_string(n / 10);
        s.append(digit_str(n % 10));
        s
    }
}

/// The label in front of a channel's amplitude bar.
pub open spec fn spec_ch_label(ch_idx: int, ch_len: int) -> Seq<char> {
    if ch_len == 1 {
        "  Mono:"@
    } else if ch_len == 2 {
        if ch_idx == 0 {
            "/ L_ch  "@
        } else {
            "\\ R_ch  "@
        }
    } else {
        (if ch_idx == 0 {
            "/ "@
        } else if ch_idx == ch_len - 1 {
            "\\ "@
        } else {
            "| "@
        }) + spec_dec_str(ch_idx + 1) + "_ch  "@
    }
}

/// Builds the label of channel `ch_idx` of `ch_len`: `Mono` alone,
/// left/right for a pair, and numbered channels beyond that, bracketed
/// so the bars read as one block.
pub fn set_vbar_meter_ch_label(ch_idx: usize, ch_len: usize) -> (s: String)
    requires
        ch_idx < usize::MAX,
    ensures
        s@ == spec_ch_label(ch_idx as int, ch_len as int),
{
    if ch_len == 1 {
        "  Mono:".to_string()
    } else if ch_len == 2 {
        if ch_idx == 0 {
            "/ L_ch  ".to_string()
        } else {
            "\\ R_ch  ".to_string()
        }
    } else {
        let mut vbar_label = if ch_idx == 0 {
            "/ ".to_string()
        } else if ch_len >= 1 && ch_idx == ch_len - 1 {
            "\\ ".to_string()
        } else {
            "| ".to_string()
        };
        let num = usize_to_string(ch_idx + 1);
        vbar_label.append(num.as_str());
        vbar_label.append("_ch  ");
        vbar_label
    }
}

/// The label in front of a pitch band's bar.
pub open spec fn spec_spectrum_label(idx: int, freq_len: int, spn: Seq<char>) -> Seq<char> {
    (if idx == 0 {
        "\\"@
    } else if idx == freq_len - 1 {
        "/"@
    } else {
        "|"@
    }) + " "@ + spn + " "@
}

/// Builds the label of band `idx` of `freq_len` visible bands, carrying
/// its pitch name; the first and last bands get the closing brackets of
/// the block.
pub fn set_vbar_meter_spectrum_label(idx: usize, freq_len: usize, spn_label: &str) -> (s: String)
    ensures
        s@ == spec_spectrum_label(idx as int, freq_len as int, spn_label@),
{
    let mut s = if idx == 0 {
        "\\".to_string()
    } else if freq_len >= 1 && idx == freq_len - 1 {
        "/".to_string()
    } else {
        "|".to_string()
    };
    s.append(" ");
    s.append(spn_label);
    s.append(" ");
    s
}

} // verus!
