//! Size formatting, output and backup paths.
pub mod binary64;
pub mod path_ops;

use vstd::prelude::*;
use crate::utils::binary64::{nearest_f64_int, nearest_f64_u128, round_half_even, round_half_even_u128};
use vstd::arithmetic::div_mod::lemma_div_is_ordered;
use crate::text::{seq_ends_with, text_ends_with};
use crate::utils::path_ops::{
    file_name_of, file_stem_of, join_path, parent_of, path_file_name, path_file_stem, path_join,
    path_parent, path_with_extension, path_with_file_name, with_extension, with_file_name,
};

verus! {

/// The character of a decimal digit.
pub open spec fn digit_char(d: nat) -> char {
    (d + 48) as char
}

/// The decimal representation of `n`, without leading zeros.
pub open spec fn decimal(n: nat) -> Seq<char>
    decreases n,
{
    if n < 10 {
        seq![digit_char(n)]
    } else {
        decimal(n / 10).push(digit_char(n % 10))
    }
}

/// `h` hundredths written with two decimal places.
pub open spec fn two_places(h: nat) -> Seq<char> {
    decimal(h / 100) + seq!['.', digit_char(h % 100 / 10), digit_char(h % 10)]
}

/// The human-readable rendering of a byte count.
///
/// At and above 1 KiB, 1 MiB and 1 GiB the count is divided by that unit in
/// `f64` and printed with two decimal places: the division by a power of two
/// is exact, so the printed value is the (binary64) count over the unit,
/// rounded to hundredths with ties to even. Below 2^53 the count is exact in
/// `f64`; above, it is first rounded to the nearest binary64 value.
pub open spec fn format_size_spec(bytes: nat) -> Seq<char> {
    if bytes >= 1073741824 {
        two_places(round_half_even(nearest_f64_int(bytes) * 100, 1073741824)) + seq![' ', 'G', 'B']
    } else if bytes >= 1048576 {
        two_places(round_half_even(bytes * 100, 1048576)) + seq![' ', 'M', 'B']
    } else if bytes >= 1024 {
        two_places(round_half_even(bytes * 100, 1024)) + seq![' ', 'K', 'B']
    } else {
        decimal(bytes) + seq![' ', 'B']
    }
}

/// Appends one decimal digit.
fn push_digit(s: &mut String, d: u64)
    requires
        d < 10,
    ensures
        final(s)@ == old(s)@.push(digit_char(d as nat)),
{
    let text = match d {
        0 => "0",
        1 => "1",
        2 => "2",
        3 => "3",
        4 => "4",
        5 => "5",
        6 => "6",
        7 => "7",
        8 => "8",
        _ => "9",
    };
    proof {
        reveal_strlit("0");
        reveal_strlit("1");
        reveal_strlit("2");
        reveal_strlit("3");
        reveal_strlit("4");
        reveal_strlit("5");
        reveal_strlit("6");
        reveal_strlit("7");
        reveal_strlit("8");
        reveal_strlit("9");
    }
    s.append(text);
}

/// Appends the decimal representation of `n`.
pub fn push_decimal(s: &mut String, n: u64)
    ensures
        final(s)@ == old(s)@ + decimal(n as nat),
    decreases n,
{
    if n >= 10 {
        push_decimal(s, n / 10);
        push_digit(s, n % 10);
    } else {
        push_digit(s, n);
    }
}

/// Appends `h` hundredths with two decimal places.
fn push_two_places(s: &mut String, h: u64)
    ensures
        final(s)@ == old(s)@ + two_places(h as nat),
{
    push_decimal(s, h / 100);
    s.append(".");
    push_digit(s, h % 100 / 10);
    push_digit(s, h % 10);
    proof {
        reveal_strlit(".");
    }
}

/// Formats a byte count for people: `B` below 1 KiB, then `KB`, `MB`, `GB`
/// with two decimal places.
pub fn format_size(bytes: u64) -> (s: String)
    ensures
        s@ == format_size_spec(bytes as nat),
{
    let mut s = String::new();
    if bytes >= 1073741824 {
        let v = nearest_f64_u128(bytes as u128);
        let h = round_half_even_u128(v * 100, 1073741824);
        proof {
            lemma_div_is_ordered((v * 100) as int, 0x40000000000000000000 as int, 1073741824);
        }
        assert(h <= 0x40000000000000000000int / 1073741824int + 1);
        push_two_places(&mut s, h as u64);
        s.append(" GB");
        proof {
            reveal_strlit(" GB");
        }
    } else if bytes >= 1048576 {
        let h = round_half_even_u128(bytes as u128 * 100, 1048576);
        proof {
            lemma_div_is_ordered((bytes * 100) as int, 107374182400, 1048576);
        }
        push_two_places(&mut s, h as u64);
        s.append(" MB");
        proof {
            reveal_strlit(" MB");
        }
    } else if bytes >= 1024 {
        let h = round_half_even_u128(bytes as u128 * 100, 1024);
        proof {
            lemma_div_is_ordered((bytes * 100) as int, 104857600, 1024);
        }
        push_two_places(&mut s, h as u64);
        s.append(" KB");
        proof {
            reveal_strlit(" KB");
        }
    } else {
        push_decimal(&mut s, bytes);
        s.append(" B");
        proof {
            reveal_strlit(" B");
        }
    }
    s
}

/// The file name of the compressed copy: `<stem>.slim.pdf` for a name ending
/// in `.pdf`, else the name followed by `.slim.pdf`.
pub open spec fn slim_name(name: Seq<char>) -> Seq<char> {
    if seq_ends_with(name, ".pdf"@) {
        name.subrange(0, name.len() - 4) + ".slim.pdf"@
    } else {
        name + ".slim.pdf"@
    }
}

/// The directory a file lies in: its parent, or `.` where it has none.
pub open spec fn parent_or_dot(p: Seq<char>) -> Seq<char> {
    match path_parent(p) {
        Some(d) => d,
        None => "."@,
    }
}

/// The default output path: the slim name in the input's directory.
pub open spec fn default_output_path_spec(input: Seq<char>) -> Seq<char> {
    path_join(parent_or_dot(input), slim_name(path_file_name(input).unwrap()))
}

/// The default output path `<name>.slim.pdf`, next to the input. The input
/// must have a file name.
pub fn default_output_path(input: &str) -> (r: String)
    requires
        path_file_name(input@) is Some,
    ensures
        r@ == default_output_path_spec(input@),
{
    let name = match file_name_of(input) {
        Some(n) => n,
        None => String::new(),
    };
    proof {
        reveal_strlit(".pdf");
    }
    let slim = if text_ends_with(name.as_str(), ".pdf") {
        let stem = name.as_str().substring_char(0, name.as_str().unicode_len() - 4);
        let mut s = String::from_str(stem);
        s.append(".slim.pdf");
        s
    } else {
        let mut s = name.clone();
        s.append(".slim.pdf");
        s
    };
    let dir = match parent_of(input) {
        Some(d) => d,
        None => String::from_str("."),
    };
    join_path(dir.as_str(), slim.as_str())
}

/// The backup path.
pub open spec fn backup_path_spec(input: Seq<char>) -> Seq<char> {
    match path_file_stem(input) {
        Some(stem) => path_with_file_name(input, stem + ".pdf-slim-bak"@),
        None => path_with_extension(input, ".pdf-slim-bak"@),
    }
}

/// The path the original is copied to before it is overwritten:
/// `<stem>.pdf-slim-bak` next to it.
pub fn backup_path(input: &str) -> (r: String)
    ensures
        r@ == backup_path_spec(input@),
{
    match file_stem_of(input) {
        Some(stem) => {
            let mut name = stem.clone();
            name.append(".pdf-slim-bak");
            with_file_name(input, name.as_str())
        },
        None => {
            proof {
                reveal_strlit(".pdf-slim-bak");
            }
            with_extension(input, ".pdf-slim-bak")
        },
    }
}

} // verus!
