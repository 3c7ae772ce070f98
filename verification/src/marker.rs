//! The build marker: the time of the last successful build, kept as a
//! decimal number of milliseconds since the epoch.

use crate::text::{
    chars_of, is_white_space, leading_space, string_of, trailing_space, trim, trimmed,
};
use vstd::prelude::*;

verus! {

/// `c` is one of the digits `0` to `9`.
pub open spec fn is_digit(c: char) -> bool {
    c == '0' || c == '1' || c == '2' || c == '3' || c == '4' || c == '5' || c == '6' || c == '7'
        || c == '8' || c == '9'
}

/// The number that the digit `c` stands for.
pub open spec fn digit_value(c: char) -> nat {
    if c == '1' {
        1
    } else if c == '2' {
        2
    } else if c == '3' {
        3
    } else if c == '4' {
        4
    } else if c == '5' {
        5
    } else if c == '6' {
        6
    } else if c == '7' {
        7
    } else if c == '8' {
        8
    } else if c == '9' {
        9
    } else {
        0
    }
}

/// The digit that stands for `n`, a number below ten.
pub open spec fn digit_char(n: nat) -> char {
    if n == 1 {
        '1'
    } else if n == 2 {
        '2'
    } else if n == 3 {
        '3'
    } else if n == 4 {
        '4'
    } else if n == 5 {
        '5'
    } else if n == 6 {
        '6'
    } else if n == 7 {
        '7'
    } else if n == 8 {
        '8'
    } else if n == 9 {
        '9'
    } else {
        '0'
    }
}

/// Every character of `s` is a digit.
pub open spec fn all_digits(s: Seq<char>) -> bool {
    forall|i: int| 0 <= i < s.len() ==> is_digit(#[trigger] s[i])
}

/// The number that the digits `s` write in base ten.
pub open spec fn decimal_value(s: Seq<char>) -> nat
    decreases s.len(),
{
    if s.len() == 0 {
        0
    } else {
        decimal_value(s.drop_last()) * 10 + digit_value(s.last())
    }
}

/// The digits that write `n` in base ten, without leading zeros.
pub open spec fn decimal_text(n: nat) -> Seq<char>
    decreases n,
{
    if n < 10 {
        seq![digit_char(n)]
    } else {
        decimal_text(n / 10).push(digit_char(n % 10))
    }
}

/// `s` without the plus sign that it may begin with.
pub open spec fn unsigned_part(s: Seq<char>) -> Seq<char> {
    if s.len() > 0 && s[0] == '+' {
        s.skip(1)
    } else {
        s
    }
}

/// The time that a marker with the content `content` records: the number
/// written in it, white space at the ends set aside. A content that is no
/// number, or a number beyond 64 bits, records the time 0.
pub open spec fn recorded_time(content: Seq<char>) -> nat {
    let digits: Seq<char> = unsigned_part(trimmed(content));
    if digits.len() > 0 && all_digits(digits) && decimal_value(digits) <= u64::MAX {
        decimal_value(digits)
    } else {
        0
    }
}

/// The time of the last build: what the marker records, and 0 where there
/// is no marker.
pub open spec fn last_compile_time(marker: Option<Seq<char>>) -> nat {
    match marker {
        Some(content) => recorded_time(content),
        None => 0,
    }
}

/// The content of a marker that records the time `time`: its digits and a
/// line feed.
pub open spec fn marker_content(time: nat) -> Seq<char> {
    decimal_text(time).push('\n')
}

/// The value of the digits read so far never exceeds that of all digits.
proof fn lemma_decimal_value_grows(s: Seq<char>, n: int)
    requires
        0 <= n <= s.len(),
    ensures
        decimal_value(s.take(n)) <= decimal_value(s),
    decreases s.len() - n,
{
    if n < s.len() {
        lemma_decimal_value_grows(s, n + 1);
        assert(s.take(n + 1).drop_last() == s.take(n));
    } else {
        assert(s.take(n) == s);
    }
}

/// The number that the digit `c` stands for, if `c` is a digit.
pub fn digit_of(c: char) -> (d: Option<u64>)
    ensures
        match d {
            Some(v) => is_digit(c) && v == digit_value(c),
            None => !is_digit(c),
        },
{
    if c == '0' {
        Some(0)
    } else if c == '1' {
        Some(1)
    } else if c == '2' {
        Some(2)
    } else if c == '3' {
        Some(3)
    } else if c == '4' {
        Some(4)
    } else if c == '5' {
        Some(5)
    } else if c == '6' {
        Some(6)
    } else if c == '7' {
        Some(7)
    } else if c == '8' {
        Some(8)
    } else if c == '9' {
        Some(9)
    } else {
        None
    }
}

/// The time of the last successful build, from the content of the marker.
/// Without a marker, and with one that holds no number that fits in 64 bits,
/// the time is 0, so that every file counts as changed.
pub fn read_last_compile_time(marker: Option<&str>) -> (time: u64)
    ensures
        time == last_compile_time(
            match marker {
                Some(content) => Some(content@),
                None => None,
            },
        ),
{
    let content: &str = match marker {
        Some(c) => c,
        None => {
            return 0;
        },
    };
    let text: Vec<char> = trim(&chars_of(content));
    let start: usize = if text.len() > 0 && text[0] == '+' {
        1
    } else {
        0
    };
    let ghost digits: Seq<char> = unsigned_part(text@);
    assert(digits == text@.skip(start as int));
    if start == text.len() {
        return 0;
    }
    let mut value: u64 = 0;
    let mut i: usize = start;
    assert(digits.take(0) == Seq::<char>::empty());
    while i < text.len()
        invariant
            start <= i <= text.len(),
            marker == Some(content),
            text@ == trimmed(content@),
            digits == unsigned_part(text@),
            digits == text@.skip(start as int),
            all_digits(digits.take(i - start)),
            value == decimal_value(digits.take(i - start)),
        decreases text.len() - i,
    {
        let ghost read: Seq<char> = digits.take(i - start);
        let ghost more: Seq<char> = digits.take(i - start + 1);
        proof {
            assert(more.drop_last() == read);
            assert(more.last() == text@[i as int]);
            lemma_decimal_value_grows(digits, i - start + 1);
        }
        match digit_of(text[i]) {
            None => {
                assert(!is_digit(digits[i - start]));
                return 0;
            },
            Some(d) => {
                if value > (u64::MAX - d) / 10 {
                    return 0;
                }
                value = value * 10 + d;
                assert forall|k: int| 0 <= k < more.len() implies is_digit(#[trigger] more[k]) by {
                    if k < read.len() {
                        assert(more[k] == read[k]);
                    }
                }
            },
        }
        i = i + 1;
    }
    assert(digits.take(i - start) == digits);
    value
}

/// The time from which on a changed file counts: 0 for a fresh build, which
/// takes every file, else the time of the last build.
pub fn build_threshold(fresh_run: bool, marker: Option<&str>) -> (time: u64)
    ensures
        time == if fresh_run {
            0
        } else {
            last_compile_time(
                match marker {
                    Some(content) => Some(content@),
                    None => None,
                },
            )
        },
{
    if fresh_run {
        0
    } else {
        read_last_compile_time(marker)
    }
}

/// The digit that stands for `n`.
fn char_of_digit(n: u64) -> (c: char)
    requires
        n < 10,
    ensures
        c == digit_char(n as nat),
        is_digit(c),
        digit_value(c) == n,
{
    if n == 1 {
        '1'
    } else if n == 2 {
        '2'
    } else if n == 3 {
        '3'
    } else if n == 4 {
        '4'
    } else if n == 5 {
        '5'
    } else if n == 6 {
        '6'
    } else if n == 7 {
        '7'
    } else if n == 8 {
        '8'
    } else if n == 9 {
        '9'
    } else {
        '0'
    }
}

/// Appends the digits of `n` to `out`.
pub fn push_decimal(out: &mut Vec<char>, n: u64)
    ensures
        final(out)@ == old(out)@ + decimal_text(n as nat),
    decreases n,
{
    if n >= 10 {
        push_decimal(out, n / 10);
    }
    out.push(char_of_digit(n % 10));
}

/// The content of the marker that records `the_time` as the time of the
/// last successful build.
pub fn update_last_compile_time(the_time: u64) -> (content: String)
    ensures
        content@ == marker_content(the_time as nat),
{
    let mut out: Vec<char> = Vec::new();
    push_decimal(&mut out, the_time);
    out.push('\n');
    string_of(&out)
}

/// What `decimal_text` writes are digits, at least one, and they write the
/// number they were made from.
pub proof fn lemma_decimal_text_value(n: nat)
    ensures
        decimal_text(n).len() > 0,
        all_digits(decimal_text(n)),
        decimal_value(decimal_text(n)) == n,
    decreases n,
{
    if n < 10 {
        let s: Seq<char> = seq![digit_char(n)];
        assert(s.drop_last() == Seq::<char>::empty());
        assert(decimal_value(s.drop_last()) == 0);
    } else {
        lemma_decimal_text_value(n / 10);
        let s: Seq<char> = decimal_text(n);
        assert(s.drop_last() == decimal_text(n / 10));
        assert forall|i: int| 0 <= i < s.len() implies is_digit(#[trigger] s[i]) by {
            if i < s.len() - 1 {
                assert(s[i] == decimal_text(n / 10)[i]);
            }
        }
    }
}

/// A text that begins with a character other than white space has no
/// leading white space, and one that ends with such a character has none at
/// its end.
proof fn lemma_no_space_at_ends(s: Seq<char>)
    requires
        s.len() > 0,
    ensures
        !is_white_space(s[0]) ==> leading_space(s) == 0,
        !is_white_space(s.last()) ==> trailing_space(s) == 0,
{
}

/// A marker reads back as the time that was written: what
/// `update_last_compile_time` makes of a time, `read_last_compile_time`
/// reads as that time.
pub proof fn lemma_marker_round_trip(time: nat)
    requires
        time <= u64::MAX,
    ensures
        last_compile_time(Some(marker_content(time))) == time,
{
    let digits: Seq<char> = decimal_text(time);
    let content: Seq<char> = marker_content(time);
    lemma_decimal_text_value(time);
    lemma_no_space_at_ends(content);
    assert(content.skip(0) == content);
    assert(content.drop_last() == digits);
    lemma_no_space_at_ends(digits);
}

} // verus!
