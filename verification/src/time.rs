//! Reading timestamps. The reading itself is chrono's.

use chrono::{TimeZone, Utc};
use vstd::prelude::*;
use vstd::std_specs::iter::IteratorSpec;
use vstd::string::StringExecFns;

verus! {

/// What chrono makes of `text` under the strftime pattern `format`, taken as
/// UTC: the instant in seconds since the Unix epoch, or the words in which
/// chrono says why it reads no instant.
pub uninterp spec fn utc_seconds(text: Seq<char>, format: Seq<char>) -> Result<i64, Seq<char>>;

/// The least year that a pattern's year item can take in, without its sign.
pub const MIN_YEAR_DIGITS: u64 = 2147483648;

/// Whether `c` is one of the ten decimal digits.
pub open spec fn is_digit(c: char) -> bool {
    '0' <= c <= '9'
}

/// The number of decimal digits that `s` begins with.
pub open spec fn digit_run(s: Seq<char>) -> nat
    decreases s.len(),
{
    if s.len() > 0 && is_digit(s[0]) {
        1 + digit_run(s.drop_first())
    } else {
        0
    }
}

/// The number that the decimal digits `digits` read.
pub open spec fn decimal(digits: Seq<char>) -> nat
    decreases digits.len(),
{
    if digits.len() == 0 {
        0
    } else {
        decimal(digits.drop_last()) * 10 + (digits.last() as nat - '0' as nat) as nat
    }
}

/// Whether a minus sign stands at index `i` of `text` and the digits that
/// follow it directly read 2147483648.
pub open spec fn min_year_at(text: Seq<char>, i: int) -> bool {
    &&& 0 <= i < text.len()
    &&& text[i] == '-'
    &&& decimal(text.subrange(i + 1, i + 1 + digit_run(text.skip(i + 1)))) == MIN_YEAR_DIGITS
}

/// Whether `text` holds a minus sign directly followed by digits that read
/// 2147483648.
pub open spec fn reads_min_year(text: Seq<char>) -> bool {
    exists|i: int| #[trigger] min_year_at(text, i)
}

/// The inputs that are not handed to chrono: a pattern that may hold an item
/// for the year of the ISO week date, with a text that reads as the least
/// year that such an item takes in. No date has that year, and chrono must
/// not be asked for the week before its first one.
pub open spec fn beyond_first_year(text: Seq<char>, format: Seq<char>) -> bool {
    format.contains('G') && reads_min_year(text)
}

/// What the reading of a timestamp gives: chrono's reading, but for the
/// inputs left out by `beyond_first_year`, which are out of range.
pub open spec fn read_seconds(text: Seq<char>, format: Seq<char>) -> Result<i64, Seq<char>> {
    if beyond_first_year(text, format) {
        Err("input is out of range"@)
    } else {
        utc_seconds(text, format)
    }
}

/// Reads a timestamp with chrono: `TimeZone::datetime_from_str` on `Utc`
/// parses `text` under `format`; `DateTime::timestamp` turns the instant
/// into whole seconds since the Unix epoch, and the `Display` of chrono's
/// `ParseError` turns a failure into words. Nothing is proved of chrono. All
/// that is claimed is that the outcome depends on the two texts alone, so
/// that it can be named: `utc_seconds`. The inputs of `beyond_first_year` are
/// left out, because on them chrono computes the year before the least one.
#[allow(deprecated)]
#[verifier::external_body]
pub(crate) fn parse_utc_seconds(text: &str, format: &str) -> (seconds: Result<i64, String>)
    requires
        !beyond_first_year(text@, format@),
    ensures
        match seconds {
            Ok(read) => utc_seconds(text@, format@) == Ok::<i64, Seq<char>>(read),
            Err(why) => utc_seconds(text@, format@) == Err::<i64, Seq<char>>(why@),
        },
{
    match Utc.datetime_from_str(text, format) {
        Ok(instant) => Ok(instant.timestamp()),
        Err(why) => Err(format!("{}", why)),
    }
}

/// A run of digits is as long as the digits reach.
proof fn lemma_digit_run(s: Seq<char>, k: int)
    requires
        0 <= k <= s.len(),
        forall|j: int| 0 <= j < k ==> is_digit(s[j]),
        k == s.len() || !is_digit(s[k]),
    ensures
        digit_run(s) == k,
    decreases k,
{
    if k > 0 {
        lemma_digit_run(s.drop_first(), k - 1);
    }
}

/// Whether the text holds the character.
pub fn holds_char(text: &str, wanted: char) -> (found: bool)
    ensures
        found == text@.contains(wanted),
{
    let n = text.unicode_len();
    let mut chars = text.chars();
    let mut i: usize = 0;
    while i < n
        invariant
            i <= n,
            n == text@.len(),
            chars.obeys_prophetic_iter_laws(),
            chars.remaining() == text@.skip(i as int),
            forall|j: int| 0 <= j < i ==> text@[j] != wanted,
        decreases n - i,
    {
        let next = chars.next();
        if next.unwrap() == wanted {
            assert(text@[i as int] == wanted);
            return true;
        }
        assert(text@.skip(i as int).drop_first() == text@.skip(i + 1));
        i = i + 1;
    }
    false
}

/// Whether the text holds a minus sign directly followed by digits that read
/// 2147483648.
pub fn holds_min_year(text: &str) -> (found: bool)
    ensures
        found == reads_min_year(text@),
{
    let n = text.unicode_len();
    let mut chars = text.chars();
    let mut i: usize = 0;
    // Whether the digits behind a minus sign are being read, what they read
    // so far, and whether that is more than can matter.
    let mut in_run = false;
    let mut value: u64 = 0;
    let mut over = false;
    let ghost mut start: int = 0;
    while i < n
        invariant
            i <= n,
            n == text@.len(),
            chars.obeys_prophetic_iter_laws(),
            chars.remaining() == text@.skip(i as int),
            forall|j: int|
                0 <= j < i && !(in_run && j == start - 1) ==> !#[trigger] min_year_at(text@, j),
            in_run ==> 1 <= start <= i && text@[start - 1] == '-',
            in_run ==> forall|k: int| start <= k < i ==> is_digit(text@[k]),
            in_run && !over ==> value == decimal(text@.subrange(start, i as int)) && value
                <= MIN_YEAR_DIGITS,
            in_run && over ==> decimal(text@.subrange(start, i as int)) > MIN_YEAR_DIGITS,
        decreases n - i,
    {
        let next = chars.next();
        let c = next.unwrap();
        proof {
            assert(text@[i as int] == c);
            assert(text@.skip(i as int).drop_first() == text@.skip(i + 1));
        }
        if in_run && '0' <= c && c <= '9' {
            proof {
                let grown = text@.subrange(start, i + 1);
                assert(grown.drop_last() == text@.subrange(start, i as int));
                assert(grown.last() == c);
            }
            if !over {
                value = value * 10 + (c as u64 - '0' as u64);
                over = value > MIN_YEAR_DIGITS;
            }
        } else {
            proof {
                if in_run {
                    lemma_digit_run(text@.skip(start), i - start);
                    assert(text@.subrange(start, start + (i - start)) == text@.subrange(
                        start,
                        i as int,
                    ));
                }
            }
            if in_run && !over && value == MIN_YEAR_DIGITS {
                assert(min_year_at(text@, start - 1));
                return true;
            }
            in_run = c == '-';
            value = 0;
            over = false;
            proof {
                start = i + 1;
                assert(text@.subrange(start, i + 1) == Seq::<char>::empty());
            }
        }
        i = i + 1;
    }
    proof {
        if in_run {
            lemma_digit_run(text@.skip(start), n - start);
            assert(text@.subrange(start, start + (n - start)) == text@.subrange(start, n as int));
        }
    }
    let found = in_run && !over && value == MIN_YEAR_DIGITS;
    proof {
        if found {
            assert(min_year_at(text@, start - 1));
        }
    }
    found
}

/// Reads a timestamp: the instant in seconds since the Unix epoch, or the
/// reason why the text gives none under the pattern.
pub fn read_utc_seconds(text: &str, format: &str) -> (seconds: Result<i64, String>)
    ensures
        match seconds {
            Ok(read) => read_seconds(text@, format@) == Ok::<i64, Seq<char>>(read),
            Err(why) => read_seconds(text@, format@) == Err::<i64, Seq<char>>(why@),
        },
{
    if holds_char(format, 'G') && holds_min_year(text) {
        Err(String::from_str("input is out of range"))
    } else {
        parse_utc_seconds(text, format)
    }
}

} // verus!
