//! Random identifiers and the wall clock, the two sources of values that no
//! input determines, with what holds of every value they hand back.
use vstd::prelude::*;
use crate::text::{self, push_char, push_padded};

verus! {

/// A lowercase hexadecimal digit.
pub open spec fn is_lower_hex(c: char) -> bool {
    let u = c as u32;
    (0x30 <= u <= 0x39) || (0x61 <= u <= 0x66)
}

/// The hyphenated text of a version-4 UUID: `xxxxxxxx-xxxx-4xxx-Vxxx-xxxxxxxxxxxx`
/// with lowercase hex digits and the variant digit `V` one of `8 9 a b`.
pub open spec fn is_uuid_v4_text(s: Seq<char>) -> bool {
    &&& s.len() == 36
    &&& forall|i: int|
        0 <= i < 36 ==> if i == 8 || i == 13 || i == 18 || i == 23 {
            #[trigger] s[i] == '-'
        } else {
            is_lower_hex(s[i])
        }
    &&& s[14] == '4'
    &&& (s[19] == '8' || s[19] == '9' || s[19] == 'a' || s[19] == 'b')
}

/// A new random identifier.
/// Trusted: `uuid::Uuid::new_v4` masks a random 128-bit number so that the
/// version nibble is 4 and the variant nibble is 8..b, and its `Display` writes
/// the lowercase hyphenated form. Which identifier comes back is left open.
#[verifier::external_body]
pub fn new_uuid_v4() -> (id: String)
    ensures
        is_uuid_v4_text(id@),
{
    uuid::Uuid::new_v4().to_string()
}

/// Calendar fields of an instant in UTC.
#[derive(Clone, Copy, Debug, PartialEq, Eq)]
pub struct DateTimeFields {
    pub year: i32,
    pub month: u32,
    pub day: u32,
    pub hour: u32,
    pub minute: u32,
}

/// The ranges chrono's `Datelike` and `Timelike` accessors document.
pub open spec fn fields_in_range(f: DateTimeFields) -> bool {
    &&& 1 <= f.month <= 12
    &&& 1 <= f.day <= 31
    &&& f.hour <= 23
    &&& f.minute <= 59
}

/// The current instant in UTC.
/// Trusted: `chrono::Utc::now` followed by the `Datelike`/`Timelike`
/// accessors, whose documentation gives the month as 1..=12, the day as 1..=31,
/// the hour as 0..=23 and the minute as 0..=59. The instant itself is left open.
#[verifier::external_body]
pub fn now_utc() -> (f: DateTimeFields)
    ensures
        fields_in_range(f),
{
    let now = chrono::Utc::now();
    DateTimeFields {
        year: chrono::Datelike::year(&now),
        month: chrono::Datelike::month(&now),
        day: chrono::Datelike::day(&now),
        hour: chrono::Timelike::hour(&now),
        minute: chrono::Timelike::minute(&now),
    }
}

/// `%Y`: four zero-padded digits for years 0..=9999, otherwise a sign and at
/// least four digits.
pub open spec fn year_text(y: int) -> Seq<char> {
    if 0 <= y <= 9999 {
        text::padded(y as nat, 4)
    } else if y < 0 {
        seq!['-'] + text::padded((-y) as nat, 4)
    } else {
        seq!['+'] + text::padded(y as nat, 4)
    }
}

/// `%Y-%m-%d`.
pub open spec fn date_text(f: DateTimeFields) -> Seq<char> {
    year_text(f.year as int) + seq!['-'] + text::padded(f.month as nat, 2) + seq!['-'] + text::padded(
        f.day as nat,
        2,
    )
}

/// `%Y-%m-%d %H:%M`.
pub open spec fn date_minute_text(f: DateTimeFields) -> Seq<char> {
    date_text(f) + seq![' '] + text::padded(f.hour as nat, 2) + seq![':'] + text::padded(f.minute as nat, 2)
}

fn push_year(out: &mut String, y: i32)
    ensures
        final(out)@ == old(out)@ + year_text(y as int),
{
    if 0 <= y && y <= 9999 {
        push_padded(out, y as u64, 4);
    } else if y < 0 {
        push_char(out, '-');
        let a: u64 = (0i64 - y as i64) as u64;
        push_padded(out, a, 4);
        assert(old(out)@.push('-') + text::padded(a as nat, 4) =~= old(out)@ + year_text(y as int));
    } else {
        push_char(out, '+');
        push_padded(out, y as u64, 4);
        assert(old(out)@.push('+') + text::padded(y as nat, 4) =~= old(out)@ + year_text(y as int));
    }
}

/// The date as `%Y-%m-%d`.
pub fn format_date(f: DateTimeFields) -> (s: String)
    ensures
        s@ == date_text(f),
{
    let mut s = String::new();
    push_year(&mut s, f.year);
    push_char(&mut s, '-');
    push_padded(&mut s, f.month as u64, 2);
    push_char(&mut s, '-');
    push_padded(&mut s, f.day as u64, 2);
    assert(s@ =~= date_text(f));
    s
}

/// The date and time as `%Y-%m-%d %H:%M`.
pub fn format_date_minute(f: DateTimeFields) -> (s: String)
    ensures
        s@ == date_minute_text(f),
{
    let mut s = format_date(f);
    push_char(&mut s, ' ');
    push_padded(&mut s, f.hour as u64, 2);
    push_char(&mut s, ':');
    push_padded(&mut s, f.minute as u64, 2);
    assert(s@ =~= date_minute_text(f));
    s
}

} // verus!
