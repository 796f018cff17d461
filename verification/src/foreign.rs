//! Calls into outside crates and into parts of std that vstd leaves
//! unspecified. Every item here is trusted: its contract is not proved.

use vstd::prelude::*;

verus! {

#[verifier::external_type_specification]
#[verifier::external_body]
pub struct ExRegex(regex::Regex);

/// A compiled regular expression together with the source text it was
/// compiled from. Values are only made by `compile_pattern`.
pub struct Pattern {
    source: String,
    compiled: regex::Regex,
}

impl View for Pattern {
    type V = Seq<char>;

    closed spec fn view(&self) -> Seq<char> {
        self.source@
    }
}

/// Whether the regular expression with source `pattern` matches somewhere
/// in `haystack`, as `regex::Regex::is_match` decides it.
pub uninterp spec fn regex_is_match(pattern: Seq<char>, haystack: Seq<char>) -> bool;

/// What `regex::Regex::replace_all` returns when every match of `pattern`
/// in `haystack` is replaced by `with`, in which `$` references to capture
/// groups are expanded as `replace_all` expands them.
pub uninterp spec fn regex_replace_all(pattern: Seq<char>, haystack: Seq<char>, with: Seq<char>) -> Seq<char>;

/// Whether `regex::Regex::new` accepts `pattern`: it parses, and its
/// compiled form stays within the builder's default size limits.
pub uninterp spec fn regex_accepts(pattern: Seq<char>) -> bool;

/// Compiles `source` with `regex::Regex::new`; `None` exactly when the regex
/// crate rejects the pattern. Which patterns it accepts is only named.
#[verifier::external_body]
pub(crate) fn compile_pattern(source: &str) -> (r: Option<Pattern>)
    ensures
        r is Some <==> regex_accepts(source@),
        r matches Some(p) ==> p@ == source@,
{
    match regex::Regex::new(source) {
        Ok(compiled) => Some(Pattern { source: source.to_string(), compiled }),
        Err(_) => None,
    }
}

/// Calls `regex::Regex::is_match`. The contract only names the result: the
/// same pattern on the same haystack gives the same answer.
#[verifier::external_body]
pub(crate) fn pattern_is_match(p: &Pattern, haystack: &str) -> (r: bool)
    ensures
        r == regex_is_match(p@, haystack@),
{
    p.compiled.is_match(haystack)
}

/// Calls `regex::Regex::replace_all` with a string replacement (so `$`
/// references in it are expanded). The contract only names the result.
#[verifier::external_body]
pub(crate) fn pattern_replace_all(p: &Pattern, haystack: &str, with: &str) -> (r: String)
    ensures
        r@ == regex_replace_all(p@, haystack@, with@),
{
    p.compiled.replace_all(haystack, with).into_owned()
}

/// Appends one character with `String::push`.
#[verifier::external_body]
pub(crate) fn push_char(s: &mut String, c: char)
    ensures
        final(s)@ == old(s)@.push(c),
{
    s.push(c)
}

/// A lower-case hexadecimal digit.
pub open spec fn is_lower_hex(c: char) -> bool {
    ('0' <= c && c <= '9') || ('a' <= c && c <= 'f')
}

/// The hyphenated form in which `uuid::Uuid` displays itself: 36
/// characters, hyphens at 8, 13, 18 and 23, lower-case hex digits elsewhere.
pub open spec fn is_hyphenated_uuid(s: Seq<char>) -> bool {
    &&& s.len() == 36
    &&& forall|i: int|
        0 <= i < 36 ==> if i == 8 || i == 13 || i == 18 || i == 23 {
            s[i] == '-'
        } else {
            is_lower_hex(#[trigger] s[i])
        }
}

/// Calls `uuid::Uuid::new_v4` and renders the identifier with `to_string`.
/// The value is random; the contract states only its textual form, which
/// `Uuid`'s `Display` impl fixes. `new_v4` panics when the operating system
/// gives no random bytes; nothing here can rule that out.
#[verifier::external_body]
pub(crate) fn new_uuid() -> (r: String)
    ensures
        is_hyphenated_uuid(r@),
{
    uuid::Uuid::new_v4().to_string()
}

/// A decimal digit.
pub open spec fn is_ascii_digit(c: char) -> bool {
    '0' <= c && c <= '9'
}

/// Every character of `s` is a decimal digit.
pub open spec fn all_digits(s: Seq<char>) -> bool {
    forall|i: int| 0 <= i < s.len() ==> is_ascii_digit(#[trigger] s[i])
}

/// The year of an RFC 3339 stamp: four digits, or a `+` and at least five
/// digits for years past 9999.
pub open spec fn year_form(y: Seq<char>) -> bool {
    (y.len() == 4 && all_digits(y)) || (y.len() >= 6 && y[0] == '+' && all_digits(y.drop_first()))
}

/// `-MM-DDTHH:MM:SS`: what follows the year, two digits for each field.
pub open spec fn clock_form(s: Seq<char>) -> bool {
    &&& s.len() == 15
    &&& s[0] == '-' && s[3] == '-' && s[6] == 'T' && s[9] == ':' && s[12] == ':'
    &&& all_digits(s.subrange(1, 3)) && all_digits(s.subrange(4, 6)) && all_digits(s.subrange(7, 9))
    &&& all_digits(s.subrange(10, 12)) && all_digits(s.subrange(13, 15))
}

/// The fraction of a second: nothing, or a `.` and three, six or nine digits.
pub open spec fn fraction_form(f: Seq<char>) -> bool {
    f.len() == 0 || ((f.len() == 4 || f.len() == 7 || f.len() == 10) && f[0] == '.' && all_digits(f.drop_first()))
}

/// The form in which `chrono` writes a UTC moment with `to_rfc3339`: year,
/// `-MM-DDTHH:MM:SS`, an optional fraction of a second, and `+00:00`.
pub open spec fn is_utc_rfc3339(s: Seq<char>) -> bool {
    exists|y: int, f: int|
        4 <= y && 0 <= f && y + 15 + f + 6 == s.len() && #[trigger] year_form(s.subrange(0, y))
            && clock_form(s.subrange(y, y + 15)) && #[trigger] fraction_form(s.subrange(y + 15, y + 15 + f))
            && s.subrange(y + 15 + f, s.len() as int) == "+00:00"@
}

/// Calls `chrono::Utc::now` and renders the moment with `to_rfc3339`. The
/// moment is the machine's clock, so only the written form is stated, as
/// chrono's `write_rfc3339` fixes it for a UTC offset and `SecondsFormat::AutoSi`;
/// `now` panics on a clock set before 1970.
#[verifier::external_body]
pub(crate) fn now_utc() -> (r: String)
    ensures
        is_utc_rfc3339(r@),
{
    chrono::Utc::now().to_rfc3339()
}

#[verifier::external_type_specification]
#[verifier::external_body]
pub struct ExInstant(std::time::Instant);

/// Calls `std::time::Instant::now`; nothing is stated of the clock.
#[verifier::external_body]
pub(crate) fn stopwatch() -> std::time::Instant {
    std::time::Instant::now()
}

/// Calls `Instant::elapsed`; nothing is stated of the clock.
#[verifier::external_body]
pub(crate) fn elapsed_since(started: &std::time::Instant) -> std::time::Duration {
    started.elapsed()
}

/// Calls `Duration::as_millis`: the whole milliseconds of the duration. The
/// duration is opaque here, so nothing more is stated.
#[verifier::external_body]
pub(crate) fn whole_millis(d: &std::time::Duration) -> u128 {
    d.as_millis()
}

/// Milliseconds since `started`, cut to 64 bits.
pub fn elapsed_ms(started: &std::time::Instant) -> u64 {
    let ms = whole_millis(&elapsed_since(started));
    #[verifier::truncate]
    (ms as u64)
}

} // verus!
