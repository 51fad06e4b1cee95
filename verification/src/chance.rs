//! What differs from call to call: random numbers, unique names and the time.
use vstd::prelude::*;

verus! {

/// `rand::random`: any number. Nothing is said of which.
#[verifier::external_body]
pub(crate) fn random_u32() -> (r: u32) {
    rand::random()
}

/// A digit of a number in base 16.
pub open spec fn is_hex(c: char) -> bool {
    '0' <= c <= '9' || 'a' <= c <= 'f'
}

/// A name that is made to be unique: five groups of digits of base 16 with hyphens between them.
pub open spec fn is_unique_name(s: Seq<char>) -> bool {
    &&& s.len() == 36
    &&& forall|i: int|
        0 <= i < 36 ==> if i == 8 || i == 13 || i == 18 || i == 23 {
            #[trigger] s[i] == '-'
        } else {
            is_hex(s[i])
        }
}

/// A date as mail headers write it, such as `Tue, 1 Jul 2003 10:52:37 +0000`: one line of printable
/// characters, with the name of the day in front and the time zone behind.
pub open spec fn is_date(s: Seq<char>) -> bool {
    &&& s.len() == 30 || s.len() == 31
    &&& forall|i: int| 0 <= i < s.len() ==> ' ' <= #[trigger] s[i] <= '~'
    &&& s[3] == ','
    &&& s.skip(s.len() - 6) == " +0000"@
}

/// `uuid::Uuid::new_v4`, written out: five groups of digits. Nothing is said of which.
#[verifier::external_body]
pub(crate) fn unique_name() -> (r: String)
    ensures
        is_unique_name(r@),
{
    uuid::Uuid::new_v4().to_string()
}

/// `chrono::Utc::now`, written by `to_rfc2822` as mail headers write a date. Nothing is said of
/// which date. The clock is taken to be in one of the years up to 9999.
#[verifier::external_body]
pub(crate) fn date_now() -> (r: String)
    ensures
        is_date(r@),
{
    chrono::Utc::now().to_rfc2822()
}

} // verus!
