//! Random text from the operating system's secure source.
use rand::{OsRng, Rng};
use vstd::prelude::*;

verus! {

/// An ASCII letter or digit.
pub open spec fn is_alphanumeric(c: char) -> bool {
    ('A' <= c && c <= 'Z') || ('a' <= c && c <= 'z') || ('0' <= c && c <= '9')
}

/// `text` is `len` ASCII letters and digits.
pub open spec fn is_alphanumeric_text(text: Seq<char>, len: nat) -> bool {
    &&& text.len() == len
    &&& forall|i: int| 0 <= i < text.len() ==> is_alphanumeric(#[trigger] text[i])
}

/// The operating system's random number generator, `rand::OsRng`. Nothing
/// is known of what is inside.
#[verifier::external_type_specification]
#[verifier::external_body]
pub struct ExOsRng(rand::OsRng);

/// Opens the operating system's random source.
///
/// Calls `rand::OsRng::new`. Nothing is claimed of the outcome; `None` stands
/// for the error that the call returns when the source cannot be opened.
#[verifier::external_body]
fn open_os_rng() -> (source: Option<OsRng>) {
    OsRng::new().ok()
}

/// Draws `count` characters from `source`.
///
/// Calls `Rng::gen_ascii_chars` and collects the first `count` items of the
/// iterator it returns. Trusted: that iterator never ends and each of its
/// items is one of the 62 ASCII letters and digits, so the text has exactly
/// `count` characters, all of them alphanumeric. Nothing is claimed about
/// which characters come out.
#[verifier::external_body]
fn draw_alphanumeric(source: &mut OsRng, count: usize) -> (text: String)
    ensures
        is_alphanumeric_text(text@, count as nat),
{
    source.gen_ascii_chars().take(count).collect()
}

/// `count` letters and digits from the operating system's random source, or
/// `None` if that source cannot be opened.
pub fn os_random_alphanumeric(count: usize) -> (drawn: Option<String>)
    ensures
        drawn matches Some(text) ==> is_alphanumeric_text(text@, count as nat),
{
    alphanumeric_from(open_os_rng(), count)
}

/// `count` letters and digits from `source`, if there is one: text comes out
/// exactly if the source was opened. Whether it can be opened is for the
/// operating system to say, so [`os_random_alphanumeric`] is sure of no
/// answer; this is what it makes of either outcome.
pub fn alphanumeric_from(source: Option<OsRng>, count: usize) -> (drawn: Option<String>)
    ensures
        drawn is Some <==> source is Some,
        drawn matches Some(text) ==> is_alphanumeric_text(text@, count as nat),
{
    match source {
        Some(mut source) => Some(draw_alphanumeric(&mut source, count)),
        None => None,
    }
}

} // verus!
