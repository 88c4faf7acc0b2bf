//! Random identifiers.

use vstd::prelude::*;

verus! {

/// Whether a character is a lower-case hexadecimal digit.
pub open spec fn is_hex(c: char) -> bool {
    '0' <= c <= '9' || 'a' <= c <= 'f'
}

/// Whether a text has the form of a random identifier: 32 hexadecimal digits, of which two carry
/// the marks of a random identifier.
pub open spec fn is_token(text: Seq<char>) -> bool {
    &&& text.len() == 32
    &&& forall|i: int| 0 <= i < text.len() ==> is_hex(#[trigger] text[i])
    &&& text[12] == '4'
    &&& text[16] == '8' || text[16] == '9' || text[16] == 'a' || text[16] == 'b'
}

/// Calls `uuid::Uuid::new_v4` and renders the result without hyphens. The claim is only its form:
/// which identifier comes out is left to chance. The call needs a source of random bytes from
/// the operating system, and does not return without one.
#[verifier::external_body]
fn random_uuid() -> (res: String)
    ensures
        is_token(res@),
{
    uuid::Uuid::new_v4().simple().to_string()
}

/// Whether an identifier can have been drawn at random.
pub closed spec fn drawn(id: String) -> bool {
    call_ensures(random_uuid, (), id)
}

/// An identifier from the given source.
fn draw_from<F: Fn() -> String>(source: F) -> (res: String)
    requires
        call_requires(source, ()),
    ensures
        call_ensures(source, (), res),
{
    source()
}

/// Draws a new random identifier.
pub fn new_token() -> (res: String)
    ensures
        drawn(res),
        is_token(res@),
{
    draw_from(random_uuid)
}

} // verus!
