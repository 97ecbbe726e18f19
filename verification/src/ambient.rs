//! What the library takes from the world around it: the time of day, and identifiers
//! drawn at random. Nothing here is proved; each function states what its source shows.

use rand::Rng;
use rand::SeedableRng;
use vstd::prelude::*;

verus! {

/// Whether `c` is one of the sixteen lower-case hexadecimal digits.
pub open spec fn is_hex_digit(c: char) -> bool {
    ('0' <= c && c <= '9') || ('a' <= c && c <= 'f')
}

/// The shape of a 128-bit number written in lower-case hexadecimal: between one and
/// thirty-two digits.
pub open spec fn is_hex_token(s: Seq<char>) -> bool {
    &&& 1 <= s.len() <= 32
    &&& forall|i: int| 0 <= i < s.len() ==> is_hex_digit(#[trigger] s[i])
}

/// The shape of a UUID in its hyphenated form: five groups of 8, 4, 4, 4 and 12
/// lower-case hexadecimal digits, with a hyphen between neighbours.
pub open spec fn is_uuid_text(s: Seq<char>) -> bool {
    &&& s.len() == 36
    &&& forall|i: int|
        0 <= i < 36 ==> if i == 8 || i == 13 || i == 18 || i == 23 {
            #[trigger] s[i] == '-'
        } else {
            is_hex_digit(s[i])
        }
}

/// The identifier that a generator seeded with `seed` yields first.
pub uninterp spec fn seeded_token_text(seed: u64) -> Seq<char>;

/// The current time in whole seconds since the Unix epoch, from `chrono::Utc::now` and
/// `DateTime::timestamp`. Nothing is claimed of the value. `Utc::now` panics on a machine
/// whose clock stands before 1970.
#[verifier::external_body]
pub(crate) fn now_seconds() -> (r: i64) {
    chrono::Utc::now().timestamp()
}

/// A version 4 UUID from `uuid::Uuid::new_v4`, written the way `Uuid` displays itself.
/// The bits are random; claimed is the hyphenated form of the text alone. `new_v4` panics
/// where the operating system gives no random bytes.
#[verifier::external_body]
pub(crate) fn fresh_uuid() -> (r: String)
    ensures
        is_uuid_text(r@),
{
    uuid::Uuid::new_v4().to_string()
}

/// A 128-bit number from `rand::thread_rng` and `Rng::gen`, written in lower-case
/// hexadecimal. The number is random; claimed is the form of the text alone. `thread_rng`
/// panics where the operating system gives no seed.
#[verifier::external_body]
pub(crate) fn random_token() -> (r: String)
    ensures
        is_hex_token(r@),
{
    format!("{:x}", rand::thread_rng().gen::<u128>())
}

/// The first 128-bit number that `Rng::gen` draws from
/// `rand::rngs::StdRng::seed_from_u64(seed)`, written in lower-case hexadecimal. The
/// generator is deterministic, so the text depends on the seed alone; which text it is, is
/// not stated, only its form.
#[verifier::external_body]
pub(crate) fn seeded_token(seed: u64) -> (r: String)
    ensures
        r@ == seeded_token_text(seed),
        is_hex_token(r@),
{
    let mut rng = rand::rngs::StdRng::seed_from_u64(seed);
    format!("{:x}", rng.gen::<u128>())
}

} // verus!
