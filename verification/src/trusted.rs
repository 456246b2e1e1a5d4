use vstd::prelude::*;

verus! {

/// A lowercase hexadecimal digit.
pub open spec fn is_lower_hex_digit(c: char) -> bool {
    ('0' <= c && c <= '9') || ('a' <= c && c <= 'f')
}

/// Relies on uuid::Uuid::new_v4 and Uuid::as_u128: a random identifier
/// whose version nibble is 4 and whose variant bits are binary 10, in
/// the big-endian 128-bit rendering. Nothing else is promised of it;
/// in particular two calls may return anything, equal or not.
#[verifier::external_body]
pub(crate) fn uuid_generate() -> (r: u128)
    ensures
        (r >> 76) & 0xf == 4,
        (r >> 62) & 0x3 == 2,
{
    uuid::Uuid::new_v4().as_u128()
}

/// Relies on chrono::Utc::now and DateTime::timestamp_millis: the
/// current wall-clock time as milliseconds since the epoch. The clock
/// is outside the program, so nothing is promised of the value.
#[verifier::external_body]
pub(crate) fn time_now_ms() -> i64 {
    chrono::Utc::now().timestamp_millis()
}

/// Relies on libreauth::key::KeyBuilder (generate, as_hex): `size`
/// random bytes rendered as lowercase hexadecimal, two digits per
/// byte. The bytes are random, so nothing is promised of which digits
/// appear.
#[verifier::external_body]
pub(crate) fn random_hex(size: usize) -> (r: String)
    requires
        0 < size,
        size <= 0x1000,
    ensures
        r@.len() == 2 * size,
        forall|i: int| 0 <= i < r@.len() ==> is_lower_hex_digit(#[trigger] r@[i]),
{
    libreauth::key::KeyBuilder::new().size(size).generate().as_hex()
}

/// Relies on libreauth::pass::HashBuilder (finalize, Hasher::hash):
/// the password hashed under the crate's default standard, a salted
/// PHC-formatted string. The salt is random, so nothing is promised of
/// the text; `None` reports the crate's own refusal (for instance a
/// password beyond its length bounds).
#[verifier::external_body]
pub(crate) fn hash_password(plain: &str) -> (r: Option<String>) {
    match libreauth::pass::HashBuilder::new().finalize() {
        Ok(hasher) => hasher.hash(plain).ok(),
        Err(_) => None,
    }
}

/// Relies on alloc::string::String::from_utf8: ASCII bytes decode to
/// the string whose characters are those bytes, one to one.
#[verifier::external_body]
pub(crate) fn string_from_ascii_bytes(v: Vec<u8>) -> (r: String)
    requires
        forall|i: int| 0 <= i < v@.len() ==> v@[i] < 128,
    ensures
        r@.len() == v@.len(),
        forall|i: int| 0 <= i < r@.len() ==> #[trigger] r@[i] == v@[i] as char,
{
    String::from_utf8(v).unwrap()
}

/// Relies on str::to_ascii_lowercase: ASCII capital letters are mapped
/// to their lowercase counterparts and every other character is kept.
#[verifier::external_body]
pub(crate) fn ascii_lowercase(s: &str) -> (r: String)
    ensures
        r@ == crate::util::lower_chars(s@),
{
    s.to_ascii_lowercase()
}

/// Whether url::Url::parse accepts this text as an absolute URL.
pub uninterp spec fn url_parse_ok(s: Seq<char>) -> bool;

/// The serialization of the parsed URL with its query replaced: what
/// url::Url::parse, Url::set_query and Url::as_str make of the two
/// texts. It depends on the two arguments alone.
pub uninterp spec fn url_with_query_of(url: Seq<char>, query: Seq<char>) -> Seq<char>;

/// Relies on url::Url::parse, Url::set_query and Url::as_str: the
/// URL re-serialized with `query` as its query string, or `None` when
/// the text does not parse.
#[verifier::external_body]
pub(crate) fn url_with_query(url: &str, query: &str) -> (r: Option<String>)
    ensures
        r is Some <==> url_parse_ok(url@),
        r matches Some(s) ==> s@ == url_with_query_of(url@, query@),
{
    match url::Url::parse(url) {
        Ok(mut u) => {
            u.set_query(Some(query));
            Some(u.as_str().to_owned())
        },
        Err(_) => None,
    }
}

} // verus!
