//! Calls into `std` functions that vstd leaves unspecified and into the outside crates
//! (`sha2`, `base64`, `regex`). Each item states what the called function's
//! documentation says of it; results that take more than a few lines to state are named.
use vstd::prelude::*;
use vstd::utf8::valid_utf8;
use vstd::utf8::decode_utf8;
use sha2::Digest;
use base64::Engine;

verus! {

/// Appends one character through `String::push`, which adds it at the end.
#[verifier::external_body]
pub(crate) fn string_push(s: &mut String, c: char)
    ensures
        final(s)@ == old(s)@.push(c),
{
    s.push(c)
}

/// The SHA-256 digest of `data`.
pub uninterp spec fn sha256_of(data: Seq<u8>) -> Seq<u8>;

/// `sha2::Sha256::digest`: the 32-byte SHA-256 digest of `data`.
#[verifier::external_body]
pub(crate) fn sha256(data: &[u8]) -> (r: Vec<u8>)
    ensures
        r@ == sha256_of(data@),
        r@.len() == 32,
{
    sha2::Sha256::digest(data).to_vec()
}

/// What the standard base64 engine decodes from the UTF-8 bytes of `input`, or `None`
/// where it reports an error.
pub uninterp spec fn base64_standard_decode(input: Seq<char>) -> Option<Seq<u8>>;

/// `base64::engine::general_purpose::STANDARD.decode`, with its error dropped.
#[verifier::external_body]
pub(crate) fn base64_decode(input: &str) -> (r: Option<Vec<u8>>)
    ensures
        r matches Some(v) ==> base64_standard_decode(input@) == Some(v@),
        r is None ==> base64_standard_decode(input@) is None,
{
    base64::engine::general_purpose::STANDARD.decode(input).ok()
}

/// The text of capture group `group` of the leftmost match of `pattern` in `haystack`, or
/// `None` where the pattern does not compile, does not match, or the group took no part.
pub uninterp spec fn regex_group(pattern: Seq<char>, haystack: Seq<char>, group: nat) -> Option<
    Seq<char>,
>;

/// `regex::Regex::captures` followed by `Captures::get`: a captured text occurs in the
/// haystack.
#[verifier::external_body]
pub(crate) fn regex_capture(pattern: &str, haystack: &str, group: usize) -> (r: Option<String>)
    ensures
        r matches Some(m) ==> regex_group(pattern@, haystack@, group as nat) == Some(m@),
        r matches Some(m) ==> crate::text::contains_seq(haystack@, m@),
        r is None ==> regex_group(pattern@, haystack@, group as nat) is None,
{
    let re = regex::Regex::new(pattern).ok()?;
    re.captures(haystack)?.get(group).map(|m| m.as_str().to_string())
}

/// The text of the leftmost match of `pattern` in `haystack`, or `None` where the pattern
/// does not compile or does not match.
pub uninterp spec fn regex_match(pattern: Seq<char>, haystack: Seq<char>) -> Option<Seq<char>>;

/// `regex::Regex::find`: a matched text occurs in the haystack.
#[verifier::external_body]
pub(crate) fn regex_find(pattern: &str, haystack: &str) -> (r: Option<String>)
    ensures
        r matches Some(m) ==> regex_match(pattern@, haystack@) == Some(m@),
        r matches Some(m) ==> crate::text::contains_seq(haystack@, m@),
        r is None ==> regex_match(pattern@, haystack@) is None,
{
    let re = regex::Regex::new(pattern).ok()?;
    re.find(haystack).map(|m| m.as_str().to_string())
}

/// What `String::from_utf8_lossy` makes of `bytes`.
pub uninterp spec fn utf8_lossy(bytes: Seq<u8>) -> Seq<char>;

/// `String::from_utf8_lossy`: valid UTF-8 decodes as it stands; each invalid sequence
/// becomes U+FFFD.
#[verifier::external_body]
pub(crate) fn from_utf8_lossy(bytes: &[u8]) -> (r: String)
    ensures
        r@ == utf8_lossy(bytes@),
        valid_utf8(bytes@) ==> r@ == decode_utf8(bytes@),
{
    String::from_utf8_lossy(bytes).into_owned()
}

/// `c` with ASCII `A`..`Z` mapped to `a`..`z`.
pub open spec fn ascii_lower(c: char) -> char {
    if 'A' <= c && c <= 'Z' {
        ((c as u32) + 32) as char
    } else {
        c
    }
}

/// What `str::to_lowercase` returns for `s`.
pub uninterp spec fn lowercase(s: Seq<char>) -> Seq<char>;

/// `str::to_lowercase`: on ASCII text it maps each upper-case letter to its lower-case form
/// and keeps every other character.
#[verifier::external_body]
pub(crate) fn to_lowercase(s: &str) -> (r: String)
    ensures
        r@ == lowercase(s@),
        (forall|i: int| 0 <= i < s@.len() ==> (s@[i] as u32) < 0x80) ==> r@ == s@.map_values(
            |c: char| ascii_lower(c),
        ),
{
    s.to_lowercase()
}

/// `std::time::SystemTime`, carried from the clock to the conversion below.
#[verifier::external_type_specification]
#[verifier::external_body]
pub struct ExSystemTime(std::time::SystemTime);

/// `SystemTime::now`: the clock's current reading. Nothing is stated of it.
#[verifier::external_body]
pub(crate) fn system_now() -> (r: std::time::SystemTime) {
    std::time::SystemTime::now()
}

/// `SystemTime::duration_since(UNIX_EPOCH)`, in whole seconds; `None` for a time before the
/// epoch. Nothing is stated of the value, which depends on the time read.
#[verifier::external_body]
pub(crate) fn unix_seconds(t: &std::time::SystemTime) -> (r: Option<u64>) {
    t.duration_since(std::time::UNIX_EPOCH).ok().map(|d| d.as_secs())
}

/// Whether path `base` is a leading run of the components of path `path`.
pub uninterp spec fn path_has_prefix(path: Seq<char>, base: Seq<char>) -> bool;

/// `Path::starts_with`, which compares whole components.
#[verifier::external_body]
pub(crate) fn path_starts_with(path: &str, base: &str) -> (r: bool)
    ensures
        r == path_has_prefix(path@, base@),
{
    std::path::Path::new(path).starts_with(base)
}

} // verus!
