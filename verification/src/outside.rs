//! Calls into other crates, each with what the library relies on.
use vstd::prelude::*;

verus! {

/// The lower-case hexadecimal digit of a number below sixteen.
pub open spec fn hex_digit(n: int) -> char {
    if n < 10 {
        ('0' as int + n) as char
    } else {
        ('a' as int + n - 10) as char
    }
}

/// Each byte as two lower-case hexadecimal digits, the high one first.
pub open spec fn hex_text(bytes: Seq<u8>) -> Seq<char> {
    Seq::new(
        2 * bytes.len(),
        |i: int|
            hex_digit(
                if i % 2 == 0 {
                    bytes[i / 2] as int / 16
                } else {
                    bytes[i / 2] as int % 16
                },
            ),
    )
}

/// `hex::encode`: two lower-case hexadecimal digits for each byte, in order.
#[verifier::external_body]
pub(crate) fn hex_encode(bytes: &[u8]) -> (r: String)
    requires
        bytes@.len() <= usize::MAX / 2,
    ensures
        r@ == hex_text(bytes@),
{
    hex::encode(bytes)
}

/// The SHA-1 digest of a sequence of bytes.
pub uninterp spec fn sha1_of(bytes: Seq<u8>) -> Seq<u8>;

/// `sha1::Sha1::digest`: the digest of the bytes, which has twenty bytes.
#[verifier::external_body]
pub(crate) fn sha1_digest(bytes: &[u8]) -> (r: Vec<u8>)
    ensures
        r@ == sha1_of(bytes@),
        r@.len() == 20,
{
    <sha1::Sha1 as sha1::Digest>::digest(bytes).to_vec()
}

/// `rand::random::<u64>`: any number.
#[verifier::external_body]
pub(crate) fn random_u64() -> (r: u64) {
    rand::random::<u64>()
}

/// Whether `c` is a lower-case hexadecimal digit.
pub open spec fn is_lower_hex(c: char) -> bool {
    '0' <= c <= '9' || 'a' <= c <= 'f'
}

/// `uuid::Uuid::new_v4`, as text: thirty-six characters, each a lower-case
/// hexadecimal digit or a hyphen. Which ones is left to chance.
#[verifier::external_body]
pub(crate) fn random_uuid() -> (r: String)
    ensures
        r@.len() == 36,
        forall|i: int| 0 <= i < r@.len() ==> is_lower_hex(#[trigger] r@[i]) || r@[i] == '-',
{
    uuid::Uuid::new_v4().to_string()
}

/// `n` random bytes.
pub fn random_bytes(n: usize) -> (r: Vec<u8>)
    ensures
        r@.len() == n,
{
    let mut out: Vec<u8> = Vec::new();
    let mut i: usize = 0;
    while i < n
        invariant
            i <= n,
            out@.len() == i,
        decreases n - i,
    {
        out.push((random_u64() % 256) as u8);
        i = i + 1;
    }
    out
}

/// Whether a byte may stand in a metadata value: a tab, or any that is not a
/// control character.
pub open spec fn is_metadata_byte(b: u8) -> bool {
    b == 9 || (b >= 32 && b != 127)
}

/// `tonic::metadata::MetadataValue::try_from`, for text: accepts a text whose
/// bytes may all stand in a metadata value.
#[verifier::external_body]
pub(crate) fn metadata_accepts(text: &str) -> (r: bool)
    ensures
        r == forall|i: int|
            0 <= i < vstd::utf8::encode_utf8(text@).len() ==> is_metadata_byte(
                #[trigger] vstd::utf8::encode_utf8(text@)[i],
            ),
{
    tonic::metadata::MetadataValue::<tonic::metadata::Ascii>::try_from(text).is_ok()
}

/// The text with which a message shows an optional text.
pub uninterp spec fn shown(text: Option<Seq<char>>) -> Seq<char>;

/// `core::fmt::Debug` of `Option<String>`: the text with which it is shown.
#[verifier::external_body]
pub(crate) fn show_text(text: &Option<String>) -> (r: String)
    ensures
        r@ == shown(crate::text::opt_text(*text)),
{
    format!("{text:?}")
}

/// What is read of an address: `port` is the one that it states, `known_port` that
/// or its scheme's; `takes_path` tells whether segments can be added to its path.
pub struct UrlParts {
    pub scheme: String,
    pub host: Option<String>,
    pub port: Option<u16>,
    pub known_port: Option<u16>,
    pub takes_path: bool,
}

pub ghost struct UrlView {
    pub scheme: Seq<char>,
    pub host: Option<Seq<char>>,
    pub port: Option<u16>,
    pub known_port: Option<u16>,
    pub takes_path: bool,
}

impl View for UrlParts {
    type V = UrlView;

    open spec fn view(&self) -> UrlView {
        UrlView {
            scheme: self.scheme@,
            host: crate::text::opt_text(self.host),
            port: self.port,
            known_port: self.known_port,
            takes_path: self.takes_path,
        }
    }
}

/// What a text holds that is an address.
pub uninterp spec fn url_of(text: Seq<char>) -> Option<UrlView>;

/// `reqwest::Url::parse`, and what is read of the address.
#[verifier::external_body]
pub(crate) fn parse_url(text: &str) -> (r: Option<UrlParts>)
    ensures
        match r {
            Some(parts) => url_of(text@) == Some(parts@),
            None => url_of(text@) is None,
        },
{
    let url = reqwest::Url::parse(text).ok()?;
    Some(UrlParts {
        scheme: url.scheme().to_owned(),
        host: url.host_str().map(str::to_owned),
        port: url.port(),
        known_port: url.port_or_known_default(),
        takes_path: !url.cannot_be_a_base(),
    })
}

/// The text of an address with segments added to its path and a pair to its query.
pub uninterp spec fn extended_url(
    base: Seq<char>,
    segments: Seq<Seq<char>>,
    name: Seq<char>,
    value: Seq<char>,
) -> Option<Seq<char>>;

/// The characters of the texts in a list, with one more for each text.
pub open spec fn chars_in(list: Seq<Seq<char>>) -> nat
    decreases list.len(),
{
    if list.len() == 0 {
        0
    } else {
        chars_in(list.drop_last()) + list.last().len() + 1
    }
}

/// `url::PathSegmentsMut::extend` on a parsed address, and
/// `form_urlencoded::Serializer::append_pair` on its query: the address's text,
/// where there is an address to whose path segments can be added.
///
/// An address holds less than four gigabytes, and the calls panic where what comes
/// before its query or its fragment does not fit. A character takes up to twelve
/// bytes there (four bytes, each written with three characters), and the name of a
/// host is rewritten; the lengths leave sixteen bytes for each character.
#[verifier::external_body]
pub(crate) fn extend_url(base: &str, segments: &Vec<String>, name: &str, value: &str) -> (r: Option<String>)
    requires
        base@.len() + chars_in(crate::text::texts(segments@)) + name@.len() + value@.len() <= 0xfff_f000,
    ensures
        crate::text::opt_text(r) == extended_url(base@, crate::text::texts(segments@), name@, value@),
        r is Some <==> (url_of(base@) matches Some(u) && u.takes_path),
{
    let mut url = reqwest::Url::parse(base).ok()?;
    url.path_segments_mut().ok()?.extend(segments);
    url.query_pairs_mut().append_pair(name, value);
    Some(url.to_string())
}

} // verus!
