//! Calls into outside crates.
//!
//! Each function here calls one outside crate, or the standard library, and converts what goes
//! in and what comes out. Its contract is believed, not proved: the doc comment names the
//! outside functions and says what is claimed of them.

use vstd::prelude::*;
use vstd::utf8::decode_utf8;
use vstd::utf8::encode_utf8;
use vstd::utf8::valid_utf8;

use serde_json::Value as OutsideJson;

use crate::json::is_shallow;
use crate::json::Json;
use crate::json::Value;
use crate::sandbox::helper::FilterAction;
use crate::text::byte_len;
use crate::text::pairs as text_pairs;
use crate::text::texts;

verus! {

/// Whether the character is a hexadecimal digit in lower case.
pub open spec fn is_hex(c: char) -> bool {
    ('0' <= c && c <= '9') || ('a' <= c && c <= 'f')
}

/// Whether the text is made of `n` hexadecimal digits in lower case.
pub open spec fn hex_text(s: Seq<char>, n: nat) -> bool {
    s.len() == n && forall|i: int| 0 <= i < s.len() ==> is_hex(#[trigger] s[i])
}

/// `uuid::Uuid::new_v4` and `Uuid::simple`: a random identifier as 32 hexadecimal digits in
/// lower case, of which the thirteenth is the version number 4.
#[verifier::external_body]
pub(crate) fn simple_uuid() -> (r: String)
    ensures
        hex_text(r@, 32),
        r@[12] == '4',
{
    uuid::Uuid::new_v4().simple().to_string()
}

/// `String::from_utf8`: the text that the bytes encode, where they are valid UTF-8, and
/// nothing else.
#[verifier::external_body]
pub(crate) fn utf8_text(bytes: Vec<u8>) -> (r: Option<String>)
    ensures
        match r {
            Some(s) => valid_utf8(bytes@) && s@ == decode_utf8(bytes@),
            None => !valid_utf8(bytes@),
        },
{
    String::from_utf8(bytes).ok()
}

/// The text that `String::from_utf8_lossy` makes of bytes.
pub uninterp spec fn lossy_text(bytes: Seq<u8>) -> Seq<char>;

/// `String::from_utf8_lossy`: the text that the bytes encode, with replacement characters
/// where they are not valid UTF-8. Valid bytes give the text that they encode.
#[verifier::external_body]
pub(crate) fn decode_lossy(bytes: &Vec<u8>) -> (r: String)
    ensures
        r@ == lossy_text(bytes@),
        valid_utf8(bytes@) ==> r@ == decode_utf8(bytes@),
{
    String::from_utf8_lossy(bytes).into_owned()
}

/// Whether the text is an identifier in the form with hyphens: hexadecimal digits in lower
/// case, in groups of 8, 4, 4, 4 and 12.
pub open spec fn hyphenated_text(s: Seq<char>) -> bool {
    &&& s.len() == 36
    &&& forall|i: int|
        0 <= i < s.len() ==> if i == 8 || i == 13 || i == 18 || i == 23 {
            #[trigger] s[i] == '-'
        } else {
            is_hex(s[i])
        }
}

/// `uuid::Uuid::new_v4`, written out by `Display`: a random identifier in the form with
/// hyphens, whose version digit is 4.
#[verifier::external_body]
pub(crate) fn hyphenated_uuid() -> (r: String)
    ensures
        hyphenated_text(r@),
        r@[14] == '4',
{
    uuid::Uuid::new_v4().to_string()
}

/// The text that `base64::engine::general_purpose::STANDARD` encodes bytes as.
pub uninterp spec fn base64_text(bytes: Seq<u8>) -> Seq<char>;

/// The bytes that `base64::engine::general_purpose::STANDARD` decodes a text to.
pub uninterp spec fn base64_bytes(text: Seq<char>) -> Option<Seq<u8>>;

/// `Engine::encode` of `base64::engine::general_purpose::STANDARD`. Decoding the result gives
/// back the bytes.
#[verifier::external_body]
pub(crate) fn base64_encode(bytes: &Vec<u8>) -> (r: String)
    ensures
        r@ == base64_text(bytes@),
        base64_bytes(r@) == Some(bytes@),
{
    base64::Engine::encode(&base64::engine::general_purpose::STANDARD, bytes)
}

/// `Engine::decode` of `base64::engine::general_purpose::STANDARD`, with the reason for a
/// failure dropped.
#[verifier::external_body]
pub(crate) fn base64_decode(text: &str) -> (r: Option<Vec<u8>>)
    ensures
        base64_bytes(text@) == (match r {
            Some(bytes) => Some(bytes@),
            None => None,
        }),
{
    base64::Engine::decode(&base64::engine::general_purpose::STANDARD, text).ok()
}

/// The image formats that can be shown.
#[derive(Debug, Clone, Copy, PartialEq, Eq, Structural)]
pub enum ImageKind {
    Png,
    Jpeg,
    WebP,
    Gif,
}

/// The width and height of the image that `image::load_from_memory_with_format` decodes the
/// bytes to, and whether it has transparency; or the message of its error.
pub uninterp spec fn image_form(bytes: Seq<u8>, kind: ImageKind) -> Result<
    (u32, u32, bool),
    Seq<char>,
>;

/// `image::load_from_memory_with_format`, and `width`, `height` and `ColorType::has_alpha` of
/// what it decodes.
#[verifier::external_body]
pub(crate) fn decode_image(bytes: &Vec<u8>, kind: ImageKind) -> (r: Result<
    (u32, u32, bool),
    String,
>)
    ensures
        image_form(bytes@, kind) == (match r {
            Ok(form) => Ok::<(u32, u32, bool), Seq<char>>(form),
            Err(e) => Err(e@),
        }),
{
    let format = match kind {
        ImageKind::Png => image::ImageFormat::Png,
        ImageKind::Jpeg => image::ImageFormat::Jpeg,
        ImageKind::WebP => image::ImageFormat::WebP,
        ImageKind::Gif => image::ImageFormat::Gif,
    };
    match image::load_from_memory_with_format(bytes, format) {
        Ok(image) => Ok((image.width(), image.height(), image.color().has_alpha())),
        Err(e) => Err(e.to_string()),
    }
}

/// Whether the bytes are an image of the given size.
pub open spec fn has_size(bytes: Seq<u8>, kind: ImageKind, size: (u32, u32)) -> bool {
    image_form(bytes, kind) matches Ok((w, h, _)) && (w, h) == size
}

/// Whether two numbers differ by no more than the given one.
pub open spec fn within(a: int, b: int, d: int) -> bool {
    a - b <= d && b - a <= d
}

/// Whether the shorter side of an image becomes as long as the given one when the longer side
/// becomes the edge: its length in proportion, rounded to the nearest number, or one where that
/// is nothing.
pub open spec fn in_proportion(long: u32, short: u32, edge: u32, side: u32) -> bool {
    ||| within(2 * (side * long), 2 * (edge * short), long as int)
    ||| side == 1 && 2 * (edge * short) <= long
}

/// Whether a size is that of a version of an image that fits the square with the given edge,
/// as large as possible and of the same shape: the longer side of the image becomes the edge,
/// and the other one keeps its proportion to it.
pub open spec fn scaled(original: (u32, u32), edge: u32, size: (u32, u32)) -> bool {
    if original.0 >= original.1 {
        size.0 == edge && in_proportion(original.0, original.1, edge, size.1)
    } else {
        size.1 == edge && in_proportion(original.1, original.0, edge, size.0)
    }
}

/// Whether a size is that of a version of an image that fits the square with the given edge.
/// Nothing is claimed of an image without pixels.
pub open spec fn fills(bytes: Seq<u8>, kind: ImageKind, edge: u32, size: (u32, u32)) -> bool {
    match image_form(bytes, kind) {
        Ok((w, h, _)) => w > 0 && h > 0 ==> scaled((w, h), edge, size),
        Err(_) => true,
    }
}

/// How the pixels of a smaller version are made.
#[derive(Debug, Clone, Copy, PartialEq, Eq, Structural)]
pub enum Resampling {
    /// By linear interpolation.
    Triangle,
}

/// The PNG file that `image` makes of an image file when it shrinks the image to fit a
/// square with the given edge: its bytes, width and height; or the message of its error.
pub uninterp spec fn shrunk_png(
    bytes: Seq<u8>,
    kind: ImageKind,
    edge: u32,
    filter: Resampling,
) -> Result<(Seq<u8>, u32, u32), Seq<char>>;

/// `image::load_from_memory_with_format`, `DynamicImage::resize` with the given filter, and
/// `DynamicImage::write_to` as PNG. The result fits the square, has at least one pixel each
/// way, is as large as possible and keeps its shape. The file that was written is read back as
/// an image of the size that is given. The edge is bounded so that rounding is exact and that
/// the decoder's limits do not matter.
#[verifier::external_body]
pub(crate) fn shrink_to_png(bytes: &Vec<u8>, kind: ImageKind, edge: u32, filter: Resampling) -> (r:
    Result<(Vec<u8>, u32, u32), String>)
    requires
        0 < edge <= 2048,
    ensures
        shrunk_png(bytes@, kind, edge, filter) == (match r {
            Ok((file, w, h)) => Ok::<(Seq<u8>, u32, u32), Seq<char>>((file@, w, h)),
            Err(e) => Err(e@),
        }),
        r matches Ok((_, w, h)) ==> 1 <= w <= edge && 1 <= h <= edge,
        r matches Ok((_, w, h)) ==> fills(bytes@, kind, edge, (w, h)),
        r matches Ok((file, w, h)) ==> has_size(file@, ImageKind::Png, (w, h)),
{
    let format = match kind {
        ImageKind::Png => image::ImageFormat::Png,
        ImageKind::Jpeg => image::ImageFormat::Jpeg,
        ImageKind::WebP => image::ImageFormat::WebP,
        ImageKind::Gif => image::ImageFormat::Gif,
    };
    let filter = match filter { Resampling::Triangle => image::imageops::FilterType::Triangle };
    let image = image::load_from_memory_with_format(bytes, format).map_err(|e| e.to_string())?;
    let small = image.resize(edge, edge, filter);
    let mut out = std::io::Cursor::new(Vec::new());
    small.write_to(&mut out, image::ImageFormat::Png).map_err(|e| e.to_string())?;
    Ok((out.into_inner(), small.width(), small.height()))
}

/// The JPEG file that `image` makes of an image file when it shrinks the image to fit a
/// square with the given edge: its bytes, width and height; or the message of its error.
pub uninterp spec fn shrunk_jpeg(
    bytes: Seq<u8>,
    kind: ImageKind,
    edge: u32,
    filter: Resampling,
    quality: u8,
) -> Result<(Seq<u8>, u32, u32), Seq<char>>;

/// `image::load_from_memory_with_format`, `DynamicImage::resize` with the given filter,
/// `DynamicImage::to_rgb8`, and `JpegEncoder::encode` with the given quality. The result fits
/// the square, has at least one pixel each way, is as large as possible and keeps its shape.
/// The file that was written is read back as an image of the size that is given. The edge is
/// bounded so that rounding is exact and that the decoder's limits do not matter.
#[verifier::external_body]
pub(crate) fn shrink_to_jpeg(
    bytes: &Vec<u8>,
    kind: ImageKind,
    edge: u32,
    filter: Resampling,
    quality: u8,
) -> (r: Result<(Vec<u8>, u32, u32), String>)
    requires
        0 < edge <= 2048,
    ensures
        shrunk_jpeg(bytes@, kind, edge, filter, quality) == (match r {
            Ok((file, w, h)) => Ok::<(Seq<u8>, u32, u32), Seq<char>>((file@, w, h)),
            Err(e) => Err(e@),
        }),
        r matches Ok((_, w, h)) ==> 1 <= w <= edge && 1 <= h <= edge,
        r matches Ok((_, w, h)) ==> fills(bytes@, kind, edge, (w, h)),
        r matches Ok((file, w, h)) ==> has_size(file@, ImageKind::Jpeg, (w, h)),
{
    let format = match kind {
        ImageKind::Png => image::ImageFormat::Png,
        ImageKind::Jpeg => image::ImageFormat::Jpeg,
        ImageKind::WebP => image::ImageFormat::WebP,
        ImageKind::Gif => image::ImageFormat::Gif,
    };
    let filter = match filter { Resampling::Triangle => image::imageops::FilterType::Triangle };
    let image = image::load_from_memory_with_format(bytes, format).map_err(|e| e.to_string())?;
    let small = image.resize(edge, edge, filter).to_rgb8();
    let (w, h) = small.dimensions();
    let mut out = Vec::new();
    image::codecs::jpeg::JpegEncoder::new_with_quality(&mut out, quality)
        .encode(small.as_raw(), w, h, image::ExtendedColorType::Rgb8).map_err(|e| e.to_string())?;
    Ok((out, w, h))
}

/// How `str`'s `Debug` writes a text: in quotes, with escapes.
pub uninterp spec fn debug_form(s: Seq<char>) -> Seq<char>;

/// `format!` with `{:?}` on a `str`.
#[verifier::external_body]
pub(crate) fn debug_text(s: &str) -> (r: String)
    ensures
        r@ == debug_form(s@),
{
    format!("{s:?}")
}

/// What is looked at in a URL.
#[derive(Debug)]
pub struct UrlParts {
    pub scheme: String,
    pub username: String,
    pub has_password: bool,
    pub host: Option<String>,
    pub has_query: bool,
    pub has_fragment: bool,
    /// How many bytes the URL takes as it is written.
    pub length: u64,
}

/// What is looked at in a URL, as a mathematical value.
pub struct Address {
    pub scheme: Seq<char>,
    pub username: Seq<char>,
    pub has_password: bool,
    pub host: Option<Seq<char>>,
    pub has_query: bool,
    pub has_fragment: bool,
    /// How many bytes the URL takes as it is written.
    pub length: u64,
}

impl View for UrlParts {
    type V = Address;

    open spec fn view(&self) -> Address {
        Address {
            scheme: self.scheme@,
            username: self.username@,
            has_password: self.has_password,
            host: self.host.deep_view(),
            has_query: self.has_query,
            has_fragment: self.has_fragment,
            length: self.length,
        }
    }
}

/// The parts of the URL that `url::Url::parse` reads, or the message of its error.
pub uninterp spec fn parsed_url(raw: Seq<char>) -> Result<Address, Seq<char>>;

/// `url::Url::parse`, and `scheme`, `username`, `password`, `host_str`, `query`, `fragment` and
/// the length of `as_str` of what it reads.
#[verifier::external_body]
pub(crate) fn parse_url(raw: &str) -> (r: Result<UrlParts, String>)
    ensures
        parsed_url(raw@) == (match r {
            Ok(parts) => Ok::<Address, Seq<char>>(parts@),
            Err(e) => Err(e@),
        }),
{
    let url = url::Url::parse(raw).map_err(|e| e.to_string())?;
    Ok(UrlParts {
        scheme: url.scheme().to_owned(),
        username: url.username().to_owned(),
        has_password: url.password().is_some(),
        host: url.host_str().map(str::to_owned),
        has_query: url.query().is_some(),
        has_fragment: url.fragment().is_some(),
        length: url.as_str().len() as u64,
    })
}

/// The URL that `url::Url::query_pairs_mut` makes of a URL and pairs of names and values.
pub uninterp spec fn url_with_pairs(
    raw: Seq<char>,
    pairs: Seq<(Seq<char>, Seq<char>)>,
) -> Option<Seq<char>>;

/// The most bytes that pairs take in a query: three for each of their own, and two between
/// them.
pub open spec fn pairs_room(pairs: Seq<(Seq<char>, Seq<char>)>) -> nat
    decreases pairs.len(),
{
    if pairs.len() == 0 {
        0
    } else {
        pairs_room(pairs.drop_last()) + 3 * (byte_len(pairs.last().0) + byte_len(pairs.last().1))
            + 2
    }
}

/// Whether a URL stays short enough for `url` when a query of the given length is appended to
/// it, with the question mark before it: positions in it are kept as `u32`. Nothing is asked of
/// a text that is no URL.
pub open spec fn has_room(parsed: Result<Address, Seq<char>>, room: nat) -> bool {
    parsed matches Ok(a) ==> a.length + 1 + room <= u32::MAX
}

/// `url::Url::parse`, and `query_pairs_mut` with `extend_pairs` on what it reads: the URL with
/// the pairs appended to its query. It fails only where the URL cannot be read.
#[verifier::external_body]
pub(crate) fn append_pairs(raw: &str, pairs: &Vec<(String, String)>) -> (r: Option<String>)
    requires
        has_room(parsed_url(raw@), pairs_room(text_pairs(pairs@))),
    ensures
        r.deep_view() == url_with_pairs(raw@, text_pairs(pairs@)),
        r is Some <==> parsed_url(raw@) is Ok,
{
    let mut url = url::Url::parse(raw).ok()?;
    url.query_pairs_mut().extend_pairs(pairs);
    Some(url.to_string())
}

/// The host in the text that `http::uri::Authority` reads.
pub uninterp spec fn authority_host(raw: Seq<char>) -> Option<Seq<char>>;

/// `http::uri::Authority`'s `FromStr`, and `host` of what it reads.
#[verifier::external_body]
pub(crate) fn parse_authority(raw: &str) -> (r: Option<String>)
    ensures
        r.deep_view() == authority_host(raw@),
{
    raw.parse::<axum::http::uri::Authority>().ok().map(|a| a.host().to_owned())
}

/// The SHA-256 digest of bytes.
pub uninterp spec fn sha256_of(bytes: Seq<u8>) -> Seq<u8>;

/// `sha2::Sha256::digest` of the UTF-8 encoding of a text: 32 bytes.
#[verifier::external_body]
pub(crate) fn sha256(text: &str) -> (r: Vec<u8>)
    ensures
        r@ == sha256_of(encode_utf8(text@)),
        r@.len() == 32,
{
    <sha2::Sha256 as sha2::Digest>::digest(text.as_bytes()).to_vec()
}

/// The text that `base64::engine::general_purpose::URL_SAFE_NO_PAD` encodes bytes as.
pub uninterp spec fn base64_url_text(bytes: Seq<u8>) -> Seq<char>;

/// `Engine::encode` of `base64::engine::general_purpose::URL_SAFE_NO_PAD`.
#[verifier::external_body]
pub(crate) fn base64_url_encode(bytes: &Vec<u8>) -> (r: String)
    ensures
        r@ == base64_url_text(bytes@),
{
    base64::Engine::encode(&base64::engine::general_purpose::URL_SAFE_NO_PAD, bytes)
}

/// The point in time that `chrono::DateTime::parse_from_rfc3339` reads: seconds since the Unix
/// epoch and nanoseconds.
pub uninterp spec fn rfc3339_time(raw: Seq<char>) -> Option<(i64, u32)>;

/// `chrono::DateTime::parse_from_rfc3339`, and `timestamp` and `timestamp_subsec_nanos` of what
/// it reads.
#[verifier::external_body]
pub(crate) fn parse_rfc3339(raw: &str) -> (r: Option<(i64, u32)>)
    ensures
        r == rfc3339_time(raw@),
{
    let t = chrono::DateTime::parse_from_rfc3339(raw).ok()?;
    Some((t.timestamp(), t.timestamp_subsec_nanos()))
}

/// Whether the point in time lies between the Unix epoch and the end of the year 9999.
pub open spec fn is_common_time(secs: i64, nanos: u32) -> bool {
    0 <= secs && secs <= 253_402_300_799 && nanos <= 999_999_999
}

/// Whether `chrono` knows the point in time: one in its range of about 262,000 years around
/// the year 0, with nanoseconds within a second, or within two where it is the last second of a
/// minute, which stands for a leap second.
pub open spec fn is_known_time(secs: i64, nanos: u32) -> bool {
    &&& -8_334_601_228_800 <= secs <= 8_210_266_876_799
    &&& nanos < 1_000_000_000 || (nanos < 2_000_000_000 && secs % 60 == 59)
}

/// What `chrono::DateTime::to_rfc3339` writes for a point in time.
pub uninterp spec fn rfc3339_text(secs: i64, nanos: u32) -> Option<Seq<char>>;

/// `chrono::DateTime::from_timestamp` and `to_rfc3339`: the point in time in UTC, where chrono
/// knows it, and nothing else. Where its year has four digits, `parse_from_rfc3339` reads back
/// what was written.
#[verifier::external_body]
pub(crate) fn write_rfc3339(secs: i64, nanos: u32) -> (r: Option<String>)
    ensures
        r.deep_view() == rfc3339_text(secs, nanos),
        r is Some <==> is_known_time(secs, nanos),
        is_common_time(secs, nanos) ==> r is Some && rfc3339_time(r->0@) == Some((secs, nanos)),
{
    Some(chrono::DateTime::from_timestamp(secs, nanos)?.to_rfc3339())
}

/// The JSON array that `serde_json::to_string` writes for a list of texts.
pub uninterp spec fn json_list_text(list: Seq<Seq<char>>) -> Seq<char>;

/// The list of texts that `serde_json::from_str` reads, or the message of its error.
pub uninterp spec fn json_list(raw: Seq<char>) -> Result<Seq<Seq<char>>, Seq<char>>;

/// The texts of a list, or the message of an error.
pub open spec fn list_result(r: Result<Vec<String>, String>) -> Result<Seq<Seq<char>>, Seq<char>> {
    match r {
        Ok(list) => Ok(texts(list@)),
        Err(e) => Err(e@),
    }
}

/// Whether the text is read as the given list.
pub open spec fn reads_as(raw: Seq<char>, list: Seq<Seq<char>>) -> bool {
    json_list(raw) is Ok && json_list(raw)->Ok_0 == list
}

/// `serde_json::to_string` of a list of texts. It succeeds: only a type that refuses to be
/// written, or a map whose keys are no texts, fails. `serde_json::from_str` reads back what was
/// written.
#[verifier::external_body]
pub(crate) fn write_json_list(list: &Vec<String>) -> (r: Option<String>)
    ensures
        r.deep_view() == Some(json_list_text(texts(list@))),
        reads_as(r->0@, texts(list@)),
{
    serde_json::to_string(list).ok()
}

/// `serde_json::from_str` to a list of texts.
#[verifier::external_body]
pub(crate) fn parse_json_list(raw: &str) -> (r: Result<Vec<String>, String>)
    ensures
        list_result(r) == json_list(raw@),
{
    serde_json::from_str(raw).map_err(|e| e.to_string())
}

/// A JSON value of `serde_json`.
#[verifier::external_type_specification]
#[verifier::external_body]
pub struct ExJsonValue(OutsideJson);

/// A value of `serde_json` as one of the library. A number is given as `Number`'s `Display`
/// writes it. Nothing is claimed of it here: what is read is named as a whole.
#[verifier::external_body]
fn from_value(value: OutsideJson) -> (r: Json) {
    match value {
        OutsideJson::Null => Json::Null,
        OutsideJson::Bool(b) => Json::Bool(b),
        OutsideJson::Number(n) if n.is_f64() => Json::Float(n.to_string()),
        OutsideJson::Number(n) => Json::Number(n.to_string()),
        OutsideJson::String(s) => Json::Str(s),
        OutsideJson::Array(a) => Json::Array(a.into_iter().map(from_value).collect()),
        OutsideJson::Object(o) => {
            Json::Object(o.into_iter().map(|(k, v)| (k, from_value(v))).collect())
        }
    }
}

/// A value of the library as one of `serde_json`, where its numbers are numbers: an integer is
/// read by `Number`'s `FromStr`, and one with a fraction or an exponent by the standard library,
/// which finds the number again that `Display` wrote. Nothing is claimed of it here: what is
/// written is named as a whole.
#[verifier::external_body]
fn to_value(json: Json) -> (r: Option<OutsideJson>) {
    Some(match json {
        Json::Null => OutsideJson::Null,
        Json::Bool(b) => OutsideJson::Bool(b),
        Json::Number(n) => OutsideJson::Number(n.parse().ok()?),
        Json::Float(x) => serde_json::Number::from_f64(x.parse().ok()?)?.into(),
        Json::Str(s) => OutsideJson::String(s),
        Json::Array(a) => a.into_iter().map(to_value).collect::<Option<Vec<_>>>()?.into(),
        Json::Object(o) => {
            let members = o.into_iter().map(|(k, v)| Some((k, to_value(v)?)));
            OutsideJson::Object(members.collect::<Option<_>>()?)
        }
    })
}

/// The JSON value that `serde_json::from_slice` reads.
pub uninterp spec fn json_body(bytes: Seq<u8>) -> Option<Value>;

/// `serde_json::from_slice` to a `serde_json::Value`. It reads no value in which arrays and
/// objects stand in one another deeper than its limit.
#[verifier::external_body]
pub(crate) fn parse_json(bytes: &Vec<u8>) -> (r: Option<Json>)
    ensures
        match r {
            Some(json) => json_body(bytes@) == Some(json@),
            None => json_body(bytes@) is None,
        },
        r matches Some(json) ==> is_shallow(json@, 128),
{
    serde_json::from_slice(bytes).ok().map(from_value)
}

/// The bytes that `serde_json::to_vec` writes for a JSON value, where its numbers are numbers.
pub uninterp spec fn json_bytes(value: Value) -> Option<Seq<u8>>;

/// `serde_json::to_vec` of a `serde_json::Value`. A value that is too deep for the stack is left
/// out.
#[verifier::external_body]
pub(crate) fn write_json(value: Json) -> (r: Option<Vec<u8>>)
    requires
        is_shallow(value@, 128),
    ensures
        match r {
            Some(bytes) => json_bytes(value@) == Some(bytes@),
            None => json_bytes(value@) is None,
        },
{
    serde_json::to_vec(&to_value(value)?).ok()
}

/// The filter program that `seccompiler` compiles, given the action for the system calls with
/// the given numbers and the one for all others: the fields of its instructions, or why it
/// cannot. There is none for a machine that it does not know.
pub uninterp spec fn filter_program(
    calls: Seq<u32>,
    matched: FilterAction,
    otherwise: FilterAction,
    arch: Seq<char>,
) -> Option<Result<Seq<(u16, u8, u8, u32)>, Seq<char>>>;

/// A compiled filter as a mathematical value.
pub open spec fn program_result(r: Option<Result<Vec<(u16, u8, u8, u32)>, String>>) -> Option<
    Result<Seq<(u16, u8, u8, u32)>, Seq<char>>,
> {
    match r {
        Some(Ok(p)) => Some(Ok(p@)),
        Some(Err(e)) => Some(Err(e@)),
        None => None,
    }
}

/// `seccompiler::TargetArch::try_from`, `seccompiler::SeccompFilter::new` and
/// `seccompiler::BpfProgram::try_from`: the program of the filter that does the one thing with
/// the given system calls, without a condition on their arguments, and the other thing with all
/// others, for the machine of the given name. Nothing where the machine is not known.
#[verifier::external_body]
pub(crate) fn compile_filter(
    calls: &Vec<u32>,
    matched: FilterAction,
    otherwise: FilterAction,
    arch: &str,
) -> (r: Option<Result<Vec<(u16, u8, u8, u32)>, String>>)
    ensures
        program_result(r) == filter_program(calls@, matched, otherwise, arch@),
{
    let action = |a: FilterAction| match a {
        FilterAction::Allow => seccompiler::SeccompAction::Allow,
        FilterAction::Fail(errno) => seccompiler::SeccompAction::Errno(errno),
    };
    let arch = seccompiler::TargetArch::try_from(arch).ok()?;
    let rules: std::collections::BTreeMap<i64, Vec<seccompiler::SeccompRule>> =
        calls.iter().map(|call| (i64::from(*call), Vec::new())).collect();
    match seccompiler::SeccompFilter::new(rules, action(otherwise), action(matched), arch)
        .and_then(seccompiler::BpfProgram::try_from) {
        Ok(p) => Some(Ok(p.into_iter().map(|i| (i.code, i.jt, i.jf, i.k)).collect())),
        Err(e) => Some(Err(e.to_string())),
    }
}

} // verus!
