//! Reading an image file: an embedded preview and what is known of the original.

use vstd::prelude::*;

use crate::outside::base64_bytes;
use crate::outside::base64_encode;
use crate::outside::base64_text;
use crate::outside::decode_image;
use crate::outside::has_size;
use crate::outside::hyphenated_text;
use crate::outside::hyphenated_uuid;
use crate::outside::image_form;
use crate::outside::scaled;
use crate::outside::shrink_to_jpeg;
use crate::outside::shrink_to_png;
use crate::outside::shrunk_jpeg;
use crate::outside::shrunk_png;
use crate::outside::ImageKind;
use crate::outside::Resampling;
use crate::text::concat;
use crate::text::concat3;
use crate::text::same_text;

verus! {

/// The largest image file that is read.
pub const MAX_IMAGE_BYTES: usize = 26_214_400;

/// The longest edge of a preview, in pixels.
pub const MAX_IMAGE_PREVIEW_EDGE: u32 = 2048;

/// The quality of JPEG previews.
pub const IMAGE_PREVIEW_JPEG_QUALITY: u8 = 85;

pub const MIME_PNG: &'static str = "image/png";

pub const MIME_JPEG: &'static str = "image/jpeg";

pub const MIME_WEBP: &'static str = "image/webp";

pub const MIME_GIF: &'static str = "image/gif";

/// A preview of an image.
#[derive(Debug)]
pub struct ImagePreview {
    pub bytes: Vec<u8>,
    pub mime_type: String,
    pub original_width: u32,
    pub original_height: u32,
    pub width: u32,
    pub height: u32,
    pub resized: bool,
}

/// What is reported of an image and its preview.
#[derive(Debug)]
pub struct ImageReadMetadata {
    pub path: String,
    pub original_mime_type: String,
    pub original_bytes: usize,
    pub original_width: u32,
    pub original_height: u32,
    pub preview_mime_type: String,
    pub preview_bytes: usize,
    pub preview_width: u32,
    pub preview_height: u32,
    pub resized: bool,
}

/// The resource that a preview is embedded as.
#[derive(Debug)]
pub struct ImageResource {
    pub blob: String,
    pub uri: String,
    pub mime_type: String,
}

/// A preview as a mathematical value.
pub struct Preview {
    pub bytes: Seq<u8>,
    pub mime_type: Seq<char>,
    pub original: (u32, u32),
    pub size: (u32, u32),
    pub resized: bool,
}

impl View for ImagePreview {
    type V = Preview;

    open spec fn view(&self) -> Preview {
        Preview {
            bytes: self.bytes@,
            mime_type: self.mime_type@,
            original: (self.original_width, self.original_height),
            size: (self.width, self.height),
            resized: self.resized,
        }
    }
}

// ---------------------------------------------------------------------------------------
// Telling images apart

/// Whether the bytes start with the given ones.
pub open spec fn starts_with_bytes(bytes: Seq<u8>, head: Seq<u8>) -> bool {
    head.len() <= bytes.len() && bytes.take(head.len() as int) == head
}

/// The signature at the start of a PNG file.
pub open spec fn png_head() -> Seq<u8> {
    seq![0x89u8, 0x50, 0x4e, 0x47, 0x0d, 0x0a, 0x1a, 0x0a]
}

/// The signature at the start of a JPEG file.
pub open spec fn jpeg_head() -> Seq<u8> {
    seq![0xffu8, 0xd8, 0xff]
}

/// `RIFF`, at the start of a WebP file.
pub open spec fn riff_head() -> Seq<u8> {
    seq![0x52u8, 0x49, 0x46, 0x46]
}

/// `WEBP`, behind the length in a WebP file.
pub open spec fn webp_mark() -> Seq<u8> {
    seq![0x57u8, 0x45, 0x42, 0x50]
}

/// `GIF87a`, at the start of an old GIF file.
pub open spec fn gif87_head() -> Seq<u8> {
    seq![0x47u8, 0x49, 0x46, 0x38, 0x37, 0x61]
}

/// `GIF89a`, at the start of a GIF file.
pub open spec fn gif89_head() -> Seq<u8> {
    seq![0x47u8, 0x49, 0x46, 0x38, 0x39, 0x61]
}

/// The format of an image file, by its content.
pub open spec fn kind_of_bytes(bytes: Seq<u8>) -> Option<ImageKind> {
    if starts_with_bytes(bytes, png_head()) {
        Some(ImageKind::Png)
    } else if starts_with_bytes(bytes, jpeg_head()) {
        Some(ImageKind::Jpeg)
    } else if bytes.len() >= 12 && starts_with_bytes(bytes, riff_head()) && bytes.subrange(8, 12)
        == webp_mark() {
        Some(ImageKind::WebP)
    } else if starts_with_bytes(bytes, gif87_head()) || starts_with_bytes(bytes, gif89_head()) {
        Some(ImageKind::Gif)
    } else {
        None
    }
}

/// The MIME type of a format.
pub open spec fn mime_of(kind: ImageKind) -> Seq<char> {
    match kind {
        ImageKind::Png => MIME_PNG@,
        ImageKind::Jpeg => MIME_JPEG@,
        ImageKind::WebP => MIME_WEBP@,
        ImageKind::Gif => MIME_GIF@,
    }
}

/// Whether the bytes of `head` stand at position `at`.
fn bytes_at(bytes: &[u8], head: &Vec<u8>, at: usize) -> (r: bool)
    requires
        at + head@.len() <= usize::MAX,
    ensures
        r == (at + head@.len() <= bytes@.len() && bytes@.subrange(at as int, at + head@.len())
            == head@),
{
    if bytes.len() < at + head.len() {
        return false;
    }
    let mut i: usize = 0;
    while i < head.len()
        invariant
            at + head@.len() <= bytes@.len(),
            at + head@.len() <= usize::MAX,
            i <= head@.len(),
            forall|j: int| 0 <= j < i ==> bytes@[at + j] == head@[j],
        decreases head@.len() - i,
    {
        if bytes[at + i] != head[i] {
            assert(bytes@.subrange(at as int, at + head@.len())[i as int] != head@[i as int]);
            return false;
        }
        i += 1;
    }
    assert(bytes@.subrange(at as int, at + head@.len()) =~= head@);
    true
}

/// Whether the bytes start with those of `head`.
fn has_head(bytes: &[u8], head: Vec<u8>) -> (r: bool)
    ensures
        r == starts_with_bytes(bytes@, head@),
{
    assert(head@.len() <= bytes@.len() ==> bytes@.subrange(0, head@.len() as int) =~= bytes@.take(
        head@.len() as int,
    ));
    let total: usize = head.len();
    assert(head@.len() == total);
    bytes_at(bytes, &head, 0)
}

/// The format of an image file, by its content.
fn image_kind(bytes: &[u8]) -> (r: Option<ImageKind>)
    ensures
        r == kind_of_bytes(bytes@),
{
    if has_head(bytes, vec![0x89, 0x50, 0x4e, 0x47, 0x0d, 0x0a, 0x1a, 0x0a]) {
        return Some(ImageKind::Png);
    }
    if has_head(bytes, vec![0xff, 0xd8, 0xff]) {
        return Some(ImageKind::Jpeg);
    }
    let mark: Vec<u8> = vec![0x57, 0x45, 0x42, 0x50];
    assert(mark@ =~= webp_mark());
    if bytes.len() >= 12 && has_head(bytes, vec![0x52, 0x49, 0x46, 0x46]) && bytes_at(
        bytes,
        &mark,
        8,
    ) {
        return Some(ImageKind::WebP);
    }
    if has_head(bytes, vec![0x47, 0x49, 0x46, 0x38, 0x37, 0x61]) || has_head(
        bytes,
        vec![0x47, 0x49, 0x46, 0x38, 0x39, 0x61],
    ) {
        return Some(ImageKind::Gif);
    }
    None
}

/// The MIME type of a format.
fn mime_type(kind: ImageKind) -> (r: &'static str)
    ensures
        r@ == mime_of(kind),
{
    match kind {
        ImageKind::Png => MIME_PNG,
        ImageKind::Jpeg => MIME_JPEG,
        ImageKind::WebP => MIME_WEBP,
        ImageKind::Gif => MIME_GIF,
    }
}

/// The MIME type of an image file, by its content.
pub fn image_mime_type(bytes: &[u8]) -> (r: Option<&'static str>)
    ensures
        match kind_of_bytes(bytes@) {
            Some(kind) => r matches Some(m) && m@ == mime_of(kind),
            None => r is None,
        },
{
    match image_kind(bytes) {
        Some(kind) => Some(mime_type(kind)),
        None => None,
    }
}

/// The format with the given MIME type.
pub open spec fn kind_of_mime(mime: Seq<char>) -> Option<ImageKind> {
    if mime == MIME_PNG@ {
        Some(ImageKind::Png)
    } else if mime == MIME_JPEG@ {
        Some(ImageKind::Jpeg)
    } else if mime == MIME_WEBP@ {
        Some(ImageKind::WebP)
    } else if mime == MIME_GIF@ {
        Some(ImageKind::Gif)
    } else {
        None
    }
}

/// The format with the given MIME type.
fn mime_kind(mime: &str) -> (r: Option<ImageKind>)
    ensures
        r == kind_of_mime(mime@),
{
    if same_text(mime, MIME_PNG) {
        Some(ImageKind::Png)
    } else if same_text(mime, MIME_JPEG) {
        Some(ImageKind::Jpeg)
    } else if same_text(mime, MIME_WEBP) {
        Some(ImageKind::WebP)
    } else if same_text(mime, MIME_GIF) {
        Some(ImageKind::Gif)
    } else {
        None
    }
}

/// The four MIME types differ.
pub proof fn lemma_mime_types(kind: ImageKind)
    ensures
        kind_of_mime(mime_of(kind)) == Some(kind),
{
    reveal_strlit("image/png");
    reveal_strlit("image/jpeg");
    reveal_strlit("image/webp");
    reveal_strlit("image/gif");
    assert(MIME_PNG@.len() == 9 && MIME_JPEG@.len() == 10 && MIME_WEBP@.len() == 10
        && MIME_GIF@.len() == 9);
    assert(MIME_PNG@[6] == 'p' && MIME_GIF@[6] == 'g');
    assert(MIME_JPEG@[6] == 'j' && MIME_WEBP@[6] == 'w');
}

// ---------------------------------------------------------------------------------------
// Previews

/// What to embed for an image.
#[derive(Debug, Clone, Copy, PartialEq, Eq, Structural)]
pub enum PreviewPlan {
    /// The file itself.
    Original,
    /// A smaller version that keeps transparency.
    Png,
    /// A smaller version without transparency.
    Jpeg,
}

/// What to embed for an image: the file itself where neither edge is too long, else a smaller
/// version.
pub open spec fn planned(width: u32, height: u32, alpha: bool) -> PreviewPlan {
    if width <= MAX_IMAGE_PREVIEW_EDGE && height <= MAX_IMAGE_PREVIEW_EDGE {
        PreviewPlan::Original
    } else if alpha {
        PreviewPlan::Png
    } else {
        PreviewPlan::Jpeg
    }
}

/// What to embed for an image of the given size.
pub fn plan_preview(width: u32, height: u32, alpha: bool) -> (r: PreviewPlan)
    ensures
        r == planned(width, height, alpha),
{
    if width <= MAX_IMAGE_PREVIEW_EDGE && height <= MAX_IMAGE_PREVIEW_EDGE {
        PreviewPlan::Original
    } else if alpha {
        PreviewPlan::Png
    } else {
        PreviewPlan::Jpeg
    }
}

/// The message for a smaller version that could not be made.
pub open spec fn encode_problem(format: Seq<char>, reason: Seq<char>) -> Seq<char> {
    "encode "@ + format + " image preview: "@ + reason
}

/// The preview that a smaller version of the given type makes, or why there is none.
pub open spec fn shrunk_preview(
    made: Result<(Seq<u8>, u32, u32), Seq<char>>,
    alpha: bool,
    original: (u32, u32),
) -> Result<Preview, Seq<char>> {
    match made {
        Ok((bytes, w, h)) => Ok(
            Preview {
                bytes,
                mime_type: if alpha {
                    MIME_PNG@
                } else {
                    MIME_JPEG@
                },
                original,
                size: (w, h),
                resized: true,
            },
        ),
        Err(e) => Err(
            encode_problem(
                if alpha {
                    "PNG"@
                } else {
                    "JPEG"@
                },
                e,
            ),
        ),
    }
}

/// A result with its values as mathematical values.
pub open spec fn preview_result(r: Result<ImagePreview, String>) -> Result<Preview, Seq<char>> {
    match r {
        Ok(p) => Ok(p@),
        Err(e) => Err(e@),
    }
}

/// A result with its values as mathematical values.
pub open spec fn made_result(r: Result<(Vec<u8>, u32, u32), String>) -> Result<
    (Seq<u8>, u32, u32),
    Seq<char>,
> {
    match r {
        Ok((bytes, w, h)) => Ok((bytes@, w, h)),
        Err(e) => Err(e@),
    }
}

/// The preview that a smaller version makes, given the version that was made.
pub fn preview_from(
    made: Result<(Vec<u8>, u32, u32), String>,
    alpha: bool,
    original: (u32, u32),
) -> (r: Result<ImagePreview, String>)
    ensures
        preview_result(r) == shrunk_preview(made_result(made), alpha, original),
{
    match made {
        Ok((bytes, width, height)) => Ok(
            ImagePreview {
                bytes,
                mime_type: if alpha {
                    MIME_PNG.to_owned()
                } else {
                    MIME_JPEG.to_owned()
                },
                original_width: original.0,
                original_height: original.1,
                width,
                height,
                resized: true,
            },
        ),
        Err(e) => {
            let mut message = concat3(
                "encode ",
                if alpha {
                    "PNG"
                } else {
                    "JPEG"
                },
                " image preview: ",
            );
            message.push_str(e.as_str());
            Err(message)
        },
    }
}

/// The file itself as its preview.
pub open spec fn original_preview(bytes: Seq<u8>, mime: Seq<char>, size: (u32, u32)) -> Preview {
    Preview { bytes, mime_type: mime, original: size, size, resized: false }
}

/// The preview of an image file, or why there is none.
pub open spec fn preview_of(bytes: Seq<u8>, mime: Seq<char>) -> Result<Preview, Seq<char>> {
    match kind_of_mime(mime) {
        None => Err("unsupported image MIME type: "@ + mime),
        Some(kind) => match image_form(bytes, kind) {
            Err(e) => Err("decode "@ + mime + " image: "@ + e),
            Ok((width, height, alpha)) => match planned(width, height, alpha) {
                PreviewPlan::Original => Ok(original_preview(bytes, mime, (width, height))),
                PreviewPlan::Png => shrunk_preview(
                    shrunk_png(bytes, kind, MAX_IMAGE_PREVIEW_EDGE, Resampling::Triangle),
                    alpha,
                    (width, height),
                ),
                PreviewPlan::Jpeg => shrunk_preview(
                    shrunk_jpeg(
                        bytes,
                        kind,
                        MAX_IMAGE_PREVIEW_EDGE,
                        Resampling::Triangle,
                        IMAGE_PREVIEW_JPEG_QUALITY,
                    ),
                    alpha,
                    (width, height),
                ),
            },
        },
    }
}

/// A copy of the bytes.
fn copy_bytes(bytes: &Vec<u8>) -> (r: Vec<u8>)
    ensures
        r@ == bytes@,
{
    let mut out: Vec<u8> = Vec::new();
    let mut i: usize = 0;
    while i < bytes.len()
        invariant
            i <= bytes@.len(),
            out@ == bytes@.take(i as int),
        decreases bytes@.len() - i,
    {
        out.push(bytes[i]);
        i += 1;
    }
    out
}

/// Whether a preview is of the right size: neither side is too long, a smaller version is as
/// large as it may be and of the same shape, and the preview is an image of the size that is
/// given for it.
pub open spec fn is_fitting(p: Preview) -> bool {
    &&& p.size.0 <= MAX_IMAGE_PREVIEW_EDGE && p.size.1 <= MAX_IMAGE_PREVIEW_EDGE
    &&& !p.resized ==> p.size == p.original
    &&& p.resized && p.original.0 > 0 && p.original.1 > 0 ==> scaled(
        p.original,
        MAX_IMAGE_PREVIEW_EDGE,
        p.size,
    )
    &&& kind_of_mime(p.mime_type) matches Some(kind) && has_size(p.bytes, kind, p.size)
}

/// Makes the preview of an image file of the given MIME type.
pub fn prepare_image_preview(bytes: &Vec<u8>, mime_type: &str) -> (r: Result<ImagePreview, String>)
    ensures
        preview_result(r) == preview_of(bytes@, mime_type@),
        r matches Ok(p) ==> is_fitting(p@),
{
    proof {
        lemma_mime_types(ImageKind::Png);
        lemma_mime_types(ImageKind::Jpeg);
    }
    let kind = match mime_kind(mime_type) {
        Some(kind) => kind,
        None => {
            return Err(concat("unsupported image MIME type: ", mime_type));
        },
    };
    let (width, height, alpha) = match decode_image(bytes, kind) {
        Ok(form) => form,
        Err(e) => {
            let mut message = concat3("decode ", mime_type, " image: ");
            message.push_str(e.as_str());
            return Err(message);
        },
    };
    match plan_preview(width, height, alpha) {
        PreviewPlan::Original => Ok(
            ImagePreview {
                bytes: copy_bytes(bytes),
                mime_type: mime_type.to_owned(),
                original_width: width,
                original_height: height,
                width,
                height,
                resized: false,
            },
        ),
        PreviewPlan::Png => {
            let made = shrink_to_png(bytes, kind, MAX_IMAGE_PREVIEW_EDGE, Resampling::Triangle);
            preview_from(made, alpha, (width, height))
        },
        PreviewPlan::Jpeg => {
            let made = shrink_to_jpeg(
                bytes,
                kind,
                MAX_IMAGE_PREVIEW_EDGE,
                Resampling::Triangle,
                IMAGE_PREVIEW_JPEG_QUALITY,
            );
            preview_from(made, alpha, (width, height))
        },
    }
}

// ---------------------------------------------------------------------------------------
// What the read tool hands out for an image

/// The file extension for a preview.
pub open spec fn extension_of(mime: Seq<char>) -> Seq<char> {
    match kind_of_mime(mime) {
        Some(ImageKind::Jpeg) => "jpg"@,
        Some(ImageKind::Png) => "png"@,
        Some(ImageKind::WebP) => "webp"@,
        Some(ImageKind::Gif) => "gif"@,
        None => "bin"@,
    }
}

/// The file extension for a preview of the given MIME type.
pub fn preview_extension(mime: &str) -> (r: &'static str)
    ensures
        r@ == extension_of(mime@),
{
    match mime_kind(mime) {
        Some(ImageKind::Jpeg) => "jpg",
        Some(ImageKind::Png) => "png",
        Some(ImageKind::WebP) => "webp",
        Some(ImageKind::Gif) => "gif",
        None => "bin",
    }
}

/// The address of an embedded preview.
pub open spec fn uri_of(id: Seq<char>, mime: Seq<char>) -> Seq<char> {
    "pc://read-image/"@ + id + "/preview."@ + extension_of(mime)
}

/// The address of an embedded preview with the given identifier.
pub fn preview_uri(id: &str, mime: &str) -> (r: String)
    ensures
        r@ == uri_of(id@, mime@),
{
    let mut uri = concat3("pc://read-image/", id, "/preview.");
    uri.push_str(preview_extension(mime));
    uri
}

/// The message for an image file that is too large.
pub open spec fn too_large(path: Seq<char>, mime: Seq<char>) -> Seq<char> {
    path + " is a "@ + mime + " image larger than the 25 MiB read limit"@
}

/// The report that goes with a preview.
pub open spec fn reports(
    m: ImageReadMetadata,
    p: Preview,
    path: Seq<char>,
    mime: Seq<char>,
    bytes: nat,
) -> bool {
    &&& m.path@ == path
    &&& m.original_mime_type@ == mime
    &&& m.original_bytes == bytes
    &&& (m.original_width, m.original_height) == p.original
    &&& m.preview_mime_type@ == p.mime_type
    &&& m.preview_bytes == p.bytes.len()
    &&& (m.preview_width, m.preview_height) == p.size
    &&& m.resized == p.resized
}

/// The resource that embeds a preview: its bytes in Base64, under an address of its own.
pub open spec fn embeds(res: ImageResource, p: Preview) -> bool {
    &&& res.blob@ == base64_text(p.bytes)
    &&& base64_bytes(res.blob@) == Some(p.bytes)
    &&& res.mime_type@ == p.mime_type
    &&& exists|id: Seq<char>|
        hyphenated_text(id) && res.uri@ == #[trigger] uri_of(id, p.mime_type)
}

/// The resource that embeds a preview, and the report that goes with it.
pub fn embed_preview(preview: ImagePreview, path: &str, mime_type: &str, original_bytes: usize) -> (r:
    (ImageReadMetadata, ImageResource))
    ensures
        reports(r.0, preview@, path@, mime_type@, original_bytes as nat),
        embeds(r.1, preview@),
{
    let blob = base64_encode(&preview.bytes);
    let id = hyphenated_uuid();
    let uri = preview_uri(id.as_str(), preview.mime_type.as_str());
    assert(uri@ == uri_of(id@, preview.mime_type@));
    let metadata = ImageReadMetadata {
        path: path.to_owned(),
        original_mime_type: mime_type.to_owned(),
        original_bytes,
        original_width: preview.original_width,
        original_height: preview.original_height,
        preview_mime_type: preview.mime_type.clone(),
        preview_bytes: preview.bytes.len(),
        preview_width: preview.width,
        preview_height: preview.height,
        resized: preview.resized,
    };
    (metadata, ImageResource { blob, uri, mime_type: preview.mime_type })
}

/// What the read tool hands out for an image file of the given MIME type, or why it cannot.
pub fn read_image(bytes: &Vec<u8>, path: &str, mime_type: &str) -> (r: Result<
    (ImageReadMetadata, ImageResource),
    String,
>)
    ensures
        if bytes@.len() > MAX_IMAGE_BYTES {
            r matches Err(e) && e@ == too_large(path@, mime_type@)
        } else {
            match preview_of(bytes@, mime_type@) {
                Err(e) => r matches Err(m) && m@ == e,
                Ok(p) => r matches Ok((metadata, resource)) && reports(
                    metadata,
                    p,
                    path@,
                    mime_type@,
                    bytes@.len(),
                ) && embeds(resource, p),
            }
        },
        r is Ok ==> (preview_of(bytes@, mime_type@) matches Ok(p) && is_fitting(p)),
{
    if bytes.len() > MAX_IMAGE_BYTES {
        let mut message = concat3(path, " is a ", mime_type);
        message.push_str(" image larger than the 25 MiB read limit");
        return Err(message);
    }
    match prepare_image_preview(bytes, mime_type) {
        Ok(preview) => Ok(embed_preview(preview, path, mime_type, bytes.len())),
        Err(e) => Err(e),
    }
}

/// An image whose edges are short enough is embedded as it is: what the resource decodes to
/// is the file itself.
pub proof fn lemma_small_image_is_embedded_unchanged(
    bytes: Seq<u8>,
    kind: ImageKind,
    preview: Preview,
    resource: ImageResource,
)
    ensures
        ({
            &&& image_form(bytes, kind) matches Ok((w, h, _))
            &&& w <= MAX_IMAGE_PREVIEW_EDGE
            &&& h <= MAX_IMAGE_PREVIEW_EDGE
            &&& preview_of(bytes, mime_of(kind)) == Ok::<Preview, Seq<char>>(preview)
            &&& embeds(resource, preview)
        }) ==> {
            &&& base64_bytes(resource.blob@) == Some(bytes)
            &&& !preview.resized
            &&& preview.size == preview.original
        },
{
    lemma_mime_types(kind);
}

// ---------------------------------------------------------------------------------------
// Images by their bytes, types and sizes

/// What an image is goes by how its file begins, whatever follows: the eight bytes of PNG, the
/// three of JPEG, the six of either version of GIF, and RIFF with WEBP behind the length. A file
/// that begins otherwise is no image.
pub proof fn lemma_images_by_their_bytes(rest: Seq<u8>, length: Seq<u8>, bytes: Seq<u8>)
    requires
        length.len() == 4,
    ensures
        kind_of_bytes(seq![0x89u8, 0x50, 0x4e, 0x47, 0x0d, 0x0a, 0x1a, 0x0a] + rest) == Some(
            ImageKind::Png,
        ),
        kind_of_bytes(seq![0xffu8, 0xd8, 0xff] + rest) == Some(ImageKind::Jpeg),
        kind_of_bytes(seq![0x47u8, 0x49, 0x46, 0x38, 0x37, 0x61] + rest) == Some(ImageKind::Gif),
        kind_of_bytes(seq![0x47u8, 0x49, 0x46, 0x38, 0x39, 0x61] + rest) == Some(ImageKind::Gif),
        kind_of_bytes(
            seq![0x52u8, 0x49, 0x46, 0x46] + length + seq![0x57u8, 0x45, 0x42, 0x50] + rest,
        ) == Some(ImageKind::WebP),
        kind_of_bytes(bytes) matches Some(kind) ==> {
            &&& bytes.len() >= 3
            &&& kind == ImageKind::Png ==> bytes.len() >= 8 && bytes.take(8) == seq![
                0x89u8,
                0x50,
                0x4e,
                0x47,
                0x0d,
                0x0a,
                0x1a,
                0x0a,
            ]
            &&& kind == ImageKind::Jpeg ==> bytes.take(3) == seq![0xffu8, 0xd8, 0xff]
            &&& kind == ImageKind::Gif ==> bytes.len() >= 6 && (bytes.take(6) == seq![
                0x47u8,
                0x49,
                0x46,
                0x38,
                0x37,
                0x61,
            ] || bytes.take(6) == seq![0x47u8, 0x49, 0x46, 0x38, 0x39, 0x61])
            &&& kind == ImageKind::WebP ==> bytes.len() >= 12 && bytes.take(4) == seq![
                0x52u8,
                0x49,
                0x46,
                0x46,
            ] && bytes.subrange(8, 12) == seq![0x57u8, 0x45, 0x42, 0x50]
        },
{
    let png = png_head() + rest;
    let jpeg = jpeg_head() + rest;
    let gif87 = gif87_head() + rest;
    let gif89 = gif89_head() + rest;
    let webp = riff_head() + length + webp_mark() + rest;
    assert(png.take(8) =~= png_head());
    assert(jpeg.take(3) =~= jpeg_head());
    assert(gif87.take(6) =~= gif87_head());
    assert(gif89.take(6) =~= gif89_head());
    assert(webp.take(4) =~= riff_head());
    assert(webp.subrange(8, 12) =~= webp_mark());
    assert(jpeg[0] == 0xffu8 && gif87[0] == 0x47u8 && gif89[0] == 0x47u8 && webp[0] == 0x52u8);
    assert(png_head()[0] == 0x89u8 && jpeg_head()[0] == 0xffu8 && riff_head()[0] == 0x52u8);
    lemma_first_byte(jpeg);
    lemma_first_byte(gif87);
    lemma_first_byte(gif89);
    lemma_first_byte(webp);
}

proof fn lemma_first_byte(bytes: Seq<u8>)
    requires
        bytes.len() > 0,
    ensures
        bytes[0] != 0x89 ==> !starts_with_bytes(bytes, png_head()),
        bytes[0] != 0xff ==> !starts_with_bytes(bytes, jpeg_head()),
        bytes[0] != 0x52 ==> !starts_with_bytes(bytes, riff_head()),
{
    if starts_with_bytes(bytes, png_head()) {
        assert(bytes.take(8)[0] == bytes[0]);
    }
    if starts_with_bytes(bytes, jpeg_head()) {
        assert(bytes.take(3)[0] == bytes[0]);
    }
    if starts_with_bytes(bytes, riff_head()) {
        assert(bytes.take(4)[0] == bytes[0]);
    }
}

/// The MIME types, the extensions of previews and their addresses.
pub proof fn lemma_types_of_images(mime: Seq<char>, id: Seq<char>)
    ensures
        kind_of_mime(mime) matches Some(kind) ==> mime == mime_of(kind),
        mime_of(ImageKind::Png) == "image/png"@,
        mime_of(ImageKind::Jpeg) == "image/jpeg"@,
        mime_of(ImageKind::WebP) == "image/webp"@,
        mime_of(ImageKind::Gif) == "image/gif"@,
        extension_of("image/png"@) == "png"@,
        extension_of("image/jpeg"@) == "jpg"@,
        extension_of("image/webp"@) == "webp"@,
        extension_of("image/gif"@) == "gif"@,
        kind_of_mime(mime) is None ==> extension_of(mime) == "bin"@,
        uri_of(id, mime) == "pc://read-image/"@ + id + "/preview."@ + extension_of(mime),
{
    lemma_mime_types(ImageKind::Png);
    lemma_mime_types(ImageKind::Jpeg);
    lemma_mime_types(ImageKind::WebP);
    lemma_mime_types(ImageKind::Gif);
}

/// An image is made smaller if and only if one of its edges is longer than 2048 pixels, and a
/// smaller version keeps transparency where there is any.
pub proof fn lemma_when_an_image_is_made_smaller(width: u32, height: u32, alpha: bool)
    ensures
        planned(width, height, alpha) == PreviewPlan::Original <==> width <= 2048 && height
            <= 2048,
        width > 2048 || height > 2048 ==> planned(width, height, true) == PreviewPlan::Png
            && planned(width, height, false) == PreviewPlan::Jpeg,
        MAX_IMAGE_BYTES == 25 * 1024 * 1024,
{
}

/// What is embedded for an image: the file as it is where its edges are short enough, else a
/// smaller version, as PNG where the image is transparent and as JPEG where it is not. A type
/// that is no image's, bytes that are no such image and a version that cannot be made are
/// reported.
pub proof fn lemma_what_is_embedded(
    bytes: Seq<u8>,
    kind: ImageKind,
    other: Seq<char>,
    width: u32,
    height: u32,
    reason: Seq<char>,
)
    ensures
        kind_of_mime(other) is None ==> preview_of(bytes, other) == Err::<Preview, Seq<char>>(
            "unsupported image MIME type: "@ + other,
        ),
        image_form(bytes, kind) == Err::<(u32, u32, bool), Seq<char>>(reason) ==> preview_of(
            bytes,
            mime_of(kind),
        ) == Err::<Preview, Seq<char>>("decode "@ + mime_of(kind) + " image: "@ + reason),
        ({
            let preview = preview_of(bytes, mime_of(kind));
            let large = width > 2048 || height > 2048;
            let png = shrunk_png(bytes, kind, 2048, Resampling::Triangle);
            let jpeg = shrunk_jpeg(bytes, kind, 2048, Resampling::Triangle, 85);
            &&& image_form(bytes, kind) matches Ok((w, h, _)) ==> w <= 2048 && h <= 2048
                ==> preview == Ok::<Preview, Seq<char>>(
                Preview {
                    bytes,
                    mime_type: mime_of(kind),
                    original: (w, h),
                    size: (w, h),
                    resized: false,
                },
            )
            &&& large && image_form(bytes, kind) == Ok::<(u32, u32, bool), Seq<char>>(
                (width, height, true),
            ) ==> {
                &&& png matches Ok((b, w, h)) ==> preview == Ok::<Preview, Seq<char>>(
                    Preview {
                        bytes: b,
                        mime_type: "image/png"@,
                        original: (width, height),
                        size: (w, h),
                        resized: true,
                    },
                )
                &&& png matches Err(e) ==> preview == Err::<Preview, Seq<char>>(
                    "encode "@ + "PNG"@ + " image preview: "@ + e,
                )
            }
            &&& large && image_form(bytes, kind) == Ok::<(u32, u32, bool), Seq<char>>(
                (width, height, false),
            ) ==> {
                &&& jpeg matches Ok((b, w, h)) ==> preview == Ok::<Preview, Seq<char>>(
                    Preview {
                        bytes: b,
                        mime_type: "image/jpeg"@,
                        original: (width, height),
                        size: (w, h),
                        resized: true,
                    },
                )
                &&& jpeg matches Err(e) ==> preview == Err::<Preview, Seq<char>>(
                    "encode "@ + "JPEG"@ + " image preview: "@ + e,
                )
            }
        }),
{
    lemma_mime_types(kind);
}

/// What is said of an image that was read, field by field.
pub proof fn lemma_what_is_said_of_an_image(
    m: ImageReadMetadata,
    p: Preview,
    path: Seq<char>,
    mime: Seq<char>,
    bytes: nat,
)
    ensures
        reports(m, p, path, mime, bytes) ==> {
            &&& m.path@ == path && m.original_mime_type@ == mime && m.original_bytes == bytes
            &&& m.original_width == p.original.0 && m.original_height == p.original.1
            &&& m.preview_mime_type@ == p.mime_type && m.preview_bytes == p.bytes.len()
            &&& m.preview_width == p.size.0 && m.preview_height == p.size.1
            &&& m.resized == p.resized
        },
        too_large(path, mime) == path + " is a "@ + mime
            + " image larger than the 25 MiB read limit"@,
{
}

/// What a preview holds, field by field, and what making one gives.
pub proof fn lemma_what_a_preview_holds(
    p: ImagePreview,
    reason: String,
    bytes: Vec<u8>,
    w: u32,
    h: u32,
)
    ensures
        p@.bytes == p.bytes@,
        p@.mime_type == p.mime_type@,
        p@.original == (p.original_width, p.original_height),
        p@.size == (p.width, p.height),
        p@.resized == p.resized,
        preview_result(Ok(p)) == Ok::<Preview, Seq<char>>(p@),
        preview_result(Err(reason)) == Err::<Preview, Seq<char>>(reason@),
        made_result(Ok((bytes, w, h))) == Ok::<(Seq<u8>, u32, u32), Seq<char>>((bytes@, w, h)),
        made_result(Err(reason)) == Err::<(Seq<u8>, u32, u32), Seq<char>>(reason@),
{
}

/// What fits: a preview whose edges are short enough, that is as large as the image where it is
/// the image itself, in proportion where it is not, and that decodes to an image of its size.
pub proof fn lemma_what_fits(p: Preview)
    ensures
        is_fitting(p) ==> {
            &&& p.size.0 <= 2048 && p.size.1 <= 2048
            &&& !p.resized ==> p.size == p.original
            &&& p.resized && p.original.0 > 0 && p.original.1 > 0 ==> scaled(
                p.original,
                2048,
                p.size,
            )
            &&& kind_of_mime(p.mime_type) matches Some(kind) && has_size(p.bytes, kind, p.size)
        },
{
}

/// What a resource holds: the bytes of the preview, which it decodes to, under their type.
pub proof fn lemma_what_a_resource_holds(res: ImageResource, p: Preview)
    ensures
        embeds(res, p) ==> {
            &&& res.blob@ == base64_text(p.bytes)
            &&& base64_bytes(res.blob@) == Some(p.bytes)
            &&& res.mime_type@ == p.mime_type
            &&& exists|id: Seq<char>|
                hyphenated_text(id) && res.uri@ == #[trigger] ("pc://read-image/"@ + id
                    + "/preview."@ + extension_of(p.mime_type))
        },
{
    if embeds(res, p) {
        let id = choose|id: Seq<char>|
            hyphenated_text(id) && res.uri@ == #[trigger] uri_of(id, p.mime_type);
        assert(res.uri@ == "pc://read-image/"@ + id + "/preview."@ + extension_of(p.mime_type));
    }
}

} // verus!
