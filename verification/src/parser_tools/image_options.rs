//! Image payloads supplied to an export.
//!
//! This crate never touches the filesystem: an inline image stores only a `src`
//! string, and resolving that string to bytes is the embedding application's job.
//! Exports that need to *embed* an image therefore receive its bytes from the
//! caller, keyed by exactly the `src` the document carries.
use base64::Engine;
use vstd::prelude::*;

use crate::models::group_deep_view;
use crate::order::{in_key_order, lookup, with_entry, TextMap};
use crate::text::{same_text, IntoText};

verus! {

broadcast use group_deep_view;

/// What an [`ExportImage`] holds.
#[verifier::ext_equal]
pub struct PayloadModel {
    pub bytes: Seq<u8>,
    pub mime_type: Seq<char>,
}

/// One image's bytes, together with what they are.
///
/// `mime_type` is carried rather than sniffed because the caller already knows
/// it and because container formats need it verbatim.
#[derive(Clone, Debug, PartialEq, Eq)]
pub struct ExportImage {
    pub bytes: Vec<u8>,
    pub mime_type: String,
}

impl DeepView for ExportImage {
    type V = PayloadModel;

    open spec fn deep_view(&self) -> PayloadModel {
        PayloadModel { bytes: self.bytes@, mime_type: self.mime_type@ }
    }
}

impl Default for ExportImage {
    fn default() -> (image: Self)
        ensures
            image.bytes@.len() == 0,
            image.mime_type@.len() == 0,
    {
        ExportImage { bytes: Vec::new(), mime_type: String::new() }
    }
}

/// The conventional file extension for a media type.
pub open spec fn extension_of(mime_type: Seq<char>) -> Seq<char> {
    if mime_type == "image/png"@ {
        "png"@
    } else if mime_type == "image/jpeg"@ {
        "jpg"@
    } else if mime_type == "image/webp"@ {
        "webp"@
    } else if mime_type == "image/gif"@ {
        "gif"@
    } else if mime_type == "image/svg+xml"@ {
        "svg"@
    } else {
        "bin"@
    }
}

impl ExportImage {
    pub fn new<S: IntoText>(bytes: Vec<u8>, mime_type: S) -> (image: Self)
        ensures
            image.deep_view() == (PayloadModel { bytes: bytes@, mime_type: mime_type.text() }),
    {
        ExportImage { bytes, mime_type: mime_type.into_text() }
    }

    /// The conventional file extension for this image's media type, used when a
    /// container has to name the packaged file. Falls back to `bin` rather than
    /// guessing, so an unknown type is visible instead of silently mislabelled.
    pub fn extension(&self) -> (extension: &'static str)
        ensures
            extension@ == extension_of(self.deep_view().mime_type),
    {
        let mime_type = self.mime_type.as_str();
        if same_text(mime_type, "image/png") {
            "png"
        } else if same_text(mime_type, "image/jpeg") {
            "jpg"
        } else if same_text(mime_type, "image/webp") {
            "webp"
        } else if same_text(mime_type, "image/gif") {
            "gif"
        } else if same_text(mime_type, "image/svg+xml") {
            "svg"
        } else {
            "bin"
        }
    }
}

/// Image bytes for one export, keyed by the `src` of the inline images that
/// reference them.
///
/// In the order of the sources, so packaged filenames come out in a stable
/// order: a container built twice from the same document must be
/// byte-comparable.
#[derive(Clone, Debug, PartialEq, Eq)]
pub struct ExportImages {
    images: TextMap<ExportImage>,
}

impl DeepView for ExportImages {
    type V = Seq<(Seq<char>, PayloadModel)>;

    closed spec fn deep_view(&self) -> Seq<(Seq<char>, PayloadModel)> {
        self.images.deep_view()
    }
}

impl Default for ExportImages {
    fn default() -> (images: Self)
        ensures
            images.deep_view() == Seq::<(Seq<char>, PayloadModel)>::empty(),
            in_key_order(images.deep_view()),
    {
        ExportImages { images: TextMap::new() }
    }
}

/// Images registered one after the other.
pub open spec fn registered_images(items: Seq<(Seq<char>, PayloadModel)>) -> Seq<
    (Seq<char>, PayloadModel),
>
    decreases items.len(),
{
    if items.len() == 0 {
        Seq::empty()
    } else {
        with_entry(registered_images(items.drop_last()), items.last().0, items.last().1)
    }
}

impl ExportImages {
    pub fn new() -> (images: Self)
        ensures
            images.deep_view() == Seq::<(Seq<char>, PayloadModel)>::empty(),
            in_key_order(images.deep_view()),
    {
        ExportImages { images: TextMap::new() }
    }

    /// Register bytes for the image referenced by `src`.
    pub fn insert<S: IntoText>(&mut self, src: S, image: ExportImage) -> (same: &mut Self)
        ensures
            same.deep_view() == with_entry(old(self).deep_view(), src.text(), image.deep_view()),
            in_key_order(same.deep_view()),
            *final(self) == *final(same),
    {
        self.images.insert(src.into_text(), image);
        self
    }

    /// The images of a list, registered one after the other under their sources.
    pub fn from_iter(items: Vec<(&str, ExportImage)>) -> (images: Self)
        ensures
            images.deep_view() == registered_images(items.deep_view()),
            in_key_order(images.deep_view()),
    {
        let ghost all = items.deep_view();
        let mut images = ExportImages::new();
        for i in 0..items.len()
            invariant
                all == items.deep_view(),
                images.deep_view() == registered_images(all.take(i as int)),
                in_key_order(images.deep_view()),
        {
            let item = &items[i];
            let bytes = item.1.bytes.clone();
            assert(bytes@ =~= item.1.bytes@);
            let image = ExportImage { bytes, mime_type: item.1.mime_type.clone() };
            proof {
                assert(all.take(i + 1).drop_last() =~= all.take(i as int));
                assert(all.take(i + 1).last() == item.deep_view());
            }
            images.insert(item.0, image);
        }
        assert(all.take(all.len() as int) =~= all);
        images
    }

    /// The image of a source.
    pub fn get(&self, src: &str) -> (image: Option<&ExportImage>)
        ensures
            image.deep_view() == lookup(self.deep_view(), src@),
            in_key_order(self.deep_view()),
    {
        self.images.get(src)
    }

    /// The sources and their images, in the order of the sources.
    pub fn iter(&self) -> (images: Vec<(&String, &ExportImage)>)
        ensures
            images.deep_view() == self.deep_view(),
            in_key_order(self.deep_view()),
    {
        self.images.pairs()
    }

    /// Whether there is no image.
    pub fn is_empty(&self) -> (empty: bool)
        ensures
            empty == (self.deep_view().len() == 0),
    {
        self.images.len() == 0
    }

    /// The number of images.
    pub fn len(&self) -> (n: usize)
        ensures
            n == self.deep_view().len(),
    {
        self.images.len()
    }
}

/// How an HTML export represents an inline image.
#[derive(Clone, Copy, Debug, PartialEq, Eq, Structural)]
pub enum HtmlImageMode {
    /// Emit `src` exactly as the document stores it and embed nothing.
    ///
    /// The default, because it is the only mode that cannot silently inflate
    /// the output.
    Reference,
    /// Inline the bytes as a `data:` URI, producing a self-contained file.
    DataUri,
    /// Drop images entirely, keeping their alt text as the accessible fallback.
    Omit,
}

impl Default for HtmlImageMode {
    fn default() -> (mode: Self)
        ensures
            mode == HtmlImageMode::Reference,
    {
        HtmlImageMode::Reference
    }
}

/// Options for an HTML export.
#[derive(Clone, Debug, PartialEq, Eq)]
pub struct HtmlExportOptions {
    pub image_mode: HtmlImageMode,
    /// Bytes for [`HtmlImageMode::DataUri`]. Unused in the other modes.
    pub images: ExportImages,
}

impl Default for HtmlExportOptions {
    fn default() -> (options: Self)
        ensures
            options.image_mode == HtmlImageMode::Reference,
            options.images.deep_view() == Seq::<(Seq<char>, PayloadModel)>::empty(),
    {
        HtmlExportOptions { image_mode: HtmlImageMode::Reference, images: ExportImages::new() }
    }
}

/// The letter that stands for six bits in base64's standard alphabet.
pub open spec fn base64_letter(n: int) -> char {
    if 0 <= n < 26 {
        (('A' as u32 + n) as u8) as char
    } else if n < 52 {
        (('a' as u32 + n - 26) as u8) as char
    } else if n < 62 {
        (('0' as u32 + n - 52) as u8) as char
    } else if n == 62 {
        '+'
    } else {
        '/'
    }
}

/// Bytes in base64: each three bytes as four letters of six bits, what is left
/// over filled up with zero bits, and with `=` to four letters.
pub open spec fn base64_text(bytes: Seq<u8>) -> Seq<char>
    decreases bytes.len(),
{
    if bytes.len() == 0 {
        Seq::empty()
    } else {
        let a = bytes[0] as int;
        let b = if bytes.len() > 1 {
            bytes[1] as int
        } else {
            0
        };
        let c = if bytes.len() > 2 {
            bytes[2] as int
        } else {
            0
        };
        let group = seq![
            base64_letter(a / 4),
            base64_letter(a % 4 * 16 + b / 16),
            if bytes.len() > 1 {
                base64_letter(b % 16 * 4 + c / 64)
            } else {
                '='
            },
            if bytes.len() > 2 {
                base64_letter(c % 64)
            } else {
                '='
            },
        ];
        if bytes.len() > 3 {
            group + base64_text(bytes.skip(3))
        } else {
            group
        }
    }
}

/// Calls `Engine::encode` of `base64::engine::general_purpose::STANDARD`. The
/// contract states the standard's padded encoding. The call panics where the
/// letters are more than a size can count.
#[verifier::external_body]
fn encode_standard(bytes: &[u8]) -> (text: String)
    requires
        bytes@.len() / 3 * 4 + 4 <= usize::MAX,
    ensures
        text@ == base64_text(bytes@),
{
    base64::engine::general_purpose::STANDARD.encode(bytes)
}

/// Base64 (standard alphabet, padded) for `data:` URIs.
pub fn base64_encode(bytes: &[u8]) -> (text: String)
    requires
        bytes@.len() / 3 * 4 + 4 <= usize::MAX,
    ensures
        text@ == base64_text(bytes@),
{
    encode_standard(bytes)
}

} // verus!
