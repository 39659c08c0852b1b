//! Images attached to a prompt: recognising them, encoding them, and keeping
//! within the provider's limits.

use vstd::prelude::*;

use crate::error::{LegError, Result};
use crate::model::{BlockView, ContentBlock, ImageSource, Message};
use crate::text::{byte_len, concat3, debug_text, debugged, text_bytes, views};

verus! {

/// The longest encoded image, in bytes.
pub const MAX_BASE64_IMAGE_BYTES: usize = 10_000_000;

/// The most that the encoded images of one request may add up to, in bytes.
pub const MAX_IMAGE_REQUEST_BYTES: usize = 32_000_000;

/// The longest image file, in bytes: what encodes to the longest encoded image.
pub const MAX_RAW_IMAGE_BYTES: usize = 7_500_000;

// ---------------------------------------------------------------------------
// Recognising an image

/// Whether `bytes` hold `part` from `at` on.
pub open spec fn holds_at(bytes: Seq<u8>, at: int, part: Seq<u8>) -> bool {
    at + part.len() <= bytes.len() && bytes.subrange(at, at + part.len()) == part
}

/// The media type that the signature of a file tells.
pub open spec fn media_type_of(bytes: Seq<u8>) -> Option<Seq<char>> {
    if holds_at(bytes, 0, seq![0xff, 0xd8, 0xff]) {
        Some("image/jpeg"@)
    } else if holds_at(bytes, 0, seq![0x89, 0x50, 0x4e, 0x47, 0x0d, 0x0a, 0x1a, 0x0a]) {
        Some("image/png"@)
    } else if holds_at(bytes, 0, seq![0x47, 0x49, 0x46, 0x38, 0x37, 0x61]) || holds_at(
        bytes,
        0,
        seq![0x47, 0x49, 0x46, 0x38, 0x39, 0x61],
    ) {
        Some("image/gif"@)
    } else if holds_at(bytes, 0, seq![0x52, 0x49, 0x46, 0x46]) && holds_at(
        bytes,
        8,
        seq![0x57, 0x45, 0x42, 0x50],
    ) {
        Some("image/webp"@)
    } else {
        None
    }
}

fn holds(bytes: &[u8], at: usize, part: &[u8]) -> (found: bool)
    requires
        at <= 8,
        part@.len() <= 8,
    ensures
        found == holds_at(bytes@, at as int, part@),
{
    if bytes.len() < at + part.len() {
        return false;
    }
    let mut i: usize = 0;
    while i < part.len()
        invariant
            i <= part@.len(),
            at <= 8,
            part@.len() <= 8,
            at + part@.len() <= bytes@.len(),
            forall|k: int| 0 <= k < i ==> bytes@[at + k] == #[trigger] part@[k],
        decreases part@.len() - i,
    {
        if bytes[at + i] != part[i] {
            assert(bytes@.subrange(at as int, at + part@.len())[i as int] != part@[i as int]);
            return false;
        }
        i = i + 1;
    }
    assert(bytes@.subrange(at as int, at + part@.len()) =~= part@);
    true
}

/// The media type of a JPEG, PNG, GIF or WebP file, told from its signature.
pub fn detect_media_type(bytes: &[u8]) -> (media_type: Option<&'static str>)
    ensures
        match media_type {
            Some(name) => media_type_of(bytes@) == Some(name@),
            None => media_type_of(bytes@) is None,
        },
{
    let jpeg: [u8; 3] = [0xff, 0xd8, 0xff];
    let png: [u8; 8] = [0x89, 0x50, 0x4e, 0x47, 0x0d, 0x0a, 0x1a, 0x0a];
    let gif87: [u8; 6] = [0x47, 0x49, 0x46, 0x38, 0x37, 0x61];
    let gif89: [u8; 6] = [0x47, 0x49, 0x46, 0x38, 0x39, 0x61];
    let riff: [u8; 4] = [0x52, 0x49, 0x46, 0x46];
    let webp: [u8; 4] = [0x57, 0x45, 0x42, 0x50];
    assert(jpeg@ =~= seq![0xffu8, 0xd8, 0xff]);
    assert(png@ =~= seq![0x89u8, 0x50, 0x4e, 0x47, 0x0d, 0x0a, 0x1a, 0x0a]);
    assert(gif87@ =~= seq![0x47u8, 0x49, 0x46, 0x38, 0x37, 0x61]);
    assert(gif89@ =~= seq![0x47u8, 0x49, 0x46, 0x38, 0x39, 0x61]);
    assert(riff@ =~= seq![0x52u8, 0x49, 0x46, 0x46]);
    assert(webp@ =~= seq![0x57u8, 0x45, 0x42, 0x50]);
    if holds(bytes, 0, jpeg.as_slice()) {
        Some("image/jpeg")
    } else if holds(bytes, 0, png.as_slice()) {
        Some("image/png")
    } else if holds(bytes, 0, gif87.as_slice()) || holds(bytes, 0, gif89.as_slice()) {
        Some("image/gif")
    } else if holds(bytes, 0, riff.as_slice()) && holds(bytes, 8, webp.as_slice()) {
        Some("image/webp")
    } else {
        None
    }
}

// ---------------------------------------------------------------------------
// Encoding an image

/// The base64 text of `bytes`.
pub uninterp spec fn base64_text(bytes: Seq<u8>) -> Seq<char>;

/// How many bytes the base64 text of `n` bytes has: four for each three, the
/// last group padded.
pub open spec fn base64_len(n: nat) -> nat {
    (n + 2) / 3 * 4
}

/// `STANDARD.encode` of the crate `base64`: the text of the standard alphabet,
/// padded. The text itself is named, not spelled out; its length is stated.
#[verifier::external_body]
fn encode_base64(bytes: &[u8]) -> (text: String)
    requires
        bytes@.len() <= MAX_RAW_IMAGE_BYTES,
    ensures
        text@ == base64_text(bytes@),
        byte_len(text@) == base64_len(bytes@.len()),
{
    base64::Engine::encode(&base64::engine::general_purpose::STANDARD, bytes)
}

/// The complaint about an image over the limit.
pub open spec fn too_large_text(path: Seq<char>) -> Seq<char> {
    "--image file "@ + debugged(path) + " exceeds the 10 MB base64-encoded size limit"@
}

/// The complaint about a file that is no supported image.
pub open spec fn unsupported_text(path: Seq<char>) -> Seq<char> {
    "--image file "@ + debugged(path) + " is not a supported JPEG, PNG, GIF, or WebP image"@
}

/// The error for an image over the limit.
pub fn image_too_large(path: &str) -> (error: LegError)
    ensures
        error matches LegError::Usage(text) && text@ == too_large_text(path@),
{
    LegError::Usage(
        concat3(
            "--image file ",
            debug_text(path).as_str(),
            " exceeds the 10 MB base64-encoded size limit",
        ),
    )
}

/// Refuses a file by its size, before it is read.
pub fn check_image_size(path: &str, size: u64) -> (result: Result<()>)
    ensures
        if size > MAX_RAW_IMAGE_BYTES {
            result matches Err(LegError::Usage(text)) && text@ == too_large_text(path@)
        } else {
            result is Ok
        },
{
    if size > MAX_RAW_IMAGE_BYTES as u64 {
        return Err(image_too_large(path));
    }
    Ok(())
}

/// The images attached so far.
#[derive(Debug)]
pub struct ImageBatch {
    /// The image blocks, in order.
    pub images: Vec<ContentBlock>,
    /// The bytes of their encoded data.
    pub encoded_total: usize,
}

/// What comes of attaching a file of `bytes` to images of `total` encoded
/// bytes: the image block, or the complaint.
pub open spec fn attached(path: Seq<char>, bytes: Seq<u8>, total: nat) -> core::result::Result<
    BlockView,
    Seq<char>,
> {
    if bytes.len() > MAX_RAW_IMAGE_BYTES {
        Err(too_large_text(path))
    } else {
        match media_type_of(bytes) {
            None => Err(unsupported_text(path)),
            Some(media_type) => if total + base64_len(bytes.len()) > MAX_IMAGE_REQUEST_BYTES {
                Err("combined --image data exceeds the 32 MB Messages API request limit"@)
            } else {
                Ok(BlockView::Image { media_type, data: base64_text(bytes) })
            },
        }
    }
}

impl ImageBatch {
    /// No images.
    pub fn new() -> (batch: Self)
        ensures
            batch.images@.len() == 0,
            batch.encoded_total == 0,
    {
        ImageBatch { images: Vec::new(), encoded_total: 0 }
    }

    /// Attaches the image file `path` with the content `bytes`.
    pub fn attach(&mut self, path: &str, bytes: &[u8]) -> (result: Result<()>)
        requires
            old(self).encoded_total <= MAX_IMAGE_REQUEST_BYTES,
        ensures
            final(self).encoded_total <= MAX_IMAGE_REQUEST_BYTES,
            match attached(path@, bytes@, old(self).encoded_total as nat) {
                Ok(block) => {
                    &&& result is Ok
                    &&& views(final(self).images@) == views(old(self).images@).push(block)
                    &&& final(self).encoded_total == old(self).encoded_total + base64_len(
                        bytes@.len(),
                    )
                },
                Err(message) => {
                    &&& result matches Err(LegError::Usage(text)) && text@ == message
                    &&& *final(self) == *old(self)
                },
            },
    {
        if bytes.len() > MAX_RAW_IMAGE_BYTES {
            return Err(image_too_large(path));
        }
        let media_type = match detect_media_type(bytes) {
            Some(media_type) => media_type,
            None => {
                return Err(
                    LegError::Usage(
                        concat3(
                            "--image file ",
                            debug_text(path).as_str(),
                            " is not a supported JPEG, PNG, GIF, or WebP image",
                        ),
                    ),
                );
            },
        };
        let data = encode_base64(bytes);
        let length: usize = text_bytes(data.as_str());
        if self.encoded_total + length > MAX_IMAGE_REQUEST_BYTES {
            return Err(
                LegError::Usage(
                    "combined --image data exceeds the 32 MB Messages API request limit".to_owned(),
                ),
            );
        }
        let ghost before = views(self.images@);
        let block = ContentBlock::Image {
            source: ImageSource::Base64 { media_type: media_type.to_owned(), data },
        };
        self.images.push(block);
        self.encoded_total = self.encoded_total + length;
        assert(views(self.images@) =~= before.push(block@));
        Ok(())
    }
}

/// An image file that may be read at all is never over the limit once encoded.
pub proof fn law_readable_images_encode_within_the_limit(n: nat)
    requires
        n <= MAX_RAW_IMAGE_BYTES,
    ensures
        base64_len(n) <= MAX_BASE64_IMAGE_BYTES,
{
}

// ---------------------------------------------------------------------------
// The limits of a request

/// The encoded lengths of the images in `blocks`, in order.
pub open spec fn block_sizes(blocks: Seq<BlockView>) -> Seq<nat>
    decreases blocks.len(),
{
    if blocks.len() == 0 {
        seq![]
    } else {
        let before = block_sizes(blocks.drop_last());
        match blocks.last() {
            BlockView::Image { data, .. } => before.push(byte_len(data)),
            _ => before,
        }
    }
}

/// The encoded lengths of the images in the first `n` messages, in order.
pub open spec fn image_sizes(messages: Seq<Message>, n: nat) -> Seq<nat>
    decreases n,
{
    if n == 0 || n > messages.len() {
        seq![]
    } else {
        image_sizes(messages, (n - 1) as nat) + block_sizes(messages[n - 1]@.content)
    }
}

/// The first `n` images' total length, or the complaint about the first of them
/// that breaks a limit.
pub open spec fn within_limits(sizes: Seq<nat>, n: nat) -> core::result::Result<nat, Seq<char>>
    decreases n,
{
    if n == 0 || n > sizes.len() {
        Ok(0)
    } else {
        match within_limits(sizes, (n - 1) as nat) {
            Err(message) => Err(message),
            Ok(total) => if sizes[n - 1] > MAX_BASE64_IMAGE_BYTES {
                Err("base64-encoded image exceeds the 10 MB Messages API per-image limit"@)
            } else if total + sizes[n - 1] > MAX_IMAGE_REQUEST_BYTES {
                Err("combined image data exceeds the 32 MB Messages API request limit"@)
            } else {
                Ok(total + sizes[n - 1])
            },
        }
    }
}

proof fn lemma_limits_stop(sizes: Seq<nat>, n: nat, m: nat)
    requires
        n <= m <= sizes.len(),
        within_limits(sizes, n) is Err,
    ensures
        within_limits(sizes, m) == within_limits(sizes, n),
    decreases m,
{
    if n < m {
        lemma_limits_stop(sizes, n, (m - 1) as nat);
    }
}

/// The lengths in `sizes`, as numbers.
pub open spec fn lengths(sizes: Seq<usize>) -> Seq<nat> {
    Seq::new(sizes.len(), |i: int| sizes[i] as nat)
}

fn add_block_sizes(sizes: &mut Vec<usize>, blocks: &Vec<ContentBlock>)
    ensures
        lengths(final(sizes)@) == lengths(old(sizes)@) + block_sizes(views(blocks@)),
{
    let ghost all = views(blocks@);
    let mut i: usize = 0;
    assert(all.take(0) =~= Seq::<BlockView>::empty());
    assert(lengths(sizes@) =~= lengths(old(sizes)@) + block_sizes(all.take(0)));
    while i < blocks.len()
        invariant
            i <= blocks.len(),
            all == views(blocks@),
            lengths(sizes@) == lengths(old(sizes)@) + block_sizes(all.take(i as int)),
        decreases blocks.len() - i,
    {
        let ghost before = lengths(sizes@);
        assert(all.take(i + 1).drop_last() == all.take(i as int));
        assert(all.take(i + 1).last() == blocks@[i as int]@);
        if let ContentBlock::Image { source: ImageSource::Base64 { data, .. } } = &blocks[i] {
            let length: usize = text_bytes(data.as_str());
            sizes.push(length);
            assert(lengths(sizes@) =~= before.push(length as nat));
            assert(lengths(sizes@) =~= lengths(old(sizes)@) + block_sizes(all.take(i + 1)));
        }
        i = i + 1;
    }
    assert(all.take(i as int) == all);
}

/// What is wrong with the images of a request, if anything is.
pub open spec fn image_fault(messages: Seq<Message>) -> Option<Seq<char>> {
    let sizes = image_sizes(messages, messages.len());
    match within_limits(sizes, sizes.len()) {
        Ok(_) => None,
        Err(message) => Some(message),
    }
}

/// Checks the images of a request against the limit for each and for all.
pub fn validate_message_image_limits(messages: &[Message]) -> (result: Result<()>)
    ensures
        match image_fault(messages@) {
            None => result is Ok,
            Some(message) => result matches Err(LegError::Usage(text)) && text@ == message,
        },
{
    let mut sizes: Vec<usize> = Vec::new();
    let mut i: usize = 0;
    assert(lengths(sizes@) =~= image_sizes(messages@, 0));
    while i < messages.len()
        invariant
            i <= messages.len(),
            lengths(sizes@) == image_sizes(messages@, i as nat),
        decreases messages.len() - i,
    {
        add_block_sizes(&mut sizes, &messages[i].content);
        i = i + 1;
    }
    let ghost all = lengths(sizes@);
    let mut total: usize = 0;
    let mut j: usize = 0;
    while j < sizes.len()
        invariant
            j <= sizes.len(),
            all == lengths(sizes@),
            all == image_sizes(messages@, messages@.len()),
            within_limits(all, j as nat) == Ok::<nat, Seq<char>>(total as nat),
            total <= MAX_IMAGE_REQUEST_BYTES,
        decreases sizes.len() - j,
    {
        let size: usize = sizes[j];
        assert(all[j as int] == size);
        if size > MAX_BASE64_IMAGE_BYTES {
            proof {
                lemma_limits_stop(all, (j + 1) as nat, all.len());
            }
            return Err(
                LegError::Usage(
                    "base64-encoded image exceeds the 10 MB Messages API per-image limit".to_owned(),
                ),
            );
        }
        if total + size > MAX_IMAGE_REQUEST_BYTES {
            proof {
                lemma_limits_stop(all, (j + 1) as nat, all.len());
            }
            return Err(
                LegError::Usage(
                    "combined image data exceeds the 32 MB Messages API request limit".to_owned(),
                ),
            );
        }
        total = total + size;
        j = j + 1;
    }
    Ok(())
}

} // verus!
