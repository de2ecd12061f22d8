use vstd::prelude::*;
use vstd::utf8::encode_utf8;
use sha1::{Digest, Sha1};
use image::codecs::png::PngEncoder;
use image::{ExtendedColorType, ImageEncoder};
use crate::text::{lower_of, lowercase};

verus! {

/// The SHA-1 digest of some bytes.
pub uninterp spec fn sha1_of(data: Seq<u8>) -> Seq<u8>;

/// Relies on sha1's `Sha1::digest`: the 20-byte SHA-1 digest of the input.
#[verifier::external_body]
fn sha1_digest(data: &Vec<u8>) -> (r: Vec<u8>)
    ensures
        r@ == sha1_of(data@),
        r@.len() == 20,
{
    Sha1::digest(data.as_slice()).to_vec()
}

/// A lower-case hexadecimal digit.
pub open spec fn hex_lower(d: int) -> char {
    "0123456789abcdef"@[d]
}

/// Two lower-case hex digits for each byte.
pub open spec fn hex_text(b: Seq<u8>) -> Seq<char>
    decreases b.len(),
{
    if b.len() == 0 {
        Seq::empty()
    } else {
        hex_text(b.drop_last()) + seq![hex_lower(b.last() as int / 16), hex_lower(b.last() as int % 16)]
    }
}

/// The four little-endian bytes of a 32-bit integer.
pub open spec fn le_bytes(x: i32) -> Seq<u8> {
    let u = x as u32;
    seq![(u % 256) as u8, ((u / 256) % 256) as u8, ((u / 65536) % 256) as u8, ((u / 16777216) % 256) as u8]
}

/// The cache key of an icon: the hex SHA-1 of the lower-cased path's UTF-8
/// bytes followed by the icon index's little-endian bytes.
pub open spec fn cache_key(path: Seq<char>, icon_index: i32) -> Seq<char> {
    hex_text(sha1_of(encode_utf8(lower_of(path)) + le_bytes(icon_index)))
}

fn hex_digit(d: u8) -> (r: &'static str)
    requires
        d < 16,
    ensures
        r@ == seq![hex_lower(d as int)],
{
    let lut = "0123456789abcdef";
    proof {
        reveal_strlit("0123456789abcdef");
    }
    lut.substring_char(d as usize, d as usize + 1)
}

/// Writes bytes as lower-case hexadecimal.
pub fn to_hex(b: &Vec<u8>) -> (r: String)
    ensures
        r@ == hex_text(b@),
{
    let mut out = String::new();
    let mut i: usize = 0;
    assert(b@.subrange(0, 0) =~= Seq::<u8>::empty());
    while i < b.len()
        invariant
            i <= b@.len(),
            out@ == hex_text(b@.subrange(0, i as int)),
        decreases b@.len() - i,
    {
        let x = b[i];
        out.append(hex_digit(x / 16));
        out.append(hex_digit(x % 16));
        proof {
            let pre = b@.subrange(0, i + 1);
            assert(pre.drop_last() =~= b@.subrange(0, i as int));
            assert(pre.last() == x);
            assert(out@ =~= hex_text(pre));
        }
        i = i + 1;
    }
    assert(b@.subrange(0, b@.len() as int) =~= b@);
    out
}

/// The key under which an icon is cached: case-insensitive in the path, as
/// the file system is.
pub fn icon_cache_key(path: &str, icon_index: i32) -> (r: String)
    ensures
        r@ == cache_key(path@, icon_index),
        r@.len() == 40,
{
    let lowered = lowercase(path);
    let mut data = lowered.as_str().as_bytes_vec();
    let u = icon_index as u32;
    data.push((u % 256) as u8);
    data.push(((u / 256) % 256) as u8);
    data.push(((u / 65536) % 256) as u8);
    data.push(((u / 16777216) % 256) as u8);
    assert(data@ =~= encode_utf8(lower_of(path@)) + le_bytes(icon_index));
    let digest = sha1_digest(&data);
    let r = to_hex(&digest);
    proof {
        lemma_hex_len(digest@);
    }
    r
}

proof fn lemma_hex_len(b: Seq<u8>)
    ensures
        hex_text(b).len() == 2 * b.len(),
    decreases b.len(),
{
    if b.len() > 0 {
        lemma_hex_len(b.drop_last());
    }
}

/// The name of the file that caches the icon under `key`.
pub fn cache_file_name(key: &str) -> (r: String)
    ensures
        r@ == key@ + ".b64"@,
{
    String::from_str(key).concat(".b64")
}

/// What to do after looking an icon up in the cache.
#[derive(Debug, PartialEq, Eq)]
pub enum IconStep {
    /// The cache held it: hand it out, with no extraction.
    Cached(String),
    /// The cache did not: extract it from the file.
    Extract,
}

/// A cache hit is handed out as it is; a miss asks for an extraction.
pub fn after_cache_lookup(cached: Option<String>) -> (r: IconStep)
    ensures
        cached matches Some(c) ==> (r matches IconStep::Cached(x) && x@ == c@),
        cached is None ==> r == IconStep::Extract,
{
    match cached {
        Some(c) => IconStep::Cached(c),
        None => IconStep::Extract,
    }
}

/// What to do after an extraction: the icon to hand out, and what to store.
#[derive(Debug, PartialEq, Eq)]
pub struct ExtractOutcome {
    pub icon: String,
    pub store: Option<String>,
}

/// A successful extraction is stored and handed out; a failed one hands out
/// no icon (the empty string) and stores nothing.
pub fn after_extraction(extracted: Option<String>) -> (r: ExtractOutcome)
    ensures
        extracted matches Some(e) ==> (r.icon@ == e@ && (r.store matches Some(s) && s@ == e@)),
        extracted is None ==> r.icon@.len() == 0 && r.store is None,
{
    match extracted {
        Some(e) => ExtractOutcome { icon: e.clone(), store: Some(e) },
        None => ExtractOutcome { icon: String::new(), store: None },
    }
}

/// Where a path goes before the icon cache is asked.
#[derive(Debug, PartialEq, Eq, Structural)]
pub enum IconSource {
    /// An empty path has no icon.
    NoIcon,
    /// The path holds `%NAME%` placeholders to expand first.
    Expand,
    /// The path is used as it is.
    Direct,
}

/// Sorts a requested path: empty ones have no icon, ones with a `%` are
/// expanded first, the rest are used as they are.
pub fn icon_source(path: &str) -> (r: IconSource)
    ensures
        path@.len() == 0 ==> r == IconSource::NoIcon,
        path@.len() > 0 && path@.contains('%') ==> r == IconSource::Expand,
        path@.len() > 0 && !path@.contains('%') ==> r == IconSource::Direct,
{
    if path.unicode_len() == 0 {
        IconSource::NoIcon
    } else if crate::text::contains_char(path, '%') {
        IconSource::Expand
    } else {
        IconSource::Direct
    }
}

/// The icon index to extract: negative indexes mean the first icon.
pub fn icon_index_or_zero(icon_index: i32) -> (r: i32)
    ensures
        r == if icon_index < 0 {
            0
        } else {
            icon_index
        },
{
    if icon_index < 0 {
        0
    } else {
        icon_index
    }
}

/// The PNG file that image's encoder writes for RGBA pixels of the given
/// size, or `None` when it refuses them.
pub uninterp spec fn png_of(rgba: Seq<u8>, width: u32, height: u32) -> Option<Seq<u8>>;

/// The bytes of an optional buffer.
pub open spec fn opt_bytes(o: Option<Vec<u8>>) -> Option<Seq<u8>> {
    match o {
        Some(v) => Some(v@),
        None => None,
    }
}

/// Relies on image's `PngEncoder::write_image` with 8-bit RGBA: the file
/// depends on the pixels and the size alone; it panics unless the buffer
/// holds four bytes for each pixel.
#[verifier::external_body]
fn encode_png(rgba: &Vec<u8>, width: u32, height: u32) -> (r: Option<Vec<u8>>)
    requires
        rgba@.len() == width as int * height as int * 4,
    ensures
        opt_bytes(r) == png_of(rgba@, width, height),
{
    let mut png = Vec::new();
    match PngEncoder::new(&mut png).write_image(rgba, width, height, ExtendedColorType::Rgba8) {
        Ok(()) => Some(png),
        Err(_) => None,
    }
}

/// Pixels in blue-green-red-alpha order, rewritten as red-green-blue-alpha.
pub open spec fn rgba_of(bgra: Seq<u8>) -> Seq<u8> {
    Seq::new(
        bgra.len(),
        |i: int|
            if i % 4 == 0 && i + 2 < bgra.len() {
                bgra[i + 2]
            } else if i % 4 == 2 {
                bgra[i - 2]
            } else {
                bgra[i]
            },
    )
}

/// Swaps the blue and red byte of each four-byte pixel.
pub fn swap_red_blue(pixels: &mut Vec<u8>)
    requires
        old(pixels)@.len() % 4 == 0,
    ensures
        final(pixels)@ == rgba_of(old(pixels)@),
{
    let ghost orig = pixels@;
    let n = pixels.len();
    let mut i: usize = 0;
    while i < n
        invariant
            n == orig.len(),
            n % 4 == 0,
            i % 4 == 0,
            i <= n,
            pixels@.len() == n,
            forall|j: int| 0 <= j < i ==> pixels@[j] == rgba_of(orig)[j],
            forall|j: int| i <= j < n ==> pixels@[j] == orig[j],
        decreases n - i,
    {
        assert(i + 4 <= n) by (nonlinear_arith)
            requires
                i % 4 == 0,
                n % 4 == 0,
                i < n,
        ;
        let b = pixels[i];
        let r = pixels[i + 2];
        pixels.set(i, r);
        pixels.set(i + 2, b);
        proof {
            assert forall|j: int| 0 <= j < i + 4 implies pixels@[j] == rgba_of(orig)[j] by {
                if j >= i {
                    assert((j - i) % 4 == j % 4) by (nonlinear_arith)
                        requires
                            i % 4 == 0,
                            j >= i,
                    ;
                }
            }
        }
        i = i + 4;
    }
    assert(pixels@ =~= rgba_of(orig));
}

/// Whether a buffer holds four bytes for each pixel of a `width` by `height`
/// image.
pub open spec fn fits_size(len: nat, width: u32, height: u32) -> bool {
    len == width as int * height as int * 4
}

/// The icon that top-down BGRA pixels of the given size make: the pixels
/// in RGBA order, PNG-encoded, in base64; nothing when the buffer does not
/// fit the size or the encoder refuses it.
pub open spec fn icon_text(bgra: Seq<u8>, width: u32, height: u32) -> Option<Seq<char>> {
    if !fits_size(bgra.len(), width, height) {
        None
    } else {
        match png_of(rgba_of(bgra), width, height) {
            Some(png) => if png.len() < usize::MAX / 2 {
                Some(crate::collectors::base64_of(png))
            } else {
                None
            },
            None => None,
        }
    }
}

/// Encodes an extracted icon's pixels for display and caching.
pub fn icon_to_base64(bgra: Vec<u8>, width: u32, height: u32) -> (r: Option<String>)
    ensures
        crate::model::opt_text(r) == icon_text(bgra@, width, height),
{
    assert((width as u64) * (height as u64) <= u64::MAX) by (nonlinear_arith)
        requires
            width <= u32::MAX,
            height <= u32::MAX,
    ;
    let wh = (width as u64) * (height as u64);
    let len = bgra.len() as u64;
    if len % 4 != 0 || len / 4 != wh {
        proof {
            assert(!fits_size(bgra@.len(), width, height)) by (nonlinear_arith)
                requires
                    len == bgra@.len(),
                    wh == width as int * height as int,
                    len % 4 != 0 || len / 4 != wh,
            ;
        }
        return None;
    }
    assert(fits_size(bgra@.len(), width, height)) by (nonlinear_arith)
        requires
            len == bgra@.len(),
            wh == width as int * height as int,
            len % 4 == 0 && len / 4 == wh,
    ;
    let mut pixels = bgra;
    swap_red_blue(&mut pixels);
    match encode_png(&pixels, width, height) {
        Some(png) => if png.len() < usize::MAX / 2 {
            Some(crate::collectors::encode_base64(&png))
        } else {
            None
        },
        None => None,
    }
}

} // verus!
