//! Rules of image resolution and decoding that need no file access: which
//! destinations are remote, where a fetched file is cached, when a
//! thumbnail is worth keeping.

use vstd::prelude::*;
use crate::text::{
    alphanumeric, append, chars_of, decimal, format_number, has_prefix, last_index_before,
    match_at, rfind_char, slice, string_of,
};

verus! {

/// The longest side of a thumbnail, in pixels.
pub const THUMBNAIL_SIZE: u32 = 800;

/// The width that vector images are rasterized at, in pixels.
pub const VECTOR_WIDTH: u32 = 800;

/// Whether the destination is fetched over the network.
pub open spec fn is_remote(url: Seq<char>) -> bool {
    has_prefix(url, "http://"@) || has_prefix(url, "https://"@)
}

/// Whether the destination is fetched over the network; else it names a
/// file, relative to the document's directory unless it is absolute.
pub fn is_remote_url(url: &str) -> (b: bool)
    ensures
        b == is_remote(url@),
{
    let c = chars_of(url);
    match_at(&c, &chars_of("http://"), 0) || match_at(&c, &chars_of("https://"), 0)
}

/// Whether every character is a letter or a digit.
pub open spec fn all_alphanumeric(s: Seq<char>) -> bool {
    forall|i: int| 0 <= i < s.len() ==> alphanumeric(#[trigger] s[i])
}

/// The part of the destination after its last dot; all of it without a dot.
pub open spec fn after_last_dot(url: Seq<char>) -> Seq<char> {
    url.subrange(last_index_before(url, '.', url.len() as int) + 1, url.len() as int)
}

/// The extension that the cached file of a destination gets: what follows
/// the last dot where that is at most four letters or digits, else `png`.
pub open spec fn cache_extension(url: Seq<char>) -> Seq<char> {
    let ext = after_last_dot(url);
    if ext.len() <= 4 && all_alphanumeric(ext) {
        ext
    } else {
        "png"@
    }
}

/// The letters and digits of the destination before `j`, last first, at
/// most `left` of them.
pub open spec fn cache_key_from(url: Seq<char>, j: int, left: nat) -> Seq<char>
    decreases j,
{
    if j <= 0 || j > url.len() || left == 0 {
        Seq::empty()
    } else if alphanumeric(url[j - 1]) {
        seq![url[j - 1]] + cache_key_from(url, j - 1, (left - 1) as nat)
    } else {
        cache_key_from(url, j - 1, left)
    }
}

/// The name of the file that a remote destination is cached in: its last
/// fifty letters and digits in reverse, a dot, and the extension.
pub open spec fn cache_name(url: Seq<char>) -> Seq<char> {
    cache_key_from(url, url.len() as int, 50) + seq!['.'] + cache_extension(url)
}

fn only_alphanumeric(s: &Vec<char>) -> (b: bool)
    ensures
        b == all_alphanumeric(s@),
{
    let mut i: usize = 0;
    while i < s.len()
        invariant
            i <= s.len(),
            forall|k: int| 0 <= k < i ==> alphanumeric(#[trigger] s@[k]),
        decreases s.len() - i,
    {
        if !s[i].is_alphanumeric() {
            return false;
        }
        i += 1;
    }
    true
}

/// The name of the cache file for a remote image.
pub fn cache_file_name(url: &str) -> (name: String)
    ensures
        name@ == cache_name(url@),
{
    let c = chars_of(url);
    let ext = match rfind_char(&c, '.', c.len()) {
        Some(k) => slice(&c, k + 1, c.len()),
        None => slice(&c, 0, c.len()),
    };
    let ext = if ext.len() <= 4 && only_alphanumeric(&ext) {
        ext
    } else {
        chars_of("png")
    };
    let mut key: Vec<char> = Vec::new();
    let mut j = c.len();
    let mut left: usize = 50;
    while j > 0 && left > 0
        invariant
            j <= c.len(),
            key@ + cache_key_from(c@, j as int, left as nat) == cache_key_from(
                c@,
                c@.len() as int,
                50,
            ),
        decreases j,
    {
        let ch = c[j - 1];
        if ch.is_alphanumeric() {
            assert(key@.push(ch) + cache_key_from(c@, j - 1, (left - 1) as nat) =~= key@
                + cache_key_from(c@, j as int, left as nat));
            key.push(ch);
            left -= 1;
        }
        j -= 1;
    }
    assert(key@ + Seq::<char>::empty() =~= key@);
    key.push('.');
    append(&mut key, &ext);
    assert(key@ =~= cache_name(url@));
    string_of(&key)
}

/// Whether a fetched or cached file counts: it is there and not empty.
pub fn is_usable_file(exists: bool, length: u64) -> (b: bool)
    ensures
        b == (exists && length > 0),
{
    exists && length > 0
}

/// Whether a fetch succeeded: the fetcher reported success and left a file
/// that counts.
pub fn fetch_succeeded(exit_ok: bool, exists: bool, length: u64) -> (b: bool)
    ensures
        b == (exit_ok && exists && length > 0),
{
    exit_ok && is_usable_file(exists, length)
}

/// Whether a decoded image gets a thumbnail beside it: one of more than
/// 640,000 pixels.
pub fn needs_thumbnail(width: u32, height: u32) -> (b: bool)
    ensures
        b == (width * height > 640_000),
{
    assert(width * height <= 0xffff_ffff * 0xffff_ffff) by (nonlinear_arith)
        requires
            width <= 0xffff_ffff,
            height <= 0xffff_ffff,
    ;
    width as u64 * height as u64 > 640_000
}

/// The name of the thumbnail for an image whose file name has the stem
/// `stem`; `img` stands in for a missing stem.
pub fn thumbnail_name(stem: Option<&str>) -> (name: String)
    ensures
        name@ == (match stem {
            Some(s) => s@,
            None => "img"@,
        }) + ".thumb.png"@,
{
    let mut n = match stem {
        Some(s) => chars_of(s),
        None => chars_of("img"),
    };
    append(&mut n, &chars_of(".thumb.png"));
    string_of(&n)
}

/// `c` in lower case, for the letters A to Z.
pub open spec fn ascii_lower(c: char) -> char {
    if 'A' <= c && c <= 'Z' {
        ((c as u8) + 32u8) as char
    } else {
        c
    }
}

/// Whether the file extension names a vector image, whatever its case.
pub open spec fn is_vector(ext: Seq<char>) -> bool {
    let l = Seq::new(ext.len(), |i: int| ascii_lower(ext[i]));
    l == seq!['s', 'v', 'g'] || l == seq!['s', 'v', 'g', 'z']
}

/// Whether the file extension names a vector image, which is rasterized
/// rather than decoded.
pub fn is_vector_extension(ext: &str) -> (b: bool)
    ensures
        b == is_vector(ext@),
{
    let c = chars_of(ext);
    let mut l: Vec<char> = Vec::new();
    let mut i: usize = 0;
    while i < c.len()
        invariant
            i <= c.len(),
            l@ == Seq::new(i as nat, |k: int| ascii_lower(c@[k])),
        decreases c.len() - i,
    {
        let ch = c[i];
        let low = if 'A' <= ch && ch <= 'Z' {
            ((ch as u8) + 32u8) as char
        } else {
            ch
        };
        l.push(low);
        i += 1;
        assert(l@ =~= Seq::new(i as nat, |k: int| ascii_lower(c@[k])));
    }
    let mut svg: Vec<char> = Vec::new();
    svg.push('s');
    svg.push('v');
    svg.push('g');
    assert(svg@ =~= seq!['s', 'v', 'g']);
    if crate::text::same_text(&l, &svg) {
        return true;
    }
    svg.push('z');
    assert(svg@ =~= seq!['s', 'v', 'g', 'z']);
    crate::text::same_text(&l, &svg)
}

/// Whether the bytes start like a PNG file.
pub open spec fn is_png_data(bytes: Seq<u8>) -> bool {
    bytes.len() >= 4 && bytes[0] == 0x89 && bytes[1] == 0x50 && bytes[2] == 0x4e && bytes[3]
        == 0x47
}

/// Whether image data from the clipboard is a PNG file already, so that it
/// can be written as it is.
pub fn is_png(bytes: &[u8]) -> (b: bool)
    ensures
        b == is_png_data(bytes@),
{
    bytes.len() >= 4 && bytes[0] == 0x89 && bytes[1] == 0x50 && bytes[2] == 0x4e && bytes[3]
        == 0x47
}

/// The names under which a pasted image is kept.
pub struct PastedImage {
    /// The name of the file.
    pub filename: String,
    /// The destination of the image, relative to the document.
    pub url: String,
    /// The markdown that goes into the document.
    pub markdown: String,
}

/// The file name of an image pasted at `secs` seconds of the clock.
pub open spec fn screenshot_name(secs: nat) -> Seq<char> {
    "screenshot-"@ + decimal(secs) + ".png"@
}

/// Names a pasted image after the time of the paste.
pub fn pasted_image(secs: u64) -> (r: PastedImage)
    ensures
        r.filename@ == screenshot_name(secs as nat),
        r.url@ == ".marko/images/"@ + screenshot_name(secs as nat),
        r.markdown@ == "![screenshot]("@ + r.url@ + ")\n"@,
{
    let mut name = chars_of("screenshot-");
    append(&mut name, &format_number(secs as u128));
    append(&mut name, &chars_of(".png"));
    let mut url = chars_of(".marko/images/");
    append(&mut url, &name);
    let mut markdown = chars_of("![screenshot](");
    append(&mut markdown, &url);
    append(&mut markdown, &chars_of(")\n"));
    PastedImage {
        filename: string_of(&name),
        url: string_of(&url),
        markdown: string_of(&markdown),
    }
}

/// Whether the file extension names a word-processor document, whatever
/// its case.
pub fn is_docx_extension(ext: &str) -> (b: bool)
    ensures
        b == (Seq::new(ext@.len(), |i: int| ascii_lower(ext@[i])) == seq!['d', 'o', 'c', 'x']),
{
    let c = chars_of(ext);
    if c.len() != 4 {
        assert(Seq::new(ext@.len(), |i: int| ascii_lower(ext@[i])).len() != 4);
        return false;
    }
    let low = |ch: char| -> (r: char)
        ensures
            r == ascii_lower(ch),
        {
            if 'A' <= ch && ch <= 'Z' {
                ((ch as u8) + 32u8) as char
            } else {
                ch
            }
        };
    let b = low(c[0]) == 'd' && low(c[1]) == 'o' && low(c[2]) == 'c' && low(c[3]) == 'x';
    proof {
        let l = Seq::new(ext@.len(), |i: int| ascii_lower(ext@[i]));
        if b {
            assert(l =~= seq!['d', 'o', 'c', 'x']);
        } else {
            assert(l[0] == ascii_lower(c@[0]));
            assert(l[1] == ascii_lower(c@[1]));
            assert(l[2] == ascii_lower(c@[2]));
            assert(l[3] == ascii_lower(c@[3]));
        }
    }
    b
}

} // verus!
