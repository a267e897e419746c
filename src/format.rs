//! The closed set of image formats, with lookup by file extension and by
//! leading signature bytes.

use vstd::prelude::*;
use vstd::string::StringSliceAdditionalSpecFns;

verus! {

/// A container format that the library knows about.
#[derive(Clone, Copy, Debug, PartialEq, Eq, Hash, Structural)]
pub enum ImageFormat {
    Png,
    Jpeg,
    Gif,
    WebP,
    Pnm,
    Tiff,
    Tga,
    Dds,
    Bmp,
    Ico,
    Hdr,
    OpenExr,
    Farbfeld,
    Avif,
    Qoi,
}

/// Number of entries in the signature table.
pub const SIGNATURE_COUNT: usize = 23;

/// The signature table, most specific entries first. Entry `i` is the byte
/// string that a stream of format `signature_format(i)` starts with.
pub open spec fn signature(i: int) -> Seq<u8> {
    if i == 0 {
        seq![0x89u8, 0x50u8, 0x4eu8, 0x47u8, 0x0du8, 0x0au8, 0x1au8, 0x0au8]
    } else if i == 1 {
        seq![0xffu8, 0xd8u8, 0xffu8]
    } else if i == 2 {
        seq![0x47u8, 0x49u8, 0x46u8, 0x38u8, 0x39u8, 0x61u8]
    } else if i == 3 {
        seq![0x47u8, 0x49u8, 0x46u8, 0x38u8, 0x37u8, 0x61u8]
    } else if i == 4 {
        seq![0x52u8, 0x49u8, 0x46u8, 0x46u8]
    } else if i == 5 {
        seq![0x4du8, 0x4du8, 0x00u8, 0x2au8]
    } else if i == 6 {
        seq![0x49u8, 0x49u8, 0x2au8, 0x00u8]
    } else if i == 7 {
        seq![0x44u8, 0x44u8, 0x53u8, 0x20u8]
    } else if i == 8 {
        seq![0x42u8, 0x4du8]
    } else if i == 9 {
        seq![0x00u8, 0x00u8, 0x01u8, 0x00u8]
    } else if i == 10 {
        seq![0x23u8, 0x3fu8, 0x52u8, 0x41u8, 0x44u8, 0x49u8, 0x41u8, 0x4eu8, 0x43u8, 0x45u8]
    } else if i == 11 {
        seq![0x50u8, 0x31u8]
    } else if i == 12 {
        seq![0x50u8, 0x32u8]
    } else if i == 13 {
        seq![0x50u8, 0x33u8]
    } else if i == 14 {
        seq![0x50u8, 0x34u8]
    } else if i == 15 {
        seq![0x50u8, 0x35u8]
    } else if i == 16 {
        seq![0x50u8, 0x36u8]
    } else if i == 17 {
        seq![0x50u8, 0x37u8]
    } else if i == 18 {
        seq![0x66u8, 0x61u8, 0x72u8, 0x62u8, 0x66u8, 0x65u8, 0x6cu8, 0x64u8]
    } else if i == 19 {
        seq![0x00u8, 0x00u8, 0x00u8, 0x20u8, 0x66u8, 0x74u8, 0x79u8, 0x70u8, 0x61u8, 0x76u8, 0x69u8, 0x66u8]
    } else if i == 20 {
        seq![0x00u8, 0x00u8, 0x00u8, 0x1cu8, 0x66u8, 0x74u8, 0x79u8, 0x70u8, 0x61u8, 0x76u8, 0x69u8, 0x66u8]
    } else if i == 21 {
        seq![0x76u8, 0x2fu8, 0x31u8, 0x01u8]
    } else {
        seq![0x71u8, 0x6fu8, 0x69u8, 0x66u8]
    }
}

/// The format that signature entry `i` identifies.
pub open spec fn signature_format(i: int) -> ImageFormat {
    if i == 0 {
        ImageFormat::Png
    } else if i == 1 {
        ImageFormat::Jpeg
    } else if i <= 3 {
        ImageFormat::Gif
    } else if i == 4 {
        ImageFormat::WebP
    } else if i <= 6 {
        ImageFormat::Tiff
    } else if i == 7 {
        ImageFormat::Dds
    } else if i == 8 {
        ImageFormat::Bmp
    } else if i == 9 {
        ImageFormat::Ico
    } else if i == 10 {
        ImageFormat::Hdr
    } else if i <= 17 {
        ImageFormat::Pnm
    } else if i == 18 {
        ImageFormat::Farbfeld
    } else if i <= 20 {
        ImageFormat::Avif
    } else if i == 21 {
        ImageFormat::OpenExr
    } else {
        ImageFormat::Qoi
    }
}

/// `s` begins with the bytes of `prefix`.
pub open spec fn starts_with(s: Seq<u8>, prefix: Seq<u8>) -> bool {
    prefix.len() <= s.len() && forall|k: int| 0 <= k < prefix.len() ==> s[k] == prefix[k]
}

/// The format of the first signature, from entry `i` on, that `s` starts with.
pub open spec fn guess_from(s: Seq<u8>, i: int) -> Option<ImageFormat>
    decreases SIGNATURE_COUNT - i,
{
    if i < 0 || i >= SIGNATURE_COUNT {
        None
    } else if starts_with(s, signature(i)) {
        Some(signature_format(i))
    } else {
        guess_from(s, i + 1)
    }
}

/// The format that the leading bytes `s` identify, if any.
pub open spec fn guessed_format(s: Seq<u8>) -> Option<ImageFormat> {
    guess_from(s, 0)
}

/// Number of entries in the extension table.
pub const EXTENSION_COUNT: usize = 21;

/// The extension table, in lower case.
pub open spec fn extension(i: int) -> Seq<u8> {
    if i == 0 {
        seq![0x61u8, 0x76u8, 0x69u8, 0x66u8]
    } else if i == 1 {
        seq![0x6au8, 0x70u8, 0x67u8]
    } else if i == 2 {
        seq![0x6au8, 0x70u8, 0x65u8, 0x67u8]
    } else if i == 3 {
        seq![0x70u8, 0x6eu8, 0x67u8]
    } else if i == 4 {
        seq![0x67u8, 0x69u8, 0x66u8]
    } else if i == 5 {
        seq![0x77u8, 0x65u8, 0x62u8, 0x70u8]
    } else if i == 6 {
        seq![0x74u8, 0x69u8, 0x66u8]
    } else if i == 7 {
        seq![0x74u8, 0x69u8, 0x66u8, 0x66u8]
    } else if i == 8 {
        seq![0x74u8, 0x67u8, 0x61u8]
    } else if i == 9 {
        seq![0x64u8, 0x64u8, 0x73u8]
    } else if i == 10 {
        seq![0x62u8, 0x6du8, 0x70u8]
    } else if i == 11 {
        seq![0x69u8, 0x63u8, 0x6fu8]
    } else if i == 12 {
        seq![0x68u8, 0x64u8, 0x72u8]
    } else if i == 13 {
        seq![0x65u8, 0x78u8, 0x72u8]
    } else if i == 14 {
        seq![0x70u8, 0x62u8, 0x6du8]
    } else if i == 15 {
        seq![0x70u8, 0x61u8, 0x6du8]
    } else if i == 16 {
        seq![0x70u8, 0x70u8, 0x6du8]
    } else if i == 17 {
        seq![0x70u8, 0x67u8, 0x6du8]
    } else if i == 18 {
        seq![0x66u8, 0x66u8]
    } else if i == 19 {
        seq![0x66u8, 0x61u8, 0x72u8, 0x62u8, 0x66u8, 0x65u8, 0x6cu8, 0x64u8]
    } else {
        seq![0x71u8, 0x6fu8, 0x69u8]
    }
}

/// The format that extension entry `i` names.
pub open spec fn extension_format(i: int) -> ImageFormat {
    if i == 0 {
        ImageFormat::Avif
    } else if i <= 2 {
        ImageFormat::Jpeg
    } else if i == 3 {
        ImageFormat::Png
    } else if i == 4 {
        ImageFormat::Gif
    } else if i == 5 {
        ImageFormat::WebP
    } else if i <= 7 {
        ImageFormat::Tiff
    } else if i == 8 {
        ImageFormat::Tga
    } else if i == 9 {
        ImageFormat::Dds
    } else if i == 10 {
        ImageFormat::Bmp
    } else if i == 11 {
        ImageFormat::Ico
    } else if i == 12 {
        ImageFormat::Hdr
    } else if i == 13 {
        ImageFormat::OpenExr
    } else if i <= 17 {
        ImageFormat::Pnm
    } else if i <= 19 {
        ImageFormat::Farbfeld
    } else {
        ImageFormat::Qoi
    }
}

/// ASCII upper-case letters mapped to lower case; every other byte kept.
pub open spec fn ascii_lower(b: u8) -> u8 {
    if 0x41 <= b <= 0x5a {
        (b + 0x20) as u8
    } else {
        b
    }
}

/// `e` equals `lower` once its ASCII letters are put in lower case.
pub open spec fn equals_ignoring_case(e: Seq<u8>, lower: Seq<u8>) -> bool {
    e.len() == lower.len() && forall|k: int| 0 <= k < e.len() ==> ascii_lower(e[k]) == lower[k]
}

/// The format named, from entry `i` on, by the extension `e`.
pub open spec fn format_of_extension_from(e: Seq<u8>, i: int) -> Option<ImageFormat>
    decreases EXTENSION_COUNT - i,
{
    if i < 0 || i >= EXTENSION_COUNT {
        None
    } else if equals_ignoring_case(e, extension(i)) {
        Some(extension_format(i))
    } else {
        format_of_extension_from(e, i + 1)
    }
}

/// The format named by the extension `e`, in any case.
pub open spec fn format_of_extension(e: Seq<u8>) -> Option<ImageFormat> {
    format_of_extension_from(e, 0)
}

/// The largest index below `n` that holds `b`, or -1.
pub open spec fn last_index_of(p: Seq<u8>, b: u8, n: int) -> int
    decreases n,
{
    if n <= 0 {
        -1
    } else if p[n - 1] == b {
        n - 1
    } else {
        last_index_of(p, b, n - 1)
    }
}

/// The extension of the path `p`: what follows the last `.` of its last
/// component, where that `.` is not the component's first byte.
pub open spec fn path_extension(p: Seq<u8>) -> Option<Seq<u8>> {
    let name_start = last_index_of(p, 0x2fu8, p.len() as int) + 1;
    let dot = last_index_of(p, 0x2eu8, p.len() as int);
    if dot > name_start {
        Some(p.subrange(dot + 1, p.len() as int))
    } else {
        None
    }
}

/// The format that the path `p` names by its extension.
pub open spec fn format_of_path(p: Seq<u8>) -> Option<ImageFormat> {
    match path_extension(p) {
        Some(e) => format_of_extension(e),
        None => None,
    }
}

/// The bytes of signature entry `i`.
fn signature_bytes(i: usize) -> (r: Vec<u8>)
    requires
        i < SIGNATURE_COUNT,
    ensures
        r@ == signature(i as int),
{
    match i {
        0 => vec![0x89u8, 0x50u8, 0x4eu8, 0x47u8, 0x0du8, 0x0au8, 0x1au8, 0x0au8],
        1 => vec![0xffu8, 0xd8u8, 0xffu8],
        2 => vec![0x47u8, 0x49u8, 0x46u8, 0x38u8, 0x39u8, 0x61u8],
        3 => vec![0x47u8, 0x49u8, 0x46u8, 0x38u8, 0x37u8, 0x61u8],
        4 => vec![0x52u8, 0x49u8, 0x46u8, 0x46u8],
        5 => vec![0x4du8, 0x4du8, 0x00u8, 0x2au8],
        6 => vec![0x49u8, 0x49u8, 0x2au8, 0x00u8],
        7 => vec![0x44u8, 0x44u8, 0x53u8, 0x20u8],
        8 => vec![0x42u8, 0x4du8],
        9 => vec![0x00u8, 0x00u8, 0x01u8, 0x00u8],
        10 => vec![0x23u8, 0x3fu8, 0x52u8, 0x41u8, 0x44u8, 0x49u8, 0x41u8, 0x4eu8, 0x43u8, 0x45u8],
        11 => vec![0x50u8, 0x31u8],
        12 => vec![0x50u8, 0x32u8],
        13 => vec![0x50u8, 0x33u8],
        14 => vec![0x50u8, 0x34u8],
        15 => vec![0x50u8, 0x35u8],
        16 => vec![0x50u8, 0x36u8],
        17 => vec![0x50u8, 0x37u8],
        18 => vec![0x66u8, 0x61u8, 0x72u8, 0x62u8, 0x66u8, 0x65u8, 0x6cu8, 0x64u8],
        19 => vec![0x00u8, 0x00u8, 0x00u8, 0x20u8, 0x66u8, 0x74u8, 0x79u8, 0x70u8, 0x61u8, 0x76u8, 0x69u8, 0x66u8],
        20 => vec![0x00u8, 0x00u8, 0x00u8, 0x1cu8, 0x66u8, 0x74u8, 0x79u8, 0x70u8, 0x61u8, 0x76u8, 0x69u8, 0x66u8],
        21 => vec![0x76u8, 0x2fu8, 0x31u8, 0x01u8],
        _ => vec![0x71u8, 0x6fu8, 0x69u8, 0x66u8],
    }
}

/// The bytes of extension entry `i`.
fn extension_bytes(i: usize) -> (r: Vec<u8>)
    requires
        i < EXTENSION_COUNT,
    ensures
        r@ == extension(i as int),
{
    match i {
        0 => vec![0x61u8, 0x76u8, 0x69u8, 0x66u8],
        1 => vec![0x6au8, 0x70u8, 0x67u8],
        2 => vec![0x6au8, 0x70u8, 0x65u8, 0x67u8],
        3 => vec![0x70u8, 0x6eu8, 0x67u8],
        4 => vec![0x67u8, 0x69u8, 0x66u8],
        5 => vec![0x77u8, 0x65u8, 0x62u8, 0x70u8],
        6 => vec![0x74u8, 0x69u8, 0x66u8],
        7 => vec![0x74u8, 0x69u8, 0x66u8, 0x66u8],
        8 => vec![0x74u8, 0x67u8, 0x61u8],
        9 => vec![0x64u8, 0x64u8, 0x73u8],
        10 => vec![0x62u8, 0x6du8, 0x70u8],
        11 => vec![0x69u8, 0x63u8, 0x6fu8],
        12 => vec![0x68u8, 0x64u8, 0x72u8],
        13 => vec![0x65u8, 0x78u8, 0x72u8],
        14 => vec![0x70u8, 0x62u8, 0x6du8],
        15 => vec![0x70u8, 0x61u8, 0x6du8],
        16 => vec![0x70u8, 0x70u8, 0x6du8],
        17 => vec![0x70u8, 0x67u8, 0x6du8],
        18 => vec![0x66u8, 0x66u8],
        19 => vec![0x66u8, 0x61u8, 0x72u8, 0x62u8, 0x66u8, 0x65u8, 0x6cu8, 0x64u8],
        _ => vec![0x71u8, 0x6fu8, 0x69u8],
    }
}

/// The format of signature entry `i`.
fn signature_format_of(i: usize) -> (r: ImageFormat)
    requires
        i < SIGNATURE_COUNT,
    ensures
        r == signature_format(i as int),
{
    if i == 0 {
        ImageFormat::Png
    } else if i == 1 {
        ImageFormat::Jpeg
    } else if i <= 3 {
        ImageFormat::Gif
    } else if i == 4 {
        ImageFormat::WebP
    } else if i <= 6 {
        ImageFormat::Tiff
    } else if i == 7 {
        ImageFormat::Dds
    } else if i == 8 {
        ImageFormat::Bmp
    } else if i == 9 {
        ImageFormat::Ico
    } else if i == 10 {
        ImageFormat::Hdr
    } else if i <= 17 {
        ImageFormat::Pnm
    } else if i == 18 {
        ImageFormat::Farbfeld
    } else if i <= 20 {
        ImageFormat::Avif
    } else if i == 21 {
        ImageFormat::OpenExr
    } else {
        ImageFormat::Qoi
    }
}

/// The format of extension entry `i`.
fn extension_format_of(i: usize) -> (r: ImageFormat)
    requires
        i < EXTENSION_COUNT,
    ensures
        r == extension_format(i as int),
{
    if i == 0 {
        ImageFormat::Avif
    } else if i <= 2 {
        ImageFormat::Jpeg
    } else if i == 3 {
        ImageFormat::Png
    } else if i == 4 {
        ImageFormat::Gif
    } else if i == 5 {
        ImageFormat::WebP
    } else if i <= 7 {
        ImageFormat::Tiff
    } else if i == 8 {
        ImageFormat::Tga
    } else if i == 9 {
        ImageFormat::Dds
    } else if i == 10 {
        ImageFormat::Bmp
    } else if i == 11 {
        ImageFormat::Ico
    } else if i == 12 {
        ImageFormat::Hdr
    } else if i == 13 {
        ImageFormat::OpenExr
    } else if i <= 17 {
        ImageFormat::Pnm
    } else if i <= 19 {
        ImageFormat::Farbfeld
    } else {
        ImageFormat::Qoi
    }
}

/// Whether `s` begins with the bytes of `prefix`.
fn has_prefix(s: &[u8], prefix: &Vec<u8>) -> (r: bool)
    ensures
        r == starts_with(s@, prefix@),
{
    if prefix.len() > s.len() {
        return false;
    }
    let mut k: usize = 0;
    while k < prefix.len()
        invariant
            prefix@.len() <= s@.len(),
            k <= prefix@.len(),
            forall|j: int| 0 <= j < k ==> s@[j] == prefix@[j],
        decreases prefix@.len() - k,
    {
        if s[k] != prefix[k] {
            return false;
        }
        k = k + 1;
    }
    true
}

/// Guesses the format from the first bytes of a stream by its signature.
/// Returns `None` where no signature matches in full.
pub fn guess_format_from_bytes(prefix: &[u8]) -> (r: Option<ImageFormat>)
    ensures
        r == guessed_format(prefix@),
{
    let mut i: usize = 0;
    while i < SIGNATURE_COUNT
        invariant
            i <= SIGNATURE_COUNT,
            guess_from(prefix@, 0) == guess_from(prefix@, i as int),
        decreases SIGNATURE_COUNT - i,
    {
        let sig = signature_bytes(i);
        if has_prefix(prefix, &sig) {
            return Some(signature_format_of(i));
        }
        i = i + 1;
    }
    None
}

/// ASCII upper-case letters mapped to lower case.
fn lower_byte(b: u8) -> (r: u8)
    ensures
        r == ascii_lower(b),
{
    if 0x41 <= b && b <= 0x5a {
        b + 0x20
    } else {
        b
    }
}

/// One past the last index of `p` that holds `b`; 0 where none does.
fn position_after_last(p: &[u8], b: u8) -> (r: usize)
    ensures
        r as int == last_index_of(p@, b, p@.len() as int) + 1,
        r <= p@.len(),
{
    let mut n: usize = p.len();
    while n > 0 && p[n - 1] != b
        invariant
            n <= p@.len(),
            last_index_of(p@, b, p@.len() as int) == last_index_of(p@, b, n as int),
        decreases n,
    {
        n = n - 1;
    }
    n
}

/// Whether the bytes of `p` from `start` on spell `lower` in any case.
fn tail_equals_ignoring_case(p: &[u8], start: usize, lower: &Vec<u8>) -> (r: bool)
    requires
        start <= p@.len(),
    ensures
        r == equals_ignoring_case(p@.subrange(start as int, p@.len() as int), lower@),
{
    let ghost e = p@.subrange(start as int, p@.len() as int);
    if p.len() - start != lower.len() {
        return false;
    }
    let n = p.len();
    let mut k: usize = 0;
    while k < lower.len()
        invariant
            n == p@.len(),
            e == p@.subrange(start as int, p@.len() as int),
            e.len() == lower@.len(),
            start + lower@.len() == p@.len(),
            k <= lower@.len(),
            forall|j: int| 0 <= j < k ==> ascii_lower(e[j]) == lower@[j],
        decreases lower@.len() - k,
    {
        assert(start + k < p@.len());
        if lower_byte(p[start + k]) != lower[k] {
            return false;
        }
        k = k + 1;
    }
    true
}

/// The format that `path` names by its extension, compared without regard
/// to ASCII case. `None` where the path has no extension or an unknown one.
pub fn format_from_path(path: &str) -> (r: Option<ImageFormat>)
    ensures
        r == format_of_path(path.spec_bytes()),
{
    let p = path.as_bytes();
    assert(p@ == path.spec_bytes());
    let name_start = position_after_last(p, 0x2f);
    let after_dot = position_after_last(p, 0x2e);
    if after_dot == 0 || after_dot - 1 <= name_start {
        return None;
    }
    let mut i: usize = 0;
    while i < EXTENSION_COUNT
        invariant
            i <= EXTENSION_COUNT,
            after_dot <= p@.len(),
            p@ == path.spec_bytes(),
            path_extension(p@) == Some(p@.subrange(after_dot as int, p@.len() as int)),
            format_of_extension(p@.subrange(after_dot as int, p@.len() as int))
                == format_of_extension_from(p@.subrange(after_dot as int, p@.len() as int), i as int),
        decreases EXTENSION_COUNT - i,
    {
        let ext = extension_bytes(i);
        if tail_equals_ignoring_case(p, after_dot, &ext) {
            return Some(extension_format_of(i));
        }
        i = i + 1;
    }
    None
}

/// Every signature is at least two bytes long.
pub proof fn lemma_signature_length(i: int)
    requires
        0 <= i < SIGNATURE_COUNT,
    ensures
        signature(i).len() >= 2,
{
}

proof fn lemma_short_unrecognized_from(s: Seq<u8>, j: int)
    requires
        s.len() < 2,
        0 <= j,
    ensures
        guess_from(s, j) == None::<ImageFormat>,
    decreases SIGNATURE_COUNT - j,
{
    if j < SIGNATURE_COUNT {
        lemma_signature_length(j);
        lemma_short_unrecognized_from(s, j + 1);
    }
}

/// A prefix shorter than every signature (under two bytes) is never
/// recognised as any format.
pub proof fn lemma_short_prefix_unrecognized(s: Seq<u8>)
    requires
        s.len() < 2,
    ensures
        guessed_format(s) == None::<ImageFormat>,
{
    lemma_short_unrecognized_from(s, 0);
}

proof fn lemma_signature_reached_from(s: Seq<u8>, j: int, i: int)
    requires
        0 <= j <= i < SIGNATURE_COUNT,
        starts_with(s, signature(i)),
    ensures
        guess_from(s, j) == Some(signature_format(i)),
    decreases i - j,
{
    if j < i {
        if starts_with(s, signature(j)) {
            assert(s[0] == signature(i)[0] && s[0] == signature(j)[0]);
            assert(s[1] == signature(i)[1] && s[1] == signature(j)[1]);
            if signature(i).len() > 2 && signature(j).len() > 2 {
                assert(s[2] == signature(i)[2] && s[2] == signature(j)[2]);
            }
            if signature(i).len() > 3 && signature(j).len() > 3 {
                assert(s[3] == signature(i)[3] && s[3] == signature(j)[3]);
            }
            if signature(i).len() > 4 && signature(j).len() > 4 {
                assert(s[4] == signature(i)[4] && s[4] == signature(j)[4]);
            }
            assert(signature_format(j) == signature_format(i));
        } else {
            lemma_signature_reached_from(s, j + 1, i);
        }
    }
}

/// A stream that starts with a registered signature is identified as the
/// format of that signature, whatever follows it: no earlier entry of the
/// table claims it for another format.
pub proof fn lemma_signature_identifies_format(s: Seq<u8>, i: int)
    requires
        0 <= i < SIGNATURE_COUNT,
        starts_with(s, signature(i)),
    ensures
        guessed_format(s) == Some(signature_format(i)),
{
    lemma_signature_reached_from(s, 0, i);
}

proof fn lemma_last_index_skip(p: Seq<u8>, b: u8, lo: int, n: int)
    requires
        0 <= lo <= n <= p.len(),
        forall|k: int| lo <= k < n ==> p[k] != b,
    ensures
        last_index_of(p, b, n) == last_index_of(p, b, lo),
    decreases n,
{
    if n > lo {
        lemma_last_index_skip(p, b, lo, n - 1);
    }
}

proof fn lemma_last_index_below(p: Seq<u8>, b: u8, n: int)
    requires
        n >= 0,
    ensures
        last_index_of(p, b, n) < n,
    decreases n,
{
    if n > 0 {
        lemma_last_index_below(p, b, n - 1);
    }
}

proof fn lemma_extension_reached_from(e: Seq<u8>, j: int, i: int)
    requires
        0 <= j <= i < EXTENSION_COUNT,
        equals_ignoring_case(e, extension(i)),
    ensures
        format_of_extension_from(e, j) == Some(extension_format(i)),
    decreases i - j,
{
    if j < i {
        if equals_ignoring_case(e, extension(j)) {
            assert(extension(j) =~= extension(i)) by {
                assert forall|k: int| 0 <= k < e.len() implies extension(j)[k] == extension(i)[k] by {
                    assert(ascii_lower(e[k]) == extension(i)[k]);
                }
            }
            assert(false);
        } else {
            lemma_extension_reached_from(e, j + 1, i);
        }
    }
}

/// A path whose last component is a non-empty stem, a `.` and a registered
/// extension in any mix of ASCII case names that extension's format.
pub proof fn lemma_extension_identifies_format(stem: Seq<u8>, e: Seq<u8>, i: int)
    requires
        0 <= i < EXTENSION_COUNT,
        equals_ignoring_case(e, extension(i)),
        stem.len() > 0,
        stem.last() != 0x2fu8,
    ensures
        format_of_path(stem + seq![0x2eu8] + e) == Some(extension_format(i)),
{
    let p = stem + seq![0x2eu8] + e;
    let d = stem.len() as int;
    assert forall|k: int| d + 1 <= k < p.len() implies p[k] != 0x2eu8 && p[k] != 0x2fu8 by {
        assert(p[k] == e[k - d - 1]);
        assert(ascii_lower(e[k - d - 1]) == extension(i)[k - d - 1]);
    }
    lemma_last_index_skip(p, 0x2eu8, d + 1, p.len() as int);
    lemma_last_index_skip(p, 0x2fu8, d - 1, p.len() as int);
    lemma_last_index_below(p, 0x2fu8, d - 1);
    assert(p.subrange(d + 1, p.len() as int) =~= e);
    lemma_extension_reached_from(e, 0, i);
}

} // verus!
