//! The target format of a transform run: the encoding, a quality for the
//! lossy encoders and a speed for the slowest one.
//!
//! Quality and speed come from user input; a string that does not parse
//! as a number falls back to the default, and a number that parses is
//! accepted verbatim, without clamping.

use vstd::prelude::*;
use crate::error::TransformationError;
use crate::raster::Raster;
use crate::text::{str_eq, set_extension, with_extension};

verus! {

/// A target encoding.
#[derive(Debug, Clone, Copy, PartialEq, Eq, Structural)]
pub enum ImageKind {
    Png,
    Jpeg,
    WebP,
    Avif,
    Tiff,
}

/// The file extension written for each target encoding.
pub open spec fn extension_of_kind(k: ImageKind) -> Seq<char> {
    match k {
        ImageKind::Png => seq!['p', 'n', 'g'],
        ImageKind::Jpeg => seq!['j', 'p', 'g'],
        ImageKind::WebP => seq!['w', 'e', 'b', 'p'],
        ImageKind::Avif => seq!['a', 'v', 'i', 'f'],
        ImageKind::Tiff => seq!['t', 'i', 'f', 'f'],
    }
}

/// The file extension written for each target encoding.
pub fn extension_str_of_kind(k: &ImageKind) -> (r: &'static str)
    ensures
        r@ == extension_of_kind(*k),
{
    let r: &'static str = match k {
        ImageKind::Png => "png",
        ImageKind::Jpeg => "jpg",
        ImageKind::WebP => "webp",
        ImageKind::Avif => "avif",
        ImageKind::Tiff => "tiff",
    };
    proof {
        reveal_strlit("png");
        reveal_strlit("jpg");
        reveal_strlit("webp");
        reveal_strlit("avif");
        reveal_strlit("tiff");
        assert(r@ =~= extension_of_kind(*k));
    }
    r
}

/// The encoding a user's choice string selects; anything unknown means
/// "unchanged", which skips encoding altogether.
pub open spec fn image_kind_of(s: Seq<char>) -> Option<ImageKind> {
    if s == "png"@ {
        Some(ImageKind::Png)
    } else if s == "jpg"@ {
        Some(ImageKind::Jpeg)
    } else if s == "webp"@ {
        Some(ImageKind::WebP)
    } else if s == "avif"@ {
        Some(ImageKind::Avif)
    } else if s == "tiff"@ {
        Some(ImageKind::Tiff)
    } else {
        None
    }
}

/// Is `c` a decimal digit?
pub open spec fn is_digit(c: char) -> bool {
    '0' <= c && c <= '9'
}

/// The numeric value of a digit character.
pub open spec fn digit_value(c: char) -> int {
    c as int - '0' as int
}

/// The number a digit string denotes, most significant digit first.
pub open spec fn digits_value(s: Seq<char>) -> int
    decreases s.len(),
{
    if s.len() == 0 {
        0
    } else {
        digits_value(s.drop_last()) * 10 + digit_value(s.last())
    }
}

/// The number a string of digits denotes, when it is one that fits in
/// eight bits.
pub open spec fn parse_digits_spec(t: Seq<char>) -> Option<u8> {
    if t.len() > 0 && (forall|i: int| 0 <= i < t.len() ==> is_digit(#[trigger] t[i]))
        && digits_value(t) <= 255 {
        Some(digits_value(t) as u8)
    } else {
        None
    }
}

/// How `str::parse::<u8>` reads a string: an optional leading plus sign,
/// then at least one digit, denoting a value that fits in eight bits.
pub open spec fn parse_u8_spec(s: Seq<char>) -> Option<u8> {
    if s.len() > 0 && s[0] == '+' {
        parse_digits_spec(s.skip(1))
    } else {
        parse_digits_spec(s)
    }
}

proof fn lemma_digits_value_nonneg(s: Seq<char>)
    requires
        forall|i: int| 0 <= i < s.len() ==> is_digit(#[trigger] s[i]),
    ensures
        digits_value(s) >= 0,
    decreases s.len(),
{
    if s.len() > 0 {
        assert(forall|i: int| 0 <= i < s.drop_last().len() ==> is_digit(#[trigger] s.drop_last()[i]));
        lemma_digits_value_nonneg(s.drop_last());
    }
}

proof fn lemma_digits_value_prefix(s: Seq<char>, i: int)
    requires
        0 <= i <= s.len(),
        forall|j: int| 0 <= j < s.len() ==> is_digit(#[trigger] s[j]),
    ensures
        digits_value(s) >= digits_value(s.take(i)),
    decreases s.len() - i,
{
    if i < s.len() {
        lemma_digits_value_prefix(s, i + 1);
        assert(s.take(i + 1).drop_last() =~= s.take(i));
        assert(forall|j: int| 0 <= j < s.take(i).len() ==> is_digit(#[trigger] s.take(i)[j]));
        lemma_digits_value_nonneg(s.take(i));
        assert(digits_value(s.take(i + 1)) == digits_value(s.take(i)) * 10 + digit_value(s[i]));
    } else {
        assert(s.take(i) =~= s);
    }
}

/// Read a decimal number that fits in eight bits, as `str::parse::<u8>`
/// does: nothing else is accepted.
pub fn parse_u8(s: &str) -> (r: Option<u8>)
    ensures
        r == parse_u8_spec(s@),
{
    let len = s.unicode_len();
    let start: usize = if len > 0 && s.get_char(0) == '+' {
        1
    } else {
        0
    };
    let ghost t = if s@.len() > 0 && s@[0] == '+' {
        s@.skip(1)
    } else {
        s@
    };
    proof {
        assert(t =~= s@.skip(start as int));
    }
    if len == start {
        return None;
    }
    let mut acc: u32 = 0;
    let mut i: usize = start;
    while i < len
        invariant
            len == s@.len(),
            start <= i <= len,
            start < len,
            start == (if s@.len() > 0 && s@[0] == '+' {
                1int
            } else {
                0int
            }),
            t == s@.skip(start as int),
            t == (if s@.len() > 0 && s@[0] == '+' {
                s@.skip(1)
            } else {
                s@
            }),
            forall|j: int| 0 <= j < i - start ==> is_digit(#[trigger] t[j]),
            acc <= 255,
            acc == digits_value(t.take(i - start)),
        decreases len - i,
    {
        let c = s.get_char(i);
        proof {
            assert(t[i - start] == s@[i as int]);
        }
        if c < '0' || c > '9' {
            proof {
                assert(!is_digit(t[i - start]));
                assert(parse_digits_spec(t) is None);
            }
            return None;
        }
        let d: u32 = (c as u32) - 48;
        proof {
            assert(t.take(i + 1 - start).drop_last() =~= t.take(i - start));
            assert(t.take(i + 1 - start).last() == t[i - start]);
        }
        let next: u32 = acc * 10 + d;
        if next > 255 {
            proof {
                assert(digits_value(t.take(i + 1 - start)) > 255);
                if parse_digits_spec(t) is Some {
                    assert(forall|j: int| 0 <= j < t.len() ==> is_digit(#[trigger] t[j]));
                    assert(digits_value(t) <= 255);
                    lemma_digits_value_prefix(t, i + 1 - start);
                    assert(false);
                }
                assert(parse_digits_spec(t) is None);
            }
            return None;
        }
        acc = next;
        i = i + 1;
    }
    proof {
        assert(t.take(len - start) =~= t);
    }
    Some(acc as u8)
}

/// The quality handed to a lossy encoder, 0 to 100 by intent; user input
/// that does not parse falls back to 75, and out-of-range numbers are
/// kept verbatim.
#[derive(Debug, Clone, Copy, PartialEq, Eq, Structural)]
pub struct Quality {
    pub value: u8,
}

impl Quality {
    /// The default quality.
    pub fn new() -> (r: Self)
        ensures
            r.value == 75,
    {
        Quality { value: 75 }
    }
}

impl Default for Quality {
    fn default() -> (r: Self)
        ensures
            r.value == 75,
    {
        Quality { value: 75 }
    }
}

impl From<String> for Quality {
    fn from(value: String) -> (r: Self) {
        let parsed = parse_u8(value.as_str());
        match parsed {
            Some(v) => Quality { value: v },
            None => Quality { value: 75 },
        }
    }
}

impl vstd::std_specs::convert::FromSpecImpl<String> for Quality {
    open spec fn obeys_from_spec() -> bool {
        true
    }

    open spec fn from_spec(value: String) -> Self {
        match parse_u8_spec(value@) {
            Some(v) => Quality { value: v },
            None => Quality { value: 75 },
        }
    }
}

/// The effort handed to the slowest encoder, 1 to 10; user input that
/// does not parse falls back to 7, and out-of-range numbers are kept
/// verbatim.
#[derive(Debug, Clone, Copy, PartialEq, Eq, Structural)]
pub struct Speed {
    pub value: u8,
}

impl Speed {
    /// The default speed.
    pub fn new() -> (r: Self)
        ensures
            r.value == 7,
    {
        Speed { value: 7 }
    }
}

impl Default for Speed {
    fn default() -> (r: Self)
        ensures
            r.value == 7,
    {
        Speed { value: 7 }
    }
}

impl From<String> for Speed {
    fn from(value: String) -> (r: Self) {
        let parsed = parse_u8(value.as_str());
        match parsed {
            Some(v) => Speed { value: v },
            None => Speed { value: 7 },
        }
    }
}

impl vstd::std_specs::convert::FromSpecImpl<String> for Speed {
    open spec fn obeys_from_spec() -> bool {
        true
    }

    open spec fn from_spec(value: String) -> Self {
        match parse_u8_spec(value@) {
            Some(v) => Speed { value: v },
            None => Speed { value: 7 },
        }
    }
}

/// The format configuration: absent means "unchanged", no encode and no
/// write.
#[derive(Debug, Clone, Copy, PartialEq)]
pub struct Format {
    pub image: Option<ImageKind>,
    pub quality: Quality,
    pub speed: Speed,
}

impl Default for Format {
    /// Unchanged format, default quality and speed.
    fn default() -> (r: Self)
        ensures
            r.image is None,
            r.quality.value == 75,
            r.speed.value == 7,
    {
        Format { image: None, quality: Quality { value: 75 }, speed: Speed { value: 7 } }
    }
}

/// Turn an encoder's outcome into the pipeline's: bytes become a write
/// job for `path`, a message becomes a format error carrying it.
pub fn packaged(path: String, encoded: Result<Vec<u8>, String>) -> (r: Result<
    Option<(String, Vec<u8>)>,
    TransformationError,
>)
    ensures
        match encoded {
            Ok(bytes) => r matches Ok(o) && o matches Some(job) && job.0 == path && job.1 == bytes,
            Err(msg) => r matches Err(e) && e == TransformationError::Format(msg),
        },
{
    match encoded {
        Ok(bytes) => Ok(Some((path, bytes))),
        Err(msg) => Err(TransformationError::Format(msg)),
    }
}

impl Format {
    /// The encoding offered before any choice is made.
    pub fn get_default_image_format() -> (r: ImageKind)
        ensures
            r == ImageKind::Png,
    {
        ImageKind::Png
    }

    /// Choose the encoding from a user string.
    pub fn set_format(&mut self, value: String)
        ensures
            final(self).image == image_kind_of(value@),
            final(self).quality == old(self).quality,
            final(self).speed == old(self).speed,
    {
        self.image = if str_eq(value.as_str(), "png") {
            Some(ImageKind::Png)
        } else if str_eq(value.as_str(), "jpg") {
            Some(ImageKind::Jpeg)
        } else if str_eq(value.as_str(), "webp") {
            Some(ImageKind::WebP)
        } else if str_eq(value.as_str(), "avif") {
            Some(ImageKind::Avif)
        } else if str_eq(value.as_str(), "tiff") {
            Some(ImageKind::Tiff)
        } else {
            None
        };
    }

    /// Encode the raster per this configuration. "Unchanged" encodes
    /// nothing; otherwise the result is a write job whose path carries
    /// the target extension, or the encoder's failure as a format error.
    pub fn apply(&self, r: &Raster, path: &String) -> (result: Result<
        Option<(String, Vec<u8>)>,
        TransformationError,
    >)
        requires
            self.image == Some(ImageKind::Avif) ==> 1 <= self.quality.value <= 100 && 1
                <= self.speed.value <= 10,
        ensures
            self.image is None ==> (result matches Ok(o) && o is None),
            match self.image {
                Some(k) => match result {
                    Ok(o) => o matches Some(job) && job.0@ == with_extension(
                        path@,
                        extension_of_kind(k),
                    ),
                    Err(e) => e is Format,
                },
                None => true,
            },
    {
        match &self.image {
            None => Ok(None),
            Some(kind) => {
                let out_path = set_extension(path.as_str(), extension_str_of_kind(kind));
                let encoded: Result<Vec<u8>, String> = match kind {
                    ImageKind::WebP => r.encode_webp(self.quality.value),
                    ImageKind::Avif => r.encode_avif(self.quality.value, self.speed.value),
                    _ => r.encode_classic(kind),
                };
                packaged(out_path, encoded)
            },
        }
    }
}

} // verus!
