//! File storage: image transform parameters, content-type and path
//! validation, errors, and the storage-side helpers of the engine.
use vstd::prelude::*;
use vstd::utf8::encode_utf8;

pub mod engine;
pub mod memory;
pub mod postgres;
pub mod transforms;
use crate::text::{
    chars_of, chars_eq, find_chars, first_occurrence, occurs_at, slice_chars, split_on, split_seq, trim,
    trim_chars, parse_unsigned, parse_unsigned_exec, contains_char, string_of, push_chars, push_str_chars,
    ascii_lower_seq, ascii_lower_exec, split_piece, split_count, all_digits, digits_value, has_suffix, ends_with,
};

verus! {

// ── Limits ─────────────────────────────────────────────────────────

/// Maximum upload size: 100 MiB by default.
pub const DEFAULT_MAX_UPLOAD_SIZE: u64 = 104857600;

/// Maximum allowed image dimension (width or height) for transforms.
pub const MAX_IMAGE_DIMENSION: u32 = 16384;

// ── Image transforms ───────────────────────────────────────────────

/// How the image should be fit to the target dimensions.
#[derive(Debug, Clone, Copy, PartialEq, Eq, Structural)]
pub enum ImageFit {
    /// Scale to fit within bounds, preserving aspect ratio.
    Contain,
    /// Scale to fill bounds, cropping if necessary.
    Cover,
    /// Stretch to exact dimensions.
    Fill,
    /// Scale down only, never upscale.
    Inside,
}

/// Output image format.
#[derive(Debug, Clone, Copy, PartialEq, Eq, Structural)]
pub enum ImageFormat {
    Jpeg,
    Png,
    Webp,
    Avif,
}

/// Image transformation parameters.
#[derive(Debug, Clone, Copy, PartialEq, Eq, Structural)]
pub struct ImageTransform {
    /// Target width in pixels.
    pub width: Option<u32>,
    /// Target height in pixels.
    pub height: Option<u32>,
    /// Resize fit mode.
    pub fit: Option<ImageFit>,
    /// Output format override.
    pub format: Option<ImageFormat>,
    /// JPEG/WebP quality (1-100).
    pub quality: Option<u8>,
}

/// The transform that changes nothing.
pub open spec fn no_transform() -> ImageTransform {
    ImageTransform { width: None, height: None, fit: None, format: None, quality: None }
}

impl Default for ImageTransform {
    fn default() -> (r: ImageTransform)
        ensures
            r == no_transform(),
    {
        ImageTransform { width: None, height: None, fit: None, format: None, quality: None }
    }
}

/// The key of a `key=value` pair: the text before the first `=` (all of
/// it when there is none), trimmed.
pub open spec fn pair_key(pair: Seq<char>) -> Seq<char> {
    match first_occurrence(pair, seq!['=']) {
        Some(i) => trim(pair.subrange(0, i)),
        None => trim(pair),
    }
}

/// The value of a `key=value` pair: the text after the first `=`,
/// trimmed; empty when there is no `=`.
pub open spec fn pair_value(pair: Seq<char>) -> Seq<char> {
    match first_occurrence(pair, seq!['=']) {
        Some(i) => trim(pair.subrange(i + 1, pair.len() as int)),
        None => Seq::empty(),
    }
}

/// A number written in a query value: an optional `+`, then at least one
/// decimal digit, of any size.
pub open spec fn query_number(v: Seq<char>) -> Option<int> {
    let body = if v.len() > 0 && v[0] == '+' { v.drop_first() } else { v };
    if body.len() == 0 || !all_digits(body) {
        None
    } else {
        Some(digits_value(body))
    }
}

/// A width or height: a number capped at [`MAX_IMAGE_DIMENSION`]; zero or
/// a value that is no number gives none.
pub open spec fn dimension_of(v: Seq<char>) -> Option<u32> {
    match query_number(v) {
        Some(n) => if n == 0 {
            None
        } else if n > 16384 {
            Some(16384u32)
        } else {
            Some(n as u32)
        },
        None => None,
    }
}

/// A quality: a number clamped to `1..=100`.
pub open spec fn quality_of(v: Seq<char>) -> Option<u8> {
    match query_number(v) {
        Some(n) => Some(
            if n < 1 {
                1u8
            } else if n > 100 {
                100u8
            } else {
                n as u8
            },
        ),
        None => None,
    }
}

pub open spec fn fit_of(v: Seq<char>) -> Option<ImageFit> {
    if v == "contain"@ {
        Some(ImageFit::Contain)
    } else if v == "cover"@ {
        Some(ImageFit::Cover)
    } else if v == "fill"@ {
        Some(ImageFit::Fill)
    } else if v == "inside"@ {
        Some(ImageFit::Inside)
    } else {
        None
    }
}

pub open spec fn format_of(v: Seq<char>) -> Option<ImageFormat> {
    if v == "jpeg"@ || v == "jpg"@ {
        Some(ImageFormat::Jpeg)
    } else if v == "png"@ {
        Some(ImageFormat::Png)
    } else if v == "webp"@ {
        Some(ImageFormat::Webp)
    } else if v == "avif"@ {
        Some(ImageFormat::Avif)
    } else {
        None
    }
}

/// The transform pipeline's output format of the same name.
pub open spec fn output_format_named(f: ImageFormat) -> crate::storage::transforms::OutputFormat {
    match f {
        ImageFormat::Jpeg => crate::storage::transforms::OutputFormat::Jpeg,
        ImageFormat::Png => crate::storage::transforms::OutputFormat::Png,
        ImageFormat::Webp => crate::storage::transforms::OutputFormat::Webp,
        ImageFormat::Avif => crate::storage::transforms::OutputFormat::Avif,
    }
}

/// A query's `format` value reads as the format it names: every name the
/// query accepts (`jpeg`, `jpg`, `png`, `webp`, `avif`) is read, and the
/// format read is served as `image/<name>` (`jpg` being JPEG).
pub proof fn lemma_format_is_the_one_named(v: Seq<char>)
    ensures
        (v == "jpeg"@ || v == "jpg"@ || v == "png"@ || v == "webp"@ || v == "avif"@) ==> format_of(v) is Some,
        format_of(v) matches Some(f) ==> crate::storage::transforms::mime_of(output_format_named(f)) == "image/"@
            + (if v == "jpg"@ { "jpeg"@ } else { v }),
{
    reveal_strlit("jpeg");
    reveal_strlit("jpg");
    reveal_strlit("png");
    reveal_strlit("webp");
    reveal_strlit("avif");
    reveal_strlit("image/");
    reveal_strlit("image/jpeg");
    reveal_strlit("image/png");
    reveal_strlit("image/webp");
    reveal_strlit("image/avif");
    if v == "jpeg"@ {
        assert("image/"@ + v =~= "image/jpeg"@);
    } else if v == "jpg"@ {
        assert("image/"@ + "jpeg"@ =~= "image/jpeg"@);
    } else if v == "png"@ {
        assert("image/"@ + v =~= "image/png"@);
    } else if v == "webp"@ {
        assert("image/"@ + v =~= "image/webp"@);
    } else if v == "avif"@ {
        assert("image/"@ + v =~= "image/avif"@);
    }
}

proof fn lemma_first_eq_at(s: Seq<char>, k: int)
    requires
        0 <= k < s.len(),
        s[k] == '=',
        forall|i: int| 0 <= i < k ==> s[i] != '=',
    ensures
        first_occurrence(s, seq!['=']) == Some(k),
{
    assert(crate::text::occurs_at(s, seq!['='], k)) by {
        assert(s.subrange(k, k + 1) =~= seq!['=']);
    }
    assert forall|j: int| 0 <= j < k implies !crate::text::occurs_at(s, seq!['='], j) by {
        if crate::text::occurs_at(s, seq!['='], j) {
            assert(s.subrange(j, j + 1)[0] == s[j]);
        }
    }
    let c = choose|i: int| crate::text::occurs_at(s, seq!['='], i) && forall|j: int| 0 <= j < i ==> !crate::text::occurs_at(s, seq!['='], j);
    if c < k {
        assert(s.subrange(c, c + 1)[0] == s[c]);
    } else if c > k {
        assert(!crate::text::occurs_at(s, seq!['='], k));
    }
}

proof fn lemma_trim_letters(s: Seq<char>)
    requires
        s.len() > 0,
        forall|i: int| 0 <= i < s.len() ==> 'a' <= #[trigger] s[i] <= 'z',
    ensures
        trim(s) == s,
{
    assert(!crate::text::is_ws(s[0]));
    assert(s.last() == s[s.len() - 1]);
    assert(!crate::text::is_ws(s.last()));
    assert(crate::text::lead_ws(s) == 0);
    assert(crate::text::trail_ws(s) == 0);
    assert(trim(s) =~= s);
}

/// The word a fit mode is written as in a query.
pub open spec fn fit_word(f: ImageFit) -> Seq<char> {
    match f {
        ImageFit::Contain => "contain"@,
        ImageFit::Cover => "cover"@,
        ImageFit::Fill => "fill"@,
        ImageFit::Inside => "inside"@,
    }
}

/// Each fit mode's word reads as that mode, and only those words are read:
/// a word that reads as a mode is that mode's word.
pub proof fn lemma_fit_is_the_one_named(v: Seq<char>, f: ImageFit)
    ensures
        fit_of(fit_word(f)) == Some(f),
        fit_of(v) matches Some(g) ==> v == fit_word(g),
{
    reveal_strlit("contain");
    reveal_strlit("cover");
    reveal_strlit("fill");
    reveal_strlit("inside");
    assert("contain"@.len() != "cover"@.len());
    assert("contain"@.len() != "fill"@.len());
    assert("contain"@.len() != "inside"@.len());
    assert("cover"@.len() != "fill"@.len());
    assert("cover"@.len() != "inside"@.len());
    assert("fill"@.len() != "inside"@.len());
}

/// A quality in a query is always within `1..=100`; a number already in
/// that range is kept as it is, a larger one becomes 100, zero becomes 1.
/// A width or height is within `1..=16384`; a number in that range is kept,
/// a larger one becomes 16384, and zero gives none.  Larger numbers never
/// give smaller values.
pub proof fn lemma_query_numbers(v: Seq<char>, w: Seq<char>)
    ensures
        quality_of(v) matches Some(q) ==> 1 <= q <= 100,
        query_number(v) matches Some(n) ==> quality_of(v) == Some(
            (if n < 1 { 1 } else if n > 100 { 100 } else { n }) as u8,
        ),
        dimension_of(v) matches Some(d) ==> 1 <= d <= 16384,
        query_number(v) matches Some(n) ==> (n == 0 <==> dimension_of(v) is None),
        query_number(v) matches Some(n) ==> (1 <= n <= 16384 ==> dimension_of(v) == Some(n as u32)),
        query_number(v) matches Some(n) ==> (n > 16384 ==> dimension_of(v) == Some(16384u32)),
        query_number(v) is None ==> quality_of(v) is None && dimension_of(v) is None,
        (query_number(v) matches Some(a) && query_number(w) matches Some(b) && a <= b) ==> quality_of(v)->0
            <= quality_of(w)->0,
{
    let body = if v.len() > 0 && v[0] == '+' { v.drop_first() } else { v };
    if body.len() > 0 && all_digits(body) {
        crate::text::lemma_digits_value_nonneg(body);
    }
}

/// A query of one `format=<name>` pair sets the format to the one named
/// and nothing else.
pub proof fn lemma_format_query(name: Seq<char>)
    requires
        name == "jpeg"@ || name == "jpg"@ || name == "png"@ || name == "webp"@ || name == "avif"@,
    ensures
        apply_pair(no_transform(), "format="@ + name).format == format_of(name),
        apply_pair(no_transform(), "format="@ + name).width is None,
        apply_pair(no_transform(), "format="@ + name).quality is None,
{
    reveal_strlit("format=");
    reveal_strlit("format");
    reveal_strlit("jpeg");
    reveal_strlit("jpg");
    reveal_strlit("png");
    reveal_strlit("webp");
    reveal_strlit("avif");
    let pair = "format="@ + name;
    assert(pair[6] == '=');
    assert forall|i: int| 0 <= i < 6 implies pair[i] != '=' by {}
    lemma_first_eq_at(pair, 6);
    assert(pair.subrange(0, 6) =~= "format"@);
    assert(pair.subrange(7, pair.len() as int) =~= name);
    lemma_trim_letters("format"@);
    lemma_trim_letters(name);
    assert("format"@ != "w"@ && "format"@ != "width"@ && "format"@ != "h"@ && "format"@ != "height"@ && "format"@
        != "fit"@) by {
        reveal_strlit("w");
        reveal_strlit("width");
        reveal_strlit("h");
        reveal_strlit("height");
        reveal_strlit("fit");
    }
}

/// One `key=value` pair applied to `t`: `w`/`width`, `h`/`height`, `fit`,
/// `format`/`f` and `q`/`quality` set their parameter (to none when the
/// value is not valid); other keys are ignored.
pub open spec fn apply_pair(t: ImageTransform, pair: Seq<char>) -> ImageTransform {
    let k = pair_key(pair);
    let v = pair_value(pair);
    if k == "w"@ || k == "width"@ {
        ImageTransform { width: dimension_of(v), ..t }
    } else if k == "h"@ || k == "height"@ {
        ImageTransform { height: dimension_of(v), ..t }
    } else if k == "fit"@ {
        ImageTransform { fit: fit_of(v), ..t }
    } else if k == "format"@ || k == "f"@ {
        ImageTransform { format: format_of(v), ..t }
    } else if k == "q"@ || k == "quality"@ {
        ImageTransform { quality: quality_of(v), ..t }
    } else {
        t
    }
}

/// The pairs `ps` applied to `t`, in order.
pub open spec fn apply_pairs(t: ImageTransform, ps: Seq<Seq<char>>) -> ImageTransform
    decreases ps.len(),
{
    if ps.len() == 0 {
        t
    } else {
        apply_pair(apply_pairs(t, ps.drop_last()), ps.last())
    }
}

fn is_kw(s: &Vec<char>, kw: &str) -> (r: bool)
    ensures
        r <==> s@ == kw@,
{
    chars_eq(s.as_slice(), chars_of(kw).as_slice())
}

/// Whether `v` is a number as [`query_number`] reads one.
fn is_query_number(v: &Vec<char>) -> (r: bool)
    ensures
        r == (query_number(v@) is Some),
{
    let from: usize = if v.len() > 0 && v[0] == '+' { 1 } else { 0 };
    let ghost body = if v@.len() > 0 && v@[0] == '+' { v@.drop_first() } else { v@ };
    assert(body =~= v@.subrange(from as int, v@.len() as int));
    if from == v.len() {
        return false;
    }
    let mut i = from;
    while i < v.len()
        invariant
            from <= i <= v@.len(),
            body =~= v@.subrange(from as int, v@.len() as int),
            body == (if v@.len() > 0 && v@[0] == '+' { v@.drop_first() } else { v@ }),
            body.len() > 0,
            forall|j: int| 0 <= j < i - from ==> crate::text::is_digit(#[trigger] body[j]),
        decreases v.len() - i,
    {
        if !('0' <= v[i] && v[i] <= '9') {
            assert(!crate::text::is_digit(body[i - from]));
            assert(!all_digits(body));
            return false;
        }
        i += 1;
    }
    true
}

fn parse_dimension(v: &Vec<char>) -> (r: Option<u32>)
    ensures
        r == dimension_of(v@),
{
    match parse_unsigned_exec(v, 16384) {
        Some(n) => if n == 0 {
            None
        } else {
            Some(n as u32)
        },
        None => if is_query_number(v) {
            Some(MAX_IMAGE_DIMENSION)
        } else {
            None
        },
    }
}

fn parse_quality(v: &Vec<char>) -> (r: Option<u8>)
    ensures
        r == quality_of(v@),
{
    match parse_unsigned_exec(v, 100) {
        Some(n) => Some(
            if n < 1 {
                1u8
            } else {
                n as u8
            },
        ),
        None => if is_query_number(v) {
            Some(100u8)
        } else {
            None
        },
    }
}

fn parse_fit(v: &Vec<char>) -> (r: Option<ImageFit>)
    ensures
        r == fit_of(v@),
{
    if is_kw(v, "contain") {
        Some(ImageFit::Contain)
    } else if is_kw(v, "cover") {
        Some(ImageFit::Cover)
    } else if is_kw(v, "fill") {
        Some(ImageFit::Fill)
    } else if is_kw(v, "inside") {
        Some(ImageFit::Inside)
    } else {
        None
    }
}

fn parse_format(v: &Vec<char>) -> (r: Option<ImageFormat>)
    ensures
        r == format_of(v@),
{
    if is_kw(v, "jpeg") || is_kw(v, "jpg") {
        Some(ImageFormat::Jpeg)
    } else if is_kw(v, "png") {
        Some(ImageFormat::Png)
    } else if is_kw(v, "webp") {
        Some(ImageFormat::Webp)
    } else if is_kw(v, "avif") {
        Some(ImageFormat::Avif)
    } else {
        None
    }
}

/// Splits a pair on its first `=` into its trimmed key and value.
pub fn split_pair(pair: &Vec<char>) -> (r: (Vec<char>, Vec<char>))
    ensures
        r.0@ == pair_key(pair@),
        r.1@ == pair_value(pair@),
{
    let eq: Vec<char> = vec!['='];
    assert(eq@ =~= seq!['=']);
    match find_chars(pair.as_slice(), eq.as_slice()) {
        Some(i) => {
            proof {
                assert(occurs_at(pair@, seq!['='], i as int));
                let w = choose|j: int| occurs_at(pair@, seq!['='], j) && forall|k: int| 0 <= k < j ==> !occurs_at(pair@, seq!['='], k);
                if w < i {
                } else if w > i {
                    assert(!occurs_at(pair@, seq!['='], i as int));
                }
                assert(first_occurrence(pair@, seq!['=']) == Some(i as int));
                assert(i + 1 <= pair@.len());
            }
            assert(pair@.len() >= i + 1) by {
                assert(seq!['='].len() == 1);
            }
            let k = slice_chars(pair, 0, i);
            assert(i < pair.len());
            let v = slice_chars(pair, i + 1, pair.len());
            (trim_chars(&k), trim_chars(&v))
        },
        None => {
            let e: Vec<char> = Vec::new();
            (trim_chars(pair), e)
        },
    }
}

impl ImageTransform {
    /// Parse a transform string like `w=200,h=200,fit=cover,format=webp,q=80`:
    /// the comma-separated pairs are applied in order (see [`apply_pair`]).
    /// Dimensions are capped at [`MAX_IMAGE_DIMENSION`]; quality is clamped
    /// to `1..=100`.
    pub fn from_query(query: &str) -> (r: ImageTransform)
        ensures
            r == apply_pairs(no_transform(), split_seq(query@, ',')),
    {
        let q = chars_of(query);
        let pairs = split_on(&q, ',');
        let ghost ps = split_seq(q@, ',');
        assert(pairs@.len() == ps.len());
        let mut t = ImageTransform::default();
        let mut i: usize = 0;
        while i < pairs.len()
            invariant
                i <= pairs@.len(),
                pairs@.len() == ps.len(),
                ps == split_seq(q@, ','),
                forall|k: int| 0 <= k < pairs@.len() ==> (#[trigger] pairs@[k])@ == split_piece(q@, ',', k),
                t == apply_pairs(no_transform(), ps.subrange(0, i as int)),
            decreases pairs.len() - i,
        {
            assert(ps.subrange(0, i + 1).drop_last() =~= ps.subrange(0, i as int));
            assert(ps[i as int] == pairs@[i as int]@);
            let (k, v) = split_pair(&pairs[i]);
            if is_kw(&k, "w") || is_kw(&k, "width") {
                t.width = parse_dimension(&v);
            } else if is_kw(&k, "h") || is_kw(&k, "height") {
                t.height = parse_dimension(&v);
            } else if is_kw(&k, "fit") {
                t.fit = parse_fit(&v);
            } else if is_kw(&k, "format") || is_kw(&k, "f") {
                t.format = parse_format(&v);
            } else if is_kw(&k, "q") || is_kw(&k, "quality") {
                t.quality = parse_quality(&v);
            }
            i += 1;
        }
        assert(ps.subrange(0, pairs@.len() as int) =~= ps);
        t
    }

    /// Returns `true` if no transforms are specified.
    pub fn is_empty(&self) -> (r: bool)
        ensures
            r <==> *self == no_transform(),
    {
        self.width.is_none() && self.height.is_none() && self.fit.is_none() && self.format.is_none()
            && self.quality.is_none()
    }
}

// ── Errors ─────────────────────────────────────────────────────────

/// Errors specific to the storage subsystem.
#[derive(Debug, Clone)]
pub enum StorageError {
    /// The requested file or object was not found.
    NotFound(String),
    /// The storage path is invalid (absolute, traversal, etc.).
    InvalidPath(String),
    /// An I/O operation failed.
    Io(String),
    /// The storage backend is not available or not configured.
    BackendUnavailable(String),
    /// A signed URL has expired.
    SignatureExpired,
    /// A signed URL signature is invalid.
    InvalidSignature,
    /// Chunk offset does not match the expected offset.
    InvalidOffset { expected: u64, received: u64 },
    /// An upload hook or a check rejected the file.
    Rejected(String),
    /// An internal error occurred.
    Internal(String),
}

/// The message an error displays as.
pub open spec fn storage_error_text(e: StorageError) -> Seq<char> {
    match e {
        StorageError::NotFound(m) => "not found: "@ + m@,
        StorageError::InvalidPath(m) => "invalid path: "@ + m@,
        StorageError::Io(m) => "I/O error: "@ + m@,
        StorageError::BackendUnavailable(m) => "backend unavailable: "@ + m@,
        StorageError::SignatureExpired => "signed URL has expired"@,
        StorageError::InvalidSignature => "invalid signature"@,
        StorageError::InvalidOffset { expected, received } => "invalid upload offset: expected "@ + crate::text::decimal_of(
            expected as nat,
        ) + ", got "@ + crate::text::decimal_of(received as nat),
        StorageError::Rejected(m) => "upload rejected: "@ + m@,
        StorageError::Internal(m) => "internal storage error: "@ + m@,
    }
}

impl StorageError {
    /// The message this error displays as.
    pub fn to_string(&self) -> (r: String)
        ensures
            r@ == storage_error_text(*self),
    {
        let mut v: Vec<char> = Vec::new();
        match self {
            StorageError::NotFound(m) => {
                push_str_chars(&mut v, "not found: ");
                push_str_chars(&mut v, m.as_str());
            },
            StorageError::InvalidPath(m) => {
                push_str_chars(&mut v, "invalid path: ");
                push_str_chars(&mut v, m.as_str());
            },
            StorageError::Io(m) => {
                push_str_chars(&mut v, "I/O error: ");
                push_str_chars(&mut v, m.as_str());
            },
            StorageError::BackendUnavailable(m) => {
                push_str_chars(&mut v, "backend unavailable: ");
                push_str_chars(&mut v, m.as_str());
            },
            StorageError::SignatureExpired => {
                push_str_chars(&mut v, "signed URL has expired");
            },
            StorageError::InvalidSignature => {
                push_str_chars(&mut v, "invalid signature");
            },
            StorageError::InvalidOffset { expected, received } => {
                push_str_chars(&mut v, "invalid upload offset: expected ");
                push_chars(&mut v, &crate::text::decimal_chars(*expected));
                push_str_chars(&mut v, ", got ");
                push_chars(&mut v, &crate::text::decimal_chars(*received));
            },
            StorageError::Rejected(m) => {
                push_str_chars(&mut v, "upload rejected: ");
                push_str_chars(&mut v, m.as_str());
            },
            StorageError::Internal(m) => {
                push_str_chars(&mut v, "internal storage error: ");
                push_str_chars(&mut v, m.as_str());
            },
        }
        string_of(v.as_slice())
    }
}

fn text_of(s: &str) -> (r: String)
    ensures
        r@ == s@,
{
    s.to_owned()
}

// ── Content types ──────────────────────────────────────────────────

/// Content types that are always rejected (executable payloads).
pub open spec fn is_blocked_content_type(b: Seq<char>) -> bool {
    b == "application/x-executable"@ || b == "application/x-msdos-program"@ || b == "application/x-msdownload"@
        || b == "application/x-sh"@ || b == "application/x-shellscript"@
}

/// The base type of a content type: lower-cased (ASCII), cut at the first
/// `;`, trimmed.
pub open spec fn base_content_type(ct: Seq<char>) -> Seq<char> {
    trim(split_piece(ascii_lower_seq(ct), ';', 0))
}

/// What [`validate_content_type`] answers: the rejection message, if any.
pub open spec fn content_type_rejection(ct: Seq<char>) -> Option<Seq<char>> {
    if ct.len() == 0 {
        Some("content-type must not be empty"@)
    } else if !ct.contains('/') {
        Some("content-type must be in type/subtype format"@)
    } else if is_blocked_content_type(base_content_type(ct)) {
        Some("content-type '"@ + base_content_type(ct) + "' is not allowed"@)
    } else {
        None
    }
}

fn lower_ascii_chars(s: &Vec<char>) -> (r: Vec<char>)
    ensures
        r@ == ascii_lower_seq(s@),
{
    let mut out: Vec<char> = Vec::new();
    let mut i: usize = 0;
    while i < s.len()
        invariant
            i <= s@.len(),
            out@ == ascii_lower_seq(s@.subrange(0, i as int)),
        decreases s.len() - i,
    {
        out.push(ascii_lower_exec(s[i]));
        i += 1;
        assert(out@ =~= ascii_lower_seq(s@.subrange(0, i as int)));
    }
    assert(s@.subrange(0, s@.len() as int) =~= s@);
    out
}

/// Validate a content-type string: non-empty, of the form `type/subtype`,
/// and not an executable type (compared case-insensitively, parameters
/// after `;` ignored).  Each failure is a `Rejected` error.
pub fn validate_content_type(content_type: &str) -> (r: Result<(), StorageError>)
    ensures
        match content_type_rejection(content_type@) {
            None => r is Ok,
            Some(m) => r matches Err(StorageError::Rejected(x)) && x@ == m,
        },
{
    let ct = chars_of(content_type);
    if ct.len() == 0 {
        return Err(StorageError::Rejected(text_of("content-type must not be empty")));
    }
    if !contains_char(ct.as_slice(), '/') {
        return Err(StorageError::Rejected(text_of("content-type must be in type/subtype format")));
    }
    let lower = lower_ascii_chars(&ct);
    let pieces = split_on(&lower, ';');
    proof {
        crate::text::lemma_char_positions(lower@, ';');
    }
    let base = trim_chars(&pieces[0]);
    let blocked = chars_eq(base.as_slice(), chars_of("application/x-executable").as_slice()) || chars_eq(
        base.as_slice(),
        chars_of("application/x-msdos-program").as_slice(),
    ) || chars_eq(base.as_slice(), chars_of("application/x-msdownload").as_slice()) || chars_eq(
        base.as_slice(),
        chars_of("application/x-sh").as_slice(),
    ) || chars_eq(base.as_slice(), chars_of("application/x-shellscript").as_slice());
    if blocked {
        let mut m: Vec<char> = Vec::new();
        push_str_chars(&mut m, "content-type '");
        push_chars(&mut m, &base);
        push_str_chars(&mut m, "' is not allowed");
        return Err(StorageError::Rejected(string_of(m.as_slice())));
    }
    Ok(())
}

/// The size check of an upload: with a non-zero limit, a larger upload
/// is rejected.
pub fn check_upload_size(size: u64, max_upload_size: u64) -> (r: Result<(), StorageError>)
    ensures
        r is Ok <==> (max_upload_size == 0 || size <= max_upload_size),
        r matches Err(e) ==> e matches StorageError::Rejected(m) && m@ == "upload size "@ + crate::text::decimal_of(
            size as nat,
        ) + " exceeds maximum allowed size "@ + crate::text::decimal_of(max_upload_size as nat),
{
    if max_upload_size > 0 && size > max_upload_size {
        let mut m: Vec<char> = Vec::new();
        push_str_chars(&mut m, "upload size ");
        push_chars(&mut m, &crate::text::decimal_chars(size));
        push_str_chars(&mut m, " exceeds maximum allowed size ");
        push_chars(&mut m, &crate::text::decimal_chars(max_upload_size));
        return Err(StorageError::Rejected(string_of(m.as_slice())));
    }
    Ok(())
}

// ── Local filesystem paths ─────────────────────────────────────────

/// A path component that climbs to the parent directory.
pub open spec fn has_parent_component(p: Seq<char>) -> bool {
    exists|k: int| 0 <= k < split_count(p, '/') && #[trigger] split_piece(p, '/', k) == ".."@
}

/// Why a storage path is refused, if it is.
pub open spec fn path_rejection(p: Seq<char>) -> Option<Seq<char>> {
    if p.contains('\0') {
        Some("null bytes are not allowed in paths"@)
    } else if p.len() == 0 {
        Some("empty path is not allowed"@)
    } else if p[0] == '/' {
        Some("absolute paths are not allowed"@)
    } else if has_parent_component(p) {
        Some("path traversal is not allowed"@)
    } else {
        None
    }
}

/// `rel` joined under the directory `root` (std `Path::join` for a
/// relative path).
pub open spec fn join_path(root: Seq<char>, rel: Seq<char>) -> Seq<char> {
    if root.len() == 0 {
        rel
    } else if root.last() == '/' {
        root + rel
    } else {
        root + "/"@ + rel
    }
}

/// Local filesystem storage backend for development and single-node deploys.
#[derive(Debug, Clone)]
pub struct LocalFsBackend {
    /// Root directory where files are stored.
    pub root: String,
}

impl LocalFsBackend {
    /// A backend rooted at `root` (the directory itself is created by the
    /// caller that does the file I/O).
    pub fn new(root: &str) -> (r: LocalFsBackend)
        ensures
            r.root@ == root@,
    {
        LocalFsBackend { root: root.to_owned() }
    }

    /// Resolve a storage path to a filesystem path under the root,
    /// refusing null bytes, empty and absolute paths, and `..` components.
    pub fn resolve_path(&self, path: &str) -> (r: Result<String, StorageError>)
        ensures
            match path_rejection(path@) {
                None => r matches Ok(full) && full@ == join_path(self.root@, path@),
                Some(m) => r matches Err(StorageError::InvalidPath(x)) && x@ == m,
            },
    {
        let p = chars_of(path);
        if contains_char(p.as_slice(), '\0') {
            return Err(StorageError::InvalidPath(text_of("null bytes are not allowed in paths")));
        }
        if p.len() == 0 {
            return Err(StorageError::InvalidPath(text_of("empty path is not allowed")));
        }
        if p[0] == '/' {
            return Err(StorageError::InvalidPath(text_of("absolute paths are not allowed")));
        }
        let pieces = split_on(&p, '/');
        let dots: Vec<char> = vec!['.', '.'];
        proof {
            reveal_strlit("..");
            assert(dots@ =~= ".."@);
        }
        let mut k: usize = 0;
        while k < pieces.len()
            invariant
                k <= pieces@.len(),
                pieces@.len() == split_count(p@, '/'),
                forall|j: int| 0 <= j < pieces@.len() ==> (#[trigger] pieces@[j])@ == split_piece(p@, '/', j),
                forall|j: int| 0 <= j < k ==> split_piece(p@, '/', j) != ".."@,
                dots@ == ".."@,
                p@ == path@,
                !p@.contains('\0'),
                p@.len() > 0,
                p@[0] != '/',
            decreases pieces.len() - k,
        {
            if chars_eq(pieces[k].as_slice(), dots.as_slice()) {
                assert(split_piece(p@, '/', k as int) == ".."@);
                assert(has_parent_component(p@));
                return Err(StorageError::InvalidPath(text_of("path traversal is not allowed")));
            }
            k += 1;
        }
        let root = chars_of(self.root.as_str());
        let mut full: Vec<char> = Vec::new();
        push_chars(&mut full, &root);
        if root.len() > 0 && root[root.len() - 1] != '/' {
            full.push('/');
        }
        push_chars(&mut full, &p);
        proof {
            if root@.len() > 0 && root@.last() != '/' {
                assert(full@ =~= root@ + "/"@ + p@) by {
                    reveal_strlit("/");
                }
            }
        }
        Ok(string_of(full.as_slice()))
    }
}

// ── Digests, signatures and their encodings ────────────────────────

/// What sha2's `Sha256::digest` returns for these bytes.
pub uninterp spec fn sha256_of(data: Seq<u8>) -> Seq<u8>;

/// What hmac's `Hmac<Sha256>` tag is for this key and message.
pub uninterp spec fn hmac_sha256_of(key: Seq<u8>, msg: Seq<u8>) -> Seq<u8>;

/// What data-encoding's `BASE64URL_NOPAD.encode` returns for these bytes.
pub uninterp spec fn base64url_of(data: Seq<u8>) -> Seq<char>;

/// What data-encoding's `BASE64URL_NOPAD.decode` returns for this text.
pub uninterp spec fn base64url_decoded(text: Seq<char>) -> Option<Seq<u8>>;

/// sha2 `Sha256::digest`: the 32-byte SHA-256 digest of `data`.
#[verifier::external_body]
pub(crate) fn sha256(data: &[u8]) -> (r: Vec<u8>)
    ensures
        r@ == sha256_of(data@),
        r@.len() == 32,
{
    <sha2::Sha256 as sha2::Digest>::digest(data).to_vec()
}

/// hmac `Hmac::<Sha256>::new_from_slice`, `update` and `finalize`: the
/// 32-byte HMAC-SHA256 tag of `msg` under `key`.  `new_from_slice` accepts
/// a key of any length (a longer one is hashed first), so a tag is always
/// produced.
#[verifier::external_body]
fn hmac_sha256(key: &[u8], msg: &[u8]) -> (r: Option<Vec<u8>>)
    ensures
        r is Some,
        r is Some ==> r->0@ == hmac_sha256_of(key@, msg@) && r->0@.len() == 32,
{
    match <hmac::Hmac<sha2::Sha256> as hmac::Mac>::new_from_slice(key) {
        Ok(mut mac) => {
            hmac::Mac::update(&mut mac, msg);
            Some(hmac::Mac::finalize(mac).into_bytes().to_vec())
        },
        Err(_) => None,
    }
}

/// data-encoding `BASE64URL_NOPAD.encode`.
#[verifier::external_body]
fn base64url_encode(data: &[u8]) -> (r: String)
    ensures
        r@ == base64url_of(data@),
{
    data_encoding::BASE64URL_NOPAD.encode(data)
}

/// data-encoding `BASE64URL_NOPAD.decode` of the text's bytes; the text
/// an encoding produced decodes back to the encoded bytes.
#[verifier::external_body]
fn base64url_decode(text: &str) -> (r: Option<Vec<u8>>)
    ensures
        r is Some <==> base64url_decoded(text@) is Some,
        r is Some ==> base64url_decoded(text@) == Some(r->0@),
        r is None ==> forall|x: Seq<u8>| text@ != base64url_of(x),
        r is Some ==> forall|x: Seq<u8>| text@ == base64url_of(x) ==> r->0@ == x,
{
    match data_encoding::BASE64URL_NOPAD.decode(text.as_bytes()) {
        Ok(b) => Some(b),
        Err(_) => None,
    }
}

/// hmac `CtOutput` comparison: whether two 32-byte tags are equal, in
/// constant time.
#[verifier::external_body]
fn tags_equal(a: &[u8], b: &[u8]) -> (r: bool)
    requires
        a@.len() == 32,
        b@.len() == 32,
    ensures
        r == (a@ == b@),
{
    let x = hmac::digest::CtOutput::<hmac::Hmac<sha2::Sha256>>::new(*hmac::digest::generic_array::GenericArray::from_slice(a));
    let y = hmac::digest::CtOutput::<hmac::Hmac<sha2::Sha256>>::new(*hmac::digest::generic_array::GenericArray::from_slice(b));
    x == y
}

/// Whether `t` is a Unix time in seconds within the span of chrono's
/// `DateTime<Utc>`: from the first second of the year -262143 to the last
/// second of the year 262142.
pub open spec fn clock_range(t: int) -> bool {
    -8_334_601_228_800 <= t <= 8_210_266_876_799
}

/// The current time in Unix seconds (chrono `Utc::now().timestamp()`).
/// The value depends on the clock; all that is stated is that it is the
/// timestamp of a date chrono can hold.
#[verifier::external_body]
pub(crate) fn now_seconds() -> (r: i64)
    ensures
        clock_range(r as int),
{
    chrono::Utc::now().timestamp()
}

/// Lower-case hexadecimal digit of `d` (`0..16`).
pub open spec fn hex_digit(d: int) -> char {
    if d < 10 {
        (('0' as u32) + d) as char
    } else {
        (('a' as u32) + d - 10) as char
    }
}

/// Lower-case hexadecimal text of bytes, two digits per byte.
pub open spec fn hex_of(bytes: Seq<u8>) -> Seq<char>
    decreases bytes.len(),
{
    if bytes.len() == 0 {
        Seq::empty()
    } else {
        hex_of(bytes.drop_last()) + seq![hex_digit((bytes.last() / 16) as int), hex_digit((bytes.last() % 16) as int)]
    }
}

fn hex_digit_exec(d: u8) -> (r: char)
    requires
        d < 16,
    ensures
        r == hex_digit(d as int),
{
    if d < 10 {
        let c = (48u8 + d) as char;
        assert(c as u32 == 48 + d);
        c
    } else {
        let c = (87u8 + d) as char;
        assert(c as u32 == 87 + d);
        c
    }
}

/// Lower-case hexadecimal text of bytes.
pub fn hex_encode(bytes: &[u8]) -> (r: String)
    ensures
        r@ == hex_of(bytes@),
{
    let mut out: Vec<char> = Vec::new();
    let mut i: usize = 0;
    while i < bytes.len()
        invariant
            i <= bytes@.len(),
            out@ == hex_of(bytes@.subrange(0, i as int)),
        decreases bytes.len() - i,
    {
        let b = bytes[i];
        assert(bytes@.subrange(0, i + 1).drop_last() =~= bytes@.subrange(0, i as int));
        out.push(hex_digit_exec(b / 16));
        out.push(hex_digit_exec(b % 16));
        i += 1;
    }
    assert(bytes@.subrange(0, bytes@.len() as int) =~= bytes@);
    string_of(out.as_slice())
}

/// The ETag of stored content: the hex SHA-256 digest of its bytes.
pub fn compute_etag(data: &[u8]) -> (r: String)
    ensures
        r@ == hex_of(sha256_of(data@)),
{
    let digest = sha256(data);
    hex_encode(digest.as_slice())
}

/// The message a signed URL's signature covers: the UTF-8 bytes of
/// `{path}:{expires}`.
pub open spec fn signing_message(path: Seq<char>, expires: i64) -> Seq<u8> {
    encode_utf8(path + ":"@ + crate::text::signed_decimal_of(expires as int))
}

/// The signature text of `path` expiring at `expires` under `key`.
pub open spec fn signature_of(key: Seq<u8>, path: Seq<char>, expires: i64) -> Seq<char> {
    base64url_of(hmac_sha256_of(key, signing_message(path, expires)))
}

fn signing_message_exec(path: &str, expires: i64) -> (r: String)
    ensures
        r@ == path@ + ":"@ + crate::text::signed_decimal_of(expires as int),
{
    let mut m = chars_of(path);
    push_str_chars(&mut m, ":");
    push_chars(&mut m, &crate::text::signed_decimal_chars(expires));
    string_of(m.as_slice())
}

fn tag_of(key: &Vec<u8>, path: &str, expires: i64) -> (r: Result<Vec<u8>, StorageError>)
    ensures
        r matches Ok(t) && t@ == hmac_sha256_of(key@, signing_message(path@, expires)) && t@.len() == 32,
{
    let msg = signing_message_exec(path, expires);
    let bytes = msg.as_str().as_bytes();
    match hmac_sha256(key.as_slice(), bytes) {
        Some(t) => Ok(t),
        None => Err(StorageError::Internal(text_of("HMAC init"))),
    }
}

/// Result of a successful upload.
#[derive(Debug, Clone)]
pub struct UploadResult {
    /// The stored object path.
    pub path: String,
    /// Size in bytes.
    pub size: u64,
    /// MIME content type.
    pub content_type: String,
    /// Optional signed URL for immediate access.
    pub signed_url: Option<String>,
    /// ETag of the uploaded object.
    pub etag: String,
}

/// Why an upload is refused before any hook runs: the size limit, then
/// the content type.
pub open spec fn upload_check_rejection(max: u64, size: u64, content_type: Seq<char>) -> Option<Seq<char>> {
    if max > 0 && size > max {
        Some(
            "upload size "@ + crate::text::decimal_of(size as nat) + " exceeds maximum allowed size "@
                + crate::text::decimal_of(max as nat),
        )
    } else {
        content_type_rejection(content_type)
    }
}

/// What an upload does next (see [`StorageEngine::upload_step`]).
#[derive(Debug)]
pub enum UploadAction {
    /// Refuse the upload with this error.
    Reject(StorageError),
    /// Run the pre-upload hook with this number.
    RunHook(usize),
    /// Every check and hook accepted: persist the upload.
    Persist,
}

/// Hook invoked before and after upload operations: an implementation can
/// reject an upload (pre-hook) or act on a stored one (post-hook).
pub trait UploadHook {
    /// Called before the upload is persisted; `Err` rejects it.
    fn pre_upload(&self, path: &str, content_type: &str, size: u64, metadata: &Vec<(String, String)>) -> Result<
        (),
        StorageError,
    >;

    /// Called after the upload is persisted.
    fn post_upload(&self, result: &UploadResult);
}

/// The hook that accepts every upload.
pub struct NoopUploadHook;

impl UploadHook for NoopUploadHook {
    fn pre_upload(&self, _path: &str, _content_type: &str, _size: u64, _metadata: &Vec<(String, String)>) -> Result<
        (),
        StorageError,
    > {
        Ok(())
    }

    fn post_upload(&self, _result: &UploadResult) {
    }
}

/// A signed URL with its expiration time.
#[derive(Debug, Clone)]
pub struct SignedUrl {
    /// The pre-signed URL.
    pub url: String,
    /// When this URL expires (Unix seconds).
    pub expires_at: i64,
    /// How long until expiry in seconds.
    pub expires_in: u64,
}

/// The text of a signed URL: `{base}/{path}?expires={expires}&sig={sig}`.
pub open spec fn signed_url_text(base: Seq<char>, path: Seq<char>, expires: i64, sig: Seq<char>) -> Seq<char> {
    base + "/"@ + path + "?expires="@ + crate::text::signed_decimal_of(expires as int) + "&sig="@ + sig
}

// ── Resumable uploads ──────────────────────────────────────────────

/// State of a resumable (chunked) upload.
#[derive(Debug, Clone)]
pub struct ResumableUpload {
    /// Unique upload identifier (a UUID, as its `u128` value).
    pub upload_id: u128,
    /// Target storage path.
    pub path: String,
    /// Content type of the final assembled file.
    pub content_type: String,
    /// Total expected size in bytes (optional for open-ended uploads).
    pub total_size: Option<u64>,
    /// Bytes received so far.
    pub bytes_received: u64,
    /// Upload creation time (Unix milliseconds).
    pub created_at: i64,
    /// Offset of the next expected chunk.
    pub next_offset: u64,
}

/// Position of the upload with id `id` among `v`, if any.
pub open spec fn upload_pos(v: Seq<ResumableUpload>, id: u128) -> Option<int> {
    if exists|i: int| 0 <= i < v.len() && v[i].upload_id == id {
        Some(choose|i: int| 0 <= i < v.len() && v[i].upload_id == id)
    } else {
        None
    }
}

pub open spec fn upload_ids_distinct(v: Seq<ResumableUpload>) -> bool {
    forall|i: int, j: int| 0 <= i < j < v.len() ==> v[i].upload_id != v[j].upload_id
}

/// Updating an upload in place (as an accepted chunk does) keeps every
/// upload where it was: the status of any id is then read from the same
/// place, so after a chunk is accepted the status of its upload reports
/// the new offset and byte count, and every other upload is unchanged.
pub proof fn lemma_upload_update_keeps_places(v: Seq<ResumableUpload>, i: int, u: ResumableUpload)
    requires
        upload_ids_distinct(v),
        0 <= i < v.len(),
        u.upload_id == v[i].upload_id,
    ensures
        upload_ids_distinct(v.update(i, u)),
        forall|id: u128| #[trigger] upload_pos(v.update(i, u), id) == upload_pos(v, id),
        upload_pos(v.update(i, u), u.upload_id) == Some(i),
{
    let w = v.update(i, u);
    assert forall|a: int, b: int| 0 <= a < b < w.len() implies w[a].upload_id != w[b].upload_id by {
        assert(v[a].upload_id != v[b].upload_id);
    }
    assert forall|id: u128| #[trigger] upload_pos(w, id) == upload_pos(v, id) by {
        if exists|j: int| 0 <= j < v.len() && v[j].upload_id == id {
            let j = choose|j: int| 0 <= j < v.len() && v[j].upload_id == id;
            assert(w[j].upload_id == id);
            let k = choose|k: int| 0 <= k < w.len() && w[k].upload_id == id;
            if k != j {
                if k < j {
                    assert(w[k].upload_id != w[j].upload_id);
                } else {
                    assert(w[j].upload_id != w[k].upload_id);
                }
            }
        } else {
            if exists|k: int| 0 <= k < w.len() && w[k].upload_id == id {
                let k = choose|k: int| 0 <= k < w.len() && w[k].upload_id == id;
                assert(v[k].upload_id == id);
            }
        }
    }
    assert(w[i].upload_id == u.upload_id);
    let k = choose|k: int| 0 <= k < w.len() && w[k].upload_id == u.upload_id;
    if k != i {
        if k < i {
            assert(w[k].upload_id != w[i].upload_id);
        } else {
            assert(w[i].upload_id != w[k].upload_id);
        }
    }
}

fn find_upload(v: &Vec<ResumableUpload>, id: u128) -> (r: Option<usize>)
    requires
        upload_ids_distinct(v@),
    ensures
        match r {
            Some(i) => upload_pos(v@, id) == Some(i as int) && i < v@.len(),
            None => upload_pos(v@, id) is None,
        },
{
    let mut i: usize = 0;
    while i < v.len()
        invariant
            i <= v@.len(),
            upload_ids_distinct(v@),
            forall|j: int| 0 <= j < i ==> v@[j].upload_id != id,
        decreases v.len() - i,
    {
        if v[i].upload_id == id {
            proof {
                let w = choose|j: int| 0 <= j < v@.len() && v@[j].upload_id == id;
                if w != i {
                    if w < i {
                    } else {
                        assert(v@[i as int].upload_id != v@[w].upload_id);
                    }
                }
            }
            return Some(i);
        }
        i += 1;
    }
    None
}

fn clone_upload(u: &ResumableUpload) -> (r: ResumableUpload)
    ensures
        r.upload_id == u.upload_id,
        r.path@ == u.path@,
        r.content_type@ == u.content_type@,
        r.total_size == u.total_size,
        r.bytes_received == u.bytes_received,
        r.created_at == u.created_at,
        r.next_offset == u.next_offset,
{
    ResumableUpload {
        upload_id: u.upload_id,
        path: crate::json::clone_string(&u.path),
        content_type: crate::json::clone_string(&u.content_type),
        total_size: u.total_size,
        bytes_received: u.bytes_received,
        created_at: u.created_at,
        next_offset: u.next_offset,
    }
}

// ── Listing ────────────────────────────────────────────────────────

/// The paths a listing keeps from the files found `(path, file name)`:
/// those whose name does not end in `.meta.json` (metadata sidecars) and
/// that come after the cursor, if there is one.
pub open spec fn kept_paths(files: Seq<(Seq<char>, Seq<char>)>, cursor: Option<Seq<char>>) -> Seq<Seq<char>> {
    files.filter(
        |f: (Seq<char>, Seq<char>)|
            !has_suffix(f.1, ".meta.json"@) && match cursor {
                Some(c) => crate::order::str_lt(c, f.0),
                None => true,
            },
    ).map_values(|f: (Seq<char>, Seq<char>)| f.0)
}

/// A page of a listing: the kept paths in increasing order, at most
/// `limit` of them.
pub open spec fn listing_page_spec(files: Seq<(Seq<char>, Seq<char>)>, cursor: Option<Seq<char>>, limit: nat) -> Seq<
    Seq<char>,
> {
    let all = crate::order::sorted_set(kept_paths(files, cursor).to_set());
    if limit < all.len() {
        all.take(limit as int)
    } else {
        all
    }
}

pub open spec fn file_views(v: Seq<(String, String)>) -> Seq<(Seq<char>, Seq<char>)> {
    Seq::new(v.len(), |i: int| (v[i].0@, v[i].1@))
}

/// The page of a listing over the files found under a prefix, each given
/// as its path relative to the storage root and its file name: metadata
/// sidecars are skipped, only paths after the cursor count, and the first
/// `limit` of them in increasing order are returned.
pub fn listing_page(files: &Vec<(String, String)>, cursor: Option<&str>, limit: usize) -> (r: Vec<String>)
    requires
        forall|i: int, j: int| 0 <= i < j < files@.len() ==> files@[i].0@ != files@[j].0@,
    ensures
        Seq::new(r@.len(), |i: int| r@[i]@) == listing_page_spec(
            file_views(files@),
            match cursor {
                Some(c) => Some(c@),
                None => None,
            },
            limit as nat,
        ),
{
    let ghost fv = file_views(files@);
    let ghost cv = match cursor {
        Some(c) => Some(c@),
        None => None::<Seq<char>>,
    };
    let meta = chars_of(".meta.json");
    let cur: Option<Vec<char>> = match cursor {
        Some(c) => Some(chars_of(c)),
        None => None,
    };
    let mut kept: Vec<Vec<char>> = Vec::new();
    let mut i: usize = 0;
    while i < files.len()
        invariant
            i <= files@.len(),
            fv == file_views(files@),
            meta@ == ".meta.json"@,
            cur matches Some(c) ==> cv == Some(c@),
            cur is None ==> cv is None,
            Seq::new(kept@.len(), |k: int| kept@[k]@) == kept_paths(fv.take(i as int), cv),
            forall|k: int| 0 <= k < kept@.len() ==> exists|j: int| 0 <= j < i && (#[trigger] kept@[k])@ == fv[j].0,
            forall|a: int, b: int| 0 <= a < b < kept@.len() ==> kept@[a]@ != kept@[b]@,
            forall|a: int, b: int| 0 <= a < b < files@.len() ==> files@[a].0@ != files@[b].0@,
        decreases files.len() - i,
    {
        let ghost before = Seq::new(kept@.len(), |k: int| kept@[k]@);
        proof {
            reveal(Seq::filter);
            assert(fv.take(i + 1).drop_last() =~= fv.take(i as int));
            assert(fv.take(i + 1).last() == fv[i as int]);
        }
        let name = chars_of(files[i].1.as_str());
        let path = chars_of(files[i].0.as_str());
        let after = match &cur {
            Some(c) => crate::order::str_less(c.as_slice(), path.as_slice()),
            None => true,
        };
        if !ends_with(name.as_slice(), meta.as_slice()) && after {
            proof {
                assert forall|k: int| 0 <= k < kept@.len() implies kept@[k]@ != path@ by {
                    let j = choose|j: int| 0 <= j < i && (#[trigger] kept@[k])@ == fv[j].0;
                    assert(files@[j].0@ != files@[i as int].0@);
                }
            }
            kept.push(path);
            assert(Seq::new(kept@.len(), |k: int| kept@[k]@) =~= before.push(fv[i as int].0));
        }
        i += 1;
    }
    assert(fv.take(files@.len() as int) =~= fv);
    let ghost kv = Seq::new(kept@.len(), |k: int| kept@[k]@);
    let sorted = crate::order::sort_distinct(kept);
    proof {
        crate::order::lemma_is_sorted_set(Seq::new(sorted@.len(), |k: int| sorted@[k]@));
    }
    let mut out: Vec<String> = Vec::new();
    let mut k: usize = 0;
    while k < sorted.len() && k < limit
        invariant
            k <= sorted@.len(),
            k <= limit,
            out@.len() == k,
            Seq::new(out@.len(), |j: int| out@[j]@) == Seq::new(sorted@.len(), |j: int| sorted@[j]@).take(k as int),
        decreases sorted.len() - k,
    {
        let ghost before = Seq::new(out@.len(), |j: int| out@[j]@);
        let item = string_of(sorted[k].as_slice());
        assert(item@ == Seq::new(sorted@.len(), |j: int| sorted@[j]@)[k as int]);
        out.push(item);
        k += 1;
        assert(Seq::new(out@.len(), |j: int| out@[j]@) =~= Seq::new(sorted@.len(), |j: int| sorted@[j]@).take(k as int));
    }
    proof {
        let sv = Seq::new(sorted@.len(), |j: int| sorted@[j]@);
        if k == sorted@.len() {
            assert(sv.take(k as int) =~= sv);
        }
    }
    out
}

// ── Storage engine (the parts that compute) ────────────────────────

/// The storage engine's own state: the signing key and limits, and the
/// resumable uploads in progress.  The backend I/O and upload hooks run
/// around it.
pub struct StorageEngine {
    /// HMAC key for signing URLs.
    pub signing_key: Vec<u8>,
    /// Default signed URL TTL in seconds.
    pub signed_url_ttl: u64,
    /// Maximum upload size in bytes (0 = unlimited).
    pub max_upload_size: u64,
    /// Active resumable uploads, one per id.
    pub uploads: Vec<ResumableUpload>,
}

impl StorageEngine {
    /// The engine's invariant: no two uploads share an id.
    pub open spec fn wf(&self) -> bool {
        upload_ids_distinct(self.uploads@)
    }

    /// A new engine with the given signing key, a one-hour URL TTL, the
    /// default upload limit, and no uploads.
    pub fn new(signing_key: Vec<u8>) -> (r: StorageEngine)
        ensures
            r.wf(),
            r.signing_key@ == signing_key@,
            r.signed_url_ttl == 3600,
            r.max_upload_size == DEFAULT_MAX_UPLOAD_SIZE,
            r.uploads@.len() == 0,
    {
        StorageEngine {
            signing_key,
            signed_url_ttl: 3600,
            max_upload_size: DEFAULT_MAX_UPLOAD_SIZE,
            uploads: Vec::new(),
        }
    }

    /// Set the maximum upload size in bytes.
    pub fn set_max_upload_size(&mut self, size: u64)
        ensures
            final(self).max_upload_size == size,
            final(self).signing_key == old(self).signing_key,
            final(self).signed_url_ttl == old(self).signed_url_ttl,
            final(self).uploads == old(self).uploads,
    {
        self.max_upload_size = size;
    }

    /// The maximum upload size in bytes (`0` = unlimited).
    pub fn max_upload_size(&self) -> (r: u64)
        ensures
            r == self.max_upload_size,
    {
        self.max_upload_size
    }

    /// Set the default signed URL TTL, in seconds.
    pub fn set_signed_url_ttl(&mut self, ttl_secs: u64)
        ensures
            final(self).signed_url_ttl == ttl_secs,
            final(self).signing_key == old(self).signing_key,
            final(self).max_upload_size == old(self).max_upload_size,
            final(self).uploads == old(self).uploads,
    {
        self.signed_url_ttl = ttl_secs;
    }

    /// The next step of an upload of `size` bytes of `content_type` with
    /// `n_hooks` pre-upload hooks, of which the first `hooks_passed`
    /// accepted it; `outcome` is what the hook numbered `hooks_passed`
    /// answered, when it has just run.
    /// - An upload that fails [`check_upload`] is rejected with its error,
    ///   before any hook runs.
    /// - A hook's rejection rejects the upload with the hook's error.
    /// - Otherwise the next hook runs, in order; once every hook accepted,
    ///   the upload is persisted.
    pub fn upload_step(
        &self,
        size: u64,
        content_type: &str,
        hooks_passed: usize,
        outcome: Option<Result<(), StorageError>>,
        n_hooks: usize,
    ) -> (r: UploadAction)
        ensures
            match upload_check_rejection(self.max_upload_size, size, content_type@) {
                Some(m) => r matches UploadAction::Reject(StorageError::Rejected(x)) && x@ == m,
                None => match outcome {
                    Some(Err(e)) => r == UploadAction::Reject(e),
                    _ => {
                        let next: int = if outcome is Some { hooks_passed + 1 } else { hooks_passed as int };
                        if next < n_hooks {
                            r == UploadAction::RunHook(next as usize)
                        } else {
                            r == UploadAction::Persist
                        }
                    },
                },
            },
    {
        match self.check_upload(size, content_type) {
            Err(e) => {
                return UploadAction::Reject(e);
            },
            Ok(()) => {},
        }
        let next_more = match outcome {
            Some(Err(e)) => {
                return UploadAction::Reject(e);
            },
            Some(Ok(())) => hooks_passed < n_hooks && n_hooks - hooks_passed > 1,
            None => hooks_passed < n_hooks,
        };
        if next_more {
            match outcome {
                Some(_) => UploadAction::RunHook(hooks_passed + 1),
                None => UploadAction::RunHook(hooks_passed),
            }
        } else {
            UploadAction::Persist
        }
    }

    /// The checks an upload of `size` bytes of `content_type` must pass
    /// before the hooks and the backend see it: the size limit, then the
    /// content type.
    pub fn check_upload(&self, size: u64, content_type: &str) -> (r: Result<(), StorageError>)
        ensures
            match upload_check_rejection(self.max_upload_size, size, content_type@) {
                None => r is Ok,
                Some(m) => r matches Err(StorageError::Rejected(x)) && x@ == m,
            },
    {
        check_upload_size(size, self.max_upload_size)?;
        validate_content_type(content_type)
    }

    /// A URL for `path` under `base_url`, valid until `now` plus the TTL
    /// and signed with the engine's key.  A TTL that takes the expiry past
    /// what `i64` seconds hold is an internal error.
    pub fn signed_url_at(&self, path: &str, base_url: &str, now: i64) -> (r: Result<SignedUrl, StorageError>)
        ensures
            now + self.signed_url_ttl <= i64::MAX ==> (r matches Ok(u) && u.expires_at == now + self.signed_url_ttl
                && u.expires_in == self.signed_url_ttl && u.url@ == signed_url_text(
                base_url@,
                path@,
                u.expires_at,
                signature_of(self.signing_key@, path@, u.expires_at),
            )),
            now + self.signed_url_ttl > i64::MAX ==> r matches Err(StorageError::Internal(_)),
    {
        let e: i128 = now as i128 + self.signed_url_ttl as i128;
        if e > 0x7FFF_FFFF_FFFF_FFFFi128 {
            return Err(StorageError::Internal(text_of("signed URL expiry out of range")));
        }
        let expires = e as i64;
        let tag = tag_of(&self.signing_key, path, expires)?;
        let sig = base64url_encode(tag.as_slice());
        let mut u = chars_of(base_url);
        push_str_chars(&mut u, "/");
        push_str_chars(&mut u, path);
        push_str_chars(&mut u, "?expires=");
        push_chars(&mut u, &crate::text::signed_decimal_chars(expires));
        push_str_chars(&mut u, "&sig=");
        push_str_chars(&mut u, sig.as_str());
        Ok(SignedUrl { url: string_of(u.as_slice()), expires_at: expires, expires_in: self.signed_url_ttl })
    }

    /// A signed URL for `path`, valid from the current time for the TTL:
    /// what `signed_url_at` gives at some time `now` of the clock's range.
    /// A TTL that cannot take the expiry past `i64::MAX` from any such time
    /// always gives a URL.
    pub fn signed_url(&self, path: &str, base_url: &str) -> (r: Result<SignedUrl, StorageError>)
        ensures
            exists|now: i64|
                #![trigger clock_range(now as int)]
                {
                    &&& clock_range(now as int)
                    &&& now + self.signed_url_ttl <= i64::MAX ==> (r matches Ok(u) && u.expires_at == now
                        + self.signed_url_ttl && u.expires_in == self.signed_url_ttl && u.url@ == signed_url_text(
                        base_url@,
                        path@,
                        u.expires_at,
                        signature_of(self.signing_key@, path@, u.expires_at),
                    ))
                    &&& now + self.signed_url_ttl > i64::MAX ==> (r matches Err(StorageError::Internal(_)))
                },
            self.signed_url_ttl <= i64::MAX - 8_210_266_876_799 ==> r is Ok,
    {
        let now = now_seconds();
        let r = self.signed_url_at(path, base_url, now);
        assert(clock_range(now as int));
        r
    }

    /// Check a signed URL at time `now`: expired when `now` is past
    /// `expires`; otherwise valid exactly when the signature decodes to the
    /// tag of `path` and `expires` under the engine's key.
    pub fn verify_signed_url_at(&self, path: &str, expires: i64, signature: &str, now: i64) -> (r: Result<
        (),
        StorageError,
    >)
        ensures
            now > expires ==> r matches Err(StorageError::SignatureExpired),
            now <= expires ==> (r is Ok <==> base64url_decoded(signature@) == Some(
                hmac_sha256_of(self.signing_key@, signing_message(path@, expires)),
            )),
            now <= expires && r is Err ==> r matches Err(StorageError::InvalidSignature),
            now <= expires && signature@ == signature_of(self.signing_key@, path@, expires) ==> r is Ok,
    {
        if now > expires {
            return Err(StorageError::SignatureExpired);
        }
        let expected = tag_of(&self.signing_key, path, expires)?;
        let received = match base64url_decode(signature) {
            Some(b) => b,
            None => {
                return Err(StorageError::InvalidSignature);
            },
        };
        if received.len() != 32 {
            return Err(StorageError::InvalidSignature);
        }
        if !tags_equal(expected.as_slice(), received.as_slice()) {
            return Err(StorageError::InvalidSignature);
        }
        Ok(())
    }

    /// Check a signed URL against the current time: what
    /// `verify_signed_url_at` gives at some time `now` of the clock's range.
    /// An expiry before that range is always expired; one after it is never
    /// expired, and then the URL is valid exactly when its signature is.
    pub fn verify_signed_url(&self, path: &str, expires: i64, signature: &str) -> (r: Result<(), StorageError>)
        ensures
            exists|now: i64|
                #![trigger clock_range(now as int)]
                {
                    &&& clock_range(now as int)
                    &&& now > expires ==> (r matches Err(StorageError::SignatureExpired))
                    &&& now <= expires ==> (r is Ok <==> base64url_decoded(signature@) == Some(
                        hmac_sha256_of(self.signing_key@, signing_message(path@, expires)),
                    ))
                    &&& now <= expires && r is Err ==> (r matches Err(StorageError::InvalidSignature))
                },
            expires < -8_334_601_228_800 ==> r matches Err(StorageError::SignatureExpired),
            expires >= 8_210_266_876_799 ==> (r is Ok <==> base64url_decoded(signature@) == Some(
                hmac_sha256_of(self.signing_key@, signing_message(path@, expires)),
            )),
            expires >= 8_210_266_876_799 && signature@ == signature_of(self.signing_key@, path@, expires) ==> r is Ok,
    {
        let now = now_seconds();
        let r = self.verify_signed_url_at(path, expires, signature, now);
        assert(clock_range(now as int));
        r
    }

    /// Register a resumable upload with the given id and creation time,
    /// nothing received yet; an upload already under that id is replaced.
    pub fn create_resumable_upload_with(
        &mut self,
        upload_id: u128,
        path: &str,
        content_type: &str,
        total_size: Option<u64>,
        now: i64,
    )
        requires
            old(self).wf(),
        ensures
            final(self).wf(),
            match upload_pos(old(self).uploads@, upload_id) {
                Some(i) => final(self).uploads@ == old(self).uploads@.update(i, final(self).uploads@[i]),
                None => final(self).uploads@ == old(self).uploads@.push(final(self).uploads@.last()),
            },
            upload_pos(final(self).uploads@, upload_id) matches Some(j) && ({
                let u = final(self).uploads@[j];
                &&& u.upload_id == upload_id
                &&& u.path@ == path@
                &&& u.content_type@ == content_type@
                &&& u.total_size == total_size
                &&& u.bytes_received == 0
                &&& u.next_offset == 0
                &&& u.created_at == now
            }),
            final(self).signing_key == old(self).signing_key,
            final(self).signed_url_ttl == old(self).signed_url_ttl,
            final(self).max_upload_size == old(self).max_upload_size,
    {
        let upload = ResumableUpload {
            upload_id,
            path: path.to_owned(),
            content_type: content_type.to_owned(),
            total_size,
            bytes_received: 0,
            created_at: now,
            next_offset: 0,
        };
        match find_upload(&self.uploads, upload_id) {
            Some(i) => {
                self.uploads.set(i, upload);
                proof {
                    assert forall|p: int, q: int| 0 <= p < q < self.uploads@.len() implies self.uploads@[p].upload_id
                        != self.uploads@[q].upload_id by {
                        assert(old(self).uploads@[p].upload_id != old(self).uploads@[q].upload_id);
                    }
                    assert(self.uploads@[i as int].upload_id == upload_id);
                }
            },
            None => {
                proof {
                    assert forall|i: int| 0 <= i < self.uploads@.len() implies self.uploads@[i].upload_id != upload_id by {
                        if self.uploads@[i].upload_id == upload_id {
                            assert(upload_pos(self.uploads@, upload_id) is Some);
                        }
                    }
                }
                self.uploads.push(upload);
                proof {
                    let n = self.uploads@.len() - 1;
                    assert(self.uploads@[n].upload_id == upload_id);
                }
            },
        }
        proof {
            let j = choose|j: int| 0 <= j < self.uploads@.len() && self.uploads@[j].upload_id == upload_id;
            let w = upload_pos(self.uploads@, upload_id)->0;
            if w != j {
                if w < j {
                    assert(self.uploads@[w].upload_id != self.uploads@[j].upload_id);
                } else {
                    assert(self.uploads@[j].upload_id != self.uploads@[w].upload_id);
                }
            }
        }
    }

    /// Start a resumable upload under a fresh random id at the current
    /// time; returns the id.
    pub fn create_resumable_upload(&mut self, path: &str, content_type: &str, total_size: Option<u64>) -> (r: u128)
        requires
            old(self).wf(),
        ensures
            final(self).wf(),
            crate::tables::is_v4_uuid(r),
            upload_pos(final(self).uploads@, r) matches Some(j) && ({
                let u = final(self).uploads@[j];
                &&& u.path@ == path@
                &&& u.content_type@ == content_type@
                &&& u.total_size == total_size
                &&& u.bytes_received == 0
                &&& u.next_offset == 0
            }),
    {
        let id = crate::tables::new_uuid_v4();
        let now = crate::schema::now_millis();
        self.create_resumable_upload_with(id, path, content_type, total_size, now);
        id
    }

    /// The state of an upload, if it is in progress.
    pub fn resumable_upload_status(&self, upload_id: u128) -> (r: Option<ResumableUpload>)
        requires
            self.wf(),
        ensures
            match upload_pos(self.uploads@, upload_id) {
                None => r is None,
                Some(i) => r matches Some(u) && {
                    let o = self.uploads@[i];
                    &&& u.upload_id == o.upload_id
                    &&& u.path@ == o.path@
                    &&& u.content_type@ == o.content_type@
                    &&& u.total_size == o.total_size
                    &&& u.bytes_received == o.bytes_received
                    &&& u.created_at == o.created_at
                    &&& u.next_offset == o.next_offset
                },
            },
    {
        match find_upload(&self.uploads, upload_id) {
            Some(i) => Some(clone_upload(&self.uploads[i])),
            None => None,
        }
    }

    /// Cancel an upload: `true` when it was in progress (and is now gone).
    pub fn cancel_resumable_upload(&mut self, upload_id: u128) -> (r: bool)
        requires
            old(self).wf(),
        ensures
            final(self).wf(),
            r <==> upload_pos(old(self).uploads@, upload_id) is Some,
            upload_pos(final(self).uploads@, upload_id) is None,
            match upload_pos(old(self).uploads@, upload_id) {
                Some(i) => final(self).uploads@ == old(self).uploads@.remove(i),
                None => final(self).uploads@ == old(self).uploads@,
            },
            final(self).signing_key == old(self).signing_key,
            final(self).signed_url_ttl == old(self).signed_url_ttl,
            final(self).max_upload_size == old(self).max_upload_size,
    {
        match find_upload(&self.uploads, upload_id) {
            Some(i) => {
                let ghost before = self.uploads@;
                self.uploads.remove(i);
                proof {
                    assert forall|p: int, q: int| 0 <= p < q < self.uploads@.len() implies self.uploads@[p].upload_id
                        != self.uploads@[q].upload_id by {
                        let p0 = if p < i { p } else { p + 1 };
                        let q0 = if q < i { q } else { q + 1 };
                        assert(before[p0].upload_id != before[q0].upload_id);
                    }
                    if exists|k: int| 0 <= k < self.uploads@.len() && self.uploads@[k].upload_id == upload_id {
                        let k = choose|k: int| 0 <= k < self.uploads@.len() && self.uploads@[k].upload_id == upload_id;
                        let k0 = if k < i { k } else { k + 1 };
                        assert(before[k0].upload_id == upload_id);
                        assert(k0 != i);
                        if k0 < i {
                            assert(before[k0].upload_id != before[i as int].upload_id);
                        } else {
                            assert(before[i as int].upload_id != before[k0].upload_id);
                        }
                    }
                }
                true
            },
            None => false,
        }
    }

    /// Accept a chunk of `len` bytes at `offset` for an upload: the offset
    /// must be the upload's next expected offset; the received count and
    /// the next offset both advance by `len`.  Returns the new next offset.
    pub fn append_chunk_at(&mut self, upload_id: u128, offset: u64, len: u64, id_text: &str) -> (r: Result<
        u64,
        StorageError,
    >)
        requires
            old(self).wf(),
        ensures
            final(self).wf(),
            final(self).signing_key == old(self).signing_key,
            final(self).signed_url_ttl == old(self).signed_url_ttl,
            final(self).max_upload_size == old(self).max_upload_size,
            match upload_pos(old(self).uploads@, upload_id) {
                None => r matches Err(StorageError::NotFound(m)) && m@ == "upload "@ + id_text@
                    && final(self).uploads@ == old(self).uploads@,
                Some(i) => {
                    let u = old(self).uploads@[i];
                    if offset != u.next_offset {
                        r matches Err(StorageError::InvalidOffset { expected, received }) && expected
                            == u.next_offset && received == offset && final(self).uploads@ == old(self).uploads@
                    } else if u.bytes_received + len > u64::MAX || offset + len > u64::MAX {
                        r matches Err(StorageError::Internal(_)) && final(self).uploads@ == old(self).uploads@
                    } else {
                        r == Ok::<u64, StorageError>((offset + len) as u64) && final(self).uploads@ == old(
                            self,
                        ).uploads@.update(
                            i,
                            ResumableUpload {
                                bytes_received: (u.bytes_received + len) as u64,
                                next_offset: (offset + len) as u64,
                                ..u
                            },
                        )
                    }
                },
            },
    {
        match find_upload(&self.uploads, upload_id) {
            None => {
                let mut m = chars_of("upload ");
                push_str_chars(&mut m, id_text);
                Err(StorageError::NotFound(string_of(m.as_slice())))
            },
            Some(i) => {
                let u = &self.uploads[i];
                if offset != u.next_offset {
                    return Err(StorageError::InvalidOffset { expected: u.next_offset, received: offset });
                }
                if u.bytes_received > u64::MAX - len || offset > u64::MAX - len {
                    return Err(StorageError::Internal(text_of("upload size overflow")));
                }
                let next = offset + len;
                let nb = u.bytes_received + len;
                self.uploads[i].bytes_received = nb;
                self.uploads[i].next_offset = next;
                Ok(next)
            },
        }
    }
}

} // verus!
