//! Image transform pipelines for the storage endpoint: the transform
//! string (e.g. `resize:800x600,crop:0,0,400,400,format:webp,quality:80`)
//! is parsed into an ordered list of operations; the output format and
//! quality are read from the last operations that set them.  A small
//! byte cache with explicit expiry keeps transformed results.
use vstd::prelude::*;
use crate::text::{
    chars_of, chars_eq, string_of, trim, trim_chars, ascii_lower_seq, ascii_lower_exec, parse_unsigned,
    parse_unsigned_exec, split_seq, split_on, split_piece, split_count, unsigned_parse_error,
    unsigned_parse_error_exec, decimal_of, decimal_chars, push_chars, push_str_chars, slice_chars,
};

verus! {

// ── Operations ─────────────────────────────────────────────────────

/// A single image transform operation, in declaration order.
#[derive(Debug, Clone)]
pub enum Op {
    /// Resize to an exact width/height (aspect ratio not preserved).
    Resize { w: u32, h: u32 },
    /// Crop a rectangle starting at `(x, y)` with dimensions `w`×`h`.
    Crop { x: u32, y: u32, w: u32, h: u32 },
    /// Force the output format (`webp`, `avif`, `jpeg`/`jpg`, `png`).
    Format(String),
    /// Quality hint for lossy encoders (1-100).
    Quality(u8),
}

/// The mathematical shape of an [`Op`].
pub enum OpView {
    Resize { w: u32, h: u32 },
    Crop { x: u32, y: u32, w: u32, h: u32 },
    Format(Seq<char>),
    Quality(u8),
}

impl View for Op {
    type V = OpView;

    open spec fn view(&self) -> OpView {
        match *self {
            Op::Resize { w, h } => OpView::Resize { w, h },
            Op::Crop { x, y, w, h } => OpView::Crop { x, y, w, h },
            Op::Format(f) => OpView::Format(f@),
            Op::Quality(q) => OpView::Quality(q),
        }
    }
}

pub open spec fn op_views(v: Seq<Op>) -> Seq<OpView> {
    Seq::new(v.len(), |i: int| v[i]@)
}

/// Errors produced while parsing, applying, or encoding an image transform.
#[derive(Debug)]
pub enum TransformError {
    /// The transform string was malformed (unknown op, bad token, bad value).
    Parse(String),
    /// The `image` crate failed to decode or encode the image.
    Image(image::ImageError),
    /// A crop region fell outside the source image bounds.
    CropOutOfBounds,
}

/// Output format of the encoder.
#[derive(Debug, Clone, Copy, PartialEq, Eq, Structural)]
pub enum OutputFormat {
    Jpeg,
    Png,
    Webp,
    Avif,
}

/// The output format named by `s` (trimmed, ASCII case ignored).
pub open spec fn output_format_of(s: Seq<char>) -> Option<OutputFormat> {
    let t = ascii_lower_seq(trim(s));
    if t == "jpeg"@ || t == "jpg"@ {
        Some(OutputFormat::Jpeg)
    } else if t == "png"@ {
        Some(OutputFormat::Png)
    } else if t == "webp"@ {
        Some(OutputFormat::Webp)
    } else if t == "avif"@ {
        Some(OutputFormat::Avif)
    } else {
        None
    }
}

fn lower_chars(s: &Vec<char>) -> (r: Vec<char>)
    ensures
        r@ == ascii_lower_seq(s@),
{
    let mut out: Vec<char> = Vec::new();
    let mut i: usize = 0;
    while i < s.len()
        invariant
            i <= s@.len(),
            out@ == ascii_lower_seq(s@.subrange(0, i as int)),
        decreases s.len() - i,
    {
        out.push(ascii_lower_exec(s[i]));
        i += 1;
        assert(out@ =~= ascii_lower_seq(s@.subrange(0, i as int)));
    }
    assert(s@.subrange(0, s@.len() as int) =~= s@);
    out
}

fn is_word(s: &Vec<char>, w: &str) -> (r: bool)
    ensures
        r <==> s@ == w@,
{
    chars_eq(s.as_slice(), chars_of(w).as_slice())
}

impl OutputFormat {
    /// The output format named by `s`, if any.
    pub fn parse(s: &str) -> (r: Option<OutputFormat>)
        ensures
            r == output_format_of(s@),
    {
        let t = lower_chars(&trim_chars(&chars_of(s)));
        if is_word(&t, "jpeg") || is_word(&t, "jpg") {
            Some(OutputFormat::Jpeg)
        } else if is_word(&t, "png") {
            Some(OutputFormat::Png)
        } else if is_word(&t, "webp") {
            Some(OutputFormat::Webp)
        } else if is_word(&t, "avif") {
            Some(OutputFormat::Avif)
        } else {
            None
        }
    }
}

// ── Parsing one operation ──────────────────────────────────────────

/// Splitting on `x` or `X`: the end of the piece that starts at `from`.
pub open spec fn x_piece_end(s: Seq<char>, from: int) -> int
    decreases s.len() - from,
{
    if from >= s.len() || s[from] == 'x' || s[from] == 'X' {
        from
    } else {
        x_piece_end(s, from + 1)
    }
}

/// The first and second pieces of `s.split(['x', 'X'])` (the second is
/// absent when `s` has no `x`/`X`).
pub open spec fn resize_parts(s: Seq<char>) -> (Seq<char>, Option<Seq<char>>) {
    let e1 = x_piece_end(s, 0);
    if e1 >= s.len() {
        (s, None)
    } else {
        (s.subrange(0, e1), Some(s.subrange(e1 + 1, x_piece_end(s, e1 + 1))))
    }
}

/// A `u32` read from trimmed text.
pub open spec fn u32_of(s: Seq<char>) -> Option<u32> {
    match parse_unsigned(trim(s), 0xFFFF_FFFF) {
        Some(n) => Some(n as u32),
        None => None,
    }
}

/// `pre` (which ends in an opening quote), `v`, and a closing quote.
pub open spec fn quoted(pre: Seq<char>, v: Seq<char>) -> Seq<char> {
    pre + v + "'"@
}

pub open spec fn resize_op(val: Seq<char>) -> Result<OpView, Seq<char>> {
    let (a, b) = resize_parts(val);
    match u32_of(a) {
        None => Err(quoted("resize: bad width in '"@, val)),
        Some(w) => match b {
            None => Err(quoted("resize: bad height in '"@, val)),
            Some(bb) => match u32_of(bb) {
                None => Err(quoted("resize: bad height in '"@, val)),
                Some(h) => if w == 0 || h == 0 {
                    Err("resize: width/height must be > 0"@)
                } else if w > 16384 || h > 16384 {
                    Err("resize: dimension exceeds 16384"@)
                } else {
                    Ok(OpView::Resize { w, h })
                },
            },
        },
    }
}

/// The first of the comma-separated pieces that is not a `u32`, if any.
pub open spec fn first_bad_piece(ps: Seq<Seq<char>>) -> Option<int> {
    if exists|k: int| 0 <= k < ps.len() && u32_of(#[trigger] ps[k]) is None {
        Some(
            choose|k: int|
                0 <= k < ps.len() && u32_of(#[trigger] ps[k]) is None && forall|j: int|
                    0 <= j < k ==> u32_of(#[trigger] ps[j]) is Some,
        )
    } else {
        None
    }
}

pub open spec fn crop_op(val: Seq<char>) -> Result<OpView, Seq<char>> {
    let ps = split_seq(val, ',');
    match first_bad_piece(ps) {
        Some(k) => Err("crop: "@ + unsigned_parse_error(trim(ps[k]), 0xFFFF_FFFF)),
        None => if ps.len() != 4 {
            Err("crop: expected 4 numbers x,y,w,h (got "@ + decimal_of(ps.len()) + ")"@)
        } else {
            let x = u32_of(ps[0])->0;
            let y = u32_of(ps[1])->0;
            let w = u32_of(ps[2])->0;
            let h = u32_of(ps[3])->0;
            if w == 0 || h == 0 {
                Err("crop: width/height must be > 0"@)
            } else if w > 16384 || h > 16384 {
                Err("crop: dimension exceeds 16384"@)
            } else {
                Ok(OpView::Crop { x, y, w, h })
            }
        },
    }
}

pub open spec fn format_op(val: Seq<char>) -> Result<OpView, Seq<char>> {
    if output_format_of(val) is None {
        Err(quoted("format: unknown output format '"@, val))
    } else {
        Ok(OpView::Format(ascii_lower_seq(trim(val))))
    }
}

pub open spec fn quality_op(val: Seq<char>) -> Result<OpView, Seq<char>> {
    match parse_unsigned(val, 255) {
        None => Err(quoted("quality: bad value '"@, val)),
        Some(q) => if 1 <= q <= 100 {
            Ok(OpView::Quality(q as u8))
        } else {
            Err("quality: must be in 1..=100"@)
        },
    }
}

/// An output format is read as the one it names, ignoring ASCII case
/// and surrounding space: every name (`jpeg`, `jpg`, `png`, `webp`,
/// `avif`) is read, and the format read is served as `image/<name>`
/// (`jpg` being JPEG).
pub proof fn lemma_output_format_is_the_one_named(v: Seq<char>)
    ensures
        ({
            let t = ascii_lower_seq(trim(v));
            &&& (t == "jpeg"@ || t == "jpg"@ || t == "png"@ || t == "webp"@ || t == "avif"@) ==> output_format_of(v) is Some
            &&& output_format_of(v) matches Some(f) ==> mime_of(f) == "image/"@ + (if t == "jpg"@ { "jpeg"@ } else { t })
        }),
{
    let t = ascii_lower_seq(trim(v));
    reveal_strlit("jpeg");
    reveal_strlit("jpg");
    reveal_strlit("png");
    reveal_strlit("webp");
    reveal_strlit("avif");
    reveal_strlit("image/");
    reveal_strlit("image/jpeg");
    reveal_strlit("image/png");
    reveal_strlit("image/webp");
    reveal_strlit("image/avif");
    if t == "jpeg"@ {
        assert("image/"@ + t =~= "image/jpeg"@);
    } else if t == "jpg"@ {
        assert("image/"@ + "jpeg"@ =~= "image/jpeg"@);
    } else if t == "png"@ {
        assert("image/"@ + t =~= "image/png"@);
    } else if t == "webp"@ {
        assert("image/"@ + t =~= "image/webp"@);
    } else if t == "avif"@ {
        assert("image/"@ + t =~= "image/avif"@);
    }
}

proof fn lemma_x_piece_end(s: Seq<char>, from: int, k: int)
    requires
        0 <= from <= k <= s.len(),
        forall|i: int| from <= i < k ==> s[i] != 'x' && s[i] != 'X',
        k == s.len() || s[k] == 'x',
    ensures
        x_piece_end(s, from) == k,
    decreases k - from,
{
    if from < k {
        lemma_x_piece_end(s, from + 1, k);
    }
}

/// A resize is read as the width and height written, in that order: the
/// text `<w>x<h>` of two numbers in `1..=16384` is the resize to `w`×`h`,
/// and every resize read has both sides in that range.
pub proof fn lemma_resize_reads_what_is_written(w: u32, h: u32, val: Seq<char>)
    ensures
        1 <= w <= 16384 && 1 <= h <= 16384 ==> resize_op(decimal_of(w as nat) + "x"@ + decimal_of(h as nat))
            == Ok::<OpView, Seq<char>>(OpView::Resize { w, h }),
        resize_op(val) matches Ok(OpView::Resize { w: a, h: b }) ==> 1 <= a <= 16384 && 1 <= b <= 16384,
{
    reveal_strlit("x");
    if 1 <= w <= 16384 && 1 <= h <= 16384 {
        let dw = decimal_of(w as nat);
        let dh = decimal_of(h as nat);
        crate::text::lemma_decimal_round_trip(w as nat);
        crate::text::lemma_decimal_round_trip(h as nat);
        let v = dw + "x"@ + dh;
        assert(v[dw.len() as int] == 'x');
        assert forall|i: int| 0 <= i < dw.len() implies v[i] != 'x' && v[i] != 'X' by {
            assert(v[i] == dw[i]);
            assert(crate::text::is_digit(dw[i]));
        }
        lemma_x_piece_end(v, 0, dw.len() as int);
        assert forall|i: int| dw.len() + 1 <= i < v.len() implies v[i] != 'x' && v[i] != 'X' by {
            assert(v[i] == dh[i - dw.len() - 1]);
            assert(crate::text::is_digit(dh[i - dw.len() - 1]));
        }
        lemma_x_piece_end(v, dw.len() as int + 1, v.len() as int);
        assert(v.subrange(0, dw.len() as int) =~= dw);
        assert(v.subrange(dw.len() as int + 1, v.len() as int) =~= dh);
        assert(parse_unsigned(dw, 0xFFFF_FFFF) == Some(w as int));
        assert(parse_unsigned(dh, 0xFFFF_FFFF) == Some(h as int));
    }
}

/// A quality is read as the number written: the text of a number in
/// `1..=100` is that quality, and every quality read is in that range.
pub proof fn lemma_quality_reads_what_is_written(q: u8, val: Seq<char>)
    ensures
        1 <= q <= 100 ==> quality_op(decimal_of(q as nat)) == Ok::<OpView, Seq<char>>(OpView::Quality(q)),
        quality_op(val) matches Ok(OpView::Quality(x)) ==> 1 <= x <= 100,
{
    crate::text::lemma_decimal_round_trip(q as nat);
    assert(parse_unsigned(decimal_of(q as nat), 255) == Some(q as int));
}

/// A crop read has both sides in `1..=16384`.
pub proof fn lemma_crop_sides(val: Seq<char>)
    ensures
        crop_op(val) matches Ok(OpView::Crop { x, y, w, h }) ==> 1 <= w <= 16384 && 1 <= h <= 16384,
{
}

/// The operation a key and value stand for, or the parse error message.
pub open spec fn op_of(key: Seq<char>, val: Seq<char>) -> Result<OpView, Seq<char>> {
    if key == "resize"@ {
        resize_op(val)
    } else if key == "crop"@ {
        crop_op(val)
    } else if key == "format"@ || key == "f"@ {
        format_op(val)
    } else if key == "quality"@ || key == "q"@ {
        quality_op(val)
    } else {
        Err(quoted("unknown op: '"@, key))
    }
}

/// How an operation result is reported.
pub open spec fn op_result_matches(r: Result<Op, TransformError>, expected: Result<OpView, Seq<char>>) -> bool {
    match expected {
        Ok(o) => r matches Ok(op) && op@ == o,
        Err(m) => r matches Err(TransformError::Parse(x)) && x@ == m,
    }
}

fn parse_error(pre: &str, v: &Vec<char>) -> (r: TransformError)
    ensures
        r matches TransformError::Parse(m) && m@ == quoted(pre@, v@),
{
    let mut m = chars_of(pre);
    push_chars(&mut m, v);
    push_str_chars(&mut m, "'");
    TransformError::Parse(string_of(m.as_slice()))
}

fn parse_message(m: &str) -> (r: TransformError)
    ensures
        r matches TransformError::Parse(x) && x@ == m@,
{
    TransformError::Parse(m.to_owned())
}

fn parse_u32_text(s: &Vec<char>) -> (r: Option<u32>)
    ensures
        r == u32_of(s@),
{
    let t = trim_chars(s);
    match parse_unsigned_exec(&t, 0xFFFF_FFFF) {
        Some(n) => Some(n as u32),
        None => None,
    }
}

fn x_end(s: &Vec<char>, from: usize) -> (r: usize)
    requires
        from <= s.len(),
    ensures
        r == x_piece_end(s@, from as int),
        from <= r <= s.len(),
{
    let mut i = from;
    while i < s.len() && s[i] != 'x' && s[i] != 'X'
        invariant
            from <= i <= s.len(),
            x_piece_end(s@, i as int) == x_piece_end(s@, from as int),
        decreases s.len() - i,
    {
        i += 1;
    }
    i
}

fn parse_resize(v: &Vec<char>) -> (r: Result<Op, TransformError>)
    ensures
        op_result_matches(r, resize_op(v@)),
{
    let e1 = x_end(v, 0);
    let a = slice_chars(v, 0, e1);
    proof {
        if e1 >= v@.len() {
            assert(a@ =~= v@);
        }
        assert(a@ == resize_parts(v@).0);
    }
    let w = match parse_u32_text(&a) {
        Some(w) => w,
        None => {
            return Err(parse_error("resize: bad width in '", v));
        },
    };
    if e1 >= v.len() {
        assert(a@ =~= v@);
        return Err(parse_error("resize: bad height in '", v));
    }
    let e2 = x_end(v, e1 + 1);
    let b = slice_chars(v, e1 + 1, e2);
    let h = match parse_u32_text(&b) {
        Some(h) => h,
        None => {
            return Err(parse_error("resize: bad height in '", v));
        },
    };
    if w == 0 || h == 0 {
        return Err(parse_message("resize: width/height must be > 0"));
    }
    if w > 16384 || h > 16384 {
        return Err(parse_message("resize: dimension exceeds 16384"));
    }
    Ok(Op::Resize { w, h })
}

/// The `u32`s of the pieces, or the position of the first that is not one.
fn crop_numbers(v: &Vec<char>) -> (r: Result<Vec<u32>, usize>)
    ensures
        match r {
            Ok(nums) => first_bad_piece(split_seq(v@, ',')) is None && nums@.len() == split_seq(v@, ',').len()
                && forall|j: int| 0 <= j < nums@.len() ==> u32_of(#[trigger] split_seq(v@, ',')[j]) == Some(nums@[j]),
            Err(k) => first_bad_piece(split_seq(v@, ',')) == Some(k as int) && k < split_seq(v@, ',').len(),
        },
{
    let ps = split_on(v, ',');
    let ghost pss = split_seq(v@, ',');
    let mut nums: Vec<u32> = Vec::new();
    let mut i: usize = 0;
    while i < ps.len()
        invariant
            i <= ps@.len(),
            ps@.len() == pss.len(),
            pss == split_seq(v@, ','),
            forall|j: int| 0 <= j < ps@.len() ==> (#[trigger] ps@[j])@ == split_piece(v@, ',', j),
            nums@.len() == i,
            forall|j: int| 0 <= j < i ==> u32_of(#[trigger] pss[j]) == Some(nums@[j]),
        decreases ps.len() - i,
    {
        assert(pss[i as int] == ps@[i as int]@);
        match parse_u32_text(&ps[i]) {
            Some(n) => {
                nums.push(n);
            },
            None => {
                proof {
                    assert(u32_of(pss[i as int]) is None);
                    let kk = choose|kk: int|
                        0 <= kk < pss.len() && u32_of(#[trigger] pss[kk]) is None && forall|j: int|
                            0 <= j < kk ==> u32_of(#[trigger] pss[j]) is Some;
                    if kk < i {
                        assert(u32_of(pss[kk]) == Some(nums@[kk]));
                    } else if kk > i {
                        assert(u32_of(pss[i as int]) is Some);
                    }
                }
                return Err(i);
            },
        }
        i += 1;
    }
    assert forall|k: int| 0 <= k < pss.len() implies u32_of(#[trigger] pss[k]) is Some by {
        assert(u32_of(pss[k]) == Some(nums@[k]));
    }
    Ok(nums)
}

fn parse_crop(v: &Vec<char>) -> (r: Result<Op, TransformError>)
    ensures
        op_result_matches(r, crop_op(v@)),
{
    match crop_numbers(v) {
        Err(k) => {
            let ps = split_on(v, ',');
            proof {
                assert(ps@[k as int]@ == split_seq(v@, ',')[k as int]);
            }
            let t = trim_chars(&ps[k]);
            let e = unsigned_parse_error_exec(&t, 0xFFFF_FFFF);
            let mut m = chars_of("crop: ");
            push_chars(&mut m, &e);
            Err(TransformError::Parse(string_of(m.as_slice())))
        },
        Ok(nums) => {
            if nums.len() != 4 {
                let mut m = chars_of("crop: expected 4 numbers x,y,w,h (got ");
                push_chars(&mut m, &decimal_chars(nums.len() as u64));
                push_str_chars(&mut m, ")");
                return Err(TransformError::Parse(string_of(m.as_slice())));
            }
            let x = nums[0];
            let y = nums[1];
            let w = nums[2];
            let h = nums[3];
            if w == 0 || h == 0 {
                return Err(parse_message("crop: width/height must be > 0"));
            }
            if w > 16384 || h > 16384 {
                return Err(parse_message("crop: dimension exceeds 16384"));
            }
            Ok(Op::Crop { x, y, w, h })
        },
    }
}

fn parse_format(v: &Vec<char>) -> (r: Result<Op, TransformError>)
    ensures
        op_result_matches(r, format_op(v@)),
{
    let text = string_of(v.as_slice());
    if OutputFormat::parse(text.as_str()).is_none() {
        return Err(parse_error("format: unknown output format '", v));
    }
    let f = lower_chars(&trim_chars(v));
    Ok(Op::Format(string_of(f.as_slice())))
}

fn parse_quality(v: &Vec<char>) -> (r: Result<Op, TransformError>)
    ensures
        op_result_matches(r, quality_op(v@)),
{
    match parse_unsigned_exec(v, 255) {
        None => Err(parse_error("quality: bad value '", v)),
        Some(q) => if 1 <= q && q <= 100 {
            Ok(Op::Quality(q as u8))
        } else {
            Err(parse_message("quality: must be in 1..=100"))
        },
    }
}

/// Parse one operation from its key and (trimmed) value.
pub fn parse_op(key: &str, val: &str) -> (r: Result<Op, TransformError>)
    ensures
        op_result_matches(r, op_of(key@, val@)),
{
    let k = chars_of(key);
    let v = chars_of(val);
    if is_word(&k, "resize") {
        parse_resize(&v)
    } else if is_word(&k, "crop") {
        parse_crop(&v)
    } else if is_word(&k, "format") || is_word(&k, "f") {
        parse_format(&v)
    } else if is_word(&k, "quality") || is_word(&k, "q") {
        parse_quality(&v)
    } else {
        Err(parse_error("unknown op: '", &k))
    }
}

// ── Tokenizing a transform string ──────────────────────────────────

/// The first position at or after `i` that is not a `,` or a space.
pub open spec fn skip_sep(t: Seq<char>, i: int) -> int
    decreases t.len() - i,
{
    if 0 <= i < t.len() && (t[i] == ',' || t[i] == ' ') {
        skip_sep(t, i + 1)
    } else {
        i
    }
}

/// The first position at or after `i` holding `c`, or the length.
pub open spec fn find_from(t: Seq<char>, i: int, c: char) -> int
    decreases t.len() - i,
{
    if i >= t.len() {
        t.len() as int
    } else if t[i] == c {
        i
    } else {
        find_from(t, i + 1, c)
    }
}

/// The end of a crop value that starts at `j`: the fourth comma from
/// there (having passed `commas` already), or the end of the text.
pub open spec fn crop_end(t: Seq<char>, j: int, commas: int) -> int
    decreases t.len() - j,
{
    if j >= t.len() {
        j
    } else if t[j] == ',' {
        if commas == 3 {
            j
        } else {
            crop_end(t, j + 1, commas + 1)
        }
    } else {
        crop_end(t, j + 1, commas)
    }
}

pub proof fn lemma_skip_sep(t: Seq<char>, i: int)
    requires
        0 <= i,
    ensures
        skip_sep(t, i) >= i,
    decreases t.len() - i,
{
    if 0 <= i < t.len() && (t[i] == ',' || t[i] == ' ') {
        lemma_skip_sep(t, i + 1);
    }
}

pub proof fn lemma_find_from(t: Seq<char>, i: int, c: char)
    requires
        0 <= i <= t.len(),
    ensures
        i <= find_from(t, i, c) <= t.len(),
    decreases t.len() - i,
{
    if i < t.len() && t[i] != c {
        lemma_find_from(t, i + 1, c);
    }
}

pub proof fn lemma_crop_end(t: Seq<char>, j: int, commas: int)
    requires
        0 <= j <= t.len(),
    ensures
        j <= crop_end(t, j, commas) <= t.len(),
    decreases t.len() - j,
{
    if j < t.len() {
        if t[j] == ',' {
            if commas != 3 {
                lemma_crop_end(t, j + 1, commas + 1);
            }
        } else {
            lemma_crop_end(t, j + 1, commas);
        }
    }
}

/// The operations of the tokens of `t` from position `i`: separators
/// are skipped; a token is `key:value`, where the key is trimmed and
/// lower-cased and the value runs to the next comma (to the fourth one
/// for `crop`); the first error stops the parse.
pub open spec fn tokens(t: Seq<char>, i: int) -> Result<Seq<OpView>, Seq<char>>
    decreases t.len() - i,
{
    if i < 0 {
        Ok(Seq::empty())
    } else {
        let j = skip_sep(t, i);
        if j >= t.len() {
            Ok(Seq::empty())
        } else {
            let k = find_from(t, j, ':');
            if k >= t.len() {
                Err("missing ':' in token starting at "@ + t.subrange(j, t.len() as int))
            } else {
                let key = ascii_lower_seq(trim(t.subrange(j, k)));
                let end = if key == "crop"@ {
                    crop_end(t, k + 1, 0)
                } else {
                    find_from(t, k + 1, ',')
                };
                match op_of(key, trim(t.subrange(k + 1, end))) {
                    Err(m) => Err(m),
                    Ok(o) => {
                        proof {
                            lemma_skip_sep(t, i);
                            lemma_find_from(t, j, ':');
                            lemma_crop_end(t, k + 1, 0);
                            lemma_find_from(t, k + 1, ',');
                        }
                        match tokens(t, end) {
                            Ok(rest) => Ok(seq![o] + rest),
                            Err(m) => Err(m),
                        }
                    },
                }
            }
        }
    }
}

/// What [`TransformOps::parse`] answers: the operations, or the message.
pub open spec fn parse_spec(s: Seq<char>) -> Result<Seq<OpView>, Seq<char>> {
    let t = trim(s);
    if t.len() == 0 {
        Err("empty transform string"@)
    } else {
        match tokens(t, 0) {
            Err(m) => Err(m),
            Ok(ops) => if ops.len() == 0 {
                Err("no operations parsed"@)
            } else {
                Ok(ops)
            },
        }
    }
}

/// `prefix` before the result `r` of the rest of a parse.
pub open spec fn after(prefix: Seq<OpView>, r: Result<Seq<OpView>, Seq<char>>) -> Result<Seq<OpView>, Seq<char>> {
    match r {
        Ok(rest) => Ok(prefix + rest),
        Err(m) => Err(m),
    }
}

fn skip_sep_exec(t: &Vec<char>, i: usize) -> (r: usize)
    requires
        i <= t.len(),
    ensures
        r == skip_sep(t@, i as int),
        i <= r <= t.len(),
{
    let mut j = i;
    while j < t.len() && (t[j] == ',' || t[j] == ' ')
        invariant
            i <= j <= t.len(),
            skip_sep(t@, j as int) == skip_sep(t@, i as int),
        decreases t.len() - j,
    {
        j += 1;
    }
    j
}

fn find_from_exec(t: &Vec<char>, i: usize, c: char) -> (r: usize)
    requires
        i <= t.len(),
    ensures
        r == find_from(t@, i as int, c),
        i <= r <= t.len(),
{
    let mut j = i;
    while j < t.len() && t[j] != c
        invariant
            i <= j <= t.len(),
            find_from(t@, j as int, c) == find_from(t@, i as int, c),
        decreases t.len() - j,
    {
        j += 1;
    }
    j
}

fn crop_end_exec(t: &Vec<char>, i: usize) -> (r: usize)
    requires
        i <= t.len(),
    ensures
        r == crop_end(t@, i as int, 0),
        i <= r <= t.len(),
{
    let mut j = i;
    let mut commas: usize = 0;
    while j < t.len() && !(t[j] == ',' && commas == 3)
        invariant
            i <= j <= t.len(),
            commas <= 3,
            crop_end(t@, j as int, commas as int) == crop_end(t@, i as int, 0),
        decreases t.len() - j,
    {
        if t[j] == ',' {
            commas += 1;
        }
        j += 1;
    }
    j
}

/// Ordered list of image operations parsed from a transform string.
#[derive(Debug, Clone)]
pub struct TransformOps {
    pub ops: Vec<Op>,
}

impl Default for TransformOps {
    fn default() -> (r: TransformOps)
        ensures
            r.ops@.len() == 0,
    {
        TransformOps { ops: Vec::new() }
    }
}

/// The last format an operation sets (operations whose text names no
/// format are passed over).
pub open spec fn last_format_of(ops: Seq<OpView>) -> Option<OutputFormat>
    decreases ops.len(),
{
    if ops.len() == 0 {
        None
    } else {
        match ops.last() {
            OpView::Format(f) => if output_format_of(f) is Some {
                output_format_of(f)
            } else {
                last_format_of(ops.drop_last())
            },
            _ => last_format_of(ops.drop_last()),
        }
    }
}

/// The last quality an operation sets.
pub open spec fn last_quality_of(ops: Seq<OpView>) -> Option<u8>
    decreases ops.len(),
{
    if ops.len() == 0 {
        None
    } else {
        match ops.last() {
            OpView::Quality(q) => Some(q),
            _ => last_quality_of(ops.drop_last()),
        }
    }
}

/// The MIME type of an output format.
pub open spec fn mime_of(f: OutputFormat) -> Seq<char> {
    match f {
        OutputFormat::Jpeg => "image/jpeg"@,
        OutputFormat::Png => "image/png"@,
        OutputFormat::Webp => "image/webp"@,
        OutputFormat::Avif => "image/avif"@,
    }
}

impl TransformOps {
    /// Parse a transform string such as
    /// `resize:800x600,crop:0,0,400,400,format:webp,quality:80`
    /// (see [`parse_spec`]).
    pub fn parse(s: &str) -> (r: Result<TransformOps, TransformError>)
        ensures
            match parse_spec(s@) {
                Ok(ops) => r matches Ok(t) && op_views(t.ops@) == ops,
                Err(m) => r matches Err(TransformError::Parse(x)) && x@ == m,
            },
    {
        let t = trim_chars(&chars_of(s));
        if t.len() == 0 {
            return Err(parse_message("empty transform string"));
        }
        let mut ops: Vec<Op> = Vec::new();
        let mut i: usize = 0;
        while i < t.len()
            invariant
                i <= t@.len(),
                t@ == trim(s@),
                t@.len() > 0,
                tokens(t@, 0) == after(op_views(ops@), tokens(t@, i as int)),
            decreases t.len() - i,
        {
            let j = skip_sep_exec(&t, i);
            if j >= t.len() {
                i = j;
                continue;
            }
            let k = find_from_exec(&t, j, ':');
            if k >= t.len() {
                let mut m = chars_of("missing ':' in token starting at ");
                push_chars(&mut m, &slice_chars(&t, j, t.len()));
                return Err(TransformError::Parse(string_of(m.as_slice())));
            }
            let key = lower_chars(&trim_chars(&slice_chars(&t, j, k)));
            let end = if is_word(&key, "crop") {
                crop_end_exec(&t, k + 1)
            } else {
                find_from_exec(&t, k + 1, ',')
            };
            let val = trim_chars(&slice_chars(&t, k + 1, end));
            let key_s = string_of(key.as_slice());
            let val_s = string_of(val.as_slice());
            let op = parse_op(key_s.as_str(), val_s.as_str())?;
            proof {
                assert(tokens(t@, i as int) == after(seq![op@], tokens(t@, end as int)));
                assert(op_views(ops@.push(op)) =~= op_views(ops@) + seq![op@]);
                match tokens(t@, end as int) {
                    Ok(rest) => {
                        assert(op_views(ops@) + (seq![op@] + rest) =~= op_views(ops@) + seq![op@] + rest);
                    },
                    Err(_) => {},
                }
            }
            ops.push(op);
            i = end;
        }
        if ops.len() == 0 {
            return Err(parse_message("no operations parsed"));
        }
        assert(op_views(ops@) + Seq::<OpView>::empty() =~= op_views(ops@));
        Ok(TransformOps { ops })
    }

    /// The last output format set, if any.
    pub fn last_format(&self) -> (r: Option<OutputFormat>)
        ensures
            r == last_format_of(op_views(self.ops@)),
    {
        let ghost v = op_views(self.ops@);
        assert(v.subrange(0, v.len() as int) =~= v);
        let mut i: usize = self.ops.len();
        while i > 0
            invariant
                i <= self.ops@.len(),
                v == op_views(self.ops@),
                last_format_of(v) == last_format_of(v.subrange(0, i as int)),
            decreases i,
        {
            let ghost w = v.subrange(0, i as int);
            assert(w.drop_last() =~= v.subrange(0, i - 1));
            assert(w.last() == self.ops@[i - 1]@);
            match &self.ops[i - 1] {
                Op::Format(f) => {
                    let p = OutputFormat::parse(f.as_str());
                    if p.is_some() {
                        return p;
                    }
                },
                _ => {},
            }
            i -= 1;
        }
        None
    }

    /// The last quality set, if any.
    pub fn last_quality(&self) -> (r: Option<u8>)
        ensures
            r == last_quality_of(op_views(self.ops@)),
    {
        let ghost v = op_views(self.ops@);
        assert(v.subrange(0, v.len() as int) =~= v);
        let mut i: usize = self.ops.len();
        while i > 0
            invariant
                i <= self.ops@.len(),
                v == op_views(self.ops@),
                last_quality_of(v) == last_quality_of(v.subrange(0, i as int)),
            decreases i,
        {
            let ghost w = v.subrange(0, i as int);
            assert(w.drop_last() =~= v.subrange(0, i - 1));
            assert(w.last() == self.ops@[i - 1]@);
            match &self.ops[i - 1] {
                Op::Quality(q) => {
                    return Some(*q);
                },
                _ => {},
            }
            i -= 1;
        }
        None
    }

    /// MIME type of the output: that of the last format set, PNG when none.
    pub fn output_mime(&self) -> (r: &'static str)
        ensures
            r@ == mime_of(
                match last_format_of(op_views(self.ops@)) {
                    Some(f) => f,
                    None => OutputFormat::Png,
                },
            ),
    {
        let f = match self.last_format() {
            Some(f) => f,
            None => OutputFormat::Png,
        };
        match f {
            OutputFormat::Jpeg => "image/jpeg",
            OutputFormat::Png => "image/png",
            OutputFormat::Webp => "image/webp",
            OutputFormat::Avif => "image/avif",
        }
    }
}

// ── Byte cache ─────────────────────────────────────────────────────

/// A cached transform result.
#[derive(Debug, Clone)]
pub struct CacheEntry {
    pub key: String,
    pub bytes: Vec<u8>,
    pub mime: String,
    /// When the entry was stored (milliseconds on a monotonic clock).
    pub inserted_at: u64,
    /// How long the entry lives, in milliseconds.
    pub ttl: u64,
}

/// A small TTL-aware cache of transformed images, one entry per key.
/// Expired entries are dropped lazily, when looked up.
#[derive(Debug, Clone)]
pub struct ByteCache {
    pub entries: Vec<CacheEntry>,
}

/// Position of the entry under `key`, if any.
pub open spec fn entry_pos(v: Seq<CacheEntry>, key: Seq<char>) -> Option<int> {
    if exists|i: int| 0 <= i < v.len() && v[i].key@ == key {
        Some(choose|i: int| 0 <= i < v.len() && v[i].key@ == key)
    } else {
        None
    }
}

/// Time since `then`, zero when `now` is earlier.
pub open spec fn elapsed(then: u64, now: u64) -> int {
    if now >= then {
        now - then
    } else {
        0
    }
}

/// The entry under `key` is alive at `now`.
pub open spec fn alive(v: Seq<CacheEntry>, key: Seq<char>, now: u64) -> bool {
    match entry_pos(v, key) {
        Some(i) => elapsed(v[i].inserted_at, now) < v[i].ttl,
        None => false,
    }
}

impl ByteCache {
    /// Keys are distinct.
    pub open spec fn wf(&self) -> bool {
        forall|i: int, j: int| 0 <= i < j < self.entries@.len() ==> self.entries@[i].key@ != self.entries@[j].key@
    }

    /// An empty cache.
    pub fn new() -> (r: ByteCache)
        ensures
            r.wf(),
            r.entries@.len() == 0,
    {
        ByteCache { entries: Vec::new() }
    }

    fn find(&self, key: &Vec<char>) -> (r: Option<usize>)
        requires
            self.wf(),
        ensures
            match r {
                Some(i) => entry_pos(self.entries@, key@) == Some(i as int) && i < self.entries@.len(),
                None => entry_pos(self.entries@, key@) is None,
            },
    {
        let mut i: usize = 0;
        while i < self.entries.len()
            invariant
                i <= self.entries@.len(),
                self.wf(),
                forall|j: int| 0 <= j < i ==> self.entries@[j].key@ != key@,
            decreases self.entries.len() - i,
        {
            if chars_eq(chars_of(self.entries[i].key.as_str()).as_slice(), key.as_slice()) {
                proof {
                    let w = choose|j: int| 0 <= j < self.entries@.len() && self.entries@[j].key@ == key@;
                    if w != i && w > i {
                        assert(self.entries@[i as int].key@ != self.entries@[w].key@);
                    }
                }
                return Some(i);
            }
            i += 1;
        }
        None
    }

    /// Look up `key` at time `now`: the bytes and MIME type of a live
    /// entry; an expired entry is removed and nothing is returned.
    pub fn get(&mut self, key: &str, now: u64) -> (r: Option<(Vec<u8>, String)>)
        requires
            old(self).wf(),
        ensures
            final(self).wf(),
            alive(old(self).entries@, key@, now) ==> final(self).entries@ == old(self).entries@ && (r matches Some(
                p,
            ) && {
                let e = old(self).entries@[entry_pos(old(self).entries@, key@)->0];
                p.0@ == e.bytes@ && p.1@ == e.mime@
            }),
            !alive(old(self).entries@, key@, now) ==> r is None && match entry_pos(old(self).entries@, key@) {
                Some(i) => final(self).entries@ == old(self).entries@.remove(i),
                None => final(self).entries@ == old(self).entries@,
            },
    {
        let k = chars_of(key);
        match self.find(&k) {
            Some(i) => {
                let e = &self.entries[i];
                let age: u64 = if now >= e.inserted_at { now - e.inserted_at } else { 0 };
                if age < e.ttl {
                    let mut b: Vec<u8> = Vec::new();
                    let mut j: usize = 0;
                    while j < e.bytes.len()
                        invariant
                            j <= e.bytes@.len(),
                            b@ == e.bytes@.subrange(0, j as int),
                        decreases e.bytes.len() - j,
                    {
                        b.push(e.bytes[j]);
                        j += 1;
                        assert(b@ =~= e.bytes@.subrange(0, j as int));
                    }
                    assert(e.bytes@.subrange(0, e.bytes@.len() as int) =~= e.bytes@);
                    return Some((b, crate::json::clone_string(&e.mime)));
                }
                let ghost before = self.entries@;
                self.entries.remove(i);
                proof {
                    assert forall|p: int, q: int| 0 <= p < q < self.entries@.len() implies self.entries@[p].key@
                        != self.entries@[q].key@ by {
                        let p0 = if p < i { p } else { p + 1 };
                        let q0 = if q < i { q } else { q + 1 };
                        assert(before[p0].key@ != before[q0].key@);
                    }
                }
                None
            },
            None => None,
        }
    }

    /// Store `bytes` with their MIME type under `key` at time `now`, to live
    /// for `ttl`; an entry already under `key` is replaced in place.
    pub fn set(&mut self, key: String, bytes: Vec<u8>, mime: &str, ttl: u64, now: u64)
        requires
            old(self).wf(),
        ensures
            final(self).wf(),
            entry_pos(final(self).entries@, key@) matches Some(i) && ({
                let e = final(self).entries@[i];
                &&& e.bytes@ == bytes@
                &&& e.mime@ == mime@
                &&& e.inserted_at == now
                &&& e.ttl == ttl
            }),
            match entry_pos(old(self).entries@, key@) {
                Some(i) => final(self).entries@ == old(self).entries@.update(i, final(self).entries@[i]),
                None => final(self).entries@ == old(self).entries@.push(final(self).entries@.last()),
            },
    {
        let k = chars_of(key.as_str());
        let ghost kv = key@;
        let entry = CacheEntry { key, bytes, mime: mime.to_owned(), inserted_at: now, ttl };
        match self.find(&k) {
            Some(i) => {
                self.entries.set(i, entry);
                proof {
                    assert forall|p: int, q: int| 0 <= p < q < self.entries@.len() implies self.entries@[p].key@
                        != self.entries@[q].key@ by {
                        assert(old(self).entries@[p].key@ != old(self).entries@[q].key@);
                    }
                    assert(self.entries@[i as int].key@ == kv);
                }
            },
            None => {
                proof {
                    assert forall|p: int| 0 <= p < self.entries@.len() implies self.entries@[p].key@ != kv by {
                        if self.entries@[p].key@ == kv {
                            assert(entry_pos(self.entries@, kv) is Some);
                        }
                    }
                }
                self.entries.push(entry);
                proof {
                    let n = self.entries@.len() - 1;
                    assert(self.entries@[n].key@ == kv);
                }
            },
        }
        proof {
            assert(self.wf());
            let j = choose|j: int| 0 <= j < self.entries@.len() && self.entries@[j].key@ == kv;
            let w = entry_pos(self.entries@, kv)->0;
            if w != j {
                if w < j {
                    assert(self.entries@[w].key@ != self.entries@[j].key@);
                } else {
                    assert(self.entries@[j].key@ != self.entries@[w].key@);
                }
            }
        }
    }

    /// Drop every entry.
    pub fn clear(&mut self)
        ensures
            final(self).wf(),
            final(self).entries@.len() == 0,
    {
        self.entries.clear();
    }
}

/// Look up a cached transform result (see [`ByteCache::get`]): the bytes
/// and MIME type of a live entry; an expired entry is removed.
pub fn cache_get(cache: &mut ByteCache, key: &str, now: u64) -> (r: Option<(Vec<u8>, String)>)
    requires
        old(cache).wf(),
    ensures
        final(cache).wf(),
        alive(old(cache).entries@, key@, now) ==> final(cache).entries@ == old(cache).entries@ && (r matches Some(
            p,
        ) && {
            let e = old(cache).entries@[entry_pos(old(cache).entries@, key@)->0];
            p.0@ == e.bytes@ && p.1@ == e.mime@
        }),
        !alive(old(cache).entries@, key@, now) ==> r is None && match entry_pos(old(cache).entries@, key@) {
            Some(i) => final(cache).entries@ == old(cache).entries@.remove(i),
            None => final(cache).entries@ == old(cache).entries@,
        },
{
    cache.get(key, now)
}

/// Insert a transformed image into the cache (see [`ByteCache::set`]):
/// the entry under `key` holds `bytes` and `mime` from `now` for `ttl`; an
/// entry already under `key` is replaced in place.
pub fn cache_set(cache: &mut ByteCache, key: String, bytes: Vec<u8>, mime: &str, ttl: u64, now: u64)
    requires
        old(cache).wf(),
    ensures
        final(cache).wf(),
        entry_pos(final(cache).entries@, key@) matches Some(i) && ({
            let e = final(cache).entries@[i];
            &&& e.bytes@ == bytes@
            &&& e.mime@ == mime@
            &&& e.inserted_at == now
            &&& e.ttl == ttl
        }),
        match entry_pos(old(cache).entries@, key@) {
            Some(i) => final(cache).entries@ == old(cache).entries@.update(i, final(cache).entries@[i]),
            None => final(cache).entries@ == old(cache).entries@.push(final(cache).entries@.last()),
        },
        ttl > 0 ==> alive(final(cache).entries@, key@, now),
{
    cache.set(key, bytes, mime, ttl, now);
}

/// The entry under `key` holds `bytes` and `mime`, stored at `t0` for
/// `ttl`.
pub open spec fn holds_entry(v: Seq<CacheEntry>, key: Seq<char>, bytes: Seq<u8>, mime: Seq<char>, t0: u64, ttl: u64) -> bool {
    entry_pos(v, key) matches Some(i) && ({
        let e = v[i];
        &&& e.bytes@ == bytes
        &&& e.mime@ == mime
        &&& e.inserted_at == t0
        &&& e.ttl == ttl
    })
}

proof fn lemma_entry_pos_unique(v: Seq<CacheEntry>, key: Seq<char>, j: int)
    requires
        forall|a: int, b: int| 0 <= a < b < v.len() ==> v[a].key@ != v[b].key@,
        0 <= j < v.len(),
        v[j].key@ == key,
    ensures
        entry_pos(v, key) == Some(j),
{
    let k = choose|k: int| 0 <= k < v.len() && v[k].key@ == key;
    if k < j {
        assert(v[k].key@ != v[j].key@);
    } else if k > j {
        assert(v[j].key@ != v[k].key@);
    }
}

/// What was stored under a key stays there, and is what a read gives
/// while it lives, through any number of calls that store under other
/// keys or read other keys (a read removes only the expired entry it
/// looked up): with no store under the key and no clear in between, a
/// read of the key after `ttl` has not yet run out since `t0` gives the
/// stored bytes and type back.
pub proof fn lemma_entry_survives_other_calls(
    before: Seq<CacheEntry>,
    after: Seq<CacheEntry>,
    key: Seq<char>,
    bytes: Seq<u8>,
    mime: Seq<char>,
    t0: u64,
    ttl: u64,
    other: Seq<char>,
)
    requires
        forall|a: int, b: int| 0 <= a < b < before.len() ==> before[a].key@ != before[b].key@,
        forall|a: int, b: int| 0 <= a < b < after.len() ==> after[a].key@ != after[b].key@,
        holds_entry(before, key, bytes, mime, t0, ttl),
        other != key,
        // a store under `other`
        ({
            &&& entry_pos(after, other) is Some
            &&& after[entry_pos(after, other)->0].key@ == other
            &&& match entry_pos(before, other) {
                Some(i) => after == before.update(i, after[i]),
                None => after == before.push(after.last()),
            }
        })
        // or a read of `other`
         || after == before || (entry_pos(before, other) matches Some(i) && after == before.remove(i)),
    ensures
        holds_entry(after, key, bytes, mime, t0, ttl),
{
    let i = entry_pos(before, key)->0;
    assert(0 <= i < before.len() && before[i].key@ == key) by {
        let k = choose|k: int| 0 <= k < before.len() && before[k].key@ == key;
    }
    if after == before {
    } else if entry_pos(before, other) is Some && after == before.remove(entry_pos(before, other)->0) {
        let j = entry_pos(before, other)->0;
        assert(0 <= j < before.len() && before[j].key@ == other) by {
            let k = choose|k: int| 0 <= k < before.len() && before[k].key@ == other;
        }
        assert(j != i);
        let ni = if i < j { i } else { i - 1 };
        assert(after[ni] == before[i]);
        lemma_entry_pos_unique(after, key, ni);
    } else {
        match entry_pos(before, other) {
            Some(j) => {
                assert(0 <= j < before.len() && before[j].key@ == other) by {
                    let k = choose|k: int| 0 <= k < before.len() && before[k].key@ == other;
                }
                assert(after[i] == before[i]);
                lemma_entry_pos_unique(after, key, i);
            },
            None => {
                assert(after[i] == before[i]);
                lemma_entry_pos_unique(after, key, i);
            },
        }
    }
}

/// After a clear, no key holds an entry.
pub proof fn lemma_cleared_holds_nothing(key: Seq<char>, now: u64)
    ensures
        entry_pos(Seq::<CacheEntry>::empty(), key) is None,
        !alive(Seq::<CacheEntry>::empty(), key, now),
{
}

/// Reading a key right after storing it gives back what was stored, for
/// as long as it lives; other keys are untouched by the store.
pub proof fn lemma_cache_read_after_write(
    before: ByteCache,
    after: ByteCache,
    key: Seq<char>,
    bytes: Seq<u8>,
    mime: Seq<char>,
    ttl: u64,
    now: u64,
    later: u64,
    other: Seq<char>,
)
    requires
        before.wf(),
        after.wf(),
        entry_pos(after.entries@, key) matches Some(i) && ({
            let e = after.entries@[i];
            &&& e.bytes@ == bytes
            &&& e.mime@ == mime
            &&& e.inserted_at == now
            &&& e.ttl == ttl
        }),
        match entry_pos(before.entries@, key) {
            Some(i) => after.entries@ == before.entries@.update(i, after.entries@[i]),
            None => after.entries@ == before.entries@.push(after.entries@.last()),
        },
        other != key,
    ensures
        alive(after.entries@, key, later) <==> elapsed(now, later) < ttl,
        alive(after.entries@, key, later) ==> ({
            let e = after.entries@[entry_pos(after.entries@, key)->0];
            e.bytes@ == bytes && e.mime@ == mime
        }),
        alive(after.entries@, other, later) == alive(before.entries@, other, later),
        entry_pos(after.entries@, other) matches Some(j) ==> entry_pos(before.entries@, other) matches Some(j0)
            && after.entries@[j] == before.entries@[j0],
{
    let a = after.entries@;
    let b = before.entries@;
    if exists|j: int| 0 <= j < b.len() && b[j].key@ == other {
        let j = choose|j: int| 0 <= j < b.len() && b[j].key@ == other;
        let i = entry_pos(a, key)->0;
        assert(a[i].key@ == key);
        assert(a[j] == b[j]) by {
            match entry_pos(b, key) {
                Some(k) => {
                    assert(b[k].key@ == key);
                    assert(k != j);
                },
                None => {},
            }
        }
        assert(a[j].key@ == other);
        let ja = entry_pos(a, other)->0;
        if ja != j {
            if ja < j {
                assert(a[ja].key@ != a[j].key@);
            } else {
                assert(a[j].key@ != a[ja].key@);
            }
        }
    } else {
        if exists|j: int| 0 <= j < a.len() && a[j].key@ == other {
            let j = choose|j: int| 0 <= j < a.len() && a[j].key@ == other;
            match entry_pos(b, key) {
                Some(k) => {
                    if j != k {
                        assert(a[j] == b[j]);
                    }
                    assert(b[k].key@ == key);
                },
                None => {
                    if j < b.len() {
                        assert(a[j] == b[j]);
                    } else {
                        let i = entry_pos(a, key)->0;
                        assert(a[i].key@ == key);
                        if i != j {
                            assert(i < b.len());
                            assert(a[i] == b[i]);
                            assert(entry_pos(b, key) is Some);
                        }
                    }
                },
            }
        }
    }
}

/// Drain the cache.
pub fn cache_clear(cache: &mut ByteCache)
    ensures
        final(cache).wf(),
        final(cache).entries@.len() == 0,
{
    cache.clear();
}

// ── Applying and encoding (through the `image` crate) ──────────────

#[verifier::external_type_specification]
#[verifier::external_body]
pub struct ExDynamicImage(image::DynamicImage);

#[verifier::external_type_specification]
#[verifier::external_body]
pub struct ExImageError(image::ImageError);

/// The width and height of an image: what image's `DynamicImage::width`
/// and `height` give for it.
pub uninterp spec fn image_dims(img: image::DynamicImage) -> (u32, u32);

/// The sides of the cut-out that image's `crop_imm` makes of an image of
/// `dims` at `(x, y)` with sides `w`×`h`: the corner is clamped into the
/// image and each side to what is left of the image past the corner.
pub open spec fn crop_dims(x: u32, y: u32, w: u32, h: u32, dims: (u32, u32)) -> (u32, u32) {
    let cx = if x <= dims.0 { x as int } else { dims.0 as int };
    let cy = if y <= dims.1 { y as int } else { dims.1 as int };
    let cw = if w <= dims.0 - cx { w as int } else { dims.0 - cx };
    let ch = if h <= dims.1 - cy { h as int } else { dims.1 - cy };
    (cw as u32, ch as u32)
}

/// image `DynamicImage::width` and `height`.
#[verifier::external_body]
fn image_size(img: &image::DynamicImage) -> (r: (u32, u32))
    ensures
        r == image_dims(*img),
{
    (img.width(), img.height())
}

/// The image that image's `DynamicImage::resize_exact` makes of an image
/// at `w`×`h` with the Lanczos3 filter.
pub uninterp spec fn resized(img: image::DynamicImage, w: u32, h: u32) -> image::DynamicImage;

/// The cut-out that image's `DynamicImage::crop_imm` makes of an image at
/// `(x, y)` with sides `w`×`h`.
pub uninterp spec fn cropped(img: image::DynamicImage, x: u32, y: u32, w: u32, h: u32) -> image::DynamicImage;

/// image `DynamicImage::resize_exact` with the Lanczos3 filter: the new
/// image, which is `w`×`h`.
#[verifier::external_body]
fn resize_exact(img: &image::DynamicImage, w: u32, h: u32) -> (r: image::DynamicImage)
    ensures
        r == resized(*img, w, h),
        image_dims(r) == (w, h),
{
    img.resize_exact(w, h, image::imageops::FilterType::Lanczos3)
}

/// image `DynamicImage::crop_imm`: the cut-out, whose sides are those of
/// `crop_dims`.
#[verifier::external_body]
fn crop_imm(img: &image::DynamicImage, x: u32, y: u32, w: u32, h: u32) -> (r: image::DynamicImage)
    ensures
        r == cropped(*img, x, y, w, h),
        image_dims(r) == crop_dims(x, y, w, h, image_dims(*img)),
{
    img.crop_imm(x, y, w, h)
}

/// The bytes that image's `JpegEncoder::new_with_quality` writes for the
/// RGB8 conversion of an image at a quality, or `None` where it fails.
pub uninterp spec fn jpeg_encoding(img: image::DynamicImage, quality: u8) -> Option<Seq<u8>>;

/// The bytes that image's `DynamicImage::write_to` writes for an image in
/// a format, or `None` where it fails.
pub uninterp spec fn image_encoding(img: image::DynamicImage, format: OutputFormat) -> Option<Seq<u8>>;

/// image `JpegEncoder::new_with_quality` and `write_image` on the RGB8
/// conversion of the image: the bytes written, or the encoder's error.
#[verifier::external_body]
fn encode_jpeg(img: &image::DynamicImage, quality: u8) -> (r: Result<Vec<u8>, image::ImageError>)
    ensures
        match r {
            Ok(b) => jpeg_encoding(*img, quality) == Some(b@),
            Err(_) => jpeg_encoding(*img, quality) is None,
        },
{
    let rgb = img.to_rgb8();
    let mut buf: Vec<u8> = Vec::new();
    let encoder = image::codecs::jpeg::JpegEncoder::new_with_quality(&mut buf, quality);
    image::ImageEncoder::write_image(encoder, rgb.as_raw(), rgb.width(), rgb.height(), image::ExtendedColorType::Rgb8)?;
    Ok(buf)
}

/// image `DynamicImage::write_to` into memory, in the given format: the
/// bytes written, or the encoder's error.
#[verifier::external_body]
fn encode_as(img: &image::DynamicImage, format: OutputFormat) -> (r: Result<Vec<u8>, image::ImageError>)
    ensures
        match r {
            Ok(b) => image_encoding(*img, format) == Some(b@),
            Err(_) => image_encoding(*img, format) is None,
        },
{
    let f = match format {
        OutputFormat::Jpeg => image::ImageFormat::Jpeg,
        OutputFormat::Png => image::ImageFormat::Png,
        OutputFormat::Webp => image::ImageFormat::WebP,
        OutputFormat::Avif => image::ImageFormat::Avif,
    };
    let mut cursor = std::io::Cursor::new(Vec::new());
    img.write_to(&mut cursor, f)?;
    Ok(cursor.into_inner())
}

/// The format `encode` writes: the last one set, PNG when none is.
pub open spec fn encode_format_of(ops: Seq<OpView>) -> OutputFormat {
    match last_format_of(ops) {
        Some(f) => f,
        None => OutputFormat::Png,
    }
}

/// The JPEG quality `encode` uses: the last one set, 80 when none is.
pub open spec fn encode_quality_of(ops: Seq<OpView>) -> u8 {
    match last_quality_of(ops) {
        Some(q) => q,
        None => 80,
    }
}

/// What `encode` gives for an image under `ops`: a JPEG at the quality
/// set, or the image written in the format set.
pub open spec fn encoded(ops: Seq<OpView>, img: image::DynamicImage) -> Option<Seq<u8>> {
    if encode_format_of(ops) == OutputFormat::Jpeg {
        jpeg_encoding(img, encode_quality_of(ops))
    } else {
        image_encoding(img, encode_format_of(ops))
    }
}

/// Whether any operation crops.
pub open spec fn has_crop(ops: Seq<OpView>) -> bool {
    exists|i: int| 0 <= i < ops.len() && ops[i] is Crop
}

/// Whether a crop at `(x, y)` with sides `w`×`h` lies within an image of
/// `dims`, the far edges taken with saturating addition.
pub open spec fn crop_fits(x: u32, y: u32, w: u32, h: u32, dims: (u32, u32)) -> bool {
    &&& x.saturating_add(w) <= dims.0
    &&& y.saturating_add(h) <= dims.1
}

/// The sides of an image of `dims` after each operation of `ops` in
/// order, or `None` where a crop does not lie within the image as it is at
/// that point.  Format and quality leave the sides as they are.
pub open spec fn dims_after(ops: Seq<OpView>, dims: (u32, u32)) -> Option<(u32, u32)>
    decreases ops.len(),
{
    if ops.len() == 0 {
        Some(dims)
    } else {
        match ops[0] {
            OpView::Resize { w, h } => dims_after(ops.skip(1), (w, h)),
            OpView::Crop { x, y, w, h } => if crop_fits(x, y, w, h, dims) {
                dims_after(ops.skip(1), crop_dims(x, y, w, h, dims))
            } else {
                None
            },
            _ => dims_after(ops.skip(1), dims),
        }
    }
}

/// The image after each operation of `ops` in order, or `None` where a
/// crop does not lie within the image as it is at that point.  Format and
/// quality leave the image as it is.
pub open spec fn applied(ops: Seq<OpView>, img: image::DynamicImage) -> Option<image::DynamicImage>
    decreases ops.len(),
{
    if ops.len() == 0 {
        Some(img)
    } else {
        match ops[0] {
            OpView::Resize { w, h } => applied(ops.skip(1), resized(img, w, h)),
            OpView::Crop { x, y, w, h } => if crop_fits(x, y, w, h, image_dims(img)) {
                applied(ops.skip(1), cropped(img, x, y, w, h))
            } else {
                None
            },
            _ => applied(ops.skip(1), img),
        }
    }
}

impl TransformOps {
    /// Apply every operation in order: resizes and crops (a crop must lie
    /// within the image as it is at that point); format and quality are
    /// left to the encoder.  The result is the image that `applied` gives,
    /// with the sides that `dims_after` gives, and it fails exactly where
    /// those find a crop out of bounds.
    pub fn apply(&self, img: image::DynamicImage) -> (r: Result<image::DynamicImage, TransformError>)
        ensures
            match r {
                Ok(o) => applied(op_views(self.ops@), img) == Some(o),
                Err(_) => applied(op_views(self.ops@), img) is None,
            },
            r is Err <==> dims_after(op_views(self.ops@), image_dims(img)) is None,
            r matches Ok(o) ==> dims_after(op_views(self.ops@), image_dims(img)) == Some(image_dims(o)),
            r is Err ==> (r matches Err(TransformError::CropOutOfBounds) && has_crop(op_views(self.ops@))),
            !has_crop(op_views(self.ops@)) ==> r is Ok,
    {
        let ghost ops = op_views(self.ops@);
        let ghost start = image_dims(img);
        let mut cur = img;
        let mut i: usize = 0;
        assert(ops.skip(0) =~= ops);
        while i < self.ops.len()
            invariant
                i <= self.ops@.len(),
                ops == op_views(self.ops@),
                start == image_dims(img),
                dims_after(ops.skip(i as int), image_dims(cur)) == dims_after(ops, start),
                applied(ops.skip(i as int), cur) == applied(ops, img),
            decreases self.ops.len() - i,
        {
            proof {
                let rest = ops.skip(i as int);
                assert(rest[0] == ops[i as int]);
                assert(rest.skip(1) =~= ops.skip(i + 1));
            }
            match &self.ops[i] {
                Op::Resize { w, h } => {
                    cur = resize_exact(&cur, *w, *h);
                },
                Op::Crop { x, y, w, h } => {
                    let (iw, ih) = image_size(&cur);
                    if x.saturating_add(*w) > iw || y.saturating_add(*h) > ih {
                        proof {
                            assert(ops[i as int] == OpView::Crop { x: *x, y: *y, w: *w, h: *h });
                            assert(!crop_fits(*x, *y, *w, *h, image_dims(cur)));
                            assert(dims_after(ops.skip(i as int), image_dims(cur)) is None);
                            assert(applied(ops.skip(i as int), cur) is None);
                        }
                        return Err(TransformError::CropOutOfBounds);
                    }
                    cur = crop_imm(&cur, *x, *y, *w, *h);
                },
                _ => {},
            }
            i += 1;
        }
        proof {
            assert(ops.skip(i as int).len() == 0);
        }
        Ok(cur)
    }

    /// Encode the image in the last format set (PNG when none), with the
    /// last quality set (80 when none) for JPEG.
    pub fn encode(&self, img: image::DynamicImage) -> (r: Result<Vec<u8>, TransformError>)
        ensures
            match r {
                Ok(b) => encoded(op_views(self.ops@), img) == Some(b@),
                Err(e) => encoded(op_views(self.ops@), img) is None && e is Image,
            },
    {
        let fmt = match self.last_format() {
            Some(f) => f,
            None => OutputFormat::Png,
        };
        let quality = match self.last_quality() {
            Some(q) => q,
            None => 80,
        };
        let out = match fmt {
            OutputFormat::Jpeg => encode_jpeg(&img, quality),
            _ => encode_as(&img, fmt),
        };
        match out {
            Ok(b) => Ok(b),
            Err(e) => Err(TransformError::Image(e)),
        }
    }
}

} // verus!
