//! Character-sequence helpers shared by the parsers of this crate.
//!
//! Strings are handled as `Vec<char>` inside verified code; `&str`
//! arguments are converted at the edges with the two conversion
//! wrappers below.  The case-mapping functions of std are Unicode-aware,
//! so their results are named (`std_lowercase`, `std_uppercase`) rather
//! than re-implemented.
use vstd::prelude::*;

verus! {

// ── Conversions ────────────────────────────────────────────────────

/// Collects the characters of `s` (std `str::chars` followed by
/// `collect`): the result holds exactly the characters of `s`, in order.
#[verifier::external_body]
pub(crate) fn chars_of(s: &str) -> (r: Vec<char>)
    ensures
        r@ == s@,
{
    s.chars().collect()
}

/// Builds a `String` from characters (std `FromIterator<&char>` for
/// `String`): the result holds exactly the given characters, in order.
#[verifier::external_body]
pub(crate) fn string_of(v: &[char]) -> (r: String)
    ensures
        r@ == v@,
{
    v.iter().collect()
}

/// What std's `str::to_lowercase` returns for a string with these characters.
pub uninterp spec fn std_lowercase(s: Seq<char>) -> Seq<char>;

/// What std's `str::to_uppercase` returns for a string with these characters.
pub uninterp spec fn std_uppercase(s: Seq<char>) -> Seq<char>;

/// What `str::to_lowercase` returns: on an all-ASCII string, each ASCII
/// letter lowered; otherwise the named std result.
pub open spec fn to_lower(s: Seq<char>) -> Seq<char> {
    if all_ascii(s) {
        ascii_lower_seq(s)
    } else {
        std_lowercase(s)
    }
}

/// What `str::to_uppercase` returns: on an all-ASCII string, each ASCII
/// letter raised; otherwise the named std result.
pub open spec fn to_upper(s: Seq<char>) -> Seq<char> {
    if all_ascii(s) {
        ascii_upper_seq(s)
    } else {
        std_uppercase(s)
    }
}

/// Calls std `str::to_lowercase` (Unicode lowercase mapping).  Its result
/// is named `std_lowercase`; for an all-ASCII input std maps each ASCII
/// letter to its ASCII lowercase and keeps every other character, which
/// `to_lower` states.
#[verifier::external_body]
pub(crate) fn lowercase_of(s: &str) -> (r: Vec<char>)
    ensures
        !all_ascii(s@) ==> r@ == std_lowercase(s@),
        all_ascii(s@) ==> r@ == ascii_lower_seq(s@),
        r@ == to_lower(s@),
{
    s.to_lowercase().chars().collect()
}

/// Calls std `str::to_uppercase` (Unicode uppercase mapping).  Its result
/// is named `std_uppercase`; for an all-ASCII input std maps each ASCII
/// letter to its ASCII uppercase and keeps every other character, which
/// `to_upper` states.
#[verifier::external_body]
pub(crate) fn uppercase_of(s: &str) -> (r: Vec<char>)
    ensures
        !all_ascii(s@) ==> r@ == std_uppercase(s@),
        all_ascii(s@) ==> r@ == ascii_upper_seq(s@),
        r@ == to_upper(s@),
{
    s.to_uppercase().chars().collect()
}

// ── Character classes ──────────────────────────────────────────────

pub open spec fn is_ascii_char(c: char) -> bool {
    (c as u32) < 128
}

pub open spec fn all_ascii(s: Seq<char>) -> bool {
    forall|i: int| 0 <= i < s.len() ==> is_ascii_char(#[trigger] s[i])
}

pub open spec fn is_digit(c: char) -> bool {
    '0' <= c && c <= '9'
}

pub open spec fn is_ascii_alnum(c: char) -> bool {
    ('0' <= c && c <= '9') || ('a' <= c && c <= 'z') || ('A' <= c && c <= 'Z')
}

pub open spec fn ascii_lower_char(c: char) -> char {
    if 'A' <= c && c <= 'Z' {
        ((c as u32) + 32) as char
    } else {
        c
    }
}

pub open spec fn ascii_upper_char(c: char) -> char {
    if 'a' <= c && c <= 'z' {
        ((c as u32) - 32) as char
    } else {
        c
    }
}

pub open spec fn ascii_lower_seq(s: Seq<char>) -> Seq<char> {
    Seq::new(s.len(), |i: int| ascii_lower_char(s[i]))
}

pub open spec fn ascii_upper_seq(s: Seq<char>) -> Seq<char> {
    Seq::new(s.len(), |i: int| ascii_upper_char(s[i]))
}

/// Unicode `White_Space`, the class that std's `char::is_whitespace`
/// (and so `str::trim`) uses.
pub open spec fn is_ws(c: char) -> bool {
    let u = c as u32;
    (0x09 <= u && u <= 0x0D) || u == 0x20 || u == 0x85 || u == 0xA0 || u == 0x1680
        || (0x2000 <= u && u <= 0x200A) || u == 0x2028 || u == 0x2029 || u == 0x202F
        || u == 0x205F || u == 0x3000
}

pub fn is_ws_exec(c: char) -> (r: bool)
    ensures
        r == is_ws(c),
{
    let u = c as u32;
    (0x09 <= u && u <= 0x0D) || u == 0x20 || u == 0x85 || u == 0xA0 || u == 0x1680
        || (0x2000 <= u && u <= 0x200A) || u == 0x2028 || u == 0x2029 || u == 0x202F
        || u == 0x205F || u == 0x3000
}

pub fn ascii_lower_exec(c: char) -> (r: char)
    ensures
        r == ascii_lower_char(c),
{
    if 'A' <= c && c <= 'Z' {
        let u = ((c as u32) + 32) as u8;
        let r = u as char;
        assert(r as u32 == (c as u32) + 32);
        r
    } else {
        c
    }
}

pub fn is_ascii_alnum_exec(c: char) -> (r: bool)
    ensures
        r == is_ascii_alnum(c),
{
    ('0' <= c && c <= '9') || ('a' <= c && c <= 'z') || ('A' <= c && c <= 'Z')
}

// ── Trimming ───────────────────────────────────────────────────────

/// Number of leading whitespace characters.
pub open spec fn lead_ws(s: Seq<char>) -> nat
    decreases s.len(),
{
    if s.len() == 0 {
        0
    } else if is_ws(s[0]) {
        1 + lead_ws(s.drop_first())
    } else {
        0
    }
}

/// Number of trailing whitespace characters.
pub open spec fn trail_ws(s: Seq<char>) -> nat
    decreases s.len(),
{
    if s.len() == 0 {
        0
    } else if is_ws(s.last()) {
        1 + trail_ws(s.drop_last())
    } else {
        0
    }
}

/// std `str::trim_start`.
pub open spec fn trim_start(s: Seq<char>) -> Seq<char> {
    s.subrange(lead_ws(s) as int, s.len() as int)
}

/// std `str::trim_end`.
pub open spec fn trim_end(s: Seq<char>) -> Seq<char> {
    s.subrange(0, s.len() - trail_ws(s))
}

/// std `str::trim`: leading and trailing White_Space removed.
pub open spec fn trim(s: Seq<char>) -> Seq<char> {
    trim_end(trim_start(s))
}

pub proof fn lemma_lead_ws(s: Seq<char>)
    ensures
        lead_ws(s) <= s.len(),
        forall|i: int| 0 <= i < lead_ws(s) ==> is_ws(#[trigger] s[i]),
        lead_ws(s) < s.len() ==> !is_ws(s[lead_ws(s) as int]),
    decreases s.len(),
{
    if s.len() > 0 && is_ws(s[0]) {
        lemma_lead_ws(s.drop_first());
        assert forall|i: int| 0 <= i < lead_ws(s) implies is_ws(#[trigger] s[i]) by {
            if i > 0 {
                assert(s[i] == s.drop_first()[i - 1]);
            }
        }
    }
}

pub proof fn lemma_trail_ws(s: Seq<char>)
    ensures
        trail_ws(s) <= s.len(),
        forall|i: int| s.len() - trail_ws(s) <= i < s.len() ==> is_ws(#[trigger] s[i]),
        trail_ws(s) < s.len() ==> !is_ws(s[s.len() - trail_ws(s) - 1]),
    decreases s.len(),
{
    if s.len() > 0 && is_ws(s.last()) {
        lemma_trail_ws(s.drop_last());
        assert forall|i: int| s.len() - trail_ws(s) <= i < s.len() implies is_ws(#[trigger] s[i]) by {
            if i < s.len() - 1 {
                assert(s[i] == s.drop_last()[i]);
            }
        }
    }
}

/// The prefix of `n` characters is whitespace and the next one is not:
/// then `n` is the leading-whitespace count.
proof fn lemma_lead_ws_unique(s: Seq<char>, n: int)
    requires
        0 <= n <= s.len(),
        forall|i: int| 0 <= i < n ==> is_ws(#[trigger] s[i]),
        n < s.len() ==> !is_ws(s[n]),
    ensures
        lead_ws(s) == n,
    decreases s.len(),
{
    if n > 0 {
        assert forall|i: int| 0 <= i < n - 1 implies is_ws(#[trigger] s.drop_first()[i]) by {
            assert(s.drop_first()[i] == s[i + 1]);
        }
        if n - 1 < s.drop_first().len() {
            assert(s.drop_first()[n - 1] == s[n]);
        }
        lemma_lead_ws_unique(s.drop_first(), n - 1);
    }
}

proof fn lemma_trail_ws_unique(s: Seq<char>, n: int)
    requires
        0 <= n <= s.len(),
        forall|i: int| s.len() - n <= i < s.len() ==> is_ws(#[trigger] s[i]),
        n < s.len() ==> !is_ws(s[s.len() - n - 1]),
    ensures
        trail_ws(s) == n,
    decreases s.len(),
{
    if n > 0 {
        let t = s.drop_last();
        assert forall|i: int| t.len() - (n - 1) <= i < t.len() implies is_ws(#[trigger] t[i]) by {
            assert(t[i] == s[i]);
        }
        if n - 1 < t.len() {
            assert(t[t.len() - (n - 1) - 1] == s[s.len() - n - 1]);
        }
        lemma_trail_ws_unique(t, n - 1);
    }
}

/// `trim(s)` is the subrange of `s` between its leading and trailing
/// whitespace.
pub proof fn lemma_trim_range(s: Seq<char>)
    ensures
        lead_ws(s) <= s.len(),
        trim(s) == s.subrange(lead_ws(s) as int, s.len() - trail_ws(trim_start(s))),
        lead_ws(s) <= s.len() - trail_ws(trim_start(s)),
        trim(s).len() <= s.len(),
{
    lemma_lead_ws(s);
    lemma_trail_ws(trim_start(s));
    assert(trim(s) =~= s.subrange(lead_ws(s) as int, s.len() - trail_ws(trim_start(s))));
}

/// Returns the characters of `s[from..to]`.
pub fn slice_chars(s: &Vec<char>, from: usize, to: usize) -> (r: Vec<char>)
    requires
        from <= to <= s.len(),
    ensures
        r@ == s@.subrange(from as int, to as int),
{
    let mut r: Vec<char> = Vec::new();
    let mut i = from;
    while i < to
        invariant
            from <= i <= to <= s.len(),
            r@ == s@.subrange(from as int, i as int),
        decreases to - i,
    {
        r.push(s[i]);
        i += 1;
    }
    r
}

/// std `str::trim` on a character vector.
pub fn trim_chars(s: &Vec<char>) -> (r: Vec<char>)
    ensures
        r@ == trim(s@),
{
    let n = s.len();
    let mut a: usize = 0;
    while a < n && is_ws_exec(s[a])
        invariant
            a <= n == s.len(),
            forall|i: int| 0 <= i < a ==> is_ws(#[trigger] s@[i]),
        decreases n - a,
    {
        a += 1;
    }
    proof {
        lemma_lead_ws_unique(s@, a as int);
    }
    let mut b: usize = n;
    while b > a && is_ws_exec(s[b - 1])
        invariant
            a <= b <= n == s.len(),
            forall|i: int| b <= i < n ==> is_ws(#[trigger] s@[i]),
        decreases b,
    {
        b -= 1;
    }
    proof {
        let t = s@.subrange(a as int, n as int);
        assert(t == trim_start(s@));
        let m = (n - b) as int;
        assert forall|i: int| t.len() - m <= i < t.len() implies is_ws(#[trigger] t[i]) by {
            assert(t[i] == s@[i + a]);
        }
        if m < t.len() {
            assert(t[t.len() - m - 1] == s@[b - 1]);
        }
        lemma_trail_ws_unique(t, m);
        assert(trim(s@) =~= s@.subrange(a as int, b as int));
    }
    slice_chars(s, a, b)
}

// ── Comparisons and searching ──────────────────────────────────────

pub fn chars_eq(a: &[char], b: &[char]) -> (r: bool)
    ensures
        r == (a@ == b@),
{
    if a.len() != b.len() {
        return false;
    }
    let mut i: usize = 0;
    while i < a.len()
        invariant
            a.len() == b.len(),
            i <= a.len(),
            forall|j: int| 0 <= j < i ==> a@[j] == b@[j],
        decreases a.len() - i,
    {
        if a[i] != b[i] {
            return false;
        }
        i += 1;
    }
    assert(a@ =~= b@);
    true
}

/// `s` has `p` as a prefix.
pub open spec fn has_prefix(s: Seq<char>, p: Seq<char>) -> bool {
    p.len() <= s.len() && s.subrange(0, p.len() as int) == p
}

/// `s` has `p` as a suffix.
pub open spec fn has_suffix(s: Seq<char>, p: Seq<char>) -> bool {
    p.len() <= s.len() && s.subrange(s.len() - p.len(), s.len() as int) == p
}

/// `p` occurs in `s` starting at position `i`.
pub open spec fn occurs_at(s: Seq<char>, p: Seq<char>, i: int) -> bool {
    0 <= i && i + p.len() <= s.len() && s.subrange(i, i + p.len()) == p
}

pub fn occurs_at_exec(s: &[char], p: &[char], i: usize) -> (r: bool)
    ensures
        r == occurs_at(s@, p@, i as int),
{
    if i > s.len() || p.len() > s.len() - i {
        return false;
    }
    let mut j: usize = 0;
    while j < p.len()
        invariant
            i + p.len() <= s.len(),
            j <= p.len(),
            forall|k: int| 0 <= k < j ==> s@[i + k] == p@[k],
        decreases p.len() - j,
    {
        if s[i + j] != p[j] {
            assert(s@.subrange(i as int, i + p.len())[j as int] != p@[j as int]);
            return false;
        }
        j += 1;
    }
    assert(s@.subrange(i as int, i + p.len()) =~= p@);
    true
}

pub fn starts_with(s: &[char], p: &[char]) -> (r: bool)
    ensures
        r == has_prefix(s@, p@),
{
    occurs_at_exec(s, p, 0)
}

pub fn ends_with(s: &[char], p: &[char]) -> (r: bool)
    ensures
        r == has_suffix(s@, p@),
{
    if p.len() > s.len() {
        return false;
    }
    occurs_at_exec(s, p, s.len() - p.len())
}

/// Position of the first occurrence of `p` in `s` (std `str::find`
/// semantics on characters), if any.
pub open spec fn first_occurrence(s: Seq<char>, p: Seq<char>) -> Option<int> {
    if exists|i: int| occurs_at(s, p, i) {
        Some(choose|i: int| occurs_at(s, p, i) && forall|j: int| 0 <= j < i ==> !occurs_at(s, p, j))
    } else {
        None
    }
}

pub fn find_chars(s: &[char], p: &[char]) -> (r: Option<usize>)
    ensures
        match r {
            Some(i) => occurs_at(s@, p@, i as int) && forall|j: int| 0 <= j < i ==> !occurs_at(s@, p@, j),
            None => forall|j: int| !occurs_at(s@, p@, j),
        },
{
    let mut i: usize = 0;
    while i < s.len()
        invariant
            i <= s.len(),
            forall|j: int| 0 <= j < i ==> !occurs_at(s@, p@, j),
        decreases s.len() - i,
    {
        if occurs_at_exec(s, p, i) {
            return Some(i);
        }
        i += 1;
    }
    if occurs_at_exec(s, p, i) {
        return Some(i);
    }
    assert forall|j: int| !occurs_at(s@, p@, j) by {
        if j > s.len() {
            assert(!occurs_at(s@, p@, j));
        }
    }
    None
}

/// The first position of `p` in `s` (`str::find`).
pub fn find_first(s: &[char], p: &[char]) -> (r: Option<usize>)
    ensures
        match first_occurrence(s@, p@) {
            Some(i) => r == Some(i as usize) && 0 <= i && i + p@.len() <= s@.len(),
            None => r is None,
        },
{
    match find_chars(s, p) {
        Some(i) => {
            assert(first_occurrence(s@, p@) == Some(i as int));
            Some(i)
        },
        None => None,
    }
}

/// Each character upper-cased as ASCII (other characters unchanged).
pub fn ascii_upper_chars(s: &Vec<char>) -> (r: Vec<char>)
    ensures
        r@ == ascii_upper_seq(s@),
{
    let mut out: Vec<char> = Vec::new();
    let mut i: usize = 0;
    while i < s.len()
        invariant
            i <= s@.len(),
            out@ == ascii_upper_seq(s@.take(i as int)),
        decreases s.len() - i,
    {
        let c = s[i];
        let u = if 'a' <= c && c <= 'z' {
            ((c as u32) - 32) as u8 as char
        } else {
            c
        };
        assert(u == ascii_upper_char(c)) by {
            if 'a' <= c && c <= 'z' {
                assert(((c as u32) - 32) < 128);
            }
        }
        out.push(u);
        i += 1;
        assert(out@ =~= ascii_upper_seq(s@.take(i as int)));
    }
    assert(s@.take(s@.len() as int) =~= s@);
    out
}

pub fn contains_char(s: &[char], c: char) -> (r: bool)
    ensures
        r == s@.contains(c),
{
    let mut i: usize = 0;
    while i < s.len()
        invariant
            i <= s.len(),
            forall|j: int| 0 <= j < i ==> s@[j] != c,
        decreases s.len() - i,
    {
        if s[i] == c {
            return true;
        }
        i += 1;
    }
    false
}


// ── Splitting on a character (std `str::split(char)`) ─────────────

/// Positions of `c` in `s`, in increasing order.
pub open spec fn char_positions(s: Seq<char>, c: char) -> Seq<int>
    decreases s.len(),
{
    if s.len() == 0 {
        Seq::empty()
    } else if s.last() == c {
        char_positions(s.drop_last(), c).push(s.len() - 1)
    } else {
        char_positions(s.drop_last(), c)
    }
}

/// Number of pieces `s.split(c)` yields.
pub open spec fn split_count(s: Seq<char>, c: char) -> int {
    (char_positions(s, c).len() + 1) as int
}

/// Start of the `k`-th piece of `s.split(c)`.
pub open spec fn piece_start(s: Seq<char>, c: char, k: int) -> int {
    if k == 0 {
        0
    } else {
        char_positions(s, c)[k - 1] + 1
    }
}

/// End (exclusive) of the `k`-th piece of `s.split(c)`.
pub open spec fn piece_end(s: Seq<char>, c: char, k: int) -> int {
    if k == char_positions(s, c).len() {
        s.len() as int
    } else {
        char_positions(s, c)[k]
    }
}

/// The `k`-th piece of `s.split(c)`.
pub open spec fn split_piece(s: Seq<char>, c: char, k: int) -> Seq<char> {
    s.subrange(piece_start(s, c, k), piece_end(s, c, k))
}

/// The pieces of `s.split(c)`.
pub open spec fn split_seq(s: Seq<char>, c: char) -> Seq<Seq<char>> {
    Seq::new(split_count(s, c) as nat, |k: int| split_piece(s, c, k))
}

pub proof fn lemma_char_positions(s: Seq<char>, c: char)
    ensures
        forall|k: int| 0 <= k < char_positions(s, c).len() ==> 0 <= #[trigger] char_positions(s, c)[k] < s.len()
            && s[char_positions(s, c)[k]] == c,
        forall|k1: int, k2: int|
            0 <= k1 < k2 < char_positions(s, c).len() ==> char_positions(s, c)[k1] < char_positions(s, c)[k2],
        forall|i: int| 0 <= i < s.len() && s[i] == c ==> char_positions(s, c).contains(i),
        char_positions(s, c).len() <= s.len(),
    decreases s.len(),
{
    if s.len() > 0 {
        let t = s.drop_last();
        lemma_char_positions(t, c);
        assert forall|i: int| 0 <= i < s.len() && s[i] == c implies char_positions(s, c).contains(i) by {
            if i < s.len() - 1 {
                assert(t[i] == s[i]);
                let k = choose|k: int| 0 <= k < char_positions(t, c).len() && char_positions(t, c)[k] == i;
                assert(char_positions(s, c)[k] == i);
            } else {
                assert(char_positions(s, c).last() == i);
            }
        }
    }
}

pub proof fn lemma_pieces_in_range(s: Seq<char>, c: char, k: int)
    requires
        0 <= k < split_count(s, c),
    ensures
        0 <= piece_start(s, c, k) <= piece_end(s, c, k) <= s.len(),
        piece_end(s, c, k) - piece_start(s, c, k) < s.len() || char_positions(s, c).len() == 0,
{
    lemma_char_positions(s, c);
    let p = char_positions(s, c);
    if k > 0 && k < p.len() {
        assert(p[k - 1] < p[k]);
    }
}

/// Splits `s` on every `c` (std `str::split` with a `char` pattern).
pub fn split_on(s: &Vec<char>, c: char) -> (r: Vec<Vec<char>>)
    ensures
        r@.len() == split_count(s@, c),
        forall|k: int| 0 <= k < r@.len() ==> (#[trigger] r@[k])@ == split_piece(s@, c, k),
{
    let ghost pos = char_positions(s@, c);
    proof {
        lemma_char_positions(s@, c);
    }
    let mut r: Vec<Vec<char>> = Vec::new();
    let mut start: usize = 0;
    let mut i: usize = 0;
    while i < s.len()
        invariant
            start <= i <= s.len(),
            pos == char_positions(s@, c),
            char_positions(s@.subrange(0, i as int), c).len() == r.len(),
            forall|k: int| 0 <= k < r.len() ==> char_positions(s@.subrange(0, i as int), c)[k] == pos[k],
            r.len() <= pos.len(),
            start == (if r.len() == 0 { 0 } else { pos[r.len() - 1] + 1 }),
            r.len() < pos.len() ==> pos[r.len() as int] >= i,
            forall|k: int| 0 <= k < r@.len() ==> (#[trigger] r@[k])@ == split_piece(s@, c, k),
            forall|k: int| 0 <= k < pos.len() ==> 0 <= #[trigger] pos[k] < s.len() && s@[pos[k]] == c,
            forall|k1: int, k2: int| 0 <= k1 < k2 < pos.len() ==> pos[k1] < pos[k2],
            forall|j: int| 0 <= j < s.len() && s@[j] == c ==> pos.contains(j),
        decreases s.len() - i,
    {
        let ghost pre = s@.subrange(0, i as int);
        let ghost nxt = s@.subrange(0, i + 1);
        assert(nxt.drop_last() =~= pre);
        if s[i] == c {
            proof {
                assert(pos.contains(i as int));
                let k = choose|k: int| 0 <= k < pos.len() && pos[k] == i;
                if k < r.len() {
                    assert(pos[k] < pos[r.len() as int]);
                } else if k > r.len() {
                    assert(pos[r.len() as int] < pos[k]);
                }
                assert(pos[r.len() as int] == i);
            }
            let piece = slice_chars(s, start, i);
            r.push(piece);
            start = i + 1;
        } else {
            proof {
                if r.len() < pos.len() && pos[r.len() as int] == i {
                    assert(s@[i as int] == c);
                }
            }
        }
        i += 1;
    }
    proof {
        assert(s@.subrange(0, s.len() as int) =~= s@);
        assert(r.len() == pos.len());
    }
    let last = slice_chars(s, start, s.len());
    r.push(last);
    r
}

/// `s` holds exactly the characters of the literal `kw`.
pub fn case_keyword_eq(s: &Vec<char>, kw: &str) -> (r: bool)
    ensures
        r == (s@ == kw@),
{
    let k = chars_of(kw);
    chars_eq(s.as_slice(), k.as_slice())
}

// ── Decimal integers (std `str::parse` for the integer types) ─────

pub open spec fn all_digits(s: Seq<char>) -> bool {
    forall|i: int| 0 <= i < s.len() ==> is_digit(#[trigger] s[i])
}

pub open spec fn digit_val(c: char) -> int {
    (c as u32) - ('0' as u32)
}

/// Value of a string of decimal digits.
pub open spec fn digits_value(s: Seq<char>) -> int
    decreases s.len(),
{
    if s.len() == 0 {
        0
    } else {
        digits_value(s.drop_last()) * 10 + digit_val(s.last())
    }
}

/// std `<uN as FromStr>::from_str`: an optional `+`, then at least one
/// decimal digit; the value must not exceed `max`.
pub open spec fn parse_unsigned(s: Seq<char>, max: int) -> Option<int> {
    let body = if s.len() > 0 && s[0] == '+' { s.drop_first() } else { s };
    if body.len() == 0 || !all_digits(body) {
        None
    } else if digits_value(body) <= max {
        Some(digits_value(body))
    } else {
        None
    }
}

/// std `i64::from_str`: an optional `+` or `-`, then at least one digit.
pub open spec fn parse_i64(s: Seq<char>) -> Option<int> {
    if s.len() > 0 && s[0] == '-' {
        let body = s.drop_first();
        if body.len() == 0 || !all_digits(body) {
            None
        } else if digits_value(body) <= 0x8000_0000_0000_0000 {
            Some(-digits_value(body))
        } else {
            None
        }
    } else {
        parse_unsigned(s, 0x7FFF_FFFF_FFFF_FFFF)
    }
}

pub proof fn lemma_digits_value_nonneg(s: Seq<char>)
    requires
        all_digits(s),
    ensures
        digits_value(s) >= 0,
    decreases s.len(),
{
    if s.len() > 0 {
        lemma_digits_value_nonneg(s.drop_last());
    }
}

proof fn lemma_digits_value_mono(s: Seq<char>, k: int)
    requires
        all_digits(s),
        0 <= k <= s.len(),
    ensures
        digits_value(s.subrange(0, k)) <= digits_value(s),
    decreases s.len() - k,
{
    if k < s.len() {
        lemma_digits_value_mono(s, k + 1);
        let t = s.subrange(0, k + 1);
        assert(t.drop_last() =~= s.subrange(0, k));
        lemma_digits_value_nonneg(s.subrange(0, k));
        assert(is_digit(t.last()));
    } else {
        assert(s.subrange(0, k) =~= s);
    }
}

/// Value of the digits `s[from..]`, stopping as soon as it exceeds `max`
/// (in which case `None` is returned).
fn digits_value_upto(s: &Vec<char>, from: usize, max: u128) -> (r: Option<u128>)
    requires
        from <= s.len(),
        max < 0x1_0000_0000_0000_0000_0000,
    ensures
        match r {
            Some(v) => all_digits(s@.subrange(from as int, s.len() as int)) && v == digits_value(
                s@.subrange(from as int, s.len() as int),
            ) && v <= max,
            None => !all_digits(s@.subrange(from as int, s.len() as int)) || digits_value(
                s@.subrange(from as int, s.len() as int),
            ) > max,
        },
{
    let ghost body = s@.subrange(from as int, s.len() as int);
    let mut acc: u128 = 0;
    let mut i = from;
    while i < s.len()
        invariant
            from <= i <= s.len(),
            body == s@.subrange(from as int, s.len() as int),
            max < 0x1_0000_0000_0000_0000_0000,
            all_digits(body.subrange(0, i - from)),
            acc == digits_value(body.subrange(0, i - from)),
            acc <= max,
        decreases s.len() - i,
    {
        let c = s[i];
        let ghost pre = body.subrange(0, i - from);
        let ghost next = body.subrange(0, i - from + 1);
        assert(next.drop_last() =~= pre);
        assert(next.last() == c);
        if !('0' <= c && c <= '9') {
            assert(!is_digit(body[i - from]));
            return None;
        }
        let d = (c as u32 - '0' as u32) as u128;
        let v = acc * 10 + d;
        assert(all_digits(next));
        assert(v == digits_value(next));
        if v > max {
            proof {
                if all_digits(body) {
                    lemma_digits_value_mono(body, i - from + 1);
                }
            }
            return None;
        }
        acc = v;
        i += 1;
    }
    assert(body.subrange(0, s.len() - from) =~= body);
    Some(acc)
}

/// Length of the run of digits that starts `s`.
pub open spec fn digit_run(s: Seq<char>) -> nat
    decreases s.len(),
{
    if s.len() == 0 || !is_digit(s[0]) {
        0
    } else {
        1 + digit_run(s.drop_first())
    }
}

/// The message of the `ParseIntError` std returns when parsing `s` as an
/// unsigned integer of maximum `max` fails: reading the digits (after an
/// optional `+`) from the left, the first problem met is either a digit
/// that makes the value exceed `max` or a character that is not a digit.
pub open spec fn unsigned_parse_error(s: Seq<char>, max: int) -> Seq<char> {
    let body = if s.len() > 0 && s[0] == '+' {
        s.drop_first()
    } else {
        s
    };
    if s.len() == 0 {
        "cannot parse integer from empty string"@
    } else if body.len() == 0 {
        "invalid digit found in string"@
    } else if digits_value(body.subrange(0, digit_run(body) as int)) > max {
        "number too large to fit in target type"@
    } else {
        "invalid digit found in string"@
    }
}

proof fn lemma_digit_run(s: Seq<char>)
    ensures
        digit_run(s) <= s.len(),
        all_digits(s.subrange(0, digit_run(s) as int)),
        digit_run(s) < s.len() ==> !is_digit(s[digit_run(s) as int]),
    decreases s.len(),
{
    if s.len() > 0 && is_digit(s[0]) {
        lemma_digit_run(s.drop_first());
        let t = s.drop_first();
        let n = digit_run(t) as int;
        assert forall|i: int| 0 <= i < n + 1 implies is_digit(#[trigger] s.subrange(0, n + 1)[i]) by {
            if i > 0 {
                assert(s.subrange(0, n + 1)[i] == t.subrange(0, n)[i - 1]);
            }
        }
        if n + 1 < s.len() {
            assert(s[n + 1] == t[n]);
        }
    }
}

/// Whether the digits of `s[from..]` run past `max` before a non-digit
/// is met; `s[from..]` must start with a digit run of length `run`.
fn digit_run_exceeds(s: &Vec<char>, from: usize, run: usize, max: u128) -> (r: bool)
    requires
        from + run <= s.len(),
        max < 0x1_0000_0000_0000_0000_0000,
        all_digits(s@.subrange(from as int, (from + run) as int)),
    ensures
        r == (digits_value(s@.subrange(from as int, (from + run) as int)) > max),
{
    let ghost body = s@.subrange(from as int, (from + run) as int);
    let mut acc: u128 = 0;
    let mut i: usize = 0;
    while i < run
        invariant
            i <= run,
            from + run <= s.len(),
            body == s@.subrange(from as int, (from + run) as int),
            all_digits(body),
            max < 0x1_0000_0000_0000_0000_0000,
            acc == digits_value(body.subrange(0, i as int)),
            acc <= max,
        decreases run - i,
    {
        let c = s[from + i];
        let ghost next = body.subrange(0, i + 1);
        assert(next.drop_last() =~= body.subrange(0, i as int));
        assert(next.last() == c);
        assert(is_digit(body[i as int]));
        let d = (c as u32 - '0' as u32) as u128;
        let v = acc * 10 + d;
        if v > max {
            proof {
                lemma_digits_value_mono(body, i + 1);
            }
            return true;
        }
        acc = v;
        i += 1;
    }
    assert(body.subrange(0, run as int) =~= body);
    false
}

/// The message std gives when `s` does not parse as an unsigned integer
/// of maximum `max`.
pub fn unsigned_parse_error_exec(s: &Vec<char>, max: u64) -> (r: Vec<char>)
    ensures
        r@ == unsigned_parse_error(s@, max as int),
{
    if s.len() == 0 {
        return chars_of("cannot parse integer from empty string");
    }
    let from: usize = if s[0] == '+' { 1 } else { 0 };
    let ghost body = if s@.len() > 0 && s@[0] == '+' { s@.drop_first() } else { s@ };
    assert(body =~= s@.subrange(from as int, s@.len() as int));
    if from == s.len() {
        return chars_of("invalid digit found in string");
    }
    let mut run: usize = 0;
    while from + run < s.len() && '0' <= s[from + run] && s[from + run] <= '9'
        invariant
            from + run <= s.len(),
            body == s@.subrange(from as int, s@.len() as int),
            forall|k: int| 0 <= k < run ==> is_digit(#[trigger] body[k]),
        decreases s.len() - from - run,
    {
        run += 1;
    }
    proof {
        lemma_digit_run(body);
        assert(body.subrange(0, run as int) =~= s@.subrange(from as int, (from + run) as int));
        // the run found is the digit run of `body`
        assert(run as nat == digit_run(body)) by {
            lemma_digit_run_is(body, run as int);
        }
    }
    if digit_run_exceeds(s, from, run, max as u128) {
        chars_of("number too large to fit in target type")
    } else {
        chars_of("invalid digit found in string")
    }
}

proof fn lemma_digit_run_is(s: Seq<char>, n: int)
    requires
        0 <= n <= s.len(),
        forall|k: int| 0 <= k < n ==> is_digit(#[trigger] s[k]),
        n == s.len() || !is_digit(s[n]),
    ensures
        digit_run(s) == n,
    decreases n,
{
    if n > 0 {
        let t = s.drop_first();
        assert forall|k: int| 0 <= k < n - 1 implies is_digit(#[trigger] t[k]) by {
            assert(t[k] == s[k + 1]);
        }
        if n - 1 < t.len() {
            assert(t[n - 1] == s[n]);
        }
        lemma_digit_run_is(t, n - 1);
    }
}

/// std `<uN as FromStr>::from_str` for a type whose maximum is `max`.
pub fn parse_unsigned_exec(s: &Vec<char>, max: u64) -> (r: Option<u64>)
    ensures
        match r {
            Some(v) => parse_unsigned(s@, max as int) == Some(v as int),
            None => parse_unsigned(s@, max as int) is None,
        },
{
    let from: usize = if s.len() > 0 && s[0] == '+' { 1 } else { 0 };
    proof {
        if from == 1 {
            assert(s@.subrange(1, s@.len() as int) =~= s@.drop_first());
        } else {
            assert(s@.subrange(0, s@.len() as int) =~= s@);
        }
    }
    if from == s.len() {
        return None;
    }
    match digits_value_upto(s, from, max as u128) {
        Some(v) => Some(v as u64),
        None => None,
    }
}

/// std `i64::from_str`.
pub fn parse_i64_exec(s: &Vec<char>) -> (r: Option<i64>)
    ensures
        match r {
            Some(v) => parse_i64(s@) == Some(v as int),
            None => parse_i64(s@) is None,
        },
{
    if s.len() > 0 && s[0] == '-' {
        assert(s@.subrange(1, s@.len() as int) =~= s@.drop_first());
        if s.len() == 1 {
            return None;
        }
        match digits_value_upto(s, 1, 0x8000_0000_0000_0000) {
            Some(v) => {
                if v == 0x8000_0000_0000_0000 {
                    Some(i64::MIN)
                } else {
                    Some(-(v as i64))
                }
            },
            None => None,
        }
    } else {
        match parse_unsigned_exec(s, 0x7FFF_FFFF_FFFF_FFFF) {
            Some(v) => Some(v as i64),
            None => None,
        }
    }
}


// ── Decimal output (std `Display` for the integer types) ──────────

/// The decimal digit for `d` (`0..=9`).
pub open spec fn digit_char(d: nat) -> char {
    (('0' as u32) + d) as char
}

/// The decimal representation of `n`: no leading zeros, `"0"` for zero.
pub open spec fn decimal_of(n: nat) -> Seq<char>
    decreases n,
{
    if n < 10 {
        seq![digit_char(n)]
    } else {
        decimal_of(n / 10).push(digit_char(n % 10))
    }
}

/// The decimal representation of a signed integer: a `-` before the
/// digits of its magnitude when it is negative.
pub open spec fn signed_decimal_of(n: int) -> Seq<char> {
    if n < 0 {
        seq!['-'] + decimal_of((-n) as nat)
    } else {
        decimal_of(n as nat)
    }
}

fn digit_char_exec(d: u64) -> (r: char)
    requires
        d < 10,
    ensures
        r == digit_char(d as nat),
{
    let b: u8 = 48u8 + (d as u8);
    let c = b as char;
    assert(c as u32 == 48 + d);
    c
}

/// The decimal digits of `n`.
pub fn decimal_chars(n: u64) -> (r: Vec<char>)
    ensures
        r@ == decimal_of(n as nat),
    decreases n,
{
    if n < 10 {
        let mut v: Vec<char> = Vec::new();
        v.push(digit_char_exec(n));
        assert(v@ =~= seq![digit_char(n as nat)]);
        v
    } else {
        let mut v = decimal_chars(n / 10);
        v.push(digit_char_exec(n % 10));
        v
    }
}

/// The decimal representation of a signed integer.
pub fn signed_decimal_chars(n: i64) -> (r: Vec<char>)
    ensures
        r@ == signed_decimal_of(n as int),
{
    if n < 0 {
        let m: u64 = if n == i64::MIN { 0x8000_0000_0000_0000u64 } else { (-n) as u64 };
        let digits = decimal_chars(m);
        let mut v: Vec<char> = Vec::new();
        v.push('-');
        let mut i: usize = 0;
        while i < digits.len()
            invariant
                i <= digits@.len(),
                v@ == seq!['-'] + digits@.subrange(0, i as int),
            decreases digits.len() - i,
        {
            v.push(digits[i]);
            i += 1;
            assert(v@ =~= seq!['-'] + digits@.subrange(0, i as int));
        }
        assert(digits@.subrange(0, digits@.len() as int) =~= digits@);
        v
    } else {
        decimal_chars(n as u64)
    }
}

/// Appends the characters of `s` to `v`.
pub fn push_str_chars(v: &mut Vec<char>, s: &str)
    ensures
        final(v)@ == old(v)@ + s@,
{
    let cs = chars_of(s);
    let mut i: usize = 0;
    while i < cs.len()
        invariant
            i <= cs@.len(),
            cs@ == s@,
            v@ == old(v)@ + cs@.subrange(0, i as int),
        decreases cs.len() - i,
    {
        v.push(cs[i]);
        i += 1;
        assert(v@ =~= old(v)@ + cs@.subrange(0, i as int));
    }
    assert(cs@.subrange(0, cs@.len() as int) =~= cs@);
}

/// Appends the characters of `s` to `v`.
pub fn push_chars(v: &mut Vec<char>, s: &Vec<char>)
    ensures
        final(v)@ == old(v)@ + s@,
{
    let mut i: usize = 0;
    while i < s.len()
        invariant
            i <= s@.len(),
            v@ == old(v)@ + s@.subrange(0, i as int),
        decreases s.len() - i,
    {
        v.push(s[i]);
        i += 1;
        assert(v@ =~= old(v)@ + s@.subrange(0, i as int));
    }
    assert(s@.subrange(0, s@.len() as int) =~= s@);
}

// ── Splitting joined text ──────────────────────────────────────────

/// Appending text without `c` adds no position of `c`.
pub proof fn lemma_positions_append_free(x: Seq<char>, y: Seq<char>, c: char)
    requires
        !y.contains(c),
    ensures
        char_positions(x + y, c) == char_positions(x, c),
    decreases y.len(),
{
    if y.len() == 0 {
        assert(x + y =~= x);
    } else {
        let z = y.drop_last();
        assert(!z.contains(c)) by {
            if z.contains(c) {
                let i = choose|i: int| 0 <= i < z.len() && z[i] == c;
                assert(y[i] == c);
            }
        }
        lemma_positions_append_free(x, z, c);
        assert((x + y).drop_last() =~= x + z);
        assert((x + y).last() == y[y.len() - 1]);
    }
}

/// Splitting `x + y`, where `y` holds no `c`: the pieces of `x`, the last
/// one extended by `y`.
pub proof fn lemma_split_append_free(x: Seq<char>, y: Seq<char>, c: char)
    requires
        !y.contains(c),
    ensures
        split_count(x + y, c) == split_count(x, c),
        forall|k: int| 0 <= k < split_count(x, c) - 1 ==> #[trigger] split_piece(x + y, c, k) == split_piece(x, c, k),
        split_piece(x + y, c, split_count(x, c) - 1) == split_piece(x, c, split_count(x, c) - 1) + y,
{
    lemma_positions_append_free(x, y, c);
    assert forall|k: int| 0 <= k < split_count(x, c) - 1 implies #[trigger] split_piece(x + y, c, k) == split_piece(x, c, k) by {
        lemma_pieces_in_range(x, c, k);
        assert(split_piece(x + y, c, k) =~= split_piece(x, c, k));
    }
    let last = split_count(x, c) - 1;
    lemma_pieces_in_range(x, c, last);
    assert(split_piece(x + y, c, last) =~= split_piece(x, c, last) + y);
}

/// Splitting `x` followed by `c`: the pieces of `x`, then an empty one.
pub proof fn lemma_split_push_sep(x: Seq<char>, c: char)
    ensures
        split_count(x.push(c), c) == split_count(x, c) + 1,
        forall|k: int| 0 <= k < split_count(x, c) ==> #[trigger] split_piece(x.push(c), c, k) == split_piece(x, c, k),
        split_piece(x.push(c), c, split_count(x, c)) == Seq::<char>::empty(),
{
    assert(x.push(c).drop_last() =~= x);
    assert(char_positions(x.push(c), c) == char_positions(x, c).push(x.len() as int));
    assert forall|k: int| 0 <= k < split_count(x, c) implies #[trigger] split_piece(x.push(c), c, k) == split_piece(x, c, k) by {
        lemma_pieces_in_range(x, c, k);
        assert(split_piece(x.push(c), c, k) =~= split_piece(x, c, k));
    }
    assert(split_piece(x.push(c), c, split_count(x, c)) =~= Seq::<char>::empty());
}

/// Text without `c` splits into itself.
pub proof fn lemma_split_free(x: Seq<char>, c: char)
    requires
        !x.contains(c),
    ensures
        split_count(x, c) == 1,
        split_piece(x, c, 0) == x,
{
    lemma_positions_append_free(Seq::empty(), x, c);
    assert(Seq::<char>::empty() + x =~= x);
    assert(split_piece(x, c, 0) =~= x);
}

/// The decimal text of a number is digits only, reads back as the
/// number, is its own trimmed form, and starts with no `+`.
pub proof fn lemma_decimal_round_trip(n: nat)
    ensures
        decimal_of(n).len() > 0,
        all_digits(decimal_of(n)),
        digits_value(decimal_of(n)) == n,
        trim(decimal_of(n)) == decimal_of(n),
        decimal_of(n)[0] != '+',
        forall|max: int| n <= max ==> #[trigger] parse_unsigned(decimal_of(n), max) == Some(n as int),
    decreases n,
{
    let d = decimal_of(n);
    if n >= 10 {
        lemma_decimal_round_trip(n / 10);
        let p = decimal_of(n / 10);
        assert(d.drop_last() =~= p);
        assert forall|i: int| 0 <= i < d.len() implies is_digit(#[trigger] d[i]) by {
            if i < p.len() {
                assert(d[i] == p[i]);
            }
        }
        assert(d[0] == p[0]);
        assert(digit_val(d.last()) == (n % 10) as int);
        assert(digits_value(d) == digits_value(p) * 10 + (n % 10) as int);
    } else {
        assert(d.drop_last() =~= Seq::<char>::empty());
        assert(digit_val(d.last()) == n as int);
        assert(digits_value(d) == digits_value(d.drop_last()) * 10 + digit_val(d.last()));
    }
    assert(!is_ws(d[0]));
    assert(d.last() == d[d.len() - 1]);
    assert(!is_ws(d.last()));
    assert(lead_ws(d) == 0);
    assert(trail_ws(d) == 0);
    assert(trim(d) =~= d);
}

} // verus!
