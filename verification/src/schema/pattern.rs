//! The regular expressions of `$value =~ "pattern"` assertions.
//!
//! The dialect: literal characters; `.` (any character but a newline);
//! the escapes `\d`, `\D`, `\w`, `\W`, `\s`, `\S` (ASCII classes), `\n`,
//! `\t`, `\r` and an escaped punctuation character (itself); bracket
//! classes `[...]` and `[^...]` of characters and ranges `a-z`; each
//! item optionally followed by `*`, `+` or `?`; `^` at the start and `$`
//! at the end anchor the match.  A pattern without `^` may match anywhere
//! in the text, and one without `$` may stop anywhere.  Groups,
//! alternation, counted repetition and the other escapes are not part of
//! the dialect: such a pattern does not compile.  Matching runs over a
//! table of the items against the text's positions, in time proportional
//! to their product.
use vstd::prelude::*;
use crate::text::is_ascii_alnum;

verus! {

/// A single-character matcher.
pub enum AtomView {
    /// Any character but `\n`.
    Any,
    /// Exactly this character.
    Lit(char),
    /// A character within one of the ranges (or, negated, within none).
    Class(Seq<(char, char)>, bool),
}

/// How often an item may repeat.
#[derive(Clone, Copy, PartialEq, Eq, Structural)]
pub enum Quant {
    /// Exactly once.
    One,
    /// At most once (`?`).
    Opt,
    /// Any number of times (`*`).
    Star,
}

pub type ItemView = (AtomView, Quant);

/// A compiled pattern: anchored at the start, its items, anchored at the
/// end.
pub type CompiledView = (bool, Seq<ItemView>, bool);

/// Whether `c` lies in one of the ranges.
pub open spec fn in_ranges(rs: Seq<(char, char)>, c: char) -> bool {
    exists|i: int| 0 <= i < rs.len() && rs[i].0 <= c && c <= rs[i].1
}

/// Whether the atom accepts the character.
pub open spec fn accepts(a: AtomView, c: char) -> bool {
    match a {
        AtomView::Any => c != '\n',
        AtomView::Lit(x) => c == x,
        AtomView::Class(rs, neg) => in_ranges(rs, c) != neg,
    }
}

pub open spec fn digit_ranges() -> Seq<(char, char)> {
    seq![('0', '9')]
}

pub open spec fn word_ranges() -> Seq<(char, char)> {
    seq![('0', '9'), ('A', 'Z'), ('_', '_'), ('a', 'z')]
}

pub open spec fn space_ranges() -> Seq<(char, char)> {
    seq![('\t', '\r'), (' ', ' ')]
}

/// The atom of the escape `\e`; `None` for a letter or digit outside the
/// dialect.
pub open spec fn escape_atom(e: char) -> Option<AtomView> {
    if e == 'd' {
        Some(AtomView::Class(digit_ranges(), false))
    } else if e == 'D' {
        Some(AtomView::Class(digit_ranges(), true))
    } else if e == 'w' {
        Some(AtomView::Class(word_ranges(), false))
    } else if e == 'W' {
        Some(AtomView::Class(word_ranges(), true))
    } else if e == 's' {
        Some(AtomView::Class(space_ranges(), false))
    } else if e == 'S' {
        Some(AtomView::Class(space_ranges(), true))
    } else if e == 'n' {
        Some(AtomView::Lit('\n'))
    } else if e == 't' {
        Some(AtomView::Lit('\t'))
    } else if e == 'r' {
        Some(AtomView::Lit('\r'))
    } else if is_ascii_alnum(e) {
        None
    } else {
        Some(AtomView::Lit(e))
    }
}

/// A character that opens something outside the dialect inside a class:
/// a nested class, or a doubled `&`, `~` or `-` (set operations).
pub open spec fn class_unsupported(b: Seq<char>, k: int) -> bool {
    b[k] == '[' || ((b[k] == '&' || b[k] == '~' || b[k] == '-') && k + 1 < b.len() && b[k + 1] == b[k])
}

/// The ranges of a class from position `k` up to its closing `]`, and the
/// position after it.
pub open spec fn class_items(b: Seq<char>, k: int) -> Option<(Seq<(char, char)>, int)>
    decreases b.len() - k,
{
    if k < 0 || k >= b.len() {
        None
    } else if b[k] == ']' {
        Some((Seq::empty(), k + 1))
    } else if class_unsupported(b, k) {
        None
    } else if b[k] == '\\' {
        if k + 1 < b.len() && !is_ascii_alnum(b[k + 1]) {
            match class_items(b, k + 2) {
                Some((rs, e)) => Some((seq![(b[k + 1], b[k + 1])] + rs, e)),
                None => None,
            }
        } else {
            None
        }
    } else if k + 2 < b.len() && b[k + 1] == '-' && b[k + 2] != ']' {
        if b[k + 2] != '\\' && b[k + 2] != '[' && b[k] <= b[k + 2] {
            match class_items(b, k + 3) {
                Some((rs, e)) => Some((seq![(b[k], b[k + 2])] + rs, e)),
                None => None,
            }
        } else {
            None
        }
    } else {
        match class_items(b, k + 1) {
            Some((rs, e)) => Some((seq![(b[k], b[k])] + rs, e)),
            None => None,
        }
    }
}

/// A character with a meaning of its own outside classes.
pub open spec fn is_meta(c: char) -> bool {
    c == '(' || c == ')' || c == '|' || c == '{' || c == '}' || c == '*' || c == '+' || c == '?' || c == '^' || c
        == '$'
}

pub open spec fn is_quant(c: char) -> bool {
    c == '*' || c == '+' || c == '?'
}

/// The atom at position `k` (within the text) and the position after it.
pub open spec fn atom_at(b: Seq<char>, k: int) -> Option<(AtomView, int)> {
    let n = b.len();
    let c = b[k];
    if c == '\\' {
        if b.len() - k > 1 {
            match escape_atom(b[k + 1]) {
                Some(a) => Some((a, k + 2)),
                None => None,
            }
        } else {
            None
        }
    } else if c == '[' {
        let neg = b.len() - k > 1 && b[k + 1] == '^';
        match class_items(b, if neg { k + 2 } else { k + 1 }) {
            Some((rs, e)) => if rs.len() > 0 {
                Some((AtomView::Class(rs, neg), e))
            } else {
                None
            },
            None => None,
        }
    } else if c == '.' {
        Some((AtomView::Any, k + 1))
    } else if is_meta(c) {
        None
    } else {
        Some((AtomView::Lit(c), k + 1))
    }
}

/// The items an atom with the quantifier `q` stands for (`a+` is `a`
/// then `a*`).
pub open spec fn quant_items(a: AtomView, q: char) -> Seq<ItemView> {
    if q == '*' {
        seq![(a, Quant::Star)]
    } else if q == '+' {
        seq![(a, Quant::One), (a, Quant::Star)]
    } else {
        seq![(a, Quant::Opt)]
    }
}

/// The items from position `k` on, and whether a final `$` anchors the
/// end.
pub open spec fn items_from(b: Seq<char>, k: int) -> Option<(Seq<ItemView>, bool)>
    decreases b.len() - k,
{
    if k < 0 || k >= b.len() {
        Some((Seq::empty(), false))
    } else if b[k] == '$' && k == b.len() - 1 {
        Some((Seq::empty(), true))
    } else {
        match atom_at(b, k) {
            None => None,
            Some((a, k2)) => if k2 <= k || k2 > b.len() {
                None
            } else if k2 < b.len() && is_quant(b[k2]) {
                if k2 + 1 < b.len() && is_quant(b[k2 + 1]) {
                    None
                } else {
                    match items_from(b, k2 + 1) {
                        Some((rest, end)) => Some((quant_items(a, b[k2]) + rest, end)),
                        None => None,
                    }
                }
            } else {
                match items_from(b, k2) {
                    Some((rest, end)) => Some((seq![(a, Quant::One)] + rest, end)),
                    None => None,
                }
            },
        }
    }
}

/// The compiled form of a pattern; `None` when it is outside the dialect.
pub open spec fn compile(p: Seq<char>) -> Option<CompiledView> {
    let start = p.len() > 0 && p[0] == '^';
    let b = if start { p.skip(1) } else { p };
    match items_from(b, 0) {
        Some((items, end)) => Some((start, items, end)),
        None => None,
    }
}

/// Whether the items `i..` match the text from position `j` on (up to its
/// end when `end` anchors it).
pub open spec fn match_from(items: Seq<ItemView>, end: bool, t: Seq<char>, i: int, j: int) -> bool
    decreases items.len() - i, t.len() - j,
{
    if i < 0 || j < 0 || j > t.len() {
        false
    } else if i >= items.len() {
        !end || j == t.len()
    } else {
        let a = items[i].0;
        let step = j < t.len() && accepts(a, t[j]);
        match items[i].1 {
            Quant::One => step && match_from(items, end, t, i + 1, j + 1),
            Quant::Opt => match_from(items, end, t, i + 1, j) || (step && match_from(items, end, t, i + 1, j + 1)),
            Quant::Star => match_from(items, end, t, i + 1, j) || (step && match_from(items, end, t, i, j + 1)),
        }
    }
}

/// Whether a compiled pattern matches the text: from its first position
/// when anchored at the start, otherwise from some position.
pub open spec fn compiled_matches(c: CompiledView, t: Seq<char>) -> bool {
    if c.0 {
        match_from(c.1, c.2, t, 0, 0)
    } else {
        exists|j: int| 0 <= j <= t.len() && match_from(c.1, c.2, t, 0, j)
    }
}

/// Whether the pattern matches the text; `None` when it does not compile.
pub open spec fn regex_match(p: Seq<char>, t: Seq<char>) -> Option<bool> {
    match compile(p) {
        Some(c) => Some(compiled_matches(c, t)),
        None => None,
    }
}

// ── Executable forms ───────────────────────────────────────────────

pub enum Atom {
    Any,
    Lit(char),
    Class(Vec<(char, char)>, bool),
}

impl View for Atom {
    type V = AtomView;

    open spec fn view(&self) -> AtomView {
        match *self {
            Atom::Any => AtomView::Any,
            Atom::Lit(c) => AtomView::Lit(c),
            Atom::Class(rs, neg) => AtomView::Class(rs@, neg),
        }
    }
}

pub open spec fn item_views(v: Seq<(Atom, Quant)>) -> Seq<ItemView> {
    Seq::new(v.len(), |i: int| (v[i].0@, v[i].1))
}

fn copy_atom(a: &Atom) -> (r: Atom)
    ensures
        r@ == a@,
{
    match a {
        Atom::Any => Atom::Any,
        Atom::Lit(c) => Atom::Lit(*c),
        Atom::Class(rs, neg) => {
            let mut v: Vec<(char, char)> = Vec::new();
            let mut i: usize = 0;
            while i < rs.len()
                invariant
                    i <= rs@.len(),
                    v@ == rs@.take(i as int),
                decreases rs.len() - i,
            {
                v.push(rs[i]);
                i += 1;
                assert(v@ =~= rs@.take(i as int));
            }
            assert(rs@.take(rs@.len() as int) =~= rs@);
            Atom::Class(v, *neg)
        },
    }
}

fn accepts_exec(a: &Atom, c: char) -> (r: bool)
    ensures
        r == accepts(a@, c),
{
    match a {
        Atom::Any => c != '\n',
        Atom::Lit(x) => c == *x,
        Atom::Class(rs, neg) => {
            let mut found = false;
            let mut i: usize = 0;
            while i < rs.len()
                invariant
                    i <= rs@.len(),
                    found == exists|k: int| 0 <= k < i && rs@[k].0 <= c && c <= rs@[k].1,
                decreases rs.len() - i,
            {
                if rs[i].0 <= c && c <= rs[i].1 {
                    found = true;
                }
                i += 1;
            }
            found != *neg
        },
    }
}

fn digit_vec() -> (v: Vec<(char, char)>)
    ensures
        v@ == digit_ranges(),
{
    let mut v: Vec<(char, char)> = Vec::new();
    v.push(('0', '9'));
    assert(v@ =~= digit_ranges());
    v
}

fn word_vec() -> (v: Vec<(char, char)>)
    ensures
        v@ == word_ranges(),
{
    let mut v: Vec<(char, char)> = Vec::new();
    v.push(('0', '9'));
    v.push(('A', 'Z'));
    v.push(('_', '_'));
    v.push(('a', 'z'));
    assert(v@ =~= word_ranges());
    v
}

fn space_vec() -> (v: Vec<(char, char)>)
    ensures
        v@ == space_ranges(),
{
    let mut v: Vec<(char, char)> = Vec::new();
    v.push(('\t', '\r'));
    v.push((' ', ' '));
    assert(v@ =~= space_ranges());
    v
}

fn escape_atom_exec(e: char) -> (r: Option<Atom>)
    ensures
        match escape_atom(e) {
            Some(a) => r matches Some(x) && x@ == a,
            None => r is None,
        },
{
    if e == 'd' {
        Some(Atom::Class(digit_vec(), false))
    } else if e == 'D' {
        Some(Atom::Class(digit_vec(), true))
    } else if e == 'w' {
        Some(Atom::Class(word_vec(), false))
    } else if e == 'W' {
        Some(Atom::Class(word_vec(), true))
    } else if e == 's' {
        Some(Atom::Class(space_vec(), false))
    } else if e == 'S' {
        Some(Atom::Class(space_vec(), true))
    } else if e == 'n' {
        Some(Atom::Lit('\n'))
    } else if e == 't' {
        Some(Atom::Lit('\t'))
    } else if e == 'r' {
        Some(Atom::Lit('\r'))
    } else if ('0' <= e && e <= '9') || ('a' <= e && e <= 'z') || ('A' <= e && e <= 'Z') {
        None
    } else {
        Some(Atom::Lit(e))
    }
}

fn is_alnum_exec(c: char) -> (r: bool)
    ensures
        r == is_ascii_alnum(c),
{
    ('0' <= c && c <= '9') || ('a' <= c && c <= 'z') || ('A' <= c && c <= 'Z')
}

fn class_items_exec(b: &Vec<char>, k: usize) -> (r: Option<(Vec<(char, char)>, usize)>)
    ensures
        match class_items(b@, k as int) {
            Some((rs, e)) => r matches Some((v, x)) && v@ == rs && x as int == e,
            None => r is None,
        },
{
    let mut rs: Vec<(char, char)> = Vec::new();
    let mut i = k;
    while i < b.len()
        invariant
            k <= i,
            i <= b@.len() || i == k,
            class_items(b@, k as int) == match class_items(b@, i as int) {
                Some((r2, e)) => Some((rs@ + r2, e)),
                None => None,
            },
        decreases b.len() - i,
    {
        let ghost before = rs@;
        let ghost i0 = i as int;
        if b[i] == ']' {
            assert(rs@ + Seq::<(char, char)>::empty() =~= rs@);
            return Some((rs, i + 1));
        }
        if b[i] == '[' || ((b[i] == '&' || b[i] == '~' || b[i] == '-') && i + 1 < b.len() && b[i + 1] == b[i]) {
            return None;
        }
        if b[i] == '\\' {
            if i + 1 < b.len() && !is_alnum_exec(b[i + 1]) {
                rs.push((b[i + 1], b[i + 1]));
                i = i + 2;
            } else {
                return None;
            }
        } else if b.len() - i > 2 && b[i + 1] == '-' && b[i + 2] != ']' {
            if b[i + 2] != '\\' && b[i + 2] != '[' && b[i] <= b[i + 2] {
                rs.push((b[i], b[i + 2]));
                i = i + 3;
            } else {
                return None;
            }
        } else {
            rs.push((b[i], b[i]));
            i = i + 1;
        }
        proof {
            let x = rs@.last();
            assert(rs@ == before.push(x));
            match class_items(b@, i as int) {
                Some((r2, e)) => {
                    assert(class_items(b@, i0) == Some((seq![x] + r2, e)));
                    assert(before + (seq![x] + r2) =~= rs@ + r2);
                },
                None => {
                    assert(class_items(b@, i0) is None);
                },
            }
        }
    }
    None
}

fn atom_at_exec(b: &Vec<char>, k: usize) -> (r: Option<(Atom, usize)>)
    requires
        k < b@.len(),
    ensures
        match atom_at(b@, k as int) {
            Some((a, e)) => r matches Some((x, y)) && x@ == a && y as int == e,
            None => r is None,
        },
{
    let n = b.len();
    let c = b[k];
    if c == '\\' {
        if b.len() - k > 1 {
            match escape_atom_exec(b[k + 1]) {
                Some(a) => Some((a, k + 2)),
                None => None,
            }
        } else {
            None
        }
    } else if c == '[' {
        let neg = b.len() - k > 1 && b[k + 1] == '^';
        let from = if neg { k + 2 } else { k + 1 };
        match class_items_exec(b, from) {
            Some((rs, e)) => if rs.len() > 0 {
                Some((Atom::Class(rs, neg), e))
            } else {
                None
            },
            None => None,
        }
    } else if c == '.' {
        Some((Atom::Any, k + 1))
    } else if c == '(' || c == ')' || c == '|' || c == '{' || c == '}' || c == '*' || c == '+' || c == '?' || c == '^'
        || c == '$' {
        None
    } else {
        Some((Atom::Lit(c), k + 1))
    }
}

fn items_exec(b: &Vec<char>) -> (r: Option<(Vec<(Atom, Quant)>, bool)>)
    ensures
        match items_from(b@, 0) {
            Some((items, end)) => r matches Some((v, x)) && item_views(v@) == items && x == end,
            None => r is None,
        },
{
    let mut acc: Vec<(Atom, Quant)> = Vec::new();
    let mut i: usize = 0;
    assert(item_views(acc@) =~= Seq::<ItemView>::empty());
    while i < b.len()
        invariant
            i <= b@.len(),
            items_from(b@, 0) == match items_from(b@, i as int) {
                Some((r2, e)) => Some((item_views(acc@) + r2, e)),
                None => None,
            },
        decreases b.len() - i,
    {
        let ghost before = item_views(acc@);
        let ghost i0 = i as int;
        if b[i] == '$' && i == b.len() - 1 {
            assert(item_views(acc@) + Seq::<ItemView>::empty() =~= item_views(acc@));
            return Some((acc, true));
        }
        let (a, k2) = match atom_at_exec(b, i) {
            Some(x) => x,
            None => {
                return None;
            },
        };
        if k2 <= i || k2 > b.len() {
            return None;
        }
        let ghost av = a@;
        let ghost added: Seq<ItemView>;
        if k2 < b.len() && (b[k2] == '*' || b[k2] == '+' || b[k2] == '?') {
            if k2 + 1 < b.len() && (b[k2 + 1] == '*' || b[k2 + 1] == '+' || b[k2 + 1] == '?') {
                return None;
            }
            let q = b[k2];
            if q == '*' {
                acc.push((a, Quant::Star));
            } else if q == '+' {
                let a2 = copy_atom(&a);
                acc.push((a, Quant::One));
                acc.push((a2, Quant::Star));
            } else {
                acc.push((a, Quant::Opt));
            }
            proof {
                added = quant_items(av, q);
            }
            i = k2 + 1;
        } else {
            acc.push((a, Quant::One));
            proof {
                added = seq![(av, Quant::One)];
            }
            i = k2;
        }
        proof {
            assert(item_views(acc@) =~= before + added);
            match items_from(b@, i as int) {
                Some((r2, e)) => {
                    assert(items_from(b@, i0) == Some((added + r2, e)));
                    assert(before + (added + r2) =~= item_views(acc@) + r2);
                },
                None => {
                    assert(items_from(b@, i0) is None);
                },
            }
        }
    }
    assert(item_views(acc@) + Seq::<ItemView>::empty() =~= item_views(acc@));
    Some((acc, false))
}

/// Whether the items match the text from each of its positions: entry
/// `j` for a position before the end, and the flag for the end itself.
fn match_row(items: &Vec<(Atom, Quant)>, end: bool, t: &Vec<char>) -> (r: (Vec<bool>, bool))
    ensures
        r.0@.len() == t@.len(),
        forall|j: int| 0 <= j < t@.len() ==> r.0@[j] == match_from(item_views(items@), end, t@, 0, j),
        r.1 == match_from(item_views(items@), end, t@, 0, t@.len() as int),
{
    let ghost iv = item_views(items@);
    let m = t.len();
    let mut next: Vec<bool> = Vec::new();
    let mut j: usize = 0;
    while j < m
        invariant
            j <= m,
            m == t@.len(),
            next@.len() == j,
            forall|k: int| 0 <= k < j ==> next@[k] == !end,
        decreases m - j,
    {
        next.push(!end);
        j += 1;
    }
    let mut next_end = true;
    let mut i = items.len();
    while i > 0
        invariant
            i <= items@.len(),
            iv == item_views(items@),
            m == t@.len(),
            next@.len() == m,
            forall|k: int| 0 <= k < m ==> next@[k] == match_from(iv, end, t@, i as int, k),
            next_end == match_from(iv, end, t@, i as int, m as int),
        decreases i,
    {
        i -= 1;
        let q = items[i].1;
        let a = &items[i].0;
        assert(iv[i as int] == (a@, q));
        let cur_end = match q {
            Quant::One => false,
            Quant::Opt => next_end,
            Quant::Star => next_end,
        };
        assert(cur_end == match_from(iv, end, t@, i as int, m as int));
        let mut cur: Vec<bool> = Vec::new();
        let mut z: usize = 0;
        while z < m
            invariant
                z <= m,
                cur@.len() == z,
            decreases m - z,
        {
            cur.push(false);
            z += 1;
        }
        let mut j = m;
        while j > 0
            invariant
                j <= m,
                m == t@.len(),
                i < items@.len(),
                iv == item_views(items@),
                iv[i as int] == (a@, q),
                cur@.len() == m,
                next@.len() == m,
                forall|k: int| 0 <= k < m ==> next@[k] == match_from(iv, end, t@, i + 1, k),
                next_end == match_from(iv, end, t@, i + 1, m as int),
                cur_end == match_from(iv, end, t@, i as int, m as int),
                forall|k: int| j <= k < m ==> cur@[k] == match_from(iv, end, t@, i as int, k),
            decreases j,
        {
            j -= 1;
            let step = accepts_exec(a, t[j]);
            let nj1 = if j + 1 == m { next_end } else { next[j + 1] };
            let cj1 = if j + 1 == m { cur_end } else { cur[j + 1] };
            let v = match q {
                Quant::One => step && nj1,
                Quant::Opt => next[j] || (step && nj1),
                Quant::Star => next[j] || (step && cj1),
            };
            assert(v == match_from(iv, end, t@, i as int, j as int));
            cur.set(j, v);
        }
        next = cur;
        next_end = cur_end;
    }
    (next, next_end)
}

/// Whether the pattern matches the text ([`regex_match`]); `None` when the
/// pattern does not compile.
pub fn regex_match_exec(p: &Vec<char>, t: &Vec<char>) -> (r: Option<bool>)
    ensures
        r == regex_match(p@, t@),
{
    let start = p.len() > 0 && p[0] == '^';
    let b = if start {
        crate::text::slice_chars(p, 1, p.len())
    } else {
        crate::text::slice_chars(p, 0, p.len())
    };
    assert(b@ =~= (if start { p@.skip(1) } else { p@ }));
    match items_exec(&b) {
        None => None,
        Some((items, end)) => {
            let ghost c: CompiledView = (start, item_views(items@), end);
            assert(compile(p@) == Some(c));
            let (row, at_end) = match_row(&items, end, t);
            if start {
                if t.len() == 0 {
                    assert(compiled_matches(c, t@) == at_end);
                    Some(at_end)
                } else {
                    assert(compiled_matches(c, t@) == row@[0]);
                    Some(row[0])
                }
            } else {
                let mut j: usize = 0;
                while j < t.len()
                    invariant
                        j <= t@.len(),
                        !start,
                        c.0 == start,
                        compile(p@) == Some(c),
                        row@.len() == t@.len(),
                        forall|k: int| 0 <= k < t@.len() ==> row@[k] == match_from(c.1, c.2, t@, 0, k),
                        forall|k: int| 0 <= k < j ==> !match_from(c.1, c.2, t@, 0, k),
                    decreases t.len() - j,
                {
                    if row[j] {
                        assert(match_from(c.1, c.2, t@, 0, j as int));
                        assert(compiled_matches(c, t@));
                        return Some(true);
                    }
                    j += 1;
                }
                proof {
                    if !at_end {
                        assert forall|k: int| 0 <= k <= t@.len() implies !match_from(c.1, c.2, t@, 0, k) by {
                            if k < t@.len() {
                            }
                        }
                        assert(!compiled_matches(c, t@));
                    } else {
                        assert(match_from(c.1, c.2, t@, 0, t@.len() as int));
                        assert(compiled_matches(c, t@));
                    }
                }
                Some(at_end)
            }
        },
    }
}

} // verus!
