//! Explicit table definitions: identifiers, settings, configuration and
//! the slug derived from a table's name.
use vstd::prelude::*;
use crate::text::{chars_of, string_of, is_ascii_alnum, ascii_lower_char, ascii_lower_exec, is_ascii_alnum_exec};
use crate::schema::now_millis;

pub mod migration;
pub mod templates;

verus! {

// ── Identifiers ────────────────────────────────────────────────────

/// The version/variant bits of a random (version 4, RFC 4122) UUID.
pub open spec fn is_v4_uuid(v: u128) -> bool {
    v & 0xF000_C000_0000_0000_0000u128 == 0x4000_8000_0000_0000_0000u128
}

/// A fresh random UUID (uuid `Uuid::new_v4`), as its big-endian `u128`
/// value.  The crate masks random bits so that the version nibble is 4 and
/// the variant bits are `10`; which value comes out is random.
#[verifier::external_body]
pub(crate) fn new_uuid_v4() -> (r: u128)
    ensures
        is_v4_uuid(r),
{
    uuid::Uuid::new_v4().as_u128()
}

/// A lower-case hexadecimal digit.
pub open spec fn hex_digit(d: int) -> char {
    if d < 10 {
        (('0' as int) + d) as char
    } else {
        (('a' as int) + d - 10) as char
    }
}

/// The `j`-th hexadecimal digit of a UUID, most significant first.
pub open spec fn uuid_nibble(v: u128, j: int) -> int {
    ((v as int) / (vstd::arithmetic::power2::pow2((4 * (31 - j)) as nat) as int)) % 16
}

/// The hyphenated lower-case text of a UUID (`8-4-4-4-12` hex digits).
pub open spec fn uuid_text(v: u128) -> Seq<char> {
    Seq::new(
        36,
        |i: int|
            if i == 8 || i == 13 || i == 18 || i == 23 {
                '-'
            } else {
                let hyphens: int = if i < 8 {
                    0
                } else if i < 13 {
                    1
                } else if i < 18 {
                    2
                } else if i < 23 {
                    3
                } else {
                    4
                };
                hex_digit(uuid_nibble(v, i - hyphens))
            },
    )
}

/// The text of a UUID given by its `u128` value (uuid `Uuid::from_u128`,
/// then its `Display`): the hyphenated lower-case form, which
/// `Uuid::parse_str` reads back as the same value.
#[verifier::external_body]
pub(crate) fn uuid_string(v: u128) -> (r: String)
    ensures
        r@ == uuid_text(v),
        crate::schema::strict::uuid_value_of(r@) == Some(v),
{
    uuid::Uuid::from_u128(v).to_string()
}

/// Strongly-typed table identifier (a UUID, as its `u128` value).
#[derive(Debug, Clone, Copy, PartialEq, Eq, Hash, Structural)]
pub struct TableId(pub u128);

impl TableId {
    /// Generate a new random table id.
    pub fn new() -> (r: TableId)
        ensures
            is_v4_uuid(r.0),
    {
        TableId(new_uuid_v4())
    }

    /// The entity id used to store this table's config in the triple store.
    pub fn entity_id(&self) -> (r: u128)
        ensures
            r == self.0,
    {
        self.0
    }

    /// The id as hyphenated lower-case UUID text.
    pub fn to_string(&self) -> (r: String)
        ensures
            r@ == uuid_text(self.0),
    {
        uuid_string(self.0)
    }
}

impl Default for TableId {
    fn default() -> (r: TableId)
        ensures
            is_v4_uuid(r.0),
    {
        TableId::new()
    }
}

/// Strongly-typed field identifier (a UUID, as its `u128` value).
#[derive(Debug, Clone, Copy, PartialEq, Eq, Hash, Structural)]
pub struct FieldId(pub u128);

impl FieldId {
    /// Generate a new random field id.
    pub fn new() -> (r: FieldId)
        ensures
            is_v4_uuid(r.0),
    {
        FieldId(new_uuid_v4())
    }
}

impl Default for FieldId {
    fn default() -> (r: FieldId)
        ensures
            is_v4_uuid(r.0),
    {
        FieldId::new()
    }
}

// ── Settings and configuration ─────────────────────────────────────

/// Table-level settings controlling behavior and limits.
#[derive(Debug, Clone, Copy, PartialEq, Eq, Structural)]
pub struct TableSettings {
    /// Whether duplicate records (identical field values) are allowed.
    pub allow_duplicates: bool,
    /// Whether to track full triple history for undo/audit.
    pub enable_history: bool,
    /// Hard limit on the number of records in this table.
    pub max_records: Option<u32>,
    /// Whether inline comments on records are enabled.
    pub enable_comments: bool,
}

/// Duplicates and history on, no record limit, comments off.
pub open spec fn default_settings() -> TableSettings {
    TableSettings { allow_duplicates: true, enable_history: true, max_records: None, enable_comments: false }
}

impl Default for TableSettings {
    fn default() -> (r: TableSettings)
        ensures
            r == default_settings(),
    {
        TableSettings { allow_duplicates: true, enable_history: true, max_records: None, enable_comments: false }
    }
}

/// Full configuration for an explicit table.
#[derive(Debug, Clone)]
pub struct TableConfig {
    /// Unique table identifier.
    pub id: TableId,
    /// Human-readable name (e.g. "Project Tracker").
    pub name: String,
    /// URL-safe slug derived from the name (e.g. "project-tracker").
    pub slug: String,
    /// Optional description of what this table stores.
    pub description: Option<String>,
    /// Optional emoji icon for UI display.
    pub icon: Option<String>,
    /// Optional hex color for UI theming (e.g. "#4A90D9").
    pub color: Option<String>,
    /// Which field serves as the record "title" / primary display.
    pub primary_field: Option<FieldId>,
    /// Ordered list of field ids — defines column ordering in views.
    pub field_ids: Vec<FieldId>,
    /// Default view to show when opening this table (a view UUID).
    pub default_view_id: Option<u128>,
    /// Table-level behavioral settings.
    pub settings: TableSettings,
    /// When this table config was created (Unix milliseconds).
    pub created_at: i64,
    /// When this table config was last modified (Unix milliseconds).
    pub updated_at: i64,
}

impl TableConfig {
    /// A new table config with the given name: a fresh id, the slug of the
    /// name, no optional metadata, no fields, default settings, and equal
    /// creation and modification times.
    pub fn new(name: &str) -> (r: TableConfig)
        ensures
            r.name@ == name@,
            r.slug@ == slug_of(name@),
            is_v4_uuid(r.id.0),
            r.description is None,
            r.icon is None,
            r.color is None,
            r.primary_field is None,
            r.field_ids@.len() == 0,
            r.default_view_id is None,
            r.settings == default_settings(),
            r.created_at == r.updated_at,
    {
        let now = now_millis();
        TableConfig {
            id: TableId::new(),
            name: name.to_owned(),
            slug: slugify(name),
            description: None,
            icon: None,
            color: None,
            primary_field: None,
            field_ids: Vec::new(),
            default_view_id: None,
            settings: TableSettings::default(),
            created_at: now,
            updated_at: now,
        }
    }
}

/// Request to create a table.
#[derive(Debug, Clone)]
pub struct CreateTableRequest {
    /// Human-readable table name.
    pub name: String,
    /// Optional description.
    pub description: Option<String>,
    /// Optional emoji icon.
    pub icon: Option<String>,
    /// Optional hex color.
    pub color: Option<String>,
    /// Optional settings overrides.
    pub settings: Option<TableSettings>,
    /// If provided, the table is created from this built-in template.
    pub template: Option<String>,
}

/// Request to duplicate a table.
#[derive(Debug, Clone)]
pub struct DuplicateTableRequest {
    /// Name for the duplicated table.
    pub name: String,
    /// Whether to copy records as well.
    pub include_data: bool,
}

/// Parameters of a table listing.
#[derive(Debug, Clone)]
pub struct ListTablesParams {
    /// Include the record count of each table.
    pub include_counts: Option<bool>,
}

/// The configuration a create request asks for (when it names no
/// template): its name (which must not be blank), description, icon and
/// color, and its settings or the default ones.
pub fn config_from_request(req: &CreateTableRequest) -> (r: Result<TableConfig, String>)
    ensures
        crate::text::trim(req.name@).len() == 0 <==> r is Err,
        r matches Err(m) ==> m@ == "Table name must not be empty"@,
        r matches Ok(c) ==> {
            &&& c.name@ == req.name@
            &&& c.slug@ == slug_of(req.name@)
            &&& is_v4_uuid(c.id.0)
            &&& crate::schema::opt_str_view(c.description) == crate::schema::opt_str_view(req.description)
            &&& crate::schema::opt_str_view(c.icon) == crate::schema::opt_str_view(req.icon)
            &&& crate::schema::opt_str_view(c.color) == crate::schema::opt_str_view(req.color)
            &&& c.settings == match req.settings {
                Some(st) => st,
                None => default_settings(),
            }
            &&& c.primary_field is None
            &&& c.field_ids@.len() == 0
            &&& c.default_view_id is None
            &&& c.created_at == c.updated_at
        },
{
    if crate::text::trim_chars(&chars_of(req.name.as_str())).len() == 0 {
        return Err(string_of(chars_of("Table name must not be empty").as_slice()));
    }
    let mut c = TableConfig::new(req.name.as_str());
    c.description = crate::schema::clone_opt_string(&req.description);
    c.icon = crate::schema::clone_opt_string(&req.icon);
    c.color = crate::schema::clone_opt_string(&req.color);
    match req.settings {
        Some(st) => {
            c.settings = st;
        },
        None => {},
    }
    Ok(c)
}

/// Table statistics returned by the stats endpoint.
#[derive(Debug, Clone)]
pub struct TableStats {
    /// Number of records (entities of this table's type).
    pub record_count: u64,
    /// Number of fields defined on this table.
    pub field_count: u64,
    /// Total number of triples belonging to records of this table.
    pub triple_count: u64,
    /// Last modification time across all records (Unix milliseconds).
    pub last_modified: Option<i64>,
}

// ── Slugs ──────────────────────────────────────────────────────────

/// The slug built from `s` before the trailing hyphen is dropped, and
/// whether it ends in a hyphen (or is empty): each ASCII letter or digit
/// is kept in lower case, and each run of other characters becomes one
/// hyphen, except at the start.
pub open spec fn slug_scan(s: Seq<char>) -> (Seq<char>, bool)
    decreases s.len(),
{
    if s.len() == 0 {
        (Seq::empty(), true)
    } else {
        let (acc, hyphen) = slug_scan(s.drop_last());
        let c = s.last();
        if is_ascii_alnum(c) {
            (acc.push(ascii_lower_char(c)), false)
        } else if !hyphen {
            (acc.push('-'), true)
        } else {
            (acc, hyphen)
        }
    }
}

/// The URL-safe slug of a name: lower case ASCII letters and digits, with
/// one hyphen for each run of other characters between them.
pub open spec fn slug_of(s: Seq<char>) -> Seq<char> {
    let acc = slug_scan(s).0;
    if acc.len() > 0 && acc.last() == '-' {
        acc.drop_last()
    } else {
        acc
    }
}

/// A well-formed slug: only lower case ASCII letters, digits and hyphens,
/// no hyphen first or last, and no two hyphens in a row.
pub open spec fn is_slug(s: Seq<char>) -> bool {
    &&& forall|i: int| 0 <= i < s.len() ==> ({
        let c = #[trigger] s[i];
        ('0' <= c && c <= '9') || ('a' <= c && c <= 'z') || c == '-'
    })
    &&& (s.len() > 0 ==> s[0] != '-' && s.last() != '-')
    &&& forall|i: int| 0 <= i < s.len() - 1 ==> !(#[trigger] s[i] == '-' && s[i + 1] == '-')
}

/// Convert a human-readable name into a URL-safe slug: lower case,
/// non-alphanumeric runs become single hyphens, no leading or trailing
/// hyphen.
pub fn slugify(input: &str) -> (r: String)
    ensures
        r@ == slug_of(input@),
{
    let cs = chars_of(input);
    let mut out: Vec<char> = Vec::new();
    let mut prev_hyphen = true;
    let mut i: usize = 0;
    while i < cs.len()
        invariant
            i <= cs@.len(),
            cs@ == input@,
            (out@, prev_hyphen) == slug_scan(cs@.subrange(0, i as int)),
        decreases cs.len() - i,
    {
        let c = cs[i];
        proof {
            assert(cs@.subrange(0, i + 1).drop_last() =~= cs@.subrange(0, i as int));
        }
        if is_ascii_alnum_exec(c) {
            out.push(ascii_lower_exec(c));
            prev_hyphen = false;
        } else if !prev_hyphen {
            out.push('-');
            prev_hyphen = true;
        }
        i += 1;
    }
    assert(cs@.subrange(0, cs@.len() as int) =~= cs@);
    if out.len() > 0 && out[out.len() - 1] == '-' {
        out.pop();
    }
    string_of(out.as_slice())
}

proof fn lemma_slug_scan_shape(s: Seq<char>)
    ensures
        ({
            let (acc, hyphen) = slug_scan(s);
            &&& forall|i: int| 0 <= i < acc.len() ==> ({
                let c = #[trigger] acc[i];
                ('0' <= c && c <= '9') || ('a' <= c && c <= 'z') || c == '-'
            })
            &&& (acc.len() > 0 ==> acc[0] != '-')
            &&& forall|i: int| 0 <= i < acc.len() - 1 ==> !(#[trigger] acc[i] == '-' && acc[i + 1] == '-')
            &&& (hyphen <==> (acc.len() == 0 || acc.last() == '-'))
        }),
    decreases s.len(),
{
    if s.len() > 0 {
        lemma_slug_scan_shape(s.drop_last());
        let (acc, hyphen) = slug_scan(s.drop_last());
        let c = s.last();
        if is_ascii_alnum(c) {
            let d = ascii_lower_char(c);
            assert(('0' <= d && d <= '9') || ('a' <= d && d <= 'z'));
            let a2 = acc.push(d);
            assert forall|i: int| 0 <= i < a2.len() implies ({
                let c = #[trigger] a2[i];
                ('0' <= c && c <= '9') || ('a' <= c && c <= 'z') || c == '-'
            }) by {
                if i < acc.len() {
                    assert(a2[i] == acc[i]);
                }
            }
            assert forall|i: int| 0 <= i < a2.len() - 1 implies !(#[trigger] a2[i] == '-' && a2[i + 1] == '-') by {
                if i + 1 < acc.len() {
                    assert(a2[i] == acc[i] && a2[i + 1] == acc[i + 1]);
                }
            }
        } else if !hyphen {
            let a2 = acc.push('-');
            assert forall|i: int| 0 <= i < a2.len() implies ({
                let c = #[trigger] a2[i];
                ('0' <= c && c <= '9') || ('a' <= c && c <= 'z') || c == '-'
            }) by {
                if i < acc.len() {
                    assert(a2[i] == acc[i]);
                }
            }
            assert forall|i: int| 0 <= i < a2.len() - 1 implies !(#[trigger] a2[i] == '-' && a2[i + 1] == '-') by {
                if i + 1 < acc.len() {
                    assert(a2[i] == acc[i] && a2[i + 1] == acc[i + 1]);
                } else {
                    assert(a2[i] == acc.last());
                }
            }
        }
    }
}

/// Every slug is well formed: lower case letters, digits and single
/// hyphens, with no hyphen at either end.
pub proof fn lemma_slug_is_well_formed(s: Seq<char>)
    ensures
        is_slug(slug_of(s)),
{
    lemma_slug_scan_shape(s);
    let acc = slug_scan(s).0;
    let r = slug_of(s);
    if acc.len() > 0 && acc.last() == '-' {
        assert forall|i: int| 0 <= i < r.len() implies ({
            let c = #[trigger] r[i];
            ('0' <= c && c <= '9') || ('a' <= c && c <= 'z') || c == '-'
        }) by {
            assert(r[i] == acc[i]);
        }
        assert forall|i: int| 0 <= i < r.len() - 1 implies !(#[trigger] r[i] == '-' && r[i + 1] == '-') by {
            assert(r[i] == acc[i] && r[i + 1] == acc[i + 1]);
        }
        if r.len() > 0 {
            assert(r[0] == acc[0]);
            assert(r.last() == acc[acc.len() - 2]);
            assert(!(acc[acc.len() - 2] == '-' && acc[acc.len() - 1] == '-'));
        }
    }
}

/// Hyphen-separated runs of lower case letters and digits, not starting
/// with a hyphen (a slug that may still end in a hyphen).
spec fn slug_prefix_shape(w: Seq<char>) -> bool {
    &&& forall|i: int| 0 <= i < w.len() ==> ({
        let c = #[trigger] w[i];
        ('0' <= c && c <= '9') || ('a' <= c && c <= 'z') || c == '-'
    })
    &&& (w.len() > 0 ==> w[0] != '-')
    &&& forall|i: int| 0 <= i < w.len() - 1 ==> !(#[trigger] w[i] == '-' && w[i + 1] == '-')
}

proof fn lemma_slug_scan_fixed(w: Seq<char>)
    requires
        slug_prefix_shape(w),
    ensures
        slug_scan(w) == (w, w.len() == 0 || w.last() == '-'),
    decreases w.len(),
{
    if w.len() > 0 {
        let p = w.drop_last();
        assert(slug_prefix_shape(p)) by {
            assert forall|i: int| 0 <= i < p.len() implies ({
                let c = #[trigger] p[i];
                ('0' <= c && c <= '9') || ('a' <= c && c <= 'z') || c == '-'
            }) by {
                assert(p[i] == w[i]);
            }
            assert forall|i: int| 0 <= i < p.len() - 1 implies !(#[trigger] p[i] == '-' && p[i + 1] == '-') by {
                assert(p[i] == w[i] && p[i + 1] == w[i + 1]);
            }
            if p.len() > 0 {
                assert(p[0] == w[0]);
            }
        }
        lemma_slug_scan_fixed(p);
        let c = w.last();
        assert(('0' <= c && c <= '9') || ('a' <= c && c <= 'z') || c == '-') by {
            assert(w[w.len() - 1] == c);
        }
        if c == '-' {
            assert(w.len() >= 2);
            assert(!(w[w.len() - 2] == '-' && w[w.len() - 1] == '-'));
            assert(p.last() == w[w.len() - 2]);
        }
        assert(p.push(c) =~= w);
    }
}

/// Slugifying a slug gives it back.
/// The maximal runs of ASCII letters and digits of `s`, in order, each
/// in lower case.
pub open spec fn alnum_runs(s: Seq<char>) -> Seq<Seq<char>>
    decreases s.len(),
{
    if s.len() == 0 {
        Seq::empty()
    } else {
        let rs = alnum_runs(s.drop_last());
        let c = s.last();
        if !is_ascii_alnum(c) {
            rs
        } else if s.len() >= 2 && is_ascii_alnum(s[s.len() - 2]) && rs.len() > 0 {
            rs.update(rs.len() - 1, rs.last().push(ascii_lower_char(c)))
        } else {
            rs.push(seq![ascii_lower_char(c)])
        }
    }
}

/// The pieces joined with `-`.
pub open spec fn hyphen_join(rs: Seq<Seq<char>>) -> Seq<char>
    decreases rs.len(),
{
    if rs.len() == 0 {
        Seq::empty()
    } else if rs.len() == 1 {
        rs[0]
    } else {
        hyphen_join(rs.drop_last()) + seq!['-'] + rs.last()
    }
}

proof fn lemma_join_extend_last(rs: Seq<Seq<char>>, c: char)
    requires
        rs.len() > 0,
    ensures
        hyphen_join(rs.update(rs.len() - 1, rs.last().push(c))) == hyphen_join(rs).push(c),
{
    let u = rs.update(rs.len() - 1, rs.last().push(c));
    if rs.len() == 1 {
        assert(u[0] == rs[0].push(c));
    } else {
        assert(u.drop_last() =~= rs.drop_last());
        assert(u.last() == rs.last().push(c));
        assert(hyphen_join(rs.drop_last()) + seq!['-'] + rs.last().push(c) =~= (hyphen_join(rs.drop_last()) + seq!['-']
            + rs.last()).push(c));
    }
}

proof fn lemma_join_push(rs: Seq<Seq<char>>, c: char)
    requires
        rs.len() > 0,
    ensures
        hyphen_join(rs.push(seq![c])) == hyphen_join(rs) + seq!['-', c],
{
    let u = rs.push(seq![c]);
    assert(u.drop_last() =~= rs);
    assert(hyphen_join(rs) + seq!['-'] + seq![c] =~= hyphen_join(rs) + seq!['-', c]);
}

proof fn lemma_slug_scan_runs(s: Seq<char>)
    ensures
        ({
            let (acc, h) = slug_scan(s);
            let rs = alnum_runs(s);
            &&& rs.len() == 0 ==> acc.len() == 0 && h
            &&& rs.len() > 0 && is_ascii_alnum(s.last()) ==> acc == hyphen_join(rs) && !h
            &&& rs.len() > 0 && !is_ascii_alnum(s.last()) ==> acc == hyphen_join(rs) + seq!['-'] && h
            &&& rs.len() > 0 ==> s.len() > 0
        }),
    decreases s.len(),
{
    if s.len() > 0 {
        let t = s.drop_last();
        lemma_slug_scan_runs(t);
        let c = s.last();
        let rs = alnum_runs(t);
        if is_ascii_alnum(c) {
            if s.len() >= 2 && is_ascii_alnum(s[s.len() - 2]) && rs.len() > 0 {
                assert(t.last() == s[s.len() - 2]);
                lemma_join_extend_last(rs, ascii_lower_char(c));
            } else if rs.len() > 0 {
                assert(t.last() == s[s.len() - 2]);
                lemma_join_push(rs, ascii_lower_char(c));
                assert(hyphen_join(rs) + seq!['-'] + seq![ascii_lower_char(c)] =~= hyphen_join(rs) + seq![
                    '-',
                    ascii_lower_char(c),
                ]);
            } else {
                let u = rs.push(seq![ascii_lower_char(c)]);
                assert(u.len() == 1);
                assert(slug_scan(t).0.push(ascii_lower_char(c)) =~= seq![ascii_lower_char(c)]);
            }
        } else {
            if rs.len() > 0 {
                assert(t.len() > 0);
            }
        }
    }
}

/// The slug of a name is exactly its maximal runs of ASCII letters and
/// digits, in lower case, joined with `-`.
pub proof fn lemma_slug_is_alnum_runs(s: Seq<char>)
    ensures
        slug_of(s) == hyphen_join(alnum_runs(s)),
{
    lemma_slug_scan_runs(s);
    let (acc, h) = slug_scan(s);
    let rs = alnum_runs(s);
    if rs.len() > 0 && !is_ascii_alnum(s.last()) {
        assert((hyphen_join(rs) + seq!['-']).drop_last() =~= hyphen_join(rs));
    } else if rs.len() > 0 {
        let c = s.last();
        assert(acc == slug_scan(s.drop_last()).0.push(ascii_lower_char(c)));
        assert(acc.last() == ascii_lower_char(c));
        assert(ascii_lower_char(c) != '-');
    } else {
        assert(acc =~= Seq::<char>::empty());
    }
}

pub proof fn lemma_slug_idempotent(s: Seq<char>)
    ensures
        slug_of(slug_of(s)) == slug_of(s),
{
    let w = slug_of(s);
    lemma_slug_is_well_formed(s);
    lemma_slug_scan_fixed(w);
}

} // verus!
