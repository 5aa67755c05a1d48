//! Named, reusable views over an entity type: their kinds, filter and sort
//! clauses, configuration, and the rules for creating and updating them.
//!
//! View ids and user ids are UUIDs held as their `u128` value; times are
//! Unix milliseconds.
use vstd::prelude::*;
use crate::json::JsonValue;
use crate::text::{chars_of, string_of, trim, trim_chars, chars_eq};

pub mod query;
pub mod store;

verus! {

// ── View kinds ─────────────────────────────────────────────────────

/// The kind of view: which UI layout and which config fields are relevant.
#[derive(Debug, Clone, Copy, PartialEq, Eq, Structural)]
pub enum ViewKind {
    Grid,
    Form,
    Kanban,
    Gallery,
    Calendar,
}

/// The stored name of a view kind.
pub open spec fn view_kind_str(k: ViewKind) -> Seq<char> {
    match k {
        ViewKind::Grid => "grid"@,
        ViewKind::Form => "form"@,
        ViewKind::Kanban => "kanban"@,
        ViewKind::Gallery => "gallery"@,
        ViewKind::Calendar => "calendar"@,
    }
}

/// The view kind stored as `s`, if any (names are matched exactly).
pub open spec fn view_kind_of(s: Seq<char>) -> Option<ViewKind> {
    if s == "grid"@ {
        Some(ViewKind::Grid)
    } else if s == "form"@ {
        Some(ViewKind::Form)
    } else if s == "kanban"@ {
        Some(ViewKind::Kanban)
    } else if s == "gallery"@ {
        Some(ViewKind::Gallery)
    } else if s == "calendar"@ {
        Some(ViewKind::Calendar)
    } else {
        None
    }
}

impl ViewKind {
    /// Parse from a stored string value.
    pub fn from_str_value(s: &str) -> (r: Option<ViewKind>)
        ensures
            r == view_kind_of(s@),
    {
        let v = chars_of(s);
        if chars_eq(v.as_slice(), chars_of("grid").as_slice()) {
            Some(ViewKind::Grid)
        } else if chars_eq(v.as_slice(), chars_of("form").as_slice()) {
            Some(ViewKind::Form)
        } else if chars_eq(v.as_slice(), chars_of("kanban").as_slice()) {
            Some(ViewKind::Kanban)
        } else if chars_eq(v.as_slice(), chars_of("gallery").as_slice()) {
            Some(ViewKind::Gallery)
        } else if chars_eq(v.as_slice(), chars_of("calendar").as_slice()) {
            Some(ViewKind::Calendar)
        } else {
            None
        }
    }

    /// Serialise to a storage-friendly string.
    pub fn as_str(&self) -> (r: &'static str)
        ensures
            r@ == view_kind_str(*self),
    {
        match self {
            ViewKind::Grid => "grid",
            ViewKind::Form => "form",
            ViewKind::Kanban => "kanban",
            ViewKind::Gallery => "gallery",
            ViewKind::Calendar => "calendar",
        }
    }

    /// The stored name as an owned string (what the kind displays as).
    pub fn to_string(&self) -> (r: String)
        ensures
            r@ == view_kind_str(*self),
    {
        self.as_str().to_owned()
    }
}

/// Parsing the stored name of a kind gives the kind back.
pub proof fn lemma_view_kind_round_trip(k: ViewKind)
    ensures
        view_kind_of(view_kind_str(k)) == Some(k),
{
    reveal_strlit("grid");
    reveal_strlit("form");
    reveal_strlit("kanban");
    reveal_strlit("gallery");
    reveal_strlit("calendar");
    match k {
        ViewKind::Grid => {},
        ViewKind::Form => assert(view_kind_str(k)[0] != "grid"@[0]),
        ViewKind::Kanban => {
            assert(view_kind_str(k)[0] != "grid"@[0]);
            assert(view_kind_str(k)[0] != "form"@[0]);
        },
        ViewKind::Gallery => {
            assert(view_kind_str(k)[1] != "grid"@[1]);
            assert(view_kind_str(k)[0] != "form"@[0]);
            assert(view_kind_str(k)[0] != "kanban"@[0]);
        },
        ViewKind::Calendar => {
            assert(view_kind_str(k)[0] != "grid"@[0]);
            assert(view_kind_str(k)[0] != "form"@[0]);
            assert(view_kind_str(k)[0] != "kanban"@[0]);
            assert(view_kind_str(k)[0] != "gallery"@[0]);
        },
    }
}

// ── Filter / sort clauses ──────────────────────────────────────────

/// Comparison operator for a filter clause.
#[derive(Debug, Clone, Copy, PartialEq, Eq, Structural)]
pub enum FilterOp {
    Eq,
    Neq,
    Gt,
    Gte,
    Lt,
    Lte,
    Contains,
    IsEmpty,
    IsNotEmpty,
}

/// A single filter predicate applied by the view.
#[derive(Debug, Clone)]
pub struct FilterClause {
    /// Attribute name to filter on.
    pub field: String,
    /// Comparison operator.
    pub op: FilterOp,
    /// Value to compare against (`null` for `IsEmpty` / `IsNotEmpty`).
    pub value: JsonValue,
}

/// Sort direction.
#[derive(Debug, Clone, Copy, PartialEq, Eq, Structural)]
pub enum SortDir {
    Asc,
    Desc,
}

/// A sort instruction within a view.
#[derive(Debug, Clone)]
pub struct SortClause {
    /// Attribute name to sort by.
    pub field: String,
    /// Sort direction.
    pub direction: SortDir,
}

// ── View configuration ─────────────────────────────────────────────

/// Full configuration for a stored view.
#[derive(Debug, Clone)]
pub struct ViewConfig {
    /// Unique view id.
    pub id: u128,
    /// Human-readable name.
    pub name: String,
    /// View variant.
    pub kind: ViewKind,
    /// Entity type this view queries (e.g. `"Task"`, `"Contact"`).
    pub table_entity_type: String,
    /// Built-in filter predicates.
    pub filters: Vec<FilterClause>,
    /// Default sort order.
    pub sorts: Vec<SortClause>,
    /// Ordered list of visible field names.
    pub field_order: Vec<String>,
    /// Fields excluded from display.
    pub hidden_fields: Vec<String>,
    /// Group-by field (Grid view grouping).
    pub group_by: Option<String>,
    /// Field used as the Kanban column key.
    pub kanban_field: Option<String>,
    /// Date/datetime field used for Calendar layout.
    pub calendar_field: Option<String>,
    /// Field whose value determines row/card color.
    pub color_field: Option<String>,
    /// Pixel height of each row (Grid view).
    pub row_height: Option<u32>,
    /// User who created this view.
    pub created_by: u128,
    /// Creation time.
    pub created_at: i64,
    /// Last modification time.
    pub updated_at: i64,
}

/// Subset of fields that can be updated via `PATCH`; an absent field is
/// left as it is.
#[derive(Debug, Clone)]
pub struct ViewUpdate {
    pub name: Option<String>,
    pub kind: Option<ViewKind>,
    pub filters: Option<Vec<FilterClause>>,
    pub sorts: Option<Vec<SortClause>>,
    pub field_order: Option<Vec<String>>,
    pub hidden_fields: Option<Vec<String>>,
    pub group_by: Option<Option<String>>,
    pub kanban_field: Option<Option<String>>,
    pub calendar_field: Option<Option<String>>,
    pub color_field: Option<Option<String>>,
    pub row_height: Option<Option<u32>>,
}

impl Default for ViewUpdate {
    fn default() -> (r: ViewUpdate)
        ensures
            r.name is None,
            r.kind is None,
            r.filters is None,
            r.sorts is None,
            r.field_order is None,
            r.hidden_fields is None,
            r.group_by is None,
            r.kanban_field is None,
            r.calendar_field is None,
            r.color_field is None,
            r.row_height is None,
    {
        ViewUpdate {
            name: None,
            kind: None,
            filters: None,
            sorts: None,
            field_order: None,
            hidden_fields: None,
            group_by: None,
            kanban_field: None,
            calendar_field: None,
            color_field: None,
            row_height: None,
        }
    }
}

/// Parameters of a view listing.
#[derive(Debug, Clone)]
pub struct ListViewsParams {
    /// Entity type to list views for (required by the listing).
    pub entity_type: Option<String>,
}

/// Payload for creating a new view.
#[derive(Debug, Clone)]
pub struct CreateViewRequest {
    pub name: String,
    pub kind: ViewKind,
    pub table_entity_type: String,
    pub filters: Vec<FilterClause>,
    pub sorts: Vec<SortClause>,
    pub field_order: Vec<String>,
    pub hidden_fields: Vec<String>,
    pub group_by: Option<String>,
    pub kanban_field: Option<String>,
    pub calendar_field: Option<String>,
    pub color_field: Option<String>,
    pub row_height: Option<u32>,
}

/// Why a view could not be created or updated.
#[derive(Debug, Clone, Copy, PartialEq, Eq, Structural)]
pub enum ViewError {
    /// The view name is empty or only whitespace.
    EmptyName,
    /// The table entity type is empty or only whitespace.
    EmptyTable,
}

impl ViewError {
    /// The message the error is reported with.
    pub fn message(&self) -> (r: String)
        ensures
            r@ == view_error_message(*self),
    {
        match self {
            ViewError::EmptyName => "view name must not be empty".to_owned(),
            ViewError::EmptyTable => "table_entity_type must not be empty".to_owned(),
        }
    }
}

pub open spec fn view_error_message(e: ViewError) -> Seq<char> {
    match e {
        ViewError::EmptyName => "view name must not be empty"@,
        ViewError::EmptyTable => "table_entity_type must not be empty"@,
    }
}

/// The view a create request describes, with the given id, creator and
/// creation time.
pub open spec fn view_from_request(req: CreateViewRequest, id: u128, created_by: u128, now: i64) -> ViewConfig {
    ViewConfig {
        id,
        name: req.name,
        kind: req.kind,
        table_entity_type: req.table_entity_type,
        filters: req.filters,
        sorts: req.sorts,
        field_order: req.field_order,
        hidden_fields: req.hidden_fields,
        group_by: req.group_by,
        kanban_field: req.kanban_field,
        calendar_field: req.calendar_field,
        color_field: req.color_field,
        row_height: req.row_height,
        created_by,
        created_at: now,
        updated_at: now,
    }
}

fn is_blank(s: &String) -> (r: bool)
    ensures
        r <==> trim(s@).len() == 0,
{
    trim_chars(&chars_of(s.as_str())).len() == 0
}

/// Build a new view from a create request: the name and the table entity
/// type must each have a non-whitespace character (checked in that order).
pub fn new_view(req: CreateViewRequest, id: u128, created_by: u128, now: i64) -> (r: Result<ViewConfig, ViewError>)
    ensures
        trim(req.name@).len() == 0 ==> r == Err::<ViewConfig, ViewError>(ViewError::EmptyName),
        trim(req.name@).len() != 0 && trim(req.table_entity_type@).len() == 0 ==> r == Err::<ViewConfig, ViewError>(
            ViewError::EmptyTable,
        ),
        trim(req.name@).len() != 0 && trim(req.table_entity_type@).len() != 0 ==> r == Ok::<ViewConfig, ViewError>(
            view_from_request(req, id, created_by, now),
        ),
{
    if is_blank(&req.name) {
        return Err(ViewError::EmptyName);
    }
    if is_blank(&req.table_entity_type) {
        return Err(ViewError::EmptyTable);
    }
    Ok(ViewConfig {
        id,
        name: req.name,
        kind: req.kind,
        table_entity_type: req.table_entity_type,
        filters: req.filters,
        sorts: req.sorts,
        field_order: req.field_order,
        hidden_fields: req.hidden_fields,
        group_by: req.group_by,
        kanban_field: req.kanban_field,
        calendar_field: req.calendar_field,
        color_field: req.color_field,
        row_height: req.row_height,
        created_by,
        created_at: now,
        updated_at: now,
    })
}

/// `v` with each field that `u` sets replaced, and the modification time
/// set to `now`.
pub open spec fn updated_view(v: ViewConfig, u: ViewUpdate, now: i64) -> ViewConfig {
    ViewConfig {
        id: v.id,
        name: match u.name {
            Some(n) => n,
            None => v.name,
        },
        kind: match u.kind {
            Some(k) => k,
            None => v.kind,
        },
        table_entity_type: v.table_entity_type,
        filters: match u.filters {
            Some(x) => x,
            None => v.filters,
        },
        sorts: match u.sorts {
            Some(x) => x,
            None => v.sorts,
        },
        field_order: match u.field_order {
            Some(x) => x,
            None => v.field_order,
        },
        hidden_fields: match u.hidden_fields {
            Some(x) => x,
            None => v.hidden_fields,
        },
        group_by: match u.group_by {
            Some(x) => x,
            None => v.group_by,
        },
        kanban_field: match u.kanban_field {
            Some(x) => x,
            None => v.kanban_field,
        },
        calendar_field: match u.calendar_field {
            Some(x) => x,
            None => v.calendar_field,
        },
        color_field: match u.color_field {
            Some(x) => x,
            None => v.color_field,
        },
        row_height: match u.row_height {
            Some(x) => x,
            None => v.row_height,
        },
        created_by: v.created_by,
        created_at: v.created_at,
        updated_at: now,
    }
}

/// Apply a partial update to a view.  A new name that is empty or only
/// whitespace is refused, and then the view is left unchanged.
pub fn apply_update(view: &mut ViewConfig, update: ViewUpdate, now: i64) -> (r: Result<(), ViewError>)
    ensures
        (update.name matches Some(n) && trim(n@).len() == 0) ==> r == Err::<(), ViewError>(ViewError::EmptyName)
            && *final(view) == *old(view),
        !(update.name matches Some(n) && trim(n@).len() == 0) ==> r is Ok && *final(view) == updated_view(
            *old(view),
            update,
            now,
        ),
{
    if let Some(n) = &update.name {
        if is_blank(n) {
            return Err(ViewError::EmptyName);
        }
    }
    let ViewUpdate {
        name,
        kind,
        filters,
        sorts,
        field_order,
        hidden_fields,
        group_by,
        kanban_field,
        calendar_field,
        color_field,
        row_height,
    } = update;
    if let Some(x) = name {
        view.name = x;
    }
    if let Some(x) = kind {
        view.kind = x;
    }
    if let Some(x) = filters {
        view.filters = x;
    }
    if let Some(x) = sorts {
        view.sorts = x;
    }
    if let Some(x) = field_order {
        view.field_order = x;
    }
    if let Some(x) = hidden_fields {
        view.hidden_fields = x;
    }
    if let Some(x) = group_by {
        view.group_by = x;
    }
    if let Some(x) = kanban_field {
        view.kanban_field = x;
    }
    if let Some(x) = calendar_field {
        view.calendar_field = x;
    }
    if let Some(x) = color_field {
        view.color_field = x;
    }
    if let Some(x) = row_height {
        view.row_height = x;
    }
    view.updated_at = now;
    Ok(())
}

/// An update that sets nothing changes only the modification time.
pub proof fn lemma_empty_update(v: ViewConfig, u: ViewUpdate, now: i64)
    requires
        u.name is None,
        u.kind is None,
        u.filters is None,
        u.sorts is None,
        u.field_order is None,
        u.hidden_fields is None,
        u.group_by is None,
        u.kanban_field is None,
        u.calendar_field is None,
        u.color_field is None,
        u.row_height is None,
    ensures
        updated_view(v, u, now) == (ViewConfig { updated_at: now, ..v }),
{
}

} // verus!
