//! Built-in table templates for quick-start table creation, and the
//! plan of what creating a table from one writes: the table config, the
//! field metadata triples, and the sample records.
use vstd::prelude::*;
use crate::json::{FloatNumber, JsonNumber, JsonValue, JsonView, entry_views, clone_entries, clone_string};
use crate::text::{chars_of, chars_eq, lowercase_of, push_str_chars, push_chars, string_of, to_lower};
use crate::triple_store::{TripleInput, TripleInputView, input_views};
use super::{FieldId, TableConfig, TableId, is_v4_uuid, new_uuid_v4, slug_of, uuid_string, uuid_text, default_settings};
use super::migration::{db_type_attr, field_attribute};

verus! {

// ── Template types ─────────────────────────────────────────────────

/// Describes a field within a table template.
#[derive(Debug, Clone)]
pub struct FieldTemplate {
    /// Human-readable field name.
    pub name: String,
    /// Field type: "text", "number", "select", "date", "email", "url", "multiline".
    pub field_type: String,
    /// Type-specific options (e.g. select choices), as the entries of a
    /// JSON object.
    pub options: Vec<(String, JsonValue)>,
}

/// A complete table template with fields and optional sample data.
#[derive(Debug, Clone)]
pub struct TableTemplate {
    /// Template identifier (e.g. "project_tracker").
    pub name: String,
    /// Human-readable description.
    pub description: String,
    /// Ordered list of field definitions.
    pub fields: Vec<FieldTemplate>,
    /// Sample rows, each the entries of a JSON object (field name to value).
    pub sample_data: Vec<Vec<(String, JsonValue)>>,
}

/// The fields of a template as `(name, type)`.
pub open spec fn field_pairs(fields: Seq<FieldTemplate>) -> Seq<(Seq<char>, Seq<char>)> {
    Seq::new(fields.len(), |i: int| (fields[i].name@, fields[i].field_type@))
}

/// The field's options hold a non-empty `choices` array.
pub open spec fn has_choices(f: FieldTemplate) -> bool {
    exists|i: int|
        0 <= i < f.options@.len() && f.options@[i].0@ == "choices"@ && (#[trigger] f.options@[i].1@ matches JsonView::Array(
            a,
        ) && a.len() > 0)
}

/// Every select field of the list offers choices.
pub open spec fn selects_have_choices(fields: Seq<FieldTemplate>) -> bool {
    forall|i: int| 0 <= i < fields.len() && (#[trigger] fields[i]).field_type@ == "select"@ ==> has_choices(fields[i])
}

/// Every key of every sample row names a field of the template.
pub open spec fn samples_name_fields(t: TableTemplate) -> bool {
    forall|a: int, j: int|
        #![trigger t.sample_data@[a]@[j]]
        0 <= a < t.sample_data@.len() && 0 <= j < t.sample_data@[a]@.len() ==> exists|f: int|
            0 <= f < t.fields@.len() && t.fields@[f].name@ == t.sample_data@[a]@[j].0@
}

/// `t` is the `k`-th built-in template: its name, a description, its
/// fields in order, its sample rows (whose keys name its fields), and
/// choices for every select field.
pub open spec fn is_template(t: TableTemplate, k: int) -> bool {
    &&& t.name@ == builtin_name(k)
    &&& t.description@.len() > 0
    &&& field_pairs(t.fields@) == template_fields(k)
    &&& t.sample_data@.len() == template_sample_count(k)
    &&& selects_have_choices(t.fields@)
    &&& samples_name_fields(t)
}

fn message(s: &str) -> (r: String)
    ensures
        r@ == s@,
{
    string_of(chars_of(s).as_slice())
}

fn text_value(s: &str) -> (r: JsonValue)
    ensures
        r@ == JsonView::String(s@),
{
    JsonValue::String(message(s))
}

/// The number 29.99 (as serde_json holds it: its binary64 bits and text).
fn price_value() -> (r: JsonValue)
    ensures
        r@ == JsonView::Number(crate::json::NumberView::Float(0x403dfd70a3d70a3du64, "29.99"@)),
{
    JsonValue::Number(JsonNumber::Float(FloatNumber { bits: 0x403dfd70a3d70a3du64, text: message("29.99") }))
}

fn plain_field(name: &str, ty: &str) -> (r: FieldTemplate)
    requires
        ty@ != "select"@,
    ensures
        r.name@ == name@,
        r.field_type@ == ty@,
        r.options@.len() == 0,
{
    FieldTemplate { name: message(name), field_type: message(ty), options: Vec::new() }
}

fn select_field(name: &str, choices: &[&str]) -> (r: FieldTemplate)
    requires
        choices@.len() > 0,
    ensures
        r.name@ == name@,
        r.field_type@ == "select"@,
        has_choices(r),
{
    let mut items: Vec<JsonValue> = Vec::new();
    let mut i: usize = 0;
    while i < choices.len()
        invariant
            i <= choices@.len(),
            items@.len() == i,
        decreases choices.len() - i,
    {
        items.push(text_value(choices[i]));
        i += 1;
    }
    let mut options: Vec<(String, JsonValue)> = Vec::new();
    options.push((message("choices"), JsonValue::Array(items)));
    proof {
        crate::json::lemma_array_view(items);
    }
    let r = FieldTemplate { name: message(name), field_type: message("select"), options };
    assert(r.options@[0].1@ matches JsonView::Array(a) && a.len() > 0);
    r
}

fn price_field(name: &str) -> (r: FieldTemplate)
    ensures
        r.name@ == name@,
        r.field_type@ == "number"@,
{
    let mut options: Vec<(String, JsonValue)> = Vec::new();
    options.push((message("precision"), JsonValue::Number(JsonNumber::PosInt(2))));
    options.push((message("prefix"), text_value("$")));
    FieldTemplate { name: message(name), field_type: message("number"), options }
}

// ── Built-in templates ─────────────────────────────────────────────

/// The name of the `k`-th built-in template.
pub open spec fn builtin_name(k: int) -> Seq<char> {
    if k == 0 {
        "project_tracker"@
    } else if k == 1 {
        "contacts"@
    } else if k == 2 {
        "inventory"@
    } else if k == 3 {
        "content_calendar"@
    } else {
        "bug_tracker"@
    }
}

/// The fields `(name, type)` of the `k`-th built-in template, in order.
pub open spec fn template_fields(k: int) -> Seq<(Seq<char>, Seq<char>)> {
    if k == 0 {
        seq![("Name"@, "text"@), ("Status"@, "select"@), ("Priority"@, "select"@), ("Assignee"@, "text"@), ("Due Date"@, "date"@), ("Description"@, "multiline"@)]
    } else if k == 1 {
        seq![("Name"@, "text"@), ("Email"@, "email"@), ("Phone"@, "text"@), ("Company"@, "text"@), ("Tags"@, "text"@), ("Notes"@, "multiline"@), ("Last Contact"@, "date"@)]
    } else if k == 2 {
        seq![("Product Name"@, "text"@), ("SKU"@, "text"@), ("Category"@, "select"@), ("Quantity"@, "number"@), ("Price"@, "number"@), ("Supplier"@, "text"@), ("Reorder Level"@, "number"@)]
    } else if k == 3 {
        seq![("Title"@, "text"@), ("Status"@, "select"@), ("Author"@, "text"@), ("Publish Date"@, "date"@), ("Category"@, "select"@), ("URL"@, "url"@), ("Notes"@, "multiline"@)]
    } else {
        seq![("Title"@, "text"@), ("Severity"@, "select"@), ("Status"@, "select"@), ("Reporter"@, "text"@), ("Assignee"@, "text"@), ("Steps to Reproduce"@, "multiline"@), ("Environment"@, "text"@)]
    }
}

/// The number of sample rows of the `k`-th built-in template.
pub open spec fn template_sample_count(k: int) -> nat {
    if k == 0 {
        2
    } else if k == 1 {
        1
    } else if k == 2 {
        1
    } else if k == 3 {
        0
    } else {
        1
    }
}

/// The `project_tracker` template.
pub fn project_tracker() -> (r: TableTemplate)
    ensures
        is_template(r, 0),
{
    proof {
        reveal_strlit("select");
        reveal_strlit("Track projects with status, priority, and assignments.");
        reveal_strlit("date");
        assert("date"@.len() != "select"@.len());
        assert("date"@ != "select"@);
        reveal_strlit("multiline");
        assert("multiline"@.len() != "select"@.len());
        assert("multiline"@ != "select"@);
        reveal_strlit("text");
        assert("text"@.len() != "select"@.len());
        assert("text"@ != "select"@);
    }
    let mut fields: Vec<FieldTemplate> = Vec::new();
    fields.push(plain_field("Name", "text"));
    fields.push(select_field("Status", &["Todo", "In Progress", "Done"]));
    fields.push(select_field("Priority", &["Low", "Medium", "High", "Urgent"]));
    fields.push(plain_field("Assignee", "text"));
    fields.push(plain_field("Due Date", "date"));
    fields.push(plain_field("Description", "multiline"));
    let mut sample_data: Vec<Vec<(String, JsonValue)>> = Vec::new();
    let mut row: Vec<(String, JsonValue)> = Vec::new();
    row.push((message("Name"), text_value("Design landing page")));
    row.push((message("Status"), text_value("In Progress")));
    row.push((message("Priority"), text_value("High")));
    row.push((message("Assignee"), text_value("Alice")));
    sample_data.push(row);
    let mut row: Vec<(String, JsonValue)> = Vec::new();
    row.push((message("Name"), text_value("Set up CI/CD")));
    row.push((message("Status"), text_value("Todo")));
    row.push((message("Priority"), text_value("Medium")));
    sample_data.push(row);
    let r = TableTemplate { name: message("project_tracker"), description: message("Track projects with status, priority, and assignments."), fields, sample_data };
    assert(field_pairs(r.fields@) =~= seq![("Name"@, "text"@), ("Status"@, "select"@), ("Priority"@, "select"@), ("Assignee"@, "text"@), ("Due Date"@, "date"@), ("Description"@, "multiline"@)]);
    assert(r.description@.len() > 0);
    assert forall|i: int| 0 <= i < r.fields@.len() && (#[trigger] r.fields@[i]).field_type@ == "select"@ implies has_choices(
        r.fields@[i],
    ) by {
        if i == 0 {} else if i == 1 {} else if i == 2 {} else if i == 3 {} else if i == 4 {} else if i == 5 {}
    }
    assert forall|a: int, j: int| 0 <= a < r.sample_data@.len() && 0 <= j < r.sample_data@[a]@.len() implies exists|f: int|
        0 <= f < r.fields@.len() && r.fields@[f].name@ == (#[trigger] r.sample_data@[a]@[j]).0@ by {
        if a == 0 {
            if j == 0 {
                assert(r.fields@[0].name@ == field_pairs(r.fields@)[0].0);
            } else if j == 1 {
                assert(r.fields@[1].name@ == field_pairs(r.fields@)[1].0);
            } else if j == 2 {
                assert(r.fields@[2].name@ == field_pairs(r.fields@)[2].0);
            } else if j == 3 {
                assert(r.fields@[3].name@ == field_pairs(r.fields@)[3].0);
            }
        } else if a == 1 {
            if j == 0 {
                assert(r.fields@[0].name@ == field_pairs(r.fields@)[0].0);
            } else if j == 1 {
                assert(r.fields@[1].name@ == field_pairs(r.fields@)[1].0);
            } else if j == 2 {
                assert(r.fields@[2].name@ == field_pairs(r.fields@)[2].0);
            }
        }
    }
    r
}

/// The `contacts` template.
pub fn contacts() -> (r: TableTemplate)
    ensures
        is_template(r, 1),
{
    proof {
        reveal_strlit("select");
        reveal_strlit("Manage contacts with emails, phones, and company info.");
        reveal_strlit("date");
        assert("date"@.len() != "select"@.len());
        assert("date"@ != "select"@);
        reveal_strlit("email");
        assert("email"@.len() != "select"@.len());
        assert("email"@ != "select"@);
        reveal_strlit("multiline");
        assert("multiline"@.len() != "select"@.len());
        assert("multiline"@ != "select"@);
        reveal_strlit("text");
        assert("text"@.len() != "select"@.len());
        assert("text"@ != "select"@);
    }
    let mut fields: Vec<FieldTemplate> = Vec::new();
    fields.push(plain_field("Name", "text"));
    fields.push(plain_field("Email", "email"));
    fields.push(plain_field("Phone", "text"));
    fields.push(plain_field("Company", "text"));
    fields.push(plain_field("Tags", "text"));
    fields.push(plain_field("Notes", "multiline"));
    fields.push(plain_field("Last Contact", "date"));
    let mut sample_data: Vec<Vec<(String, JsonValue)>> = Vec::new();
    let mut row: Vec<(String, JsonValue)> = Vec::new();
    row.push((message("Name"), text_value("Jane Doe")));
    row.push((message("Email"), text_value("jane@example.com")));
    row.push((message("Company"), text_value("Acme Corp")));
    sample_data.push(row);
    let r = TableTemplate { name: message("contacts"), description: message("Manage contacts with emails, phones, and company info."), fields, sample_data };
    assert(field_pairs(r.fields@) =~= seq![("Name"@, "text"@), ("Email"@, "email"@), ("Phone"@, "text"@), ("Company"@, "text"@), ("Tags"@, "text"@), ("Notes"@, "multiline"@), ("Last Contact"@, "date"@)]);
    assert(r.description@.len() > 0);
    assert forall|i: int| 0 <= i < r.fields@.len() && (#[trigger] r.fields@[i]).field_type@ == "select"@ implies has_choices(
        r.fields@[i],
    ) by {
        if i == 0 {} else if i == 1 {} else if i == 2 {} else if i == 3 {} else if i == 4 {} else if i == 5 {} else if i == 6 {}
    }
    assert forall|a: int, j: int| 0 <= a < r.sample_data@.len() && 0 <= j < r.sample_data@[a]@.len() implies exists|f: int|
        0 <= f < r.fields@.len() && r.fields@[f].name@ == (#[trigger] r.sample_data@[a]@[j]).0@ by {
        if a == 0 {
            if j == 0 {
                assert(r.fields@[0].name@ == field_pairs(r.fields@)[0].0);
            } else if j == 1 {
                assert(r.fields@[1].name@ == field_pairs(r.fields@)[1].0);
            } else if j == 2 {
                assert(r.fields@[3].name@ == field_pairs(r.fields@)[3].0);
            }
        }
    }
    r
}

/// The `inventory` template.
pub fn inventory() -> (r: TableTemplate)
    ensures
        is_template(r, 2),
{
    proof {
        reveal_strlit("select");
        reveal_strlit("Track products, SKUs, quantities, and suppliers.");
        reveal_strlit("number");
        assert("number"@[0] != "select"@[0]);
        assert("number"@ != "select"@);
        reveal_strlit("text");
        assert("text"@.len() != "select"@.len());
        assert("text"@ != "select"@);
    }
    let mut fields: Vec<FieldTemplate> = Vec::new();
    fields.push(plain_field("Product Name", "text"));
    fields.push(plain_field("SKU", "text"));
    fields.push(select_field("Category", &["Electronics", "Clothing", "Food", "Other"]));
    fields.push(plain_field("Quantity", "number"));
    fields.push(price_field("Price"));
    fields.push(plain_field("Supplier", "text"));
    fields.push(plain_field("Reorder Level", "number"));
    let mut sample_data: Vec<Vec<(String, JsonValue)>> = Vec::new();
    let mut row: Vec<(String, JsonValue)> = Vec::new();
    row.push((message("Product Name"), text_value("Widget A")));
    row.push((message("SKU"), text_value("WGT-001")));
    row.push((message("Category"), text_value("Electronics")));
    row.push((message("Quantity"), JsonValue::Number(JsonNumber::PosInt(150))));
    row.push((message("Price"), price_value()));
    row.push((message("Reorder Level"), JsonValue::Number(JsonNumber::PosInt(25))));
    sample_data.push(row);
    let r = TableTemplate { name: message("inventory"), description: message("Track products, SKUs, quantities, and suppliers."), fields, sample_data };
    assert(field_pairs(r.fields@) =~= seq![("Product Name"@, "text"@), ("SKU"@, "text"@), ("Category"@, "select"@), ("Quantity"@, "number"@), ("Price"@, "number"@), ("Supplier"@, "text"@), ("Reorder Level"@, "number"@)]);
    assert(r.description@.len() > 0);
    assert forall|i: int| 0 <= i < r.fields@.len() && (#[trigger] r.fields@[i]).field_type@ == "select"@ implies has_choices(
        r.fields@[i],
    ) by {
        if i == 0 {} else if i == 1 {} else if i == 2 {} else if i == 3 {} else if i == 4 {} else if i == 5 {} else if i == 6 {}
    }
    assert forall|a: int, j: int| 0 <= a < r.sample_data@.len() && 0 <= j < r.sample_data@[a]@.len() implies exists|f: int|
        0 <= f < r.fields@.len() && r.fields@[f].name@ == (#[trigger] r.sample_data@[a]@[j]).0@ by {
        if a == 0 {
            if j == 0 {
                assert(r.fields@[0].name@ == field_pairs(r.fields@)[0].0);
            } else if j == 1 {
                assert(r.fields@[1].name@ == field_pairs(r.fields@)[1].0);
            } else if j == 2 {
                assert(r.fields@[2].name@ == field_pairs(r.fields@)[2].0);
            } else if j == 3 {
                assert(r.fields@[3].name@ == field_pairs(r.fields@)[3].0);
            } else if j == 4 {
                assert(r.fields@[4].name@ == field_pairs(r.fields@)[4].0);
            } else if j == 5 {
                assert(r.fields@[6].name@ == field_pairs(r.fields@)[6].0);
            }
        }
    }
    r
}

/// The `content_calendar` template.
pub fn content_calendar() -> (r: TableTemplate)
    ensures
        is_template(r, 3),
{
    proof {
        reveal_strlit("select");
        reveal_strlit("Plan and schedule content publication.");
        reveal_strlit("date");
        assert("date"@.len() != "select"@.len());
        assert("date"@ != "select"@);
        reveal_strlit("multiline");
        assert("multiline"@.len() != "select"@.len());
        assert("multiline"@ != "select"@);
        reveal_strlit("text");
        assert("text"@.len() != "select"@.len());
        assert("text"@ != "select"@);
        reveal_strlit("url");
        assert("url"@.len() != "select"@.len());
        assert("url"@ != "select"@);
    }
    let mut fields: Vec<FieldTemplate> = Vec::new();
    fields.push(plain_field("Title", "text"));
    fields.push(select_field("Status", &["Draft", "Review", "Scheduled", "Published"]));
    fields.push(plain_field("Author", "text"));
    fields.push(plain_field("Publish Date", "date"));
    fields.push(select_field("Category", &["Blog", "Social", "Newsletter", "Video"]));
    fields.push(plain_field("URL", "url"));
    fields.push(plain_field("Notes", "multiline"));
    let mut sample_data: Vec<Vec<(String, JsonValue)>> = Vec::new();
    let r = TableTemplate { name: message("content_calendar"), description: message("Plan and schedule content publication."), fields, sample_data };
    assert(field_pairs(r.fields@) =~= seq![("Title"@, "text"@), ("Status"@, "select"@), ("Author"@, "text"@), ("Publish Date"@, "date"@), ("Category"@, "select"@), ("URL"@, "url"@), ("Notes"@, "multiline"@)]);
    assert(r.description@.len() > 0);
    assert forall|i: int| 0 <= i < r.fields@.len() && (#[trigger] r.fields@[i]).field_type@ == "select"@ implies has_choices(
        r.fields@[i],
    ) by {
        if i == 0 {} else if i == 1 {} else if i == 2 {} else if i == 3 {} else if i == 4 {} else if i == 5 {} else if i == 6 {}
    }
    assert(r.sample_data@.len() == 0);
    r
}

/// The `bug_tracker` template.
pub fn bug_tracker() -> (r: TableTemplate)
    ensures
        is_template(r, 4),
{
    proof {
        reveal_strlit("select");
        reveal_strlit("Track bugs with severity, status, and reproduction steps.");
        reveal_strlit("multiline");
        assert("multiline"@.len() != "select"@.len());
        assert("multiline"@ != "select"@);
        reveal_strlit("text");
        assert("text"@.len() != "select"@.len());
        assert("text"@ != "select"@);
    }
    let mut fields: Vec<FieldTemplate> = Vec::new();
    fields.push(plain_field("Title", "text"));
    fields.push(select_field("Severity", &["Critical", "High", "Medium", "Low"]));
    fields.push(select_field("Status", &["Open", "In Progress", "Fixed", "Closed", "Wont Fix"]));
    fields.push(plain_field("Reporter", "text"));
    fields.push(plain_field("Assignee", "text"));
    fields.push(plain_field("Steps to Reproduce", "multiline"));
    fields.push(plain_field("Environment", "text"));
    let mut sample_data: Vec<Vec<(String, JsonValue)>> = Vec::new();
    let mut row: Vec<(String, JsonValue)> = Vec::new();
    row.push((message("Title"), text_value("Login button unresponsive on mobile")));
    row.push((message("Severity"), text_value("High")));
    row.push((message("Status"), text_value("Open")));
    row.push((message("Reporter"), text_value("QA Team")));
    row.push((message("Environment"), text_value("iOS Safari 17")));
    sample_data.push(row);
    let r = TableTemplate { name: message("bug_tracker"), description: message("Track bugs with severity, status, and reproduction steps."), fields, sample_data };
    assert(field_pairs(r.fields@) =~= seq![("Title"@, "text"@), ("Severity"@, "select"@), ("Status"@, "select"@), ("Reporter"@, "text"@), ("Assignee"@, "text"@), ("Steps to Reproduce"@, "multiline"@), ("Environment"@, "text"@)]);
    assert(r.description@.len() > 0);
    assert forall|i: int| 0 <= i < r.fields@.len() && (#[trigger] r.fields@[i]).field_type@ == "select"@ implies has_choices(
        r.fields@[i],
    ) by {
        if i == 0 {} else if i == 1 {} else if i == 2 {} else if i == 3 {} else if i == 4 {} else if i == 5 {} else if i == 6 {}
    }
    assert forall|a: int, j: int| 0 <= a < r.sample_data@.len() && 0 <= j < r.sample_data@[a]@.len() implies exists|f: int|
        0 <= f < r.fields@.len() && r.fields@[f].name@ == (#[trigger] r.sample_data@[a]@[j]).0@ by {
        if a == 0 {
            if j == 0 {
                assert(r.fields@[0].name@ == field_pairs(r.fields@)[0].0);
            } else if j == 1 {
                assert(r.fields@[1].name@ == field_pairs(r.fields@)[1].0);
            } else if j == 2 {
                assert(r.fields@[2].name@ == field_pairs(r.fields@)[2].0);
            } else if j == 3 {
                assert(r.fields@[3].name@ == field_pairs(r.fields@)[3].0);
            } else if j == 4 {
                assert(r.fields@[6].name@ == field_pairs(r.fields@)[6].0);
            }
        }
    }
    r
}

/// The registry of built-in templates, in order: project tracker,
/// contacts, inventory, content calendar, bug tracker.
pub fn builtin_templates() -> (r: Vec<TableTemplate>)
    ensures
        r@.len() == 5,
        forall|k: int| 0 <= k < 5 ==> is_template(#[trigger] r@[k], k),
        forall|a: int, b: int| 0 <= a < b < 5 ==> r@[a].name@ != r@[b].name@,
{
    proof {
        reveal_strlit("project_tracker");
        reveal_strlit("contacts");
        reveal_strlit("inventory");
        reveal_strlit("content_calendar");
        reveal_strlit("bug_tracker");
        assert forall|a: int, b: int| 0 <= a < b < 5 implies builtin_name(a) != builtin_name(b) by {
            if builtin_name(a) == builtin_name(b) {
                assert(builtin_name(a)[0] == builtin_name(b)[0]);
                assert(builtin_name(a).len() == builtin_name(b).len());
            }
        }
    }
    let mut r: Vec<TableTemplate> = Vec::new();
    r.push(project_tracker());
    r.push(contacts());
    r.push(inventory());
    r.push(content_calendar());
    r.push(bug_tracker());
    r
}

/// The position of the first built-in template, from `k` on, whose name
/// equals `name` ignoring case (`str::to_lowercase` on both).
pub open spec fn template_match(name: Seq<char>, k: int) -> Option<int>
    decreases 5 - k,
{
    if k < 0 || k >= 5 {
        None
    } else if to_lower(builtin_name(k)) == to_lower(name) {
        Some(k)
    } else {
        template_match(name, k + 1)
    }
}

/// The first built-in template whose name equals `name` ignoring case.
pub fn get_template(name: &str) -> (r: Option<TableTemplate>)
    ensures
        match template_match(name@, 0) {
            Some(k) => r matches Some(t) && is_template(t, k),
            None => r is None,
        },
{
    let lower = lowercase_of(name);
    let mut all = builtin_templates();
    let mut i: usize = 0;
    while i < all.len()
        invariant
            all@.len() == 5,
            i <= 5,
            lower@ == to_lower(name@),
            forall|k: int| 0 <= k < 5 ==> is_template(#[trigger] all@[k], k),
            template_match(name@, 0) == template_match(name@, i as int),
        decreases 5 - i,
    {
        let tl = lowercase_of(all[i].name.as_str());
        assert(all@[i as int].name@ == builtin_name(i as int));
        if chars_eq(tl.as_slice(), lower.as_slice()) {
            let ghost k = i as int;
            let t = all.swap_remove(i);
            assert(is_template(t, k));
            return Some(t);
        }
        i += 1;
    }
    None
}

/// The text listing the built-in template names, joined with `", "`.
pub open spec fn available_templates() -> Seq<char> {
    "project_tracker, contacts, inventory, content_calendar, bug_tracker"@
}

/// The message for an unknown template name.
pub open spec fn unknown_template_message(name: Seq<char>) -> Seq<char> {
    "Unknown template '"@ + name + "'. Available: "@ + available_templates()
}

// ── Creating a table from a template ───────────────────────────────

/// The triple store value type tag for a JSON value: text 0, integer 1,
/// float 2, boolean 3, array or object 6; null is stored as text.
pub open spec fn inferred_value_type(v: JsonView) -> i16 {
    match v {
        JsonView::String(_) => 0,
        JsonView::Number(crate::json::NumberView::Float(_, _)) => 2,
        JsonView::Number(_) => 1,
        JsonView::Bool(_) => 3,
        JsonView::Array(_) | JsonView::Object(_) => 6,
        JsonView::Null => 0,
    }
}

/// Infer the triple store value type tag from a JSON value.
pub fn infer_triple_value_type(value: &JsonValue) -> (r: i16)
    ensures
        r == inferred_value_type(value@),
{
    match value {
        JsonValue::String(_) => 0,
        JsonValue::Number(JsonNumber::Float(_)) => 2,
        JsonValue::Number(_) => 1,
        JsonValue::Bool(_) => 3,
        JsonValue::Array(_) | JsonValue::Object(_) => 6,
        JsonValue::Null => 0,
    }
}

pub open spec fn text_triple(e: u128, attribute: Seq<char>, text: Seq<char>) -> TripleInputView {
    TripleInputView { entity_id: e, attribute, value: JsonView::String(text), value_type: 0, ttl_seconds: None }
}

/// The metadata triples of the field `f` at position `idx` of the table
/// `table`, on the field's own entity: its type marker, owning table,
/// name, type, options (JSON) and order (integer).
pub open spec fn field_triples_spec(table: u128, field: u128, f: FieldTemplate, idx: int) -> Seq<TripleInputView> {
    seq![
        text_triple(field, db_type_attr(), "__field"@),
        text_triple(field, "field/table_id"@, uuid_text(table)),
        text_triple(field, "field/name"@, f.name@),
        text_triple(field, "field/type"@, f.field_type@),
        TripleInputView {
            entity_id: field,
            attribute: "field/options"@,
            value: JsonView::Object(entry_views(f.options@)),
            value_type: 6,
            ttl_seconds: None,
        },
        TripleInputView {
            entity_id: field,
            attribute: "field/order"@,
            value: JsonView::Number(crate::json::NumberView::PosInt(idx as u64)),
            value_type: 1,
            ttl_seconds: None,
        },
    ]
}

/// The triples of a sample record: its table type, then one triple per
/// value of the row, under `{slug}/{slugify(field)}` with the inferred
/// value type.
pub open spec fn record_triples_spec(record: u128, slug: Seq<char>, row: Seq<(Seq<char>, JsonView)>) -> Seq<
    TripleInputView,
> {
    seq![text_triple(record, db_type_attr(), slug)] + Seq::new(
        row.len(),
        |i: int|
            TripleInputView {
                entity_id: record,
                attribute: field_attribute(slug, row[i].0),
                value: row[i].1,
                value_type: inferred_value_type(row[i].1),
                ttl_seconds: None,
            },
    )
}

/// What creating a table from a template writes.
#[derive(Debug)]
pub struct TemplatePlan {
    /// The table config to persist.
    pub config: TableConfig,
    /// The metadata triples of each field, in field order.
    pub field_triples: Vec<Vec<TripleInput>>,
    /// The fresh entity id of each sample record, in row order.
    pub record_ids: Vec<u128>,
    /// The triples of each sample record, in row order.
    pub record_triples: Vec<Vec<TripleInput>>,
}

pub open spec fn field_id_values(ids: Seq<FieldId>) -> Seq<u128> {
    Seq::new(ids.len(), |i: int| ids[i].0)
}

/// `p` is the plan for the template `t` and a table named `table_name`:
/// a new config named after the table with the template's description,
/// one fresh field id per template field (the first one primary), each
/// field's metadata triples, and each sample row as a fresh record.
pub open spec fn is_plan(p: TemplatePlan, t: TableTemplate, table_name: Seq<char>) -> bool {
    let c = p.config;
    let n = t.fields@.len();
    &&& c.name@ == table_name
    &&& c.slug@ == slug_of(table_name)
    &&& is_v4_uuid(c.id.0)
    &&& c.description matches Some(d) && d@ == t.description@
    &&& c.icon is None && c.color is None && c.default_view_id is None
    &&& c.settings == default_settings()
    &&& c.created_at == c.updated_at
    &&& c.field_ids@.len() == n
    &&& forall|i: int| 0 <= i < n ==> is_v4_uuid(#[trigger] c.field_ids@[i].0)
    &&& c.primary_field == (if n > 0 { Some(c.field_ids@[0]) } else { None })
    &&& p.field_triples@.len() == n
    &&& forall|i: int|
        0 <= i < n ==> input_views(#[trigger] p.field_triples@[i]@) == field_triples_spec(
            c.id.0,
            c.field_ids@[i].0,
            t.fields@[i],
            i,
        )
    &&& p.record_ids@.len() == t.sample_data@.len()
    &&& p.record_triples@.len() == t.sample_data@.len()
    &&& forall|j: int| 0 <= j < t.sample_data@.len() ==> is_v4_uuid(#[trigger] p.record_ids@[j])
    &&& forall|j: int|
        0 <= j < t.sample_data@.len() ==> input_views(#[trigger] p.record_triples@[j]@) == record_triples_spec(
            p.record_ids@[j],
            c.slug@,
            entry_views(t.sample_data@[j]@),
        )
}

fn text_input(e: u128, attribute: &str, text: String) -> (r: TripleInput)
    ensures
        r@ == text_triple(e, attribute@, text@),
{
    TripleInput { entity_id: e, attribute: message(attribute), value: JsonValue::String(text), value_type: 0, ttl_seconds: None }
}

/// The metadata triples of field `idx` of the table `table`.
pub fn field_triples(table: u128, field: u128, f: &FieldTemplate, idx: usize) -> (r: Vec<TripleInput>)
    requires
        idx <= u64::MAX,
    ensures
        input_views(r@) == field_triples_spec(table, field, *f, idx as int),
{
    let mut r: Vec<TripleInput> = Vec::new();
    r.push(text_input(field, ":db/type", message("__field")));
    r.push(text_input(field, "field/table_id", uuid_string(table)));
    r.push(text_input(field, "field/name", clone_string(&f.name)));
    r.push(text_input(field, "field/type", clone_string(&f.field_type)));
    let opts = clone_entries(&f.options);
    proof {
        crate::json::lemma_object_view(opts);
    }
    r.push(
        TripleInput {
            entity_id: field,
            attribute: message("field/options"),
            value: JsonValue::Object(opts),
            value_type: 6,
            ttl_seconds: None,
        },
    );
    r.push(
        TripleInput {
            entity_id: field,
            attribute: message("field/order"),
            value: JsonValue::Number(JsonNumber::PosInt(idx as u64)),
            value_type: 1,
            ttl_seconds: None,
        },
    );
    assert(input_views(r@) =~= field_triples_spec(table, field, *f, idx as int));
    r
}

/// The triples of one sample record with id `record` in the table whose
/// slug is `slug`.
pub fn record_triples(record: u128, slug: &String, row: &Vec<(String, JsonValue)>) -> (r: Vec<TripleInput>)
    ensures
        input_views(r@) == record_triples_spec(record, slug@, entry_views(row@)),
{
    let ghost rv = entry_views(row@);
    let mut r: Vec<TripleInput> = Vec::new();
    r.push(text_input(record, ":db/type", clone_string(slug)));
    let mut i: usize = 0;
    while i < row.len()
        invariant
            i <= row@.len(),
            rv == entry_views(row@),
            input_views(r@) == record_triples_spec(record, slug@, rv.take(i as int)),
        decreases row.len() - i,
    {
        assert(rv[i as int] == (row@[i as int].0@, row@[i as int].1@));
        let ghost before = r@;
        let attr = super::migration::split_attribute(slug.as_str(), row[i].0.as_str());
        let v = crate::json::clone_json(&row[i].1);
        let vt = infer_triple_value_type(&v);
        r.push(TripleInput { entity_id: record, attribute: attr, value: v, value_type: vt, ttl_seconds: None });
        assert(input_views(r@) =~= input_views(before).push(r@[i + 1]@));
        i += 1;
        assert(input_views(r@) =~= record_triples_spec(record, slug@, rv.take(i as int)));
    }
    assert(rv.take(row@.len() as int) =~= rv);
    r
}

/// The plan for creating a table named `table_name` from `template`; field
/// and record ids are fresh random UUIDs.
pub fn plan_for_template(template: &TableTemplate, table_name: &str) -> (r: TemplatePlan)
    ensures
        is_plan(r, *template, table_name@),
{
    let mut config = TableConfig::new(table_name);
    config.description = Some(clone_string(&template.description));
    let mut field_triples_all: Vec<Vec<TripleInput>> = Vec::new();
    let n = template.fields.len();
    let mut i: usize = 0;
    while i < n
        invariant
            n == template.fields@.len(),
            i <= n,
            config.name@ == table_name@,
            config.slug@ == slug_of(table_name@),
            is_v4_uuid(config.id.0),
            config.description matches Some(d) && d@ == template.description@,
            config.icon is None && config.color is None && config.default_view_id is None,
            config.settings == default_settings(),
            config.created_at == config.updated_at,
            config.field_ids@.len() == i,
            forall|j: int| 0 <= j < i ==> is_v4_uuid(#[trigger] config.field_ids@[j].0),
            config.primary_field == (if i > 0 { Some(config.field_ids@[0]) } else { None::<FieldId> }),
            field_triples_all@.len() == i,
            forall|j: int|
                0 <= j < i ==> input_views(#[trigger] field_triples_all@[j]@) == field_triples_spec(
                    config.id.0,
                    config.field_ids@[j].0,
                    template.fields@[j],
                    j,
                ),
        decreases n - i,
    {
        let field_id = FieldId::new();
        config.field_ids.push(field_id);
        if i == 0 {
            config.primary_field = Some(field_id);
        }
        let ts = field_triples(config.id.0, field_id.0, &template.fields[i], i);
        field_triples_all.push(ts);
        i += 1;
    }
    let mut record_ids: Vec<u128> = Vec::new();
    let mut record_triples_all: Vec<Vec<TripleInput>> = Vec::new();
    let m = template.sample_data.len();
    let mut j: usize = 0;
    while j < m
        invariant
            m == template.sample_data@.len(),
            j <= m,
            record_ids@.len() == j,
            record_triples_all@.len() == j,
            forall|q: int| 0 <= q < j ==> is_v4_uuid(#[trigger] record_ids@[q]),
            forall|q: int|
                0 <= q < j ==> input_views(#[trigger] record_triples_all@[q]@) == record_triples_spec(
                    record_ids@[q],
                    config.slug@,
                    entry_views(template.sample_data@[q]@),
                ),
        decreases m - j,
    {
        let rid = new_uuid_v4();
        let ts = record_triples(rid, &config.slug, &template.sample_data[j]);
        record_ids.push(rid);
        record_triples_all.push(ts);
        j += 1;
    }
    TemplatePlan { config, field_triples: field_triples_all, record_ids, record_triples: record_triples_all }
}

/// The plan for creating a table named `table_name` from the built-in
/// template named `template_name` (ignoring case), or the message naming
/// the available templates when there is none.
pub fn plan_from_template(template_name: &str, table_name: &str) -> (r: Result<TemplatePlan, String>)
    ensures
        match template_match(template_name@, 0) {
            Some(k) => r matches Ok(p) && exists|t: TableTemplate| #[trigger] is_template(t, k) && is_plan(p, t, table_name@),
            None => r matches Err(m) && m@ == unknown_template_message(template_name@),
        },
{
    match get_template(template_name) {
        Some(t) => {
            let p = plan_for_template(&t, table_name);
            proof {
                let k = template_match(template_name@, 0)->0;
                assert(is_template(t, k) && is_plan(p, t, table_name@));
            }
            Ok(p)
        },
        None => {
            let mut m: Vec<char> = Vec::new();
            push_str_chars(&mut m, "Unknown template '");
            push_str_chars(&mut m, template_name);
            push_str_chars(&mut m, "'. Available: ");
            push_str_chars(&mut m, "project_tracker, contacts, inventory, content_calendar, bug_tracker");
            Err(string_of(m.as_slice()))
        },
    }
}

} // verus!
