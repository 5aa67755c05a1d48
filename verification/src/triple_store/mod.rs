//! The triple store's verified pieces: triples and their validation,
//! value-type tags, the inferred schema model and its migration diff.
//!
//! Entity ids are UUIDs held as their big-endian `u128` value; times are
//! Unix milliseconds.
use vstd::prelude::*;
use vstd::utf8::encode_utf8;
use crate::json::{JsonValue, JsonView};
use crate::text::{chars_of, decimal_of, decimal_chars, signed_decimal_of, signed_decimal_chars, push_str_chars, string_of};
use schema::{ValueType, vt_from_code};

pub mod schema;
pub mod infer;

verus! {

/// A single fact in the triple store.
///
/// Triples are append-only; "deletion" is expressed by setting
/// [`Triple::retracted`] in a later transaction.
#[derive(Debug, Clone)]
pub struct Triple {
    /// Auto-generated primary key.
    pub id: i64,
    /// The entity this fact belongs to.
    pub entity_id: u128,
    /// Attribute name (e.g. `"user/email"`).
    pub attribute: String,
    /// The value, as JSON.
    pub value: JsonValue,
    /// Discriminator tag — see [`ValueType`].
    pub value_type: i16,
    /// Monotonically increasing transaction identifier.
    pub tx_id: i64,
    /// When this triple was written (Unix milliseconds).
    pub created_at: i64,
    /// Whether this triple has been retracted.
    pub retracted: bool,
    /// Optional expiry time (Unix milliseconds) for TTL support.
    pub expires_at: Option<i64>,
}

/// Input for writing a new triple (before assignment of id / tx / timestamp).
#[derive(Debug, Clone)]
pub struct TripleInput {
    /// Target entity.
    pub entity_id: u128,
    /// Attribute name.
    pub attribute: String,
    /// Value payload.
    pub value: JsonValue,
    /// Value type tag.
    pub value_type: i16,
    /// Optional TTL in seconds.
    pub ttl_seconds: Option<i64>,
}

/// The mathematical shape of a [`TripleInput`].
pub struct TripleInputView {
    pub entity_id: u128,
    pub attribute: Seq<char>,
    pub value: JsonView,
    pub value_type: i16,
    pub ttl_seconds: Option<i64>,
}

impl View for TripleInput {
    type V = TripleInputView;

    open spec fn view(&self) -> TripleInputView {
        TripleInputView {
            entity_id: self.entity_id,
            attribute: self.attribute@,
            value: self.value@,
            value_type: self.value_type,
            ttl_seconds: self.ttl_seconds,
        }
    }
}

pub open spec fn input_views(v: Seq<TripleInput>) -> Seq<TripleInputView> {
    Seq::new(v.len(), |i: int| v[i]@)
}

/// Why a [`TripleInput`] was rejected.
#[derive(Debug, Clone)]
pub enum TripleError {
    /// The attribute name is empty or too long.
    InvalidAttribute(String),
    /// The value type tag is not a known discriminator.
    TypeMismatch { expected: String, actual: String },
}

/// The number of bytes of the UTF-8 encoding of `s`, as `str::len`
/// returns it.
pub open spec fn byte_len(s: Seq<char>) -> usize {
    encode_utf8(s).len() as usize
}

/// Longest attribute name accepted, in bytes.
pub const MAX_ATTRIBUTE_BYTES: usize = 512;

pub open spec fn empty_attribute_message() -> Seq<char> {
    "attribute name must not be empty"@
}

pub open spec fn long_attribute_message(n: usize) -> Seq<char> {
    "attribute name exceeds 512 bytes: "@ + decimal_of(n as nat) + " bytes"@
}

/// What [`TripleInput::validate`] answers for an attribute name and tag.
pub open spec fn validate_spec(attribute: Seq<char>, value_type: i16) -> Result<(), (int, Seq<char>, Seq<char>)> {
    if byte_len(attribute) == 0 {
        Err((0, empty_attribute_message(), Seq::empty()))
    } else if byte_len(attribute) > 512 {
        Err((0, long_attribute_message(byte_len(attribute)), Seq::empty()))
    } else if vt_from_code(value_type) is None {
        Err((1, "value_type 0..=6"@, signed_decimal_of(value_type as int)))
    } else {
        Ok(())
    }
}

pub open spec fn triple_error_view(e: TripleError) -> (int, Seq<char>, Seq<char>) {
    match e {
        TripleError::InvalidAttribute(m) => (0, m@, Seq::empty()),
        TripleError::TypeMismatch { expected, actual } => (1, expected@, actual@),
    }
}

impl TripleInput {
    /// Validate this input: the attribute must be non-empty and at most 512
    /// bytes long (`InvalidAttribute`), and the value type a known
    /// [`ValueType`] tag (`TypeMismatch`), checked in that order.
    pub fn validate(&self) -> (r: Result<(), TripleError>)
        ensures
            match r {
                Ok(()) => validate_spec(self.attribute@, self.value_type) is Ok,
                Err(e) => validate_spec(self.attribute@, self.value_type) == Err::<(), _>(triple_error_view(e)),
            },
    {
        let n = self.attribute.as_str().len();
        if n == 0 {
            let m = string_of(chars_of("attribute name must not be empty").as_slice());
            return Err(TripleError::InvalidAttribute(m));
        }
        if n > MAX_ATTRIBUTE_BYTES {
            let mut v: Vec<char> = Vec::new();
            push_str_chars(&mut v, "attribute name exceeds 512 bytes: ");
            let digits = decimal_chars(n as u64);
            crate::text::push_chars(&mut v, &digits);
            push_str_chars(&mut v, " bytes");
            return Err(TripleError::InvalidAttribute(string_of(v.as_slice())));
        }
        if ValueType::from_i16(self.value_type).is_none() {
            let expected = string_of(chars_of("value_type 0..=6").as_slice());
            let actual = string_of(signed_decimal_chars(self.value_type as i64).as_slice());
            return Err(TripleError::TypeMismatch { expected, actual });
        }
        Ok(())
    }
}

} // verus!
