//! One field of a struct specification: `member: [binding @] pattern [=> expr]`.
use vstd::prelude::*;

use crate::byte_pattern::{has_fixed_len, BytePattern};

verus! {

/// The prefix of the names that generated code uses for its own variables.
pub const INTERNAL_PREFIX: &'static str = "__hex_magic__FC9DC740_9AE7_4B27_A3B6_FAC53B953F22";

/// The name of a generated variable: the prefix, `_`, then `ident`.
pub fn internal_ident(ident: &str) -> (r: String)
    ensures
        r@ == INTERNAL_PREFIX@ + seq!['_'] + ident@,
{
    proof {
        reveal_strlit("_");
    }
    let mut s = String::from_str(INTERNAL_PREFIX);
    s.append("_");
    s.append(ident);
    s
}

/// Who receives a field's value.
#[derive(Clone, Debug)]
pub enum HexIdent {
    /// A named or numbered member of the record.
    Member { name: String },
    /// `_`: the bytes are only checked.
    Underscore,
}

impl HexIdent {
    /// The generated variable that holds a member's value; none for `_`.
    pub fn internal_ident(&self) -> (r: Option<String>)
        ensures
            match *self {
                HexIdent::Member { name } => r is Some && r->Some_0@ == INTERNAL_PREFIX@ + seq!['_'] + name@,
                HexIdent::Underscore => r is None,
            },
    {
        match self {
            HexIdent::Member { name } => Some(internal_ident(name.as_str())),
            HexIdent::Underscore => None,
        }
    }
}

#[derive(Clone, Copy, Debug, PartialEq, Eq, Structural)]
pub enum FieldError {
    /// A `_` field with a binding or a transform.
    MatchOnlyExtras,
    /// A binding without `=>` and a transform.
    MissingTransform,
}

/// Where a field's stored value comes from.
#[derive(Clone, Copy, Debug, PartialEq, Eq, Structural)]
pub enum ValueSource {
    /// A `_` field: nothing is stored.
    Nothing,
    /// The matched bytes as they are.
    RawBytes,
    /// The transform, applied to the matched bytes.
    Transform,
}

/// What a field holds.
pub struct FieldSpec {
    pub member: HexIdent,
    pub binding: Option<String>,
    pub pattern: BytePattern,
    pub expr: Option<String>,
}

pub open spec fn is_skip(f: FieldSpec) -> bool {
    f.member is Underscore
}

/// A field as the grammar allows it: a fixed-length pattern; a `_` field
/// with neither binding nor transform; a binding only with a transform.
pub open spec fn field_wf(f: FieldSpec) -> bool {
    &&& has_fixed_len(f.pattern)
    &&& is_skip(f) ==> f.binding is None && f.expr is None
    &&& f.binding is Some ==> f.expr is Some
}

pub open spec fn value_source_of(f: FieldSpec) -> ValueSource {
    if is_skip(f) {
        ValueSource::Nothing
    } else if f.expr is Some {
        ValueSource::Transform
    } else {
        ValueSource::RawBytes
    }
}

#[derive(Clone, Debug)]
pub struct HexStructField {
    member: HexIdent,
    buffer_ident: Option<String>,
    byte_pattern: BytePattern,
    expr: Option<String>,
}

impl View for HexStructField {
    type V = FieldSpec;

    closed spec fn view(&self) -> FieldSpec {
        FieldSpec {
            member: self.member,
            binding: self.buffer_ident,
            pattern: self.byte_pattern,
            expr: self.expr,
        }
    }
}

impl HexStructField {
    /// A field from its parts. A `_` field takes no binding and no
    /// transform; a binding needs a transform.
    pub fn new(member: HexIdent, buffer_ident: Option<String>, byte_pattern: BytePattern, expr: Option<String>) -> (r: Result<HexStructField, FieldError>)
        requires
            has_fixed_len(byte_pattern),
        ensures
            (member is Underscore && (buffer_ident is Some || expr is Some)) ==> r == Err::<HexStructField, FieldError>(FieldError::MatchOnlyExtras),
            (member is Member && buffer_ident is Some && expr is None) ==> r == Err::<HexStructField, FieldError>(FieldError::MissingTransform),
            r is Ok ==> r->Ok_0@ == (FieldSpec { member, binding: buffer_ident, pattern: byte_pattern, expr }),
            r is Ok ==> field_wf(r->Ok_0@),
            r is Ok <==> field_wf(FieldSpec { member, binding: buffer_ident, pattern: byte_pattern, expr }),
    {
        let skip = match &member {
            HexIdent::Underscore => true,
            HexIdent::Member { .. } => false,
        };
        if skip && (buffer_ident.is_some() || expr.is_some()) {
            return Err(FieldError::MatchOnlyExtras);
        }
        if buffer_ident.is_some() && expr.is_none() {
            return Err(FieldError::MissingTransform);
        }
        Ok(HexStructField { member, buffer_ident, byte_pattern, expr })
    }

    pub fn is_struct_member(&self) -> (r: bool)
        ensures
            r == !is_skip(self@),
    {
        match &self.member {
            HexIdent::Member { .. } => true,
            HexIdent::Underscore => false,
        }
    }

    pub fn byte_pattern(&self) -> (r: &BytePattern)
        ensures
            *r == self@.pattern,
    {
        &self.byte_pattern
    }

    pub fn member(&self) -> (r: &HexIdent)
        ensures
            *r == self@.member,
    {
        &self.member
    }

    pub fn expr(&self) -> (r: &Option<String>)
        ensures
            *r == self@.expr,
    {
        &self.expr
    }

    /// The name under which the matched bytes are seen: the binding, or a
    /// generated name.
    pub fn buffer_ident(&self) -> (r: String)
        ensures
            r@ == match self@.binding {
                Some(b) => b@,
                None => INTERNAL_PREFIX@ + seq!['_'] + "BUFFER"@,
            },
    {
        match &self.buffer_ident {
            Some(ident) => ident.clone(),
            None => internal_ident("BUFFER"),
        }
    }

    /// Where the stored value comes from.
    pub fn value_source(&self) -> (r: ValueSource)
        ensures
            r == value_source_of(self@),
    {
        match (&self.member, &self.expr) {
            (HexIdent::Underscore, _) => ValueSource::Nothing,
            (HexIdent::Member { .. }, None) => ValueSource::RawBytes,
            (HexIdent::Member { .. }, Some(_)) => ValueSource::Transform,
        }
    }
}

} // verus!
