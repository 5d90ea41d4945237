//! A struct specification: the fields in order, read one after the other
//! into a shared buffer, each checked against its pattern.
use vstd::prelude::*;

use crate::byte_pattern::{bytes_match, has_opaque, pattern_matchers, pattern_text, BytePattern};
use crate::hex_struct_field::{is_skip, FieldSpec, HexStructField};

verus! {

/// What a struct specification holds.
pub struct PlanSpec {
    pub path: String,
    pub fields: Seq<FieldSpec>,
    pub rest: Option<String>,
}

pub open spec fn field_len(f: FieldSpec) -> int {
    pattern_matchers(f.pattern).len() as int
}

/// Fields `i - 1` and `i` are both `_` fields.
pub open spec fn adjacent_skips(fs: Seq<FieldSpec>, i: int) -> bool {
    0 < i < fs.len() && is_skip(fs[i - 1]) && is_skip(fs[i])
}

pub open spec fn has_adjacent_skips(fs: Seq<FieldSpec>) -> bool {
    exists|i: int| #[trigger] adjacent_skips(fs, i)
}

/// The longest pattern among the first `n` fields; 0 for none.
pub open spec fn max_len(fs: Seq<FieldSpec>, n: int) -> int
    decreases n,
{
    if n <= 0 {
        0
    } else if field_len(fs[n - 1]) > max_len(fs, n - 1) {
        field_len(fs[n - 1])
    } else {
        max_len(fs, n - 1)
    }
}

/// Where field `i` begins in the input: the lengths of the fields before it.
pub open spec fn offset(fs: Seq<FieldSpec>, i: int) -> int
    decreases i,
{
    if i <= 0 {
        0
    } else {
        offset(fs, i - 1) + field_len(fs[i - 1])
    }
}

/// The bytes read for field `i`.
pub open spec fn field_bytes(fs: Seq<FieldSpec>, input: Seq<u8>, i: int) -> Seq<u8> {
    input.subrange(offset(fs, i), offset(fs, i) + field_len(fs[i]))
}

#[derive(Clone, Copy, Debug, PartialEq, Eq, Structural)]
pub enum FailureKind {
    Eof,
    Unevaluated,
    Mismatch,
}

/// How field `i` fails, if it does, once the fields before it matched: the
/// input ends first, its pattern holds an expression of unknown value, or
/// the bytes do not match.
pub open spec fn failure_at(fs: Seq<FieldSpec>, input: Seq<u8>, i: int) -> Option<FailureKind> {
    if input.len() < offset(fs, i) + field_len(fs[i]) {
        Some(FailureKind::Eof)
    } else if has_opaque(pattern_matchers(fs[i].pattern)) {
        Some(FailureKind::Unevaluated)
    } else if !bytes_match(pattern_matchers(fs[i].pattern), field_bytes(fs, input, i)) {
        Some(FailureKind::Mismatch)
    } else {
        None
    }
}

/// The values of the bound fields among the first `n`, in order: the bytes
/// each one matched.
pub open spec fn bound_values(fs: Seq<FieldSpec>, input: Seq<u8>, n: int) -> Seq<Seq<u8>>
    decreases n,
{
    if n <= 0 {
        Seq::empty()
    } else if is_skip(fs[n - 1]) {
        bound_values(fs, input, n - 1)
    } else {
        bound_values(fs, input, n - 1).push(field_bytes(fs, input, n - 1))
    }
}

#[derive(Clone, Copy, Debug, PartialEq, Eq, Structural)]
pub enum StructError {
    /// Fields `index - 1` and `index` are both `_` fields.
    ConsecutiveMatchOnly { index: usize },
}

/// Why reading a record failed.
#[derive(Clone, Debug)]
pub enum ParseError {
    /// The input ended inside this field.
    UnexpectedEof { field: usize },
    /// This field's pattern holds an expression whose value is unknown here.
    Unevaluated { field: usize },
    /// This field's bytes do not match its pattern.
    Mismatch { field: usize, expected: String, got: Vec<u8> },
}

pub open spec fn error_field(e: ParseError) -> int {
    match e {
        ParseError::UnexpectedEof { field } => field as int,
        ParseError::Unevaluated { field } => field as int,
        ParseError::Mismatch { field, .. } => field as int,
    }
}

/// `e` reports how field `error_field(e)` fails.
pub open spec fn describes(e: ParseError, fs: Seq<FieldSpec>, input: Seq<u8>) -> bool {
    let i = error_field(e);
    &&& 0 <= i < fs.len()
    &&& match e {
        ParseError::UnexpectedEof { .. } => failure_at(fs, input, i) == Some(FailureKind::Eof),
        ParseError::Unevaluated { .. } => failure_at(fs, input, i) == Some(FailureKind::Unevaluated),
        ParseError::Mismatch { expected, got, .. } => {
            &&& failure_at(fs, input, i) == Some(FailureKind::Mismatch)
            &&& expected@ == pattern_text(fs[i].pattern)
            &&& got@ == field_bytes(fs, input, i)
        },
    }
}

pub open spec fn views_of(vals: Seq<Vec<u8>>) -> Seq<Seq<u8>> {
    vals.map_values(|v: Vec<u8>| v@)
}

pub struct HexStruct {
    path: String,
    fields: Vec<HexStructField>,
    rest: Option<String>,
}

impl View for HexStruct {
    type V = PlanSpec;

    closed spec fn view(&self) -> PlanSpec {
        PlanSpec {
            path: self.path,
            fields: self.fields@.map_values(|f: HexStructField| f@),
            rest: self.rest,
        }
    }
}

fn copy_bytes(input: &[u8], start: usize, len: usize) -> (r: Vec<u8>)
    requires
        start + len <= input@.len(),
    ensures
        r@ == input@.subrange(start as int, start + len),
{
    let mut out: Vec<u8> = Vec::new();
    let total = input.len();
    let mut k: usize = 0;
    while k < len
        invariant
            total == input@.len(),
            start + len <= input@.len(),
            k <= len,
            out@ == input@.subrange(start as int, start + k),
        decreases len - k,
    {
        out.push(input[start + k]);
        assert(out@ =~= input@.subrange(start as int, start + k + 1));
        k += 1;
    }
    out
}

impl HexStruct {
    #[verifier::type_invariant]
    spec fn inv(&self) -> bool {
        !has_adjacent_skips(self@.fields)
    }

    /// A struct specification from its parts. Two `_` fields in a row are
    /// refused: one pattern says the same.
    pub fn new(path: String, fields: Vec<HexStructField>, rest: Option<String>) -> (r: Result<HexStruct, StructError>)
        ensures
            ({
                let fs = fields@.map_values(|f: HexStructField| f@);
                if has_adjacent_skips(fs) {
                    &&& r is Err
                    &&& adjacent_skips(fs, r->Err_0->index as int)
                    &&& forall|j: int| 0 <= j < r->Err_0->index ==> !#[trigger] adjacent_skips(fs, j)
                } else {
                    r is Ok && r->Ok_0@ == (PlanSpec { path, fields: fs, rest })
                }
            }),
    {
        let ghost fs = fields@.map_values(|f: HexStructField| f@);
        let mut i: usize = 1;
        while i < fields.len()
            invariant
                fs == fields@.map_values(|f: HexStructField| f@),
                1 <= i,
                forall|j: int| 0 <= j < i ==> !#[trigger] adjacent_skips(fs, j),
            decreases fields@.len() - i,
        {
            if !fields[i - 1].is_struct_member() && !fields[i].is_struct_member() {
                assert(adjacent_skips(fs, i as int));
                return Err(StructError::ConsecutiveMatchOnly { index: i });
            }
            i += 1;
        }
        assert forall|j: int| !#[trigger] adjacent_skips(fs, j) by {
            if 0 < j < fs.len() {
                assert(j < i);
            }
        }
        Ok(HexStruct { path, fields, rest })
    }

    pub fn path(&self) -> (r: &String)
        ensures
            *r == self@.path,
    {
        &self.path
    }

    /// The fields in order; never two `_` fields in a row.
    pub fn fields(&self) -> (r: &Vec<HexStructField>)
        ensures
            r@.map_values(|f: HexStructField| f@) == self@.fields,
            !has_adjacent_skips(self@.fields),
    {
        proof {
            use_type_invariant(self);
        }
        &self.fields
    }

    pub fn rest(&self) -> (r: &Option<String>)
        ensures
            *r == self@.rest,
    {
        &self.rest
    }

    /// The size of the shared buffer: the longest pattern, 0 for no fields.
    pub fn buffer_len(&self) -> (r: usize)
        ensures
            r == max_len(self@.fields, self@.fields.len() as int),
    {
        let ghost fs = self@.fields;
        let mut m: usize = 0;
        let mut i: usize = 0;
        while i < self.fields.len()
            invariant
                fs == self@.fields,
                fs.len() == self.fields@.len(),
                i <= fs.len(),
                m == max_len(fs, i as int),
            decreases fs.len() - i,
        {
            let n = self.fields[i].byte_pattern().len();
            assert(fs[i as int] == self.fields@[i as int]@);
            if n > m {
                m = n;
            }
            i += 1;
        }
        m
    }

    /// Checks the bytes read for field `index`: they match, or the error
    /// says why not.
    pub fn check_field(&self, index: usize, buf: &[u8]) -> (r: Result<(), ParseError>)
        requires
            index < self@.fields.len(),
            buf@.len() == field_len(self@.fields[index as int]),
        ensures
            ({
                let ms = pattern_matchers(self@.fields[index as int].pattern);
                if has_opaque(ms) {
                    r matches Err(ParseError::Unevaluated { field }) && field == index
                } else if bytes_match(ms, buf@) {
                    r is Ok
                } else {
                    &&& r matches Err(ParseError::Mismatch { field, expected, got })
                    &&& field == index
                    &&& expected@ == pattern_text(self@.fields[index as int].pattern)
                    &&& got@ == buf@
                }
            }),
    {
        let pattern: &BytePattern = self.fields[index].byte_pattern();
        assert(self@.fields[index as int] == self.fields@[index as int]@);
        match pattern.matches(buf) {
            None => Err(ParseError::Unevaluated { field: index }),
            Some(true) => Ok(()),
            Some(false) => {
                let mut got: Vec<u8> = Vec::new();
                let mut k: usize = 0;
                while k < buf.len()
                    invariant
                        k <= buf@.len(),
                        got@ == buf@.take(k as int),
                    decreases buf@.len() - k,
                {
                    got.push(buf[k]);
                    assert(got@ =~= buf@.take(k + 1));
                    k += 1;
                }
                assert(buf@.take(buf@.len() as int) =~= buf@);
                Err(ParseError::Mismatch { field: index, expected: pattern.to_string(), got })
            },
        }
    }

    /// Reads the record from `input`: each field in order takes the next
    /// bytes and must match its pattern. On success, the bytes of each
    /// bound field in order; else the first field that fails, and how.
    pub fn parse_bytes(&self, input: &[u8]) -> (r: Result<Vec<Vec<u8>>, ParseError>)
        ensures
            ({
                let fs = self@.fields;
                match r {
                    Ok(vals) => {
                        &&& forall|i: int| 0 <= i < fs.len() ==> failure_at(fs, input@, i) is None
                        &&& views_of(vals@) == bound_values(fs, input@, fs.len() as int)
                    },
                    Err(e) => {
                        &&& describes(e, fs, input@)
                        &&& forall|j: int| 0 <= j < error_field(e) ==> failure_at(fs, input@, j) is None
                    },
                }
            }),
    {
        let ghost fs = self@.fields;
        let mut vals: Vec<Vec<u8>> = Vec::new();
        let mut pos: usize = 0;
        let mut i: usize = 0;
        while i < self.fields.len()
            invariant
                fs == self@.fields,
                fs.len() == self.fields@.len(),
                i <= fs.len(),
                pos == offset(fs, i as int),
                pos <= input@.len(),
                forall|j: int| 0 <= j < i ==> failure_at(fs, input@, j) is None,
                views_of(vals@) == bound_values(fs, input@, i as int),
            decreases fs.len() - i,
        {
            let field = &self.fields[i];
            assert(fs[i as int] == self.fields@[i as int]@);
            let len = field.byte_pattern().len();
            if len > input.len() - pos {
                return Err(ParseError::UnexpectedEof { field: i });
            }
            let buf = copy_bytes(input, pos, len);
            match self.check_field(i, buf.as_slice()) {
                Ok(()) => {},
                Err(e) => return Err(e),
            }
            if field.is_struct_member() {
                vals.push(buf);
                assert(views_of(vals@) =~= bound_values(fs, input@, i + 1));
            }
            pos = pos + len;
            i += 1;
        }
        Ok(vals)
    }
}

} // verus!
