//! Fixed-length byte patterns in one of three written forms: an array of
//! byte expressions, a hex string, or a byte string.
use vstd::prelude::*;

use crate::hex_string::{hex_text, lex, HexString, HexValue, LexError, LexState};
use crate::hex_string::{init_state, lemma_run_agree, lemma_run_ok_idle, lemma_run_concat, run, run_from, step, DOT};
use crate::render::{bracket_list, byte_text, bytes_text, join, lemma_join_push, render_bytes};
use crate::render::{close_list, open_list, push_byte, push_separator};

verus! {

/// One element of an array pattern.
#[derive(Clone, Debug)]
pub enum ArrayElem {
    /// An integer literal.
    Byte { value: u8 },
    /// `_`.
    Wildcard,
    /// A range expression such as `..`.
    Range,
    /// Any other expression (a named constant), kept as written. Its value
    /// is known only where the pattern is matched.
    Expr { text: String },
}

/// How one position of a pattern matches a byte.
#[derive(Clone, Copy, Debug, PartialEq, Eq, Structural)]
pub enum Matcher {
    Exact(u8),
    Any,
    /// An expression whose value this library cannot know.
    Opaque,
}

#[derive(Clone, Debug)]
pub enum BytePattern {
    Array { elems: Vec<ArrayElem> },
    HexString(HexString),
    LitByteStr(Vec<u8>),
}

#[derive(Clone, Copy, Debug, PartialEq, Eq, Structural)]
pub enum PatternError {
    /// The hex string does not lex.
    Lex(LexError),
    /// A range at this index: a field pattern must have a fixed length.
    RangeNotAllowed { index: usize },
}

pub open spec fn hex_matcher(v: HexValue) -> Matcher {
    match v {
        HexValue::Number { value } => Matcher::Exact(value),
        _ => Matcher::Any,
    }
}

pub open spec fn array_matcher(e: ArrayElem) -> Matcher {
    match e {
        ArrayElem::Byte { value } => Matcher::Exact(value),
        ArrayElem::Expr { .. } => Matcher::Opaque,
        _ => Matcher::Any,
    }
}

pub open spec fn byte_matcher(b: u8) -> Matcher {
    Matcher::Exact(b)
}

/// The matchers of a pattern, one per byte position.
pub open spec fn pattern_matchers(p: BytePattern) -> Seq<Matcher> {
    match p {
        BytePattern::Array { elems } => elems@.map_values(|e: ArrayElem| array_matcher(e)),
        BytePattern::HexString(h) => h@.map_values(|v: HexValue| hex_matcher(v)),
        BytePattern::LitByteStr(b) => b@.map_values(|b: u8| byte_matcher(b)),
    }
}

pub open spec fn elem_text(e: ArrayElem) -> Seq<char> {
    match e {
        ArrayElem::Byte { value } => byte_text(value),
        ArrayElem::Wildcard => seq!['_', '_'],
        ArrayElem::Range => seq!['.', '.'],
        ArrayElem::Expr { text } => text@,
    }
}

/// The canonical text of a pattern: `[48, 45, __]`.
pub open spec fn pattern_text(p: BytePattern) -> Seq<char> {
    match p {
        BytePattern::Array { elems } => bracket_list(elems@.map_values(|e: ArrayElem| elem_text(e))),
        BytePattern::HexString(h) => hex_text(h@),
        BytePattern::LitByteStr(b) => bytes_text(b@),
    }
}

pub open spec fn is_range_elem(e: ArrayElem) -> bool {
    e is Range
}

pub open spec fn is_dotdot(v: HexValue) -> bool {
    v is DotDot
}

pub open spec fn has_dotdot(es: Seq<HexValue>) -> bool {
    exists|i: int| 0 <= i < es.len() && is_dotdot(#[trigger] es[i])
}

/// A pattern fit for a field: no range anywhere, so its length is fixed.
pub open spec fn has_fixed_len(p: BytePattern) -> bool {
    match p {
        BytePattern::Array { elems } => forall|i: int| 0 <= i < elems@.len() ==> !is_range_elem(#[trigger] elems@[i]),
        BytePattern::HexString(h) => forall|i: int| 0 <= i < h@.len() ==> !is_dotdot(#[trigger] h@[i]),
        BytePattern::LitByteStr(_) => true,
    }
}

pub open spec fn accepts(m: Matcher, b: u8) -> bool {
    match m {
        Matcher::Exact(v) => b == v,
        Matcher::Any => true,
        Matcher::Opaque => false,
    }
}

pub open spec fn has_opaque(ms: Seq<Matcher>) -> bool {
    exists|i: int| 0 <= i < ms.len() && #[trigger] ms[i] == Matcher::Opaque
}

/// `bytes` matches the matchers position by position.
pub open spec fn bytes_match(ms: Seq<Matcher>, bytes: Seq<u8>) -> bool {
    ms.len() == bytes.len() && forall|i: int| 0 <= i < ms.len() ==> accepts(#[trigger] ms[i], bytes[i])
}

/// A wildcard position accepts every byte: changing the byte there never
/// turns a match into a mismatch or back.
pub proof fn lemma_wildcard_accepts_any(ms: Seq<Matcher>, bytes: Seq<u8>, i: int, v: u8)
    requires
        0 <= i < ms.len(),
        ms[i] == Matcher::Any,
        bytes.len() == ms.len(),
    ensures
        bytes_match(ms, bytes) == bytes_match(ms, bytes.update(i, v)),
{
    let u = bytes.update(i, v);
    assert(u.len() == bytes.len());
    assert(accepts(ms[i], u[i]) && accepts(ms[i], bytes[i]));
    {
        if bytes_match(ms, bytes) {
            assert forall|j: int| 0 <= j < ms.len() implies accepts(#[trigger] ms[j], u[j]) by {
                if j != i {
                    assert(accepts(ms[j], bytes[j]));
                }
            }
        }
        if bytes_match(ms, u) {
            assert forall|j: int| 0 <= j < ms.len() implies accepts(#[trigger] ms[j], bytes[j]) by {
                if j != i {
                    assert(accepts(ms[j], u[j]));
                }
            }
        }
    }
}

/// A range between whole tokens of a hex string always leaves the string
/// lexable with a range in it, so it is refused as a field pattern
/// whatever surrounds it.
pub proof fn lemma_range_in_hex(p: Seq<u8>, q: Seq<u8>)
    requires
        lex(p) is Ok,
        lex(q) is Ok,
    ensures
        lex(p + seq![DOT, DOT] + q) is Ok,
        has_dotdot(lex(p + seq![DOT, DOT] + q)->Ok_0),
{
    let d = seq![DOT, DOT];
    let s = p + d + q;
    let sp = run(p)->Ok_0;
    lemma_run_concat(init_state(), p, d, 0);
    lemma_run_concat(init_state(), p + d, q, 0);
    assert(d.drop_last() =~= seq![DOT]);
    assert(seq![DOT].drop_last() =~= Seq::<u8>::empty());
    lemma_run_ok_idle(p);
    let s1 = step(sp, DOT, p.len() as int)->Ok_0;
    assert(run_from(sp, Seq::<u8>::empty(), p.len() as int) == Ok::<LexState, LexError>(sp));
    assert(run_from(sp, seq![DOT], p.len() as int) == step(sp, DOT, p.len() as int));
    assert(run_from(sp, d, p.len() as int) == step(s1, DOT, p.len() + 1int));
    let sd = run(p + d)->Ok_0;
    assert(sd.elems == sp.elems.push(HexValue::DotDot));
    let pre = sp.elems.push(HexValue::DotDot);
    let sq = run(q)->Ok_0;
    assert(sd.elems =~= pre + init_state().elems);
    lemma_run_agree(sd, init_state(), pre, q, (p + d).len() as int, 0);
    let es = lex(s)->Ok_0;
    assert(es == pre + sq.elems);
    assert(is_dotdot(es[sp.elems.len() as int]));
}

fn push_elem(out: &mut String, e: &ArrayElem)
    ensures
        final(out)@ == old(out)@ + elem_text(*e),
{
    match e {
        ArrayElem::Byte { value } => push_byte(out, *value),
        ArrayElem::Wildcard => {
            proof {
                reveal_strlit("__");
            }
            out.append("__");
        },
        ArrayElem::Range => {
            proof {
                reveal_strlit("..");
            }
            out.append("..");
        },
        ArrayElem::Expr { text } => {
            out.append(text.as_str());
        },
    }
}

fn array_matcher_exec(e: &ArrayElem) -> (r: Matcher)
    ensures
        r == array_matcher(*e),
{
    match e {
        ArrayElem::Byte { value } => Matcher::Exact(*value),
        ArrayElem::Expr { .. } => Matcher::Opaque,
        _ => Matcher::Any,
    }
}

impl BytePattern {
    /// A pattern from a hex string; a range in it is refused.
    pub fn from_hex(text: &[u8]) -> (r: Result<BytePattern, PatternError>)
        ensures
            match lex(text@) {
                Err(e) => r == Err::<BytePattern, PatternError>(PatternError::Lex(e)),
                Ok(es) => if has_dotdot(es) {
                    r is Err && r->Err_0 is RangeNotAllowed && is_dotdot(es[r->Err_0->index as int])
                        && forall|j: int| 0 <= j < r->Err_0->index ==> !is_dotdot(#[trigger] es[j])
                } else {
                    r is Ok && r->Ok_0 is HexString && r->Ok_0->HexString_0@ == es
                },
            },
    {
        let hex = match HexString::parse(text) {
            Ok(h) => h,
            Err(e) => return Err(PatternError::Lex(e)),
        };
        let elems = hex.elems();
        let mut i: usize = 0;
        while i < elems.len()
            invariant
                i <= elems@.len(),
                elems@ == hex@,
                lex(text@) == Ok::<Seq<HexValue>, LexError>(hex@),
                forall|j: int| 0 <= j < i ==> !is_dotdot(#[trigger] elems@[j]),
            decreases elems@.len() - i,
        {
            if let HexValue::DotDot = elems[i] {
                assert(is_dotdot(elems@[i as int]));
                return Err(PatternError::RangeNotAllowed { index: i });
            }
            i += 1;
        }
        Ok(BytePattern::HexString(hex))
    }

    /// A pattern from the elements of an array; a range among them is
    /// refused.
    pub fn from_array(elems: Vec<ArrayElem>) -> (r: Result<BytePattern, PatternError>)
        ensures
            if exists|i: int| 0 <= i < elems@.len() && is_range_elem(#[trigger] elems@[i]) {
                r is Err && r->Err_0 is RangeNotAllowed && is_range_elem(elems@[r->Err_0->index as int])
                    && forall|j: int| 0 <= j < r->Err_0->index ==> !is_range_elem(#[trigger] elems@[j])
            } else {
                r == Ok::<BytePattern, PatternError>(BytePattern::Array { elems })
            },
    {
        let mut i: usize = 0;
        while i < elems.len()
            invariant
                i <= elems@.len(),
                forall|j: int| 0 <= j < i ==> !is_range_elem(#[trigger] elems@[j]),
            decreases elems@.len() - i,
        {
            if let ArrayElem::Range = elems[i] {
                return Err(PatternError::RangeNotAllowed { index: i });
            }
            i += 1;
        }
        Ok(BytePattern::Array { elems })
    }

    /// A pattern from the bytes of a byte string: each must match exactly.
    pub fn from_byte_str(bytes: Vec<u8>) -> (r: BytePattern)
        ensures
            r == BytePattern::LitByteStr(bytes),
            has_fixed_len(r),
    {
        BytePattern::LitByteStr(bytes)
    }

    /// The number of bytes the pattern matches.
    pub fn len(&self) -> (r: usize)
        ensures
            r == pattern_matchers(*self).len(),
    {
        match self {
            BytePattern::Array { elems } => elems.len(),
            BytePattern::HexString(hex) => hex.len(),
            BytePattern::LitByteStr(bytes) => bytes.len(),
        }
    }

    /// The matcher at each position.
    pub fn matchers(&self) -> (r: Vec<Matcher>)
        ensures
            r@ == pattern_matchers(*self),
    {
        let ghost target = pattern_matchers(*self);
        let mut out: Vec<Matcher> = Vec::new();
        let n = self.len();
        let mut i: usize = 0;
        while i < n
            invariant
                n == target.len(),
                target == pattern_matchers(*self),
                i <= n,
                out@ == target.take(i as int),
            decreases n - i,
        {
            let m = match self {
                BytePattern::Array { elems } => array_matcher_exec(&elems[i]),
                BytePattern::HexString(hex) => match hex.elems()[i] {
                    HexValue::Number { value } => Matcher::Exact(value),
                    _ => Matcher::Any,
                },
                BytePattern::LitByteStr(bytes) => Matcher::Exact(bytes[i]),
            };
            out.push(m);
            assert(out@ =~= target.take(i + 1));
            i += 1;
        }
        assert(target.take(n as int) =~= target);
        out
    }

    /// Checks bytes read for this pattern: `None` where the pattern holds an
    /// expression whose value is unknown here, else whether every position
    /// matches.
    pub fn matches(&self, buf: &[u8]) -> (r: Option<bool>)
        ensures
            r == if has_opaque(pattern_matchers(*self)) {
                None
            } else {
                Some(bytes_match(pattern_matchers(*self), buf@))
            },
    {
        let ms = self.matchers();
        let mut i: usize = 0;
        while i < ms.len()
            invariant
                ms@ == pattern_matchers(*self),
                i <= ms@.len(),
                forall|j: int| 0 <= j < i ==> #[trigger] ms@[j] != Matcher::Opaque,
            decreases ms@.len() - i,
        {
            if let Matcher::Opaque = ms[i] {
                return None;
            }
            i += 1;
        }
        if ms.len() != buf.len() {
            return Some(false);
        }
        let mut k: usize = 0;
        while k < ms.len()
            invariant
                ms@ == pattern_matchers(*self),
                ms@.len() == buf@.len(),
                k <= ms@.len(),
                forall|j: int| 0 <= j < ms@.len() ==> #[trigger] ms@[j] != Matcher::Opaque,
                forall|j: int| 0 <= j < k ==> accepts(#[trigger] ms@[j], buf@[j]),
            decreases ms@.len() - k,
        {
            let ok = match ms[k] {
                Matcher::Exact(v) => buf[k] == v,
                _ => true,
            };
            if !ok {
                assert(!accepts(ms@[k as int], buf@[k as int]));
                return Some(false);
            }
            k += 1;
        }
        Some(true)
    }

    /// The canonical text: two upper-case hex digits per exact byte, `__`
    /// per wildcard, an opaque expression as written.
    pub fn to_string(&self) -> (r: String)
        ensures
            r@ == pattern_text(*self),
    {
        match self {
            BytePattern::Array { elems } => {
                let ghost items = elems@.map_values(|e: ArrayElem| elem_text(e));
                let mut out = open_list();
                let mut i: usize = 0;
                while i < elems.len()
                    invariant
                        i <= elems@.len(),
                        items == elems@.map_values(|e: ArrayElem| elem_text(e)),
                        out@ == seq!['['] + join(items.take(i as int)),
                    decreases elems@.len() - i,
                {
                    proof {
                        lemma_join_push(items, i as int);
                    }
                    push_separator(&mut out, i);
                    push_elem(&mut out, &elems[i]);
                    assert(out@ =~= seq!['['] + join(items.take(i + 1)));
                    i += 1;
                }
                close_list(&mut out);
                assert(items.take(elems@.len() as int) =~= items);
                out
            },
            BytePattern::HexString(hex) => hex.to_string(),
            BytePattern::LitByteStr(bytes) => render_bytes(bytes.as_slice()),
        }
    }
}

} // verus!
