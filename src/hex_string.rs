//! Hex strings: pairs of hex digits, `__` wildcards and `..` ranges.
use vstd::prelude::*;

use crate::render::{bracket_list, byte_text, join, lemma_join_push, upper_digit};
use crate::render::{close_list, open_list, push_byte, push_separator};

verus! {

pub const DOT: u8 = 0x2e;

pub const UNDERSCORE: u8 = 0x5f;

/// One token of a hex string.
#[derive(Clone, Copy, Debug, PartialEq, Eq, Structural)]
pub enum HexValue {
    /// Two hex digits: one exact byte.
    Number { value: u8 },
    /// `__`: any one byte.
    Underscore,
    /// `..`: any number of bytes.
    DotDot,
}

/// What the lexer waits for after the first character of a token.
#[derive(Clone, Copy, Debug, PartialEq, Eq, Structural)]
pub enum Pending {
    Idle,
    Hex { nibble: u8 },
    Underscore,
    Dot,
}

#[derive(Clone, Copy, Debug, PartialEq, Eq, Structural)]
pub enum LexErrorKind {
    /// A `.` followed by something other than `.`.
    ExpectedDot,
    /// A `_` followed by something other than `_`.
    ExpectedUnderscore,
    /// A hex digit followed by something other than a hex digit.
    ExpectedHexDigit,
    /// A character that starts no token.
    InvalidCharacter,
    /// The input ends after the first character of a token.
    Unpaired,
}

/// A lexical error. `ch` and `pos` are the offending character and its
/// index; `start` is the index of the character that began the unfinished
/// token (the orphan), or `pos` itself for an invalid character. For
/// `Unpaired`, `ch` and `pos` are the orphan's.
#[derive(Clone, Copy, Debug, PartialEq, Eq, Structural)]
pub struct LexError {
    pub kind: LexErrorKind,
    pub ch: u8,
    pub pos: usize,
    pub start: usize,
}

pub open spec fn is_hex_digit(c: u8) -> bool {
    (0x30 <= c <= 0x39) || (0x41 <= c <= 0x46) || (0x61 <= c <= 0x66)
}

pub open spec fn hex_val(c: u8) -> u8 {
    if 0x30 <= c <= 0x39 {
        (c - 0x30) as u8
    } else if 0x41 <= c <= 0x46 {
        (c - 0x41 + 10) as u8
    } else {
        (c - 0x61 + 10) as u8
    }
}

pub open spec fn is_whitespace(c: u8) -> bool {
    c == 0x20 || c == 0x0d || c == 0x0a || c == 0x09
}

/// The lexer's state after a prefix of the input.
pub struct LexState {
    pub elems: Seq<HexValue>,
    pub pending: Pending,
    pub start: usize,
    pub start_ch: u8,
}

pub open spec fn init_state() -> LexState {
    LexState { elems: Seq::empty(), pending: Pending::Idle, start: 0, start_ch: 0 }
}

pub open spec fn emit(st: LexState, v: HexValue) -> LexState {
    LexState { elems: st.elems.push(v), pending: Pending::Idle, start: st.start, start_ch: st.start_ch }
}

pub open spec fn await_partner(st: LexState, p: Pending, c: u8, pos: int) -> LexState {
    LexState { elems: st.elems, pending: p, start: pos as usize, start_ch: c }
}

pub open spec fn lex_error(kind: LexErrorKind, c: u8, pos: int, start: usize) -> LexError {
    LexError { kind, ch: c, pos: pos as usize, start }
}

/// One transition of the lexer on character `c` at index `pos`.
pub open spec fn step(st: LexState, c: u8, pos: int) -> Result<LexState, LexError> {
    match st.pending {
        Pending::Dot => if c == DOT {
            Ok(emit(st, HexValue::DotDot))
        } else {
            Err(lex_error(LexErrorKind::ExpectedDot, c, pos, st.start))
        },
        Pending::Underscore => if c == UNDERSCORE {
            Ok(emit(st, HexValue::Underscore))
        } else {
            Err(lex_error(LexErrorKind::ExpectedUnderscore, c, pos, st.start))
        },
        Pending::Hex { nibble } => if is_hex_digit(c) {
            Ok(emit(st, HexValue::Number { value: (nibble * 16 + hex_val(c)) as u8 }))
        } else {
            Err(lex_error(LexErrorKind::ExpectedHexDigit, c, pos, st.start))
        },
        Pending::Idle => if c == DOT {
            Ok(await_partner(st, Pending::Dot, c, pos))
        } else if c == UNDERSCORE {
            Ok(await_partner(st, Pending::Underscore, c, pos))
        } else if is_hex_digit(c) {
            Ok(await_partner(st, Pending::Hex { nibble: hex_val(c) }, c, pos))
        } else if is_whitespace(c) {
            Ok(st)
        } else {
            Err(lex_error(LexErrorKind::InvalidCharacter, c, pos, pos as usize))
        },
    }
}

/// The lexer run from state `st` over `s`, whose first character stands at
/// index `base` of the whole input.
pub open spec fn run_from(st: LexState, s: Seq<u8>, base: int) -> Result<LexState, LexError>
    decreases s.len(),
{
    if s.len() == 0 {
        Ok(st)
    } else {
        match run_from(st, s.drop_last(), base) {
            Ok(st2) => step(st2, s.last(), base + s.len() - 1),
            Err(e) => Err(e),
        }
    }
}

pub open spec fn run(s: Seq<u8>) -> Result<LexState, LexError> {
    run_from(init_state(), s, 0)
}

/// The tokens of a whole hex string, or the first lexical error.
pub open spec fn lex(s: Seq<u8>) -> Result<Seq<HexValue>, LexError> {
    match run(s) {
        Err(e) => Err(e),
        Ok(st) => if st.pending == Pending::Idle {
            Ok(st.elems)
        } else {
            Err(LexError { kind: LexErrorKind::Unpaired, ch: st.start_ch, pos: st.start, start: st.start })
        },
    }
}

pub open spec fn value_text(v: HexValue) -> Seq<char> {
    match v {
        HexValue::Number { value } => byte_text(value),
        HexValue::Underscore => seq!['_', '_'],
        HexValue::DotDot => seq!['.', '.'],
    }
}

pub open spec fn hex_text(es: Seq<HexValue>) -> Seq<char> {
    bracket_list(es.map_values(|v: HexValue| value_text(v)))
}

/// A lexed hex string.
#[derive(Clone, Debug)]
pub struct HexString {
    elems: Vec<HexValue>,
}

impl View for HexString {
    type V = Seq<HexValue>;

    closed spec fn view(&self) -> Seq<HexValue> {
        self.elems@
    }
}

pub fn is_hex_digit_exec(c: u8) -> (r: bool)
    ensures
        r == is_hex_digit(c),
{
    (c >= 0x30 && c <= 0x39) || (c >= 0x41 && c <= 0x46) || (c >= 0x61 && c <= 0x66)
}

fn hex_val_exec(c: u8) -> (r: u8)
    requires
        is_hex_digit(c),
    ensures
        r == hex_val(c),
        r < 16,
{
    if c <= 0x39 {
        c - 0x30
    } else if c <= 0x46 {
        c - 0x41 + 10
    } else {
        c - 0x61 + 10
    }
}

/// Running over one more character is one more step.
pub proof fn lemma_run_push(s: Seq<u8>, i: int)
    requires
        0 <= i < s.len(),
    ensures
        run(s.take(i + 1)) == match run(s.take(i)) {
            Ok(st) => step(st, s[i], i),
            Err(e) => Err(e),
        },
{
    assert(s.take(i + 1).drop_last() =~= s.take(i));
}


/// Running over `a + b` is running over `a`, then over `b` from where `a` left off.
pub proof fn lemma_run_concat(st: LexState, a: Seq<u8>, b: Seq<u8>, base: int)
    ensures
        run_from(st, a + b, base) == match run_from(st, a, base) {
            Ok(st2) => run_from(st2, b, base + a.len()),
            Err(e) => Err(e),
        },
    decreases b.len(),
{
    if b.len() == 0 {
        assert(a + b =~= a);
    } else {
        lemma_run_concat(st, a, b.drop_last(), base);
        assert((a + b).drop_last() =~= a + b.drop_last());
        assert((a + b).last() == b.last());
    }
}

/// Once a prefix fails, the whole input fails with the same error.
pub proof fn lemma_run_prefix_err(s: Seq<u8>, k: int)
    requires
        0 <= k <= s.len(),
        run(s.take(k)) is Err,
    ensures
        run(s) == run(s.take(k)),
        lex(s) == Err::<Seq<HexValue>, LexError>(run(s.take(k))->Err_0),
{
    lemma_run_concat(init_state(), s.take(k), s.skip(k), 0);
    assert(s.take(k) + s.skip(k) =~= s);
}

impl HexString {
    pub fn len(&self) -> (r: usize)
        ensures
            r == self@.len(),
    {
        self.elems.len()
    }

    pub fn elems(&self) -> (r: &Vec<HexValue>)
        ensures
            r@ == self@,
    {
        &self.elems
    }

    /// Lexes the characters of a hex string. Whitespace between tokens is
    /// ignored; every token takes two characters.
    pub fn parse(text: &[u8]) -> (r: Result<HexString, LexError>)
        ensures
            match lex(text@) {
                Ok(es) => r is Ok && r->Ok_0@ == es,
                Err(e) => r == Err::<HexString, LexError>(e),
            },
    {
        let mut elems: Vec<HexValue> = Vec::new();
        let mut pending = Pending::Idle;
        let mut start: usize = 0;
        let mut start_ch: u8 = 0;
        let mut i: usize = 0;
        assert(text@.take(0) =~= Seq::<u8>::empty());
        while i < text.len()
            invariant
                i <= text.len(),
                run(text@.take(i as int)) == Ok::<LexState, LexError>(
                    LexState { elems: elems@, pending, start, start_ch },
                ),
                pending matches Pending::Hex { nibble } ==> nibble < 16,
            decreases text.len() - i,
        {
            let c = text[i];
            proof {
                lemma_run_push(text@, i as int);
                if step(LexState { elems: elems@, pending, start, start_ch }, c, i as int) is Err {
                    lemma_run_prefix_err(text@, i + 1);
                }
            }
            match pending {
                Pending::Dot => {
                    if c == DOT {
                        elems.push(HexValue::DotDot);
                        pending = Pending::Idle;
                    } else {
                        return Err(LexError { kind: LexErrorKind::ExpectedDot, ch: c, pos: i, start });
                    }
                },
                Pending::Underscore => {
                    if c == UNDERSCORE {
                        elems.push(HexValue::Underscore);
                        pending = Pending::Idle;
                    } else {
                        return Err(
                            LexError { kind: LexErrorKind::ExpectedUnderscore, ch: c, pos: i, start },
                        );
                    }
                },
                Pending::Hex { nibble } => {
                    if is_hex_digit_exec(c) {
                        let value = nibble * 16 + hex_val_exec(c);
                        elems.push(HexValue::Number { value });
                        pending = Pending::Idle;
                    } else {
                        return Err(
                            LexError { kind: LexErrorKind::ExpectedHexDigit, ch: c, pos: i, start },
                        );
                    }
                },
                Pending::Idle => {
                    if c == DOT {
                        pending = Pending::Dot;
                        start = i;
                        start_ch = c;
                    } else if c == UNDERSCORE {
                        pending = Pending::Underscore;
                        start = i;
                        start_ch = c;
                    } else if is_hex_digit_exec(c) {
                        pending = Pending::Hex { nibble: hex_val_exec(c) };
                        start = i;
                        start_ch = c;
                    } else if c == 0x20 || c == 0x0d || c == 0x0a || c == 0x09 {
                    } else {
                        return Err(
                            LexError { kind: LexErrorKind::InvalidCharacter, ch: c, pos: i, start: i },
                        );
                    }
                },
            }
            assert(run(text@.take(i + 1)) == Ok::<LexState, LexError>(
                LexState { elems: elems@, pending, start, start_ch },
            ));
            i += 1;
        }
        assert(text@.take(text.len() as int) =~= text@);
        match pending {
            Pending::Idle => Ok(HexString { elems }),
            _ => Err(LexError { kind: LexErrorKind::Unpaired, ch: start_ch, pos: start, start }),
        }
    }

    /// The canonical text: `[7D, __, ..]`.
    pub fn to_string(&self) -> (r: String)
        ensures
            r@ == hex_text(self@),
    {
        let ghost items = self@.map_values(|v: HexValue| value_text(v));
        let mut out = open_list();
        let mut i: usize = 0;
        while i < self.elems.len()
            invariant
                i <= self@.len(),
                items == self@.map_values(|v: HexValue| value_text(v)),
                out@ == seq!['['] + join(items.take(i as int)),
            decreases self@.len() - i,
        {
            proof {
                lemma_join_push(items, i as int);
            }
            push_separator(&mut out, i);
            push_value(&mut out, self.elems[i]);
            assert(out@ =~= seq!['['] + join(items.take(i + 1)));
            i += 1;
        }
        close_list(&mut out);
        assert(items.take(self@.len() as int) =~= items);
        out
    }
}

fn push_value(out: &mut String, v: HexValue)
    ensures
        final(out)@ == old(out)@ + value_text(v),
{
    match v {
        HexValue::Number { value } => push_byte(out, value),
        HexValue::Underscore => {
            proof {
                reveal_strlit("__");
            }
            out.append("__");
        },
        HexValue::DotDot => {
            proof {
                reveal_strlit("..");
            }
            out.append("..");
        },
    }
}

} // verus!

verus! {

/// Two lexer results that took the same decisions: both failed, or both
/// wait for the same partner and the first holds `pre` followed by the
/// tokens of the second.
pub open spec fn agree(r1: Result<LexState, LexError>, r2: Result<LexState, LexError>, pre: Seq<HexValue>) -> bool {
    match (r1, r2) {
        (Ok(a), Ok(b)) => a.pending == b.pending && a.elems == pre + b.elems,
        (Err(_), Err(_)) => true,
        _ => false,
    }
}

proof fn lemma_step_agree(a: LexState, b: LexState, pre: Seq<HexValue>, c: u8, p1: int, p2: int)
    requires
        a.pending == b.pending,
        a.elems == pre + b.elems,
    ensures
        agree(step(a, c, p1), step(b, c, p2), pre),
{
    assert forall|v: HexValue| #[trigger] (pre + b.elems).push(v) == pre + b.elems.push(v) by {
        assert((pre + b.elems).push(v) =~= pre + b.elems.push(v));
    }
}

/// Where the tokens came from and where the input stands do not change what
/// the lexer decides next.
pub proof fn lemma_run_agree(a: LexState, b: LexState, pre: Seq<HexValue>, q: Seq<u8>, b1: int, b2: int)
    requires
        a.pending == b.pending,
        a.elems == pre + b.elems,
    ensures
        agree(run_from(a, q, b1), run_from(b, q, b2), pre),
    decreases q.len(),
{
    if q.len() > 0 {
        lemma_run_agree(a, b, pre, q.drop_last(), b1, b2);
        match (run_from(a, q.drop_last(), b1), run_from(b, q.drop_last(), b2)) {
            (Ok(x), Ok(y)) => {
                lemma_step_agree(x, y, pre, q.last(), b1 + q.len() - 1, b2 + q.len() - 1);
            },
            _ => {},
        }
    }
}

pub proof fn lemma_run_ok_idle(p: Seq<u8>)
    requires
        lex(p) is Ok,
    ensures
        run(p) is Ok,
        run(p)->Ok_0.pending == Pending::Idle,
        run(p)->Ok_0.elems == lex(p)->Ok_0,
{
}

proof fn lemma_run_push_last(p: Seq<u8>, c: u8)
    ensures
        run(p.push(c)) == match run(p) {
            Ok(st) => step(st, c, p.len() as int),
            Err(e) => Err(e),
        },
{
    assert(p.push(c).drop_last() =~= p);
}

/// Whitespace between whole tokens changes nothing: `p`, a whitespace
/// character, then `q` lexes exactly when `p` then `q` does, to the same
/// tokens.
pub proof fn lemma_whitespace_between_tokens(p: Seq<u8>, w: u8, q: Seq<u8>)
    requires
        lex(p) is Ok,
        is_whitespace(w),
    ensures
        (lex(p.push(w) + q) is Ok) == (lex(p + q) is Ok),
        lex(p + q) is Ok ==> lex(p.push(w) + q) == lex(p + q),
{
    lemma_run_ok_idle(p);
    let sp = run(p)->Ok_0;
    lemma_run_concat(init_state(), p, q, 0);
    lemma_run_concat(init_state(), p.push(w), q, 0);
    lemma_run_push_last(p, w);
    assert(sp.elems =~= Seq::<HexValue>::empty() + sp.elems);
    lemma_run_agree(sp, sp, Seq::empty(), q, p.len() + 1int, p.len() as int);
    let r1 = run(p.push(w) + q);
    let r2 = run(p + q);
    if r1 is Ok && r2 is Ok {
        assert(r1->Ok_0.elems =~= r2->Ok_0.elems);
    }
}

/// A character that begins a token: a hex digit, `_` or `.`.
pub open spec fn starts_token(c: u8) -> bool {
    is_hex_digit(c) || c == DOT || c == UNDERSCORE
}

/// Whether `d` completes the token that `c` began.
pub open spec fn completes(c: u8, d: u8) -> bool {
    if is_hex_digit(c) {
        is_hex_digit(d)
    } else {
        d == c
    }
}

/// An unpaired hex digit, `_` or `.` fails the input, and the error points
/// at it: after whole tokens `p`, the character `c` begins a token and what
/// follows (if anything) does not complete it.
pub proof fn lemma_orphan_fails(p: Seq<u8>, c: u8, r: Seq<u8>)
    requires
        lex(p) is Ok,
        starts_token(c),
        r.len() == 0 || !completes(c, r[0]),
        p.len() < usize::MAX,
    ensures
        lex(p.push(c) + r) is Err,
        lex(p.push(c) + r)->Err_0.start == p.len(),
{
    lemma_run_ok_idle(p);
    lemma_run_push_last(p, c);
    let s = p.push(c) + r;
    if r.len() == 0 {
        assert(s =~= p.push(c));
    } else {
        let pre = p.push(c).push(r[0]);
        lemma_run_push_last(p.push(c), r[0]);
        assert(s.take(p.len() + 2int) =~= pre);
        lemma_run_prefix_err(s, p.len() + 2int);
    }
}

/// Every character is a hex digit.
pub open spec fn all_hex_digits(s: Seq<u8>) -> bool {
    forall|i: int| 0 <= i < s.len() ==> is_hex_digit(#[trigger] s[i])
}

/// The upper-case form of a hex digit.
pub open spec fn to_upper(c: u8) -> char {
    if 0x61 <= c <= 0x66 {
        (c - 32) as char
    } else {
        c as char
    }
}

/// The digits of `s`, upper-cased, in pairs.
pub open spec fn upper_pairs(s: Seq<u8>) -> Seq<Seq<char>> {
    Seq::new((s.len() / 2) as nat, |i: int| seq![to_upper(s[2 * i]), to_upper(s[2 * i + 1])])
}

spec fn pair_value(a: u8, b: u8) -> HexValue {
    HexValue::Number { value: (hex_val(a) * 16 + hex_val(b)) as u8 }
}

spec fn digits_pending(s: Seq<u8>, k: int) -> Pending {
    if k % 2 == 0 {
        Pending::Idle
    } else {
        Pending::Hex { nibble: hex_val(s[k - 1]) }
    }
}

proof fn lemma_digits_prefix(s: Seq<u8>, k: int)
    requires
        all_hex_digits(s),
        0 <= k <= s.len(),
    ensures
        run(s.take(k)) is Ok,
        run(s.take(k))->Ok_0.elems.len() == k / 2,
        run(s.take(k))->Ok_0.pending == digits_pending(s, k),
        forall|i: int|
            0 <= i < k / 2 ==> #[trigger] run(s.take(k))->Ok_0.elems[i] == pair_value(s[2 * i], s[2 * i + 1]),
    decreases k,
{
    if k == 0 {
        assert(s.take(0) =~= Seq::<u8>::empty());
    } else {
        lemma_digits_prefix(s, k - 1);
        lemma_run_push(s, k - 1);
        assert(is_hex_digit(s[k - 1]));
    }
}

proof fn lemma_upper_digit(c: u8)
    requires
        is_hex_digit(c),
    ensures
        upper_digit(hex_val(c)) == to_upper(c),
        hex_val(c) < 16,
{
}

/// Lexing an even run of hex digits and rendering the tokens gives back the
/// digits, upper-cased, two to a token: `7d2b` renders as `[7D, 2B]`.
pub proof fn lemma_hex_digits_round_trip(s: Seq<u8>)
    requires
        all_hex_digits(s),
        s.len() % 2 == 0,
    ensures
        lex(s) is Ok,
        lex(s)->Ok_0.len() == s.len() / 2,
        hex_text(lex(s)->Ok_0) == bracket_list(upper_pairs(s)),
{
    lemma_digits_prefix(s, s.len() as int);
    assert(s.take(s.len() as int) =~= s);
    let es = lex(s)->Ok_0;
    assert forall|i: int| 0 <= i < s.len() / 2 implies #[trigger] value_text(es[i]) == upper_pairs(s)[i] by {
        let a = s[2 * i];
        let b = s[2 * i + 1];
        lemma_upper_digit(a);
        lemma_upper_digit(b);
        let ha = hex_val(a);
        let hb = hex_val(b);
        assert((ha * 16 + hb) / 16 == ha && (ha * 16 + hb) % 16 == hb) by (nonlinear_arith)
            requires
                ha < 16,
                hb < 16,
        ;
        assert(value_text(es[i]) =~= upper_pairs(s)[i]);
    }
    assert(es.map_values(|v: HexValue| value_text(v)) =~= upper_pairs(s));
}

} // verus!
