//! Canonical text of patterns and byte runs: `[7D, __, 2B]`.
use vstd::prelude::*;

verus! {

/// The upper-case hex digit for a nibble.
pub open spec fn upper_digit(n: u8) -> char {
    if n < 10 {
        (0x30 + n) as char
    } else {
        (0x41 + (n - 10)) as char
    }
}

/// Two upper-case hex digits for a byte.
pub open spec fn byte_text(b: u8) -> Seq<char> {
    seq![upper_digit(b / 16), upper_digit(b % 16)]
}

/// The items separated by `", "`.
pub open spec fn join(items: Seq<Seq<char>>) -> Seq<char>
    decreases items.len(),
{
    if items.len() == 0 {
        Seq::empty()
    } else if items.len() == 1 {
        items[0]
    } else {
        join(items.drop_last()) + seq![',', ' '] + items.last()
    }
}

/// The items separated by `", "` inside square brackets.
pub open spec fn bracket_list(items: Seq<Seq<char>>) -> Seq<char> {
    seq!['['] + join(items) + seq![']']
}

pub open spec fn bytes_text(bytes: Seq<u8>) -> Seq<char> {
    bracket_list(bytes.map_values(|b: u8| byte_text(b)))
}

/// One more item of a list whose first `i` items are already written.
pub proof fn lemma_join_push(items: Seq<Seq<char>>, i: int)
    requires
        0 <= i < items.len(),
    ensures
        join(items.take(i + 1)) == if i == 0 {
            items[0]
        } else {
            join(items.take(i)) + seq![',', ' '] + items[i]
        },
{
    assert(items.take(i + 1).drop_last() =~= items.take(i));
}

pub(crate) fn push_digit(out: &mut String, n: u8)
    requires
        n < 16,
    ensures
        final(out)@ == old(out)@.push(upper_digit(n)),
{
    let s: &str = match n {
        0 => "0",
        1 => "1",
        2 => "2",
        3 => "3",
        4 => "4",
        5 => "5",
        6 => "6",
        7 => "7",
        8 => "8",
        9 => "9",
        10 => "A",
        11 => "B",
        12 => "C",
        13 => "D",
        14 => "E",
        _ => "F",
    };
    proof {
        reveal_strlit("0");
        reveal_strlit("1");
        reveal_strlit("2");
        reveal_strlit("3");
        reveal_strlit("4");
        reveal_strlit("5");
        reveal_strlit("6");
        reveal_strlit("7");
        reveal_strlit("8");
        reveal_strlit("9");
        reveal_strlit("A");
        reveal_strlit("B");
        reveal_strlit("C");
        reveal_strlit("D");
        reveal_strlit("E");
        reveal_strlit("F");
    }
    out.append(s);
    assert(final(out)@ =~= old(out)@.push(upper_digit(n)));
}

pub(crate) fn push_byte(out: &mut String, b: u8)
    ensures
        final(out)@ == old(out)@ + byte_text(b),
{
    push_digit(out, b / 16);
    push_digit(out, b % 16);
    assert(final(out)@ =~= old(out)@ + byte_text(b));
}

/// Writes the separator that comes before the item at index `i`.
pub(crate) fn push_separator(out: &mut String, i: usize)
    ensures
        final(out)@ == if i == 0 {
            old(out)@
        } else {
            old(out)@ + seq![',', ' ']
        },
{
    if i > 0 {
        proof {
            reveal_strlit(", ");
        }
        out.append(", ");
    }
}

pub(crate) fn open_list() -> (r: String)
    ensures
        r@ == seq!['['],
{
    proof {
        reveal_strlit("[");
    }
    let mut s = String::new();
    s.append("[");
    s
}

pub(crate) fn close_list(out: &mut String)
    ensures
        final(out)@ == old(out)@.push(']'),
{
    proof {
        reveal_strlit("]");
    }
    out.append("]");
    assert(final(out)@ =~= old(out)@.push(']'));
}

/// The bytes as two-digit upper-case hex groups: `[48, 45, 59]`.
pub fn render_bytes(bytes: &[u8]) -> (r: String)
    ensures
        r@ == bytes_text(bytes@),
{
    let ghost items = bytes@.map_values(|b: u8| byte_text(b));
    let mut out = open_list();
    let mut i: usize = 0;
    while i < bytes.len()
        invariant
            i <= bytes.len(),
            items == bytes@.map_values(|b: u8| byte_text(b)),
            out@ == seq!['['] + join(items.take(i as int)),
        decreases bytes.len() - i,
    {
        proof {
            lemma_join_push(items, i as int);
        }
        push_separator(&mut out, i);
        push_byte(&mut out, bytes[i]);
        assert(out@ =~= seq!['['] + join(items.take(i + 1)));
        i += 1;
    }
    close_list(&mut out);
    assert(items.take(bytes.len() as int) =~= items);
    out
}

} // verus!
