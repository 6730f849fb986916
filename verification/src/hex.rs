//! Lowercase hexadecimal text for byte strings, and its inverse.

use vstd::prelude::*;
use vstd::string::*;

verus! {

/// The sixteen digits of lowercase hexadecimal, by value.
pub open spec fn hex_alphabet() -> Seq<char> {
    seq!['0', '1', '2', '3', '4', '5', '6', '7', '8', '9', 'a', 'b', 'c', 'd', 'e', 'f']
}

/// The digit that stands for `n`, for `0 <= n < 16`.
pub open spec fn hex_digit(n: int) -> char
    recommends
        0 <= n < 16,
{
    hex_alphabet()[n]
}

/// Whether `c` is a hexadecimal digit of either case.
pub open spec fn is_hex_char(c: char) -> bool {
    ('0' <= c <= '9') || ('a' <= c <= 'f') || ('A' <= c <= 'F')
}

/// The value of a hexadecimal digit of either case.
pub open spec fn hex_value(c: char) -> int
    recommends
        is_hex_char(c),
{
    if '0' <= c <= '9' {
        c as int - '0' as int
    } else if 'a' <= c <= 'f' {
        c as int - 'a' as int + 10
    } else {
        c as int - 'A' as int + 10
    }
}

/// Lowercase hexadecimal text of `bytes`: two digits per byte, high nibble first.
pub open spec fn hex_encode(bytes: Seq<u8>) -> Seq<char> {
    Seq::new(
        2 * bytes.len(),
        |i: int|
            if i % 2 == 0 {
                hex_digit(bytes[i / 2] as int / 16)
            } else {
                hex_digit(bytes[i / 2] as int % 16)
            },
    )
}

/// Whether `text` is hexadecimal text of whole bytes, in either case.
pub open spec fn is_hex(text: Seq<char>) -> bool {
    &&& text.len() % 2 == 0
    &&& forall|i: int| 0 <= i < text.len() ==> is_hex_char(#[trigger] text[i])
}

/// The bytes that hexadecimal `text` stands for.
pub open spec fn hex_decode(text: Seq<char>) -> Seq<u8> {
    Seq::new(
        text.len() / 2,
        |i: int| (16 * hex_value(text[2 * i]) + hex_value(text[2 * i + 1])) as u8,
    )
}

/// Every digit of the alphabet is a hexadecimal character that stands for its
/// own index.
pub proof fn lemma_hex_digit_value(n: int)
    requires
        0 <= n < 16,
    ensures
        is_hex_char(hex_digit(n)),
        hex_value(hex_digit(n)) == n,
        'a' <= hex_digit(n) <= 'f' || '0' <= hex_digit(n) <= '9',
{
}

/// Encoded text is well-formed hexadecimal.
pub proof fn lemma_hex_encode_is_hex(bytes: Seq<u8>)
    ensures
        is_hex(hex_encode(bytes)),
        hex_encode(bytes).len() == 2 * bytes.len(),
{
    let text = hex_encode(bytes);
    assert forall|i: int| 0 <= i < text.len() implies is_hex_char(#[trigger] text[i]) by {
        let b = bytes[i / 2] as int;
        lemma_hex_digit_value(b / 16);
        lemma_hex_digit_value(b % 16);
    }
}

/// Decoding undoes encoding.
pub proof fn lemma_hex_round_trip(bytes: Seq<u8>)
    ensures
        hex_decode(hex_encode(bytes)) == bytes,
{
    let text = hex_encode(bytes);
    let back = hex_decode(text);
    assert(back.len() == bytes.len());
    assert forall|i: int| 0 <= i < bytes.len() implies back[i] == bytes[i] by {
        let b = bytes[i] as int;
        assert((2 * i) / 2 == i && (2 * i) % 2 == 0);
        assert((2 * i + 1) / 2 == i && (2 * i + 1) % 2 == 1);
        lemma_hex_digit_value(b / 16);
        lemma_hex_digit_value(b % 16);
        assert(16 * (b / 16) + b % 16 == b);
    }
    assert(back =~= bytes);
}

/// Whether two hexadecimal texts agree digit by digit in value, whatever the
/// case of each digit.
pub open spec fn same_hex(a: Seq<char>, b: Seq<char>) -> bool {
    &&& is_hex(a)
    &&& is_hex(b)
    &&& a.len() == b.len()
    &&& forall|i: int| 0 <= i < a.len() ==> hex_value(#[trigger] a[i]) == hex_value(b[i])
}

/// A letter digit has the same value in upper and in lower case.
pub proof fn lemma_hex_value_ignores_case()
    ensures
        hex_value('A') == hex_value('a') == 10,
        hex_value('B') == hex_value('b') == 11,
        hex_value('C') == hex_value('c') == 12,
        hex_value('D') == hex_value('d') == 13,
        hex_value('E') == hex_value('e') == 14,
        hex_value('F') == hex_value('f') == 15,
{
}

/// Texts that differ only in the case of their digits stand for the same
/// bytes.
pub proof fn lemma_decode_ignores_case(a: Seq<char>, b: Seq<char>)
    requires
        same_hex(a, b),
    ensures
        hex_decode(a) == hex_decode(b),
{
    assert(hex_decode(a) =~= hex_decode(b));
}

/// One-character text of the digit for `n`.
fn hex_digit_text(n: u8) -> (text: &'static str)
    requires
        n < 16,
    ensures
        text@ == seq![hex_digit(n as int)],
{
    let text = match n {
        0 => "0",
        1 => "1",
        2 => "2",
        3 => "3",
        4 => "4",
        5 => "5",
        6 => "6",
        7 => "7",
        8 => "8",
        9 => "9",
        10 => "a",
        11 => "b",
        12 => "c",
        13 => "d",
        14 => "e",
        _ => "f",
    };
    proof {
        reveal_strlit("0");
        reveal_strlit("1");
        reveal_strlit("2");
        reveal_strlit("3");
        reveal_strlit("4");
        reveal_strlit("5");
        reveal_strlit("6");
        reveal_strlit("7");
        reveal_strlit("8");
        reveal_strlit("9");
        reveal_strlit("a");
        reveal_strlit("b");
        reveal_strlit("c");
        reveal_strlit("d");
        reveal_strlit("e");
        reveal_strlit("f");
        assert(text@ =~= seq![hex_digit(n as int)]);
    }
    text
}

/// Appends the lowercase hexadecimal text of `bytes` to `out`.
pub fn push_hex(out: &mut String, bytes: &[u8])
    ensures
        final(out)@ == old(out)@ + hex_encode(bytes@),
{
    let mut i: usize = 0;
    while i < bytes.len()
        invariant
            i <= bytes.len(),
            out@ == old(out)@ + hex_encode(bytes@.subrange(0, i as int)),
        decreases bytes.len() - i,
    {
        let b = bytes[i];
        let ghost before = out@;
        out.append(hex_digit_text(b / 16));
        out.append(hex_digit_text(b % 16));
        proof {
            let shorter = bytes@.subrange(0, i as int);
            let longer = bytes@.subrange(0, i as int + 1);
            assert(hex_encode(longer) =~= hex_encode(shorter) + seq![
                hex_digit(b as int / 16),
                hex_digit(b as int % 16),
            ]);
            assert(out@ =~= old(out)@ + hex_encode(longer));
        }
        i = i + 1;
    }
    proof {
        assert(bytes@.subrange(0, i as int) =~= bytes@);
    }
}

/// The value of the hexadecimal digit `b`, if it is one.
pub fn hex_digit_value(b: u8) -> (value: Option<u8>)
    ensures
        value is Some <==> is_hex_char(b as char),
        value matches Some(v) ==> v == hex_value(b as char),
{
    if b >= 48 && b <= 57 {
        Some(b - 48)
    } else if b >= 97 && b <= 102 {
        Some(b - 97 + 10)
    } else if b >= 65 && b <= 70 {
        Some(b - 65 + 10)
    } else {
        None
    }
}

} // verus!
