//! Hexadecimal text.
use vstd::prelude::*;

verus! {

/// The lower-case hexadecimal digit for `n`, as an ASCII byte.
pub open spec fn spec_hex_digit(n: int) -> u8 {
    if n < 10 {
        (0x30 + n) as u8
    } else {
        (0x57 + n) as u8
    }
}

/// Two lower-case hexadecimal digits for each byte, in order.
pub open spec fn hex(bytes: Seq<u8>) -> Seq<u8> {
    Seq::new(
        2 * bytes.len(),
        |i: int|
            if i % 2 == 0 {
                spec_hex_digit(bytes[i / 2] as int / 16)
            } else {
                spec_hex_digit(bytes[i / 2] as int % 16)
            },
    )
}

fn hex_digit(n: u8) -> (c: u8)
    requires
        n < 16,
    ensures
        c == spec_hex_digit(n as int),
{
    if n < 10 {
        0x30 + n
    } else {
        0x57 + n
    }
}

/// Appends the hexadecimal form of `bytes` to `out`.
pub fn push_hex(out: &mut Vec<u8>, bytes: &[u8])
    ensures
        final(out)@ == old(out)@ + hex(bytes@),
{
    let ghost before = out@;
    let mut i: usize = 0;
    while i < bytes.len()
        invariant
            i <= bytes.len(),
            out@ == before + hex(bytes@.subrange(0, i as int)),
        decreases bytes.len() - i,
    {
        let b = bytes[i];
        let ghost prev = out@;
        out.push(hex_digit(b / 16));
        out.push(hex_digit(b % 16));
        proof {
            let shorter = bytes@.subrange(0, i as int);
            let longer = bytes@.subrange(0, i as int + 1);
            assert(hex(longer) =~= hex(shorter) + seq![
                spec_hex_digit(b as int / 16),
                spec_hex_digit(b as int % 16),
            ]);
            assert(out@ =~= before + hex(longer));
        }
        i += 1;
    }
    assert(bytes@.subrange(0, bytes@.len() as int) =~= bytes@);
}

/// A hexadecimal string holds two digits for each byte, all of them digits
/// or letters from `a` to `f`.
pub proof fn lemma_hex_is_step_bytes(bytes: Seq<u8>)
    ensures
        hex(bytes).len() == 2 * bytes.len(),
        forall|i: int|
            0 <= i < hex(bytes).len() ==> (0x30 <= #[trigger] hex(bytes)[i] <= 0x39) || (0x61
                <= hex(bytes)[i] <= 0x66),
{
}

/// Different byte strings have different hexadecimal forms.
pub proof fn lemma_hex_injective(a: Seq<u8>, b: Seq<u8>)
    requires
        hex(a) == hex(b),
    ensures
        a == b,
{
    assert(a.len() == b.len()) by {
        assert(hex(a).len() == 2 * a.len());
        assert(hex(b).len() == 2 * b.len());
    }
    assert forall|k: int| 0 <= k < a.len() implies a[k] == b[k] by {
        let even = 2 * k;
        let odd = 2 * k + 1;
        assert(even % 2 == 0 && even / 2 == k);
        assert(odd % 2 == 1 && odd / 2 == k);
        let x = a[k] as int;
        let y = b[k] as int;
        assert(hex(a)[even] == spec_hex_digit(x / 16));
        assert(hex(b)[even] == spec_hex_digit(y / 16));
        assert(hex(a)[odd] == spec_hex_digit(x % 16));
        assert(hex(b)[odd] == spec_hex_digit(y % 16));
        assert(x / 16 == y / 16);
        assert(x % 16 == y % 16);
    }
    assert(a =~= b);
}


/// The number that a hexadecimal digit stands for. Letters may be of either
/// case.
pub open spec fn hex_value(c: u8) -> Option<int> {
    if 0x30 <= c <= 0x39 {
        Some(c - 0x30)
    } else if 0x61 <= c <= 0x66 {
        Some(c - 0x57)
    } else if 0x41 <= c <= 0x46 {
        Some(c - 0x37)
    } else {
        None
    }
}

/// The text is made of pairs of hexadecimal digits.
pub open spec fn is_hex_text(text: Seq<u8>) -> bool {
    &&& text.len() % 2 == 0
    &&& forall|i: int| 0 <= i < text.len() ==> hex_value(#[trigger] text[i]) is Some
}

/// The bytes that pairs of hexadecimal digits stand for.
pub open spec fn spec_unhex(text: Seq<u8>) -> Seq<u8> {
    Seq::new(
        text.len() / 2,
        |i: int| (hex_value(text[2 * i])->Some_0 * 16 + hex_value(text[2 * i + 1])->Some_0) as u8,
    )
}

fn digit_value(c: u8) -> (value: Option<u8>)
    ensures
        match value {
            Some(v) => hex_value(c) == Some(v as int) && v < 16,
            None => hex_value(c) is None,
        },
{
    if 0x30 <= c && c <= 0x39 {
        Some(c - 0x30)
    } else if 0x61 <= c && c <= 0x66 {
        Some(c - 0x57)
    } else if 0x41 <= c && c <= 0x46 {
        Some(c - 0x37)
    } else {
        None
    }
}

/// Reads hexadecimal text. Text of odd length, or with anything but
/// hexadecimal digits in it, is refused.
pub fn unhex(text: &[u8]) -> (res: Option<Vec<u8>>)
    ensures
        is_hex_text(text@) ==> res is Some && res->Some_0@ == spec_unhex(text@),
        !is_hex_text(text@) ==> res is None,
{
    if text.len() % 2 != 0 {
        return None;
    }
    let mut bytes: Vec<u8> = Vec::new();
    let mut i: usize = 0;
    while i < text.len() / 2
        invariant
            text@.len() % 2 == 0,
            i <= text@.len() / 2,
            bytes@.len() == i,
            forall|j: int| 0 <= j < 2 * i ==> hex_value(#[trigger] text@[j]) is Some,
            forall|j: int| 0 <= j < i ==> bytes@[j] == spec_unhex(text@)[j],
        decreases text@.len() / 2 - i,
    {
        let high = match digit_value(text[2 * i]) {
            Some(v) => v,
            None => {
                return None;
            },
        };
        let low = match digit_value(text[2 * i + 1]) {
            Some(v) => v,
            None => {
                return None;
            },
        };
        bytes.push(high * 16 + low);
        i += 1;
    }
    assert(bytes@ =~= spec_unhex(text@));
    Some(bytes)
}

/// Reading the hexadecimal form of bytes gives the bytes back.
pub proof fn lemma_unhex_hex(bytes: Seq<u8>)
    ensures
        is_hex_text(hex(bytes)),
        spec_unhex(hex(bytes)) == bytes,
{
    let text = hex(bytes);
    lemma_hex_is_step_bytes(bytes);
    assert forall|k: int| 0 <= k < bytes.len() implies spec_unhex(text)[k] == bytes[k] by {
        let even = 2 * k;
        let odd = 2 * k + 1;
        assert(even % 2 == 0 && even / 2 == k);
        assert(odd % 2 == 1 && odd / 2 == k);
        let x = bytes[k] as int;
        assert(text[even] == spec_hex_digit(x / 16));
        assert(text[odd] == spec_hex_digit(x % 16));
        assert(hex_value(spec_hex_digit(x / 16)) == Some(x / 16));
        assert(hex_value(spec_hex_digit(x % 16)) == Some(x % 16));
    }
    assert(spec_unhex(text) =~= bytes);
}

} // verus!
