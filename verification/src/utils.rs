use vstd::prelude::*;
use vstd::string::StringExecFns;

verus! {

/// The upper-case hexadecimal digit for a value below 16.
pub open spec fn hex_digit(d: nat) -> char {
    if d < 10 {
        (('0' as u32) + d) as char
    } else {
        (('A' as u32) + (d - 10)) as char
    }
}

/// The last `width` hexadecimal digits of `n`, most significant first,
/// padded with leading zeros.
pub open spec fn hex_digits(n: nat, width: nat) -> Seq<char>
    decreases width,
{
    if width == 0 {
        Seq::empty()
    } else {
        hex_digits(n / 16, (width - 1) as nat).push(hex_digit(n % 16))
    }
}

/// How an address is written: `0x` followed by exactly sixteen
/// upper-case hexadecimal digits.
pub open spec fn address_text(address: usize) -> Seq<char> {
    seq!['0', 'x'] + hex_digits(address as nat, 16)
}

/// The value of an upper-case hexadecimal digit.
pub open spec fn hex_digit_value(c: char) -> nat {
    if '0' <= c && c <= '9' {
        (c as u32 - '0' as u32) as nat
    } else {
        (c as u32 - 'A' as u32 + 10) as nat
    }
}

/// The number that a string of upper-case hexadecimal digits denotes.
pub open spec fn hex_value(s: Seq<char>) -> nat
    decreases s.len(),
{
    if s.len() == 0 {
        0
    } else {
        hex_value(s.drop_last()) * 16 + hex_digit_value(s.last())
    }
}

/// Sixteen to the power `e`.
pub open spec fn pow16(e: nat) -> nat
    decreases e,
{
    if e == 0 {
        1
    } else {
        16 * pow16((e - 1) as nat)
    }
}

/// The one-character string of a hexadecimal digit.
fn hex_digit_str(d: usize) -> (s: &'static str)
    requires
        d < 16,
    ensures
        s@ == seq![hex_digit(d as nat)],
{
    proof {
        reveal_strlit("0");
        reveal_strlit("1");
        reveal_strlit("2");
        reveal_strlit("3");
        reveal_strlit("4");
        reveal_strlit("5");
        reveal_strlit("6");
        reveal_strlit("7");
        reveal_strlit("8");
        reveal_strlit("9");
        reveal_strlit("A");
        reveal_strlit("B");
        reveal_strlit("C");
        reveal_strlit("D");
        reveal_strlit("E");
        reveal_strlit("F");
    }
    match d {
        0 => "0",
        1 => "1",
        2 => "2",
        3 => "3",
        4 => "4",
        5 => "5",
        6 => "6",
        7 => "7",
        8 => "8",
        9 => "9",
        10 => "A",
        11 => "B",
        12 => "C",
        13 => "D",
        14 => "E",
        _ => "F",
    }
}

/// Appends the last `width` hexadecimal digits of `n` to `out`.
fn push_hex_digits(out: &mut String, n: usize, width: usize)
    ensures
        final(out)@ == old(out)@ + hex_digits(n as nat, width as nat),
    decreases width,
{
    if width == 0 {
        assert(old(out)@ + Seq::<char>::empty() =~= old(out)@);
    } else {
        push_hex_digits(out, n / 16, width - 1);
        let ghost before = out@;
        out.append(hex_digit_str(n % 16));
        assert(out@ =~= old(out)@ + hex_digits(n as nat, width as nat)) by {
            assert(before == old(out)@ + hex_digits((n / 16) as nat, (width - 1) as nat));
        }
    }
}

/// Formats an address as `0x` and sixteen upper-case hexadecimal digits.
pub fn format_address(address: usize) -> (text: String)
    ensures
        text@ == address_text(address),
{
    proof {
        reveal_strlit("0x");
    }
    let mut text = String::from_str("0x");
    push_hex_digits(&mut text, address, 16);
    text
}

/// Reading the digits back gives `n` modulo sixteen to the power of the width.
pub proof fn lemma_hex_digits_value(n: nat, width: nat)
    ensures
        hex_digits(n, width).len() == width,
        hex_value(hex_digits(n, width)) == n % pow16(width),
    decreases width,
{
    if width > 0 {
        let w1 = (width - 1) as nat;
        lemma_hex_digits_value(n / 16, w1);
        let s = hex_digits(n, width);
        assert(s.drop_last() =~= hex_digits(n / 16, w1));
        assert(s.last() == hex_digit(n % 16));
        assert(hex_digit_value(hex_digit(n % 16)) == n % 16);
        lemma_pow16_positive(w1);
        vstd::arithmetic::div_mod::lemma_mod_breakdown(n as int, 16, pow16(w1) as int);
    }
}

/// Sixteen to any power is positive.
pub proof fn lemma_pow16_positive(e: nat)
    ensures
        pow16(e) > 0,
    decreases e,
{
    if e > 0 {
        lemma_pow16_positive((e - 1) as nat);
    }
}

/// Every address fits in sixteen hexadecimal digits.
pub proof fn lemma_address_fits_sixteen_digits(address: usize)
    ensures
        (address as nat) < pow16(16),
{
    reveal_with_fuel(pow16, 17);
    assert(pow16(16) == 0x1_0000_0000_0000_0000nat);
}

/// An address's text is `0x` followed by sixteen digits that denote the
/// address itself: formatting loses nothing, so distinct addresses are
/// written differently.
pub proof fn lemma_address_text_roundtrip(address: usize)
    ensures
        address_text(address).len() == 18,
        address_text(address).take(2) == seq!['0', 'x'],
        hex_value(address_text(address).skip(2)) == address,
{
    lemma_hex_digits_value(address as nat, 16);
    lemma_address_fits_sixteen_digits(address);
    let t = address_text(address);
    assert(t.skip(2) =~= hex_digits(address as nat, 16));
    assert(t.take(2) =~= seq!['0', 'x']);
    vstd::arithmetic::div_mod::lemma_small_mod(address as nat, pow16(16));
}

/// Each of the sixteen characters after `0x` is a digit `0`-`9` or an
/// upper-case letter `A`-`F`, and the character at position `2 + k` stands
/// for the `k`-th hexadecimal digit of the address counted from the most
/// significant: its value is `address / 16^(15 - k) % 16`.
pub proof fn lemma_address_text_digits(address: usize)
    ensures
        forall|k: int|
            0 <= k < 16 ==> {
                let c = #[trigger] address_text(address)[k + 2];
                let d = (address as nat / pow16((15 - k) as nat)) % 16;
                &&& ('0' <= c <= '9' || 'A' <= c <= 'F')
                &&& d < 10 ==> c as u32 == '0' as u32 + d
                &&& d >= 10 ==> c as u32 == 'A' as u32 + d - 10
            },
{
    assert forall|k: int| 0 <= k < 16 implies {
        let c = #[trigger] address_text(address)[k + 2];
        let d = (address as nat / pow16((15 - k) as nat)) % 16;
        &&& ('0' <= c <= '9' || 'A' <= c <= 'F')
        &&& d < 10 ==> c as u32 == '0' as u32 + d
        &&& d >= 10 ==> c as u32 == 'A' as u32 + d - 10
    } by {
        lemma_hex_digits_at(address as nat, 16, k);
        assert(address_text(address)[k + 2] == hex_digits(address as nat, 16)[k]);
    }
}

/// The digit at position `k` of `hex_digits(n, width)`.
proof fn lemma_hex_digits_at(n: nat, width: nat, k: int)
    requires
        0 <= k < width,
    ensures
        hex_digits(n, width).len() == width,
        hex_digits(n, width)[k] == hex_digit((n / pow16((width - 1 - k) as nat)) % 16),
    decreases width,
{
    let w1 = (width - 1) as nat;
    lemma_hex_digits_value(n, width);
    lemma_hex_digits_value(n / 16, w1);
    if k < w1 {
        lemma_hex_digits_at(n / 16, w1, k);
        let e = (w1 - 1 - k) as nat;
        lemma_pow16_positive(e);
        assert(pow16((width - 1 - k) as nat) == 16 * pow16(e));
        vstd::arithmetic::div_mod::lemma_div_denominator(n as int, 16, pow16(e) as int);
        assert(hex_digits(n, width) == hex_digits(n / 16, w1).push(hex_digit(n % 16)));
        assert(hex_digits(n, width)[k] == hex_digits(n / 16, w1)[k]);
        assert((n / 16) / pow16(e) == n / pow16((width - 1 - k) as nat));
    } else {
        assert(pow16(0) == 1);
        assert(n / 1 == n);
        assert(hex_digits(n, width) == hex_digits(n / 16, w1).push(hex_digit(n % 16)));
        assert(hex_digits(n, width)[k] == hex_digit(n % 16));
    }
}

/// `s` comes before `t` in dictionary order: at the first place where they
/// differ, `s` has the smaller character code.
pub open spec fn text_precedes(s: Seq<char>, t: Seq<char>) -> bool {
    exists|k: int|
        0 <= k < s.len() && k < t.len() && #[trigger] s.take(k) == t.take(k) && (s[k] as u32) < (
        t[k] as u32)
}

/// Larger digit values have larger character codes.
proof fn lemma_hex_digit_order(x: nat, y: nat)
    requires
        x < y < 16,
    ensures
        (hex_digit(x) as u32) < (hex_digit(y) as u32),
{
}

/// For numbers below sixteen to the width, a smaller number has digits
/// that come first in dictionary order.
proof fn lemma_hex_digits_order(n: nat, m: nat, width: nat)
    requires
        n < m < pow16(width),
    ensures
        text_precedes(hex_digits(n, width), hex_digits(m, width)),
    decreases width,
{
    let w1 = (width - 1) as nat;
    assert(width > 0) by {
        if width == 0 {
            assert(pow16(0) == 1);
        }
    }
    lemma_hex_digits_value(n, width);
    lemma_hex_digits_value(m, width);
    lemma_hex_digits_value(n / 16, w1);
    lemma_hex_digits_value(m / 16, w1);
    let a = hex_digits(n, width);
    let b = hex_digits(m, width);
    let pa = hex_digits(n / 16, w1);
    let pb = hex_digits(m / 16, w1);
    assert(a == pa.push(hex_digit(n % 16)));
    assert(b == pb.push(hex_digit(m % 16)));
    if n / 16 < m / 16 {
        assert(m / 16 < pow16(w1));
        lemma_hex_digits_order(n / 16, m / 16, w1);
        let k = choose|k: int|
            0 <= k < pa.len() && k < pb.len() && #[trigger] pa.take(k) == pb.take(k) && (
            pa[k] as u32) < (pb[k] as u32);
        assert(a.take(k) =~= pa.take(k));
        assert(b.take(k) =~= pb.take(k));
        assert(a[k] == pa[k]);
        assert(b[k] == pb[k]);
    } else {
        assert(n / 16 == m / 16);
        lemma_hex_digit_order(n % 16, m % 16);
        let k = w1 as int;
        assert(a.take(k) =~= pa);
        assert(b.take(k) =~= pb);
        assert(a[k] == hex_digit(n % 16));
        assert(b[k] == hex_digit(m % 16));
    }
}

/// The text of a smaller address comes first in dictionary order, so
/// sorting the texts sorts the addresses.
pub proof fn lemma_address_text_order(a: usize, b: usize)
    requires
        a < b,
    ensures
        text_precedes(address_text(a), address_text(b)),
{
    lemma_address_fits_sixteen_digits(b);
    lemma_hex_digits_order(a as nat, b as nat, 16);
    let ha = hex_digits(a as nat, 16);
    let hb = hex_digits(b as nat, 16);
    lemma_hex_digits_value(a as nat, 16);
    lemma_hex_digits_value(b as nat, 16);
    let k = choose|k: int|
        0 <= k < ha.len() && k < hb.len() && #[trigger] ha.take(k) == hb.take(k) && (ha[k] as u32)
            < (hb[k] as u32);
    let ta = address_text(a);
    let tb = address_text(b);
    assert(ta.take(k + 2) =~= seq!['0', 'x'] + ha.take(k));
    assert(tb.take(k + 2) =~= seq!['0', 'x'] + hb.take(k));
    assert(ta[k + 2] == ha[k]);
    assert(tb[k + 2] == hb[k]);
}

/// The style of the program's console output; it writes labelled
/// headers and values.
pub struct TermColors;

impl TermColors {
    /// The text of a header: the label in square brackets.
    pub fn header_text(&self, label: &str) -> (text: String)
        ensures
            text@ == seq!['['] + label@ + seq![']'],
    {
        proof {
            reveal_strlit("[");
            reveal_strlit("]");
        }
        let mut text = String::from_str("[");
        text.append(label);
        text.append("]");
        text
    }

    /// The text of a value line: a space, the value, and a line break.
    pub fn value_text(&self, value: &str) -> (text: String)
        ensures
            text@ == seq![' '] + value@ + seq!['\n'],
    {
        proof {
            reveal_strlit(" ");
            reveal_strlit("\n");
        }
        let mut text = String::from_str(" ");
        text.append(value);
        text.append("\n");
        text
    }
}

} // verus!
