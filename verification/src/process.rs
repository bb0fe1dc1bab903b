use vstd::prelude::*;

verus! {

/// The UTF-16 code units of one character: one unit below `0x10000`,
/// otherwise a high and a low surrogate.
pub open spec fn utf16_units(c: char) -> Seq<u16> {
    let v = c as u32;
    if v < 0x10000 {
        seq![v as u16]
    } else {
        let w = (v - 0x10000) as int;
        seq![(0xD800 + w / 0x400) as u16, (0xDC00 + w % 0x400) as u16]
    }
}

/// The UTF-16 encoding of a character sequence.
pub open spec fn encode_utf16(s: Seq<char>) -> Seq<u16>
    decreases s.len(),
{
    if s.len() == 0 {
        Seq::empty()
    } else {
        encode_utf16(s.drop_last()) + utf16_units(s.last())
    }
}

/// A UTF-16 code unit that is a high surrogate.
pub open spec fn is_high_surrogate(u: u16) -> bool {
    0xD800 <= u && u <= 0xDBFF
}

/// A UTF-16 code unit that is a low surrogate.
pub open spec fn is_low_surrogate(u: u16) -> bool {
    0xDC00 <= u && u <= 0xDFFF
}

/// Decodes UTF-16 code units from the end: a high and a low surrogate make
/// one character above `0xFFFF`; any other unit is a character by itself.
pub open spec fn decode_utf16(units: Seq<u16>) -> Seq<char>
    decreases units.len(),
{
    if units.len() == 0 {
        Seq::empty()
    } else if units.len() >= 2 && is_low_surrogate(units.last()) && is_high_surrogate(
        units[units.len() - 2],
    ) {
        let hi = units[units.len() - 2] as int;
        let lo = units.last() as int;
        decode_utf16(units.take(units.len() - 2)).push(
            ((hi - 0xD800) * 0x400 + (lo - 0xDC00) + 0x10000) as u32 as char,
        )
    } else {
        decode_utf16(units.drop_last()).push(units.last() as u32 as char)
    }
}

/// The code units of a character: below `0x10000` the one unit with the
/// character's value, which is never a surrogate; above, a high then a low
/// surrogate from which the value is recovered.
pub proof fn lemma_utf16_units_of_char(c: char)
    ensures
        (c as u32) < 0x10000 ==> {
            &&& utf16_units(c).len() == 1
            &&& utf16_units(c)[0] as u32 == c as u32
            &&& !is_high_surrogate(utf16_units(c)[0])
            &&& !is_low_surrogate(utf16_units(c)[0])
        },
        (c as u32) >= 0x10000 ==> {
            &&& utf16_units(c).len() == 2
            &&& is_high_surrogate(utf16_units(c)[0])
            &&& is_low_surrogate(utf16_units(c)[1])
            &&& (utf16_units(c)[0] - 0xD800) * 0x400 + (utf16_units(c)[1] - 0xDC00) + 0x10000 == c
                as u32
        },
{
    let v = c as u32;
    vstd::utf8::char_is_scalar(c);
    if v < 0x10000 {
        assert(v < 0x10000 ==> (v as u16) as u32 == v) by (bit_vector);
    } else {
        let w = (v - 0x10000) as int;
        assert(0 <= w / 0x400 < 0x400);
        assert(0 <= w % 0x400 < 0x400);
        assert((0xD800 + w / 0x400) as u16 == 0xD800 + w / 0x400);
        assert((0xDC00 + w % 0x400) as u16 == 0xDC00 + w % 0x400);
        assert(w == (w / 0x400) * 0x400 + w % 0x400);
    }
}

/// Decoding the code units of a string gives the string back.
pub proof fn lemma_encode_utf16_decodes(s: Seq<char>)
    ensures
        decode_utf16(encode_utf16(s)) == s,
    decreases s.len(),
{
    if s.len() > 0 {
        let p = s.drop_last();
        let c = s.last();
        lemma_encode_utf16_decodes(p);
        lemma_utf16_units_of_char(c);
        let e = encode_utf16(p);
        let u = utf16_units(c);
        let all = encode_utf16(s);
        assert(all == e + u);
        let v = c as u32;
        if v < 0x10000 {
            assert(all.last() == u[0]);
            assert(all.drop_last() =~= e);
            vstd::utf8::char_u32_cast(c, v);
            assert((all.last() as u32) == v);
        } else {
            assert(all.last() == u[1]);
            assert(all[all.len() - 2] == u[0]);
            assert(all.take(all.len() - 2) =~= e);
            vstd::utf8::char_u32_cast(c, v);
        }
        assert(decode_utf16(all) =~= s);
    }
}

/// The name written for a process or module search is the name's UTF-16
/// code units followed by a single zero, and decoding the units before the
/// zero gives the name back.
pub proof fn lemma_wide_name_decodes(name: Seq<char>)
    ensures
        encode_utf16(name).push(0u16).last() == 0u16,
        decode_utf16(encode_utf16(name).push(0u16).drop_last()) == name,
{
    assert(encode_utf16(name).push(0u16).drop_last() =~= encode_utf16(name));
    lemma_encode_utf16_decodes(name);
}

/// The code units of one character.
fn char_units(c: char, out: &mut Vec<u16>)
    ensures
        final(out)@ == old(out)@ + utf16_units(c),
{
    let v = c as u32;
    if v < 0x10000 {
        out.push(v as u16);
    } else {
        let w = v - 0x10000;
        out.push((0xD800 + w / 0x400) as u16);
        out.push((0xDC00 + w % 0x400) as u16);
    }
}

/// A name as the system writes it in process and module entries: its
/// UTF-16 code units followed by a terminating zero.
pub fn wide_name(name: &str) -> (w: Vec<u16>)
    ensures
        w@ == encode_utf16(name@).push(0u16),
{
    let mut w: Vec<u16> = Vec::new();
    let ghost mut n: int = 0;
    for c in it: name.chars()
        invariant
            n == it.index(),
            it.seq() == name@,
            w@ == encode_utf16(name@.take(n)),
    {
        char_units(c, &mut w);
        proof {
            n = n + 1;
            assert(name@.take(n).drop_last() =~= name@.take(n - 1));
        }
    }
    assert(name@.take(n) =~= name@);
    w.push(0);
    w
}

/// Whether an entry's name field starts with the target's code units, the
/// test by which a process or module entry is recognised. The target is a
/// name as `wide_name` gives it, with its terminating zero.
pub fn entry_name_matches(target: &[u16], entry_name: &[u16]) -> (r: bool)
    requires
        target@.len() <= entry_name@.len(),
    ensures
        r == (entry_name@.take(target@.len() as int) == target@),
{
    let n = target.len();
    let mut i: usize = 0;
    while i < n
        invariant
            n == target@.len(),
            n <= entry_name@.len(),
            i <= n,
            forall|k: int| 0 <= k < i ==> entry_name@[k] == target@[k],
        decreases n - i,
    {
        if target[i] != entry_name[i] {
            assert(entry_name@.take(n as int)[i as int] != target@[i as int]);
            return false;
        }
        i = i + 1;
    }
    assert(entry_name@.take(n as int) =~= target@);
    true
}

/// The field holds exactly the name `s` as a zero-terminated string: the
/// units of `s`, none of them zero, then a zero.
pub open spec fn holds_terminated(field: Seq<u16>, s: Seq<u16>) -> bool {
    &&& s.len() < field.len()
    &&& field.take(s.len() as int) == s
    &&& field[s.len() as int] == 0u16
    &&& forall|i: int| 0 <= i < s.len() ==> #[trigger] s[i] != 0u16
}

/// A character other than NUL encodes to non-zero code units.
proof fn lemma_encode_utf16_nonzero(s: Seq<char>)
    requires
        forall|i: int| 0 <= i < s.len() ==> #[trigger] s[i] != '\0',
    ensures
        forall|k: int| 0 <= k < encode_utf16(s).len() ==> #[trigger] encode_utf16(s)[k] != 0u16,
    decreases s.len(),
{
    if s.len() > 0 {
        let p = s.drop_last();
        assert forall|i: int| 0 <= i < p.len() implies #[trigger] p[i] != '\0' by {
            assert(p[i] == s[i]);
        }
        lemma_encode_utf16_nonzero(p);
        let c = s.last();
        assert(c != '\0');
        assert((c as u32) != 0) by {
            if (c as u32) == 0 {
                vstd::utf8::char_u32_cast(c, 0u32);
                assert((0u32 as char) == '\0');
            }
        }
        let e = encode_utf16(s);
        assert forall|k: int| 0 <= k < e.len() implies #[trigger] e[k] != 0u16 by {
            if k >= encode_utf16(p).len() {
                let u = utf16_units(c);
                let v = c as u32;
                if v < 0x10000 {
                    assert(v < 0x10000 && v != 0 ==> (v as u16) != 0u16) by (bit_vector);
                } else {
                    let w = (v - 0x10000) as int;
                    vstd::utf8::char_is_scalar(c);
                    assert(0 <= w / 0x400 < 0x400);
                    assert((0xD800 + w / 0x400) as u16 == 0xD800 + w / 0x400);
                }
                assert(e[k] == u[k - encode_utf16(p).len()]);
            }
        }
    }
}

/// For a name without NUL characters, an entry is recognised exactly when
/// its name field holds that name, terminated: a match is never a mere
/// prefix of a longer name.
pub proof fn lemma_match_is_exact_name(name: Seq<char>, field: Seq<u16>)
    requires
        forall|i: int| 0 <= i < name.len() ==> #[trigger] name[i] != '\0',
        encode_utf16(name).len() + 1 <= field.len(),
    ensures
        (field.take(encode_utf16(name).len() + 1int) == encode_utf16(name).push(0u16))
            <==> holds_terminated(field, encode_utf16(name)),
{
    lemma_encode_utf16_nonzero(name);
    let e = encode_utf16(name);
    let t = field.take(e.len() + 1int);
    if t == e.push(0u16) {
        assert(field.take(e.len() as int) =~= e) by {
            assert forall|k: int| 0 <= k < e.len() implies field.take(e.len() as int)[k] == e[k] by {
                assert(t[k] == e.push(0u16)[k]);
            }
        }
        assert(field[e.len() as int] == t[e.len() as int]);
    }
    if holds_terminated(field, e) {
        assert forall|k: int| 0 <= k < e.len() + 1 implies t[k] == e.push(0u16)[k] by {
            if k < e.len() {
                assert(field.take(e.len() as int)[k] == field[k]);
            }
        }
        assert(t =~= e.push(0u16));
    }
}

} // verus!
