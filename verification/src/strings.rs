use vstd::prelude::*;

verus! {

/// The UTF-16 code units of one character.
pub open spec fn utf16_char(c: char) -> Seq<u16> {
    let v = c as u32;
    if v < 0x10000 {
        seq![v as u16]
    } else {
        let u = (v - 0x10000) as u32;
        seq![(0xD800 + (u >> 10u32)) as u16, (0xDC00 + (u & 0x3ffu32)) as u16]
    }
}

/// The UTF-16 code units of a string.
pub open spec fn utf16_of(s: Seq<char>) -> Seq<u16>
    decreases s.len(),
{
    if s.len() == 0 {
        Seq::empty()
    } else {
        utf16_char(s[0]) + utf16_of(s.drop_first())
    }
}

/// The code units of one character, as `utf16_char` gives them.
fn char_units(c: char) -> (r: Vec<u16>)
    ensures
        r@ == utf16_char(c),
{
    let v = c as u32;
    let mut out: Vec<u16> = Vec::new();
    if v < 0x10000 {
        out.push(v as u16);
    } else {
        let u = v - 0x10000;
        assert(u >> 10u32 < 0x400 && u & 0x3ffu32 < 0x400) by (bit_vector)
            requires
                u <= 0x10FFFF - 0x10000,
        ;
        out.push((0xD800 + (u >> 10u32)) as u16);
        out.push((0xDC00 + (u & 0x3ffu32)) as u16);
    }
    assert(out@ =~= utf16_char(c));
    out
}

/// The code units of `s` encoded as UTF-16.
fn encode_utf16(s: &str) -> (r: Vec<u16>)
    ensures
        r@ == utf16_of(s@),
{
    broadcast use vstd::string::axiom_spec_iter, vstd::string::next_postcondition;

    let mut out: Vec<u16> = Vec::new();
    let mut chars = s.chars();
    loop
        invariant
            out@ + utf16_of(vstd::std_specs::iter::IteratorSpec::remaining(&chars)) == utf16_of(s@),
            vstd::std_specs::iter::IteratorSpec::obeys_prophetic_iter_laws(&chars),
            vstd::std_specs::iter::IteratorSpec::decrease(&chars) is Some,
        decreases vstd::std_specs::iter::IteratorSpec::decrease(&chars)->0,
    {
        let ghost rem = vstd::std_specs::iter::IteratorSpec::remaining(&chars);
        match chars.next() {
            Some(c) => {
                let units = char_units(c);
                let ghost before = out@;
                let mut k: usize = 0;
                while k < units.len()
                    invariant
                        k <= units@.len(),
                        out@ == before + units@.subrange(0, k as int),
                    decreases units@.len() - k,
                {
                    out.push(units[k]);
                    k = k + 1;
                    assert(out@ =~= before + units@.subrange(0, k as int));
                }
                proof {
                    assert(units@.subrange(0, units@.len() as int) =~= units@);
                    assert(rem.len() > 0);
                    assert(utf16_of(rem) == utf16_char(rem[0]) + utf16_of(rem.drop_first()));
                    assert(before + utf16_of(rem) =~= out@ + utf16_of(vstd::std_specs::iter::IteratorSpec::remaining(&chars)));
                }
            },
            None => {
                proof {
                    assert(utf16_of(vstd::std_specs::iter::IteratorSpec::remaining(&chars)) =~= Seq::<u16>::empty());
                    assert(out@ + Seq::<u16>::empty() =~= out@);
                }
                return out;
            },
        }
    }
}

/// What a fixed-size buffer holds after a string's `units` are copied into it: as many units as
/// fit, then a terminating zero right after them, or in the last place when they fill the buffer.
/// An empty buffer is left alone.
pub open spec fn copied_with_terminator<T>(units: Seq<T>, zero: T, old_dst: Seq<T>, k: int) -> T {
    let n = if units.len() < old_dst.len() {
        units.len() as int
    } else {
        old_dst.len() as int
    };
    if n < old_dst.len() && k == n {
        zero
    } else if n == old_dst.len() && k == old_dst.len() - 1 {
        zero
    } else if k < n {
        units[k]
    } else {
        old_dst[k]
    }
}

/// Copies `src`, encoded as UTF-16, into `dst` as far as it fits, and terminates it with a zero:
/// right after the copied units, or in the last place when the units fill `dst`.
pub fn copy_wstring(src: &str, dst: &mut [u16])
    ensures
        final(dst)@.len() == old(dst)@.len(),
        forall|k: int|
            0 <= k < old(dst)@.len() ==> #[trigger] final(dst)@[k] == copied_with_terminator(
                utf16_of(src@),
                0u16,
                old(dst)@,
                k,
            ),
{
    let units = encode_utf16(src);
    let mut len: usize = 0;
    while len < units.len() && len < dst.len()
        invariant
            len <= units@.len(),
            len <= old(dst)@.len(),
            dst@.len() == old(dst)@.len(),
            units@ == utf16_of(src@),
            forall|k: int| 0 <= k < len ==> dst@[k] == units@[k],
            forall|k: int| len <= k < dst@.len() ==> dst@[k] == old(dst)@[k],
        decreases units@.len() - len,
    {
        dst[len] = units[len];
        len = len + 1;
    }
    if len < dst.len() {
        dst[len] = 0;
    } else if dst.len() > 0 {
        let last = dst.len() - 1;
        dst[last] = 0;
    }
}

/// The bytes of the C string made of `s`: its bytes and a terminating zero, or only the zero
/// when `s` holds a zero byte (which a C string cannot).
pub open spec fn c_string_bytes(s: Seq<u8>) -> Seq<u8> {
    if s.contains(0u8) {
        seq![0u8]
    } else {
        s.push(0u8)
    }
}

/// Copies `src`, as a C string, into `dst` as far as it fits; when the string with its
/// terminator does not fit, the last place gets a zero. A string holding a zero byte is copied
/// as the empty string.
pub fn copy_cstring(src: &str, dst: &mut [i8])
    ensures
        final(dst)@.len() == old(dst)@.len(),
        ({
            let bytes = c_string_bytes(vstd::utf8::encode_utf8(src@));
            forall|k: int|
                0 <= k < old(dst)@.len() ==> #[trigger] final(dst)@[k] == if bytes.len() > old(dst)@.len()
                    && k == old(dst)@.len() - 1 {
                    0i8
                } else if k < bytes.len() {
                    bytes[k] as i8
                } else {
                    old(dst)@[k]
                }
        }),
{
    let s = src.as_bytes();
    let mut has_nul = false;
    let mut i: usize = 0;
    while i < s.len()
        invariant
            i <= s@.len(),
            has_nul == exists|k: int| 0 <= k < i && s@[k] == 0u8,
        decreases s@.len() - i,
    {
        if s[i] == 0 {
            has_nul = true;
        }
        i = i + 1;
    }
    let ghost bytes = c_string_bytes(s@);
    proof {
        if has_nul {
            let k = choose|k: int| 0 <= k < s@.len() && s@[k] == 0u8;
            assert(s@.contains(0u8));
        } else {
            assert(!s@.contains(0u8));
        }
    }
    let mut k: usize = 0;
    while ((has_nul && k < 1) || (!has_nul && k <= s.len())) && k < dst.len()
        invariant
            bytes == c_string_bytes(s@),
            has_nul ==> bytes == seq![0u8],
            !has_nul ==> bytes == s@.push(0u8),
            k <= bytes.len(),
            k <= old(dst)@.len(),
            dst@.len() == old(dst)@.len(),
            forall|j: int| 0 <= j < k ==> dst@[j] == bytes[j] as i8,
            forall|j: int| k <= j < dst@.len() ==> dst@[j] == old(dst)@[j],
        decreases bytes.len() - k,
    {
        let byte: u8 = if has_nul || k == s.len() {
            0
        } else {
            s[k]
        };
        dst[k] = byte as i8;
        k = k + 1;
    }
    let truncated = if has_nul {
        dst.len() < 1
    } else {
        s.len() >= dst.len()
    };
    if truncated {
        if dst.len() > 0 {
            let last = dst.len() - 1;
            dst[last] = 0;
        }
    }
}

} // verus!
