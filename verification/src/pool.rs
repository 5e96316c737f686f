//! The string-pool chunk both compiled formats carry: a 28-byte
//! header, an offset table, then the strings themselves, encoded in
//! UTF-8 or UTF-16 with high-bit-extended lengths. The pool is
//! decoded sequentially, string after string, and the chunk's size
//! field says where it ends; style data is skipped.

use vstd::prelude::*;
use vstd::utf8::{decode_utf8, valid_utf8};

use crate::strutil::string_from_utf8;

verus! {

/// The 16-bit little-endian value at `i`.
pub open spec fn le16(b: Seq<u8>, i: int) -> int {
    b[i] + b[i + 1] * 0x100
}

/// The 32-bit little-endian value at `i`.
pub open spec fn le32(b: Seq<u8>, i: int) -> int {
    b[i] + b[i + 1] * 0x100 + b[i + 2] * 0x10000 + b[i + 3] * 0x1000000
}

pub fn read_le16(b: &[u8], i: usize) -> (r: u16)
    requires
        i + 2 <= b@.len(),
    ensures
        r as int == le16(b@, i as int),
{
    (b[i] as u16) + (b[i + 1] as u16) * 0x100
}

pub fn read_le32(b: &[u8], i: usize) -> (r: u32)
    requires
        i + 4 <= b@.len(),
    ensures
        r as int == le32(b@, i as int),
{
    (b[i] as u32) + (b[i + 1] as u32) * 0x100 + (b[i + 2] as u32) * 0x10000 + (b[i + 3] as u32)
        * 0x1000000
}

/// Whether the 16-bit units decode as UTF-16: every high surrogate is
/// followed by a low one, and no low surrogate stands alone.
pub open spec fn valid_utf16(units: Seq<u16>) -> bool
    decreases units.len(),
{
    if units.len() == 0 {
        true
    } else {
        let u = units[0] as int;
        if u < 0xD800 || u >= 0xE000 {
            valid_utf16(units.drop_first())
        } else if u < 0xDC00 {
            if units.len() >= 2 {
                let v = units[1] as int;
                if 0xDC00 <= v && v < 0xE000 {
                    valid_utf16(units.skip(2))
                } else {
                    false
                }
            } else {
                false
            }
        } else {
            false
        }
    }
}

/// The characters the units decode to, surrogate pairs combined.
pub open spec fn decode_utf16(units: Seq<u16>) -> Seq<char>
    decreases units.len(),
{
    if units.len() == 0 {
        Seq::empty()
    } else {
        let u = units[0] as int;
        if u < 0xD800 || u >= 0xE000 {
            seq![(units[0] as u32) as char] + decode_utf16(units.drop_first())
        } else if u < 0xDC00 && units.len() >= 2 {
            let scalar = 0x10000 + (u - 0xD800) * 0x400 + (units[1] as int - 0xDC00);
            seq![(scalar as u32) as char] + decode_utf16(units.skip(2))
        } else {
            Seq::empty()
        }
    }
}

/// Relies on String::from_utf16: it accepts exactly the sequences
/// without lone surrogates, pairing high and low surrogates into
/// supplementary characters.
#[verifier::external_body]
pub fn string_from_utf16(units: &Vec<u16>) -> (r: Option<String>)
    ensures
        r is Some <==> valid_utf16(units@),
        r matches Some(s) ==> s@ == decode_utf16(units@),
{
    String::from_utf16(units.as_slice()).ok()
}

/// A one- or two-byte length: a set high bit extends the length into
/// the following byte.
pub open spec fn spec_len8(b: Seq<u8>, off: int) -> Option<(int, int)> {
    if !(0 <= off && off + 1 <= b.len()) {
        None
    } else if b[off] >= 0x80 {
        if off + 2 <= b.len() {
            Some((((b[off] - 0x80) * 0x100 + b[off + 1]) as int, off + 2))
        } else {
            None
        }
    } else {
        Some((b[off] as int, off + 1))
    }
}

/// A two- or four-byte length: a value beyond 0x7FFF extends into the
/// following 16-bit unit.
pub open spec fn spec_len16(b: Seq<u8>, off: int) -> Option<(int, int)> {
    if !(0 <= off && off + 2 <= b.len()) {
        None
    } else {
        let v = le16(b, off);
        if v > 0x7FFF {
            if off + 4 <= b.len() {
                Some(((v - 0x8000) * 0x100 + le16(b, off + 2), off + 4))
            } else {
                None
            }
        } else {
            Some((v, off + 2))
        }
    }
}

/// The bytes of a UTF-8 pool string: up to `n` bytes, ended early by
/// a zero byte.
pub open spec fn bytes_until_zero(b: Seq<u8>, off: int, n: int) -> Seq<u8>
    decreases n,
{
    if n <= 0 {
        Seq::empty()
    } else if b[off] == 0 {
        Seq::empty()
    } else {
        seq![b[off]] + bytes_until_zero(b, off + 1, n - 1)
    }
}

/// One UTF-8 pool string: a character count, a byte count, the bytes,
/// and a terminator.
pub open spec fn spec_utf8_item(b: Seq<u8>, off: int) -> Option<(Seq<char>, int)> {
    match spec_len8(b, off) {
        None => None,
        Some(l1) => match spec_len8(b, l1.1) {
            None => None,
            Some(l2) => if l2.1 + l2.0 + 1 <= b.len() {
                let raw = bytes_until_zero(b, l2.1, l2.0);
                if valid_utf8(raw) {
                    Some((decode_utf8(raw), l2.1 + l2.0 + 1))
                } else {
                    None
                }
            } else {
                None
            },
        },
    }
}

/// The 16-bit units at `off`.
pub open spec fn units_at(b: Seq<u8>, off: int, n: int) -> Seq<u16> {
    Seq::new(n as nat, |k: int| le16(b, off + 2 * k) as u16)
}

/// One UTF-16 pool string: a character count, the units, and a
/// terminator unit.
pub open spec fn spec_utf16_item(b: Seq<u8>, off: int) -> Option<(Seq<char>, int)> {
    match spec_len16(b, off) {
        None => None,
        Some(l) => if l.1 + 2 * l.0 + 2 <= b.len() {
            let units = units_at(b, l.1, l.0);
            if valid_utf16(units) {
                Some((decode_utf16(units), l.1 + 2 * l.0 + 2))
            } else {
                None
            }
        } else {
            None
        },
    }
}

/// `n` pool strings, decoded back to back from `off`.
pub open spec fn spec_pool_items(b: Seq<u8>, off: int, n: nat, utf8_mode: bool) -> Option<
    (Seq<Seq<char>>, int),
>
    decreases n,
{
    if n == 0 {
        Some((Seq::empty(), off))
    } else {
        let item = if utf8_mode {
            spec_utf8_item(b, off)
        } else {
            spec_utf16_item(b, off)
        };
        match item {
            None => None,
            Some(it) => match spec_pool_items(b, it.1, (n - 1) as nat, utf8_mode) {
                None => None,
                Some(rest) => Some((seq![it.0] + rest.0, rest.1)),
            },
        }
    }
}

/// A decoded pool: its strings and the offset just past its chunk.
pub struct PoolV {
    pub strings: Seq<Seq<char>>,
    pub end: int,
}

/// The pool chunk at `base`: its header fields must be coherent, its
/// strings must decode, and everything must stay inside the chunk.
pub open spec fn spec_pool(b: Seq<u8>, base: int) -> Option<PoolV> {
    if !(0 <= base && base + 28 <= b.len()) {
        None
    } else {
        let size = le32(b, base + 4);
        let count = le32(b, base + 8);
        let style_count = le32(b, base + 12);
        let flags = le32(b, base + 16) as u32;
        let string_offset = le32(b, base + 20);
        if le16(b, base) != 0x0001 {
            None
        } else if base + size > b.len() {
            None
        } else if 28 + 4 * count + 4 * style_count > size {
            None
        } else if string_offset != 28 + 4 * count + 4 * style_count {
            None
        } else {
            match spec_pool_items(b, base + string_offset, count as nat, flags & 0x100 != 0) {
                None => None,
                Some(items) => if items.1 <= base + size {
                    Some(PoolV { strings: items.0, end: base + size })
                } else {
                    None
                },
            }
        }
    }
}

/// The value sequence of decoded pool strings.
pub open spec fn strings_view(v: Seq<String>) -> Seq<Seq<char>> {
    v.map_values(|s: String| s@)
}

/// The bytes of a UTF-8 pool string are the scanned prefix.
proof fn lemma_bytes_until_zero(b: Seq<u8>, off: int, n: int, j: int)
    requires
        0 <= off,
        0 <= j <= n,
        off + n <= b.len(),
        forall|k: int| 0 <= k < j ==> #[trigger] b[off + k] != 0,
        j < n ==> b[off + j] == 0,
    ensures
        bytes_until_zero(b, off, n) =~= b.subrange(off, off + j),
    decreases j,
{
    if n > 0 && b[off] != 0 {
        assert(j >= 1);
        assert forall|k: int| 0 <= k < j - 1 implies #[trigger] b[off + 1 + k] != 0 by {
            assert(b[off + (k + 1)] != 0);
        }
        lemma_bytes_until_zero(b, off + 1, n - 1, j - 1);
        assert(seq![b[off]] + b.subrange(off + 1, off + j) =~= b.subrange(off, off + j));
    } else {
        if n > 0 && j > 0 {
            assert(b[off + 0] != 0);
        }
        assert(j == 0);
        assert(b.subrange(off, off + j) =~= Seq::empty());
    }
}

/// Decode one UTF-8 pool string.
#[verifier::loop_isolation(false)]
fn parse_utf8_item(b: &[u8], off: usize) -> (r: Option<(String, usize)>)
    ensures
        match r {
            Some(p) => spec_utf8_item(b@, off as int) == Some((p.0@, p.1 as int)),
            None => spec_utf8_item(b@, off as int) is None,
        },
{
    let len = b.len();
    if off >= len {
        return None;
    }
    // offsets stay inside the slice from here on
    // the character count is read and ignored
    let (_cc, off1) = if b[off] >= 0x80 {
        if len - off < 2 {
            return None;
        }
        ((((b[off] - 0x80) as usize) * 0x100 + b[off + 1] as usize), off + 2)
    } else {
        (b[off] as usize, off + 1)
    };
    if off1 >= len {
        return None;
    }
    let (bc, off2) = if b[off1] >= 0x80 {
        if len - off1 < 2 {
            return None;
        }
        ((((b[off1] - 0x80) as usize) * 0x100 + b[off1 + 1] as usize), off1 + 2)
    } else {
        (b[off1] as usize, off1 + 1)
    };
    if len - off2 < 1 || bc > len - off2 - 1 {
        return None;
    }
    let mut raw: Vec<u8> = Vec::new();
    let mut j: usize = 0;
    while j < bc && b[off2 + j] != 0
        invariant
            off2 + bc + 1 <= b@.len(),
            0 <= j <= bc,
            raw@ == b@.subrange(off2 as int, off2 + j),
            forall|k: int| 0 <= k < j ==> #[trigger] b@[off2 + k] != 0,
        decreases bc - j,
    {
        let ghost prev = raw@;
        raw.push(b[off2 + j]);
        proof {
            assert(raw@ =~= b@.subrange(off2 as int, off2 + j + 1));
        }
        j += 1;
    }
    proof {
        lemma_bytes_until_zero(b@, off2 as int, bc as int, j as int);
    }
    match string_from_utf8(raw) {
        Some(s) => Some((s, off2 + bc + 1)),
        None => None,
    }
}

/// Decode one UTF-16 pool string.
#[verifier::loop_isolation(false)]
fn parse_utf16_item(b: &[u8], off: usize) -> (r: Option<(String, usize)>)
    ensures
        match r {
            Some(p) => spec_utf16_item(b@, off as int) == Some((p.0@, p.1 as int)),
            None => spec_utf16_item(b@, off as int) is None,
        },
{
    let len = b.len();
    if off >= len || len - off < 2 {
        return None;
    }
    let v = read_le16(b, off) as usize;
    let (cc, off1) = if v > 0x7FFF {
        if len - off < 4 {
            return None;
        }
        ((v - 0x8000) * 0x100 + read_le16(b, off + 2) as usize, off + 4)
    } else {
        (v, off + 2)
    };
    if len - off1 < 2 || 2 * cc > len - off1 - 2 {
        return None;
    }
    let mut units: Vec<u16> = Vec::new();
    let mut k: usize = 0;
    while k < cc
        invariant
            off1 + 2 * cc + 2 <= b@.len(),
            0 <= k <= cc,
            units@.len() == k,
            forall|i: int| 0 <= i < k ==> #[trigger] units@[i] == units_at(
                b@,
                off1 as int,
                cc as int,
            )[i],
        decreases cc - k,
    {
        let u = read_le16(b, off1 + 2 * k);
        units.push(u);
        k += 1;
    }
    proof {
        assert(units@ =~= units_at(b@, off1 as int, cc as int));
    }
    match string_from_utf16(&units) {
        Some(s) => Some((s, off1 + 2 * cc + 2)),
        None => None,
    }
}

/// Decode the pool chunk at `base`: its strings and the offset just
/// past it.
#[verifier::loop_isolation(false)]
pub fn parse_pool(b: &[u8], base: usize) -> (r: Option<(Vec<String>, usize)>)
    ensures
        match r {
            Some(p) => spec_pool(b@, base as int) == Some(
                PoolV { strings: strings_view(p.0@), end: p.1 as int },
            ),
            None => spec_pool(b@, base as int) is None,
        },
{
    let len = b.len();
    if base > len || len - base < 28 {
        return None;
    }
    let ctype = read_le16(b, base);
    let size = read_le32(b, base + 4) as usize;
    let count = read_le32(b, base + 8);
    let style_count = read_le32(b, base + 12);
    let flags = read_le32(b, base + 16);
    let string_offset = read_le32(b, base + 20);
    if ctype != 0x0001 {
        return None;
    }
    if size > len - base {
        return None;
    }
    let header_span: u64 = 28u64 + 4u64 * (count as u64) + 4u64 * (style_count as u64);
    if header_span > size as u64 {
        return None;
    }
    if string_offset as u64 != header_span {
        return None;
    }
    let utf8_mode = flags & 0x100 != 0;
    let count_us = count as usize;
    let mut cur: usize = base + string_offset as usize;
    let mut out: Vec<String> = Vec::new();
    let mut n: usize = 0;
    let ghost start = cur as int;
    proof {
        assert(spec_pool_items(b@, start, count_us as nat, utf8_mode) == (
        match spec_pool_items(b@, cur as int, (count_us - n) as nat, utf8_mode) {
            None => None::<(Seq<Seq<char>>, int)>,
            Some(rest) => Some((strings_view(out@) + rest.0, rest.1)),
        })) by {
            if spec_pool_items(b@, start, count_us as nat, utf8_mode) is Some {
                let full = spec_pool_items(b@, start, count_us as nat, utf8_mode)->Some_0;
                assert(strings_view(out@) + full.0 =~= full.0);
            }
        }
    }
    while n < count_us
        invariant
            0 <= n <= count_us,
            spec_pool_items(b@, start, count_us as nat, utf8_mode) == (
            match spec_pool_items(b@, cur as int, (count_us - n) as nat, utf8_mode) {
                None => None::<(Seq<Seq<char>>, int)>,
                Some(rest) => Some((strings_view(out@) + rest.0, rest.1)),
            }),
        decreases count_us - n,
    {
        let item = if utf8_mode {
            parse_utf8_item(b, cur)
        } else {
            parse_utf16_item(b, cur)
        };
        match item {
            None => {
                return None;
            },
            Some(p) => {
                let ghost prev_out = out@;
                let ghost prev_cur = cur as int;
                let next = p.1;
                out.push(p.0);
                cur = next;
                n += 1;
                proof {
                    assert(strings_view(out@) =~= strings_view(prev_out).push(
                        out@[out@.len() - 1]@,
                    ));
                    if spec_pool_items(b@, cur as int, (count_us - n) as nat, utf8_mode)
                        is Some {
                        let rest = spec_pool_items(
                            b@,
                            cur as int,
                            (count_us - n) as nat,
                            utf8_mode,
                        )->Some_0;
                        assert(strings_view(prev_out) + (seq![out@[out@.len() - 1]@] + rest.0)
                            =~= strings_view(out@) + rest.0);
                    }
                }
            },
        }
    }
    proof {
        assert(spec_pool_items(b@, cur as int, 0nat, utf8_mode) == Some(
            (Seq::<Seq<char>>::empty(), cur as int),
        ));
        assert(strings_view(out@) + Seq::<Seq<char>>::empty() =~= strings_view(out@));
    }
    if cur > base + size {
        return None;
    }
    Some((out, base + size))
}

} // verus!
