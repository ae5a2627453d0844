//! The protocol-buffer wire format: varints, keys and the four field encodings
//! that the mesh messages use, read into a flat list of fields.
use vstd::prelude::*;

verus! {

/// A field value as it stands on the wire.
#[derive(Clone, Copy, PartialEq, Eq, Debug)]
pub enum Wire {
    Varint(u64),
    Fixed64(u64),
    /// A length-delimited value: its bytes are `start..end` of the buffer it was read from.
    Len(usize, usize),
    Fixed32(u32),
}

/// One field of a message: its number and its value.
#[derive(Clone, Copy, PartialEq, Eq, Debug)]
pub struct Field {
    pub number: u32,
    pub wire: Wire,
}

pub open spec fn pow128(n: nat) -> nat
    decreases n,
{
    if n == 0 {
        1
    } else {
        128 * pow128((n - 1) as nat)
    }
}

/// The number that a varint's bytes stand for: seven bits per byte, least
/// significant group first.
pub open spec fn varint_value(b: Seq<u8>) -> nat
    decreases b.len(),
{
    if b.len() == 0 {
        0
    } else {
        varint_value(b.drop_last()) + (b.last() % 128) as nat * pow128((b.len() - 1) as nat)
    }
}

/// Where the varint that starts at `pos` ends (exclusive), looking from its
/// `k`th byte on. A varint has at most ten bytes, its last byte has the high bit
/// clear, and a tenth byte may only be 0 or 1 (the value must fit in 64 bits).
pub open spec fn varint_end(buf: Seq<u8>, pos: int, k: nat) -> Option<int>
    decreases 10 - k,
{
    if k >= 10 || pos < 0 || pos + k >= buf.len() {
        None
    } else if buf[pos + k] < 128 {
        if k == 9 && buf[pos + k] > 1 {
            None
        } else {
            Some(pos + k + 1)
        }
    } else {
        varint_end(buf, pos, k + 1)
    }
}

/// The varint at `pos` and the position after it.
pub open spec fn spec_varint(buf: Seq<u8>, pos: int) -> Option<(u64, int)> {
    match varint_end(buf, pos, 0) {
        Some(end) => Some((varint_value(buf.subrange(pos, end)) as u64, end)),
        None => None,
    }
}

/// Four bytes at `p`, little-endian.
pub open spec fn le32(b: Seq<u8>, p: int) -> u32 {
    (b[p] as int + 256 * b[p + 1] + 65536 * b[p + 2] + 16777216 * b[p + 3]) as u32
}

/// Eight bytes at `p`, little-endian.
pub open spec fn le64(b: Seq<u8>, p: int) -> u64 {
    (le32(b, p) as int + 4294967296 * le32(b, p + 4)) as u64
}

/// The field that starts at `pos` and the position after it. The key is a
/// varint that holds the field number (at least 1, and the key within 32 bits)
/// and the wire type: 0 varint, 1 eight bytes, 2 length-delimited, 5 four bytes.
/// Group wire types (3, 4) and the unassigned ones are refused.
pub open spec fn spec_field(buf: Seq<u8>, pos: int) -> Option<(Field, int)> {
    match spec_varint(buf, pos) {
        None => None,
        Some((key, p)) => {
            let number = key / 8;
            let wt = key % 8;
            if key > u32::MAX || number == 0 {
                None
            } else if wt == 0 {
                match spec_varint(buf, p) {
                    Some((v, q)) => Some((Field { number: number as u32, wire: Wire::Varint(v) }, q)),
                    None => None,
                }
            } else if wt == 1 {
                if p + 8 <= buf.len() {
                    Some((Field { number: number as u32, wire: Wire::Fixed64(le64(buf, p)) }, p + 8))
                } else {
                    None
                }
            } else if wt == 2 {
                match spec_varint(buf, p) {
                    Some((l, q)) => if q + l <= buf.len() {
                        Some(
                            (
                                Field {
                                    number: number as u32,
                                    wire: Wire::Len(q as usize, (q + l) as usize),
                                },
                                q + l,
                            ),
                        )
                    } else {
                        None
                    },
                    None => None,
                }
            } else if wt == 5 {
                if p + 4 <= buf.len() {
                    Some((Field { number: number as u32, wire: Wire::Fixed32(le32(buf, p)) }, p + 4))
                } else {
                    None
                }
            } else {
                None
            }
        },
    }
}

/// The fields from `pos` to the end of the buffer, in order; `None` when the
/// bytes there are not a sequence of whole fields.
pub open spec fn spec_fields_from(buf: Seq<u8>, pos: int) -> Option<Seq<Field>>
    decreases buf.len() - pos,
{
    if pos < 0 || pos > buf.len() {
        None
    } else if pos == buf.len() {
        Some(Seq::empty())
    } else {
        match spec_field(buf, pos) {
            None => None,
            Some((f, q)) => if q <= pos || q > buf.len() {
                None
            } else {
                match spec_fields_from(buf, q) {
                    Some(rest) => Some(seq![f] + rest),
                    None => None,
                }
            },
        }
    }
}

/// The fields of a whole message.
pub open spec fn spec_fields(buf: Seq<u8>) -> Option<Seq<Field>> {
    spec_fields_from(buf, 0)
}

proof fn lemma_pow128_mono(a: nat, b: nat)
    requires
        a <= b,
    ensures
        pow128(a) <= pow128(b),
    decreases b,
{
    if a < b {
        lemma_pow128_mono(a, (b - 1) as nat);
    }
}

/// Reads the varint at `pos`.
pub fn read_varint(buf: &[u8], pos: usize) -> (r: Option<(u64, usize)>)
    requires
        pos <= buf@.len(),
    ensures
        match r {
            Some((v, e)) => spec_varint(buf@, pos as int) == Some((v, e as int)),
            None => spec_varint(buf@, pos as int) is None,
        },
{
    let mut k: usize = 0;
    let mut value: u64 = 0;
    let mut mult: u64 = 1;
    proof {
        reveal_with_fuel(pow128, 10);
        assert(buf@.subrange(pos as int, pos as int) =~= Seq::<u8>::empty());
    }
    while k < 10
        invariant
            pos <= buf@.len(),
            k <= 9,
            mult == pow128(k as nat),
            value == varint_value(buf@.subrange(pos as int, pos + k)),
            value < pow128(k as nat),
            pos + k <= buf@.len(),
            varint_end(buf@, pos as int, 0) == varint_end(buf@, pos as int, k as nat),
        decreases 10 - k,
    {
        if k >= buf.len() - pos {
            return None;
        }
        let b = buf[pos + k];
        let ghost s = buf@.subrange(pos as int, pos + k + 1);
        proof {
            assert(s.drop_last() =~= buf@.subrange(pos as int, pos + k));
            assert(s.last() == b);
            lemma_pow128_mono(k as nat, 9);
            reveal_with_fuel(pow128, 10);
        }
        if b < 128 {
            if k == 9 && b > 1 {
                return None;
            }
            proof {
                assert(b % 128 == b);
                if k == 9 {
                    assert(value + b * mult < 0x1_0000_0000_0000_0000) by (nonlinear_arith)
                        requires
                            value < mult,
                            b <= 1,
                            mult == 0x8000_0000_0000_0000,
                    ;
                } else {
                    assert(value + b * mult < 0x1_0000_0000_0000_0000) by (nonlinear_arith)
                        requires
                            value < mult,
                            b <= 127,
                            mult <= 0x100_0000_0000_0000,
                    ;
                }
            }
            let v = value + (b as u64) * mult;
            proof {
                assert(varint_value(s) == v);
                assert(varint_end(buf@, pos as int, k as nat) == Some(pos + k + 1));
                assert(s == buf@.subrange(pos as int, pos + k + 1));
                assert(spec_varint(buf@, pos as int) == Some((v, pos + k + 1)));
            }
            return Some((v, pos + k + 1));
        }
        if k == 9 {
            return None;
        }
        proof {
            assert(b % 128 == b - 128);
            assert(value + (b - 128) * mult < 128 * mult) by (nonlinear_arith)
                requires
                    value < mult,
                    b - 128 <= 127,
            ;
            assert(mult <= 0x100_0000_0000_0000);
        }
        value = value + ((b - 128) as u64) * mult;
        mult = mult * 128;
        k = k + 1;
    }
    None
}

/// Reads four little-endian bytes at `p`.
pub fn read_le32(buf: &[u8], p: usize) -> (r: u32)
    requires
        p + 4 <= buf@.len(),
    ensures
        r == le32(buf@, p as int),
{
    (buf[p] as u32) + (buf[p + 1] as u32) * 256 + (buf[p + 2] as u32) * 65536 + (buf[p + 3] as u32)
        * 16777216
}

/// Reads eight little-endian bytes at `p`.
pub fn read_le64(buf: &[u8], p: usize) -> (r: u64)
    requires
        p + 8 <= buf@.len(),
    ensures
        r == le64(buf@, p as int),
{
    let n = buf.len();
    let lo = read_le32(buf, p);
    let hi = read_le32(buf, p + 4);
    (lo as u64) + (hi as u64) * 4294967296
}

/// Reads the field at `pos`.
pub fn read_field(buf: &[u8], pos: usize) -> (r: Option<(Field, usize)>)
    requires
        pos <= buf@.len(),
    ensures
        match r {
            Some((f, e)) => spec_field(buf@, pos as int) == Some((f, e as int)),
            None => spec_field(buf@, pos as int) is None,
        },
{
    proof {
        lemma_varint_end_bounds(buf@, pos as int, 0);
    }
    let (key, p) = match read_varint(buf, pos) {
        Some(x) => x,
        None => return None,
    };
    if key > 0xFFFF_FFFF || key / 8 == 0 {
        return None;
    }
    let number = (key / 8) as u32;
    let wt = key % 8;
    proof {
        lemma_varint_end_bounds(buf@, p as int, 0);
    }
    if wt == 0 {
        match read_varint(buf, p) {
            Some((v, q)) => Some((Field { number, wire: Wire::Varint(v) }, q)),
            None => None,
        }
    } else if wt == 1 {
        if p <= buf.len() && buf.len() - p >= 8 {
            Some((Field { number, wire: Wire::Fixed64(read_le64(buf, p)) }, p + 8))
        } else {
            None
        }
    } else if wt == 2 {
        match read_varint(buf, p) {
            Some((l, q)) => if q <= buf.len() && l <= (buf.len() - q) as u64 {
                let end = q + l as usize;
                Some((Field { number, wire: Wire::Len(q, end) }, end))
            } else {
                None
            },
            None => None,
        }
    } else if wt == 5 {
        if p <= buf.len() && buf.len() - p >= 4 {
            Some((Field { number, wire: Wire::Fixed32(read_le32(buf, p)) }, p + 4))
        } else {
            None
        }
    } else {
        None
    }
}

pub proof fn lemma_varint_end_bounds(buf: Seq<u8>, pos: int, k: nat)
    ensures
        varint_end(buf, pos, k) matches Some(e) ==> pos + k < e <= buf.len(),
    decreases 10 - k,
{
    if !(k >= 10 || pos < 0 || pos + k >= buf.len()) && buf[pos + k] >= 128 {
        lemma_varint_end_bounds(buf, pos, k + 1);
    }
}

proof fn lemma_field_advances(buf: Seq<u8>, pos: int)
    ensures
        spec_field(buf, pos) matches Some((f, q)) ==> pos < q <= buf.len(),
{
    lemma_varint_end_bounds(buf, pos, 0);
    if let Some((key, p)) = spec_varint(buf, pos) {
        lemma_varint_end_bounds(buf, p, 0);
    }
}

/// Splits a message into its fields, in the order they stand.
pub fn parse_fields(buf: &[u8]) -> (r: Option<Vec<Field>>)
    ensures
        match r {
            Some(v) => spec_fields(buf@) == Some(v@),
            None => spec_fields(buf@) is None,
        },
{
    let mut out: Vec<Field> = Vec::new();
    let mut pos: usize = 0;
    while pos < buf.len()
        invariant
            pos <= buf@.len(),
            spec_fields(buf@) == match spec_fields_from(buf@, pos as int) {
                Some(rest) => Some(out@ + rest),
                None => None::<Seq<Field>>,
            },
        decreases buf@.len() - pos,
    {
        proof {
            lemma_field_advances(buf@, pos as int);
        }
        match read_field(buf, pos) {
            Some((f, q)) => {
                proof {
                    let old_out = out@;
                    match spec_fields_from(buf@, q as int) {
                        Some(rest) => {
                            assert(old_out + (seq![f] + rest) =~= old_out.push(f) + rest);
                        },
                        None => {},
                    }
                }
                out.push(f);
                pos = q;
            },
            None => {
                return None;
            },
        }
    }
    proof {
        assert(out@ + Seq::<Field>::empty() =~= out@);
    }
    Some(out)
}

} // verus!
