//! Reading typed values out of a message's field list: which wire encoding each
//! field number must have, and the value a field takes when it occurs more than
//! once (the last occurrence of a scalar, the concatenation of an embedded
//! message's parts).
use crate::wire::{
    le32, lemma_varint_end_bounds, read_le32, spec_field, spec_fields, spec_fields_from, spec_varint,
    Field, Wire,
};
use vstd::prelude::*;

verus! {

/// A field number that the message does not read; any encoding is accepted.
pub const KIND_ANY: u8 = 0;
pub const KIND_VARINT: u8 = 1;
pub const KIND_FIXED64: u8 = 2;
pub const KIND_LEN: u8 = 3;
pub const KIND_FIXED32: u8 = 4;
/// A repeated four-byte field: packed into one length-delimited value, or one per field.
pub const KIND_PACKED_FIXED32: u8 = 5;

pub open spec fn kind_accepts(kind: u8, w: Wire) -> bool {
    ||| kind == KIND_ANY
    ||| kind == KIND_VARINT && w is Varint
    ||| kind == KIND_FIXED64 && w is Fixed64
    ||| kind == KIND_LEN && w is Len
    ||| kind == KIND_FIXED32 && w is Fixed32
    ||| kind == KIND_PACKED_FIXED32 && (w is Len || w is Fixed32)
}

/// Every field whose number the schema lists has the encoding listed for it.
pub open spec fn conforms(fs: Seq<Field>, schema: Seq<u8>) -> bool {
    forall|i: int|
        0 <= i < fs.len() && #[trigger] fs[i].number < schema.len() ==> kind_accepts(
            schema[fs[i].number as int],
            fs[i].wire,
        )
}

/// Every length-delimited field lies inside a buffer of `len` bytes.
pub open spec fn ranges_within(fs: Seq<Field>, len: int) -> bool {
    forall|i: int|
        0 <= i < fs.len() ==> (#[trigger] fs[i].wire matches Wire::Len(a, b) ==> a <= b <= len)
}

/// The value of the last varint field numbered `n`.
pub open spec fn last_varint(fs: Seq<Field>, n: u32) -> Option<u64>
    decreases fs.len(),
{
    if fs.len() == 0 {
        None
    } else if fs.last().number == n && fs.last().wire is Varint {
        Some(fs.last().wire->Varint_0)
    } else {
        last_varint(fs.drop_last(), n)
    }
}

/// The value of the last four-byte field numbered `n`.
pub open spec fn last_fixed32(fs: Seq<Field>, n: u32) -> Option<u32>
    decreases fs.len(),
{
    if fs.len() == 0 {
        None
    } else if fs.last().number == n && fs.last().wire is Fixed32 {
        Some(fs.last().wire->Fixed32_0)
    } else {
        last_fixed32(fs.drop_last(), n)
    }
}

/// The bytes of the last length-delimited field numbered `n`.
pub open spec fn last_bytes(buf: Seq<u8>, fs: Seq<Field>, n: u32) -> Option<Seq<u8>>
    decreases fs.len(),
{
    if fs.len() == 0 {
        None
    } else if fs.last().number == n && fs.last().wire is Len {
        Some(buf.subrange(fs.last().wire->Len_0 as int, fs.last().wire->Len_1 as int))
    } else {
        last_bytes(buf, fs.drop_last(), n)
    }
}

/// The bytes of all length-delimited fields numbered `n` at index `start` or
/// later, joined in order: an embedded message sent in parts is the merge of
/// its parts.
pub open spec fn joined_bytes(buf: Seq<u8>, fs: Seq<Field>, n: u32, start: int) -> Seq<u8>
    decreases fs.len(),
{
    if fs.len() == 0 {
        Seq::empty()
    } else {
        let prev = joined_bytes(buf, fs.drop_last(), n, start);
        if fs.len() - 1 >= start && fs.last().number == n && fs.last().wire is Len {
            prev + buf.subrange(fs.last().wire->Len_0 as int, fs.last().wire->Len_1 as int)
        } else {
            prev
        }
    }
}

/// For a one-of group whose members are numbered `lo..=hi`: the member that
/// occurred last (0 if none did) and the index after the last occurrence of a
/// different member, from which the chosen member's parts are merged.
pub open spec fn oneof_choice(fs: Seq<Field>, lo: u32, hi: u32) -> (u32, int)
    decreases fs.len(),
{
    if fs.len() == 0 {
        (0, 0)
    } else {
        let (m, s) = oneof_choice(fs.drop_last(), lo, hi);
        let f = fs.last();
        if lo <= f.number <= hi && f.number != m {
            (f.number, fs.len() - 1)
        } else {
            (m, s)
        }
    }
}

/// The chosen member is one of the group, or 0.
pub proof fn lemma_oneof_range(fs: Seq<Field>, lo: u32, hi: u32)
    ensures
        oneof_choice(fs, lo, hi).0 == 0 || lo <= oneof_choice(fs, lo, hi).0 <= hi,
    decreases fs.len(),
{
    if fs.len() > 0 {
        lemma_oneof_range(fs.drop_last(), lo, hi);
    }
}

/// The byte ranges of the length-delimited fields numbered `n`, in order: the
/// elements of a repeated embedded message.
pub open spec fn len_ranges(fs: Seq<Field>, n: u32) -> Seq<(usize, usize)>
    decreases fs.len(),
{
    if fs.len() == 0 {
        Seq::empty()
    } else if fs.last().number == n && fs.last().wire is Len {
        len_ranges(fs.drop_last(), n).push((fs.last().wire->Len_0, fs.last().wire->Len_1))
    } else {
        len_ranges(fs.drop_last(), n)
    }
}

/// Four-byte little-endian values packed back to back; `None` when the length
/// is not a multiple of four.
pub open spec fn packed_fixed32(b: Seq<u8>) -> Option<Seq<u32>>
    decreases b.len(),
{
    if b.len() == 0 {
        Some(Seq::empty())
    } else if b.len() < 4 {
        None
    } else {
        match packed_fixed32(b.subrange(4, b.len() as int)) {
            Some(rest) => Some(seq![le32(b, 0)] + rest),
            None => None,
        }
    }
}

/// The elements of a repeated four-byte field numbered `n`, packed or not.
pub open spec fn repeated_fixed32(buf: Seq<u8>, fs: Seq<Field>, n: u32) -> Option<Seq<u32>>
    decreases fs.len(),
{
    if fs.len() == 0 {
        Some(Seq::empty())
    } else {
        match repeated_fixed32(buf, fs.drop_last(), n) {
            None => None,
            Some(prev) => {
                let f = fs.last();
                if f.number != n {
                    Some(prev)
                } else {
                    match f.wire {
                        Wire::Fixed32(v) => Some(prev.push(v)),
                        Wire::Len(a, b) => match packed_fixed32(buf.subrange(a as int, b as int)) {
                            Some(vs) => Some(prev + vs),
                            None => None,
                        },
                        _ => Some(prev),
                    }
                }
            },
        }
    }
}

proof fn lemma_fields_from_within(buf: Seq<u8>, pos: int)
    requires
        buf.len() <= usize::MAX,
    ensures
        spec_fields_from(buf, pos) matches Some(fs) ==> ranges_within(fs, buf.len() as int),
    decreases buf.len() - pos,
{
    if 0 <= pos < buf.len() {
        if let Some((f, q)) = spec_field(buf, pos) {
            if pos < q <= buf.len() {
                lemma_fields_from_within(buf, q);
                if let Some(rest) = spec_fields_from(buf, q) {
                    let fs = seq![f] + rest;
                    assert forall|i: int| 0 <= i < fs.len() implies (#[trigger] fs[i].wire matches Wire::Len(
                        a,
                        b,
                    ) ==> a <= b <= buf.len()) by {
                        if i > 0 {
                            assert(fs[i] == rest[i - 1]);
                        } else {
                            lemma_varint_end_bounds(buf, pos, 0);
                            if let Some((key, p)) = spec_varint(buf, pos) {
                                lemma_varint_end_bounds(buf, p, 0);
                            }
                        }
                    }
                }
            }
        }
    }
}

/// The length-delimited fields of a parsed message lie inside it.
pub proof fn lemma_fields_within(buf: Seq<u8>)
    requires
        buf.len() <= usize::MAX,
    ensures
        spec_fields(buf) matches Some(fs) ==> ranges_within(fs, buf.len() as int),
{
    lemma_fields_from_within(buf, 0);
}

/// Checks every field against the schema.
pub fn fields_conform(fs: &Vec<Field>, schema: &[u8]) -> (r: bool)
    ensures
        r == conforms(fs@, schema@),
{
    let mut i: usize = 0;
    while i < fs.len()
        invariant
            i <= fs@.len(),
            forall|j: int|
                0 <= j < i && #[trigger] fs@[j].number < schema@.len() ==> kind_accepts(
                    schema@[fs@[j].number as int],
                    fs@[j].wire,
                ),
        decreases fs@.len() - i,
    {
        let f = fs[i];
        if (f.number as usize) < schema.len() {
            let k = schema[f.number as usize];
            let ok = match f.wire {
                Wire::Varint(_) => k == KIND_ANY || k == KIND_VARINT,
                Wire::Fixed64(_) => k == KIND_ANY || k == KIND_FIXED64,
                Wire::Len(_, _) => k == KIND_ANY || k == KIND_LEN || k == KIND_PACKED_FIXED32,
                Wire::Fixed32(_) => k == KIND_ANY || k == KIND_FIXED32 || k == KIND_PACKED_FIXED32
                   ,
            };
            if !ok {
                return false;
            }
        }
        i = i + 1;
    }
    true
}

/// The last varint field numbered `n`.
pub fn get_varint(fs: &Vec<Field>, n: u32) -> (r: Option<u64>)
    ensures
        r == last_varint(fs@, n),
{
    let mut r: Option<u64> = None;
    let mut i: usize = 0;
    while i < fs.len()
        invariant
            i <= fs@.len(),
            r == last_varint(fs@.subrange(0, i as int), n),
        decreases fs@.len() - i,
    {
        proof {
            assert(fs@.subrange(0, i + 1).drop_last() =~= fs@.subrange(0, i as int));
        }
        if fs[i].number == n {
            if let Wire::Varint(v) = fs[i].wire {
                r = Some(v);
            }
        }
        i = i + 1;
    }
    proof {
        assert(fs@.subrange(0, i as int) =~= fs@);
    }
    r
}

/// The last four-byte field numbered `n`.
pub fn get_fixed32(fs: &Vec<Field>, n: u32) -> (r: Option<u32>)
    ensures
        r == last_fixed32(fs@, n),
{
    let mut r: Option<u32> = None;
    let mut i: usize = 0;
    while i < fs.len()
        invariant
            i <= fs@.len(),
            r == last_fixed32(fs@.subrange(0, i as int), n),
        decreases fs@.len() - i,
    {
        proof {
            assert(fs@.subrange(0, i + 1).drop_last() =~= fs@.subrange(0, i as int));
        }
        if fs[i].number == n {
            if let Wire::Fixed32(v) = fs[i].wire {
                r = Some(v);
            }
        }
        i = i + 1;
    }
    proof {
        assert(fs@.subrange(0, i as int) =~= fs@);
    }
    r
}

/// Appends `buf[a..b]` to `out`.
fn append_range(out: &mut Vec<u8>, buf: &[u8], a: usize, b: usize)
    requires
        a <= b <= buf@.len(),
    ensures
        final(out)@ == old(out)@ + buf@.subrange(a as int, b as int),
{
    let mut i: usize = a;
    while i < b
        invariant
            a <= i <= b <= buf@.len(),
            out@ == old(out)@ + buf@.subrange(a as int, i as int),
        decreases b - i,
    {
        proof {
            assert(buf@.subrange(a as int, i + 1) =~= buf@.subrange(a as int, i as int).push(
                buf@[i as int],
            ));
        }
        out.push(buf[i]);
        i = i + 1;
    }
}

/// The bytes of the last length-delimited field numbered `n`.
pub fn get_bytes(buf: &[u8], fs: &Vec<Field>, n: u32) -> (r: Option<Vec<u8>>)
    requires
        ranges_within(fs@, buf@.len() as int),
    ensures
        match r {
            Some(v) => last_bytes(buf@, fs@, n) == Some(v@),
            None => last_bytes(buf@, fs@, n) is None,
        },
{
    let mut found: Option<(usize, usize)> = None;
    let mut i: usize = 0;
    while i < fs.len()
        invariant
            i <= fs@.len(),
            ranges_within(fs@, buf@.len() as int),
            match found {
                Some((a, b)) => a <= b <= buf@.len() && last_bytes(buf@, fs@.subrange(0, i as int), n)
                    == Some(buf@.subrange(a as int, b as int)),
                None => last_bytes(buf@, fs@.subrange(0, i as int), n) is None,
            },
        decreases fs@.len() - i,
    {
        proof {
            assert(fs@.subrange(0, i + 1).drop_last() =~= fs@.subrange(0, i as int));
        }
        if fs[i].number == n {
            if let Wire::Len(a, b) = fs[i].wire {
                found = Some((a, b));
            }
        }
        i = i + 1;
    }
    proof {
        assert(fs@.subrange(0, i as int) =~= fs@);
    }
    match found {
        Some((a, b)) => {
            let mut v: Vec<u8> = Vec::new();
            append_range(&mut v, buf, a, b);
            Some(v)
        },
        None => None,
    }
}

/// The parts of the embedded message numbered `n` from index `start` on, joined.
pub fn get_joined(buf: &[u8], fs: &Vec<Field>, n: u32, start: usize) -> (r: Vec<u8>)
    requires
        ranges_within(fs@, buf@.len() as int),
    ensures
        r@ == joined_bytes(buf@, fs@, n, start as int),
{
    let mut out: Vec<u8> = Vec::new();
    let mut i: usize = 0;
    while i < fs.len()
        invariant
            i <= fs@.len(),
            ranges_within(fs@, buf@.len() as int),
            out@ == joined_bytes(buf@, fs@.subrange(0, i as int), n, start as int),
        decreases fs@.len() - i,
    {
        proof {
            assert(fs@.subrange(0, i + 1).drop_last() =~= fs@.subrange(0, i as int));
        }
        if i >= start && fs[i].number == n {
            if let Wire::Len(a, b) = fs[i].wire {
                append_range(&mut out, buf, a, b);
            }
        }
        i = i + 1;
    }
    proof {
        assert(fs@.subrange(0, i as int) =~= fs@);
    }
    out
}

/// Which member of the one-of group `lo..=hi` is set, and from which index its
/// parts are merged.
pub fn get_oneof(fs: &Vec<Field>, lo: u32, hi: u32) -> (r: (u32, usize))
    ensures
        oneof_choice(fs@, lo, hi) == (r.0, r.1 as int),
{
    let mut m: u32 = 0;
    let mut s: usize = 0;
    let mut i: usize = 0;
    while i < fs.len()
        invariant
            i <= fs@.len(),
            oneof_choice(fs@.subrange(0, i as int), lo, hi) == (m, s as int),
        decreases fs@.len() - i,
    {
        proof {
            assert(fs@.subrange(0, i + 1).drop_last() =~= fs@.subrange(0, i as int));
        }
        let num = fs[i].number;
        if lo <= num && num <= hi && num != m {
            m = num;
            s = i;
        }
        i = i + 1;
    }
    proof {
        assert(fs@.subrange(0, i as int) =~= fs@);
    }
    (m, s)
}

/// The byte ranges of the repeated embedded message numbered `n`.
pub fn get_ranges(fs: &Vec<Field>, n: u32) -> (r: Vec<(usize, usize)>)
    ensures
        r@ == len_ranges(fs@, n),
{
    let mut out: Vec<(usize, usize)> = Vec::new();
    let mut i: usize = 0;
    while i < fs.len()
        invariant
            i <= fs@.len(),
            out@ == len_ranges(fs@.subrange(0, i as int), n),
        decreases fs@.len() - i,
    {
        proof {
            assert(fs@.subrange(0, i + 1).drop_last() =~= fs@.subrange(0, i as int));
        }
        if fs[i].number == n {
            if let Wire::Len(a, b) = fs[i].wire {
                out.push((a, b));
            }
        }
        i = i + 1;
    }
    proof {
        assert(fs@.subrange(0, i as int) =~= fs@);
    }
    out
}

/// Appends the packed four-byte values of `buf[a..b]` to `out`.
fn append_packed_fixed32(out: &mut Vec<u32>, buf: &[u8], a: usize, b: usize) -> (ok: bool)
    requires
        a <= b <= buf@.len(),
    ensures
        ok == packed_fixed32(buf@.subrange(a as int, b as int)) is Some,
        ok ==> final(out)@ == old(out)@ + packed_fixed32(buf@.subrange(a as int, b as int))->0,
{
    let mut i: usize = a;
    while i < b
        invariant
            a <= i <= b <= buf@.len(),
            packed_fixed32(buf@.subrange(a as int, b as int)) == match packed_fixed32(
                buf@.subrange(i as int, b as int),
            ) {
                Some(rest) => Some(out@.subrange(old(out)@.len() as int, out@.len() as int) + rest),
                None => None::<Seq<u32>>,
            },
            out@.subrange(0, old(out)@.len() as int) == old(out)@,
            out@.len() >= old(out)@.len(),
        decreases b - i,
    {
        let ghost tail = buf@.subrange(i as int, b as int);
        if b - i < 4 {
            return false;
        }
        let v = read_le32(buf, i);
        proof {
            assert(tail.subrange(4, tail.len() as int) =~= buf@.subrange(i + 4, b as int));
            assert(le32(tail, 0) == le32(buf@, i as int));
            let ghost before = out@;
            let ghost after = out@.push(v);
            assert(after.subrange(old(out)@.len() as int, after.len() as int) =~= before.subrange(
                old(out)@.len() as int,
                before.len() as int,
            ).push(v));
            assert(after.subrange(0, old(out)@.len() as int) =~= before.subrange(
                0,
                old(out)@.len() as int,
            ));
            match packed_fixed32(buf@.subrange(i + 4, b as int)) {
                Some(rest) => {
                    assert(before.subrange(old(out)@.len() as int, before.len() as int) + (seq![v]
                        + rest) =~= before.subrange(old(out)@.len() as int, before.len() as int).push(
                        v,
                    ) + rest);
                },
                None => {},
            }
        }
        out.push(v);
        i = i + 4;
    }
    proof {
        assert(buf@.subrange(i as int, b as int) =~= Seq::<u8>::empty());
        assert(out@.subrange(old(out)@.len() as int, out@.len() as int) + Seq::<u32>::empty()
            =~= out@.subrange(old(out)@.len() as int, out@.len() as int));
        assert(old(out)@ + out@.subrange(old(out)@.len() as int, out@.len() as int) =~= out@);
    }
    true
}

/// The elements of the repeated four-byte field numbered `n`.
pub fn get_repeated_fixed32(buf: &[u8], fs: &Vec<Field>, n: u32) -> (r: Option<Vec<u32>>)
    requires
        ranges_within(fs@, buf@.len() as int),
    ensures
        match r {
            Some(v) => repeated_fixed32(buf@, fs@, n) == Some(v@),
            None => repeated_fixed32(buf@, fs@, n) is None,
        },
{
    let mut out: Vec<u32> = Vec::new();
    let mut i: usize = 0;
    while i < fs.len()
        invariant
            i <= fs@.len(),
            ranges_within(fs@, buf@.len() as int),
            repeated_fixed32(buf@, fs@.subrange(0, i as int), n) == Some(out@),
        decreases fs@.len() - i,
    {
        proof {
            assert(fs@.subrange(0, i + 1).drop_last() =~= fs@.subrange(0, i as int));
        }
        if fs[i].number == n {
            match fs[i].wire {
                Wire::Fixed32(v) => {
                    out.push(v);
                },
                Wire::Len(a, b) => {
                    if !append_packed_fixed32(&mut out, buf, a, b) {
                        proof {
                            lemma_repeated_none_stays(buf@, fs@, n, i + 1);
                        }
                        return None;
                    }
                },
                _ => {},
            }
        }
        i = i + 1;
    }
    proof {
        assert(fs@.subrange(0, i as int) =~= fs@);
    }
    Some(out)
}

proof fn lemma_repeated_none_stays(buf: Seq<u8>, fs: Seq<Field>, n: u32, k: int)
    requires
        0 <= k <= fs.len(),
        repeated_fixed32(buf, fs.subrange(0, k), n) is None,
    ensures
        repeated_fixed32(buf, fs, n) is None,
    decreases fs.len() - k,
{
    if k < fs.len() {
        assert(fs.subrange(0, k + 1).drop_last() =~= fs.subrange(0, k));
        lemma_repeated_none_stays(buf, fs, n, k + 1);
    } else {
        assert(fs.subrange(0, k) =~= fs);
    }
}

} // verus!

verus! {

/// A `uint32` (or enum-free unsigned) varint field; 0 when absent.
pub open spec fn varint_u32(fs: Seq<Field>, n: u32) -> u32 {
    match last_varint(fs, n) {
        Some(v) => v as u32,
        None => 0,
    }
}

/// An `int32` or enum varint field; 0 when absent.
pub open spec fn varint_i32(fs: Seq<Field>, n: u32) -> i32 {
    match last_varint(fs, n) {
        Some(v) => v as i32,
        None => 0,
    }
}

/// A `bool` varint field; false when absent.
pub open spec fn varint_bool(fs: Seq<Field>, n: u32) -> bool {
    match last_varint(fs, n) {
        Some(v) => v != 0,
        None => false,
    }
}

/// An optional `uint32` varint field.
pub open spec fn opt_varint_u32(fs: Seq<Field>, n: u32) -> Option<u32> {
    match last_varint(fs, n) {
        Some(v) => Some(v as u32),
        None => None,
    }
}

/// An optional `int32` varint field.
pub open spec fn opt_varint_i32(fs: Seq<Field>, n: u32) -> Option<i32> {
    match last_varint(fs, n) {
        Some(v) => Some(v as i32),
        None => None,
    }
}

/// The zig-zag encoding of a `sint32`: even numbers are the non-negative
/// values, odd numbers the negative ones.
pub open spec fn zigzag32(v: u64) -> i32 {
    let n = v as u32;
    if n % 2 == 0 {
        (n / 2) as i32
    } else {
        (-((n / 2) as int) - 1) as i32
    }
}

/// An optional `sint32` field.
pub open spec fn opt_sint32(fs: Seq<Field>, n: u32) -> Option<i32> {
    match last_varint(fs, n) {
        Some(v) => Some(zigzag32(v)),
        None => None,
    }
}

/// A `fixed32` (or `float`, as its bits) field; 0 when absent.
pub open spec fn fixed_u32(fs: Seq<Field>, n: u32) -> u32 {
    match last_fixed32(fs, n) {
        Some(v) => v,
        None => 0,
    }
}

/// An optional `sfixed32` field.
pub open spec fn opt_sfixed32(fs: Seq<Field>, n: u32) -> Option<i32> {
    match last_fixed32(fs, n) {
        Some(v) => Some(v as i32),
        None => None,
    }
}

/// A `bytes` or `string` field's bytes; empty when absent.
pub open spec fn bytes_or_empty(buf: Seq<u8>, fs: Seq<Field>, n: u32) -> Seq<u8> {
    match last_bytes(buf, fs, n) {
        Some(b) => b,
        None => Seq::empty(),
    }
}

pub fn get_u32(fs: &Vec<Field>, n: u32) -> (r: u32)
    ensures
        r == varint_u32(fs@, n),
{
    match get_varint(fs, n) {
        Some(v) => v as u32,
        None => 0,
    }
}

pub fn get_i32(fs: &Vec<Field>, n: u32) -> (r: i32)
    ensures
        r == varint_i32(fs@, n),
{
    match get_varint(fs, n) {
        Some(v) => v as i32,
        None => 0,
    }
}

pub fn get_bool(fs: &Vec<Field>, n: u32) -> (r: bool)
    ensures
        r == varint_bool(fs@, n),
{
    match get_varint(fs, n) {
        Some(v) => v != 0,
        None => false,
    }
}

pub fn get_opt_u32(fs: &Vec<Field>, n: u32) -> (r: Option<u32>)
    ensures
        r == opt_varint_u32(fs@, n),
{
    match get_varint(fs, n) {
        Some(v) => Some(v as u32),
        None => None,
    }
}

pub fn get_opt_i32(fs: &Vec<Field>, n: u32) -> (r: Option<i32>)
    ensures
        r == opt_varint_i32(fs@, n),
{
    match get_varint(fs, n) {
        Some(v) => Some(v as i32),
        None => None,
    }
}

pub fn get_opt_sint32(fs: &Vec<Field>, n: u32) -> (r: Option<i32>)
    ensures
        r == opt_sint32(fs@, n),
{
    match get_varint(fs, n) {
        Some(v) => {
            let m = v as u32;
            if m % 2 == 0 {
                Some((m / 2) as i32)
            } else {
                Some(-((m / 2) as i32) - 1)
            }
        },
        None => None,
    }
}

pub fn get_fixed_u32(fs: &Vec<Field>, n: u32) -> (r: u32)
    ensures
        r == fixed_u32(fs@, n),
{
    match get_fixed32(fs, n) {
        Some(v) => v,
        None => 0,
    }
}

pub fn get_opt_sfixed32(fs: &Vec<Field>, n: u32) -> (r: Option<i32>)
    ensures
        r == opt_sfixed32(fs@, n),
{
    match get_fixed32(fs, n) {
        Some(v) => Some(v as i32),
        None => None,
    }
}

pub fn get_bytes_or_empty(buf: &[u8], fs: &Vec<Field>, n: u32) -> (r: Vec<u8>)
    requires
        ranges_within(fs@, buf@.len() as int),
    ensures
        r@ == bytes_or_empty(buf@, fs@, n),
{
    match get_bytes(buf, fs, n) {
        Some(v) => v,
        None => Vec::new(),
    }
}

/// The bytes form whole fields, each encoded as the schema lists.
pub open spec fn well_formed(buf: Seq<u8>, schema: Seq<u8>) -> bool {
    spec_fields(buf) matches Some(fs) && conforms(fs, schema)
}

/// The fields of a message that parses.
pub open spec fn fields_of(buf: Seq<u8>) -> Seq<Field> {
    spec_fields(buf)->0
}

/// Splits a message into fields and checks them against its schema.
pub fn message_fields(buf: &[u8], schema: &Vec<u8>) -> (r: Option<Vec<Field>>)
    ensures
        match r {
            Some(fs) => well_formed(buf@, schema@) && fs@ == fields_of(buf@) && ranges_within(
                fs@,
                buf@.len() as int,
            ),
            None => !well_formed(buf@, schema@),
        },
{
    let len = buf.len();
    proof {
        assert(buf@.len() == len);
        lemma_fields_within(buf@);
    }
    match crate::wire::parse_fields(buf) {
        Some(fs) => if fields_conform(&fs, schema.as_slice()) {
            Some(fs)
        } else {
            None
        },
        None => None,
    }
}

} // verus!
