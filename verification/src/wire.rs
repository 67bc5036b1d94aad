//! Generic record framing: the type / ordinal / length header, the payload,
//! and the CRC-16 trailer of one atom record, plus little-endian helpers and
//! the byte model of a sequence of records.

use vstd::prelude::*;
use vstd::bytes::spec_u16_from_le_bytes;
use vstd::bytes::spec_u16_to_le_bytes;
use vstd::bytes::spec_u32_from_le_bytes;
use vstd::bytes::spec_u32_to_le_bytes;
use vstd::bytes::lemma_auto_spec_u16_to_from_le_bytes;
use vstd::bytes::lemma_auto_spec_u32_to_from_le_bytes;
use vstd::bytes::u16_from_le_bytes;
use vstd::bytes::u16_to_le_bytes;
use vstd::bytes::u32_from_le_bytes;
use vstd::bytes::u32_to_le_bytes;
use crate::crc::crc16;
use crate::crc::crc16_spec;

verus! {

/// Reserved type code of the Vendor-Info atom.
pub const ATOM_TYPE_VENDOR_INFO: u16 = 0x0001;

/// Reserved type code of the GPIO-Map atom for bank 0.
pub const ATOM_TYPE_GPIO_MAP_BANK0: u16 = 0x0002;

/// Reserved type code of the Device-Tree-Blob atom.
pub const ATOM_TYPE_DT_BLOB: u16 = 0x0003;

/// Reserved type code of the GPIO-Map atom for bank 1.
pub const ATOM_TYPE_GPIO_MAP_BANK1: u16 = 0x0004;

/// Whether a type code belongs to one of the four standard atoms; every
/// other code denotes a Custom atom.
pub open spec fn is_reserved_type(t: u16) -> bool {
    t == ATOM_TYPE_VENDOR_INFO || t == ATOM_TYPE_GPIO_MAP_BANK0 || t == ATOM_TYPE_DT_BLOB
        || t == ATOM_TYPE_GPIO_MAP_BANK1
}

/// The bytes covered by a record's checksum: type code, ordinal index,
/// data length (payload plus the two checksum bytes), then the payload.
pub open spec fn record_body(t: u16, idx: u16, payload: Seq<u8>) -> Seq<u8> {
    spec_u16_to_le_bytes(t) + spec_u16_to_le_bytes(idx) + spec_u32_to_le_bytes(
        (payload.len() + 2) as u32,
    ) + payload
}

/// A full record on the wire: the record body followed by its CRC-16.
pub open spec fn record_bytes(t: u16, idx: u16, payload: Seq<u8>) -> Seq<u8> {
    record_body(t, idx, payload) + spec_u16_to_le_bytes(crc16_spec(record_body(t, idx, payload)))
}

/// Wire image of a list of (type code, payload) atoms, ordinal indices
/// assigned contiguously starting at `idx`.
pub open spec fn atoms_bytes(atoms: Seq<(u16, Seq<u8>)>, idx: int) -> Seq<u8>
    decreases atoms.len(),
{
    if atoms.len() == 0 {
        Seq::<u8>::empty()
    } else {
        record_bytes(atoms[0].0, idx as u16, atoms[0].1) + atoms_bytes(atoms.skip(1), idx + 1)
    }
}

/// Total wire size of a list of atoms: ten framing bytes plus the payload
/// for each record.
pub open spec fn atoms_size(atoms: Seq<(u16, Seq<u8>)>) -> int
    decreases atoms.len(),
{
    if atoms.len() == 0 {
        0
    } else {
        10 + atoms[0].1.len() + atoms_size(atoms.skip(1))
    }
}

pub proof fn lemma_atoms_size_nonneg(atoms: Seq<(u16, Seq<u8>)>)
    ensures
        atoms_size(atoms) >= 0,
    decreases atoms.len(),
{
    if atoms.len() > 0 {
        lemma_atoms_size_nonneg(atoms.skip(1));
    }
}

/// The length of a record: eight header bytes, the payload, two CRC bytes.
pub proof fn lemma_record_bytes_len(t: u16, idx: u16, payload: Seq<u8>)
    ensures
        record_bytes(t, idx, payload).len() == 10 + payload.len(),
        record_body(t, idx, payload).len() == 8 + payload.len(),
{
    lemma_auto_spec_u16_to_from_le_bytes();
    lemma_auto_spec_u32_to_from_le_bytes();
}

pub proof fn lemma_atoms_bytes_len(atoms: Seq<(u16, Seq<u8>)>, idx: int)
    ensures
        atoms_bytes(atoms, idx).len() == atoms_size(atoms),
    decreases atoms.len(),
{
    if atoms.len() > 0 {
        lemma_record_bytes_len(atoms[0].0, idx as u16, atoms[0].1);
        lemma_atoms_bytes_len(atoms.skip(1), idx + 1);
    }
}

/// Appending one atom appends one record, whose ordinal is the position of
/// the new atom.
pub proof fn lemma_atoms_bytes_push(atoms: Seq<(u16, Seq<u8>)>, idx: int, a: (u16, Seq<u8>))
    ensures
        atoms_bytes(atoms.push(a), idx) == atoms_bytes(atoms, idx) + record_bytes(
            a.0,
            (idx + atoms.len()) as u16,
            a.1,
        ),
    decreases atoms.len(),
{
    if atoms.len() == 0 {
        assert(atoms.push(a).skip(1) =~= Seq::<(u16, Seq<u8>)>::empty());
        assert(atoms.push(a)[0] == a);
        assert(atoms_bytes(atoms.push(a), idx) == record_bytes(a.0, idx as u16, a.1) + atoms_bytes(
            atoms.push(a).skip(1),
            idx + 1,
        ));
        assert(atoms_bytes(Seq::<(u16, Seq<u8>)>::empty(), idx + 1) =~= Seq::<u8>::empty());
        assert(atoms_bytes(atoms, idx) =~= Seq::<u8>::empty());
        assert(atoms_bytes(atoms.push(a), idx) =~= atoms_bytes(atoms, idx) + record_bytes(
            a.0,
            (idx + atoms.len()) as u16,
            a.1,
        ));
    } else {
        let rest = atoms.skip(1);
        assert(atoms.push(a).skip(1) =~= rest.push(a));
        assert(atoms.push(a)[0] == atoms[0]);
        lemma_atoms_bytes_push(rest, idx + 1, a);
        assert(atoms_bytes(atoms.push(a), idx) == record_bytes(atoms[0].0, idx as u16, atoms[0].1)
            + atoms_bytes(rest.push(a), idx + 1));
        assert(atoms_bytes(atoms, idx) == record_bytes(atoms[0].0, idx as u16, atoms[0].1)
            + atoms_bytes(rest, idx + 1));
        assert(idx + 1 + rest.len() == idx + atoms.len());
        assert(atoms_bytes(atoms.push(a), idx) =~= atoms_bytes(atoms, idx) + record_bytes(
            a.0,
            (idx + atoms.len()) as u16,
            a.1,
        ));
    }
}

pub proof fn lemma_atoms_size_push(atoms: Seq<(u16, Seq<u8>)>, a: (u16, Seq<u8>))
    ensures
        atoms_size(atoms.push(a)) == atoms_size(atoms) + 10 + a.1.len(),
    decreases atoms.len(),
{
    if atoms.len() == 0 {
        assert(atoms.push(a).skip(1) =~= Seq::<(u16, Seq<u8>)>::empty());
        assert(atoms.push(a)[0] == a);
        assert(atoms_size(Seq::<(u16, Seq<u8>)>::empty()) == 0);
        assert(atoms_size(atoms.push(a)) == 10 + a.1.len() + atoms_size(atoms.push(a).skip(1)));
    } else {
        let rest = atoms.skip(1);
        assert(atoms.push(a).skip(1) =~= rest.push(a));
        assert(atoms.push(a)[0] == atoms[0]);
        lemma_atoms_size_push(rest, a);
        assert(atoms_size(atoms.push(a)) == 10 + atoms[0].1.len() + atoms_size(rest.push(a)));
        assert(atoms_size(atoms) == 10 + atoms[0].1.len() + atoms_size(rest));
    }
}

pub proof fn lemma_atoms_bytes_concat(s1: Seq<(u16, Seq<u8>)>, s2: Seq<(u16, Seq<u8>)>, idx: int)
    ensures
        atoms_bytes(s1 + s2, idx) == atoms_bytes(s1, idx) + atoms_bytes(s2, idx + s1.len()),
    decreases s1.len(),
{
    if s1.len() == 0 {
        assert(s1 + s2 =~= s2);
        assert(atoms_bytes(s1 + s2, idx) =~= atoms_bytes(s1, idx) + atoms_bytes(s2, idx + s1.len()));
    } else {
        assert((s1 + s2).skip(1) =~= s1.skip(1) + s2);
        lemma_atoms_bytes_concat(s1.skip(1), s2, idx + 1);
        assert(atoms_bytes(s1 + s2, idx) =~= atoms_bytes(s1, idx) + atoms_bytes(s2, idx + s1.len()));
    }
}

pub proof fn lemma_atoms_size_singleton(a: (u16, Seq<u8>))
    ensures
        atoms_size(seq![a]) == 10 + a.1.len(),
{
    assert(seq![a].skip(1) =~= Seq::<(u16, Seq<u8>)>::empty());
    assert(atoms_size(Seq::<(u16, Seq<u8>)>::empty()) == 0);
}

/// Every record's size is part of the total.
pub proof fn lemma_atoms_size_elem_bound(atoms: Seq<(u16, Seq<u8>)>, k: int)
    requires
        0 <= k < atoms.len(),
    ensures
        10 + atoms[k].1.len() <= atoms_size(atoms),
    decreases atoms.len(),
{
    lemma_atoms_size_nonneg(atoms.skip(1));
    if k == 0 {
    } else {
        lemma_atoms_size_elem_bound(atoms.skip(1), k - 1);
        assert(atoms.skip(1)[k - 1] == atoms[k]);
    }
}

pub proof fn lemma_atoms_size_concat(s1: Seq<(u16, Seq<u8>)>, s2: Seq<(u16, Seq<u8>)>)
    ensures
        atoms_size(s1 + s2) == atoms_size(s1) + atoms_size(s2),
    decreases s1.len(),
{
    if s1.len() == 0 {
        assert(s1 + s2 =~= s2);
    } else {
        assert((s1 + s2).skip(1) =~= s1.skip(1) + s2);
        lemma_atoms_size_concat(s1.skip(1), s2);
    }
}

/// Corrupting one payload byte of a record changes the checksum its body
/// yields, so an unchanged stored CRC-16 can no longer match: one-byte (and
/// so one-bit) record corruption is always caught.
pub proof fn lemma_record_corruption_detected(t: u16, idx: u16, p1: Seq<u8>, p2: Seq<u8>, i: int)
    requires
        p1.len() == p2.len(),
        0 <= i < p1.len(),
        p1[i] != p2[i],
        forall|j: int| 0 <= j < p1.len() && j != i ==> p1[j] == p2[j],
    ensures
        crc16_spec(record_body(t, idx, p1)) != crc16_spec(record_body(t, idx, p2)),
{
    lemma_auto_spec_u16_to_from_le_bytes();
    lemma_auto_spec_u32_to_from_le_bytes();
    let b1 = record_body(t, idx, p1);
    let b2 = record_body(t, idx, p2);
    lemma_record_bytes_len(t, idx, p1);
    lemma_record_bytes_len(t, idx, p2);
    assert(b1[8 + i] == p1[i]);
    assert(b2[8 + i] == p2[i]);
    assert(forall|j: int| 0 <= j < b1.len() && j != 8 + i ==> b1[j] == b2[j]) by {
        assert(forall|j: int| 8 <= j < b1.len() ==> #[trigger] b1[j] == p1[j - 8]);
        assert(forall|j: int| 8 <= j < b2.len() ==> #[trigger] b2[j] == p2[j - 8]);
    }
    crate::crc::lemma_crc16_detects_single_byte_change(b1, b2, 8 + i);
}

/// A prefix and the rest of a list partition its size.
pub proof fn lemma_atoms_size_take_skip(atoms: Seq<(u16, Seq<u8>)>, k: int)
    requires
        0 <= k <= atoms.len(),
    ensures
        atoms_size(atoms.take(k)) + atoms_size(atoms.skip(k)) == atoms_size(atoms),
{
    assert(atoms =~= atoms.take(k) + atoms.skip(k));
    lemma_atoms_size_concat(atoms.take(k), atoms.skip(k));
}

/// Extending a prefix by one atom adds that atom's record size.
pub proof fn lemma_atoms_size_take_succ(atoms: Seq<(u16, Seq<u8>)>, k: int)
    requires
        0 <= k < atoms.len(),
    ensures
        atoms_size(atoms.take(k + 1)) == atoms_size(atoms.take(k)) + 10 + atoms[k].1.len(),
{
    assert(atoms.take(k + 1) =~= atoms.take(k).push(atoms[k]));
    lemma_atoms_size_push(atoms.take(k), atoms[k]);
}

/// Extending a prefix by one atom appends that atom's record.
pub proof fn lemma_atoms_bytes_take_succ(atoms: Seq<(u16, Seq<u8>)>, idx: int, k: int)
    requires
        0 <= k < atoms.len(),
    ensures
        atoms_bytes(atoms.take(k + 1), idx) == atoms_bytes(atoms.take(k), idx) + record_bytes(
            atoms[k].0,
            (idx + k) as u16,
            atoms[k].1,
        ),
{
    assert(atoms.take(k + 1) =~= atoms.take(k).push(atoms[k]));
    lemma_atoms_bytes_push(atoms.take(k), idx, atoms[k]);
}

/// Equal record streams of equal record count carry equal atoms: the length
/// prefixes inside the bytes fix the record boundaries, and every field is
/// recoverable from its record.
pub proof fn lemma_atoms_bytes_injective(wa: Seq<(u16, Seq<u8>)>, wb: Seq<(u16, Seq<u8>)>, idx: int)
    requires
        wa.len() == wb.len(),
        atoms_bytes(wa, idx) == atoms_bytes(wb, idx),
        forall|k: int| 0 <= k < wa.len() ==> #[trigger] wa[k].1.len() + 2 <= 0xFFFFFFFF,
        forall|k: int| 0 <= k < wb.len() ==> #[trigger] wb[k].1.len() + 2 <= 0xFFFFFFFF,
    ensures
        wa == wb,
    decreases wa.len(),
{
    lemma_auto_spec_u16_to_from_le_bytes();
    lemma_auto_spec_u32_to_from_le_bytes();
    if wa.len() == 0 {
        assert(wa =~= wb);
    } else {
        let ra = record_bytes(wa[0].0, idx as u16, wa[0].1);
        let rb = record_bytes(wb[0].0, idx as u16, wb[0].1);
        lemma_record_bytes_len(wa[0].0, idx as u16, wa[0].1);
        lemma_record_bytes_len(wb[0].0, idx as u16, wb[0].1);
        let a = atoms_bytes(wa, idx);
        let b = atoms_bytes(wb, idx);
        assert(a == ra + atoms_bytes(wa.skip(1), idx + 1));
        assert(b == rb + atoms_bytes(wb.skip(1), idx + 1));
        lemma_atoms_bytes_len(wa.skip(1), idx + 1);
        lemma_atoms_bytes_len(wb.skip(1), idx + 1);
        assert(ra.subrange(4, 8) =~= spec_u32_to_le_bytes((wa[0].1.len() + 2) as u32));
        assert(rb.subrange(4, 8) =~= spec_u32_to_le_bytes((wb[0].1.len() + 2) as u32));
        assert(a.subrange(4, 8) =~= ra.subrange(4, 8));
        assert(b.subrange(4, 8) =~= rb.subrange(4, 8));
        assert((wa[0].1.len() + 2) as u32 == (wb[0].1.len() + 2) as u32);
        assert(wa[0].1.len() == wb[0].1.len());
        assert(forall|j: int| 0 <= j < ra.len() ==> #[trigger] ra[j] == a[j]);
        assert(forall|j: int| 0 <= j < rb.len() ==> #[trigger] rb[j] == b[j]);
        assert(ra =~= rb);
        assert(ra.subrange(0, 2) =~= spec_u16_to_le_bytes(wa[0].0));
        assert(rb.subrange(0, 2) =~= spec_u16_to_le_bytes(wb[0].0));
        assert(wa[0].0 == wb[0].0);
        assert(ra.subrange(8, 8 + wa[0].1.len() as int) =~= wa[0].1);
        assert(rb.subrange(8, 8 + wb[0].1.len() as int) =~= wb[0].1);
        assert(wa[0].1 == wb[0].1);
        assert(wa[0] == wb[0]);
        assert(atoms_bytes(wa.skip(1), idx + 1) =~= a.subrange(ra.len() as int, a.len() as int));
        assert(atoms_bytes(wb.skip(1), idx + 1) =~= b.subrange(rb.len() as int, b.len() as int));
        assert(forall|k: int|
            0 <= k < wa.skip(1).len() ==> #[trigger] wa.skip(1)[k].1.len() + 2 <= 0xFFFFFFFF) by {
            assert(forall|k: int| 0 <= k < wa.skip(1).len() ==> wa.skip(1)[k] == wa[k + 1]);
        }
        assert(forall|k: int|
            0 <= k < wb.skip(1).len() ==> #[trigger] wb.skip(1)[k].1.len() + 2 <= 0xFFFFFFFF) by {
            assert(forall|k: int| 0 <= k < wb.skip(1).len() ==> wb.skip(1)[k] == wb[k + 1]);
        }
        lemma_atoms_bytes_injective(wa.skip(1), wb.skip(1), idx + 1);
        assert(wa =~= wb) by {
            assert(forall|k: int| 1 <= k < wa.len() ==> wa[k] == wa.skip(1)[k - 1]);
            assert(forall|k: int| 1 <= k < wb.len() ==> wb[k] == wb.skip(1)[k - 1]);
        }
    }
}

/// Read a little-endian u16 at `off`; the two bytes read are exactly the
/// little-endian image of the result.
pub fn read_u16_at(data: &[u8], off: usize) -> (r: u16)
    requires
        off + 2 <= data@.len(),
    ensures
        r == spec_u16_from_le_bytes(data@.subrange(off as int, off + 2)),
        spec_u16_to_le_bytes(r) == data@.subrange(off as int, off + 2),
{
    let n = data.len();
    assert(off + 2 <= n);
    let r = u16_from_le_bytes(&data[off..off + 2]);
    proof {
        lemma_auto_spec_u16_to_from_le_bytes();
    }
    r
}

/// Read a little-endian u32 at `off`; the four bytes read are exactly the
/// little-endian image of the result.
pub fn read_u32_at(data: &[u8], off: usize) -> (r: u32)
    requires
        off + 4 <= data@.len(),
    ensures
        r == spec_u32_from_le_bytes(data@.subrange(off as int, off + 4)),
        spec_u32_to_le_bytes(r) == data@.subrange(off as int, off + 4),
{
    let n = data.len();
    assert(off + 4 <= n);
    let r = u32_from_le_bytes(&data[off..off + 4]);
    proof {
        lemma_auto_spec_u32_to_from_le_bytes();
    }
    r
}

/// Append the little-endian bytes of `x` to `out`.
pub fn push_u16_le(out: &mut Vec<u8>, x: u16)
    ensures
        final(out)@ == old(out)@ + spec_u16_to_le_bytes(x),
{
    let mut t = u16_to_le_bytes(x);
    out.append(&mut t);
}

/// Append the little-endian bytes of `x` to `out`.
pub fn push_u32_le(out: &mut Vec<u8>, x: u32)
    ensures
        final(out)@ == old(out)@ + spec_u32_to_le_bytes(x),
{
    let mut t = u32_to_le_bytes(x);
    out.append(&mut t);
}

/// Append a whole slice to `out`.
pub fn append_slice(out: &mut Vec<u8>, data: &[u8])
    ensures
        final(out)@ == old(out)@ + data@,
{
    let mut i: usize = 0;
    proof {
        assert(out@ =~= old(out)@ + data@.subrange(0, 0));
    }
    while i < data.len()
        invariant
            i <= data@.len(),
            out@ == old(out)@ + data@.subrange(0, i as int),
        decreases data@.len() - i,
    {
        out.push(data[i]);
        proof {
            assert(old(out)@ + data@.subrange(0, i as int) + seq![data@[i as int]] =~= old(out)@
                + data@.subrange(0, i + 1));
        }
        i = i + 1;
    }
    proof {
        assert(data@.subrange(0, data@.len() as int) =~= data@);
    }
}

/// Copy `data[start..end]` into a fresh vector.
pub fn copy_range(data: &[u8], start: usize, end: usize) -> (v: Vec<u8>)
    requires
        start <= end <= data@.len(),
    ensures
        v@ == data@.subrange(start as int, end as int),
{
    let mut v: Vec<u8> = Vec::new();
    let mut i: usize = start;
    proof {
        assert(v@ =~= data@.subrange(start as int, start as int));
    }
    while i < end
        invariant
            start <= i <= end <= data@.len(),
            v@ == data@.subrange(start as int, i as int),
        decreases end - i,
    {
        v.push(data[i]);
        proof {
            assert(data@.subrange(start as int, i as int) + seq![data@[i as int]] =~= data@.subrange(
                start as int,
                i + 1,
            ));
        }
        i = i + 1;
    }
    v
}

/// Append one framed record to `out`: header, payload, CRC-16 trailer.
pub fn write_record(out: &mut Vec<u8>, t: u16, idx: u16, payload: &[u8])
    requires
        payload@.len() + 2 <= u32::MAX,
    ensures
        final(out)@ == old(out)@ + record_bytes(t, idx, payload@),
{
    let mut body: Vec<u8> = Vec::new();
    push_u16_le(&mut body, t);
    push_u16_le(&mut body, idx);
    push_u32_le(&mut body, (payload.len() + 2) as u32);
    append_slice(&mut body, payload);
    proof {
        assert(body@ =~= record_body(t, idx, payload@));
    }
    let crc = crc16(body.as_slice());
    out.append(&mut body);
    push_u16_le(out, crc);
    proof {
        assert(out@ =~= old(out)@ + record_bytes(t, idx, payload@));
    }
}

} // verus!
