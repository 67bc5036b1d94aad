//! The EEPROM image aggregate: one header, the mandatory and optional typed
//! atoms, and the ordered Custom atoms.  It owns serialization in both
//! memory regimes, parsing, and whole-image checksum verification.

use vstd::prelude::*;
use vstd::bytes::spec_u16_to_le_bytes;
use vstd::bytes::spec_u16_from_le_bytes;
use vstd::bytes::spec_u32_to_le_bytes;
use vstd::bytes::spec_u32_from_le_bytes;
use vstd::bytes::lemma_auto_spec_u16_to_from_le_bytes;
use vstd::bytes::lemma_auto_spec_u32_to_from_le_bytes;
use crate::atoms::CustomAtom;
use crate::atoms::GpioMapAtom;
use crate::atoms::VendorInfoAtom;
use crate::crc::crc16_spec;
use crate::crc::crc32_spec;
use crate::crc::crc32_range;
use crate::error::EhatromError;
use crate::header::EepromHeader;
use crate::header::header_bytes;
use crate::header::lemma_header_bytes_len;
use crate::header::spec_signature;
use crate::header::write_header;
use crate::wire::ATOM_TYPE_VENDOR_INFO;
use crate::wire::ATOM_TYPE_GPIO_MAP_BANK0;
use crate::wire::ATOM_TYPE_DT_BLOB;
use crate::wire::ATOM_TYPE_GPIO_MAP_BANK1;
use crate::wire::atoms_bytes;
use crate::wire::atoms_size;
use crate::wire::lemma_atoms_bytes_concat;
use crate::wire::lemma_atoms_bytes_len;
use crate::wire::lemma_atoms_bytes_push;
use crate::wire::lemma_atoms_size_concat;
use crate::wire::lemma_atoms_size_elem_bound;
use crate::wire::lemma_atoms_size_nonneg;
use crate::wire::lemma_atoms_size_push;
use crate::wire::lemma_atoms_size_take_skip;
use crate::wire::lemma_atoms_size_take_succ;
use crate::wire::lemma_atoms_bytes_take_succ;
use crate::wire::lemma_atoms_size_singleton;
use crate::wire::lemma_record_bytes_len;
use crate::wire::record_body;
use crate::wire::record_bytes;
use crate::wire::write_record;
use crate::wire::read_u32_at;

verus! {

/// The (type code, payload) pairs of a list of Custom atoms.
pub open spec fn custom_tuples(customs: Seq<CustomAtom>) -> Seq<(u16, Seq<u8>)> {
    customs.map(|i: int, c: CustomAtom| (c.type_code, c.data@))
}

/// Wire order of an atom set, possibly still incomplete: Vendor-Info, GPIO
/// bank 0, the optional Device-Tree-Blob, the optional GPIO bank 1, then the
/// Custom atoms in insertion order.
pub open spec fn wire_of(
    vendor: Option<VendorInfoAtom>,
    gpio0: Option<GpioMapAtom>,
    dt: Option<Seq<u8>>,
    gpio1: Option<GpioMapAtom>,
    customs: Seq<CustomAtom>,
) -> Seq<(u16, Seq<u8>)> {
    (match vendor {
        Some(v) => seq![(ATOM_TYPE_VENDOR_INFO, v.spec_payload())],
        None => Seq::<(u16, Seq<u8>)>::empty(),
    }) + (match gpio0 {
        Some(g) => seq![(ATOM_TYPE_GPIO_MAP_BANK0, g.spec_payload())],
        None => Seq::<(u16, Seq<u8>)>::empty(),
    }) + (match dt {
        Some(b) => seq![(ATOM_TYPE_DT_BLOB, b)],
        None => Seq::<(u16, Seq<u8>)>::empty(),
    }) + (match gpio1 {
        Some(g) => seq![(ATOM_TYPE_GPIO_MAP_BANK1, g.spec_payload())],
        None => Seq::<(u16, Seq<u8>)>::empty(),
    }) + custom_tuples(customs)
}

/// An in-memory EEPROM image.
#[derive(Clone, Debug, PartialEq, Eq)]
pub struct Eeprom {
    pub header: EepromHeader,
    pub vendor_info: VendorInfoAtom,
    pub gpio_map_bank0: GpioMapAtom,
    pub dt_blob: Option<Vec<u8>>,
    pub gpio_map_bank1: Option<GpioMapAtom>,
    pub custom_atoms: Vec<CustomAtom>,
}

impl Eeprom {
    /// The image's atoms in their fixed wire order.
    pub open spec fn wire_atoms(self) -> Seq<(u16, Seq<u8>)> {
        wire_of(
            Some(self.vendor_info),
            Some(self.gpio_map_bank0),
            match self.dt_blob {
                Some(b) => Some(b@),
                None => None,
            },
            self.gpio_map_bank1,
            self.custom_atoms@,
        )
    }

    /// Number of atom records on the wire.
    pub open spec fn spec_atom_count(self) -> int {
        self.wire_atoms().len() as int
    }

    /// Total serialized length: header, records, CRC-32 trailer.
    pub open spec fn spec_len(self) -> int {
        16 + atoms_size(self.wire_atoms())
    }

    /// Header and records, without the trailer.
    pub open spec fn spec_body(self) -> Seq<u8> {
        header_bytes(
            self.header.version,
            self.header.reserved,
            self.spec_atom_count() as u16,
            self.spec_len() as u32,
        ) + atoms_bytes(self.wire_atoms(), 0)
    }

    /// The exact serialized bytes of this image.
    pub open spec fn spec_bytes(self) -> Seq<u8> {
        self.spec_body() + spec_u32_to_le_bytes(crc32_spec(self.spec_body()))
    }

    /// A well-formed image: valid version, valid typed atoms, non-colliding
    /// custom type codes, and counts that fit their header fields.
    pub open spec fn wf(self) -> bool {
        &&& self.header.version >= 1
        &&& self.vendor_info.wf()
        &&& forall|i: int| 0 <= i < self.custom_atoms@.len() ==> self.custom_atoms@[i].wf()
        &&& self.spec_atom_count() <= 0xFFFF
        &&& self.spec_len() <= 0xFFFFFFFF
    }

    /// Shape of the wire atom list and of the length bookkeeping.
    pub proof fn lemma_wire_shape(self)
        ensures
            self.spec_atom_count() == 2 + (if self.dt_blob is Some {
                1int
            } else {
                0int
            }) + (if self.gpio_map_bank1 is Some {
                1int
            } else {
                0int
            }) + self.custom_atoms@.len(),
            self.spec_len() == 16 + 34 + self.vendor_info.vendor@.len()
                + self.vendor_info.product@.len() + 40 + (match self.dt_blob {
                Some(b) => 10 + b@.len() as int,
                None => 0int,
            }) + (if self.gpio_map_bank1 is Some {
                40int
            } else {
                0int
            }) + atoms_size(custom_tuples(self.custom_atoms@)),
            self.spec_len() == 16 + atoms_size(self.wire_atoms()),
            atoms_size(custom_tuples(self.custom_atoms@)) >= 0,
    {
        let sv = seq![(ATOM_TYPE_VENDOR_INFO, self.vendor_info.spec_payload())];
        let sg = seq![(ATOM_TYPE_GPIO_MAP_BANK0, self.gpio_map_bank0.spec_payload())];
        let sd = match self.dt_blob {
            Some(b) => seq![(ATOM_TYPE_DT_BLOB, b@)],
            None => Seq::<(u16, Seq<u8>)>::empty(),
        };
        let s1 = match self.gpio_map_bank1 {
            Some(g) => seq![(ATOM_TYPE_GPIO_MAP_BANK1, g.spec_payload())],
            None => Seq::<(u16, Seq<u8>)>::empty(),
        };
        let m = custom_tuples(self.custom_atoms@);
        assert(self.wire_atoms() == sv + sg + sd + s1 + m);
        lemma_atoms_size_concat(sv + sg + sd + s1, m);
        lemma_atoms_size_concat(sv + sg + sd, s1);
        lemma_atoms_size_concat(sv + sg, sd);
        lemma_atoms_size_concat(sv, sg);
        lemma_atoms_size_singleton((ATOM_TYPE_VENDOR_INFO, self.vendor_info.spec_payload()));
        lemma_atoms_size_singleton((ATOM_TYPE_GPIO_MAP_BANK0, self.gpio_map_bank0.spec_payload()));
        self.vendor_info.lemma_payload_len();
        self.gpio_map_bank0.lemma_payload_len();
        match self.dt_blob {
            Some(b) => {
                lemma_atoms_size_singleton((ATOM_TYPE_DT_BLOB, b@));
            },
            None => {},
        }
        match self.gpio_map_bank1 {
            Some(g) => {
                lemma_atoms_size_singleton((ATOM_TYPE_GPIO_MAP_BANK1, g.spec_payload()));
                g.lemma_payload_len();
            },
            None => {},
        }
        lemma_atoms_size_nonneg(m);
    }

    /// The serialized image is exactly `spec_len` bytes long.
    pub proof fn lemma_spec_bytes_len(self)
        ensures
            self.spec_bytes().len() == self.spec_len(),
            self.spec_body().len() == self.spec_len() - 4,
            self.spec_len() >= 90,
    {
        lemma_header_bytes_len(
            self.header.version,
            self.header.reserved,
            self.spec_atom_count() as u16,
            self.spec_len() as u32,
        );
        lemma_atoms_bytes_len(self.wire_atoms(), 0);
        lemma_auto_spec_u32_to_from_le_bytes();
        self.lemma_wire_shape();
    }

    /// Compute the number of atom records.
    pub fn compute_atom_count(&self) -> (n: u16)
        requires
            self.wf(),
        ensures
            n as int == self.spec_atom_count(),
    {
        proof {
            self.lemma_wire_shape();
        }
        let mut n: u16 = 2;
        if self.dt_blob.is_some() {
            n = n + 1;
        }
        if self.gpio_map_bank1.is_some() {
            n = n + 1;
        }
        n + (self.custom_atoms.len() as u16)
    }

    /// Compute the total serialized length.
    pub fn compute_total_len(&self) -> (n: u32)
        requires
            self.wf(),
        ensures
            n as int == self.spec_len(),
    {
        proof {
            self.lemma_wire_shape();
        }
        let mut total: u64 = 16;
        total = total + 10 + 24 + (self.vendor_info.vendor.len() as u64) + (
        self.vendor_info.product.len() as u64);
        total = total + 40;
        match &self.dt_blob {
            Some(b) => {
                total = total + 10 + (b.len() as u64);
            },
            None => {},
        }
        if self.gpio_map_bank1.is_some() {
            total = total + 40;
        }
        let ghost m = custom_tuples(self.custom_atoms@);
        proof {
            assert(m.skip(0) =~= m);
            lemma_atoms_size_nonneg(m);
        }
        let mut k: usize = 0;
        while k < self.custom_atoms.len()
            invariant
                self.wf(),
                k <= self.custom_atoms@.len(),
                m == custom_tuples(self.custom_atoms@),
                total as int + atoms_size(m.skip(k as int)) == self.spec_len(),
                total as int <= self.spec_len(),
            decreases self.custom_atoms@.len() - k,
        {
            proof {
                let rest = m.skip(k as int);
                assert(rest[0] == m[k as int]);
                assert(rest.skip(1) =~= m.skip(k + 1));
                lemma_atoms_size_nonneg(m.skip(k + 1));
                assert(atoms_size(rest) == 10 + m[k as int].1.len() + atoms_size(m.skip(k + 1)));
                assert(m[k as int].1 == self.custom_atoms@[k as int].data@);
            }
            total = total + 10 + (self.custom_atoms[k].data.len() as u64);
            k = k + 1;
        }
        proof {
            assert(m.skip(self.custom_atoms@.len() as int) =~= Seq::<(u16, Seq<u8>)>::empty());
            assert(atoms_size(Seq::<(u16, Seq<u8>)>::empty()) == 0);
        }
        total as u32
    }

    /// Recompute the header's atom count and total length from the live atom
    /// set.  Serialization does this internally as well; this entry point is
    /// an inspection aid.
    pub fn update_header(&mut self)
        requires
            old(self).wf(),
        ensures
            *final(self) == (Eeprom {
                header: EepromHeader {
                    numatoms: final(self).header.numatoms,
                    eeplen: final(self).header.eeplen,
                    ..old(self).header
                },
                ..*old(self)
            }),
            final(self).header.numatoms as int == old(self).spec_atom_count(),
            final(self).header.eeplen as int == old(self).spec_len(),
            final(self).wf(),
            final(self).spec_bytes() == old(self).spec_bytes(),
    {
        let n = self.compute_atom_count();
        let l = self.compute_total_len();
        self.header.numatoms = n;
        self.header.eeplen = l;
    }

    /// Serialize the whole image into a growable buffer, recomputing the
    /// header fields from the live atom set first.
    #[verifier::rlimit(80)]
    pub fn serialize_with_crc(&self) -> (out: Vec<u8>)
        requires
            self.wf(),
        ensures
            out@ == self.spec_bytes(),
    {
        let numatoms = self.compute_atom_count();
        let eeplen = self.compute_total_len();
        let mut out: Vec<u8> = Vec::new();
        write_header(&mut out, self.header.version, self.header.reserved, numatoms, eeplen);
        let ghost hdr = header_bytes(
            self.header.version,
            self.header.reserved,
            self.spec_atom_count() as u16,
            self.spec_len() as u32,
        );
        let ghost w = self.wire_atoms();
        let ghost sv = seq![(ATOM_TYPE_VENDOR_INFO, self.vendor_info.spec_payload())];
        let ghost sg = seq![(ATOM_TYPE_GPIO_MAP_BANK0, self.gpio_map_bank0.spec_payload())];
        let ghost sd = match &self.dt_blob {
            Some(b) => seq![(ATOM_TYPE_DT_BLOB, b@)],
            None => Seq::<(u16, Seq<u8>)>::empty(),
        };
        let ghost s1 = match self.gpio_map_bank1 {
            Some(g) => seq![(ATOM_TYPE_GPIO_MAP_BANK1, g.spec_payload())],
            None => Seq::<(u16, Seq<u8>)>::empty(),
        };
        let ghost m = custom_tuples(self.custom_atoms@);
        let ghost mut done: Seq<(u16, Seq<u8>)> = Seq::<(u16, Seq<u8>)>::empty();
        proof {
            self.lemma_wire_shape();
            assert(w == sv + sg + sd + s1 + m);
            assert(atoms_bytes(done, 0) =~= Seq::<u8>::empty());
            assert(out@ =~= hdr + atoms_bytes(done, 0));
            assert(done =~= w.take(0));
        }
        let vp = self.vendor_info.encode_payload();
        proof {
            self.vendor_info.lemma_payload_len();
            assert(w[0] == (ATOM_TYPE_VENDOR_INFO, self.vendor_info.spec_payload()));
            lemma_atoms_bytes_push(done, 0, w[0]);
        }
        write_record(&mut out, ATOM_TYPE_VENDOR_INFO, 0, vp.as_slice());
        proof {
            done = done.push(w[0]);
            assert(done =~= w.take(1));
            assert(out@ == hdr + atoms_bytes(done, 0));
        }
        let gp = self.gpio_map_bank0.encode_payload();
        proof {
            self.gpio_map_bank0.lemma_payload_len();
            assert(w[1] == (ATOM_TYPE_GPIO_MAP_BANK0, self.gpio_map_bank0.spec_payload()));
            lemma_atoms_bytes_push(done, 0, w[1]);
        }
        write_record(&mut out, ATOM_TYPE_GPIO_MAP_BANK0, 1, gp.as_slice());
        proof {
            done = done.push(w[1]);
            assert(done =~= w.take(2));
            assert(out@ == hdr + atoms_bytes(done, 0));
        }
        let mut idx: u16 = 2;
        match &self.dt_blob {
            Some(b) => {
                proof {
                    assert(w[2] == (ATOM_TYPE_DT_BLOB, b@));
                    assert(10 + b@.len() <= 0xFFFFFFFF);
                    lemma_atoms_bytes_push(done, 0, w[2]);
                }
                write_record(&mut out, ATOM_TYPE_DT_BLOB, idx, b.as_slice());
                idx = idx + 1;
                proof {
                    done = done.push(w[2]);
                    assert(done =~= w.take(3));
                    assert(out@ == hdr + atoms_bytes(done, 0));
                }
            },
            None => {},
        }
        proof {
            assert(done =~= w.take((sv + sg + sd).len() as int));
            assert(idx as int == done.len());
        }
        match &self.gpio_map_bank1 {
            Some(g) => {
                let p = g.encode_payload();
                proof {
                    g.lemma_payload_len();
                    assert(w[done.len() as int] == (ATOM_TYPE_GPIO_MAP_BANK1, g.spec_payload()));
                    lemma_atoms_bytes_push(done, 0, w[done.len() as int]);
                }
                write_record(&mut out, ATOM_TYPE_GPIO_MAP_BANK1, idx, p.as_slice());
                idx = idx + 1;
                proof {
                    done = done.push(w[done.len() as int]);
                    assert(done =~= w.take(done.len() as int));
                    assert(out@ == hdr + atoms_bytes(done, 0));
                }
            },
            None => {},
        }
        let ghost base = (sv + sg + sd + s1).len();
        proof {
            assert(done =~= w.take(base as int));
            assert(idx as int == base);
        }
        let mut k: usize = 0;
        while k < self.custom_atoms.len()
            invariant
                self.wf(),
                w == self.wire_atoms(),
                m == custom_tuples(self.custom_atoms@),
                hdr == header_bytes(
                    self.header.version,
                    self.header.reserved,
                    self.spec_atom_count() as u16,
                    self.spec_len() as u32,
                ),
                k <= self.custom_atoms@.len(),
                base + m.len() == w.len(),
                done == w.take((base + k) as int),
                idx as int == base + k,
                out@ == hdr + atoms_bytes(done, 0),
            decreases self.custom_atoms@.len() - k,
        {
            proof {
                self.lemma_wire_shape();
                assert(w[(base + k) as int] == m[k as int]);
                assert(m[k as int] == (
                    self.custom_atoms@[k as int].type_code,
                    self.custom_atoms@[k as int].data@,
                ));
                lemma_atoms_size_elem_bound(w, (base + k) as int);
                assert(10 + self.custom_atoms@[k as int].data@.len() <= atoms_size(w));
                lemma_atoms_bytes_push(done, 0, w[(base + k) as int]);
            }
            let c = &self.custom_atoms[k];
            write_record(&mut out, c.type_code, idx, c.data.as_slice());
            proof {
                done = done.push(w[(base + k) as int]);
                assert(done =~= w.take((base + k + 1) as int));
            }
            idx = idx + 1;
            k = k + 1;
        }
        proof {
            assert(done =~= w);
            assert(out@ == self.spec_body());
        }
        let crc = crate::crc::crc32(out.as_slice());
        crate::wire::push_u32_le(&mut out, crc);
        proof {
            assert(out@ =~= self.spec_bytes());
        }
        out
    }

    /// Serialize into a caller-owned fixed-capacity buffer.  The required
    /// size is computed up front: a buffer that is too small is left
    /// untouched and the call fails, otherwise exactly the serialized bytes
    /// are written at the front and the number written is returned.
    pub fn serialize_with_crc_to_slice(&self, buf: &mut Vec<u8>) -> (r: Result<
        usize,
        EhatromError,
    >)
        requires
            self.wf(),
        ensures
            final(buf)@.len() == old(buf)@.len(),
            r is Ok <==> old(buf)@.len() >= self.spec_len(),
            r matches Ok(n) ==> n as int == self.spec_len() && final(buf)@ =~= self.spec_bytes()
                + old(buf)@.skip(n as int),
            r is Err ==> r == Err::<usize, EhatromError>(EhatromError::BufferTooSmall)
                && *final(buf) == *old(buf),
    {
        proof {
            self.lemma_spec_bytes_len();
        }
        let total64 = self.compute_total_len();
        let total = total64 as usize;
        if buf.len() < total {
            return Err(EhatromError::BufferTooSmall);
        }
        let data = self.serialize_with_crc();
        let mut i: usize = 0;
        while i < total
            invariant
                total == self.spec_len(),
                data@ == self.spec_bytes(),
                data@.len() == total,
                i <= total <= buf@.len(),
                buf@.len() == old(buf)@.len(),
                forall|j: int| 0 <= j < i ==> buf@[j] == data@[j],
                forall|j: int| i <= j < buf@.len() ==> buf@[j] == old(buf)@[j],
            decreases total - i,
    {
            let b = data[i];
            buf[i] = b;
            i = i + 1;
        }
        proof {
            assert(final(buf)@ =~= self.spec_bytes() + old(buf)@.skip(total as int));
        }
        Ok(total)
    }

    /// Recompute the CRC-32 over the region the header declares and compare
    /// it with the stored trailer, without parsing any atom contents.
    pub fn verify_crc(data: &[u8]) -> (r: bool)
        ensures
            r == spec_crc_region_ok(data@),
    {
        if data.len() < 12 {
            return false;
        }
        let eeplen64 = read_u32_at(data, 8);
        let eeplen = eeplen64 as usize;
        if eeplen < 16 || eeplen > data.len() {
            return false;
        }
        let computed = crc32_range(data, 0, eeplen - 4);
        let stored = read_u32_at(data, eeplen - 4);
        proof {
            lemma_auto_spec_u32_to_from_le_bytes();
            let elen = spec_u32_from_le_bytes(data@.subrange(8, 12)) as int;
            assert(eeplen as int == elen);
            assert(spec_u32_to_le_bytes(stored) == data@.subrange(elen - 4, elen));
            assert(computed == crc32_spec(data@.subrange(0, elen - 4)));
            if stored != computed {
                assert(data@.subrange(elen - 4, elen) != spec_u32_to_le_bytes(
                    crc32_spec(data@.subrange(0, elen - 4)),
                )) by {
                    if data@.subrange(elen - 4, elen) == spec_u32_to_le_bytes(
                        crc32_spec(data@.subrange(0, elen - 4)),
                    ) {
                        assert(spec_u32_from_le_bytes(spec_u32_to_le_bytes(stored)) == stored);
                        assert(spec_u32_from_le_bytes(spec_u32_to_le_bytes(computed)) == computed);
                    }
                }
            }
        }
        stored == computed
    }

    /// Parse an image, tolerating a corrupt whole-image checksum: the
    /// structure is returned together with a flag saying whether the stored
    /// CRC-32 trailer matched, so diagnostics can inspect a decoded image
    /// read from damaged hardware.
    #[verifier::rlimit(100)]
    pub fn from_bytes_lenient(data: &[u8]) -> (r: Result<(Eeprom, bool), EhatromError>)
        ensures
            r matches Ok(p) ==> p.0.wf() && 16 <= p.0.spec_len() <= data@.len()
                && p.0.spec_len() == spec_u32_from_le_bytes(data@.subrange(8, 12))
                && p.0.spec_bytes().subrange(0, p.0.spec_len() - 4) == data@.subrange(
                0,
                p.0.spec_len() - 4,
            ) && (p.1 <==> p.0.spec_bytes() == data@.subrange(0, p.0.spec_len() as int)),
            (exists|img: Eeprom| img.wf() && data@ == img.spec_bytes()) ==> (r matches Ok(p)
                && p.1),
            data@.len() < 12 ==> r == Err::<(Eeprom, bool), EhatromError>(EhatromError::Truncated),
            data@.len() >= 12 && data@.subrange(0, 4) != spec_signature() ==> r == Err::<
                (Eeprom, bool),
                EhatromError,
            >(EhatromError::InvalidSignature),
            data@.len() >= 12 && data@.subrange(0, 4) == spec_signature() && data@[4] == 0 ==> r
                == Err::<(Eeprom, bool), EhatromError>(EhatromError::UnsupportedVersion),
            data@.len() >= 12 && data@.subrange(0, 4) == spec_signature() && data@[4] != 0 && (
            spec_u32_from_le_bytes(data@.subrange(8, 12)) < 16 || spec_u32_from_le_bytes(
                data@.subrange(8, 12),
            ) > data@.len()) ==> r == Err::<(Eeprom, bool), EhatromError>(EhatromError::Truncated),
    {
        let ghost has_src = exists|img: Eeprom| img.wf() && data@ == img.spec_bytes();
        let ghost src = choose|img: Eeprom| img.wf() && data@ == img.spec_bytes();
        proof {
            if has_src {
                assert(src.wf() && data@ == src.spec_bytes());
                src.lemma_spec_bytes_header();
            }
        }
        if data.len() < 12 {
            return Err(EhatromError::Truncated);
        }
        if !(data[0] == 0x52 && data[1] == 0x2D && data[2] == 0x50 && data[3] == 0x69) {
            proof {
                assert(data@.subrange(0, 4) != spec_signature()) by {
                    if data@.subrange(0, 4) == spec_signature() {
                        assert(data@.subrange(0, 4)[0] == data@[0]);
                        assert(data@.subrange(0, 4)[1] == data@[1]);
                        assert(data@.subrange(0, 4)[2] == data@[2]);
                        assert(data@.subrange(0, 4)[3] == data@[3]);
                    }
                }
            }
            return Err(EhatromError::InvalidSignature);
        }
        proof {
            assert(data@.subrange(0, 4) =~= spec_signature());
        }
        let version = data[4];
        if version == 0 {
            return Err(EhatromError::UnsupportedVersion);
        }
        let reserved = data[5];
        let numatoms = crate::wire::read_u16_at(data, 6);
        let eeplen32 = read_u32_at(data, 8);
        let eeplen = eeplen32 as usize;
        if eeplen < 16 || eeplen > data.len() {
            return Err(EhatromError::Truncated);
        }
        let atoms_end = eeplen - 4;
        let mut off: usize = 12;
        let mut k: u16 = 0;
        let mut vendor_slot: Option<VendorInfoAtom> = None;
        let mut gpio0_slot: Option<GpioMapAtom> = None;
        let mut dt_slot: Option<Vec<u8>> = None;
        let mut gpio1_slot: Option<GpioMapAtom> = None;
        let mut customs: Vec<CustomAtom> = Vec::new();
        let mut phase: u8 = 0;
        let ghost mut collected: Seq<(u16, Seq<u8>)> = Seq::<(u16, Seq<u8>)>::empty();
        proof {
            assert(atoms_bytes(collected, 0) =~= data@.subrange(12, 12));
            assert(collected =~= wire_of(
                vendor_slot,
                gpio0_slot,
                opt_bytes(dt_slot),
                gpio1_slot,
                customs@,
            ));
        }
        while k < numatoms
            invariant
                data@.len() >= 12,
                data@.subrange(0, 4) == spec_signature(),
                data@[4] == version,
                version != 0,
                data@[5] == reserved,
                numatoms == vstd::bytes::spec_u16_from_le_bytes(data@.subrange(6, 8)),
                eeplen32 == spec_u32_from_le_bytes(data@.subrange(8, 12)),
                eeplen == eeplen32 as usize,
                16 <= eeplen <= data@.len(),
                atoms_end == eeplen - 4,
                12 <= off <= atoms_end,
                k <= numatoms,
                k as int == collected.len(),
                atoms_bytes(collected, 0) == data@.subrange(12, off as int),
                collected == wire_of(
                    vendor_slot,
                    gpio0_slot,
                    opt_bytes(dt_slot),
                    gpio1_slot,
                    customs@,
                ),
                phase <= 5,
                phase >= 1 <==> vendor_slot is Some,
                phase >= 2 <==> gpio0_slot is Some,
                dt_slot is Some ==> phase >= 3,
                phase == 3 ==> dt_slot is Some,
                gpio1_slot is Some ==> phase >= 4,
                phase == 4 ==> gpio1_slot is Some,
                customs@.len() > 0 ==> phase == 5,
                vendor_slot matches Some(v) ==> v.wf(),
                forall|i: int| 0 <= i < customs@.len() ==> customs@[i].wf(),
                has_src == (exists|img: Eeprom| img.wf() && data@ == img.spec_bytes()),
                src == (choose|img: Eeprom| img.wf() && data@ == img.spec_bytes()),
                has_src ==> src.wf() && data@ == src.spec_bytes() && numatoms as int
                    == src.spec_atom_count() && eeplen as int == src.spec_len() && collected
                    == src.wire_atoms().take(k as int) && k as int <= src.wire_atoms().len()
                    && phase as int == spec_phase_of(src, k as int),
            decreases numatoms - k,
        {
            proof {
                if has_src {
                    let w = src.wire_atoms();
                    lemma_auto_spec_u16_to_from_le_bytes();
                    lemma_auto_spec_u32_to_from_le_bytes();
                    src.lemma_spec_bytes_header();
                    lemma_atoms_bytes_len(collected, 0);
                    assert((k as int) < w.len());
                    lemma_atoms_bytes_len(w.take(k as int), 0);
                    assert(off as int == 12 + atoms_size(w.take(k as int)));
                    lemma_src_record_at(src, data@, k as int, off as int);
                    src.lemma_wire_code_positions(k as int);
                    let plen_k = w[k as int].1.len() as int;
                    assert(spec_u16_from_le_bytes(data@.subrange(off as int, off + 2)) == w[k
                        as int].0);
                    assert(spec_u16_from_le_bytes(data@.subrange(off + 2, off + 4)) == k);
                    assert(spec_u32_from_le_bytes(data@.subrange(off + 4, off + 8)) == (plen_k
                        + 2) as u32);
                    assert((plen_k + 2) as u32 as int == plen_k + 2);
                    src.vendor_info.lemma_payload_shape();
                    src.gpio_map_bank0.lemma_payload_len();
                    match src.gpio_map_bank1 {
                        Some(g) => {
                            g.lemma_payload_len();
                        },
                        None => {},
                    }
                }
            }
            if atoms_end - off < 8 {
                return Err(EhatromError::Truncated);
            }
            let t = crate::wire::read_u16_at(data, off);
            let idx = crate::wire::read_u16_at(data, off + 2);
            let dlen32 = read_u32_at(data, off + 4);
            if dlen32 < 2 {
                return Err(EhatromError::Truncated);
            }
            let dlen = dlen32 as usize;
            if atoms_end - (off + 8) < dlen {
                return Err(EhatromError::Truncated);
            }
            let plen = dlen - 2;
            let pend = off + 8 + plen;
            let computed = crate::crc::crc16_range(data, off, pend);
            let stored = crate::wire::read_u16_at(data, pend);
            proof {
                if has_src {
                    lemma_auto_spec_u16_to_from_le_bytes();
                    let w = src.wire_atoms();
                    let plen_k = w[k as int].1.len() as int;
                    let body = record_body(w[k as int].0, k, w[k as int].1);
                    assert(pend as int == off + 8 + plen_k);
                    assert(data@.subrange(off as int, pend as int) == body);
                    assert(computed == crc16_spec(body));
                    assert(data@.subrange(pend as int, pend + 2) == spec_u16_to_le_bytes(
                        crc16_spec(body),
                    ));
                    assert(spec_u16_to_le_bytes(crc16_spec(body)).len() == 2);
                    assert(spec_u16_from_le_bytes(spec_u16_to_le_bytes(crc16_spec(body)))
                        == crc16_spec(body));
                    assert(stored == computed);
                }
            }
            if stored != computed {
                return Err(EhatromError::RecordCrcMismatch);
            }
            if idx != k {
                return Err(EhatromError::OutOfOrderAtom);
            }
            let ghost payload = data@.subrange(off + 8, pend as int);
            proof {
                if has_src {
                    assert(payload == src.wire_atoms()[k as int].1);
                }
                assert(record_body(t, k, payload) =~= data@.subrange(off as int, pend as int));
                assert(crate::crc::crc16_spec(record_body(t, k, payload)) == stored);
                assert(record_bytes(t, k, payload) =~= data@.subrange(off as int, pend + 2));
                lemma_atoms_bytes_push(collected, 0, (t, payload));
            }
            if t == ATOM_TYPE_VENDOR_INFO {
                if phase != 0 {
                    return Err(EhatromError::DuplicateAtom);
                }
                match VendorInfoAtom::decode(&data[off + 8..pend]) {
                    Ok(v) => {
                        vendor_slot = Some(v);
                        phase = 1;
                        proof {
                            assert(customs@.len() == 0);
                            assert(collected.push((t, payload)) =~= wire_of(
                                vendor_slot,
                                gpio0_slot,
                                opt_bytes(dt_slot),
                                gpio1_slot,
                                customs@,
                            ));
                        }
                    },
                    Err(e) => {
                        return Err(e);
                    },
                }
            } else if t == ATOM_TYPE_GPIO_MAP_BANK0 {
                if phase == 0 {
                    return Err(EhatromError::OutOfOrderAtom);
                }
                if phase >= 2 {
                    return Err(EhatromError::DuplicateAtom);
                }
                match GpioMapAtom::decode(&data[off + 8..pend]) {
                    Ok(g) => {
                        gpio0_slot = Some(g);
                        phase = 2;
                        proof {
                            assert(customs@.len() == 0);
                            assert(collected.push((t, payload)) =~= wire_of(
                                vendor_slot,
                                gpio0_slot,
                                opt_bytes(dt_slot),
                                gpio1_slot,
                                customs@,
                            ));
                        }
                    },
                    Err(e) => {
                        return Err(e);
                    },
                }
            } else if t == ATOM_TYPE_DT_BLOB {
                if phase < 2 || phase > 2 {
                    if dt_slot.is_some() {
                        return Err(EhatromError::DuplicateAtom);
                    }
                    return Err(EhatromError::OutOfOrderAtom);
                }
                let blob = crate::wire::copy_range(data, off + 8, pend);
                dt_slot = Some(blob);
                phase = 3;
                proof {
                    assert(customs@.len() == 0);
                    assert(collected.push((t, payload)) =~= wire_of(
                        vendor_slot,
                        gpio0_slot,
                        opt_bytes(dt_slot),
                        gpio1_slot,
                        customs@,
                    ));
                }
            } else if t == ATOM_TYPE_GPIO_MAP_BANK1 {
                if phase >= 4 {
                    if gpio1_slot.is_some() {
                        return Err(EhatromError::DuplicateAtom);
                    }
                    return Err(EhatromError::OutOfOrderAtom);
                }
                if phase < 2 {
                    return Err(EhatromError::OutOfOrderAtom);
                }
                match GpioMapAtom::decode(&data[off + 8..pend]) {
                    Ok(g) => {
                        gpio1_slot = Some(g);
                        phase = 4;
                        proof {
                            assert(customs@.len() == 0);
                            assert(collected.push((t, payload)) =~= wire_of(
                                vendor_slot,
                                gpio0_slot,
                                opt_bytes(dt_slot),
                                gpio1_slot,
                                customs@,
                            ));
                        }
                    },
                    Err(e) => {
                        return Err(e);
                    },
                }
            } else {
                if phase < 2 {
                    return Err(EhatromError::OutOfOrderAtom);
                }
                let ghost customs_before = customs@;
                let body = crate::wire::copy_range(data, off + 8, pend);
                customs.push(CustomAtom { type_code: t, data: body });
                phase = 5;
                proof {
                    assert(custom_tuples(customs@) =~= custom_tuples(customs_before).push(
                        (t, payload),
                    ));
                    assert(collected.push((t, payload)) =~= wire_of(
                        vendor_slot,
                        gpio0_slot,
                        opt_bytes(dt_slot),
                        gpio1_slot,
                        customs@,
                    ));
                }
            }
            proof {
                collected = collected.push((t, payload));
                assert(data@.subrange(12, off as int) + data@.subrange(off as int, pend + 2)
                    =~= data@.subrange(12, pend + 2));
                if has_src {
                    let w = src.wire_atoms();
                    assert((t, payload) == w[k as int]);
                    assert(w.take(k as int + 1) =~= w.take(k as int).push(w[k as int]));
                }
            }
            off = pend + 2;
            k = k + 1;
        }
        proof {
            if has_src {
                let w = src.wire_atoms();
                src.lemma_wire_shape();
                assert(collected =~= w);
                lemma_atoms_bytes_len(collected, 0);
                lemma_atoms_bytes_len(w, 0);
                src.lemma_spec_bytes_len();
                assert(off == atoms_end);
                assert(numatoms >= 2);
                assert(phase as int == spec_phase_of(src, numatoms as int));
                assert(phase >= 2);
            }
        }
        if phase < 2 {
            return Err(EhatromError::MissingMandatoryAtom);
        }
        if off != atoms_end {
            return Err(EhatromError::Truncated);
        }
        let computed32 = crc32_range(data, 0, atoms_end);
        let stored32 = read_u32_at(data, atoms_end);
        let vendor_info = match vendor_slot {
            Some(v) => v,
            None => {
                return Err(EhatromError::MissingMandatoryAtom);
            },
        };
        let gpio_map_bank0 = match gpio0_slot {
            Some(g) => g,
            None => {
                return Err(EhatromError::MissingMandatoryAtom);
            },
        };
        let img = Eeprom {
            header: EepromHeader { version, reserved, numatoms, eeplen: eeplen32 },
            vendor_info,
            gpio_map_bank0,
            dt_blob: dt_slot,
            gpio_map_bank1: gpio1_slot,
            custom_atoms: customs,
        };
        let crc_ok = stored32 == computed32;
        proof {
            lemma_auto_spec_u16_to_from_le_bytes();
            lemma_auto_spec_u32_to_from_le_bytes();
            assert(img.wire_atoms() == collected);
            lemma_atoms_bytes_len(collected, 0);
            assert(atoms_size(collected) == off - 12);
            assert(img.spec_len() == eeplen as int);
            assert(img.spec_atom_count() == numatoms as int);
            assert(img.wf());
            assert(header_bytes(
                img.header.version,
                img.header.reserved,
                img.spec_atom_count() as u16,
                img.spec_len() as u32,
            ) =~= data@.subrange(0, 12));
            assert(img.spec_body() =~= data@.subrange(0, atoms_end as int));
            assert(computed32 == crc32_spec(img.spec_body()));
            img.lemma_spec_bytes_len();
            if crc_ok {
                assert(img.spec_bytes() =~= data@.subrange(0, eeplen as int));
            } else {
                assert(img.spec_bytes() != data@.subrange(0, eeplen as int)) by {
                    if img.spec_bytes() == data@.subrange(0, eeplen as int) {
                        assert(img.spec_bytes().subrange(
                            img.spec_len() - 4,
                            img.spec_len() as int,
                        ) =~= spec_u32_to_le_bytes(crc32_spec(img.spec_body())));
                        assert(data@.subrange(0, eeplen as int).subrange(
                            eeplen - 4,
                            eeplen as int,
                        ) =~= data@.subrange(atoms_end as int, eeplen as int));
                        assert(spec_u32_to_le_bytes(stored32) == data@.subrange(
                            atoms_end as int,
                            eeplen as int,
                        ));
                    }
                }
            }
            assert(img.spec_bytes().subrange(0, img.spec_len() - 4) =~= img.spec_body());
            assert(img.spec_bytes().subrange(0, img.spec_len() - 4) == data@.subrange(
                0,
                img.spec_len() - 4,
            ));
            if has_src {
                src.lemma_spec_bytes_len();
                assert(src.spec_body() =~= data@.subrange(0, atoms_end as int));
                assert(data@.subrange(atoms_end as int, eeplen as int) =~= spec_u32_to_le_bytes(
                    crc32_spec(src.spec_body()),
                ));
                assert(computed32 == crc32_spec(src.spec_body()));
                assert(stored32 == spec_u32_from_le_bytes(
                    spec_u32_to_le_bytes(crc32_spec(src.spec_body())),
                ));
                assert(crc_ok);
            }
        }
        Ok((img, crc_ok))
    }

    /// Parse an image strictly: any disagreement between the stored CRC-32
    /// trailer and a recomputation over the parsed region is an error.
    ///
    /// The last clause is the round trip: parsing the serialized bytes of
    /// any well-formed image succeeds and returns a structurally equal one.
    pub fn from_bytes(data: &[u8]) -> (r: Result<Eeprom, EhatromError>)
        ensures
            r matches Ok(img) ==> img.wf() && 16 <= img.spec_len() <= data@.len()
                && img.spec_len() == spec_u32_from_le_bytes(data@.subrange(8, 12))
                && img.spec_bytes() == data@.subrange(0, img.spec_len() as int),
            forall|img: Eeprom| img.wf() && data@ == img.spec_bytes() ==> (r matches Ok(p)
                && p.content_eq(img)),
            data@.len() < 12 ==> r == Err::<Eeprom, EhatromError>(EhatromError::Truncated),
            data@.len() >= 12 && data@.subrange(0, 4) != spec_signature() ==> r == Err::<
                Eeprom,
                EhatromError,
            >(EhatromError::InvalidSignature),
            data@.len() >= 12 && data@.subrange(0, 4) == spec_signature() && data@[4] == 0 ==> r
                == Err::<Eeprom, EhatromError>(EhatromError::UnsupportedVersion),
            data@.len() >= 12 && data@.subrange(0, 4) == spec_signature() && data@[4] != 0 && (
            spec_u32_from_le_bytes(data@.subrange(8, 12)) < 16 || spec_u32_from_le_bytes(
                data@.subrange(8, 12),
            ) > data@.len()) ==> r == Err::<Eeprom, EhatromError>(EhatromError::Truncated),
    {
        let lr = Self::from_bytes_lenient(data);
        let r: Result<Eeprom, EhatromError> = match lr {
            Ok((img, true)) => Ok(img),
            Ok((img, false)) => Err(EhatromError::ImageCrcMismatch),
            Err(e) => Err(e),
        };
        proof {
            assert forall|img: Eeprom| img.wf() && data@ == img.spec_bytes() implies (r matches Ok(
                p,
            ) && p.content_eq(img)) by {
                img.lemma_spec_bytes_header();
                let p0 = lr->Ok_0.0;
                assert(lr matches Ok(q) && q.1);
                assert(r == Ok::<Eeprom, EhatromError>(p0));
                assert(p0.spec_len() == data@.len());
                assert(p0.spec_bytes() =~= data@);
                p0.lemma_spec_bytes_content_injective(img);
            }
        }
        r
    }
}

impl Eeprom {
    /// Header facts of the serialized form, read back from the bytes.
    pub proof fn lemma_spec_bytes_header(self)
        requires
            self.wf(),
        ensures
            self.spec_bytes().len() == self.spec_len(),
            self.spec_len() >= 90,
            self.spec_bytes().subrange(0, 4) == spec_signature(),
            self.spec_bytes()[4] == self.header.version,
            self.spec_bytes()[5] == self.header.reserved,
            vstd::bytes::spec_u16_from_le_bytes(self.spec_bytes().subrange(6, 8)) as int
                == self.spec_atom_count(),
            spec_u32_from_le_bytes(self.spec_bytes().subrange(8, 12)) as int == self.spec_len(),
    {
        self.lemma_spec_bytes_len();
        let hdr = header_bytes(
            self.header.version,
            self.header.reserved,
            self.spec_atom_count() as u16,
            self.spec_len() as u32,
        );
        lemma_header_bytes_len(
            self.header.version,
            self.header.reserved,
            self.spec_atom_count() as u16,
            self.spec_len() as u32,
        );
        lemma_auto_spec_u16_to_from_le_bytes();
        lemma_auto_spec_u32_to_from_le_bytes();
        assert(self.spec_bytes().subrange(0, 4) =~= spec_signature());
        assert(self.spec_bytes().subrange(6, 8) =~= spec_u16_to_le_bytes(
            self.spec_atom_count() as u16,
        ));
        assert(self.spec_bytes().subrange(8, 12) =~= spec_u32_to_le_bytes(self.spec_len() as u32));
        self.lemma_wire_shape();
    }

    /// Serialization is a function of the image alone: two serializations of
    /// one image are byte-identical.
    pub proof fn lemma_serialize_deterministic(self, out1: Seq<u8>, out2: Seq<u8>)
        requires
            out1 == self.spec_bytes(),
            out2 == self.spec_bytes(),
        ensures
            out1 == out2,
    {
    }

    /// A serialized well-formed image passes the whole-image checksum test.
    pub proof fn lemma_serialized_crc_ok(self)
        requires
            self.wf(),
        ensures
            spec_crc_region_ok(self.spec_bytes()),
    {
        self.lemma_spec_bytes_header();
        self.lemma_spec_bytes_len();
        lemma_auto_spec_u32_to_from_le_bytes();
        let sb = self.spec_bytes();
        let elen = self.spec_len();
        assert(sb.subrange(elen - 4, elen) =~= spec_u32_to_le_bytes(crc32_spec(self.spec_body())));
        assert(sb.subrange(0, elen - 4) =~= self.spec_body());
    }

    /// Any strict prefix of a serialized image presents either too few bytes
    /// for a header, or an intact header whose declared total length exceeds
    /// the prefix: exactly the two conditions parsing reports as truncation,
    /// and never as a checksum mismatch.
    pub proof fn lemma_strict_prefix_is_truncated(self, k: int)
        requires
            self.wf(),
            0 <= k < self.spec_len(),
        ensures
            ({
                let p = self.spec_bytes().subrange(0, k);
                p.len() < 12 || (p.subrange(0, 4) == spec_signature() && p[4] != 0
                    && spec_u32_from_le_bytes(p.subrange(8, 12)) > p.len())
            }),
    {
        self.lemma_spec_bytes_header();
        let p = self.spec_bytes().subrange(0, k);
        if k >= 12 {
            assert(p.subrange(0, 4) =~= self.spec_bytes().subrange(0, 4));
            assert(p[4] == self.spec_bytes()[4]);
            assert(p.subrange(8, 12) =~= self.spec_bytes().subrange(8, 12));
        }
    }

    /// Appending one Custom atom adds exactly one record and exactly ten
    /// framing bytes plus its payload to the serialized length.
    pub proof fn lemma_custom_atom_growth(self, grown: Eeprom, c: CustomAtom)
        requires
            grown.vendor_info == self.vendor_info,
            grown.gpio_map_bank0 == self.gpio_map_bank0,
            opt_bytes(grown.dt_blob) == opt_bytes(self.dt_blob),
            grown.gpio_map_bank1 == self.gpio_map_bank1,
            grown.custom_atoms@ == self.custom_atoms@.push(c),
        ensures
            grown.spec_atom_count() == self.spec_atom_count() + 1,
            grown.spec_len() == self.spec_len() + 10 + c.data@.len(),
    {
        let w1 = self.wire_atoms();
        let w2 = grown.wire_atoms();
        assert(custom_tuples(grown.custom_atoms@) =~= custom_tuples(self.custom_atoms@).push(
            (c.type_code, c.data@),
        ));
        assert(w2 =~= w1.push((c.type_code, c.data@)));
        lemma_atoms_size_push(w1, (c.type_code, c.data@));
    }

    /// Structural equality of image contents: the header's derived count
    /// and length cache is left out, and byte strings are compared by
    /// contents.
    pub open spec fn content_eq(self, o: Eeprom) -> bool {
        &&& self.header.version == o.header.version
        &&& self.header.reserved == o.header.reserved
        &&& self.vendor_info.content_eq(o.vendor_info)
        &&& self.gpio_map_bank0 == o.gpio_map_bank0
        &&& opt_bytes(self.dt_blob) == opt_bytes(o.dt_blob)
        &&& self.gpio_map_bank1 == o.gpio_map_bank1
        &&& custom_tuples(self.custom_atoms@) == custom_tuples(o.custom_atoms@)
    }

    /// Equal wire atom lists come from images with equal atom contents: the
    /// type codes at the head of the list separate the typed slots, and a
    /// Custom atom can never carry a reserved code.
    pub proof fn lemma_wire_atoms_determine_atoms(self, o: Eeprom)
        requires
            self.wf(),
            o.wf(),
            self.wire_atoms() == o.wire_atoms(),
        ensures
            self.vendor_info.content_eq(o.vendor_info),
            self.gpio_map_bank0 == o.gpio_map_bank0,
            opt_bytes(self.dt_blob) == opt_bytes(o.dt_blob),
            self.gpio_map_bank1 == o.gpio_map_bank1,
            custom_tuples(self.custom_atoms@) == custom_tuples(o.custom_atoms@),
    {
        self.lemma_wire_shape();
        o.lemma_wire_shape();
        let w = self.wire_atoms();
        assert(w[0] == (ATOM_TYPE_VENDOR_INFO, self.vendor_info.spec_payload()));
        assert(w[0] == (ATOM_TYPE_VENDOR_INFO, o.vendor_info.spec_payload()));
        self.vendor_info.lemma_payload_determines_content(o.vendor_info);
        assert(w[1] == (ATOM_TYPE_GPIO_MAP_BANK0, self.gpio_map_bank0.spec_payload()));
        assert(w[1] == (ATOM_TYPE_GPIO_MAP_BANK0, o.gpio_map_bank0.spec_payload()));
        self.gpio_map_bank0.lemma_payload_determines_content(o.gpio_map_bank0);
        let da = if self.dt_blob is Some {
            1int
        } else {
            0int
        };
        let db = if o.dt_blob is Some {
            1int
        } else {
            0int
        };
        let ga = if self.gpio_map_bank1 is Some {
            1int
        } else {
            0int
        };
        let gb = if o.gpio_map_bank1 is Some {
            1int
        } else {
            0int
        };
        assert(da == db) by {
            if da == 1 && db == 0 {
                self.lemma_wire_code_positions(2);
                o.lemma_wire_code_positions(2);
            }
            if da == 0 && db == 1 {
                self.lemma_wire_code_positions(2);
                o.lemma_wire_code_positions(2);
            }
        }
        if self.dt_blob is Some {
            self.lemma_wire_code_positions(2);
            o.lemma_wire_code_positions(2);
            assert(opt_bytes(self.dt_blob) == opt_bytes(o.dt_blob));
        }
        assert(ga == gb) by {
            let p = 2 + da;
            if ga != gb && p < w.len() {
                self.lemma_wire_code_positions(p);
                o.lemma_wire_code_positions(p);
            }
        }
        if self.gpio_map_bank1 is Some {
            let p = 2 + da;
            self.lemma_wire_code_positions(p);
            o.lemma_wire_code_positions(p);
            self.gpio_map_bank1->0.lemma_payload_determines_content(o.gpio_map_bank1->0);
            assert(self.gpio_map_bank1 == o.gpio_map_bank1);
        }
        let base = 2 + da + ga;
        assert(custom_tuples(self.custom_atoms@) =~= w.subrange(base, w.len() as int));
        assert(custom_tuples(o.custom_atoms@) =~= w.subrange(base, w.len() as int));
    }

    /// What each position of the wire list can hold: the blob code appears
    /// exactly when the blob slot is filled and only at its fixed position,
    /// likewise the bank-1 code, and the custom region holds the Custom
    /// atoms, whose codes are never reserved ones.
    pub proof fn lemma_wire_code_positions(self, p: int)
        requires
            self.wf(),
            0 <= p < self.wire_atoms().len(),
        ensures
            self.wire_atoms()[p].0 == ATOM_TYPE_VENDOR_INFO <==> p == 0,
            p == 0 ==> self.wire_atoms()[p].1 == self.vendor_info.spec_payload(),
            self.wire_atoms()[p].0 == ATOM_TYPE_GPIO_MAP_BANK0 <==> p == 1,
            p == 1 ==> self.wire_atoms()[p].1 == self.gpio_map_bank0.spec_payload(),
            !crate::wire::is_reserved_type(self.wire_atoms()[p].0) <==> p >= 2 + (if self.dt_blob
                is Some {
                1int
            } else {
                0int
            }) + (if self.gpio_map_bank1 is Some {
                1int
            } else {
                0int
            }),
            self.wire_atoms()[p].0 == ATOM_TYPE_DT_BLOB <==> (self.dt_blob is Some && p == 2),
            self.dt_blob is Some && p == 2 ==> self.wire_atoms()[p].1 == self.dt_blob->0@,
            self.wire_atoms()[p].0 == ATOM_TYPE_GPIO_MAP_BANK1 <==> (self.gpio_map_bank1 is Some
                && p == 2 + (if self.dt_blob is Some {
                1int
            } else {
                0int
            })),
            self.gpio_map_bank1 is Some && p == 2 + (if self.dt_blob is Some {
                1int
            } else {
                0int
            }) ==> self.wire_atoms()[p].1 == self.gpio_map_bank1->0.spec_payload(),
    {
        self.lemma_wire_shape();
        let w = self.wire_atoms();
        let sv = seq![(ATOM_TYPE_VENDOR_INFO, self.vendor_info.spec_payload())];
        let sg = seq![(ATOM_TYPE_GPIO_MAP_BANK0, self.gpio_map_bank0.spec_payload())];
        let sd = match self.dt_blob {
            Some(b) => seq![(ATOM_TYPE_DT_BLOB, b@)],
            None => Seq::<(u16, Seq<u8>)>::empty(),
        };
        let s1 = match self.gpio_map_bank1 {
            Some(g) => seq![(ATOM_TYPE_GPIO_MAP_BANK1, g.spec_payload())],
            None => Seq::<(u16, Seq<u8>)>::empty(),
        };
        let m = custom_tuples(self.custom_atoms@);
        assert(w == sv + sg + sd + s1 + m);
        let base = 2 + sd.len() + s1.len();
        if p >= base {
            let j = p - base;
            assert(w[p] == m[j]);
            assert(m[j] == (self.custom_atoms@[j].type_code, self.custom_atoms@[j].data@));
            assert(self.custom_atoms@[j].wf());
            assert(!crate::wire::is_reserved_type(m[j].0));
        }
    }

    /// Equal serialized images have equal contents: the byte layout is
    /// injective up to the header's derived cache fields.
    pub proof fn lemma_spec_bytes_content_injective(self, o: Eeprom)
        requires
            self.wf(),
            o.wf(),
            self.spec_bytes() == o.spec_bytes(),
        ensures
            self.content_eq(o),
    {
        self.lemma_spec_bytes_header();
        o.lemma_spec_bytes_header();
        self.lemma_spec_bytes_len();
        o.lemma_spec_bytes_len();
        lemma_header_bytes_len(
            self.header.version,
            self.header.reserved,
            self.spec_atom_count() as u16,
            self.spec_len() as u32,
        );
        lemma_header_bytes_len(
            o.header.version,
            o.header.reserved,
            o.spec_atom_count() as u16,
            o.spec_len() as u32,
        );
        let wa = self.wire_atoms();
        let wb = o.wire_atoms();
        lemma_atoms_bytes_len(wa, 0);
        lemma_atoms_bytes_len(wb, 0);
        assert(self.spec_len() == o.spec_len());
        assert(self.spec_atom_count() == o.spec_atom_count());
        assert(atoms_bytes(wa, 0) =~= self.spec_bytes().subrange(12, self.spec_len() - 4));
        assert(atoms_bytes(wb, 0) =~= o.spec_bytes().subrange(12, o.spec_len() - 4));
        assert(forall|k: int| 0 <= k < wa.len() ==> #[trigger] wa[k].1.len() + 2 <= 0xFFFFFFFF) by {
            assert forall|k: int| 0 <= k < wa.len() implies #[trigger] wa[k].1.len() + 2
                <= 0xFFFFFFFF by {
                lemma_atoms_size_elem_bound(wa, k);
            }
        }
        assert(forall|k: int| 0 <= k < wb.len() ==> #[trigger] wb[k].1.len() + 2 <= 0xFFFFFFFF) by {
            assert forall|k: int| 0 <= k < wb.len() implies #[trigger] wb[k].1.len() + 2
                <= 0xFFFFFFFF by {
                lemma_atoms_size_elem_bound(wb, k);
            }
        }
        crate::wire::lemma_atoms_bytes_injective(wa, wb, 0);
        self.lemma_wire_atoms_determine_atoms(o);
    }

    /// Append a Custom atom to the image.  The count and length limits of
    /// the wire format's header fields must not be exceeded.
    pub fn add_custom(&mut self, atom: CustomAtom)
        requires
            old(self).wf(),
            atom.wf(),
            old(self).spec_atom_count() + 1 <= 0xFFFF,
            old(self).spec_len() + 10 + atom.data@.len() <= 0xFFFFFFFF,
        ensures
            final(self).header == old(self).header,
            final(self).vendor_info == old(self).vendor_info,
            final(self).gpio_map_bank0 == old(self).gpio_map_bank0,
            final(self).dt_blob == old(self).dt_blob,
            final(self).gpio_map_bank1 == old(self).gpio_map_bank1,
            final(self).custom_atoms@ == old(self).custom_atoms@.push(atom),
            final(self).wf(),
            final(self).spec_atom_count() == old(self).spec_atom_count() + 1,
            final(self).spec_len() == old(self).spec_len() + 10 + atom.data@.len(),
    {
        let ghost before = *self;
        let ghost a = atom;
        self.custom_atoms.push(atom);
        proof {
            before.lemma_custom_atom_growth(*self, a);
        }
    }
}

/// Where the records of a serialized image lie: the `k`-th record starts
/// right after the records before it, and each of its fields sits at its
/// fixed offset within it.
#[verifier::spinoff_prover]
#[verifier::rlimit(100)]
proof fn lemma_src_record_at(src: Eeprom, data: Seq<u8>, k: int, off: int)
    requires
        src.wf(),
        data == src.spec_bytes(),
        0 <= k < src.wire_atoms().len(),
        off == 12 + atoms_size(src.wire_atoms().take(k)),
    ensures
        ({
            let w = src.wire_atoms();
            let plen = w[k].1.len() as int;
            &&& off + 10 + plen <= src.spec_len() - 4
            &&& 12 + atoms_size(w.take(k + 1)) == off + 10 + plen
            &&& plen + 2 <= 0xFFFFFFFF
            &&& data.subrange(off, off + 2) == spec_u16_to_le_bytes(w[k].0)
            &&& data.subrange(off + 2, off + 4) == spec_u16_to_le_bytes(k as u16)
            &&& data.subrange(off + 4, off + 8) == spec_u32_to_le_bytes((plen + 2) as u32)
            &&& data.subrange(off + 8, off + 8 + plen) == w[k].1
            &&& data.subrange(off, off + 8 + plen) == record_body(w[k].0, k as u16, w[k].1)
            &&& data.subrange(off + 8 + plen, off + 10 + plen) == spec_u16_to_le_bytes(
                crc16_spec(record_body(w[k].0, k as u16, w[k].1)),
            )
        }),
{
    lemma_auto_spec_u16_to_from_le_bytes();
    lemma_auto_spec_u32_to_from_le_bytes();
    let w = src.wire_atoms();
    let plen = w[k].1.len() as int;
    src.lemma_spec_bytes_len();
    lemma_header_bytes_len(
        src.header.version,
        src.header.reserved,
        src.spec_atom_count() as u16,
        src.spec_len() as u32,
    );
    lemma_atoms_bytes_len(w, 0);
    lemma_atoms_bytes_len(w.take(k), 0);
    lemma_atoms_bytes_len(w.take(k + 1), 0);
    lemma_atoms_size_take_succ(w, k);
    lemma_atoms_size_take_skip(w, k + 1);
    lemma_atoms_size_nonneg(w.skip(k + 1));
    lemma_atoms_size_elem_bound(w, k);
    lemma_record_bytes_len(w[k].0, k as u16, w[k].1);
    assert(atoms_bytes(w, 0) =~= data.subrange(12, src.spec_len() - 4));
    assert(w =~= w.take(k + 1) + w.skip(k + 1));
    lemma_atoms_bytes_concat(w.take(k + 1), w.skip(k + 1), 0);
    lemma_atoms_bytes_take_succ(w, 0, k);
    let rec = record_bytes(w[k].0, k as u16, w[k].1);
    let rlen = 10 + plen;
    assert(atoms_bytes(w, 0) == atoms_bytes(w.take(k), 0) + rec + atoms_bytes(
        w.skip(k + 1),
        k + 1,
    ));
    assert(forall|j: int|
        0 <= j < rlen ==> atoms_bytes(w, 0)[off - 12 + j] == #[trigger] rec[j]);
    assert(forall|j: int|
        0 <= j < rlen ==> #[trigger] data[off + j] == atoms_bytes(w, 0)[off - 12 + j]);
    assert(data.subrange(off, off + rlen) =~= rec);
    assert(rec.subrange(0, 2) =~= spec_u16_to_le_bytes(w[k].0));
    assert(rec.subrange(2, 4) =~= spec_u16_to_le_bytes(k as u16));
    assert(rec.subrange(4, 8) =~= spec_u32_to_le_bytes((plen + 2) as u32));
    assert(rec.subrange(8, 8 + plen) =~= w[k].1);
    assert(rec.subrange(0, 8 + plen) =~= record_body(w[k].0, k as u16, w[k].1));
    assert(rec.subrange(8 + plen, rlen) =~= spec_u16_to_le_bytes(
        crc16_spec(record_body(w[k].0, k as u16, w[k].1)),
    ));
    assert(data.subrange(off, off + 2) =~= rec.subrange(0, 2));
    assert(data.subrange(off + 2, off + 4) =~= rec.subrange(2, 4));
    assert(data.subrange(off + 4, off + 8) =~= rec.subrange(4, 8));
    assert(data.subrange(off + 8, off + 8 + plen) =~= rec.subrange(8, 8 + plen));
    assert(data.subrange(off, off + 8 + plen) =~= rec.subrange(0, 8 + plen));
    assert(data.subrange(off + 8 + plen, off + 10 + plen) =~= rec.subrange(8 + plen, rlen));
}

/// Two images whose serialized forms agree everywhere below `pos` and have
/// equally many records lay their first `m` record boundaries identically,
/// provided `pos` lies at or past the payload of record `m`: the boundaries
/// are fixed by the length fields, which all sit below `pos`.
proof fn lemma_boundaries_agree(a: Eeprom, b: Eeprom, pos: int, m: int)
    requires
        a.wf(),
        b.wf(),
        a.spec_bytes().len() == b.spec_bytes().len(),
        a.wire_atoms().len() == b.wire_atoms().len(),
        forall|x: int|
            0 <= x < a.spec_bytes().len() && x != pos ==> a.spec_bytes()[x] == b.spec_bytes()[x],
        0 <= m <= a.wire_atoms().len(),
        12 + atoms_size(a.wire_atoms().take(m)) + 8 <= pos,
    ensures
        atoms_size(a.wire_atoms().take(m)) == atoms_size(b.wire_atoms().take(m)),
    decreases m,
{
    lemma_auto_spec_u32_to_from_le_bytes();
    let wa = a.wire_atoms();
    let wb = b.wire_atoms();
    if m == 0 {
        assert(wa.take(0) =~= Seq::<(u16, Seq<u8>)>::empty());
        assert(wb.take(0) =~= Seq::<(u16, Seq<u8>)>::empty());
    } else {
        lemma_atoms_size_take_succ(wa, m - 1);
        lemma_boundaries_agree(a, b, pos, m - 1);
        let off = 12 + atoms_size(wa.take(m - 1));
        lemma_src_record_at(a, a.spec_bytes(), m - 1, off);
        lemma_src_record_at(b, b.spec_bytes(), m - 1, off);
        a.lemma_spec_bytes_len();
        lemma_atoms_size_nonneg(wa.take(m - 1));
        assert(off + 8 <= pos);
        assert forall|x: int| off + 4 <= x < off + 8 implies #[trigger] a.spec_bytes()[x]
            == b.spec_bytes()[x] by {
            assert(0 <= x < a.spec_bytes().len());
            assert(x != pos);
        }
        assert(a.spec_bytes().subrange(off + 4, off + 8) =~= b.spec_bytes().subrange(
            off + 4,
            off + 8,
        ));
        let la = wa[m - 1].1.len() as int;
        let lb = wb[m - 1].1.len() as int;
        assert((la + 2) as u32 == (lb + 2) as u32);
        assert(la == lb);
        lemma_atoms_size_take_succ(wb, m - 1);
    }
}

impl Eeprom {
    /// Corrupting one payload byte of one record of a serialized image
    /// yields a buffer that is not the serialized form of any well-formed
    /// image: the record's checksum trailer no longer matches its body, and
    /// serialization always writes a matching one.  Together with the parse
    /// contract this means such a buffer can never parse successfully.
    pub proof fn lemma_payload_corruption_unparseable(self, q: Eeprom, k: int, j: int, b: u8)
        requires
            self.wf(),
            q.wf(),
            0 <= k < self.wire_atoms().len(),
            0 <= j < self.wire_atoms()[k].1.len(),
            b != self.spec_bytes()[12 + atoms_size(self.wire_atoms().take(k)) + 8 + j],
        ensures
            q.spec_bytes() != self.spec_bytes().update(
                12 + atoms_size(self.wire_atoms().take(k)) + 8 + j,
                b,
            ),
    {
        lemma_auto_spec_u16_to_from_le_bytes();
        lemma_auto_spec_u32_to_from_le_bytes();
        let w = self.wire_atoms();
        let off = 12 + atoms_size(w.take(k));
        let plen = w[k].1.len() as int;
        let pos = off + 8 + j;
        let s1 = self.spec_bytes();
        let s2 = s1.update(pos, b);
        self.lemma_spec_bytes_header();
        self.lemma_spec_bytes_len();
        lemma_src_record_at(self, s1, k, off);
        crate::wire::lemma_atoms_size_nonneg(w.take(k));
        assert(pos >= 20);
        if q.spec_bytes() == s2 {
            q.lemma_spec_bytes_header();
            q.lemma_spec_bytes_len();
            assert(s2.len() == s1.len());
            assert(forall|x: int| 0 <= x < s1.len() && x != pos ==> #[trigger] s2[x] == s1[x]);
            assert(s2.subrange(8, 12) =~= s1.subrange(8, 12));
            assert(q.spec_len() == self.spec_len());
            assert(s2.subrange(6, 8) =~= s1.subrange(6, 8));
            assert(q.spec_atom_count() == self.spec_atom_count());
            lemma_boundaries_agree(self, q, pos, k);
            let wq = q.wire_atoms();
            lemma_src_record_at(q, s2, k, off);
            assert(s2.subrange(off + 4, off + 8) =~= s1.subrange(off + 4, off + 8));
            let lq = wq[k].1.len() as int;
            assert((lq + 2) as u32 == (plen + 2) as u32);
            assert(lq == plen);
            let body1 = record_body(w[k].0, k as u16, w[k].1);
            let body2 = record_body(wq[k].0, k as u16, wq[k].1);
            assert(body1 == s1.subrange(off, off + 8 + plen));
            assert(body2 == s2.subrange(off, off + 8 + plen));
            assert(body1.len() == body2.len()) by {
                lemma_record_bytes_len(w[k].0, k as u16, w[k].1);
                lemma_record_bytes_len(wq[k].0, k as u16, wq[k].1);
            }
            assert(body2[8 + j] == b && body1[8 + j] != b);
            assert(forall|x: int|
                0 <= x < body1.len() && x != 8 + j ==> #[trigger] body1[x] == body2[x]);
            crate::crc::lemma_crc16_detects_single_byte_change(body1, body2, 8 + j);
            assert(s2.subrange(off + 8 + plen, off + 10 + plen) =~= s1.subrange(
                off + 8 + plen,
                off + 10 + plen,
            ));
            assert(spec_u16_to_le_bytes(crc16_spec(body1)) == spec_u16_to_le_bytes(
                crc16_spec(body2),
            ));
            assert(spec_u16_from_le_bytes(spec_u16_to_le_bytes(crc16_spec(body1)))
                == crc16_spec(body1));
            assert(spec_u16_from_le_bytes(spec_u16_to_le_bytes(crc16_spec(body2)))
                == crc16_spec(body2));
            assert(false);
        }
    }
}

/// The phase the parser's order machine reaches after the first `k` records
/// of this image's wire form.
spec fn spec_phase_of(src: Eeprom, k: int) -> int {
    let d = if src.dt_blob is Some {
        1int
    } else {
        0int
    };
    let g = if src.gpio_map_bank1 is Some {
        1int
    } else {
        0int
    };
    if k == 0 {
        0
    } else if k == 1 {
        1
    } else if k == 2 {
        2
    } else if d == 1 && k == 3 {
        3
    } else if g == 1 && k == 3 + d {
        4
    } else {
        5
    }
}

/// The byte view of an optional opaque blob.
pub open spec fn opt_bytes(o: Option<Vec<u8>>) -> Option<Seq<u8>> {
    match o {
        Some(b) => Some(b@),
        None => None,
    }
}

/// The stored CRC-32 trailer matches a recomputation over the region that
/// the header's total length declares.
pub open spec fn spec_crc_region_ok(s: Seq<u8>) -> bool {
    &&& s.len() >= 12
    &&& {
        let elen = spec_u32_from_le_bytes(s.subrange(8, 12)) as int;
        &&& elen >= 16
        &&& elen <= s.len()
        &&& s.subrange(elen - 4, elen) == spec_u32_to_le_bytes(crc32_spec(s.subrange(0, elen - 4)))
    }
}

} // verus!
