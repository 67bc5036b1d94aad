//! Typed atom payload codecs: Vendor-Info, GPIO-Map, and Custom.  Each knows
//! the exact byte shape of its own payload; Device-Tree-Blob payloads are
//! opaque byte vectors and need no codec of their own.

use vstd::prelude::*;
use vstd::bytes::spec_u16_to_le_bytes;
use vstd::bytes::lemma_auto_spec_u16_to_from_le_bytes;
use crate::error::EhatromError;
use crate::wire::is_reserved_type;
use crate::wire::read_u16_at;
use crate::wire::push_u16_le;
use crate::wire::append_slice;

verus! {

broadcast use vstd::array::group_array_axioms;

/// The mandatory Vendor-Info atom: board identity plus two raw byte strings.
#[derive(Clone, Debug, PartialEq, Eq)]
pub struct VendorInfoAtom {
    pub vendor_id: u16,
    pub product_id: u16,
    pub product_ver: u16,
    pub uuid: [u8; 16],
    /// Vendor string, raw bytes, at most 255 of them.
    pub vendor: Vec<u8>,
    /// Product string, raw bytes, at most 255 of them.
    pub product: Vec<u8>,
}

impl VendorInfoAtom {
    /// The declared string lengths must fit their one-byte length fields.
    pub open spec fn wf(self) -> bool {
        self.vendor@.len() <= 255 && self.product@.len() <= 255
    }

    /// Exact payload bytes: ids, versions, the two string lengths, the
    /// UUID, then the two strings.
    pub open spec fn spec_payload(self) -> Seq<u8> {
        spec_u16_to_le_bytes(self.vendor_id) + spec_u16_to_le_bytes(self.product_id)
            + spec_u16_to_le_bytes(self.product_ver) + seq![
            self.vendor@.len() as u8,
            self.product@.len() as u8,
        ] + self.uuid@ + self.vendor@ + self.product@
    }

    /// Payload length: 24 fixed bytes plus the two strings.
    pub proof fn lemma_payload_len(self)
        ensures
            self.spec_payload().len() == 24 + self.vendor@.len() + self.product@.len(),
    {
        lemma_auto_spec_u16_to_from_le_bytes();
    }

    /// Equality of everything this atom stores, with byte strings compared
    /// by contents.
    pub open spec fn content_eq(self, o: VendorInfoAtom) -> bool {
        &&& self.vendor_id == o.vendor_id
        &&& self.product_id == o.product_id
        &&& self.product_ver == o.product_ver
        &&& self.uuid@ == o.uuid@
        &&& self.vendor@ == o.vendor@
        &&& self.product@ == o.product@
    }

    /// The payload bytes determine the atom: every field is read back from
    /// a fixed position or from the declared string lengths.
    pub proof fn lemma_payload_determines_content(self, o: VendorInfoAtom)
        requires
            self.wf(),
            o.wf(),
            self.spec_payload() == o.spec_payload(),
        ensures
            self.content_eq(o),
    {
        lemma_auto_spec_u16_to_from_le_bytes();
        let p = self.spec_payload();
        let q = o.spec_payload();
        self.lemma_payload_len();
        o.lemma_payload_len();
        assert(p.subrange(0, 2) =~= spec_u16_to_le_bytes(self.vendor_id));
        assert(q.subrange(0, 2) =~= spec_u16_to_le_bytes(o.vendor_id));
        assert(p.subrange(2, 4) =~= spec_u16_to_le_bytes(self.product_id));
        assert(q.subrange(2, 4) =~= spec_u16_to_le_bytes(o.product_id));
        assert(p.subrange(4, 6) =~= spec_u16_to_le_bytes(self.product_ver));
        assert(q.subrange(4, 6) =~= spec_u16_to_le_bytes(o.product_ver));
        assert(p[6] == self.vendor@.len() as u8);
        assert(q[6] == o.vendor@.len() as u8);
        assert(p[7] == self.product@.len() as u8);
        assert(q[7] == o.product@.len() as u8);
        assert(self.vendor@.len() == o.vendor@.len());
        assert(self.product@.len() == o.product@.len());
        assert(p.subrange(8, 24) =~= self.uuid@);
        assert(q.subrange(8, 24) =~= o.uuid@);
        let vl = self.vendor@.len() as int;
        let pl = self.product@.len() as int;
        assert(p.subrange(24, 24 + vl) =~= self.vendor@);
        assert(q.subrange(24, 24 + vl) =~= o.vendor@);
        assert(p.subrange(24 + vl, 24 + vl + pl) =~= self.product@);
        assert(q.subrange(24 + vl, 24 + vl + pl) =~= o.product@);
    }

    /// A well-formed atom's payload passes its own decoder's shape test.
    pub proof fn lemma_payload_shape(self)
        requires
            self.wf(),
        ensures
            vendor_payload_ok(self.spec_payload()),
    {
        lemma_auto_spec_u16_to_from_le_bytes();
        let p = self.spec_payload();
        self.lemma_payload_len();
        assert(p[6] == self.vendor@.len() as u8);
        assert(p[7] == self.product@.len() as u8);
    }

    /// Construct a Vendor-Info atom, rejecting strings longer than their
    /// one-byte length fields can declare.
    pub fn new(
        vendor_id: u16,
        product_id: u16,
        product_ver: u16,
        vendor: Vec<u8>,
        product: Vec<u8>,
        uuid: [u8; 16],
    ) -> (r: Result<VendorInfoAtom, EhatromError>)
        ensures
            vendor@.len() <= 255 && product@.len() <= 255 <==> r is Ok,
            r matches Ok(a) ==> a == (VendorInfoAtom {
                vendor_id,
                product_id,
                product_ver,
                uuid,
                vendor,
                product,
            }) && a.wf(),
            r is Err ==> r == Err::<VendorInfoAtom, EhatromError>(EhatromError::MalformedVendorInfo),
    {
        if vendor.len() > 255 || product.len() > 255 {
            return Err(EhatromError::MalformedVendorInfo);
        }
        Ok(VendorInfoAtom { vendor_id, product_id, product_ver, uuid, vendor, product })
    }

    /// Encode the payload bytes of this atom.
    pub fn encode_payload(&self) -> (out: Vec<u8>)
        requires
            self.wf(),
        ensures
            out@ == self.spec_payload(),
    {
        let mut out: Vec<u8> = Vec::new();
        push_u16_le(&mut out, self.vendor_id);
        push_u16_le(&mut out, self.product_id);
        push_u16_le(&mut out, self.product_ver);
        out.push(self.vendor.len() as u8);
        out.push(self.product.len() as u8);
        append_slice(&mut out, self.uuid.as_slice());
        append_slice(&mut out, self.vendor.as_slice());
        append_slice(&mut out, self.product.as_slice());
        proof {
            assert(out@ =~= self.spec_payload());
        }
        out
    }

    /// Decode a Vendor-Info payload.  It is well formed exactly when the
    /// declared string lengths fill the payload precisely.
    pub fn decode(payload: &[u8]) -> (r: Result<VendorInfoAtom, EhatromError>)
        ensures
            r is Ok <==> vendor_payload_ok(payload@),
            r matches Ok(a) ==> a.wf() && a.spec_payload() == payload@,
            r is Err ==> r == Err::<VendorInfoAtom, EhatromError>(EhatromError::MalformedVendorInfo),
    {
        proof {
            lemma_auto_spec_u16_to_from_le_bytes();
        }
        if payload.len() < 24 {
            return Err(EhatromError::MalformedVendorInfo);
        }
        let vlen = payload[6] as usize;
        let plen = payload[7] as usize;
        if payload.len() != 24 + vlen + plen {
            return Err(EhatromError::MalformedVendorInfo);
        }
        let vendor_id = read_u16_at(payload, 0);
        let product_id = read_u16_at(payload, 2);
        let product_ver = read_u16_at(payload, 4);
        let mut uuid: [u8; 16] = [0u8; 16];
        let mut i: usize = 0;
        while i < 16
            invariant
                i <= 16,
                payload@.len() >= 24,
                forall|j: int| 0 <= j < i ==> uuid@[j] == payload@[8 + j],
            decreases 16 - i,
        {
            uuid[i] = payload[8 + i];
            i = i + 1;
        }
        let vendor = crate::wire::copy_range(payload, 24, 24 + vlen);
        let product = crate::wire::copy_range(payload, 24 + vlen, 24 + vlen + plen);
        let a = VendorInfoAtom { vendor_id, product_id, product_ver, uuid, vendor, product };
        proof {
            assert(a.uuid@ =~= payload@.subrange(8, 24));
            assert(a.spec_payload() =~= payload@);
        }
        Ok(a)
    }
}

/// A Vendor-Info payload is well formed when its two declared string
/// lengths exactly fill the bytes after the 24 fixed ones.
pub open spec fn vendor_payload_ok(s: Seq<u8>) -> bool {
    s.len() >= 24 && s.len() == 24 + s[6] + s[7]
}

/// A GPIO-Map atom: two flag bytes and one opaque descriptor byte per pin.
#[derive(Clone, Copy, Debug, PartialEq, Eq)]
pub struct GpioMapAtom {
    pub flags: u16,
    /// One descriptor byte per usable header pin, stored opaquely.
    pub pins: [u8; 28],
}

impl GpioMapAtom {
    /// Exact payload bytes: flags then the 28 pin descriptors.
    pub open spec fn spec_payload(self) -> Seq<u8> {
        spec_u16_to_le_bytes(self.flags) + self.pins@
    }

    /// Payload length is always 30.
    pub proof fn lemma_payload_len(self)
        ensures
            self.spec_payload().len() == 30,
    {
        lemma_auto_spec_u16_to_from_le_bytes();
    }

    /// The payload bytes determine the atom outright: both fields sit at
    /// fixed positions.
    pub proof fn lemma_payload_determines_content(self, o: GpioMapAtom)
        requires
            self.spec_payload() == o.spec_payload(),
        ensures
            self == o,
    {
        lemma_auto_spec_u16_to_from_le_bytes();
        let p = self.spec_payload();
        let q = o.spec_payload();
        assert(p.subrange(0, 2) =~= spec_u16_to_le_bytes(self.flags));
        assert(q.subrange(0, 2) =~= spec_u16_to_le_bytes(o.flags));
        assert(p.subrange(2, 30) =~= self.pins@);
        assert(q.subrange(2, 30) =~= o.pins@);
        assert(self.pins =~= o.pins);
    }

    /// Encode the payload bytes of this atom.
    pub fn encode_payload(&self) -> (out: Vec<u8>)
        ensures
            out@ == self.spec_payload(),
    {
        let mut out: Vec<u8> = Vec::new();
        push_u16_le(&mut out, self.flags);
        append_slice(&mut out, self.pins.as_slice());
        proof {
            assert(out@ =~= self.spec_payload());
        }
        out
    }

    /// Decode a GPIO-Map payload, which must be exactly 30 bytes.
    pub fn decode(payload: &[u8]) -> (r: Result<GpioMapAtom, EhatromError>)
        ensures
            r is Ok <==> payload@.len() == 30,
            r matches Ok(a) ==> a.spec_payload() == payload@,
            r is Err ==> r == Err::<GpioMapAtom, EhatromError>(EhatromError::WrongPayloadLength),
    {
        if payload.len() != 30 {
            return Err(EhatromError::WrongPayloadLength);
        }
        let flags = read_u16_at(payload, 0);
        let mut pins: [u8; 28] = [0u8; 28];
        let mut i: usize = 0;
        while i < 28
            invariant
                i <= 28,
                payload@.len() == 30,
                forall|j: int| 0 <= j < i ==> pins@[j] == payload@[2 + j],
            decreases 28 - i,
        {
            pins[i] = payload[2 + i];
            i = i + 1;
        }
        let a = GpioMapAtom { flags, pins };
        proof {
            assert(a.pins@ =~= payload@.subrange(2, 30));
            assert(a.spec_payload() =~= payload@);
        }
        Ok(a)
    }
}

/// An application-defined atom: any non-reserved type code with an opaque
/// payload.
#[derive(Clone, Debug, PartialEq, Eq)]
pub struct CustomAtom {
    pub type_code: u16,
    pub data: Vec<u8>,
}

impl CustomAtom {
    /// The type code must not collide with the four standard atoms.
    pub open spec fn wf(self) -> bool {
        !is_reserved_type(self.type_code)
    }

    /// Construct a Custom atom, rejecting reserved type codes: a custom
    /// record carrying a standard code would masquerade as a second copy of
    /// that standard atom on the wire.
    pub fn new(type_code: u16, data: Vec<u8>) -> (r: Result<CustomAtom, EhatromError>)
        ensures
            !is_reserved_type(type_code) <==> r is Ok,
            r matches Ok(a) ==> a == (CustomAtom { type_code, data }) && a.wf(),
            r is Err ==> r == Err::<CustomAtom, EhatromError>(EhatromError::DuplicateAtom),
    {
        if type_code >= 0x0001 && type_code <= 0x0004 {
            return Err(EhatromError::DuplicateAtom);
        }
        Ok(CustomAtom { type_code, data })
    }
}

} // verus!
