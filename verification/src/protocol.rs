//! The protocol dimension: header and footer variants that break protocol
//! fingerprints.  The coordinate's protocol field selects one of seven fixed
//! variants.

use vstd::prelude::*;
use crate::coordinate::DimensionalCoordinate;

verus! {

/// One header/footer dressing for emitted fragments.
pub struct ProtocolVariant {
    pub header_template: Vec<u8>,
    pub footer_template: Vec<u8>,
    pub max_payload_size: usize,
}

/// The fixed variant table: a TCP-like and a UDP-like dressing, then five
/// custom ones.
pub open spec fn spec_protocol_variants() -> Seq<(Seq<u8>, Seq<u8>, usize)> {
    seq![
        (seq![0x54u8, 0x43u8, 0x50u8], seq![0x00u8, 0x00u8], 1400usize),
        (seq![0x55u8, 0x44u8, 0x50u8], seq![0xFFu8, 0xFFu8], 1200usize),
        (seq![0x50u8, 0x4Du8, 0x00u8], seq![0x00u8, 0x00u8], 1000usize),
        (seq![0x50u8, 0x4Du8, 0x01u8], seq![0x01u8, 0x00u8], 1100usize),
        (seq![0x50u8, 0x4Du8, 0x02u8], seq![0x02u8, 0x00u8], 1200usize),
        (seq![0x50u8, 0x4Du8, 0x03u8], seq![0x03u8, 0x00u8], 1300usize),
        (seq![0x50u8, 0x4Du8, 0x04u8], seq![0x04u8, 0x00u8], 1400usize),
    ]
}

/// Selects fragment dressings by the protocol dimension.
pub struct ProtocolMultiplexer {
    protocol_variants: Vec<ProtocolVariant>,
}

impl ProtocolMultiplexer {
    /// The variant table as plain values.
    pub closed spec fn variants(self) -> Seq<(Seq<u8>, Seq<u8>, usize)> {
        self.protocol_variants@.map_values(
            |v: ProtocolVariant| (v.header_template@, v.footer_template@, v.max_payload_size),
        )
    }

    pub fn new() -> (r: Self)
        ensures
            r.variants() == spec_protocol_variants(),
    {
        let mut variants: Vec<ProtocolVariant> = Vec::new();

        // TCP-like variant.
        let mut h: Vec<u8> = Vec::new();
        h.push(0x54);
        h.push(0x43);
        h.push(0x50);
        let mut f: Vec<u8> = Vec::new();
        f.push(0x00);
        f.push(0x00);
        variants.push(ProtocolVariant {
            header_template: h,
            footer_template: f,
            max_payload_size: 1400,
        });

        // UDP-like variant.
        let mut h: Vec<u8> = Vec::new();
        h.push(0x55);
        h.push(0x44);
        h.push(0x50);
        let mut f: Vec<u8> = Vec::new();
        f.push(0xFF);
        f.push(0xFF);
        variants.push(ProtocolVariant {
            header_template: h,
            footer_template: f,
            max_payload_size: 1200,
        });

        proof {
            assert(variants@.map_values(
                |v: ProtocolVariant| (v.header_template@, v.footer_template@, v.max_payload_size),
            ) =~~= spec_protocol_variants().subrange(0, 2));
        }

        // Five custom variants.
        let mut i: u8 = 0;
        while i < 5
            invariant
                i <= 5,
                variants@.len() == 2 + i,
                variants@.map_values(
                    |v: ProtocolVariant| (v.header_template@, v.footer_template@, v.max_payload_size),
                ) == spec_protocol_variants().subrange(0, 2 + i as int),
            decreases 5 - i,
        {
            let mut h: Vec<u8> = Vec::new();
            h.push(0x50);
            h.push(0x4D);
            h.push(i);
            let mut f: Vec<u8> = Vec::new();
            f.push(i);
            f.push(0x00);
            variants.push(ProtocolVariant {
                header_template: h,
                footer_template: f,
                max_payload_size: 1000 + (i as usize) * 100,
            });
            i = i + 1;
            proof {
                assert(variants@.map_values(
                    |v: ProtocolVariant| (v.header_template@, v.footer_template@, v.max_payload_size),
                ) =~~= spec_protocol_variants().subrange(0, 2 + i as int));
            }
        }
        let r = ProtocolMultiplexer { protocol_variants: variants };
        proof {
            assert(spec_protocol_variants().subrange(0, 7) =~~= spec_protocol_variants());
            assert(r.variants() =~~= spec_protocol_variants());
        }
        r
    }

    /// The variant the coordinate's protocol dimension selects.
    pub fn select_variant(&self, coordinate: &DimensionalCoordinate) -> (r: &ProtocolVariant)
        requires
            self.variants().len() > 0,
        ensures
            ({
                let v = self.variants()[coordinate.protocol as int % self.variants().len() as int];
                r.header_template@ == v.0 && r.footer_template@ == v.1 && r.max_payload_size == v.2
            }),
    {
        let index: usize = (coordinate.protocol as usize) % self.protocol_variants.len();
        &self.protocol_variants[index]
    }
}

} // verus!
