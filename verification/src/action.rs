//! The AWDL action frame: how you tell an AWDL frame from every other frame in the air.
//!
//! AWDL rides inside an 802.11 vendor-specific action frame. Four things have to
//! line up, and checking fewer than all four is how a capture ends up full of other
//! vendors' traffic:
//!
//! ```text
//!   802.11 type/subtype   management / action        (0 / 13)
//!   category              0x7f  vendor specific
//!   OUI                   00:17:f2                   Apple
//!   awdl type             0x08                       Apple's own sub-protocol tag
//! ```
//!
//! The OUI alone is not enough. Apple puts several protocols behind `00:17:f2`, and
//! the type byte after it is what says AWDL rather than something else.

use vstd::prelude::*;
use crate::le;
use crate::le::spec_u32;
use crate::tlv::{spec_entries, spec_stop, Tlvs};

verus! {

/// IEEE 802.11 action category for vendor-specific frames.
pub const CATEGORY_VENDOR_SPECIFIC: u8 = 0x7f;

/// Apple's OUI, as it appears on the wire.
pub const OUI_APPLE: [u8; 3] = [0x00, 0x17, 0xf2];

/// The byte after the OUI that distinguishes AWDL from Apple's other vendor frames.
pub const AWDL_TYPE: u8 = 0x08;

/// Periodic Synchronization Frame: sent frequently, carries timing.
pub const SUBTYPE_PSF: u8 = 0;

/// Master Indication Frame: sent by the elected master, carries the full parameter set.
pub const SUBTYPE_MIF: u8 = 3;

/// The short name of a frame subtype.
pub open spec fn spec_subtype_name(s: u8) -> Seq<char> {
    if s == SUBTYPE_PSF {
        "PSF"@
    } else if s == SUBTYPE_MIF {
        "MIF"@
    } else {
        "unknown"@
    }
}

/// The short name of a frame subtype: "PSF", "MIF" or "unknown".
pub fn subtype_name(s: u8) -> (res: &'static str)
    ensures
        res@ == spec_subtype_name(s),
{
    if s == SUBTYPE_PSF {
        "PSF"
    } else if s == SUBTYPE_MIF {
        "MIF"
    } else {
        "unknown"
    }
}

/// AWDL's 12-byte fixed header, which precedes the TLVs.
#[derive(Debug, Clone, PartialEq, Eq, Structural)]
pub struct Fixed {
    pub version_major: u8,
    pub version_minor: u8,
    pub subtype: u8,
    /// Time the PHY actually started transmitting, in TU-derived units.
    pub phy_tx_time: u32,
    /// Time the sender *intended* to transmit.
    pub target_tx_time: u32,
}

/// `a - b` on 32-bit counters that wrap.
pub open spec fn spec_wrapping_sub_u32(a: u32, b: u32) -> u32 {
    if a >= b {
        (a - b) as u32
    } else {
        (a - b + 0x1_0000_0000) as u32
    }
}

impl Fixed {
    /// How late the frame went out.
    ///
    /// This is the sender telling you its own transmit jitter, and it is what any
    /// receiver has to compensate for to stay in the cluster. Wraps like the counters
    /// it is derived from, hence the wrapping subtraction.
    pub fn tx_delay(&self) -> (res: u32)
        ensures
            res == spec_wrapping_sub_u32(self.phy_tx_time, self.target_tx_time),
            (self.target_tx_time + res) % 0x1_0000_0000 == self.phy_tx_time,
    {
        self.phy_tx_time.wrapping_sub(self.target_tx_time)
    }
}

/// Whether a frame body is an AWDL action frame: vendor-specific category, Apple's
/// OUI, the AWDL type byte, and room for the whole fixed header.
pub open spec fn is_awdl_body(b: Seq<u8>) -> bool {
    &&& b.len() >= 16
    &&& b[0] == CATEGORY_VENDOR_SPECIFIC
    &&& b[1] == 0x00u8
    &&& b[2] == 0x17u8
    &&& b[3] == 0xf2u8
    &&& b[4] == AWDL_TYPE
}

#[derive(Debug, Clone, PartialEq, Eq)]
pub struct ActionFrame<'a> {
    pub fixed: Fixed,
    /// The TLV region, unparsed. Walk it with `tlvs()`.
    pub tagged: &'a [u8],
}

impl<'a> ActionFrame<'a> {
    /// Parse an AWDL action frame from an 802.11 frame body (i.e. after the 24-byte
    /// management header).
    ///
    /// Returns None for any frame that is not AWDL. That is the common case by a wide
    /// margin, so this is a filter, not an error path.
    pub fn parse(body: &'a [u8]) -> (res: Option<ActionFrame<'a>>)
        ensures
            res is Some <==> is_awdl_body(body@),
            res is Some <==> (body@.len() >= 16 && body@[0] == 0x7f && body@[1] == 0x00
                && body@[2] == 0x17 && body@[3] == 0xf2 && body@[4] == 0x08),
            res matches Some(af) ==> {
                &&& af.fixed.version_major == body@[5] / 16
                &&& af.fixed.version_minor == body@[5] % 16
                &&& af.fixed.subtype == body@[6]
                &&& af.fixed.phy_tx_time == spec_u32(body@, 8)
                &&& af.fixed.target_tx_time == spec_u32(body@, 12)
                &&& af.tagged@ == body@.subrange(16, body@.len() as int)
            },
    {
        let category = match le::u8(body, 0) {
            Some(c) => c,
            None => return None,
        };
        if category != CATEGORY_VENDOR_SPECIFIC {
            return None;
        }
        if body.len() < 4 {
            return None;
        }
        if body[1] != OUI_APPLE[0] || body[2] != OUI_APPLE[1] || body[3] != OUI_APPLE[2] {
            return None;
        }
        // The AWDL fixed header begins at the type byte, which is also the first byte
        // of the 12-byte block Wireshark labels "fixed parameters".
        let t = match le::u8(body, 4) {
            Some(t) => t,
            None => return None,
        };
        if t != AWDL_TYPE {
            return None;
        }
        let version = match le::u8(body, 5) {
            Some(v) => v,
            None => return None,
        };
        let subtype = match le::u8(body, 6) {
            Some(s) => s,
            None => return None,
        };
        // body[7] is reserved and has been zero in everything seen so far.
        let phy_tx_time = match le::u32(body, 8) {
            Some(x) => x,
            None => return None,
        };
        let target_tx_time = match le::u32(body, 12) {
            Some(x) => x,
            None => return None,
        };
        assert(version >> 4u8 == version / 16 && version & 0x0fu8 == version % 16)
            by (bit_vector);
        let fixed = Fixed {
            // Version is a packed pair of nibbles: 0x10 is 1.0, not 16.
            version_major: version >> 4,
            version_minor: version & 0x0f,
            subtype,
            phy_tx_time,
            target_tx_time,
        };
        let tagged = vstd::slice::slice_subrange(body, 16, body.len());
        Some(ActionFrame { fixed, tagged })
    }

    /// A walk over the frame's tagged region.
    pub fn tlvs(&self) -> (res: Tlvs<'a>)
        ensures
            res.region() == self.tagged@,
            res.remaining() == spec_entries(self.tagged@),
            res.ending() == spec_stop(self.tagged@),
            !res.finished(),
    {
        Tlvs::new(self.tagged)
    }
}

/// A frame body counts as AWDL exactly when it holds the whole 16-byte prefix and its
/// first five bytes are the vendor-specific category 0x7f, Apple's OUI 00:17:f2 and
/// the AWDL type 0x08: all four markers, not a subset of them.
pub proof fn lemma_awdl_body_bytes(b: Seq<u8>)
    ensures
        is_awdl_body(b) <==> (b.len() >= 16 && b[0] == 0x7f && b[1] == 0x00 && b[2] == 0x17
            && b[3] == 0xf2 && b[4] == 0x08),
{
}

} // verus!
