//! The tagged region of an AWDL action frame: a run of tag-length-value entries.
//!
//! Each entry is one tag byte, a little-endian `u16` length, then that many bytes of
//! value. The region is walked front to back; the walk ends cleanly when it lands
//! exactly on the end of the region, and otherwise says how it ended, because a
//! truncated or malformed region is a finding and not something to skip over.

use vstd::prelude::*;
use crate::le;
use crate::le::spec_u16;

verus! {

/// How a walk over a tagged region ended.
#[derive(Debug, Clone, Copy, PartialEq, Eq, Structural)]
pub enum Stop {
    /// The last entry ended exactly at the end of the region.
    Clean,
    /// Fewer bytes than a tag header were left after the last entry.
    Trailing(usize),
    /// An entry claimed more value bytes than the region still holds.
    Overrun { tag: u8, claimed: u16, available: usize },
}

/// One entry of the tagged region.
#[derive(Debug, Clone, PartialEq, Eq)]
pub struct Tlv<'a> {
    pub tag: u8,
    pub value: &'a [u8],
}

/// The display name of a tag number, as a sequence of characters.
pub open spec fn spec_tag_name(tag: u8) -> Seq<char> {
    if tag == 0 {
        "SSTH Request"@
    } else if tag == 2 {
        "Service Response"@
    } else if tag == 4 {
        "Sync Parameters"@
    } else if tag == 5 {
        "Election Parameters"@
    } else if tag == 6 {
        "Service Parameters"@
    } else if tag == 7 {
        "HT Capabilities"@
    } else if tag == 12 {
        "Data Path State"@
    } else if tag == 16 {
        "Arpa"@
    } else if tag == 17 {
        "IEEE 802.11 Container"@
    } else if tag == 18 {
        "Channel Sequence"@
    } else if tag == 21 {
        "Version"@
    } else if tag == 24 {
        "Election Parameters v2"@
    } else {
        "unrecognised"@
    }
}

/// The display name of a tag number; "unrecognised" for a tag with no known name.
pub fn tag_name(tag: u8) -> (res: &'static str)
    ensures
        res@ == spec_tag_name(tag),
{
    match tag {
        0 => "SSTH Request",
        2 => "Service Response",
        4 => "Sync Parameters",
        5 => "Election Parameters",
        6 => "Service Parameters",
        7 => "HT Capabilities",
        12 => "Data Path State",
        16 => "Arpa",
        17 => "IEEE 802.11 Container",
        18 => "Channel Sequence",
        21 => "Version",
        24 => "Election Parameters v2",
        _ => "unrecognised",
    }
}

impl<'a> Tlv<'a> {
    /// The display name of this entry's tag.
    pub fn name(&self) -> (res: &'static str)
        ensures
            res@ == spec_tag_name(self.tag),
    {
        tag_name(self.tag)
    }
}

/// The entries of `region` from offset `pos` on, each as its tag and value bytes, in
/// order, together with how the walk over them ends.
pub open spec fn spec_walk(region: Seq<u8>, pos: int) -> (Seq<(u8, Seq<u8>)>, Stop)
    decreases region.len() - pos,
{
    if pos < 0 || pos >= region.len() {
        (Seq::empty(), Stop::Clean)
    } else if region.len() - pos < 3 {
        (Seq::empty(), Stop::Trailing((region.len() - pos) as usize))
    } else {
        let tag = region[pos];
        let len = spec_u16(region, pos + 1);
        if len > region.len() - pos - 3 {
            (
                Seq::empty(),
                Stop::Overrun {
                    tag,
                    claimed: len as u16,
                    available: (region.len() - pos - 3) as usize,
                },
            )
        } else {
            let rest = spec_walk(region, pos + 3 + len);
            (seq![(tag, region.subrange(pos + 3, pos + 3 + len))] + rest.0, rest.1)
        }
    }
}

/// The entries of a whole region, in order.
pub open spec fn spec_entries(region: Seq<u8>) -> Seq<(u8, Seq<u8>)> {
    spec_walk(region, 0).0
}

/// How the walk over a whole region ends.
pub open spec fn spec_stop(region: Seq<u8>) -> Stop {
    spec_walk(region, 0).1
}

/// The bytes the given entries occupy on the wire, headers included.
pub open spec fn spec_wire_len(entries: Seq<(u8, Seq<u8>)>) -> int
    decreases entries.len(),
{
    if entries.len() == 0 {
        0
    } else {
        3 + entries[0].1.len() + spec_wire_len(entries.drop_first())
    }
}

/// A walk over the entries of a tagged region.
///
/// `next` hands the entries out in order; once it has returned `None`, `stop` says how
/// the region ended.
pub struct Tlvs<'a> {
    region: &'a [u8],
    pos: usize,
    stop: Option<Stop>,
}

impl<'a> Tlvs<'a> {
    #[verifier::type_invariant]
    spec fn inv(self) -> bool {
        self.pos <= self.region@.len()
    }

    /// The region being walked.
    pub closed spec fn region(self) -> Seq<u8> {
        self.region@
    }

    /// Whether `next` has already returned `None`.
    pub closed spec fn finished(self) -> bool {
        self.stop is Some
    }

    /// The entries that `next` has yet to hand out.
    pub closed spec fn remaining(self) -> Seq<(u8, Seq<u8>)> {
        match self.stop {
            Some(_) => Seq::empty(),
            None => spec_walk(self.region@, self.pos as int).0,
        }
    }

    /// How the walk ends once the remaining entries are handed out.
    pub closed spec fn ending(self) -> Stop {
        match self.stop {
            Some(s) => s,
            None => spec_walk(self.region@, self.pos as int).1,
        }
    }

    /// A walk over `region` from its first byte.
    pub fn new(region: &'a [u8]) -> (res: Tlvs<'a>)
        ensures
            res.region() == region@,
            res.remaining() == spec_entries(region@),
            res.ending() == spec_stop(region@),
            !res.finished(),
    {
        Tlvs { region, pos: 0, stop: None }
    }

    /// The next entry, or `None` once the walk has ended.
    pub fn next(&mut self) -> (res: Option<Tlv<'a>>)
        ensures
            final(self).region() == old(self).region(),
            final(self).ending() == old(self).ending(),
            old(self).remaining().len() > 0 ==> {
                &&& res matches Some(t)
                &&& t.tag == old(self).remaining()[0].0
                &&& t.value@ == old(self).remaining()[0].1
                &&& final(self).remaining() == old(self).remaining().drop_first()
                &&& !final(self).finished()
            },
            old(self).remaining().len() == 0 ==> {
                &&& res is None
                &&& final(self).remaining() == old(self).remaining()
                &&& final(self).finished()
            },
    {
        proof {
            use_type_invariant(&*self);
        }
        if self.stop.is_some() {
            return None;
        }
        let len = self.region.len();
        let pos = self.pos;
        if pos == len {
            self.stop = Some(Stop::Clean);
            return None;
        }
        if len - pos < 3 {
            self.stop = Some(Stop::Trailing(len - pos));
            return None;
        }
        let tag = self.region[pos];
        let claimed = match le::u16(self.region, pos + 1) {
            Some(x) => x,
            None => {
                return None;
            },
        };
        let available = len - pos - 3;
        if claimed as usize > available {
            self.stop = Some(Stop::Overrun { tag, claimed, available });
            return None;
        }
        let start = pos + 3;
        let end = start + claimed as usize;
        let value = vstd::slice::slice_subrange(self.region, start, end);
        self.pos = end;
        proof {
            let r = old(self).region@;
            assert(spec_walk(r, pos as int).0 =~= seq![(tag, value@)] + spec_walk(
                r,
                end as int,
            ).0);
        }
        Some(Tlv { tag, value })
    }

    /// How the walk ended, once `next` has returned `None`; `None` before that.
    pub fn stop(&self) -> (res: Option<Stop>)
        ensures
            self.finished() ==> res == Some(self.ending()),
            !self.finished() ==> res is None,
    {
        self.stop
    }
}

/// Bytes a walk's ending accounts for: nothing for a clean end, the leftover bytes
/// for trailing ones, and the header plus the bytes still available for an overrun.
pub open spec fn spec_stop_len(stop: Stop) -> int {
    match stop {
        Stop::Clean => 0,
        Stop::Trailing(n) => n as int,
        Stop::Overrun { available, .. } => 3 + available,
    }
}

/// A walk accounts for every byte from `pos` to the end of the region: the entries
/// it hands out, headers included, and what its ending reports. No entry is skipped,
/// whatever its tag, and a clean ending means the entries consume the region exactly.
pub proof fn lemma_walk_accounts_for_region(region: Seq<u8>, pos: int)
    requires
        0 <= pos <= region.len(),
    ensures
        spec_wire_len(spec_walk(region, pos).0) + spec_stop_len(spec_walk(region, pos).1)
            == region.len() - pos,
        spec_walk(region, pos).1 == Stop::Clean ==> spec_wire_len(spec_walk(region, pos).0)
            == region.len() - pos,
    decreases region.len() - pos,
{
    if pos < region.len() && region.len() - pos >= 3 {
        let len = spec_u16(region, pos + 1);
        if len <= region.len() - pos - 3 {
            lemma_walk_accounts_for_region(region, pos + 3 + len);
            let rest = spec_walk(region, pos + 3 + len);
            let entries = spec_walk(region, pos).0;
            assert(entries.drop_first() =~= rest.0);
        }
    }
}

/// Whenever a tag header fits at `pos` and the value length it claims (little-endian,
/// in the two bytes after the tag) fits in what is left, the walk from `pos` hands out
/// that entry first: its tag byte and exactly the claimed value bytes, whatever the tag.
pub proof fn lemma_walk_hands_out_fitting_entry(region: Seq<u8>, pos: int)
    requires
        0 <= pos,
        region.len() - pos >= 3,
        region[pos + 1] + 256 * region[pos + 2] <= region.len() - pos - 3,
    ensures
        ({
            let entries = spec_walk(region, pos).0;
            let l = region[pos + 1] + 256 * region[pos + 2];
            &&& entries.len() > 0
            &&& entries[0].0 == region[pos]
            &&& entries[0].1 == region.subrange(pos + 3, pos + 3 + l)
        }),
{
}

/// A walk ends with trailing bytes only when fewer than a tag header's three remain,
/// and with an overrun only when an entry claims more bytes than are left.
pub proof fn lemma_walk_stop_reasons(region: Seq<u8>, pos: int)
    requires
        0 <= pos <= region.len(),
    ensures
        spec_walk(region, pos).1 matches Stop::Trailing(n) ==> 0 < n < 3,
        spec_walk(region, pos).1 matches Stop::Overrun { claimed, available, .. } ==> claimed
            > available,
    decreases region.len() - pos,
{
    if pos < region.len() && region.len() - pos >= 3 {
        let len = spec_u16(region, pos + 1);
        if len <= region.len() - pos - 3 {
            lemma_walk_stop_reasons(region, pos + 3 + len);
        }
    }
}

/// Tags beyond the published table (which ends at 24, Election Parameters v2) have no
/// name and are reported as "unrecognised"; they are named, not dropped.
pub proof fn lemma_unpublished_tags_unrecognised(tag: u8)
    requires
        tag > 24,
    ensures
        spec_tag_name(tag) == "unrecognised"@,
{
}

} // verus!
