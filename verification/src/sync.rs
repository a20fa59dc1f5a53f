//! Synchronization Parameters (tag 4) and Channel Sequence (tag 18).
//!
//! These two carry the answer to the question that decides whether an AWDL
//! implementation can run on hardware other than Apple's and Google's: how tight does
//! the timing have to be, and what is the radio expected to do about it.
//!
//! Everything here is decoded from the wire. Where a field's meaning is inferred rather
//! than measured, it says so.

use vstd::prelude::*;
use crate::le;
use crate::le::spec_u16;

verus! {

/// One Time Unit, in microseconds.
///
/// AWDL counts in Time Units: 1 TU = 1024 us. The 2018 paper states an Availability
/// Window of 16 TU, which is 16384 us. Do not hardcode that: `aw_period` is on the
/// wire precisely because it is a parameter.
pub const TU_US: u32 = 1024;

/// How the channel list is encoded. The list length depends on this, so guessing it
/// misreads every channel rather than failing.
#[derive(Debug, Clone, Copy, PartialEq, Eq, Structural)]
pub enum ChanEncoding {
    /// One byte per slot: the channel number.
    ChannelNumber,
    /// Two bytes per slot: flags then channel number.
    Legacy,
    /// Two bytes per slot: channel number then operating class.
    OpClass,
    Unknown(u8),
}

/// The encoding that the wire byte `v` names.
pub open spec fn spec_encoding(v: u8) -> ChanEncoding {
    if v == 0 {
        ChanEncoding::ChannelNumber
    } else if v == 1 {
        ChanEncoding::Legacy
    } else if v == 3 {
        ChanEncoding::OpClass
    } else {
        ChanEncoding::Unknown(v)
    }
}

/// Bytes per slot under an encoding; `None` for an encoding whose layout is unknown.
pub open spec fn spec_stride(e: ChanEncoding) -> Option<int> {
    match e {
        ChanEncoding::ChannelNumber => Some(1),
        ChanEncoding::Legacy => Some(2),
        ChanEncoding::OpClass => Some(2),
        ChanEncoding::Unknown(_) => None,
    }
}

impl ChanEncoding {
    fn from(v: u8) -> (res: ChanEncoding)
        ensures
            res == spec_encoding(v),
    {
        match v {
            0 => ChanEncoding::ChannelNumber,
            1 => ChanEncoding::Legacy,
            3 => ChanEncoding::OpClass,
            other => ChanEncoding::Unknown(other),
        }
    }

    fn stride(self) -> (res: Option<usize>)
        ensures
            spec_stride(self) matches Some(s) ==> res == Some(s as usize),
            spec_stride(self) is None ==> res is None,
    {
        match self {
            ChanEncoding::ChannelNumber => Some(1),
            ChanEncoding::Legacy | ChanEncoding::OpClass => Some(2),
            ChanEncoding::Unknown(_) => None,
        }
    }
}

/// A channel sequence as plain values: what [`ChannelSequence`] holds.
pub struct SpecChannelSequence {
    pub encoding: ChanEncoding,
    pub duplicate: u8,
    pub step_count: u8,
    pub fill_channel: u16,
    pub channels: Seq<u8>,
    pub qualifiers: Seq<u8>,
}

#[derive(Debug, Clone, PartialEq, Eq)]
pub struct ChannelSequence {
    pub encoding: ChanEncoding,
    pub duplicate: u8,
    pub step_count: u8,
    /// 0xffff means "repeat current".
    pub fill_channel: u16,
    /// The slots, in order. This is the schedule: which channel the node is listening
    /// on during each Availability Window of the cycle.
    ///
    /// A slot of 0 means the node is not present at all during that window.
    pub channels: Vec<u8>,
    /// The second byte of each slot, kept raw.
    ///
    /// Its meaning depends on [`ChanEncoding`]: an operating class under `OpClass`, a
    /// flags byte under `Legacy`. Kept undecoded because the two need separate
    /// confirmation against captures.
    pub qualifiers: Vec<u8>,
}

impl View for ChannelSequence {
    type V = SpecChannelSequence;

    open spec fn view(&self) -> SpecChannelSequence {
        SpecChannelSequence {
            encoding: self.encoding,
            duplicate: self.duplicate,
            step_count: self.step_count,
            fill_channel: self.fill_channel,
            channels: self.channels@,
            qualifiers: self.qualifiers@,
        }
    }
}

/// The number of slots a channel sequence value declares. The count is stored minus
/// one: a 16-slot sequence is written as 15.
pub open spec fn spec_slot_count(v: Seq<u8>) -> int {
    v[0] + 1
}

/// The channel number of slot `i`. Legacy puts flags first and the channel second;
/// the other encodings put the channel first.
pub open spec fn spec_slot_channel(v: Seq<u8>, e: ChanEncoding, i: int) -> u8 {
    match e {
        ChanEncoding::Legacy => v[6 + 2 * i + 1],
        ChanEncoding::OpClass => v[6 + 2 * i],
        _ => v[6 + i],
    }
}

/// The raw second byte of slot `i`; 0 when a slot has only one byte.
pub open spec fn spec_slot_qualifier(v: Seq<u8>, e: ChanEncoding, i: int) -> u8 {
    match e {
        ChanEncoding::Legacy => v[6 + 2 * i],
        ChanEncoding::OpClass => v[6 + 2 * i + 1],
        _ => 0,
    }
}

/// What a Channel Sequence value decodes to, if anything: a six-byte header (count
/// minus one, encoding, duplicate, step count, fill channel) followed by the slots.
pub open spec fn spec_channel_sequence(v: Seq<u8>) -> Option<SpecChannelSequence> {
    if v.len() < 6 {
        None
    } else {
        let e = spec_encoding(v[1]);
        let n = spec_slot_count(v);
        match spec_stride(e) {
            None => None,
            Some(stride) => if v.len() < 6 + n * stride {
                None
            } else {
                Some(
                    SpecChannelSequence {
                        encoding: e,
                        duplicate: v[2],
                        step_count: v[3],
                        fill_channel: spec_u16(v, 4) as u16,
                        channels: Seq::new(n as nat, |i: int| spec_slot_channel(v, e, i)),
                        qualifiers: Seq::new(n as nat, |i: int| spec_slot_qualifier(v, e, i)),
                    },
                )
            },
        }
    }
}

/// How many slots hold a channel other than 0.
pub open spec fn count_present(s: Seq<u8>) -> nat
    decreases s.len(),
{
    if s.len() == 0 {
        0
    } else {
        count_present(s.drop_last()) + if s.last() != 0 {
            1nat
        } else {
            0nat
        }
    }
}

/// How many slots hold channel `c`.
pub open spec fn count_on(s: Seq<u8>, c: u8) -> nat
    decreases s.len(),
{
    if s.len() == 0 {
        0
    } else {
        count_on(s.drop_last(), c) + if s.last() == c {
            1nat
        } else {
            0nat
        }
    }
}

impl ChannelSequence {
    /// Decode a Channel Sequence value (tag 18, or the tail of tag 4).
    ///
    /// `None` when the header is short, the encoding is unknown, or the slots run past
    /// the end of the value.
    pub fn parse(v: &[u8]) -> (res: Option<ChannelSequence>)
        ensures
            res matches Some(cs) ==> spec_channel_sequence(v@) == Some(cs@),
            res is None ==> spec_channel_sequence(v@) is None,
            res is Some <==> channel_sequence_fits(v@),
    {
        proof {
            lemma_channel_sequence_defined(v@);
        }
        // The count is stored minus one. A 16-slot sequence is written as 15, and
        // reading it literally silently drops the last slot.
        let count_byte = match le::u8(v, 0) {
            Some(b) => b,
            None => return None,
        };
        let count = count_byte as usize + 1;
        let enc_byte = match le::u8(v, 1) {
            Some(b) => b,
            None => return None,
        };
        let encoding = ChanEncoding::from(enc_byte);
        let duplicate = match le::u8(v, 2) {
            Some(b) => b,
            None => return None,
        };
        let step_count = match le::u8(v, 3) {
            Some(b) => b,
            None => return None,
        };
        let fill_channel = match le::u16(v, 4) {
            Some(x) => x,
            None => return None,
        };
        let stride = match encoding.stride() {
            Some(s) => s,
            None => return None,
        };
        assert(count * stride <= 512) by (nonlinear_arith)
            requires
                count <= 256,
                stride <= 2,
        ;
        let list_len = count * stride;
        if v.len() - 6 < list_len {
            return None;
        }
        let ghost e = encoding;
        let mut channels: Vec<u8> = Vec::new();
        let mut qualifiers: Vec<u8> = Vec::new();
        let mut i: usize = 0;
        while i < count
            invariant
                v@.len() >= 6 + list_len,
                count == v@[0] + 1,
                list_len == count * stride,
                stride == 1 || stride == 2,
                spec_stride(e) == Some(stride as int),
                encoding == e,
                i <= count,
                channels@.len() == i,
                qualifiers@.len() == i,
                forall|j: int| 0 <= j < i ==> channels@[j] == spec_slot_channel(v@, e, j),
                forall|j: int| 0 <= j < i ==> qualifiers@[j] == spec_slot_qualifier(v@, e, j),
            decreases count - i,
        {
            // Legacy puts flags first and the channel second; OpClass is the other way
            // round. Getting this backwards yields plausible-looking garbage rather than
            // an error, which is the worst kind of wrong.
            match encoding {
                ChanEncoding::Legacy => {
                    channels.push(v[6 + 2 * i + 1]);
                    qualifiers.push(v[6 + 2 * i]);
                },
                ChanEncoding::OpClass => {
                    channels.push(v[6 + 2 * i]);
                    qualifiers.push(v[6 + 2 * i + 1]);
                },
                _ => {
                    channels.push(v[6 + i]);
                    qualifiers.push(0);
                },
            }
            i = i + 1;
        }
        let cs = ChannelSequence {
            encoding,
            duplicate,
            step_count,
            fill_channel,
            channels,
            qualifiers,
        };
        proof {
            let n = spec_slot_count(v@);
            assert(cs.channels@ =~= Seq::new(n as nat, |j: int| spec_slot_channel(v@, e, j)));
            assert(cs.qualifiers@ =~= Seq::new(
                n as nat,
                |j: int| spec_slot_qualifier(v@, e, j),
            ));
        }
        Some(cs)
    }

    /// Slots where the node is present at all. Channel 0 means absent.
    pub fn occupied_slots(&self) -> (res: usize)
        ensures
            res == count_present(self.channels@),
    {
        let n = self.channels.len();
        let mut count: usize = 0;
        let mut i: usize = 0;
        while i < n
            invariant
                n == self.channels@.len(),
                i <= n,
                count <= i,
                count == count_present(self.channels@.take(i as int)),
            decreases n - i,
        {
            assert(self.channels@.take(i + 1).drop_last() =~= self.channels@.take(i as int));
            if self.channels[i] != 0 {
                count = count + 1;
            }
            i = i + 1;
        }
        assert(self.channels@.take(n as int) =~= self.channels@);
        count
    }

    /// How many slots sit on `channel`, out of the whole sequence.
    ///
    /// This is the overlap calculation: two nodes can only talk during windows where
    /// they are both on the same channel.
    pub fn slots_on(&self, channel: u8) -> (res: usize)
        ensures
            res == count_on(self.channels@, channel),
    {
        let n = self.channels.len();
        let mut count: usize = 0;
        let mut i: usize = 0;
        while i < n
            invariant
                n == self.channels@.len(),
                i <= n,
                count <= i,
                count == count_on(self.channels@.take(i as int), channel),
            decreases n - i,
        {
            assert(self.channels@.take(i + 1).drop_last() =~= self.channels@.take(i as int));
            if self.channels[i] == channel {
                count = count + 1;
            }
            i = i + 1;
        }
        assert(self.channels@.take(n as int) =~= self.channels@);
        count
    }

    /// Whether some slot is on `channel`.
    fn visits(&self, channel: u8) -> (res: bool)
        ensures
            res == self.channels@.contains(channel),
    {
        let n = self.channels.len();
        let mut i: usize = 0;
        while i < n
            invariant
                n == self.channels@.len(),
                i <= n,
                forall|j: int| 0 <= j < i ==> self.channels@[j] != channel,
            decreases n - i,
        {
            if self.channels[i] == channel {
                return true;
            }
            i = i + 1;
        }
        false
    }

    /// The distinct channels this node actually visits, excluding "absent", in
    /// ascending order.
    pub fn distinct(&self) -> (res: Vec<u8>)
        ensures
            forall|i: int, j: int| 0 <= i < j < res@.len() ==> res@[i] < res@[j],
            forall|c: u8| res@.contains(c) <==> (c != 0 && self.channels@.contains(c)),
    {
        let mut res: Vec<u8> = Vec::new();
        let mut c: u16 = 1;
        while c < 256
            invariant
                1 <= c <= 256,
                forall|i: int, j: int| 0 <= i < j < res@.len() ==> res@[i] < res@[j],
                forall|i: int| 0 <= i < res@.len() ==> res@[i] < c,
                forall|x: u8|
                    res@.contains(x) <==> (1 <= x < c && self.channels@.contains(x)),
            decreases 256 - c,
        {
            let ch = c as u8;
            if self.visits(ch) {
                let ghost old_res = res@;
                res.push(ch);
                assert forall|x: u8|
                    res@.contains(x) <==> (1 <= x < c + 1 && self.channels@.contains(x)) by {
                    if x == ch {
                        assert(res@[old_res.len() as int] == x);
                    }
                    if res@.contains(x) && x != ch {
                        let k = choose|k: int| 0 <= k < res@.len() && res@[k] == x;
                        assert(k < old_res.len());
                        assert(old_res[k] == x);
                    }
                    if old_res.contains(x) {
                        let k = choose|k: int| 0 <= k < old_res.len() && old_res[k] == x;
                        assert(res@[k] == x);
                    }
                }
            } else {
                assert forall|x: u8|
                    res@.contains(x) <==> (1 <= x < c + 1 && self.channels@.contains(x)) by {
                    if x == ch {
                        assert(!self.channels@.contains(x));
                    }
                }
            }
            c = c + 1;
        }
        res
    }
}

/// Synchronization Parameters (tag 4).
#[derive(Debug, Clone, PartialEq, Eq)]
pub struct SyncParams {
    /// Channel this frame went out on.
    pub tx_channel: u8,
    pub tx_counter: u16,
    /// Channel the current master is on.
    pub master_channel: u8,
    pub guard_time: u8,
    /// Availability Window period, in TU. The paper says 16.
    pub aw_period: u16,
    /// How often action frames are sent, in TU.
    pub action_frame_period: u16,
    pub flags: u16,
    pub aw_ext_length: u16,
    pub aw_common_length: u16,
    /// TU left in the current window: the field a joining node uses to work out where
    /// in the schedule it has arrived.
    pub aw_remaining: u16,
    pub ext_min: u8,
    pub ext_max_multicast: u8,
    pub ext_max_unicast: u8,
    pub ext_max_af: u8,
    /// The master this node is synchronised to. All-zero when it believes it is master.
    pub master: [u8; 6],
    pub presence_mode: u8,
    /// Monotonic AW counter. The clock the whole cluster agrees on.
    pub aw_counter: u16,
    /// Offset between this node's schedule and an access point's beacon.
    pub ap_beacon_alignment_delta: u16,
    /// A second channel sequence, carried inside this tag.
    ///
    /// A frame therefore describes its schedule twice, in two different encodings: the
    /// one here has been observed as `Legacy`, while tag 18 carries `OpClass` for the
    /// same frame.
    pub channel_sequence: Option<ChannelSequence>,
}

/// An optional channel sequence, as plain values.
pub open spec fn opt_channel_sequence_view(o: Option<ChannelSequence>) -> Option<
    SpecChannelSequence,
> {
    match o {
        Some(cs) => Some(cs@),
        None => None,
    }
}

impl SyncParams {
    /// Smallest length that can hold every fixed field. The embedded channel sequence
    /// follows and makes real tags considerably longer.
    pub const MIN_LEN: usize = 33;

    /// Decode tag 4 from its value bytes; `None` when they are too short to hold the
    /// fixed fields. The embedded channel sequence is decoded from everything after
    /// them, and is `None` when that does not decode.
    pub fn parse(v: &[u8]) -> (res: Option<SyncParams>)
        ensures
            res is Some <==> v@.len() >= Self::MIN_LEN,
            res matches Some(p) ==> {
                &&& p.tx_channel == v@[0]
                &&& p.tx_counter == spec_u16(v@, 1)
                &&& p.master_channel == v@[3]
                &&& p.guard_time == v@[4]
                &&& p.aw_period == spec_u16(v@, 5)
                &&& p.action_frame_period == spec_u16(v@, 7)
                &&& p.flags == spec_u16(v@, 9)
                &&& p.aw_ext_length == spec_u16(v@, 11)
                &&& p.aw_common_length == spec_u16(v@, 13)
                &&& p.aw_remaining == spec_u16(v@, 15)
                &&& p.ext_min == v@[17]
                &&& p.ext_max_multicast == v@[18]
                &&& p.ext_max_unicast == v@[19]
                &&& p.ext_max_af == v@[20]
                &&& p.master@ == v@.subrange(21, 27)
                &&& p.presence_mode == v@[27]
                &&& p.aw_counter == spec_u16(v@, 29)
                &&& p.ap_beacon_alignment_delta == spec_u16(v@, 31)
                &&& opt_channel_sequence_view(p.channel_sequence) == spec_channel_sequence(
                    v@.subrange(33, v@.len() as int),
                )
                // Whatever follows a well-formed embedded sequence does not change it.
                &&& forall|k: int|
                    33 <= k <= v@.len() && #[trigger] spec_channel_sequence(v@.subrange(33, k))
                        is Some ==> opt_channel_sequence_view(p.channel_sequence)
                        == spec_channel_sequence(v@.subrange(33, k))
            },
    {
        if v.len() < Self::MIN_LEN {
            return None;
        }
        let tx_counter = match le::u16(v, 1) {
            Some(x) => x,
            None => return None,
        };
        let aw_period = match le::u16(v, 5) {
            Some(x) => x,
            None => return None,
        };
        let action_frame_period = match le::u16(v, 7) {
            Some(x) => x,
            None => return None,
        };
        let flags = match le::u16(v, 9) {
            Some(x) => x,
            None => return None,
        };
        let aw_ext_length = match le::u16(v, 11) {
            Some(x) => x,
            None => return None,
        };
        let aw_common_length = match le::u16(v, 13) {
            Some(x) => x,
            None => return None,
        };
        let aw_remaining = match le::u16(v, 15) {
            Some(x) => x,
            None => return None,
        };
        let master = [v[21], v[22], v[23], v[24], v[25], v[26]];
        assert(master@ =~= v@.subrange(21, 27));
        // v[28] is unnamed and has been observed non-zero; left undecoded rather than
        // given a speculative name.
        let aw_counter = match le::u16(v, 29) {
            Some(x) => x,
            None => return None,
        };
        let ap_beacon_alignment_delta = match le::u16(v, 31) {
            Some(x) => x,
            None => return None,
        };
        let tail = vstd::slice::slice_subrange(v, 33, v.len());
        let channel_sequence = ChannelSequence::parse(tail);
        proof {
            assert forall|k: int|
                33 <= k <= v@.len() && #[trigger] spec_channel_sequence(v@.subrange(33, k))
                    is Some implies opt_channel_sequence_view(channel_sequence)
                == spec_channel_sequence(v@.subrange(33, k)) by {
                let w = v@.subrange(k, v@.len() as int);
                lemma_channel_sequence_ignores_trailing(v@.subrange(33, k), w);
                assert(v@.subrange(33, k) + w =~= tail@);
            }
        }
        Some(SyncParams {
            tx_channel: v[0],
            tx_counter,
            master_channel: v[3],
            guard_time: v[4],
            aw_period,
            action_frame_period,
            flags,
            aw_ext_length,
            aw_common_length,
            aw_remaining,
            ext_min: v[17],
            ext_max_multicast: v[18],
            ext_max_unicast: v[19],
            ext_max_af: v[20],
            master,
            presence_mode: v[27],
            aw_counter,
            ap_beacon_alignment_delta,
            channel_sequence,
        })
    }

    /// Availability Window length in microseconds, from the wire rather than the paper.
    pub fn aw_period_us(&self) -> (res: u32)
        ensures
            res == self.aw_period * TU_US,
            res == self.aw_period * 1024,
    {
        self.aw_period as u32 * TU_US
    }

    /// Whether this node claims to be the master of its own cluster: its master
    /// address is all zero.
    pub fn is_self_master(&self) -> (res: bool)
        ensures
            res <==> (forall|i: int| 0 <= i < 6 ==> self.master[i] == 0),
    {
        self.master[0] == 0 && self.master[1] == 0 && self.master[2] == 0 && self.master[3]
            == 0 && self.master[4] == 0 && self.master[5] == 0
    }
}

/// The slots of `s` spent on each channel of `d`, added up.
pub open spec fn sum_slots_on(s: Seq<u8>, d: Seq<u8>) -> nat
    decreases d.len(),
{
    if d.len() == 0 {
        0
    } else {
        count_on(s, d[0]) + sum_slots_on(s, d.drop_first())
    }
}

/// How many slots of `s` hold a channel listed in `d`.
spec fn count_in(s: Seq<u8>, d: Seq<u8>) -> nat
    decreases s.len(),
{
    if s.len() == 0 {
        0
    } else {
        count_in(s.drop_last(), d) + if d.contains(s.last()) {
            1nat
        } else {
            0nat
        }
    }
}

proof fn lemma_contains_split(d: Seq<u8>, x: u8)
    requires
        d.len() > 0,
    ensures
        d.contains(x) <==> (x == d[0] || d.drop_first().contains(x)),
{
    if d.contains(x) && x != d[0] {
        let k = choose|k: int| 0 <= k < d.len() && d[k] == x;
        assert(d.drop_first()[k - 1] == x);
    }
    if d.drop_first().contains(x) {
        let k = choose|k: int| 0 <= k < d.len() - 1 && d.drop_first()[k] == x;
        assert(d[k + 1] == x);
    }
    if x == d[0] {
        assert(d[0] == x);
    }
}

proof fn lemma_count_in_split(s: Seq<u8>, d: Seq<u8>)
    requires
        d.len() > 0,
        !d.drop_first().contains(d[0]),
    ensures
        count_in(s, d) == count_on(s, d[0]) + count_in(s, d.drop_first()),
    decreases s.len(),
{
    if s.len() > 0 {
        lemma_count_in_split(s.drop_last(), d);
        lemma_contains_split(d, s.last());
    }
}

proof fn lemma_sum_is_count_in(s: Seq<u8>, d: Seq<u8>)
    requires
        d.no_duplicates(),
    ensures
        sum_slots_on(s, d) == count_in(s, d),
    decreases d.len(),
{
    if d.len() == 0 {
        lemma_count_in_empty(s, d);
    } else {
        let t = d.drop_first();
        assert(t.no_duplicates()) by {
            assert forall|i: int, j: int| 0 <= i < t.len() && 0 <= j < t.len() && i != j implies t[i]
                != t[j] by {
                assert(t[i] == d[i + 1] && t[j] == d[j + 1]);
            }
        }
        assert(!t.contains(d[0])) by {
            if t.contains(d[0]) {
                let k = choose|k: int| 0 <= k < t.len() && t[k] == d[0];
                assert(d[k + 1] == d[0]);
            }
        }
        lemma_sum_is_count_in(s, t);
        lemma_count_in_split(s, d);
    }
}

proof fn lemma_count_in_empty(s: Seq<u8>, d: Seq<u8>)
    requires
        d.len() == 0,
    ensures
        count_in(s, d) == 0,
    decreases s.len(),
{
    if s.len() > 0 {
        lemma_count_in_empty(s.drop_last(), d);
    }
}

proof fn lemma_count_in_present(s: Seq<u8>, d: Seq<u8>)
    requires
        forall|i: int| 0 <= i < s.len() ==> (d.contains(#[trigger] s[i]) <==> s[i] != 0),
    ensures
        count_in(s, d) == count_present(s),
    decreases s.len(),
{
    if s.len() > 0 {
        let t = s.drop_last();
        assert forall|i: int| 0 <= i < t.len() implies (d.contains(#[trigger] t[i]) <==> t[i]
            != 0) by {
            assert(t[i] == s[i]);
        }
        lemma_count_in_present(t, d);
        assert(s.last() == s[s.len() - 1]);
    }
}

proof fn lemma_count_on_positive(s: Seq<u8>, c: u8)
    ensures
        count_on(s, c) > 0 <==> s.contains(c),
    decreases s.len(),
{
    if s.len() > 0 {
        let t = s.drop_last();
        lemma_count_on_positive(t, c);
        if t.contains(c) {
            let k = choose|k: int| 0 <= k < t.len() && t[k] == c;
            assert(s[k] == c);
        }
        if s.contains(c) && s.last() != c {
            let k = choose|k: int| 0 <= k < s.len() && s[k] == c;
            assert(k < s.len() - 1);
            assert(t[k] == c);
        }
        if s.last() == c {
            assert(s[s.len() - 1] == c);
        }
    }
}

proof fn lemma_len_le_sum(s: Seq<u8>, d: Seq<u8>)
    requires
        forall|i: int| 0 <= i < d.len() ==> count_on(s, #[trigger] d[i]) > 0,
    ensures
        d.len() <= sum_slots_on(s, d),
    decreases d.len(),
{
    if d.len() > 0 {
        let t = d.drop_first();
        assert forall|i: int| 0 <= i < t.len() implies count_on(s, #[trigger] t[i]) > 0 by {
            assert(t[i] == d[i + 1]);
        }
        assert(count_on(s, d[0]) > 0);
        lemma_len_le_sum(s, t);
    }
}

proof fn lemma_present_plus_absent(s: Seq<u8>)
    ensures
        count_present(s) + count_on(s, 0) == s.len(),
    decreases s.len(),
{
    if s.len() > 0 {
        lemma_present_plus_absent(s.drop_last());
    }
}

proof fn lemma_on_le_present(s: Seq<u8>, c: u8)
    requires
        c != 0,
    ensures
        count_on(s, c) <= count_present(s),
    decreases s.len(),
{
    if s.len() > 0 {
        lemma_on_le_present(s.drop_last(), c);
    }
}

/// Every slot is either absent (channel 0) or occupied: `occupied_slots()` and
/// `slots_on(0)` add up to the number of slots.
pub proof fn lemma_slots_absent_or_occupied(cs: ChannelSequence)
    ensures
        count_present(cs.channels@) + count_on(cs.channels@, 0) == cs.channels@.len(),
{
    lemma_present_plus_absent(cs.channels@);
}

/// The slots on any one real channel are at most the occupied slots: a peer's
/// occupancy bounds the windows anyone can share with it on a channel.
pub proof fn lemma_slots_on_within_occupied(cs: ChannelSequence, channel: u8)
    requires
        channel != 0,
    ensures
        count_on(cs.channels@, channel) <= count_present(cs.channels@),
{
    lemma_on_le_present(cs.channels@, channel);
}

/// A channel is among the distinct channels exactly when it is not "absent" and at
/// least one slot sits on it.
pub proof fn lemma_distinct_iff_slots_on(cs: ChannelSequence, d: Seq<u8>, channel: u8)
    requires
        forall|c: u8| d.contains(c) <==> (c != 0 && cs.channels@.contains(c)),
    ensures
        d.contains(channel) <==> (channel != 0 && count_on(cs.channels@, channel) > 0),
{
    lemma_count_on_positive(cs.channels@, channel);
}

/// The distinct channels partition the occupied slots: adding up `slots_on` over the
/// channels that `distinct` lists gives `occupied_slots`, and there are no more
/// distinct channels than occupied slots.
pub proof fn lemma_distinct_partitions_occupied(cs: ChannelSequence, d: Seq<u8>)
    requires
        forall|i: int, j: int| 0 <= i < j < d.len() ==> d[i] < d[j],
        forall|c: u8| d.contains(c) <==> (c != 0 && cs.channels@.contains(c)),
    ensures
        sum_slots_on(cs.channels@, d) == count_present(cs.channels@),
        d.len() <= count_present(cs.channels@),
{
    let s = cs.channels@;
    assert(d.no_duplicates()) by {
        assert forall|i: int, j: int| 0 <= i < d.len() && 0 <= j < d.len() && i != j implies d[i]
            != d[j] by {
            if i < j {
                assert(d[i] < d[j]);
            } else {
                assert(d[j] < d[i]);
            }
        }
    }
    lemma_sum_is_count_in(s, d);
    assert forall|i: int| 0 <= i < s.len() implies (d.contains(#[trigger] s[i]) <==> s[i]
        != 0) by {
        assert(s.contains(s[i]));
    }
    lemma_count_in_present(s, d);
    assert forall|i: int| 0 <= i < d.len() implies count_on(s, #[trigger] d[i]) > 0 by {
        assert(d.contains(d[i]));
        lemma_count_on_positive(s, d[i]);
    }
    lemma_len_le_sum(s, d);
}

/// A decoded channel sequence has as many slots as its count byte plus one, one
/// qualifier per slot, and all-zero qualifiers when a slot is a bare channel number.
pub proof fn lemma_channel_sequence_shape(v: Seq<u8>)
    requires
        spec_channel_sequence(v) is Some,
    ensures
        ({
            let cs = spec_channel_sequence(v).unwrap();
            &&& cs.channels.len() == v[0] + 1
            &&& cs.qualifiers.len() == cs.channels.len()
            &&& cs.encoding == ChanEncoding::ChannelNumber ==> forall|i: int|
                0 <= i < cs.qualifiers.len() ==> cs.qualifiers[i] == 0
        }),
{
}

/// Whether the bytes hold a whole channel sequence: the six-byte header, a known
/// encoding (0 channel number, 1 Legacy, 3 OpClass), and all `v[0] + 1` slots of one
/// byte (channel number) or two (Legacy, OpClass). Bytes after the slots are allowed.
pub open spec fn channel_sequence_fits(v: Seq<u8>) -> bool {
    &&& v.len() >= 6
    &&& {
        ||| (v[1] == 0 && v.len() >= 6 + (v[0] + 1))
        ||| ((v[1] == 1 || v[1] == 3) && v.len() >= 6 + 2 * (v[0] + 1))
    }
}

/// A channel sequence decodes exactly when the bytes hold a whole one, with no bound
/// on what may follow the slots.
pub proof fn lemma_channel_sequence_defined(v: Seq<u8>)
    ensures
        spec_channel_sequence(v) is Some <==> channel_sequence_fits(v),
{
}

/// Bytes appended after a well-formed channel sequence change nothing: the decode
/// reads only the header and the slots it declares.
pub proof fn lemma_channel_sequence_ignores_trailing(v: Seq<u8>, w: Seq<u8>)
    requires
        spec_channel_sequence(v) is Some,
    ensures
        spec_channel_sequence(v + w) == spec_channel_sequence(v),
{
    let u = v + w;
    assert(forall|i: int| 0 <= i < v.len() ==> u[i] == v[i]);
    let e = spec_encoding(v[1]);
    let n = spec_slot_count(v);
    assert(u[0] == v[0] && u[1] == v[1] && u[2] == v[2] && u[3] == v[3] && u[4] == v[4]
        && u[5] == v[5]);
    assert(spec_encoding(u[1]) == e && spec_slot_count(u) == n);
    let stride = spec_stride(e).unwrap();
    assert(stride == 1 || stride == 2);
    assert(v.len() >= 6 + n * stride);
    assert forall|i: int| 0 <= i < n implies spec_slot_channel(u, e, i) == spec_slot_channel(
        v,
        e,
        i,
    ) && spec_slot_qualifier(u, e, i) == spec_slot_qualifier(v, e, i) by {
        if stride == 2 {
            assert(n * stride == 2 * n);
            assert(6 + 2 * i + 1 < v.len());
        } else {
            assert(n * stride == n);
            assert(6 + i < v.len());
        }
    }
    let a = spec_channel_sequence(v).unwrap();
    let b = spec_channel_sequence(u).unwrap();
    assert(a.channels =~= b.channels);
    assert(a.qualifiers =~= b.qualifiers);
}

/// The embedded sequence of Synchronization Parameters survives whatever follows it:
/// once the bytes from offset 33 start with a well-formed sequence, that sequence is
/// what the whole tail decodes to.
pub proof fn lemma_sync_embedded_sequence_survives_padding(v: Seq<u8>, k: int)
    requires
        33 <= k <= v.len(),
        spec_channel_sequence(v.subrange(33, k)) is Some,
    ensures
        spec_channel_sequence(v.subrange(33, v.len() as int)) == spec_channel_sequence(
            v.subrange(33, k),
        ),
{
    let w = v.subrange(k, v.len() as int);
    lemma_channel_sequence_ignores_trailing(v.subrange(33, k), w);
    assert(v.subrange(33, k) + w =~= v.subrange(33, v.len() as int));
}

/// What a decoded channel sequence holds, read straight off the bytes: the encoding
/// byte 0, 1 or 3 names one-byte channel numbers, Legacy (flags byte, then channel) or
/// OpClass (channel, then operating class); the duplicate and step-count bytes and the
/// little-endian fill channel follow; then `v[0] + 1` slots.
pub proof fn lemma_channel_sequence_bytes(v: Seq<u8>)
    requires
        spec_channel_sequence(v) is Some,
    ensures
        ({
            let cs = spec_channel_sequence(v).unwrap();
            let n = v[0] + 1;
            &&& cs.duplicate == v[2]
            &&& cs.step_count == v[3]
            &&& cs.fill_channel == v[4] + 256 * v[5]
            &&& cs.channels.len() == n
            &&& cs.qualifiers.len() == n
            &&& v[1] == 0 ==> cs.encoding == ChanEncoding::ChannelNumber && forall|i: int|
                0 <= i < n ==> cs.channels[i] == v[6 + i] && cs.qualifiers[i] == 0
            &&& v[1] == 1 ==> cs.encoding == ChanEncoding::Legacy && forall|i: int|
                0 <= i < n ==> cs.channels[i] == v[7 + 2 * i] && cs.qualifiers[i] == v[6 + 2
                    * i]
            &&& v[1] == 3 ==> cs.encoding == ChanEncoding::OpClass && forall|i: int|
                0 <= i < n ==> cs.channels[i] == v[6 + 2 * i] && cs.qualifiers[i] == v[7 + 2
                    * i]
            &&& v[1] == 0 || v[1] == 1 || v[1] == 3
        }),
{
}

/// Slot counts grow one slot at a time: an empty schedule counts nothing, and one more
/// slot adds one to the count of its own channel, and to the occupied count exactly
/// when that channel is not 0.
pub proof fn lemma_counts_push(s: Seq<u8>, x: u8, c: u8)
    ensures
        count_on(Seq::<u8>::empty(), c) == 0,
        count_present(Seq::<u8>::empty()) == 0,
        count_on(s.push(x), c) == count_on(s, c) + if x == c {
            1int
        } else {
            0int
        },
        count_present(s.push(x)) == count_present(s) + if x != 0 {
            1int
        } else {
            0int
        },
{
    assert(s.push(x).drop_last() =~= s);
}

/// Slot counts add up over a schedule split in two.
pub proof fn lemma_counts_additive(a: Seq<u8>, b: Seq<u8>, c: u8)
    ensures
        count_on(a + b, c) == count_on(a, c) + count_on(b, c),
        count_present(a + b) == count_present(a) + count_present(b),
    decreases b.len(),
{
    if b.len() == 0 {
        assert(a + b =~= a);
    } else {
        lemma_counts_additive(a, b.drop_last(), c);
        assert((a + b).drop_last() =~= a + b.drop_last());
    }
}

/// A slot count never exceeds the number of slots.
pub proof fn lemma_counts_bounded(s: Seq<u8>, c: u8)
    ensures
        count_on(s, c) <= s.len(),
        count_present(s) <= s.len(),
    decreases s.len(),
{
    if s.len() > 0 {
        lemma_counts_bounded(s.drop_last(), c);
    }
}

} // verus!
