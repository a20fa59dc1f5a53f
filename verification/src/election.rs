//! Election Parameters (tag 5) and Election Parameters v2 (tag 24).
//!
//! AWDL has no configured master. Every node advertises a metric and the address of
//! whoever it currently believes is master, and the cluster converges on the strongest
//! claim. There is no handshake and no acknowledgement: a node simply starts naming a
//! different master, and its neighbours follow or do not.
//!
//! Both tags are present in every frame observed: a device advertises v1 and v2
//! simultaneously, presumably so older peers can still follow it. They do not carry the
//! same fields, and v2 is not merely v1 with more bits, so both are decoded.

use vstd::prelude::*;
use crate::le;
use crate::le::{spec_u16, spec_u32};

verus! {

/// Six bytes of `v` from offset `i` on, as an address.
fn addr_at(v: &[u8], i: usize) -> (res: [u8; 6])
    requires
        i + 6 <= v@.len(),
    ensures
        res@ == v@.subrange(i as int, i + 6),
{
    let res = [v[i], v[i + 1], v[i + 2], v[i + 3], v[i + 4], v[i + 5]];
    assert(res@ =~= v@.subrange(i as int, i + 6));
    res
}

/// Election Parameters (tag 5). The original form.
#[derive(Debug, Clone, PartialEq, Eq)]
pub struct ElectionParams {
    /// Non-zero means a private election, which appends two more fields.
    pub flags: u8,
    pub id: u16,
    /// Hops to the master. 0 means "I am the master".
    pub distance: u8,
    /// The node this one is following.
    pub master: [u8; 6],
    /// The master's metric, as this node understands it.
    pub master_metric: u32,
    /// This node's own metric: its claim to the job.
    pub self_metric: u32,
    /// Present only in a private election.
    pub private_master: Option<[u8; 6]>,
}

impl ElectionParams {
    /// Smallest value that holds every fixed field.
    pub const MIN_LEN: usize = 19;

    /// Decode tag 5 from its value bytes; `None` when they are too short.
    pub fn parse(v: &[u8]) -> (res: Option<ElectionParams>)
        ensures
            res is Some <==> v@.len() >= Self::MIN_LEN,
            res matches Some(p) ==> {
                &&& p.flags == v@[0]
                &&& p.id == spec_u16(v@, 1)
                &&& p.distance == v@[3]
                &&& p.master@ == v@.subrange(5, 11)
                &&& p.master_metric == spec_u32(v@, 11)
                &&& p.self_metric == spec_u32(v@, 15)
                // A private election appends two unknown bytes then a second address.
                &&& (p.private_master is Some <==> (v@[0] != 0 && v@.len() >= 27))
                &&& (p.private_master matches Some(a) ==> a@ == v@.subrange(21, 27))
            },
    {
        if v.len() < Self::MIN_LEN {
            return None;
        }
        let flags = v[0];
        let id = match le::u16(v, 1) {
            Some(x) => x,
            None => return None,
        };
        let distance = v[3];
        // v[4] is unnamed upstream and left undecoded rather than guessed at.
        let master = addr_at(v, 5);
        let master_metric = match le::u32(v, 11) {
            Some(x) => x,
            None => return None,
        };
        let self_metric = match le::u32(v, 15) {
            Some(x) => x,
            None => return None,
        };
        let private_master = if flags != 0 && v.len() >= 27 {
            Some(addr_at(v, 21))
        } else {
            None
        };
        Some(ElectionParams {
            flags,
            id,
            distance,
            master,
            master_metric,
            self_metric,
            private_master,
        })
    }

    /// Whether this node is claiming the job rather than following someone.
    pub fn claims_mastership(&self) -> (res: bool)
        ensures
            res <==> self.distance == 0,
    {
        self.distance == 0
    }
}

/// Election Parameters v2 (tag 24).
///
/// Carries counters v1 has no room for. `master_counter` and `self_counter` are the
/// interesting pair: an election is decided on (counter, metric, address) in that
/// order, so a node with a higher counter wins regardless of metric, which is what
/// stops a cluster oscillating between two nodes with similar metrics.
#[derive(Debug, Clone, PartialEq, Eq)]
pub struct ElectionParamsV2 {
    pub master: [u8; 6],
    /// A second address whose role is not documented. Observed equal to the sender's
    /// own address in every frame checked, but that is an observation and not a rule.
    pub other: [u8; 6],
    pub master_counter: u32,
    pub distance: u32,
    pub master_metric: u32,
    pub self_metric: u32,
    pub self_counter: u32,
}

/// Lexicographic "less than" on byte strings, as Rust orders arrays and slices: the
/// first differing byte decides, and a proper prefix is less than the longer string.
pub open spec fn bytes_lt(a: Seq<u8>, b: Seq<u8>) -> bool
    decreases a.len(),
{
    if a.len() == 0 || b.len() == 0 {
        a.len() < b.len()
    } else if a[0] != b[0] {
        a[0] < b[0]
    } else {
        bytes_lt(a.drop_first(), b.drop_first())
    }
}

/// Whether the claim (`c1`, `m1`, `a1`) is strictly greater than (`c2`, `m2`, `a2`),
/// comparing counter, then metric, then address.
pub open spec fn claim_gt(c1: u32, m1: u32, a1: Seq<u8>, c2: u32, m2: u32, a2: Seq<u8>) -> bool {
    ||| c1 > c2
    ||| (c1 == c2 && m1 > m2)
    ||| (c1 == c2 && m1 == m2 && bytes_lt(a2, a1))
}

/// Whether `x`, sent from `x_addr`, beats `y`, sent from `y_addr`.
pub open spec fn spec_beats(
    x: ElectionParamsV2,
    y: ElectionParamsV2,
    x_addr: [u8; 6],
    y_addr: [u8; 6],
) -> bool {
    claim_gt(x.self_counter, x.self_metric, x_addr@, y.self_counter, y.self_metric, y_addr@)
}

impl ElectionParamsV2 {
    /// Smallest value that holds every field.
    pub const MIN_LEN: usize = 40;

    /// Decode tag 24 from its value bytes; `None` when they are too short.
    pub fn parse(v: &[u8]) -> (res: Option<ElectionParamsV2>)
        ensures
            res is Some <==> v@.len() >= Self::MIN_LEN,
            res matches Some(p) ==> {
                &&& p.master@ == v@.subrange(0, 6)
                &&& p.other@ == v@.subrange(6, 12)
                &&& p.master_counter == spec_u32(v@, 12)
                &&& p.distance == spec_u32(v@, 16)
                &&& p.master_metric == spec_u32(v@, 20)
                &&& p.self_metric == spec_u32(v@, 24)
                &&& p.self_counter == spec_u32(v@, 36)
            },
    {
        if v.len() < Self::MIN_LEN {
            return None;
        }
        let master = addr_at(v, 0);
        let other = addr_at(v, 6);
        let master_counter = match le::u32(v, 12) {
            Some(x) => x,
            None => return None,
        };
        let distance = match le::u32(v, 16) {
            Some(x) => x,
            None => return None,
        };
        let master_metric = match le::u32(v, 20) {
            Some(x) => x,
            None => return None,
        };
        let self_metric = match le::u32(v, 24) {
            Some(x) => x,
            None => return None,
        };
        // v[28..32] unknown, v[32..36] reserved upstream.
        let self_counter = match le::u32(v, 36) {
            Some(x) => x,
            None => return None,
        };
        Some(ElectionParamsV2 {
            master,
            other,
            master_counter,
            distance,
            master_metric,
            self_metric,
            self_counter,
        })
    }

    /// Whether this node is claiming the job rather than following someone.
    pub fn claims_mastership(&self) -> (res: bool)
        ensures
            res <==> self.distance == 0,
    {
        self.distance == 0
    }

    /// Would this node's claim beat `other`'s?
    ///
    /// Ordering is (counter, metric, address), counter first: a node that has simply
    /// been master for longer wins even against a better metric, and that is what
    /// keeps a cluster from flapping between two similar candidates.
    ///
    /// Derived from the field layout and from the paper, not yet confirmed against a
    /// contested election in a capture. Treat as a hypothesis until it is.
    pub fn beats(&self, other: &ElectionParamsV2, self_addr: [u8; 6], other_addr: [u8; 6]) -> (res:
        bool)
        ensures
            res == spec_beats(*self, *other, self_addr, other_addr),
            self.self_counter > other.self_counter ==> res,
            self.self_counter < other.self_counter ==> !res,
            self.self_counter == other.self_counter && self.self_metric > other.self_metric
                ==> res,
            self.self_counter == other.self_counter && self.self_metric < other.self_metric
                ==> !res,
            self.self_counter == other.self_counter && self.self_metric == other.self_metric
                ==> (res <==> exists|i: int|
                0 <= i < 6 && other_addr[i] < self_addr[i] && forall|j: int|
                    0 <= j < i ==> other_addr[j] == self_addr[j]),
    {
        if self.self_counter != other.self_counter {
            return self.self_counter > other.self_counter;
        }
        if self.self_metric != other.self_metric {
            return self.self_metric > other.self_metric;
        }
        proof {
            lemma_bytes_lt_first_difference(other_addr@, self_addr@);
        }
        addr_lt(&other_addr, &self_addr)
    }
}

/// Whether address `a` orders before address `b`.
fn addr_lt(a: &[u8; 6], b: &[u8; 6]) -> (res: bool)
    ensures
        res == bytes_lt(a@, b@),
{
    let mut i: usize = 0;
    assert(a@.skip(0) =~= a@ && b@.skip(0) =~= b@);
    while i < 6
        invariant
            i <= 6,
            a@.len() == 6,
            b@.len() == 6,
            bytes_lt(a@, b@) == bytes_lt(a@.skip(i as int), b@.skip(i as int)),
        decreases 6 - i,
    {
        if a[i] != b[i] {
            return a[i] < b[i];
        }
        assert(a@.skip(i as int).drop_first() =~= a@.skip(i + 1));
        assert(b@.skip(i as int).drop_first() =~= b@.skip(i + 1));
        i = i + 1;
    }
    false
}

proof fn lemma_bytes_lt_irreflexive(a: Seq<u8>)
    ensures
        !bytes_lt(a, a),
    decreases a.len(),
{
    if a.len() > 0 {
        lemma_bytes_lt_irreflexive(a.drop_first());
    }
}

proof fn lemma_bytes_lt_asymmetric(a: Seq<u8>, b: Seq<u8>)
    requires
        bytes_lt(a, b),
    ensures
        !bytes_lt(b, a),
    decreases a.len(),
{
    if a.len() > 0 && b.len() > 0 && a[0] == b[0] {
        lemma_bytes_lt_asymmetric(a.drop_first(), b.drop_first());
    }
}

proof fn lemma_bytes_lt_transitive(a: Seq<u8>, b: Seq<u8>, c: Seq<u8>)
    requires
        bytes_lt(a, b),
        bytes_lt(b, c),
    ensures
        bytes_lt(a, c),
    decreases a.len(),
{
    if a.len() > 0 && b.len() > 0 && c.len() > 0 && a[0] == b[0] && b[0] == c[0] {
        lemma_bytes_lt_transitive(a.drop_first(), b.drop_first(), c.drop_first());
    }
}

proof fn lemma_bytes_lt_total(a: Seq<u8>, b: Seq<u8>)
    requires
        a != b,
    ensures
        bytes_lt(a, b) || bytes_lt(b, a),
    decreases a.len(),
{
    if a.len() == 0 || b.len() == 0 {
        if a.len() == 0 && b.len() == 0 {
            assert(a =~= b);
        }
    } else if a[0] == b[0] {
        let ta = a.drop_first();
        let tb = b.drop_first();
        assert(ta.len() == a.len() - 1 && tb.len() == b.len() - 1);
        if ta =~= tb {
            assert(a.len() == b.len());
            assert forall|i: int| 0 <= i < a.len() implies a[i] == b[i] by {
                if i > 0 {
                    assert(a[i] == ta[i - 1] && b[i] == tb[i - 1]);
                }
            }
            assert(a =~= b);
        }
        lemma_bytes_lt_total(ta, tb);
    }
}

/// No claim beats itself.
pub proof fn lemma_beats_irreflexive(x: ElectionParamsV2, addr: [u8; 6])
    ensures
        !spec_beats(x, x, addr, addr),
{
    lemma_bytes_lt_irreflexive(addr@);
}

/// If `x` beats `y`, then `y` does not beat `x`: two nodes never both win.
pub proof fn lemma_beats_asymmetric(
    x: ElectionParamsV2,
    y: ElectionParamsV2,
    x_addr: [u8; 6],
    y_addr: [u8; 6],
)
    requires
        spec_beats(x, y, x_addr, y_addr),
    ensures
        !spec_beats(y, x, y_addr, x_addr),
{
    if x.self_counter == y.self_counter && x.self_metric == y.self_metric {
        lemma_bytes_lt_asymmetric(y_addr@, x_addr@);
    }
}

/// If `x` beats `y` and `y` beats `z`, then `x` beats `z`: the claims form a chain
/// with a single strongest member, so a cluster can converge on one master.
pub proof fn lemma_beats_transitive(
    x: ElectionParamsV2,
    y: ElectionParamsV2,
    z: ElectionParamsV2,
    x_addr: [u8; 6],
    y_addr: [u8; 6],
    z_addr: [u8; 6],
)
    requires
        spec_beats(x, y, x_addr, y_addr),
        spec_beats(y, z, y_addr, z_addr),
    ensures
        spec_beats(x, z, x_addr, z_addr),
{
    if x.self_counter == y.self_counter && y.self_counter == z.self_counter
        && x.self_metric == y.self_metric && y.self_metric == z.self_metric {
        lemma_bytes_lt_transitive(z_addr@, y_addr@, x_addr@);
    }
}

/// Of two claims that differ in counter, metric or address, exactly one beats the
/// other: every contest has a winner.
pub proof fn lemma_beats_total(
    x: ElectionParamsV2,
    y: ElectionParamsV2,
    x_addr: [u8; 6],
    y_addr: [u8; 6],
)
    requires
        x.self_counter != y.self_counter || x.self_metric != y.self_metric || x_addr
            != y_addr,
    ensures
        spec_beats(x, y, x_addr, y_addr) || spec_beats(y, x, y_addr, x_addr),
{
    if x.self_counter == y.self_counter && x.self_metric == y.self_metric {
        if x_addr@ == y_addr@ {
            assert(x_addr =~= y_addr);
        }
        lemma_bytes_lt_total(x_addr@, y_addr@);
    }
}

/// A higher counter wins whatever the metrics and addresses: the counter is what
/// keeps a cluster from flapping between two candidates with similar metrics.
pub proof fn lemma_counter_decides(
    x: ElectionParamsV2,
    y: ElectionParamsV2,
    x_addr: [u8; 6],
    y_addr: [u8; 6],
)
    requires
        x.self_counter > y.self_counter,
    ensures
        spec_beats(x, y, x_addr, y_addr),
        !spec_beats(y, x, y_addr, x_addr),
{
}

/// Between equal-length byte strings, "less than" means: at the first position where
/// they differ, the first string holds the smaller byte.
pub proof fn lemma_bytes_lt_first_difference(a: Seq<u8>, b: Seq<u8>)
    requires
        a.len() == b.len(),
    ensures
        bytes_lt(a, b) <==> exists|i: int|
            0 <= i < a.len() && a[i] < b[i] && forall|j: int| 0 <= j < i ==> a[j] == b[j],
    decreases a.len(),
{
    if a.len() > 0 {
        let ta = a.drop_first();
        let tb = b.drop_first();
        lemma_bytes_lt_first_difference(ta, tb);
        if a[0] == b[0] {
            if bytes_lt(a, b) {
                let k = choose|k: int|
                    0 <= k < ta.len() && ta[k] < tb[k] && forall|j: int|
                        0 <= j < k ==> ta[j] == tb[j];
                assert(a[k + 1] < b[k + 1]);
                assert forall|j: int| 0 <= j < k + 1 implies a[j] == b[j] by {
                    if j > 0 {
                        assert(ta[j - 1] == tb[j - 1]);
                    }
                }
            }
            if exists|i: int|
                0 <= i < a.len() && a[i] < b[i] && forall|j: int| 0 <= j < i ==> a[j] == b[j] {
                let k = choose|k: int|
                    0 <= k < a.len() && a[k] < b[k] && forall|j: int| 0 <= j < k ==> a[j] == b[j];
                assert(k > 0);
                assert(ta[k - 1] < tb[k - 1]);
                assert forall|j: int| 0 <= j < k - 1 implies ta[j] == tb[j] by {
                    assert(a[j + 1] == b[j + 1]);
                }
            }
        } else {
            if a[0] < b[0] {
                assert(forall|j: int| 0 <= j < 0 ==> a[j] == b[j]);
            }
            if exists|i: int|
                0 <= i < a.len() && a[i] < b[i] && forall|j: int| 0 <= j < i ==> a[j] == b[j] {
                let k = choose|k: int|
                    0 <= k < a.len() && a[k] < b[k] && forall|j: int| 0 <= j < k ==> a[j] == b[j];
                if k > 0 {
                    assert(a[0] == b[0]);
                }
            }
        }
    }
}

/// With equal counters the higher metric wins, and the lower one loses, whatever the
/// addresses and whatever the counters' value, zero included.
pub proof fn lemma_metric_decides_equal_counters(
    x: ElectionParamsV2,
    y: ElectionParamsV2,
    x_addr: [u8; 6],
    y_addr: [u8; 6],
)
    requires
        x.self_counter == y.self_counter,
        x.self_metric > y.self_metric,
    ensures
        spec_beats(x, y, x_addr, y_addr),
        !spec_beats(y, x, y_addr, x_addr),
{
}

/// With equal counters and metrics, the claim from the higher address wins, comparing
/// addresses byte by byte from the first: the first differing byte decides.
pub proof fn lemma_address_decides_full_ties(
    x: ElectionParamsV2,
    y: ElectionParamsV2,
    x_addr: [u8; 6],
    y_addr: [u8; 6],
)
    requires
        x.self_counter == y.self_counter,
        x.self_metric == y.self_metric,
    ensures
        spec_beats(x, y, x_addr, y_addr) <==> exists|i: int|
            0 <= i < 6 && y_addr[i] < x_addr[i] && forall|j: int|
                0 <= j < i ==> y_addr[j] == x_addr[j],
{
    lemma_bytes_lt_first_difference(y_addr@, x_addr@);
}

} // verus!
