//! Payload sizes of command and telemetry datagrams, quantization tiers, and
//! the split of a large field set over several datagrams.

use vstd::prelude::*;

verus! {

/// How many bytes one quantized field takes.
#[derive(Debug, Clone, Copy, PartialEq, Eq, PartialOrd, Ord, Structural)]
pub enum QuantizationTier {
    /// Eight-bit integers.
    Compact,
    /// Sixteen-bit fixed point.
    Standard,
    /// Single-precision numbers.
    Full,
}

impl QuantizationTier {
    pub open spec fn width(self) -> nat {
        match self {
            QuantizationTier::Compact => 1,
            QuantizationTier::Standard => 2,
            QuantizationTier::Full => 4,
        }
    }

    pub fn bytes_per_field(self) -> (n: u32)
        ensures
            n == self.width(),
    {
        match self {
            QuantizationTier::Compact => 1,
            QuantizationTier::Standard => 2,
            QuantizationTier::Full => 4,
        }
    }
}

/// Haptic fields may never be quantized below this tier.
pub const HAPTIC_MIN_TIER: QuantizationTier = QuantizationTier::Standard;

pub const NTP_TIMESTAMP_BYTES: u32 = 8;

pub const SEQUENCE_NUMBER_BYTES: u32 = 8;

pub const HMAC_SHA256_BYTES: u32 = 32;

pub const FLATBUFFERS_FRAMING_BYTES: u32 = 12;

/// Only present on datagrams that carry haptic fields.
pub const TDPA_METADATA_BYTES: u32 = 8;

pub const FIXED_OVERHEAD_BYTES: u32 = NTP_TIMESTAMP_BYTES + SEQUENCE_NUMBER_BYTES
    + HMAC_SHA256_BYTES + FLATBUFFERS_FRAMING_BYTES;

pub const SINGLE_DATAGRAM_BUDGET_BYTES: u32 = 1200;

pub const IPV4_HEADER_BYTES: u32 = 20;

pub const UDP_HEADER_BYTES: u32 = 8;

pub const QUIC_SHORT_HEADER_BYTES: u32 = 9;

pub const AEAD_TAG_BYTES: u32 = 16;

/// Link-level overhead, not counted against the datagram budget.
pub const WIRE_OVERHEAD_BYTES: u32 = IPV4_HEADER_BYTES + UDP_HEADER_BYTES + QUIC_SHORT_HEADER_BYTES
    + AEAD_TAG_BYTES;

/// The tier is below the floor for haptic fields.
#[derive(Debug, Clone, Copy, PartialEq, Eq, Structural)]
pub struct HapticTierViolation {
    pub tier: QuantizationTier,
}

/// May force feedback be quantized at this tier?
pub open spec fn haptic_may(tier: QuantizationTier) -> bool {
    tier.width() >= HAPTIC_MIN_TIER.width()
}

/// Force feedback is not squeezed into single bytes; the other tiers will do.
pub proof fn lemma_haptic_tiers()
    ensures
        !haptic_may(QuantizationTier::Compact),
        haptic_may(QuantizationTier::Standard),
        haptic_may(QuantizationTier::Full),
{
}

pub fn validate_haptic_tier(tier: QuantizationTier) -> (r: Result<(), HapticTierViolation>)
    ensures
        r is Ok <==> haptic_may(tier),
        r == if tier.width() < HAPTIC_MIN_TIER.width() {
            Err::<(), HapticTierViolation>(HapticTierViolation { tier })
        } else {
            Ok::<(), HapticTierViolation>(())
        },
{
    if tier.bytes_per_field() < HAPTIC_MIN_TIER.bytes_per_field() {
        return Err(HapticTierViolation { tier });
    }
    Ok(())
}

pub open spec fn overhead_of(carries_haptic: bool) -> nat {
    if carries_haptic {
        (FIXED_OVERHEAD_BYTES + TDPA_METADATA_BYTES) as nat
    } else {
        FIXED_OVERHEAD_BYTES as nat
    }
}

pub fn fixed_overhead_bytes(carries_haptic: bool) -> (n: u32)
    ensures
        n == overhead_of(carries_haptic),
{
    if carries_haptic {
        FIXED_OVERHEAD_BYTES + TDPA_METADATA_BYTES
    } else {
        FIXED_OVERHEAD_BYTES
    }
}

/// Payload size of `num_fields` fields at `tier`, overhead included.
pub open spec fn payload_of(num_fields: nat, tier: QuantizationTier, carries_haptic: bool) -> nat {
    num_fields * tier.width() + overhead_of(carries_haptic)
}

pub fn application_payload_bytes(
    num_fields: u32,
    tier: QuantizationTier,
    carries_haptic: bool,
) -> (n: u32)
    requires
        payload_of(num_fields as nat, tier, carries_haptic) <= u32::MAX,
    ensures
        n == payload_of(num_fields as nat, tier, carries_haptic),
{
    let width: u32 = tier.bytes_per_field();
    let overhead: u32 = fixed_overhead_bytes(carries_haptic);
    num_fields * width + overhead
}

pub fn wire_bytes(app_payload_bytes: u32) -> (n: u32)
    requires
        app_payload_bytes + WIRE_OVERHEAD_BYTES <= u32::MAX,
    ensures
        n == app_payload_bytes + WIRE_OVERHEAD_BYTES,
{
    app_payload_bytes + WIRE_OVERHEAD_BYTES
}

/// One outbound datagram's field count and resulting sizes.
#[derive(Debug, Clone, Copy, PartialEq, Eq, Structural)]
pub struct DatagramPlan {
    pub num_fields: u32,
    pub app_bytes: u32,
    pub wire_bytes: u32,
}

/// The plan of a datagram with `num_fields` fields.
pub open spec fn plan_for(
    num_fields: nat,
    tier: QuantizationTier,
    carries_haptic: bool,
) -> DatagramPlan {
    DatagramPlan {
        num_fields: num_fields as u32,
        app_bytes: payload_of(num_fields, tier, carries_haptic) as u32,
        wire_bytes: (payload_of(num_fields, tier, carries_haptic) + WIRE_OVERHEAD_BYTES) as u32,
    }
}

/// How many fields one datagram may hold within the budget; at least one.
pub open spec fn capacity_of(
    tier: QuantizationTier,
    carries_haptic: bool,
    budget_bytes: nat,
) -> nat {
    let room = if budget_bytes > overhead_of(carries_haptic) {
        (budget_bytes - overhead_of(carries_haptic)) as nat
    } else {
        0
    };
    if room / tier.width() == 0 {
        1
    } else {
        room / tier.width()
    }
}

/// How many datagrams carry `num_fields` fields.
pub open spec fn datagram_count(
    num_fields: nat,
    tier: QuantizationTier,
    carries_haptic: bool,
    budget_bytes: nat,
) -> nat {
    if payload_of(num_fields, tier, carries_haptic) <= budget_bytes || num_fields == 0 {
        1
    } else {
        let cap = capacity_of(tier, carries_haptic, budget_bytes);
        (num_fields + cap - 1) as nat / cap
    }
}

/// The fields of datagram `i` when `num_fields` are spread evenly over `n`:
/// the first ones take one more when the division leaves a remainder.
pub open spec fn share(num_fields: nat, n: nat, i: nat) -> nat {
    num_fields / n + if i < num_fields % n {
        1nat
    } else {
        0nat
    }
}

/// The plans of a field set: an even split over as few datagrams as fit.
pub open spec fn plans_of(
    num_fields: nat,
    tier: QuantizationTier,
    carries_haptic: bool,
    budget_bytes: nat,
) -> Seq<DatagramPlan> {
    let n = datagram_count(num_fields, tier, carries_haptic, budget_bytes);
    Seq::new(n, |i: int| plan_for(share(num_fields, n, i as nat), tier, carries_haptic))
}

proof fn lemma_ceil(num_fields: nat, cap: nat)
    requires
        num_fields > 0,
        cap > 0,
    ensures
        ({
            let n = (num_fields + cap - 1) as nat / cap;
            1 <= n <= num_fields && num_fields <= n * cap
        }),
{
    let n = (num_fields + cap - 1) as nat / cap;
    assert(n * cap <= num_fields + cap - 1 < n * cap + cap) by (nonlinear_arith)
        requires
            n == (num_fields + cap - 1) as nat / cap,
            cap > 0,
            num_fields > 0,
    ;
    assert(n >= 1) by (nonlinear_arith)
        requires
            num_fields + cap - 1 < n * cap + cap,
            num_fields > 0,
            cap > 0,
    ;
    assert(n <= num_fields) by (nonlinear_arith)
        requires
            n * cap <= num_fields + cap - 1,
            num_fields > 0,
            cap > 0,
    ;
}

proof fn lemma_share_bound(num_fields: nat, n: nat, i: nat, cap: nat)
    requires
        1 <= n,
        num_fields <= n * cap,
    ensures
        share(num_fields, n, i) <= cap,
        share(num_fields, n, i) <= num_fields,
{
    let base = num_fields / n;
    let extra = num_fields % n;
    assert(num_fields == base * n + extra && extra < n) by (nonlinear_arith)
        requires
            n >= 1,
            base == num_fields / n,
            extra == num_fields % n,
    ;
    assert(base <= cap && (extra > 0 ==> base + 1 <= cap)) by (nonlinear_arith)
        requires
            num_fields == base * n + extra,
            extra < n,
            num_fields <= n * cap,
    ;
    assert(base <= num_fields && (extra > 0 ==> base + 1 <= num_fields)) by (nonlinear_arith)
        requires
            num_fields == base * n + extra,
            n >= 1,
    ;
}

/// The datagrams that carry `num_fields` fields at `tier`; an error exactly if
/// haptic fields would be quantized below their floor.
pub fn plan_datagrams(
    num_fields: u32,
    tier: QuantizationTier,
    carries_haptic: bool,
    budget_bytes: u32,
) -> (r: Result<Vec<DatagramPlan>, HapticTierViolation>)
    requires
        payload_of(num_fields as nat, tier, carries_haptic) + WIRE_OVERHEAD_BYTES <= u32::MAX,
    ensures
        r is Err <==> carries_haptic && !haptic_may(tier),
        r is Err <==> carries_haptic && tier.width() < HAPTIC_MIN_TIER.width(),
        r is Err ==> r->Err_0.tier == tier,
        r is Ok ==> r->Ok_0@ == plans_of(
            num_fields as nat,
            tier,
            carries_haptic,
            budget_bytes as nat,
        ),
{
    if carries_haptic {
        match validate_haptic_tier(tier) {
            Ok(()) => {},
            Err(e) => {
                return Err(e);
            },
        }
    }
    let width: u32 = tier.bytes_per_field();
    let overhead: u32 = fixed_overhead_bytes(carries_haptic);
    let single_size: u32 = num_fields * width + overhead;
    let mut plans: Vec<DatagramPlan> = Vec::new();
    if single_size <= budget_bytes || num_fields == 0 {
        plans.push(
            DatagramPlan {
                num_fields,
                app_bytes: single_size,
                wire_bytes: wire_bytes(single_size),
            },
        );
        proof {
            assert(share(num_fields as nat, 1, 0) == num_fields);
            assert(plans@ =~= plans_of(
                num_fields as nat,
                tier,
                carries_haptic,
                budget_bytes as nat,
            ));
        }
        return Ok(plans);
    }
    let room: u32 = budget_bytes.saturating_sub(overhead);
    let fitting: u32 = room / width;
    let capacity: u32 = if fitting == 0 {
        1
    } else {
        fitting
    };
    let ghost n = datagram_count(num_fields as nat, tier, carries_haptic, budget_bytes as nat);
    proof {
        assert(capacity == capacity_of(tier, carries_haptic, budget_bytes as nat));
        lemma_ceil(num_fields as nat, capacity as nat);
    }
    let n_datagrams: u32 = ((num_fields as u64 + capacity as u64 - 1) / capacity as u64) as u32;
    assert(n_datagrams == n);
    let base: u32 = num_fields / n_datagrams;
    let extra: u32 = num_fields % n_datagrams;
    let mut i: u32 = 0;
    while i < n_datagrams
        invariant
            i <= n_datagrams,
            n_datagrams == n,
            n >= 1,
            n == datagram_count(num_fields as nat, tier, carries_haptic, budget_bytes as nat),
            base == num_fields as nat / n,
            extra == num_fields as nat % n,
            width == tier.width(),
            overhead == overhead_of(carries_haptic),
            num_fields as nat <= n * capacity as nat,
            payload_of(num_fields as nat, tier, carries_haptic) + WIRE_OVERHEAD_BYTES <= u32::MAX,
            plans@.len() == i,
            forall|j: int|
                0 <= j < i ==> plans@[j] == plan_for(
                    share(num_fields as nat, n, j as nat),
                    tier,
                    carries_haptic,
                ),
        decreases n_datagrams - i,
    {
        proof {
            lemma_share_bound(num_fields as nat, n, i as nat, capacity as nat);
            let f = share(num_fields as nat, n, i as nat);
            assert(f * tier.width() <= num_fields as nat * tier.width()) by (nonlinear_arith)
                requires
                    f <= num_fields as nat,
            ;
        }
        let fields_i: u32 = if i < extra {
            base + 1
        } else {
            base
        };
        let app_bytes_i: u32 = fields_i * width + overhead;
        plans.push(
            DatagramPlan {
                num_fields: fields_i,
                app_bytes: app_bytes_i,
                wire_bytes: wire_bytes(app_bytes_i),
            },
        );
        i = i + 1;
    }
    proof {
        assert(plans@ =~= plans_of(num_fields as nat, tier, carries_haptic, budget_bytes as nat));
    }
    Ok(plans)
}

/// `plan_datagrams` with the standard budget.
pub fn default_plan_datagrams(
    num_fields: u32,
    tier: QuantizationTier,
    carries_haptic: bool,
) -> (r: Result<Vec<DatagramPlan>, HapticTierViolation>)
    requires
        payload_of(num_fields as nat, tier, carries_haptic) + WIRE_OVERHEAD_BYTES <= u32::MAX,
    ensures
        r is Err <==> carries_haptic && !haptic_may(tier),
        r is Err <==> carries_haptic && tier.width() < HAPTIC_MIN_TIER.width(),
        r is Err ==> r->Err_0.tier == tier,
        r is Ok ==> r->Ok_0@ == plans_of(
            num_fields as nat,
            tier,
            carries_haptic,
            SINGLE_DATAGRAM_BUDGET_BYTES as nat,
        ),
{
    plan_datagrams(num_fields, tier, carries_haptic, SINGLE_DATAGRAM_BUDGET_BYTES)
}

/// Fields carried by the first `k` of `n` evenly loaded datagrams.
pub open spec fn total_share(num_fields: nat, n: nat, k: nat) -> nat
    decreases k,
{
    if k == 0 {
        0
    } else {
        total_share(num_fields, n, (k - 1) as nat) + share(num_fields, n, (k - 1) as nat)
    }
}

proof fn lemma_total_share(num_fields: nat, n: nat, k: nat)
    requires
        1 <= n,
        k <= n,
    ensures
        total_share(num_fields, n, k) == k * (num_fields / n) + if k < num_fields % n {
            k
        } else {
            num_fields % n
        },
    decreases k,
{
    if k > 0 {
        lemma_total_share(num_fields, n, (k - 1) as nat);
        let b = num_fields / n;
        assert((k - 1) * b + b == k * b) by (nonlinear_arith);
    } else {
        assert(0 * (num_fields / n) == 0);
    }
}

/// A split neither drops nor duplicates fields.
pub proof fn lemma_split_conserves_fields(
    num_fields: nat,
    tier: QuantizationTier,
    carries_haptic: bool,
    budget_bytes: nat,
)
    ensures
        ({
            let n = datagram_count(num_fields, tier, carries_haptic, budget_bytes);
            total_share(num_fields, n, n) == num_fields
        }),
{
    let n = datagram_count(num_fields, tier, carries_haptic, budget_bytes);
    if !(payload_of(num_fields, tier, carries_haptic) <= budget_bytes || num_fields == 0) {
        lemma_ceil(num_fields, capacity_of(tier, carries_haptic, budget_bytes));
    }
    lemma_total_share(num_fields, n, n);
    assert(n * (num_fields / n) + num_fields % n == num_fields) by (nonlinear_arith)
        requires
            n >= 1,
    ;
}

/// Every datagram of a plan respects the budget, whenever the budget leaves
/// room for at least one field.
pub proof fn lemma_split_respects_budget(
    num_fields: nat,
    tier: QuantizationTier,
    carries_haptic: bool,
    budget_bytes: nat,
    i: nat,
)
    requires
        budget_bytes >= overhead_of(carries_haptic) + tier.width(),
        i < datagram_count(num_fields, tier, carries_haptic, budget_bytes),
    ensures
        ({
            let n = datagram_count(num_fields, tier, carries_haptic, budget_bytes);
            payload_of(share(num_fields, n, i), tier, carries_haptic) <= budget_bytes
        }),
{
    let n = datagram_count(num_fields, tier, carries_haptic, budget_bytes);
    let w = tier.width();
    if payload_of(num_fields, tier, carries_haptic) <= budget_bytes || num_fields == 0 {
        assert(share(num_fields, 1, 0) == num_fields);
        assert(0 * w == 0) by (nonlinear_arith);
    } else {
        let cap = capacity_of(tier, carries_haptic, budget_bytes);
        let room = (budget_bytes - overhead_of(carries_haptic)) as nat;
        lemma_ceil(num_fields, cap);
        lemma_share_bound(num_fields, n, i, cap);
        let f = share(num_fields, n, i);
        assert(cap == room / w);
        assert(f * w <= room) by (nonlinear_arith)
            requires
                f <= cap,
                cap == room / w,
                w > 0,
        ;
    }
}

/// How many fields the plans carry together.
pub open spec fn planned_fields(plans: Seq<DatagramPlan>) -> nat
    decreases plans.len(),
{
    if plans.len() == 0 {
        0
    } else {
        planned_fields(plans.drop_last()) + plans.last().num_fields as nat
    }
}

proof fn lemma_planned_prefix(
    num_fields: nat,
    tier: QuantizationTier,
    carries_haptic: bool,
    n: nat,
    k: nat,
)
    requires
        1 <= n,
        k <= n,
        num_fields <= u32::MAX,
    ensures
        planned_fields(
            Seq::new(k, |i: int| plan_for(share(num_fields, n, i as nat), tier, carries_haptic)),
        ) == total_share(num_fields, n, k),
    decreases k,
{
    let plans = Seq::new(
        k,
        |i: int| plan_for(share(num_fields, n, i as nat), tier, carries_haptic),
    );
    if k > 0 {
        lemma_planned_prefix(num_fields, tier, carries_haptic, n, (k - 1) as nat);
        assert(plans.drop_last() =~= Seq::new(
            (k - 1) as nat,
            |i: int| plan_for(share(num_fields, n, i as nat), tier, carries_haptic),
        ));
        assert(num_fields <= n * num_fields) by (nonlinear_arith)
            requires
                1 <= n,
        ;
        lemma_share_bound(num_fields, n, (k - 1) as nat, num_fields);
    }
}

/// The sizes of a plan follow from its fields: at one, two or four bytes each,
/// sixty bytes around them, eight more where force feedback is carried, and
/// fifty-three bytes below that on the wire.
pub proof fn lemma_plan_sizes(num_fields: nat, tier: QuantizationTier, carries_haptic: bool)
    requires
        num_fields <= 0x1000_0000,
    ensures
        ({
            let p = plan_for(num_fields, tier, carries_haptic);
            let extra: int = if carries_haptic {
                8
            } else {
                0
            };
            &&& p.num_fields == num_fields
            &&& tier is Compact ==> p.app_bytes == num_fields + 60 + extra
            &&& tier is Standard ==> p.app_bytes == 2 * num_fields + 60 + extra
            &&& tier is Full ==> p.app_bytes == 4 * num_fields + 60 + extra
            &&& p.wire_bytes == p.app_bytes + 53
        }),
{
    let w = tier.width();
    assert(w == 1 ==> num_fields * w == num_fields) by (nonlinear_arith);
    assert(w == 2 ==> num_fields * w == 2 * num_fields) by (nonlinear_arith);
    assert(w == 4 ==> num_fields * w == 4 * num_fields) by (nonlinear_arith);
}

/// A field set goes out in one datagram whenever that fits the budget. Otherwise
/// it is spread over several: together they carry every field, the loads of any
/// two differ by one field at most, and one datagram fewer could not carry them
/// within the budget.
pub proof fn lemma_plans_are_even_and_few(
    num_fields: nat,
    tier: QuantizationTier,
    carries_haptic: bool,
    budget_bytes: nat,
    i: int,
    j: int,
    per_datagram: nat,
)
    requires
        num_fields <= u32::MAX,
        0 <= i < plans_of(num_fields, tier, carries_haptic, budget_bytes).len(),
        0 <= j < plans_of(num_fields, tier, carries_haptic, budget_bytes).len(),
    ensures
        ({
            let plans = plans_of(num_fields, tier, carries_haptic, budget_bytes);
            &&& planned_fields(plans) == num_fields
            &&& plans[i].num_fields <= plans[j].num_fields + 1
            &&& payload_of(num_fields, tier, carries_haptic) <= budget_bytes ==> plans.len() == 1
            &&& plans.len() > 1 && payload_of(per_datagram, tier, carries_haptic) <= budget_bytes
                ==> (plans.len() - 1) * per_datagram < num_fields
        }),
{
    let plans = plans_of(num_fields, tier, carries_haptic, budget_bytes);
    let n = datagram_count(num_fields, tier, carries_haptic, budget_bytes);
    lemma_split_conserves_fields(num_fields, tier, carries_haptic, budget_bytes);
    lemma_planned_prefix(num_fields, tier, carries_haptic, n, n);
    assert(num_fields <= n * num_fields) by (nonlinear_arith)
        requires
            1 <= n,
    ;
    lemma_share_bound(num_fields, n, i as nat, num_fields);
    lemma_share_bound(num_fields, n, j as nat, num_fields);
    if plans.len() > 1 && payload_of(per_datagram, tier, carries_haptic) <= budget_bytes {
        let cap = capacity_of(tier, carries_haptic, budget_bytes);
        let w = tier.width();
        let room = (budget_bytes - overhead_of(carries_haptic)) as nat;
        assert(per_datagram <= room / w) by (nonlinear_arith)
            requires
                per_datagram * w <= room,
                w > 0,
        ;
        assert(per_datagram <= cap);
        assert(n == (num_fields + cap - 1) as nat / cap);
        assert((n - 1) * cap < num_fields) by (nonlinear_arith)
            requires
                n == (num_fields + cap - 1) as nat / cap,
                cap > 0,
                num_fields > 0,
        ;
        assert((n - 1) * per_datagram <= (n - 1) * cap) by (nonlinear_arith)
            requires
                per_datagram <= cap,
                n >= 1,
        ;
    }
}

/// What every datagram carries besides its fields: a time, a number, a seal and
/// the framing; and one with force feedback the passivity data too.
pub proof fn lemma_overheads()
    ensures
        overhead_of(false) == 60,
        overhead_of(true) == 68,
        WIRE_OVERHEAD_BYTES == 53,
        SINGLE_DATAGRAM_BUDGET_BYTES == 1200,
{
}

} // verus!
