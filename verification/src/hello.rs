//! Capability handshake: what two endpoints agree on before anything moves.

use vstd::prelude::*;
use crate::safety::TaskClass;

pub mod capability_bits;
pub mod quantization_tier_bits;
pub mod task_class_bits;

verus! {

#[derive(Debug, Clone, Copy, PartialEq, Eq, Structural)]
pub struct ProtocolVersion {
    pub major: u8,
    pub minor: u8,
}

impl ProtocolVersion {
    /// The sixteen-bit wire form: major version in the high byte.
    pub open spec fn wire(self) -> u16 {
        (self.major * 256 + self.minor) as u16
    }

    /// The version that a sixteen-bit wire value stands for.
    pub open spec fn of_wire(v: u16) -> ProtocolVersion {
        ProtocolVersion { major: (v / 256) as u8, minor: (v % 256) as u8 }
    }

    pub fn new(major: u8, minor: u8) -> (v: Self)
        ensures
            v == (ProtocolVersion { major, minor }),
    {
        ProtocolVersion { major, minor }
    }

    pub fn encode(self) -> (v: u16)
        ensures
            v == self.wire(),
    {
        self.major as u16 * 256 + self.minor as u16
    }

    pub fn decode(v: u16) -> (r: Self)
        ensures
            r == Self::of_wire(v),
    {
        ProtocolVersion { major: (v / 256) as u8, minor: (v % 256) as u8 }
    }

    /// Every version survives the wire, and every wire value is some version's.
    pub proof fn lemma_round_trip(self, v: u16)
        ensures
            Self::of_wire(self.wire()) == self,
            Self::of_wire(v).wire() == v,
    {
    }
}

#[derive(Debug, Clone, Copy, PartialEq, Eq, Structural)]
pub struct HelloCapabilities {
    pub protocol_version: ProtocolVersion,
    pub capability_bitmask: u64,
    pub supported_task_classes: u8,
    pub supported_quantization_tiers: u8,
    pub max_control_rate_hz: u16,
}

#[derive(Debug, Clone, Copy, PartialEq, Eq, Structural)]
pub struct NegotiatedSession {
    pub version: ProtocolVersion,
    pub capability_bitmask: u64,
    pub task_classes: u8,
    pub quantization_tiers: u8,
    pub max_control_rate_hz: u16,
}

/// No shared major version.
#[derive(Debug, Clone, Copy, PartialEq, Eq, Structural)]
pub struct IncompatibleVersion {
    pub local_major: u8,
    pub peer_major: u8,
}

pub open spec fn min_u8(a: u8, b: u8) -> u8 {
    if a <= b {
        a
    } else {
        b
    }
}

pub open spec fn min_u16(a: u16, b: u16) -> u16 {
    if a <= b {
        a
    } else {
        b
    }
}

/// What two endpoints with the same major version agree on.
pub open spec fn agreed(local: HelloCapabilities, peer: HelloCapabilities) -> NegotiatedSession {
    NegotiatedSession {
        version: ProtocolVersion {
            major: local.protocol_version.major,
            minor: min_u8(local.protocol_version.minor, peer.protocol_version.minor),
        },
        capability_bitmask: local.capability_bitmask & peer.capability_bitmask,
        task_classes: local.supported_task_classes & peer.supported_task_classes,
        quantization_tiers: local.supported_quantization_tiers & peer.supported_quantization_tiers,
        max_control_rate_hz: min_u16(local.max_control_rate_hz, peer.max_control_rate_hz),
    }
}

/// The outcome of negotiation: rejection exactly on different major versions;
/// otherwise the lower minor version, the lower control rate, and the
/// intersection of each advertised set.
pub open spec fn negotiation(
    local: HelloCapabilities,
    peer: HelloCapabilities,
) -> Result<NegotiatedSession, IncompatibleVersion> {
    if local.protocol_version.major == peer.protocol_version.major {
        Ok(agreed(local, peer))
    } else {
        Err(
            (IncompatibleVersion {
                local_major: local.protocol_version.major,
                peer_major: peer.protocol_version.major,
            }),
        )
    }
}

pub fn negotiate(local: &HelloCapabilities, peer: &HelloCapabilities) -> (r: Result<
    NegotiatedSession,
    IncompatibleVersion,
>)
    ensures
        r == negotiation(*local, *peer),
{
    if local.protocol_version.major != peer.protocol_version.major {
        return Err(
            IncompatibleVersion {
                local_major: local.protocol_version.major,
                peer_major: peer.protocol_version.major,
            },
        );
    }
    let minor: u8 = if local.protocol_version.minor <= peer.protocol_version.minor {
        local.protocol_version.minor
    } else {
        peer.protocol_version.minor
    };
    let rate: u16 = if local.max_control_rate_hz <= peer.max_control_rate_hz {
        local.max_control_rate_hz
    } else {
        peer.max_control_rate_hz
    };
    Ok(
        NegotiatedSession {
            version: ProtocolVersion::new(local.protocol_version.major, minor),
            capability_bitmask: local.capability_bitmask & peer.capability_bitmask,
            task_classes: local.supported_task_classes & peer.supported_task_classes,
            quantization_tiers: local.supported_quantization_tiers
                & peer.supported_quantization_tiers,
            max_control_rate_hz: rate,
        },
    )
}

/// The bits of `required` that are not among `held`, if there are any.
pub open spec fn lacking(required: u64, held: u64) -> Option<u64> {
    if required & !held != 0 {
        Some(required & !held)
    } else {
        None
    }
}

/// What is lacking is what is required and not held, bit by bit; nothing is
/// lacking exactly where everything that is required is held.
pub proof fn lemma_lacking(required: u64, held: u64, k: u64)
    requires
        k < 64,
    ensures
        lacking(required, held) is None <==> required & held == required,
        lacking(required, held) matches Some(m) ==> ((m >> k) & 1 == 1 <==> (required >> k) & 1 == 1
            && (held >> k) & 1 == 0),
{
    assert(required & !held == 0 <==> required & held == required) by (bit_vector);
    assert(((required & !held) >> k) & 1 == 1 <==> (required >> k) & 1 == 1 && (held >> k) & 1 == 0)
        by (bit_vector)
        requires
            k < 64,
    ;
}

/// The required capability bits that the session lacks, if there are any.
pub fn missing_required_capabilities(required: u64, negotiated: &NegotiatedSession) -> (r: Option<
    u64,
>)
    ensures
        r == lacking(required, negotiated.capability_bitmask),
        r == if required & !negotiated.capability_bitmask != 0 {
            Some(required & !negotiated.capability_bitmask)
        } else {
            None
        },
{
    let missing: u64 = required & !negotiated.capability_bitmask;
    if missing != 0 {
        Some(missing)
    } else {
        None
    }
}

/// Both endpoints come to the same end: either both reject or both hold the
/// same session.
pub proof fn lemma_negotiation_symmetric(a: HelloCapabilities, b: HelloCapabilities)
    ensures
        negotiation(a, b) is Ok <==> negotiation(b, a) is Ok,
        negotiation(a, b) is Ok ==> negotiation(a, b)->Ok_0 == negotiation(b, a)->Ok_0,
{
    let (x, y) = (a.capability_bitmask, b.capability_bitmask);
    assert(x & y == y & x) by (bit_vector);
    let (x, y) = (a.supported_task_classes, b.supported_task_classes);
    assert(x & y == y & x) by (bit_vector);
    let (x, y) = (a.supported_quantization_tiers, b.supported_quantization_tiers);
    assert(x & y == y & x) by (bit_vector);
}

/// A session never holds a capability, task class or tier that either endpoint
/// did not advertise, and no capability that both advertise is missing.
pub proof fn lemma_session_within_both(local: HelloCapabilities, peer: HelloCapabilities, bit: u64)
    requires
        negotiation(local, peer) is Ok,
    ensures
        ({
            let s = negotiation(local, peer)->Ok_0;
            &&& s.capability_bitmask & bit == bit <==> local.capability_bitmask & bit == bit
                && peer.capability_bitmask & bit == bit
            &&& s.max_control_rate_hz <= local.max_control_rate_hz
            &&& s.max_control_rate_hz <= peer.max_control_rate_hz
            &&& s.version.minor <= local.protocol_version.minor
            &&& s.version.minor <= peer.protocol_version.minor
        }),
{
    let (x, y) = (local.capability_bitmask, peer.capability_bitmask);
    assert((x & y) & bit == bit <==> x & bit == bit && y & bit == bit) by (bit_vector);
}

/// What this program offers for sessions of a task class.
pub open spec fn local_offer(task_class: TaskClass) -> HelloCapabilities {
    HelloCapabilities {
        protocol_version: ProtocolVersion { major: 1, minor: 0 },
        capability_bitmask: 0,
        supported_task_classes: match task_class {
            TaskClass::B => task_class_bits::CLASS_B,
            TaskClass::C => task_class_bits::CLASS_C,
            TaskClass::D => task_class_bits::CLASS_D,
            TaskClass::E => task_class_bits::CLASS_E,
        },
        supported_quantization_tiers: quantization_tier_bits::STANDARD,
        max_control_rate_hz: 50,
    }
}

pub fn local_hello_capabilities(task_class: TaskClass) -> (c: HelloCapabilities)
    ensures
        c == local_offer(task_class),
{
    let task_class_bit: u8 = match task_class {
        TaskClass::B => task_class_bits::CLASS_B,
        TaskClass::C => task_class_bits::CLASS_C,
        TaskClass::D => task_class_bits::CLASS_D,
        TaskClass::E => task_class_bits::CLASS_E,
    };
    HelloCapabilities {
        protocol_version: ProtocolVersion::new(1, 0),
        capability_bitmask: 0,
        supported_task_classes: task_class_bit,
        supported_quantization_tiers: quantization_tier_bits::STANDARD,
        max_control_rate_hz: 50,
    }
}

/// Two endpoints of this program always agree, whatever their task classes.
pub proof fn lemma_local_offers_agree(a: TaskClass, b: TaskClass)
    ensures
        negotiation(local_offer(a), local_offer(b)) is Ok,
{
}

/// What comes of two greetings. Other major versions reject each other, and name
/// both. Otherwise the session has the lower minor version and the lower rate,
/// and of every set exactly what both offer.
pub proof fn lemma_what_is_agreed(local: HelloCapabilities, peer: HelloCapabilities, bit: u8)
    ensures
        negotiation(local, peer) is Ok <==> local.protocol_version.major
            == peer.protocol_version.major,
        negotiation(local, peer) matches Err(e) ==> e.local_major == local.protocol_version.major
            && e.peer_major == peer.protocol_version.major,
        negotiation(local, peer) matches Ok(s) ==> {
            &&& s.version.major == local.protocol_version.major
            &&& s.version.minor <= local.protocol_version.minor && s.version.minor
                <= peer.protocol_version.minor
            &&& s.version.minor == local.protocol_version.minor || s.version.minor
                == peer.protocol_version.minor
            &&& s.max_control_rate_hz <= local.max_control_rate_hz && s.max_control_rate_hz
                <= peer.max_control_rate_hz
            &&& s.max_control_rate_hz == local.max_control_rate_hz || s.max_control_rate_hz
                == peer.max_control_rate_hz
            &&& s.task_classes & bit == bit <==> local.supported_task_classes & bit == bit
                && peer.supported_task_classes & bit == bit
            &&& s.quantization_tiers & bit == bit <==> local.supported_quantization_tiers & bit
                == bit && peer.supported_quantization_tiers & bit == bit
        },
{
    let (x, y) = (local.supported_task_classes, peer.supported_task_classes);
    assert((x & y) & bit == bit <==> x & bit == bit && y & bit == bit) by (bit_vector);
    let (x, y) = (local.supported_quantization_tiers, peer.supported_quantization_tiers);
    assert((x & y) & bit == bit <==> x & bit == bit && y & bit == bit) by (bit_vector);
}

/// What this program offers: the first version, the one task class that it is
/// set to, the standard tier, and fifty commands a second.
pub proof fn lemma_offer()
    ensures
        forall|class: TaskClass|
            {
                &&& (#[trigger] local_offer(class)).protocol_version.major == 1
                &&& local_offer(class).protocol_version.minor == 0
                &&& local_offer(class).capability_bitmask == 0
                &&& local_offer(class).supported_quantization_tiers
                    == quantization_tier_bits::STANDARD
                &&& local_offer(class).max_control_rate_hz == 50
            },
        local_offer(TaskClass::B).supported_task_classes == task_class_bits::CLASS_B,
        local_offer(TaskClass::C).supported_task_classes == task_class_bits::CLASS_C,
        local_offer(TaskClass::D).supported_task_classes == task_class_bits::CLASS_D,
        local_offer(TaskClass::E).supported_task_classes == task_class_bits::CLASS_E,
{
}

/// On the wire the major version is the high byte.
pub proof fn lemma_version_on_the_wire(v: ProtocolVersion)
    ensures
        v.wire() == 256 * v.major + v.minor,
{
}

} // verus!
