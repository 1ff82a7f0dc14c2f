//! Robot and camera descriptors, and the field layouts that both endpoints
//! derive from them. A layout is never transmitted: it follows from the
//! profile, the selected regions and the quantization tier.

use vstd::prelude::*;
use crate::sizing::QuantizationTier;
use crate::wire::push_le;

verus! {

/// One joint. The limits are bit patterns of single-precision numbers; nothing
/// here computes with them.
#[derive(Debug, Clone, Copy, PartialEq, Eq, Structural)]
pub struct JointDescriptor {
    pub min_limit_bits: u32,
    pub max_limit_bits: u32,
    pub max_velocity_bits: u32,
    pub has_torque_sensing: bool,
    pub region_id: u8,
}

/// What a command datagram means for a region. Telemetry is per joint for
/// every shape.
#[derive(Debug, Clone, Copy, PartialEq, Eq, Structural)]
pub enum CommandShape {
    /// One command field per joint of the region.
    Kinematic,
    /// Body velocity and attitude: one block for the whole robot, however many
    /// regions are tagged with it.
    VelocityAttitude,
    /// A target position and a gripper, one block per region.
    CartesianEndEffector,
}

impl CommandShape {
    /// The number that stands for the shape on the wire and in profile hashes.
    pub open spec fn number(self) -> u8 {
        match self {
            CommandShape::Kinematic => 0,
            CommandShape::VelocityAttitude => 1,
            CommandShape::CartesianEndEffector => 2,
        }
    }

    pub open spec fn fixed_fields(self) -> Option<u32> {
        match self {
            CommandShape::Kinematic => None,
            CommandShape::VelocityAttitude => Some(6),
            CommandShape::CartesianEndEffector => Some(4),
        }
    }

    /// How many fields the shape takes, unless that depends on joint count.
    pub fn fixed_field_count(self) -> (n: Option<u32>)
        ensures
            n == self.fixed_fields(),
    {
        match self {
            CommandShape::Kinematic => None,
            CommandShape::VelocityAttitude => Some(6),
            CommandShape::CartesianEndEffector => Some(4),
        }
    }
}

#[derive(Debug)]
pub struct BodyRegionDescriptor {
    pub region_id: u8,
    /// For logs only; no layout depends on it.
    pub name: String,
    pub joint_start: u16,
    pub joint_count: u16,
    pub has_force_torque_sensor: bool,
    pub command_shape: CommandShape,
}

#[derive(Debug, Clone, Copy, PartialEq, Eq, Structural)]
pub enum Codec {
    H265,
    Av1,
    H264,
}

#[derive(Debug)]
pub struct CameraDescriptor {
    pub camera_id: u8,
    pub label: String,
    pub codec: Codec,
    pub resolution_w: u16,
    pub resolution_h: u16,
    pub max_fps: u8,
    pub min_bitrate_kbps: u32,
    pub max_bitrate_kbps: u32,
}

/// How the whole robot stands and moves.
#[derive(Debug, Clone, Copy, PartialEq, Eq, Structural)]
pub enum BaseType {
    /// No locomotion at all.
    Stationary,
    /// Cannot move sideways on its own.
    WheeledStandard,
    /// Can move sideways.
    WheeledHolonomic,
    /// Two legs, dynamically balanced.
    BipedLegs,
    /// Four or more legs, statically stable.
    QuadrupedLegs,
    Other,
}

impl BaseType {
    /// The number that stands for the base on the wire and in profile hashes.
    pub open spec fn number(self) -> u8 {
        match self {
            BaseType::Stationary => 0,
            BaseType::WheeledStandard => 1,
            BaseType::WheeledHolonomic => 2,
            BaseType::BipedLegs => 3,
            BaseType::QuadrupedLegs => 4,
            BaseType::Other => 5,
        }
    }

    /// Only a dynamically balanced base needs the balance override.
    pub fn requires_dynamic_balance_override(self) -> (b: bool)
        ensures
            b == (self == BaseType::BipedLegs),
    {
        match self {
            BaseType::BipedLegs => true,
            _ => false,
        }
    }

    /// Sideways velocity means something for every base but one that cannot
    /// move sideways.
    pub fn lateral_velocity_meaningful(self) -> (b: bool)
        ensures
            b == (self != BaseType::WheeledStandard),
    {
        match self {
            BaseType::WheeledStandard => false,
            _ => true,
        }
    }
}

pub fn command_shape_number(shape: CommandShape) -> (n: u8)
    ensures
        n == shape.number(),
{
    match shape {
        CommandShape::Kinematic => 0,
        CommandShape::VelocityAttitude => 1,
        CommandShape::CartesianEndEffector => 2,
    }
}

pub fn base_type_number(base_type: BaseType) -> (n: u8)
    ensures
        n == base_type.number(),
{
    match base_type {
        BaseType::Stationary => 0,
        BaseType::WheeledStandard => 1,
        BaseType::WheeledHolonomic => 2,
        BaseType::BipedLegs => 3,
        BaseType::QuadrupedLegs => 4,
        BaseType::Other => 5,
    }
}

#[derive(Debug)]
pub struct RobotProfile {
    pub dof_count: u16,
    /// In wire order: the order of command and telemetry fields.
    pub joints: Vec<JointDescriptor>,
    pub regions: Vec<BodyRegionDescriptor>,
    pub base_type: BaseType,
}

/// A region as a mathematical value.
pub struct RegionView {
    pub region_id: u8,
    pub name: Seq<char>,
    pub joint_start: u16,
    pub joint_count: u16,
    pub has_force_torque_sensor: bool,
    pub command_shape: CommandShape,
}

impl View for BodyRegionDescriptor {
    type V = RegionView;

    open spec fn view(&self) -> RegionView {
        RegionView {
            region_id: self.region_id,
            name: self.name@,
            joint_start: self.joint_start,
            joint_count: self.joint_count,
            has_force_torque_sensor: self.has_force_torque_sensor,
            command_shape: self.command_shape,
        }
    }
}

/// A camera as a mathematical value.
pub struct CameraView {
    pub camera_id: u8,
    pub label: Seq<char>,
    pub codec: Codec,
    pub resolution_w: u16,
    pub resolution_h: u16,
    pub max_fps: u8,
    pub min_bitrate_kbps: u32,
    pub max_bitrate_kbps: u32,
}

impl View for CameraDescriptor {
    type V = CameraView;

    open spec fn view(&self) -> CameraView {
        CameraView {
            camera_id: self.camera_id,
            label: self.label@,
            codec: self.codec,
            resolution_w: self.resolution_w,
            resolution_h: self.resolution_h,
            max_fps: self.max_fps,
            min_bitrate_kbps: self.min_bitrate_kbps,
            max_bitrate_kbps: self.max_bitrate_kbps,
        }
    }
}

/// A profile as a mathematical value.
pub struct ProfileView {
    pub dof_count: u16,
    pub joints: Seq<JointDescriptor>,
    pub regions: Seq<RegionView>,
    pub base_type: BaseType,
}

pub open spec fn region_views(regions: Seq<BodyRegionDescriptor>) -> Seq<RegionView> {
    regions.map_values(|r: BodyRegionDescriptor| r@)
}

pub open spec fn camera_views(cameras: Seq<CameraDescriptor>) -> Seq<CameraView> {
    cameras.map_values(|c: CameraDescriptor| c@)
}

impl View for RobotProfile {
    type V = ProfileView;

    open spec fn view(&self) -> ProfileView {
        ProfileView {
            dof_count: self.dof_count,
            joints: self.joints@,
            regions: region_views(self.regions@),
            base_type: self.base_type,
        }
    }
}

pub open spec fn bool_byte(b: bool) -> u8 {
    if b {
        1
    } else {
        0
    }
}

/// A joint as the profile hash sees it.
pub open spec fn joint_bytes(j: JointDescriptor) -> Seq<u8> {
    crate::wire::le_digits(j.min_limit_bits as nat, 4) + crate::wire::le_digits(
        j.max_limit_bits as nat,
        4,
    ) + crate::wire::le_digits(j.max_velocity_bits as nat, 4) + seq![
        bool_byte(j.has_torque_sensing),
        j.region_id,
    ]
}

/// A region as the profile hash sees it.
pub open spec fn region_bytes(r: BodyRegionDescriptor) -> Seq<u8> {
    seq![r.region_id] + vstd::utf8::encode_utf8(r.name@) + crate::wire::le_digits(
        r.joint_start as nat,
        2,
    ) + crate::wire::le_digits(r.joint_count as nat, 2) + seq![
        bool_byte(r.has_force_torque_sensor),
        r.command_shape.number(),
    ]
}

pub open spec fn joints_bytes(joints: Seq<JointDescriptor>) -> Seq<u8>
    decreases joints.len(),
{
    if joints.len() == 0 {
        Seq::empty()
    } else {
        joints_bytes(joints.drop_last()) + joint_bytes(joints.last())
    }
}

pub open spec fn regions_bytes(regions: Seq<BodyRegionDescriptor>) -> Seq<u8>
    decreases regions.len(),
{
    if regions.len() == 0 {
        Seq::empty()
    } else {
        regions_bytes(regions.drop_last()) + region_bytes(regions.last())
    }
}

/// The canonical bytes of a profile.
pub open spec fn canonical_bytes(p: RobotProfile) -> Seq<u8> {
    crate::wire::le_digits(p.dof_count as nat, 2) + seq![p.base_type.number()] + joints_bytes(
        p.joints@,
    ) + regions_bytes(p.regions@)
}

pub const FNV_OFFSET_BASIS: u64 = 0xcbf29ce484222325;

pub const FNV_PRIME: u64 = 0x100000001b3;

/// The sixty-four-bit FNV-1a hash.
pub open spec fn fnv1a(data: Seq<u8>) -> u64
    decreases data.len(),
{
    if data.len() == 0 {
        FNV_OFFSET_BASIS
    } else {
        vstd::wrapping::u64_specs::wrapping_mul(
            fnv1a(data.drop_last()) ^ (data.last() as u64),
            FNV_PRIME,
        )
    }
}

pub fn fnv1a_64(data: &[u8]) -> (hash: u64)
    ensures
        hash == fnv1a(data@),
{
    let mut hash: u64 = FNV_OFFSET_BASIS;
    let mut i: usize = 0;
    proof {
        assert(data@.take(0) =~= Seq::<u8>::empty());
    }
    while i < data.len()
        invariant
            i <= data@.len(),
            hash == fnv1a(data@.take(i as int)),
        decreases data@.len() - i,
    {
        proof {
            assert(data@.take(i + 1).drop_last() =~= data@.take(i as int));
            assert(data@.take(i + 1).last() == data@[i as int]);
        }
        hash = hash ^ (data[i] as u64);
        hash = hash.wrapping_mul(FNV_PRIME);
        i = i + 1;
    }
    assert(data@.take(i as int) =~= data@);
    hash
}

fn push_bool(out: &mut Vec<u8>, b: bool)
    ensures
        final(out)@ == old(out)@.push(bool_byte(b)),
{
    if b {
        out.push(1);
    } else {
        out.push(0);
    }
}

fn push_joint(out: &mut Vec<u8>, j: &JointDescriptor)
    ensures
        final(out)@ == old(out)@ + joint_bytes(*j),
{
    push_le(out, j.min_limit_bits as u64, 4);
    push_le(out, j.max_limit_bits as u64, 4);
    push_le(out, j.max_velocity_bits as u64, 4);
    push_bool(out, j.has_torque_sensing);
    out.push(j.region_id);
    assert(out@ =~= old(out)@ + joint_bytes(*j));
}

fn push_region(out: &mut Vec<u8>, r: &BodyRegionDescriptor)
    ensures
        final(out)@ == old(out)@ + region_bytes(*r),
{
    out.push(r.region_id);
    out.extend_from_slice(r.name.as_str().as_bytes());
    push_le(out, r.joint_start as u64, 2);
    push_le(out, r.joint_count as u64, 2);
    push_bool(out, r.has_force_torque_sensor);
    out.push(command_shape_number(r.command_shape));
    assert(out@ =~= old(out)@ + region_bytes(*r));
}

impl RobotProfile {
    /// A cache key for the profile: the same for equal profiles in every run.
    pub fn profile_hash(&self) -> (h: u64)
        ensures
            h == fnv1a(canonical_bytes(*self)),
    {
        let mut bytes: Vec<u8> = Vec::new();
        push_le(&mut bytes, self.dof_count as u64, 2);
        bytes.push(base_type_number(self.base_type));
        let ghost head = bytes@;
        let mut i: usize = 0;
        proof {
            assert(self.joints@.take(0) =~= Seq::<JointDescriptor>::empty());
            assert(bytes@ =~= head + joints_bytes(self.joints@.take(0)));
        }
        while i < self.joints.len()
            invariant
                i <= self.joints@.len(),
                bytes@ == head + joints_bytes(self.joints@.take(i as int)),
            decreases self.joints@.len() - i,
        {
            proof {
                let t = self.joints@.take(i + 1);
                assert(t.drop_last() =~= self.joints@.take(i as int));
                assert(t.last() == self.joints@[i as int]);
            }
            push_joint(&mut bytes, &self.joints[i]);
            i = i + 1;
            assert(bytes@ =~= head + joints_bytes(self.joints@.take(i as int)));
        }
        assert(self.joints@.take(i as int) =~= self.joints@);
        let ghost upto = bytes@;
        let mut k: usize = 0;
        proof {
            assert(self.regions@.take(0) =~= Seq::<BodyRegionDescriptor>::empty());
            assert(bytes@ =~= upto + regions_bytes(self.regions@.take(0)));
        }
        while k < self.regions.len()
            invariant
                k <= self.regions@.len(),
                bytes@ == upto + regions_bytes(self.regions@.take(k as int)),
            decreases self.regions@.len() - k,
        {
            proof {
                let t = self.regions@.take(k + 1);
                assert(t.drop_last() =~= self.regions@.take(k as int));
                assert(t.last() == self.regions@[k as int]);
            }
            push_region(&mut bytes, &self.regions[k]);
            k = k + 1;
            assert(bytes@ =~= upto + regions_bytes(self.regions@.take(k as int)));
        }
        assert(self.regions@.take(k as int) =~= self.regions@);
        assert(bytes@ =~= canonical_bytes(*self));
        fnv1a_64(bytes.as_slice())
    }
}

/// One field's place within a datagram's packed fields.
#[derive(Debug, Clone, Copy, PartialEq, Eq, Structural)]
pub struct FieldOffset {
    pub joint_index: u16,
    pub byte_offset: u32,
    pub byte_len: u32,
}

/// No selection at all selects every region.
pub open spec fn is_selected(region_ids: Seq<u8>, id: u8) -> bool {
    region_ids.len() == 0 || region_ids.contains(id)
}

fn selected(region_ids: &[u8], id: u8) -> (b: bool)
    ensures
        b == is_selected(region_ids@, id),
{
    if region_ids.len() == 0 {
        return true;
    }
    let mut i: usize = 0;
    while i < region_ids.len()
        invariant
            i <= region_ids@.len(),
            forall|j: int| 0 <= j < i ==> region_ids@[j] != id,
        decreases region_ids@.len() - i,
    {
        if region_ids[i] == id {
            return true;
        }
        i = i + 1;
    }
    false
}

/// The indices of the joints among the first `n` whose region is selected, in
/// wire order.
pub open spec fn selected_joints(
    joints: Seq<JointDescriptor>,
    region_ids: Seq<u8>,
    n: int,
) -> Seq<int>
    decreases n,
{
    if n <= 0 {
        Seq::empty()
    } else if is_selected(region_ids, joints[n - 1].region_id) {
        selected_joints(joints, region_ids, n - 1).push(n - 1)
    } else {
        selected_joints(joints, region_ids, n - 1)
    }
}

/// Fields of equal width, one behind the other from `start` on.
pub open spec fn packed_fields(indices: Seq<int>, start: nat, width: nat) -> Seq<FieldOffset> {
    Seq::new(
        indices.len(),
        |k: int|
            FieldOffset {
                joint_index: (indices[k] % 0x1_0000) as u16,
                byte_offset: (start + k * width) as u32,
                byte_len: width as u32,
            },
    )
}

/// One field for each selected joint, in wire order, without gaps.
pub fn derive_layout(
    profile: &RobotProfile,
    region_ids: &[u8],
    tier: QuantizationTier,
) -> (offsets: Vec<FieldOffset>)
    requires
        selected_joints(profile.joints@, region_ids@, profile.joints@.len() as int).len()
            * tier.width() <= u32::MAX,
    ensures
        offsets@ == packed_fields(
            selected_joints(profile.joints@, region_ids@, profile.joints@.len() as int),
            0,
            tier.width(),
        ),
{
    let mut offsets: Vec<FieldOffset> = Vec::new();
    let mut cursor: u32 = 0;
    let byte_len: u32 = tier.bytes_per_field();
    let ghost total = selected_joints(
        profile.joints@,
        region_ids@,
        profile.joints@.len() as int,
    ).len();
    let mut i: usize = 0;
    while i < profile.joints.len()
        invariant
            i <= profile.joints@.len(),
            total == selected_joints(
                profile.joints@,
                region_ids@,
                profile.joints@.len() as int,
            ).len(),
            total * byte_len <= u32::MAX,
            byte_len == tier.width(),
            1 <= byte_len <= 4,
            offsets@ == packed_fields(
                selected_joints(profile.joints@, region_ids@, i as int),
                0,
                tier.width(),
            ),
            cursor == selected_joints(profile.joints@, region_ids@, i as int).len() * byte_len,
        decreases profile.joints@.len() - i,
    {
        let ghost so_far = selected_joints(profile.joints@, region_ids@, i as int);
        if selected(region_ids, profile.joints[i].region_id) {
            let joint_index: u16 = (i % 0x1_0000) as u16;
            proof {
                assert((so_far.len() + 1) * byte_len == so_far.len() * byte_len + byte_len)
                    by (nonlinear_arith);
                lemma_selected_grows(
                    profile.joints@,
                    region_ids@,
                    i + 1,
                    profile.joints@.len() as int,
                );
                assert((so_far.len() + 1) * byte_len <= total * byte_len) by (nonlinear_arith)
                    requires
                        so_far.len() + 1 <= total,
                ;
            }
            offsets.push(FieldOffset { joint_index, byte_offset: cursor, byte_len });
            cursor = cursor + byte_len;
        }
        i = i + 1;
        assert(offsets@ =~= packed_fields(
            selected_joints(profile.joints@, region_ids@, i as int),
            0,
            tier.width(),
        ));
    }
    offsets
}

/// One block of a command layout.
#[derive(Debug, PartialEq, Eq)]
pub enum CommandBlock {
    /// One field for each joint of the region.
    Kinematic { region_id: u8, joint_offsets: Vec<FieldOffset> },
    /// The one block shared by all velocity regions.
    VelocityAttitude { byte_offset: u32, byte_len: u32 },
    /// One target block for the region.
    CartesianEndEffector { region_id: u8, byte_offset: u32, byte_len: u32 },
}

/// A command block as a mathematical value.
pub enum BlockView {
    Kinematic { region_id: u8, fields: Seq<FieldOffset> },
    VelocityAttitude { byte_offset: u32, byte_len: u32 },
    CartesianEndEffector { region_id: u8, byte_offset: u32, byte_len: u32 },
}

impl View for CommandBlock {
    type V = BlockView;

    open spec fn view(&self) -> BlockView {
        match *self {
            CommandBlock::Kinematic { region_id, joint_offsets } => BlockView::Kinematic {
                region_id,
                fields: joint_offsets@,
            },
            CommandBlock::VelocityAttitude {
                byte_offset,
                byte_len,
            } => BlockView::VelocityAttitude { byte_offset, byte_len },
            CommandBlock::CartesianEndEffector {
                region_id,
                byte_offset,
                byte_len,
            } => BlockView::CartesianEndEffector { region_id, byte_offset, byte_len },
        }
    }
}

/// How many bytes a block takes, at `width` bytes per field.
pub open spec fn block_size(b: BlockView, width: nat) -> nat {
    match b {
        BlockView::Kinematic { region_id, fields } => fields.len() * width,
        BlockView::VelocityAttitude { byte_offset, byte_len } => byte_len as nat,
        BlockView::CartesianEndEffector { region_id, byte_offset, byte_len } => byte_len as nat,
    }
}

/// How many bytes the blocks take together.
pub open spec fn blocks_size(blocks: Seq<BlockView>, width: nat) -> nat
    decreases blocks.len(),
{
    if blocks.len() == 0 {
        0
    } else {
        blocks_size(blocks.drop_last(), width) + block_size(blocks.last(), width)
    }
}

pub open spec fn has_velocity_block(blocks: Seq<BlockView>) -> bool {
    exists|i: int| 0 <= i < blocks.len() && (#[trigger] blocks[i]) is VelocityAttitude
}

/// The block that `region` adds behind `blocks`; none if it is not selected,
/// or if it would be a second velocity block.
pub open spec fn next_block(
    p: RobotProfile,
    region_ids: Seq<u8>,
    width: nat,
    blocks: Seq<BlockView>,
    region: BodyRegionDescriptor,
) -> Option<BlockView> {
    let at = blocks_size(blocks, width);
    if !is_selected(region_ids, region.region_id) {
        None
    } else {
        match region.command_shape {
            CommandShape::Kinematic => Some(
                BlockView::Kinematic {
                    region_id: region.region_id,
                    fields: packed_fields(
                        selected_joints(p.joints@, seq![region.region_id], p.joints@.len() as int),
                        at,
                        width,
                    ),
                },
            ),
            CommandShape::VelocityAttitude => if has_velocity_block(blocks) {
                None
            } else {
                Some(
                    BlockView::VelocityAttitude {
                        byte_offset: at as u32,
                        byte_len: (6 * width) as u32,
                    },
                )
            },
            CommandShape::CartesianEndEffector => Some(
                BlockView::CartesianEndEffector {
                    region_id: region.region_id,
                    byte_offset: at as u32,
                    byte_len: (4 * width) as u32,
                },
            ),
        }
    }
}

/// The command blocks of the first `n` regions.
pub open spec fn command_blocks(
    p: RobotProfile,
    region_ids: Seq<u8>,
    width: nat,
    n: int,
) -> Seq<BlockView>
    decreases n,
{
    if n <= 0 {
        Seq::empty()
    } else {
        let before = command_blocks(p, region_ids, width, n - 1);
        match next_block(p, region_ids, width, before, p.regions@[n - 1]) {
            Some(b) => before.push(b),
            None => before,
        }
    }
}

pub open spec fn block_views(blocks: Seq<CommandBlock>) -> Seq<BlockView> {
    blocks.map_values(|b: CommandBlock| b@)
}

/// Further regions do not shrink the layout.
proof fn lemma_blocks_grow(p: RobotProfile, region_ids: Seq<u8>, width: nat, m: int, n: int)
    requires
        0 <= m <= n,
    ensures
        blocks_size(command_blocks(p, region_ids, width, m), width) <= blocks_size(
            command_blocks(p, region_ids, width, n),
            width,
        ),
    decreases n,
{
    if m < n {
        lemma_blocks_grow(p, region_ids, width, m, n - 1);
        let before = command_blocks(p, region_ids, width, n - 1);
        match next_block(p, region_ids, width, before, p.regions@[n - 1]) {
            Some(b) => {
                assert(before.push(b).drop_last() =~= before);
            },
            None => {},
        }
    }
}

/// How many bytes a whole command layout takes.
pub open spec fn command_size(p: RobotProfile, region_ids: Seq<u8>, tier: QuantizationTier) -> nat {
    blocks_size(
        command_blocks(p, region_ids, tier.width(), p.regions@.len() as int),
        tier.width(),
    )
}

/// The blocks of the selected regions, in profile order, one behind the other.
pub fn derive_command_layout(
    profile: &RobotProfile,
    region_ids: &[u8],
    tier: QuantizationTier,
) -> (blocks: Vec<CommandBlock>)
    requires
        command_size(*profile, region_ids@, tier) <= u32::MAX,
    ensures
        block_views(blocks@) == command_blocks(
            *profile,
            region_ids@,
            tier.width(),
            profile.regions@.len() as int,
        ),
{
    let mut blocks: Vec<CommandBlock> = Vec::new();
    let mut cursor: u32 = 0;
    let mut velocity_attitude_emitted = false;
    let byte_len: u32 = tier.bytes_per_field();
    let ghost width = tier.width();
    let mut n: usize = 0;
    assert(block_views(blocks@) =~= Seq::<BlockView>::empty());
    while n < profile.regions.len()
        invariant
            n <= profile.regions@.len(),
            command_size(*profile, region_ids@, tier) <= u32::MAX,
            byte_len == width,
            width == tier.width(),
            1 <= byte_len <= 4,
            block_views(blocks@) == command_blocks(*profile, region_ids@, width, n as int),
            cursor == blocks_size(block_views(blocks@), width),
            velocity_attitude_emitted == has_velocity_block(block_views(blocks@)),
        decreases profile.regions@.len() - n,
    {
        let ghost before = block_views(blocks@);
        let region: &BodyRegionDescriptor = &profile.regions[n];
        let ghost next = next_block(*profile, region_ids@, width, before, *region);
        proof {
            lemma_blocks_grow(
                *profile,
                region_ids@,
                width,
                n + 1,
                profile.regions@.len() as int,
            );
            if next is Some {
                assert(before.push(next->0).drop_last() =~= before);
            }
        }
        if selected(region_ids, region.region_id) {
            match region.command_shape {
                CommandShape::Kinematic => {
                    let joint_offsets: Vec<FieldOffset> = region_fields(
                        profile,
                        region.region_id,
                        cursor,
                        byte_len,
                    );
                    let count: u32 = joint_offsets.len() as u32;
                    proof {
                        assert(joint_offsets@.len() <= joint_offsets@.len() * width)
                            by (nonlinear_arith)
                            requires
                                width >= 1,
                        ;
                        assert(block_size(next->0, width) == joint_offsets@.len() * width);
                    }
                    blocks.push(
                        CommandBlock::Kinematic { region_id: region.region_id, joint_offsets },
                    );
                    cursor = cursor + count * byte_len;
                },
                CommandShape::VelocityAttitude => {
                    if !velocity_attitude_emitted {
                        blocks.push(
                            CommandBlock::VelocityAttitude {
                                byte_offset: cursor,
                                byte_len: 6 * byte_len,
                            },
                        );
                        cursor = cursor + 6 * byte_len;
                        velocity_attitude_emitted = true;
                    }
                },
                CommandShape::CartesianEndEffector => {
                    blocks.push(
                        CommandBlock::CartesianEndEffector {
                            region_id: region.region_id,
                            byte_offset: cursor,
                            byte_len: 4 * byte_len,
                        },
                    );
                    cursor = cursor + 4 * byte_len;
                },
            }
        }
        n = n + 1;
        proof {
            let after = block_views(blocks@);
            if next is Some {
                assert(after =~= before.push(next->0));
                lemma_velocity_push(before, next->0);
            } else {
                assert(after =~= before);
            }
        }
    }
    blocks
}

proof fn lemma_velocity_push(before: Seq<BlockView>, b: BlockView)
    ensures
        has_velocity_block(before.push(b)) == (has_velocity_block(before)
            || b is VelocityAttitude),
{
    let after = before.push(b);
    if has_velocity_block(before) {
        let i = choose|i: int| 0 <= i < before.len() && (#[trigger] before[i]) is VelocityAttitude;
        assert(after[i] is VelocityAttitude);
    }
    if b is VelocityAttitude {
        assert(after[before.len() as int] is VelocityAttitude);
    }
    if has_velocity_block(after) {
        let i = choose|i: int| 0 <= i < after.len() && (#[trigger] after[i]) is VelocityAttitude;
        if i < before.len() {
            assert(before[i] is VelocityAttitude);
        }
    }
}

/// The fields of the joints of one region, from `start` on.
fn region_fields(
    profile: &RobotProfile,
    region_id: u8,
    start: u32,
    byte_len: u32,
) -> (offsets: Vec<FieldOffset>)
    requires
        1 <= byte_len <= 4,
        start + selected_joints(
            profile.joints@,
            seq![region_id],
            profile.joints@.len() as int,
        ).len() * byte_len <= u32::MAX,
    ensures
        offsets@ == packed_fields(
            selected_joints(profile.joints@, seq![region_id], profile.joints@.len() as int),
            start as nat,
            byte_len as nat,
        ),
{
    let mut offsets: Vec<FieldOffset> = Vec::new();
    let mut cursor: u32 = start;
    let ghost ids = seq![region_id];
    let ghost total = selected_joints(profile.joints@, ids, profile.joints@.len() as int).len();
    let mut i: usize = 0;
    while i < profile.joints.len()
        invariant
            i <= profile.joints@.len(),
            ids == seq![region_id],
            1 <= byte_len <= 4,
            total == selected_joints(profile.joints@, ids, profile.joints@.len() as int).len(),
            start + total * byte_len <= u32::MAX,
            offsets@ == packed_fields(
                selected_joints(profile.joints@, ids, i as int),
                start as nat,
                byte_len as nat,
            ),
            cursor == start + selected_joints(profile.joints@, ids, i as int).len() * byte_len,
        decreases profile.joints@.len() - i,
    {
        let ghost so_far = selected_joints(profile.joints@, ids, i as int);
        assert(ids.contains(profile.joints@[i as int].region_id) <==> profile.joints@[i as int].region_id
            == region_id) by {
            assert(ids[0] == region_id);
        }
        if profile.joints[i].region_id == region_id {
            let joint_index: u16 = (i % 0x1_0000) as u16;
            proof {
                lemma_selected_grows(profile.joints@, ids, i + 1, profile.joints@.len() as int);
                assert((so_far.len() + 1) * byte_len == so_far.len() * byte_len + byte_len)
                    by (nonlinear_arith);
                assert((so_far.len() + 1) * byte_len <= total * byte_len) by (nonlinear_arith)
                    requires
                        so_far.len() + 1 <= total,
                ;
            }
            offsets.push(FieldOffset { joint_index, byte_offset: cursor, byte_len });
            cursor = cursor + byte_len;
        }
        i = i + 1;
        assert(offsets@ =~= packed_fields(
            selected_joints(profile.joints@, ids, i as int),
            start as nat,
            byte_len as nat,
        ));
    }
    offsets
}

proof fn lemma_selected_grows(joints: Seq<JointDescriptor>, ids: Seq<u8>, m: int, n: int)
    requires
        0 <= m <= n,
    ensures
        selected_joints(joints, ids, m).len() <= selected_joints(joints, ids, n).len(),
    decreases n,
{
    if m < n {
        lemma_selected_grows(joints, ids, m, n - 1);
    }
}

/// Where a block begins; a block without fields begins anywhere.
pub open spec fn begins_at(b: BlockView, at: nat) -> bool {
    match b {
        BlockView::Kinematic { region_id, fields } => fields.len() == 0 || fields[0].byte_offset
            == at,
        BlockView::VelocityAttitude { byte_offset, byte_len } => byte_offset == at,
        BlockView::CartesianEndEffector { region_id, byte_offset, byte_len } => byte_offset == at,
    }
}

/// Blocks neither overlap nor leave gaps: each begins where the blocks before
/// it end.
pub proof fn lemma_blocks_contiguous(
    p: RobotProfile,
    region_ids: Seq<u8>,
    tier: QuantizationTier,
    n: int,
    i: int,
)
    requires
        0 <= n <= p.regions@.len(),
        command_size(p, region_ids, tier) <= u32::MAX,
        0 <= i < command_blocks(p, region_ids, tier.width(), n).len(),
    ensures
        begins_at(
            command_blocks(p, region_ids, tier.width(), n)[i],
            blocks_size(command_blocks(p, region_ids, tier.width(), n).take(i), tier.width()),
        ),
    decreases n,
{
    let width = tier.width();
    let blocks = command_blocks(p, region_ids, width, n);
    let before = command_blocks(p, region_ids, width, n - 1);
    if i < before.len() {
        lemma_blocks_contiguous(p, region_ids, tier, n - 1, i);
        assert(blocks.take(i) =~= before.take(i));
    } else {
        assert(blocks.take(i) =~= before);
        lemma_blocks_grow(p, region_ids, width, n, p.regions@.len() as int);
        assert(blocks.drop_last() =~= before);
    }
}

/// At most one velocity block, however many regions ask for one.
pub proof fn lemma_one_velocity_block(
    p: RobotProfile,
    region_ids: Seq<u8>,
    width: nat,
    n: int,
    i: int,
    j: int,
)
    requires
        0 <= i < command_blocks(p, region_ids, width, n).len(),
        0 <= j < command_blocks(p, region_ids, width, n).len(),
        command_blocks(p, region_ids, width, n)[i] is VelocityAttitude,
        command_blocks(p, region_ids, width, n)[j] is VelocityAttitude,
    ensures
        i == j,
    decreases n,
{
    let before = command_blocks(p, region_ids, width, n - 1);
    let blocks = command_blocks(p, region_ids, width, n);
    if i < before.len() && j < before.len() {
        assert(before[i] == blocks[i] && before[j] == blocks[j]);
        lemma_one_velocity_block(p, region_ids, width, n - 1, i, j);
    } else if i < before.len() {
        assert(before[i] is VelocityAttitude);
    } else if j < before.len() {
        assert(before[j] is VelocityAttitude);
    }
}

/// Telemetry fields neither overlap nor leave gaps, and keep the wire order of
/// the joints.
pub proof fn lemma_layout_contiguous(
    joints: Seq<JointDescriptor>,
    region_ids: Seq<u8>,
    tier: QuantizationTier,
    k: int,
)
    requires
        selected_joints(joints, region_ids, joints.len() as int).len() * tier.width() <= u32::MAX,
        0 <= k,
        k + 1 < selected_joints(joints, region_ids, joints.len() as int).len(),
    ensures
        ({
            let chosen = selected_joints(joints, region_ids, joints.len() as int);
            let fields = packed_fields(chosen, 0, tier.width());
            &&& fields[k + 1].byte_offset == fields[k].byte_offset + fields[k].byte_len
            &&& chosen[k] < chosen[k + 1]
            &&& fields[0].byte_offset == 0
        }),
{
    let chosen = selected_joints(joints, region_ids, joints.len() as int);
    let width = tier.width();
    lemma_selected_ascending(joints, region_ids, joints.len() as int);
    assert((k + 1) * width == k * width + width) by (nonlinear_arith);
    assert((k + 1) * width <= chosen.len() * width) by (nonlinear_arith)
        requires
            k + 1 <= chosen.len(),
    ;
    assert(0 <= k * width) by (nonlinear_arith)
        requires
            0 <= k,
    ;
    assert(0 * width == 0) by (nonlinear_arith);
}

proof fn lemma_selected_ascending(joints: Seq<JointDescriptor>, ids: Seq<u8>, n: int)
    ensures
        forall|a: int, b: int|
            0 <= a < b < selected_joints(joints, ids, n).len() ==> selected_joints(joints, ids, n)[a]
                < selected_joints(joints, ids, n)[b],
        forall|a: int|
            0 <= a < selected_joints(joints, ids, n).len() ==> 0 <= (#[trigger] selected_joints(
                joints,
                ids,
                n,
            )[a]) < n,
    decreases n,
{
    if n > 0 {
        lemma_selected_ascending(joints, ids, n - 1);
        let before = selected_joints(joints, ids, n - 1);
        let now = selected_joints(joints, ids, n);
        assert forall|a: int| 0 <= a < now.len() implies 0 <= (#[trigger] now[a]) < n by {
            if a < before.len() {
                assert(0 <= before[a] < n - 1);
            }
        }
        assert forall|a: int, b: int| 0 <= a < b < now.len() implies now[a] < now[b] by {
            assert(0 <= before[a] < n - 1);
            if b < before.len() {
                assert(before[a] < before[b]);
            }
        }
    }
}

/// What the hash sees of a joint: fourteen bytes, out of which every field of
/// the joint can be read again.
pub proof fn lemma_joint_is_hashed_whole(j: JointDescriptor)
    ensures
        joint_bytes(j).len() == 14,
        crate::wire::le_value(joint_bytes(j).subrange(0, 4)) == j.min_limit_bits,
        crate::wire::le_value(joint_bytes(j).subrange(4, 8)) == j.max_limit_bits,
        crate::wire::le_value(joint_bytes(j).subrange(8, 12)) == j.max_velocity_bits,
        joint_bytes(j)[12] == 1 <==> j.has_torque_sensing,
        joint_bytes(j)[13] == j.region_id,
{
    let (a, b, c) = (
        crate::wire::le_digits(j.min_limit_bits as nat, 4),
        crate::wire::le_digits(j.max_limit_bits as nat, 4),
        crate::wire::le_digits(j.max_velocity_bits as nat, 4),
    );
    crate::wire::lemma_pow256_widths();
    crate::wire::lemma_le_round_trip(j.min_limit_bits as nat, 4);
    crate::wire::lemma_le_round_trip(j.max_limit_bits as nat, 4);
    crate::wire::lemma_le_round_trip(j.max_velocity_bits as nat, 4);
    assert(joint_bytes(j).subrange(0, 4) =~= a);
    assert(joint_bytes(j).subrange(4, 8) =~= b);
    assert(joint_bytes(j).subrange(8, 12) =~= c);
}

/// Every field of a joint counts: joints that the hash sees alike are equal.
pub proof fn lemma_every_joint_field_counts(a: JointDescriptor, b: JointDescriptor)
    requires
        joint_bytes(a) == joint_bytes(b),
    ensures
        a.min_limit_bits == b.min_limit_bits,
        a.max_limit_bits == b.max_limit_bits,
        a.max_velocity_bits == b.max_velocity_bits,
        a.has_torque_sensing == b.has_torque_sensing,
        a.region_id == b.region_id,
{
    lemma_joint_is_hashed_whole(a);
    lemma_joint_is_hashed_whole(b);
}

/// Every field of a region counts, its name among them: regions that the hash
/// sees alike are equal.
pub proof fn lemma_every_region_field_counts(a: BodyRegionDescriptor, b: BodyRegionDescriptor)
    requires
        region_bytes(a) == region_bytes(b),
    ensures
        a.region_id == b.region_id,
        a.name@ == b.name@,
        a.joint_start == b.joint_start,
        a.joint_count == b.joint_count,
        a.has_force_torque_sensor == b.has_force_torque_sensor,
        a.command_shape == b.command_shape,
{
    lemma_region_parts(a);
    lemma_region_parts(b);
    vstd::utf8::encode_utf8_decode_utf8(a.name@);
    vstd::utf8::encode_utf8_decode_utf8(b.name@);
}

proof fn lemma_region_parts(r: BodyRegionDescriptor)
    ensures
        ({
            let s = region_bytes(r);
            let n = s.len() as int;
            &&& n >= 7
            &&& s[0] == r.region_id
            &&& s.subrange(1, n - 6) == vstd::utf8::encode_utf8(r.name@)
            &&& crate::wire::le_value(s.subrange(n - 6, n - 4)) == r.joint_start
            &&& crate::wire::le_value(s.subrange(n - 4, n - 2)) == r.joint_count
            &&& s[n - 2] == bool_byte(r.has_force_torque_sensor)
            &&& s[n - 1] == r.command_shape.number()
        }),
{
    let s = region_bytes(r);
    let n = s.len() as int;
    let name = vstd::utf8::encode_utf8(r.name@);
    crate::wire::lemma_pow256_widths();
    crate::wire::lemma_le_round_trip(r.joint_start as nat, 2);
    crate::wire::lemma_le_round_trip(r.joint_count as nat, 2);
    assert(s.subrange(1, n - 6) =~= name);
    assert(s.subrange(n - 6, n - 4) =~= crate::wire::le_digits(r.joint_start as nat, 2));
    assert(s.subrange(n - 4, n - 2) =~= crate::wire::le_digits(r.joint_count as nat, 2));
}

proof fn lemma_joints_len(joints: Seq<JointDescriptor>)
    ensures
        joints_bytes(joints).len() == 14 * joints.len(),
    decreases joints.len(),
{
    if joints.len() > 0 {
        lemma_joints_len(joints.drop_last());
        lemma_joint_is_hashed_whole(joints.last());
    }
}

proof fn lemma_joints_injective(a: Seq<JointDescriptor>, b: Seq<JointDescriptor>)
    requires
        a.len() == b.len(),
        joints_bytes(a) == joints_bytes(b),
    ensures
        a == b,
    decreases a.len(),
{
    if a.len() > 0 {
        let (x, y) = (joints_bytes(a), joints_bytes(b));
        lemma_joints_len(a.drop_last());
        lemma_joints_len(b.drop_last());
        lemma_joint_is_hashed_whole(a.last());
        lemma_joint_is_hashed_whole(b.last());
        let cut = 14 * (a.len() - 1);
        assert(x.subrange(0, cut) =~= joints_bytes(a.drop_last()));
        assert(y.subrange(0, cut) =~= joints_bytes(b.drop_last()));
        assert(x.subrange(cut, x.len() as int) =~= joint_bytes(a.last()));
        assert(y.subrange(cut, y.len() as int) =~= joint_bytes(b.last()));
        lemma_every_joint_field_counts(a.last(), b.last());
        lemma_joints_injective(a.drop_last(), b.drop_last());
        assert(a =~= a.drop_last().push(a.last()));
        assert(b =~= b.drop_last().push(b.last()));
    }
    assert(a =~= b);
}

/// A profile's canonical bytes tell every joint, the number of joints in motion
/// and the kind of base: two profiles with as many joints whose bytes agree agree
/// in all of these. So a profile that differs from another in one field of one
/// joint has other bytes.
pub proof fn lemma_profile_is_hashed_whole(p: RobotProfile, q: RobotProfile)
    requires
        canonical_bytes(p) == canonical_bytes(q),
        p.joints@.len() == q.joints@.len(),
    ensures
        p.dof_count == q.dof_count,
        p.base_type == q.base_type,
        p.joints@ == q.joints@,
        regions_bytes(p.regions@) == regions_bytes(q.regions@),
{
    let (x, y) = (canonical_bytes(p), canonical_bytes(q));
    crate::wire::lemma_pow256_widths();
    crate::wire::lemma_le_round_trip(p.dof_count as nat, 2);
    crate::wire::lemma_le_round_trip(q.dof_count as nat, 2);
    lemma_joints_len(p.joints@);
    lemma_joints_len(q.joints@);
    let cut = 3int + 14 * p.joints@.len();
    assert(x.subrange(0, 2) =~= crate::wire::le_digits(p.dof_count as nat, 2));
    assert(y.subrange(0, 2) =~= crate::wire::le_digits(q.dof_count as nat, 2));
    assert(x[2] == p.base_type.number() && y[2] == q.base_type.number());
    assert(x.subrange(3, cut) =~= joints_bytes(p.joints@));
    assert(y.subrange(3, cut) =~= joints_bytes(q.joints@));
    assert(x.subrange(cut, x.len() as int) =~= regions_bytes(p.regions@));
    assert(y.subrange(cut, y.len() as int) =~= regions_bytes(q.regions@));
    lemma_joints_injective(p.joints@, q.joints@);
}

proof fn lemma_same_region_bytes(a: BodyRegionDescriptor, b: BodyRegionDescriptor)
    requires
        a@ == b@,
    ensures
        region_bytes(a) == region_bytes(b),
{
}

proof fn lemma_same_regions_bytes(a: Seq<BodyRegionDescriptor>, b: Seq<BodyRegionDescriptor>)
    requires
        a.len() == b.len(),
        forall|i: int| 0 <= i < a.len() ==> (#[trigger] a[i])@ == b[i]@,
    ensures
        regions_bytes(a) == regions_bytes(b),
    decreases a.len(),
{
    if a.len() > 0 {
        assert(a[a.len() - 1]@ == b[a.len() - 1]@);
        lemma_same_region_bytes(a.last(), b.last());
        assert forall|i: int| 0 <= i < a.len() - 1 implies (#[trigger] a.drop_last()[i])@
            == b.drop_last()[i]@ by {
            assert(a[i]@ == b[i]@);
        }
        lemma_same_regions_bytes(a.drop_last(), b.drop_last());
    }
}

/// Profiles that differ in one region only have other bytes for it, whichever
/// field of the region differs.
pub proof fn lemma_one_region_counts(
    a: Seq<BodyRegionDescriptor>,
    b: Seq<BodyRegionDescriptor>,
    at: int,
)
    requires
        a.len() == b.len(),
        0 <= at < a.len(),
        forall|i: int| 0 <= i < a.len() && i != at ==> (#[trigger] a[i])@ == b[i]@,
        regions_bytes(a) == regions_bytes(b),
    ensures
        a[at]@ == b[at]@,
    decreases a.len(),
{
    let (x, y) = (regions_bytes(a), regions_bytes(b));
    let (front_a, front_b) = (regions_bytes(a.drop_last()), regions_bytes(b.drop_last()));
    let n = a.len() - 1;
    assert forall|i: int| 0 <= i < n && i != at implies (#[trigger] a.drop_last()[i])@
        == b.drop_last()[i]@ by {
        assert(a[i]@ == b[i]@);
    }
    if at == n {
        assert forall|i: int| 0 <= i < n implies (#[trigger] a.drop_last()[i])@
            == b.drop_last()[i]@ by {
            assert(a[i]@ == b[i]@);
        }
        lemma_same_regions_bytes(a.drop_last(), b.drop_last());
        assert(x.subrange(front_a.len() as int, x.len() as int) =~= region_bytes(a.last()));
        assert(y.subrange(front_a.len() as int, y.len() as int) =~= region_bytes(b.last()));
        lemma_every_region_field_counts(a.last(), b.last());
    } else {
        assert(a[n]@ == b[n]@);
        lemma_same_region_bytes(a.last(), b.last());
        let cut = x.len() - region_bytes(a.last()).len();
        assert(x.subrange(0, cut) =~= front_a);
        assert(y.subrange(0, cut) =~= front_b);
        lemma_one_region_counts(a.drop_last(), b.drop_last(), at);
    }
}

/// Multiplying by the prime loses nothing modulo two to the sixty-fourth.
proof fn lemma_prime_loses_nothing(x: u64, y: u64)
    requires
        vstd::wrapping::u64_specs::wrapping_mul(x, FNV_PRIME)
            == vstd::wrapping::u64_specs::wrapping_mul(y, FNV_PRIME),
    ensures
        x == y,
{
    let m: int = 0x1_0000_0000_0000_0000;
    let p: int = 0x100000001b3;
    let inv: int = 0xce965057aff6957b;
    let k: int = (p * inv - 1) / m;
    assert(p * inv == k * m + 1) by {
        assert(0x100000001b3int * 0xce965057aff6957bint
            == 0x1_0000_0000_0000_0000int * ((0x100000001b3int * 0xce965057aff6957bint - 1)
            / 0x1_0000_0000_0000_0000int) + 1);
    }
    let (a, b) = (x as int, y as int);
    vstd::arithmetic::div_mod::lemma_mul_mod_noop_left(a * p, inv, m);
    vstd::arithmetic::div_mod::lemma_mul_mod_noop_left(b * p, inv, m);
    assert(a * p * inv == a * k * m + a) by (nonlinear_arith)
        requires
            p * inv == k * m + 1,
    ;
    assert(b * p * inv == b * k * m + b) by (nonlinear_arith)
        requires
            p * inv == k * m + 1,
    ;
    vstd::arithmetic::div_mod::lemma_mod_multiples_vanish(a * k, a, m);
    vstd::arithmetic::div_mod::lemma_mod_multiples_vanish(b * k, b, m);
    assert(m * (a * k) == a * k * m) by (nonlinear_arith);
    assert(m * (b * k) == b * k * m) by (nonlinear_arith);
    vstd::arithmetic::div_mod::lemma_small_mod(x as nat, m as nat);
    vstd::arithmetic::div_mod::lemma_small_mod(y as nat, m as nat);
}

/// A hash tells single bytes apart: of two byte strings that differ in one place
/// only, the hashes differ.
pub proof fn lemma_one_byte_changes_hash(a: Seq<u8>, b: Seq<u8>, at: int)
    requires
        a.len() == b.len(),
        0 <= at < a.len(),
        a[at] != b[at],
        forall|i: int| 0 <= i < a.len() && i != at ==> a[i] == b[i],
    ensures
        fnv1a(a) != fnv1a(b),
    decreases a.len(),
{
    let (x, y) = (fnv1a(a.drop_last()), fnv1a(b.drop_last()));
    let (c, d) = (a.last() as u64, b.last() as u64);
    if at == a.len() - 1 {
        assert(a.drop_last() =~= b.drop_last());
        assert(c != d ==> x ^ c != x ^ d) by (bit_vector);
        if fnv1a(a) == fnv1a(b) {
            lemma_prime_loses_nothing(x ^ c, x ^ d);
        }
    } else {
        lemma_one_byte_changes_hash(a.drop_last(), b.drop_last(), at);
        assert(x != y ==> x ^ c != y ^ c) by (bit_vector);
        if fnv1a(a) == fnv1a(b) {
            lemma_prime_loses_nothing(x ^ c, y ^ c);
        }
    }
}

/// The hash is the common one: it starts from the standard basis, and takes in
/// each byte by an exclusive or, followed by a multiplication with the standard
/// prime modulo two to the sixty-fourth.
pub proof fn lemma_hash_is_fnv1a(data: Seq<u8>, b: u8)
    ensures
        fnv1a(Seq::empty()) == 0xcbf29ce484222325,
        fnv1a(data.push(b)) == ((fnv1a(data) ^ (b as u64)) * 0x100000001b3)
            % 0x1_0000_0000_0000_0000,
{
    assert(data.push(b).drop_last() =~= data);
}

/// A field layout holds exactly the joints of the selected regions, each once
/// and in the order of the profile; every region is selected where none is
/// named.
pub proof fn lemma_layout_is_complete(
    joints: Seq<JointDescriptor>,
    region_ids: Seq<u8>,
    n: int,
    i: int,
)
    requires
        0 <= i < n <= joints.len(),
    ensures
        selected_joints(joints, region_ids, n).contains(i) <==> region_ids.len() == 0
            || region_ids.contains(joints[i].region_id),
        region_ids.len() == 0 ==> selected_joints(joints, region_ids, n).len() == n,
        selected_joints(joints, region_ids, n).len() <= n,
        forall|a: int, b: int|
            0 <= a < b < selected_joints(joints, region_ids, n).len() ==> selected_joints(
                joints,
                region_ids,
                n,
            )[a] < selected_joints(joints, region_ids, n)[b],
    decreases n,
{
    lemma_selected_ascending(joints, region_ids, n);
    let now = selected_joints(joints, region_ids, n);
    let before = selected_joints(joints, region_ids, n - 1);
    let wanted = region_ids.len() == 0 || region_ids.contains(joints[i].region_id);
    if n == 1 {
        assert(before =~= Seq::empty());
        if wanted {
            assert(now[0] == i);
        }
    } else {
        let j = if i < n - 1 {
            i
        } else {
            0
        };
        lemma_layout_is_complete(joints, region_ids, n - 1, j);
        lemma_selected_ascending(joints, region_ids, n - 1);
        if i < n - 1 {
            if before.contains(i) {
                let k = before.index_of(i);
                assert(now[k] == i);
            }
            if now.contains(i) {
                let k = now.index_of(i);
                assert(k < before.len() ==> before[k] == i);
            }
        } else if wanted {
            assert(now[before.len() as int] == i);
        }
    }
}

/// Each field of a layout stands for its joint, right behind the fields before
/// it, and is as wide as the tier says.
pub proof fn lemma_fields_in_place(
    joints: Seq<JointDescriptor>,
    region_ids: Seq<u8>,
    tier: QuantizationTier,
    k: int,
)
    requires
        joints.len() <= 0x1_0000,
        0 <= k < selected_joints(joints, region_ids, joints.len() as int).len(),
    ensures
        ({
            let chosen = selected_joints(joints, region_ids, joints.len() as int);
            let width: int = match tier {
                QuantizationTier::Compact => 1,
                QuantizationTier::Standard => 2,
                QuantizationTier::Full => 4,
            };
            let field = packed_fields(chosen, 0, tier.width())[k];
            &&& field.joint_index == chosen[k]
            &&& field.byte_offset == k * width
            &&& field.byte_len == width
        }),
{
    let chosen = selected_joints(joints, region_ids, joints.len() as int);
    lemma_selected_ascending(joints, region_ids, joints.len() as int);
    lemma_layout_is_complete(joints, region_ids, joints.len() as int, chosen[k]);
    assert(0 <= k * tier.width() < 0x1_0000 * 4) by (nonlinear_arith)
        requires
            0 <= k < 0x1_0000,
            tier.width() <= 4,
    ;
}

/// A command layout leaves out no selected region: each has a block of the kind
/// that its shape asks for.
pub proof fn lemma_every_region_has_its_block(
    p: RobotProfile,
    region_ids: Seq<u8>,
    width: nat,
    n: int,
    r: int,
)
    requires
        0 <= r < n <= p.regions@.len(),
        region_ids.len() == 0 || region_ids.contains(p.regions@[r].region_id),
    ensures
        exists|i: int|
            0 <= i < command_blocks(p, region_ids, width, n).len() && match (
                #[trigger] command_blocks(p, region_ids, width, n)[i],
                p.regions@[r].command_shape,
            ) {
                (BlockView::Kinematic { region_id, fields }, CommandShape::Kinematic) => region_id
                    == p.regions@[r].region_id && fields.len() == selected_joints(
                    p.joints@,
                    seq![p.regions@[r].region_id],
                    p.joints@.len() as int,
                ).len(),
                (
                    BlockView::VelocityAttitude { byte_len, .. },
                    CommandShape::VelocityAttitude,
                ) => byte_len == (6 * width) as u32,
                (
                    BlockView::CartesianEndEffector { region_id, byte_len, .. },
                    CommandShape::CartesianEndEffector,
                ) => region_id == p.regions@[r].region_id && byte_len == (4 * width) as u32,
                _ => false,
            },
    decreases n,
{
    let before = command_blocks(p, region_ids, width, n - 1);
    let now = command_blocks(p, region_ids, width, n);
    if r < n - 1 {
        lemma_every_region_has_its_block(p, region_ids, width, n - 1, r);
        let i = choose|i: int|
            0 <= i < before.len() && match (#[trigger] before[i], p.regions@[r].command_shape) {
                (BlockView::Kinematic { region_id, fields }, CommandShape::Kinematic) => region_id
                    == p.regions@[r].region_id && fields.len() == selected_joints(
                    p.joints@,
                    seq![p.regions@[r].region_id],
                    p.joints@.len() as int,
                ).len(),
                (
                    BlockView::VelocityAttitude { byte_len, .. },
                    CommandShape::VelocityAttitude,
                ) => byte_len == (6 * width) as u32,
                (
                    BlockView::CartesianEndEffector { region_id, byte_len, .. },
                    CommandShape::CartesianEndEffector,
                ) => region_id == p.regions@[r].region_id && byte_len == (4 * width) as u32,
                _ => false,
            };
        assert(now[i] == before[i]);
    } else {
        match p.regions@[r].command_shape {
            CommandShape::VelocityAttitude => {
                if has_velocity_block(before) {
                    let i = choose|i: int|
                        0 <= i < before.len() && (#[trigger] before[i]) is VelocityAttitude;
                    lemma_velocity_block_len(p, region_ids, width, n - 1, i);
                    assert(now[i] == before[i]);
                } else {
                    assert(now[before.len() as int] is VelocityAttitude);
                }
            },
            _ => {
                assert(now.len() == before.len() + 1);
                assert(now[before.len() as int] == now.last());
            },
        }
    }
}

proof fn lemma_velocity_block_len(p: RobotProfile, region_ids: Seq<u8>, width: nat, n: int, i: int)
    requires
        0 <= i < command_blocks(p, region_ids, width, n).len(),
        command_blocks(p, region_ids, width, n)[i] is VelocityAttitude,
    ensures
        command_blocks(p, region_ids, width, n)[i]->VelocityAttitude_byte_len == (6 * width) as u32,
    decreases n,
{
    let before = command_blocks(p, region_ids, width, n - 1);
    if i < before.len() {
        assert(before[i] == command_blocks(p, region_ids, width, n)[i]);
        lemma_velocity_block_len(p, region_ids, width, n - 1, i);
    }
}

/// A command layout has no block but those of selected regions.
pub proof fn lemma_no_other_blocks(p: RobotProfile, region_ids: Seq<u8>, width: nat, n: int, i: int)
    requires
        n <= p.regions@.len(),
        0 <= i < command_blocks(p, region_ids, width, n).len(),
    ensures
        exists|r: int|
            0 <= r < n && (region_ids.len() == 0 || region_ids.contains(
                (#[trigger] p.regions@[r]).region_id,
            )) && match command_blocks(p, region_ids, width, n)[i] {
                BlockView::Kinematic { region_id, .. } => region_id == p.regions@[r].region_id
                    && p.regions@[r].command_shape == CommandShape::Kinematic,
                BlockView::VelocityAttitude { .. } => p.regions@[r].command_shape
                    == CommandShape::VelocityAttitude,
                BlockView::CartesianEndEffector { region_id, .. } => region_id
                    == p.regions@[r].region_id && p.regions@[r].command_shape
                    == CommandShape::CartesianEndEffector,
            },
    decreases n,
{
    let before = command_blocks(p, region_ids, width, n - 1);
    if i < before.len() {
        assert(before[i] == command_blocks(p, region_ids, width, n)[i]);
        lemma_no_other_blocks(p, region_ids, width, n - 1, i);
    } else {
        let r = n - 1;
        assert(0 <= r && p.regions@[r].region_id == p.regions@[r].region_id);
    }
}

} // verus!
