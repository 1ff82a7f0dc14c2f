//! What the XGO-Lite V2 with its arm accessory announces of itself.
//!
//! Joints are in the order of the vendor's motor numbers: leg by leg, from the
//! lower joint to the upper one, then the three joints of the arm. The arm is
//! commanded by a position and a gripper rather than by angles, so the limits
//! of its joints are no more than what they read at rest.

use vstd::prelude::*;
use crate::fixed;
use crate::fixed::f32_bits;
use crate::profile;
use crate::profile::{
    BaseType, BodyRegionDescriptor, CameraDescriptor, Codec, CommandShape, JointDescriptor,
    RobotProfile,
};

verus! {

/// How fast a servo turns, in degrees a second.
pub const MAX_VELOCITY_DEG_S: i64 = 600;

pub const LEGS: u8 = 4;

pub const ARM_REGION_ID: u8 = 4;

/// The travel of the lower, middle and upper joint of a leg, in degrees.
pub open spec fn leg_range(position: int) -> (int, int) {
    if position == 0 {
        (-65, 73)
    } else if position == 1 {
        (-66, 93)
    } else {
        (-31, 31)
    }
}

/// The joint with this travel, in degrees.
pub open spec fn joint_of(range: (int, int), region_id: u8) -> JointDescriptor {
    JointDescriptor {
        min_limit_bits: fixed::f32_pattern(range.0 * 1_000_000) as u32,
        max_limit_bits: fixed::f32_pattern(range.1 * 1_000_000) as u32,
        max_velocity_bits: fixed::f32_pattern(MAX_VELOCITY_DEG_S * 1_000_000) as u32,
        has_torque_sensing: false,
        region_id,
    }
}

/// The joint with this number.
pub open spec fn xgo_joint(i: int) -> JointDescriptor {
    if i < 12 {
        joint_of(leg_range(i % 3), (i / 3) as u8)
    } else {
        joint_of((-90, 90), ARM_REGION_ID)
    }
}

pub open spec fn region_name(region_id: int) -> Seq<char> {
    if region_id == 0 {
        "leg_front_left"@
    } else if region_id == 1 {
        "leg_front_right"@
    } else if region_id == 2 {
        "leg_rear_right"@
    } else if region_id == 3 {
        "leg_rear_left"@
    } else {
        "arm"@
    }
}

/// The region with this number: three joints, a leg or the arm.
pub open spec fn xgo_region(region_id: int) -> profile::RegionView {
    profile::RegionView {
        region_id: region_id as u8,
        name: region_name(region_id),
        joint_start: (3 * region_id) as u16,
        joint_count: 3,
        has_force_torque_sensor: false,
        command_shape: if region_id < LEGS {
            CommandShape::VelocityAttitude
        } else {
            CommandShape::CartesianEndEffector
        },
    }
}

/// The whole profile.
pub open spec fn xgo_view() -> profile::ProfileView {
    profile::ProfileView {
        dof_count: 15,
        joints: Seq::new(15, |i: int| xgo_joint(i)),
        regions: Seq::new(5, |i: int| xgo_region(i)),
        base_type: BaseType::QuadrupedLegs,
    }
}

fn joint(min_deg: i64, max_deg: i64, region_id: u8) -> (j: JointDescriptor)
    requires
        -1000 <= min_deg <= 1000,
        -1000 <= max_deg <= 1000,
    ensures
        j == joint_of((min_deg as int, max_deg as int), region_id),
{
    JointDescriptor {
        min_limit_bits: f32_bits(min_deg * 1_000_000),
        max_limit_bits: f32_bits(max_deg * 1_000_000),
        max_velocity_bits: f32_bits(MAX_VELOCITY_DEG_S * 1_000_000),
        has_torque_sensing: false,
        region_id,
    }
}

fn region(region_id: u8) -> (r: BodyRegionDescriptor)
    requires
        region_id <= 4,
    ensures
        r@ == xgo_region(region_id as int),
{
    let name: &str = match region_id {
        0 => "leg_front_left",
        1 => "leg_front_right",
        2 => "leg_rear_right",
        3 => "leg_rear_left",
        _ => "arm",
    };
    BodyRegionDescriptor {
        region_id,
        name: String::from_str(name),
        joint_start: region_id as u16 * 3,
        joint_count: 3,
        has_force_torque_sensor: false,
        command_shape: if region_id < LEGS {
            CommandShape::VelocityAttitude
        } else {
            CommandShape::CartesianEndEffector
        },
    }
}

pub fn xgo_lite_v2_profile() -> (p: RobotProfile)
    ensures
        p@ == xgo_view(),
{
    let mut joints: Vec<JointDescriptor> = Vec::new();
    let mut regions: Vec<BodyRegionDescriptor> = Vec::new();
    let mut leg: u8 = 0;
    while leg < LEGS
        invariant
            leg <= LEGS,
            joints@ =~= Seq::new((3 * leg) as nat, |i: int| xgo_joint(i)),
            regions@.len() == leg,
            forall|k: int| 0 <= k < leg ==> (#[trigger] regions@[k])@ == xgo_region(k),
        decreases LEGS - leg,
    {
        joints.push(joint(-65, 73, leg));
        joints.push(joint(-66, 93, leg));
        joints.push(joint(-31, 31, leg));
        regions.push(region(leg));
        leg = leg + 1;
    }
    joints.push(joint(-90, 90, ARM_REGION_ID));
    joints.push(joint(-90, 90, ARM_REGION_ID));
    joints.push(joint(-90, 90, ARM_REGION_ID));
    regions.push(region(ARM_REGION_ID));
    proof {
        assert(joints@ =~= xgo_view().joints);
        assert(profile::region_views(regions@) =~= xgo_view().regions);
    }
    RobotProfile { dof_count: 15, joints, regions, base_type: BaseType::QuadrupedLegs }
}

/// The camera at the front.
pub open spec fn camera_view() -> profile::CameraView {
    profile::CameraView {
        camera_id: 0,
        label: "front"@,
        codec: Codec::H264,
        resolution_w: 640,
        resolution_h: 480,
        max_fps: 30,
        min_bitrate_kbps: 500,
        max_bitrate_kbps: 4000,
    }
}

pub fn xgo_lite_v2_camera() -> (c: CameraDescriptor)
    ensures
        c@ == camera_view(),
{
    CameraDescriptor {
        camera_id: 0,
        label: String::from_str("front"),
        codec: Codec::H264,
        resolution_w: 640,
        resolution_h: 480,
        max_fps: 30,
        min_bitrate_kbps: 500,
        max_bitrate_kbps: 4000,
    }
}

/// Every joint belongs to exactly one region, the one that counts it among its
/// own.
pub proof fn lemma_regions_tile(i: int, r: int)
    requires
        0 <= i < 15,
        0 <= r < 5,
    ensures
        xgo_joint(i).region_id == r <==> xgo_region(r).joint_start <= i < xgo_region(r).joint_start
            + xgo_region(r).joint_count,
        xgo_region(r).joint_start + xgo_region(r).joint_count <= xgo_view().dof_count,
{
}

/// The command of the whole robot is one velocity block, shared by the legs,
/// followed by the arm's target block.
pub proof fn lemma_command_layout(p: RobotProfile, region_ids: Seq<u8>, width: nat)
    requires
        p@ == xgo_view(),
        forall|id: u8| id <= 4 ==> #[trigger] profile::is_selected(region_ids, id),
        1 <= width <= 4,
    ensures
        profile::command_blocks(p, region_ids, width, 5) == seq![
            profile::BlockView::VelocityAttitude { byte_offset: 0, byte_len: (6 * width) as u32 },
            profile::BlockView::CartesianEndEffector {
                region_id: ARM_REGION_ID,
                byte_offset: (6 * width) as u32,
                byte_len: (4 * width) as u32,
            },
        ],
{
    let velocity = profile::BlockView::VelocityAttitude {
        byte_offset: 0,
        byte_len: (6 * width) as u32,
    };
    assert forall|k: int| 0 <= k < 5 implies (#[trigger] p.regions@[k])@ == xgo_region(k) by {
        assert(p@.regions.len() == xgo_view().regions.len());
        assert(p@.regions[k] == xgo_view().regions[k]);
        assert(p@.regions[k] == p.regions@[k]@);
    }
    let legs = seq![velocity];
    assert(legs.drop_last() =~= Seq::<profile::BlockView>::empty());
    assert(profile::blocks_size(legs, width) == 6 * width) by {
        reveal_with_fuel(profile::blocks_size, 2);
    }
    assert(legs[0] is VelocityAttitude);
    assert(p.regions@[0]@ == xgo_region(0));
    assert(profile::command_blocks(p, region_ids, width, 0) =~= Seq::<
        profile::BlockView,
    >::empty());
    assert(profile::command_blocks(p, region_ids, width, 1) =~= legs);
    assert(p.regions@[1]@ == xgo_region(1));
    assert(profile::command_blocks(p, region_ids, width, 2) == legs);
    assert(p.regions@[2]@ == xgo_region(2));
    assert(profile::command_blocks(p, region_ids, width, 3) == legs);
    assert(p.regions@[3]@ == xgo_region(3));
    assert(profile::command_blocks(p, region_ids, width, 4) == legs);
    assert(p.regions@[4]@ == xgo_region(4));
}

/// What each joint is: three to a leg, from the lower to the upper one, each with
/// the travel of its place in the leg; then those of the arm. A joint belongs to
/// the region that lists it.
pub proof fn lemma_joints(leg: int)
    requires
        0 <= leg < 4,
    ensures
        xgo_view().dof_count == 15 && xgo_view().joints.len() == 15,
        xgo_view().joints[3 * leg] == joint_of((-65, 73), leg as u8),
        xgo_view().joints[3 * leg + 1] == joint_of((-66, 93), leg as u8),
        xgo_view().joints[3 * leg + 2] == joint_of((-31, 31), leg as u8),
        xgo_view().joints[12] == joint_of((-90, 90), 4),
        xgo_view().joints[13] == joint_of((-90, 90), 4),
        xgo_view().joints[14] == joint_of((-90, 90), 4),
        xgo_view().regions.len() == 5,
        xgo_view().regions[leg].region_id == leg && xgo_view().regions[leg].joint_start == 3 * leg
            && xgo_view().regions[leg].joint_count == 3,
        xgo_view().regions[leg].command_shape == CommandShape::VelocityAttitude,
        xgo_view().regions[4].joint_start == 12 && xgo_view().regions[4].joint_count == 3,
        xgo_view().regions[4].region_id == 4,
        xgo_view().regions[4].command_shape == CommandShape::CartesianEndEffector,
        xgo_view().regions[0].name == "leg_front_left"@,
        xgo_view().regions[1].name == "leg_front_right"@,
        xgo_view().regions[2].name == "leg_rear_right"@,
        xgo_view().regions[3].name == "leg_rear_left"@,
        xgo_view().regions[4].name == "arm"@,
        xgo_view().base_type == BaseType::QuadrupedLegs,
{
}

/// A joint's travel is announced in degrees, lower end first, with the servo's
/// speed; it feels no torque.
pub proof fn lemma_joint(range: (int, int), region_id: u8)
    ensures
        joint_of(range, region_id).min_limit_bits == fixed::f32_pattern(range.0 * 1_000_000) as u32,
        joint_of(range, region_id).max_limit_bits == fixed::f32_pattern(range.1 * 1_000_000) as u32,
        joint_of(range, region_id).max_velocity_bits == fixed::f32_pattern(600_000_000) as u32,
        !joint_of(range, region_id).has_torque_sensing,
        joint_of(range, region_id).region_id == region_id,
{
}

/// The one camera: in front, 640 by 480, thirty pictures a second at most.
pub proof fn lemma_camera()
    ensures
        camera_view().camera_id == 0 && camera_view().label == "front"@,
        camera_view().codec == Codec::H264,
        camera_view().resolution_w == 640 && camera_view().resolution_h == 480,
        camera_view().max_fps == 30,
        camera_view().min_bitrate_kbps == 500 && camera_view().max_bitrate_kbps == 4000,
{
}

} // verus!
