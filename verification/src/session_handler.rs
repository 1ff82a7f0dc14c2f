//! The session description that a robot sends and the acceptance that answers
//! it.

use vstd::prelude::*;
use crate::fb;
use crate::fb::{
    fb_get_bool, fb_get_bytes, fb_get_string, fb_get_table, fb_get_u16, fb_get_u32, fb_get_u64,
    fb_get_u8, fb_new, fb_root, fb_tables_get, fb_tables_len, MAX_BUFFER,
};
use crate::fb_table;
use crate::fb_table::{
    check_bytes, check_root, check_scalar, check_string, check_table, check_tables, end_table,
    finish, put_bool, put_bytes, put_f32_bits, put_offset, put_string, put_tables, put_u16,
    put_u32, put_u64, put_u8, start_table, Builder,
};
use crate::hello_handler::DecodeError;
use crate::profile::{
    base_type_number, command_shape_number, BaseType, BodyRegionDescriptor, CameraDescriptor,
    Codec, CommandShape, JointDescriptor, RobotProfile,
};
use crate::profile;

verus! {

// Enumerations on the wire.

pub open spec fn codec_number(c: Codec) -> u8 {
    match c {
        Codec::H265 => 0,
        Codec::Av1 => 1,
        Codec::H264 => 2,
    }
}

/// Unknown numbers stand for the first codec.
pub open spec fn codec_of(n: u8) -> Codec {
    if n == 1 {
        Codec::Av1
    } else if n == 2 {
        Codec::H264
    } else {
        Codec::H265
    }
}

/// Unknown numbers stand for one field per joint.
pub open spec fn command_shape_of(n: u8) -> CommandShape {
    if n == 1 {
        CommandShape::VelocityAttitude
    } else if n == 2 {
        CommandShape::CartesianEndEffector
    } else {
        CommandShape::Kinematic
    }
}

/// Unknown numbers stand for a stationary base.
pub open spec fn base_type_of(n: u8) -> BaseType {
    if n == 1 {
        BaseType::WheeledStandard
    } else if n == 2 {
        BaseType::WheeledHolonomic
    } else if n == 3 {
        BaseType::BipedLegs
    } else if n == 4 {
        BaseType::QuadrupedLegs
    } else if n == 5 {
        BaseType::Other
    } else {
        BaseType::Stationary
    }
}

pub fn to_fb_codec(codec: Codec) -> (n: u8)
    ensures
        n == codec_number(codec),
        codec_of(n) == codec,
{
    match codec {
        Codec::H265 => 0,
        Codec::Av1 => 1,
        Codec::H264 => 2,
    }
}

pub fn from_fb_codec(n: u8) -> (c: Codec)
    ensures
        c == codec_of(n),
{
    match n {
        1 => Codec::Av1,
        2 => Codec::H264,
        _ => Codec::H265,
    }
}

pub fn to_fb_command_shape(shape: CommandShape) -> (n: u8)
    ensures
        n == shape.number(),
        command_shape_of(n) == shape,
{
    command_shape_number(shape)
}

pub fn from_fb_command_shape(n: u8) -> (s: CommandShape)
    ensures
        s == command_shape_of(n),
{
    match n {
        1 => CommandShape::VelocityAttitude,
        2 => CommandShape::CartesianEndEffector,
        _ => CommandShape::Kinematic,
    }
}

pub fn to_fb_base_type(base_type: BaseType) -> (n: u8)
    ensures
        n == base_type.number(),
        base_type_of(n) == base_type,
{
    base_type_number(base_type)
}

pub fn from_fb_base_type(n: u8) -> (b: BaseType)
    ensures
        b == base_type_of(n),
{
    match n {
        1 => BaseType::WheeledStandard,
        2 => BaseType::WheeledHolonomic,
        3 => BaseType::BipedLegs,
        4 => BaseType::QuadrupedLegs,
        5 => BaseType::Other,
        _ => BaseType::Stationary,
    }
}

// What a buffer says.

pub open spec fn joint_ok(s: Seq<u8>, loc: int) -> bool {
    &&& fb::table_ok(s, loc)
    &&& fb::scalar_ok(s, loc, 4, 4)
    &&& fb::scalar_ok(s, loc, 6, 4)
    &&& fb::scalar_ok(s, loc, 8, 4)
    &&& fb::scalar_ok(s, loc, 10, 1)
    &&& fb::scalar_ok(s, loc, 12, 1)
}

pub open spec fn joint_in(s: Seq<u8>, loc: int) -> JointDescriptor {
    JointDescriptor {
        min_limit_bits: fb::scalar(s, loc, 4, 4, 0) as u32,
        max_limit_bits: fb::scalar(s, loc, 6, 4, 0) as u32,
        max_velocity_bits: fb::scalar(s, loc, 8, 4, 0) as u32,
        has_torque_sensing: fb::scalar(s, loc, 10, 1, 0) != 0,
        region_id: fb::scalar(s, loc, 12, 1, 0) as u8,
    }
}

/// `j` as it comes out of a message: negative zero turns into zero.
pub open spec fn joint_as_stored(j: JointDescriptor) -> JointDescriptor {
    JointDescriptor {
        min_limit_bits: fb_table::stored_bits(j.min_limit_bits),
        max_limit_bits: fb_table::stored_bits(j.max_limit_bits),
        max_velocity_bits: fb_table::stored_bits(j.max_velocity_bits),
        has_torque_sensing: j.has_torque_sensing,
        region_id: j.region_id,
    }
}

pub open spec fn region_ok(s: Seq<u8>, loc: int) -> bool {
    &&& fb::table_ok(s, loc)
    &&& fb::scalar_ok(s, loc, 4, 1)
    &&& fb::string_ok(s, loc, 6)
    &&& fb::scalar_ok(s, loc, 8, 2)
    &&& fb::scalar_ok(s, loc, 10, 2)
    &&& fb::scalar_ok(s, loc, 12, 1)
    &&& fb::scalar_ok(s, loc, 14, 1)
}

pub open spec fn region_in(s: Seq<u8>, loc: int) -> profile::RegionView {
    profile::RegionView {
        region_id: fb::scalar(s, loc, 4, 1, 0) as u8,
        name: fb::string(s, loc, 6),
        joint_start: fb::scalar(s, loc, 8, 2, 0) as u16,
        joint_count: fb::scalar(s, loc, 10, 2, 0) as u16,
        has_force_torque_sensor: fb::scalar(s, loc, 12, 1, 0) != 0,
        command_shape: command_shape_of(fb::scalar(s, loc, 14, 1, 0) as u8),
    }
}

pub open spec fn camera_ok(s: Seq<u8>, loc: int) -> bool {
    &&& fb::table_ok(s, loc)
    &&& fb::scalar_ok(s, loc, 4, 1)
    &&& fb::string_ok(s, loc, 6)
    &&& fb::scalar_ok(s, loc, 8, 1)
    &&& fb::scalar_ok(s, loc, 10, 2)
    &&& fb::scalar_ok(s, loc, 12, 2)
    &&& fb::scalar_ok(s, loc, 14, 1)
    &&& fb::scalar_ok(s, loc, 16, 4)
    &&& fb::scalar_ok(s, loc, 18, 4)
}

pub open spec fn camera_in(s: Seq<u8>, loc: int) -> profile::CameraView {
    profile::CameraView {
        camera_id: fb::scalar(s, loc, 4, 1, 0) as u8,
        label: fb::string(s, loc, 6),
        codec: codec_of(fb::scalar(s, loc, 8, 1, 0) as u8),
        resolution_w: fb::scalar(s, loc, 10, 2, 0) as u16,
        resolution_h: fb::scalar(s, loc, 12, 2, 0) as u16,
        max_fps: fb::scalar(s, loc, 14, 1, 0) as u8,
        min_bitrate_kbps: fb::scalar(s, loc, 16, 4, 0) as u32,
        max_bitrate_kbps: fb::scalar(s, loc, 18, 4, 0) as u32,
    }
}

pub open spec fn all_joints_ok(s: Seq<u8>, locs: Seq<int>) -> bool {
    forall|i: int| 0 <= i < locs.len() ==> joint_ok(s, #[trigger] locs[i])
}

pub open spec fn all_regions_ok(s: Seq<u8>, locs: Seq<int>) -> bool {
    forall|i: int| 0 <= i < locs.len() ==> region_ok(s, #[trigger] locs[i])
}

pub open spec fn all_cameras_ok(s: Seq<u8>, locs: Seq<int>) -> bool {
    forall|i: int| 0 <= i < locs.len() ==> camera_ok(s, #[trigger] locs[i])
}

pub open spec fn joints_in(s: Seq<u8>, locs: Seq<int>) -> Seq<JointDescriptor> {
    locs.map_values(|l: int| joint_in(s, l))
}

pub open spec fn regions_in(s: Seq<u8>, locs: Seq<int>) -> Seq<profile::RegionView> {
    locs.map_values(|l: int| region_in(s, l))
}

pub open spec fn cameras_in(s: Seq<u8>, locs: Seq<int>) -> Seq<profile::CameraView> {
    locs.map_values(|l: int| camera_in(s, l))
}

pub open spec fn profile_ok(s: Seq<u8>, loc: int) -> bool {
    &&& fb::table_ok(s, loc)
    &&& fb::scalar_ok(s, loc, 4, 2)
    &&& fb::tables_ok(s, loc, 6)
    &&& all_joints_ok(s, fb::tables(s, loc, 6))
    &&& fb::tables_ok(s, loc, 8)
    &&& all_regions_ok(s, fb::tables(s, loc, 8))
    &&& fb::scalar_ok(s, loc, 10, 1)
}

pub open spec fn profile_in(s: Seq<u8>, loc: int) -> profile::ProfileView {
    profile::ProfileView {
        dof_count: fb::scalar(s, loc, 4, 2, 0) as u16,
        joints: joints_in(s, fb::tables(s, loc, 6)),
        regions: regions_in(s, fb::tables(s, loc, 8)),
        base_type: base_type_of(fb::scalar(s, loc, 10, 1, 0) as u8),
    }
}

/// A session description as a mathematical value.
pub struct DescribeView {
    pub robot_id: Seq<char>,
    pub profile_hash: u64,
    pub profile: profile::ProfileView,
    pub cameras: Seq<profile::CameraView>,
}

/// Can the root be asked for a robot profile?
pub open spec fn describe_head_ok(s: Seq<u8>) -> bool {
    fb::root_ok(s) && fb::scalar_ok(s, fb::root(s), 8, 4)
}

/// Where the robot profile is, if there is one.
pub open spec fn profile_place(s: Seq<u8>) -> Option<int> {
    fb::target(s, fb::root(s), 8)
}

/// Can a whole description, with a robot profile, be read from `s`?
pub open spec fn describe_ok(s: Seq<u8>) -> bool {
    let t = fb::root(s);
    &&& describe_head_ok(s)
    &&& profile_place(s) is Some
    &&& profile_ok(s, profile_place(s)->0)
    &&& fb::string_ok(s, t, 4)
    &&& fb::scalar_ok(s, t, 6, 8)
    &&& fb::tables_ok(s, t, 10)
    &&& all_cameras_ok(s, fb::tables(s, t, 10))
}

/// The description in `s`.
pub open spec fn describe_in(s: Seq<u8>) -> DescribeView {
    let t = fb::root(s);
    DescribeView {
        robot_id: fb::string(s, t, 4),
        profile_hash: fb::scalar(s, t, 6, 8, 0) as u64,
        profile: profile_in(s, profile_place(s)->0),
        cameras: cameras_in(s, fb::tables(s, t, 10)),
    }
}

/// A description holds no more regions and cameras than it has room for.
pub proof fn lemma_describe_sizes(s: Seq<u8>)
    requires
        describe_ok(s),
    ensures
        s.len() <= MAX_BUFFER,
        4 * describe_in(s).profile.regions.len() <= s.len(),
        4 * describe_in(s).cameras.len() <= s.len(),
{
}

// Growing the buffer keeps it.

spec fn joint_here(w: Seq<u8>, pos: int, j: JointDescriptor) -> bool {
    &&& 0 <= pos <= w.len()
    &&& joint_ok(w, w.len() - pos)
    &&& joint_in(w, w.len() - pos) == j
}

spec fn region_here(w: Seq<u8>, pos: int, r: profile::RegionView) -> bool {
    &&& 0 <= pos <= w.len()
    &&& region_ok(w, w.len() - pos)
    &&& region_in(w, w.len() - pos) == r
}

spec fn camera_here(w: Seq<u8>, pos: int, c: profile::CameraView) -> bool {
    &&& 0 <= pos <= w.len()
    &&& camera_ok(w, w.len() - pos)
    &&& camera_in(w, w.len() - pos) == c
}

spec fn profile_here(w: Seq<u8>, pos: int, p: profile::ProfileView) -> bool {
    &&& 0 <= pos <= w.len()
    &&& profile_ok(w, w.len() - pos)
    &&& profile_in(w, w.len() - pos) == p
}

proof fn lemma_joint_shift(a: Seq<u8>, b: Seq<u8>, pos: int, j: JointDescriptor)
    requires
        fb::extends(a, b),
        b.len() <= MAX_BUFFER,
        joint_here(a, pos, j),
    ensures
        joint_here(b, pos, j),
{
    let loc = a.len() - pos;
    assert(b.len() - a.len() + loc == b.len() - pos);
    fb_table::lemma_table_shift(a, b, loc);
    fb_table::lemma_scalar_shift(a, b, loc, 4, 4, 0);
    fb_table::lemma_scalar_shift(a, b, loc, 6, 4, 0);
    fb_table::lemma_scalar_shift(a, b, loc, 8, 4, 0);
    fb_table::lemma_scalar_shift(a, b, loc, 10, 1, 0);
    fb_table::lemma_scalar_shift(a, b, loc, 12, 1, 0);
}

proof fn lemma_region_shift(a: Seq<u8>, b: Seq<u8>, pos: int, r: profile::RegionView)
    requires
        fb::extends(a, b),
        b.len() <= MAX_BUFFER,
        region_here(a, pos, r),
    ensures
        region_here(b, pos, r),
{
    let loc = a.len() - pos;
    assert(b.len() - a.len() + loc == b.len() - pos);
    fb_table::lemma_table_shift(a, b, loc);
    fb_table::lemma_scalar_shift(a, b, loc, 4, 1, 0);
    fb_table::lemma_bytes_shift(a, b, loc, 6);
    fb_table::lemma_scalar_shift(a, b, loc, 8, 2, 0);
    fb_table::lemma_scalar_shift(a, b, loc, 10, 2, 0);
    fb_table::lemma_scalar_shift(a, b, loc, 12, 1, 0);
    fb_table::lemma_scalar_shift(a, b, loc, 14, 1, 0);
}

proof fn lemma_camera_shift(a: Seq<u8>, b: Seq<u8>, pos: int, c: profile::CameraView)
    requires
        fb::extends(a, b),
        b.len() <= MAX_BUFFER,
        camera_here(a, pos, c),
    ensures
        camera_here(b, pos, c),
{
    let loc = a.len() - pos;
    assert(b.len() - a.len() + loc == b.len() - pos);
    fb_table::lemma_table_shift(a, b, loc);
    fb_table::lemma_scalar_shift(a, b, loc, 4, 1, 0);
    fb_table::lemma_bytes_shift(a, b, loc, 6);
    fb_table::lemma_scalar_shift(a, b, loc, 8, 1, 0);
    fb_table::lemma_scalar_shift(a, b, loc, 10, 2, 0);
    fb_table::lemma_scalar_shift(a, b, loc, 12, 2, 0);
    fb_table::lemma_scalar_shift(a, b, loc, 14, 1, 0);
    fb_table::lemma_scalar_shift(a, b, loc, 16, 4, 0);
    fb_table::lemma_scalar_shift(a, b, loc, 18, 4, 0);
}

/// The vector in `slot` of the table at `pos` leads to the tables written at
/// `items`.
proof fn lemma_slot_tables(w: Seq<u8>, loc: int, slot: int, vec: int, items: Seq<u32>)
    requires
        fb::table_ok(w, loc),
        fb::scalar_ok(w, loc, slot, 4),
        fb::target(w, loc, slot) == Some(w.len() - vec),
        fb_table::tables_here(w, vec, items),
        forall|i: int| 0 <= i < items.len() ==> fb::table_ok(w, w.len() - #[trigger] items[i]),
    ensures
        fb::tables_ok(w, loc, slot),
        fb::tables(w, loc, slot) == items.map_values(|p: u32| w.len() - p),
{
    let at = w.len() - vec;
    assert forall|i: int| 0 <= i < fb::uint_at(w, at, 4) implies fb::table_ok(
        w,
        #[trigger] fb::element(w, at, i),
    ) by {
        assert(fb::table_ok(w, w.len() - items[i]));
    }
    assert(fb::tables(w, loc, slot) =~= items.map_values(|p: u32| w.len() - p));
}

spec fn here_all_joints(w: Seq<u8>, items: Seq<u32>, joints: Seq<JointDescriptor>) -> bool {
    &&& items.len() == joints.len()
    &&& forall|i: int|
        0 <= i < items.len() ==> joint_here(w, (#[trigger] items[i]) as int, joints[i])
}

spec fn here_all_regions(w: Seq<u8>, items: Seq<u32>, regions: Seq<profile::RegionView>) -> bool {
    &&& items.len() == regions.len()
    &&& forall|i: int|
        0 <= i < items.len() ==> region_here(w, (#[trigger] items[i]) as int, regions[i])
}

spec fn here_all_cameras(w: Seq<u8>, items: Seq<u32>, cameras: Seq<profile::CameraView>) -> bool {
    &&& items.len() == cameras.len()
    &&& forall|i: int|
        0 <= i < items.len() ==> camera_here(w, (#[trigger] items[i]) as int, cameras[i])
}

proof fn lemma_all_joints_shift(
    a: Seq<u8>,
    b: Seq<u8>,
    items: Seq<u32>,
    joints: Seq<JointDescriptor>,
)
    requires
        fb::extends(a, b),
        b.len() <= MAX_BUFFER,
        here_all_joints(a, items, joints),
    ensures
        here_all_joints(b, items, joints),
{
    assert forall|i: int| 0 <= i < items.len() implies joint_here(
        b,
        (#[trigger] items[i]) as int,
        joints[i],
    ) by {
        lemma_joint_shift(a, b, items[i] as int, joints[i]);
    }
}

proof fn lemma_all_regions_shift(
    a: Seq<u8>,
    b: Seq<u8>,
    items: Seq<u32>,
    regions: Seq<profile::RegionView>,
)
    requires
        fb::extends(a, b),
        b.len() <= MAX_BUFFER,
        here_all_regions(a, items, regions),
    ensures
        here_all_regions(b, items, regions),
{
    assert forall|i: int| 0 <= i < items.len() implies region_here(
        b,
        (#[trigger] items[i]) as int,
        regions[i],
    ) by {
        lemma_region_shift(a, b, items[i] as int, regions[i]);
    }
}

proof fn lemma_all_cameras_shift(
    a: Seq<u8>,
    b: Seq<u8>,
    items: Seq<u32>,
    cameras: Seq<profile::CameraView>,
)
    requires
        fb::extends(a, b),
        b.len() <= MAX_BUFFER,
        here_all_cameras(a, items, cameras),
    ensures
        here_all_cameras(b, items, cameras),
{
    assert forall|i: int| 0 <= i < items.len() implies camera_here(
        b,
        (#[trigger] items[i]) as int,
        cameras[i],
    ) by {
        lemma_camera_shift(a, b, items[i] as int, cameras[i]);
    }
}

// Writing.

fn write_joint(b: &mut Builder, j: &JointDescriptor) -> (pos: u32)
    requires
        fb::open_table(*old(b)) is None,
        fb::written(*old(b)).len() + 256 <= MAX_BUFFER,
    ensures
        fb::open_table(*final(b)) is None,
        fb_table::grown(fb::written(*old(b)), fb::written(*final(b))),
        fb::written(*final(b)).len() <= fb::written(*old(b)).len() + 128,
        joint_here(fb::written(*final(b)), pos as int, joint_as_stored(*j)),
{
    let ghost w0 = fb::written(*b);
    proof {
        fb_table::lemma_extends_refl(w0);
    }
    let start: u32 = start_table(b);
    put_f32_bits(b, 8, j.max_velocity_bits);
    put_f32_bits(b, 6, j.max_limit_bits);
    put_f32_bits(b, 4, j.min_limit_bits);
    put_u8(b, 12, j.region_id);
    put_bool(b, 10, j.has_torque_sensing);
    let ghost before = *b;
    proof {
        let s = joint_as_stored(*j);
        assert(fb_table::holds(before, 8, 4, s.max_velocity_bits as nat, 0));
        assert(fb_table::holds(before, 6, 4, s.max_limit_bits as nat, 0));
        assert(fb_table::holds(before, 4, 4, s.min_limit_bits as nat, 0));
        assert(fb_table::holds(before, 12, 1, s.region_id as nat, 0));
        assert(fb_table::holds(before, 10, 1, if s.has_torque_sensing { 1 } else { 0 }, 0));
    }
    let pos: u32 = end_table(b, start);
    proof {
        assert(fb::extends(w0, fb::written(*b)));
        fb_table::lemma_grown(w0, fb::written(*b));
    }
    pos
}

fn write_region(b: &mut Builder, r: &BodyRegionDescriptor) -> (pos: u32)
    requires
        fb::open_table(*old(b)) is None,
        fb::written(*old(b)).len() + vstd::utf8::encode_utf8(r.name@).len() + 512 <= MAX_BUFFER,
    ensures
        fb::open_table(*final(b)) is None,
        fb_table::grown(fb::written(*old(b)), fb::written(*final(b))),
        fb::written(*final(b)).len() <= fb::written(*old(b)).len() + vstd::utf8::encode_utf8(
            r.name@,
        ).len() + 256,
        region_here(fb::written(*final(b)), pos as int, r@),
{
    let ghost w0 = fb::written(*b);
    proof {
        fb_table::lemma_extends_refl(w0);
    }
    let name: u32 = put_string(b, r.name.as_str());
    let ghost w1 = fb::written(*b);
    proof {
        fb_table::lemma_extends_refl(w1);
    }
    let start: u32 = start_table(b);
    put_offset(b, 6, name);
    put_u16(b, 10, r.joint_count);
    put_u16(b, 8, r.joint_start);
    put_u8(b, 14, to_fb_command_shape(r.command_shape));
    put_bool(b, 12, r.has_force_torque_sensor);
    put_u8(b, 4, r.region_id);
    let ghost before = *b;
    proof {
        assert(fb_table::leads(before, 6, name as int));
        assert(fb_table::holds(before, 10, 2, r.joint_count as nat, 0));
        assert(fb_table::holds(before, 8, 2, r.joint_start as nat, 0));
        assert(fb_table::holds(before, 14, 1, r.command_shape.number() as nat, 0));
        assert(fb_table::holds(before, 12, 1, if r.has_force_torque_sensor { 1 } else { 0 }, 0));
        assert(fb_table::holds(before, 4, 1, r.region_id as nat, 0));
    }
    let pos: u32 = end_table(b, start);
    proof {
        let w = fb::written(*b);
        assert(fb::extends(w0, w));
        assert(fb::extends(w1, w));
        fb_table::lemma_grown(w0, w);
        fb_table::lemma_bytes_here_shift(
            w1,
            w,
            name as int,
            vstd::utf8::encode_utf8(r.name@),
        );
        fb_table::lemma_string_of_bytes(w, w.len() - pos, 6, r.name@);
        assert(command_shape_of(r.command_shape.number()) == r.command_shape);
    }
    pos
}

fn write_camera(b: &mut Builder, c: &CameraDescriptor) -> (pos: u32)
    requires
        fb::open_table(*old(b)) is None,
        fb::written(*old(b)).len() + vstd::utf8::encode_utf8(c.label@).len() + 512 <= MAX_BUFFER,
    ensures
        fb::open_table(*final(b)) is None,
        fb_table::grown(fb::written(*old(b)), fb::written(*final(b))),
        fb::written(*final(b)).len() <= fb::written(*old(b)).len() + vstd::utf8::encode_utf8(
            c.label@,
        ).len() + 256,
        camera_here(fb::written(*final(b)), pos as int, c@),
{
    let ghost w0 = fb::written(*b);
    proof {
        fb_table::lemma_extends_refl(w0);
    }
    let label: u32 = put_string(b, c.label.as_str());
    let ghost w1 = fb::written(*b);
    proof {
        fb_table::lemma_extends_refl(w1);
    }
    let start: u32 = start_table(b);
    put_u32(b, 18, c.max_bitrate_kbps);
    put_u32(b, 16, c.min_bitrate_kbps);
    put_offset(b, 6, label);
    put_u16(b, 12, c.resolution_h);
    put_u16(b, 10, c.resolution_w);
    put_u8(b, 14, c.max_fps);
    put_u8(b, 8, to_fb_codec(c.codec));
    put_u8(b, 4, c.camera_id);
    let ghost before = *b;
    proof {
        assert(fb_table::holds(before, 18, 4, c.max_bitrate_kbps as nat, 0));
        assert(fb_table::holds(before, 16, 4, c.min_bitrate_kbps as nat, 0));
        assert(fb_table::leads(before, 6, label as int));
        assert(fb_table::holds(before, 12, 2, c.resolution_h as nat, 0));
        assert(fb_table::holds(before, 10, 2, c.resolution_w as nat, 0));
        assert(fb_table::holds(before, 14, 1, c.max_fps as nat, 0));
        assert(fb_table::holds(before, 8, 1, codec_number(c.codec) as nat, 0));
        assert(fb_table::holds(before, 4, 1, c.camera_id as nat, 0));
    }
    let pos: u32 = end_table(b, start);
    proof {
        let w = fb::written(*b);
        assert(fb::extends(w0, w));
        assert(fb::extends(w1, w));
        fb_table::lemma_grown(w0, w);
        fb_table::lemma_bytes_here_shift(
            w1,
            w,
            label as int,
            vstd::utf8::encode_utf8(c.label@),
        );
        fb_table::lemma_string_of_bytes(w, w.len() - pos, 6, c.label@);
        assert(codec_of(codec_number(c.codec)) == c.codec);
    }
    pos
}

/// The bytes of all region names together.
pub open spec fn names_len(regions: Seq<BodyRegionDescriptor>) -> nat
    decreases regions.len(),
{
    if regions.len() == 0 {
        0
    } else {
        names_len(regions.drop_last()) + vstd::utf8::encode_utf8(regions.last().name@).len()
    }
}

/// The bytes of all camera labels together.
pub open spec fn labels_len(cameras: Seq<CameraDescriptor>) -> nat
    decreases cameras.len(),
{
    if cameras.len() == 0 {
        0
    } else {
        labels_len(cameras.drop_last()) + vstd::utf8::encode_utf8(cameras.last().label@).len()
    }
}

/// A bound on the size of a description.
pub open spec fn describe_bound(
    robot_id: Seq<char>,
    p: RobotProfile,
    cameras: Seq<CameraDescriptor>,
) -> nat {
    132 * p.joints@.len() + 260 * p.regions@.len() + names_len(p.regions@) + 260 * cameras.len()
        + labels_len(cameras) + vstd::utf8::encode_utf8(robot_id).len() + 2048
}

proof fn lemma_names_prefix(regions: Seq<BodyRegionDescriptor>, k: int)
    requires
        0 <= k <= regions.len(),
    ensures
        names_len(regions.take(k)) <= names_len(regions),
    decreases regions.len(),
{
    if k < regions.len() {
        lemma_names_prefix(regions.drop_last(), k);
        assert(regions.drop_last().take(k) =~= regions.take(k));
    } else {
        assert(regions.take(k) =~= regions);
    }
}

proof fn lemma_labels_prefix(cameras: Seq<CameraDescriptor>, k: int)
    requires
        0 <= k <= cameras.len(),
    ensures
        labels_len(cameras.take(k)) <= labels_len(cameras),
    decreases cameras.len(),
{
    if k < cameras.len() {
        lemma_labels_prefix(cameras.drop_last(), k);
        assert(cameras.drop_last().take(k) =~= cameras.take(k));
    } else {
        assert(cameras.take(k) =~= cameras);
    }
}

pub open spec fn joints_as_stored(joints: Seq<JointDescriptor>) -> Seq<JointDescriptor> {
    joints.map_values(|j: JointDescriptor| joint_as_stored(j))
}

fn write_joints(b: &mut Builder, joints: &Vec<JointDescriptor>) -> (items: Vec<u32>)
    requires
        fb::open_table(*old(b)) is None,
        fb::written(*old(b)).len() + 128 * joints@.len() + 512 <= MAX_BUFFER,
    ensures
        fb::open_table(*final(b)) is None,
        fb_table::grown(fb::written(*old(b)), fb::written(*final(b))),
        fb::written(*final(b)).len() <= fb::written(*old(b)).len() + 128 * joints@.len(),
        here_all_joints(fb::written(*final(b)), items@, joints_as_stored(joints@)),
{
    let ghost w0 = fb::written(*b);
    proof {
        fb_table::lemma_extends_refl(w0);
    }
    let mut items: Vec<u32> = Vec::new();
    let mut i: usize = 0;
    while i < joints.len()
        invariant
            i <= joints@.len(),
            fb::open_table(*b) is None,
            fb::extends(w0, fb::written(*b)),
            fb::written(*b).len() <= w0.len() + 128 * i,
            w0.len() + 128 * joints@.len() + 512 <= MAX_BUFFER,
            here_all_joints(fb::written(*b), items@, joints_as_stored(joints@).take(i as int)),
        decreases joints@.len() - i,
    {
        let ghost wi = fb::written(*b);
        let pos: u32 = write_joint(b, &joints[i]);
        proof {
            let done = joints_as_stored(joints@).take(i as int);
            lemma_all_joints_shift(wi, fb::written(*b), items@, done);
            assert(fb::extends(w0, fb::written(*b)));
        }
        let ghost had = items@;
        items.push(pos);
        proof {
            let all = joints_as_stored(joints@);
            assert forall|k: int| 0 <= k < items@.len() implies joint_here(
                fb::written(*b),
                (#[trigger] items@[k]) as int,
                all.take(i + 1)[k],
            ) by {
                if k < had.len() {
                    assert(items@[k] == had[k]);
                    assert(all.take(i as int)[k] == all.take(i + 1)[k]);
                }
            }
        }
        i = i + 1;
    }
    proof {
        fb_table::lemma_grown(w0, fb::written(*b));
        assert(joints_as_stored(joints@).take(i as int) =~= joints_as_stored(joints@));
    }
    items
}

fn write_regions(b: &mut Builder, regions: &Vec<BodyRegionDescriptor>) -> (items: Vec<u32>)
    requires
        fb::open_table(*old(b)) is None,
        fb::written(*old(b)).len() + 256 * regions@.len() + names_len(regions@) + 512 <= MAX_BUFFER,
    ensures
        fb::open_table(*final(b)) is None,
        fb_table::grown(fb::written(*old(b)), fb::written(*final(b))),
        fb::written(*final(b)).len() <= fb::written(*old(b)).len() + 256 * regions@.len()
            + names_len(regions@),
        here_all_regions(fb::written(*final(b)), items@, profile::region_views(regions@)),
{
    let ghost w0 = fb::written(*b);
    proof {
        fb_table::lemma_extends_refl(w0);
        assert(regions@.take(0) =~= Seq::<BodyRegionDescriptor>::empty());
    }
    let mut items: Vec<u32> = Vec::new();
    let mut i: usize = 0;
    while i < regions.len()
        invariant
            i <= regions@.len(),
            fb::open_table(*b) is None,
            fb::extends(w0, fb::written(*b)),
            fb::written(*b).len() <= w0.len() + 256 * i + names_len(regions@.take(i as int)),
            w0.len() + 256 * regions@.len() + names_len(regions@) + 512 <= MAX_BUFFER,
            here_all_regions(
                fb::written(*b),
                items@,
                profile::region_views(regions@).take(i as int),
            ),
        decreases regions@.len() - i,
    {
        let ghost wi = fb::written(*b);
        proof {
            let t = regions@.take(i + 1);
            assert(t.drop_last() =~= regions@.take(i as int));
            assert(t.last() == regions@[i as int]);
            lemma_names_prefix(regions@, i + 1);
        }
        let pos: u32 = write_region(b, &regions[i]);
        proof {
            let done = profile::region_views(regions@).take(i as int);
            lemma_all_regions_shift(wi, fb::written(*b), items@, done);
            assert(fb::extends(w0, fb::written(*b)));
        }
        let ghost had = items@;
        items.push(pos);
        proof {
            let all = profile::region_views(regions@);
            assert forall|k: int| 0 <= k < items@.len() implies region_here(
                fb::written(*b),
                (#[trigger] items@[k]) as int,
                all.take(i + 1)[k],
            ) by {
                if k < had.len() {
                    assert(items@[k] == had[k]);
                    assert(all.take(i as int)[k] == all.take(i + 1)[k]);
                }
            }
        }
        i = i + 1;
    }
    proof {
        fb_table::lemma_grown(w0, fb::written(*b));
        assert(regions@.take(i as int) =~= regions@);
        assert(profile::region_views(regions@).take(i as int) =~= profile::region_views(regions@));
    }
    items
}

fn write_cameras(b: &mut Builder, cameras: &Vec<CameraDescriptor>) -> (items: Vec<u32>)
    requires
        fb::open_table(*old(b)) is None,
        fb::written(*old(b)).len() + 256 * cameras@.len() + labels_len(cameras@) + 512
            <= MAX_BUFFER,
    ensures
        fb::open_table(*final(b)) is None,
        fb_table::grown(fb::written(*old(b)), fb::written(*final(b))),
        fb::written(*final(b)).len() <= fb::written(*old(b)).len() + 256 * cameras@.len()
            + labels_len(cameras@),
        here_all_cameras(fb::written(*final(b)), items@, profile::camera_views(cameras@)),
{
    let ghost w0 = fb::written(*b);
    proof {
        fb_table::lemma_extends_refl(w0);
        assert(cameras@.take(0) =~= Seq::<CameraDescriptor>::empty());
    }
    let mut items: Vec<u32> = Vec::new();
    let mut i: usize = 0;
    while i < cameras.len()
        invariant
            i <= cameras@.len(),
            fb::open_table(*b) is None,
            fb::extends(w0, fb::written(*b)),
            fb::written(*b).len() <= w0.len() + 256 * i + labels_len(cameras@.take(i as int)),
            w0.len() + 256 * cameras@.len() + labels_len(cameras@) + 512 <= MAX_BUFFER,
            here_all_cameras(
                fb::written(*b),
                items@,
                profile::camera_views(cameras@).take(i as int),
            ),
        decreases cameras@.len() - i,
    {
        let ghost wi = fb::written(*b);
        proof {
            let t = cameras@.take(i + 1);
            assert(t.drop_last() =~= cameras@.take(i as int));
            assert(t.last() == cameras@[i as int]);
            lemma_labels_prefix(cameras@, i + 1);
        }
        let pos: u32 = write_camera(b, &cameras[i]);
        proof {
            let done = profile::camera_views(cameras@).take(i as int);
            lemma_all_cameras_shift(wi, fb::written(*b), items@, done);
            assert(fb::extends(w0, fb::written(*b)));
        }
        let ghost had = items@;
        items.push(pos);
        proof {
            let all = profile::camera_views(cameras@);
            assert forall|k: int| 0 <= k < items@.len() implies camera_here(
                fb::written(*b),
                (#[trigger] items@[k]) as int,
                all.take(i + 1)[k],
            ) by {
                if k < had.len() {
                    assert(items@[k] == had[k]);
                    assert(all.take(i as int)[k] == all.take(i + 1)[k]);
                }
            }
        }
        i = i + 1;
    }
    proof {
        fb_table::lemma_grown(w0, fb::written(*b));
        assert(cameras@.take(i as int) =~= cameras@);
        assert(profile::camera_views(cameras@).take(i as int) =~= profile::camera_views(cameras@));
    }
    items
}

/// A profile as it comes out of a message.
pub open spec fn profile_as_stored(p: RobotProfile) -> profile::ProfileView {
    profile::ProfileView {
        dof_count: p.dof_count,
        joints: joints_as_stored(p.joints@),
        regions: profile::region_views(p.regions@),
        base_type: p.base_type,
    }
}

fn write_profile(b: &mut Builder, p: &RobotProfile) -> (pos: u32)
    requires
        fb::open_table(*old(b)) is None,
        fb::written(*old(b)).len() + 132 * p.joints@.len() + 260 * p.regions@.len() + names_len(
            p.regions@,
        ) + 1024 <= MAX_BUFFER,
    ensures
        fb::open_table(*final(b)) is None,
        fb_table::grown(fb::written(*old(b)), fb::written(*final(b))),
        fb::written(*final(b)).len() <= fb::written(*old(b)).len() + 132 * p.joints@.len() + 260
            * p.regions@.len() + names_len(p.regions@) + 256,
        0 < pos,
        profile_here(fb::written(*final(b)), pos as int, profile_as_stored(*p)),
{
    let ghost w0 = fb::written(*b);
    proof {
        fb_table::lemma_extends_refl(w0);
    }
    let joints: Vec<u32> = write_joints(b, &p.joints);
    let ghost w1 = fb::written(*b);
    proof {
        fb_table::lemma_extends_refl(w1);
        assert(fb::extends(w0, w1));
        assert forall|i: int| 0 <= i < joints@.len() implies #[trigger] joints@[i] <= w1.len() by {
            assert(joint_here(w1, joints@[i] as int, joints_as_stored(p.joints@)[i]));
        }
    }
    let joints_at: u32 = put_tables(b, joints.as_slice());
    let ghost w2 = fb::written(*b);
    proof {
        fb_table::lemma_extends_refl(w2);
    }
    let regions: Vec<u32> = write_regions(b, &p.regions);
    let ghost w3 = fb::written(*b);
    proof {
        fb_table::lemma_extends_refl(w3);
        assert forall|i: int| 0 <= i < regions@.len() implies #[trigger] regions@[i] <= w3.len() by {
            assert(region_here(w3, regions@[i] as int, profile::region_views(p.regions@)[i]));
        }
    }
    let regions_at: u32 = put_tables(b, regions.as_slice());
    let ghost w4 = fb::written(*b);
    proof {
        fb_table::lemma_extends_refl(w4);
    }
    let start: u32 = start_table(b);
    put_offset(b, 8, regions_at);
    put_offset(b, 6, joints_at);
    put_u16(b, 4, p.dof_count);
    put_u8(b, 10, to_fb_base_type(p.base_type));
    let ghost before = *b;
    proof {
        assert(fb_table::leads(before, 8, regions_at as int));
        assert(fb_table::leads(before, 6, joints_at as int));
        assert(fb_table::holds(before, 4, 2, p.dof_count as nat, 0));
        assert(fb_table::holds(before, 10, 1, p.base_type.number() as nat, 0));
    }
    let pos: u32 = end_table(b, start);
    proof {
        let w = fb::written(*b);
        let loc = w.len() - pos;
        assert(fb::extends(w0, w));
        assert(fb::extends(w1, w));
        assert(fb::extends(w2, w));
        assert(fb::extends(w3, w));
        assert(fb::extends(w4, w));
        fb_table::lemma_grown(w0, w);
        let js = joints_as_stored(p.joints@);
        let rs = profile::region_views(p.regions@);
        lemma_all_joints_shift(w1, w, joints@, js);
        lemma_all_regions_shift(w3, w, regions@, rs);
        fb_table::lemma_tables_here_shift(w2, w, joints_at as int, joints@);
        fb_table::lemma_tables_here_shift(w4, w, regions_at as int, regions@);
        assert forall|i: int| 0 <= i < joints@.len() implies fb::table_ok(
            w,
            w.len() - #[trigger] joints@[i],
        ) by {
            assert(joint_here(w, joints@[i] as int, js[i]));
        }
        assert forall|i: int| 0 <= i < regions@.len() implies fb::table_ok(
            w,
            w.len() - #[trigger] regions@[i],
        ) by {
            assert(region_here(w, regions@[i] as int, rs[i]));
        }
        lemma_slot_tables(w, loc, 6, joints_at as int, joints@);
        lemma_slot_tables(w, loc, 8, regions_at as int, regions@);
        let jl = fb::tables(w, loc, 6);
        let rl = fb::tables(w, loc, 8);
        assert forall|i: int| 0 <= i < jl.len() implies joint_ok(w, #[trigger] jl[i]) && joint_in(
            w,
            jl[i],
        ) == js[i] by {
            assert(joint_here(w, joints@[i] as int, js[i]));
        }
        assert forall|i: int| 0 <= i < rl.len() implies region_ok(w, #[trigger] rl[i])
            && region_in(w, rl[i]) == rs[i] by {
            assert(region_here(w, regions@[i] as int, rs[i]));
        }
        assert(joints_in(w, jl) =~= js);
        assert(regions_in(w, rl) =~= rs);
        assert(base_type_of(p.base_type.number()) == p.base_type);
    }
    pos
}

proof fn lemma_tables_shift(a: Seq<u8>, b: Seq<u8>, loc: int, slot: int)
    requires
        fb::extends(a, b),
        b.len() <= MAX_BUFFER,
        fb::table_ok(a, loc),
        0 <= slot,
        fb::tables_ok(a, loc, slot),
    ensures
        fb::tables_ok(b, b.len() - a.len() + loc, slot),
        fb::tables(b, b.len() - a.len() + loc, slot) == fb::tables(a, loc, slot).map_values(
            |l: int| b.len() - a.len() + l,
        ),
{
    let d = b.len() - a.len();
    fb_table::lemma_target_shift(a, b, loc, slot);
    match fb::target(a, loc, slot) {
        Some(at) => {
            fb_table::lemma_uint_shift(a, b, at, 4);
            assert forall|i: int| 0 <= i < fb::uint_at(b, d + at, 4) implies fb::table_ok(
                b,
                #[trigger] fb::element(b, d + at, i),
            ) && fb::element(b, d + at, i) == d + fb::element(a, at, i) by {
                fb_table::lemma_uint_shift(a, b, at + 4 + 4 * i, 4);
                assert(d + (at + 4 + 4 * i) == d + at + 4 + 4 * i);
                assert(fb::table_ok(a, fb::element(a, at, i)));
                fb_table::lemma_table_shift(a, b, fb::element(a, at, i));
            }
            assert(fb::tables(b, d + loc, slot) =~= fb::tables(a, loc, slot).map_values(
                |l: int| d + l,
            ));
        },
        None => {
            assert(fb::tables(b, d + loc, slot) =~= fb::tables(a, loc, slot).map_values(
                |l: int| d + l,
            ));
        },
    }
}

proof fn lemma_profile_shift(a: Seq<u8>, b: Seq<u8>, pos: int, p: profile::ProfileView)
    requires
        fb::extends(a, b),
        b.len() <= MAX_BUFFER,
        profile_here(a, pos, p),
    ensures
        profile_here(b, pos, p),
{
    let loc = a.len() - pos;
    let d = b.len() - a.len();
    assert(d + loc == b.len() - pos);
    fb_table::lemma_table_shift(a, b, loc);
    fb_table::lemma_scalar_shift(a, b, loc, 4, 2, 0);
    fb_table::lemma_scalar_shift(a, b, loc, 10, 1, 0);
    lemma_tables_shift(a, b, loc, 6);
    lemma_tables_shift(a, b, loc, 8);
    let ja = fb::tables(a, loc, 6);
    let jb = fb::tables(b, d + loc, 6);
    assert forall|i: int| 0 <= i < jb.len() implies joint_ok(b, #[trigger] jb[i]) && joint_in(
        b,
        jb[i],
    ) == joint_in(a, ja[i]) by {
        assert(joint_ok(a, ja[i]));
        lemma_joint_shift(a, b, a.len() - ja[i], joint_in(a, ja[i]));
        assert(jb[i] == b.len() - (a.len() - ja[i]));
    }
    assert(joints_in(b, jb) =~= joints_in(a, ja));
    let ra = fb::tables(a, loc, 8);
    let rb = fb::tables(b, d + loc, 8);
    assert forall|i: int| 0 <= i < rb.len() implies region_ok(b, #[trigger] rb[i]) && region_in(
        b,
        rb[i],
    ) == region_in(a, ra[i]) by {
        assert(region_ok(a, ra[i]));
        lemma_region_shift(a, b, a.len() - ra[i], region_in(a, ra[i]));
        assert(rb[i] == b.len() - (a.len() - ra[i]));
    }
    assert(regions_in(b, rb) =~= regions_in(a, ra));
}

/// What a robot's description says of it: every joint, region and camera, under
/// the hash of the profile.
pub open spec fn described(
    robot_id: Seq<char>,
    p: RobotProfile,
    cameras: Seq<CameraDescriptor>,
) -> DescribeView {
    DescribeView {
        robot_id,
        profile_hash: profile::fnv1a(profile::canonical_bytes(p)),
        profile: profile_as_stored(p),
        cameras: profile::camera_views(cameras),
    }
}

/// Does `s` describe this robot?
pub open spec fn describes(
    s: Seq<u8>,
    robot_id: Seq<char>,
    p: RobotProfile,
    cameras: Seq<CameraDescriptor>,
) -> bool {
    describe_ok(s) && describe_in(s) == described(robot_id, p, cameras)
}

/// A robot's description of itself.
pub fn encode_session_describe(
    robot_id: &str,
    profile: &RobotProfile,
    cameras: &Vec<CameraDescriptor>,
) -> (out: Vec<u8>)
    requires
        describe_bound(robot_id@, *profile, cameras@) <= MAX_BUFFER,
    ensures
        describes(out@, robot_id@, *profile, cameras@),
        out@.len() <= describe_bound(robot_id@, *profile, cameras@),
{
    let mut b = fb_new();
    let profile_at: u32 = write_profile(&mut b, profile);
    let ghost w1 = fb::written(b);
    proof {
        fb_table::lemma_extends_refl(w1);
    }
    let items: Vec<u32> = write_cameras(&mut b, cameras);
    let ghost w2 = fb::written(b);
    proof {
        fb_table::lemma_extends_refl(w2);
        assert forall|i: int| 0 <= i < items@.len() implies #[trigger] items@[i] <= w2.len() by {
            assert(camera_here(w2, items@[i] as int, profile::camera_views(cameras@)[i]));
        }
    }
    let cameras_at: u32 = put_tables(&mut b, items.as_slice());
    let ghost w3 = fb::written(b);
    proof {
        fb_table::lemma_extends_refl(w3);
    }
    let robot_at: u32 = put_string(&mut b, robot_id);
    let ghost w4 = fb::written(b);
    proof {
        fb_table::lemma_extends_refl(w4);
    }
    let hash: u64 = profile.profile_hash();
    let start: u32 = start_table(&mut b);
    put_u64(&mut b, 6, hash);
    put_offset(&mut b, 10, cameras_at);
    put_offset(&mut b, 8, profile_at);
    put_offset(&mut b, 4, robot_at);
    let ghost before = b;
    proof {
        assert(fb_table::holds(before, 6, 8, hash as nat, 0));
        assert(fb_table::leads(before, 10, cameras_at as int));
        assert(fb_table::leads(before, 8, profile_at as int));
        assert(fb_table::leads(before, 4, robot_at as int));
    }
    let pos: u32 = end_table(&mut b, start);
    let ghost w = fb::written(b);
    proof {
        assert(fb::extends(w1, w));
        assert(fb::extends(w2, w));
        assert(fb::extends(w3, w));
        assert(fb::extends(w4, w));
    }
    proof {
        lemma_all_cameras_shift(w2, w, items@, profile::camera_views(cameras@));
        fb_table::lemma_tables_here_shift(w3, w, cameras_at as int, items@);
        fb_table::lemma_bytes_here_shift(
            w4,
            w,
            robot_at as int,
            vstd::utf8::encode_utf8(robot_id@),
        );
        lemma_profile_shift(w1, w, profile_at as int, profile_as_stored(*profile));
    }
    let out: Vec<u8> = finish(b, pos);
    proof {
        lemma_described(
            w,
            out@,
            pos as int,
            DescribeParts {
                profile_at: profile_at as int,
                cameras_at: cameras_at as int,
                robot_at: robot_at as int,
                items: items@,
            },
            DescribeView {
                robot_id: robot_id@,
                profile_hash: hash,
                profile: profile_as_stored(*profile),
                cameras: profile::camera_views(cameras@),
            },
        );
    }
    out
}

/// Where the parts of a description were written.
struct DescribeParts {
    profile_at: int,
    cameras_at: int,
    robot_at: int,
    items: Seq<u32>,
}

proof fn lemma_described(w: Seq<u8>, out: Seq<u8>, pos: int, at: DescribeParts, v: DescribeView)
    requires
        fb::extends(w, out),
        out.len() <= MAX_BUFFER,
        0 < pos <= w.len(),
        fb::root_ok(out),
        fb::root(out) == out.len() - pos,
        fb::table_ok(w, w.len() - pos),
        fb::scalar_ok(w, w.len() - pos, 6, 8),
        fb::scalar(w, w.len() - pos, 6, 8, 0) == v.profile_hash,
        fb::scalar_ok(w, w.len() - pos, 10, 4),
        fb::target(w, w.len() - pos, 10) == Some(w.len() - at.cameras_at),
        fb::scalar_ok(w, w.len() - pos, 8, 4),
        fb::target(w, w.len() - pos, 8) == Some(w.len() - at.profile_at),
        fb::scalar_ok(w, w.len() - pos, 4, 4),
        fb::target(w, w.len() - pos, 4) == Some(w.len() - at.robot_at),
        profile_here(w, at.profile_at, v.profile),
        here_all_cameras(w, at.items, v.cameras),
        fb_table::tables_here(w, at.cameras_at, at.items),
        fb_table::bytes_here(w, at.robot_at, vstd::utf8::encode_utf8(v.robot_id)),
    ensures
        describe_ok(out),
        describe_in(out) == v,
{
    let loc = w.len() - pos;
    let t = fb::root(out);
    let d = out.len() - w.len();
    assert(d + loc == t);
    lemma_cameras_described(w, out, loc, at.cameras_at, at.items, v.cameras);
    assert(fb::bytes_ok(w, loc, 4));
    lemma_profile_shift(w, out, at.profile_at, v.profile);
    fb_table::lemma_target_shift(w, out, loc, 8);
    fb_table::lemma_bytes_shift(w, out, loc, 4);
    fb_table::lemma_string_of_bytes(out, t, 4, v.robot_id);
    fb_table::lemma_scalar_shift(w, out, loc, 6, 8, 0);
    assert(profile_place(out) == Some(out.len() - at.profile_at));
}

proof fn lemma_cameras_described(
    w: Seq<u8>,
    out: Seq<u8>,
    loc: int,
    cameras_at: int,
    items: Seq<u32>,
    cameras: Seq<profile::CameraView>,
)
    requires
        fb::extends(w, out),
        out.len() <= MAX_BUFFER,
        fb::table_ok(w, loc),
        fb::scalar_ok(w, loc, 10, 4),
        fb::target(w, loc, 10) == Some(w.len() - cameras_at),
        here_all_cameras(w, items, cameras),
        fb_table::tables_here(w, cameras_at, items),
    ensures
        fb::tables_ok(out, out.len() - w.len() + loc, 10),
        all_cameras_ok(out, fb::tables(out, out.len() - w.len() + loc, 10)),
        cameras_in(out, fb::tables(out, out.len() - w.len() + loc, 10)) == cameras,
{
    let t = out.len() - w.len() + loc;
    assert forall|i: int| 0 <= i < items.len() implies fb::table_ok(
        w,
        w.len() - #[trigger] items[i],
    ) by {
        assert(camera_here(w, items[i] as int, cameras[i]));
    }
    lemma_slot_tables(w, loc, 10, cameras_at, items);
    lemma_tables_shift(w, out, loc, 10);
    lemma_all_cameras_shift(w, out, items, cameras);
    let locs = fb::tables(out, t, 10);
    assert forall|i: int| 0 <= i < locs.len() implies camera_ok(out, #[trigger] locs[i])
        && camera_in(out, locs[i]) == cameras[i] by {
        assert(camera_here(out, items[i] as int, cameras[i]));
        assert(fb::tables(w, loc, 10)[i] == w.len() - items[i]);
    }
    assert(cameras_in(out, locs) =~= cameras);
}

// Reading.

/// A received session description.
#[derive(Debug)]
pub struct SessionDescribeInfo {
    pub robot_id: String,
    pub profile_hash: u64,
    pub profile: RobotProfile,
    pub cameras: Vec<CameraDescriptor>,
}

impl View for SessionDescribeInfo {
    type V = DescribeView;

    open spec fn view(&self) -> DescribeView {
        DescribeView {
            robot_id: self.robot_id@,
            profile_hash: self.profile_hash,
            profile: self.profile@,
            cameras: profile::camera_views(self.cameras@),
        }
    }
}

fn check_joint(buf: &[u8], loc: usize) -> (ok: bool)
    ensures
        ok == joint_ok(buf@, loc as int),
{
    check_table(buf, loc) && check_scalar(buf, loc, 4, 4) && check_scalar(buf, loc, 6, 4)
        && check_scalar(buf, loc, 8, 4) && check_scalar(buf, loc, 10, 1) && check_scalar(
        buf,
        loc,
        12,
        1,
    )
}

fn read_joint(buf: &[u8], loc: usize) -> (j: JointDescriptor)
    requires
        joint_ok(buf@, loc as int),
    ensures
        j == joint_in(buf@, loc as int),
{
    JointDescriptor {
        min_limit_bits: fb_get_u32(buf, loc, 4, 0),
        max_limit_bits: fb_get_u32(buf, loc, 6, 0),
        max_velocity_bits: fb_get_u32(buf, loc, 8, 0),
        has_torque_sensing: fb_get_bool(buf, loc, 10, false),
        region_id: fb_get_u8(buf, loc, 12, 0),
    }
}

fn check_region(buf: &[u8], loc: usize) -> (ok: bool)
    ensures
        ok == region_ok(buf@, loc as int),
{
    check_table(buf, loc) && check_scalar(buf, loc, 4, 1) && check_string(buf, loc, 6)
        && check_scalar(buf, loc, 8, 2) && check_scalar(buf, loc, 10, 2) && check_scalar(
        buf,
        loc,
        12,
        1,
    ) && check_scalar(buf, loc, 14, 1)
}

/// The string in `slot`, or an empty one.
fn string_or_empty(buf: &[u8], loc: usize, slot: u16) -> (text: String)
    requires
        fb::table_ok(buf@, loc as int),
        fb::string_ok(buf@, loc as int, slot as int),
    ensures
        text@ == fb::string(buf@, loc as int, slot as int),
{
    match fb_get_string(buf, loc, slot) {
        Some(text) => text,
        None => {
            proof {
                assert(fb::byte_vector(buf@, loc as int, slot as int) =~= Seq::<u8>::empty());
                assert(vstd::utf8::decode_utf8(Seq::<u8>::empty()) =~= Seq::<char>::empty());
            }
            String::new()
        },
    }
}

fn read_region(buf: &[u8], loc: usize) -> (r: BodyRegionDescriptor)
    requires
        region_ok(buf@, loc as int),
    ensures
        r@ == region_in(buf@, loc as int),
{
    BodyRegionDescriptor {
        region_id: fb_get_u8(buf, loc, 4, 0),
        name: string_or_empty(buf, loc, 6),
        joint_start: fb_get_u16(buf, loc, 8, 0),
        joint_count: fb_get_u16(buf, loc, 10, 0),
        has_force_torque_sensor: fb_get_bool(buf, loc, 12, false),
        command_shape: from_fb_command_shape(fb_get_u8(buf, loc, 14, 0)),
    }
}

fn check_camera(buf: &[u8], loc: usize) -> (ok: bool)
    ensures
        ok == camera_ok(buf@, loc as int),
{
    check_table(buf, loc) && check_scalar(buf, loc, 4, 1) && check_string(buf, loc, 6)
        && check_scalar(buf, loc, 8, 1) && check_scalar(buf, loc, 10, 2) && check_scalar(
        buf,
        loc,
        12,
        2,
    ) && check_scalar(buf, loc, 14, 1) && check_scalar(buf, loc, 16, 4) && check_scalar(
        buf,
        loc,
        18,
        4,
    )
}

fn read_camera(buf: &[u8], loc: usize) -> (c: CameraDescriptor)
    requires
        camera_ok(buf@, loc as int),
    ensures
        c@ == camera_in(buf@, loc as int),
{
    CameraDescriptor {
        camera_id: fb_get_u8(buf, loc, 4, 0),
        label: string_or_empty(buf, loc, 6),
        codec: from_fb_codec(fb_get_u8(buf, loc, 8, 0)),
        resolution_w: fb_get_u16(buf, loc, 10, 0),
        resolution_h: fb_get_u16(buf, loc, 12, 0),
        max_fps: fb_get_u8(buf, loc, 14, 0),
        min_bitrate_kbps: fb_get_u32(buf, loc, 16, 0),
        max_bitrate_kbps: fb_get_u32(buf, loc, 18, 0),
    }
}

/// The joints in the vector in `slot`; `None` if one cannot be read.
fn read_joints(buf: &[u8], loc: usize, slot: u16) -> (r: Option<Vec<JointDescriptor>>)
    requires
        fb::table_ok(buf@, loc as int),
        fb::tables_ok(buf@, loc as int, slot as int),
    ensures
        match r {
            Some(joints) => all_joints_ok(buf@, fb::tables(buf@, loc as int, slot as int))
                && joints@ == joints_in(buf@, fb::tables(buf@, loc as int, slot as int)),
            None => !all_joints_ok(buf@, fb::tables(buf@, loc as int, slot as int)),
        },
{
    let ghost locs = fb::tables(buf@, loc as int, slot as int);
    let n: usize = match fb_tables_len(buf, loc, slot) {
        Some(n) => n,
        None => 0,
    };
    let mut joints: Vec<JointDescriptor> = Vec::new();
    let mut i: usize = 0;
    while i < n
        invariant
            fb::table_ok(buf@, loc as int),
            fb::tables_ok(buf@, loc as int, slot as int),
            locs == fb::tables(buf@, loc as int, slot as int),
            n == locs.len(),
            i <= n,
            forall|k: int| 0 <= k < i ==> joint_ok(buf@, #[trigger] locs[k]),
            joints@ =~= joints_in(buf@, locs.take(i as int)),
        decreases n - i,
    {
        let at: usize = fb_tables_get(buf, loc, slot, i);
        if !check_joint(buf, at) {
            assert(!joint_ok(buf@, locs[i as int]));
            return None;
        }
        joints.push(read_joint(buf, at));
        i = i + 1;
    }
    assert(locs.take(i as int) =~= locs);
    Some(joints)
}

/// The regions in the vector in `slot`; `None` if one cannot be read.
fn read_regions(buf: &[u8], loc: usize, slot: u16) -> (r: Option<Vec<BodyRegionDescriptor>>)
    requires
        fb::table_ok(buf@, loc as int),
        fb::tables_ok(buf@, loc as int, slot as int),
    ensures
        match r {
            Some(regions) => all_regions_ok(buf@, fb::tables(buf@, loc as int, slot as int))
                && profile::region_views(regions@) == regions_in(
                buf@,
                fb::tables(buf@, loc as int, slot as int),
            ),
            None => !all_regions_ok(buf@, fb::tables(buf@, loc as int, slot as int)),
        },
{
    let ghost locs = fb::tables(buf@, loc as int, slot as int);
    let n: usize = match fb_tables_len(buf, loc, slot) {
        Some(n) => n,
        None => 0,
    };
    let mut regions: Vec<BodyRegionDescriptor> = Vec::new();
    let mut i: usize = 0;
    while i < n
        invariant
            fb::table_ok(buf@, loc as int),
            fb::tables_ok(buf@, loc as int, slot as int),
            locs == fb::tables(buf@, loc as int, slot as int),
            n == locs.len(),
            i <= n,
            forall|k: int| 0 <= k < i ==> region_ok(buf@, #[trigger] locs[k]),
            profile::region_views(regions@) =~= regions_in(buf@, locs.take(i as int)),
        decreases n - i,
    {
        let at: usize = fb_tables_get(buf, loc, slot, i);
        if !check_region(buf, at) {
            assert(!region_ok(buf@, locs[i as int]));
            return None;
        }
        let ghost had = profile::region_views(regions@);
        regions.push(read_region(buf, at));
        proof {
            assert(profile::region_views(regions@) =~= had.push(region_in(buf@, locs[i as int])));
            assert(regions_in(buf@, locs.take(i + 1)) =~= regions_in(buf@, locs.take(i as int)).push(
                region_in(buf@, locs[i as int]),
            ));
        }
        i = i + 1;
    }
    assert(locs.take(i as int) =~= locs);
    Some(regions)
}

/// The cameras in the vector in `slot`; `None` if one cannot be read.
fn read_cameras(buf: &[u8], loc: usize, slot: u16) -> (r: Option<Vec<CameraDescriptor>>)
    requires
        fb::table_ok(buf@, loc as int),
        fb::tables_ok(buf@, loc as int, slot as int),
    ensures
        match r {
            Some(cameras) => all_cameras_ok(buf@, fb::tables(buf@, loc as int, slot as int))
                && profile::camera_views(cameras@) == cameras_in(
                buf@,
                fb::tables(buf@, loc as int, slot as int),
            ),
            None => !all_cameras_ok(buf@, fb::tables(buf@, loc as int, slot as int)),
        },
{
    let ghost locs = fb::tables(buf@, loc as int, slot as int);
    let n: usize = match fb_tables_len(buf, loc, slot) {
        Some(n) => n,
        None => 0,
    };
    let mut cameras: Vec<CameraDescriptor> = Vec::new();
    let mut i: usize = 0;
    while i < n
        invariant
            fb::table_ok(buf@, loc as int),
            fb::tables_ok(buf@, loc as int, slot as int),
            locs == fb::tables(buf@, loc as int, slot as int),
            n == locs.len(),
            i <= n,
            forall|k: int| 0 <= k < i ==> camera_ok(buf@, #[trigger] locs[k]),
            profile::camera_views(cameras@) =~= cameras_in(buf@, locs.take(i as int)),
        decreases n - i,
    {
        let at: usize = fb_tables_get(buf, loc, slot, i);
        if !check_camera(buf, at) {
            assert(!camera_ok(buf@, locs[i as int]));
            return None;
        }
        let ghost had = profile::camera_views(cameras@);
        cameras.push(read_camera(buf, at));
        proof {
            assert(profile::camera_views(cameras@) =~= had.push(camera_in(buf@, locs[i as int])));
            assert(cameras_in(buf@, locs.take(i + 1)) =~= cameras_in(buf@, locs.take(i as int)).push(
                camera_in(buf@, locs[i as int]),
            ));
        }
        i = i + 1;
    }
    assert(locs.take(i as int) =~= locs);
    Some(cameras)
}

/// The profile at `loc`; `None` if it cannot be read.
fn read_profile(buf: &[u8], loc: usize) -> (r: Option<RobotProfile>)
    ensures
        match r {
            Some(p) => profile_ok(buf@, loc as int) && p@ == profile_in(buf@, loc as int),
            None => !profile_ok(buf@, loc as int),
        },
{
    if !(check_table(buf, loc) && check_scalar(buf, loc, 4, 2) && check_tables(buf, loc, 6)
        && check_tables(buf, loc, 8) && check_scalar(buf, loc, 10, 1)) {
        return None;
    }
    let joints = match read_joints(buf, loc, 6) {
        Some(joints) => joints,
        None => {
            return None;
        },
    };
    let regions = match read_regions(buf, loc, 8) {
        Some(regions) => regions,
        None => {
            return None;
        },
    };
    Some(
        RobotProfile {
            dof_count: fb_get_u16(buf, loc, 4, 0),
            joints,
            regions,
            base_type: from_fb_base_type(fb_get_u8(buf, loc, 10, 0)),
        },
    )
}

/// Where the robot profile would be; `None` if its slot is empty or leads
/// nowhere.
fn profile_table(buf: &[u8], root: usize) -> (r: Option<usize>)
    requires
        describe_head_ok(buf@),
        root == fb::root(buf@),
        profile_place(buf@) is Some,
    ensures
        match r {
            Some(at) => profile_place(buf@) == Some(at as int),
            None => !fb::table_ok(buf@, profile_place(buf@)->0),
        },
{
    match crate::fb_table::target_of(buf, root, 8) {
        Some(at) => {
            if at > MAX_BUFFER as u64 || !check_table(buf, at as usize) {
                return None;
            }
            fb_get_table(buf, root, 8)
        },
        None => None,
    }
}

/// What reading a description gives.
pub open spec fn description_in(s: Seq<u8>) -> Result<DescribeView, DecodeError> {
    if describe_ok(s) {
        Ok(describe_in(s))
    } else if describe_head_ok(s) && profile_place(s) is None {
        Err(DecodeError::MissingRobotProfile)
    } else {
        Err(DecodeError::Malformed)
    }
}

/// Are two single-precision numbers, given by their bit patterns, the same
/// pattern, or both zero?
pub open spec fn same_number(a: u32, b: u32) -> bool {
    a == b || (a % 0x8000_0000 == 0 && b % 0x8000_0000 == 0)
}

/// Are two joints the same, number by number?
pub open spec fn same_joint(a: JointDescriptor, b: JointDescriptor) -> bool {
    &&& same_number(a.min_limit_bits, b.min_limit_bits)
    &&& same_number(a.max_limit_bits, b.max_limit_bits)
    &&& same_number(a.max_velocity_bits, b.max_velocity_bits)
    &&& a.has_torque_sensing == b.has_torque_sensing
    &&& a.region_id == b.region_id
}

/// What a robot says of itself is what is read: its name, the hash of its
/// profile, all joints, regions and cameras in order, and its base. The one
/// thing that does not survive is the sign of a limit of zero.
pub proof fn lemma_description_round_trip(
    s: Seq<u8>,
    robot_id: Seq<char>,
    p: RobotProfile,
    cameras: Seq<CameraDescriptor>,
)
    requires
        describes(s, robot_id, p, cameras),
    ensures
        description_in(s) matches Ok(d) && {
            &&& d.robot_id == robot_id
            &&& d.profile_hash == profile::fnv1a(profile::canonical_bytes(p))
            &&& d.profile.dof_count == p.dof_count
            &&& d.profile.regions == profile::region_views(p.regions@)
            &&& d.profile.base_type == p.base_type
            &&& d.cameras == profile::camera_views(cameras)
            &&& d.profile.joints.len() == p.joints@.len()
            &&& forall|i: int|
                0 <= i < p.joints@.len() ==> same_joint(#[trigger] d.profile.joints[i], p.joints@[i])
            &&& (forall|i: int|
                0 <= i < p.joints@.len() ==> joint_as_stored(#[trigger] p.joints@[i])
                    == p.joints@[i]) ==> d.profile == p@
        },
{
    let d = describe_in(s);
    assert forall|i: int| 0 <= i < p.joints@.len() implies same_joint(
        #[trigger] d.profile.joints[i],
        p.joints@[i],
    ) by {
        assert(d.profile.joints[i] == joint_as_stored(p.joints@[i]));
    }
    if forall|i: int|
        0 <= i < p.joints@.len() ==> joint_as_stored(#[trigger] p.joints@[i]) == p.joints@[i] {
        assert(d.profile.joints =~= p.joints@);
    }
}

/// Reads a session description. A readable root without a robot profile is
/// reported as such; every other failure means that an offset leads outside.
pub fn decode_session_describe(buf: &[u8]) -> (r: Result<SessionDescribeInfo, DecodeError>)
    ensures
        match r {
            Ok(info) => description_in(buf@) == Ok::<DescribeView, DecodeError>(info@),
            Err(e) => description_in(buf@) == Err::<DescribeView, DecodeError>(e),
        },
{
    if !check_root(buf) {
        return Err(DecodeError::Malformed);
    }
    let t: usize = fb_root(buf);
    if !check_scalar(buf, t, 8, 4) {
        return Err(DecodeError::Malformed);
    }
    if crate::fb_table::target_of(buf, t, 8).is_none() {
        return Err(DecodeError::MissingRobotProfile);
    }
    let at: usize = match profile_table(buf, t) {
        Some(at) => at,
        None => {
            return Err(DecodeError::Malformed);
        },
    };
    let profile = match read_profile(buf, at) {
        Some(profile) => profile,
        None => {
            return Err(DecodeError::Malformed);
        },
    };
    if !(check_string(buf, t, 4) && check_scalar(buf, t, 6, 8) && check_tables(buf, t, 10)) {
        return Err(DecodeError::Malformed);
    }
    let cameras = match read_cameras(buf, t, 10) {
        Some(cameras) => cameras,
        None => {
            return Err(DecodeError::Malformed);
        },
    };
    Ok(
        SessionDescribeInfo {
            robot_id: string_or_empty(buf, t, 4),
            profile_hash: fb_get_u64(buf, t, 6, 0),
            profile,
            cameras,
        },
    )
}

// Acceptance.

/// A received acceptance.
#[derive(Debug)]
pub struct SessionAcceptInfo {
    pub profile_hash: u64,
    pub cached: bool,
    pub selected_regions: Vec<u8>,
    pub selected_cameras: Vec<u8>,
}

/// An acceptance as a mathematical value.
pub struct AcceptView {
    pub profile_hash: u64,
    pub cached: bool,
    pub selected_regions: Seq<u8>,
    pub selected_cameras: Seq<u8>,
}

impl View for SessionAcceptInfo {
    type V = AcceptView;

    open spec fn view(&self) -> AcceptView {
        AcceptView {
            profile_hash: self.profile_hash,
            cached: self.cached,
            selected_regions: self.selected_regions@,
            selected_cameras: self.selected_cameras@,
        }
    }
}

/// Can an acceptance be read from `s`?
pub open spec fn accept_ok(s: Seq<u8>) -> bool {
    let t = fb::root(s);
    &&& fb::root_ok(s)
    &&& fb::scalar_ok(s, t, 4, 8)
    &&& fb::scalar_ok(s, t, 6, 1)
    &&& fb::bytes_ok(s, t, 8)
    &&& fb::bytes_ok(s, t, 12)
}

/// The acceptance in `s`.
pub open spec fn accept_in(s: Seq<u8>) -> AcceptView {
    let t = fb::root(s);
    AcceptView {
        profile_hash: fb::scalar(s, t, 4, 8, 0) as u64,
        cached: fb::scalar(s, t, 6, 1, 0) != 0,
        selected_regions: fb::byte_vector(s, t, 8),
        selected_cameras: fb::byte_vector(s, t, 12),
    }
}

/// The (category, bytes per field) pairs that an acceptance selects.
pub open spec fn accept_tiers(s: Seq<u8>) -> Seq<(u8, u8)> {
    fb::tables(s, fb::root(s), 10).map_values(|l: int| tier_in(s, l))
}

pub open spec fn tier_ok(s: Seq<u8>, loc: int) -> bool {
    &&& fb::table_ok(s, loc)
    &&& fb::scalar_ok(s, loc, 4, 1)
    &&& fb::scalar_ok(s, loc, 6, 1)
}

pub open spec fn tier_in(s: Seq<u8>, loc: int) -> (u8, u8) {
    (fb::scalar(s, loc, 4, 1, 0) as u8, fb::scalar(s, loc, 6, 1, 0) as u8)
}

spec fn tier_here(w: Seq<u8>, pos: int, q: (u8, u8)) -> bool {
    &&& 0 <= pos <= w.len()
    &&& tier_ok(w, w.len() - pos)
    &&& tier_in(w, w.len() - pos) == q
}

proof fn lemma_tier_shift(a: Seq<u8>, b: Seq<u8>, pos: int, q: (u8, u8))
    requires
        fb::extends(a, b),
        b.len() <= MAX_BUFFER,
        tier_here(a, pos, q),
    ensures
        tier_here(b, pos, q),
{
    let loc = a.len() - pos;
    assert(b.len() - a.len() + loc == b.len() - pos);
    fb_table::lemma_table_shift(a, b, loc);
    fb_table::lemma_scalar_shift(a, b, loc, 4, 1, 0);
    fb_table::lemma_scalar_shift(a, b, loc, 6, 1, 0);
}

fn write_tier(b: &mut Builder, category: u8, tier: u8) -> (pos: u32)
    requires
        fb::open_table(*old(b)) is None,
        fb::written(*old(b)).len() + 256 <= MAX_BUFFER,
    ensures
        fb::open_table(*final(b)) is None,
        fb_table::grown(fb::written(*old(b)), fb::written(*final(b))),
        fb::written(*final(b)).len() <= fb::written(*old(b)).len() + 96,
        tier_here(fb::written(*final(b)), pos as int, (category, tier)),
{
    let ghost w0 = fb::written(*b);
    proof {
        fb_table::lemma_extends_refl(w0);
    }
    let start: u32 = start_table(b);
    put_u8(b, 6, tier);
    put_u8(b, 4, category);
    let ghost before = *b;
    proof {
        assert(fb_table::holds(before, 6, 1, tier as nat, 0));
        assert(fb_table::holds(before, 4, 1, category as nat, 0));
    }
    let pos: u32 = end_table(b, start);
    proof {
        assert(fb::extends(w0, fb::written(*b)));
        fb_table::lemma_grown(w0, fb::written(*b));
    }
    pos
}

/// The vector at `pos` leads to one entry per category, each at the standard
/// tier.
spec fn tiers_here(w: Seq<u8>, pos: int, items: Seq<u32>) -> bool {
    &&& fb_table::tables_here(w, pos, items)
    &&& items.len() == 3
    &&& tier_here(w, items[0] as int, (0u8, 2u8))
    &&& tier_here(w, items[1] as int, (1u8, 2u8))
    &&& tier_here(w, items[2] as int, (2u8, 2u8))
}

proof fn lemma_tiers_shift(a: Seq<u8>, b: Seq<u8>, pos: int, items: Seq<u32>)
    requires
        fb::extends(a, b),
        b.len() <= MAX_BUFFER,
        tiers_here(a, pos, items),
    ensures
        tiers_here(b, pos, items),
{
    fb_table::lemma_tables_here_shift(a, b, pos, items);
    lemma_tier_shift(a, b, items[0] as int, (0u8, 2u8));
    lemma_tier_shift(a, b, items[1] as int, (1u8, 2u8));
    lemma_tier_shift(a, b, items[2] as int, (2u8, 2u8));
}

/// Selects the standard tier for commands, telemetry and haptics.
fn write_tiers(b: &mut Builder) -> (r: (u32, Vec<u32>))
    requires
        fb::open_table(*old(b)) is None,
        fb::written(*old(b)).len() + 640 <= MAX_BUFFER,
    ensures
        fb::open_table(*final(b)) is None,
        fb_table::grown(fb::written(*old(b)), fb::written(*final(b))),
        fb::written(*final(b)).len() <= fb::written(*old(b)).len() + 384,
        r.0 <= fb::written(*final(b)).len(),
        tiers_here(fb::written(*final(b)), r.0 as int, r.1@),
{
    let ghost w0 = fb::written(*b);
    proof {
        fb_table::lemma_extends_refl(w0);
    }
    let tier: u8 = crate::sizing::QuantizationTier::Standard.bytes_per_field() as u8;
    let q0: u32 = write_tier(b, 0, tier);
    let ghost t0 = fb::written(*b);
    proof {
        fb_table::lemma_extends_refl(t0);
    }
    let q1: u32 = write_tier(b, 1, tier);
    let ghost t1 = fb::written(*b);
    proof {
        fb_table::lemma_extends_refl(t1);
    }
    let q2: u32 = write_tier(b, 2, tier);
    let ghost t2 = fb::written(*b);
    proof {
        fb_table::lemma_extends_refl(t2);
    }
    let mut items: Vec<u32> = Vec::new();
    items.push(q0);
    items.push(q1);
    items.push(q2);
    let pos: u32 = put_tables(b, items.as_slice());
    proof {
        let w = fb::written(*b);
        assert(fb::extends(w0, w));
        assert(fb::extends(t0, w));
        assert(fb::extends(t1, w));
        assert(fb::extends(t2, w));
        fb_table::lemma_grown(w0, w);
        lemma_tier_shift(t0, w, q0 as int, (0u8, 2u8));
        lemma_tier_shift(t1, w, q1 as int, (1u8, 2u8));
        lemma_tier_shift(t2, w, q2 as int, (2u8, 2u8));
    }
    (pos, items)
}

pub open spec fn region_ids(regions: Seq<BodyRegionDescriptor>) -> Seq<u8> {
    regions.map_values(|r: BodyRegionDescriptor| r.region_id)
}

pub open spec fn camera_ids(cameras: Seq<CameraDescriptor>) -> Seq<u8> {
    cameras.map_values(|c: CameraDescriptor| c.camera_id)
}

fn ids_of_regions(regions: &Vec<BodyRegionDescriptor>) -> (ids: Vec<u8>)
    ensures
        ids@ == region_ids(regions@),
{
    let mut ids: Vec<u8> = Vec::new();
    let mut i: usize = 0;
    while i < regions.len()
        invariant
            i <= regions@.len(),
            ids@ =~= region_ids(regions@.take(i as int)),
        decreases regions@.len() - i,
    {
        ids.push(regions[i].region_id);
        i = i + 1;
    }
    assert(regions@.take(i as int) =~= regions@);
    ids
}

fn ids_of_cameras(cameras: &Vec<CameraDescriptor>) -> (ids: Vec<u8>)
    ensures
        ids@ == camera_ids(cameras@),
{
    let mut ids: Vec<u8> = Vec::new();
    let mut i: usize = 0;
    while i < cameras.len()
        invariant
            i <= cameras@.len(),
            ids@ =~= camera_ids(cameras@.take(i as int)),
        decreases cameras@.len() - i,
    {
        ids.push(cameras[i].camera_id);
        i = i + 1;
    }
    assert(cameras@.take(i as int) =~= cameras@);
    ids
}

/// Accepts everything that was described, at the standard tier in every
/// category.
pub fn encode_session_accept_full(info: &SessionDescribeInfo, cached: bool) -> (out: Vec<u8>)
    requires
        info.profile.regions@.len() + info.cameras@.len() + 1280 <= MAX_BUFFER,
    ensures
        accept_ok(out@),
        accept_in(out@) == (AcceptView {
            profile_hash: info.profile_hash,
            cached,
            selected_regions: region_ids(info.profile.regions@),
            selected_cameras: camera_ids(info.cameras@),
        }),
        accept_tiers(out@) == seq![(0u8, 2u8), (1u8, 2u8), (2u8, 2u8)],
{
    let mut b = fb_new();
    let regions: Vec<u8> = ids_of_regions(&info.profile.regions);
    let regions_at: u32 = put_bytes(&mut b, regions.as_slice());
    let ghost w1 = fb::written(b);
    proof {
        fb_table::lemma_extends_refl(w1);
    }
    let (tiers_at, items): (u32, Vec<u32>) = write_tiers(&mut b);
    let ghost w2 = fb::written(b);
    proof {
        fb_table::lemma_extends_refl(w2);
    }
    let cameras: Vec<u8> = ids_of_cameras(&info.cameras);
    let cameras_at: u32 = put_bytes(&mut b, cameras.as_slice());
    let ghost w3 = fb::written(b);
    proof {
        fb_table::lemma_extends_refl(w3);
    }
    let start: u32 = start_table(&mut b);
    put_u64(&mut b, 4, info.profile_hash);
    put_offset(&mut b, 12, cameras_at);
    put_offset(&mut b, 10, tiers_at);
    put_offset(&mut b, 8, regions_at);
    put_bool(&mut b, 6, cached);
    let ghost before = b;
    proof {
        assert(fb_table::holds(before, 4, 8, info.profile_hash as nat, 0));
        assert(fb_table::leads(before, 12, cameras_at as int));
        assert(fb_table::leads(before, 10, tiers_at as int));
        assert(fb_table::leads(before, 8, regions_at as int));
        assert(fb_table::holds(before, 6, 1, if cached { 1 } else { 0 }, 0));
    }
    let pos: u32 = end_table(&mut b, start);
    let ghost w = fb::written(b);
    let out: Vec<u8> = finish(b, pos);
    proof {
        let loc = w.len() - pos;
        assert(fb::extends(w1, w));
        assert(fb::extends(w2, w));
        assert(fb::extends(w3, w));
        fb_table::lemma_bytes_here_shift(w1, w, regions_at as int, regions@);
        fb_table::lemma_bytes_here_shift(w3, w, cameras_at as int, cameras@);
        assert(out@.len() - w.len() + loc == fb::root(out@));
        fb_table::lemma_bytes_shift(w, out@, loc, 8);
        fb_table::lemma_bytes_shift(w, out@, loc, 12);
        lemma_tiers_shift(w2, w, tiers_at as int, items@);
        lemma_tiers_described(w, out@, loc, tiers_at as int, items@);
    }
    out
}

proof fn lemma_tiers_described(
    w: Seq<u8>,
    out: Seq<u8>,
    loc: int,
    tiers_at: int,
    items: Seq<u32>,
)
    requires
        fb::extends(w, out),
        out.len() <= MAX_BUFFER,
        out.len() - w.len() + loc == fb::root(out),
        fb::table_ok(w, loc),
        fb::scalar_ok(w, loc, 10, 4),
        fb::target(w, loc, 10) == Some(w.len() - tiers_at),
        tiers_here(w, tiers_at, items),
    ensures
        accept_tiers(out) == seq![(0u8, 2u8), (1u8, 2u8), (2u8, 2u8)],
{
    lemma_slot_tables(w, loc, 10, tiers_at, items);
    lemma_tables_shift(w, out, loc, 10);
    lemma_tier_shift(w, out, items[0] as int, (0u8, 2u8));
    lemma_tier_shift(w, out, items[1] as int, (1u8, 2u8));
    lemma_tier_shift(w, out, items[2] as int, (2u8, 2u8));
    let locs = fb::tables(out, fb::root(out), 10);
    assert(locs.len() == 3);
    assert(locs[0] == out.len() - items[0]);
    assert(locs[1] == out.len() - items[1]);
    assert(locs[2] == out.len() - items[2]);
    assert(accept_tiers(out) =~= seq![(0u8, 2u8), (1u8, 2u8), (2u8, 2u8)]);
}

/// Reads an acceptance; an error exactly if it cannot be read.
pub fn decode_session_accept(buf: &[u8]) -> (r: Result<SessionAcceptInfo, DecodeError>)
    ensures
        match r {
            Ok(info) => accept_ok(buf@) && info@ == accept_in(buf@),
            Err(e) => !accept_ok(buf@) && e == DecodeError::Malformed,
        },
{
    if !check_root(buf) {
        return Err(DecodeError::Malformed);
    }
    let t: usize = fb_root(buf);
    if !(check_scalar(buf, t, 4, 8) && check_scalar(buf, t, 6, 1) && check_bytes(buf, t, 8)
        && check_bytes(buf, t, 12)) {
        return Err(DecodeError::Malformed);
    }
    Ok(
        SessionAcceptInfo {
            profile_hash: fb_get_u64(buf, t, 4, 0),
            cached: fb_get_bool(buf, t, 6, false),
            selected_regions: bytes_or_empty(buf, t, 8),
            selected_cameras: bytes_or_empty(buf, t, 12),
        },
    )
}

/// The bytes in `slot`, or none.
fn bytes_or_empty(buf: &[u8], loc: usize, slot: u16) -> (v: Vec<u8>)
    requires
        fb::table_ok(buf@, loc as int),
        fb::bytes_ok(buf@, loc as int, slot as int),
    ensures
        v@ == fb::byte_vector(buf@, loc as int, slot as int),
{
    match fb_get_bytes(buf, loc, slot) {
        Some(v) => v,
        None => {
            assert(fb::byte_vector(buf@, loc as int, slot as int) =~= Seq::<u8>::empty());
            Vec::new()
        },
    }
}

/// Where the parts of a description are, by the places of the message's tables.
pub proof fn lemma_places_of_a_description(s: Seq<u8>, loc: int)
    ensures
        describe_in(s).robot_id == fb::string(s, fb::root(s), 4),
        describe_in(s).profile_hash == fb::scalar(s, fb::root(s), 6, 8, 0) as u64,
        profile_in(s, loc).dof_count == fb::scalar(s, loc, 4, 2, 0) as u16,
        joint_in(s, loc).min_limit_bits == fb::scalar(s, loc, 4, 4, 0) as u32,
        joint_in(s, loc).max_limit_bits == fb::scalar(s, loc, 6, 4, 0) as u32,
        joint_in(s, loc).max_velocity_bits == fb::scalar(s, loc, 8, 4, 0) as u32,
        joint_in(s, loc).has_torque_sensing <==> fb::scalar(s, loc, 10, 1, 0) != 0,
        joint_in(s, loc).region_id == fb::scalar(s, loc, 12, 1, 0) as u8,
        region_in(s, loc).region_id == fb::scalar(s, loc, 4, 1, 0) as u8,
        region_in(s, loc).name == fb::string(s, loc, 6),
        region_in(s, loc).joint_start == fb::scalar(s, loc, 8, 2, 0) as u16,
        region_in(s, loc).joint_count == fb::scalar(s, loc, 10, 2, 0) as u16,
        region_in(s, loc).has_force_torque_sensor <==> fb::scalar(s, loc, 12, 1, 0) != 0,
        camera_in(s, loc).camera_id == fb::scalar(s, loc, 4, 1, 0) as u8,
        camera_in(s, loc).label == fb::string(s, loc, 6),
        camera_in(s, loc).resolution_w == fb::scalar(s, loc, 10, 2, 0) as u16,
        camera_in(s, loc).resolution_h == fb::scalar(s, loc, 12, 2, 0) as u16,
        camera_in(s, loc).max_fps == fb::scalar(s, loc, 14, 1, 0) as u8,
        camera_in(s, loc).min_bitrate_kbps == fb::scalar(s, loc, 16, 4, 0) as u32,
        camera_in(s, loc).max_bitrate_kbps == fb::scalar(s, loc, 18, 4, 0) as u32,
        accept_in(s).profile_hash == fb::scalar(s, fb::root(s), 4, 8, 0) as u64,
        accept_in(s).cached <==> fb::scalar(s, fb::root(s), 6, 1, 0) != 0,
        accept_in(s).selected_regions == fb::byte_vector(s, fb::root(s), 8),
        accept_in(s).selected_cameras == fb::byte_vector(s, fb::root(s), 12),
{
}

/// The number of each kind on the wire; a number that stands for nothing is read
/// as the first of its kind.
pub proof fn lemma_numbers_of_kinds(n: u8, c: Codec)
    ensures
        codec_of(codec_number(c)) == c,
        codec_of(0) == Codec::H265 && codec_of(1) == Codec::Av1 && codec_of(2) == Codec::H264,
        n > 2 ==> codec_of(n) == codec_of(0),
        command_shape_of(0) == CommandShape::Kinematic,
        command_shape_of(1) == CommandShape::VelocityAttitude,
        command_shape_of(2) == CommandShape::CartesianEndEffector,
        n > 2 ==> command_shape_of(n) == command_shape_of(0),
        base_type_of(0) == BaseType::Stationary,
        base_type_of(1) == BaseType::WheeledStandard,
        base_type_of(2) == BaseType::WheeledHolonomic,
        base_type_of(3) == BaseType::BipedLegs,
        base_type_of(4) == BaseType::QuadrupedLegs,
        base_type_of(5) == BaseType::Other,
        n > 5 ==> base_type_of(n) == base_type_of(0),
{
}

} // verus!
