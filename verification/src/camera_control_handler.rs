//! The camera-control message.

use vstd::prelude::*;
use crate::camera_control::CameraControl;
use crate::fb::{fb_get_u32, fb_get_u64, fb_new, fb_root};
use crate::fb_table;
use crate::fb_table::{
    check_root, check_scalar, end_table, finish, put_f32_bits, put_u32, put_u64, start_table,
};
use crate::hello_handler::DecodeError;

verus! {

/// Can a camera control be read from `s`?
pub open spec fn control_ok(s: Seq<u8>) -> bool {
    let t = crate::fb::root(s);
    &&& crate::fb::root_ok(s)
    &&& crate::fb::scalar_ok(s, t, 4, 4)
    &&& crate::fb::scalar_ok(s, t, 6, 4)
    &&& crate::fb::scalar_ok(s, t, 8, 4)
    &&& crate::fb::scalar_ok(s, t, 10, 4)
    &&& crate::fb::scalar_ok(s, t, 12, 8)
}

/// The camera control in `s`.
pub open spec fn control_in(s: Seq<u8>) -> CameraControl {
    let t = crate::fb::root(s);
    CameraControl {
        brightness_bits: crate::fb::scalar(s, t, 4, 4, 0) as u32,
        contrast_bits: crate::fb::scalar(s, t, 6, 4, 0) as u32,
        ev_bits: crate::fb::scalar(s, t, 8, 4, 0) as u32,
        shutter_us: crate::fb::scalar(s, t, 10, 4, 0) as u32,
        control_seq: crate::fb::scalar(s, t, 12, 8, 0) as u64,
    }
}

/// `c` as it comes out of a message: negative zero turns into zero.
pub open spec fn as_stored(c: CameraControl) -> CameraControl {
    CameraControl {
        brightness_bits: crate::fb_table::stored_bits(c.brightness_bits),
        contrast_bits: crate::fb_table::stored_bits(c.contrast_bits),
        ev_bits: crate::fb_table::stored_bits(c.ev_bits),
        shutter_us: c.shutter_us,
        control_seq: c.control_seq,
    }
}

/// The message that carries `control`; it reads back as `control`.
pub fn encode_camera_control(control: &CameraControl) -> (out: Vec<u8>)
    ensures
        control_ok(out@),
        control_in(out@) == as_stored(*control),
        out@.len() <= 256,
{
    let mut b = fb_new();
    let start: u32 = start_table(&mut b);
    put_u64(&mut b, 12, control.control_seq);
    put_u32(&mut b, 10, control.shutter_us);
    put_f32_bits(&mut b, 8, control.ev_bits);
    put_f32_bits(&mut b, 6, control.contrast_bits);
    put_f32_bits(&mut b, 4, control.brightness_bits);
    let ghost before = b;
    proof {
        let c = as_stored(*control);
        assert(fb_table::holds(before, 12, 8, c.control_seq as nat, 0));
        assert(fb_table::holds(before, 10, 4, c.shutter_us as nat, 0));
        assert(fb_table::holds(before, 8, 4, c.ev_bits as nat, 0));
        assert(fb_table::holds(before, 6, 4, c.contrast_bits as nat, 0));
        assert(fb_table::holds(before, 4, 4, c.brightness_bits as nat, 0));
    }
    let pos: u32 = end_table(&mut b, start);
    finish(b, pos)
}

/// Reads a camera control; an error exactly if it cannot be read.
pub fn decode_camera_control(buf: &[u8]) -> (r: Result<CameraControl, DecodeError>)
    ensures
        r == if control_ok(buf@) {
            Ok::<CameraControl, DecodeError>(control_in(buf@))
        } else {
            Err::<CameraControl, DecodeError>(DecodeError::Malformed)
        },
{
    if !check_root(buf) {
        return Err(DecodeError::Malformed);
    }
    let t: usize = fb_root(buf);
    if !(check_scalar(buf, t, 4, 4) && check_scalar(buf, t, 6, 4) && check_scalar(buf, t, 8, 4)
        && check_scalar(buf, t, 10, 4) && check_scalar(buf, t, 12, 8)) {
        return Err(DecodeError::Malformed);
    }
    Ok(
        CameraControl {
            brightness_bits: fb_get_u32(buf, t, 4, 0),
            contrast_bits: fb_get_u32(buf, t, 6, 0),
            ev_bits: fb_get_u32(buf, t, 8, 0),
            shutter_us: fb_get_u32(buf, t, 10, 0),
            control_seq: fb_get_u64(buf, t, 12, 0),
        },
    )
}

/// Where the camera's settings are, by the places of the message's table; and
/// that a setting comes out as it went in, but for the sign of a zero.
pub proof fn lemma_places_of_a_control(s: Seq<u8>, c: CameraControl)
    ensures
        ({
            let t = crate::fb::root(s);
            &&& control_in(s).brightness_bits == crate::fb::scalar(s, t, 4, 4, 0) as u32
            &&& control_in(s).contrast_bits == crate::fb::scalar(s, t, 6, 4, 0) as u32
            &&& control_in(s).ev_bits == crate::fb::scalar(s, t, 8, 4, 0) as u32
            &&& control_in(s).shutter_us == crate::fb::scalar(s, t, 10, 4, 0) as u32
            &&& control_in(s).control_seq == crate::fb::scalar(s, t, 12, 8, 0) as u64
        }),
        c.brightness_bits != 0x8000_0000 ==> as_stored(c).brightness_bits == c.brightness_bits,
        c.contrast_bits != 0x8000_0000 ==> as_stored(c).contrast_bits == c.contrast_bits,
        c.ev_bits != 0x8000_0000 ==> as_stored(c).ev_bits == c.ev_bits,
        as_stored(c).shutter_us == c.shutter_us,
        as_stored(c).control_seq == c.control_seq,
{
}

} // verus!
