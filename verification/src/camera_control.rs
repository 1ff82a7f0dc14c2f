//! Discrete "set and hold" camera image controls on a reliable stream.

use vstd::prelude::*;

verus! {

/// Operator-initiated bidirectional stream, opened once per session.
pub const CAMERA_CONTROL_STREAM_ID: u64 = 8;

/// One complete set of image controls. The three real-valued controls are
/// held as the bit patterns of single-precision numbers: nothing in this
/// library computes with them.
#[derive(Debug, Clone, Copy, PartialEq, Eq, Structural)]
pub struct CameraControl {
    pub brightness_bits: u32,
    pub contrast_bits: u32,
    pub ev_bits: u32,
    /// Manual exposure time in microseconds; zero means automatic exposure.
    pub shutter_us: u32,
    /// Independent monotonic identity.
    pub control_seq: u64,
}

/// Tracks the highest `control_seq` applied so far, so that a duplicate or an
/// overtaken control is not applied.
#[derive(Debug)]
pub struct CameraControlDedup {
    last_applied: Option<u64>,
}

impl CameraControlDedup {
    /// The highest sequence number applied so far.
    pub closed spec fn last(&self) -> Option<u64> {
        self.last_applied
    }

    pub fn new() -> (d: Self)
        ensures
            d.last() is None,
    {
        CameraControlDedup { last_applied: None }
    }

    /// `true`, and the control is recorded, exactly if it is later than every
    /// control applied before.
    pub fn accept(&mut self, control: CameraControl) -> (fresh: bool)
        ensures
            fresh == crate::action_trigger::is_later(old(self).last(), control.control_seq),
            final(self).last() == if fresh {
                Some(control.control_seq)
            } else {
                old(self).last()
            },
    {
        let fresh = match self.last_applied {
            Some(last) => control.control_seq > last,
            None => true,
        };
        if fresh {
            self.last_applied = Some(control.control_seq);
        }
        fresh
    }
}

impl Default for CameraControlDedup {
    fn default() -> (d: Self)
        ensures
            d.last() is None,
    {
        Self::new()
    }
}

} // verus!
