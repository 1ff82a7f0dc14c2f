//! The action-trigger message.

use vstd::prelude::*;
use crate::action_trigger::ActionTrigger;
use crate::fb::{fb_get_u64, fb_get_u8, fb_new, fb_root};
use crate::fb_table;
use crate::fb_table::{
    check_root, check_scalar, end_table, finish, put_u64, put_u8, start_table,
};
use crate::hello_handler::DecodeError;

verus! {

/// Can a trigger be read from `s`?
pub open spec fn trigger_ok(s: Seq<u8>) -> bool {
    let t = crate::fb::root(s);
    &&& crate::fb::root_ok(s)
    &&& crate::fb::scalar_ok(s, t, 4, 1)
    &&& crate::fb::scalar_ok(s, t, 6, 8)
}

/// The trigger in `s`.
pub open spec fn trigger_in(s: Seq<u8>) -> ActionTrigger {
    let t = crate::fb::root(s);
    ActionTrigger {
        action_id: crate::fb::scalar(s, t, 4, 1, 0) as u8,
        trigger_seq: crate::fb::scalar(s, t, 6, 8, 0) as u64,
    }
}

/// The message that carries `trigger`; it reads back as `trigger`. Its vtable
/// has room for its two fields and no more.
pub fn encode_action_trigger(trigger: &ActionTrigger) -> (out: Vec<u8>)
    ensures
        trigger_ok(out@),
        trigger_in(out@) == *trigger,
        out@.len() <= 128,
        crate::fb::vtable_size(out@, crate::fb::root(out@)) <= 8,
{
    let mut b = fb_new();
    let start: u32 = start_table(&mut b);
    put_u64(&mut b, 6, trigger.trigger_seq);
    put_u8(&mut b, 4, trigger.action_id);
    let ghost before = b;
    proof {
        assert(fb_table::holds(before, 6, 8, trigger.trigger_seq as nat, 0));
        assert(fb_table::holds(before, 4, 1, trigger.action_id as nat, 0));
        assert(fb_table::unused_from(before, 8));
    }
    let pos: u32 = end_table(&mut b, start);
    finish(b, pos)
}

/// Reads a trigger; an error exactly if it cannot be read.
pub fn decode_action_trigger(buf: &[u8]) -> (r: Result<ActionTrigger, DecodeError>)
    ensures
        r == if trigger_ok(buf@) {
            Ok::<ActionTrigger, DecodeError>(trigger_in(buf@))
        } else {
            Err::<ActionTrigger, DecodeError>(DecodeError::Malformed)
        },
{
    if !check_root(buf) {
        return Err(DecodeError::Malformed);
    }
    let t: usize = fb_root(buf);
    if !(check_scalar(buf, t, 4, 1) && check_scalar(buf, t, 6, 8)) {
        return Err(DecodeError::Malformed);
    }
    Ok(
        ActionTrigger {
            action_id: fb_get_u8(buf, t, 4, 0),
            trigger_seq: fb_get_u64(buf, t, 6, 0),
        },
    )
}

/// Where the parts of a trigger are, by the places of the message's table.
pub proof fn lemma_places_of_a_trigger(s: Seq<u8>)
    ensures
        trigger_in(s).action_id == crate::fb::scalar(s, crate::fb::root(s), 4, 1, 0) as u8,
        trigger_in(s).trigger_seq == crate::fb::scalar(s, crate::fb::root(s), 6, 8, 0) as u64,
{
}

} // verus!
