//! What a category's writer does with the records it is handed: which segment
//! they go to, when it is closed, and when it is flushed.

use vstd::prelude::*;
use super::run;
use super::{CategoryConfig, Record};
use crate::recording;
use crate::recording::{encode_record, should_rotate, RecordHeader, RotationThresholds};
use crate::text;
use crate::text::push_padded;
use crate::time;
use crate::time::{Duration, Instant};

verus! {

/// How long a writer waits for records before it looks at the clock again.
pub const POLL_INTERVAL_MS: u64 = 200;

/// The name of the segment whose first record was captured at
/// `start_capture_us`.
pub open spec fn segment_name(start_capture_us: u64) -> Seq<char> {
    text::padded(start_capture_us as nat, 20) + ".rec"@
}

pub fn segment_file_name(start_capture_us: u64) -> (name: String)
    ensures
        name@ == segment_name(start_capture_us),
{
    let mut name = String::new();
    push_padded(&mut name, start_capture_us, 20);
    name.append(".rec");
    proof {
        assert(name@ =~= segment_name(start_capture_us));
    }
    name
}

/// Segment names are ordered as the capture times are: the first name is that
/// of the oldest segment.
pub proof fn lemma_names_chronological(a: u64, b: u64)
    requires
        a < b,
    ensures
        text::text_before(segment_name(a), segment_name(b)),
{
    assert(text::pow10(20) == 100_000_000_000_000_000_000nat) by {
        reveal_with_fuel(text::pow10, 21);
    }
    text::lemma_padded_len(a as nat, 20);
    text::lemma_padded_len(b as nat, 20);
    let (pa, pb) = (text::padded(a as nat, 20), text::padded(b as nat, 20));
    let (na, nb) = (segment_name(a), segment_name(b));
    text::lemma_padded_order(a as nat, b as nat, 20);
    let i = choose|i: int|
        #[trigger] text::first_difference(pa, pb, i) && (i == pa.len() || pa[i] < pb[i]);
    assert(na.subrange(0, i) =~= pa.subrange(0, i));
    assert(nb.subrange(0, i) =~= pb.subrange(0, i));
    assert(text::first_difference(na, nb, i));
}

/// The segment that is being written.
#[derive(Debug, Clone, Copy, PartialEq, Eq, Structural)]
pub struct OpenSegment {
    pub size_bytes: u64,
    pub opened_at: Instant,
}

/// What to do with the files, in this order.
#[derive(Debug)]
pub enum SegmentAction {
    /// Flush the open segment and close it.
    Close,
    /// Delete old segments so that this much more fits the budget.
    EnforceRetention { incoming_bytes: u64, budget_bytes: u64 },
    /// Open the segment that begins at this capture time.
    Create { start_capture_us: u64 },
    /// Append to the open segment; if none could be opened, nothing.
    Append { bytes: Vec<u8> },
}

/// An action as a mathematical value.
pub enum ActionView {
    Close,
    EnforceRetention { incoming_bytes: u64, budget_bytes: u64 },
    Create { start_capture_us: u64 },
    Append { bytes: Seq<u8> },
}

impl View for SegmentAction {
    type V = ActionView;

    open spec fn view(&self) -> ActionView {
        match self {
            SegmentAction::Close => ActionView::Close,
            SegmentAction::EnforceRetention { incoming_bytes, budget_bytes } => {
                ActionView::EnforceRetention {
                    incoming_bytes: *incoming_bytes,
                    budget_bytes: *budget_bytes,
                }
            },
            SegmentAction::Create { start_capture_us } => ActionView::Create {
                start_capture_us: *start_capture_us,
            },
            SegmentAction::Append { bytes } => ActionView::Append { bytes: bytes@ },
        }
    }
}

/// A writer between two steps.
#[derive(Debug, Clone, Copy, PartialEq, Eq, Structural)]
pub struct Writer {
    pub thresholds: RotationThresholds,
    pub max_total_bytes: u64,
    pub flush_interval: Duration,
    pub segment: Option<OpenSegment>,
    pub last_flush: Instant,
}

/// Is there nothing left to do?
pub open spec fn done(shutting_down: bool, batch_len: nat) -> bool {
    shutting_down && batch_len == 0
}

pub open spec fn views(actions: Seq<SegmentAction>) -> Seq<ActionView> {
    Seq::new(actions.len(), |i: int| actions[i]@)
}

impl Writer {
    /// Does the next record need a new segment?
    pub open spec fn rotates(self, now: Instant) -> bool {
        match self.segment {
            Some(s) => recording::rotation_due(s.size_bytes, s.opened_at, now, self.thresholds),
            None => true,
        }
    }

    /// The writer after it was asked what to do with a record.
    pub open spec fn asked(self, now: Instant) -> Writer {
        Writer {
            segment: if self.rotates(now) {
                None
            } else {
                self.segment
            },
            ..self
        }
    }

    /// The writer after a segment was opened, or could not be.
    pub open spec fn created(self, opened_at: Option<Instant>) -> Writer {
        Writer {
            segment: match opened_at {
                Some(t) => Some(OpenSegment { size_bytes: 0, opened_at: t }),
                None => None,
            },
            ..self
        }
    }

    /// The writer after `bytes` more were written.
    pub open spec fn appended(self, bytes: u64) -> Writer {
        Writer {
            segment: match self.segment {
                Some(s) => Some(OpenSegment { size_bytes: (s.size_bytes + bytes) as u64, ..s }),
                None => None,
            },
            ..self
        }
    }

    /// Is it time to flush?
    pub open spec fn to_flush(self, now: Instant) -> bool {
        time::elapsed(self.last_flush, now) >= self.flush_interval.nanos
    }

    /// The writer after it looked whether to flush.
    pub open spec fn checked(self, now: Instant) -> Writer {
        Writer {
            last_flush: if self.to_flush(now) {
                now
            } else {
                self.last_flush
            },
            ..self
        }
    }

    /// What a record asks to be done.
    pub open spec fn steps_for(self, record: Record, now: Instant) -> Seq<ActionView> {
        let header = RecordHeader {
            capture_us: record.capture_us,
            control_source: record.control_source,
        };
        let append = seq![
            ActionView::Append { bytes: recording::framed(header, record.payload@) },
        ];
        if self.rotates(now) {
            (if self.segment is Some {
                seq![ActionView::Close]
            } else {
                Seq::empty()
            }) + seq![
                ActionView::EnforceRetention {
                    incoming_bytes: record.payload@.len() as u64,
                    budget_bytes: self.max_total_bytes,
                },
                ActionView::Create { start_capture_us: record.capture_us },
            ] + append
        } else {
            append
        }
    }

    pub fn new(config: &CategoryConfig, now: Instant) -> (w: Self)
        ensures
            w == run::started(*config, now),
    {
        Writer {
            thresholds: RotationThresholds {
                max_segment_bytes: config.max_segment_bytes,
                max_segment_duration: config.max_segment_duration,
            },
            max_total_bytes: config.max_total_bytes,
            flush_interval: config.flush_interval,
            segment: None,
            last_flush: now,
        }
    }

    /// Stops once it is told to and nothing is queued any more.
    pub fn finished(shutting_down: bool, batch_len: usize) -> (b: bool)
        ensures
            b == done(shutting_down, batch_len as nat),
    {
        shutting_down && batch_len == 0
    }

    /// What to do with the next record. A record that was queued is written,
    /// whether its category is still active or not.
    pub fn on_record(&mut self, record: &Record, now: Instant) -> (actions: Vec<SegmentAction>)
        ensures
            views(actions@) == old(self).steps_for(*record, now),
            *final(self) == old(self).asked(now),
    {
        let mut actions: Vec<SegmentAction> = Vec::new();
        let needs_rotate: bool = match self.segment {
            Some(seg) => should_rotate(seg.size_bytes, seg.opened_at, now, &self.thresholds),
            None => true,
        };
        if needs_rotate {
            if self.segment.is_some() {
                actions.push(SegmentAction::Close);
                self.segment = None;
            }
            actions.push(
                SegmentAction::EnforceRetention {
                    incoming_bytes: record.payload.len() as u64,
                    budget_bytes: self.max_total_bytes,
                },
            );
            actions.push(SegmentAction::Create { start_capture_us: record.capture_us });
        }
        let header = RecordHeader {
            capture_us: record.capture_us,
            control_source: record.control_source,
        };
        let mut bytes: Vec<u8> = Vec::new();
        encode_record(header, record.payload.as_slice(), &mut bytes);
        proof {
            assert(bytes@ =~= recording::framed(header, record.payload@));
        }
        actions.push(SegmentAction::Append { bytes });
        proof {
            assert(views(actions@) =~= old(self).steps_for(*record, now));
        }
        actions
    }

    /// A segment was opened at `opened_at`, or could not be.
    pub fn on_created(&mut self, opened_at: Option<Instant>)
        ensures
            *final(self) == old(self).created(opened_at),
    {
        self.segment = match opened_at {
            Some(t) => Some(OpenSegment { size_bytes: 0, opened_at: t }),
            None => None,
        };
    }

    /// `bytes` more were written to the open segment.
    pub fn on_appended(&mut self, bytes: u64)
        requires
            old(self).segment matches Some(s) ==> s.size_bytes + bytes <= u64::MAX,
        ensures
            *final(self) == old(self).appended(bytes),
    {
        if let Some(s) = self.segment {
            self.segment = Some(
                OpenSegment { size_bytes: s.size_bytes + bytes, opened_at: s.opened_at },
            );
        }
    }

    /// After a batch: is the open segment, if there is one, to be flushed?
    pub fn flush_due(&mut self, now: Instant) -> (due: bool)
        ensures
            due == old(self).to_flush(now),
            *final(self) == old(self).checked(now),
    {
        if now.saturating_duration_since(self.last_flush).nanos >= self.flush_interval.nanos {
            self.last_flush = now;
            true
        } else {
            false
        }
    }
}

/// Every record is written, exactly once and last of all, and before it stands
/// an open segment or the request to open one.
pub proof fn lemma_every_record_written(w: Writer, record: Record, now: Instant)
    ensures
        ({
            let steps = w.steps_for(record, now);
            let header = RecordHeader {
                capture_us: record.capture_us,
                control_source: record.control_source,
            };
            &&& steps.last() == ActionView::Append {
                bytes: recording::framed(header, record.payload@),
            }
            &&& forall|i: int| 0 <= i < steps.len() - 1 ==> !((#[trigger] steps[i]) is Append)
            &&& w.segment is None || w.rotates(now) ==> steps.contains(
                ActionView::Create { start_capture_us: record.capture_us },
            )
        }),
{
    let steps = w.steps_for(record, now);
    if w.rotates(now) {
        assert(steps[steps.len() - 2] == ActionView::Create {
            start_capture_us: record.capture_us,
        });
    }
}

/// What a writer does with a record. Into an open segment that is neither full
/// nor too old it is written at once. Otherwise an open segment is closed first,
/// room is made for the record within the budget, and a segment is created that
/// is named after the record's time.
pub proof fn lemma_steps_in_order(w: Writer, record: Record, now: Instant)
    ensures
        ({
            let steps = w.steps_for(record, now);
            let n = steps.len() as int;
            let room = w.segment matches Some(s) && s.size_bytes < w.thresholds.max_segment_bytes
                && time::elapsed(s.opened_at, now) < w.thresholds.max_segment_duration.nanos;
            &&& room ==> n == 1
            &&& !room && w.segment is None ==> n == 3
            &&& !room && w.segment is Some ==> n == 4 && steps[0] == ActionView::Close
            &&& !room ==> steps[n - 3] == (ActionView::EnforceRetention {
                incoming_bytes: record.payload@.len() as u64,
                budget_bytes: w.max_total_bytes,
            }) && steps[n - 2] == (ActionView::Create { start_capture_us: record.capture_us })
            &&& steps[n - 1] is Append
        }),
{
}

/// What a writer remembers: a new segment is empty and as old as its opening;
/// what is written makes it larger by just that much; a segment that could not
/// be opened is none. It flushes when the interval has passed since it last did,
/// and counts anew from then.
pub proof fn lemma_writer_remembers(w: Writer, at: Instant, bytes: u64, now: Instant)
    requires
        w.segment matches Some(s) ==> s.size_bytes + bytes <= u64::MAX,
        w.last_flush.nanos <= now.nanos,
    ensures
        w.created(Some(at)).segment == Some(OpenSegment { size_bytes: 0, opened_at: at }),
        w.created(None).segment is None,
        w.segment matches Some(s) ==> w.appended(bytes).segment == Some(
            OpenSegment { size_bytes: (s.size_bytes + bytes) as u64, opened_at: s.opened_at },
        ),
        w.to_flush(now) <==> now.nanos - w.last_flush.nanos >= w.flush_interval.nanos,
        w.to_flush(now) ==> w.checked(now).last_flush == now,
        !w.to_flush(now) ==> w.checked(now) == w,
        w.created(Some(at)).thresholds == w.thresholds && w.appended(bytes).thresholds
            == w.thresholds,
        done(true, 0) && !done(true, bytes as nat + 1) && !done(false, bytes as nat),
{
}

} // verus!
