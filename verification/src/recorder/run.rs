//! A writer's whole run over a category's directory: what stands in the segment
//! files once everything that was queued has been dealt with.

use vstd::prelude::*;
use super::ring::RingView;
use super::writer;
use super::writer::{ActionView, Writer};
use super::{CategoryConfig, Record};
use crate::recording;
use crate::recording::{RecordHeader, RotationThresholds, SegmentMeta};
use crate::text;
use crate::time::Instant;

verus! {

/// A segment file, under the capture time in its name.
#[verifier::ext_equal]
pub struct SegmentFile {
    pub start_capture_us: u64,
    pub bytes: Seq<u8>,
}

/// A category's directory: its segment files in the order of their names, and
/// the one that is open.
#[verifier::ext_equal]
pub struct Folder {
    pub files: Seq<SegmentFile>,
    pub open: Option<u64>,
}

/// The files with one of this name: it is added where it belongs if there is
/// none yet.
pub open spec fn with_file(files: Seq<SegmentFile>, start_capture_us: u64) -> Seq<SegmentFile>
    decreases files.len(),
{
    if files.len() == 0 || files.last().start_capture_us < start_capture_us {
        files.push(SegmentFile { start_capture_us, bytes: Seq::empty() })
    } else if files.last().start_capture_us == start_capture_us {
        files
    } else {
        with_file(files.drop_last(), start_capture_us).push(files.last())
    }
}

/// The sizes of the files, oldest first.
pub open spec fn sizes(files: Seq<SegmentFile>) -> Seq<SegmentMeta> {
    Seq::new(files.len(), |i: int| SegmentMeta { size_bytes: files[i].bytes.len() as u64 })
}

/// How many of the oldest files have to go to make room.
pub open spec fn doomed(files: Seq<SegmentFile>, incoming_bytes: u64, budget_bytes: u64) -> int {
    choose|k: int| recording::deletes_oldest(sizes(files), incoming_bytes, budget_bytes, k)
}

impl Folder {
    pub open spec fn empty() -> Folder {
        Folder { files: Seq::empty(), open: None }
    }

    /// After an action, where every one of them succeeds.
    pub open spec fn performed(self, action: ActionView) -> Folder {
        match action {
            ActionView::Close => Folder { open: None, ..self },
            ActionView::EnforceRetention { incoming_bytes, budget_bytes } => Folder {
                files: self.files.subrange(
                    doomed(self.files, incoming_bytes, budget_bytes),
                    self.files.len() as int,
                ),
                ..self
            },
            ActionView::Create { start_capture_us } => Folder {
                files: with_file(self.files, start_capture_us),
                open: Some(start_capture_us),
            },
            ActionView::Append { bytes } => Folder {
                files: self.files.map_values(
                    |f: SegmentFile|
                        if self.open == Some(f.start_capture_us) {
                            SegmentFile { bytes: f.bytes + bytes, ..f }
                        } else {
                            f
                        },
                ),
                ..self
            },
        }
    }

    /// After several actions, one after the other.
    pub open spec fn performed_all(self, actions: Seq<ActionView>) -> Folder
        decreases actions.len(),
    {
        if actions.len() == 0 {
            self
        } else {
            self.performed_all(actions.drop_last()).performed(actions.last())
        }
    }
}

/// One record's turn: when the writer looked at the clock for it, when it would
/// have opened a segment for it, and when it looked at the clock after it to see
/// whether to flush, if it did.
pub struct Turn {
    pub record: Record,
    pub now: Instant,
    pub opened_at: Instant,
    pub flush_checked: Option<Instant>,
}

/// What is to be read back of a record.
pub open spec fn content(record: Record) -> (RecordHeader, Seq<u8>) {
    (
        RecordHeader { capture_us: record.capture_us, control_source: record.control_source },
        record.payload@,
    )
}

pub open spec fn contents(records: Seq<Record>) -> Seq<(RecordHeader, Seq<u8>)> {
    records.map_values(|r: Record| content(r))
}

pub open spec fn records_of(turns: Seq<Turn>) -> Seq<Record> {
    turns.map_values(|t: Turn| t.record)
}

/// The directory and the writer after one record's turn.
pub open spec fn turned(folder: Folder, w: Writer, turn: Turn) -> (Folder, Writer) {
    let asked = w.asked(turn.now);
    let ready = if w.rotates(turn.now) {
        asked.created(Some(turn.opened_at))
    } else {
        asked
    };
    let (header, payload) = content(turn.record);
    let wrote = ready.appended(recording::framed(header, payload).len() as u64);
    (
        folder.performed_all(w.steps_for(turn.record, turn.now)),
        match turn.flush_checked {
            Some(t) => wrote.checked(t),
            None => wrote,
        },
    )
}

/// The directory and the writer after several turns.
pub open spec fn run(folder: Folder, w: Writer, turns: Seq<Turn>) -> (Folder, Writer)
    decreases turns.len(),
{
    if turns.len() == 0 {
        (folder, w)
    } else {
        let (f, v) = run(folder, w, turns.drop_last());
        turned(f, v, turns.last())
    }
}

/// What is read out of the files, one after the other.
pub open spec fn read_back(files: Seq<SegmentFile>) -> Seq<(RecordHeader, Seq<u8>)>
    decreases files.len(),
{
    if files.len() == 0 {
        Seq::empty()
    } else {
        read_back(files.drop_last()) + recording::records_in(files.last().bytes)
    }
}

/// Each name comes before the ones behind it.
pub open spec fn in_name_order(files: Seq<SegmentFile>) -> bool {
    forall|i: int, j: int|
        0 <= i < j < files.len() ==> text::text_before(
            #[trigger] writer::segment_name(files[i].start_capture_us),
            #[trigger] writer::segment_name(files[j].start_capture_us),
        )
}

/// Are the records captured one after the other?
pub open spec fn ascending(records: Seq<Record>) -> bool {
    forall|i: int, j: int|
        0 <= i < j < records.len() ==> (#[trigger] records[i]).capture_us < (
        #[trigger] records[j]).capture_us
}

/// The total size of the files.
spec fn total(files: Seq<SegmentFile>) -> nat
    decreases files.len(),
{
    if files.len() == 0 {
        0
    } else {
        total(files.drop_last()) + files.last().bytes.len()
    }
}

/// What holds between two turns: the files hold `done`, in order, and the writer
/// knows the last of them.
spec fn settled(folder: Folder, w: Writer, done: Seq<(RecordHeader, Seq<u8>)>) -> bool {
    let files = folder.files;
    &&& forall|i: int, j: int|
        0 <= i < j < files.len() ==> (#[trigger] files[i]).start_capture_us < (
        #[trigger] files[j]).start_capture_us
    &&& read_back(files) == done
    &&& total(files) == recording::segment_bytes(done).len()
    &&& match w.segment {
        Some(s) => {
            &&& files.len() > 0
            &&& folder.open == Some(files.last().start_capture_us)
            &&& s.size_bytes == files.last().bytes.len()
            &&& recording::framable(recording::records_in(files.last().bytes))
            &&& recording::segment_bytes(recording::records_in(files.last().bytes))
                == files.last().bytes
        },
        None => files.len() == 0,
    }
    &&& files.len() > 0 ==> done.len() > 0 && files.last().start_capture_us
        <= done.last().0.capture_us
}

/// One more record behind a segment.
proof fn lemma_segment_push(
    records: Seq<(RecordHeader, Seq<u8>)>,
    one: (RecordHeader, Seq<u8>),
)
    ensures
        recording::segment_bytes(records.push(one)) == recording::segment_bytes(records)
            + recording::framed(one.0, one.1),
    decreases records.len(),
{
    let all = records.push(one);
    if records.len() == 0 {
        assert(all.subrange(1, 1) =~= Seq::<(RecordHeader, Seq<u8>)>::empty());
        assert(recording::segment_bytes(all.subrange(1, 1)) =~= Seq::<u8>::empty());
        assert(recording::segment_bytes(all) =~= recording::framed(one.0, one.1));
        assert(recording::segment_bytes(records) =~= Seq::<u8>::empty());
        assert(Seq::<u8>::empty() + recording::framed(one.0, one.1) =~= recording::framed(
            one.0,
            one.1,
        ));
    } else {
        let rest = records.subrange(1, records.len() as int);
        lemma_segment_push(rest, one);
        assert(all.subrange(1, all.len() as int) =~= rest.push(one));
        assert(recording::segment_bytes(all) =~= recording::segment_bytes(records)
            + recording::framed(one.0, one.1));
    }
}

/// Files that stay within the budget are all kept.
proof fn lemma_nothing_doomed(files: Seq<SegmentFile>, incoming_bytes: u64, budget_bytes: u64)
    requires
        total(files) + incoming_bytes <= budget_bytes,
    ensures
        doomed(files, incoming_bytes, budget_bytes) == 0,
{
    lemma_total(files, 0);
    let metas = sizes(files);
    assert(recording::deletes_oldest(metas, incoming_bytes, budget_bytes, 0));
    recording::lemma_retention_unique(
        metas,
        incoming_bytes,
        budget_bytes,
        doomed(files, incoming_bytes, budget_bytes),
        0,
    );
}

/// The files from one on are no larger than all of them, and from the first on
/// exactly as large.
proof fn lemma_total(files: Seq<SegmentFile>, from: int)
    requires
        0 <= from <= files.len(),
        total(files) <= u64::MAX,
    ensures
        recording::size_from(sizes(files), from) + total(files.take(from)) == total(files),
    decreases files.len() - from,
{
    if from < files.len() {
        lemma_total(files, from + 1);
        let longer = files.take(from + 1);
        assert(longer.drop_last() =~= files.take(from));
        assert(longer.last() == files[from]);
    } else {
        assert(files.take(from) =~= files);
    }
}

/// The writer's step on an open segment.
proof fn lemma_appended(folder: Folder, one: (RecordHeader, Seq<u8>))
    requires
        folder.files.len() > 0,
        folder.open == Some(folder.files.last().start_capture_us),
        forall|i: int, j: int|
            0 <= i < j < folder.files.len() ==> (#[trigger] folder.files[i]).start_capture_us < (
            #[trigger] folder.files[j]).start_capture_us,
        recording::framable(recording::records_in(folder.files.last().bytes)),
        recording::segment_bytes(recording::records_in(folder.files.last().bytes))
            == folder.files.last().bytes,
        one.1.len() <= u32::MAX,
    ensures
        ({
            let after = folder.performed(
                ActionView::Append { bytes: recording::framed(one.0, one.1) },
            );
            let old_last = folder.files.last();
            let last = after.files.last();
            &&& after.open == folder.open
            &&& after.files.len() == folder.files.len()
            &&& after.files.drop_last() == folder.files.drop_last()
            &&& last.start_capture_us == old_last.start_capture_us
            &&& last.bytes == old_last.bytes + recording::framed(one.0, one.1)
            &&& recording::records_in(last.bytes) == recording::records_in(old_last.bytes).push(one)
            &&& recording::framable(recording::records_in(last.bytes))
            &&& recording::segment_bytes(recording::records_in(last.bytes)) == last.bytes
        }),
{
    let bytes = recording::framed(one.0, one.1);
    let after = folder.performed(ActionView::Append { bytes });
    let n = folder.files.len() as int;
    assert(after.files.drop_last() =~= folder.files.drop_last()) by {
        assert forall|i: int| 0 <= i < n - 1 implies after.files[i] == folder.files[i] by {
            assert(folder.files[i].start_capture_us < folder.files[n - 1].start_capture_us);
        }
    }
    let g = recording::records_in(folder.files.last().bytes);
    lemma_segment_push(g, one);
    assert(recording::framable(g.push(one)));
    recording::lemma_segment_round_trip(g.push(one));
}

proof fn lemma_turn(
    folder: Folder,
    w: Writer,
    turn: Turn,
    done: Seq<(RecordHeader, Seq<u8>)>,
)
    requires
        settled(folder, w, done),
        content(turn.record).1.len() <= u32::MAX,
        done.len() > 0 ==> done.last().0.capture_us < turn.record.capture_us,
        recording::segment_bytes(done.push(content(turn.record))).len() <= w.max_total_bytes,
    ensures
        settled(
            turned(folder, w, turn).0,
            turned(folder, w, turn).1,
            done.push(content(turn.record)),
        ),
        turned(folder, w, turn).1.max_total_bytes == w.max_total_bytes,
{
    let one = content(turn.record);
    let bytes = recording::framed(one.0, one.1);
    let append = ActionView::Append { bytes };
    let steps = w.steps_for(turn.record, turn.now);
    lemma_segment_push(done, one);
    let (after, v) = turned(folder, w, turn);
    if w.rotates(turn.now) {
        let retain = ActionView::EnforceRetention {
            incoming_bytes: turn.record.payload@.len() as u64,
            budget_bytes: w.max_total_bytes,
        };
        let create = ActionView::Create { start_capture_us: turn.record.capture_us };
        let closed = Folder { open: None, ..folder };
        let before = if w.segment is Some {
            closed
        } else {
            folder
        };
        lemma_nothing_doomed(
            folder.files,
            turn.record.payload@.len() as u64,
            w.max_total_bytes,
        );
        assert(folder.files.subrange(0, folder.files.len() as int) =~= folder.files);
        let created = before.performed(create);
        assert(after == created.performed(append)) by {
            let (a, b) = (steps.drop_last(), steps.drop_last().drop_last());
            assert(steps.last() == append && a.last() == create && b.last() == retain);
            if w.segment is Some {
                let c = b.drop_last();
                assert(c.last() == ActionView::Close && c.len() == 1);
                assert(folder.performed_all(c.drop_last()) == folder);
                assert(folder.performed_all(c) == closed);
            } else {
                assert(b.len() == 1);
                assert(folder.performed_all(b.drop_last()) == folder);
            }
            assert(folder.performed_all(b) == before.performed(retain));
            assert(before.performed(retain) =~= before);
        }
        assert(created.files == folder.files.push(
            SegmentFile { start_capture_us: turn.record.capture_us, bytes: Seq::empty() },
        ));
        let empty = Seq::<(RecordHeader, Seq<u8>)>::empty();
        assert(recording::records_in(Seq::<u8>::empty()) =~= empty);
        assert(recording::segment_bytes(empty) =~= Seq::<u8>::empty());
        lemma_appended(created, one);
        assert(created.files.drop_last() =~= folder.files);
        assert(read_back(after.files) =~= done.push(one));
    } else {
        assert(steps.len() == 1 && steps.last() == append);
        assert(folder.performed_all(steps.drop_last()) == folder);
        assert(after == folder.performed(append));
        lemma_appended(folder, one);
        assert(read_back(after.files) =~= done.push(one));
    }
    assert forall|i: int, j: int| 0 <= i < j < after.files.len() implies (
    #[trigger] after.files[i]).start_capture_us < (#[trigger] after.files[j]).start_capture_us by {
        let front = after.files.drop_last();
        assert(after.files[i] == front[i]);
        if j < after.files.len() - 1 {
            assert(after.files[j] == front[j]);
        }
    }
}

/// The writer that a category starts with.
pub open spec fn started(config: CategoryConfig, now: Instant) -> Writer {
    Writer {
        thresholds: RotationThresholds {
            max_segment_bytes: config.max_segment_bytes,
            max_segment_duration: config.max_segment_duration,
        },
        max_total_bytes: config.max_total_bytes,
        flush_interval: config.flush_interval,
        segment: None,
        last_flush: now,
    }
}

proof fn lemma_run(config: CategoryConfig, now: Instant, turns: Seq<Turn>)
    requires
        ascending(records_of(turns)),
        recording::framable(contents(records_of(turns))),
        recording::segment_bytes(contents(records_of(turns))).len() <= config.max_total_bytes,
    ensures
        ({
            let (folder, w) = run(Folder::empty(), started(config, now), turns);
            &&& settled(folder, w, contents(records_of(turns)))
            &&& w.max_total_bytes == config.max_total_bytes
        }),
    decreases turns.len(),
{
    let all = contents(records_of(turns));
    if turns.len() == 0 {
        assert(all =~= Seq::empty());
        assert(read_back(Seq::empty()) =~= all);
        assert(recording::segment_bytes(all) =~= Seq::empty());
    } else {
        let head = turns.drop_last();
        let before = contents(records_of(head));
        let one = content(turns.last().record);
        assert(records_of(head) =~= records_of(turns).drop_last());
        assert(all =~= before.push(one));
        assert(all.last() == one);
        lemma_segment_push(before, one);
        assert forall|i: int| 0 <= i < before.len() implies (#[trigger] before[i]).1.len()
            <= u32::MAX by {
            assert(before[i] == all[i]);
        }
        lemma_run(config, now, head);
        let (f, v) = run(Folder::empty(), started(config, now), head);
        if before.len() > 0 {
            let n = records_of(turns).len() as int;
            assert(records_of(turns)[n - 2].capture_us < records_of(turns)[n - 1].capture_us);
            assert(before.last() == content(records_of(turns)[n - 2]));
        }
        lemma_turn(f, v, turns.last(), before);
    }
}

/// Everything that a writer was handed is read back out of the segment files in
/// the order of their names, each record once and in order, and nothing else:
/// whenever the writer looked at the clock, and however often it went on to a
/// new segment. This is for a directory that starts empty, a budget that holds
/// it all, and files that can be written.
pub proof fn lemma_everything_is_read_back(
    config: CategoryConfig,
    now: Instant,
    turns: Seq<Turn>,
)
    requires
        ascending(records_of(turns)),
        recording::framable(contents(records_of(turns))),
        recording::segment_bytes(contents(records_of(turns))).len() <= config.max_total_bytes,
    ensures
        ({
            let files = run(Folder::empty(), started(config, now), turns).0.files;
            &&& in_name_order(files)
            &&& read_back(files) == contents(records_of(turns))
        }),
{
    lemma_run(config, now, turns);
    let files = run(Folder::empty(), started(config, now), turns).0.files;
    assert forall|i: int, j: int| 0 <= i < j < files.len() implies text::text_before(
        #[trigger] writer::segment_name(files[i].start_capture_us),
        #[trigger] writer::segment_name(files[j].start_capture_us),
    ) by {
        assert(files[i].start_capture_us < files[j].start_capture_us);
        writer::lemma_names_chronological(files[i].start_capture_us, files[j].start_capture_us);
    }
}

/// A writer that is told to finish first writes all that is queued, whether or
/// not its category takes records by then: it does not finish as long as
/// anything is queued, it finishes as soon as nothing is, and then all that was
/// queued is read back out of the files, in order.
pub proof fn lemma_nothing_queued_is_lost(
    q: RingView,
    config: CategoryConfig,
    now: Instant,
    turns: Seq<Turn>,
)
    requires
        q.shutdown,
        records_of(turns) == q.queued,
        ascending(q.queued),
        recording::framable(contents(q.queued)),
        recording::segment_bytes(contents(q.queued)).len() <= config.max_total_bytes,
    ensures
        q.queued.len() > 0 ==> !writer::done(q.shutdown, q.queued.len()),
        writer::done(q.drained().shutdown, q.drained().queued.len()),
        ({
            let files = run(Folder::empty(), started(config, now), turns).0.files;
            &&& in_name_order(files)
            &&& read_back(files) == contents(q.queued)
        }),
{
    lemma_everything_is_read_back(config, now, turns);
}

} // verus!
