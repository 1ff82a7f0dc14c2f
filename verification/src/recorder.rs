//! The recorder: a bounded queue per category that drops its oldest record when
//! it is full, and the steps by which a category's writer empties it into
//! segment files.

pub mod ring;
pub mod run;
pub mod writer;

use vstd::prelude::*;
use crate::time::Duration;
use ring::CategoryState;

verus! {

/// What a record is about.
#[derive(Debug, Clone, Copy, PartialEq, Eq, Hash, Structural)]
pub enum Category {
    VideoA,
    ChannelBCommand,
    ChannelBTelemetry,
    ChannelBHaptic,
    ActionTriggerC,
    KeyPress,
}

pub open spec fn directory_name(category: Category) -> Seq<char> {
    match category {
        Category::VideoA => "video-a"@,
        Category::ChannelBCommand => "channel-b-command"@,
        Category::ChannelBTelemetry => "channel-b-telemetry"@,
        Category::ChannelBHaptic => "channel-b-haptic"@,
        Category::ActionTriggerC => "action-trigger-c"@,
        Category::KeyPress => "key-press"@,
    }
}

/// The categories, numbered.
pub open spec fn slot_of(category: Category) -> int {
    match category {
        Category::VideoA => 0,
        Category::ChannelBCommand => 1,
        Category::ChannelBTelemetry => 2,
        Category::ChannelBHaptic => 3,
        Category::ActionTriggerC => 4,
        Category::KeyPress => 5,
    }
}

impl Category {
    /// The subdirectory that holds the category's segments.
    pub fn dirname(self) -> (name: &'static str)
        ensures
            name@ == directory_name(self),
    {
        match self {
            Category::VideoA => "video-a",
            Category::ChannelBCommand => "channel-b-command",
            Category::ChannelBTelemetry => "channel-b-telemetry",
            Category::ChannelBHaptic => "channel-b-haptic",
            Category::ActionTriggerC => "action-trigger-c",
            Category::KeyPress => "key-press",
        }
    }

    fn slot(self) -> (i: usize)
        ensures
            i == slot_of(self),
    {
        match self {
            Category::VideoA => 0,
            Category::ChannelBCommand => 1,
            Category::ChannelBTelemetry => 2,
            Category::ChannelBHaptic => 3,
            Category::ActionTriggerC => 4,
            Category::KeyPress => 5,
        }
    }
}

/// No two categories share a directory.
pub proof fn lemma_directories_distinct(a: Category, b: Category)
    ensures
        directory_name(a) == directory_name(b) ==> a == b,
{
    reveal_strlit("video-a");
    reveal_strlit("channel-b-command");
    reveal_strlit("channel-b-telemetry");
    reveal_strlit("channel-b-haptic");
    reveal_strlit("action-trigger-c");
    reveal_strlit("key-press");
    assert("video-a"@.len() == 7 && "key-press"@.len() == 9);
    assert("channel-b-command"@.len() == 17 && "channel-b-telemetry"@.len() == 19);
    assert("channel-b-haptic"@[0] == 'c' && "channel-b-haptic"@.len() == 16);
    assert("action-trigger-c"@[0] == 'a' && "action-trigger-c"@.len() == 16);
}

#[derive(Debug, Clone, Copy, PartialEq, Eq, Structural)]
pub struct CategoryConfig {
    pub category: Category,
    pub ring_capacity: usize,
    pub max_segment_bytes: u64,
    pub max_segment_duration: Duration,
    pub max_total_bytes: u64,
    pub flush_interval: Duration,
    /// Whether records are taken from the start, or only once the category is
    /// switched on.
    pub start_active: bool,
}

#[derive(Debug)]
pub struct RecorderConfig {
    pub record_dir: String,
    /// A category that is not listed is never recorded.
    pub categories: Vec<CategoryConfig>,
}

/// One record to store, under the recording side's own clock.
#[derive(Debug)]
pub struct Record {
    pub capture_us: u64,
    pub control_source: u8,
    pub payload: Vec<u8>,
}

#[derive(Debug, Clone, Copy, PartialEq, Eq, Structural)]
pub struct CategoryStats {
    pub bytes_enqueued: u64,
    pub records_dropped: u64,
    pub active: bool,
}

/// The queues of the configured categories.
pub struct Recorder {
    slots: Vec<Option<CategoryState>>,
}

/// The configuration of `category` that counts: the last one listed.
pub open spec fn config_of(
    configs: Seq<CategoryConfig>,
    category: Category,
) -> Option<CategoryConfig>
    decreases configs.len(),
{
    if configs.len() == 0 {
        None
    } else if configs.last().category == category {
        Some(configs.last())
    } else {
        config_of(configs.drop_last(), category)
    }
}

impl Recorder {
    pub closed spec fn wf(&self) -> bool {
        &&& self.slots@.len() == 6
        &&& forall|i: int|
            0 <= i < 6 ==> ((#[trigger] self.slots@[i]) matches Some(s) ==> s.wf())
    }

    /// The queue of a category, if it is configured.
    pub closed spec fn queue(&self, category: Category) -> Option<ring::RingView> {
        match self.slots@[slot_of(category)] {
            Some(s) => Some(s@),
            None => None,
        }
    }

    /// A queue for each configured category.
    pub fn start(config: &RecorderConfig) -> (r: Self)
        ensures
            r.wf(),
            forall|c: Category|
                #[trigger] r.queue(c) == match config_of(config.categories@, c) {
                    Some(k) => Some(ring::fresh(k.ring_capacity, k.start_active)),
                    None => None,
                },
    {
        let mut slots: Vec<Option<CategoryState>> = Vec::new();
        let mut n: usize = 0;
        while n < 6
            invariant
                n <= 6,
                slots@.len() == n,
                forall|i: int| 0 <= i < n ==> (#[trigger] slots@[i]) is None,
            decreases 6 - n,
        {
            slots.push(None);
            n = n + 1;
        }
        let mut r = Recorder { slots };
        let mut i: usize = 0;
        proof {
            assert(config.categories@.subrange(0, 0) =~= Seq::empty());
        }
        while i < config.categories.len()
            invariant
                i <= config.categories@.len(),
                r.wf(),
                forall|c: Category|
                    #[trigger] r.queue(c) == match config_of(
                        config.categories@.subrange(0, i as int),
                        c,
                    ) {
                        Some(k) => Some(ring::fresh(k.ring_capacity, k.start_active)),
                        None => None,
                    },
            decreases config.categories@.len() - i,
        {
            let k = config.categories[i];
            let at: usize = k.category.slot();
            let ghost previous = r;
            r.slots.set(at, Some(CategoryState::new(k.ring_capacity, k.start_active)));
            proof {
                let before = config.categories@.subrange(0, i as int);
                let now = config.categories@.subrange(0, i + 1);
                assert(now.drop_last() =~= before);
                assert(now.last() == k);
                assert forall|c: Category|
                    #[trigger] r.queue(c) == match config_of(now, c) {
                        Some(k) => Some(ring::fresh(k.ring_capacity, k.start_active)),
                        None => None,
                    } by {
                    if c != k.category {
                        assert(slot_of(c) != slot_of(k.category));
                        assert(r.queue(c) == previous.queue(c));
                    }
                }
            }
            i = i + 1;
        }
        proof {
            assert(config.categories@.subrange(0, i as int) =~= config.categories@);
        }
        r
    }

    /// Queues a record, if the category is configured and active now.
    pub fn enqueue(&mut self, category: Category, record: Record)
        requires
            old(self).wf(),
        ensures
            final(self).wf(),
            final(self).queue(category) == match old(self).queue(category) {
                Some(q) => Some(
                    if q.active {
                        q.pushed(record)
                    } else {
                        q
                    },
                ),
                None => None,
            },
            forall|c: Category|
                c != category ==> #[trigger] final(self).queue(c) == old(self).queue(c),
    {
        let at: usize = category.slot();
        let mut slot: Option<CategoryState> = None;
        std::mem::swap(&mut slot, &mut self.slots[at]);
        if let Some(mut state) = slot {
            let (_, _, active) = state.stats();
            if active {
                state.push(record);
            }
            self.slots.set(at, Some(state));
        }
        proof {
            self.lemma_others_kept(*old(self), category);
        }
    }

    /// Switches a configured category on or off. What is queued stays queued.
    pub fn set_active(&mut self, category: Category, active: bool)
        requires
            old(self).wf(),
        ensures
            final(self).wf(),
            final(self).queue(category) == match old(self).queue(category) {
                Some(q) => Some((ring::RingView { active, ..q })),
                None => None,
            },
            forall|c: Category|
                c != category ==> #[trigger] final(self).queue(c) == old(self).queue(c),
    {
        let at: usize = category.slot();
        let mut slot: Option<CategoryState> = None;
        std::mem::swap(&mut slot, &mut self.slots[at]);
        if let Some(mut state) = slot {
            state.set_active(active);
            self.slots.set(at, Some(state));
        }
        proof {
            self.lemma_others_kept(*old(self), category);
        }
    }

    /// Tells a category's writer to finish.
    pub fn shut_down(&mut self, category: Category)
        requires
            old(self).wf(),
        ensures
            final(self).wf(),
            final(self).queue(category) == match old(self).queue(category) {
                Some(q) => Some((ring::RingView { shutdown: true, ..q })),
                None => None,
            },
            forall|c: Category|
                c != category ==> #[trigger] final(self).queue(c) == old(self).queue(c),
    {
        let at: usize = category.slot();
        let mut slot: Option<CategoryState> = None;
        std::mem::swap(&mut slot, &mut self.slots[at]);
        if let Some(mut state) = slot {
            state.shut_down();
            self.slots.set(at, Some(state));
        }
        proof {
            self.lemma_others_kept(*old(self), category);
        }
    }

    /// Hands a category's queued records to its writer, with whether it is to
    /// finish.
    pub fn drain(&mut self, category: Category) -> (batch: (Vec<Record>, bool))
        requires
            old(self).wf(),
        ensures
            final(self).wf(),
            match old(self).queue(category) {
                Some(q) => batch.0@ == q.queued && batch.1 == q.shutdown && final(self).queue(
                    category,
                ) == Some(q.drained()),
                None => batch.0@ == Seq::<Record>::empty() && !batch.1 && final(self).queue(
                    category,
                ) is None,
            },
            forall|c: Category|
                c != category ==> #[trigger] final(self).queue(c) == old(self).queue(c),
    {
        let at: usize = category.slot();
        let mut slot: Option<CategoryState> = None;
        let mut batch: Vec<Record> = Vec::new();
        let mut finish: bool = false;
        std::mem::swap(&mut slot, &mut self.slots[at]);
        if let Some(mut state) = slot {
            batch = state.drain();
            finish = state.is_shut_down();
            self.slots.set(at, Some(state));
        }
        proof {
            self.lemma_others_kept(*old(self), category);
        }
        (batch, finish)
    }

    pub fn is_active(&self, category: Category) -> (b: bool)
        requires
            self.wf(),
        ensures
            b == (self.queue(category) matches Some(q) && q.active),
    {
        match &self.slots[category.slot()] {
            Some(state) => {
                let (_, _, active) = state.stats();
                active
            },
            None => false,
        }
    }

    pub fn stats(&self, category: Category) -> (s: Option<CategoryStats>)
        requires
            self.wf(),
        ensures
            s == match self.queue(category) {
                Some(q) => Some(
                    CategoryStats {
                        bytes_enqueued: q.bytes_enqueued,
                        records_dropped: q.dropped,
                        active: q.active,
                    },
                ),
                None => None,
            },
    {
        match &self.slots[category.slot()] {
            Some(state) => {
                let (bytes_enqueued, records_dropped, active) = state.stats();
                Some(CategoryStats { bytes_enqueued, records_dropped, active })
            },
            None => None,
        }
    }

    /// How many records a category dropped; none if it is not configured.
    pub open spec fn dropped(&self, category: Category) -> nat {
        match self.queue(category) {
            Some(q) => q.dropped as nat,
            None => 0,
        }
    }

    fn dropped_of(&self, category: Category) -> (n: u64)
        requires
            self.wf(),
        ensures
            n == self.dropped(category),
    {
        match self.stats(category) {
            Some(s) => s.records_dropped,
            None => 0,
        }
    }

    /// How many records were dropped in the categories that are switched
    /// together, as far as that can be counted.
    pub fn toggled_dropped(&self) -> (n: u64)
        requires
            self.wf(),
        ensures
            ({
                let sum = self.dropped(Category::VideoA) + self.dropped(Category::ChannelBCommand)
                    + self.dropped(Category::ChannelBTelemetry) + self.dropped(Category::KeyPress);
                n == if sum <= u64::MAX {
                    sum
                } else {
                    u64::MAX as nat
                }
            }),
    {
        self.dropped_of(Category::VideoA).saturating_add(
            self.dropped_of(Category::ChannelBCommand),
        ).saturating_add(self.dropped_of(Category::ChannelBTelemetry)).saturating_add(
            self.dropped_of(Category::KeyPress),
        )
    }

    proof fn lemma_others_kept(&self, before: Recorder, category: Category)
        requires
            self.slots@.len() == 6,
            before.slots@.len() == 6,
            forall|i: int|
                0 <= i < 6 && i != slot_of(category) ==> #[trigger] self.slots@[i]
                    == before.slots@[i],
        ensures
            forall|c: Category| c != category ==> #[trigger] self.queue(c) == before.queue(c),
    {
        assert forall|c: Category| c != category implies #[trigger] self.queue(c) == before.queue(
            c,
        ) by {
            assert(self.slots@[slot_of(c)] == before.slots@[slot_of(c)]);
        }
    }
}

/// A category is recorded as it is configured last, and not at all where it is
/// not configured.
pub proof fn lemma_last_config_counts(
    configs: Seq<CategoryConfig>,
    category: Category,
    more: CategoryConfig,
)
    ensures
        config_of(Seq::empty(), category) is None,
        more.category == category ==> config_of(configs.push(more), category) == Some(more),
        more.category != category ==> config_of(configs.push(more), category) == config_of(
            configs,
            category,
        ),
        config_of(configs, category) matches Some(k) ==> k.category == category && configs.contains(
            k,
        ),
    decreases configs.len(),
{
    assert(configs.push(more).drop_last() =~= configs);
    if configs.len() > 0 {
        lemma_last_config_counts(configs.drop_last(), category, more);
        if let Some(k) = config_of(configs, category) {
            if configs.last().category == category {
                assert(configs[configs.len() - 1] == k);
            } else {
                let i = configs.drop_last().index_of(k);
                assert(configs[i] == k);
            }
        }
    }
}

/// The directories of the categories.
pub proof fn lemma_directories()
    ensures
        directory_name(Category::VideoA) == "video-a"@,
        directory_name(Category::ChannelBCommand) == "channel-b-command"@,
        directory_name(Category::ChannelBTelemetry) == "channel-b-telemetry"@,
        directory_name(Category::ChannelBHaptic) == "channel-b-haptic"@,
        directory_name(Category::ActionTriggerC) == "action-trigger-c"@,
        directory_name(Category::KeyPress) == "key-press"@,
{
}

} // verus!
