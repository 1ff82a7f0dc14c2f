//! What the programs' options mean, and which of them go together.

use vstd::prelude::*;
use crate::client::VideoBackend;
use crate::recorder::{Category, CategoryConfig, RecorderConfig};
use crate::safety::TaskClass;
use crate::text;
use crate::text::{push_text, same_text};
use crate::time;
use crate::time::Duration;

verus! {

pub open spec fn class_name(class: TaskClass) -> Seq<char> {
    match class {
        TaskClass::B => "B"@,
        TaskClass::C => "C"@,
        TaskClass::D => "D"@,
        TaskClass::E => "E"@,
    }
}

/// The task class with this name.
pub fn parse_task_class(name: &str) -> (r: Option<TaskClass>)
    ensures
        match r {
            Some(class) => name@ == class_name(class),
            None => forall|class: TaskClass| name@ != #[trigger] class_name(class),
        },
{
    if same_text(name, "B") {
        Some(TaskClass::B)
    } else if same_text(name, "C") {
        Some(TaskClass::C)
    } else if same_text(name, "D") {
        Some(TaskClass::D)
    } else if same_text(name, "E") {
        Some(TaskClass::E)
    } else {
        None
    }
}

pub open spec fn backend_name(backend: VideoBackend) -> Seq<char> {
    match backend {
        VideoBackend::Ffplay => "ffplay"@,
        VideoBackend::Native => "native"@,
    }
}

/// The video backend with this name.
pub fn parse_video_backend(name: &str) -> (r: Option<VideoBackend>)
    ensures
        match r {
            Some(backend) => name@ == backend_name(backend),
            None => forall|backend: VideoBackend| name@ != #[trigger] backend_name(backend),
        },
{
    if same_text(name, "ffplay") {
        Some(VideoBackend::Ffplay)
    } else if same_text(name, "native") {
        Some(VideoBackend::Native)
    } else {
        None
    }
}

/// Why a category cannot be recorded.
#[derive(Debug)]
pub enum CategoryError {
    /// The robot has no keyboard.
    NoKeyboard,
    Unknown(String),
}

/// The category that the robot records under this name.
pub open spec fn robot_category(name: Seq<char>) -> Option<Category> {
    if name == "video"@ {
        Some(Category::VideoA)
    } else if name == "command"@ {
        Some(Category::ChannelBCommand)
    } else if name == "telemetry"@ {
        Some(Category::ChannelBTelemetry)
    } else if name == "haptic"@ {
        Some(Category::ChannelBHaptic)
    } else if name == "action"@ {
        Some(Category::ActionTriggerC)
    } else {
        None
    }
}

/// The category that the robot records under this name. Asking it for key
/// presses is an error rather than silently nothing.
pub fn parse_record_category(name: &str) -> (r: Result<Category, CategoryError>)
    ensures
        match r {
            Ok(category) => robot_category(name@) == Some(category),
            Err(CategoryError::NoKeyboard) => robot_category(name@) is None && name@
                == "key-press"@,
            Err(CategoryError::Unknown(other)) => robot_category(name@) is None && name@
                != "key-press"@ && other@ == name@,
        },
{
    if same_text(name, "video") {
        Ok(Category::VideoA)
    } else if same_text(name, "command") {
        Ok(Category::ChannelBCommand)
    } else if same_text(name, "telemetry") {
        Ok(Category::ChannelBTelemetry)
    } else if same_text(name, "haptic") {
        Ok(Category::ChannelBHaptic)
    } else if same_text(name, "action") {
        Ok(Category::ActionTriggerC)
    } else if same_text(name, "key-press") {
        Err(CategoryError::NoKeyboard)
    } else {
        Err(CategoryError::Unknown(String::from_str(name)))
    }
}

/// The category that the console records under this name beside those that are
/// switched at run time.
pub open spec fn extra_category(name: Seq<char>) -> Option<Category> {
    if name == "haptic"@ {
        Some(Category::ChannelBHaptic)
    } else if name == "action"@ {
        Some(Category::ActionTriggerC)
    } else {
        None
    }
}

/// The category that the console records under this name from the start.
pub fn parse_record_extra_category(name: &str) -> (r: Result<Category, CategoryError>)
    ensures
        match r {
            Ok(category) => extra_category(name@) == Some(category),
            Err(CategoryError::Unknown(other)) => extra_category(name@) is None && other@ == name@,
            Err(CategoryError::NoKeyboard) => false,
        },
{
    if same_text(name, "haptic") {
        Ok(Category::ChannelBHaptic)
    } else if same_text(name, "action") {
        Ok(Category::ActionTriggerC)
    } else {
        Err(CategoryError::Unknown(String::from_str(name)))
    }
}

/// A list with its items taken apart at the commas.
pub open spec fn items(s: Seq<char>) -> Seq<Seq<char>>
    decreases s.len(),
{
    if s.len() == 0 {
        seq![Seq::empty()]
    } else {
        let before = items(s.drop_last());
        if s.last() == ',' {
            before.push(Seq::empty())
        } else {
            before.update(before.len() - 1, before.last().push(s.last()))
        }
    }
}

/// Takes a list apart at its commas.
pub fn split_items(list: &str) -> (out: Vec<String>)
    ensures
        text::texts(out@) == items(list@),
{
    let n: usize = list.unicode_len();
    let mut out: Vec<String> = Vec::new();
    let mut from: usize = 0;
    let mut i: usize = 0;
    let ghost mut whole: Seq<Seq<char>> = Seq::empty();
    proof {
        assert(list@.subrange(0, 0) =~= Seq::empty());
        assert(text::texts(out@) =~= whole);
        assert(items(list@.subrange(0, 0)) =~= whole.push(list@.subrange(0, 0)));
    }
    while i < n
        invariant
            from <= i <= n,
            n == list@.len(),
            whole == text::texts(out@),
            items(list@.subrange(0, i as int)) == whole.push(list@.subrange(from as int, i as int)),
        decreases n - i,
    {
        let c: char = list.get_char(i);
        let ghost head = list@.subrange(0, i + 1);
        proof {
            assert(head.drop_last() =~= list@.subrange(0, i as int));
            assert(head.last() == c);
        }
        if c == ',' {
            push_text(&mut out, list.substring_char(from, i));
            from = i + 1;
            proof {
                let item = list@.subrange(from as int, i + 1);
                assert(item =~= Seq::empty());
                whole = text::texts(out@);
                assert(items(head) =~= whole.push(item));
            }
        } else {
            proof {
                let item = list@.subrange(from as int, i as int);
                let longer = list@.subrange(from as int, i + 1);
                assert(longer =~= item.push(c));
                assert(items(head) =~= whole.push(longer));
            }
        }
        i = i + 1;
    }
    push_text(&mut out, list.substring_char(from, n));
    proof {
        assert(list@.subrange(0, n as int) =~= list@);
        assert(text::texts(out@) =~= items(list@));
    }
    out
}

/// All the categories of a list, if there is one for every name.
pub open spec fn all_categories(
    found: Seq<Option<Category>>,
    categories: Seq<Category>,
) -> bool {
    categories.len() == found.len() && forall|i: int|
        0 <= i < found.len() ==> #[trigger] found[i] == Some(categories[i])
}

/// The categories that the robot is to record. The first name that there is no
/// category for is the error.
pub fn parse_record_list(list: &str) -> (r: Result<Vec<Category>, CategoryError>)
    ensures
        ({
            let found = Seq::new(items(list@).len(), |i: int| robot_category(items(list@)[i]));
            match r {
                Ok(categories) => all_categories(found, categories@),
                Err(e) => exists|i: int|
                    0 <= i < found.len() && (#[trigger] found[i]) is None && (forall|k: int|
                        0 <= k < i ==> (#[trigger] found[k]) is Some) && match e {
                        CategoryError::NoKeyboard => items(list@)[i] == "key-press"@,
                        CategoryError::Unknown(other) => other@ == items(list@)[i] && other@
                            != "key-press"@,
                    },
            }
        }),
{
    let names: Vec<String> = split_items(list);
    let ghost all = items(list@);
    let ghost found = Seq::new(all.len(), |i: int| robot_category(all[i]));
    let mut categories: Vec<Category> = Vec::new();
    let n: usize = names.len();
    let mut i: usize = 0;
    proof {
        assert(text::texts(names@).len() == all.len());
    }
    while i < n
        invariant
            i <= n,
            n == names@.len(),
            all == items(list@),
            all == text::texts(names@),
            found == Seq::new(all.len(), |i: int| robot_category(all[i])),
            categories@.len() == i,
            forall|k: int| 0 <= k < i ==> #[trigger] found[k] == Some(categories@[k]),
        decreases n - i,
    {
        proof {
            assert(all[i as int] == names@[i as int]@);
            assert(found[i as int] == robot_category(all[i as int]));
        }
        match parse_record_category(names[i].as_str()) {
            Ok(category) => categories.push(category),
            Err(e) => {
                return Err(e);
            },
        }
        i = i + 1;
    }
    Ok(categories)
}

/// The categories that the console is to record from the start. The first name
/// that there is no category for is the error.
pub fn parse_record_extra_list(list: &str) -> (r: Result<Vec<Category>, CategoryError>)
    ensures
        ({
            let found = Seq::new(items(list@).len(), |i: int| extra_category(items(list@)[i]));
            match r {
                Ok(categories) => all_categories(found, categories@),
                Err(e) => exists|i: int|
                    0 <= i < found.len() && (#[trigger] found[i]) is None && (forall|k: int|
                        0 <= k < i ==> (#[trigger] found[k]) is Some) && (e matches
                        CategoryError::Unknown(other) && other@ == items(list@)[i]),
            }
        }),
{
    let names: Vec<String> = split_items(list);
    let ghost all = items(list@);
    let ghost found = Seq::new(all.len(), |i: int| extra_category(all[i]));
    let mut categories: Vec<Category> = Vec::new();
    let n: usize = names.len();
    let mut i: usize = 0;
    proof {
        assert(text::texts(names@).len() == all.len());
    }
    while i < n
        invariant
            i <= n,
            n == names@.len(),
            all == items(list@),
            all == text::texts(names@),
            found == Seq::new(all.len(), |i: int| extra_category(all[i])),
            categories@.len() == i,
            forall|k: int| 0 <= k < i ==> #[trigger] found[k] == Some(categories@[k]),
        decreases n - i,
    {
        proof {
            assert(all[i as int] == names@[i as int]@);
            assert(found[i as int] == extra_category(all[i as int]));
        }
        match parse_record_extra_category(names[i].as_str()) {
            Ok(category) => categories.push(category),
            Err(e) => {
                return Err(e);
            },
        }
        i = i + 1;
    }
    Ok(categories)
}

/// The sizes and times of recording, as they are given on the command line.
#[derive(Debug, Clone, Copy, PartialEq, Eq, Structural)]
pub struct RecordLimits {
    pub max_segment_mb: u64,
    pub max_segment_secs: u64,
    pub budget_mb: u64,
    pub video_budget_mb: u64,
    pub flush_secs: u64,
}

impl RecordLimits {
    /// The sizes can be expressed in bytes.
    pub open spec fn ok(self) -> bool {
        &&& self.max_segment_mb * 1_000_000 <= u64::MAX
        &&& self.budget_mb * 1_000_000 <= u64::MAX
        &&& self.video_budget_mb * 1_000_000 <= u64::MAX
    }

    /// Can the sizes be expressed in bytes?
    pub fn fit(&self) -> (b: bool)
        ensures
            b == self.ok(),
    {
        self.max_segment_mb <= u64::MAX / 1_000_000 && self.budget_mb <= u64::MAX / 1_000_000
            && self.video_budget_mb <= u64::MAX / 1_000_000
    }

    /// The configuration of one category. Video has a budget of its own.
    pub open spec fn category(self, category: Category, start_active: bool) -> CategoryConfig {
        CategoryConfig {
            category,
            ring_capacity: 256,
            max_segment_bytes: (self.max_segment_mb * 1_000_000) as u64,
            max_segment_duration: Duration { nanos: time::seconds(self.max_segment_secs) },
            max_total_bytes: (1_000_000 * if category == Category::VideoA {
                self.video_budget_mb
            } else {
                self.budget_mb
            }) as u64,
            flush_interval: Duration { nanos: time::seconds(self.flush_secs) },
            start_active,
        }
    }

    fn category_config(&self, category: Category, start_active: bool) -> (c: CategoryConfig)
        requires
            self.ok(),
        ensures
            c == self.category(category, start_active),
    {
        let budget_mb: u64 = if category == Category::VideoA {
            self.video_budget_mb
        } else {
            self.budget_mb
        };
        CategoryConfig {
            category,
            ring_capacity: 256,
            max_segment_bytes: self.max_segment_mb * 1_000_000,
            max_segment_duration: Duration::from_secs(self.max_segment_secs),
            max_total_bytes: budget_mb * 1_000_000,
            flush_interval: Duration::from_secs(self.flush_secs),
            start_active,
        }
    }
}

/// The configurations of categories that record from the start.
pub open spec fn active_configs(
    limits: RecordLimits,
    categories: Seq<Category>,
) -> Seq<CategoryConfig> {
    Seq::new(categories.len(), |i: int| limits.category(categories[i], true))
}

/// The configurations of the categories that are switched at run time.
pub open spec fn toggled_configs(limits: RecordLimits) -> Seq<CategoryConfig> {
    seq![
        limits.category(Category::VideoA, false),
        limits.category(Category::ChannelBCommand, false),
        limits.category(Category::ChannelBTelemetry, false),
        limits.category(Category::KeyPress, false),
    ]
}

fn push_active(out: &mut Vec<CategoryConfig>, limits: &RecordLimits, categories: &Vec<Category>)
    requires
        limits.ok(),
    ensures
        final(out)@ == old(out)@ + active_configs(*limits, categories@),
{
    let n: usize = categories.len();
    let mut i: usize = 0;
    proof {
        assert(out@ =~= old(out)@ + active_configs(*limits, categories@.take(0)));
    }
    while i < n
        invariant
            i <= n,
            n == categories@.len(),
            limits.ok(),
            out@ == old(out)@ + active_configs(*limits, categories@.take(i as int)),
        decreases n - i,
    {
        out.push(limits.category_config(categories[i], true));
        i = i + 1;
        proof {
            assert(out@ =~= old(out)@ + active_configs(*limits, categories@.take(i as int)));
        }
    }
    proof {
        assert(categories@.take(n as int) =~= categories@);
    }
}

/// The robot's recorder: the categories that were asked for, recording from the
/// start; nothing at all without a directory.
pub fn robot_recorder_config(
    record_dir: Option<String>,
    categories: &Vec<Category>,
    limits: &RecordLimits,
) -> (c: RecorderConfig)
    requires
        limits.ok(),
    ensures
        match record_dir {
            Some(dir) => c.record_dir@ == dir@ && c.categories@ == active_configs(
                *limits,
                categories@,
            ),
            None => c.record_dir@ == Seq::<char>::empty() && c.categories@.len() == 0,
        },
{
    match record_dir {
        Some(record_dir) => {
            let mut configs: Vec<CategoryConfig> = Vec::new();
            push_active(&mut configs, limits, categories);
            proof {
                assert(configs@ =~= active_configs(*limits, categories@));
            }
            RecorderConfig { record_dir, categories: configs }
        },
        None => RecorderConfig { record_dir: String::new(), categories: Vec::new() },
    }
}

/// The console's recorder: the categories that are switched at run time, not
/// recording yet, and those that were asked for beside them; nothing at all
/// without a directory.
pub fn operator_recorder_config(
    record_dir: Option<String>,
    extra: &Vec<Category>,
    limits: &RecordLimits,
) -> (c: RecorderConfig)
    requires
        limits.ok(),
    ensures
        match record_dir {
            Some(dir) => c.record_dir@ == dir@ && c.categories@ == toggled_configs(*limits)
                + active_configs(*limits, extra@),
            None => c.record_dir@ == Seq::<char>::empty() && c.categories@.len() == 0,
        },
{
    match record_dir {
        Some(record_dir) => {
            let mut configs: Vec<CategoryConfig> = Vec::new();
            configs.push(limits.category_config(Category::VideoA, false));
            configs.push(limits.category_config(Category::ChannelBCommand, false));
            configs.push(limits.category_config(Category::ChannelBTelemetry, false));
            configs.push(limits.category_config(Category::KeyPress, false));
            proof {
                assert(configs@ =~= toggled_configs(*limits));
            }
            push_active(&mut configs, limits, extra);
            RecorderConfig { record_dir, categories: configs }
        },
        None => RecorderConfig { record_dir: String::new(), categories: Vec::new() },
    }
}

/// Why options do not go together.
#[derive(Debug, Clone, Copy, PartialEq, Eq, Structural)]
pub enum OptionsError {
    RecordWithoutDirectory,
    OverlayWithoutVideo,
    /// The overlay is a filter of the external player.
    OverlayNeedsFfplay,
}

/// Categories to record need a directory.
pub fn check_recording(categories: &Vec<Category>, has_dir: bool) -> (r: Result<(), OptionsError>)
    ensures
        r == if categories@.len() > 0 && !has_dir {
            Err::<(), OptionsError>(OptionsError::RecordWithoutDirectory)
        } else {
            Ok::<(), OptionsError>(())
        },
{
    if categories.len() > 0 && !has_dir {
        Err(OptionsError::RecordWithoutDirectory)
    } else {
        Ok(())
    }
}

/// The console's options go together: categories to record need a directory, an
/// overlay needs video, and the external player to show it.
pub fn check_operator(
    extra: &Vec<Category>,
    has_dir: bool,
    video: bool,
    overlay: bool,
    backend: VideoBackend,
) -> (r: Result<(), OptionsError>)
    ensures
        r == if extra@.len() > 0 && !has_dir {
            Err::<(), OptionsError>(OptionsError::RecordWithoutDirectory)
        } else if overlay && !video {
            Err::<(), OptionsError>(OptionsError::OverlayWithoutVideo)
        } else if overlay && backend == VideoBackend::Native {
            Err::<(), OptionsError>(OptionsError::OverlayNeedsFfplay)
        } else {
            Ok::<(), OptionsError>(())
        },
{
    check_recording(extra, has_dir)?;
    if overlay && !video {
        return Err(OptionsError::OverlayWithoutVideo);
    }
    if overlay && backend == VideoBackend::Native {
        return Err(OptionsError::OverlayNeedsFfplay);
    }
    Ok(())
}

/// What the driver process is started with, behind its script.
pub open spec fn driver_args(
    stub: bool,
    serial_port: Seq<char>,
    watchdog_ms: Seq<char>,
) -> Seq<Seq<char>> {
    if stub {
        seq!["--stub"@]
    } else {
        seq!["--port"@, serial_port, "--watchdog-ms"@, watchdog_ms]
    }
}

/// What the driver process is started with, behind its script.
pub fn bridge_args(stub: bool, serial_port: &str, watchdog_ms: &str) -> (args: Vec<String>)
    ensures
        text::texts(args@) == driver_args(stub, serial_port@, watchdog_ms@),
{
    let mut args: Vec<String> = Vec::new();
    proof {
        assert(text::texts(args@) =~= Seq::empty());
    }
    if stub {
        push_text(&mut args, "--stub");
    } else {
        push_text(&mut args, "--port");
        push_text(&mut args, serial_port);
        push_text(&mut args, "--watchdog-ms");
        push_text(&mut args, watchdog_ms);
    }
    proof {
        assert(text::texts(args@) =~= driver_args(stub, serial_port@, watchdog_ms@));
    }
    args
}

/// Each name of a category means that category, on the robot and on the console.
pub proof fn lemma_category_names()
    ensures
        robot_category("video"@) == Some(Category::VideoA),
        robot_category("command"@) == Some(Category::ChannelBCommand),
        robot_category("telemetry"@) == Some(Category::ChannelBTelemetry),
        robot_category("haptic"@) == Some(Category::ChannelBHaptic),
        robot_category("action"@) == Some(Category::ActionTriggerC),
        robot_category("key-press"@) is None,
        extra_category("haptic"@) == Some(Category::ChannelBHaptic),
        extra_category("action"@) == Some(Category::ActionTriggerC),
        extra_category("video"@) is None,
        extra_category("key-press"@) is None,
{
    reveal_strlit("video");
    reveal_strlit("command");
    reveal_strlit("telemetry");
    reveal_strlit("haptic");
    reveal_strlit("action");
    reveal_strlit("key-press");
    assert("video"@.len() == 5 && "command"@.len() == 7 && "telemetry"@.len() == 9);
    assert("haptic"@[0] == 'h' && "action"@[0] == 'a' && "haptic"@.len() == 6);
    assert("key-press"@[0] == 'k' && "telemetry"@[0] == 't');
}

/// A list falls apart at its commas: an item more for each comma, and none of the
/// items holds one.
pub proof fn lemma_items(s: Seq<char>, more: char)
    ensures
        items(Seq::empty()).len() == 1,
        more == ',' ==> items(s.push(more)) == items(s).push(Seq::empty()),
        more != ',' ==> items(s.push(more)).len() == items(s).len() && items(s.push(more)).last()
            == items(s).last().push(more) && items(s.push(more)).drop_last() == items(s).drop_last(),
        items(s).len() > 0,
    decreases s.len(),
{
    assert(s.push(more).drop_last() =~= s);
    if s.len() > 0 {
        lemma_items(s.drop_last(), s.last());
        assert(s.drop_last().push(s.last()) =~= s);
    }
    assert(items(s.push(',')) == items(s).push(Seq::empty())) by {
        assert(s.push(',').drop_last() =~= s);
    }
    if more != ',' {
        assert(items(s.push(more)).drop_last() =~= items(s).drop_last());
    }
}

/// How a category is recorded: under the limits that are set, in millions of
/// bytes and in seconds, with a queue of two hundred and fifty-six records; the
/// video has a budget of its own.
pub proof fn lemma_limits_are_applied(l: RecordLimits, category: Category, start_active: bool)
    requires
        l.ok(),
        l.max_segment_secs <= 1_000_000_000,
        l.flush_secs <= 1_000_000_000,
    ensures
        ({
            let c = l.category(category, start_active);
            &&& c.category == category
            &&& c.start_active == start_active
            &&& c.ring_capacity == 256
            &&& c.max_segment_bytes == l.max_segment_mb * 1_000_000
            &&& c.max_segment_duration.nanos == l.max_segment_secs * 1_000_000_000
            &&& c.flush_interval.nanos == l.flush_secs * 1_000_000_000
            &&& category is VideoA ==> c.max_total_bytes == l.video_budget_mb * 1_000_000
            &&& !(category is VideoA) ==> c.max_total_bytes == l.budget_mb * 1_000_000
        }),
{
}

/// What is switched at run time is off at first: the video, commands, telemetry
/// and keys.
pub proof fn lemma_switched_categories(l: RecordLimits)
    ensures
        toggled_configs(l).len() == 4,
        toggled_configs(l)[0].category == Category::VideoA,
        toggled_configs(l)[1].category == Category::ChannelBCommand,
        toggled_configs(l)[2].category == Category::ChannelBTelemetry,
        toggled_configs(l)[3].category == Category::KeyPress,
        forall|i: int| 0 <= i < 4 ==> !(#[trigger] toggled_configs(l)[i]).start_active,
{
}

/// What the driver is started with: without a robot nothing but that; otherwise
/// the port and the time that it may wait, each behind its option.
pub proof fn lemma_driver_arguments(port: Seq<char>, ms: Seq<char>)
    ensures
        driver_args(true, port, ms) == seq!["--stub"@],
        driver_args(false, port, ms).len() == 4,
        driver_args(false, port, ms)[0] == "--port"@ && driver_args(false, port, ms)[1] == port,
        driver_args(false, port, ms)[2] == "--watchdog-ms"@ && driver_args(false, port, ms)[3] == ms,
{
}

/// What each task class and each way of playing the video is called.
pub proof fn lemma_class_and_backend_names()
    ensures
        class_name(TaskClass::B) == "B"@,
        class_name(TaskClass::C) == "C"@,
        class_name(TaskClass::D) == "D"@,
        class_name(TaskClass::E) == "E"@,
        backend_name(VideoBackend::Ffplay) == "ffplay"@,
        backend_name(VideoBackend::Native) == "native"@,
{
}

} // verus!
