//! Motion reconstructed from capture times: what a field vector was at a moment
//! that lies a little behind now, rather than what the last datagram to arrive
//! happened to carry. What lies between two samples is given as an exact
//! fraction. Force feedback does not go through here.

use vstd::prelude::*;

verus! {

/// A field vector as the sender captured it. The fields are whole numbers of
/// whatever unit the caller works in; a caller also owns the meaning of each.
#[derive(Debug)]
pub struct TimestampedSample {
    /// The sender's capture time, not the time of arrival.
    pub capture_us: u64,
    pub values: Vec<i32>,
}

/// A sample as a mathematical value.
pub struct SampleView {
    pub capture_us: u64,
    pub values: Seq<i32>,
}

impl View for TimestampedSample {
    type V = SampleView;

    open spec fn view(&self) -> SampleView {
        SampleView { capture_us: self.capture_us, values: self.values@ }
    }
}

/// How far a moment lies along the way from one sample to the next: `num / den`
/// of it. Before the first sample that is nothing, past the second one it is
/// more than the whole.
pub open spec fn progress(from: SampleView, to: SampleView, query_us: int) -> (int, int) {
    (
        if query_us < from.capture_us {
            0
        } else {
            query_us - from.capture_us
        },
        to.capture_us - from.capture_us,
    )
}

/// The number `num / den`, exactly.
#[derive(Debug, Clone, Copy, PartialEq, Eq, Structural)]
pub struct Fraction {
    pub num: i128,
    pub den: u64,
}

impl Fraction {
    /// Is it this whole number?
    pub open spec fn is(self, v: int) -> bool {
        self.den > 0 && self.num == v * self.den
    }
}

/// The point `num / den` of the way from `x` to `y`.
pub open spec fn point_between(x: int, y: int, num: int, den: int) -> Fraction {
    Fraction { num: (x * den + (y - x) * num) as i128, den: den as u64 }
}

/// The field vector `num / den` of the way from `a` to `b`; a field that only
/// one of them has is left out.
pub open spec fn vector_between(a: Seq<i32>, b: Seq<i32>, num: int, den: int) -> Seq<Fraction> {
    Seq::new(
        if a.len() <= b.len() {
            a.len()
        } else {
            b.len()
        },
        |i: int| point_between(a[i] as int, b[i] as int, num, den),
    )
}

/// A field vector as it was captured.
pub open spec fn held(values: Seq<i32>) -> Seq<Fraction> {
    Seq::new(values.len(), |i: int| Fraction { num: values[i] as i128, den: 1 })
}

/// The field vector at `query_us`: on the line through the last two samples, or
/// the last sample itself if there is no such line; nothing at all if the
/// moment lies more than `bound` past the last sample.
pub open spec fn reconstruction(
    previous: Option<SampleView>,
    latest: Option<SampleView>,
    query_us: int,
    bound: int,
) -> Option<Seq<Fraction>> {
    match latest {
        None => None,
        Some(to) => if query_us - to.capture_us > bound {
            None
        } else {
            match previous {
                Some(from) if from.capture_us < to.capture_us => {
                    let (num, den) = progress(from, to, query_us);
                    Some(vector_between(from.values, to.values, num, den))
                },
                _ => Some(held(to.values)),
            }
        },
    }
}

pub open spec fn view_of(s: Option<TimestampedSample>) -> Option<SampleView> {
    match s {
        Some(s) => Some(s@),
        None => None,
    }
}

/// The two samples received last.
#[derive(Debug)]
pub struct MotionBuffer {
    previous: Option<TimestampedSample>,
    latest: Option<TimestampedSample>,
}

impl MotionBuffer {
    pub closed spec fn older(&self) -> Option<SampleView> {
        view_of(self.previous)
    }

    pub closed spec fn newer(&self) -> Option<SampleView> {
        view_of(self.latest)
    }

    pub fn new() -> (b: Self)
        ensures
            b.older() is None,
            b.newer() is None,
    {
        MotionBuffer { previous: None, latest: None }
    }

    /// Takes in a sample. Whoever calls this has already dropped samples that
    /// came out of order.
    pub fn push(&mut self, sample: TimestampedSample)
        ensures
            final(self).newer() == Some(sample@),
            final(self).older() == old(self).newer(),
    {
        let mut fresh: Option<TimestampedSample> = Some(sample);
        std::mem::swap(&mut self.latest, &mut fresh);
        self.previous = fresh;
    }

    /// The field vector at `query_us`. `None` says that the sender has stopped
    /// producing samples; what to do then is the caller's decision.
    pub fn reconstruct_at(&self, query_us: u64, max_extrapolation_us: u64) -> (r: Option<
        Vec<Fraction>,
    >)
        ensures
            match r {
                Some(v) => reconstruction(
                    self.older(),
                    self.newer(),
                    query_us as int,
                    max_extrapolation_us as int,
                ) == Some(v@),
                None => reconstruction(
                    self.older(),
                    self.newer(),
                    query_us as int,
                    max_extrapolation_us as int,
                ) is None,
            },
    {
        match &self.latest {
            None => None,
            Some(to) => {
                if query_us > to.capture_us && query_us - to.capture_us > max_extrapolation_us {
                    return None;
                }
                match &self.previous {
                    Some(from) => {
                        if from.capture_us < to.capture_us {
                            let num: u64 = query_us.saturating_sub(from.capture_us);
                            let den: u64 = to.capture_us - from.capture_us;
                            return Some(lerp(&from.values, &to.values, num, den));
                        }
                    },
                    None => {},
                }
                Some(hold(&to.values))
            },
        }
    }
}

fn hold(values: &Vec<i32>) -> (out: Vec<Fraction>)
    ensures
        out@ == held(values@),
{
    let mut out: Vec<Fraction> = Vec::new();
    let mut i: usize = 0;
    while i < values.len()
        invariant
            i <= values@.len(),
            out@ =~= held(values@.take(i as int)),
        decreases values@.len() - i,
    {
        out.push(Fraction { num: values[i] as i128, den: 1 });
        i = i + 1;
    }
    proof {
        assert(values@.take(i as int) =~= values@);
    }
    out
}

/// The field vector `num / den` of the way from `a` to `b`.
fn lerp(a: &Vec<i32>, b: &Vec<i32>, num: u64, den: u64) -> (out: Vec<Fraction>)
    requires
        0 < den,
    ensures
        out@ == vector_between(a@, b@, num as int, den as int),
{
    let n: usize = if a.len() <= b.len() {
        a.len()
    } else {
        b.len()
    };
    let mut out: Vec<Fraction> = Vec::new();
    let mut i: usize = 0;
    while i < n
        invariant
            i <= n,
            n <= a@.len(),
            n <= b@.len(),
            0 < den,
            out@.len() == i,
            forall|k: int|
                0 <= k < i ==> #[trigger] out@[k] == point_between(
                    a@[k] as int,
                    b@[k] as int,
                    num as int,
                    den as int,
                ),
        decreases n - i,
    {
        out.push(point(a[i], b[i], num, den));
        i = i + 1;
    }
    proof {
        assert(out@ =~= vector_between(a@, b@, num as int, den as int));
    }
    out
}

/// The point `num / den` of the way from `x` to `y`.
fn point(x: i32, y: i32, num: u64, den: u64) -> (p: Fraction)
    requires
        0 < den,
    ensures
        p == point_between(x as int, y as int, num as int, den as int),
{
    proof {
        lemma_point_fits(x as int, y as int, num as int, den as int);
    }
    let base: i128 = (x as i128) * (den as i128);
    let way: i128 = ((y as i128) - (x as i128)) * (num as i128);
    Fraction { num: base + way, den }
}

proof fn lemma_point_fits(x: int, y: int, num: int, den: int)
    requires
        i32::MIN <= x <= i32::MAX,
        i32::MIN <= y <= i32::MAX,
        0 <= num <= u64::MAX,
        0 < den <= u64::MAX,
    ensures
        -0x8000_0000_0000_0000_0000_0000 <= x * den <= 0x8000_0000_0000_0000_0000_0000,
        -0x1_0000_0000_0000_0000_0000_0000 <= (y - x) * num <= 0x1_0000_0000_0000_0000_0000_0000,
{
    assert(-0x8000_0000_0000_0000_0000_0000 <= x * den <= 0x8000_0000_0000_0000_0000_0000)
        by (nonlinear_arith)
        requires
            -0x8000_0000 <= x <= 0x8000_0000,
            0 < den <= 0x1_0000_0000_0000_0000,
    ;
    assert(-0x1_0000_0000_0000_0000_0000_0000 <= (y - x) * num
        <= 0x1_0000_0000_0000_0000_0000_0000) by (nonlinear_arith)
        requires
            -0x1_0000_0000 <= y - x <= 0x1_0000_0000,
            0 <= num <= 0x1_0000_0000_0000_0000,
    ;
}

/// One and a half periods of a rate, in microseconds.
pub open spec fn behind(control_rate_hz: int) -> int {
    if control_rate_hz == 0 {
        0
    } else {
        1_500_000int / control_rate_hz
    }
}

/// One and a half periods, rounded down to whole microseconds; nothing without a
/// rate.
pub proof fn lemma_one_and_a_half_periods(control_rate_hz: int)
    requires
        control_rate_hz > 0,
    ensures
        behind(control_rate_hz) * control_rate_hz <= 1_500_000,
        1_500_000 < (behind(control_rate_hz) + 1) * control_rate_hz,
        behind(0) == 0,
{
    let d = behind(control_rate_hz);
    assert(d * control_rate_hz <= 1_500_000 < (d + 1) * control_rate_hz) by (nonlinear_arith)
        requires
            d == 1_500_000int / control_rate_hz,
            control_rate_hz > 0,
    ;
}

/// How far behind now to reconstruct, by default: one and a half periods of the
/// control rate.
pub fn default_interpolation_delay_us(control_rate_hz: u16) -> (us: u64)
    ensures
        us == behind(control_rate_hz as int),
        us == if control_rate_hz == 0 {
            0
        } else {
            1_500_000int / control_rate_hz as int
        },
        control_rate_hz != 0 ==> us >= 1,
{
    if control_rate_hz == 0 {
        return 0;
    }
    let us: u64 = 1_500_000 / control_rate_hz as u64;
    proof {
        let rate = control_rate_hz as int;
        assert(1_500_000int / rate >= 22) by (nonlinear_arith)
            requires
                0 < rate <= 65535,
        ;
    }
    us
}

/// At the capture times themselves the samples come out as they were captured,
/// and a moment before both holds the earlier one: nothing is extrapolated
/// backward.
pub proof fn lemma_samples_kept(from: SampleView, to: SampleView, early: int, bound: int)
    requires
        from.capture_us < to.capture_us,
        from.values.len() == to.values.len(),
        early <= from.capture_us,
        0 <= bound,
    ensures
        ({
            let first = reconstruction(Some(from), Some(to), early, bound);
            let second = reconstruction(Some(from), Some(to), to.capture_us as int, bound);
            &&& first is Some && first->0.len() == from.values.len()
            &&& second is Some && second->0.len() == to.values.len()
            &&& forall|i: int|
                0 <= i < from.values.len() ==> (#[trigger] first->0[i]).is(from.values[i] as int)
            &&& forall|i: int|
                0 <= i < to.values.len() ==> (#[trigger] second->0[i]).is(to.values[i] as int)
        }),
{
    let den = to.capture_us - from.capture_us;
    let first = reconstruction(Some(from), Some(to), early, bound)->0;
    let second = reconstruction(Some(from), Some(to), to.capture_us as int, bound)->0;
    assert forall|i: int| 0 <= i < from.values.len() implies (#[trigger] first[i]).is(
        from.values[i] as int,
    ) by {
        let (x, y) = (from.values[i] as int, to.values[i] as int);
        lemma_point_fits(x, y, 0, den);
        assert(x * den + (y - x) * 0 == x * den);
    }
    assert forall|i: int| 0 <= i < to.values.len() implies (#[trigger] second[i]).is(
        to.values[i] as int,
    ) by {
        let (x, y) = (from.values[i] as int, to.values[i] as int);
        lemma_point_fits(x, y, den, den);
        assert(x * den + (y - x) * den == y * den) by (nonlinear_arith);
    }
}

/// Evenly paced motion stays evenly paced, between the samples and past them: a
/// field that moves `speed` units a microsecond is found where that speed puts
/// it.
pub proof fn lemma_even_motion(x: i32, y: i32, speed: int, num: u64, den: u64)
    requires
        0 < den,
        y == x + speed * den,
    ensures
        point_between(x as int, y as int, num as int, den as int).is(x + speed * num),
{
    lemma_point_fits(x as int, y as int, num as int, den as int);
    assert(x * den + (y - x) * num == (x + speed * num) * den) by (nonlinear_arith)
        requires
            y == x + speed * den,
    ;
}

/// Between two samples a field stays between their values.
pub proof fn lemma_stays_between(x: i32, y: i32, num: u64, den: u64)
    requires
        x <= y,
        0 < den,
        num <= den,
    ensures
        ({
            let p = point_between(x as int, y as int, num as int, den as int);
            let back = point_between(y as int, x as int, num as int, den as int);
            &&& x * p.den <= p.num <= y * p.den
            &&& x * back.den <= back.num <= y * back.den
        }),
{
    lemma_point_fits(x as int, y as int, num as int, den as int);
    lemma_point_fits(y as int, x as int, num as int, den as int);
    assert(x * den <= x * den + (y - x) * num <= y * den) by (nonlinear_arith)
        requires
            x <= y,
            0 <= num <= den,
    ;
    assert(x * den <= y * den + (x - y) * num <= y * den) by (nonlinear_arith)
        requires
            x <= y,
            0 <= num <= den,
    ;
}

/// Where there is motion to reconstruct: as long as there is a sample and the
/// moment lies no farther past it than is permitted. With one sample, or where
/// both were captured at the same time, it is the last sample's.
pub proof fn lemma_last_sample_is_held(
    previous: Option<SampleView>,
    latest: Option<SampleView>,
    query_us: u64,
    bound: u64,
    i: int,
)
    ensures
        ({
            let r = reconstruction(previous, latest, query_us as int, bound as int);
            &&& r is Some <==> latest is Some && query_us <= latest->0.capture_us + bound
            &&& r is Some && (previous is None || previous->0.capture_us
                >= latest->0.capture_us) ==> {
                &&& r->0.len() == latest->0.values.len()
                &&& 0 <= i < r->0.len() ==> r->0[i].is(latest->0.values[i] as int)
            }
        }),
{
}

/// With two samples every field that both have lies on the straight line through
/// them, at the moment asked for, but not before the first.
pub proof fn lemma_motion_is_on_the_line(
    from: SampleView,
    to: SampleView,
    query_us: u64,
    bound: u64,
    i: int,
)
    requires
        from.capture_us < to.capture_us,
        query_us <= to.capture_us + bound,
        0 <= i < from.values.len(),
        i < to.values.len(),
    ensures
        ({
            let r = reconstruction(Some(from), Some(to), query_us as int, bound as int)->0;
            let (t0, t1) = (from.capture_us, to.capture_us);
            &&& i < r.len()
            &&& r.len() == from.values.len() || r.len() == to.values.len()
            &&& r.len() <= from.values.len() && r.len() <= to.values.len()
            &&& r[i].den == t1 - t0
            &&& query_us >= t0 ==> r[i].num == from.values[i] * (t1 - query_us) + to.values[i] * (
            query_us - t0)
            &&& query_us < t0 ==> r[i].num == from.values[i] * (t1 - t0)
        }),
{
    let (t0, t1) = (from.capture_us as int, to.capture_us as int);
    let t: int = if query_us < t0 {
        t0
    } else {
        query_us as int
    };
    let (x, y) = (from.values[i] as int, to.values[i] as int);
    lemma_point_fits(x, y, t - t0, t1 - t0);
    assert(x * (t1 - t0) + (y - x) * (t - t0) == x * (t1 - t) + y * (t - t0)) by (nonlinear_arith);
    assert(t == t0 ==> y * (t - t0) == 0) by (nonlinear_arith);
}

} // verus!
