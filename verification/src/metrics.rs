//! Timing samples, wake marks and surface damage.
use vstd::prelude::*;

use crate::text;

verus! {

pub const MAX_TASKS: usize = 16;

pub const MAX_SURFACES: usize = 4;

/// The latest value of a measurement and the largest ever.
#[derive(Clone, Copy, Debug, PartialEq, Eq, Structural)]
pub struct MetricSample {
    pub latest: u64,
    pub max: u64,
}

impl MetricSample {
    pub open spec fn stored(self, value: u64) -> MetricSample {
        MetricSample { latest: value, max: if value > self.max { value } else { self.max } }
    }

    fn store(self, value: u64) -> (r: MetricSample)
        ensures
            r == self.stored(value),
    {
        MetricSample { latest: value, max: if value > self.max { value } else { self.max } }
    }
}

/// The part of a surface that changed since it was last presented.
#[derive(Clone, Copy, Debug, PartialEq, Eq, Structural)]
pub struct DamageRect {
    pub x: u32,
    pub y: u32,
    pub w: u32,
    pub h: u32,
}

pub open spec fn spec_sat_add(a: u32, b: u32) -> u32 {
    if a + b > u32::MAX {
        u32::MAX
    } else {
        (a + b) as u32
    }
}

pub open spec fn min_u32(a: u32, b: u32) -> u32 {
    if a < b {
        a
    } else {
        b
    }
}

pub open spec fn max_u32(a: u32, b: u32) -> u32 {
    if a > b {
        a
    } else {
        b
    }
}

impl DamageRect {
    pub open spec fn none() -> DamageRect {
        DamageRect { x: 0, y: 0, w: 0, h: 0 }
    }

    pub open spec fn is_empty(self) -> bool {
        self.w == 0 || self.h == 0
    }

    /// The smallest rectangle over both, with edges that saturate. An empty
    /// rectangle adds nothing.
    pub open spec fn merged(self, o: DamageRect) -> DamageRect {
        if o.is_empty() {
            self
        } else if self.is_empty() {
            o
        } else {
            let x = min_u32(self.x, o.x);
            let y = min_u32(self.y, o.y);
            let r = max_u32(spec_sat_add(self.x, self.w), spec_sat_add(o.x, o.w));
            let b = max_u32(spec_sat_add(self.y, self.h), spec_sat_add(o.y, o.h));
            DamageRect { x, y, w: (r - x) as u32, h: (b - y) as u32 }
        }
    }

    /// The pixel lies in the rectangle.
    pub open spec fn has(self, px: int, py: int) -> bool {
        self.x <= px < self.x + self.w && self.y <= py < self.y + self.h
    }

    fn merge(self, o: DamageRect) -> (r: DamageRect)
        ensures
            r == self.merged(o),
    {
        if o.w == 0 || o.h == 0 {
            return self;
        }
        if self.w == 0 || self.h == 0 {
            return o;
        }
        let cur_r: u32 = self.x.saturating_add(self.w);
        let cur_b: u32 = self.y.saturating_add(self.h);
        let new_r: u32 = o.x.saturating_add(o.w);
        let new_b: u32 = o.y.saturating_add(o.h);
        let x: u32 = if self.x < o.x { self.x } else { o.x };
        let y: u32 = if self.y < o.y { self.y } else { o.y };
        let right: u32 = if cur_r > new_r { cur_r } else { new_r };
        let bottom: u32 = if cur_b > new_b { cur_b } else { new_b };
        DamageRect { x, y, w: right.saturating_sub(x), h: bottom.saturating_sub(y) }
    }
}

/// Merged damage covers every pixel that either part covered, as long as no
/// edge lies past the largest coordinate.
pub proof fn law_merged_damage_covers(a: DamageRect, b: DamageRect, px: int, py: int)
    requires
        a.has(px, py) || b.has(px, py),
        a.x + a.w <= u32::MAX,
        a.y + a.h <= u32::MAX,
        b.x + b.w <= u32::MAX,
        b.y + b.h <= u32::MAX,
    ensures
        a.merged(b).has(px, py),
{
}

/// Everything measured, at one moment.
#[derive(Clone, Copy, Debug, PartialEq, Eq, Structural)]
pub struct Snapshot {
    pub frame_us: MetricSample,
    pub present_us: MetricSample,
    pub background_us: MetricSample,
    pub windows_us: MetricSample,
    pub chrome_us: MetricSample,
    pub input_to_photon_us: MetricSample,
    pub ipc_rtt_us: MetricSample,
    pub ipc_delivery_ns: MetricSample,
    pub sched_wake_us: MetricSample,
}

impl Snapshot {
    pub open spec fn zero() -> Snapshot {
        let s = MetricSample { latest: 0, max: 0 };
        Snapshot {
            frame_us: s,
            present_us: s,
            background_us: s,
            windows_us: s,
            chrome_us: s,
            input_to_photon_us: s,
            ipc_rtt_us: s,
            ipc_delivery_ns: s,
            sched_wake_us: s,
        }
    }
}

/// One surface's commit count and pending damage.
#[derive(Clone, Copy, Debug, PartialEq, Eq, Structural)]
pub struct SurfaceState {
    pub seq: u64,
    pub damage: DamageRect,
}

/// All measurements.
pub struct Metrics {
    samples: Snapshot,
    wake_marks: Vec<u64>,
    surfaces: Vec<SurfaceState>,
    shell_input: u64,
}

/// The measurements as plain values.
#[verifier::ext_equal]
pub struct MetricsView {
    pub samples: Snapshot,
    pub wake_marks: Seq<u64>,
    pub surfaces: Seq<SurfaceState>,
    pub shell_input: u64,
}

impl MetricsView {
    pub open spec fn with_samples(self, samples: Snapshot) -> MetricsView {
        MetricsView { samples, ..self }
    }

    pub open spec fn unblocked(self, task_id: int, at_ns: u64) -> MetricsView {
        if task_id < MAX_TASKS {
            MetricsView { wake_marks: self.wake_marks.update(task_id, at_ns), ..self }
        } else {
            self
        }
    }

    /// A woken task runs: its mark is used up, and the time since it was set
    /// is a sample.
    pub open spec fn running(self, task_id: int, now_ns: u64) -> MetricsView {
        if task_id < MAX_TASKS {
            let mark = self.wake_marks[task_id];
            let cleared = MetricsView { wake_marks: self.wake_marks.update(task_id, 0), ..self };
            if mark > 0 && now_ns > mark {
                cleared.with_samples(
                    (Snapshot {
                        sched_wake_us: self.samples.sched_wake_us.stored(
                            ((now_ns - mark) / 1000) as u64,
                        ),
                        ..self.samples
                    }),
                )
            } else {
                cleared
            }
        } else {
            self
        }
    }

    pub open spec fn delivered(self, waited_ns: u64) -> MetricsView {
        self.with_samples(
            (Snapshot {
                ipc_delivery_ns: self.samples.ipc_delivery_ns.stored(waited_ns),
                ..self.samples
            }),
        )
    }

    pub open spec fn committed(self, id: int) -> MetricsView {
        if id < MAX_SURFACES {
            let s = self.surfaces[id];
            MetricsView {
                surfaces: self.surfaces.update(
                    id,
                    SurfaceState { seq: s.seq.wrapping_add(1), ..s },
                ),
                ..self
            }
        } else {
            self
        }
    }

    pub open spec fn damaged(self, id: int, rect: DamageRect) -> MetricsView {
        if id < MAX_SURFACES {
            let s = self.surfaces[id];
            MetricsView {
                surfaces: self.surfaces.update(
                    id,
                    SurfaceState { damage: s.damage.merged(rect), ..s },
                ),
                ..self
            }
        } else {
            self
        }
    }
}

impl Metrics {
    pub closed spec fn view(&self) -> MetricsView {
        MetricsView {
            samples: self.samples,
            wake_marks: self.wake_marks@,
            surfaces: self.surfaces@,
            shell_input: self.shell_input,
        }
    }

    pub open spec fn wf(&self) -> bool {
        self@.wake_marks.len() == MAX_TASKS && self@.surfaces.len() == MAX_SURFACES
    }

    /// Nothing measured yet.
    pub fn new() -> (m: Metrics)
        ensures
            m.wf(),
            m@.samples == Snapshot::zero(),
            m@.wake_marks == Seq::new(MAX_TASKS as nat, |i: int| 0u64),
            m@.surfaces == Seq::new(
                MAX_SURFACES as nat,
                |i: int| SurfaceState { seq: 0, damage: DamageRect::none() },
            ),
            m@.shell_input == 0,
    {
        let s = MetricSample { latest: 0, max: 0 };
        let blank = SurfaceState { seq: 0, damage: DamageRect { x: 0, y: 0, w: 0, h: 0 } };
        let mut surfaces: Vec<SurfaceState> = Vec::new();
        let mut i: usize = 0;
        while i < MAX_SURFACES
            invariant
                i <= MAX_SURFACES,
                surfaces@ == Seq::new(i as nat, |i: int| blank),
            decreases MAX_SURFACES - i,
        {
            surfaces.push(blank);
            i = i + 1;
            assert(surfaces@ =~= Seq::new(i as nat, |i: int| blank));
        }
        let m = Metrics {
            samples: Snapshot {
                frame_us: s,
                present_us: s,
                background_us: s,
                windows_us: s,
                chrome_us: s,
                input_to_photon_us: s,
                ipc_rtt_us: s,
                ipc_delivery_ns: s,
                sched_wake_us: s,
            },
            wake_marks: vec![0u64; MAX_TASKS],
            surfaces,
            shell_input: 0,
        };
        assert(m@.wake_marks =~= Seq::new(MAX_TASKS as nat, |i: int| 0u64));
        assert(m@.surfaces =~= Seq::new(
            MAX_SURFACES as nat,
            |i: int| SurfaceState { seq: 0, damage: DamageRect::none() },
        ));
        m
    }
}

pub fn record_frame_us(m: &mut Metrics, value: u64)
    ensures
        final(m)@ == old(m)@.with_samples(
            (Snapshot { frame_us: old(m)@.samples.frame_us.stored(value), ..old(m)@.samples }),
        ),
{
    m.samples.frame_us = m.samples.frame_us.store(value);
}

pub fn record_present_us(m: &mut Metrics, value: u64)
    ensures
        final(m)@ == old(m)@.with_samples(
            (Snapshot { present_us: old(m)@.samples.present_us.stored(value), ..old(m)@.samples }),
        ),
{
    m.samples.present_us = m.samples.present_us.store(value);
}

pub fn record_background_us(m: &mut Metrics, value: u64)
    ensures
        final(m)@ == old(m)@.with_samples(
            (Snapshot { background_us: old(m)@.samples.background_us.stored(value), ..old(m)@.samples }),
        ),
{
    m.samples.background_us = m.samples.background_us.store(value);
}

pub fn record_windows_us(m: &mut Metrics, value: u64)
    ensures
        final(m)@ == old(m)@.with_samples(
            (Snapshot { windows_us: old(m)@.samples.windows_us.stored(value), ..old(m)@.samples }),
        ),
{
    m.samples.windows_us = m.samples.windows_us.store(value);
}

pub fn record_chrome_us(m: &mut Metrics, value: u64)
    ensures
        final(m)@ == old(m)@.with_samples(
            (Snapshot { chrome_us: old(m)@.samples.chrome_us.stored(value), ..old(m)@.samples }),
        ),
{
    m.samples.chrome_us = m.samples.chrome_us.store(value);
}

pub fn record_input_to_photon_us(m: &mut Metrics, value: u64)
    ensures
        final(m)@ == old(m)@.with_samples(
            (Snapshot { input_to_photon_us: old(m)@.samples.input_to_photon_us.stored(value), ..old(m)@.samples }),
        ),
{
    m.samples.input_to_photon_us = m.samples.input_to_photon_us.store(value);
}

pub fn record_ipc_rtt_us(m: &mut Metrics, value: u64)
    ensures
        final(m)@ == old(m)@.with_samples(
            (Snapshot { ipc_rtt_us: old(m)@.samples.ipc_rtt_us.stored(value), ..old(m)@.samples }),
        ),
{
    m.samples.ipc_rtt_us = m.samples.ipc_rtt_us.store(value);
}

pub fn record_ipc_delivery_ns(m: &mut Metrics, value: u64)
    ensures
        final(m)@ == old(m)@.with_samples(
            (Snapshot { ipc_delivery_ns: old(m)@.samples.ipc_delivery_ns.stored(value), ..old(m)@.samples }),
        ),
{
    m.samples.ipc_delivery_ns = m.samples.ipc_delivery_ns.store(value);
}

pub fn record_sched_wake_us(m: &mut Metrics, value: u64)
    ensures
        final(m)@ == old(m)@.with_samples(
            (Snapshot { sched_wake_us: old(m)@.samples.sched_wake_us.stored(value), ..old(m)@.samples }),
        ),
{
    m.samples.sched_wake_us = m.samples.sched_wake_us.store(value);
}

/// Remembers when a task was made ready, to time how soon it runs.
pub fn note_task_unblocked(m: &mut Metrics, task_id: usize, at_ns: u64)
    requires
        old(m).wf(),
    ensures
        final(m).wf(),
        final(m)@ == old(m)@.unblocked(task_id as int, at_ns),
{
    if task_id < MAX_TASKS {
        m.wake_marks[task_id] = at_ns;
    }
}

/// A task runs again: the time since it was made ready is a sample.
pub fn note_task_running(m: &mut Metrics, task_id: usize, now_ns: u64)
    requires
        old(m).wf(),
    ensures
        final(m).wf(),
        final(m)@ == old(m)@.running(task_id as int, now_ns),
{
    if task_id >= MAX_TASKS {
        return ;
    }
    let mark: u64 = m.wake_marks[task_id];
    m.wake_marks[task_id] = 0;
    if mark > 0 && now_ns > mark {
        record_sched_wake_us(m, (now_ns - mark) / 1000);
    }
}

fn merge_surface_damage(m: &mut Metrics, surface_id: usize, rect: DamageRect)
    requires
        old(m).wf(),
    ensures
        final(m).wf(),
        final(m)@ == old(m)@.damaged(surface_id as int, rect),
{
    if surface_id >= MAX_SURFACES {
        return ;
    }
    let s: SurfaceState = m.surfaces[surface_id];
    m.surfaces[surface_id] = SurfaceState { seq: s.seq, damage: s.damage.merge(rect) };
}

/// Counts one more commit of the surface.
pub fn mark_surface_commit(m: &mut Metrics, surface_id: usize)
    requires
        old(m).wf(),
    ensures
        final(m).wf(),
        final(m)@ == old(m)@.committed(surface_id as int),
{
    if surface_id < MAX_SURFACES {
        let s: SurfaceState = m.surfaces[surface_id];
        m.surfaces[surface_id] = SurfaceState { seq: s.seq.wrapping_add(1), damage: s.damage };
    }
}

/// Adds damage to the surface and counts a commit.
pub fn mark_surface_damage(m: &mut Metrics, surface_id: usize, x: u32, y: u32, w: u32, h: u32)
    requires
        old(m).wf(),
    ensures
        final(m).wf(),
        final(m)@ == old(m)@.damaged(surface_id as int, (DamageRect { x, y, w, h })).committed(
            surface_id as int,
        ),
{
    merge_surface_damage(m, surface_id, DamageRect { x, y, w, h });
    mark_surface_commit(m, surface_id);
}

pub fn surface_commit_seq(m: &Metrics, surface_id: usize) -> (r: u64)
    requires
        m.wf(),
    ensures
        r == if surface_id < MAX_SURFACES {
            m@.surfaces[surface_id as int].seq
        } else {
            0
        },
{
    if surface_id < MAX_SURFACES {
        m.surfaces[surface_id].seq
    } else {
        0
    }
}

/// The commit count of a surface together with its pending damage.
pub fn surface_damage_snapshot(m: &Metrics, surface_id: usize) -> (r: (u64, DamageRect))
    requires
        m.wf(),
    ensures
        r == if surface_id < MAX_SURFACES {
            (m@.surfaces[surface_id as int].seq, m@.surfaces[surface_id as int].damage)
        } else {
            (0u64, DamageRect::none())
        },
{
    if surface_id >= MAX_SURFACES {
        return (0, DamageRect { x: 0, y: 0, w: 0, h: 0 });
    }
    let s: SurfaceState = m.surfaces[surface_id];
    (s.seq, s.damage)
}

/// Forgets the damage of a surface, unless it was committed again since `seq`.
pub fn clear_surface_damage(m: &mut Metrics, surface_id: usize, seq: u64)
    requires
        old(m).wf(),
    ensures
        final(m).wf(),
        final(m)@ == if surface_id < MAX_SURFACES && old(m)@.surfaces[surface_id as int].seq == seq {
            MetricsView {
                surfaces: old(m)@.surfaces.update(
                    surface_id as int,
                    SurfaceState { seq, damage: DamageRect::none() },
                ),
                ..old(m)@
            }
        } else {
            old(m)@
        },
{
    if surface_id >= MAX_SURFACES || m.surfaces[surface_id].seq != seq {
        return ;
    }
    m.surfaces[surface_id] = SurfaceState { seq, damage: DamageRect { x: 0, y: 0, w: 0, h: 0 } };
}

/// Damage to the shell's surface that answers input at `input_ns`. Without
/// input (time 0) nothing is recorded.
pub fn mark_shell_surface_damage(m: &mut Metrics, input_ns: u64, x: u32, y: u32, w: u32, h: u32)
    requires
        old(m).wf(),
    ensures
        final(m).wf(),
        final(m)@ == if input_ns == 0 {
            old(m)@
        } else {
            (MetricsView { shell_input: input_ns, ..old(m)@ }).damaged(
                0,
                (DamageRect { x, y, w, h }),
            ).committed(0)
        },
{
    if input_ns == 0 {
        return ;
    }
    m.shell_input = input_ns;
    mark_surface_damage(m, 0, x, y, w, h);
}

/// The shell surface's commit count and the input time it answers.
pub fn shell_surface_snapshot(m: &Metrics) -> (r: (u64, u64))
    requires
        m.wf(),
    ensures
        r == (m@.surfaces[0].seq, m@.shell_input),
{
    (surface_commit_seq(m, 0), m.shell_input)
}

pub fn shell_input_ns(m: &Metrics) -> (r: u64)
    ensures
        r == m@.shell_input,
{
    m.shell_input
}

pub fn snapshot(m: &Metrics) -> (r: Snapshot)
    ensures
        r == m@.samples,
{
    m.samples
}

/// A stored sample is the latest, and never above the largest.
pub proof fn law_sample_max(s: MetricSample, value: u64)
    ensures
        s.stored(value).latest == value,
        s.stored(value).max >= value,
        s.stored(value).max >= s.max,
{
}

/// A label and a number.
pub open spec fn labelled(label: Seq<char>, value: u64) -> Seq<char> {
    label + text::decimal(value as nat)
}

fn push_labelled(out: &mut Vec<char>, label: &str, value: u64)
    ensures
        final(out)@ == old(out)@ + labelled(label@, value),
{
    text::push_str(out, label);
    text::push_u64(out, value);
    assert(out@ =~= old(out)@ + labelled(label@, value));
}

/// What the line tells of drawing.
pub open spec fn drawing_line(s: Snapshot) -> Seq<char> {
    labelled("[metrics] frame="@, s.frame_us.latest) + (labelled("us bg="@, s.background_us.latest) + (
    labelled("us win="@, s.windows_us.latest) + labelled("us ui="@, s.chrome_us.latest)))
}

/// What the line tells of everything else.
pub open spec fn latency_line(s: Snapshot) -> Seq<char> {
    labelled("us present="@, s.present_us.latest) + (labelled(
        "us photon="@,
        s.input_to_photon_us.latest,
    ) + (labelled("us ipc_rtt="@, s.ipc_rtt_us.latest) + (labelled(
        "us wake="@,
        s.sched_wake_us.latest,
    ) + "us\n"@)))
}

/// The line that tells of the latest measurements.
pub open spec fn metrics_line(s: Snapshot) -> Seq<char> {
    drawing_line(s) + latency_line(s)
}

proof fn lemma_four(o: Seq<char>, a: Seq<char>, b: Seq<char>, c: Seq<char>, d: Seq<char>)
    ensures
        o + a + b + c + d == o + (a + (b + (c + d))),
{
    assert(o + a + b + c + d =~= o + (a + (b + (c + d))));
}

fn log_drawing(out: &mut Vec<char>, s: &Snapshot)
    ensures
        final(out)@ == old(out)@ + drawing_line(*s),
{
    push_labelled(out, "[metrics] frame=", s.frame_us.latest);
    push_labelled(out, "us bg=", s.background_us.latest);
    push_labelled(out, "us win=", s.windows_us.latest);
    push_labelled(out, "us ui=", s.chrome_us.latest);
    proof {
        lemma_four(
            old(out)@,
            labelled("[metrics] frame="@, s.frame_us.latest),
            labelled("us bg="@, s.background_us.latest),
            labelled("us win="@, s.windows_us.latest),
            labelled("us ui="@, s.chrome_us.latest),
        );
    }
}

/// Logs the latest measurements.
pub fn log_metrics(out: &mut Vec<char>, s: &Snapshot)
    ensures
        final(out)@ == old(out)@ + metrics_line(*s),
{
    log_drawing(out, s);
    let ghost before = out@;
    push_labelled(out, "us present=", s.present_us.latest);
    push_labelled(out, "us photon=", s.input_to_photon_us.latest);
    push_labelled(out, "us ipc_rtt=", s.ipc_rtt_us.latest);
    push_labelled(out, "us wake=", s.sched_wake_us.latest);
    let ghost w = labelled("us wake="@, s.sched_wake_us.latest);
    let ghost head = before + labelled("us present="@, s.present_us.latest) + labelled(
        "us photon="@,
        s.input_to_photon_us.latest,
    ) + labelled("us ipc_rtt="@, s.ipc_rtt_us.latest);
    text::push_str(out, "us\n");
    proof {
        assert(head + w + "us\n"@ =~= head + (w + "us\n"@));
        lemma_four(
            before,
            labelled("us present="@, s.present_us.latest),
            labelled("us photon="@, s.input_to_photon_us.latest),
            labelled("us ipc_rtt="@, s.ipc_rtt_us.latest),
            w + "us\n"@,
        );
        assert(old(out)@ + drawing_line(*s) + latency_line(*s) =~= old(out)@ + metrics_line(*s));
    }
}

/// The largest value is one that was stored: it is the new one or the old largest.
pub proof fn law_sample_is_real(s: MetricSample, value: u64)
    ensures
        s.stored(value).max == value || s.stored(value).max == s.max,
        s.stored(value).latest == value,
{
}

/// Merged damage is the smallest that covers both: whatever covers both parts
/// covers it, and nothing is added by a part without an area.
pub proof fn law_merged_damage_is_tight(a: DamageRect, b: DamageRect, c: DamageRect)
    requires
        a.w > 0 && a.h > 0 && b.w > 0 && b.h > 0,
        a.x + a.w <= u32::MAX && a.y + a.h <= u32::MAX,
        b.x + b.w <= u32::MAX && b.y + b.h <= u32::MAX,
        c.x <= a.x && c.y <= a.y && a.x + a.w <= c.x + c.w && a.y + a.h <= c.y + c.h,
        c.x <= b.x && c.y <= b.y && b.x + b.w <= c.x + c.w && b.y + b.h <= c.y + c.h,
    ensures
        ({
            let m = a.merged(b);
            &&& c.x <= m.x && c.y <= m.y && m.x + m.w <= c.x + c.w && m.y + m.h <= c.y + c.h
            &&& m.x <= a.x && m.y <= a.y && a.x + a.w <= m.x + m.w && a.y + a.h <= m.y + m.h
            &&& m.x <= b.x && m.y <= b.y && b.x + b.w <= m.x + m.w && b.y + b.h <= m.y + m.h
        }),
        a.merged(DamageRect { w: 0, ..b }) == a,
        a.merged(DamageRect { h: 0, ..b }) == a,
        (DamageRect { w: 0, ..a }).merged(b) == b,
        (DamageRect { h: 0, ..a }).merged(b) == b,
{
}

/// A task that is made ready and then runs is timed, in whole microseconds, once:
/// running again without being made ready gives no sample. Others keep their marks.
pub proof fn law_wake_is_timed(m: MetricsView, task: int, other: int, at: u64, now: u64, later: u64)
    requires
        m.wake_marks.len() == 16,
        0 <= task < 16,
        0 <= other < 16,
        other != task,
        0 < at < now,
    ensures
        ({
            let ready = m.unblocked(task, at);
            let ran = ready.running(task, now);
            let again = ran.running(task, later);
            &&& ran.samples.sched_wake_us.latest == (now - at) / 1000
            &&& ran.samples.sched_wake_us.max >= (now - at) / 1000
            &&& ran.samples.sched_wake_us.max >= m.samples.sched_wake_us.max
            &&& ran.samples.ipc_delivery_ns == m.samples.ipc_delivery_ns
            &&& again.samples == ran.samples
            &&& again.wake_marks[other] == m.wake_marks[other]
            &&& ran.surfaces == m.surfaces
        }),
{
}

/// A commit counts one more on its own surface and keeps the damage; damage grows
/// on its own surface alone.
pub proof fn law_commits(m: MetricsView, id: int, other: int, rect: DamageRect)
    requires
        m.surfaces.len() == 4,
        0 <= id < 4,
        0 <= other < 4,
        other != id,
        m.surfaces[id].seq < u64::MAX,
    ensures
        m.committed(id).surfaces[id].seq == m.surfaces[id].seq + 1,
        m.committed(id).surfaces[id].damage == m.surfaces[id].damage,
        m.committed(id).surfaces[other] == m.surfaces[other],
        m.damaged(id, rect).surfaces[id].seq == m.surfaces[id].seq,
        m.damaged(id, rect).surfaces[id].damage == m.surfaces[id].damage.merged(rect),
        m.damaged(id, rect).surfaces[other] == m.surfaces[other],
        m.damaged(id, rect).samples == m.samples,
{
}

/// The time that a message waited is the latest sample of deliveries.
pub proof fn law_delivery_is_timed(m: MetricsView, ns: u64)
    ensures
        m.delivered(ns).samples.ipc_delivery_ns.latest == ns,
        m.delivered(ns).samples.ipc_delivery_ns.max >= ns,
        m.delivered(ns).samples.sched_wake_us == m.samples.sched_wake_us,
        m.delivered(ns).wake_marks == m.wake_marks,
        m.delivered(ns).surfaces == m.surfaces,
{
}

/// The line of measurements names each with its latest value.
pub proof fn law_metrics_line(s: Snapshot)
    ensures
        metrics_line(s) == "[metrics] frame="@ + text::decimal(s.frame_us.latest as nat)
            + "us bg="@ + text::decimal(s.background_us.latest as nat) + "us win="@ + text::decimal(
            s.windows_us.latest as nat,
        ) + "us ui="@ + text::decimal(s.chrome_us.latest as nat) + "us present="@ + text::decimal(
            s.present_us.latest as nat,
        ) + "us photon="@ + text::decimal(s.input_to_photon_us.latest as nat) + "us ipc_rtt="@
            + text::decimal(s.ipc_rtt_us.latest as nat) + "us wake="@ + text::decimal(
            s.sched_wake_us.latest as nat,
        ) + "us\n"@,
{
    let a = labelled("[metrics] frame="@, s.frame_us.latest);
    let b = labelled("us bg="@, s.background_us.latest);
    let c = labelled("us win="@, s.windows_us.latest);
    let d = labelled("us ui="@, s.chrome_us.latest);
    let e = labelled("us present="@, s.present_us.latest);
    let f = labelled("us photon="@, s.input_to_photon_us.latest);
    let g = labelled("us ipc_rtt="@, s.ipc_rtt_us.latest);
    let h = labelled("us wake="@, s.sched_wake_us.latest);
    assert(metrics_line(s) =~= a + b + c + d + e + f + g + h + "us\n"@);
    assert(a + b + c + d + e + f + g + h + "us\n"@ =~= "[metrics] frame="@ + text::decimal(
        s.frame_us.latest as nat,
    ) + "us bg="@ + text::decimal(s.background_us.latest as nat) + "us win="@ + text::decimal(
        s.windows_us.latest as nat,
    ) + "us ui="@ + text::decimal(s.chrome_us.latest as nat) + "us present="@ + text::decimal(
        s.present_us.latest as nat,
    ) + "us photon="@ + text::decimal(s.input_to_photon_us.latest as nat) + "us ipc_rtt="@
        + text::decimal(s.ipc_rtt_us.latest as nat) + "us wake="@ + text::decimal(
        s.sched_wake_us.latest as nat,
    ) + "us\n"@);
}

} // verus!
