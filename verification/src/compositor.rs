//! The compositor: two workspaces as overlapping windows, drawn into a back
//! buffer and presented in parts.
use vstd::prelude::*;

use crate::abi::tag;
use crate::abi::Message;
use crate::chrome;
use crate::dashboard;
use crate::delivery;
use crate::desktop;
use crate::desktop::{
    rgb, Rect, CH_KBD_EVENTS, CH_SHELL_KEYS, DESKTOP_BG, GREEN, LATENCY_LIMIT, MENU_H, ORANGE,
    STATS_PANEL_H, STATS_PANEL_W, SURF_H, SURF_W, TBAR_H, WIN_TITLE_H,
};
use crate::font::AaFont;
use crate::framebuffer;
use crate::framebuffer::{Color, Framebuffer, Picture};
use crate::ipc;
use crate::kernel::Kernel;
use crate::metrics;
use crate::metrics::{DamageRect, Metrics, MetricsView, Snapshot, SurfaceState};
use crate::text;

verus! {

/// No value was shown yet.
pub const NEVER: u64 = u64::MAX;

/// What the compositor remembers between frames.
#[derive(Clone, Copy)]
pub struct State {
    /// The workspace in front: 0 the shell, 1 the dashboard.
    pub active_ws: usize,
    /// The next frame redraws all windows and what is behind them.
    pub full_content: bool,
    pub menu_dirty: bool,
    pub stats_dirty: bool,
    pub taskbar_dirty: bool,
    /// Nothing was presented yet.
    pub full_present: bool,
    /// When the workspace was last switched, until that is shown.
    pub pending_input_ns: u64,
    pub presented_shell_seq: u64,
    pub shell_seq: u64,
    pub dashboard_seq: u64,
    pub menu_second: u64,
    pub menu_bucket: u64,
    pub menu_tasks: u64,
    pub overlay_second: u64,
    pub overlay_tasks: u64,
    pub overlay_channels: u64,
    pub overlay_revision: u64,
    /// How many latencies from input to light were recorded.
    pub revision: u64,
    pub log_second: u64,
    pub redraws: u64,
    pub content_redraws: u64,
    pub frames: u64,
    pub hist_idx: usize,
}

impl State {
    pub open spec fn first() -> State {
        State {
            active_ws: 0,
            full_content: true,
            menu_dirty: true,
            stats_dirty: true,
            taskbar_dirty: true,
            full_present: true,
            pending_input_ns: 0,
            presented_shell_seq: 0,
            shell_seq: 0,
            dashboard_seq: 0,
            menu_second: NEVER,
            menu_bucket: NEVER,
            menu_tasks: NEVER,
            overlay_second: NEVER,
            overlay_tasks: NEVER,
            overlay_channels: NEVER,
            overlay_revision: NEVER,
            revision: 0,
            log_second: NEVER,
            redraws: 0,
            content_redraws: 0,
            frames: 0,
            hist_idx: 0,
        }
    }

    /// The other workspace comes to the front.
    pub open spec fn switched(self, active_ws: usize, input_ns: u64) -> State {
        State {
            active_ws,
            full_content: true,
            stats_dirty: true,
            taskbar_dirty: true,
            pending_input_ns: input_ns,
            ..self
        }
    }

    /// What a message of the keyboard changes.
    pub open spec fn keyed(self, msg: Message) -> State {
        let ch = msg.payload[0] as u8;
        if msg.tag != tag::KEY_DOWN {
            self
        } else if ch == 0x09 || ch == 0x60 {
            self.switched((1 - self.active_ws) as usize, msg.payload[2])
        } else if ch == 0x31 && self.active_ws != 0 {
            self.switched(0, msg.payload[2])
        } else if ch == 0x32 && self.active_ws != 1 {
            self.switched(1, msg.payload[2])
        } else {
            self
        }
    }

    /// The message is for the shell.
    pub open spec fn for_shell(self, msg: Message) -> bool {
        let ch = msg.payload[0] as u8;
        &&& msg.tag == tag::KEY_DOWN
        &&& self.active_ws == 0
        &&& ch != 0x09 && ch != 0x60 && ch != 0x31 && ch != 0x32
    }
}

/// What one frame draws, and the readings that it shows.
#[derive(Clone, Copy)]
pub struct Plan {
    pub ns: u64,
    pub samples: Snapshot,
    pub tasks: u64,
    pub channels: u64,
    pub shell_input_ns: u64,
    pub shell_seq: u64,
    /// Everything between the bars.
    pub full: bool,
    /// The whole window in front.
    pub active: bool,
    /// The whole window behind.
    pub inactive: bool,
    /// This part of the window in front.
    pub damage: Option<Rect>,
    pub menu: bool,
    pub stats: bool,
    pub taskbar: bool,
}

impl Plan {
    pub open spec fn content(self) -> bool {
        self.full || self.active || self.inactive || self.damage is Some
    }

    pub open spec fn anything(self) -> bool {
        self.content() || self.menu || self.stats || self.taskbar
    }
}

pub open spec fn damage_of(d: DamageRect) -> Option<Rect> {
    if d.is_empty() {
        None
    } else {
        Some(Rect { x: d.x as usize, y: d.y as usize, w: d.w as usize, h: d.h as usize })
    }
}

/// What has to be drawn. Where nothing has, the plan is empty.
pub open spec fn plan_of(s: State, m: MetricsView, ns: u64, tasks: u64, channels: u64) -> Plan {
    let shell_new = m.surfaces[0].seq != s.shell_seq;
    let dashboard_new = m.surfaces[1].seq != s.dashboard_seq;
    let second = ns / 1_000_000_000;
    let part = damage_of(m.surfaces[0].damage);
    Plan {
        ns,
        samples: m.samples,
        tasks,
        channels,
        shell_input_ns: m.shell_input,
        shell_seq: m.surfaces[0].seq,
        full: s.full_content,
        active: (shell_new && (s.active_ws != 0 || part is None)) || (dashboard_new && s.active_ws
            == 1),
        inactive: shell_new && s.active_ws != 0,
        damage: if shell_new && s.active_ws == 0 {
            part
        } else {
            None
        },
        menu: s.menu_dirty || second != s.menu_second || desktop::bucket(
            m.samples.input_to_photon_us.latest,
        ) != s.menu_bucket || tasks != s.menu_tasks,
        stats: s.stats_dirty || second != s.overlay_second || tasks != s.overlay_tasks || channels
            != s.overlay_channels || s.revision != s.overlay_revision,
        taskbar: s.taskbar_dirty,
    }
}

/// The state once a frame is planned.
pub open spec fn state_planned(s: State, m: MetricsView, plan: Plan) -> State {
    let second = plan.ns / 1_000_000_000;
    let (redraws, content_redraws) = if second != s.log_second {
        (0u64, 0u64)
    } else {
        (s.redraws, s.content_redraws)
    };
    State {
        full_content: false,
        shell_seq: m.surfaces[0].seq,
        dashboard_seq: m.surfaces[1].seq,
        log_second: second,
        redraws: if plan.anything() {
            (redraws + 1) as u64
        } else {
            redraws
        },
        content_redraws: if plan.content() {
            (content_redraws + 1) as u64
        } else {
            content_redraws
        },
        menu_dirty: plan.menu,
        stats_dirty: plan.stats,
        ..s
    }
}

/// The damage that the plan takes in is no longer recorded.
pub open spec fn metrics_planned(s: State, m: MetricsView) -> MetricsView {
    let (shell, dashboard) = (m.surfaces[0], m.surfaces[1]);
    MetricsView {
        surfaces: m.surfaces.update(
            0,
            if shell.seq != s.shell_seq {
                SurfaceState { seq: shell.seq, damage: DamageRect::none() }
            } else {
                shell
            },
        ).update(
            1,
            if dashboard.seq != s.dashboard_seq {
                SurfaceState { seq: dashboard.seq, damage: DamageRect::none() }
            } else {
                dashboard
            },
        ),
        ..m
    }
}

/// What was counted in the second that ended, to be logged.
pub open spec fn second_ended(s: State, ns: u64) -> Option<(u64, u64)> {
    if ns / 1_000_000_000 != s.log_second && s.log_second != NEVER {
        Some((s.redraws, s.content_redraws))
    } else {
        None
    }
}

/// The parts of the screen to be presented, in order.
pub enum Present {
    Full,
    Parts(Vec<Rect>),
}

impl Present {
    pub open spec fn parts(self) -> Option<Seq<Rect>> {
        match self {
            Present::Full => None,
            Present::Parts(v) => Some(v@),
        }
    }
}

/// Clock readings taken around the steps of a frame.
#[derive(Clone, Copy, Debug)]
pub struct Times {
    pub background_us: u64,
    pub windows_us: u64,
    pub chrome_start_ns: u64,
    pub chrome_end_ns: u64,
    pub present_start_ns: u64,
    pub frame_end_ns: u64,
}

pub struct Compositor {
    pub font: AaFont,
    pub sw: usize,
    pub sh: usize,
    pub desktop: Framebuffer,
    pub menu: Framebuffer,
    pub stats: Framebuffer,
    pub shell_active: Framebuffer,
    pub shell_inactive: Framebuffer,
    pub dash_active: Framebuffer,
    pub dash_inactive: Framebuffer,
    pub state: State,
    /// The latest latencies from input to light.
    pub photon_hist: [u64; 16],
}

pub open spec fn content_top() -> int {
    MENU_H + 4
}

pub open spec fn content_h(sh: int) -> int {
    desktop::less(desktop::less(sh - TBAR_H, 4), content_top())
}

pub open spec fn active_x(sw: int) -> int {
    (sw - SURF_W) / 2
}

pub open spec fn active_y(sh: int) -> int {
    content_top() + desktop::less(content_h(sh), SURF_H + WIN_TITLE_H) / 2 + WIN_TITLE_H
}

pub open spec fn inactive_x(sw: int, active_ws: int) -> int {
    if active_ws == 0 {
        active_x(sw) + 60
    } else {
        desktop::less(active_x(sw), 60)
    }
}

pub open spec fn inactive_y(sh: int) -> int {
    active_y(sh) + 20
}

/// The empty desktop.
pub open spec fn background(font: AaFont, sw: int, sh: int, bgr: bool) -> Picture {
    chrome::desktop_icons(font, desktop::blank(sw, sh, bgr).rect(0, 0, sw, sh, rgb(DESKTOP_BG)))
}

/// A screen that the layout fits on.
pub open spec fn screen_ok(font: AaFont, sw: int, sh: int) -> bool {
    &&& SURF_W <= sw
    &&& 28 * font.width + 44 <= sw
    &&& TBAR_H <= sh
    &&& sw + 4096 <= usize::MAX - 8192
    &&& sh + 4096 <= usize::MAX - 8192
    &&& sw * sh <= usize::MAX
    &&& sw * (MENU_H + 1) <= usize::MAX
}

impl Compositor {
    pub open spec fn wf(&self) -> bool {
        &&& self.font.wf()
        &&& screen_ok(self.font, self.sw as int, self.sh as int)
        &&& self.state.active_ws <= 1
        &&& self.state.hist_idx < 16
        &&& forall|i: int| 0 <= i < 16 ==> #[trigger] self.photon_hist@[i] <= u64::MAX / 1000
        &&& self.caches_ok()
    }

    /// The pictures drawn once are what they should be.
    pub open spec fn caches_ok(&self) -> bool {
        let bgr = self.desktop@.bgr;
        let f = self.font;
        &&& self.desktop.wf()
        &&& self.menu.wf()
        &&& self.stats.wf()
        &&& self.shell_active.wf()
        &&& self.shell_inactive.wf()
        &&& self.dash_active.wf()
        &&& self.dash_inactive.wf()
        &&& self.desktop@ == background(f, self.sw as int, self.sh as int, bgr)
        &&& self.menu@ == chrome::menu_base(f, self.sw as int, bgr)
        &&& self.stats@ == chrome::stats_base(f, bgr)
        &&& self.shell_active@ == chrome::frame_base(f, "Shell"@, rgb(GREEN), true, bgr)
        &&& self.shell_inactive@ == chrome::frame_base(f, "Shell"@, rgb(GREEN), false, bgr)
        &&& self.dash_active@ == chrome::frame_base(f, "Dashboard"@, rgb(ORANGE), true, bgr)
        &&& self.dash_inactive@ == chrome::frame_base(f, "Dashboard"@, rgb(ORANGE), false, bgr)
    }

    /// All but the state is the same.
    pub open spec fn same_pictures(&self, o: Compositor) -> bool {
        &&& self.font == o.font
        &&& self.sw == o.sw
        &&& self.sh == o.sh
        &&& self.desktop == o.desktop
        &&& self.menu == o.menu
        &&& self.stats == o.stats
        &&& self.shell_active == o.shell_active
        &&& self.shell_inactive == o.shell_inactive
        &&& self.dash_active == o.dash_active
        &&& self.dash_inactive == o.dash_inactive
    }

    /// Draws what never changes, and puts the desktop on the back buffer.
    pub fn new(font: AaFont, bb: &mut Framebuffer, is_bgr: bool) -> (c: Compositor)
        requires
            font.wf(),
            old(bb).wf(),
            screen_ok(font, old(bb)@.width, old(bb)@.height),
        ensures
            c.wf(),
            c.font == font,
            c.sw == old(bb)@.width,
            c.sh == old(bb)@.height,
            c.desktop@.bgr == is_bgr,
            c.state == State::first(),
            c.photon_hist@ == Seq::new(16, |i: int| 0u64),
            final(bb).wf(),
            final(bb)@ == old(bb)@.copied(c.desktop@, 0, 0, c.sw as int, c.sh as int, 0, 0),
    {
        proof {
            reveal_strlit("Shell");
            reveal_strlit("Dashboard");
        }
        let sw: usize = bb.width();
        let sh: usize = bb.height();
        let mut desktop: Framebuffer = desktop::allocate_framebuffer(sw, sh, is_bgr);
        desktop.clear(rgb(DESKTOP_BG));
        chrome::draw_desktop_icons(&mut desktop, &font);
        proof {
            lemma_icons_keep_form(font, desktop::blank(sw as int, sh as int, is_bgr).rect(0, 0, sw as int, sh as int, rgb(DESKTOP_BG)));
        }
        bb.copy_rect_from(&desktop, 0, 0, sw, sh, 0, 0);
        let menu: Framebuffer = chrome::build_menu_bar_cache(&font, sw, is_bgr);
        let stats: Framebuffer = chrome::build_stats_overlay_cache(&font, is_bgr);
        let shell_active: Framebuffer = chrome::build_window_frame_cache(
            &font,
            "Shell",
            rgb(GREEN),
            true,
            is_bgr,
        );
        let shell_inactive: Framebuffer = chrome::build_window_frame_cache(
            &font,
            "Shell",
            rgb(GREEN),
            false,
            is_bgr,
        );
        let dash_active: Framebuffer = chrome::build_window_frame_cache(
            &font,
            "Dashboard",
            rgb(ORANGE),
            true,
            is_bgr,
        );
        let dash_inactive: Framebuffer = chrome::build_window_frame_cache(
            &font,
            "Dashboard",
            rgb(ORANGE),
            false,
            is_bgr,
        );
        let photon_hist: [u64; 16] = [0; 16];
        assert(photon_hist@ =~= Seq::new(16, |i: int| 0u64));
        Compositor {
            font,
            sw,
            sh,
            desktop,
            menu,
            stats,
            shell_active,
            shell_inactive,
            dash_active,
            dash_inactive,
            state: State {
                active_ws: 0,
                full_content: true,
                menu_dirty: true,
                stats_dirty: true,
                taskbar_dirty: true,
                full_present: true,
                pending_input_ns: 0,
                presented_shell_seq: 0,
                shell_seq: 0,
                dashboard_seq: 0,
                menu_second: NEVER,
                menu_bucket: NEVER,
                menu_tasks: NEVER,
                overlay_second: NEVER,
                overlay_tasks: NEVER,
                overlay_channels: NEVER,
                overlay_revision: NEVER,
                revision: 0,
                log_second: NEVER,
                redraws: 0,
                content_redraws: 0,
                frames: 0,
                hist_idx: 0,
            },
            photon_hist,
        }
    }

    fn switch_to(&mut self, active_ws: usize, input_ns: u64)
        ensures
            final(self).state == old(self).state.switched(active_ws, input_ns),
            final(self).photon_hist == old(self).photon_hist,
            final(self).same_pictures(*old(self)),
    {
        self.state.active_ws = active_ws;
        self.state.full_content = true;
        self.state.stats_dirty = true;
        self.state.taskbar_dirty = true;
        self.state.pending_input_ns = input_ns;
    }

    /// A message of the keyboard: tab, back-quote, `1` and `2` switch the
    /// workspace; any other key goes to the shell while it is in front.
    /// Returns whether the message is to be sent on to the shell.
    pub fn key(&mut self, msg: &Message) -> (forward: bool)
        requires
            old(self).wf(),
        ensures
            final(self).wf(),
            final(self).same_pictures(*old(self)),
            final(self).photon_hist == old(self).photon_hist,
            final(self).state == old(self).state.keyed(*msg),
            forward == old(self).state.for_shell(*msg),
    {
        if msg.tag != tag::KEY_DOWN {
            return false;
        }
        let ch: u8 = msg.payload[0] as u8;
        let input_ns: u64 = msg.payload[2];
        match ch {
            0x09 | 0x60 => {
                self.switch_to(1 - self.state.active_ws, input_ns);
                false
            },
            0x31 => {
                if self.state.active_ws != 0 {
                    self.switch_to(0, input_ns);
                }
                false
            },
            0x32 => {
                if self.state.active_ws != 1 {
                    self.switch_to(1, input_ns);
                }
                false
            },
            _ => self.state.active_ws == 0,
        }
    }
}

/// What a key in message `msg` changes, once the kernel is as in `k0`: one that is
/// for the shell is sent on, if there is room for it.
pub open spec fn forwarded(s: State, msg: Message, k0: Kernel, k1: Kernel, now_ns: u64) -> bool {
    if s.for_shell(msg) && delivery::send_error(k0.ipc@, CH_SHELL_KEYS) is None {
        exists|woken: Option<usize>| #[trigger]
            delivery::sent(
                k0,
                k1,
                k0.sched.current as u16,
                CH_SHELL_KEYS,
                msg,
                now_ns,
                woken,
            )
    } else {
        delivery::untouched(k0, k1)
    }
}

/// Takes the next message of the keyboard, if there is one, and acts on it. The
/// clock is read once when it is taken and once when it is sent on.
pub fn take_key(c: &mut Compositor, k: &mut Kernel, taken_ns: u64, sent_ns: u64) -> (more: bool)
    requires
        old(c).wf(),
        old(k).wf(),
    ensures
        final(c).wf(),
        final(k).wf(),
        final(c).same_pictures(*old(c)),
        final(c).photon_hist == old(c).photon_hist,
        more == (old(k).ipc@.live(CH_KBD_EVENTS) && old(k).ipc@.chans[CH_KBD_EVENTS as int].queue.len()
            > 0),
        if more {
            let msg = old(k).ipc@.chans[CH_KBD_EVENTS as int].queue[0].msg;
            &&& final(c).state == old(c).state.keyed(msg)
            &&& exists|ka: Kernel| #[trigger]
                delivery::taken(*old(k), ka, CH_KBD_EVENTS, taken_ns) && forwarded(
                    old(c).state,
                    msg,
                    ka,
                    *final(k),
                    sent_ns,
                )
        } else {
            &&& final(c).state == old(c).state
            &&& if old(k).ipc@.live(CH_KBD_EVENTS) {
                delivery::found_empty(*old(k), *final(k), CH_KBD_EVENTS)
            } else {
                delivery::untouched(*old(k), *final(k))
            }
        },
{
    match delivery::try_recv(k, CH_KBD_EVENTS, taken_ns) {
        None => false,
        Some(msg) => {
            let ghost ka = *k;
            assert(delivery::taken(*old(k), ka, CH_KBD_EVENTS, taken_ns));
            if c.key(&msg) {
                let r: Result<Option<usize>, ipc::Error> = delivery::send(
                    k,
                    CH_SHELL_KEYS,
                    &msg,
                    sent_ns,
                );
                proof {
                    if let Ok(woken) = r {
                        assert(delivery::sent(
                            ka,
                            *k,
                            ka.sched.current as u16,
                            CH_SHELL_KEYS,
                            msg,
                            sent_ns,
                            woken,
                        ));
                    }
                }
            }
            assert(forwarded(old(c).state, msg, ka, *k, sent_ns));
            true
        },
    }
}

/// The desktop behind the windows, where the plan asks for it.
pub open spec fn backdrop(c: Compositor, p: Picture, plan: Plan) -> Picture {
    if plan.full {
        p.copied(
            c.desktop@,
            0,
            content_top(),
            c.sw as int,
            content_h(c.sh as int),
            0,
            content_top(),
        )
    } else {
        p
    }
}

/// The windows, drawn after the backdrop: the picture, and the part that
/// changed.
pub open spec fn windows(
    c: Compositor,
    p: Picture,
    plan: Plan,
    shell: Picture,
    dashboard: Picture,
) -> (Picture, Option<Rect>) {
    let (sw, sh) = (c.sw as int, c.sh as int);
    let ws = c.state.active_ws;
    let (ax, ay) = (active_x(sw), active_y(sh));
    let (ix, iy) = (inactive_x(sw, ws as int), inactive_y(sh));
    let active_outer = desktop::window_outer(ax, ay);
    let inactive_outer = desktop::window_outer(ix, iy);
    let (active, active_frame, inactive, inactive_frame) = if ws == 0 {
        (shell, c.shell_active@, dashboard, c.dash_inactive@)
    } else {
        (dashboard, c.dash_active@, shell, c.shell_inactive@)
    };
    if plan.full {
        (
            chrome::window(
                chrome::window(p, inactive_frame, inactive, ix, iy),
                active_frame,
                active,
                ax,
                ay,
            ),
            Some(
                Rect {
                    x: 0,
                    y: content_top() as usize,
                    w: sw as usize,
                    h: content_h(sh) as usize,
                },
            ),
        )
    } else {
        let (p1, d1) = if plan.inactive {
            (chrome::window(p, inactive_frame, inactive, ix, iy), Some(inactive_outer))
        } else {
            (p, None)
        };
        if plan.active {
            (
                chrome::window(p1, active_frame, active, ax, ay),
                desktop::extended(d1, active_outer),
            )
        } else {
            let (p2, d2) = match plan.damage {
                Some(d) => (
                    p1.copied(
                        active,
                        d.x as int,
                        d.y as int,
                        d.w as int,
                        d.h as int,
                        ax + d.x,
                        ay + d.y,
                    ),
                    desktop::extended(
                        d1,
                        Rect { x: (ax + d.x) as usize, y: (ay + d.y) as usize, w: d.w, h: d.h },
                    ),
                ),
                None => (p1, d1),
            };
            if plan.inactive && overlap(inactive_outer, active_outer) {
                (
                    chrome::window(p2, active_frame, active, ax, ay),
                    desktop::extended(d2, active_outer),
                )
            } else {
                (p2, d2)
            }
        }
    }
}

/// Some position lies in both.
pub open spec fn overlap(a: Rect, b: Rect) -> bool {
    exists|px: int, py: int| #[trigger] a.covers(px, py) && b.covers(px, py)
}

/// The damaged part of the window in front lies on the screen's grid.
pub open spec fn damage_ok(c: Compositor, plan: Plan) -> bool {
    plan.damage matches Some(d) ==> {
        &&& active_x(c.sw as int) + d.x + d.w <= usize::MAX
        &&& active_y(c.sh as int) + d.y + d.h <= usize::MAX
    }
}

/// The bars and the statistics, as far as the plan asks for them.
pub open spec fn chrome_drawn(c: Compositor, p: Picture, plan: Plan) -> Picture {
    let sw = c.sw as int;
    let p1 = if plan.menu {
        chrome::menu_bar(
            c.font,
            p,
            c.menu@,
            sw,
            plan.ns,
            plan.samples.input_to_photon_us.latest,
            plan.tasks,
        )
    } else {
        p
    };
    let p2 = if plan.stats {
        chrome::stats_overlay(
            c.font,
            p1,
            c.stats@,
            sw,
            plan.ns,
            plan.samples,
            c.photon_hist@,
            c.state.hist_idx as int,
            plan.tasks,
            plan.channels,
        )
    } else {
        p1
    };
    if plan.taskbar {
        chrome::taskbar(c.font, p2, sw, c.sh as int, c.state.active_ws as int)
    } else {
        p2
    }
}

/// What the bars and the statistics now show.
pub open spec fn state_drawn(s: State, plan: Plan) -> State {
    let second = plan.ns / 1_000_000_000;
    let s1 = if plan.menu {
        State {
            menu_second: second,
            menu_bucket: desktop::bucket(plan.samples.input_to_photon_us.latest),
            menu_tasks: plan.tasks,
            ..s
        }
    } else {
        s
    };
    if plan.stats {
        State {
            overlay_second: second,
            overlay_tasks: plan.tasks,
            overlay_channels: plan.channels,
            overlay_revision: s.revision,
            ..s1
        }
    } else {
        s1
    }
}

/// Every measurement shown is short enough to be shown.
pub open spec fn showable(m: Snapshot) -> bool {
    &&& m.input_to_photon_us.latest < LATENCY_LIMIT
    &&& m.frame_us.latest < LATENCY_LIMIT
    &&& m.present_us.latest < LATENCY_LIMIT
    &&& m.ipc_rtt_us.latest < LATENCY_LIMIT
    &&& m.sched_wake_us.latest < LATENCY_LIMIT
}

/// The changed parts, in the order in which they are presented.
pub open spec fn changed_parts(c: Compositor, plan: Plan, content: Option<Rect>) -> Seq<Rect> {
    let menu = if plan.menu {
        seq![Rect { x: 0, y: 0, w: c.sw, h: (MENU_H + 1) as usize }]
    } else {
        Seq::empty()
    };
    let middle = match content {
        Some(r) => seq![r],
        None => Seq::empty(),
    };
    let stats = if plan.stats {
        seq![
            Rect {
                x: desktop::less(c.sw as int, STATS_PANEL_W + 16) as usize,
                y: (MENU_H + 12) as usize,
                w: STATS_PANEL_W,
                h: STATS_PANEL_H,
            },
        ]
    } else {
        Seq::empty()
    };
    let taskbar = if plan.taskbar {
        seq![Rect { x: 0, y: (c.sh - TBAR_H) as usize, w: c.sw, h: TBAR_H }]
    } else {
        Seq::empty()
    };
    menu + middle + stats + taskbar
}

/// The first `n` parts of `src`, copied to where they are.
pub open spec fn flipped(p: Picture, src: Picture, parts: Seq<Rect>, n: int) -> Picture
    decreases n,
{
    if n <= 0 {
        p
    } else {
        let r = parts[n - 1];
        flipped(p, src, parts, n - 1).copied(
            src,
            r.x as int,
            r.y as int,
            r.w as int,
            r.h as int,
            r.x as int,
            r.y as int,
        )
    }
}

/// Presents the parts of the back buffer on a display in memory.
pub fn flip(bb: &Framebuffer, display: &mut Framebuffer, present: &Present)
    requires
        bb.wf(),
        old(display).wf(),
    ensures
        final(display).wf(),
        final(display)@ == match present.parts() {
            None => old(display)@.copied(bb@, 0, 0, bb@.width, bb@.height, 0, 0),
            Some(parts) => flipped(old(display)@, bb@, parts, parts.len() as int),
        },
{
    match present {
        Present::Full => bb.copy_to(display),
        Present::Parts(parts) => {
            let mut n: usize = 0;
            while n < parts.len()
                invariant
                    n <= parts@.len(),
                    bb.wf(),
                    display.wf(),
                    display@ == flipped(old(display)@, bb@, parts@, n as int),
                decreases parts@.len() - n,
            {
                let r: Rect = parts[n];
                bb.copy_rect_to(display, r.x, r.y, r.w, r.h, r.x, r.y);
                n = n + 1;
            }
        },
    }
}

/// The latency from input to light that the frame ends, or 0.
pub open spec fn photon_us(s: State, plan: Plan, shown: bool, end_ns: u64) -> u64 {
    if shown && plan.shell_seq > s.presented_shell_seq && plan.shell_input_ns > 0 {
        if end_ns > plan.shell_input_ns {
            ((end_ns - plan.shell_input_ns) / 1000) as u64
        } else {
            0
        }
    } else if shown && s.pending_input_ns > 0 && end_ns > s.pending_input_ns {
        ((end_ns - s.pending_input_ns) / 1000) as u64
    } else {
        0
    }
}

/// The state once a frame is presented.
pub open spec fn state_presented(s: State, plan: Plan, shown: bool, end_ns: u64) -> State {
    let shell = shown && plan.shell_seq > s.presented_shell_seq && plan.shell_input_ns > 0;
    let switch = !shell && shown && s.pending_input_ns > 0 && end_ns > s.pending_input_ns;
    let us = photon_us(s, plan, shown, end_ns);
    State {
        menu_dirty: false,
        stats_dirty: false,
        taskbar_dirty: false,
        frames: (s.frames + 1) as u64,
        presented_shell_seq: if shell {
            plan.shell_seq
        } else {
            s.presented_shell_seq
        },
        pending_input_ns: if switch {
            0
        } else {
            s.pending_input_ns
        },
        hist_idx: if us > 0 {
            ((s.hist_idx + 1) % 16) as usize
        } else {
            s.hist_idx
        },
        revision: if us > 0 {
            (s.revision + 1) as u64
        } else {
            s.revision
        },
        ..s
    }
}

/// The measurements with those of one frame.
pub open spec fn samples_presented(m: Snapshot, t: Times, frame_start_ns: u64, us: u64) -> Snapshot {
    Snapshot {
        background_us: m.background_us.stored(t.background_us),
        windows_us: m.windows_us.stored(t.windows_us),
        chrome_us: m.chrome_us.stored(((t.chrome_end_ns - t.chrome_start_ns) / 1000) as u64),
        present_us: m.present_us.stored(((t.frame_end_ns - t.present_start_ns) / 1000) as u64),
        frame_us: m.frame_us.stored(((t.frame_end_ns - frame_start_ns) / 1000) as u64),
        input_to_photon_us: if us > 0 {
            m.input_to_photon_us.stored(us)
        } else {
            m.input_to_photon_us
        },
        ..m
    }
}

impl Plan {
    fn has_content(&self) -> (r: bool)
        ensures
            r == self.content(),
    {
        self.full || self.active || self.inactive || self.damage.is_some()
    }
}

/// What has to be drawn.
fn decide(s: &State, m: &Metrics, ns: u64, tasks: u64, channels: u64) -> (plan: Plan)
    requires
        m.wf(),
    ensures
        plan == plan_of(*s, m@, ns, tasks, channels),
{
    let samples: Snapshot = metrics::snapshot(m);
    let second: u64 = ns / 1_000_000_000;
    let bucket: u64 = desktop::hud_metric_bucket(samples.input_to_photon_us.latest);
    let (shell_seq, shell_damage): (u64, DamageRect) = metrics::surface_damage_snapshot(m, 0);
    let dashboard_seq: u64 = metrics::surface_commit_seq(m, 1);
    let mut active: bool = false;
    let mut inactive: bool = false;
    let mut damage: Option<Rect> = None;
    if shell_seq != s.shell_seq {
        if s.active_ws == 0 {
            damage = desktop::metrics_damage_rect_to_rect(shell_damage);
            if damage.is_none() {
                active = true;
            }
        } else {
            inactive = true;
            active = true;
        }
    }
    if dashboard_seq != s.dashboard_seq && s.active_ws == 1 {
        active = true;
    }
    Plan {
        ns,
        samples,
        tasks,
        channels,
        shell_input_ns: metrics::shell_input_ns(m),
        shell_seq,
        full: s.full_content,
        active,
        inactive,
        damage,
        menu: s.menu_dirty || second != s.menu_second || bucket != s.menu_bucket || tasks
            != s.menu_tasks,
        stats: s.stats_dirty || second != s.overlay_second || tasks != s.overlay_tasks || channels
            != s.overlay_channels || s.revision != s.overlay_revision,
        taskbar: s.taskbar_dirty,
    }
}

/// The state once a frame is planned.
fn after_plan(
    s: &State,
    plan: &Plan,
    shell_seq: u64,
    dashboard_seq: u64,
    m: Ghost<MetricsView>,
) -> (r: State)
    requires
        shell_seq == m@.surfaces[0].seq,
        dashboard_seq == m@.surfaces[1].seq,
        s.redraws < u64::MAX,
        s.content_redraws < u64::MAX,
    ensures
        r == state_planned(*s, m@, *plan),
{
    let second: u64 = plan.ns / 1_000_000_000;
    let mut r: State = *s;
    if second != s.log_second {
        r.log_second = second;
        r.redraws = 0;
        r.content_redraws = 0;
    }
    let content: bool = plan.has_content();
    if content || plan.menu || plan.stats || plan.taskbar {
        r.redraws = r.redraws + 1;
    }
    if content {
        r.content_redraws = r.content_redraws + 1;
    }
    r.full_content = false;
    r.shell_seq = shell_seq;
    r.dashboard_seq = dashboard_seq;
    r.menu_dirty = plan.menu;
    r.stats_dirty = plan.stats;
    r
}

impl Compositor {
    /// Plans a frame at `ns`. Returns what the second that just ended counted,
    /// to be logged, and the plan, if there is anything to draw.
    pub fn plan(&mut self, m: &mut Metrics, ns: u64, tasks: u64, channels: u64) -> (r: (
        Option<(u64, u64)>,
        Option<Plan>,
    ))
        requires
            old(self).wf(),
            old(m).wf(),
            old(self).state.redraws < u64::MAX,
            old(self).state.content_redraws < u64::MAX,
        ensures
            final(self).wf(),
            final(self).same_pictures(*old(self)),
            final(self).photon_hist == old(self).photon_hist,
            final(m).wf(),
            final(m)@ == metrics_planned(old(self).state, old(m)@),
            r.0 == second_ended(old(self).state, ns),
            ({
                let plan = plan_of(old(self).state, old(m)@, ns, tasks, channels);
                &&& final(self).state == state_planned(old(self).state, old(m)@, plan)
                &&& r.1 == if plan.anything() {
                    Some(plan)
                } else {
                    None
                }
            }),
    {
        let s: State = self.state;
        let ghost m0 = m@;
        let plan: Plan = decide(&s, m, ns, tasks, channels);
        let logged: Option<(u64, u64)> = if ns / 1_000_000_000 != s.log_second && s.log_second
            != NEVER {
            Some((s.redraws, s.content_redraws))
        } else {
            None
        };
        let shell_seq: u64 = metrics::surface_commit_seq(m, 0);
        let dashboard_seq: u64 = metrics::surface_commit_seq(m, 1);
        if shell_seq != s.shell_seq {
            metrics::clear_surface_damage(m, 0, shell_seq);
        }
        if dashboard_seq != s.dashboard_seq {
            metrics::clear_surface_damage(m, 1, dashboard_seq);
        }
        assert(m@.surfaces =~= metrics_planned(s, m0).surfaces);
        assert(m@ == metrics_planned(s, m0));
        self.state = after_plan(&s, &plan, shell_seq, dashboard_seq, Ghost(m0));
        if plan.has_content() || plan.menu || plan.stats || plan.taskbar {
            (logged, Some(plan))
        } else {
            (logged, None)
        }
    }

    fn active_x(&self) -> (r: usize)
        requires
            self.wf(),
        ensures
            r == active_x(self.sw as int),
    {
        (self.sw - SURF_W) / 2
    }

    fn content_h(&self) -> (r: usize)
        requires
            self.wf(),
        ensures
            r == content_h(self.sh as int),
    {
        (self.sh - TBAR_H).saturating_sub(4).saturating_sub(MENU_H + 4)
    }

    fn active_y(&self) -> (r: usize)
        requires
            self.wf(),
        ensures
            r == active_y(self.sh as int),
            r + 4096 <= usize::MAX,
    {
        MENU_H + 4 + self.content_h().saturating_sub(SURF_H + WIN_TITLE_H) / 2 + WIN_TITLE_H
    }

    /// Draws the desktop behind the windows, where the plan asks for it.
    pub fn draw_background(&self, bb: &mut Framebuffer, plan: &Plan)
        requires
            self.wf(),
            old(bb).wf(),
        ensures
            final(bb).wf(),
            final(bb)@ == backdrop(*self, old(bb)@, *plan),
    {
        if plan.full {
            let h: usize = self.content_h();
            bb.copy_rect_from(&self.desktop, 0, MENU_H + 4, self.sw, h, 0, MENU_H + 4);
        }
    }

    /// Draws the windows, after the background, and returns the part of the
    /// screen that changed.
    pub fn draw_windows(
        &self,
        bb: &mut Framebuffer,
        plan: &Plan,
        shell: &Framebuffer,
        dashboard: &Framebuffer,
    ) -> (changed: Option<Rect>)
        requires
            self.wf(),
            old(bb).wf(),
            shell.wf(),
            dashboard.wf(),
            damage_ok(*self, *plan),
        ensures
            final(bb).wf(),
            (final(bb)@, changed) == windows(*self, old(bb)@, *plan, shell@, dashboard@),
    {
        let ax: usize = self.active_x();
        let ay: usize = self.active_y();
        let ix: usize = if self.state.active_ws == 0 { ax + 60 } else { ax.saturating_sub(60) };
        let iy: usize = ay + 20;
        let active_outer: Rect = desktop::outer_rect_for_window(ax, ay);
        let inactive_outer: Rect = desktop::outer_rect_for_window(ix, iy);
        let front: bool = self.state.active_ws == 0;
        let active: &Framebuffer = if front { shell } else { dashboard };
        let active_frame: &Framebuffer = if front { &self.shell_active } else { &self.dash_active };
        let inactive: &Framebuffer = if front { dashboard } else { shell };
        let inactive_frame: &Framebuffer = if front {
            &self.dash_inactive
        } else {
            &self.shell_inactive
        };
        if plan.full {
            chrome::blit_full_window(bb, inactive_frame, inactive, ix, iy);
            chrome::blit_full_window(bb, active_frame, active, ax, ay);
            let h: usize = self.content_h();
            return Some(Rect { x: 0, y: MENU_H + 4, w: self.sw, h });
        }
        let mut changed: Option<Rect> = None;
        if plan.inactive {
            chrome::blit_full_window(bb, inactive_frame, inactive, ix, iy);
            changed = Some(inactive_outer);
        }
        if plan.active {
            chrome::blit_full_window(bb, active_frame, active, ax, ay);
            desktop::extend_damage(&mut changed, active_outer);
        } else if let Some(d) = plan.damage {
            bb.copy_rect_from(active, d.x, d.y, d.w, d.h, ax + d.x, ay + d.y);
            desktop::extend_damage(
                &mut changed,
                Rect { x: ax + d.x, y: ay + d.y, w: d.w, h: d.h },
            );
        }
        if plan.inactive && !plan.active {
            if let Some(common) = desktop::rect_intersection(inactive_outer, active_outer) {
                assert(common.covers(common.x as int, common.y as int));
                chrome::blit_full_window(bb, active_frame, active, ax, ay);
                desktop::extend_damage(&mut changed, active_outer);
            }
        }
        changed
    }

    /// Draws the bars and the statistics.
    pub fn draw_chrome(&mut self, bb: &mut Framebuffer, plan: &Plan)
        requires
            old(self).wf(),
            old(bb).wf(),
            showable(plan.samples),
        ensures
            final(self).wf(),
            final(self).same_pictures(*old(self)),
            final(self).photon_hist == old(self).photon_hist,
            final(self).state == state_drawn(old(self).state, *plan),
            final(bb).wf(),
            final(bb)@ == chrome_drawn(*old(self), old(bb)@, *plan),
    {
        let second: u64 = plan.ns / 1_000_000_000;
        let us: u64 = plan.samples.input_to_photon_us.latest;
        if plan.menu {
            proof {
                reveal_strlit(" tasks");
                crate::text::lemma_u64_digits(plan.tasks);
                desktop::lemma_latency_len(us);
                let n = chrome::tasks_text(plan.tasks).len() as int;
                let l = desktop::latency(us).len() as int;
                let w = self.font.width as int;
                assert(n * w <= 10 * w && l * w <= 10 * w && 0 <= l * w) by (nonlinear_arith)
                    requires
                        0 <= n <= 10,
                        0 <= l <= 10,
                        0 <= w,
                ;
            }
            chrome::draw_menu_bar(bb, &self.font, &self.menu, self.sw, plan.ns, us, plan.tasks);
            self.state.menu_second = second;
            self.state.menu_bucket = desktop::hud_metric_bucket(us);
            self.state.menu_tasks = plan.tasks;
        }
        if plan.stats {
            chrome::draw_stats_overlay(
                bb,
                &self.font,
                &self.stats,
                self.sw,
                plan.ns,
                plan.samples,
                &self.photon_hist,
                self.state.hist_idx,
                plan.tasks,
                plan.channels,
            );
            self.state.overlay_second = second;
            self.state.overlay_tasks = plan.tasks;
            self.state.overlay_channels = plan.channels;
            self.state.overlay_revision = self.state.revision;
        }
        if plan.taskbar {
            chrome::draw_taskbar(bb, &self.font, self.sw, self.sh, self.state.active_ws);
        }
    }

    /// What is to be presented: everything at first, then the changed parts.
    pub fn present(&mut self, plan: &Plan, content: Option<Rect>) -> (r: Present)
        requires
            old(self).wf(),
        ensures
            final(self).wf(),
            final(self).same_pictures(*old(self)),
            final(self).photon_hist == old(self).photon_hist,
            final(self).state == (State { full_present: false, ..old(self).state }),
            r.parts() == if old(self).state.full_present {
                None
            } else {
                Some(changed_parts(*old(self), *plan, content))
            },
    {
        if self.state.full_present {
            self.state.full_present = false;
            return Present::Full;
        }
        let mut parts: Vec<Rect> = Vec::new();
        if plan.menu {
            parts.push(Rect { x: 0, y: 0, w: self.sw, h: MENU_H + 1 });
        }
        if let Some(r) = content {
            parts.push(r);
        }
        if plan.stats {
            parts.push(
                Rect {
                    x: self.sw.saturating_sub(STATS_PANEL_W + 16),
                    y: MENU_H + 12,
                    w: STATS_PANEL_W,
                    h: STATS_PANEL_H,
                },
            );
        }
        if plan.taskbar {
            parts.push(Rect { x: 0, y: self.sh - TBAR_H, w: self.sw, h: TBAR_H });
        }
        assert(parts@ =~= changed_parts(*old(self), *plan, content));
        Present::Parts(parts)
    }

    /// Records what the frame took, and the latency from input to light that it
    /// ends, which is returned where there is one.
    pub fn finish(&mut self, m: &mut Metrics, plan: &Plan, shown: bool, t: Times) -> (r: Option<u64>)
        requires
            old(self).wf(),
            old(m).wf(),
            t.chrome_start_ns <= t.chrome_end_ns,
            t.present_start_ns <= t.frame_end_ns,
            plan.ns <= t.frame_end_ns,
            old(self).state.frames < u64::MAX,
            old(self).state.revision < u64::MAX,
        ensures
            final(self).wf(),
            final(self).same_pictures(*old(self)),
            final(self).state == state_presented(old(self).state, *plan, shown, t.frame_end_ns),
            final(m).wf(),
            ({
                let us = photon_us(old(self).state, *plan, shown, t.frame_end_ns);
                &&& final(m)@ == old(m)@.with_samples(
                    samples_presented(old(m)@.samples, t, plan.ns, us),
                )
                &&& r == if us > 0 {
                    Some(us)
                } else {
                    None
                }
                &&& final(self).photon_hist@ == if us > 0 {
                    old(self).photon_hist@.update(old(self).state.hist_idx as int, us)
                } else {
                    old(self).photon_hist@
                }
            }),
    {
        metrics::record_background_us(m, t.background_us);
        metrics::record_windows_us(m, t.windows_us);
        metrics::record_chrome_us(m, (t.chrome_end_ns - t.chrome_start_ns) / 1000);
        metrics::record_present_us(m, (t.frame_end_ns - t.present_start_ns) / 1000);
        metrics::record_frame_us(m, (t.frame_end_ns - plan.ns) / 1000);
        self.state.frames = self.state.frames + 1;
        let mut us: u64 = 0;
        if shown && plan.shell_seq > self.state.presented_shell_seq && plan.shell_input_ns > 0 {
            self.state.presented_shell_seq = plan.shell_seq;
            if t.frame_end_ns > plan.shell_input_ns {
                us = (t.frame_end_ns - plan.shell_input_ns) / 1000;
            }
        } else if shown && self.state.pending_input_ns > 0 && t.frame_end_ns
            > self.state.pending_input_ns {
            us = (t.frame_end_ns - self.state.pending_input_ns) / 1000;
            self.state.pending_input_ns = 0;
        }
        self.state.menu_dirty = false;
        self.state.stats_dirty = false;
        self.state.taskbar_dirty = false;
        if us > 0 {
            metrics::record_input_to_photon_us(m, us);
            let i: usize = self.state.hist_idx;
            self.photon_hist[i] = us;
            self.state.hist_idx = (i + 1) % 16;
            self.state.revision = self.state.revision + 1;
            Some(us)
        } else {
            None
        }
    }
}

/// Where the compositor is in a frame.
#[derive(Clone, Copy)]
pub enum Progress {
    /// Between two frames.
    Idle,
    /// A frame is planned, and nothing of it drawn.
    Planned(Plan),
    /// The desktop behind the windows was drawn, from this time on.
    Backdrop(Plan, u64),
    /// The windows were drawn, from the second time on, after a background that
    /// took the first many microseconds; they changed this part.
    Windows(Plan, u64, u64, Option<Rect>),
    /// Background and windows took this many microseconds, up to this time.
    Framed(Plan, u64, u64, u64, Option<Rect>),
    /// The bars were drawn, from the last time on.
    Chrome(Plan, Times, Option<Rect>),
    /// Everything is drawn.
    Drawn(Plan, Times, Option<Rect>),
    /// The frame is being presented.
    Presenting(Plan, Times, Option<Rect>),
}

impl Progress {
    /// The clock reading that the next one may not lie before.
    pub open spec fn since(self) -> u64 {
        match self {
            Progress::Idle => 0,
            Progress::Planned(plan) => plan.ns,
            Progress::Backdrop(_, start) => start,
            Progress::Windows(_, _, start, _) => start,
            Progress::Framed(_, _, _, end, _) => end,
            Progress::Chrome(_, t, _) => t.chrome_start_ns,
            Progress::Drawn(_, t, _) => t.chrome_end_ns,
            Progress::Presenting(_, t, _) => t.present_start_ns,
        }
    }

    pub open spec fn plan(self) -> Option<Plan> {
        match self {
            Progress::Idle => None,
            Progress::Planned(plan) => Some(plan),
            Progress::Backdrop(plan, _) => Some(plan),
            Progress::Windows(plan, _, _, _) => Some(plan),
            Progress::Framed(plan, _, _, _, _) => Some(plan),
            Progress::Chrome(plan, _, _) => Some(plan),
            Progress::Drawn(plan, _, _) => Some(plan),
            Progress::Presenting(plan, _, _) => Some(plan),
        }
    }

    /// The times of a frame are in order, and everything it shows can be shown.
    pub open spec fn wf(self, c: Compositor) -> bool {
        &&& self.plan() matches Some(plan) ==> showable(plan.samples) && damage_ok(c, plan)
            && plan.ns <= self.since()
        &&& self matches Progress::Drawn(_, t, _) ==> t.chrome_start_ns <= t.chrome_end_ns
        &&& self matches Progress::Presenting(_, t, _) ==> t.chrome_start_ns <= t.chrome_end_ns
    }
}

/// What comes next.
pub enum Next {
    /// The next step.
    Go,
    /// Present these parts, then the next step.
    Show(Present),
    /// The frame is done, or there was none: wait.
    Wait,
}

pub open spec fn elapsed_us(now: u64, start: u64) -> u64 {
    ((now - start) / 1000) as u64
}

/// The windows are drawn, and the time is `now`.
pub open spec fn windows_step(
    c: Compositor,
    p0: Picture,
    p1: Picture,
    plan: Plan,
    background_us: u64,
    now: u64,
    shell: Picture,
    dashboard: Picture,
) -> (bool, Progress) {
    let (p, changed) = windows(c, p0, plan, shell, dashboard);
    (p1 == p, Progress::Windows(plan, background_us, now, changed))
}

/// What a step of the compositor logs: once a second how often it redrew, after a
/// frame the latency from input to light that it ended, and every 240 frames the
/// measurements.
pub open spec fn logged(
    c: Compositor,
    progress: Progress,
    now: u64,
    after: Snapshot,
) -> Seq<char> {
    match progress {
        Progress::Idle => match second_ended(c.state, now) {
            Some((redraws, content)) => "[comp] redraws="@ + text::decimal(redraws as nat)
                + " content="@ + text::decimal(content as nat) + "\n"@,
            None => Seq::empty(),
        },
        Progress::Presenting(plan, _, changed) => {
            let us = photon_us(c.state, plan, changed is Some, now);
            (if us > 0 {
                "[photon] "@ + text::decimal(us as nat) + "us\n"@
            } else {
                Seq::empty()
            }) + (if (c.state.frames + 1) % 240 == 0 {
                metrics::metrics_line(after)
            } else {
                Seq::empty()
            })
        },
        _ => Seq::empty(),
    }
}

/// One step of the compositor at `now`: what it draws, what it remembers and
/// what comes next.
pub open spec fn composed(
    c0: Compositor,
    c1: Compositor,
    pr0: Progress,
    pr1: Progress,
    p0: Picture,
    p1: Picture,
    m0: MetricsView,
    m1: MetricsView,
    shell: Picture,
    dashboard: Picture,
    now: u64,
    tasks: u64,
    channels: u64,
    next: Next,
) -> bool {
    let same = c1.state == c0.state && c1.photon_hist == c0.photon_hist;
    &&& c1.same_pictures(c0)
    &&& match pr0 {
        Progress::Idle => {
            let plan = plan_of(c0.state, m0, now, tasks, channels);
            &&& p1 == p0
            &&& m1 == metrics_planned(c0.state, m0)
            &&& c1.state == state_planned(c0.state, m0, plan)
            &&& c1.photon_hist == c0.photon_hist
            &&& if plan.anything() {
                pr1 == Progress::Planned(plan) && next is Go
            } else {
                pr1 == Progress::Idle && next is Wait
            }
        },
        Progress::Planned(plan) => {
            &&& m1 == m0
            &&& next is Go
            &&& if plan.full {
                &&& same
                &&& p1 == backdrop(c0, p0, plan)
                &&& pr1 == Progress::Backdrop(plan, now)
            } else if plan.content() {
                &&& same
                &&& windows_step(c0, p0, p1, plan, 0, now, shell, dashboard) == (true, pr1)
            } else {
                &&& p1 == chrome_drawn(c0, p0, plan)
                &&& c1.state == state_drawn(c0.state, plan)
                &&& c1.photon_hist == c0.photon_hist
                &&& pr1 == Progress::Chrome(plan, chrome_times(0, 0, now), None)
            }
        },
        Progress::Backdrop(plan, start) => {
            &&& m1 == m0
            &&& next is Go
            &&& same
            &&& windows_step(c0, p0, p1, plan, elapsed_us(now, start), now, shell, dashboard) == (
                true,
                pr1,
            )
        },
        Progress::Windows(plan, background_us, start, changed) => {
            &&& m1 == m0
            &&& p1 == p0
            &&& next is Go
            &&& same
            &&& pr1 == Progress::Framed(plan, background_us, elapsed_us(now, start), now, changed)
        },
        Progress::Framed(plan, background_us, windows_us, _, changed) => {
            &&& m1 == m0
            &&& next is Go
            &&& p1 == chrome_drawn(c0, p0, plan)
            &&& c1.state == state_drawn(c0.state, plan)
            &&& c1.photon_hist == c0.photon_hist
            &&& pr1 == Progress::Chrome(
                plan,
                chrome_times(background_us, windows_us, now),
                changed,
            )
        },
        Progress::Chrome(plan, t, changed) => {
            &&& m1 == m0
            &&& p1 == p0
            &&& next is Go
            &&& same
            &&& pr1 == Progress::Drawn(plan, Times { chrome_end_ns: now, ..t }, changed)
        },
        Progress::Drawn(plan, t, changed) => {
            &&& m1 == m0
            &&& p1 == p0
            &&& c1.state == (State { full_present: false, ..c0.state })
            &&& c1.photon_hist == c0.photon_hist
            &&& pr1 == Progress::Presenting(plan, Times { present_start_ns: now, ..t }, changed)
            &&& next matches Next::Show(present) && present.parts() == if c0.state.full_present {
                None
            } else {
                Some(changed_parts(c0, plan, changed))
            }
        },
        Progress::Presenting(plan, t, changed) => {
            let us = photon_us(c0.state, plan, changed is Some, now);
            &&& p1 == p0
            &&& pr1 == Progress::Idle
            &&& c1.state == state_presented(c0.state, plan, changed is Some, now)
            &&& c1.photon_hist@ == if us > 0 {
                c0.photon_hist@.update(c0.state.hist_idx as int, us)
            } else {
                c0.photon_hist@
            }
            &&& m1 == m0.with_samples(
                samples_presented(m0.samples, Times { frame_end_ns: now, ..t }, plan.ns, us),
            )
            &&& next is Wait
        },
    }
}

pub open spec fn chrome_times(background_us: u64, windows_us: u64, now: u64) -> Times {
    Times {
        background_us,
        windows_us,
        chrome_start_ns: now,
        chrome_end_ns: 0,
        present_start_ns: 0,
        frame_end_ns: 0,
    }
}

/// What is counted has room for one more.
pub open spec fn counters_ok(s: State) -> bool {
    &&& s.redraws < u64::MAX
    &&& s.content_redraws < u64::MAX
    &&& s.frames < u64::MAX
    &&& s.revision < u64::MAX
}

/// One step of the compositor, at the clock reading `now`. A frame takes up to
/// eight, one for each reading: it is planned; the desktop, the windows and the
/// bars are drawn, and each is timed; it is presented, and recorded. Keys are
/// handled between two frames (`take_key`).
pub fn compositor_el1(
    c: &mut Compositor,
    progress: &mut Progress,
    bb: &mut Framebuffer,
    m: &mut Metrics,
    shell: &Framebuffer,
    dashboard: &Framebuffer,
    now: u64,
    tasks: u64,
    channels: u64,
    console: &mut Vec<char>,
) -> (next: Next)
    requires
        old(c).wf(),
        old(progress).wf(*old(c)),
        old(bb).wf(),
        old(m).wf(),
        shell.wf(),
        dashboard.wf(),
        counters_ok(old(c).state),
        old(progress).since() <= now,
        *old(progress) is Idle ==> {
            let plan = plan_of(old(c).state, old(m)@, now, tasks, channels);
            showable(plan.samples) && damage_ok(*old(c), plan)
        },
    ensures
        final(c).wf(),
        final(progress).wf(*final(c)),
        final(bb).wf(),
        final(m).wf(),
        composed(
            *old(c),
            *final(c),
            *old(progress),
            *final(progress),
            old(bb)@,
            final(bb)@,
            old(m)@,
            final(m)@,
            shell@,
            dashboard@,
            now,
            tasks,
            channels,
            next,
        ),
        final(console)@ == old(console)@ + logged(
            *old(c),
            *old(progress),
            now,
            final(m)@.samples,
        ),
{
    match *progress {
        Progress::Idle => {
            let (ended, plan): (Option<(u64, u64)>, Option<Plan>) = c.plan(m, now, tasks, channels);
            log_second(console, ended);
            match plan {
                None => Next::Wait,
                Some(plan) => {
                    *progress = Progress::Planned(plan);
                    Next::Go
                },
            }
        },
        Progress::Planned(plan) => {
            if plan.full {
                c.draw_background(bb, &plan);
                *progress = Progress::Backdrop(plan, now);
            } else if plan.has_content() {
                let changed: Option<Rect> = c.draw_windows(bb, &plan, shell, dashboard);
                *progress = Progress::Windows(plan, 0, now, changed);
            } else {
                c.draw_chrome(bb, &plan);
                *progress = Progress::Chrome(plan, start_chrome(0, 0, now), None);
            }
            Next::Go
        },
        Progress::Backdrop(plan, start) => {
            let background_us: u64 = (now - start) / 1000;
            let changed: Option<Rect> = c.draw_windows(bb, &plan, shell, dashboard);
            *progress = Progress::Windows(plan, background_us, now, changed);
            Next::Go
        },
        Progress::Windows(plan, background_us, start, changed) => {
            let windows_us: u64 = (now - start) / 1000;
            *progress = Progress::Framed(plan, background_us, windows_us, now, changed);
            Next::Go
        },
        Progress::Framed(plan, background_us, windows_us, _, changed) => {
            c.draw_chrome(bb, &plan);
            *progress = Progress::Chrome(
                plan,
                start_chrome(background_us, windows_us, now),
                changed,
            );
            Next::Go
        },
        Progress::Chrome(plan, t, changed) => {
            *progress = Progress::Drawn(plan, Times { chrome_end_ns: now, ..t }, changed);
            Next::Go
        },
        Progress::Drawn(plan, t, changed) => {
            let present: Present = c.present(&plan, changed);
            *progress = Progress::Presenting(plan, Times { present_start_ns: now, ..t }, changed);
            Next::Show(present)
        },
        Progress::Presenting(plan, t, changed) => {
            let done: Times = Times { frame_end_ns: now, ..t };
            let us: Option<u64> = c.finish(m, &plan, changed.is_some(), done);
            log_frame(console, us, c.state.frames, m);
            *progress = Progress::Idle;
            Next::Wait
        },
    }
}

/// Logs what a second that ended counted.
fn log_second(out: &mut Vec<char>, ended: Option<(u64, u64)>)
    ensures
        final(out)@ == old(out)@ + match ended {
            Some((redraws, content)) => "[comp] redraws="@ + text::decimal(redraws as nat)
                + " content="@ + text::decimal(content as nat) + "\n"@,
            None => Seq::empty(),
        },
{
    if let Some((redraws, content)) = ended {
        text::push_str(out, "[comp] redraws=");
        text::push_u64(out, redraws);
        text::push_str(out, " content=");
        text::push_u64(out, content);
        text::push_str(out, "\n");
    }
    assert(out@ =~= old(out)@ + match ended {
        Some((redraws, content)) => "[comp] redraws="@ + text::decimal(redraws as nat)
            + " content="@ + text::decimal(content as nat) + "\n"@,
        None => Seq::empty(),
    });
}

/// Logs what a frame, the `frames`-th, measured.
fn log_frame(out: &mut Vec<char>, us: Option<u64>, frames: u64, m: &Metrics)
    requires
        m.wf(),
    ensures
        final(out)@ == old(out)@ + ((match us {
            Some(us) => "[photon] "@ + text::decimal(us as nat) + "us\n"@,
            None => Seq::empty(),
        }) + (if frames % 240 == 0 {
            metrics::metrics_line(m@.samples)
        } else {
            Seq::empty()
        })),
{
    if let Some(us) = us {
        text::push_str(out, "[photon] ");
        text::push_u64(out, us);
        text::push_str(out, "us\n");
    }
    if frames % 240 == 0 {
        let samples: Snapshot = metrics::snapshot(m);
        metrics::log_metrics(out, &samples);
    }
    assert(out@ =~= old(out)@ + ((match us {
        Some(us) => "[photon] "@ + text::decimal(us as nat) + "us\n"@,
        None => Seq::empty(),
    }) + (if frames % 240 == 0 {
        metrics::metrics_line(m@.samples)
    } else {
        Seq::empty()
    })));
}

fn start_chrome(background_us: u64, windows_us: u64, now: u64) -> (t: Times)
    ensures
        t == chrome_times(background_us, windows_us, now),
{
    Times {
        background_us,
        windows_us,
        chrome_start_ns: now,
        chrome_end_ns: 0,
        present_start_ns: 0,
        frame_end_ns: 0,
    }
}

/// A frame shows everything there is to show: once it is presented, nothing is
/// drawn again until something changes.
pub proof fn law_quiet_until_something_changes(
    s: State,
    m: MetricsView,
    ns: u64,
    tasks: u64,
    channels: u64,
    shown: bool,
    end_ns: u64,
)
    requires
        m.surfaces.len() >= 2,
        photon_us(s, plan_of(s, m, ns, tasks, channels), shown, end_ns) == 0,
    ensures
        ({
            let plan = plan_of(s, m, ns, tasks, channels);
            let drawn = state_drawn(state_planned(s, m, plan), plan);
            let after = state_presented(
                State { full_present: false, ..drawn },
                plan,
                shown,
                end_ns,
            );
            !plan_of(after, metrics_planned(s, m), ns, tasks, channels).anything()
        }),
{
}

/// A window changes nothing outside its outer edge.
proof fn lemma_window_is_local(
    p: Picture,
    frame: Picture,
    surface: Picture,
    wx: int,
    wy: int,
    x: int,
    y: int,
)
    requires
        p.visible(x, y),
        p.width <= p.stride,
        p.cells.len() == p.stride * p.height,
        0 <= wx <= usize::MAX,
        0 <= wy <= usize::MAX,
        frame.width <= SURF_W + 4,
        frame.height <= SURF_H + 32,
        surface.width <= SURF_W,
        surface.height <= SURF_H,
        !desktop::window_outer(wx, wy).covers(x, y),
    ensures
        chrome::window(p, frame, surface, wx, wy).at(x, y) == p.at(x, y),
        chrome::window(p, frame, surface, wx, wy).same_form(p),
{
    let outer = desktop::window_outer(wx, wy);
    let shape = framebuffer::copy_shape(
        frame,
        0,
        0,
        frame.width,
        frame.height,
        outer.x as int,
        outer.y as int,
    );
    let q = p.paint(shape);
    framebuffer::law_paint_is_local(p, shape, x, y);
    let inner = framebuffer::copy_shape(
        surface,
        0,
        0,
        surface.width,
        surface.height,
        wx,
        wy,
    );
    framebuffer::law_paint_is_local(q, inner, x, y);
}

/// The windows lie between the bars.
pub open spec fn windows_fit(sh: int) -> bool {
    inactive_y(sh) + SURF_H + 2 <= content_top() + content_h(sh)
}

/// Every position that drawing the windows changes is in the part that is
/// presented for it.
pub proof fn law_changes_are_presented(
    c: Compositor,
    p: Picture,
    plan: Plan,
    shell: Picture,
    dashboard: Picture,
    x: int,
    y: int,
)
    requires
        c.wf(),
        damage_ok(c, plan),
        p.visible(x, y),
        p.width == c.sw,
        p.width <= p.stride,
        p.cells.len() == p.stride * p.height,
        shell.width <= SURF_W && shell.height <= SURF_H,
        dashboard.width <= SURF_W && dashboard.height <= SURF_H,
        plan.full ==> windows_fit(c.sh as int),
        windows(c, backdrop(c, p, plan), plan, shell, dashboard).0.at(x, y) != p.at(x, y),
    ensures
        windows(c, backdrop(c, p, plan), plan, shell, dashboard).1 matches Some(r) && r.covers(
            x,
            y,
        ),
{
    let (sw, sh) = (c.sw as int, c.sh as int);
    let ws = c.state.active_ws;
    let (ax, ay) = (active_x(sw), active_y(sh));
    let (ix, iy) = (inactive_x(sw, ws as int), inactive_y(sh));
    let active_outer = desktop::window_outer(ax, ay);
    let inactive_outer = desktop::window_outer(ix, iy);
    let (active, active_frame, inactive, inactive_frame) = if ws == 0 {
        (shell, c.shell_active@, dashboard, c.dash_inactive@)
    } else {
        (dashboard, c.dash_active@, shell, c.shell_inactive@)
    };
    let result = windows(c, backdrop(c, p, plan), plan, shell, dashboard);
    if !(result.1 is Some && result.1.unwrap().covers(x, y)) {
        if plan.full {
            let shape = framebuffer::copy_shape(
                c.desktop@,
                0,
                content_top(),
                sw,
                content_h(sh),
                0,
                content_top(),
            );
            let p0 = p.paint(shape);
            framebuffer::law_paint_is_local(p, shape, x, y);
            assert(p0 == backdrop(c, p, plan));
            lemma_window_is_local(p0, inactive_frame, inactive, ix, iy, x, y);
            let p1 = chrome::window(p0, inactive_frame, inactive, ix, iy);
            lemma_window_is_local(p1, active_frame, active, ax, ay, x, y);
        } else {
            let p1 = if plan.inactive {
                chrome::window(p, inactive_frame, inactive, ix, iy)
            } else {
                p
            };
            if plan.inactive {
                lemma_window_is_local(p, inactive_frame, inactive, ix, iy, x, y);
            }
            if plan.active {
                lemma_window_is_local(p1, active_frame, active, ax, ay, x, y);
            } else {
                let p2 = match plan.damage {
                    Some(d) => p1.copied(
                        active,
                        d.x as int,
                        d.y as int,
                        d.w as int,
                        d.h as int,
                        ax + d.x,
                        ay + d.y,
                    ),
                    None => p1,
                };
                if let Some(d) = plan.damage {
                    let shape = framebuffer::copy_shape(
                        active,
                        d.x as int,
                        d.y as int,
                        d.w as int,
                        d.h as int,
                        ax + d.x,
                        ay + d.y,
                    );
                    framebuffer::law_paint_is_local(p1, shape, x, y);
                }
                if plan.inactive && overlap(inactive_outer, active_outer) {
                    lemma_window_is_local(p2, active_frame, active, ax, ay, x, y);
                }
            }
        }
        assert(false);
    }
}

proof fn lemma_icon_form(p: Picture, ix: int, iy: int, accent: Color, n: int)
    ensures
        chrome::icon(p, ix, iy, accent, n).same_form(p),
    decreases n,
{
    if n > 0 {
        lemma_icon_form(p, ix, iy, accent, n - 1);
    }
}

proof fn lemma_icons_keep_form(font: AaFont, p: Picture)
    ensures
        chrome::desktop_icons(font, p).same_form(p),
{
    lemma_icon_form(p, 30, 50, rgb(desktop::ACCENT), 256);
    let q = chrome::icon(p, 30, 50, rgb(desktop::ACCENT), 256).text(
        font,
        26,
        86,
        "System"@,
        rgb(desktop::SUBTLE),
        rgb(DESKTOP_BG),
    );
    lemma_icon_form(q, 30, 120, rgb(ORANGE), 256);
}

/// The surface of a workspace: 0 the shell's, 1 the dashboard's.
spec fn surface_of(ws: int, shell: Picture, dashboard: Picture) -> Picture {
    if ws == 0 {
        shell
    } else {
        dashboard
    }
}

/// A window shows its surface, position by position.
proof fn lemma_window_shows_surface(
    p: Picture,
    frame: Picture,
    surface: Picture,
    wx: int,
    wy: int,
    px: int,
    py: int,
)
    requires
        p.visible(wx + px, wy + py),
        p.width <= p.stride,
        p.cells.len() == p.stride * p.height,
        surface.visible(px, py),
    ensures
        chrome::window(p, frame, surface, wx, wy).at(wx + px, wy + py) == surface.at(px, py),
{
    let outer = desktop::window_outer(wx, wy);
    let q = p.copied(frame, 0, 0, frame.width, frame.height, outer.x as int, outer.y as int);
    framebuffer::law_copy(
        q,
        surface,
        0,
        0,
        surface.width,
        surface.height,
        wx,
        wy,
        wx + px,
        wy + py,
    );
}

/// The window in front shows the workspace in front: after its content has been
/// drawn, the middle of the screen holds the surface of that workspace, 0 the
/// shell and 1 the dashboard, position by position.
pub proof fn law_front_window_shows_its_workspace(
    c: Compositor,
    p: Picture,
    plan: Plan,
    shell: Picture,
    dashboard: Picture,
    px: int,
    py: int,
)
    requires
        c.wf(),
        p.width == c.sw,
        p.height == c.sh,
        p.width <= p.stride,
        p.cells.len() == p.stride * p.height,
        shell.width == 620 && shell.height == 400,
        dashboard.width == 620 && dashboard.height == 400,
        plan.full || plan.active,
        0 <= px < 620,
        0 <= py < 400,
        active_y(c.sh as int) + py < c.sh,
    ensures
        ({
            let x = (c.sw - 620) / 2 + px;
            let y = active_y(c.sh as int) + py;
            let drawn = windows(c, backdrop(c, p, plan), plan, shell, dashboard).0;
            &&& c.state.active_ws == 0 ==> drawn.at(x, y) == shell.at(px, py)
            &&& c.state.active_ws == 1 ==> drawn.at(x, y) == dashboard.at(px, py)
        }),
{
    let (sw, sh) = (c.sw as int, c.sh as int);
    let ws = c.state.active_ws;
    let (ax, ay) = (active_x(sw), active_y(sh));
    let (ix, iy) = (inactive_x(sw, ws as int), inactive_y(sh));
    let p0 = backdrop(c, p, plan);
    assert(p0.same_form(p));
    let (active, active_frame, inactive, inactive_frame) = if ws == 0 {
        (shell, c.shell_active@, dashboard, c.dash_inactive@)
    } else {
        (dashboard, c.dash_active@, shell, c.shell_inactive@)
    };
    let p1 = if plan.full || plan.inactive {
        chrome::window(p0, inactive_frame, inactive, ix, iy)
    } else {
        p0
    };
    assert(p1.same_form(p));
    lemma_window_shows_surface(p1, active_frame, active, ax, ay, px, py);
}

/// Around the window in front is its own frame, with the title of its workspace,
/// as one in front.
pub proof fn law_front_window_is_named(
    c: Compositor,
    p: Picture,
    plan: Plan,
    shell: Picture,
    dashboard: Picture,
    fx: int,
    fy: int,
)
    requires
        c.wf(),
        p.width == c.sw,
        p.height == c.sh,
        p.width <= p.stride,
        p.cells.len() == p.stride * p.height,
        shell.width == 620 && shell.height == 400,
        dashboard.width == 620 && dashboard.height == 400,
        plan.full || plan.active,
        624 <= c.sw,
        0 <= fx < 624,
        0 <= fy < 30,
        active_y(c.sh as int) - 30 + fy < c.sh,
    ensures
        ({
            let x = (c.sw - 620) / 2 - 2 + fx;
            let y = active_y(c.sh as int) - 30 + fy;
            let drawn = windows(c, backdrop(c, p, plan), plan, shell, dashboard).0;
            let bgr = c.desktop@.bgr;
            &&& c.state.active_ws == 0 ==> drawn.at(x, y) == chrome::frame_base(
                c.font,
                "Shell"@,
                rgb(GREEN),
                true,
                bgr,
            ).at(fx, fy)
            &&& c.state.active_ws == 1 ==> drawn.at(x, y) == chrome::frame_base(
                c.font,
                "Dashboard"@,
                rgb(ORANGE),
                true,
                bgr,
            ).at(fx, fy)
        }),
{
    let (sw, sh) = (c.sw as int, c.sh as int);
    let ws = c.state.active_ws;
    let (ax, ay) = (active_x(sw), active_y(sh));
    let (ix, iy) = (inactive_x(sw, ws as int), inactive_y(sh));
    let p0 = backdrop(c, p, plan);
    assert(p0.same_form(p));
    let (active, active_frame, inactive, inactive_frame) = if ws == 0 {
        (shell, c.shell_active@, dashboard, c.dash_inactive@)
    } else {
        (dashboard, c.dash_active@, shell, c.shell_inactive@)
    };
    let p1 = if plan.full || plan.inactive {
        chrome::window(p0, inactive_frame, inactive, ix, iy)
    } else {
        p0
    };
    assert(p1.same_form(p));
    let outer = desktop::window_outer(ax, ay);
    let (x, y) = (ax - 2 + fx, ay - 30 + fy);
    let q = p1.copied(
        active_frame,
        0,
        0,
        active_frame.width,
        active_frame.height,
        outer.x as int,
        outer.y as int,
    );
    framebuffer::law_copy(
        p1,
        active_frame,
        0,
        0,
        active_frame.width,
        active_frame.height,
        outer.x as int,
        outer.y as int,
        x,
        y,
    );
    framebuffer::law_copy(q, active, 0, 0, active.width, active.height, ax, ay, x, y);
}

/// The window behind shows the other workspace wherever the one in front does not
/// cover it.
pub proof fn law_back_window_shows_the_other(
    c: Compositor,
    p: Picture,
    plan: Plan,
    shell: Picture,
    dashboard: Picture,
    px: int,
    py: int,
)
    requires
        c.wf(),
        p.width == c.sw,
        p.height == c.sh,
        p.width <= p.stride,
        p.cells.len() == p.stride * p.height,
        shell.width == 620 && shell.height == 400,
        dashboard.width == 620 && dashboard.height == 400,
        plan.full,
        0 <= px < 620,
        0 <= py < 400,
        inactive_x(c.sw as int, c.state.active_ws as int) + px < c.sw,
        inactive_y(c.sh as int) + py < c.sh,
        !desktop::window_outer(active_x(c.sw as int), active_y(c.sh as int)).covers(
            inactive_x(c.sw as int, c.state.active_ws as int) + px,
            inactive_y(c.sh as int) + py,
        ),
    ensures
        ({
            let x = inactive_x(c.sw as int, c.state.active_ws as int) + px;
            let y = inactive_y(c.sh as int) + py;
            let drawn = windows(c, backdrop(c, p, plan), plan, shell, dashboard).0;
            &&& c.state.active_ws == 0 ==> drawn.at(x, y) == dashboard.at(px, py)
            &&& c.state.active_ws == 1 ==> drawn.at(x, y) == shell.at(px, py)
        }),
{
    let (sw, sh) = (c.sw as int, c.sh as int);
    let ws = c.state.active_ws;
    let (ax, ay) = (active_x(sw), active_y(sh));
    let (ix, iy) = (inactive_x(sw, ws as int), inactive_y(sh));
    let p0 = backdrop(c, p, plan);
    assert(p0.same_form(p));
    let (active, active_frame, inactive, inactive_frame) = if ws == 0 {
        (shell, c.shell_active@, dashboard, c.dash_inactive@)
    } else {
        (dashboard, c.dash_active@, shell, c.shell_inactive@)
    };
    lemma_window_shows_surface(p0, inactive_frame, inactive, ix, iy, px, py);
    let p1 = chrome::window(p0, inactive_frame, inactive, ix, iy);
    assert(p1.same_form(p));
    lemma_window_is_local(p1, active_frame, active, ax, ay, ix + px, iy + py);
}

/// The damaged part of the workspace in front is drawn where it belongs, from the
/// surface in front, and nothing else of the screen changes.
pub proof fn law_damage_is_drawn_in_place(
    c: Compositor,
    p: Picture,
    plan: Plan,
    shell: Picture,
    dashboard: Picture,
    d: Rect,
    x: int,
    y: int,
)
    requires
        c.wf(),
        p.width == c.sw,
        p.height == c.sh,
        p.width <= p.stride,
        p.cells.len() == p.stride * p.height,
        shell.width == 620 && shell.height == 400,
        dashboard.width == 620 && dashboard.height == 400,
        !plan.full && !plan.active && !plan.inactive,
        plan.damage == Some(d),
        d.x + d.w <= 620,
        d.y + d.h <= 400,
        p.visible(x, y),
    ensures
        ({
            let (px, py) = (x - (c.sw - 620) / 2, y - active_y(c.sh as int));
            let drawn = windows(c, backdrop(c, p, plan), plan, shell, dashboard).0;
            &&& d.covers(px, py) && c.state.active_ws == 0 ==> drawn.at(x, y) == shell.at(px, py)
            &&& d.covers(px, py) && c.state.active_ws == 1 ==> drawn.at(x, y) == dashboard.at(
                px,
                py,
            )
            &&& !d.covers(px, py) ==> drawn.at(x, y) == p.at(x, y)
        }),
{
    let (ax, ay) = (active_x(c.sw as int), active_y(c.sh as int));
    let active = surface_of(c.state.active_ws as int, shell, dashboard);
    framebuffer::law_copy(
        p,
        active,
        d.x as int,
        d.y as int,
        d.w as int,
        d.h as int,
        ax + d.x,
        ay + d.y,
        x,
        y,
    );
}

/// The window in front is in the middle of the screen, and, where there is room
/// for it, in the middle between the bars; the one behind is 20 lower and 60 to
/// the side.
pub proof fn law_windows_are_centred(c: Compositor)
    requires
        c.wf(),
    ensures
        ({
            let (ax, ay) = (active_x(c.sw as int), active_y(c.sh as int));
            &&& 0 <= c.sw - (2 * ax + 620) <= 1
            &&& c.sh >= 36 + 4 + 30 + 428 ==> {
                let above = ay - 28 - 30;
                let below = c.sh - 36 - 4 - (ay + 400);
                0 <= below - above <= 1
            }
            &&& inactive_y(c.sh as int) == ay + 20
            &&& inactive_x(c.sw as int, 0) == ax + 60
            &&& ax >= 60 ==> inactive_x(c.sw as int, 1) == ax - 60
        }),
{
}

/// What keys do: tab and back-quote bring the other workspace to the front, `1`
/// the shell and `2` the dashboard; a key that switches redraws everything and
/// starts a measurement. Every other key changes nothing, and goes to the shell
/// exactly while that is in front. A key that is released does nothing.
pub proof fn law_keys(s: State, msg: Message)
    requires
        s.active_ws <= 1,
    ensures
        ({
            let ch = msg.payload[0] as u8;
            let after = s.keyed(msg);
            let down = msg.tag == 20;
            &&& down && (ch == 9 || ch == 96) ==> after.active_ws == 1 - s.active_ws
            &&& down && ch == 49 ==> after.active_ws == 0
            &&& down && ch == 50 ==> after.active_ws == 1
            &&& !down || (ch != 9 && ch != 96 && ch != 49 && ch != 50) ==> after == s
            &&& after.active_ws != s.active_ws ==> after.full_content && after.stats_dirty
                && after.taskbar_dirty && after.pending_input_ns == msg.payload[2]
            &&& after.active_ws == s.active_ws ==> after == s
            &&& s.for_shell(msg) <==> down && s.active_ws == 0 && ch != 9 && ch != 96 && ch != 49
                && ch != 50
            &&& !s.for_shell(msg) || after == s
        }),
{
}

/// What is drawn: everything after a switch; a new shell surface always, by its
/// damage where it is in front and that is known; a new dashboard while it is in
/// front; the bar and the statistics when the second, a count or a measurement
/// that they show changes; and nothing that has not changed.
pub proof fn law_what_is_drawn(s: State, m: MetricsView, ns: u64, tasks: u64, channels: u64)
    requires
        s.active_ws <= 1,
    ensures
        ({
            let plan = plan_of(s, m, ns, tasks, channels);
            let shell_new = m.surfaces[0].seq != s.shell_seq;
            let dashboard_new = m.surfaces[1].seq != s.dashboard_seq;
            let d = m.surfaces[0].damage;
            let blank = d.w == 0 || d.h == 0;
            &&& s.full_content ==> plan.full
            &&& shell_new && s.active_ws == 0 && blank ==> plan.active
            &&& shell_new && s.active_ws == 0 && !blank ==> (plan.damage matches Some(r) && r.x
                == d.x && r.y == d.y && r.w == d.w && r.h == d.h)
            &&& shell_new && s.active_ws == 1 ==> plan.active && plan.inactive
            &&& dashboard_new && s.active_ws == 1 ==> plan.active
            &&& ns / 1_000_000_000 != s.menu_second || tasks != s.menu_tasks || s.menu_dirty
                ==> plan.menu
            &&& ns / 1_000_000_000 != s.overlay_second || tasks != s.overlay_tasks || channels
                != s.overlay_channels || s.revision != s.overlay_revision || s.stats_dirty
                ==> plan.stats
            &&& s.taskbar_dirty <==> plan.taskbar
            &&& !s.full_content && !shell_new && (!dashboard_new || s.active_ws == 0)
                ==> !plan.content()
            &&& plan.ns == ns && plan.samples == m.samples && plan.tasks == tasks && plan.channels
                == channels
        }),
{
}

/// The latency from input to light runs from the key to the end of the frame that
/// shows what it did: a key of the shell, or a switch of the workspace.
pub proof fn law_photon_latency(s: State, plan: Plan, end_ns: u64)
    ensures
        plan.shell_seq > s.presented_shell_seq && 0 < plan.shell_input_ns < end_ns ==> photon_us(
            s,
            plan,
            true,
            end_ns,
        ) == (end_ns - plan.shell_input_ns) / 1000,
        plan.shell_seq <= s.presented_shell_seq && 0 < s.pending_input_ns < end_ns ==> photon_us(
            s,
            plan,
            true,
            end_ns,
        ) == (end_ns - s.pending_input_ns) / 1000,
        photon_us(s, plan, false, end_ns) == 0,
        plan.shell_seq <= s.presented_shell_seq && s.pending_input_ns == 0 ==> photon_us(
            s,
            plan,
            true,
            end_ns,
        ) == 0,
{
}

/// A latency is measured once: the frame after one that ended it measures none,
/// unless something new was typed or switched.
pub proof fn law_photon_is_measured_once(s: State, plan: Plan, next: Plan, end_ns: u64, later_ns: u64)
    requires
        photon_us(s, plan, true, end_ns) > 0,
        plan.shell_seq > s.presented_shell_seq ==> s.pending_input_ns == 0,
        next.shell_seq == plan.shell_seq,
        next.shell_input_ns == plan.shell_input_ns,
    ensures
        plan.shell_input_ns > 0 || plan.shell_seq <= s.presented_shell_seq ==> photon_us(
            state_presented(s, plan, true, end_ns),
            next,
            true,
            later_ns,
        ) == 0,
{
}

/// What is presented: the changed part of the windows, the bar at the top, the
/// panel at the right and the bar at the bottom, each exactly if it was drawn.
pub proof fn law_parts(c: Compositor, plan: Plan, content: Option<Rect>, x: int, y: int)
    requires
        c.wf(),
        0 <= x < c.sw,
        0 <= y < c.sh,
    ensures
        (exists|i: int|
            0 <= i < changed_parts(c, plan, content).len() && (#[trigger] changed_parts(
                c,
                plan,
                content,
            )[i]).covers(x, y)) <==> {
            ||| plan.menu && y < 27
            ||| content is Some && content.unwrap().covers(x, y)
            ||| plan.stats && desktop::less(c.sw as int, 216) <= x < desktop::less(
                c.sw as int,
                216,
            ) + 200 && 38 <= y < 38 + 184
            ||| plan.taskbar && y >= c.sh - 36
        },
{
    let parts = changed_parts(c, plan, content);
    let a: int = if plan.menu { 1 } else { 0 };
    let b: int = a + if content is Some { 1int } else { 0 };
    let d: int = b + if plan.stats { 1int } else { 0 };
    if plan.menu {
        assert(parts[0].covers(x, y) == (y < 27));
    }
    if let Some(r) = content {
        assert(parts[a] == r);
        assert(parts[a].covers(x, y) == r.covers(x, y));
    }
    if plan.stats {
        assert(parts[b].covers(x, y) == (desktop::less(c.sw as int, 216) <= x < desktop::less(
            c.sw as int,
            216,
        ) + 200 && 38 <= y < 38 + 184));
    }
    if plan.taskbar {
        assert(parts[d].covers(x, y) == (y >= c.sh - 36));
    }
    if exists|i: int| 0 <= i < parts.len() && (#[trigger] parts[i]).covers(x, y) {
        let i = choose|i: int| 0 <= i < parts.len() && (#[trigger] parts[i]).covers(x, y);
        assert(i < a || i == a || i == b || i == d);
    }
}

/// A display in memory shows the back buffer in every part that is presented, and
/// is as before everywhere else.
pub proof fn law_flip_shows_the_parts(
    p: Picture,
    src: Picture,
    parts: Seq<Rect>,
    n: int,
    x: int,
    y: int,
)
    requires
        0 <= n <= parts.len(),
        p.visible(x, y),
        src.visible(x, y),
        p.width <= p.stride,
        p.cells.len() == p.stride * p.height,
    ensures
        flipped(p, src, parts, n).same_form(p),
        (exists|i: int| 0 <= i < n && (#[trigger] parts[i]).covers(x, y)) ==> flipped(
            p,
            src,
            parts,
            n,
        ).at(x, y) == src.at(x, y),
        (forall|i: int| 0 <= i < n ==> !(#[trigger] parts[i]).covers(x, y)) ==> flipped(
            p,
            src,
            parts,
            n,
        ).at(x, y) == p.at(x, y),
    decreases n,
{
    if n > 0 {
        law_flip_shows_the_parts(p, src, parts, n - 1, x, y);
        let q = flipped(p, src, parts, n - 1);
        let r = parts[n - 1];
        framebuffer::law_copy(
            q,
            src,
            r.x as int,
            r.y as int,
            r.w as int,
            r.h as int,
            r.x as int,
            r.y as int,
            x,
            y,
        );
        assert(r.covers(x, y) || !r.covers(x, y));
    }
}

/// What a frame takes is measured from the reading that it shows to its end, the bars
/// from their start to theirs, and the presentation from when it began.
pub proof fn law_frame_is_measured(
    c0: Compositor,
    c1: Compositor,
    c2: Compositor,
    c3: Compositor,
    plan: Plan,
    t: Times,
    changed: Option<Rect>,
    drawn: Progress,
    presenting: Progress,
    idle: Progress,
    p0: Picture,
    p1: Picture,
    p2: Picture,
    p3: Picture,
    m0: MetricsView,
    m1: MetricsView,
    m2: MetricsView,
    m3: MetricsView,
    shell: Picture,
    dashboard: Picture,
    times: (u64, u64, u64),
    tasks: u64,
    channels: u64,
    next: (Next, Next, Next),
)
    requires
        composed(
            c0,
            c1,
            Progress::Chrome(plan, t, changed),
            drawn,
            p0,
            p1,
            m0,
            m1,
            shell,
            dashboard,
            times.0,
            tasks,
            channels,
            next.0,
        ),
        composed(
            c1,
            c2,
            drawn,
            presenting,
            p1,
            p2,
            m1,
            m2,
            shell,
            dashboard,
            times.1,
            tasks,
            channels,
            next.1,
        ),
        composed(
            c2,
            c3,
            presenting,
            idle,
            p2,
            p3,
            m2,
            m3,
            shell,
            dashboard,
            times.2,
            tasks,
            channels,
            next.2,
        ),
        t.chrome_start_ns <= times.0 <= times.1 <= times.2,
        plan.ns <= times.0,
    ensures
        m3.samples.chrome_us.latest == (times.0 - t.chrome_start_ns) / 1000,
        m3.samples.present_us.latest == (times.2 - times.1) / 1000,
        m3.samples.frame_us.latest == (times.2 - plan.ns) / 1000,
        m3.samples.background_us.latest == t.background_us,
        m3.samples.windows_us.latest == t.windows_us,
        m3.samples.ipc_rtt_us == m0.samples.ipc_rtt_us,
        m3.samples.sched_wake_us == m0.samples.sched_wake_us,
        p3 == p0,
        next.1 is Show,
        next.2 is Wait,
        idle is Idle,
{
}

/// The background is measured from when it began to the next reading, and the windows
/// from there to the one after.
pub proof fn law_windows_are_measured(
    c0: Compositor,
    c1: Compositor,
    c2: Compositor,
    c3: Compositor,
    plan: Plan,
    start: u64,
    windows: Progress,
    framed: Progress,
    chrome: Progress,
    p0: Picture,
    p1: Picture,
    p2: Picture,
    p3: Picture,
    m: MetricsView,
    shell: Picture,
    dashboard: Picture,
    times: (u64, u64, u64),
    tasks: u64,
    channels: u64,
    next: (Next, Next, Next),
)
    requires
        composed(
            c0,
            c1,
            Progress::Backdrop(plan, start),
            windows,
            p0,
            p1,
            m,
            m,
            shell,
            dashboard,
            times.0,
            tasks,
            channels,
            next.0,
        ),
        composed(c1, c2, windows, framed, p1, p2, m, m, shell, dashboard, times.1, tasks, channels, next.1),
        composed(c2, c3, framed, chrome, p2, p3, m, m, shell, dashboard, times.2, tasks, channels, next.2),
        start <= times.0 <= times.1 <= times.2,
    ensures
        chrome matches Progress::Chrome(shown, t, _) && shown == plan && t.background_us == (times.0
            - start) / 1000 && t.windows_us == (times.1 - times.0) / 1000 && t.chrome_start_ns
            == times.2,
{
}

/// After a switch of the workspace the whole screen is shown, once; otherwise the
/// parts that changed are.
pub proof fn law_what_is_shown(
    c0: Compositor,
    c1: Compositor,
    plan: Plan,
    t: Times,
    changed: Option<Rect>,
    next_progress: Progress,
    p0: Picture,
    p1: Picture,
    m0: MetricsView,
    m1: MetricsView,
    shell: Picture,
    dashboard: Picture,
    now: u64,
    tasks: u64,
    channels: u64,
    next: Next,
)
    requires
        composed(
            c0,
            c1,
            Progress::Drawn(plan, t, changed),
            next_progress,
            p0,
            p1,
            m0,
            m1,
            shell,
            dashboard,
            now,
            tasks,
            channels,
            next,
        ),
    ensures
        c0.state.full_present ==> (next matches Next::Show(present) && present.parts() is None),
        !c0.state.full_present ==> (next matches Next::Show(present) && present.parts() == Some(
            changed_parts(c0, plan, changed),
        )),
        !c1.state.full_present,
        p1 == p0,
        m1 == m0,
{
}

/// A key for the shell is the last message of the shell's channel, where there is
/// room for it and nobody waits there; a key for the compositor goes no further.
pub proof fn law_keys_reach_the_shell(s: State, msg: Message, k0: Kernel, k1: Kernel, now_ns: u64)
    requires
        k0.wf(),
        forwarded(s, msg, k0, k1, now_ns),
    ensures
        ({
            let ch = msg.payload[0] as u8;
            let shell = msg.tag == 20 && s.active_ws == 0 && ch != 9 && ch != 96 && ch != 49 && ch
                != 50;
            let c0 = k0.ipc@.chans[1];
            let c1 = k1.ipc@.chans[1];
            &&& !shell ==> k1.ipc@ == k0.ipc@ && k1.sched == k0.sched
            &&& shell && k0.ipc@.live(1) && c0.queue.len() < 16 && c0.waiter is None ==> {
                &&& c1.queue.len() == c0.queue.len() + 1
                &&& c1.queue.last().msg == (Message { sender: k0.sched.current as u16, ..msg })
                &&& c1.queue.drop_last() == c0.queue
            }
        }),
{
    ipc::law_bounds(k0.ipc);
    ipc::law_sizes(k0.ipc, 1);
    if s.for_shell(msg) && k0.ipc@.live(1) && k0.ipc@.chans[1].queue.len() < 16
        && k0.ipc@.chans[1].waiter is None {
        assert(k1.ipc@.chans[1].queue.drop_last() =~= k0.ipc@.chans[1].queue);
    }
}

/// Where the taskbar is drawn, it marks the workspace in front; where no bar and no
/// statistics are to be drawn, nothing is.
pub proof fn law_bars(c: Compositor, p: Picture, plan: Plan)
    requires
        c.wf(),
        dashboard::whole(p),
        p.width == c.sw,
        p.height == c.sh,
        !plan.stats,
        !plan.menu,
    ensures
        ({
            let q = chrome_drawn(c, p, plan);
            let (x, y) = ((c.sw - 212) / 2, c.sh - 30);
            let green = Color { r: 0x3F, g: 0xB9, b: 0x50 };
            let orange = Color { r: 0xFF, g: 0xA6, b: 0x58 };
            &&& !plan.taskbar ==> q == p
            &&& plan.taskbar && c.state.active_ws == 0 ==> q.color(x, y) == green
            &&& plan.taskbar && c.state.active_ws == 1 ==> q.color(x + 112, y) == orange
        }),
{
    if plan.taskbar {
        chrome::law_taskbar_marks_the_front(
            c.font,
            p,
            c.sw as int,
            c.sh as int,
            c.state.active_ws as int,
        );
    }
}

/// Where the menu bar alone is drawn, it tells the plan's time, latency and tasks.
pub proof fn law_menu_is_drawn(c: Compositor, p: Picture, plan: Plan)
    requires
        c.wf(),
        dashboard::whole(p),
        plan.menu,
        !plan.stats,
        !plan.taskbar,
    ensures
        ({
            let q = chrome_drawn(c, p, plan);
            let (w, h) = (c.font.width as int, c.font.height as int);
            let us = plan.samples.input_to_photon_us.latest;
            let time = c.sw - 8 * w - 12;
            let late = time - 12 - (desktop::latency(us).len() * w + 8);
            let bg = rgb(desktop::MENU_BG);
            &&& dashboard::shows(q, c.font, time, 5, h, desktop::hms(plan.ns), rgb(desktop::TEXT), bg)
            &&& us > 0 ==> dashboard::shows(
                q,
                c.font,
                late,
                5,
                h,
                desktop::latency(us),
                desktop::latency_color(us),
                bg,
            )
        }),
{
    chrome::law_menu_bar_tells(
        c.font,
        p,
        c.menu@,
        c.sw as int,
        plan.ns,
        plan.samples.input_to_photon_us.latest,
        plan.tasks,
    );
}

/// What is logged: at the end of a second how often the screen and its content were
/// drawn in it, after a frame the latency that it ended, and every 240 frames the
/// measurements; otherwise nothing.
pub proof fn law_what_is_logged(
    c: Compositor,
    now: u64,
    after: Snapshot,
    plan: Plan,
    t: Times,
    changed: Option<Rect>,
)
    requires
        c.state.frames < u64::MAX,
    ensures
        now / 1_000_000_000 == c.state.log_second ==> logged(c, Progress::Idle, now, after).len()
            == 0,
        now / 1_000_000_000 != c.state.log_second && c.state.log_second != NEVER ==> logged(
            c,
            Progress::Idle,
            now,
            after,
        ) == "[comp] redraws="@ + text::decimal(c.state.redraws as nat) + " content="@
            + text::decimal(c.state.content_redraws as nat) + "\n"@,
        ({
            let us = photon_us(c.state, plan, changed is Some, now);
            let line = logged(c, Progress::Presenting(plan, t, changed), now, after);
            let many = (c.state.frames + 1) % 240 == 0;
            &&& us == 0 && !many ==> line.len() == 0
            &&& us > 0 && !many ==> line == "[photon] "@ + text::decimal(us as nat) + "us\n"@
            &&& us == 0 && many ==> line == metrics::metrics_line(after)
        }),
        logged(c, Progress::Planned(plan), now, after).len() == 0,
        logged(c, Progress::Chrome(plan, t, changed), now, after).len() == 0,
{
    let us = photon_us(c.state, plan, changed is Some, now);
    let shown = "[photon] "@ + text::decimal(us as nat) + "us\n"@;
    assert(shown + Seq::<char>::empty() =~= shown);
    let line = metrics::metrics_line(after);
    assert(Seq::<char>::empty() + line =~= line);
}

} // verus!
