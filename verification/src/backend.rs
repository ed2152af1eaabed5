//! Presentation backends as the rest of the session sees them: which one a
//! session runs on, what each can do, and the state of a seat that drives a
//! real output.

use crate::text::same_str;
use vstd::prelude::*;

pub mod laws;

verus! {

/// The kinds of session.
#[derive(Clone, Copy, PartialEq, Eq, Debug, Structural)]
pub enum Session {
    /// Composites offscreen, for drivers.
    Headless,
    /// Runs in a window of another session.
    Nested,
    /// Owns a seat.
    Tty,
}

/// Whether a switch variable is set: to anything but "0".
pub fn switched_on(value: Option<&str>) -> (on: bool)
    ensures
        on == (value is Some && value->0@ != "0"@),
{
    match value {
        Some(v) => !same_str(v, "0"),
        None => false,
    }
}

/// The session to run, given what the headless switch is set to.
pub open spec fn session_of(headless: Option<Seq<char>>, nested: bool) -> Session {
    if headless is Some && headless->0 != "0"@ {
        Session::Headless
    } else if nested {
        Session::Nested
    } else {
        Session::Tty
    }
}

/// Pick the session: offscreen regardless of any host display if asked for;
/// otherwise nested inside a session, and owning the seat on a bare
/// terminal.
pub fn pick_session(headless: Option<&str>, nested: bool) -> (s: Session)
    ensures
        s == session_of(
            match headless {
                Some(v) => Some(v@),
                None => None,
            },
            nested,
        ),
{
    if switched_on(headless) {
        Session::Headless
    } else if nested {
        Session::Nested
    } else {
        Session::Tty
    }
}

/// The state of a seat that drives one output.
#[derive(Clone, Copy, PartialEq, Eq, Debug, Structural)]
pub struct Tty {
    /// The connector that is driven, by its number.
    pub connector: Option<u32>,
    /// Whether its scanout surface is up.
    pub scanout: bool,
    /// A frame is queued and its vblank has not fired yet.
    pub queued: bool,
    /// The session lost the devices.
    pub paused: bool,
}

/// What a reconnect does.
#[derive(Clone, Copy, PartialEq, Eq, Debug, Structural)]
pub enum Reconnect {
    /// No connector is connected: the output goes dark.
    Dark,
    /// The driven connector is still the one.
    Keep,
    /// Bring scanout up on this connector.
    Drive(u32),
}

impl Tty {
    /// Whether a frame may be rendered now.
    pub open spec fn renders(self) -> bool {
        !self.paused && !self.queued && self.scanout
    }

    /// Whether something outside decides when to redraw next.
    pub open spec fn paced(self) -> bool {
        self.queued || self.paused
    }

    /// After a frame was rendered, and queued or not.
    pub open spec fn after_render(self, empty: bool, queue_ok: bool) -> Tty {
        Tty { queued: self.queued || (!empty && queue_ok), ..self }
    }

    /// After the screen showed the queued frame.
    pub open spec fn after_vblank(self) -> Tty {
        Tty { queued: false, ..self }
    }

    /// After the session was suspended.
    pub open spec fn after_pause(self) -> Tty {
        Tty { paused: true, ..self }
    }

    /// After the session was resumed: a frame queued before is lost.
    pub open spec fn after_activate(self) -> Tty {
        Tty { paused: false, queued: false, ..self }
    }

    /// What a change of the connectors asks for.
    pub open spec fn reconnects(self, picked: Option<u32>) -> Reconnect {
        match picked {
            None => Reconnect::Dark,
            Some(c) => if self.connector == Some(c) && self.scanout {
                Reconnect::Keep
            } else {
                Reconnect::Drive(c)
            },
        }
    }

    /// After a change of the connectors.
    pub open spec fn after_reconnect(self, picked: Option<u32>) -> Tty {
        match self.reconnects(picked) {
            Reconnect::Dark => Tty { connector: None, scanout: false, ..self },
            Reconnect::Keep => self,
            Reconnect::Drive(_) => Tty { scanout: false, queued: false, ..self },
        }
    }

    /// After an attempt to drive a connector.
    pub open spec fn after_drive(self, connector: u32, ok: bool) -> Tty {
        if ok {
            Tty { connector: Some(connector), scanout: true, ..self }
        } else {
            Tty { connector: None, ..self }
        }
    }
}

impl Tty {
    /// Nothing is driven yet.
    pub fn new() -> (t: Tty)
        ensures
            t == (Tty { connector: None, scanout: false, queued: false, paused: false }),
    {
        Tty { connector: None, scanout: false, queued: false, paused: false }
    }

    /// Whether a frame can be presented: the devices are held, the pipe is
    /// idle, and something is driven.
    pub fn can_render(&self) -> (b: bool)
        ensures
            b == self.renders(),
    {
        !self.paused && !self.queued && self.scanout
    }

    /// A frame was composited: unless it changed nothing, or queueing it
    /// failed, it is in flight now.
    pub fn rendered(&mut self, empty: bool, queue_ok: bool)
        ensures
            *final(self) == old(self).after_render(empty, queue_ok),
    {
        if !empty && queue_ok {
            self.queued = true;
        }
    }

    /// Whether a coming redraw is guaranteed without queueing one: the
    /// vblank of a frame in flight brings one, and so does the resume of a
    /// paused session.
    pub fn redraw_paced_externally(&self) -> (b: bool)
        ensures
            b == self.paced(),
    {
        self.queued || self.paused
    }

    /// The devices were revoked.
    pub fn pause(&mut self)
        ensures
            *final(self) == old(self).after_pause(),
    {
        self.paused = true;
    }

    /// The devices are back; frames queued across the gap are gone.
    pub fn activate(&mut self)
        ensures
            *final(self) == old(self).after_activate(),
    {
        self.paused = false;
        self.queued = false;
    }

    /// The queued frame is on glass.
    pub fn vblank(&mut self)
        ensures
            *final(self) == old(self).after_vblank(),
    {
        self.queued = false;
    }

    /// The GPU was removed: dark until it returns.
    pub fn gpu_removed(&mut self)
        ensures
            *final(self) == (Tty { connector: None, scanout: false, ..*old(self) }),
    {
        self.scanout = false;
        self.connector = None;
    }

    /// Point scanout at the connector that was picked. A vanished connector
    /// goes dark; a new one replaces the old, whose frames are gone.
    pub fn reconnect(&mut self, picked: Option<u32>) -> (r: Reconnect)
        ensures
            r == old(self).reconnects(picked),
            *final(self) == old(self).after_reconnect(picked),
    {
        match picked {
            None => {
                self.scanout = false;
                self.connector = None;
                Reconnect::Dark
            },
            Some(c) => {
                if self.connector == Some(c) && self.scanout {
                    return Reconnect::Keep;
                }
                self.scanout = false;
                self.queued = false;
                Reconnect::Drive(c)
            },
        }
    }

    /// Bringing scanout up on a connector succeeded or failed.
    pub fn driven(&mut self, connector: u32, ok: bool)
        ensures
            *final(self) == old(self).after_drive(connector, ok),
    {
        if ok {
            self.scanout = true;
            self.connector = Some(connector);
        } else {
            self.connector = None;
        }
    }
}

/// A video mode of a connector.
#[derive(Clone, Copy, PartialEq, Eq, Debug, Structural)]
pub struct ModeInfo {
    pub w: i32,
    pub h: i32,
    pub preferred: bool,
}

/// A connector, with the modes it offers and, for each encoder that could
/// be read, the pipes it can be driven by.
pub struct ConnectorInfo {
    pub handle: u32,
    pub connected: bool,
    pub modes: Vec<ModeInfo>,
    pub encoders: Vec<Vec<u32>>,
}

/// The connector, pipe and mode to drive.
#[derive(Clone, Copy, PartialEq, Eq, Debug, Structural)]
pub struct Picked {
    pub handle: u32,
    pub pipe: u32,
    pub mode: ModeInfo,
}

/// The first preferred mode from `k` on.
pub open spec fn preferred_from(modes: Seq<ModeInfo>, k: int) -> Option<ModeInfo>
    decreases modes.len() - k,
{
    if k >= modes.len() {
        None
    } else if modes[k].preferred {
        Some(modes[k])
    } else {
        preferred_from(modes, k + 1)
    }
}

/// The mode to drive: the first preferred one, else the first.
pub open spec fn mode_of(modes: Seq<ModeInfo>) -> Option<ModeInfo> {
    match preferred_from(modes, 0) {
        Some(m) => Some(m),
        None => if modes.len() > 0 {
            Some(modes[0])
        } else {
            None
        },
    }
}

/// The first pipe of the first encoder from `k` on that has one.
pub open spec fn pipe_from(encoders: Seq<Vec<u32>>, k: int) -> Option<u32>
    decreases encoders.len() - k,
{
    if k >= encoders.len() {
        None
    } else if encoders[k]@.len() > 0 {
        Some(encoders[k]@[0])
    } else {
        pipe_from(encoders, k + 1)
    }
}

impl ConnectorInfo {
    /// What driving this connector takes, if it can be driven.
    pub open spec fn pick(self) -> Option<Picked> {
        match (mode_of(self.modes@), pipe_from(self.encoders@, 0)) {
            (Some(mode), Some(pipe)) => if self.connected {
                Some(Picked { handle: self.handle, pipe, mode })
            } else {
                None
            },
            _ => None,
        }
    }
}

/// The first connector from `k` on that can be driven.
pub open spec fn pick_from(all: Seq<ConnectorInfo>, k: int) -> Option<Picked>
    decreases all.len() - k,
{
    if k >= all.len() {
        None
    } else if all[k].pick() is Some {
        all[k].pick()
    } else {
        pick_from(all, k + 1)
    }
}

fn choose_mode(modes: &Vec<ModeInfo>) -> (m: Option<ModeInfo>)
    ensures
        m == mode_of(modes@),
{
    let mut k: usize = 0;
    while k < modes.len()
        invariant
            k <= modes@.len(),
            preferred_from(modes@, 0) == preferred_from(modes@, k as int),
        decreases modes@.len() - k,
    {
        if modes[k].preferred {
            return Some(modes[k]);
        }
        k = k + 1;
    }
    if modes.len() > 0 {
        Some(modes[0])
    } else {
        None
    }
}

fn choose_pipe(encoders: &Vec<Vec<u32>>) -> (p: Option<u32>)
    ensures
        p == pipe_from(encoders@, 0),
{
    let mut k: usize = 0;
    while k < encoders.len()
        invariant
            k <= encoders@.len(),
            pipe_from(encoders@, 0) == pipe_from(encoders@, k as int),
        decreases encoders@.len() - k,
    {
        if encoders[k].len() > 0 {
            return Some(encoders[k][0]);
        }
        k = k + 1;
    }
    None
}

/// The first connected connector with a pipe to drive it, and its preferred
/// (else first) mode.
pub fn pick_connector(all: &Vec<ConnectorInfo>) -> (p: Option<Picked>)
    ensures
        p == pick_from(all@, 0),
{
    let mut k: usize = 0;
    while k < all.len()
        invariant
            k <= all@.len(),
            pick_from(all@, 0) == pick_from(all@, k as int),
        decreases all@.len() - k,
    {
        let c = &all[k];
        if c.connected {
            let mode = choose_mode(&c.modes);
            let pipe = choose_pipe(&c.encoders);
            if let (Some(mode), Some(pipe)) = (mode, pipe) {
                return Some(Picked { handle: c.handle, pipe, mode });
            }
        }
        k = k + 1;
    }
    None
}

/// What a session is presented on.
pub enum Backend {
    Winit,
    /// With the screenshot that is due after the next composited frame.
    Headless(Option<String>),
    Tty(Tty),
}

impl Backend {
    /// Queue a screenshot of the next composited frame. Only the offscreen
    /// backend can read its frame back.
    pub fn request_shot(&mut self, path: &str) -> (ok: bool)
        ensures
            ok == (*old(self) is Headless),
            ok ==> (match *final(self) {
                Backend::Headless(Some(p)) => p@ == path@,
                _ => false,
            }),
            !ok ==> *final(self) == *old(self),
    {
        match self {
            Backend::Headless(_) => {},
            _ => {
                return false;
            },
        }
        *self = Backend::Headless(Some(path.to_owned()));
        true
    }

    /// The screenshot that is due, now that a frame was composited.
    pub fn take_shot(&mut self) -> (path: Option<String>)
        ensures
            path == (match *old(self) {
                Backend::Headless(p) => p,
                _ => None,
            }),
            *final(self) == (match *old(self) {
                Backend::Headless(_) => Backend::Headless(None),
                _ => *old(self),
            }),
    {
        match self {
            Backend::Headless(p) => p.take(),
            _ => None,
        }
    }

    /// Whether a coming redraw is already guaranteed without queueing one.
    /// The winit and offscreen backends have no external pacer.
    pub fn redraw_paced_externally(&self) -> (b: bool)
        ensures
            b == (match *self {
                Backend::Tty(t) => t.paced(),
                _ => false,
            }),
    {
        match self {
            Backend::Tty(t) => t.redraw_paced_externally(),
            _ => false,
        }
    }

    /// A request to switch the virtual terminal: only a session that owns a
    /// seat has one to switch.
    pub fn change_vt(&self, vt: i32) -> (switch: Option<i32>)
        ensures
            switch == (if *self is Tty {
                Some(vt)
            } else {
                None
            }),
    {
        match self {
            Backend::Tty(_) => Some(vt),
            _ => None,
        }
    }
}

} // verus!
