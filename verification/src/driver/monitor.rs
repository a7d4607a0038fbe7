//! Looking for devices while the program runs, every two seconds.

use vstd::prelude::*;

verus! {

/// How long one rest lasts, in milliseconds.
pub const REST_MS: u64 = 100;

/// Rests between two looks at the bus.
pub const RESTS: u32 = 20;

/// What the thread that looks for devices does next.
#[derive(Clone, Copy, Debug, PartialEq, Eq, Structural)]
pub enum MonitorAction {
    /// Load the driver.
    Load,
    /// Report the devices of the driver.
    List,
    /// Report that the driver could not be loaded.
    Report,
    /// Sleep for `REST_MS`.
    Rest,
    /// End.
    Stop,
}

/// Where the thread that looks for devices stands.
#[derive(Clone, Copy, Debug, PartialEq, Eq, Structural)]
pub struct DeviceMonitor {
    /// Whether the driver is loaded.
    pub loaded: bool,
    /// Rests before the next look.
    pub rests: u32,
}

impl DeviceMonitor {
    pub open spec fn wf(self) -> bool {
        self.rests <= RESTS
    }

    /// What happens next, where nobody asked to end.
    pub open spec fn spec_next(self) -> (DeviceMonitor, MonitorAction) {
        if self.rests > 0 {
            (DeviceMonitor { rests: (self.rests - 1) as u32, ..self }, MonitorAction::Rest)
        } else if self.loaded {
            (DeviceMonitor { rests: RESTS, ..self }, MonitorAction::List)
        } else {
            (self, MonitorAction::Load)
        }
    }

    /// The monitor after `n` steps.
    pub open spec fn spec_after(self, n: nat) -> DeviceMonitor
        decreases n,
    {
        if n == 0 {
            self
        } else {
            self.spec_after((n - 1) as nat).spec_next().0
        }
    }

    /// Says what happens next.
    pub fn next(&mut self, cancelled: bool) -> (a: MonitorAction)
        requires
            old(self).wf(),
        ensures
            final(self).wf(),
            cancelled ==> a == MonitorAction::Stop && *final(self) == *old(self),
            !cancelled ==> (*final(self), a) == old(self).spec_next(),
    {
        if cancelled {
            MonitorAction::Stop
        } else if self.rests > 0 {
            self.rests = self.rests - 1;
            MonitorAction::Rest
        } else if self.loaded {
            self.rests = RESTS;
            MonitorAction::List
        } else {
            MonitorAction::Load
        }
    }

    /// Notes whether the driver could be loaded; one that could not is tried again
    /// after the rests.
    pub fn driver_loaded(&mut self, ok: bool) -> (a: MonitorAction)
        ensures
            final(self).wf(),
            final(self).rests == RESTS,
            final(self).loaded == ok,
            a == (if ok {
                MonitorAction::List
            } else {
                MonitorAction::Report
            }),
    {
        self.loaded = ok;
        self.rests = RESTS;
        if ok {
            MonitorAction::List
        } else {
            MonitorAction::Report
        }
    }
}

impl Default for DeviceMonitor {
    fn default() -> (r: Self)
        ensures
            r == (DeviceMonitor { loaded: false, rests: 0 }),
    {
        DeviceMonitor { loaded: false, rests: 0 }
    }
}

/// After a look at the bus the thread rests for two seconds, then looks again.
pub proof fn looks_every_two_seconds(m: DeviceMonitor, n: nat)
    requires
        m.rests == RESTS,
        n <= RESTS,
    ensures
        RESTS * REST_MS == 2000,
        m.spec_after(n) == (DeviceMonitor { rests: (RESTS - n) as u32, ..m }),
        m.spec_after(n).spec_next().1 == (if n < RESTS {
            MonitorAction::Rest
        } else if m.loaded {
            MonitorAction::List
        } else {
            MonitorAction::Load
        }),
    decreases n,
{
    if n > 0 {
        looks_every_two_seconds(m, (n - 1) as nat);
    }
}

/// While the driver is loaded, a look at the bus and twenty rests of a tenth of a second take
/// turns for ever: after every 21 steps the thread stands where it stood, and has looked
/// once.
pub proof fn looks_and_rests_take_turns(m: DeviceMonitor, n: nat)
    requires
        m.loaded,
        m.rests == 20,
    ensures
        m.spec_after(21 * n) == m,
        m.spec_after(21 * n + 20).spec_next().1 == MonitorAction::List,
    decreases n,
{
    looks_every_two_seconds(m, 20);
    lemma_later(m, 21 * n, 20);
    if n > 0 {
        looks_and_rests_take_turns(m, (n - 1) as nat);
        let start = (21 * (n - 1)) as nat;
        lemma_later(m, start, 20);
        assert(21 * n == start + 21);
        assert(m.spec_after(start + 21) == m.spec_after(start + 20).spec_next().0);
    }
}

/// Steps add up.
proof fn lemma_later(m: DeviceMonitor, a: nat, b: nat)
    ensures
        m.spec_after(a + b) == m.spec_after(a).spec_after(b),
    decreases b,
{
    if b > 0 {
        lemma_later(m, a, (b - 1) as nat);
        assert(a + b - 1 == a + (b - 1));
    }
}

} // verus!
