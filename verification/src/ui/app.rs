//! The state of the window, and what every control and every message does to it.

use crate::channel::{Inbox, Offer, Outbox, Tap};
use crate::driver::usb::{device_views, labelled, DeviceView, UsbDevice};
use crate::frequency::{format_mhz, mhz_text, pan_center, panned, parse_mhz, parsed, PIXEL};
use crate::model::{
    default_settings, tuned, vfo_index, Mode, Settings, SettingsView, Snapshot, VfoConfig,
    VfoStatus, CENTER_HZ, MAX_RF_HZ, MAX_VFOS, MIN_RF_HZ,
};
use crate::ui::display::{display_power, displayed, frequency_at, pointed};
use crate::ui::meter::{Meter, BOTTOM};
use crate::ui::theme::toggle;
use std::collections::{HashMap, VecDeque};
use vstd::prelude::*;

verus! {

/// Rows of the waterfall.
pub const HISTORY: usize = 180;

/// The tone that a channel gets when tones are switched on, in thousandths of a hertz.
pub const FIRST_TONE: u32 = 100_000;

/// Whether the receiver runs.
#[derive(Clone, Copy, Debug, PartialEq, Eq, Structural)]
pub enum Link {
    Down,
    /// It is to be started.
    Starting,
    Up,
}

/// What the user is told to do.
#[derive(Clone, Copy, Debug, PartialEq, Eq, Structural)]
pub enum Notice {
    /// No device is connected.
    NoDevice,
    /// A device is to be chosen.
    ChooseDevice,
    Nothing,
}

/// What became of something that the receiver is to be told.
#[derive(Clone, Copy, Debug, PartialEq, Eq, Structural)]
pub enum Delivery {
    /// There is nothing to tell, or it is to wait.
    NotDue,
    /// The receiver took it.
    Taken,
    /// The receiver had no room for it.
    Refused,
}

/// The controls that all channels share.
#[derive(Clone, Copy, Debug, PartialEq, Eq, Structural)]
pub struct Controls {
    /// Whether a channel is heard only where its audio carries energy.
    pub use_vad: bool,
    /// The general volume, in millionths.
    pub master_gain: i32,
    /// The absolute threshold, in millionths of a dBFS.
    pub sql_dbfs: i32,
    /// The threshold above the local noise, in millionths of a decibel.
    pub sql_relative_db: i32,
    pub adaptive_squelch: bool,
    pub voice_denoise: bool,
    /// How much of the cleaned voice is heard, in millionths.
    pub voice_strength: i32,
}

/// The state of the window.
pub struct QuasarApp {
    pub link: Link,
    /// Whether data of the band arrived since the receiver was started.
    pub receiving: bool,
    pub settings: Settings,
    pub snapshot: Option<Snapshot>,
    /// The latest row comes first.
    pub waterfall: VecDeque<Vec<i64>>,
    /// Whether the receiver has not got the settings yet.
    pub dirty: bool,
    pub selected: u32,
    pub next_id: u32,
    pub normalized: bool,
    pub noise_blank: bool,
    /// The margin above the noise, in millionths of a decibel.
    pub noise_margin: i32,
    pub error: Option<String>,
    pub devices: Vec<UsbDevice>,
    pub selected_device: Option<UsbDevice>,
    pub driver_error: Option<String>,
    /// Whether the receiver has not got the gain of the tuner yet.
    pub rf_dirty: bool,
    /// The gains that the tuner has, in tenths of a decibel.
    pub rf_steps: Vec<i32>,
    pub rf_applied: Option<i32>,
    pub frequency_inputs: HashMap<u32, String>,
    pub center_input: String,
    pub frequency_error: Option<String>,
    /// The centre of the band when a drag began, in hertz.
    pub pan_origin: Option<i64>,
    pub blank_dc: bool,
    pub meter: Meter,
}

/// Whether a frequency lies in the range of the hardware.
pub open spec fn receivable(hz: int) -> bool {
    MIN_RF_HZ <= hz <= MAX_RF_HZ
}

/// What holds of the channels: each has its own identifier, and can be received.
pub open spec fn channels_sound(vfos: Seq<VfoConfig>, next_id: u32) -> bool {
    &&& vfos.len() <= MAX_VFOS
    &&& forall|i: int| 0 <= i < vfos.len() ==> (#[trigger] vfos[i]).id < next_id
    &&& forall|i: int| 0 <= i < vfos.len() ==> receivable((#[trigger] vfos[i]).frequency_hz as int)
    &&& forall|i: int, j: int|
        0 <= i < j < vfos.len() ==> (#[trigger] vfos[i]).id != (#[trigger] vfos[j]).id
}

/// Whether a measure is one of the channel `id`, and, where `received` asks for it, one
/// within the band.
pub open spec fn is_status(status: VfoStatus, id: u32, received: bool) -> bool {
    status.id == id && (!received || status.in_band)
}

/// The place of the first measure of the channel `id`; the number of measures where
/// there is none.
pub open spec fn status_index(statuses: Seq<VfoStatus>, id: u32, received: bool) -> int
    decreases statuses.len(),
{
    if statuses.len() == 0 || is_status(statuses[0], id, received) {
        0
    } else {
        1 + status_index(statuses.skip(1), id, received)
    }
}

/// The first measure of the channel `id`.
pub open spec fn first_status(
    statuses: Seq<VfoStatus>,
    id: u32,
    received: bool,
) -> Option<VfoStatus> {
    let i = status_index(statuses, id, received);
    if i < statuses.len() {
        Some(statuses[i])
    } else {
        None
    }
}

/// The measure of the channel `id` in what is shown.
pub open spec fn status_of(
    snapshot: Option<Snapshot>,
    id: u32,
    received: bool,
) -> Option<VfoStatus> {
    match snapshot {
        Some(s) => first_status(s.vfos@, id, received),
        None => None,
    }
}

proof fn lemma_status_index(statuses: Seq<VfoStatus>, id: u32, received: bool, i: int)
    requires
        0 <= i <= statuses.len(),
        forall|j: int| 0 <= j < i ==> !is_status(#[trigger] statuses[j], id, received),
        i < statuses.len() ==> is_status(statuses[i], id, received),
    ensures
        status_index(statuses, id, received) == i,
    decreases statuses.len(),
{
    if i > 0 {
        let t = statuses.skip(1);
        assert(!is_status(statuses[0], id, received));
        assert forall|j: int| 0 <= j < i - 1 implies !is_status(#[trigger] t[j], id, received) by {
            assert(t[j] == statuses[j + 1]);
        }
        if i < statuses.len() {
            assert(t[i - 1] == statuses[i]);
        }
        lemma_status_index(t, id, received, i - 1);
    }
}

/// The first measure of the channel `id`.
fn find_status(statuses: &[VfoStatus], id: u32, received: bool) -> (r: Option<VfoStatus>)
    ensures
        r == first_status(statuses@, id, received),
{
    let mut i: usize = 0;
    while i < statuses.len()
        invariant
            i <= statuses@.len(),
            forall|j: int| 0 <= j < i ==> !is_status(#[trigger] statuses@[j], id, received),
        decreases statuses@.len() - i,
    {
        if statuses[i].id == id && (!received || statuses[i].in_band) {
            proof {
                lemma_status_index(statuses@, id, received, i as int);
            }
            return Some(statuses[i]);
        }
        i += 1;
    }
    proof {
        lemma_status_index(statuses@, id, received, i as int);
    }
    None
}

/// The devices after an update: a running one keeps its label.
pub open spec fn listed(
    update: Result<Vec<UsbDevice>, String>,
    running: bool,
    active: Option<UsbDevice>,
) -> Seq<DeviceView> {
    match (update, active) {
        (Ok(devices), Some(d)) if running => labelled(device_views(devices@), d@),
        (Ok(devices), _) => device_views(devices@),
        (Err(_), _) => Seq::empty(),
    }
}

/// The channels without the channel `id`.
pub open spec fn without(vfos: Seq<VfoConfig>, id: u32) -> Seq<VfoConfig>
    decreases vfos.len(),
{
    if vfos.len() == 0 {
        vfos
    } else if vfos.last().id == id {
        without(vfos.drop_last(), id)
    } else {
        without(vfos.drop_last(), id).push(vfos.last())
    }
}

impl QuasarApp {
    /// Whether the receiver runs, or is about to.
    pub open spec fn running(self) -> bool {
        self.link != Link::Down
    }

    /// What holds of the window at all times. Only a device that is connected runs, and
    /// what is drawn always belongs to the band on the axis.
    pub open spec fn wf(self) -> bool {
        &&& self.waterfall@.len() <= HISTORY
        &&& channels_sound(self.settings@.vfos, self.next_id)
        &&& receivable(self.settings@.center_hz)
        &&& self.running() ==> self.selected_device is Some
        &&& self.selected_device matches Some(d) ==> device_views(self.devices@).contains(d@)
        &&& self.snapshot matches Some(s) ==> s.center_hz == self.settings@.center_hz
        &&& self.waterfall@.len() > 0 ==> self.snapshot is Some
        &&& self.pan_origin matches Some(hz) ==> receivable(hz as int)
        &&& self.meter.wf()
    }

    /// Whether nothing is drawn.
    pub open spec fn plot_cleared(self) -> bool {
        self.snapshot is None && self.waterfall@.len() == 0
    }

    /// Whether the same is drawn as before.
    pub open spec fn plot_kept(self, before: QuasarApp) -> bool {
        self.snapshot == before.snapshot && self.waterfall == before.waterfall
    }

    /// Whether the controls are enabled: the device runs, its gain is known and its data
    /// arrive.
    pub open spec fn spec_enabled(self) -> bool {
        self.running() && self.rf_applied is Some && self.receiving
    }

    /// Everything else is as it was after the receiver was stopped.
    pub open spec fn is_stopped(self, before: QuasarApp) -> bool {
        &&& self == (QuasarApp {
            link: Link::Down,
            receiving: false,
            snapshot: None,
            waterfall: self.waterfall,
            error: None,
            rf_applied: None,
            rf_dirty: false,
            pan_origin: None,
            ..before
        })
        &&& self.waterfall@.len() == 0
    }

    /// What the program starts with.
    pub fn new() -> (r: Self)
        ensures
            r.wf(),
            r.settings@ == default_settings(),
            r.link == Link::Down,
            !r.receiving,
            r.plot_cleared(),
            !r.dirty,
            r.selected == 1,
            r.next_id == 2,
            r.normalized,
            !r.noise_blank,
            r.noise_margin == 3_000_000,
            r.blank_dc,
            r.error is None && r.driver_error is None && r.frequency_error is None,
            r.devices@.len() == 0,
            r.selected_device is None,
            !r.rf_dirty,
            r.rf_steps@ == seq![280i32],
            r.rf_applied is None,
            r.frequency_inputs@ == Map::<u32, String>::empty(),
            r.center_input@ == mhz_text(CENTER_HZ as int),
            r.pan_origin is None,
            r.meter == (Meter { level: BOTTOM, peak: BOTTOM, hold_until_us: 0, vfo: 0 }),
    {
        let mut rf_steps: Vec<i32> = Vec::new();
        rf_steps.push(280);
        QuasarApp {
            link: Link::Down,
            receiving: false,
            settings: Settings::default(),
            snapshot: None,
            waterfall: VecDeque::new(),
            dirty: false,
            selected: 1,
            next_id: 2,
            normalized: true,
            noise_blank: false,
            noise_margin: 3_000_000,
            error: None,
            devices: Vec::new(),
            selected_device: None,
            driver_error: None,
            rf_dirty: false,
            rf_steps,
            rf_applied: None,
            frequency_inputs: HashMap::new(),
            center_input: format_mhz(CENTER_HZ),
            frequency_error: None,
            pan_origin: None,
            blank_dc: true,
            meter: Meter::new(),
        }
    }

    /// Whether the receiver runs, or is about to.
    pub fn is_running(&self) -> (r: bool)
        ensures
            r == self.running(),
    {
        self.link != Link::Down
    }

    /// Whether the controls are enabled: the device runs, its gain is known and its data
    /// arrive.
    pub fn enabled(&self) -> (r: bool)
        ensures
            r == self.spec_enabled(),
    {
        self.link != Link::Down && self.rf_applied.is_some() && self.receiving
    }

    /// What the user is told to do.
    pub fn notice(&self) -> (r: Notice)
        ensures
            r == (if self.devices@.len() == 0 {
                Notice::NoDevice
            } else if self.selected_device is None {
                Notice::ChooseDevice
            } else {
                Notice::Nothing
            }),
    {
        if self.devices.len() == 0 {
            Notice::NoDevice
        } else if self.selected_device.is_none() {
            Notice::ChooseDevice
        } else {
            Notice::Nothing
        }
    }

    /// The measure of the channel `id`, or, where `received` asks for it, only one within
    /// the band.
    pub fn status(&self, id: u32, received: bool) -> (r: Option<VfoStatus>)
        ensures
            r == status_of(self.snapshot, id, received),
    {
        match &self.snapshot {
            Some(s) => find_status(s.vfos.as_slice(), id, received),
            None => None,
        }
    }

    /// Stops the receiver and forgets what it gave.
    pub fn disconnect(&mut self)
        ensures
            final(self).is_stopped(*old(self)),
            old(self).wf() ==> final(self).wf(),
    {
        self.link = Link::Down;
        self.receiving = false;
        self.snapshot = None;
        self.waterfall.clear();
        self.error = None;
        self.rf_applied = None;
        self.rf_dirty = false;
        self.pan_origin = None;
    }

    /// Stops the receiver and starts it with the chosen device, if there is one.
    pub fn connect(&mut self)
        requires
            old(self).wf(),
        ensures
            final(self).wf(),
            (QuasarApp { link: Link::Down, ..*final(self) }).is_stopped(*old(self)),
            final(self).link == (if old(self).selected_device is Some {
                Link::Starting
            } else {
                Link::Down
            }),
    {
        self.disconnect();
        if self.selected_device.is_some() {
            self.link = Link::Starting;
        }
    }

    /// The receiver was started.
    pub fn started(&mut self)
        requires
            old(self).wf(),
            old(self).link == Link::Starting,
        ensures
            final(self).wf(),
            *final(self) == (QuasarApp { link: Link::Up, ..*old(self) }),
    {
        self.link = Link::Up;
    }

    /// Starts or stops the receiver.
    pub fn toggle_reception(&mut self)
        requires
            old(self).wf(),
        ensures
            final(self).wf(),
            old(self).running() ==> final(self).is_stopped(*old(self)),
            !old(self).running() ==> (QuasarApp {
                link: Link::Down,
                ..*final(self)
            }).is_stopped(*old(self)),
            final(self).link == (if !old(self).running() && old(self).selected_device is Some {
                Link::Starting
            } else {
                Link::Down
            }),
    {
        if self.link != Link::Down {
            self.disconnect();
        } else {
            self.connect();
        }
    }

    /// Chooses a device of the list, which starts its reception; choosing the same one
    /// again changes nothing.
    pub fn choose_device(&mut self, i: usize)
        requires
            old(self).wf(),
            i < old(self).devices@.len(),
        ensures
            final(self).wf(),
            ({
                let chosen = old(self).devices@[i as int]@;
                let same = old(self).selected_device matches Some(d) && d@ == chosen;
                &&& same ==> *final(self) == *old(self)
                &&& !same ==> {
                    &&& final(self).selected_device matches Some(d)
                    &&& d@ == chosen
                    &&& final(self).link == Link::Starting
                    &&& (QuasarApp {
                        link: Link::Down,
                        selected_device: old(self).selected_device,
                        ..*final(self)
                    }).is_stopped(*old(self))
                }
            }),
    {
        let same: bool = match &self.selected_device {
            Some(d) => d.same(&self.devices[i]),
            None => false,
        };
        if !same {
            let chosen: UsbDevice = self.devices[i].clone();
            assert(device_views(self.devices@)[i as int] == chosen@);
            self.selected_device = Some(chosen);
            self.disconnect();
            self.link = Link::Starting;
        }
    }

    /// Empties the plot.
    pub fn clear_plot(&mut self)
        ensures
            *final(self) == (QuasarApp {
                snapshot: None,
                waterfall: final(self).waterfall,
                ..*old(self)
            }),
            final(self).plot_cleared(),
            old(self).wf() ==> final(self).wf(),
    {
        self.snapshot = None;
        self.waterfall.clear();
    }

    /// What the devices that are connected now change.
    pub open spec fn takes_devices(
        self,
        after: QuasarApp,
        update: Result<Vec<UsbDevice>, String>,
    ) -> bool {
        let now = listed(update, self.running(), self.selected_device);
        let lost = self.selected_device matches Some(d) && !now.contains(d@);
        &&& device_views(after.devices@) == now
        &&& after.driver_error == (match update {
            Ok(_) => None,
            Err(e) => Some(e),
        })
        &&& lost ==> after.selected_device is None && (QuasarApp {
            selected_device: self.selected_device,
            devices: self.devices,
            driver_error: self.driver_error,
            ..after
        }).is_stopped(self)
        &&& !lost ==> after == (QuasarApp {
            devices: after.devices,
            driver_error: after.driver_error,
            ..self
        })
    }

    /// Takes the devices that are connected now, or why they are not known. The running
    /// device keeps its label; a chosen device that is gone is stopped and forgotten.
    pub fn devices_changed(&mut self, update: Result<Vec<UsbDevice>, String>)
        requires
            old(self).wf(),
        ensures
            final(self).wf(),
            old(self).takes_devices(*final(self), update),
    {
        let ghost now = listed(update, self.running(), self.selected_device);
        match update {
            Ok(devices) => {
                let mut devices: Vec<UsbDevice> = devices;
                if self.link != Link::Down {
                    if let Some(active) = &self.selected_device {
                        UsbDevice::preserve_active_label(devices.as_mut_slice(), active);
                    }
                }
                self.devices = devices;
                self.driver_error = None;
            },
            Err(error) => {
                self.devices = Vec::new();
                self.driver_error = Some(error);
                assert(device_views(self.devices@) =~= Seq::empty());
            },
        }
        assert(device_views(self.devices@) == now);
        let lost: bool = match &self.selected_device {
            Some(d) => !d.is_listed(self.devices.as_slice()),
            None => false,
        };
        if lost {
            self.disconnect();
            self.selected_device = None;
        }
    }

    /// Looks for news of the devices; true where there were any. What is found rests on
    /// the thread that looks for devices.
    pub fn poll_devices(&mut self, updates: &mut Inbox<Result<Vec<UsbDevice>, String>>) -> (found:
        bool)
        requires
            old(self).wf(),
        ensures
            final(self).wf(),
            ({
                let update = final(updates).found().last();
                &&& final(updates).found() == old(updates).found().push(update)
                &&& found == (update is Some)
                &&& match update {
                    Some(news) => old(self).takes_devices(*final(self), news),
                    None => *final(self) == *old(self),
                }
            }),
    {
        match updates.try_recv() {
            Some(update) => {
                self.devices_changed(update);
                true
            },
            None => false,
        }
    }

    /// Takes the gain that the tuner has and those that it can have.
    pub fn gain_changed(&mut self, applied: i32, steps: Vec<i32>)
        requires
            old(self).wf(),
        ensures
            final(self).wf(),
            *final(self) == (QuasarApp {
                rf_applied: Some(applied),
                rf_steps: steps,
                ..*old(self)
            }),
    {
        self.rf_applied = Some(applied);
        self.rf_steps = steps;
    }

    /// Looks for news of the gain; true where there were any. What is found rests on the
    /// receiver.
    pub fn poll_gain(&mut self, updates: &mut Inbox<(i32, Vec<i32>)>) -> (found: bool)
        requires
            old(self).wf(),
        ensures
            final(self).wf(),
            ({
                let update = final(updates).found().last();
                &&& final(updates).found() == old(updates).found().push(update)
                &&& found == (update is Some)
                &&& match update {
                    Some((applied, steps)) => *final(self) == (QuasarApp {
                        rf_applied: Some(applied),
                        rf_steps: steps,
                        ..*old(self)
                    }),
                    None => *final(self) == *old(self),
                }
            }),
    {
        match updates.try_recv() {
            Some((applied, steps)) => {
                self.gain_changed(applied, steps);
                true
            },
            None => false,
        }
    }

    /// Chooses a gain of the tuner.
    pub fn choose_gain(&mut self, gain_db: i32)
        requires
            old(self).wf(),
        ensures
            final(self).wf(),
            final(self).settings@ == (SettingsView { rf_gain_db: gain_db as int, ..old(self).settings@ }),
            final(self).rf_dirty == (old(self).rf_dirty || gain_db != old(self).settings@.rf_gain_db),
            *final(self) == (QuasarApp {
                settings: final(self).settings,
                rf_dirty: final(self).rf_dirty,
                ..*old(self)
            }),
    {
        if gain_db != self.settings.rf_gain_db {
            self.rf_dirty = true;
        }
        self.settings.rf_gain_db = gain_db;
    }

    /// The gain that the receiver is to be told, if any.
    pub fn gain_to_send(&self) -> (r: Option<i32>)
        ensures
            r == (if self.running() && self.rf_dirty {
                Some(self.settings.rf_gain_db)
            } else {
                None
            }),
    {
        if self.link != Link::Down && self.rf_dirty {
            Some(self.settings.rf_gain_db)
        } else {
            None
        }
    }

    /// Whether the receiver took the gain; if not it is told again.
    pub fn gain_sent(&mut self, accepted: bool)
        requires
            old(self).wf(),
        ensures
            final(self).wf(),
            *final(self) == (QuasarApp {
                rf_dirty: old(self).rf_dirty && !accepted,
                ..*old(self)
            }),
    {
        if accepted {
            self.rf_dirty = false;
        }
    }

    /// Tells the receiver the gain, where it runs and has not got it yet, and says what
    /// became of it. Whether the receiver takes it rests on the receiver; until it does, it
    /// is told again.
    pub fn flush_gain(&mut self, gains: &mut Outbox<i32>) -> (r: Delivery)
        requires
            old(self).wf(),
        ensures
            final(self).wf(),
            r != Delivery::NotDue <==> old(self).running() && old(self).rf_dirty,
            *final(self) == (QuasarApp {
                rf_dirty: old(self).rf_dirty && r != Delivery::Taken,
                ..*old(self)
            }),
            final(gains).offers() == (if r == Delivery::NotDue {
                old(gains).offers()
            } else {
                old(gains).offers().push(
                    (Offer {
                        message: old(self).settings.rf_gain_db,
                        taken: r == Delivery::Taken,
                    }),
                )
            }),
    {
        match self.gain_to_send() {
            Some(gain) => {
                let accepted: bool = gains.try_send(gain).is_ok();
                self.gain_sent(accepted);
                if accepted {
                    Delivery::Taken
                } else {
                    Delivery::Refused
                }
            },
            None => Delivery::NotDue,
        }
    }

    /// What the display hides, if anything.
    pub open spec fn margin(self) -> Option<int> {
        if self.noise_blank {
            Some(self.noise_margin as int)
        } else {
            None
        }
    }

    /// What is drawn of a spectrum with the settings of the display.
    pub fn drawn(&self, s: &crate::model::Spectrum) -> (r: Vec<i64>)
        ensures
            r@ == displayed(*s, self.normalized, self.blank_dc, self.margin()),
    {
        let noise_blank: Option<i32> = if self.noise_blank {
            Some(self.noise_margin)
        } else {
            None
        };
        display_power(s, self.normalized, self.blank_dc, noise_blank)
    }

    /// What is drawn after a block.
    pub open spec fn takes_snapshot(
        self,
        after: QuasarApp,
        snapshot: Snapshot,
        updated: bool,
    ) -> bool {
        &&& updated == (snapshot.center_hz == self.settings@.center_hz)
        &&& !updated ==> after == self
        &&& updated ==> {
            &&& after == (QuasarApp {
                snapshot: Some(snapshot),
                waterfall: after.waterfall,
                receiving: true,
                ..self
            })
            &&& after.waterfall@.len() == (if self.waterfall@.len() < HISTORY {
                self.waterfall@.len() + 1
            } else {
                HISTORY as nat
            })
            &&& after.waterfall@[0]@ == displayed(
                snapshot.spectrum,
                self.normalized,
                self.blank_dc,
                self.margin(),
            )
            &&& forall|i: int|
                1 <= i < after.waterfall@.len() ==> #[trigger] after.waterfall@[i]
                    == self.waterfall@[i - 1]
        }
    }

    /// Takes what the receiver shows of a block: one of another band is left out. True
    /// where the plot changed.
    pub fn snapshot_received(&mut self, snapshot: Snapshot) -> (updated: bool)
        requires
            old(self).wf(),
        ensures
            final(self).wf(),
            old(self).takes_snapshot(*final(self), snapshot, updated),
    {
        if snapshot.center_hz != self.settings.center_hz {
            return false;
        }
        let row: Vec<i64> = self.drawn(&snapshot.spectrum);
        let ghost before = self.waterfall@;
        self.waterfall.push_front(row);
        self.waterfall.truncate(HISTORY);
        assert forall|i: int| 1 <= i < self.waterfall@.len() implies #[trigger] self.waterfall@[i]
            == before[i - 1] by {
            assert((seq![row] + before)[i] == before[i - 1]);
        }
        self.snapshot = Some(snapshot);
        self.receiving = true;
        true
    }

    /// Looks for what the receiver shows of a block: nothing, or whether the plot changed.
    /// What is found rests on the receiver.
    pub fn poll_snapshot(&mut self, snapshots: &mut Tap<Snapshot>) -> (r: Option<bool>)
        requires
            old(self).wf(),
        ensures
            final(self).wf(),
            ({
                let found = final(snapshots).found().last();
                &&& final(snapshots).found() == old(snapshots).found().push(found)
                &&& match found {
                    Some(snapshot) => r matches Some(updated) && old(self).takes_snapshot(
                        *final(self),
                        snapshot,
                        updated,
                    ),
                    None => r is None && *final(self) == *old(self),
                }
            }),
    {
        match snapshots.pop() {
            Some(snapshot) => Some(self.snapshot_received(snapshot)),
            None => None,
        }
    }

    /// The receiver ended with an error.
    pub fn engine_failed(&mut self, error: String)
        requires
            old(self).wf(),
        ensures
            final(self).wf(),
            final(self).error == Some(error),
            (QuasarApp { error: None, ..*final(self) }).is_stopped(*old(self)),
    {
        self.disconnect();
        self.error = Some(error);
    }

    /// Looks whether the receiver ended with an error; true where it did. What is found
    /// rests on the receiver.
    pub fn poll_error(&mut self, errors: &mut Inbox<String>) -> (failed: bool)
        requires
            old(self).wf(),
        ensures
            final(self).wf(),
            ({
                let found = final(errors).found().last();
                &&& final(errors).found() == old(errors).found().push(found)
                &&& failed == (found is Some)
                &&& match found {
                    Some(error) => final(self).error == Some(error) && (QuasarApp {
                        error: None,
                        ..*final(self)
                    }).is_stopped(*old(self)),
                    None => *final(self) == *old(self),
                }
            }),
    {
        match errors.try_recv() {
            Some(error) => {
                self.engine_failed(error);
                true
            },
            None => false,
        }
    }

    /// Whether the receiver is to be told the settings: not while the band is dragged.
    pub fn settings_to_send(&self) -> (r: bool)
        ensures
            r == (self.running() && self.dirty && self.pan_origin is None),
    {
        self.link != Link::Down && self.dirty && self.pan_origin.is_none()
    }

    /// Whether the receiver took the settings; if not it is told again.
    pub fn settings_sent(&mut self, accepted: bool)
        requires
            old(self).wf(),
        ensures
            final(self).wf(),
            *final(self) == (QuasarApp { dirty: old(self).dirty && !accepted, ..*old(self) }),
    {
        if accepted {
            self.dirty = false;
        }
    }

    /// Tells the receiver the settings, where it runs, has not got them yet and the band is
    /// not being dragged, and says what became of them. Whether the receiver takes them
    /// rests on the receiver; until it does, it is told again.
    pub fn flush_settings(&mut self, commands: &mut Outbox<Settings>) -> (r: Delivery)
        requires
            old(self).wf(),
        ensures
            final(self).wf(),
            r != Delivery::NotDue <==> old(self).running() && old(self).dirty && old(
                self,
            ).pan_origin is None,
            *final(self) == (QuasarApp {
                dirty: old(self).dirty && r != Delivery::Taken,
                ..*old(self)
            }),
            r == Delivery::NotDue ==> final(commands).offers() == old(commands).offers(),
            r != Delivery::NotDue ==> {
                let offer = final(commands).offers().last();
                &&& final(commands).offers() == old(commands).offers().push(offer)
                &&& offer.message@ == old(self).settings@
                &&& offer.taken == (r == Delivery::Taken)
            },
    {
        if !self.settings_to_send() {
            return Delivery::NotDue;
        }
        let accepted: bool = commands.try_send(self.settings.clone()).is_ok();
        self.settings_sent(accepted);
        if accepted {
            Delivery::Taken
        } else {
            Delivery::Refused
        }
    }

    /// What tuning does to the texts and the plot.
    pub open spec fn is_tuned(self, before: QuasarApp, id: u32, hz: int) -> bool {
        let i = vfo_index(before.settings@.vfos, id);
        &&& self.settings@ == tuned(before.settings@, id, hz)
        &&& if i < before.settings@.vfos.len() {
            &&& self.frequency_inputs@.dom().contains(id)
            &&& self.frequency_inputs@ == before.frequency_inputs@.insert(
                id,
                self.frequency_inputs@[id],
            )
            &&& self.frequency_inputs@[id]@ == mhz_text(self.settings@.vfos[i].frequency_hz as int)
        } else {
            self.frequency_inputs@ == before.frequency_inputs@
        }
        &&& self.center_input@ == mhz_text(self.settings@.center_hz)
        &&& self.frequency_error is None
        &&& self.dirty
        &&& if self.settings@.center_hz != before.settings@.center_hz {
            self.plot_cleared()
        } else {
            self.plot_kept(before)
        }
        &&& self == (QuasarApp {
            settings: self.settings,
            frequency_inputs: self.frequency_inputs,
            center_input: self.center_input,
            frequency_error: None,
            dirty: true,
            snapshot: self.snapshot,
            waterfall: self.waterfall,
            ..before
        })
    }

    /// What moving the band does to the text and the plot.
    pub open spec fn is_centered(self, before: QuasarApp, hz: int) -> bool {
        &&& self.settings@ == (SettingsView { center_hz: hz, ..before.settings@ })
        &&& self.center_input@ == mhz_text(hz)
        &&& self.plot_cleared()
        &&& self == (QuasarApp {
            settings: self.settings,
            center_input: self.center_input,
            snapshot: None,
            waterfall: self.waterfall,
            dirty: self.dirty,
            frequency_error: self.frequency_error,
            ..before
        })
    }

    /// Tunes a channel: the band follows where it would leave it, and then nothing of the
    /// old band stays drawn.
    pub fn tune_vfo(&mut self, id: u32, hz: i64)
        requires
            old(self).wf(),
        ensures
            final(self).wf(),
            final(self).is_tuned(*old(self), id, hz as int),
    {
        let before: i64 = self.settings.center_hz;
        proof {
            lemma_tuned_sound(self.settings@, self.next_id, id, hz as int);
        }
        self.settings.tune_vfo(id, hz);
        if let Some(i) = self.settings.find_vfo(id) {
            let text: String = format_mhz(self.settings.vfos[i].frequency_hz);
            self.frequency_inputs.insert(id, text);
        }
        self.center_input = format_mhz(self.settings.center_hz);
        if before != self.settings.center_hz {
            self.clear_plot();
        }
        self.frequency_error = None;
        self.dirty = true;
    }

    /// The band is being dragged from here.
    pub fn drag_started(&mut self)
        requires
            old(self).wf(),
        ensures
            final(self).wf(),
            *final(self) == (QuasarApp {
                pan_origin: Some(old(self).settings.center_hz),
                ..*old(self)
            }),
    {
        self.pan_origin = Some(self.settings.center_hz);
    }

    /// Moves the band without telling the receiver.
    fn move_center(&mut self, hz: i64)
        requires
            old(self).wf(),
            receivable(hz as int),
        ensures
            final(self).wf(),
            final(self).is_centered(*old(self), hz as int),
            final(self).dirty == old(self).dirty,
            final(self).frequency_error == old(self).frequency_error,
    {
        self.settings.center_hz = hz;
        self.center_input = format_mhz(hz);
        self.snapshot = None;
        self.waterfall.clear();
    }

    /// The band was dragged by `drag` on a plot of `width`, both in thousandths of a pixel,
    /// since the drag began: the new centre is shown at once.
    pub fn dragged(&mut self, drag: i32, width: i32)
        requires
            old(self).wf(),
        ensures
            final(self).wf(),
            match old(self).pan_origin {
                Some(origin) => {
                    let hz = panned(origin as int, drag as int, width as int, PIXEL as int);
                    if hz != old(self).settings@.center_hz {
                        &&& final(self).is_centered(*old(self), hz)
                        &&& final(self).dirty == old(self).dirty
                        &&& final(self).frequency_error == old(self).frequency_error
                    } else {
                        *final(self) == *old(self)
                    }
                },
                None => *final(self) == *old(self),
            },
    {
        if let Some(origin) = self.pan_origin {
            let hz: i64 = pan_center(origin, drag, width);
            if hz != self.settings.center_hz {
                self.move_center(hz);
            }
        }
    }

    /// The drag ended: the receiver is told.
    pub fn drag_stopped(&mut self)
        requires
            old(self).wf(),
        ensures
            final(self).wf(),
            *final(self) == (QuasarApp { pan_origin: None, dirty: true, ..*old(self) }),
    {
        self.pan_origin = None;
        self.dirty = true;
    }

    /// The plot was clicked at `x` of `width`, both in thousandths of a pixel: tunes the
    /// selected channel there.
    pub fn clicked(&mut self, x: i32, width: i32)
        requires
            old(self).wf(),
            width > 0,
        ensures
            final(self).wf(),
            final(self).is_tuned(
                *old(self),
                old(self).selected,
                pointed(old(self).settings@.center_hz, x as int, width as int),
            ),
    {
        let hz: i64 = frequency_at(self.settings.center_hz, x, width);
        self.tune_vfo(self.selected, hz);
    }

    /// Makes the text of a channel ready to be edited.
    pub fn prepare_input(&mut self, id: u32, frequency_hz: i64)
        requires
            old(self).wf(),
        ensures
            final(self).wf(),
            *final(self) == (QuasarApp {
                frequency_inputs: final(self).frequency_inputs,
                ..*old(self)
            }),
            old(self).frequency_inputs@.dom().contains(id) ==> final(self).frequency_inputs@
                == old(self).frequency_inputs@,
            !old(self).frequency_inputs@.dom().contains(id) ==> {
                &&& final(self).frequency_inputs@ == old(self).frequency_inputs@.insert(
                    id,
                    final(self).frequency_inputs@[id],
                )
                &&& final(self).frequency_inputs@[id]@ == mhz_text(frequency_hz as int)
            },
    {
        if !self.frequency_inputs.contains_key(&id) {
            let text: String = format_mhz(frequency_hz);
            self.frequency_inputs.insert(id, text);
        }
    }

    /// Tunes a channel to the frequency that was typed in, or says why it cannot be.
    pub fn submit_frequency(&mut self, id: u32, text: &str)
        requires
            old(self).wf(),
        ensures
            final(self).wf(),
            match parsed(text@) {
                Ok(hz) => final(self).is_tuned(*old(self), id, hz),
                Err(message) => {
                    &&& final(self).frequency_error matches Some(e)
                    &&& e@ == message
                    &&& *final(self) == (QuasarApp {
                        frequency_error: final(self).frequency_error,
                        ..*old(self)
                    })
                },
            },
    {
        match parse_mhz(text) {
            Ok(hz) => self.tune_vfo(id, hz),
            Err(error) => {
                self.frequency_error = Some(error);
            },
        }
    }

    /// Moves the band to the centre that was typed in, or says why it cannot be.
    pub fn submit_center(&mut self, text: &str)
        requires
            old(self).wf(),
        ensures
            final(self).wf(),
            match parsed(text@) {
                Ok(hz) => {
                    &&& final(self).is_centered(*old(self), hz)
                    &&& final(self).dirty
                    &&& final(self).frequency_error is None
                },
                Err(message) => {
                    &&& final(self).frequency_error matches Some(e)
                    &&& e@ == message
                    &&& *final(self) == (QuasarApp {
                        frequency_error: final(self).frequency_error,
                        ..*old(self)
                    })
                },
            },
    {
        match parse_mhz(text) {
            Ok(hz) => {
                self.move_center(hz);
                self.dirty = true;
                self.frequency_error = None;
            },
            Err(error) => {
                self.frequency_error = Some(error);
            },
        }
    }

    /// Moves the band to the channel at place `i`.
    pub fn recenter(&mut self, i: usize)
        requires
            old(self).wf(),
            i < old(self).settings@.vfos.len(),
        ensures
            final(self).wf(),
            final(self).is_centered(
                *old(self),
                old(self).settings@.vfos[i as int].frequency_hz as int,
            ),
            final(self).dirty,
            final(self).frequency_error == old(self).frequency_error,
            final(self).settings@.vfos[i as int].spec_in_band(final(self).settings@.center_hz),
    {
        let hz: i64 = self.settings.vfos[i].frequency_hz;
        self.move_center(hz);
        self.dirty = true;
    }

    /// Adds a channel at the centre of the band and selects it, where there is room.
    pub fn add_vfo(&mut self)
        requires
            old(self).wf(),
            old(self).next_id < u32::MAX,
        ensures
            final(self).wf(),
            old(self).settings@.vfos.len() == MAX_VFOS ==> *final(self) == *old(self),
            old(self).settings@.vfos.len() < MAX_VFOS ==> {
                let vfo = VfoConfig {
                    frequency_hz: old(self).settings.center_hz,
                    ..VfoConfig::spec_new(old(self).next_id, 0, Mode::Nfm)
                };
                &&& final(self).settings@ == (SettingsView {
                    vfos: old(self).settings@.vfos.push(vfo),
                    ..old(self).settings@
                })
                &&& *final(self) == (QuasarApp {
                    settings: final(self).settings,
                    selected: old(self).next_id,
                    next_id: (old(self).next_id + 1) as u32,
                    dirty: true,
                    ..*old(self)
                })
            },
    {
        if self.settings.vfos.len() < MAX_VFOS {
            let mut vfo: VfoConfig = VfoConfig::new(self.next_id, 0, Mode::Nfm);
            vfo.frequency_hz = self.settings.center_hz;
            self.settings.vfos.push(vfo);
            self.selected = self.next_id;
            self.next_id = self.next_id + 1;
            self.dirty = true;
        }
    }

    /// Removes a channel; where it was selected, the first one that is left is.
    pub fn remove_vfo(&mut self, id: u32)
        requires
            old(self).wf(),
        ensures
            final(self).wf(),
            final(self).settings@ == (SettingsView {
                vfos: without(old(self).settings@.vfos, id),
                ..old(self).settings@
            }),
            final(self).frequency_inputs@ == old(self).frequency_inputs@.remove(id),
            final(self).selected == (if old(self).selected != id {
                old(self).selected
            } else if final(self).settings@.vfos.len() > 0 {
                final(self).settings@.vfos[0].id
            } else {
                0
            }),
            *final(self) == (QuasarApp {
                settings: final(self).settings,
                frequency_inputs: final(self).frequency_inputs,
                selected: final(self).selected,
                dirty: true,
                ..*old(self)
            }),
    {
        self.frequency_inputs.remove(&id);
        let ghost all = self.settings@.vfos;
        let mut kept: Vec<VfoConfig> = Vec::new();
        let mut i: usize = 0;
        while i < self.settings.vfos.len()
            invariant
                i <= self.settings.vfos@.len(),
                all == self.settings.vfos@,
                kept@ == without(all.take(i as int), id),
            decreases self.settings.vfos@.len() - i,
        {
            assert(all.take(i + 1).drop_last() =~= all.take(i as int));
            if self.settings.vfos[i].id != id {
                kept.push(self.settings.vfos[i]);
            }
            i += 1;
        }
        assert(all.take(i as int) =~= all);
        proof {
            lemma_without_sound(all, self.next_id, id);
        }
        self.settings.vfos = kept;
        if self.selected == id {
            self.selected = if self.settings.vfos.len() > 0 {
                self.settings.vfos[0].id
            } else {
                0
            };
        }
        self.dirty = true;
    }

    /// Selects a channel.
    pub fn select(&mut self, id: u32)
        requires
            old(self).wf(),
        ensures
            final(self).wf(),
            *final(self) == (QuasarApp { selected: id, ..*old(self) }),
    {
        self.selected = id;
    }

    /// Where the controls that all channels share stand.
    pub open spec fn spec_controls(self) -> Controls {
        Controls {
            use_vad: self.settings.use_vad,
            master_gain: self.settings.master_gain,
            sql_dbfs: self.settings.sql_dbfs,
            sql_relative_db: self.settings.sql_relative_db,
            adaptive_squelch: self.settings.adaptive_squelch,
            voice_denoise: self.settings.voice_denoise,
            voice_strength: self.settings.voice_strength,
        }
    }

    /// Where the controls that all channels share stand.
    pub fn controls(&self) -> (r: Controls)
        ensures
            r == self.spec_controls(),
    {
        Controls {
            use_vad: self.settings.use_vad,
            master_gain: self.settings.master_gain,
            sql_dbfs: self.settings.sql_dbfs,
            sql_relative_db: self.settings.sql_relative_db,
            adaptive_squelch: self.settings.adaptive_squelch,
            voice_denoise: self.settings.voice_denoise,
            voice_strength: self.settings.voice_strength,
        }
    }

    /// Moves the controls that all channels share; the receiver is told where one moved.
    pub fn set_controls(&mut self, controls: Controls)
        requires
            old(self).wf(),
        ensures
            final(self).wf(),
            final(self).settings@ == (SettingsView {
                use_vad: controls.use_vad,
                master_gain: controls.master_gain as int,
                sql_dbfs: controls.sql_dbfs as int,
                sql_relative_db: controls.sql_relative_db as int,
                adaptive_squelch: controls.adaptive_squelch,
                voice_denoise: controls.voice_denoise,
                voice_strength: controls.voice_strength as int,
                ..old(self).settings@
            }),
            *final(self) == (QuasarApp {
                settings: final(self).settings,
                dirty: old(self).dirty || controls != old(self).spec_controls(),
                ..*old(self)
            }),
    {
        if controls != self.controls() {
            self.dirty = true;
        }
        self.settings.use_vad = controls.use_vad;
        self.settings.master_gain = controls.master_gain;
        self.settings.sql_dbfs = controls.sql_dbfs;
        self.settings.sql_relative_db = controls.sql_relative_db;
        self.settings.adaptive_squelch = controls.adaptive_squelch;
        self.settings.voice_denoise = controls.voice_denoise;
        self.settings.voice_strength = controls.voice_strength;
    }

    /// Sets a channel as its row shows it; its identifier and its frequency stay. The
    /// receiver is told where something changed.
    pub fn edit_vfo(&mut self, i: usize, edited: VfoConfig)
        requires
            old(self).wf(),
            i < old(self).settings@.vfos.len(),
        ensures
            final(self).wf(),
            ({
                let before = old(self).settings@.vfos[i as int];
                let after = VfoConfig {
                    id: before.id,
                    frequency_hz: before.frequency_hz,
                    ..edited
                };
                &&& final(self).settings@ == (SettingsView {
                    vfos: old(self).settings@.vfos.update(i as int, after),
                    ..old(self).settings@
                })
                &&& *final(self) == (QuasarApp {
                    settings: final(self).settings,
                    dirty: old(self).dirty || after != before,
                    ..*old(self)
                })
            }),
    {
        let before: VfoConfig = self.settings.vfos[i];
        if edited.mode != before.mode || edited.squelch_db != before.squelch_db || edited.gain
            != before.gain || edited.muted != before.muted || edited.solo != before.solo
            || edited.priority != before.priority || edited.ctcss_hz != before.ctcss_hz {
            self.dirty = true;
        }
        let after: VfoConfig = VfoConfig {
            id: before.id,
            frequency_hz: before.frequency_hz,
            ..edited
        };
        self.settings.vfos.set(i, after);
    }

    /// Chooses between hearing one channel at a time and hearing all together.
    pub fn set_mix(&mut self, mix: bool)
        requires
            old(self).wf(),
        ensures
            final(self).wf(),
            final(self).settings@ == (SettingsView { mix, ..old(self).settings@ }),
            *final(self) == (QuasarApp {
                settings: final(self).settings,
                dirty: true,
                ..*old(self)
            }),
    {
        self.settings.mix = mix;
        self.dirty = true;
    }

    /// Switches the tone of the channel at place `i` on or off.
    pub fn toggle_tone(&mut self, i: usize)
        requires
            old(self).wf(),
            i < old(self).settings@.vfos.len(),
        ensures
            final(self).wf(),
            ({
                let vfo = old(self).settings@.vfos[i as int];
                final(self).settings@ == (SettingsView {
                    vfos: old(self).settings@.vfos.update(
                        i as int,
                        VfoConfig {
                            ctcss_hz: if vfo.ctcss_hz is Some {
                                None
                            } else {
                                Some(FIRST_TONE)
                            },
                            ..vfo
                        },
                    ),
                    ..old(self).settings@
                })
            }),
            *final(self) == (QuasarApp {
                settings: final(self).settings,
                dirty: true,
                ..*old(self)
            }),
    {
        let vfo: VfoConfig = self.settings.vfos[i];
        let ctcss_hz: Option<u32> = if vfo.ctcss_hz.is_some() {
            None
        } else {
            Some(FIRST_TONE)
        };
        self.settings.vfos.set(i, VfoConfig { ctcss_hz, ..vfo });
        self.dirty = true;
    }

    /// Turns over what was clicked of the display: levels above the noise, the peak in the
    /// middle, the background. What was drawn otherwise is forgotten.
    pub fn toggle_display(&mut self, relative: bool, dc: bool, background: bool)
        requires
            old(self).wf(),
        ensures
            final(self).wf(),
            !(relative || dc || background) ==> *final(self) == *old(self),
            (relative || dc || background) ==> {
                &&& final(self).plot_cleared()
                &&& *final(self) == (QuasarApp {
                    normalized: old(self).normalized != relative,
                    blank_dc: old(self).blank_dc != dc,
                    noise_blank: old(self).noise_blank != background,
                    snapshot: None,
                    waterfall: final(self).waterfall,
                    ..*old(self)
                })
            },
    {
        let a: bool = toggle(&mut self.normalized, relative);
        let b: bool = toggle(&mut self.blank_dc, dc);
        let c: bool = toggle(&mut self.noise_blank, background);
        if a || b || c {
            self.clear_plot();
        }
    }

    /// Chooses the margin under which the background is hidden, in millionths of a decibel.
    pub fn set_margin(&mut self, noise_margin: i32)
        requires
            old(self).wf(),
        ensures
            final(self).wf(),
            final(self).plot_cleared(),
            *final(self) == (QuasarApp {
                noise_margin,
                snapshot: None,
                waterfall: final(self).waterfall,
                ..*old(self)
            }),
    {
        self.noise_margin = noise_margin;
        self.clear_plot();
    }

    /// Measures the noise anew, and shows the levels above it without the background.
    pub fn auto_zero(&mut self)
        requires
            old(self).wf(),
        ensures
            final(self).wf(),
            final(self).plot_cleared(),
            final(self).settings@ == (SettingsView {
                noise_zero_request: (old(self).settings@.noise_zero_request + 1)
                    % 0x1_0000_0000_0000_0000,
                ..old(self).settings@
            }),
            *final(self) == (QuasarApp {
                settings: final(self).settings,
                normalized: true,
                noise_blank: true,
                dirty: true,
                snapshot: None,
                waterfall: final(self).waterfall,
                ..*old(self)
            }),
    {
        self.settings.noise_zero_request = self.settings.noise_zero_request.wrapping_add(1);
        self.normalized = true;
        self.noise_blank = true;
        self.dirty = true;
        self.clear_plot();
    }

    /// Shows the selected channel on the meter, or nothing where it is not measured.
    pub fn update_meter(&mut self, now_us: u64, dt_us: u32, rise: u32, fall: u32) -> (r: Option<
        VfoStatus,
    >)
        requires
            old(self).wf(),
            rise <= crate::units::ONE,
            fall <= crate::units::ONE,
            now_us <= u64::MAX - crate::ui::meter::PEAK_HOLD_US,
        ensures
            final(self).wf(),
            *final(self) == (QuasarApp { meter: final(self).meter, ..*old(self) }),
            r == status_of(old(self).snapshot, old(self).selected, true),
            match r {
                Some(s) => old(self).meter.shows(
                    final(self).meter,
                    s.level_dbfs as int,
                    old(self).selected,
                    now_us as int,
                    dt_us as int,
                    rise as int,
                    fall as int,
                ),
                None => final(self).meter == (Meter {
                    level: BOTTOM,
                    peak: BOTTOM,
                    vfo: 0,
                    ..old(self).meter
                }),
            },
    {
        let status: Option<VfoStatus> = self.status(self.selected, true);
        match status {
            Some(s) => self.meter.show(s.level_dbfs, self.selected, now_us, dt_us, rise, fall),
            None => self.meter.rest(),
        }
        status
    }
}

/// I/Q blocks that were lost, in the computer or on the bus.
pub fn lost_blocks(iq_dropped: u64, usb_dropped: u64) -> (r: u64)
    requires
        iq_dropped + usb_dropped <= u64::MAX,
    ensures
        r == iq_dropped + usb_dropped,
{
    iq_dropped + usb_dropped
}

proof fn lemma_tuned_sound(settings: SettingsView, next_id: u32, id: u32, hz: int)
    requires
        channels_sound(settings.vfos, next_id),
        receivable(settings.center_hz),
    ensures
        channels_sound(tuned(settings, id, hz).vfos, next_id),
        receivable(tuned(settings, id, hz).center_hz),
        vfo_index(tuned(settings, id, hz).vfos, id) == vfo_index(settings.vfos, id),
{
    crate::model::lemma_vfo_index_bounds(settings.vfos, id);
    let i = vfo_index(settings.vfos, id);
    let after = tuned(settings, id, hz).vfos;
    assert forall|j: int| 0 <= j < i implies after[j].id != id by {
        crate::model::lemma_vfo_index_first(settings.vfos, id, j);
    }
    crate::model::lemma_vfo_index(after, id, i);
}

proof fn lemma_without_sound(vfos: Seq<VfoConfig>, next_id: u32, id: u32)
    requires
        channels_sound(vfos, next_id),
    ensures
        channels_sound(without(vfos, id), next_id),
        without(vfos, id).len() <= vfos.len(),
        forall|i: int|
            0 <= i < without(vfos, id).len() ==> vfos.contains(#[trigger] without(vfos, id)[i])
                && without(vfos, id)[i].id != id,
    decreases vfos.len(),
{
    if vfos.len() > 0 {
        let rest = vfos.drop_last();
        assert(channels_sound(rest, next_id)) by {
            assert forall|i: int| 0 <= i < rest.len() implies (#[trigger] rest[i]).id < next_id
                && receivable(rest[i].frequency_hz as int) by {
                assert(rest[i] == vfos[i]);
            }
            assert forall|i: int, j: int| 0 <= i < j < rest.len() implies (#[trigger] rest[i]).id
                != (#[trigger] rest[j]).id by {
                assert(rest[i] == vfos[i] && rest[j] == vfos[j]);
            }
        }
        lemma_without_sound(rest, next_id, id);
        let tail = without(rest, id);
        let all = without(vfos, id);
        assert forall|i: int| 0 <= i < tail.len() implies vfos.contains(#[trigger] tail[i]) && tail[i].id
            != vfos.last().id by {
            assert(rest.contains(tail[i]));
            let k = choose|k: int| 0 <= k < rest.len() && rest[k] == tail[i];
            assert(vfos[k] == tail[i]);
            assert(vfos[k].id != vfos[vfos.len() - 1].id);
        }
        assert forall|i: int| 0 <= i < all.len() implies vfos.contains(#[trigger] all[i]) && all[i].id
            != id && all[i].id < next_id && receivable(all[i].frequency_hz as int) by {
            if i < tail.len() {
                assert(all[i] == tail[i]);
            } else {
                assert(all[i] == vfos[vfos.len() - 1]);
            }
        }
        assert forall|i: int, j: int| 0 <= i < j < all.len() implies (#[trigger] all[i]).id
            != (#[trigger] all[j]).id by {
            assert(all[i] == tail[i]);
            if j < tail.len() {
                assert(all[j] == tail[j]);
            } else {
                assert(all[j] == vfos.last());
            }
        }
    }
}

/// Without a connected device nothing runs.
pub proof fn nothing_runs_without_a_device(app: QuasarApp)
    requires
        app.wf(),
        app.devices@.len() == 0,
    ensures
        !app.running(),
        !app.spec_enabled(),
{
}

/// Whether `apps` are the states of the window while the snapshots come in, one after
/// another.
pub open spec fn takes_run(apps: Seq<QuasarApp>, snapshots: Seq<Snapshot>) -> bool {
    &&& apps.len() == snapshots.len() + 1
    &&& forall|k: int|
        0 <= k < snapshots.len() ==> apps[k].takes_snapshot(
            apps[k + 1],
            #[trigger] snapshots[k],
            snapshots[k].center_hz == apps[k].settings@.center_hz,
        )
}

/// The snapshots of the band.
pub open spec fn of_the_band(snapshots: Seq<Snapshot>, center_hz: int) -> Seq<Snapshot> {
    snapshots.filter(|s: Snapshot| s.center_hz == center_hz)
}

/// The rows of the waterfall.
pub open spec fn rows(app: QuasarApp) -> Seq<Seq<i64>> {
    app.waterfall@.map_values(|row: Vec<i64>| row@)
}

/// The rows that the snapshots add to the waterfall of a window, the latest first.
pub open spec fn added_rows(app: QuasarApp, snapshots: Seq<Snapshot>) -> Seq<Seq<i64>> {
    Seq::new(
        snapshots.len(),
        |i: int|
            displayed(
                snapshots[snapshots.len() - 1 - i].spectrum,
                app.normalized,
                app.blank_dc,
                app.margin(),
            ),
    )
}

/// At most as many rows as the waterfall has.
pub open spec fn kept_rows(all: Seq<Seq<i64>>) -> Seq<Seq<i64>> {
    if all.len() > HISTORY {
        all.take(HISTORY as int)
    } else {
        all
    }
}

/// After a run of snapshots the waterfall holds a row for each of the band, the latest
/// first, and behind them the rows that it held before, as many as it has room for. The
/// latest snapshot of the band is shown. Those of other bands leave no trace.
pub proof fn a_run_of_snapshots_leaves_its_rows(apps: Seq<QuasarApp>, snapshots: Seq<Snapshot>)
    requires
        apps[0].wf(),
        takes_run(apps, snapshots),
    ensures
        ({
            let (first, last) = (apps[0], apps.last());
            let band = of_the_band(snapshots, first.settings@.center_hz);
            &&& rows(last) == kept_rows(added_rows(first, band) + rows(first))
            &&& last == (QuasarApp {
                snapshot: if band.len() > 0 {
                    Some(band.last())
                } else {
                    first.snapshot
                },
                waterfall: last.waterfall,
                receiving: first.receiving || band.len() > 0,
                ..first
            })
            &&& band.len() == 0 ==> last == first
        }),
    decreases snapshots.len(),
{
    let first = apps[0];
    let center = first.settings@.center_hz;
    let band = of_the_band(snapshots, center);
    if snapshots.len() == 0 {
        assert(band =~= Seq::empty()) by {
            reveal(Seq::filter);
        }
        assert(added_rows(first, band) + rows(first) =~= rows(first));
    } else {
        let (n, before) = (snapshots.len() - 1, snapshots.drop_last());
        let earlier = apps.drop_last();
        assert forall|k: int| 0 <= k < before.len() implies earlier[k].takes_snapshot(
            earlier[k + 1],
            #[trigger] before[k],
            before[k].center_hz == earlier[k].settings@.center_hz,
        ) by {
            assert(snapshots[k] == before[k]);
        }
        a_run_of_snapshots_leaves_its_rows(earlier, before);
        let s = snapshots[n];
        let middle = apps[n];
        let last = apps[n + 1];
        assert(earlier.last() == middle);
        let known = of_the_band(before, center);
        assert(band == if s.center_hz == center {
            known.push(s)
        } else {
            known
        }) by {
            reveal(Seq::filter);
        }
        assert(middle.takes_snapshot(last, s, s.center_hz == center));
        if s.center_hz == center {
            let row = displayed(s.spectrum, first.normalized, first.blank_dc, first.margin());
            let all = added_rows(first, known) + rows(first);
            assert(added_rows(first, band) + rows(first) =~= seq![row] + all);
            assert(rows(middle) == kept_rows(all));
            assert forall|i: int| 0 <= i < rows(last).len() implies rows(last)[i] == kept_rows(
                seq![row] + all,
            )[i] by {
                if i > 0 {
                    assert(last.waterfall@[i] == middle.waterfall@[i - 1]);
                    assert(rows(middle)[i - 1] == all[i - 1]);
                }
            }
            assert(rows(middle).len() == middle.waterfall@.len());
            assert(rows(last) =~= kept_rows(seq![row] + all));
        }
    }
}

/// The controls are disabled once the receiver is stopped, until data of the band arrive;
/// these enable them where the device runs and its gain is known, and data of another band
/// change nothing.
pub proof fn controls_wait_for_data(
    app: QuasarApp,
    stopped: QuasarApp,
    before: QuasarApp,
    after: QuasarApp,
    snapshot: Snapshot,
    updated: bool,
)
    requires
        stopped.is_stopped(app),
        before.receiving == stopped.receiving,
        before.takes_snapshot(after, snapshot, updated),
    ensures
        !stopped.spec_enabled(),
        !before.spec_enabled(),
        after.spec_enabled() <==> before.running() && before.rf_applied is Some
            && snapshot.center_hz == before.settings@.center_hz,
{
}

/// What is drawn belongs to the band on the axis.
pub proof fn plot_belongs_to_the_band(app: QuasarApp)
    requires
        app.wf(),
        app.settings@.center_hz != (app.snapshot->0).center_hz,
    ensures
        app.plot_cleared(),
{
}

/// Removing a channel removes those of its identifier and no other, and keeps the order.
pub proof fn removing_a_channel_keeps_the_others(vfos: Seq<VfoConfig>, id: u32)
    ensures
        without(vfos, id) == vfos.filter(|v: VfoConfig| v.id != id),
    decreases vfos.len(),
{
    reveal(Seq::filter);
    if vfos.len() > 0 {
        removing_a_channel_keeps_the_others(vfos.drop_last(), id);
    }
}

/// What is shown of a channel is its own first measure, and, where that is asked for, the
/// first one that was made within the band; nothing is shown where there is none.
pub proof fn channels_show_their_own_measure(snapshot: Snapshot, id: u32, received: bool, i: int)
    requires
        0 <= i <= snapshot.vfos@.len(),
        forall|j: int|
            0 <= j < i ==> (#[trigger] snapshot.vfos@[j]).id != id || received
                && !snapshot.vfos@[j].in_band,
        i < snapshot.vfos@.len() ==> snapshot.vfos@[i].id == id && (received
            ==> snapshot.vfos@[i].in_band),
    ensures
        i < snapshot.vfos@.len() ==> status_of(Some(snapshot), id, received) == Some(
            snapshot.vfos@[i],
        ),
        i == snapshot.vfos@.len() ==> status_of(Some(snapshot), id, received) is None,
        status_of(None, id, received) is None,
{
    lemma_status_index(snapshot.vfos@, id, received, i);
}

/// A channel that the user tunes shows and has the frequency asked for, where the hardware
/// receives it; no other channel moves, and what was drawn stays exactly where the band
/// does.
pub proof fn tuning_shows_the_frequency_asked_for(
    before: QuasarApp,
    after: QuasarApp,
    id: u32,
    hz: int,
    i: int,
)
    requires
        after.is_tuned(before, id, hz),
        0 <= i < before.settings@.vfos.len(),
        before.settings@.vfos[i].id == id,
        forall|j: int| 0 <= j < i ==> before.settings@.vfos[j].id != id,
        500_000 <= hz <= 1_766_000_000,
    ensures
        after.settings@.vfos[i].frequency_hz == hz,
        after.frequency_inputs@[id]@ == mhz_text(hz),
        after.center_input@ == mhz_text(after.settings@.center_hz),
        after.settings@.center_hz == before.settings@.center_hz || after.settings@.center_hz == hz,
        after.settings@.center_hz == before.settings@.center_hz ==> after.snapshot
            == before.snapshot && after.waterfall == before.waterfall,
        after.settings@.center_hz != before.settings@.center_hz ==> after.snapshot is None
            && after.waterfall@.len() == 0,
        after.dirty,
        forall|j: int|
            0 <= j < before.settings@.vfos.len() && j != i ==> after.settings@.vfos[j]
                == before.settings@.vfos[j],
{
    crate::model::tuned_vfo_has_the_frequency_asked_for(before.settings@, id, hz, i);
    crate::model::lemma_vfo_index(before.settings@.vfos, id, i);
}

/// A device that is still connected under its description runs on undisturbed. One that has
/// gone is stopped, with all that it showed, and is chosen no more; and so is any device
/// where the driver fails, which then lists none.
pub proof fn devices_that_go_are_stopped(
    before: QuasarApp,
    after: QuasarApp,
    update: Result<Vec<UsbDevice>, String>,
    chosen: UsbDevice,
)
    requires
        before.takes_devices(after, update),
        before.selected_device == Some(chosen),
    ensures
        update is Err ==> after.devices@.len() == 0 && after.driver_error is Some,
        update is Ok ==> after.devices@.len() == update->Ok_0@.len() && after.driver_error is None,
        ({
            let there = update matches Ok(devices) && device_views(devices@).contains(chosen@);
            let placed = update matches Ok(devices) && exists|k: int|
                0 <= k < devices@.len() && (#[trigger] devices@[k]).index == chosen.index;
            &&& there ==> after.selected_device == before.selected_device && after.link
                == before.link && after.receiving == before.receiving && after.snapshot
                == before.snapshot && after.waterfall == before.waterfall
            &&& !placed || !there && before.link == Link::Down ==> after.selected_device is None
                && after.link == Link::Down && !after.receiving && after.snapshot is None
                && after.waterfall@.len() == 0 && after.rf_applied is None
        }),
        after.settings == before.settings,
{
    let now = listed(update, before.running(), before.selected_device);
    assert(device_views(after.devices@).len() == after.devices@.len());
    if let Ok(devices) = update {
        let views = device_views(devices@);
        assert(views.len() == devices@.len());
        if views.len() > 0 {
            crate::driver::usb::labels_never_invent_a_device(views, chosen@, 0);
        } else {
            assert(labelled(views, chosen@).len() == 0) by {
                crate::driver::usb::lemma_labelled_len(views, chosen@);
            }
        }
        if views.contains(chosen@) {
            let k = choose|k: int| 0 <= k < views.len() && views[k] == chosen@;
            crate::driver::usb::lemma_label_stays(views, chosen@, k);
            assert(now[k] == chosen@);
            assert(now.contains(chosen@));
        }
        if now.contains(chosen@) {
            let k = choose|k: int| 0 <= k < now.len() && now[k] == chosen@;
            crate::driver::usb::lemma_labelled_len(views, chosen@);
            crate::driver::usb::labels_never_invent_a_device(views, chosen@, k);
            assert(views[k] == devices@[k]@);
            assert(devices@[k].index == chosen.index);
        }
    }
}

/// The controls are enabled exactly while a device runs, its gain is known and data of the
/// band have arrived.
pub proof fn controls_are_enabled_while_data_arrive(app: QuasarApp)
    ensures
        app.spec_enabled() <==> app.link != Link::Down && app.rf_applied is Some && app.receiving,
        app.noise_blank ==> app.margin() == Some(app.noise_margin as int),
        !app.noise_blank ==> app.margin() is None,
{
}

/// The latest row of the waterfall is what is drawn of the latest snapshot of the band, on
/// top of the rows before it, 180 at most. A snapshot of another band changes nothing.
pub proof fn latest_row_is_on_top(
    before: QuasarApp,
    after: QuasarApp,
    snapshot: Snapshot,
    updated: bool,
    i: int,
)
    requires
        before.takes_snapshot(after, snapshot, updated),
        before.waterfall@.len() <= 180,
        0 <= i < before.waterfall@.len(),
    ensures
        snapshot.center_hz != before.settings.center_hz ==> after == before,
        snapshot.center_hz == before.settings.center_hz ==> {
            &&& after.snapshot == Some(snapshot)
            &&& after.receiving
            &&& after.settings == before.settings
            &&& after.waterfall@.len() <= 180
            &&& after.waterfall@.len() > i
            &&& i < 179 ==> after.waterfall@.len() > i + 1 && after.waterfall@[i + 1]
                == before.waterfall@[i]
            &&& after.waterfall@[0]@ == displayed(
                snapshot.spectrum,
                before.normalized,
                before.blank_dc,
                before.margin(),
            )
        },
{
}

/// Moving the band moves its centre to the frequency asked for and says so, draws nothing of
/// the old band any more, and changes no channel and no other setting.
pub proof fn moving_the_band_clears_the_plot(before: QuasarApp, after: QuasarApp, hz: int)
    requires
        after.is_centered(before, hz),
    ensures
        after.settings.center_hz == hz,
        after.settings@ == (SettingsView { center_hz: hz, ..before.settings@ }),
        after.settings@.vfos == before.settings@.vfos,
        after.center_input@ == mhz_text(hz),
        after.snapshot is None,
        after.waterfall@.len() == 0,
        after.link == before.link,
        after.selected == before.selected,
        after.frequency_inputs == before.frequency_inputs,
        after.rf_applied == before.rf_applied,
        after.receiving == before.receiving,
{
}

} // verus!
