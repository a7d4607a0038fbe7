//! Opening a device: the commands that the driver is given, one after another, and
//! what each answer leads to.
//!
//! Only commands of the receiving side exist. Whatever answer ends the opening, a
//! device that was opened is closed before the failure is reported.

use crate::channel::Inbox;
use crate::decimal::{decimal, push_decimal, push_signed, signed};
use crate::driver::usb::{closest_gain, device_views, is_nearest_gain, UsbDevice, UsbSource};
use crate::model::{IQ_RATE, MAX_RF_HZ, MIN_RF_HZ};
use vstd::prelude::*;
use vstd::string::StringExecFns;

verus! {

/// What is set on the device before the reception, in this order.
#[derive(Clone, Copy, Debug, PartialEq, Eq, Structural)]
pub enum Setting {
    Rate,
    Frequency,
    ManualGain,
    Buffers,
}

impl Setting {
    pub open spec fn spec_label(self) -> Seq<char> {
        match self {
            Setting::Rate => "débit RX"@,
            Setting::Frequency => "fréquence RX"@,
            Setting::ManualGain => "gain manuel"@,
            Setting::Buffers => "buffers RX"@,
        }
    }

    pub fn label(self) -> (r: &'static str)
        ensures
            r@ == self.spec_label(),
    {
        match self {
            Setting::Rate => "débit RX",
            Setting::Frequency => "fréquence RX",
            Setting::ManualGain => "gain manuel",
            Setting::Buffers => "buffers RX",
        }
    }
}

/// Why a device could not be opened.
#[derive(Clone, Copy, Debug, PartialEq, Eq, Structural)]
pub enum OpenError {
    /// The centre lies outside the range of the hardware.
    CenterOutOfRange,
    /// The device is not connected any more.
    NotConnected,
    /// The driver refused to open the device.
    Refused(i32),
    /// A setting was refused.
    NotSet(Setting, i32),
    /// The device has another centre or rate than was set.
    NotConfirmed(u32, u32),
    /// The tuner has no gains that can be chosen.
    NoManualGains,
    /// The gain was refused.
    GainRefused(i32),
}

impl OpenError {
    /// What the user is told.
    pub open spec fn spec_message(self) -> Seq<char> {
        match self {
            OpenError::CenterOutOfRange => "Centre RF hors plage"@,
            OpenError::NotConnected =>
                "Le SDR sélectionné n'est plus connecté. Sélectionnez-le à nouveau."@,
            OpenError::Refused(code) => "Impossible d'ouvrir le SDR USB ("@ + signed(code as int)
                + "). Fermez les autres logiciels SDR et vérifiez WinUSB."@,
            OpenError::NotSet(setting, code) => "Configuration "@ + setting.spec_label()
                + " impossible ("@ + signed(code as int) + ")"@,
            OpenError::NotConfirmed(center, rate) => "Réglage RF non confirmé : centre "@ + decimal(
                center as nat,
            ) + " Hz, débit "@ + decimal(rate as nat) + " S/s"@,
            OpenError::NoManualGains =>
                "Le tuner ne fournit pas de gains RF manuels compatibles"@,
            OpenError::GainRefused(code) => "Réglage du gain RF impossible ("@ + signed(code as int)
                + ")"@,
        }
    }

    /// What the user is told.
    pub fn message(self) -> (r: String)
        ensures
            r@ == self.spec_message(),
    {
        match self {
            OpenError::CenterOutOfRange => "Centre RF hors plage".to_owned(),
            OpenError::NotConnected =>
                "Le SDR sélectionné n'est plus connecté. Sélectionnez-le à nouveau.".to_owned(),
            OpenError::Refused(code) => {
                let mut e: String = "Impossible d'ouvrir le SDR USB (".to_owned();
                push_signed(&mut e, code as i64);
                e.append("). Fermez les autres logiciels SDR et vérifiez WinUSB.");
                e
            },
            OpenError::NotSet(setting, code) => {
                let mut e: String = "Configuration ".to_owned();
                e.append(setting.label());
                e.append(" impossible (");
                push_signed(&mut e, code as i64);
                e.append(")");
                e
            },
            OpenError::NotConfirmed(center, rate) => {
                let mut e: String = "Réglage RF non confirmé : centre ".to_owned();
                push_decimal(&mut e, center as u64);
                e.append(" Hz, débit ");
                push_decimal(&mut e, rate as u64);
                e.append(" S/s");
                e
            },
            OpenError::NoManualGains =>
                "Le tuner ne fournit pas de gains RF manuels compatibles".to_owned(),
            OpenError::GainRefused(code) => {
                let mut e: String = "Réglage du gain RF impossible (".to_owned();
                push_signed(&mut e, code as i64);
                e.append(")");
                e
            },
        }
    }
}

/// What the driver is to do next.
#[derive(Clone, Copy, Debug, PartialEq, Eq, Structural)]
pub enum Command {
    ListDevices,
    Open(u32),
    SetRate(u32),
    SetFrequency(u32),
    SetManualGain,
    ResetBuffers,
    ReadFrequency,
    ReadRate,
    CountGains,
    ReadGains(u32),
    SetGain(i32),
    ReadGain,
    /// Close the device, without an answer, and report the failure.
    CloseAndFail,
    /// Report the failure; no device is open.
    Fail,
    /// Start the transfers.
    Receive,
}

/// What the driver answered.
pub enum Reply {
    Devices(Vec<UsbDevice>),
    /// The code, and whether there is a handle.
    Opened(i32, bool),
    Code(i32),
    Value(u32),
    Gains(Vec<i32>),
}

/// What the opening waits for.
#[derive(Clone, Copy, Debug, PartialEq, Eq, Structural)]
pub enum Stage {
    Listing,
    Opening,
    Setting(Setting),
    ReadingFrequency,
    ReadingRate,
    CountingGains,
    ReadingGains,
    SettingGain,
    ReadingGain,
    Failed,
    Receiving,
}

/// A device that is being opened.
pub struct Opening {
    pub selected: UsbDevice,
    /// The centre to tune to, in hertz.
    pub center_hz: u32,
    /// The gain that was asked for, in tenths of a decibel.
    pub gain_db: i32,
    pub stage: Stage,
    /// The first setting that was refused.
    pub refused: Option<(Setting, i32)>,
    /// The centre that the device reported.
    pub read_hz: u32,
    /// The rate that the device reported.
    pub read_rate: u32,
    pub gain_steps: Vec<i32>,
    /// The gain that was set.
    pub chosen_gain: i32,
    /// The gain that the device reported.
    pub applied_gain: i32,
    pub error: Option<OpenError>,
}

impl Opening {
    /// Whether the reply answers the command that was given.
    pub open spec fn awaits(self, reply: Reply) -> bool {
        match self.stage {
            Stage::Listing => reply is Devices,
            Stage::Opening => reply is Opened,
            Stage::Setting(_) | Stage::CountingGains | Stage::SettingGain | Stage::ReadingGain =>
                reply is Code,
            Stage::ReadingFrequency | Stage::ReadingRate => reply is Value,
            Stage::ReadingGains => reply matches Reply::Gains(steps) && steps@.len() > 0,
            Stage::Failed | Stage::Receiving => false,
        }
    }

    /// Whether the driver holds a handle to the device.
    pub open spec fn holds_handle(self) -> bool {
        match self.stage {
            Stage::Listing | Stage::Opening | Stage::Failed => false,
            _ => true,
        }
    }

    /// What holds at each stage: everything that was checked on the way there.
    pub open spec fn sound(self) -> bool {
        let set = self.refused is None;
        let confirmed = set && self.read_hz == self.center_hz && self.read_rate == IQ_RATE;
        let chosen = confirmed && is_nearest_gain(
            self.gain_steps@,
            self.gain_db as int,
            self.chosen_gain,
        );
        &&& MIN_RF_HZ <= self.center_hz <= MAX_RF_HZ
        &&& match self.stage {
            Stage::Listing | Stage::Opening => set && self.error is None,
            Stage::Setting(_) => self.error is None,
            Stage::ReadingFrequency => set && self.error is None,
            Stage::ReadingRate => set && self.error is None,
            Stage::CountingGains | Stage::ReadingGains => confirmed && self.error is None,
            Stage::SettingGain | Stage::ReadingGain | Stage::Receiving => chosen && self.error
                is None,
            Stage::Failed => self.error is Some,
        }
    }

    /// What stays as it was asked for.
    pub open spec fn same_request(self, other: Opening) -> bool {
        &&& self.selected == other.selected
        &&& self.center_hz == other.center_hz
        &&& self.gain_db == other.gain_db
    }

    /// Starts to open `selected`: refuses a centre outside the range of the hardware.
    pub fn begin(selected: UsbDevice, gain_db: i32, center_hz: i64) -> (r: Result<Opening, OpenError>)
        ensures
            !(MIN_RF_HZ <= center_hz <= MAX_RF_HZ) ==> r == Err::<Opening, OpenError>(
                OpenError::CenterOutOfRange,
            ),
            MIN_RF_HZ <= center_hz <= MAX_RF_HZ ==> (r matches Ok(o) && o.sound() && o.stage
                == Stage::Listing && o.selected == selected && o.center_hz == center_hz && o.gain_db
                == gain_db),
    {
        if center_hz < MIN_RF_HZ || center_hz > MAX_RF_HZ {
            return Err(OpenError::CenterOutOfRange);
        }
        Ok(
            Opening {
                selected,
                center_hz: center_hz as u32,
                gain_db,
                stage: Stage::Listing,
                refused: None,
                read_hz: 0,
                read_rate: 0,
                gain_steps: Vec::new(),
                chosen_gain: 0,
                applied_gain: 0,
                error: None,
            },
        )
    }

    /// Ends the opening.
    fn fail(&mut self, error: OpenError) -> (c: Command)
        requires
            old(self).stage != Stage::Failed,
            MIN_RF_HZ <= old(self).center_hz <= MAX_RF_HZ,
        ensures
            final(self).sound(),
            final(self).same_request(*old(self)),
            final(self).stage == Stage::Failed,
            final(self).error == Some(error),
            c == (if old(self).holds_handle() {
                Command::CloseAndFail
            } else {
                Command::Fail
            }),
    {
        let open: bool = match self.stage {
            Stage::Listing | Stage::Opening | Stage::Failed => false,
            _ => true,
        };
        self.stage = Stage::Failed;
        self.error = Some(error);
        if open {
            Command::CloseAndFail
        } else {
            Command::Fail
        }
    }

    /// The stage after the answer to a setting, and the command that leads there.
    pub open spec fn after_setting(self, setting: Setting) -> (Stage, Command) {
        match setting {
            Setting::Rate => (
                Stage::Setting(Setting::Frequency),
                Command::SetFrequency(self.center_hz),
            ),
            Setting::Frequency => (Stage::Setting(Setting::ManualGain), Command::SetManualGain),
            Setting::ManualGain => (Stage::Setting(Setting::Buffers), Command::ResetBuffers),
            Setting::Buffers => (Stage::ReadingFrequency, Command::ReadFrequency),
        }
    }

    /// Whether `reply` ends the opening, and how.
    pub open spec fn failure(self, reply: Reply) -> Option<OpenError> {
        match (self.stage, reply) {
            (Stage::Listing, Reply::Devices(devices)) => if device_views(devices@).contains(
                self.selected@,
            ) {
                None
            } else {
                Some(OpenError::NotConnected)
            },
            (Stage::Opening, Reply::Opened(code, handle)) => if code != 0 || !handle {
                Some(OpenError::Refused(code))
            } else {
                None
            },
            (Stage::Setting(Setting::Buffers), Reply::Code(code)) => match self.refused {
                Some((setting, earlier)) => Some(OpenError::NotSet(setting, earlier)),
                None => if code != 0 {
                    Some(OpenError::NotSet(Setting::Buffers, code))
                } else {
                    None
                },
            },
            (Stage::ReadingRate, Reply::Value(rate)) => if self.read_hz != self.center_hz || rate
                != IQ_RATE {
                Some(OpenError::NotConfirmed(self.read_hz, rate))
            } else {
                None
            },
            (Stage::CountingGains, Reply::Code(count)) => if 1 <= count <= 256 {
                None
            } else {
                Some(OpenError::NoManualGains)
            },
            (Stage::SettingGain, Reply::Code(code)) => if code != 0 {
                Some(OpenError::GainRefused(code))
            } else {
                None
            },
            _ => None,
        }
    }

    /// What an answer leads to.
    pub open spec fn answered(self, after: Opening, reply: Reply, c: Command) -> bool {
        &&& after.sound()
        &&& after.same_request(self)
        &&& self.failure(reply) is Some ==> {
            &&& after.stage == Stage::Failed
            &&& after.error == self.failure(reply)
            &&& c == (if self.holds_handle() {
                Command::CloseAndFail
            } else {
                Command::Fail
            })
        }
        &&& self.failure(reply) is None ==> match self.stage {
            Stage::Listing => {
                &&& after == (Opening { stage: Stage::Opening, ..self })
                &&& c == Command::Open(self.selected.index)
            },
            Stage::Opening => {
                &&& after == (Opening {
                    stage: Stage::Setting(Setting::Rate),
                    ..self
                })
                &&& c == Command::SetRate(IQ_RATE)
            },
            Stage::Setting(setting) => {
                let first = self.refused is None && reply->Code_0 != 0;
                &&& after == (Opening {
                    stage: self.after_setting(setting).0,
                    refused: if first {
                        Some((setting, reply->Code_0))
                    } else {
                        self.refused
                    },
                    ..self
                })
                &&& c == self.after_setting(setting).1
            },
            Stage::ReadingFrequency => {
                &&& after == (Opening {
                    stage: Stage::ReadingRate,
                    read_hz: reply->Value_0,
                    ..self
                })
                &&& c == Command::ReadRate
            },
            Stage::ReadingRate => {
                &&& after == (Opening {
                    stage: Stage::CountingGains,
                    read_rate: reply->Value_0,
                    ..self
                })
                &&& c == Command::CountGains
            },
            Stage::CountingGains => {
                &&& after == (Opening { stage: Stage::ReadingGains, ..self })
                &&& c == Command::ReadGains(reply->Code_0 as u32)
            },
            Stage::ReadingGains => {
                &&& after == (Opening {
                    stage: Stage::SettingGain,
                    gain_steps: reply->Gains_0,
                    chosen_gain: after.chosen_gain,
                    ..self
                })
                &&& is_nearest_gain(
                    reply->Gains_0@,
                    self.gain_db as int,
                    after.chosen_gain,
                )
                &&& c == Command::SetGain(after.chosen_gain)
            },
            Stage::SettingGain => {
                &&& after == (Opening { stage: Stage::ReadingGain, ..self })
                &&& c == Command::ReadGain
            },
            Stage::ReadingGain => {
                &&& after == (Opening {
                    stage: Stage::Receiving,
                    applied_gain: reply->Code_0,
                    ..self
                })
                &&& c == Command::Receive
            },
            Stage::Failed | Stage::Receiving => false,
        }
    }

    /// Takes the answer of the driver and says what to do next.
    pub fn reply(&mut self, reply: Reply) -> (c: Command)
        requires
            old(self).sound(),
            old(self).awaits(reply),
        ensures
            final(self).sound(),
            old(self).answered(*final(self), reply, c),
    {
        match (self.stage, reply) {
            (Stage::Listing, Reply::Devices(devices)) => {
                if !self.selected.is_listed(devices.as_slice()) {
                    return self.fail(OpenError::NotConnected);
                }
                self.stage = Stage::Opening;
                Command::Open(self.selected.index)
            },
            (Stage::Opening, Reply::Opened(code, handle)) => {
                if code != 0 || !handle {
                    return self.fail(OpenError::Refused(code));
                }
                self.stage = Stage::Setting(Setting::Rate);
                Command::SetRate(IQ_RATE)
            },
            (Stage::Setting(setting), Reply::Code(code)) => {
                if self.refused.is_none() && code != 0 {
                    self.refused = Some((setting, code));
                }
                match setting {
                    Setting::Rate => {
                        self.stage = Stage::Setting(Setting::Frequency);
                        Command::SetFrequency(self.center_hz)
                    },
                    Setting::Frequency => {
                        self.stage = Stage::Setting(Setting::ManualGain);
                        Command::SetManualGain
                    },
                    Setting::ManualGain => {
                        self.stage = Stage::Setting(Setting::Buffers);
                        Command::ResetBuffers
                    },
                    Setting::Buffers => {
                        if let Some((first, earlier)) = self.refused {
                            return self.fail(OpenError::NotSet(first, earlier));
                        }
                        self.stage = Stage::ReadingFrequency;
                        Command::ReadFrequency
                    },
                }
            },
            (Stage::ReadingFrequency, Reply::Value(hz)) => {
                self.read_hz = hz;
                self.stage = Stage::ReadingRate;
                Command::ReadRate
            },
            (Stage::ReadingRate, Reply::Value(rate)) => {
                self.read_rate = rate;
                if self.read_hz != self.center_hz || rate != IQ_RATE {
                    return self.fail(OpenError::NotConfirmed(self.read_hz, rate));
                }
                self.stage = Stage::CountingGains;
                Command::CountGains
            },
            (Stage::CountingGains, Reply::Code(count)) => {
                if count < 1 || count > 256 {
                    return self.fail(OpenError::NoManualGains);
                }
                self.stage = Stage::ReadingGains;
                Command::ReadGains(count as u32)
            },
            (Stage::ReadingGains, Reply::Gains(steps)) => {
                let gain: i32 = closest_gain(steps.as_slice(), self.gain_db);
                self.chosen_gain = gain;
                self.gain_steps = steps;
                self.stage = Stage::SettingGain;
                Command::SetGain(self.chosen_gain)
            },
            (Stage::SettingGain, Reply::Code(code)) => {
                if code != 0 {
                    return self.fail(OpenError::GainRefused(code));
                }
                self.stage = Stage::ReadingGain;
                Command::ReadGain
            },
            (_, Reply::Code(gain)) => {
                self.applied_gain = gain;
                self.stage = Stage::Receiving;
                Command::Receive
            },
            _ => Command::Fail,
        }
    }

    /// The stream of a device that was opened, with the blocks that arrive at `rx`.
    pub fn source(self, rx: Inbox<(u64, Vec<u8>)>) -> (r: UsbSource)
        requires
            self.sound(),
            self.stage == Stage::Receiving,
        ensures
            r.rx == rx,
            r.expected == 0,
            r.gain_steps == self.gain_steps,
            r.applied_gain_db == self.applied_gain,
            r.center_hz == self.center_hz,
    {
        UsbSource {
            rx,
            expected: 0,
            gain_steps: self.gain_steps,
            applied_gain_db: self.applied_gain,
            center_hz: self.center_hz as i64,
        }
    }
}

/// Where the reception starts, the centre and the rate were confirmed by the
/// device, and the gain is the nearest one that the tuner has.
pub proof fn reception_starts_on_confirmed_settings(o: Opening)
    requires
        o.sound(),
        o.stage == Stage::Receiving,
    ensures
        o.error is None,
        o.refused is None,
        o.read_hz == o.center_hz,
        o.read_rate == IQ_RATE,
        MIN_RF_HZ <= o.center_hz <= MAX_RF_HZ,
        is_nearest_gain(o.gain_steps@, o.gain_db as int, o.chosen_gain),
{
}

/// One answer of the driver: the opening before and after it, and the next command.
pub struct Exchange {
    pub before: Opening,
    pub reply: Reply,
    pub after: Opening,
    pub command: Command,
}

impl Exchange {
    /// Whether the answer was awaited, and was taken as it should be.
    pub open spec fn is_answer(self) -> bool {
        &&& self.before.sound()
        &&& self.before.awaits(self.reply)
        &&& self.before.answered(self.after, self.reply, self.command)
    }

    /// Whether the answer is what a device that can be received gives.
    pub open spec fn good(self) -> bool {
        match (self.before.stage, self.reply) {
            (Stage::Listing, Reply::Devices(devices)) => device_views(devices@).contains(
                self.before.selected@,
            ),
            (Stage::Opening, Reply::Opened(code, handle)) => code == 0 && handle,
            (Stage::Setting(_), Reply::Code(code)) => code == 0,
            (Stage::ReadingFrequency, Reply::Value(hz)) => hz == self.before.center_hz,
            (Stage::ReadingRate, Reply::Value(rate)) => rate == IQ_RATE,
            (Stage::CountingGains, Reply::Code(count)) => 1 <= count <= 256,
            (Stage::SettingGain, Reply::Code(code)) => code == 0,
            _ => true,
        }
    }
}

/// Whether the answer `k` goes on where the last one ended.
pub open spec fn follows(xs: Seq<Exchange>, k: int) -> bool {
    xs[k].before == xs[k - 1].after
}

/// Whether `xs` are the answers to an opening, from the first command on.
pub open spec fn is_opening(xs: Seq<Exchange>) -> bool {
    &&& xs.len() > 0
    &&& xs[0].before.stage == Stage::Listing
    &&& forall|k: int|
        0 <= k < xs.len() ==> (#[trigger] xs[k]).is_answer()
    &&& forall|k: int| 0 < k < xs.len() ==> #[trigger] follows(xs, k)
}

/// Whether the first `n` answers are good.
pub open spec fn all_good(xs: Seq<Exchange>, n: int) -> bool {
    forall|k: int| 0 <= k < n ==> (#[trigger] xs[k]).good()
}

/// Whether the driver gave a handle with one of the first `n` answers.
pub open spec fn was_opened(xs: Seq<Exchange>, n: int) -> bool {
    exists|k: int|
        0 <= k < n && (#[trigger] xs[k]).before.stage == Stage::Opening && xs[k].good()
}

/// How often the device is closed.
pub open spec fn closings(xs: Seq<Exchange>) -> nat
    decreases xs.len(),
{
    if xs.len() == 0 {
        0
    } else {
        closings(xs.drop_last()) + (if xs.last().command == Command::CloseAndFail {
            1nat
        } else {
            0
        })
    }
}

/// How many answers lead to a stage where none of them ends the opening.
pub open spec fn answers_before(stage: Stage) -> int {
    match stage {
        Stage::Listing => 0,
        Stage::Opening => 1,
        Stage::Setting(Setting::Rate) => 2,
        Stage::Setting(Setting::Frequency) => 3,
        Stage::Setting(Setting::ManualGain) => 4,
        Stage::Setting(Setting::Buffers) => 5,
        Stage::ReadingFrequency => 6,
        Stage::ReadingRate => 7,
        Stage::CountingGains => 8,
        Stage::ReadingGains => 9,
        Stage::SettingGain => 10,
        Stage::ReadingGain => 11,
        Stage::Receiving | Stage::Failed => 12,
    }
}

/// What an opening knows of the answers so far.
spec fn knows(o: Opening, good: bool) -> bool {
    match o.stage {
        Stage::Setting(_) => o.refused is None <==> good,
        Stage::ReadingRate => o.read_hz == o.center_hz <==> good,
        Stage::Failed => !good,
        _ => good,
    }
}

proof fn lemma_one_answer(x: Exchange, good: bool)
    requires
        x.is_answer(),
        knows(x.before, good),
    ensures
        knows(x.after, good && x.good()),
        x.command == Command::CloseAndFail <==> x.after.stage == Stage::Failed
            && x.before.holds_handle(),
        x.after.stage != Stage::Failed ==> answers_before(x.after.stage) == answers_before(
            x.before.stage,
        ) + 1,
        x.after.stage != Stage::Failed ==> (x.after.holds_handle() <==> x.before.holds_handle()
            || x.before.stage == Stage::Opening),
        x.before.stage == Stage::Opening ==> (x.good() <==> x.after.stage != Stage::Failed),
{
}

proof fn lemma_answer_awaited(x: Exchange)
    requires
        x.is_answer(),
    ensures
        x.before.stage != Stage::Failed,
        x.before.stage != Stage::Receiving,
        x.after.sound(),
{
}

/// What holds after `n` answers.
spec fn stands(xs: Seq<Exchange>, n: int) -> bool {
    let o = xs[n - 1].after;
    &&& knows(o, all_good(xs, n))
    &&& if o.stage == Stage::Failed {
        &&& n == xs.len()
        &&& closings(xs.take(n)) == (if was_opened(xs, n) {
            1nat
        } else {
            0
        })
    } else {
        &&& answers_before(o.stage) == n
        &&& o.holds_handle() <==> was_opened(xs, n)
        &&& closings(xs.take(n)) == 0
    }
}

proof fn lemma_opened(xs: Seq<Exchange>, n: int)
    requires
        0 < n <= xs.len(),
    ensures
        was_opened(xs, n) <==> was_opened(xs, n - 1) || xs[n - 1].before.stage == Stage::Opening
            && xs[n - 1].good(),
        all_good(xs, n) <==> all_good(xs, n - 1) && xs[n - 1].good(),
        closings(xs.take(n)) == closings(xs.take(n - 1)) + (if xs[n - 1].command
            == Command::CloseAndFail {
            1nat
        } else {
            0
        }),
{
    assert(xs.take(n).drop_last() =~= xs.take(n - 1));
    assert(xs.take(n).last() == xs[n - 1]);
    if was_opened(xs, n - 1) {
        let k = choose|k: int|
            0 <= k < n - 1 && (#[trigger] xs[k]).before.stage == Stage::Opening && xs[k].good();
        assert(xs[k].good());
    }
}

proof fn lemma_answers(xs: Seq<Exchange>, n: int)
    requires
        is_opening(xs),
        0 < n <= xs.len(),
    ensures
        stands(xs, n),
        n <= 12,
    decreases n,
{
    let x = xs[n - 1];
    assert(x.is_answer());
    lemma_answer_awaited(x);
    if n < xs.len() {
        assert(follows(xs, n));
        assert(xs[n].is_answer());
        lemma_answer_awaited(xs[n]);
    }
    if n > 1 {
        lemma_answers(xs, n - 1);
        assert(follows(xs, n - 1));
    } else {
        assert(!was_opened(xs, 0));
        assert(all_good(xs, 0));
        assert(xs.take(0).len() == 0);
    }
    lemma_one_answer(x, all_good(xs, n - 1));
    lemma_opened(xs, n);
}

/// An opening succeeds exactly where every answer is good, and it ends after twelve
/// answers at the latest.
pub proof fn an_opening_succeeds_where_every_answer_is_good(xs: Seq<Exchange>)
    requires
        is_opening(xs),
        xs.last().after.stage == Stage::Receiving || xs.last().after.stage == Stage::Failed,
    ensures
        xs.last().after.stage == Stage::Receiving <==> all_good(xs, xs.len() as int),
        xs.last().after.error is None <==> all_good(xs, xs.len() as int),
        xs.len() <= 12,
        all_good(xs, xs.len() as int) ==> xs.len() == 12,
{
    lemma_answers(xs, xs.len() as int);
    assert(xs[xs.len() - 1].is_answer());
    lemma_answer_awaited(xs.last());
}

/// A failed opening closes the device exactly once where the driver had opened it, and
/// not at all where it had not; one that succeeds does not close it.
pub proof fn a_failed_opening_closes_once(xs: Seq<Exchange>)
    requires
        is_opening(xs),
    ensures
        closings(xs) == (if xs.last().after.stage == Stage::Failed && was_opened(
            xs,
            xs.len() as int,
        ) {
            1nat
        } else {
            0
        }),
        xs.last().after.stage != Stage::Failed ==> (xs.last().after.holds_handle() <==> was_opened(
            xs,
            xs.len() as int,
        )),
{
    lemma_answers(xs, xs.len() as int);
    assert(xs.take(xs.len() as int) =~= xs);
}

/// What was asked for stays the same through an opening.
proof fn lemma_request_stays(xs: Seq<Exchange>, k: int)
    requires
        is_opening(xs),
        0 <= k < xs.len(),
    ensures
        xs[k].before.same_request(xs[0].before),
    decreases k,
{
    if k > 0 {
        lemma_request_stays(xs, k - 1);
        assert(follows(xs, k));
        assert(xs[k - 1].is_answer());
    }
}

/// The device gets what was asked for, one command after another: the chosen device is
/// opened, the rate is 2.4 million samples per second, the frequency is the centre that was
/// asked for, and the gain is one that the tuner named and that no other is nearer than to
/// the one that was asked for. Then the reception starts.
pub proof fn device_gets_what_was_asked_for(xs: Seq<Exchange>, k: int)
    requires
        is_opening(xs),
        0 <= k < xs.len(),
        xs[k].after.stage != Stage::Failed,
    ensures
        ({
            let (asked, c, reply) = (xs[0].before, xs[k].command, xs[k].reply);
            &&& k == 0 ==> c == Command::Open(asked.selected.index)
            &&& k == 1 ==> c == Command::SetRate(2_400_000)
            &&& k == 2 ==> c == Command::SetFrequency(asked.center_hz)
            &&& k == 3 ==> c == Command::SetManualGain
            &&& k == 4 ==> c == Command::ResetBuffers
            &&& k == 5 ==> c == Command::ReadFrequency
            &&& k == 6 ==> c == Command::ReadRate
            &&& k == 7 ==> c == Command::CountGains
            &&& k == 8 ==> (reply matches Reply::Code(n) && 1 <= n <= 256 && c
                == Command::ReadGains(n as u32))
            &&& k == 9 ==> (reply matches Reply::Gains(steps) && c matches Command::SetGain(gain) && {
                &&& steps@.contains(gain)
                &&& forall|j: int|
                    0 <= j < steps@.len() ==> {
                        let (a, b) = (gain - asked.gain_db, #[trigger] steps@[j] - asked.gain_db);
                        (a <= b || a <= -b) && (-a <= b || -a <= -b)
                    }
            })
            &&& k == 10 ==> c == Command::ReadGain
            &&& k == 11 ==> c == Command::Receive && (reply matches Reply::Code(n)
                && xs[k].after.applied_gain == n)
            &&& k <= 11
        }),
{
    lemma_request_stays(xs, k);
    let x = xs[k];
    assert(x.is_answer());
    lemma_answers(xs, k + 1);
    if k > 0 {
        lemma_answers(xs, k);
        assert(follows(xs, k));
        lemma_answer_awaited(x);
    }
    assert(answers_before(x.before.stage) == k);
    if k == 9 {
        let steps = x.reply->Gains_0@;
        let (asked, gain) = (xs[0].before.gain_db as int, x.after.chosen_gain);
        assert(is_nearest_gain(steps, asked, gain));
        assert forall|j: int| 0 <= j < steps.len() implies {
            let (a, b) = (gain - asked, #[trigger] steps[j] - asked);
            (a <= b || a <= -b) && (-a <= b || -a <= -b)
        } by {
            crate::driver::usb::nearest_gain_is_the_first_of_the_nearest(steps, asked, gain, j);
        }
        crate::driver::usb::nearest_gain_is_the_first_of_the_nearest(steps, asked, gain, 0);
    }
}

/// Whether the answer `k` is the first that refuses a setting: this one, with this code.
pub open spec fn refuses_first(xs: Seq<Exchange>, k: int, setting: Setting, code: i32) -> bool {
    &&& xs[k].before.stage == Stage::Setting(setting)
    &&& xs[k].reply == Reply::Code(code)
    &&& code != 0
    &&& forall|j: int|
        0 <= j < k && (#[trigger] xs[j]).before.stage is Setting ==> xs[j].reply == Reply::Code(0)
}

proof fn lemma_first_refusal(xs: Seq<Exchange>, n: int)
    requires
        is_opening(xs),
        0 < n <= xs.len(),
        xs[0].before.refused is None,
    ensures
        xs[n - 1].after.stage != Stage::Failed ==> match xs[n - 1].after.refused {
            Some((setting, code)) => exists|k: int|
                0 <= k < n && #[trigger] refuses_first(xs, k, setting, code),
            None => forall|j: int|
                0 <= j < n && (#[trigger] xs[j]).before.stage is Setting ==> xs[j].reply
                    == Reply::Code(0),
        },
    decreases n,
{
    let x = xs[n - 1];
    assert(x.is_answer());
    if n > 1 {
        lemma_first_refusal(xs, n - 1);
        assert(follows(xs, n - 1));
        assert(xs[n - 2].is_answer());
        lemma_answer_awaited(x);
    }
    if x.after.stage != Stage::Failed && x.before.refused is None {
        if let Some((setting, code)) = x.after.refused {
            assert(refuses_first(xs, n - 1, setting, code));
        }
    }
}

/// Where a device refuses settings, the user is told of the first one that it refused, with
/// the code that it gave.
pub proof fn first_refused_setting_is_reported(xs: Seq<Exchange>, setting: Setting, code: i32)
    requires
        is_opening(xs),
        xs[0].before.refused is None,
        xs.last().after.stage == Stage::Failed,
        xs.last().after.error == Some(OpenError::NotSet(setting, code)),
    ensures
        exists|k: int| 0 <= k < xs.len() && #[trigger] refuses_first(xs, k, setting, code),
{
    let n = xs.len() as int;
    let x = xs[n - 1];
    assert(x.is_answer());
    if n > 1 {
        lemma_first_refusal(xs, n - 1);
        assert(follows(xs, n - 1));
        lemma_answer_awaited(x);
    }
    if x.before.refused is None {
        assert(refuses_first(xs, n - 1, setting, code));
    } else {
        let k = choose|k: int| 0 <= k < n - 1 && #[trigger] refuses_first(xs, k, setting, code);
        assert(refuses_first(xs, k, setting, code));
    }
}

/// What the user is told is what the device answered: that the chosen device is not among
/// those that it lists, with which code it refused to open or to set the gain, what it
/// reported in place of the centre and the rate that were asked for, or that it names no
/// gain, or more than 256. Only a device that was opened is closed.
pub proof fn failures_tell_what_the_device_answered(x: Exchange)
    requires
        x.is_answer(),
        x.after.stage == Stage::Failed,
    ensures
        match x.after.error {
            Some(OpenError::NotConnected) => x.reply matches Reply::Devices(devices)
                && !device_views(devices@).contains(x.before.selected@),
            Some(OpenError::Refused(code)) => x.reply matches Reply::Opened(c, handle) && c == code
                && (code != 0 || !handle),
            Some(OpenError::NotSet(setting, code)) => x.reply is Code && x.before.stage
                == Stage::Setting(Setting::Buffers) && (x.before.refused == Some((setting, code)) || (
            x.before.refused is None && setting == Setting::Buffers && x.reply == Reply::Code(code)
                && code != 0)),
            Some(OpenError::NotConfirmed(hz, rate)) => hz == x.before.read_hz && x.reply
                == Reply::Value(rate) && (hz != x.before.center_hz || rate != 2_400_000),
            Some(OpenError::NoManualGains) => x.reply matches Reply::Code(count) && (count < 1
                || count > 256),
            Some(OpenError::GainRefused(code)) => x.reply == Reply::Code(code) && code != 0,
            Some(OpenError::CenterOutOfRange) => false,
            None => false,
        },
        x.command == Command::CloseAndFail <==> !(x.reply is Devices) && !(x.reply is Opened),
        x.command == Command::Fail <==> x.reply is Devices || x.reply is Opened,
{
}

} // verus!
