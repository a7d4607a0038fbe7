//! What the two threads of the receiver decide: the acquisition, which owns the
//! device, and the signal processing behind it.

use crate::channel::{Feed, Inbox, Offer, Outbox, Signal, Tally};
use crate::driver::usb::UsbSource;
use crate::model::{Settings, SettingsView, Snapshot};
use std::sync::atomic::AtomicU64;
use std::sync::Arc;
use vstd::prelude::*;
use vstd::string::StringExecFns;

verus! {

/// Blocks that wait for the signal processing at most.
pub const IQ_QUEUE: usize = 4;

/// Snapshots that wait for the display at most.
pub const SNAPSHOT_QUEUE: usize = 2;

/// How long a block is waited for, and the shortest time between two snapshots, in
/// milliseconds.
pub const DISPLAY_MS: u64 = 30;

/// What was lost on the way.
pub struct Counters {
    pub iq_dropped: Arc<AtomicU64>,
    pub usb_dropped: Arc<AtomicU64>,
    pub audio_dropped: AtomicU64,
    pub underruns: Arc<AtomicU64>,
    pub audio_errors: Arc<AtomicU64>,
}

impl Default for Counters {
    /// Counters that start from zero. What an atomic holds is not stated: other
    /// threads may have changed it.
    fn default() -> Self {
        Counters {
            iq_dropped: Arc::new(AtomicU64::new(0)),
            usb_dropped: Arc::new(AtomicU64::new(0)),
            audio_dropped: AtomicU64::new(0),
            underruns: Arc::new(AtomicU64::new(0)),
            audio_errors: Arc::new(AtomicU64::new(0)),
        }
    }
}

/// What is shown of the audio output: its text, or why there is none.
pub fn audio_status(opened: Result<String, String>) -> (r: String)
    ensures
        r@ == (match opened {
            Ok(text) => text@,
            Err(e) => "Audio indisponible : "@ + e@,
        }),
{
    match opened {
        Ok(text) => text,
        Err(e) => {
            let mut r: String = "Audio indisponible : ".to_owned();
            r.append(e.as_str());
            r
        },
    }
}

/// How many samples came back.
pub open spec fn came_back(returned: Seq<Option<i32>>) -> int
    decreases returned.len(),
{
    if returned.len() == 0 {
        0
    } else {
        came_back(returned.drop_last()) + (if returned.last() is Some {
            1int
        } else {
            0
        })
    }
}

/// Counts what came back from a full queue when a sample was put in.
pub fn note_returned(dropped: u64, returned: Option<i32>) -> (r: u64)
    requires
        dropped < u64::MAX,
    ensures
        r == dropped + (if returned is Some {
            1int
        } else {
            0
        }),
{
    if returned.is_some() {
        dropped + 1
    } else {
        dropped
    }
}

/// Hands a block of audio to the sound card: every sample, in its order. Where the sound
/// card is behind, the oldest samples come back, and are counted: which ones do rests on
/// the sound card.
pub fn push_audio(feed: &mut Feed<i32>, samples: &[i32]) -> (dropped: u64)
    ensures
        final(feed).fed() == old(feed).fed() + samples@,
        ({
            let back = final(feed).returned().skip(old(feed).returned().len() as int);
            &&& final(feed).returned() == old(feed).returned() + back
            &&& back.len() == samples@.len()
            &&& dropped == came_back(back)
        }),
        dropped <= samples@.len(),
{
    let ghost (fed, before) = (feed.fed(), feed.returned());
    let ghost mut back: Seq<Option<i32>> = Seq::empty();
    let mut dropped: u64 = 0;
    let mut i: usize = 0;
    assert(fed =~= fed + samples@.take(0));
    assert(before =~= before + back);
    while i < samples.len()
        invariant
            i <= samples.len(),
            dropped <= i,
            feed.fed() == fed + samples@.take(i as int),
            feed.returned() == before + back,
            back.len() == i,
            dropped == came_back(back),
        decreases samples.len() - i,
    {
        let one: Option<i32> = feed.force_push(samples[i]);
        dropped = note_returned(dropped, one);
        proof {
            let next = back.push(one);
            assert(next.drop_last() =~= back);
            assert(feed.returned() =~= before + next);
            assert(feed.fed() =~= fed + samples@.take(i + 1));
            back = next;
        }
        i += 1;
    }
    assert(samples@.take(i as int) =~= samples@);
    assert(feed.returned().skip(before.len() as int) =~= back);
    dropped
}

/// The number of a block, and that of the settings it was received with.
#[derive(Clone, Copy, Debug, PartialEq, Eq, Structural)]
pub struct FrameTag {
    pub sequence: u64,
    pub epoch: u64,
}

/// What is reported after the device was opened or its gain set, and what follows.
#[derive(Clone, Copy, Debug, PartialEq, Eq, Structural)]
pub enum Turn {
    /// The reception begins.
    First,
    /// The band was moved.
    Retuned,
    /// The gain was set.
    Gain,
}

/// What the acquisition waits for.
#[derive(Clone, Copy, Debug, PartialEq, Eq, Structural)]
pub enum Stage {
    Opening(Turn),
    Reporting(Turn),
    Polling,
    Closing,
    PollingGain,
    SettingGain,
    Reading,
    Sending,
    Ended,
}

/// What the acquisition does next.
#[derive(Clone, Copy, Debug, PartialEq, Eq, Structural)]
pub enum Task {
    /// Open the device with the gain and the centre of the settings.
    Open,
    /// Report the gain of the device and the gains it has.
    Report,
    /// See whether the reception ends, and whether there are new settings.
    Poll,
    /// Close the device and empty the queue of audio.
    Close,
    /// See whether another gain is asked for.
    PollGain,
    /// Set the gain of the device.
    SetGain(i32),
    /// Read a block.
    Read,
    /// Hand the block on with this tag.
    Send(FrameTag),
    /// Report the error and end.
    Fail,
    End,
}

/// The thread that owns the device.
pub struct Acquisition {
    pub settings: Settings,
    /// The number of the next block.
    pub sequence: u64,
    /// The number of the settings.
    pub epoch: u64,
    /// The centre that the device was opened with, in hertz, while it is open.
    pub tuned_hz: Option<i64>,
    pub stage: Stage,
    /// Why the reception ended.
    pub error: Option<String>,
}

/// What blocks are tagged with.
pub struct Tags {
    pub settings: SettingsView,
    pub sequence: int,
    pub epoch: int,
}

/// What changes the tags.
pub enum Change {
    /// New settings.
    Command(SettingsView),
    /// The device has another gain.
    Gain(int),
    /// A block was handed on, or lost.
    Sent,
    /// Anything else.
    Nothing,
}

/// The tags after a change: whatever changes the settings gives them a new number.
pub open spec fn changed(a: Tags, c: Change) -> Tags {
    match c {
        Change::Command(settings) => Tags { settings, epoch: a.epoch + 1, ..a },
        Change::Gain(gain) => Tags {
            settings: SettingsView { rf_gain_db: gain, ..a.settings },
            epoch: a.epoch + 1,
            ..a
        },
        Change::Sent => Tags { sequence: a.sequence + 1, ..a },
        Change::Nothing => a,
    }
}

/// The tags after some changes.
pub open spec fn after(a: Tags, changes: Seq<Change>) -> Tags
    decreases changes.len(),
{
    if changes.len() == 0 {
        a
    } else {
        changed(after(a, changes.drop_last()), changes.last())
    }
}

/// What a gain that is asked for leads to, or none.
pub open spec fn gain_task(gain: Option<i32>) -> Task {
    match gain {
        Some(g) => Task::SetGain(g),
        None => Task::Read,
    }
}

impl Acquisition {
    /// What blocks are tagged with.
    pub open spec fn tags(self) -> Tags {
        Tags {
            settings: self.settings@,
            sequence: self.sequence as int,
            epoch: self.epoch as int,
        }
    }

    /// The device is open on the centre of the settings whenever a block may be read.
    pub open spec fn wf(self) -> bool {
        match self.stage {
            Stage::Opening(_) => self.tuned_hz is None,
            Stage::Closing | Stage::Ended => true,
            _ => self.tuned_hz == Some(self.settings.center_hz),
        }
    }

    /// Whether the thread waits for what the task gives.
    pub open spec fn waits_for(self, task: Task) -> bool {
        match task {
            Task::Open => self.stage is Opening,
            Task::Report => self.stage is Reporting,
            Task::Poll => self.stage == Stage::Polling,
            Task::Close => self.stage == Stage::Closing,
            Task::PollGain => self.stage == Stage::PollingGain,
            Task::SetGain(_) => self.stage == Stage::SettingGain,
            Task::Read => self.stage == Stage::Reading,
            Task::Send(_) => self.stage == Stage::Sending,
            Task::Fail => self.stage == Stage::Ended && self.error is Some,
            Task::End => self.stage == Stage::Ended,
        }
    }

    /// One step of the thread: only a block that is handed on takes a number, whatever
    /// changes the settings gives them a new number, and a block is handed on right after
    /// it was read, from the same device. There is no step from the end.
    pub open spec fn moves(self, after: Acquisition) -> bool {
        &&& self.stage != Stage::Ended
        &&& after.wf()
        &&& after.sequence == self.sequence + (if self.stage == Stage::Sending {
            1int
        } else {
            0
        })
        &&& {
            ||| after.tags().settings == self.tags().settings && after.epoch == self.epoch
            ||| after.epoch == self.epoch + 1 && (self.stage == Stage::Polling || self.stage
                == Stage::SettingGain)
        }
        &&& after.stage == Stage::Sending ==> self.stage == Stage::Reading && after.tuned_hz
            == self.tuned_hz
    }

    /// The reception ended with an error, and nothing else changed.
    pub open spec fn failed(self, before: Acquisition, error: String) -> bool {
        &&& self.stage == Stage::Ended
        &&& self.error == Some(error)
        &&& self.tags() == before.tags()
    }

    /// Starts with opening the device.
    pub fn begin(settings: Settings) -> (r: (Self, Task))
        ensures
            r.0.tags() == (Tags { settings: settings@, sequence: 0, epoch: 0 }),
            r.0.stage == Stage::Opening(Turn::First),
            r.0.error is None,
            r.0.wf(),
            r.1 == Task::Open,
            r.0.waits_for(r.1),
    {
        let a: Acquisition = Acquisition {
            settings,
            sequence: 0,
            epoch: 0,
            tuned_hz: None,
            stage: Stage::Opening(Turn::First),
            error: None,
        };
        (a, Task::Open)
    }

    fn fail(&mut self, error: String) -> (task: Task)
        ensures
            task == Task::Fail,
            final(self).failed(*old(self), error),
            final(self).wf(),
            final(self).waits_for(task),
    {
        self.stage = Stage::Ended;
        self.error = Some(error);
        Task::Fail
    }

    /// The device was opened, or could not be.
    pub fn opened(&mut self, result: Result<(), String>) -> (task: Task)
        requires
            old(self).wf(),
            old(self).stage is Opening,
        ensures
            old(self).moves(*final(self)),
            final(self).waits_for(task),
            match result {
                Ok(()) => {
                    &&& task == Task::Report
                    &&& final(self).stage == Stage::Reporting(old(self).stage->Opening_0)
                    &&& final(self).error == old(self).error
                    &&& final(self).tags() == old(self).tags()
                },
                Err(e) => task == Task::Fail && final(self).failed(*old(self), e),
            },
    {
        match result {
            Ok(()) => {
                if let Stage::Opening(turn) = self.stage {
                    self.stage = Stage::Reporting(turn);
                }
                self.tuned_hz = Some(self.settings.center_hz);
                Task::Report
            },
            Err(e) => self.fail(e),
        }
    }

    /// The gain of the device was reported.
    pub fn reported(&mut self) -> (task: Task)
        requires
            old(self).wf(),
            old(self).stage is Reporting,
        ensures
            old(self).moves(*final(self)),
            final(self).waits_for(task),
            final(self).tags() == old(self).tags(),
            final(self).error == old(self).error,
            task == (match old(self).stage->Reporting_0 {
                Turn::First => Task::Poll,
                Turn::Retuned => Task::PollGain,
                Turn::Gain => Task::Read,
            }),
    {
        let turn: Turn = match self.stage {
            Stage::Reporting(turn) => turn,
            _ => Turn::First,
        };
        match turn {
            Turn::First => {
                self.stage = Stage::Polling;
                Task::Poll
            },
            Turn::Retuned => {
                self.stage = Stage::PollingGain;
                Task::PollGain
            },
            Turn::Gain => {
                self.stage = Stage::Reading;
                Task::Read
            },
        }
    }

    /// Reports the gain that the device has and those that it can have. Whether the window
    /// has room for them rests on the window; the reception goes on either way.
    pub fn report(
        &mut self,
        source: &UsbSource,
        updates: &mut Outbox<(i32, Vec<i32>)>,
    ) -> (task: Task)
        requires
            old(self).wf(),
            old(self).stage is Reporting,
        ensures
            old(self).moves(*final(self)),
            final(self).waits_for(task),
            final(self).tags() == old(self).tags(),
            final(self).error == old(self).error,
            task == (match old(self).stage->Reporting_0 {
                Turn::First => Task::Poll,
                Turn::Retuned => Task::PollGain,
                Turn::Gain => Task::Read,
            }),
            ({
                let offer = final(updates).offers().last();
                &&& final(updates).offers() == old(updates).offers().push(offer)
                &&& offer.message.0 == source.applied_gain_db
                &&& offer.message.1@ == source.gain_steps@
            }),
    {
        let steps: Vec<i32> = vstd::slice::slice_to_vec(source.gain_steps.as_slice());
        let _ = updates.try_send((source.applied_gain_db, steps));
        self.reported()
    }

    /// Reports why the reception ended. Whether the window has room for it rests on the
    /// window.
    pub fn report_failure(&mut self, errors: &mut Outbox<String>)
        requires
            old(self).waits_for(Task::Fail),
        ensures
            *final(self) == (Acquisition { error: None, ..*old(self) }),
            ({
                let offer = final(errors).offers().last();
                &&& final(errors).offers() == old(errors).offers().push(offer)
                &&& Some(offer.message) == old(self).error
            }),
    {
        let mut error: Option<String> = None;
        std::mem::swap(&mut error, &mut self.error);
        if let Some(e) = error {
            let _ = errors.try_send(e);
        }
    }

    /// What new settings, or the wish to end, lead to. A new centre closes the device, so
    /// that no block of the old band is taken for one of the new.
    pub open spec fn answers(
        self,
        after: Acquisition,
        stop: bool,
        command: Option<Settings>,
        task: Task,
    ) -> bool {
        &&& after.error == self.error
        &&& stop ==> task == Task::End && after.tags() == self.tags()
        &&& !stop ==> match command {
            None => task == Task::PollGain && after.tags() == self.tags(),
            Some(new) => {
                &&& after.tags() == changed(self.tags(), Change::Command(new@))
                &&& task == (if new@.center_hz != self.tags().settings.center_hz {
                    Task::Close
                } else {
                    Task::PollGain
                })
            },
        }
    }

    /// Whether the reception ends, and the new settings if there are any.
    pub fn polled(&mut self, stop: bool, command: Option<Settings>) -> (task: Task)
        requires
            old(self).wf(),
            old(self).stage == Stage::Polling,
            old(self).epoch < u64::MAX,
        ensures
            old(self).moves(*final(self)),
            final(self).waits_for(task),
            old(self).answers(*final(self), stop, command, task),
    {
        if stop {
            self.stage = Stage::Ended;
            return Task::End;
        }
        if let Some(new) = command {
            let retune: bool = new.center_hz != self.settings.center_hz;
            self.settings = new;
            self.epoch = self.epoch + 1;
            if retune {
                self.stage = Stage::Closing;
                return Task::Close;
            }
        }
        self.stage = Stage::PollingGain;
        Task::PollGain
    }

    /// Looks whether the reception ends, and else for new settings. What is found rests on
    /// the window; whatever it is, it is answered.
    pub fn poll(&mut self, stop: &mut Signal, commands: &mut Inbox<Settings>) -> (task: Task)
        requires
            old(self).wf(),
            old(self).stage == Stage::Polling,
            old(self).epoch < u64::MAX,
        ensures
            old(self).moves(*final(self)),
            final(self).waits_for(task),
            ({
                let ended = final(stop).seen().last();
                let command = final(commands).found().last();
                &&& final(stop).seen() == old(stop).seen().push(ended)
                &&& if ended {
                    &&& final(commands).found() == old(commands).found()
                    &&& old(self).answers(*final(self), true, None, task)
                } else {
                    &&& final(commands).found() == old(commands).found().push(command)
                    &&& old(self).answers(*final(self), false, command, task)
                }
            }),
    {
        let ended: bool = stop.is_raised();
        let command: Option<Settings> = if ended {
            None
        } else {
            commands.try_recv()
        };
        self.polled(ended, command)
    }

    /// The device was closed and the queue of audio emptied.
    pub fn closed(&mut self) -> (task: Task)
        requires
            old(self).wf(),
            old(self).stage == Stage::Closing,
        ensures
            old(self).moves(*final(self)),
            final(self).waits_for(task),
            task == Task::Open,
            final(self).stage == Stage::Opening(Turn::Retuned),
            final(self).error == old(self).error,
            final(self).tags() == old(self).tags(),
    {
        self.tuned_hz = None;
        self.stage = Stage::Opening(Turn::Retuned);
        Task::Open
    }

    /// The gain that is asked for, if any.
    pub fn gain_polled(&mut self, gain: Option<i32>) -> (task: Task)
        requires
            old(self).wf(),
            old(self).stage == Stage::PollingGain,
        ensures
            old(self).moves(*final(self)),
            final(self).waits_for(task),
            final(self).error == old(self).error,
            final(self).tags() == old(self).tags(),
            task == gain_task(gain),
    {
        match gain {
            Some(g) => {
                self.stage = Stage::SettingGain;
                Task::SetGain(g)
            },
            None => {
                self.stage = Stage::Reading;
                Task::Read
            },
        }
    }

    /// Looks whether another gain is asked for. What is found rests on the window; whatever
    /// it is, it is done.
    pub fn poll_gain(&mut self, gains: &mut Inbox<i32>) -> (task: Task)
        requires
            old(self).wf(),
            old(self).stage == Stage::PollingGain,
        ensures
            old(self).moves(*final(self)),
            final(self).waits_for(task),
            final(self).error == old(self).error,
            final(self).tags() == old(self).tags(),
            ({
                let gain = final(gains).found().last();
                &&& final(gains).found() == old(gains).found().push(gain)
                &&& task == gain_task(gain)
            }),
    {
        let gain: Option<i32> = gains.try_recv();
        self.gain_polled(gain)
    }

    /// The gain that the device has now, or why it could not be set.
    pub fn gain_set(&mut self, result: Result<i32, String>) -> (task: Task)
        requires
            old(self).wf(),
            old(self).stage == Stage::SettingGain,
            old(self).epoch < u64::MAX,
        ensures
            old(self).moves(*final(self)),
            final(self).waits_for(task),
            match result {
                Ok(applied) => {
                    &&& task == Task::Report
                    &&& final(self).stage == Stage::Reporting(Turn::Gain)
                    &&& final(self).error == old(self).error
                    &&& final(self).tags() == changed(old(self).tags(), Change::Gain(applied as int))
                },
                Err(e) => task == Task::Fail && final(self).failed(*old(self), e),
            },
    {
        match result {
            Ok(applied) => {
                self.settings.rf_gain_db = applied;
                self.epoch = self.epoch + 1;
                self.stage = Stage::Reporting(Turn::Gain);
                Task::Report
            },
            Err(e) => self.fail(e),
        }
    }

    /// A block was read, or could not be.
    pub fn read_done(&mut self, result: Result<(), String>) -> (task: Task)
        requires
            old(self).wf(),
            old(self).stage == Stage::Reading,
        ensures
            old(self).moves(*final(self)),
            final(self).waits_for(task),
            match result {
                Ok(()) => {
                    &&& task == Task::Send(
                        FrameTag { sequence: old(self).sequence, epoch: old(self).epoch },
                    )
                    &&& final(self).error == old(self).error
                    &&& final(self).tags() == old(self).tags()
                },
                Err(e) => task == Task::Fail && final(self).failed(*old(self), e),
            },
    {
        match result {
            Ok(()) => {
                self.stage = Stage::Sending;
                Task::Send(FrameTag { sequence: self.sequence, epoch: self.epoch })
            },
            Err(e) => self.fail(e),
        }
    }

    /// Hands a block on without waiting; one that finds no room is counted as dropped.
    /// Whether there is room rests on the signal processing.
    pub fn send<T>(&mut self, out: &mut Outbox<T>, block: T, dropped: &mut Tally) -> (task: Task)
        requires
            old(self).wf(),
            old(self).stage == Stage::Sending,
            old(self).sequence < u64::MAX,
        ensures
            old(self).moves(*final(self)),
            final(self).waits_for(task),
            task == Task::Poll,
            final(self).error == old(self).error,
            final(self).tags() == changed(old(self).tags(), Change::Sent),
            ({
                let taken = final(out).offers().last().taken;
                &&& final(out).offers() == old(out).offers().push((Offer { message: block, taken }))
                &&& final(dropped).counted() == old(dropped).counted() + (if taken {
                    0int
                } else {
                    1
                })
            }),
    {
        if out.try_send(block).is_err() {
            dropped.count(1);
        }
        self.sent()
    }

    /// The block was handed on, or dropped: either way it took its number.
    pub fn sent(&mut self) -> (task: Task)
        requires
            old(self).wf(),
            old(self).stage == Stage::Sending,
            old(self).sequence < u64::MAX,
        ensures
            old(self).moves(*final(self)),
            final(self).waits_for(task),
            task == Task::Poll,
            final(self).error == old(self).error,
            final(self).tags() == changed(old(self).tags(), Change::Sent),
    {
        self.sequence = self.sequence + 1;
        self.stage = Stage::Polling;
        Task::Poll
    }
}

/// Numbers only grow.
proof fn lemma_after_grows(a: Tags, changes: Seq<Change>, i: int, j: int)
    requires
        0 <= i <= j <= changes.len(),
    ensures
        after(a, changes.take(i)).epoch <= after(a, changes.take(j)).epoch,
        after(a, changes.take(i)).sequence <= after(a, changes.take(j)).sequence,
        after(a, changes.take(i)).epoch == after(a, changes.take(j)).epoch ==> after(
            a,
            changes.take(i),
        ).settings == after(a, changes.take(j)).settings,
    decreases j - i,
{
    if i < j {
        lemma_after_grows(a, changes, i, j - 1);
        assert(changes.take(j).drop_last() =~= changes.take(j - 1));
    }
}

/// The number of the settings names them: two blocks with the same number were
/// received with the same settings.
pub proof fn an_epoch_names_one_setting(
    a: Tags,
    changes: Seq<Change>,
    i: int,
    j: int,
)
    requires
        0 <= i <= j <= changes.len(),
        after(a, changes.take(i)).epoch == after(a, changes.take(j)).epoch,
    ensures
        after(a, changes.take(i)).settings == after(a, changes.take(j)).settings,
{
    lemma_after_grows(a, changes, i, j);
}

/// No two blocks have the same number, also where one was lost.
pub proof fn blocks_are_numbered_apart(a: Tags, changes: Seq<Change>, i: int, j: int)
    requires
        0 <= i < j < changes.len(),
        changes[i] is Sent,
        changes[j] is Sent,
    ensures
        after(a, changes.take(i)).sequence < after(a, changes.take(j)).sequence,
{
    assert(changes.take(i + 1).drop_last() =~= changes.take(i));
    lemma_after_grows(a, changes, i + 1, j);
}

/// A block is never taken for one of another band: whenever one is read or handed on,
/// the device was opened with the centre of the settings that the block is tagged with.
pub proof fn blocks_belong_to_the_centre_of_their_settings(a: Acquisition)
    requires
        a.wf(),
        a.stage == Stage::Reading || a.stage == Stage::Sending,
    ensures
        a.tuned_hz matches Some(hz) && hz == a.tags().settings.center_hz,
{
}

/// What the signal processing does with a block.
#[derive(Clone, Copy, Debug, PartialEq, Eq, Structural)]
pub enum FrameUse {
    /// It was received with other settings than those that hold now.
    Skip,
    /// There is no receiver yet: one is made with the settings of the block.
    Rebuild,
    /// Blocks before it were lost or skipped: the receiver takes the settings of the block,
    /// and all its filters start anew.
    Resume,
    /// The receiver takes the settings of the block.
    Configure,
    /// The receiver goes on.
    Keep,
}

/// What the signal processing knows of the blocks before.
#[derive(Clone, Copy, Debug, PartialEq, Eq, Structural)]
pub struct FrameGate {
    /// Whether there is a receiver.
    pub ready: bool,
    /// The settings of the last block.
    pub previous_epoch: u64,
    /// The number of the next block, where none was lost.
    pub expected: u64,
}

impl FrameGate {
    /// What becomes of a block while the settings `live` hold.
    pub open spec fn spec_use(self, tag: FrameTag, live: u64) -> FrameUse {
        if tag.epoch != live {
            FrameUse::Skip
        } else if !self.ready {
            FrameUse::Rebuild
        } else if tag.sequence != self.expected {
            FrameUse::Resume
        } else if tag.epoch != self.previous_epoch {
            FrameUse::Configure
        } else {
            FrameUse::Keep
        }
    }

    /// What is known after a block.
    pub open spec fn spec_next(self, tag: FrameTag, live: u64) -> FrameGate {
        if tag.epoch != live {
            self
        } else {
            FrameGate {
                ready: true,
                previous_epoch: tag.epoch,
                expected: (tag.sequence + 1) as u64,
            }
        }
    }

    /// Before the first block.
    pub fn new() -> (r: Self)
        ensures
            r == (FrameGate { ready: false, previous_epoch: u64::MAX, expected: 0 }),
    {
        FrameGate { ready: false, previous_epoch: u64::MAX, expected: 0 }
    }

    /// Decides on a block: a gap before it makes the filters start anew, and new settings
    /// are taken with the first block that was received with them.
    pub fn take(&mut self, tag: FrameTag, live_epoch: u64) -> (r: FrameUse)
        requires
            tag.sequence < u64::MAX,
        ensures
            r == old(self).spec_use(tag, live_epoch),
            *final(self) == old(self).spec_next(tag, live_epoch),
    {
        if tag.epoch != live_epoch {
            return FrameUse::Skip;
        }
        let action: FrameUse = if !self.ready {
            FrameUse::Rebuild
        } else if tag.sequence != self.expected {
            FrameUse::Resume
        } else if self.previous_epoch != tag.epoch {
            FrameUse::Configure
        } else {
            FrameUse::Keep
        };
        self.ready = true;
        self.expected = tag.sequence + 1;
        self.previous_epoch = tag.epoch;
        action
    }
}

/// Whether the result of a block is still wanted: not where the settings changed
/// meanwhile.
pub fn still_wanted(tag: FrameTag, live_epoch: u64) -> (r: bool)
    ensures
        r == (tag.epoch == live_epoch),
{
    tag.epoch == live_epoch
}

/// Whether the display is due, `elapsed_ms` after the last time.
pub fn display_due(elapsed_ms: u64) -> (r: bool)
    ensures
        r == (elapsed_ms >= DISPLAY_MS),
{
    elapsed_ms >= DISPLAY_MS
}

/// What became of the result of a block.
#[derive(Clone, Copy, Debug, PartialEq, Eq, Structural)]
pub struct HandedOn {
    /// The samples that the sound card had no room for.
    pub dropped: u64,
    /// Whether the block is shown.
    pub shown: bool,
}

/// Hands the result of a block on, `elapsed_ms` after something was shown last: the audio
/// to the sound card, where there is one, and what is shown of the block to the window,
/// where that is due. Of a block that new settings overtook, nothing is handed on.
pub fn hand_on(
    tag: FrameTag,
    live_epoch: u64,
    samples: &[i32],
    snapshot: Snapshot,
    audio_enabled: bool,
    audio: &mut Feed<i32>,
    display: &mut Feed<Snapshot>,
    elapsed_ms: u64,
) -> (r: HandedOn)
    ensures
        ({
            let wanted = tag.epoch == live_epoch;
            let back = final(audio).returned().skip(old(audio).returned().len() as int);
            &&& r.shown == (wanted && elapsed_ms >= DISPLAY_MS)
            &&& final(display).fed() == (if r.shown {
                old(display).fed().push(snapshot)
            } else {
                old(display).fed()
            })
            &&& final(audio).fed() == (if wanted && audio_enabled {
                old(audio).fed() + samples@
            } else {
                old(audio).fed()
            })
            &&& final(audio).returned() == old(audio).returned() + back
            &&& back.len() == (if wanted && audio_enabled {
                samples@.len()
            } else {
                0
            })
            &&& r.dropped == came_back(back)
        }),
{
    proof {
        let before = audio.returned();
        assert(before =~= before + before.skip(before.len() as int));
    }
    if !still_wanted(tag, live_epoch) {
        return HandedOn { dropped: 0, shown: false };
    }
    let dropped: u64 = if audio_enabled {
        push_audio(audio, samples)
    } else {
        0
    };
    let shown: bool = display_due(elapsed_ms);
    if shown {
        display.force_push(snapshot);
    }
    HandedOn { dropped, shown }
}

/// The settings that the receiver has after a block.
pub open spec fn held_after(held: SettingsView, frame: SettingsView, action: FrameUse) -> SettingsView {
    match action {
        FrameUse::Rebuild | FrameUse::Resume | FrameUse::Configure => frame,
        FrameUse::Skip | FrameUse::Keep => held,
    }
}

/// A block is always processed with the settings it was received with: where numbers
/// name the settings, and the receiver had those of the last block, it has those of
/// this one.
pub proof fn blocks_are_processed_with_their_settings(
    gate: FrameGate,
    tag: FrameTag,
    live: u64,
    held: SettingsView,
    named: spec_fn(u64) -> SettingsView,
)
    requires
        gate.ready ==> held == named(gate.previous_epoch),
        tag.epoch == live,
    ensures
        ({
            let action = gate.spec_use(tag, live);
            let next = gate.spec_next(tag, live);
            &&& held_after(held, named(tag.epoch), action) == named(tag.epoch)
            &&& next.ready
            &&& named(next.previous_epoch) == named(tag.epoch)
        }),
{
}

/// Filters run only over blocks that follow one another.
pub proof fn filters_never_bridge_a_lost_block(gate: FrameGate, tag: FrameTag, live: u64)
    requires
        gate.spec_use(tag, live) == FrameUse::Keep || gate.spec_use(tag, live)
            == FrameUse::Configure,
    ensures
        gate.ready,
        tag.sequence == gate.expected,
{
}

/// What is counted as come back are the samples that did.
pub proof fn every_returned_sample_is_counted(returned: Seq<Option<i32>>)
    ensures
        came_back(returned) == returned.filter(|x: Option<i32>| x is Some).len(),
    decreases returned.len(),
{
    reveal(Seq::filter);
    if returned.len() > 0 {
        every_returned_sample_is_counted(returned.drop_last());
    }
}

/// The last change holds: blocks are tagged with the settings that were commanded last, with
/// the gain that the device got since; both give the settings the next number, and a block
/// that is handed on the blocks. Whatever else happens leaves the tags as they are.
pub proof fn blocks_are_tagged_with_the_last_settings(
    a: Tags,
    changes: Seq<Change>,
    settings: SettingsView,
    gain: int,
)
    ensures
        ({
            let before = after(a, changes);
            let commanded = after(a, changes.push(Change::Command(settings)));
            let tuned = after(a, changes.push(Change::Gain(gain)));
            let sent = after(a, changes.push(Change::Sent));
            &&& commanded.settings == settings
            &&& commanded.epoch == before.epoch + 1
            &&& commanded.sequence == before.sequence
            &&& tuned.settings.rf_gain_db == gain
            &&& tuned.settings == (SettingsView { rf_gain_db: gain, ..before.settings })
            &&& tuned.epoch == before.epoch + 1
            &&& tuned.sequence == before.sequence
            &&& sent.settings == before.settings
            &&& sent.epoch == before.epoch
            &&& sent.sequence == before.sequence + 1
            &&& after(a, changes.push(Change::Nothing)) == before
        }),
{
    assert(changes.push(Change::Command(settings)).drop_last() =~= changes);
    assert(changes.push(Change::Gain(gain)).drop_last() =~= changes);
    assert(changes.push(Change::Sent).drop_last() =~= changes);
    assert(changes.push(Change::Nothing).drop_last() =~= changes);
}

/// The wish to end comes before all else. New settings are taken as they are, under a new
/// number, and close the device exactly where they move the centre of the band; a gain that
/// is asked for goes to the device.
pub proof fn commands_are_answered(
    before: Acquisition,
    after: Acquisition,
    stop: bool,
    command: Option<Settings>,
    task: Task,
    gain: Option<i32>,
)
    requires
        before.answers(after, stop, command, task),
    ensures
        task == Task::End <==> stop,
        task == Task::Close <==> !stop && command is Some && command->0.center_hz
            != before.settings.center_hz,
        task == Task::PollGain <==> !stop && (command is Some ==> command->0.center_hz
            == before.settings.center_hz),
        !stop && command is Some ==> after.settings@ == command->0@ && after.epoch == before.epoch
            + 1,
        stop || command is None ==> after.settings@ == before.settings@ && after.epoch
            == before.epoch,
        after.sequence == before.sequence,
        gain matches Some(g) ==> gain_task(gain) == Task::SetGain(g),
        gain is None ==> gain_task(gain) == Task::Read,
{
    assert(command is Some ==> command->0@.center_hz == command->0.center_hz);
}

/// What becomes of a block that comes after another one was processed: it is skipped where
/// its settings hold no more; else the filters run on exactly where it is the next one, with
/// the same settings or with new ones, and start anew where a block between them was lost.
/// A block that is skipped leaves no trace, and the first one makes the receiver.
pub proof fn filters_run_on_over_blocks_that_follow(
    gate: FrameGate,
    first: FrameTag,
    second: FrameTag,
    live: u64,
)
    requires
        first.sequence < u64::MAX,
    ensures
        ({
            let next = gate.spec_next(first, first.epoch);
            let action = next.spec_use(second, live);
            let follows = second.sequence == first.sequence + 1;
            &&& action == FrameUse::Skip <==> second.epoch != live
            &&& action == FrameUse::Keep <==> second.epoch == live && follows && second.epoch
                == first.epoch
            &&& action == FrameUse::Configure <==> second.epoch == live && follows && second.epoch
                != first.epoch
            &&& action == FrameUse::Resume <==> second.epoch == live && !follows
        }),
        gate.spec_use(first, live) == FrameUse::Rebuild <==> first.epoch == live && !gate.ready,
        first.epoch != live ==> gate.spec_next(first, live) == gate && gate.spec_use(first, live)
            == FrameUse::Skip,
{
}

/// How times, rates and lengths fit together: a block of bytes holds a sample for every two,
/// and gives fifty times fewer audio samples; the audio that waits lasts a tenth of a second,
/// activity is held for a quarter, and a tone is looked for five times per second; fewer
/// than 34 snapshots per second are shown, and a block is waited for during one second.
pub proof fn times_and_rates_fit_together()
    ensures
        crate::driver::usb::USB_BYTES == 2 * crate::model::BLOCK_SIZE,
        crate::model::BLOCK_SIZE == 50 * crate::dsp::mixer::BLOCK_AUDIO,
        crate::model::IQ_RATE == 50 * crate::model::AUDIO_RATE,
        crate::model::AUDIO_RATE == 10 * crate::audio::AUDIO_QUEUE,
        crate::model::AUDIO_RATE == 4 * crate::dsp::detector::ACTIVITY_HOLD,
        crate::model::AUDIO_RATE == 100 * crate::dsp::voice::FRAME,
        crate::dsp::vfo::SQUELCH_HOLD == crate::model::AUDIO_RATE / 7,
        33 * DISPLAY_MS <= 1_000 < 34 * DISPLAY_MS,
        crate::driver::usb::BLOCK_TIMEOUT_MS == 1_000,
        240 * crate::dsp::mixer::RAMP == crate::dsp::mixer::MIX_ONE,
        100 * crate::dsp::mixer::CEILING == 95 * crate::units::FULL_SCALE,
        crate::dsp::detector::SILENCE == 100_000,
        crate::dsp::detector::TONE_SHARE == 8_000,
        crate::frequency::PIXEL == 1_000,
{
}

} // verus!
