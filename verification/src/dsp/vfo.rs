//! One channel: when its samples are decimated, and when its squelch opens.

use crate::dsp::detector::{spent, ActivityDetector, ToneDetector};
use crate::dsp::voice::VoiceDenoiser;
use crate::model::{
    Mode, VfoConfig, VfoStatus, AUDIO_DECIMATION, AUDIO_RATE, BLOCK_SIZE, CHANNEL_RATE,
};
use crate::units::DB;
use vstd::prelude::*;

verus! {

/// The filters of a channel.
#[derive(Clone, Copy, Debug, PartialEq, Eq, Structural)]
pub struct FilterPlan {
    /// The lower edge of the channel, in hertz from its centre.
    pub low_hz: i32,
    /// The upper edge of the channel, in hertz from its centre.
    pub high_hz: i32,
    /// Coefficients of the channel filter.
    pub taps: usize,
    /// The rate at which the channel is demodulated.
    pub rate: u32,
    /// The frequency deviation that gives full scale, in hertz.
    pub deviation: u32,
}

/// The filters for a mode: one sideband, or the whole channel.
pub open spec fn spec_plan(mode: Mode) -> FilterPlan {
    FilterPlan {
        low_hz: match mode {
            Mode::Usb => 200,
            Mode::Lsb => -3000i32,
            _ => (0 - mode.spec_bandwidth() / 2) as i32,
        },
        high_hz: match mode {
            Mode::Usb => 3000,
            Mode::Lsb => -200i32,
            _ => (mode.spec_bandwidth() / 2) as i32,
        },
        taps: if mode == Mode::Lsb || mode == Mode::Usb {
            513
        } else {
            129
        },
        rate: if mode == Mode::Wfm {
            CHANNEL_RATE
        } else {
            AUDIO_RATE
        },
        deviation: if mode == Mode::Wfm {
            75_000
        } else {
            5_000
        },
    }
}

/// The filters for a mode.
pub fn filter_plan(mode: Mode) -> (r: FilterPlan)
    ensures
        r == spec_plan(mode),
{
    let half: i32 = (mode.bandwidth() / 2) as i32;
    let (low_hz, high_hz): (i32, i32) = match mode {
        Mode::Usb => (200, 3000),
        Mode::Lsb => (-3000, -200),
        _ => (-half, half),
    };
    let taps: usize = match mode {
        Mode::Lsb | Mode::Usb => 513,
        _ => 129,
    };
    let wide: bool = mode == Mode::Wfm;
    FilterPlan {
        low_hz,
        high_hz,
        taps,
        rate: if wide {
            CHANNEL_RATE
        } else {
            AUDIO_RATE
        },
        deviation: if wide {
            75_000
        } else {
            5_000
        },
    }
}

/// The sidebands of the two modes are mirror images.
pub proof fn sidebands_mirror()
    ensures
        spec_plan(Mode::Lsb).low_hz == -spec_plan(Mode::Usb).high_hz,
        spec_plan(Mode::Lsb).high_hz == -spec_plan(Mode::Usb).low_hz,
        spec_plan(Mode::Lsb).high_hz < 0 < spec_plan(Mode::Usb).low_hz,
{
}

/// What is due at a sample.
#[derive(Clone, Copy, Debug, PartialEq, Eq, Structural)]
pub struct Due {
    /// The oscillator is brought back to length one.
    pub renormalize: bool,
    /// The channel filter takes a sample.
    pub channel: bool,
    /// The channel is demodulated.
    pub demodulate: bool,
    /// An audio sample is ready.
    pub emit: bool,
}

/// What is due at the sample `t`: the first decimation is by 10, the whole by 50; a
/// wide channel is demodulated between them, any other behind both.
pub open spec fn due_at(t: int, wide: bool) -> Due {
    Due {
        renormalize: t % 1024 == 0,
        channel: t % 10 == 0,
        demodulate: t % 10 == 0 && (wide || t % 50 == 0),
        emit: t % 50 == 0,
    }
}

/// Samples after which the same is due again.
pub const CYCLE: u32 = 25_600;

/// Counting the samples modulo the cycle changes nothing of what is due.
pub proof fn schedule_repeats(t: int, wide: bool)
    ensures
        due_at(t, wide) == due_at(t % (CYCLE as int), wide),
        CYCLE == BLOCK_SIZE,
        10 * CHANNEL_RATE == crate::model::IQ_RATE,
        50 * AUDIO_RATE == crate::model::IQ_RATE,
        AUDIO_DECIMATION == 50,
{
    assert(t % 25_600 % 1024 == t % 1024) by {
        vstd::arithmetic::div_mod::lemma_mod_mod(t, 1024, 25);
    }
    assert(t % 25_600 % 10 == t % 10) by {
        vstd::arithmetic::div_mod::lemma_mod_mod(t, 10, 2560);
    }
    assert(t % 25_600 % 50 == t % 50) by {
        vstd::arithmetic::div_mod::lemma_mod_mod(t, 50, 512);
    }
}

/// How many audio samples come out of the `n` samples after `t`.
pub open spec fn emitted(t: int, n: nat) -> int
    decreases n,
{
    if n == 0 {
        0
    } else {
        emitted(t, (n - 1) as nat) + (if due_at(t + n, false).emit {
            1int
        } else {
            0
        })
    }
}

proof fn lemma_emitted(t: int, n: nat)
    ensures
        emitted(t, n) == (t + n) / 50 - t / 50,
    decreases n,
{
    if n > 0 {
        lemma_emitted(t, (n - 1) as nat);
    }
}

/// A block always gives 512 audio samples, wherever it starts.
pub proof fn a_block_gives_512_audio_samples(t: int)
    ensures
        emitted(t, BLOCK_SIZE as nat) == 512,
        emitted(t, BLOCK_SIZE as nat) == BLOCK_SIZE / AUDIO_DECIMATION,
{
    lemma_emitted(t, BLOCK_SIZE as nat);
}

/// Samples for which an open squelch is held, about 140 milliseconds.
pub const SQUELCH_HOLD: usize = 6_857;

/// How far the level may fall below the threshold while the squelch is open.
pub const HYSTERESIS: i32 = 3_000_000;

/// What the squelch is held against.
pub open spec fn threshold(sql: int, correction: int, hold: int) -> int {
    sql + correction - (if hold > 0 {
        HYSTERESIS as int
    } else {
        0
    })
}

/// How long the squelch is held after a block of `n` audio samples.
pub open spec fn hold_after(hold: int, metric: int, threshold: int, n: int) -> int {
    if metric >= threshold {
        SQUELCH_HOLD as int
    } else {
        spent(hold, n)
    }
}

/// A channel between two blocks.
pub struct Vfo {
    pub config: VfoConfig,
    /// The centre of the band, in hertz.
    pub center_hz: i64,
    /// Samples since the start, modulo the cycle.
    pub tick: u32,
    /// Audio samples for which the squelch is held.
    pub squelch_hold: usize,
    pub activity: ActivityDetector,
    pub tone: Option<ToneDetector>,
    pub voice: Option<VoiceDenoiser>,
}

/// Whether the voice filter starts anew with a block.
#[derive(Clone, Copy, Debug, PartialEq, Eq, Structural)]
pub enum VoiceChange {
    /// It is left as it is: the channel is not received.
    Idle,
    /// It is forgotten.
    Off,
    /// It starts from silence.
    Fresh,
    /// It goes on.
    Kept,
}

/// Whether a channel needs no new filters: neither its place in the band, nor its
/// mode, nor its tone changed.
pub open spec fn keeps_state(old: VfoConfig, old_center: int, new: VfoConfig, center: int) -> bool {
    &&& old.mode == new.mode
    &&& old.frequency_hz == new.frequency_hz
    &&& old_center == center
    &&& old.ctcss_hz == new.ctcss_hz
}

fn same_tone(a: Option<u32>, b: Option<u32>) -> (r: bool)
    ensures
        r == (a == b),
{
    match (a, b) {
        (Some(x), Some(y)) => x == y,
        (None, None) => true,
        _ => false,
    }
}

impl Vfo {
    pub open spec fn wf(self) -> bool {
        &&& self.tick < CYCLE
        &&& self.tone is Some <==> self.config.ctcss_hz is Some
        &&& self.tone matches Some(t) ==> t.wf() && t.length == AUDIO_RATE / 5
        &&& self.voice matches Some(v) ==> v@.wf()
    }

    /// Whether the channel is at rest.
    pub open spec fn is_new(self, config: VfoConfig, center_hz: int) -> bool {
        &&& self.wf()
        &&& self.config == config
        &&& self.center_hz == center_hz
        &&& self.tick == 0
        &&& self.squelch_hold == 0
        &&& self.activity.remaining == 0
        &&& self.voice is None
        &&& self.tone matches Some(t) ==> t.count == 0 && !t.detected
    }

    /// A channel at rest.
    pub fn new(config: VfoConfig, center_hz: i64) -> (r: Self)
        ensures
            r.is_new(config, center_hz as int),
    {
        let tone: Option<ToneDetector> = if config.ctcss_hz.is_some() {
            Some(ToneDetector::new(AUDIO_RATE))
        } else {
            None
        };
        Vfo {
            config,
            center_hz,
            tick: 0,
            squelch_hold: 0,
            activity: ActivityDetector::default(),
            tone,
            voice: None,
        }
    }

    /// Takes new settings: a channel that moved, or is demodulated otherwise, starts
    /// anew; any other goes on. True where it goes on.
    pub fn configure(&mut self, config: VfoConfig, center_hz: i64) -> (kept: bool)
        requires
            old(self).wf(),
        ensures
            final(self).wf(),
            kept == keeps_state(
                old(self).config,
                old(self).center_hz as int,
                config,
                center_hz as int,
            ),
            kept ==> *final(self) == (Vfo { config, ..*old(self) }),
            !kept ==> final(self).is_new(config, center_hz as int),
    {
        if self.config.mode != config.mode || self.config.frequency_hz != config.frequency_hz
            || self.center_hz != center_hz || !same_tone(self.config.ctcss_hz, config.ctcss_hz) {
            *self = Vfo::new(config, center_hz);
            false
        } else {
            self.config = config;
            true
        }
    }

    /// Counts a sample and says what is due at it.
    pub fn advance(&mut self) -> (due: Due)
        requires
            old(self).wf(),
        ensures
            final(self).wf(),
            *final(self) == (Vfo { tick: final(self).tick, ..*old(self) }),
            final(self).tick == (old(self).tick + 1) % (CYCLE as int),
            due == due_at(old(self).tick + 1, old(self).config.mode == Mode::Wfm),
    {
        let t: u32 = self.tick + 1;
        self.tick = if t == CYCLE {
            0
        } else {
            t
        };
        let wide: bool = self.config.mode == Mode::Wfm;
        Due {
            renormalize: t % 1024 == 0,
            channel: t % 10 == 0,
            demodulate: t % 10 == 0 && (wide || t % 50 == 0),
            emit: t % 50 == 0,
        }
    }

    /// Counts an audio sample for the tone; true where it ends a window that is then
    /// to be measured.
    pub fn tone_sample(&mut self) -> (end: bool)
        requires
            old(self).wf(),
        ensures
            final(self).wf(),
            *final(self) == (Vfo { tone: final(self).tone, ..*old(self) }),
            old(self).tone is None ==> !end && final(self).tone is None,
            old(self).tone matches Some(t) ==> {
                &&& final(self).tone matches Some(u)
                &&& end == (t.count + 1 == t.length)
                &&& u.count == (if end {
                    0
                } else {
                    t.count + 1
                })
                &&& u.detected == t.detected
            },
    {
        match self.tone {
            Some(t) => {
                let mut u: ToneDetector = t;
                let end: bool = u.push();
                self.tone = Some(u);
                end
            },
            None => false,
        }
    }

    /// Notes what a window held of the tone.
    pub fn tone_window(&mut self, mean_energy: u64, share: u64)
        requires
            old(self).wf(),
        ensures
            final(self).wf(),
            *final(self) == (Vfo { tone: final(self).tone, ..*old(self) }),
            old(self).tone matches Some(t) ==> {
                &&& final(self).tone matches Some(u)
                &&& u.count == t.count
                &&& u.detected == (mean_energy > crate::dsp::detector::SILENCE && share
                    > crate::dsp::detector::TONE_SHARE)
            },
    {
        if let Some(t) = self.tone {
            let mut u: ToneDetector = t;
            u.conclude(mean_energy, share);
            self.tone = Some(u);
        }
    }

    /// Whether the tone, where one is asked for, is heard.
    pub open spec fn spec_tone_open(self) -> bool {
        match self.tone {
            Some(t) => t.detected,
            None => true,
        }
    }

    /// What is compared with the threshold: the contrast with the local noise, or the
    /// power in the channel, never both.
    pub open spec fn metric(snr_db: int, level_dbfs: int, adaptive: bool) -> int {
        if adaptive {
            snr_db
        } else {
            level_dbfs
        }
    }

    /// How long the squelch is held after a block.
    pub open spec fn next_hold(
        self,
        n: int,
        snr_db: int,
        level_dbfs: int,
        sql: int,
        adaptive: bool,
    ) -> int {
        hold_after(
            self.squelch_hold as int,
            Vfo::metric(snr_db, level_dbfs, adaptive),
            threshold(sql, self.config.squelch_db as int, self.squelch_hold as int),
            n,
        )
    }

    /// Decides on the squelch after a block of audio.
    pub fn measure(
        &mut self,
        audio: &[i32],
        snr_db: i64,
        level_dbfs: i32,
        sql_threshold_db: i32,
        adaptive_squelch: bool,
    ) -> (status: VfoStatus)
        requires
            old(self).wf(),
        ensures
            final(self).wf(),
            *final(self) == (Vfo {
                squelch_hold: final(self).squelch_hold,
                activity: final(self).activity,
                ..*old(self)
            }),
            final(self).squelch_hold == old(self).next_hold(
                audio@.len() as int,
                snr_db as int,
                level_dbfs as int,
                sql_threshold_db as int,
                adaptive_squelch,
            ),
            final(self).activity == old(self).activity.spec_update(
                audio@,
                final(self).squelch_hold > 0,
            ),
            status == (VfoStatus {
                id: old(self).config.id,
                snr_db,
                level_dbfs,
                squelch_open: final(self).squelch_hold > 0,
                vad: final(self).squelch_hold > 0 && final(self).activity.remaining > 0,
                tone_open: old(self).spec_tone_open(),
                audible: false,
                in_band: true,
            }),
    {
        let margin: i64 = if self.squelch_hold > 0 {
            HYSTERESIS as i64
        } else {
            0
        };
        let limit: i64 = sql_threshold_db as i64 + self.config.squelch_db as i64 - margin;
        let metric: i64 = if adaptive_squelch {
            snr_db
        } else {
            level_dbfs as i64
        };
        if metric >= limit {
            self.squelch_hold = SQUELCH_HOLD;
        } else {
            self.squelch_hold = self.squelch_hold.saturating_sub(audio.len());
        }
        let squelch_open: bool = self.squelch_hold > 0;
        let vad: bool = self.activity.update(audio, squelch_open);
        let tone_open: bool = match self.tone {
            Some(t) => t.detected,
            None => true,
        };
        VfoStatus {
            id: self.config.id,
            snr_db,
            level_dbfs,
            squelch_open,
            vad,
            tone_open,
            audible: false,
            in_band: true,
        }
    }

    /// What the voice filter is to do.
    pub open spec fn voice_change(self, enabled: bool) -> VoiceChange {
        if !enabled {
            VoiceChange::Off
        } else if self.voice is Some {
            VoiceChange::Kept
        } else {
            VoiceChange::Fresh
        }
    }

    /// Whether the voice filter is as the change leaves it.
    pub open spec fn voice_follows(self, before: Vfo, change: VoiceChange) -> bool {
        match change {
            VoiceChange::Idle => self.voice == before.voice,
            VoiceChange::Off => self.voice is None,
            VoiceChange::Fresh => self.voice is Some && self.voice->0@
                == crate::dsp::voice::VoiceView::start(),
            VoiceChange::Kept => self.voice is Some && self.voice == before.voice,
        }
    }

    /// Prepares the voice filter for a block. One that is not wanted is forgotten, so
    /// that the rest of an earlier transmission is never heard.
    pub fn clean_voice(&mut self, enabled: bool) -> (change: VoiceChange)
        requires
            old(self).wf(),
        ensures
            final(self).wf(),
            *final(self) == (Vfo { voice: final(self).voice, ..*old(self) }),
            change == old(self).voice_change(enabled),
            final(self).voice_follows(*old(self), change),
    {
        if !enabled {
            self.voice = None;
            VoiceChange::Off
        } else if self.voice.is_some() {
            VoiceChange::Kept
        } else {
            self.voice = Some(VoiceDenoiser::default());
            VoiceChange::Fresh
        }
    }
}

/// The sample after `n` more, modulo the cycle.
pub open spec fn tick_after(tick: int, n: nat) -> int {
    (tick + n) % (CYCLE as int)
}

/// What is due at each of the next `n` samples.
pub open spec fn dues(tick: int, n: nat, wide: bool) -> Seq<Due> {
    Seq::new(n, |k: int| due_at(tick_after(tick, k as nat) + 1, wide))
}

/// How many of the samples give an audio sample.
pub open spec fn emissions(dues: Seq<Due>) -> nat
    decreases dues.len(),
{
    if dues.len() == 0 {
        0
    } else {
        emissions(dues.drop_last()) + (if dues.last().emit {
            1nat
        } else {
            0
        })
    }
}

/// Whether `steps` are the states of a channel while it counts samples, and `given` is
/// what was due at each.
pub open spec fn counts(steps: Seq<Vfo>, given: Seq<Due>, wide: bool) -> bool {
    &&& steps.len() == given.len() + 1
    &&& forall|k: int|
        0 <= k < given.len() ==> (#[trigger] steps[k]).wf() && (steps[k].config.mode == Mode::Wfm)
            == wide
    &&& forall|k: int|
        0 <= k < given.len() ==> (#[trigger] given[k]) == due_at(steps[k].tick + 1, wide)
            && steps[k + 1].tick == (steps[k].tick + 1) % (CYCLE as int)
}

proof fn lemma_counted(steps: Seq<Vfo>, given: Seq<Due>, wide: bool, k: int)
    requires
        counts(steps, given, wide),
        0 <= k <= given.len(),
        steps[0].tick < CYCLE,
    ensures
        steps[k].tick == tick_after(steps[0].tick as int, k as nat),
    decreases k,
{
    if k > 0 {
        lemma_counted(steps, given, wide, k - 1);
        assert(given[k - 1] == due_at(steps[k - 1].tick + 1, wide));
        let t = steps[0].tick + (k - 1);
        assert((t % 25_600 + 1) % 25_600 == (t + 1) % 25_600);
    }
}

/// The `n` calls of `advance` since a channel counted its last sample give what is due at
/// these samples, whatever came before and in whatever slices they are made.
pub proof fn samples_are_due_in_order(steps: Seq<Vfo>, given: Seq<Due>, wide: bool)
    requires
        counts(steps, given, wide),
        steps[0].tick < CYCLE,
    ensures
        given == dues(steps[0].tick as int, given.len(), wide),
        steps.last().tick == tick_after(steps[0].tick as int, given.len()),
{
    assert forall|k: int| 0 <= k < given.len() implies given[k] == dues(
        steps[0].tick as int,
        given.len(),
        wide,
    )[k] by {
        lemma_counted(steps, given, wide, k);
        assert(given[k] == due_at(steps[k].tick + 1, wide));
    }
    assert(given =~= dues(steps[0].tick as int, given.len(), wide));
    lemma_counted(steps, given, wide, given.len() as int);
}

/// Cutting the samples into slices changes nothing: what is due in a slice and then in
/// the next is what is due in both at once.
pub proof fn slices_do_not_matter(tick: int, a: nat, b: nat, wide: bool)
    ensures
        dues(tick, a + b, wide) == dues(tick, a, wide) + dues(tick_after(tick, a), b, wide),
        tick_after(tick, a + b) == tick_after(tick_after(tick, a), b),
{
    let cut = dues(tick, a, wide) + dues(tick_after(tick, a), b, wide);
    assert forall|k: int| 0 <= k < a + b implies dues(tick, a + b, wide)[k] == cut[k] by {
        if k >= a {
            lemma_ticks_add(tick, a, (k - a) as nat);
            assert(cut[k] == dues(tick_after(tick, a), b, wide)[k - a]);
        }
    }
    assert(dues(tick, a + b, wide) =~= cut);
    lemma_ticks_add(tick, a, b);
}

proof fn lemma_ticks_add(tick: int, a: nat, b: nat)
    ensures
        tick_after(tick, a + b) == tick_after(tick_after(tick, a), b),
{
    let t = tick + a;
    assert((t % 25_600 + b) % 25_600 == (t + b) % 25_600) by {
        vstd::arithmetic::div_mod::lemma_add_mod_noop_right(b as int, t, 25_600);
    }
}

/// The sample after `k` others, counted from rest, gives audio where it is a fiftieth.
proof fn lemma_fiftieth(k: nat, wide: bool)
    ensures
        due_at(tick_after(0, k) + 1, wide).emit <==> (k + 1) % 50 == 0,
{
    let t = k as int % 25_600;
    assert(t % 50 == k as int % 50) by {
        vstd::arithmetic::div_mod::lemma_mod_mod(k as int, 50, 512);
    }
    assert((t + 1) % 50 == (k as int + 1) % 50);
}

proof fn lemma_emissions(n: nat, wide: bool)
    ensures
        emissions(dues(0, n, wide)) == n / 50,
    decreases n,
{
    if n > 0 {
        let m = (n - 1) as nat;
        lemma_emissions(m, wide);
        assert(dues(0, n, wide).drop_last() =~= dues(0, m, wide));
        assert(dues(0, n, wide).last() == due_at(tick_after(0, m) + 1, wide));
        lemma_fiftieth(m, wide);
        assert(n / 50 == m / 50 + (if n % 50 == 0 {
            1int
        } else {
            0
        }));
    }
}

/// A channel that counted `n` samples since it was at rest has given an audio sample for
/// every fifty of them, however long it ran.
pub proof fn every_fiftieth_sample_is_heard(steps: Seq<Vfo>, given: Seq<Due>, wide: bool)
    requires
        counts(steps, given, wide),
        steps[0].tick == 0,
    ensures
        emissions(given) == given.len() / 50,
        forall|k: int|
            0 <= k < given.len() ==> ((#[trigger] given[k]).emit <==> (k + 1) % 50 == 0),
{
    samples_are_due_in_order(steps, given, wide);
    assert(given == dues(0, given.len(), wide));
    lemma_emissions(given.len(), wide);
    assert forall|k: int| 0 <= k < given.len() implies ((#[trigger] given[k]).emit <==> (k + 1) % 50
        == 0) by {
        lemma_fiftieth(k as nat, wide);
        assert(dues(0, given.len(), wide)[k] == due_at(tick_after(0, k as nat) + 1, wide));
    }
}

/// Once open, the squelch stays open while the level is at most three decibels below
/// the threshold.
pub proof fn open_squelch_tolerates_three_decibels(
    hold: int,
    metric: int,
    sql: int,
    correction: int,
    n: int,
)
    requires
        hold > 0,
        metric >= sql + correction - 3 * DB,
    ensures
        hold_after(hold, metric, threshold(sql, correction, hold), n) == SQUELCH_HOLD,
{
}

/// A closed squelch opens only at the threshold.
pub proof fn closed_squelch_opens_at_the_threshold(metric: int, sql: int, correction: int, n: int)
    requires
        n >= 0,
    ensures
        hold_after(0, metric, threshold(sql, correction, 0), n) > 0 <==> metric >= sql + correction,
{
}

/// What is left of a hold after some blocks below the threshold.
pub open spec fn held(hold: int, blocks: nat) -> int
    decreases blocks,
{
    if blocks == 0 {
        hold
    } else {
        spent(held(hold, (blocks - 1) as nat), (BLOCK_SIZE / AUDIO_DECIMATION) as int)
    }
}

proof fn lemma_held(hold: int, blocks: nat)
    requires
        hold >= 0,
    ensures
        held(hold, blocks) == if hold > 512 * blocks {
            hold - 512 * blocks
        } else {
            0
        },
    decreases blocks,
{
    if blocks > 0 {
        lemma_held(hold, (blocks - 1) as nat);
    }
}

/// A squelch is held for thirteen blocks below the threshold, about 140 milliseconds,
/// and closed after fourteen.
pub proof fn squelch_closes_after_its_hold()
    ensures
        held(SQUELCH_HOLD as int, 13) > 0,
        held(SQUELCH_HOLD as int, 14) == 0,
{
    lemma_held(SQUELCH_HOLD as int, 13);
    lemma_held(SQUELCH_HOLD as int, 14);
}

/// The relative squelch depends on the contrast alone, the absolute one on the power
/// alone.
pub proof fn squelch_has_one_reference(
    vfo: Vfo,
    n: int,
    snr: int,
    level: int,
    other: int,
    sql: int,
)
    ensures
        vfo.next_hold(n, snr, level, sql, true) == vfo.next_hold(n, snr, other, sql, true),
        vfo.next_hold(n, snr, level, sql, false) == vfo.next_hold(n, other, level, sql, false),
{
}

/// What is due at each sample since a channel was at rest: every tenth sample the channel
/// filter takes one, every fiftieth gives an audio sample, and the channel is demodulated
/// at every tenth where it is wide, else at every fiftieth. The oscillator is brought back
/// to length one every 1024 samples.
pub proof fn samples_are_decimated_by_ten_and_by_five(
    steps: Seq<Vfo>,
    given: Seq<Due>,
    wide: bool,
    k: int,
)
    requires
        counts(steps, given, wide),
        steps[0].tick == 0,
        0 <= k < given.len(),
    ensures
        given[k].channel <==> (k + 1) % 10 == 0,
        given[k].emit <==> (k + 1) % 50 == 0,
        given[k].demodulate <==> (if wide {
            (k + 1) % 10 == 0
        } else {
            (k + 1) % 50 == 0
        }),
        given[k].renormalize <==> (k + 1) % 1024 == 0,
{
    samples_are_due_in_order(steps, given, wide);
    assert(given[k] == due_at(tick_after(0, k as nat) + 1, wide));
    lemma_next_remainder(k, 10, 2560);
    lemma_next_remainder(k, 50, 512);
    lemma_next_remainder(k, 1024, 25);
    if (k + 1) % 50 == 0 {
        assert((k + 1) % 10 == 0);
    }
}

/// Taking the remainder of a multiple first changes nothing of the next remainder.
proof fn lemma_next_remainder(k: int, a: int, b: int)
    requires
        a > 0,
        b > 0,
    ensures
        (k % (a * b) + 1) % a == (k + 1) % a,
{
    vstd::arithmetic::div_mod::lemma_mod_mod(k, a, b);
    vstd::arithmetic::div_mod::lemma_add_mod_noop_right(1, k, a);
    vstd::arithmetic::div_mod::lemma_add_mod_noop_right(1, k % (a * b), a);
}

/// A filter passes the whole channel on both sides of its centre, as wide as the mode says;
/// in a sideband it passes 2800 hertz of voice, 200 hertz from the centre, on its side. Wide
/// channels are demodulated before the last decimation.
pub proof fn filters_pass_the_channel(mode: Mode)
    ensures
        ({
            let plan = spec_plan(mode);
            let width = plan.high_hz - plan.low_hz;
            &&& mode == Mode::Nfm ==> width == 25_000
            &&& mode == Mode::Wfm ==> width == 160_000
            &&& mode == Mode::Am ==> width == 10_000
            &&& mode == Mode::Lsb || mode == Mode::Usb ==> width == 2_800 && plan.taps == 513
            &&& mode != Mode::Lsb && mode != Mode::Usb ==> plan.low_hz == -plan.high_hz && plan.taps
                == 129
            &&& mode == Mode::Usb ==> plan.low_hz == 200
            &&& mode == Mode::Lsb ==> plan.high_hz == -200
            &&& mode == Mode::Wfm ==> plan.rate == 240_000 && plan.deviation == 75_000
            &&& mode != Mode::Wfm ==> plan.rate == 48_000 && plan.deviation == 5_000
        }),
{
}

/// The squelch follows its reference alone: the contrast where it is relative, else the
/// power. A closed one opens at the threshold of the channel, an open one stays open down
/// to three decibels below it; what opens it holds it for 6857 audio samples, which are
/// spent while the level is lower.
pub proof fn squelch_opens_at_its_threshold_and_is_held(
    vfo: Vfo,
    n: int,
    snr: int,
    level: int,
    sql: int,
    adaptive: bool,
)
    requires
        n >= 0,
    ensures
        ({
            let after = vfo.next_hold(n, snr, level, sql, adaptive);
            let above = (if adaptive {
                snr
            } else {
                level
            }) - sql - vfo.config.squelch_db;
            let reached = above >= 0 || vfo.squelch_hold > 0 && above >= -3_000_000;
            &&& reached ==> after == 6_857
            &&& !reached && vfo.squelch_hold >= n ==> after == vfo.squelch_hold - n
            &&& !reached && vfo.squelch_hold <= n ==> after == 0
        }),
{
}

} // verus!
