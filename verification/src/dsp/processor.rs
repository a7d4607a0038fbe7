//! From the measured channels to what is heard and shown.

use crate::dsp::detector::is_active;
use crate::dsp::mixer::{
    audible_channels_share_equally, audio_adds_up, channels_that_are_not_audible_go_quiet,
    gains_move_steadily, lone_channel_is_heard_at_its_gain, mix, only_the_sum_is_cut,
    silent_channels_are_not_heard, Mix, BLOCK_AUDIO, GAIN_BOUND,
};
use crate::dsp::selection::{
    any_solo, is_selected, may_pass, only_an_open_channel_is_selected,
    open_channel_yields_only_to_a_better_one, passes, select_vfo, selection_is_determined,
    solo_active, wanted,
};
use crate::dsp::spectrum::{
    bin, bins_hold_their_frequencies, channel_snr, contrast, counted,
    every_bin_follows_the_noise_around_it, is_peak, levels, noise_after, SpectrumAnalyzer,
};
use crate::dsp::vfo::{keeps_state, Vfo, VoiceChange};
use crate::model::{
    Mode, Settings, SettingsView, Snapshot, Spectrum, VfoConfig, VfoStatus, FFT_SIZE, MAX_VFOS,
};
use crate::units::DB;
use vstd::prelude::*;

verus! {

/// Where the filters of a channel come from when the settings change.
#[derive(Clone, Copy, Debug, PartialEq, Eq, Structural)]
pub enum Carry {
    /// The channel that was at this place goes on.
    Kept(usize),
    /// The channel that was at this place starts anew.
    Reset(usize),
    /// The channel was not there before.
    Fresh,
}

impl Carry {
    /// The place that the channel had before.
    pub open spec fn origin(self) -> Option<usize> {
        match self {
            Carry::Kept(j) => Some(j),
            Carry::Reset(j) => Some(j),
            Carry::Fresh => None,
        }
    }
}

/// Whether the channel that was at place `j` is taken over by one of the first `k`.
pub open spec fn is_taken(carries: Seq<Carry>, k: int, j: int) -> bool {
    exists|i: int| 0 <= i < k && (#[trigger] carries[i]).origin() == Some(j as usize)
}

/// Whether the channel `k` takes over the right one: the first of its identifier that
/// no channel before it took over, if there is any.
pub open spec fn takes_over(
    old: Seq<Vfo>,
    new: Seq<VfoConfig>,
    carries: Seq<Carry>,
    k: int,
) -> bool {
    match carries[k].origin() {
        Some(j) => {
            &&& j < old.len()
            &&& old[j as int].config.id == new[k].id
            &&& !is_taken(carries, k, j as int)
            &&& forall|i: int|
                0 <= i < j && (#[trigger] old[i]).config.id == new[k].id ==> is_taken(
                    carries,
                    k,
                    i,
                )
        },
        None => forall|i: int|
            0 <= i < old.len() && (#[trigger] old[i]).config.id == new[k].id ==> is_taken(
                carries,
                k,
                i,
            ),
    }
}

/// What became of a channel.
pub open spec fn carried(
    old: Seq<Vfo>,
    new: Vfo,
    config: VfoConfig,
    center_hz: int,
    carry: Carry,
) -> bool {
    match carry {
        Carry::Kept(j) => {
            &&& keeps_state(old[j as int].config, old[j as int].center_hz as int, config, center_hz)
            &&& new == (Vfo { config, ..old[j as int] })
        },
        Carry::Reset(j) => {
            &&& !keeps_state(
                old[j as int].config,
                old[j as int].center_hz as int,
                config,
                center_hz,
            )
            &&& new.is_new(config, center_hz)
        },
        Carry::Fresh => new.is_new(config, center_hz),
    }
}

/// Whether new settings start the measure of the noise anew.
pub open spec fn restarts_zero(old: SettingsView, new: SettingsView) -> bool {
    ||| old.center_hz != new.center_hz
    ||| old.rf_gain_db != new.rf_gain_db
    ||| old.noise_zero_request != new.noise_zero_request
}

/// The settings with as many channels as are received at once.
pub open spec fn admitted(settings: SettingsView) -> SettingsView {
    SettingsView {
        vfos: if settings.vfos.len() > MAX_VFOS {
            settings.vfos.take(MAX_VFOS as int)
        } else {
            settings.vfos
        },
        ..settings
    }
}

/// What the demodulator gives of a channel.
pub struct ChannelAudio {
    /// The demodulated audio.
    pub audio: Vec<i32>,
    /// The power in the channel, in millionths of a dBFS.
    pub level_dbfs: i32,
}

/// What was measured of a block.
pub struct Measurement {
    pub spectrum: Spectrum,
    pub statuses: Vec<VfoStatus>,
    /// What the voice filter of each channel is to do.
    pub voices: Vec<VoiceChange>,
}

/// The level of a channel that is not received.
pub const NO_LEVEL: i32 = -140_000_000;

/// The threshold that holds: above the noise or absolute.
pub open spec fn common_threshold(settings: SettingsView) -> int {
    if settings.adaptive_squelch {
        settings.sql_relative_db
    } else {
        settings.sql_dbfs
    }
}

/// What was measured of one channel: nothing where it lies outside the band.
pub open spec fn is_measured(
    settings: SettingsView,
    spectrum: Spectrum,
    before: Vfo,
    after: Vfo,
    channel: ChannelAudio,
    status: VfoStatus,
    voice: VoiceChange,
) -> bool {
    let config = before.config;
    let offset = config.spec_offset(settings.center_hz);
    let half = config.mode.spec_bandwidth() / 2;
    if config.spec_in_band(settings.center_hz) {
        &&& is_peak(
            spectrum.power_db@,
            spectrum.floor_db@,
            bin(offset - half),
            bin(offset + half),
            status.snr_db as int,
        )
        &&& after.squelch_hold == before.next_hold(
            channel.audio@.len() as int,
            status.snr_db as int,
            channel.level_dbfs as int,
            common_threshold(settings),
            settings.adaptive_squelch,
        )
        &&& after.activity == before.activity.spec_update(channel.audio@, after.squelch_hold > 0)
        &&& status == (VfoStatus {
            id: config.id,
            snr_db: status.snr_db,
            level_dbfs: channel.level_dbfs,
            squelch_open: after.squelch_hold > 0,
            vad: after.squelch_hold > 0 && after.activity.remaining > 0,
            tone_open: before.spec_tone_open(),
            audible: false,
            in_band: true,
        })
        &&& after == (Vfo {
            squelch_hold: after.squelch_hold,
            activity: after.activity,
            voice: after.voice,
            ..before
        })
        &&& voice == before.voice_change(
            settings.voice_denoise && status.squelch_open && status.tone_open,
        )
        &&& after.voice_follows(before, voice)
    } else {
        &&& after == before
        &&& voice == VoiceChange::Idle
        &&& status == (VfoStatus {
            id: config.id,
            snr_db: 0,
            level_dbfs: NO_LEVEL,
            squelch_open: false,
            vad: false,
            tone_open: false,
            audible: false,
            in_band: false,
        })
    }
}

/// Whether a channel is heard: all that are wanted and open, or the selected one.
pub open spec fn is_audible(
    settings: SettingsView,
    i: int,
    status: VfoStatus,
    selected: Option<u32>,
) -> bool {
    if settings.mix {
        wanted(settings.vfos[i], any_solo(settings.vfos)) && passes(status, settings.use_vad)
    } else {
        selected == Some(settings.vfos[i].id)
    }
}

/// The measurements with what is heard.
pub open spec fn marked(
    settings: SettingsView,
    statuses: Seq<VfoStatus>,
    selected: Option<u32>,
) -> Seq<VfoStatus> {
    Seq::new(
        statuses.len(),
        |i: int|
            VfoStatus {
                audible: is_audible(settings, i, statuses[i], selected),
                ..statuses[i]
            },
    )
}

/// The receiver between two blocks.
pub struct Processor {
    pub spectrum: SpectrumAnalyzer,
    pub vfos: Vec<Vfo>,
    pub settings: Settings,
    pub selected: Option<u32>,
    /// The gain of each channel, in parts of `MIX_ONE`.
    pub gains: Vec<i64>,
}

impl Processor {
    /// The channels are those of the settings, in their order.
    pub open spec fn wf(self) -> bool {
        &&& self.spectrum.wf()
        &&& self.settings@.vfos.len() <= MAX_VFOS
        &&& self.vfos@.len() == self.settings@.vfos.len()
        &&& self.gains@.len() == self.settings@.vfos.len()
        &&& forall|i: int|
            0 <= i < self.vfos@.len() ==> {
                &&& (#[trigger] self.vfos@[i]).wf()
                &&& self.vfos@[i].config == self.settings@.vfos[i]
                &&& self.vfos@[i].center_hz == self.settings@.center_hz
            }
        &&& forall|i: int|
            0 <= i < self.gains@.len() ==> -GAIN_BOUND <= #[trigger] self.gains@[i] <= GAIN_BOUND
    }

    /// A receiver with the given settings whose channels are all at rest, and nothing is
    /// heard.
    pub open spec fn is_at_rest(self, settings: SettingsView) -> bool {
        &&& self.wf()
        &&& self.settings@ == admitted(settings)
        &&& self.selected is None
        &&& forall|k: int|
            0 <= k < self.vfos@.len() ==> (#[trigger] self.vfos@[k]).is_new(
                self.settings@.vfos[k],
                settings.center_hz,
            )
        &&& forall|k: int| 0 <= k < self.gains@.len() ==> #[trigger] self.gains@[k] == 0
    }

    /// A receiver at rest that knows nothing of the noise.
    pub fn new(settings: Settings) -> (r: Self)
        ensures
            r.is_at_rest(settings@),
            r.spectrum.is_new(),
    {
        let mut r: Processor = Processor {
            spectrum: SpectrumAnalyzer::default(),
            vfos: Vec::new(),
            settings: Settings::default(),
            selected: None,
            gains: Vec::new(),
        };
        r.settings.vfos = Vec::new();
        let ghost old_vfos = r.vfos@;
        let carries: Vec<Carry> = r.configure(settings);
        proof {
            assert forall|k: int| 0 <= k < r.vfos@.len() implies (#[trigger] r.vfos@[k]).is_new(
                r.settings@.vfos[k],
                settings@.center_hz,
            ) by {
                assert(takes_over(old_vfos, r.settings@.vfos, carries@, k));
                assert(carried(
                    old_vfos,
                    r.vfos@[k],
                    r.settings@.vfos[k],
                    r.settings@.center_hz,
                    carries@[k],
                ));
            }
        }
        r
    }

    /// Whether the noise is measured on, or anew where the settings ask for it.
    pub open spec fn measures_on(self, after: Processor, settings: SettingsView) -> bool {
        if restarts_zero(self.settings@, settings) {
            after.spectrum.is_new()
        } else {
            after.spectrum == self.spectrum
        }
    }

    /// Whether the receiver takes the settings over; `carries` says of each channel where
    /// its filters come from.
    pub open spec fn configures(
        self,
        after: Processor,
        settings: SettingsView,
        carries: Seq<Carry>,
    ) -> bool {
        &&& after.wf()
        &&& after.settings@ == admitted(settings)
        &&& self.measures_on(after, settings)
        &&& after.selected == self.selected
        &&& carries.len() == after.vfos@.len()
        &&& forall|k: int|
            0 <= k < carries.len() ==> #[trigger] takes_over(
                self.vfos@,
                after.settings@.vfos,
                carries,
                k,
            )
        &&& forall|k: int|
            0 <= k < carries.len() ==> carried(
                self.vfos@,
                #[trigger] after.vfos@[k],
                after.settings@.vfos[k],
                settings.center_hz,
                carries[k],
            )
        &&& forall|k: int| 0 <= k < after.gains@.len() ==> #[trigger] after.gains@[k] == 0
    }

    /// Goes on with the given settings after blocks were lost: all channels start anew, so
    /// that no filter bridges the gap. The measure of the noise goes on, unless the
    /// settings start it anew.
    pub fn resume(&mut self, settings: Settings)
        requires
            old(self).wf(),
        ensures
            final(self).is_at_rest(settings@),
            old(self).measures_on(*final(self), settings@),
    {
        let restart: bool = self.settings.center_hz != settings.center_hz
            || self.settings.rf_gain_db != settings.rf_gain_db || self.settings.noise_zero_request
            != settings.noise_zero_request;
        let mut next: Processor = Processor::new(settings);
        if !restart {
            std::mem::swap(&mut next.spectrum, &mut self.spectrum);
        }
        *self = next;
    }

    /// The place of the first channel `id` among those that were not taken over.
    fn find_previous(previous: &Vec<Vfo>, id: u32) -> (r: Option<usize>)
        ensures
            match r {
                Some(m) => {
                    &&& m < previous@.len()
                    &&& previous@[m as int].config.id == id
                    &&& forall|i: int| 0 <= i < m ==> (#[trigger] previous@[i]).config.id != id
                },
                None => forall|i: int|
                    0 <= i < previous@.len() ==> (#[trigger] previous@[i]).config.id != id,
            },
    {
        let mut m: usize = 0;
        while m < previous.len()
            invariant
                m <= previous.len(),
                forall|i: int| 0 <= i < m ==> (#[trigger] previous@[i]).config.id != id,
            decreases previous.len() - m,
        {
            if previous[m].config.id == id {
                return Some(m);
            }
            m += 1;
        }
        None
    }

    /// Takes new settings. Channels are recognised by their identifiers; the noise is
    /// measured anew only where the band, the gain of the tuner or the request for a
    /// measure changed. Says for each channel where its filters come from.
    pub fn configure(&mut self, settings: Settings) -> (carries: Vec<Carry>)
        requires
            old(self).wf(),
        ensures
            old(self).configures(*final(self), settings@, carries@),
    {
        let mut settings: Settings = settings;
        let ghost asked = settings@;
        settings.vfos.truncate(MAX_VFOS);
        assert(settings@ =~= admitted(asked));
        if self.settings.center_hz != settings.center_hz || self.settings.rf_gain_db
            != settings.rf_gain_db || self.settings.noise_zero_request
            != settings.noise_zero_request {
            self.spectrum = SpectrumAnalyzer::default();
        }
        let ghost old_vfos = self.vfos@;
        let mut previous: Vec<Vfo> = Vec::new();
        std::mem::swap(&mut previous, &mut self.vfos);
        let mut places: Vec<usize> = Vec::with_capacity(previous.len());
        let mut p: usize = 0;
        while p < previous.len()
            invariant
                p <= previous.len(),
                places@ == Seq::new(p as nat, |m: int| m as usize),
            decreases previous.len() - p,
        {
            places.push(p);
            assert(places@ =~= Seq::new((p + 1) as nat, |m: int| m as usize));
            p += 1;
        }
        let mut vfos: Vec<Vfo> = Vec::with_capacity(settings.vfos.len());
        let mut carries: Vec<Carry> = Vec::with_capacity(settings.vfos.len());
        let mut gains: Vec<i64> = Vec::with_capacity(settings.vfos.len());
        let ghost new = settings@.vfos;
        let mut k: usize = 0;
        proof {
            assert forall|j: int| 0 <= j < old_vfos.len() implies is_free(places@, j)
                != #[trigger] is_taken(carries@, 0, j) by {
                assert(places@[j] == j);
            }
        }
        while k < settings.vfos.len()
            invariant
                k <= settings.vfos.len(),
                new == settings@.vfos,
                vfos@.len() == k,
                carries@.len() == k,
                gains@.len() == k,
                previous@.len() == places@.len(),
                old_vfos.len() <= usize::MAX,
                forall|i: int| 0 <= i < old_vfos.len() ==> (#[trigger] old_vfos[i]).wf(),
                forall|m: int|
                    0 <= m < places@.len() ==> {
                        &&& #[trigger] places@[m] < old_vfos.len()
                        &&& previous@[m] == old_vfos[places@[m] as int]
                    },
                forall|m: int, n: int|
                    0 <= m < n < places@.len() ==> #[trigger] places@[m] < #[trigger] places@[n],
                forall|j: int|
                    0 <= j < old_vfos.len() ==> is_free(places@, j) != #[trigger] is_taken(
                        carries@,
                        k as int,
                        j,
                    ),
                forall|i: int|
                    0 <= i < k ==> #[trigger] takes_over(old_vfos, new, carries@, i),
                forall|i: int|
                    0 <= i < k ==> {
                        &&& carried(
                            old_vfos,
                            #[trigger] vfos@[i],
                            new[i],
                            settings@.center_hz,
                            carries@[i],
                        )
                        &&& vfos@[i].wf()
                        &&& vfos@[i].config == new[i]
                        &&& vfos@[i].center_hz == settings@.center_hz
                    },
                forall|i: int| 0 <= i < k ==> #[trigger] gains@[i] == 0,
            decreases settings.vfos.len() - k,
        {
            let config: VfoConfig = settings.vfos[k];
            let ghost carries0 = carries@;
            let ghost places0 = places@;
            match Self::find_previous(&previous, config.id) {
                Some(m) => {
                    let mut vfo: Vfo = previous.remove(m);
                    let place: usize = places.remove(m);
                    assert(places0[m as int] == place);
                    let kept: bool = vfo.configure(config, settings.center_hz);
                    vfos.push(vfo);
                    carries.push(
                        if kept {
                            Carry::Kept(place)
                        } else {
                            Carry::Reset(place)
                        },
                    );
                    proof {
                        lemma_taken(carries0, carries@, k as int);
                        assert(is_free(places0, place as int));
                        assert forall|i: int|
                            0 <= i < place && (#[trigger] old_vfos[i]).config.id
                                == config.id implies is_taken(carries@, k as int, i) by {
                            if is_free(places0, i) {
                                let n = choose|n: int|
                                    0 <= n < places0.len() && #[trigger] places0[n] == i;
                                assert(n < m);
                            }
                            assert(is_taken(carries0, k as int, i));
                        }
                        assert(takes_over(old_vfos, new, carries@, k as int));
                        assert forall|j: int| 0 <= j < old_vfos.len() implies is_free(places@, j)
                            != #[trigger] is_taken(carries@, k + 1, j) by {
                            lemma_removed(places0, m as int, j);
                            lemma_taken_next(carries@, k as int, j);
                            assert(is_taken(carries0, k as int, j) == is_taken(carries@, k as int, j));
                        }
                    }
                },
                None => {
                    vfos.push(Vfo::new(config, settings.center_hz));
                    carries.push(Carry::Fresh);
                    proof {
                        lemma_taken(carries0, carries@, k as int);
                        assert forall|i: int|
                            0 <= i < old_vfos.len() && (#[trigger] old_vfos[i]).config.id
                                == config.id implies is_taken(carries@, k as int, i) by {
                            if is_free(places0, i) {
                                let n = choose|n: int|
                                    0 <= n < places0.len() && #[trigger] places0[n] == i;
                                assert(previous@[n].config.id == config.id);
                            }
                            assert(is_taken(carries0, k as int, i));
                        }
                        assert(takes_over(old_vfos, new, carries@, k as int));
                        assert forall|j: int| 0 <= j < old_vfos.len() implies is_free(places@, j)
                            != #[trigger] is_taken(carries@, k + 1, j) by {
                            lemma_taken_next(carries@, k as int, j);
                            assert(is_taken(carries0, k as int, j) == is_taken(carries@, k as int, j));
                        }
                    }
                },
            }
            proof {
                assert forall|i: int| 0 <= i < k + 1 implies #[trigger] takes_over(
                    old_vfos,
                    new,
                    carries@,
                    i,
                ) by {
                    if i < k {
                        assert(takes_over(old_vfos, new, carries0, i));
                        assert(carries@[i] == carries0[i]);
                        lemma_taken(carries0, carries@, i);
                    }
                }
            }
            gains.push(0);
            k += 1;
        }
        self.vfos = vfos;
        self.gains = gains;
        self.settings = settings;
        carries
    }

    /// Measures one channel.
    fn measure_vfo(
        vfo: &mut Vfo,
        settings: &Settings,
        spectrum: &Spectrum,
        channel: &ChannelAudio,
    ) -> (r: (VfoStatus, VoiceChange))
        requires
            old(vfo).wf(),
            spectrum.power_db@.len() == FFT_SIZE,
            spectrum.floor_db@.len() == FFT_SIZE,
        ensures
            final(vfo).wf(),
            is_measured(settings@, *spectrum, *old(vfo), *final(vfo), *channel, r.0, r.1),
    {
        let config: VfoConfig = vfo.config;
        if !config.in_band(settings.center_hz) {
            let status: VfoStatus = VfoStatus {
                id: config.id,
                snr_db: 0,
                level_dbfs: NO_LEVEL,
                squelch_open: false,
                vad: false,
                tone_open: false,
                audible: false,
                in_band: false,
            };
            return (status, VoiceChange::Idle);
        }
        let offset: i64 = config.offset_hz(settings.center_hz);
        let snr: i64 = channel_snr(spectrum, offset, config.mode.bandwidth());
        let threshold: i32 = if settings.adaptive_squelch {
            settings.sql_relative_db
        } else {
            settings.sql_dbfs
        };
        let status: VfoStatus = vfo.measure(
            channel.audio.as_slice(),
            snr,
            channel.level_dbfs,
            threshold,
            settings.adaptive_squelch,
        );
        let voice: VoiceChange = vfo.clean_voice(
            settings.voice_denoise && status.squelch_open && status.tone_open,
        );
        (status, voice)
    }

    /// What is measured of a block, and what the receiver keeps of it.
    pub open spec fn measures(
        self,
        after: Processor,
        power_db: Seq<i32>,
        channels: Seq<ChannelAudio>,
        m: Measurement,
    ) -> bool {
        &&& after.settings == self.settings
        &&& after.selected == self.selected
        &&& after.gains == self.gains
        &&& m.spectrum.power_db@ == power_db
        &&& m.spectrum.floor_db@ == after.spectrum.floor@
        &&& levels(after.spectrum.floor@) == noise_after(
            levels(self.spectrum.floor@),
            levels(power_db),
            self.spectrum.frames_seen as int,
            self.spectrum.initialized,
        )
        &&& after.spectrum.initialized
        &&& after.spectrum.frames_seen == counted(self.spectrum.frames_seen as int)
        &&& m.statuses@.len() == self.vfos@.len()
        &&& m.voices@.len() == self.vfos@.len()
        &&& after.vfos@.len() == self.vfos@.len()
        &&& forall|i: int|
            0 <= i < self.vfos@.len() ==> is_measured(
                self.settings@,
                m.spectrum,
                self.vfos@[i],
                after.vfos@[i],
                channels[i],
                #[trigger] m.statuses@[i],
                m.voices@[i],
            )
    }

    /// Measures a block: follows the noise with the averaged power of each bin, then
    /// decides on the squelch of each channel from its audio and its level. The tones
    /// of the block have been counted before. All decisions see the original audio,
    /// never that of the voice filter, which runs after them.
    pub fn measure(&mut self, power_db: Vec<i32>, channels: &[ChannelAudio]) -> (r: Measurement)
        requires
            old(self).wf(),
            power_db@.len() == FFT_SIZE,
            forall|i: int| 0 <= i < power_db@.len() ==> power_db@[i] <= i32::MAX - DB,
            channels@.len() == old(self).vfos@.len(),
        ensures
            final(self).wf(),
            old(self).measures(*final(self), power_db@, channels@, r),
    {
        let spectrum: Spectrum = self.spectrum.process(power_db);
        let ghost old_vfos = self.vfos@;
        let mut statuses: Vec<VfoStatus> = Vec::with_capacity(self.vfos.len());
        let mut voices: Vec<VoiceChange> = Vec::with_capacity(self.vfos.len());
        let mut rest: Vec<Vfo> = Vec::new();
        std::mem::swap(&mut rest, &mut self.vfos);
        let mut i: usize = 0;
        while i < rest.len()
            invariant
                i <= rest.len(),
                rest@.len() == old_vfos.len(),
                channels@.len() == old_vfos.len(),
                spectrum.power_db@.len() == FFT_SIZE,
                spectrum.floor_db@.len() == FFT_SIZE,
                statuses@.len() == i,
                voices@.len() == i,
                forall|j: int| 0 <= j < old_vfos.len() ==> (#[trigger] rest@[j]).wf(),
                forall|j: int| i <= j < old_vfos.len() ==> #[trigger] rest@[j] == old_vfos[j],
                forall|j: int|
                    0 <= j < i ==> is_measured(
                        self.settings@,
                        spectrum,
                        old_vfos[j],
                        rest@[j],
                        channels@[j],
                        #[trigger] statuses@[j],
                        voices@[j],
                    ),
            decreases rest.len() - i,
        {
            let (status, voice) = Self::measure_vfo(
                &mut rest[i],
                &self.settings,
                &spectrum,
                &channels[i],
            );
            statuses.push(status);
            voices.push(voice);
            i += 1;
        }
        self.vfos = rest;
        proof {
            assert forall|j: int| 0 <= j < self.vfos@.len() implies {
                &&& (#[trigger] self.vfos@[j]).wf()
                &&& self.vfos@[j].config == self.settings@.vfos[j]
                &&& self.vfos@[j].center_hz == self.settings@.center_hz
            } by {
                assert(is_measured(
                    self.settings@,
                    spectrum,
                    old_vfos[j],
                    self.vfos@[j],
                    channels@[j],
                    statuses@[j],
                    voices@[j],
                ));
            }
        }
        Measurement { spectrum, statuses, voices }
    }

    /// What is heard and shown of a block that was measured.
    pub open spec fn processes(
        self,
        after: Processor,
        spectrum: Spectrum,
        statuses: Seq<VfoStatus>,
        audio: Seq<Vec<i32>>,
        output: Seq<i32>,
        snapshot: Snapshot,
    ) -> bool {
        let mix = Mix {
            vfos: self.settings@.vfos,
            statuses: snapshot.vfos@,
            audio,
            gains: self.gains@,
            master_gain: self.settings@.master_gain,
        };
        &&& after.settings == self.settings
        &&& after.vfos == self.vfos
        &&& after.spectrum == self.spectrum
        &&& is_selected(self.settings@, statuses, self.selected, after.selected)
        &&& snapshot.vfos@ == marked(self.settings@, statuses, after.selected)
        &&& snapshot.spectrum == spectrum
        &&& snapshot.selected == after.selected
        &&& snapshot.zero_progress == self.spectrum.spec_progress()
        &&& snapshot.dsp_us == 0
        &&& snapshot.center_hz == self.settings@.center_hz
        &&& output.len() == BLOCK_AUDIO
        &&& forall|t: int| 0 <= t < BLOCK_AUDIO ==> #[trigger] output[t] == mix.heard(t)
        &&& after.gains@.len() == self.gains@.len()
        &&& forall|i: int|
            0 <= i < after.gains@.len() ==> #[trigger] after.gains@[i] == mix.gain(
                i,
                BLOCK_AUDIO as nat,
            )
    }

    /// Selects the channel to be heard, marks what is audible and mixes the block,
    /// after the voices were cleaned. Gives the audio and what is shown of the block;
    /// the caller notes how long the block took.
    pub fn process(
        &mut self,
        spectrum: Spectrum,
        statuses: Vec<VfoStatus>,
        audio: &[Vec<i32>],
    ) -> (r: (Vec<i32>, Snapshot))
        requires
            old(self).wf(),
            statuses@.len() == old(self).vfos@.len(),
            audio@.len() == old(self).vfos@.len(),
            forall|i: int|
                0 <= i < statuses@.len() && (#[trigger] statuses@[i]).in_band
                    ==> audio@[i]@.len() == BLOCK_AUDIO,
        ensures
            final(self).wf(),
            old(self).processes(*final(self), spectrum, statuses@, audio@, r.0@, r.1),
    {
        self.selected = select_vfo(&self.settings, statuses.as_slice(), self.selected);
        let solo: bool = solo_active(self.settings.vfos.as_slice());
        let ghost all = marked(self.settings@, statuses@, self.selected);
        let mut vfos: Vec<VfoStatus> = Vec::with_capacity(statuses.len());
        let mut i: usize = 0;
        while i < statuses.len()
            invariant
                i <= statuses.len(),
                statuses@.len() == self.settings@.vfos.len(),
                solo == any_solo(self.settings@.vfos),
                all == marked(self.settings@, statuses@, self.selected),
                vfos@ == all.take(i as int),
            decreases statuses.len() - i,
        {
            let config: VfoConfig = self.settings.vfos[i];
            let status: VfoStatus = statuses[i];
            let audible: bool = if self.settings.mix {
                !config.muted && (!solo || config.solo) && may_pass(
                    &status,
                    self.settings.use_vad,
                )
            } else {
                match self.selected {
                    Some(id) => id == config.id,
                    None => false,
                }
            };
            vfos.push(VfoStatus { audible, ..status });
            assert(all.take(i + 1) =~= all.take(i as int).push(all[i as int]));
            i += 1;
        }
        assert(all.take(i as int) =~= all);
        let mut gains: Vec<i64> = Vec::new();
        std::mem::swap(&mut gains, &mut self.gains);
        let output: Vec<i32> = mix(
            self.settings.vfos.as_slice(),
            vfos.as_slice(),
            audio,
            &mut gains,
            self.settings.master_gain,
        );
        self.gains = gains;
        let snapshot: Snapshot = Snapshot {
            zero_progress: self.spectrum.zero_progress(),
            spectrum,
            vfos,
            selected: self.selected,
            dsp_us: 0,
            center_hz: self.settings.center_hz,
        };
        (output, snapshot)
    }
}

/// Whether the channel that was at place `j` is still to be taken over.
spec fn is_free(places: Seq<usize>, j: int) -> bool {
    exists|m: int| 0 <= m < places.len() && #[trigger] places[m] == j
}

/// What was taken over before a place does not depend on what comes behind it.
proof fn lemma_taken(a: Seq<Carry>, b: Seq<Carry>, k: int)
    requires
        0 <= k <= a.len() <= b.len(),
        forall|i: int| 0 <= i < k ==> a[i] == b[i],
    ensures
        forall|j: int| is_taken(a, k, j) == #[trigger] is_taken(b, k, j),
        forall|j: int| #[trigger] is_taken(a, k, j) == is_taken(b, k, j),
{
    assert forall|j: int| is_taken(a, k, j) == #[trigger] is_taken(b, k, j) by {
        if is_taken(a, k, j) {
            let i = choose|i: int|
                0 <= i < k && (#[trigger] a[i]).origin() == Some(j as usize);
            assert(b[i].origin() == Some(j as usize));
        }
        if is_taken(b, k, j) {
            let i = choose|i: int|
                0 <= i < k && (#[trigger] b[i]).origin() == Some(j as usize);
            assert(a[i].origin() == Some(j as usize));
        }
    }
}

proof fn lemma_taken_next(carries: Seq<Carry>, k: int, j: int)
    requires
        0 <= k < carries.len(),
    ensures
        is_taken(carries, k + 1, j) == (is_taken(carries, k, j) || carries[k].origin() == Some(
            j as usize,
        )),
{
    if is_taken(carries, k, j) {
        let i = choose|i: int|
            0 <= i < k && (#[trigger] carries[i]).origin() == Some(j as usize);
        assert(0 <= i < k + 1);
    }
}

proof fn lemma_removed(places: Seq<usize>, m: int, j: int)
    requires
        0 <= m < places.len(),
        forall|a: int, b: int|
            0 <= a < b < places.len() ==> #[trigger] places[a] < #[trigger] places[b],
    ensures
        is_free(places.remove(m), j) == (is_free(places, j) && j != places[m]),
{
    let rest = places.remove(m);
    if is_free(rest, j) {
        let n = choose|n: int| 0 <= n < rest.len() && #[trigger] rest[n] == j;
        let o = if n < m {
            n
        } else {
            n + 1
        };
        assert(places[o] == j);
        assert(places[m] == places[m]);
    }
    if is_free(places, j) && j != places[m] {
        let o = choose|o: int| 0 <= o < places.len() && #[trigger] places[o] == j;
        let n = if o < m {
            o
        } else {
            o - 1
        };
        assert(rest[n] == j);
    }
}

/// The measure of the noise goes on whatever else is changed in the settings.
pub proof fn only_the_tuner_or_a_request_restarts_the_measure(old: SettingsView, new: SettingsView)
    requires
        new.center_hz == old.center_hz,
        new.rf_gain_db == old.rf_gain_db,
        new.noise_zero_request == old.noise_zero_request,
    ensures
        !restarts_zero(old, admitted(new)),
{
}

/// Two channels that differ at most in their voice filters.
pub open spec fn same_but_voice(a: Vfo, b: Vfo) -> bool {
    a == (Vfo { voice: a.voice, ..b })
}

/// Cleaning the voice changes no decision: whatever the settings of the voice filter
/// and its state, the same is measured of a channel, and it goes on in the same way.
pub proof fn voice_filter_changes_no_decision(
    settings: SettingsView,
    denoise: bool,
    strength: int,
    spectrum: Spectrum,
    before: (Vfo, Vfo),
    after: (Vfo, Vfo),
    channel: ChannelAudio,
    status: (VfoStatus, VfoStatus),
    voice: (VoiceChange, VoiceChange),
)
    requires
        same_but_voice(before.0, before.1),
        is_measured(settings, spectrum, before.0, after.0, channel, status.0, voice.0),
        is_measured(
            SettingsView { voice_denoise: denoise, voice_strength: strength, ..settings },
            spectrum,
            before.1,
            after.1,
            channel,
            status.1,
            voice.1,
        ),
    ensures
        status.0 == status.1,
        same_but_voice(after.0, after.1),
{
    if before.0.config.spec_in_band(settings.center_hz) {
        let offset = before.0.config.spec_offset(settings.center_hz);
        let half = before.0.config.mode.spec_bandwidth() / 2;
        crate::dsp::spectrum::lemma_peak_is_unique(
            spectrum.power_db@,
            spectrum.floor_db@,
            bin(offset - half),
            bin(offset + half),
            status.0.snr_db as int,
            status.1.snr_db as int,
        );
    }
}

/// A channel that was measured outside the band is neither heard in the mix nor, unless
/// another channel has its identifier, selected.
pub proof fn channel_outside_the_band_is_not_heard(
    settings: SettingsView,
    spectrum: Spectrum,
    before: Vfo,
    after: Vfo,
    channel: ChannelAudio,
    statuses: Seq<VfoStatus>,
    voice: VoiceChange,
    previous: Option<u32>,
    selected: Option<u32>,
    i: int,
)
    requires
        0 <= i < statuses.len(),
        settings.vfos.len() == statuses.len(),
        before.config == settings.vfos[i],
        !settings.vfos[i].spec_in_band(settings.center_hz),
        is_measured(settings, spectrum, before, after, channel, statuses[i], voice),
        forall|j: int|
            0 <= j < statuses.len() && j != i ==> (#[trigger] statuses[j]).id != statuses[i].id,
        is_selected(settings, statuses, previous, selected),
    ensures
        !marked(settings, statuses, selected)[i].audible,
        !marked(settings, statuses, selected)[i].in_band,
        selected != Some(settings.vfos[i].id),
{
}

/// Selecting leaves at most one channel audible, where identifiers differ.
pub proof fn one_channel_at_a_time(
    settings: SettingsView,
    statuses: Seq<VfoStatus>,
    selected: Option<u32>,
    i: int,
    j: int,
)
    requires
        !settings.mix,
        settings.vfos.len() == statuses.len(),
        0 <= i < j < statuses.len(),
        settings.vfos[i].id != settings.vfos[j].id,
    ensures
        !(marked(settings, statuses, selected)[i].audible && marked(
            settings,
            statuses,
            selected,
        )[j].audible),
{
}

/// A muted channel is never heard, in the mix or not, where no other channel has its
/// identifier; in the mix not even then.
pub proof fn muted_channels_are_never_heard(
    settings: SettingsView,
    statuses: Seq<VfoStatus>,
    previous: Option<u32>,
    selected: Option<u32>,
    i: int,
)
    requires
        0 <= i < statuses.len(),
        settings.vfos.len() == statuses.len(),
        settings.vfos[i].muted,
        settings.mix || forall|j: int|
            0 <= j < settings.vfos.len() && j != i ==> (#[trigger] settings.vfos[j]).id
                != settings.vfos[i].id,
        is_selected(settings, statuses, previous, selected),
    ensures
        !marked(settings, statuses, selected)[i].audible,
{
    if !settings.mix && selected is Some {
        only_an_open_channel_is_selected(settings, statuses, previous, selected->0);
    }
}

/// While a channel that is not muted is listened to alone, no other is heard, in the mix or
/// not, where no two channels have the same identifier.
pub proof fn only_solo_channels_are_heard(
    settings: SettingsView,
    statuses: Seq<VfoStatus>,
    previous: Option<u32>,
    selected: Option<u32>,
    i: int,
    m: int,
)
    requires
        0 <= i < statuses.len(),
        0 <= m < statuses.len(),
        settings.vfos.len() == statuses.len(),
        settings.vfos[m].solo,
        !settings.vfos[m].muted,
        !settings.vfos[i].solo,
        forall|j: int|
            0 <= j < settings.vfos.len() && j != i ==> (#[trigger] settings.vfos[j]).id
                != settings.vfos[i].id,
        is_selected(settings, statuses, previous, selected),
    ensures
        !marked(settings, statuses, selected)[i].audible,
{
    if !settings.mix && selected is Some {
        only_an_open_channel_is_selected(settings, statuses, previous, selected->0);
    }
}

/// In the mix a channel is heard exactly where it is not muted, is listened to alone if any
/// channel that is not muted is, and has an open squelch, its tone and, where that is asked
/// for, energy in its audio. Else the selected channel is heard. Nothing else is changed in
/// the measurements.
pub proof fn mix_is_what_is_wanted_and_open(
    settings: SettingsView,
    statuses: Seq<VfoStatus>,
    selected: Option<u32>,
    i: int,
)
    requires
        0 <= i < statuses.len(),
        settings.vfos.len() == statuses.len(),
    ensures
        marked(settings, statuses, selected).len() == statuses.len(),
        marked(settings, statuses, selected)[i] == (VfoStatus {
            audible: marked(settings, statuses, selected)[i].audible,
            ..statuses[i]
        }),
        settings.mix ==> (marked(settings, statuses, selected)[i].audible <==> {
            &&& !settings.vfos[i].muted
            &&& settings.vfos[i].solo || forall|m: int|
                0 <= m < settings.vfos.len() && (#[trigger] settings.vfos[m]).solo
                    ==> settings.vfos[m].muted
            &&& statuses[i].squelch_open
            &&& statuses[i].tone_open
            &&& settings.use_vad ==> statuses[i].vad
        }),
        !settings.mix ==> (marked(settings, statuses, selected)[i].audible <==> selected == Some(
            settings.vfos[i].id,
        )),
{
}

/// The squelch opens at the threshold that the user set: a closed channel in the band opens
/// exactly where its contrast reaches the relative threshold and its own correction, or
/// its power the absolute one where the squelch is not adaptive. An open one stays open
/// down to three decibels below, and for the rest of its hold. The tone counts where the
/// channel asks for one, and activity only while the squelch is open.
pub proof fn squelch_opens_at_the_threshold_that_was_set(
    settings: SettingsView,
    spectrum: Spectrum,
    before: Vfo,
    after: Vfo,
    channel: ChannelAudio,
    status: VfoStatus,
    voice: VoiceChange,
)
    requires
        is_measured(settings, spectrum, before, after, channel, status, voice),
        ({
            let width = match before.config.mode {
                Mode::Nfm => 25_000int,
                Mode::Wfm => 160_000int,
                Mode::Am => 10_000int,
                Mode::Lsb => 6_000int,
                Mode::Usb => 6_000int,
            };
            let offset = before.config.frequency_hz - settings.center_hz;
            -2_304_000 <= 2 * offset - width && 2 * offset + width <= 2_304_000
        }),
    ensures
        ({
            let above = if settings.adaptive_squelch {
                status.snr_db - settings.sql_relative_db - before.config.squelch_db
            } else {
                channel.level_dbfs - settings.sql_dbfs - before.config.squelch_db
            };
            &&& before.squelch_hold == 0 ==> (status.squelch_open <==> above >= 0)
            &&& before.squelch_hold > 0 ==> (status.squelch_open <==> above >= -3_000_000
                || before.squelch_hold > channel.audio@.len())
            &&& above >= 0 ==> after.squelch_hold == 6_857
            &&& above < -3_000_000 ==> after.squelch_hold <= before.squelch_hold
        }),
        status.squelch_open <==> after.squelch_hold > 0,
        status.vad <==> status.squelch_open && after.activity.remaining > 0,
        status.squelch_open && is_active(channel.audio@) ==> after.activity.remaining == 12_000,
        !(status.squelch_open && is_active(channel.audio@)) && before.activity.remaining
            >= channel.audio@.len() ==> after.activity.remaining == before.activity.remaining
            - channel.audio@.len(),
        !(status.squelch_open && is_active(channel.audio@)) && before.activity.remaining
            <= channel.audio@.len() ==> after.activity.remaining == 0,
        before.tone is None ==> status.tone_open,
        before.tone matches Some(tone) ==> status.tone_open == tone.detected,
        status.id == before.config.id,
        status.level_dbfs == channel.level_dbfs,
        status.in_band,
        !status.audible,
        after == (Vfo {
            squelch_hold: after.squelch_hold,
            activity: after.activity,
            voice: after.voice,
            ..before
        }),
{
}

/// The contrast of a channel in the band is the largest by which a bin that the channel
/// touches stands above its noise, or nothing where none does.
pub proof fn contrast_is_that_of_the_bins_of_the_channel(
    settings: SettingsView,
    spectrum: Spectrum,
    before: Vfo,
    after: Vfo,
    channel: ChannelAudio,
    status: VfoStatus,
    voice: VoiceChange,
    b: int,
)
    requires
        is_measured(settings, spectrum, before, after, channel, status, voice),
        ({
            let width = match before.config.mode {
                Mode::Nfm => 25_000int,
                Mode::Wfm => 160_000int,
                Mode::Am => 10_000int,
                Mode::Lsb => 6_000int,
                Mode::Usb => 6_000int,
            };
            let offset = before.config.frequency_hz - settings.center_hz;
            &&& -2_304_000 <= 2 * offset - width
            &&& 2 * offset + width <= 2_304_000
            &&& (2 * offset - width + 2_400_000) * 1024 < (b + 1) * 2_400_000
            &&& b * 2_400_000 <= (2 * offset + width + 2_400_000) * 1024
        }),
    ensures
        status.snr_db >= 0,
        status.snr_db >= spectrum.power_db@[b] - spectrum.floor_db@[b],
        status.snr_db > 0 ==> exists|c: int|
            {
                let width = match before.config.mode {
                    Mode::Nfm => 25_000int,
                    Mode::Wfm => 160_000int,
                    Mode::Am => 10_000int,
                    Mode::Lsb => 6_000int,
                    Mode::Usb => 6_000int,
                };
                let offset = before.config.frequency_hz - settings.center_hz;
                &&& (2 * offset - width + 2_400_000) * 1024 < (c + 1) * 2_400_000
                &&& c * 2_400_000 <= (2 * offset + width + 2_400_000) * 1024
                &&& status.snr_db == #[trigger] spectrum.power_db@[c] - spectrum.floor_db@[c]
            },
{
    let half = before.config.mode.spec_bandwidth() / 2;
    let offset = before.config.frequency_hz - settings.center_hz;
    bins_hold_their_frequencies(offset - half);
    bins_hold_their_frequencies(offset + half);
    let (power, floor) = (spectrum.power_db@, spectrum.floor_db@);
    let (lo, hi) = (bin(offset - half), bin(offset + half));
    assert(contrast(power, floor, b) <= status.snr_db);
    if status.snr_db > 0 {
        let c = choose|c: int|
            lo <= c <= hi && #[trigger] contrast(power, floor, c) == status.snr_db;
        assert(status.snr_db == power[c] - floor[c]);
    }
}

/// Nothing is measured of a channel that reaches out of the band, and it stays as it is.
pub proof fn nothing_is_measured_outside_the_band(
    settings: SettingsView,
    spectrum: Spectrum,
    before: Vfo,
    after: Vfo,
    channel: ChannelAudio,
    status: VfoStatus,
    voice: VoiceChange,
)
    requires
        is_measured(settings, spectrum, before, after, channel, status, voice),
        ({
            let width = match before.config.mode {
                Mode::Nfm => 25_000int,
                Mode::Wfm => 160_000int,
                Mode::Am => 10_000int,
                Mode::Lsb => 6_000int,
                Mode::Usb => 6_000int,
            };
            let offset = before.config.frequency_hz - settings.center_hz;
            -2_304_000 > 2 * offset - width || 2 * offset + width > 2_304_000
        }),
    ensures
        after == before,
        voice == VoiceChange::Idle,
        status.id == before.config.id,
        !status.in_band && !status.squelch_open && !status.tone_open && !status.vad
            && !status.audible,
        status.snr_db == 0,
        status.level_dbfs == -140_000_000,
{
}

/// The voice of a channel in the band is cleaned exactly while that is asked for, its
/// squelch is open and its tone is heard: from silence where it was not before, else from
/// where it was. Otherwise the filter is forgotten.
pub proof fn voice_is_cleaned_while_the_channel_is_open(
    settings: SettingsView,
    spectrum: Spectrum,
    before: Vfo,
    after: Vfo,
    channel: ChannelAudio,
    status: VfoStatus,
    voice: VoiceChange,
)
    requires
        is_measured(settings, spectrum, before, after, channel, status, voice),
        status.in_band,
    ensures
        after.voice is Some <==> settings.voice_denoise && status.squelch_open && status.tone_open,
        after.voice is Some && before.voice is Some ==> after.voice == before.voice && voice
            == VoiceChange::Kept,
        after.voice is Some && before.voice is None ==> after.voice->0@
            == crate::dsp::voice::VoiceView::start() && voice == VoiceChange::Fresh,
        after.voice is None ==> voice == VoiceChange::Off,
{
}

/// Of the channels that are set, the first eight are received, as they are set, and all
/// other settings are taken as they are.
pub proof fn first_eight_channels_are_received(settings: SettingsView, k: int)
    ensures
        admitted(settings).vfos.len() == (if settings.vfos.len() < 8 {
            settings.vfos.len()
        } else {
            8
        }),
        0 <= k < settings.vfos.len() && k < 8 ==> admitted(settings).vfos[k] == settings.vfos[k],
        admitted(settings) == (SettingsView { vfos: admitted(settings).vfos, ..settings }),
{
}

/// New settings start the measure of the noise anew exactly where the centre, the gain of
/// the tuner or the number of the request changed.
pub proof fn measure_restarts_with_the_tuner_or_a_request(
    before: Processor,
    after: Processor,
    settings: SettingsView,
    carries: Seq<Carry>,
)
    requires
        before.configures(after, settings, carries),
    ensures
        ({
            let old = before.settings@;
            let changed = old.center_hz != settings.center_hz || old.rf_gain_db
                != settings.rf_gain_db || old.noise_zero_request != settings.noise_zero_request;
            &&& changed ==> after.spectrum.frames_seen == 0 && !after.spectrum.initialized
            &&& !changed ==> after.spectrum == before.spectrum
        }),
{
}

/// A channel keeps its filters, its squelch and its tone through new settings exactly where
/// neither its frequency, its mode nor its tone changed, nor the centre of the band; else,
/// and where it was not there before, it starts from rest. No two channels have the same
/// identifier here, in the old settings or in the new ones. Gains start from nothing.
pub proof fn channels_that_stay_keep_their_state(
    before: Processor,
    after: Processor,
    settings: SettingsView,
    carries: Seq<Carry>,
    k: int,
    j: int,
)
    requires
        before.configures(after, settings, carries),
        forall|a: int, b: int|
            0 <= a < b < before.vfos@.len() ==> (#[trigger] before.vfos@[a]).config.id != (
            #[trigger] before.vfos@[b]).config.id,
        forall|a: int, b: int|
            0 <= a < b < settings.vfos.len() ==> (#[trigger] settings.vfos[a]).id != (
            #[trigger] settings.vfos[b]).id,
        0 <= k < settings.vfos.len() && k < 8,
        0 <= j < before.vfos@.len(),
    ensures
        ({
            let (old, new, config) = (before.vfos@[j], after.vfos@[k], settings.vfos[k]);
            let same = old.config.id == config.id && old.config.frequency_hz == config.frequency_hz
                && old.config.mode == config.mode && old.config.ctcss_hz == config.ctcss_hz
                && old.center_hz == settings.center_hz;
            let known = exists|m: int|
                0 <= m < before.vfos@.len() && (#[trigger] before.vfos@[m]).config.id == config.id;
            &&& new.config == config
            &&& new.center_hz == settings.center_hz
            &&& same ==> new == (Vfo { config, ..old })
            &&& old.config.id == config.id && !same || !known ==> {
                &&& new.tick == 0
                &&& new.squelch_hold == 0
                &&& new.activity.remaining == 0
                &&& new.voice is None
                &&& new.tone is Some <==> config.ctcss_hz is Some
                &&& new.tone matches Some(tone) ==> tone.count == 0 && !tone.detected
            }
            &&& after.gains@[k] == 0
        }),
{
    let new = after.settings@.vfos;
    assert(new[k] == settings.vfos[k]);
    assert(takes_over(before.vfos@, new, carries, k));
    assert(carried(before.vfos@, after.vfos@[k], new[k], settings.center_hz, carries[k]));
    if before.vfos@[j].config.id == new[k].id {
        if is_taken(carries, k, j) {
            let i = choose|i: int|
                0 <= i < k && (#[trigger] carries[i]).origin() == Some(j as usize);
            assert(takes_over(before.vfos@, new, carries, i));
            assert(new[i] == settings.vfos[i]);
            assert(before.vfos@.len() == before.vfos.len());
            assert(before.vfos@[j].config.id == new[i].id);
            assert(settings.vfos[i].id != settings.vfos[k].id);
            assert(false);
        }
        assert(carries[k].origin() is Some) by {
            assert(before.vfos@[j].config.id == new[k].id);
        }
        let o = carries[k].origin()->0 as int;
        if o != j {
            assert(before.vfos@[o].config.id == before.vfos@[j].config.id);
        }
    } else if carries[k].origin() is Some {
        let o = carries[k].origin()->0 as int;
        assert(before.vfos@[o].config.id == new[k].id);
    }
    assert(after.gains@[k] == 0);
}

/// The mix that a block is heard as.
pub open spec fn mix_of(
    before: Processor,
    audio: Seq<Vec<i32>>,
    snapshot: Snapshot,
) -> Mix {
    Mix {
        vfos: before.settings@.vfos,
        statuses: snapshot.vfos@,
        audio,
        gains: before.gains@,
        master_gain: before.settings@.master_gain,
    }
}

/// What comes out of a muted channel: it is shown as not audible, its gain only comes down
/// and is nothing after the block where it was at most full, and once it is nothing, the
/// output does not depend on the audio of the channel. Of two receptions that differ in
/// that audio alone, the same is heard.
pub proof fn muted_channels_add_nothing(
    before: Processor,
    after: (Processor, Processor),
    spectrum: Spectrum,
    statuses: Seq<VfoStatus>,
    audio: (Seq<Vec<i32>>, Seq<Vec<i32>>),
    output: (Seq<i32>, Seq<i32>),
    snapshot: (Snapshot, Snapshot),
    i: int,
)
    requires
        before.wf(),
        statuses.len() == before.vfos@.len(),
        before.processes(after.0, spectrum, statuses, audio.0, output.0, snapshot.0),
        before.processes(after.1, spectrum, statuses, audio.1, output.1, snapshot.1),
        0 <= i < statuses.len(),
        before.settings@.vfos[i].muted,
        before.settings@.mix || forall|j: int|
            0 <= j < before.settings@.vfos.len() && j != i ==> (
            #[trigger] before.settings@.vfos[j]).id != before.settings@.vfos[i].id,
        forall|j: int|
            0 <= j < statuses.len() && j != i ==> (#[trigger] audio.0[j])@ == audio.1[j]@,
    ensures
        !snapshot.0.vfos@[i].audible,
        before.gains@[i] >= 0 ==> 0 <= after.0.gains@[i] <= before.gains@[i],
        0 <= before.gains@[i] <= 840_000_000 ==> after.0.gains@[i] == 0,
        before.gains@[i] == 0 ==> output.0 == output.1,
{
    let settings = before.settings@;
    muted_channels_are_never_heard(settings, statuses, before.selected, after.0.selected, i);
    selection_is_determined(
        settings,
        statuses,
        before.selected,
        after.0.selected,
        after.1.selected,
    );
    let a = mix_of(before, audio.0, snapshot.0);
    let b = mix_of(before, audio.1, snapshot.1);
    assert(snapshot.0.vfos@ == marked(settings, statuses, after.0.selected));
    channels_that_are_not_audible_go_quiet(a, i, BLOCK_AUDIO as nat, 0);
    assert(after.0.gains@[i] == a.gain(i, BLOCK_AUDIO as nat));
    if before.gains@[i] == 0 {
        assert forall|t: int| 0 <= t < BLOCK_AUDIO implies output.0[t] == output.1[t] by {
            silent_channels_are_not_heard(a, b, i, t);
            assert(output.0[t] == a.heard(t));
            assert(output.1[t] == b.heard(t));
        }
        assert(output.0 =~= output.1);
    }
}

/// A channel that is heard alone, with its gain where it belongs, is heard as its audio
/// times its gain times the general volume, but for the rounding, and cut at 95 hundredths
/// of full scale.
pub proof fn lone_channel_is_heard_as_it_is_set(
    before: Processor,
    after: Processor,
    spectrum: Spectrum,
    statuses: Seq<VfoStatus>,
    audio: Seq<Vec<i32>>,
    output: Seq<i32>,
    snapshot: Snapshot,
    i: int,
    t: int,
)
    requires
        before.wf(),
        statuses.len() == before.vfos@.len(),
        before.processes(after, spectrum, statuses, audio, output, snapshot),
        0 <= i < statuses.len(),
        statuses[i].in_band,
        snapshot.vfos@[i].audible,
        before.gains@[i] == before.settings@.vfos[i].gain * 840,
        forall|j: int|
            0 <= j < statuses.len() && j != i ==> !(#[trigger] snapshot.vfos@[j]).audible
                && before.gains@[j] == 0,
        0 <= t < 512,
    ensures
        ({
            let exact = audio[i]@[t] * before.settings@.vfos[i].gain * before.settings@.master_gain;
            &&& output.len() == 512
            &&& -95_000_000 <= output[t] <= 95_000_000
            &&& output[t] > -95_000_000 ==> 2 * (output[t] * 1_000_000_000_000) <= 2 * exact
                + 1_000_000_000_000
            &&& output[t] < 95_000_000 ==> 2 * exact - 1_000_000_000_000 < 2 * (output[t]
                * 1_000_000_000_000)
            &&& after.gains@[i] == before.gains@[i]
        }),
{
    let mix = mix_of(before, audio, snapshot);
    let n = mix.statuses.filter(|s: VfoStatus| s.audible).len() as int;
    assert(snapshot.vfos@ == marked(before.settings@, statuses, after.selected));
    lemma_one_audible(mix.statuses, i);
    audible_channels_share_equally(mix, i);
    let own = before.settings@.vfos[i].gain * 840;
    let share = mix.target(i);
    assert(n * share == share) by (nonlinear_arith)
        requires
            n == 1,
    ;
    assert(share == own);
    gains_move_steadily(mix, i, (t + 1) as nat);
    gains_move_steadily(mix, i, BLOCK_AUDIO as nat);
    assert(mix.gain(i, (t + 1) as nat) == own);
    assert forall|j: int| 0 <= j < mix.vfos.len() && j != i implies {
        ||| !(#[trigger] mix.statuses[j]).in_band
        ||| !mix.statuses[j].audible && mix.gains[j] == 0
        ||| mix.audio[j]@[t] == 0
    } by {
        assert(!snapshot.vfos@[j].audible && before.gains@[j] == 0);
    }
    lone_channel_is_heard_at_its_gain(mix, i, t);
    assert(output[t] == mix.heard(t));
    assert(after.gains@[i] == mix.gain(i, BLOCK_AUDIO as nat));
    let (x, g, m) = (
        audio[i]@[t] as int,
        before.settings@.vfos[i].gain as int,
        before.settings@.master_gain,
    );
    assert(x * (g * 840) * m == 840 * (x * g * m)) by (nonlinear_arith);
}

/// One marked channel counts one.
proof fn lemma_one_audible(statuses: Seq<VfoStatus>, i: int)
    requires
        0 <= i < statuses.len(),
        statuses[i].audible,
        forall|j: int| 0 <= j < statuses.len() && j != i ==> !(#[trigger] statuses[j]).audible,
    ensures
        statuses.filter(|s: VfoStatus| s.audible).len() == 1,
    decreases statuses.len(),
{
    reveal(Seq::filter);
    let rest = statuses.drop_last();
    if i == statuses.len() - 1 {
        lemma_none_audible(rest);
    } else {
        assert(!statuses[statuses.len() - 1].audible);
        lemma_one_audible(rest, i);
    }
}

proof fn lemma_none_audible(statuses: Seq<VfoStatus>)
    requires
        forall|j: int| 0 <= j < statuses.len() ==> !(#[trigger] statuses[j]).audible,
    ensures
        statuses.filter(|s: VfoStatus| s.audible).len() == 0,
    decreases statuses.len(),
{
    reveal(Seq::filter);
    if statuses.len() > 0 {
        assert(!statuses[statuses.len() - 1].audible);
        lemma_none_audible(statuses.drop_last());
    }
}

/// The channels that are heard together share the gain equally: at the end of a block each
/// has its own gain over their number, where it was within full gain of that; every other
/// channel has nothing then.
pub proof fn heard_channels_share_the_gain(
    before: Processor,
    after: Processor,
    spectrum: Spectrum,
    statuses: Seq<VfoStatus>,
    audio: Seq<Vec<i32>>,
    output: Seq<i32>,
    snapshot: Snapshot,
    i: int,
)
    requires
        before.wf(),
        statuses.len() == before.vfos@.len(),
        before.processes(after, spectrum, statuses, audio, output, snapshot),
        0 <= i < statuses.len(),
        0 <= before.gains@[i] <= 840_000_000,
        0 <= before.settings@.vfos[i].gain <= 1_000_000,
    ensures
        ({
            let n = snapshot.vfos@.filter(|s: VfoStatus| s.audible).len();
            let own = before.settings@.vfos[i].gain * 840;
            &&& snapshot.vfos@[i].audible ==> n * after.gains@[i] <= own < n * after.gains@[i] + n
            &&& !snapshot.vfos@[i].audible ==> after.gains@[i] == 0
        }),
{
    let mix = mix_of(before, audio, snapshot);
    assert(snapshot.vfos@ == marked(before.settings@, statuses, after.selected));
    let n = mix.statuses.filter(|s: VfoStatus| s.audible).len() as int;
    audible_channels_share_equally(mix, i);
    let (share, own) = (mix.target(i), before.settings@.vfos[i].gain * 840);
    if mix.statuses[i].audible {
        assert(0 <= share <= own) by (nonlinear_arith)
            requires
                n >= 1,
                n * share <= own,
                own < n * share + n,
                own >= 0,
        ;
    }
    gains_move_steadily(mix, i, BLOCK_AUDIO as nat);
    assert(after.gains@[i] == mix.gain(i, BLOCK_AUDIO as nat));
}

/// What is heard is the sum of the channels: of three receptions with the same settings and
/// measurements, where the audio of the third is that of the other two added up and nothing
/// is cut, the third is heard as the other two added up, but for the rounding.
pub proof fn what_is_heard_adds_up(
    before: Processor,
    after: (Processor, Processor, Processor),
    spectrum: Spectrum,
    statuses: Seq<VfoStatus>,
    audio: (Seq<Vec<i32>>, Seq<Vec<i32>>, Seq<Vec<i32>>),
    output: (Seq<i32>, Seq<i32>, Seq<i32>),
    snapshot: (Snapshot, Snapshot, Snapshot),
    t: int,
)
    requires
        before.wf(),
        statuses.len() == before.vfos@.len(),
        before.processes(after.0, spectrum, statuses, audio.0, output.0, snapshot.0),
        before.processes(after.1, spectrum, statuses, audio.1, output.1, snapshot.1),
        before.processes(after.2, spectrum, statuses, audio.2, output.2, snapshot.2),
        0 <= t < 512,
        forall|i: int|
            0 <= i < statuses.len() && (#[trigger] statuses[i]).in_band ==> audio.2[i]@[t]
                == audio.0[i]@[t] + audio.1[i]@[t],
        -95_000_000 < output.0[t] < 95_000_000,
        -95_000_000 < output.1[t] < 95_000_000,
        -95_000_000 < output.2[t] < 95_000_000,
    ensures
        -1 <= output.2[t] - output.0[t] - output.1[t] <= 1,
{
    let settings = before.settings@;
    let previous = before.selected;
    selection_is_determined(settings, statuses, previous, after.0.selected, after.1.selected);
    selection_is_determined(settings, statuses, previous, after.0.selected, after.2.selected);
    let a = mix_of(before, audio.0, snapshot.0);
    let b = mix_of(before, audio.1, snapshot.1);
    let c = mix_of(before, audio.2, snapshot.2);
    assert(output.0[t] == a.heard(t));
    assert(output.1[t] == b.heard(t));
    assert(output.2[t] == c.heard(t));
    assert(snapshot.0.vfos@ == marked(settings, statuses, after.0.selected));
    assert forall|i: int| 0 <= i < a.vfos.len() && (#[trigger] a.statuses[i]).in_band implies
        c.audio[i]@[t] == a.audio[i]@[t] + b.audio[i]@[t] by {
        assert(statuses[i].in_band);
    }
    audio_adds_up(a, b, c, t);
}

/// A receiver that starts, or starts anew after a gap, has all its channels at rest: nothing
/// is selected, every gain is nothing, every squelch is closed, and no filter has seen a
/// sample.
pub proof fn nothing_is_left_of_an_earlier_reception(r: Processor, settings: SettingsView, k: int)
    requires
        r.is_at_rest(settings),
        0 <= k < settings.vfos.len() && k < 8,
    ensures
        r.selected is None,
        r.gains@[k] == 0,
        r.vfos@[k].config == settings.vfos[k],
        r.vfos@[k].center_hz == settings.center_hz,
        r.vfos@[k].tick == 0,
        r.vfos@[k].squelch_hold == 0,
        r.vfos@[k].activity.remaining == 0,
        r.vfos@[k].voice is None,
        r.vfos@[k].tone matches Some(tone) ==> tone.count == 0 && !tone.detected,
{
    assert(r.vfos@[k].is_new(r.settings@.vfos[k], settings.center_hz));
    assert(r.gains@[k] == 0);
}

/// Every channel in the band is heard at its gain: where the others are silent at a sample,
/// what is heard there is the sample of the channel times its gain at that sample times the
/// general volume, but for the rounding, and cut at 95 hundredths of full scale. The gain
/// moves by 3 500 000 parts of 840 000 000 with every sample, from where it was, towards the
/// share of the channel: its own gain over the number of channels that are heard, or nothing
/// where it is not heard.
pub proof fn every_channel_is_heard_at_its_gain(
    before: Processor,
    after: Processor,
    spectrum: Spectrum,
    statuses: Seq<VfoStatus>,
    audio: Seq<Vec<i32>>,
    output: Seq<i32>,
    snapshot: Snapshot,
    i: int,
    t: int,
    share: int,
    gain: int,
)
    requires
        before.wf(),
        statuses.len() == before.vfos@.len(),
        before.processes(after, spectrum, statuses, audio, output, snapshot),
        0 <= i < statuses.len(),
        statuses[i].in_band,
        0 <= t < 512,
        forall|j: int|
            0 <= j < statuses.len() && j != i && (#[trigger] statuses[j]).in_band ==> audio[j]@[t]
                == 0,
        ({
            let n = snapshot.vfos@.filter(|s: VfoStatus| s.audible).len();
            let own = before.settings@.vfos[i].gain * 840;
            if snapshot.vfos@[i].audible {
                n * share <= own < n * share + n
            } else {
                share == 0
            }
        }),
        ({
            let (from, way) = (before.gains@[i] as int, 3_500_000 * (t + 1));
            if share > from + way {
                gain == from + way
            } else if share < from - way {
                gain == from - way
            } else {
                gain == share
            }
        }),
    ensures
        ({
            let exact = audio[i]@[t] * gain * before.settings@.master_gain;
            &&& -95_000_000 <= output[t] <= 95_000_000
            &&& output[t] > -95_000_000 ==> 2 * (output[t] * 840_000_000_000_000) <= 2 * exact
                + 840_000_000_000_000
            &&& output[t] < 95_000_000 ==> 2 * exact - 840_000_000_000_000 < 2 * (output[t]
                * 840_000_000_000_000)
        }),
{
    let mix = mix_of(before, audio, snapshot);
    let n = mix.statuses.filter(|s: VfoStatus| s.audible).len() as int;
    assert(snapshot.vfos@ == marked(before.settings@, statuses, after.selected));
    audible_channels_share_equally(mix, i);
    let (own, to) = (before.settings@.vfos[i].gain * 840, mix.target(i));
    if mix.statuses[i].audible {
        assert(share == to) by (nonlinear_arith)
            requires
                n >= 1,
                n * share <= own < n * share + n,
                n * to <= own < n * to + n,
        ;
    }
    gains_move_steadily(mix, i, (t + 1) as nat);
    assert(mix.gain(i, (t + 1) as nat) == gain);
    assert forall|j: int| 0 <= j < mix.vfos.len() && j != i implies {
        ||| !(#[trigger] mix.statuses[j]).in_band
        ||| !mix.statuses[j].audible && mix.gains[j] == 0
        ||| mix.audio[j]@[t] == 0
    } by {
        assert(mix.statuses[j].in_band == statuses[j].in_band);
    }
    lone_channel_is_heard_at_its_gain(mix, i, t);
    assert(output[t] == mix.heard(t));
}

/// What is shown of a block tells what is heard: the channel that is selected, and of every
/// channel what was measured of it and whether it is heard; with the spectrum as it was
/// measured and the band that was received.
pub proof fn snapshot_tells_what_is_heard(
    before: Processor,
    after: Processor,
    spectrum: Spectrum,
    statuses: Seq<VfoStatus>,
    audio: Seq<Vec<i32>>,
    output: Seq<i32>,
    snapshot: Snapshot,
    i: int,
)
    requires
        before.wf(),
        statuses.len() == before.vfos@.len(),
        before.processes(after, spectrum, statuses, audio, output, snapshot),
        0 <= i < statuses.len(),
    ensures
        snapshot.selected == after.selected,
        snapshot.spectrum == spectrum,
        snapshot.center_hz == before.settings.center_hz,
        snapshot.vfos@.len() == statuses.len(),
        snapshot.vfos@[i] == (VfoStatus { audible: snapshot.vfos@[i].audible, ..statuses[i] }),
        !before.settings.mix ==> (snapshot.vfos@[i].audible <==> snapshot.selected == Some(
            before.settings.vfos@[i].id,
        )),
        before.settings.mix ==> (snapshot.vfos@[i].audible <==> {
            &&& !before.settings.vfos@[i].muted
            &&& before.settings.vfos@[i].solo || forall|m: int|
                0 <= m < before.settings.vfos@.len() && (#[trigger] before.settings.vfos@[m]).solo
                    ==> before.settings.vfos@[m].muted
            &&& statuses[i].squelch_open
            &&& statuses[i].tone_open
            &&& before.settings.use_vad ==> statuses[i].vad
        }),
        after.vfos == before.vfos && after.spectrum == before.spectrum && after.settings
            == before.settings,
{
    mix_is_what_is_wanted_and_open(before.settings@, statuses, after.selected, i);
}

/// Channels of the same identifier take over the earlier ones in their order: each takes one
/// that had its identifier, none is taken twice, and a channel starts from nothing only where
/// all of its identifier were taken before.
pub proof fn channels_are_taken_over_once_and_in_order(
    before: Processor,
    after: Processor,
    settings: SettingsView,
    carries: Seq<Carry>,
    k: int,
    m: int,
)
    requires
        before.configures(after, settings, carries),
        0 <= k < m < carries.len(),
    ensures
        carries[k].origin() matches Some(j) ==> {
            &&& j < before.vfos@.len()
            &&& before.vfos@[j as int].config.id == after.vfos@[k].config.id
        },
        carries[k].origin() is Some ==> carries[m].origin() != carries[k].origin(),
        after.vfos@[k].config.id == after.vfos@[m].config.id && carries[k].origin() is Some
            && carries[m].origin() is Some ==> carries[k].origin()->0 < carries[m].origin()->0,
        after.vfos@[k].config.id == after.vfos@[m].config.id && carries[k].origin() is None
            ==> carries[m].origin() is None,
        carries[k].origin() is None ==> forall|j: int|
            0 <= j < before.vfos@.len() && (#[trigger] before.vfos@[j]).config.id
                == after.vfos@[k].config.id ==> exists|i: int|
                0 <= i < k && (#[trigger] carries[i]).origin() == Some(j as usize),
{
    let new = after.settings@.vfos;
    assert(after.vfos@[k].config == new[k] && after.vfos@[m].config == new[m]);
    assert(takes_over(before.vfos@, new, carries, k));
    assert(takes_over(before.vfos@, new, carries, m));
    assert(before.vfos@.len() == before.vfos.len());
    if carries[m].origin() is Some {
        let b = carries[m].origin()->0;
        assert(!is_taken(carries, m, b as int));
        assert(carries[k].origin() != Some(b));
        if is_taken(carries, k, b as int) {
            let i = choose|i: int|
                0 <= i < k && (#[trigger] carries[i]).origin() == Some(b as int as usize);
            assert(carries[i].origin() == Some(b as int as usize));
            assert(is_taken(carries, m, b as int));
        }
        if new[k].id == new[m].id {
            assert(before.vfos@[b as int].config.id == new[k].id);
        }
    }
    if carries[k].origin() is None {
        assert forall|j: int|
            0 <= j < before.vfos@.len() && (#[trigger] before.vfos@[j]).config.id
                == new[k].id implies exists|i: int|
            0 <= i < k && (#[trigger] carries[i]).origin() == Some(j as usize) by {
            assert(is_taken(carries, k, j));
        }
    }
}

/// What is heard of a block is the sum of the channels in the band, each sample times the
/// gain of its channel at that sample, times the general volume, rounded to the nearest;
/// nothing but that sum is cut, at 95 hundredths of full scale.
pub proof fn what_is_heard_is_the_sum_of_the_channels(
    before: Processor,
    after: Processor,
    spectrum: Spectrum,
    statuses: Seq<VfoStatus>,
    audio: Seq<Vec<i32>>,
    output: Seq<i32>,
    snapshot: Snapshot,
    t: int,
)
    requires
        before.wf(),
        statuses.len() == before.vfos@.len(),
        before.processes(after, spectrum, statuses, audio, output, snapshot),
        0 <= t < 512,
    ensures
        ({
            let mix = mix_of(before, audio, snapshot);
            let exact = Seq::new(
                statuses.len(),
                |i: int|
                    (if statuses[i].in_band {
                        audio[i]@[t] as int
                    } else {
                        0
                    }) * mix.gain(i, (t + 1) as nat) * before.settings@.master_gain,
            ).fold_left(0int, |sum: int, part: int| sum + part);
            &&& -95_000_000 <= output[t] <= 95_000_000
            &&& output[t] > -95_000_000 ==> 2 * (output[t] * 840_000_000_000_000) <= 2 * exact
                + 840_000_000_000_000
            &&& output[t] < 95_000_000 ==> 2 * exact - 840_000_000_000_000 < 2 * (output[t]
                * 840_000_000_000_000)
        }),
{
    let mix = mix_of(before, audio, snapshot);
    assert(snapshot.vfos@ == marked(before.settings@, statuses, after.selected));
    only_the_sum_is_cut(mix, t);
    assert(output[t] == mix.heard(t));
    let n = statuses.len();
    let parts = Seq::new(
        n,
        |i: int|
            (if mix.statuses[i].in_band {
                mix.audio[i]@[t] as int
            } else {
                0
            }) * mix.gain(i, (t + 1) as nat) * mix.master_gain,
    );
    let same = Seq::new(
        n,
        |i: int|
            (if statuses[i].in_band {
                audio[i]@[t] as int
            } else {
                0
            }) * mix.gain(i, (t + 1) as nat) * before.settings@.master_gain,
    );
    assert(parts =~= same);
}

/// The noise that a block is measured against has just followed the block: every bin from
/// where its noise was before, towards a decibel above what stands a quarter up the 64 bins
/// on either side, by a fifth of the way during the first 188 spectra and downwards, and by
/// three two-hundredths of it upwards later, but for the rounding. From the spectrum 32 on, a
/// bin that stands out by more than six decibels leaves its noise as it is. The powers are
/// shown as they were measured, and every spectrum counts.
pub proof fn blocks_are_measured_against_the_noise_around(
    before: Processor,
    after: Processor,
    power_db: Seq<i32>,
    channels: Seq<ChannelAudio>,
    m: Measurement,
    i: int,
    q: int,
)
    requires
        before.wf(),
        before.measures(after, power_db, channels, m),
        power_db.len() == 2048,
        0 <= i < 2048,
        ({
            let from = if i >= 64 {
                i - 64
            } else {
                0
            };
            let to = if i + 65 <= 2048 {
                i + 65
            } else {
                2048
            };
            let window = power_db.map_values(|v: i32| v as int).subrange(from, to);
            &&& window.filter(|x: int| x < q).len() <= window.len() / 4
            &&& window.len() / 4 < window.filter(|x: int| x <= q).len()
        }),
    ensures
        m.spectrum.power_db@ == power_db,
        m.spectrum.floor_db@.len() == 2048,
        after.spectrum.floor@ == m.spectrum.floor_db@,
        after.spectrum.initialized,
        before.spectrum.frames_seen < u32::MAX ==> after.spectrum.frames_seen
            == before.spectrum.frames_seen + 1,
        ({
            let (old, next) = (before.spectrum.floor@[i], m.spectrum.floor_db@[i]);
            let (frames, started) = (before.spectrum.frames_seen, before.spectrum.initialized);
            let way = q + 1_000_000 - old;
            let follows = frames < 32 || power_db[i] <= q + 7_000_000;
            &&& !follows ==> next == old
            &&& follows && !started ==> next == q + 1_000_000
            &&& follows && started && (frames < 188 || way < 0) ==> -5 < 2 * (5 * (next - old) - way)
                <= 5
            &&& follows && started && frames >= 188 && way >= 0 ==> -200 < 2 * (200 * (next - old) - 3
                * way) <= 200
        }),
{
    let (floor, power) = (levels(before.spectrum.floor@), levels(power_db));
    let (frames, started) = (before.spectrum.frames_seen as int, before.spectrum.initialized);
    assert(power =~= power_db.map_values(|v: i32| v as int));
    every_bin_follows_the_noise_around_it(floor, power, frames, started, i, q);
    let next = levels(after.spectrum.floor@);
    assert(next == noise_after(floor, power, frames, started));
    assert(next.len() == after.spectrum.floor@.len());
    assert(next[i] == after.spectrum.floor@[i]);
    assert(floor[i] == before.spectrum.floor@[i]);
    assert(power[i] == power_db[i]);
}

/// What is heard next goes by what was heard before: an open channel that is wanted gives way
/// only to one of a smaller priority; among equal ones the channel that was selected stays,
/// and else the smallest identifier wins. Nothing is selected only where no such channel is.
pub proof fn selected_channel_stays_among_equals(
    before: Processor,
    after: Processor,
    spectrum: Spectrum,
    statuses: Seq<VfoStatus>,
    audio: Seq<Vec<i32>>,
    output: Seq<i32>,
    snapshot: Snapshot,
    j: int,
    k: int,
)
    requires
        before.processes(after, spectrum, statuses, audio, output, snapshot),
        0 <= j < before.settings.vfos@.len(),
        !before.settings.vfos@[j].muted,
        before.settings.vfos@[j].solo || forall|m: int|
            0 <= m < before.settings.vfos@.len() && (#[trigger] before.settings.vfos@[m]).solo
                ==> before.settings.vfos@[m].muted,
        0 <= k < statuses.len(),
        statuses[k].id == before.settings.vfos@[j].id,
        statuses[k].squelch_open,
        statuses[k].tone_open,
        before.settings.use_vad ==> statuses[k].vad,
    ensures
        after.selected is Some,
        exists|i: int|
            {
                let (a, b) = (#[trigger] before.settings.vfos@[i], before.settings.vfos@[j]);
                &&& 0 <= i < before.settings.vfos@.len()
                &&& Some(a.id) == after.selected
                &&& a.priority <= b.priority
                &&& a.priority == b.priority && before.selected == Some(b.id) ==> a.id == b.id
                &&& a.priority == b.priority && before.selected != Some(a.id) ==> a.id <= b.id
            },
{
    open_channel_yields_only_to_a_better_one(
        before.settings@,
        statuses,
        before.selected,
        after.selected,
        j,
        k,
    );
}

} // verus!
