//! Channels, settings and measurements.

use vstd::prelude::*;

verus! {

/// I/Q samples per second.
pub const IQ_RATE: u32 = 2_400_000;

/// Samples per second behind the first decimation.
pub const CHANNEL_RATE: u32 = 240_000;

/// Audio samples per second.
pub const AUDIO_RATE: u32 = 48_000;

/// I/Q samples per block.
pub const BLOCK_SIZE: usize = 25_600;

/// I/Q samples per audio sample.
pub const AUDIO_DECIMATION: usize = 50;

/// Bins of the spectrum.
pub const FFT_SIZE: usize = 2048;

/// International marine VHF channel 16, in hertz.
pub const CENTER_HZ: i64 = 156_800_000;

/// Channels that are received at once.
pub const MAX_VFOS: usize = 8;

/// The lowest frequency that the hardware receives, in hertz.
pub const MIN_RF_HZ: i64 = 500_000;

/// The highest frequency that the hardware receives, in hertz.
pub const MAX_RF_HZ: i64 = 1_766_000_000;

/// How a channel is demodulated.
#[derive(Clone, Copy, Debug, PartialEq, Eq, Structural)]
pub enum Mode {
    Nfm,
    Wfm,
    Am,
    Lsb,
    Usb,
}

impl Mode {
    pub const ALL: [Self; 5] = [Self::Nfm, Self::Wfm, Self::Am, Self::Lsb, Self::Usb];

    pub open spec fn spec_label(self) -> Seq<char> {
        match self {
            Self::Nfm => "NFM"@,
            Self::Wfm => "WFM mono"@,
            Self::Am => "AM"@,
            Self::Lsb => "LSB"@,
            Self::Usb => "USB"@,
        }
    }

    pub open spec fn spec_bandwidth(self) -> u32 {
        match self {
            Self::Nfm => 25_000,
            Self::Wfm => 160_000,
            Self::Am => 10_000,
            Self::Lsb | Self::Usb => 6_000,
        }
    }

    /// The name of the mode.
    pub fn label(self) -> (r: &'static str)
        ensures
            r@ == self.spec_label(),
    {
        match self {
            Self::Nfm => "NFM",
            Self::Wfm => "WFM mono",
            Self::Am => "AM",
            Self::Lsb => "LSB",
            Self::Usb => "USB",
        }
    }

    /// The width of the channel, in hertz.
    #[verifier::when_used_as_spec(spec_bandwidth)]
    pub fn bandwidth(self) -> (r: u32)
        ensures
            r == self.spec_bandwidth(),
    {
        match self {
            Self::Nfm => 25_000,
            Self::Wfm => 160_000,
            Self::Am => 10_000,
            Self::Lsb | Self::Usb => 6_000,
        }
    }
}

/// A channel as the user set it.
#[derive(Clone, Copy, Debug)]
pub struct VfoConfig {
    pub id: u32,
    /// The frequency, in hertz.
    pub frequency_hz: i64,
    pub mode: Mode,
    /// What the channel adds to the common squelch threshold, in millionths of a
    /// decibel.
    pub squelch_db: i32,
    /// The audio gain, in millionths.
    pub gain: i32,
    pub muted: bool,
    pub solo: bool,
    /// Small values win; the identifier decides between equal ones.
    pub priority: u8,
    /// The sub-audible tone that opens the channel, in thousandths of a hertz.
    pub ctcss_hz: Option<u32>,
}

/// How far from the centre of the band a channel may reach, in hertz: a margin of
/// two per cent is kept on either side, where the filters of the tuner attenuate.
pub const REACH_HZ: i64 = 1_152_000;

impl VfoConfig {
    /// The channel `id`, `offset` hertz from the marine calling channel.
    pub open spec fn spec_new(id: u32, offset: int, mode: Mode) -> VfoConfig {
        VfoConfig {
            id,
            frequency_hz: (CENTER_HZ + offset) as i64,
            mode,
            squelch_db: 0,
            gain: 500_000,
            muted: false,
            solo: false,
            priority: if id < 255 {
                id as u8
            } else {
                255
            },
            ctcss_hz: None,
        }
    }

    /// How far the channel lies above the centre of the band.
    pub open spec fn spec_offset(self, center_hz: int) -> int {
        self.frequency_hz - center_hz
    }

    /// Whether the whole channel lies in the received band.
    pub open spec fn spec_in_band(self, center_hz: int) -> bool {
        let offset = self.spec_offset(center_hz);
        let distance = if offset < 0 {
            -offset
        } else {
            offset
        };
        distance + self.mode.spec_bandwidth() / 2 <= REACH_HZ
    }

    /// The channel `id`, `offset_hz` hertz from the marine calling channel.
    pub fn new(id: u32, offset_hz: i32, mode: Mode) -> (r: Self)
        ensures
            r == Self::spec_new(id, offset_hz as int, mode),
            r.frequency_hz == CENTER_HZ + offset_hz,
    {
        Self {
            id,
            frequency_hz: CENTER_HZ + offset_hz as i64,
            mode,
            squelch_db: 0,
            gain: 500_000,
            muted: false,
            solo: false,
            priority: if id < 255 {
                id as u8
            } else {
                255
            },
            ctcss_hz: None,
        }
    }

    /// How far the channel lies above the centre of the band, in hertz.
    pub fn offset_hz(&self, center_hz: i64) -> (r: i64)
        requires
            i64::MIN <= self.spec_offset(center_hz as int) <= i64::MAX,
        ensures
            r == self.spec_offset(center_hz as int),
    {
        self.frequency_hz - center_hz
    }

    /// Whether the whole channel lies in the received band.
    pub fn in_band(&self, center_hz: i64) -> (r: bool)
        ensures
            r == self.spec_in_band(center_hz as int),
    {
        let offset: i128 = self.frequency_hz as i128 - center_hz as i128;
        let distance: i128 = if offset < 0 {
            -offset
        } else {
            offset
        };
        distance + (self.mode.bandwidth() / 2) as i128 <= REACH_HZ as i128
    }
}

/// What the user set.
#[derive(Debug)]
pub struct Settings {
    pub vfos: Vec<VfoConfig>,
    /// Whether all open channels are heard together.
    pub mix: bool,
    /// Whether a channel is heard only where its audio carries energy.
    pub use_vad: bool,
    /// The general volume, in millionths.
    pub master_gain: i32,
    /// The common absolute threshold on the power in the channel, in millionths of
    /// a dBFS.
    pub sql_dbfs: i32,
    /// The common threshold above the local noise, in millionths of a decibel.
    pub sql_relative_db: i32,
    pub adaptive_squelch: bool,
    /// A new value starts the measure of the noise anew.
    pub noise_zero_request: u64,
    pub voice_denoise: bool,
    /// How much of the cleaned voice is heard, in millionths.
    pub voice_strength: i32,
    /// The gain of the tuner, in tenths of a decibel.
    pub rf_gain_db: i32,
    /// The centre of the received band, in hertz.
    pub center_hz: i64,
}

/// The settings as a mathematical value.
#[verifier::ext_equal]
pub struct SettingsView {
    pub vfos: Seq<VfoConfig>,
    pub mix: bool,
    pub use_vad: bool,
    pub master_gain: int,
    pub sql_dbfs: int,
    pub sql_relative_db: int,
    pub adaptive_squelch: bool,
    pub noise_zero_request: int,
    pub voice_denoise: bool,
    pub voice_strength: int,
    pub rf_gain_db: int,
    pub center_hz: int,
}

impl View for Settings {
    type V = SettingsView;

    open spec fn view(&self) -> SettingsView {
        SettingsView {
            vfos: self.vfos@,
            mix: self.mix,
            use_vad: self.use_vad,
            master_gain: self.master_gain as int,
            sql_dbfs: self.sql_dbfs as int,
            sql_relative_db: self.sql_relative_db as int,
            adaptive_squelch: self.adaptive_squelch,
            noise_zero_request: self.noise_zero_request as int,
            voice_denoise: self.voice_denoise,
            voice_strength: self.voice_strength as int,
            rf_gain_db: self.rf_gain_db as int,
            center_hz: self.center_hz as int,
        }
    }
}

/// The place of the first channel `id`; the number of channels where there is none.
pub open spec fn vfo_index(vfos: Seq<VfoConfig>, id: u32) -> int
    decreases vfos.len(),
{
    if vfos.len() == 0 || vfos[0].id == id {
        0
    } else {
        1 + vfo_index(vfos.skip(1), id)
    }
}

pub proof fn lemma_vfo_index(vfos: Seq<VfoConfig>, id: u32, i: int)
    requires
        0 <= i <= vfos.len(),
        forall|j: int| 0 <= j < i ==> vfos[j].id != id,
        i < vfos.len() ==> vfos[i].id == id,
    ensures
        vfo_index(vfos, id) == i,
    decreases vfos.len(),
{
    if i > 0 {
        let t = vfos.skip(1);
        assert forall|j: int| 0 <= j < i - 1 implies t[j].id != id by {
            assert(t[j] == vfos[j + 1]);
        }
        if i < vfos.len() {
            assert(t[i - 1] == vfos[i]);
        }
        lemma_vfo_index(t, id, i - 1);
    }
}

/// The settings after the channel `id` was tuned: the frequency is brought into
/// the range of the hardware, and the band follows where the channel would leave
/// it.
pub open spec fn tuned(settings: SettingsView, id: u32, frequency_hz: int) -> SettingsView {
    let i = vfo_index(settings.vfos, id);
    if i < settings.vfos.len() {
        let hz = crate::units::clamped(frequency_hz, MIN_RF_HZ as int, MAX_RF_HZ as int);
        let vfo = VfoConfig { frequency_hz: hz as i64, ..settings.vfos[i] };
        SettingsView {
            vfos: settings.vfos.update(i, vfo),
            center_hz: if vfo.spec_in_band(settings.center_hz) {
                settings.center_hz
            } else {
                hz
            },
            ..settings
        }
    } else {
        settings
    }
}

impl Settings {
    /// The place of the first channel `id`.
    pub fn find_vfo(&self, id: u32) -> (r: Option<usize>)
        ensures
            match r {
                Some(i) => i == vfo_index(self.vfos@, id) && i < self.vfos@.len()
                    && self.vfos@[i as int].id == id,
                None => vfo_index(self.vfos@, id) == self.vfos@.len(),
            },
    {
        let mut i: usize = 0;
        while i < self.vfos.len()
            invariant
                i <= self.vfos@.len(),
                forall|j: int| 0 <= j < i ==> self.vfos@[j].id != id,
            decreases self.vfos@.len() - i,
        {
            if self.vfos[i].id == id {
                proof {
                    lemma_vfo_index(self.vfos@, id, i as int);
                }
                return Some(i);
            }
            i += 1;
        }
        proof {
            lemma_vfo_index(self.vfos@, id, i as int);
        }
        None
    }

    /// Tunes the channel `id` to `frequency_hz`, or the nearest frequency that the
    /// hardware receives; moves the band to the channel where it would lie outside.
    pub fn tune_vfo(&mut self, id: u32, frequency_hz: i64)
        ensures
            final(self)@ == tuned(old(self)@, id, frequency_hz as int),
    {
        if let Some(i) = self.find_vfo(id) {
            let hz: i64 = crate::units::clamp(
                frequency_hz as i128,
                MIN_RF_HZ as i128,
                MAX_RF_HZ as i128,
            ) as i64;
            let vfo: VfoConfig = VfoConfig { frequency_hz: hz, ..self.vfos[i] };
            self.vfos.set(i, vfo);
            if !vfo.in_band(self.center_hz) {
                self.center_hz = hz;
            }
        }
    }
}

impl Clone for Settings {
    fn clone(&self) -> (r: Self)
        ensures
            r@ == self@,
    {
        let vfos: Vec<VfoConfig> = self.vfos.clone();
        assert(vfos@ =~= self.vfos@);
        Settings {
            vfos,
            mix: self.mix,
            use_vad: self.use_vad,
            master_gain: self.master_gain,
            sql_dbfs: self.sql_dbfs,
            sql_relative_db: self.sql_relative_db,
            adaptive_squelch: self.adaptive_squelch,
            noise_zero_request: self.noise_zero_request,
            voice_denoise: self.voice_denoise,
            voice_strength: self.voice_strength,
            rf_gain_db: self.rf_gain_db,
            center_hz: self.center_hz,
        }
    }
}

/// What the program starts with: marine channel 16 in narrow FM, and a squelch
/// ten decibels above the local noise.
pub open spec fn default_settings() -> SettingsView {
    SettingsView {
        vfos: seq![VfoConfig::spec_new(1, 0, Mode::Nfm)],
        mix: false,
        use_vad: false,
        master_gain: 350_000,
        sql_dbfs: -50_000_000,
        sql_relative_db: 10_000_000,
        adaptive_squelch: true,
        noise_zero_request: 0,
        voice_denoise: false,
        voice_strength: 800_000,
        rf_gain_db: 280,
        center_hz: CENTER_HZ as int,
    }
}

impl Default for Settings {
    fn default() -> (r: Self)
        ensures
            r@ == default_settings(),
    {
        let mut vfos: Vec<VfoConfig> = Vec::new();
        vfos.push(VfoConfig::new(1, 0, Mode::Nfm));
        assert(vfos@ =~= default_settings().vfos);
        Settings {
            vfos,
            mix: false,
            use_vad: false,
            master_gain: 350_000,
            sql_dbfs: -50_000_000,
            sql_relative_db: 10_000_000,
            adaptive_squelch: true,
            noise_zero_request: 0,
            voice_denoise: false,
            voice_strength: 800_000,
            rf_gain_db: 280,
            center_hz: CENTER_HZ,
        }
    }
}

/// What was measured of a channel in one block.
#[derive(Clone, Copy, Debug, PartialEq, Eq, Structural)]
pub struct VfoStatus {
    pub id: u32,
    /// The largest contrast with the local noise, in millionths of a decibel.
    pub snr_db: i64,
    /// The power in the channel, in millionths of a dBFS.
    pub level_dbfs: i32,
    pub squelch_open: bool,
    pub vad: bool,
    pub tone_open: bool,
    pub audible: bool,
    pub in_band: bool,
}

impl Default for VfoStatus {
    fn default() -> (r: Self)
        ensures
            r == (VfoStatus {
                id: 0,
                snr_db: 0,
                level_dbfs: 0,
                squelch_open: false,
                vad: false,
                tone_open: false,
                audible: false,
                in_band: false,
            }),
    {
        VfoStatus {
            id: 0,
            snr_db: 0,
            level_dbfs: 0,
            squelch_open: false,
            vad: false,
            tone_open: false,
            audible: false,
            in_band: false,
        }
    }
}

/// The centred spectrum: the first bin lies half the sample rate below the centre.
/// Both rows are in millionths of a dBFS per bin, not calibrated.
#[derive(Debug)]
pub struct Spectrum {
    pub power_db: Vec<i32>,
    pub floor_db: Vec<i32>,
}

/// What the receiver shows of one block.
#[derive(Debug)]
pub struct Snapshot {
    /// How far the measure of the noise has come, in millionths.
    pub zero_progress: u32,
    pub spectrum: Spectrum,
    pub vfos: Vec<VfoStatus>,
    pub selected: Option<u32>,
    /// How long the block took to process, in microseconds.
    pub dsp_us: u64,
    pub center_hz: i64,
}

/// A channel that was tuned is in the received band, whatever band it was before.
pub proof fn tuned_vfo_is_in_band(settings: SettingsView, id: u32, frequency_hz: int)
    requires
        vfo_index(settings.vfos, id) < settings.vfos.len(),
    ensures
        ({
            let after = tuned(settings, id, frequency_hz);
            after.vfos[vfo_index(settings.vfos, id)].spec_in_band(after.center_hz)
        }),
{
    lemma_vfo_index_bounds(settings.vfos, id);
}

/// Tuning one channel moves no other.
pub proof fn tuning_moves_no_other_vfo(settings: SettingsView, id: u32, frequency_hz: int, j: int)
    requires
        0 <= j < settings.vfos.len(),
        settings.vfos[j].id != id,
    ensures
        tuned(settings, id, frequency_hz).vfos.len() == settings.vfos.len(),
        tuned(settings, id, frequency_hz).vfos[j] == settings.vfos[j],
{
    lemma_vfo_index_bounds(settings.vfos, id);
}

/// Tuning within the band does not move the band.
pub proof fn tuning_within_the_band_keeps_it(settings: SettingsView, id: u32, frequency_hz: int)
    requires
        MIN_RF_HZ <= frequency_hz <= MAX_RF_HZ,
        -1_072_000 <= frequency_hz - settings.center_hz <= 1_072_000,
    ensures
        tuned(settings, id, frequency_hz).center_hz == settings.center_hz,
{
}

/// No channel before the first one has its identifier.
pub proof fn lemma_vfo_index_first(vfos: Seq<VfoConfig>, id: u32, j: int)
    requires
        0 <= j < vfo_index(vfos, id),
        j < vfos.len(),
    ensures
        vfos[j].id != id,
    decreases vfos.len(),
{
    if j > 0 {
        lemma_vfo_index_first(vfos.skip(1), id, j - 1);
    }
}

pub proof fn lemma_vfo_index_bounds(vfos: Seq<VfoConfig>, id: u32)
    ensures
        0 <= vfo_index(vfos, id) <= vfos.len(),
        vfo_index(vfos, id) < vfos.len() ==> vfos[vfo_index(vfos, id)].id == id,
    decreases vfos.len(),
{
    if vfos.len() > 0 && vfos[0].id != id {
        lemma_vfo_index_bounds(vfos.skip(1), id);
    }
}

/// A tuned channel has the frequency asked for, inside the received band and outside it;
/// a frequency that the hardware does not receive becomes the nearest that it does. The
/// band stays where both edges of the channel keep two per cent of it free, else it is
/// centred on the channel. Nothing else changes.
pub proof fn tuned_vfo_has_the_frequency_asked_for(
    settings: SettingsView,
    id: u32,
    frequency_hz: int,
    i: int,
)
    requires
        0 <= i < settings.vfos.len(),
        settings.vfos[i].id == id,
        forall|j: int| 0 <= j < i ==> settings.vfos[j].id != id,
    ensures
        ({
            let after = tuned(settings, id, frequency_hz);
            let width = match settings.vfos[i].mode {
                Mode::Nfm => 25_000int,
                Mode::Wfm => 160_000int,
                Mode::Am => 10_000int,
                Mode::Lsb => 6_000int,
                Mode::Usb => 6_000int,
            };
            let hz = after.vfos[i].frequency_hz as int;
            &&& 500_000 <= frequency_hz <= 1_766_000_000 ==> hz == frequency_hz
            &&& frequency_hz < 500_000 ==> hz == 500_000
            &&& frequency_hz > 1_766_000_000 ==> hz == 1_766_000_000
            &&& after.center_hz == (if -2_304_000 <= 2 * (hz - settings.center_hz) - width && 2 * (
            hz - settings.center_hz) + width <= 2_304_000 {
                settings.center_hz
            } else {
                hz
            })
            &&& after.vfos.len() == settings.vfos.len()
            &&& after.vfos[i] == (VfoConfig {
                frequency_hz: after.vfos[i].frequency_hz,
                ..settings.vfos[i]
            })
            &&& forall|j: int|
                0 <= j < settings.vfos.len() && j != i ==> after.vfos[j] == settings.vfos[j]
            &&& after == (SettingsView {
                vfos: after.vfos,
                center_hz: after.center_hz,
                ..settings
            })
        }),
{
    lemma_vfo_index(settings.vfos, id, i);
}

/// Tuning a channel that there is not changes nothing.
pub proof fn tuning_an_unknown_vfo_changes_nothing(
    settings: SettingsView,
    id: u32,
    frequency_hz: int,
)
    requires
        forall|j: int| 0 <= j < settings.vfos.len() ==> settings.vfos[j].id != id,
    ensures
        tuned(settings, id, frequency_hz) == settings,
{
    lemma_vfo_index(settings.vfos, id, settings.vfos.len() as int);
}

/// A channel is in the band exactly where both its edges keep two per cent of the sample
/// rate away from the ends of the band, and so where its mirror image is.
pub proof fn in_band_keeps_a_margin_on_either_side(vfo: VfoConfig, center_hz: int, mirrored: VfoConfig)
    requires
        mirrored.mode == vfo.mode,
        mirrored.frequency_hz - center_hz == center_hz - vfo.frequency_hz,
    ensures
        ({
            let width = match vfo.mode {
                Mode::Nfm => 25_000int,
                Mode::Wfm => 160_000int,
                Mode::Am => 10_000int,
                Mode::Lsb => 6_000int,
                Mode::Usb => 6_000int,
            };
            let (low, high) = (
                2 * vfo.frequency_hz - width - 2 * center_hz,
                2 * vfo.frequency_hz + width - 2 * center_hz,
            );
            vfo.spec_in_band(center_hz) <==> (-48 * 2 * 2_400_000 <= 100 * low && 100 * high <= 48 * 2
                * 2_400_000)
        }),
        vfo.spec_in_band(center_hz) == mirrored.spec_in_band(center_hz),
{
}

/// A new channel lies as far from the marine calling channel as was asked for. It is heard,
/// at half gain, without a correction of the squelch and without a tone, and comes before
/// the channels with larger identifiers, as far as priorities reach.
pub proof fn new_channels_are_heard_where_they_were_asked_for(id: u32, offset: int, mode: Mode)
    requires
        -0x8000_0000 <= offset <= 0x7fff_ffff,
    ensures
        ({
            let vfo = VfoConfig::spec_new(id, offset, mode);
            &&& vfo.id == id
            &&& vfo.mode == mode
            &&& vfo.frequency_hz - 156_800_000 == offset
            &&& 2 * vfo.gain == 1_000_000
            &&& vfo.squelch_db == 0
            &&& !vfo.muted && !vfo.solo
            &&& vfo.ctcss_hz is None
            &&& id <= 255 ==> vfo.priority == id
            &&& id > 255 ==> vfo.priority == 255
        }),
{
}

} // verus!
