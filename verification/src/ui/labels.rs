//! What is written in the window.

use crate::decimal::{decimal, fixed, push_decimal, push_fixed};
use crate::model::{VfoConfig, VfoStatus, CENTER_HZ, IQ_RATE, MAX_VFOS};
use crate::units::ONE;
use vstd::prelude::*;
use vstd::string::StringExecFns;

verus! {

/// A number on two places at least.
pub open spec fn two_digits(n: nat) -> Seq<char> {
    if n < 10 {
        "0"@ + decimal(n)
    } else {
        decimal(n)
    }
}

fn push_two_digits(out: &mut String, n: u64)
    ensures
        final(out)@ == old(out)@ + two_digits(n as nat),
{
    if n < 10 {
        out.append("0");
    }
    push_decimal(out, n);
    assert(out@ =~= old(out)@ + two_digits(n as nat));
}

/// The name of a channel.
pub fn vfo_name(id: u32) -> (r: String)
    ensures
        r@ == "VFO "@ + two_digits(id as nat),
{
    let mut r: String = "VFO ".to_owned();
    push_two_digits(&mut r, id as u64);
    r
}

/// The name of a channel on the plot.
pub fn plot_name(id: u32) -> (r: String)
    ensures
        r@ == "V"@ + decimal(id as nat),
{
    let mut r: String = "V".to_owned();
    push_decimal(&mut r, id as u64);
    r
}

/// The heading over the frequency of a channel.
pub fn frequency_title(id: u32) -> (r: String)
    ensures
        r@ == "FRÉQUENCE · VFO "@ + two_digits(id as nat),
{
    let mut r: String = "FRÉQUENCE · VFO ".to_owned();
    push_two_digits(&mut r, id as u64);
    r
}

/// How many channels there are, of how many.
pub fn channel_count(n: usize) -> (r: String)
    ensures
        r@ == two_digits(n as nat) + " / "@ + two_digits(MAX_VFOS as nat),
{
    let mut r: String = String::new();
    push_two_digits(&mut r, n as u64);
    r.append(" / ");
    push_two_digits(&mut r, MAX_VFOS as u64);
    assert(r@ =~= two_digits(n as nat) + " / "@ + two_digits(MAX_VFOS as nat));
    r
}

/// What stands under the frequency that is typed in.
pub fn frequency_caption(frequency_hz: i64) -> (r: &'static str)
    ensures
        r@ == (if frequency_hz == CENTER_HZ {
            "MHz · VHF MARINE 16"@
        } else {
            "MHz · SAISIE DIRECTE"@
        }),
{
    if frequency_hz == CENTER_HZ {
        "MHz · VHF MARINE 16"
    } else {
        "MHz · SAISIE DIRECTE"
    }
}

/// What stands under the frequency of a channel: its name where it has one, else how
/// far it lies from the centre of the band.
pub fn card_caption(vfo: &VfoConfig, center_hz: i64) -> (r: String)
    requires
        i64::MIN <= vfo.spec_offset(center_hz as int) <= i64::MAX,
    ensures
        r@ == (if vfo.frequency_hz == CENTER_HZ {
            "VHF MARINE · CANAL 16"@
        } else {
            "MHz · OFFSET "@ + fixed(vfo.spec_offset(center_hz as int), 3, 1, true) + " kHz"@
        }),
{
    if vfo.frequency_hz == CENTER_HZ {
        "VHF MARINE · CANAL 16".to_owned()
    } else {
        let mut r: String = "MHz · OFFSET ".to_owned();
        push_fixed(&mut r, vfo.offset_hz(center_hz), 3, 1, true);
        r.append(" kHz");
        r
    }
}

/// A gain of the tuner.
pub fn gain_text(gain_db: i32) -> (r: String)
    ensures
        r@ == fixed(gain_db as int, 1, 1, true) + " dB"@,
{
    let mut r: String = String::new();
    push_fixed(&mut r, gain_db as i64, 1, 1, true);
    assert(r@ =~= fixed(gain_db as int, 1, 1, true));
    r.append(" dB");
    r
}

/// A level in the big display.
pub fn level_text(level_dbfs: i32) -> (r: String)
    ensures
        r@ == fixed(level_dbfs as int, 6, 1, false),
{
    let mut r: String = String::new();
    push_fixed(&mut r, level_dbfs as i64, 6, 1, false);
    assert(r@ =~= fixed(level_dbfs as int, 6, 1, false));
    r
}

/// The contrast of a channel.
pub fn contrast_text(snr_db: i64) -> (r: String)
    ensures
        r@ == "Δ "@ + fixed(snr_db as int, 6, 1, true) + " dB / bruit"@,
{
    let mut r: String = "Δ ".to_owned();
    push_fixed(&mut r, snr_db, 6, 1, true);
    r.append(" dB / bruit");
    r
}

/// The measures of a channel.
pub fn measures_text(status: &VfoStatus) -> (r: String)
    ensures
        r@ == "Δ bruit "@ + fixed(status.snr_db as int, 6, 1, true) + " dB  ·  "@ + fixed(
            status.level_dbfs as int,
            6,
            1,
            false,
        ) + " dBFS"@,
{
    let mut r: String = "Δ bruit ".to_owned();
    push_fixed(&mut r, status.snr_db, 6, 1, true);
    r.append(" dB  ·  ");
    push_fixed(&mut r, status.level_dbfs as i64, 6, 1, false);
    r.append(" dBFS");
    r
}

/// A share in millionths, as a percentage.
pub fn percent_text(share: i32) -> (r: String)
    ensures
        r@ == fixed(share as int, 4, 0, false) + " %"@,
{
    let mut r: String = String::new();
    push_fixed(&mut r, share as i64, 4, 0, false);
    assert(r@ =~= fixed(share as int, 4, 0, false));
    r.append(" %");
    r
}

/// How far the measure of the noise has come.
pub fn progress_text(zero_progress: u32) -> (r: String)
    ensures
        r@ == (if zero_progress < ONE {
            "Mesure du bruit  "@ + fixed(zero_progress as int, 4, 0, false) + " %"@
        } else {
            "Bruit normalisé · suivi actif"@
        }),
{
    if zero_progress < ONE as u32 {
        let mut r: String = "Mesure du bruit  ".to_owned();
        push_fixed(&mut r, zero_progress as i64, 4, 0, false);
        r.append(" %");
        r
    } else {
        "Bruit normalisé · suivi actif".to_owned()
    }
}

/// A level at a grid line.
pub fn grid_text(level_db: i32) -> (r: String)
    ensures
        r@ == fixed(level_db as int, 6, 0, false) + " dB"@,
{
    let mut r: String = String::new();
    push_fixed(&mut r, level_db as i64, 6, 0, false);
    assert(r@ =~= fixed(level_db as int, 6, 0, false));
    r.append(" dB");
    r
}

/// What stands at the line of the squelch.
pub fn squelch_text(sql_relative_db: i32) -> (r: String)
    ensures
        r@ == "SQL +"@ + fixed(sql_relative_db as int, 6, 0, false) + " dB / bruit"@,
{
    let mut r: String = "SQL +".to_owned();
    push_fixed(&mut r, sql_relative_db as i64, 6, 0, false);
    r.append(" dB / bruit");
    r
}

/// The frequency at the mark `i` of the axis, in hertz: eight parts cover the band.
pub open spec fn axis_frequency(center_hz: int, i: int) -> int {
    center_hz + (i - 4) * (IQ_RATE as int / 8)
}

/// What stands at the mark `i` of the axis: megahertz with three decimals.
pub fn axis_text(center_hz: i64, i: i64) -> (r: String)
    requires
        0 <= i <= 8,
        i64::MIN + 1_200_000 <= center_hz <= i64::MAX - 1_200_000,
    ensures
        r@ == fixed(axis_frequency(center_hz as int, i as int), 6, 3, false),
{
    let mut r: String = String::new();
    push_fixed(&mut r, center_hz + (i - 4) * 300_000, 6, 3, false);
    assert(r@ =~= fixed(axis_frequency(center_hz as int, i as int), 6, 3, false));
    r
}

/// The load and the losses in the status line.
pub fn load_text(dsp_us: u64, lost: u64) -> (r: String)
    requires
        dsp_us <= i64::MAX,
    ensures
        r@ == "DSP "@ + fixed(dsp_us as int, 3, 2, false) + " ms  ·  I/Q perdus "@ + decimal(
            lost as nat,
        ),
{
    let mut r: String = "DSP ".to_owned();
    push_fixed(&mut r, dsp_us as i64, 3, 2, false);
    r.append(" ms  ·  I/Q perdus ");
    push_decimal(&mut r, lost);
    r
}

/// The state of the audio in the status line.
pub fn audio_text(status: &str, dropped: u64, underruns: u64, errors: u64) -> (r: String)
    ensures
        r@ == status@ + "\nAudio écrasé "@ + decimal(dropped as nat) + " · Sous-alimentation "@
            + decimal(underruns as nat) + " · Erreurs "@ + decimal(errors as nat),
{
    let mut r: String = status.to_owned();
    r.append("\nAudio écrasé ");
    push_decimal(&mut r, dropped);
    r.append(" · Sous-alimentation ");
    push_decimal(&mut r, underruns);
    r.append(" · Erreurs ");
    push_decimal(&mut r, errors);
    r
}

/// What a channel does.
#[derive(Clone, Copy, Debug, PartialEq, Eq, Structural)]
pub enum ChannelState {
    /// Nothing is received.
    Offline,
    /// The channel lies outside the band.
    OutOfBand,
    /// The channel is heard.
    Heard,
    /// The channel carries a signal.
    Active,
    Idle,
}

impl ChannelState {
    /// What a channel does: nothing is claimed of a channel that is not received.
    pub open spec fn spec_of(running: bool, in_band: bool, status: Option<VfoStatus>) -> Self {
        if !running {
            ChannelState::Offline
        } else if !in_band {
            ChannelState::OutOfBand
        } else {
            match status {
                Some(s) if s.audible => ChannelState::Heard,
                Some(s) if s.squelch_open => ChannelState::Active,
                _ => ChannelState::Idle,
            }
        }
    }

    /// What a channel does.
    pub fn of(running: bool, in_band: bool, status: Option<VfoStatus>) -> (r: Self)
        ensures
            r == Self::spec_of(running, in_band, status),
    {
        if !running {
            return ChannelState::Offline;
        }
        if !in_band {
            return ChannelState::OutOfBand;
        }
        match status {
            Some(s) => if s.audible {
                ChannelState::Heard
            } else if s.squelch_open {
                ChannelState::Active
            } else {
                ChannelState::Idle
            },
            None => ChannelState::Idle,
        }
    }

    /// How it is written.
    pub fn label(self) -> (r: &'static str)
        ensures
            r@ == (match self {
                ChannelState::Offline => "HORS LIGNE"@,
                ChannelState::OutOfBand => "HORS BANDE"@,
                ChannelState::Heard => "ÉCOUTE"@,
                ChannelState::Active => "ACTIF"@,
                ChannelState::Idle => "VEILLE"@,
            }),
    {
        match self {
            ChannelState::Offline => "HORS LIGNE",
            ChannelState::OutOfBand => "HORS BANDE",
            ChannelState::Heard => "ÉCOUTE",
            ChannelState::Active => "ACTIF",
            ChannelState::Idle => "VEILLE",
        }
    }
}

/// A number on two places at least reads back, and never takes fewer.
pub proof fn two_digits_read_back(n: nat)
    ensures
        two_digits(n).len() >= 2,
        crate::decimal::all_digits(two_digits(n)),
        crate::decimal::digits_value(two_digits(n)) == n,
        n < 100 ==> two_digits(n).len() == 2,
{
    reveal_strlit("0");
    crate::decimal::lemma_decimal_reads_back(n);
    if n < 10 {
        let row = "0"@ + decimal(n);
        crate::decimal::lemma_digits_concat("0"@, decimal(n));
        assert("0"@.drop_last() =~= Seq::empty());
        assert(crate::decimal::digits_value("0"@.drop_last()) == 0);
        assert(crate::decimal::digits_value("0"@) == 0);
        let w = crate::decimal::pow10(decimal(n).len()) as int;
        assert(0 * w == 0) by (nonlinear_arith);
        assert forall|i: int| 0 <= i < row.len() implies crate::decimal::is_digit(
            #[trigger] row[i],
        ) by {
            if i > 0 {
                assert(row[i] == decimal(n)[i - 1]);
            }
        }
    } else {
        crate::decimal::lemma_decimal_reads_back(n / 10);
        assert(decimal(n).len() == decimal(n / 10).len() + 1);
    }
}

/// The nine marks of the axis lie evenly, from the lower end of the band to the upper one.
pub proof fn marks_divide_the_band(center_hz: int, i: int)
    ensures
        axis_frequency(center_hz, 0) == center_hz - 1_200_000,
        axis_frequency(center_hz, 8) == center_hz + 1_200_000,
        axis_frequency(center_hz, i + 1) - axis_frequency(center_hz, i) == 300_000,
{
    let step = IQ_RATE as int / 8;
    assert(step == 300_000);
    assert((0 - 4) * step == -1_200_000 && (8 - 4) * step == 1_200_000) by (nonlinear_arith)
        requires
            step == 300_000,
    ;
    assert((i + 1 - 4) * step == (i - 4) * step + step) by (nonlinear_arith);
}

/// What is claimed of a channel: nothing is while nothing is received; a channel outside the
/// band is said to be there; within it, one that is heard says so, then one whose squelch is
/// open, and every other rests.
pub proof fn channel_states_tell_what_is_received(
    running: bool,
    in_band: bool,
    status: Option<VfoStatus>,
)
    ensures
        ({
            let state = ChannelState::spec_of(running, in_band, status);
            let received = running && in_band && status is Some;
            &&& state == ChannelState::Offline <==> !running
            &&& state == ChannelState::OutOfBand <==> running && !in_band
            &&& state == ChannelState::Heard <==> received && status->0.audible
            &&& state == ChannelState::Active <==> received && !status->0.audible
                && status->0.squelch_open
        }),
{
}

} // verus!
