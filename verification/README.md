# QuasarSDR

A receiver for RTL-SDR devices on USB: a spectrum and a waterfall over 2.4 MHz, up to
eight channels (narrow and wide FM, AM, both sidebands), squelch above the local noise,
tone squelch, selection by priority or a mix, and an optional voice filter. It only
receives.

The library under `src/` decides; it is written in Verus and verified, except for eleven
items that stand for outside code and are trusted: the three types of the channels and
queues between threads and the five calls into them (`channel`), reading text that may not
be UTF-8 and the name of its result (`driver::usb`), and selecting a value by its rank
(`dsp::spectrum`). The program under `app/` connects it to the outside: the driver library,
the threads, the sound card, the window, and the signal processing that needs floating
point.

| Module | What it decides |
|---|---|
| `units`, `decimal`, `text` | fixed-point units, numbers written and read |
| `double` | decimal numbers as numbers of double precision |
| `frequency` | frequencies that are typed in, and dragging the band |
| `model` | channels, settings and measurements |
| `driver` | devices, opening one, its stream of blocks |
| `dsp` | noise, squelch, tones, activity, selection, mixing, the voice filter's frames |
| `audio` | the rate of the sound card |
| `engine` | the acquisition, and what becomes of its blocks |
| `reception` | making the receiver ready for a block; what holds of a whole reception |
| `ui` | what the window shows and what its controls do |
| `channel` | the channels and queues between threads, with logs of what went through |

Levels are counted in millionths of a decibel, frequencies in hertz, audio in
hundred-millionths of full scale, gains in millionths.

## Laws

Beside the contracts of the functions, public proof functions state what holds of the
receiver as a whole. Some of them:

- a tuned channel lies in the received band, and no other channel moves
  (`model::tuned_vfo_is_in_band`, `model::tuning_moves_no_other_vfo`);
- a frequency that was written reads back (`frequency::frequencies_read_back`);
- an opening succeeds exactly where every answer of the driver is good, and a failed one
  closes the device once (`driver::opening::an_opening_succeeds_where_every_answer_is_good`,
  `driver::opening::a_failed_opening_closes_once`);
- frame `k` of the sound card lies at `k * 48000 / rate` of the samples
  (`audio::frames_interpolate_the_stream`);
- the contrast of a channel does not depend on the absolute level
  (`dsp::spectrum::contrast_does_not_depend_on_the_level`);
- the current channel wins ties, and the choice is determined
  (`dsp::selection::current_channel_wins_ties`, `dsp::selection::selection_is_determined`);
- two receivers that differ in the voice filter alone decide the same, block after block
  (`dsp::twins::voice_filter_changes_no_decision_of_the_receiver`);
- however the audio is cut into blocks, the voice filter hears and gives the same
  (`dsp::voice::processing_in_blocks`, `dsp::voice::blocks_do_not_matter`);
- every fiftieth sample gives an audio sample, however long a channel runs
  (`dsp::vfo::every_fiftieth_sample_is_heard`);
- channels outside the band are never heard (`dsp::mixer::channels_outside_the_band_are_silent`);
- a block is never taken for one of another band
  (`engine::blocks_belong_to_the_centre_of_their_settings`);
- what is shown was read on the band that it is shown on
  (`reception::snapshots_show_the_band_they_were_read_on`);
- the measure of the noise never falls back, unless the band, the gain or a request starts
  it anew (`reception::calibration_never_falls_back`);
- the callback numbers the blocks of the device in their order, and they are read in it
  (`driver::usb::blocks_are_numbered_in_order`, `driver::usb::blocks_are_read_in_order`);
- once a block is lost on the way from the device, the reception ends
  (`driver::usb::a_lost_block_ends_the_reception`);
- a run of snapshots leaves a row for each of the band, the latest first
  (`ui::app::a_run_of_snapshots_leaves_its_rows`);
- without a connected device nothing runs, and the controls wait for its data
  (`ui::app::nothing_runs_without_a_device`, `ui::app::controls_wait_for_data`).

## The program

`--probe` lists the devices without the window; with `--receive` it also receives from the
first, and with `--engine` it runs the receiver on it.
