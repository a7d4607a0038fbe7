//! RTL-SDR devices on USB and the stream of blocks that one delivers.

use crate::channel::{Inbox, Outbox, Signal, Tally};
use crate::decimal::{decimal, push_decimal, push_signed, signed};
use crate::model::{BLOCK_SIZE, IQ_RATE};
use crate::text::{
    characters, trim_bounds, trimmed, trimmed_texts_have_no_white_space_around,
    trimming_loses_only_white_space, white_space_around_does_not_count,
};
use vstd::prelude::*;
use vstd::string::{StrSliceExecFns, StringExecFns};

verus! {

/// A device that the driver enumerated.
#[derive(Debug, PartialEq, Eq)]
pub struct UsbDevice {
    pub index: u32,
    pub name: String,
    pub serial: String,
}

/// A device as a mathematical value.
pub struct DeviceView {
    pub index: u32,
    pub name: Seq<char>,
    pub serial: Seq<char>,
}

impl View for UsbDevice {
    type V = DeviceView;

    open spec fn view(&self) -> DeviceView {
        DeviceView { index: self.index, name: self.name@, serial: self.serial@ }
    }
}

/// The values of a row of devices.
pub open spec fn device_views(devices: Seq<UsbDevice>) -> Seq<DeviceView> {
    devices.map_values(|d: UsbDevice| d@)
}

/// Whether `d` stands at the place of `active` and could not be described.
pub open spec fn is_busy(d: DeviceView, active: DeviceView) -> bool {
    d.index == active.index && d.serial.len() == 0
}

/// The place of the first device that `is_busy` holds of; the number of devices
/// where there is none.
pub open spec fn first_busy(devices: Seq<DeviceView>, active: DeviceView) -> int
    decreases devices.len(),
{
    if devices.len() == 0 || is_busy(devices[0], active) {
        0
    } else {
        1 + first_busy(devices.skip(1), active)
    }
}

/// The devices with the description of `active` in place of the one that could not
/// be read.
pub open spec fn labelled(devices: Seq<DeviceView>, active: DeviceView) -> Seq<DeviceView> {
    let i = first_busy(devices, active);
    if i < devices.len() {
        devices.update(i, active)
    } else {
        devices
    }
}

proof fn lemma_first_busy(devices: Seq<DeviceView>, active: DeviceView, i: int)
    requires
        0 <= i <= devices.len(),
        forall|j: int| 0 <= j < i ==> !is_busy(#[trigger] devices[j], active),
        i < devices.len() ==> is_busy(devices[i], active),
    ensures
        first_busy(devices, active) == i,
    decreases devices.len(),
{
    if i > 0 {
        let t = devices.skip(1);
        assert forall|j: int| 0 <= j < i - 1 implies !is_busy(#[trigger] t[j], active) by {
            assert(t[j] == devices[j + 1]);
        }
        if i < devices.len() {
            assert(t[i - 1] == devices[i]);
        }
        assert(!is_busy(devices[0], active));
        lemma_first_busy(t, active, i - 1);
    }
}

proof fn lemma_first_busy_bounds(devices: Seq<DeviceView>, active: DeviceView)
    ensures
        0 <= first_busy(devices, active) <= devices.len(),
        first_busy(devices, active) < devices.len() ==> is_busy(
            devices[first_busy(devices, active)],
            active,
        ),
    decreases devices.len(),
{
    if devices.len() > 0 && !is_busy(devices[0], active) {
        lemma_first_busy_bounds(devices.skip(1), active);
    }
}

/// Keeping the label of the active device neither invents nor removes a device,
/// moves none, and leaves every device alone that could be described.
pub proof fn labels_never_invent_a_device(devices: Seq<DeviceView>, active: DeviceView, i: int)
    requires
        0 <= i < devices.len(),
    ensures
        labelled(devices, active).len() == devices.len(),
        labelled(devices, active)[i].index == devices[i].index,
        devices[i].serial.len() > 0 ==> labelled(devices, active)[i] == devices[i],
        devices[i].index != active.index ==> labelled(devices, active)[i] == devices[i],
{
    lemma_first_busy_bounds(devices, active);
}

/// Keeping the label of an active device that has a serial number a second time
/// changes nothing where each index stands once.
pub proof fn labels_settle(devices: Seq<DeviceView>, active: DeviceView)
    requires
        active.serial.len() > 0,
        forall|i: int, j: int|
            0 <= i < j < devices.len() ==> devices[i].index != devices[j].index,
    ensures
        labelled(labelled(devices, active), active) == labelled(devices, active),
{
    lemma_first_busy_bounds(devices, active);
    let once = labelled(devices, active);
    lemma_first_busy_bounds(once, active);
    let i = first_busy(once, active);
    if i < once.len() {
        let k = first_busy(devices, active);
        if k < devices.len() {
            assert(i != k);
            assert(once[i] == devices[i]);
            assert(false);
        } else {
            assert(once == devices);
            assert(false);
        }
    }
}

/// How a device is shown: its name, its place counted from one, and its serial
/// number where that is known.
pub open spec fn device_label(d: DeviceView) -> Seq<char> {
    d.name + " · USB "@ + decimal((d.index + 1) as nat) + " · S/N "@ + (if d.serial.len() == 0 {
        "indisponible"@
    } else {
        d.serial
    })
}

impl UsbDevice {
    /// Whether both are the same device under the same description.
    pub fn same(&self, other: &Self) -> (r: bool)
        ensures
            r == (self@ == other@),
    {
        self.index == other.index && self.name == other.name && self.serial == other.serial
    }

    /// Whether the device is among `devices`, under the same description.
    pub fn is_listed(&self, devices: &[Self]) -> (r: bool)
        ensures
            r == device_views(devices@).contains(self@),
    {
        let ghost views = device_views(devices@);
        let mut i: usize = 0;
        while i < devices.len()
            invariant
                i <= devices@.len(),
                views == device_views(devices@),
                forall|j: int| 0 <= j < i ==> views[j] != self@,
            decreases devices@.len() - i,
        {
            if self.same(&devices[i]) {
                assert(views[i as int] == self@);
                return true;
            }
            i += 1;
        }
        false
    }

    /// A second opening to read the descriptors may be refused while the device is
    /// in use: the label of the active handle is then kept.
    pub fn preserve_active_label(devices: &mut [Self], active: &Self)
        ensures
            device_views(final(devices)@) == labelled(device_views(old(devices)@), active@),
    {
        let ghost views = device_views(devices@);
        let mut i: usize = 0;
        while i < devices.len()
            invariant
                i <= devices@.len(),
                devices@ == old(devices)@,
                views == device_views(old(devices)@),
                forall|j: int| 0 <= j < i ==> !is_busy(#[trigger] views[j], active@),
            decreases devices@.len() - i,
        {
            assert(views[i as int] == devices@[i as int]@);
            if devices[i].index == active.index && devices[i].serial.as_str().is_empty() {
                proof {
                    lemma_first_busy(views, active@, i as int);
                }
                let kept: UsbDevice = UsbDevice {
                    index: active.index,
                    name: active.name.clone(),
                    serial: active.serial.clone(),
                };
                devices[i] = kept;
                assert(device_views(devices@) =~= views.update(i as int, active@));
                return;
            }
            i += 1;
        }
        proof {
            lemma_first_busy(views, active@, i as int);
        }
    }

    /// How the device is shown.
    pub fn label(&self) -> (r: String)
        requires
            self.index < u32::MAX,
        ensures
            r@ == device_label(self@),
    {
        let mut out: String = self.name.clone();
        out.append(" · USB ");
        push_decimal(&mut out, self.index as u64 + 1);
        out.append(" · S/N ");
        if self.serial.as_str().is_empty() {
            out.append("indisponible");
        } else {
            out.append(self.serial.as_str());
        }
        out
    }
}

impl Clone for UsbDevice {
    fn clone(&self) -> (r: Self)
        ensures
            r@ == self@,
    {
        UsbDevice { index: self.index, name: self.name.clone(), serial: self.serial.clone() }
    }
}

/// What `String::from_utf8_lossy` makes of `bytes`.
pub uninterp spec fn lossy_text(bytes: Seq<u8>) -> Seq<char>;

/// `String::from_utf8_lossy`: the text that `bytes` encode in UTF-8, with a
/// replacement character for what is no UTF-8. The text of bytes that are no UTF-8
/// has a name only.
#[verifier::external_body]
fn from_utf8_lossy(bytes: &[u8]) -> (r: String)
    ensures
        r@ == lossy_text(bytes@),
        vstd::utf8::valid_utf8(bytes@) ==> r@ == vstd::utf8::decode_utf8(bytes@),
{
    String::from_utf8_lossy(bytes).into_owned()
}

/// The number of bytes before the first zero in `bytes`, 255 at most.
pub open spec fn c_length(bytes: Seq<u8>) -> int
    decreases bytes.len(),
{
    if bytes.len() == 0 || bytes[0] == 0 {
        0
    } else {
        let rest = 1 + c_length(bytes.skip(1));
        if rest > 255 {
            255
        } else {
            rest
        }
    }
}

proof fn lemma_c_length(bytes: Seq<u8>, n: int)
    requires
        0 <= n <= bytes.len(),
        n <= 255,
        forall|i: int| 0 <= i < n ==> bytes[i] != 0,
        n < bytes.len() && n < 255 ==> bytes[n] == 0,
    ensures
        c_length(bytes) == n,
    decreases n,
{
    if n > 0 {
        let t = bytes.skip(1);
        assert(forall|i: int| 0 <= i < t.len() ==> t[i] == bytes[i + 1]);
        if n < 255 {
            lemma_c_length(t, n - 1);
        } else {
            lemma_c_length_at_least(t, 254);
        }
    }
}

proof fn lemma_c_length_at_least(bytes: Seq<u8>, n: int)
    requires
        0 <= n <= bytes.len(),
        n <= 255,
        forall|i: int| 0 <= i < n ==> bytes[i] != 0,
    ensures
        n <= c_length(bytes) <= 255,
    decreases bytes.len(),
{
    if bytes.len() > 0 && bytes[0] != 0 {
        let t = bytes.skip(1);
        assert(forall|i: int| 0 <= i < t.len() ==> t[i] == bytes[i + 1]);
        lemma_c_length_at_least(
            t,
            if n == 0 {
                0
            } else {
                n - 1
            },
        );
    }
}

/// The text in a buffer that a zero ends.
pub open spec fn c_text(bytes: Seq<u8>) -> Seq<char> {
    lossy_text(bytes.take(c_length(bytes)))
}

/// The text in a buffer that a zero ends.
fn read_c_text(bytes: &[u8]) -> (r: String)
    ensures
        r@ == c_text(bytes@),
{
    let mut n: usize = 0;
    while n < bytes.len() && n < 255 && bytes[n] != 0
        invariant
            n <= bytes@.len(),
            n <= 255,
            forall|i: int| 0 <= i < n ==> bytes@[i] != 0,
        decreases bytes@.len() - n,
    {
        n += 1;
    }
    proof {
        lemma_c_length(bytes@, n as int);
        assert(bytes@.subrange(0, n as int) =~= bytes@.take(n as int));
    }
    from_utf8_lossy(vstd::slice::slice_subrange(bytes, 0, n))
}

/// A text without the white space around it.
fn trim(text: &str) -> (r: String)
    ensures
        r@ == trimmed(text@),
{
    let all: Vec<char> = characters(text);
    let (from, to) = trim_bounds(all.as_slice());
    text.substring_char(from, to).to_owned()
}

/// What the driver tells of a device.
pub struct DeviceText {
    /// Whether the descriptors could be read.
    pub read: bool,
    /// Whether the product has a name.
    pub named: bool,
    pub vendor: String,
    pub product: String,
    pub serial: String,
    /// The name of the model, where the driver knows it.
    pub generic: Option<String>,
}

impl DeviceText {
    /// The device that the texts describe.
    pub open spec fn describes(self, index: u32) -> DeviceView {
        DeviceView {
            index,
            name: if self.read && self.named {
                trimmed(trimmed(self.vendor@) + " "@ + trimmed(self.product@))
            } else {
                match self.generic {
                    Some(name) => name@,
                    None => "RTL-SDR"@,
                }
            },
            serial: if self.read {
                trimmed(self.serial@)
            } else {
                Seq::empty()
            },
        }
    }

    /// The device that the texts describe: the vendor and the product where the
    /// descriptors could be read, else the name of the model.
    pub fn describe(self, index: u32) -> (r: UsbDevice)
        ensures
            r@ == self.describes(index),
    {
        let name: String = if self.read && self.named {
            let mut both: String = trim(self.vendor.as_str());
            both.append(" ");
            let product: String = trim(self.product.as_str());
            both.append(product.as_str());
            trim(both.as_str())
        } else {
            match self.generic {
                Some(name) => name,
                None => "RTL-SDR".to_owned(),
            }
        };
        let serial: String = if self.read {
            trim(self.serial.as_str())
        } else {
            String::new()
        };
        UsbDevice { index, name, serial }
    }
}

/// What the driver fills in for a device: an answer code, and texts that a zero
/// ends.
pub struct DeviceStrings {
    pub code: i32,
    pub vendor: Vec<u8>,
    pub product: Vec<u8>,
    pub serial: Vec<u8>,
    pub generic: Option<Vec<u8>>,
}

impl DeviceStrings {
    /// The texts in the buffers of the driver.
    pub fn decode(&self) -> (r: DeviceText)
        ensures
            r.read == (self.code == 0),
            r.named == (self.product@.len() > 0 && self.product@[0] != 0),
            r.vendor@ == c_text(self.vendor@),
            r.product@ == c_text(self.product@),
            r.serial@ == c_text(self.serial@),
            r.generic is Some <==> self.generic is Some,
            self.generic matches Some(name) ==> r.generic->0@ == lossy_text(name@),
    {
        DeviceText {
            read: self.code == 0,
            named: self.product.len() > 0 && self.product[0] != 0,
            vendor: read_c_text(self.vendor.as_slice()),
            product: read_c_text(self.product.as_slice()),
            serial: read_c_text(self.serial.as_slice()),
            generic: match &self.generic {
                Some(name) => Some(from_utf8_lossy(name.as_slice())),
                None => None,
            },
        }
    }
}

/// How far `step` is from the gain that was asked for.
pub open spec fn gain_distance(step: int, requested: int) -> int {
    if step < requested {
        requested - step
    } else {
        step - requested
    }
}

/// Whether the gain at `i` is the nearest to `requested`, and the first of those
/// that are equally near.
pub open spec fn is_closest(steps: Seq<i32>, requested: int, i: int) -> bool {
    &&& 0 <= i < steps.len()
    &&& forall|j: int|
        0 <= j < steps.len() ==> gain_distance(steps[i] as int, requested) <= gain_distance(
            #[trigger] steps[j] as int,
            requested,
        )
    &&& forall|j: int|
        0 <= j < i ==> gain_distance(steps[i] as int, requested) < gain_distance(
            #[trigger] steps[j] as int,
            requested,
        )
}

/// Whether `gain` is the nearest to `requested` among `steps`.
pub open spec fn is_nearest_gain(steps: Seq<i32>, requested: int, gain: i32) -> bool {
    exists|i: int| #[trigger] is_closest(steps, requested, i) && steps[i] == gain
}

/// The gain of the tuner, among `steps`, that is nearest to `requested`; the first
/// one where two are equally near, and zero where there is none. All are in tenths
/// of a decibel.
pub fn closest_gain(steps: &[i32], requested: i32) -> (r: i32)
    ensures
        steps@.len() == 0 ==> r == 0,
        steps@.len() > 0 ==> is_nearest_gain(steps@, requested as int, r),
{
    if steps.len() == 0 {
        return 0;
    }
    let mut best: usize = 0;
    let mut i: usize = 1;
    while i < steps.len()
        invariant
            best < i <= steps@.len(),
            forall|j: int|
                0 <= j < i ==> gain_distance(steps@[best as int] as int, requested as int)
                    <= gain_distance(#[trigger] steps@[j] as int, requested as int),
            forall|j: int|
                0 <= j < best ==> gain_distance(steps@[best as int] as int, requested as int)
                    < gain_distance(#[trigger] steps@[j] as int, requested as int),
        decreases steps@.len() - i,
    {
        if distance(steps[i], requested) < distance(steps[best], requested) {
            best = i;
        }
        i += 1;
    }
    assert(is_closest(steps@, requested as int, best as int));
    steps[best]
}

fn distance(step: i32, requested: i32) -> (r: i64)
    ensures
        r == gain_distance(step as int, requested as int),
{
    if step < requested {
        requested as i64 - step as i64
    } else {
        step as i64 - requested as i64
    }
}

/// A gain that the tuner has is the nearest to itself.
pub proof fn supported_gains_are_kept(steps: Seq<i32>, k: int, gain: i32)
    requires
        0 <= k < steps.len(),
        is_nearest_gain(steps, steps[k] as int, gain),
    ensures
        gain == steps[k],
{
    let i = choose|i: int| #[trigger] is_closest(steps, steps[k] as int, i) && steps[i] == gain;
    assert(gain_distance(steps[i] as int, steps[k] as int) <= gain_distance(
        steps[k] as int,
        steps[k] as int,
    ));
}

/// Bytes per block: two for each sample.
pub const USB_BYTES: usize = 51_200;

/// What the callback of the driver keeps between two blocks.
pub struct CallbackState {
    pub tx: Outbox<(u64, Vec<u8>)>,
    pub sequence: u64,
    pub dropped: Tally,
    pub stopping: Signal,
}

/// What becomes of a block.
#[derive(Clone, Copy, Debug, PartialEq, Eq, Structural)]
pub enum BlockFate {
    /// It was no block, or the reception ends.
    Ignored,
    Queued,
    /// There was no room for it.
    Dropped,
}

impl BlockFate {
    /// How many numbers of the sequence a block of this fate takes.
    pub open spec fn numbers(self) -> int {
        if self == BlockFate::Ignored {
            0
        } else {
            1
        }
    }
}

/// What becomes of `len` bytes: `stopping` where the reception ends, `sent` where
/// the queue had room for them.
pub fn block_fate(len: usize, stopping: bool, sent: bool) -> (r: BlockFate)
    ensures
        r == (if len != USB_BYTES || stopping {
            BlockFate::Ignored
        } else if sent {
            BlockFate::Queued
        } else {
            BlockFate::Dropped
        }),
{
    if len != USB_BYTES || stopping {
        BlockFate::Ignored
    } else if sent {
        BlockFate::Queued
    } else {
        BlockFate::Dropped
    }
}

impl CallbackState {
    /// The message for a block: its number and a copy of its bytes.
    pub fn message(&self, bytes: &[u8]) -> (r: (u64, Vec<u8>))
        ensures
            r.0 == self.sequence,
            r.1@ == bytes@,
    {
        (self.sequence, vstd::slice::slice_to_vec(bytes))
    }

    /// Counts a block: every block that is not ignored takes a number, also where
    /// it is dropped.
    pub fn count(&mut self, fate: BlockFate)
        requires
            old(self).sequence < u64::MAX,
        ensures
            *final(self) == (CallbackState {
                sequence: (old(self).sequence + fate.numbers()) as u64,
                ..*old(self)
            }),
    {
        if fate != BlockFate::Ignored {
            self.sequence = self.sequence + 1;
        }
    }

    /// Whether a block of these bytes leads from one state to the other: one of the right
    /// length is handed on once, under its number, unless the reception ends; one that
    /// finds no room is counted as dropped.
    pub open spec fn takes_block(
        self,
        after: CallbackState,
        bytes: Seq<u8>,
        fate: BlockFate,
    ) -> bool {
        let ending = after.stopping.seen().last();
        let offer = after.tx.offers().last();
        &&& after.sequence == self.sequence + fate.numbers()
        &&& if bytes.len() == USB_BYTES {
            after.stopping.seen() == self.stopping.seen().push(ending)
        } else {
            after.stopping.seen() == self.stopping.seen()
        }
        &&& if bytes.len() != USB_BYTES || ending {
            &&& fate == BlockFate::Ignored
            &&& after.tx.offers() == self.tx.offers()
        } else {
            &&& fate == (if offer.taken {
                BlockFate::Queued
            } else {
                BlockFate::Dropped
            })
            &&& after.tx.offers() == self.tx.offers().push(offer)
            &&& offer.message.0 == self.sequence
            &&& offer.message.1@ == bytes
        }
        &&& after.dropped.counted() == self.dropped.counted() + (if fate == BlockFate::Dropped {
            1int
        } else {
            0
        })
    }

    /// Takes a block from the driver: copies it and hands it on without waiting; a
    /// block that finds no room is counted as dropped. Whether the reception ends and
    /// whether there is room rests on the other threads.
    pub fn receive(&mut self, bytes: &[u8]) -> (fate: BlockFate)
        requires
            old(self).sequence < u64::MAX,
        ensures
            old(self).takes_block(*final(self), bytes@, fate),
    {
        let stopping: bool = bytes.len() != USB_BYTES || self.stopping.is_raised();
        let sent: bool = if stopping {
            false
        } else {
            let message: (u64, Vec<u8>) = self.message(bytes);
            self.tx.try_send(message).is_ok()
        };
        let fate: BlockFate = block_fate(bytes.len(), stopping, sent);
        if fate == BlockFate::Dropped {
            self.dropped.count(1);
        }
        self.count(fate);
        fate
    }
}

/// A running reception.
pub struct UsbSource {
    /// The blocks that the callback hands on.
    pub rx: Inbox<(u64, Vec<u8>)>,
    /// The number of the next block.
    pub expected: u64,
    /// The gains of the tuner, in tenths of a decibel.
    pub gain_steps: Vec<i32>,
    /// The gain that the tuner confirmed, in tenths of a decibel.
    pub applied_gain_db: i32,
    /// The centre that the tuner confirmed, in hertz.
    pub center_hz: i64,
}

/// A byte of the converter: twice its distance from the middle of the range, so
/// that 255 is full scale.
pub open spec fn centred(byte: u8) -> int {
    2 * byte - 255
}

/// The samples of a block: pairs of bytes, the in-phase part first.
pub open spec fn iq_samples(bytes: Seq<u8>) -> Seq<(i16, i16)> {
    Seq::new(
        if bytes.len() / 2 < BLOCK_SIZE {
            bytes.len() / 2
        } else {
            BLOCK_SIZE as nat
        },
        |i: int| (centred(bytes[2 * i]) as i16, centred(bytes[2 * i + 1]) as i16),
    )
}

/// How long a block is waited for, in milliseconds.
pub const BLOCK_TIMEOUT_MS: u32 = 1_000;

impl UsbSource {
    /// What becomes of a block that was received, or of none. A gap in the numbers ends
    /// the reception.
    pub open spec fn accepts(
        self,
        after: UsbSource,
        received: Option<(u64, Vec<u8>)>,
        r: Result<Vec<(i16, i16)>, String>,
    ) -> bool {
        match received {
            None => {
                &&& r matches Err(e)
                &&& e@ == "SDR déconnecté ou flux USB interrompu"@
                &&& after == (UsbSource { rx: after.rx, ..self })
            },
            Some((sequence, bytes)) => if sequence != self.expected {
                &&& r matches Err(e)
                &&& e@ == "Surcharge USB : réception arrêtée. Reconnectez le SDR."@
                &&& after == (UsbSource { rx: after.rx, ..self })
            } else {
                &&& r matches Ok(samples)
                &&& samples@ == iq_samples(bytes@)
                &&& after == (UsbSource {
                    rx: after.rx,
                    expected: (sequence + 1) as u64,
                    ..self
                })
            },
        }
    }

    /// Waits for the next block, for a second at most. Which block comes rests on the
    /// device; whatever it is, it becomes what `accept` makes of it.
    pub fn read(&mut self) -> (r: Result<Vec<(i16, i16)>, String>)
        requires
            old(self).expected < u64::MAX,
        ensures
            ({
                let received = final(self).rx.found().last();
                &&& final(self).rx.found() == old(self).rx.found().push(received)
                &&& old(self).accepts(*final(self), received, r)
            }),
    {
        let received: Option<(u64, Vec<u8>)> = self.rx.recv_timeout(BLOCK_TIMEOUT_MS);
        self.accept(received)
    }

    /// Samples per second.
    pub fn sample_rate(&self) -> (r: u32)
        ensures
            r == IQ_RATE,
    {
        IQ_RATE
    }

    /// Refuses a buffer that does not hold exactly one block.
    pub fn check_room(room: usize) -> (r: Result<(), String>)
        ensures
            room == BLOCK_SIZE ==> r is Ok,
            room != BLOCK_SIZE ==> (r matches Err(e) && e@ == "Taille du bloc USB invalide"@),
    {
        if room != BLOCK_SIZE {
            Err("Taille du bloc USB invalide".to_owned())
        } else {
            Ok(())
        }
    }

    /// Takes a block that was received: its number and its bytes, or nothing where none
    /// came in time. A gap in the numbers ends the reception. The samples are fractions
    /// of 255.
    pub fn accept(&mut self, received: Option<(u64, Vec<u8>)>) -> (r: Result<
        Vec<(i16, i16)>,
        String,
    >)
        requires
            old(self).expected < u64::MAX,
        ensures
            old(self).accepts(*final(self), received, r),
            final(self).rx == old(self).rx,
    {
        match received {
            None => Err("SDR déconnecté ou flux USB interrompu".to_owned()),
            Some((sequence, bytes)) => {
                if sequence != self.expected {
                    return Err("Surcharge USB : réception arrêtée. Reconnectez le SDR.".to_owned());
                }
                self.expected = sequence + 1;
                let count: usize = if bytes.len() / 2 < BLOCK_SIZE {
                    bytes.len() / 2
                } else {
                    BLOCK_SIZE
                };
                let mut samples: Vec<(i16, i16)> = Vec::with_capacity(count);
                let mut i: usize = 0;
                while i < count
                    invariant
                        i <= count,
                        2 * count <= bytes.len(),
                        count == iq_samples(bytes@).len(),
                        samples@ == iq_samples(bytes@).take(i as int),
                    decreases count - i,
                {
                    let pair: (i16, i16) = (
                        2 * (bytes[2 * i] as i16) - 255,
                        2 * (bytes[2 * i + 1] as i16) - 255,
                    );
                    samples.push(pair);
                    assert(iq_samples(bytes@).take(i + 1) =~= iq_samples(bytes@).take(
                        i as int,
                    ).push(pair));
                    i += 1;
                }
                assert(iq_samples(bytes@).take(count as int) =~= iq_samples(bytes@));
                Ok(samples)
            },
        }
    }

    /// The gain to ask the tuner for, where the device is still open.
    pub fn gain_command(&self, requested_db: i32, connected: bool) -> (r: Result<i32, String>)
        ensures
            !connected ==> (r matches Err(e) && e@ == "SDR USB déconnecté"@),
            connected ==> r is Ok,
            connected && self.gain_steps@.len() == 0 ==> r == Ok::<i32, String>(0),
            connected && self.gain_steps@.len() > 0 ==> is_nearest_gain(
                self.gain_steps@,
                requested_db as int,
                r->Ok_0,
            ),
    {
        if !connected {
            return Err("SDR USB déconnecté".to_owned());
        }
        Ok(closest_gain(self.gain_steps.as_slice(), requested_db))
    }

    /// Notes what the tuner answered to a new gain: a code, and the gain that it
    /// then has.
    pub fn set_gain(&mut self, code: i32, read_back: i32) -> (r: Result<i32, String>)
        ensures
            code != 0 ==> {
                &&& r matches Err(e)
                &&& e@ == "Gain RF refusé ("@ + signed(code as int) + ")"@
                &&& *final(self) == *old(self)
            },
            code == 0 ==> {
                &&& r == Ok::<i32, String>(read_back)
                &&& *final(self) == (UsbSource { applied_gain_db: read_back, ..*old(self) })
            },
    {
        if code != 0 {
            let mut e: String = "Gain RF refusé (".to_owned();
            push_signed(&mut e, code as i64);
            e.append(")");
            return Err(e);
        }
        self.applied_gain_db = read_back;
        Ok(read_back)
    }
}

/// One wait for a block: the source before and after it, what came, and what was made
/// of it.
pub struct Reading {
    pub before: UsbSource,
    pub after: UsbSource,
    pub received: Option<(u64, Vec<u8>)>,
    pub result: Result<Vec<(i16, i16)>, String>,
}

/// The number of the block that came with a wait.
pub open spec fn number(reading: Reading) -> int {
    (reading.received->0).0 as int
}

/// Whether the wait `k` expects the block that the last one left to come.
pub open spec fn goes_on(readings: Seq<Reading>, k: int) -> bool {
    readings[k].before.expected == readings[k - 1].after.expected
}

/// Whether a source waits for one block after another; in between it may be tuned. The
/// callback numbers the blocks of the device in their order.
pub open spec fn is_reading(readings: Seq<Reading>) -> bool {
    &&& forall|k: int|
        0 <= k < readings.len() ==> {
            let r = #[trigger] readings[k];
            r.before.expected < u64::MAX && r.before.accepts(r.after, r.received, r.result)
        }
    &&& forall|k: int| 0 < k < readings.len() ==> #[trigger] goes_on(readings, k)
    &&& forall|i: int, j: int|
        0 <= i < j < readings.len() && (#[trigger] readings[i]).received is Some && (
        #[trigger] readings[j]).received is Some ==> number(readings[i]) < number(readings[j])
}

/// No block that is still to come bears a number below the expected one.
proof fn lemma_expected(readings: Seq<Reading>, k: int, j: int)
    requires
        is_reading(readings),
        readings[0].before.expected == 0,
        0 <= k <= j < readings.len(),
        readings[j].received is Some,
    ensures
        readings[k].before.expected <= number(readings[j]),
    decreases k,
{
    if k > 0 {
        lemma_expected(readings, k - 1, j);
        let last = readings[k - 1];
        assert(last.before.accepts(last.after, last.received, last.result));
        assert(goes_on(readings, k));
    }
}

/// How many of the first `n` waits gave a block.
pub open spec fn successes(readings: Seq<Reading>, n: nat) -> nat
    decreases n,
{
    if n == 0 {
        0
    } else {
        successes(readings, (n - 1) as nat) + (if readings[n - 1].result is Ok {
            1nat
        } else {
            0
        })
    }
}

/// A source that starts with the first block of the device gives a block exactly where its
/// number is that of the blocks that were given before, and then its samples.
pub proof fn blocks_are_read_in_order(readings: Seq<Reading>, k: nat)
    requires
        is_reading(readings),
        readings[0].before.expected == 0,
        k < readings.len(),
    ensures
        readings[k as int].before.expected == successes(readings, k),
        readings[k as int].result is Ok <==> readings[k as int].received is Some && number(
            readings[k as int],
        ) == successes(readings, k),
        readings[k as int].result matches Ok(samples) ==> samples@ == iq_samples(
            (readings[k as int].received->0).1@,
        ),
    decreases k,
{
    let r = readings[k as int];
    assert(r.before.accepts(r.after, r.received, r.result));
    if k > 0 {
        blocks_are_read_in_order(readings, (k - 1) as nat);
        let last = readings[k - 1];
        assert(last.before.accepts(last.after, last.received, last.result));
        assert(goes_on(readings, k as int));
    }
}

/// One step of a callback: the state before and after a block of these bytes, and what
/// became of the block.
pub struct Callback {
    pub before: CallbackState,
    pub after: CallbackState,
    pub bytes: Seq<u8>,
    pub fate: BlockFate,
}

/// Whether the step `k` goes on where the last one ended.
pub open spec fn calls_on(calls: Seq<Callback>, k: int) -> bool {
    calls[k].before == calls[k - 1].after
}

/// Whether a callback takes one block after another, from its first on.
pub open spec fn is_callback_run(calls: Seq<Callback>) -> bool {
    &&& calls.len() > 0
    &&& calls[0].before.sequence == 0
    &&& calls[0].before.tx.offers().len() == 0
    &&& forall|k: int|
        0 <= k < calls.len() ==> (#[trigger] calls[k]).before.sequence < u64::MAX
            && calls[k].before.takes_block(calls[k].after, calls[k].bytes, calls[k].fate)
    &&& forall|k: int| 0 < k < calls.len() ==> #[trigger] calls_on(calls, k)
}

/// The callback numbers the blocks that it hands on from zero, in their order, also those
/// that find no room.
pub proof fn blocks_are_numbered_in_order(calls: Seq<Callback>, n: int, i: int)
    requires
        is_callback_run(calls),
        0 <= n < calls.len(),
        0 <= i < calls[n].after.tx.offers().len(),
    ensures
        calls[n].after.tx.offers()[i].message.0 == i,
{
    lemma_numbered(calls, n);
}

proof fn lemma_numbered(calls: Seq<Callback>, n: int)
    requires
        is_callback_run(calls),
        0 <= n < calls.len(),
    ensures
        calls[n].after.sequence == calls[n].after.tx.offers().len(),
        forall|i: int|
            0 <= i < calls[n].after.tx.offers().len() ==> (
            #[trigger] calls[n].after.tx.offers()[i]).message.0 == i,
    decreases n,
{
    let c = calls[n];
    assert(c.before.takes_block(c.after, c.bytes, c.fate));
    if n > 0 {
        lemma_numbered(calls, n - 1);
        assert(calls_on(calls, n));
    }
    let (old, new) = (c.before.tx.offers(), c.after.tx.offers());
    assert forall|i: int| 0 <= i < new.len() implies (#[trigger] new[i]).message.0 == i by {
        if i < old.len() {
            assert(new[i] == old[i]);
        }
    }
}

/// Once a block was lost, the source gives no block any more: a reception that starts
/// with the first block of the device, and gets one out of order, refuses it and all that
/// come after it, and still expects the lost one.
pub proof fn a_lost_block_ends_the_reception(readings: Seq<Reading>, lost: int, j: int)
    requires
        is_reading(readings),
        readings[0].before.expected == 0,
        0 <= lost <= j < readings.len(),
        readings[lost].received is Some,
        number(readings[lost]) != readings[lost].before.expected,
    ensures
        readings[j].result is Err,
        readings[j].after.expected == readings[lost].before.expected,
    decreases j,
{
    let r = readings[j];
    assert(r.before.accepts(r.after, r.received, r.result));
    lemma_expected(readings, lost, lost);
    if j > lost {
        a_lost_block_ends_the_reception(readings, lost, j - 1);
        assert(goes_on(readings, j));
        if r.received is Some {
            assert(number(readings[lost]) < number(readings[j]));
        }
    }
}

/// Chooses the driver library: the first of the places that were looked at where
/// it is present.
pub fn choose_driver(present: &[bool]) -> (r: Result<usize, String>)
    ensures
        match r {
            Ok(i) => i < present@.len() && present@[i as int] && forall|j: int|
                0 <= j < i ==> !present@[j],
            Err(e) => {
                &&& forall|j: int| 0 <= j < present@.len() ==> !present@[j]
                &&& e@
                    == "Driver RTL-SDR absent : placer rtlsdr.dll x64 et ses dépendances dans drivers/ à côté du programme."@
            },
        },
{
    let mut i: usize = 0;
    while i < present.len()
        invariant
            i <= present@.len(),
            forall|j: int| 0 <= j < i ==> !present@[j],
        decreases present@.len() - i,
    {
        if present[i] {
            return Ok(i);
        }
        i += 1;
    }
    Err(
        "Driver RTL-SDR absent : placer rtlsdr.dll x64 et ses dépendances dans drivers/ à côté du programme.".to_owned(),
    )
}

/// A device that stands at the place of the active one and could not be described, the first
/// of them, is shown as the active one; every other device is shown as it was found.
pub proof fn active_device_keeps_its_label(devices: Seq<DeviceView>, active: DeviceView, i: int)
    requires
        0 <= i < devices.len(),
        devices[i].index == active.index,
        devices[i].serial.len() == 0,
        forall|j: int|
            0 <= j < i ==> (#[trigger] devices[j]).index != active.index || devices[j].serial.len()
                > 0,
    ensures
        labelled(devices, active).len() == devices.len(),
        labelled(devices, active)[i] == active,
        forall|j: int|
            0 <= j < devices.len() && j != i ==> labelled(devices, active)[j] == devices[j],
{
    lemma_first_busy(devices, active, i);
}

/// The gain that is chosen is one of the tuner's, none of them is nearer to what was asked
/// for, and of those that are equally near it is the first.
pub proof fn nearest_gain_is_the_first_of_the_nearest(
    steps: Seq<i32>,
    requested: int,
    gain: i32,
    j: int,
)
    requires
        is_nearest_gain(steps, requested, gain),
        0 <= j < steps.len(),
    ensures
        steps.contains(gain),
        ({
            let (a, b) = (
                if gain >= requested {
                    gain - requested
                } else {
                    requested - gain
                },
                if steps[j] >= requested {
                    steps[j] - requested
                } else {
                    requested - steps[j]
                },
            );
            &&& a <= b
            &&& a == b && steps[j] != gain ==> exists|i: int| 0 <= i < j && steps[i] == gain
        }),
{
    let i = choose|i: int| #[trigger] is_closest(steps, requested, i) && steps[i] == gain;
    assert(gain_distance(steps[i] as int, requested) <= gain_distance(steps[j] as int, requested));
    if j < i {
        assert(gain_distance(steps[i] as int, requested) < gain_distance(
            steps[j] as int,
            requested,
        ));
    }
}

/// A block gives a sample for every two bytes, 25 600 at most, each part of it twice its
/// byte less 255: the lowest and the highest byte are full scale on either side, and the
/// order of the bytes is kept.
pub proof fn bytes_become_samples_around_zero(bytes: Seq<u8>, i: int)
    requires
        0 <= i < 25_600,
        2 * i + 1 < bytes.len(),
    ensures
        iq_samples(bytes).len() == (if bytes.len() < 51_200 {
            bytes.len() / 2
        } else {
            25_600
        }),
        iq_samples(bytes)[i].0 + 255 == 2 * bytes[2 * i],
        iq_samples(bytes)[i].1 + 255 == 2 * bytes[2 * i + 1],
{
}

/// A text in a buffer ends before the first zero, and after 255 bytes at the latest.
pub proof fn texts_end_at_the_first_zero(bytes: Seq<u8>)
    ensures
        0 <= c_length(bytes) <= 255,
        c_length(bytes) <= bytes.len(),
        forall|i: int| 0 <= i < c_length(bytes) ==> bytes[i] != 0,
        c_length(bytes) < 255 && c_length(bytes) < bytes.len() ==> bytes[c_length(bytes)] == 0,
        c_text(bytes) == lossy_text(bytes.take(c_length(bytes))),
    decreases bytes.len(),
{
    if bytes.len() > 0 && bytes[0] != 0 {
        let rest = bytes.skip(1);
        texts_end_at_the_first_zero(rest);
        let n = c_length(bytes);
        assert forall|i: int| 0 <= i < n implies bytes[i] != 0 by {
            if i > 0 {
                assert(rest[i - 1] == bytes[i]);
            }
        }
        if n < 255 && n < bytes.len() {
            assert(rest[n - 1] == bytes[n]);
        }
    }
}

pub proof fn lemma_labelled_len(devices: Seq<DeviceView>, active: DeviceView)
    ensures
        labelled(devices, active).len() == devices.len(),
{
    lemma_first_busy_bounds(devices, active);
}

/// A device that is listed under the description of the active one stays so.
pub proof fn lemma_label_stays(devices: Seq<DeviceView>, active: DeviceView, k: int)
    requires
        0 <= k < devices.len(),
        devices[k] == active,
    ensures
        labelled(devices, active)[k] == active,
{
    lemma_first_busy_bounds(devices, active);
}

/// A block of the right length that comes while the reception goes on is handed on once, as
/// it is, under the next number, and is counted as dropped exactly where there was no room
/// for it. Anything else is ignored, and leaves no trace.
pub proof fn full_blocks_are_handed_on_once(
    before: CallbackState,
    after: CallbackState,
    bytes: Seq<u8>,
    fate: BlockFate,
)
    requires
        before.takes_block(after, bytes, fate),
    ensures
        ({
            let offers = after.tx.offers();
            let n = before.tx.offers().len();
            if bytes.len() == 51_200 && !after.stopping.seen().last() {
                &&& offers.len() == n + 1
                &&& offers.take(n as int) == before.tx.offers()
                &&& offers[n as int].message.0 == before.sequence
                &&& offers[n as int].message.1@ == bytes
                &&& after.sequence == before.sequence + 1
                &&& fate == BlockFate::Queued <==> offers[n as int].taken
                &&& fate == BlockFate::Dropped <==> !offers[n as int].taken
                &&& after.dropped.counted() - before.dropped.counted() == (if offers[n as int].taken {
                    0int
                } else {
                    1
                })
            } else {
                &&& offers == before.tx.offers()
                &&& after.sequence == before.sequence
                &&& after.dropped.counted() == before.dropped.counted()
                &&& fate == BlockFate::Ignored
            }
        }),
{
    let n = before.tx.offers().len();
    if bytes.len() == USB_BYTES && !after.stopping.seen().last() {
        assert(after.tx.offers().take(n as int) =~= before.tx.offers());
    }
}

/// A device is shown with its name first, then the number of its place, counted from one, and
/// its serial number last, where that is known.
pub proof fn labels_tell_name_place_and_serial_number(d: DeviceView)
    ensures
        ({
            let label = device_label(d);
            let from = d.name.len() + 7;
            let digits = decimal((d.index + 1) as nat);
            &&& label.take(d.name.len() as int) == d.name
            &&& from + digits.len() <= label.len()
            &&& label.subrange(from as int, (from + digits.len()) as int) == digits
            &&& crate::decimal::digits_value(digits) == d.index + 1
            &&& d.serial.len() > 0 ==> label.skip(label.len() - d.serial.len()) == d.serial
            &&& d.serial.len() > 0 ==> label.len() == d.name.len() + digits.len() + d.serial.len() + 14
        }),
{
    reveal_strlit(" · USB ");
    reveal_strlit(" · S/N ");
    let label = device_label(d);
    let from = d.name.len() + 7;
    let digits = decimal((d.index + 1) as nat);
    crate::decimal::lemma_decimal_reads_back((d.index + 1) as nat);
    assert(label.take(d.name.len() as int) =~= d.name);
    assert(label.subrange(from as int, (from + digits.len()) as int) =~= digits);
    if d.serial.len() > 0 {
        assert(label.skip(label.len() - d.serial.len()) =~= d.serial);
    }
}

/// A device that could be described has its vendor and its product as its name, without white
/// space around either, and one of them where the other is blank; else it has the name of
/// its model, or a general one. Its serial number is known only where it could be described.
pub proof fn devices_are_named_after_vendor_and_product(text: DeviceText, index: u32)
    ensures
        ({
            let d = text.describes(index);
            let (vendor, product) = (trimmed(text.vendor@), trimmed(text.product@));
            &&& d.index == index
            &&& text.read && text.named && vendor.len() > 0 && product.len() > 0 ==> d.name == vendor
                + seq![' '] + product
            &&& text.read && text.named && vendor.len() == 0 ==> d.name == product
            &&& text.read && text.named && product.len() == 0 ==> d.name == vendor
            &&& !(text.read && text.named) ==> d.name == (match text.generic {
                Some(name) => name@,
                None => "RTL-SDR"@,
            })
            &&& text.read ==> d.serial == trimmed(text.serial@)
            &&& !text.read ==> d.serial.len() == 0
        }),
{
    reveal_strlit(" ");
    let (vendor, product) = (trimmed(text.vendor@), trimmed(text.product@));
    trimmed_texts_have_no_white_space_around(text.vendor@);
    trimmed_texts_have_no_white_space_around(text.product@);
    let both = vendor + " "@ + product;
    assert(both =~= vendor + seq![' '] + product);
    if vendor.len() > 0 && product.len() > 0 {
        assert(both[0] == vendor[0]);
        assert(both.last() == product.last());
        assert(both.subrange(0, both.len() as int) =~= both);
        trimming_loses_only_white_space(both, 0, both.len() as int);
    } else if vendor.len() == 0 {
        assert(both =~= seq![' '] + product);
        white_space_around_does_not_count(product, ' ');
    } else {
        assert(both =~= vendor.push(' '));
        white_space_around_does_not_count(vendor, ' ');
    }
}

} // verus!
