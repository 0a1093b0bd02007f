//! The MIDI events a track is made of, and their byte encodings.

use crate::byte_buffer::ByteBuffer;
use crate::text::{decimal, hex_list, push_decimal, push_hex_list};
use vstd::prelude::*;
use vstd::string::StringExecFns;

verus! {

/// Mathematical model of an event: its kind, its absolute tick time and its payload.
pub enum EventView {
    SeqSpec { time: u32, data: Seq<u8> },
    MetaText { time: u32, text: Seq<char> },
    Tempo { time: u32, tempo: u32 },
    SysEx { time: u32, data: Seq<u8> },
    ProgramChange { time: u32, channel: u8, program: u8 },
    ControlChange { time: u32, channel: u8, controller: u8, value: u8 },
    NoteOn { time: u32, channel: u8, note: u8, velocity: u8 },
    NoteOff { time: u32, channel: u8, note: u8, velocity: u8 },
    EndOfTrack { time: u32 },
}

/// Status byte of a channel-voice message: `base` plus the 0-based channel
/// (`channel - 1`), modulo 256.
pub open spec fn status_byte(base: u8, channel: u8) -> u8 {
    ((base as int + channel as int + 255) % 256) as u8
}

/// The lowest eight bits of `n`.
pub open spec fn low_byte(n: int) -> u8 {
    (n % 256) as u8
}

impl EventView {
    pub open spec fn time(self) -> u32 {
        match self {
            EventView::SeqSpec { time, .. } => time,
            EventView::MetaText { time, .. } => time,
            EventView::Tempo { time, .. } => time,
            EventView::SysEx { time, .. } => time,
            EventView::ProgramChange { time, .. } => time,
            EventView::ControlChange { time, .. } => time,
            EventView::NoteOn { time, .. } => time,
            EventView::NoteOff { time, .. } => time,
            EventView::EndOfTrack { time } => time,
        }
    }

    /// The same event at another tick time.
    pub open spec fn with_time(self, t: u32) -> EventView {
        match self {
            EventView::SeqSpec { data, .. } => EventView::SeqSpec { time: t, data },
            EventView::MetaText { text, .. } => EventView::MetaText { time: t, text },
            EventView::Tempo { tempo, .. } => EventView::Tempo { time: t, tempo },
            EventView::SysEx { data, .. } => EventView::SysEx { time: t, data },
            EventView::ProgramChange { channel, program, .. } => EventView::ProgramChange {
                time: t,
                channel,
                program,
            },
            EventView::ControlChange { channel, controller, value, .. } => {
                EventView::ControlChange { time: t, channel, controller, value }
            },
            EventView::NoteOn { channel, note, velocity, .. } => EventView::NoteOn {
                time: t,
                channel,
                note,
                velocity,
            },
            EventView::NoteOff { channel, note, velocity, .. } => EventView::NoteOff {
                time: t,
                channel,
                note,
                velocity,
            },
            EventView::EndOfTrack { .. } => EventView::EndOfTrack { time: t },
        }
    }

    /// A one-line text description of the event, without its time.
    pub open spec fn description(self) -> Seq<char> {
        match self {
            EventView::SeqSpec { data, .. } => hex_list(data),
            EventView::MetaText { text, .. } => "Text: "@ + text,
            EventView::Tempo { tempo, .. } => "Tempo: "@ + decimal(tempo as nat),
            EventView::SysEx { data, .. } => "SysEx: "@ + hex_list(data),
            EventView::ProgramChange { channel, program, .. } => "ProgramChange: ch="@ + decimal(
                channel as nat,
            ) + ", program="@ + decimal(program as nat),
            EventView::ControlChange { channel, controller, value, .. } => "ControlChange: ch="@
                + decimal(channel as nat) + ", cc="@ + decimal(controller as nat) + ", val="@
                + decimal(value as nat),
            EventView::NoteOn { channel, note, velocity, .. } => "NoteOn: ch="@ + decimal(
                channel as nat,
            ) + ", note="@ + decimal(note as nat) + ", vel="@ + decimal(velocity as nat),
            EventView::NoteOff { channel, note, velocity, .. } => "NoteOff: ch="@ + decimal(
                channel as nat,
            ) + ", note="@ + decimal(note as nat) + ", vel="@ + decimal(velocity as nat),
            EventView::EndOfTrack { .. } => "EndOfTrack"@,
        }
    }

    /// The bytes of the event as it stands in a track chunk, without its delta time.
    pub open spec fn encoding(self) -> Seq<u8> {
        match self {
            EventView::SeqSpec { data, .. } => data,
            EventView::MetaText { text, .. } => {
                let bytes = vstd::utf8::encode_utf8(text);
                seq![0xFFu8, 0x01u8, low_byte(bytes.len() as int)] + bytes
            },
            EventView::Tempo { tempo, .. } => seq![
                0xFFu8,
                0x51u8,
                0x03u8,
                low_byte(tempo as int / 0x1_0000),
                low_byte(tempo as int / 256),
                low_byte(tempo as int),
            ],
            EventView::SysEx { data, .. } => seq![0xF0u8, low_byte(data.len() as int)] + data,
            EventView::ProgramChange { channel, program, .. } => seq![
                status_byte(0xC0, channel),
                program,
            ],
            EventView::ControlChange { channel, controller, value, .. } => seq![
                status_byte(0xB0, channel),
                controller,
                value,
            ],
            EventView::NoteOn { channel, note, velocity, .. } => seq![
                status_byte(0x90, channel),
                note,
                velocity,
            ],
            EventView::NoteOff { channel, note, velocity, .. } => seq![
                status_byte(0x80, channel),
                note,
                velocity,
            ],
            EventView::EndOfTrack { .. } => seq![0xFFu8, 0x2Fu8, 0x00u8],
        }
    }
}

/// The status byte for `base` on a 1-based `channel`.
fn status(base: u8, channel: u8) -> (r: u8)
    ensures
        r == status_byte(base, channel),
{
    ((base as u16 + channel as u16 + 255) % 256) as u8
}

/// What every kind of event offers: its tick time and its bytes.
pub trait TrackEvent: View<V = EventView> + Sized {
    fn lead_time(&self) -> (r: u32)
        ensures
            r == self@.time(),
    ;

    fn set_lead_time(&mut self, time: u32)
        ensures
            final(self)@ == old(self)@.with_time(time),
    ;

    fn value(&self) -> (r: String)
        ensures
            r@ == self@.description(),
    ;

    fn to_buffer(&self) -> (r: ByteBuffer)
        ensures
            r@ == self@.encoding(),
    ;

    fn clone_event(&self) -> (r: Self)
        ensures
            r@ == self@,
    ;
}

/// A sequencer-specific block of raw bytes.
#[derive(Debug, Clone)]
pub struct SeqSpec {
    time: u32,
    value: Vec<u8>,
}

impl View for SeqSpec {
    type V = EventView;

    closed spec fn view(&self) -> EventView {
        EventView::SeqSpec { time: self.time, data: self.value@ }
    }
}

impl SeqSpec {
    pub fn new(value: Vec<u8>) -> (r: Self)
        ensures
            r@ == (EventView::SeqSpec { time: 0, data: value@ }),
    {
        SeqSpec { time: 0, value }
    }
}

/// Copies a byte vector.
fn copy_bytes(v: &Vec<u8>) -> (r: Vec<u8>)
    ensures
        r@ == v@,
{
    let mut out: Vec<u8> = Vec::new();
    let mut i: usize = 0;
    while i < v.len()
        invariant
            i <= v@.len(),
            out@ == v@.subrange(0, i as int),
        decreases v@.len() - i,
    {
        out.push(v[i]);
        i = i + 1;
        assert(v@.subrange(0, i as int) == v@.subrange(0, i - 1 as int).push(v@[i - 1]));
    }
    assert(v@.subrange(0, v@.len() as int) == v@);
    out
}

impl TrackEvent for SeqSpec {
    fn lead_time(&self) -> (r: u32) {
        self.time
    }

    fn set_lead_time(&mut self, time: u32) {
        self.time = time;
    }

    fn value(&self) -> (r: String) {
        let mut s = String::new();
        push_hex_list(&mut s, self.value.as_slice());
        assert(s@ =~= self@.description());
        s
    }

    fn to_buffer(&self) -> (r: ByteBuffer) {
        let mut buffer = ByteBuffer::new();
        buffer.put_bytes_array(self.value.as_slice());
        buffer
    }

    fn clone_event(&self) -> (r: Self) {
        SeqSpec { time: self.time, value: copy_bytes(&self.value) }
    }
}

/// A text meta event.
#[derive(Debug, Clone)]
pub struct MetaText {
    time: u32,
    text: String,
}

impl View for MetaText {
    type V = EventView;

    closed spec fn view(&self) -> EventView {
        EventView::MetaText { time: self.time, text: self.text@ }
    }
}

impl MetaText {
    pub fn new(text: String) -> (r: Self)
        ensures
            r@ == (EventView::MetaText { time: 0, text: text@ }),
    {
        MetaText { time: 0, text }
    }
}

impl TrackEvent for MetaText {
    fn lead_time(&self) -> (r: u32) {
        self.time
    }

    fn set_lead_time(&mut self, time: u32) {
        self.time = time;
    }

    fn value(&self) -> (r: String) {
        let mut s = String::from_str("Text: ");
        s.append(self.text.as_str());
        s
    }

    fn to_buffer(&self) -> (r: ByteBuffer) {
        let text = self.text.as_str();
        let bytes = text.as_bytes();
        let mut buffer = ByteBuffer::new();
        buffer.put_byte(0xFF);
        buffer.put_byte(0x01);
        buffer.put_byte((bytes.len() % 256) as u8);
        buffer.put_bytes_array(bytes);
        assert(buffer@ =~= self@.encoding());
        buffer
    }

    fn clone_event(&self) -> (r: Self) {
        MetaText { time: self.time, text: self.text.clone() }
    }
}

/// A tempo meta event, in microseconds per quarter note.
#[derive(Debug, Clone)]
pub struct Tempo {
    time: u32,
    tempo: u32,
}

impl View for Tempo {
    type V = EventView;

    closed spec fn view(&self) -> EventView {
        EventView::Tempo { time: self.time, tempo: self.tempo }
    }
}

impl Tempo {
    pub fn new(tempo: u32) -> (r: Self)
        ensures
            r@ == (EventView::Tempo { time: 0, tempo }),
    {
        Tempo { time: 0, tempo }
    }
}

impl TrackEvent for Tempo {
    fn lead_time(&self) -> (r: u32) {
        self.time
    }

    fn set_lead_time(&mut self, time: u32) {
        self.time = time;
    }

    fn value(&self) -> (r: String) {
        let mut s = String::from_str("Tempo: ");
        push_decimal(&mut s, self.tempo);
        s
    }

    fn to_buffer(&self) -> (r: ByteBuffer) {
        let mut buffer = ByteBuffer::new();
        buffer.put_byte(0xFF);
        buffer.put_byte(0x51);
        buffer.put_byte(0x03);
        buffer.put_byte((self.tempo / 0x1_0000 % 256) as u8);
        buffer.put_byte((self.tempo / 256 % 256) as u8);
        buffer.put_byte((self.tempo % 256) as u8);
        buffer
    }

    fn clone_event(&self) -> (r: Self) {
        Tempo { time: self.time, tempo: self.tempo }
    }
}

/// A system-exclusive message; `data` follows the length byte.
#[derive(Debug, Clone)]
pub struct SysEx {
    time: u32,
    data: Vec<u8>,
}

impl View for SysEx {
    type V = EventView;

    closed spec fn view(&self) -> EventView {
        EventView::SysEx { time: self.time, data: self.data@ }
    }
}

impl SysEx {
    pub fn new(data: Vec<u8>) -> (r: Self)
        ensures
            r@ == (EventView::SysEx { time: 0, data: data@ }),
    {
        SysEx { time: 0, data }
    }
}

impl TrackEvent for SysEx {
    fn lead_time(&self) -> (r: u32) {
        self.time
    }

    fn set_lead_time(&mut self, time: u32) {
        self.time = time;
    }

    fn value(&self) -> (r: String) {
        let mut s = String::from_str("SysEx: ");
        push_hex_list(&mut s, self.data.as_slice());
        s
    }

    fn to_buffer(&self) -> (r: ByteBuffer) {
        let mut buffer = ByteBuffer::new();
        buffer.put_byte(0xF0);
        buffer.put_byte((self.data.len() % 256) as u8);
        buffer.put_bytes_array(self.data.as_slice());
        buffer
    }

    fn clone_event(&self) -> (r: Self) {
        SysEx { time: self.time, data: copy_bytes(&self.data) }
    }
}

/// Selects the instrument (program) of a channel.
#[derive(Debug, Clone)]
pub struct ProgramChange {
    time: u32,
    channel: u8,
    program: u8,
}

impl View for ProgramChange {
    type V = EventView;

    closed spec fn view(&self) -> EventView {
        EventView::ProgramChange { time: self.time, channel: self.channel, program: self.program }
    }
}

impl ProgramChange {
    pub fn new(channel: u8, program: u8) -> (r: Self)
        ensures
            r@ == (EventView::ProgramChange { time: 0, channel, program }),
    {
        ProgramChange { time: 0, channel, program }
    }
}

impl TrackEvent for ProgramChange {
    fn lead_time(&self) -> (r: u32) {
        self.time
    }

    fn set_lead_time(&mut self, time: u32) {
        self.time = time;
    }

    fn value(&self) -> (r: String) {
        let mut s = String::from_str("ProgramChange: ch=");
        push_decimal(&mut s, self.channel as u32);
        s.append(", program=");
        push_decimal(&mut s, self.program as u32);
        s
    }

    fn to_buffer(&self) -> (r: ByteBuffer) {
        let mut buffer = ByteBuffer::new();
        buffer.put_byte(status(0xC0, self.channel));
        buffer.put_byte(self.program);
        buffer
    }

    fn clone_event(&self) -> (r: Self) {
        ProgramChange { time: self.time, channel: self.channel, program: self.program }
    }
}

/// Sets a controller of a channel to a value.
#[derive(Debug, Clone)]
pub struct ControlChange {
    time: u32,
    channel: u8,
    controller: u8,
    value: u8,
}

impl View for ControlChange {
    type V = EventView;

    closed spec fn view(&self) -> EventView {
        EventView::ControlChange {
            time: self.time,
            channel: self.channel,
            controller: self.controller,
            value: self.value,
        }
    }
}

impl ControlChange {
    pub fn new(channel: u8, controller: u8, value: u8) -> (r: Self)
        ensures
            r@ == (EventView::ControlChange { time: 0, channel, controller, value }),
    {
        ControlChange { time: 0, channel, controller, value }
    }
}

impl TrackEvent for ControlChange {
    fn lead_time(&self) -> (r: u32) {
        self.time
    }

    fn set_lead_time(&mut self, time: u32) {
        self.time = time;
    }

    fn value(&self) -> (r: String) {
        let mut s = String::from_str("ControlChange: ch=");
        push_decimal(&mut s, self.channel as u32);
        s.append(", cc=");
        push_decimal(&mut s, self.controller as u32);
        s.append(", val=");
        push_decimal(&mut s, self.value as u32);
        s
    }

    fn to_buffer(&self) -> (r: ByteBuffer) {
        let mut buffer = ByteBuffer::new();
        buffer.put_byte(status(0xB0, self.channel));
        buffer.put_byte(self.controller);
        buffer.put_byte(self.value);
        buffer
    }

    fn clone_event(&self) -> (r: Self) {
        ControlChange {
            time: self.time,
            channel: self.channel,
            controller: self.controller,
            value: self.value,
        }
    }
}

/// Starts a note.
#[derive(Debug, Clone)]
pub struct NoteOn {
    time: u32,
    channel: u8,
    note: u8,
    velocity: u8,
}

impl View for NoteOn {
    type V = EventView;

    closed spec fn view(&self) -> EventView {
        EventView::NoteOn {
            time: self.time,
            channel: self.channel,
            note: self.note,
            velocity: self.velocity,
        }
    }
}

impl NoteOn {
    pub fn new(channel: u8, note: u8, velocity: u8) -> (r: Self)
        ensures
            r@ == (EventView::NoteOn { time: 0, channel, note, velocity }),
    {
        NoteOn { time: 0, channel, note, velocity }
    }
}

impl TrackEvent for NoteOn {
    fn lead_time(&self) -> (r: u32) {
        self.time
    }

    fn set_lead_time(&mut self, time: u32) {
        self.time = time;
    }

    fn value(&self) -> (r: String) {
        let mut s = String::from_str("NoteOn: ch=");
        push_decimal(&mut s, self.channel as u32);
        s.append(", note=");
        push_decimal(&mut s, self.note as u32);
        s.append(", vel=");
        push_decimal(&mut s, self.velocity as u32);
        s
    }

    fn to_buffer(&self) -> (r: ByteBuffer) {
        let mut buffer = ByteBuffer::new();
        buffer.put_byte(status(0x90, self.channel));
        buffer.put_byte(self.note);
        buffer.put_byte(self.velocity);
        buffer
    }

    fn clone_event(&self) -> (r: Self) {
        NoteOn { time: self.time, channel: self.channel, note: self.note, velocity: self.velocity }
    }
}

/// Ends a note.
#[derive(Debug, Clone)]
pub struct NoteOff {
    time: u32,
    channel: u8,
    note: u8,
    velocity: u8,
}

impl View for NoteOff {
    type V = EventView;

    closed spec fn view(&self) -> EventView {
        EventView::NoteOff {
            time: self.time,
            channel: self.channel,
            note: self.note,
            velocity: self.velocity,
        }
    }
}

impl NoteOff {
    pub fn new(channel: u8, note: u8, velocity: u8) -> (r: Self)
        ensures
            r@ == (EventView::NoteOff { time: 0, channel, note, velocity }),
    {
        NoteOff { time: 0, channel, note, velocity }
    }

    pub fn note(&self) -> (r: u8)
        ensures
            self@ matches EventView::NoteOff { note, .. } && r == note,
    {
        self.note
    }
}

impl TrackEvent for NoteOff {
    fn lead_time(&self) -> (r: u32) {
        self.time
    }

    fn set_lead_time(&mut self, time: u32) {
        self.time = time;
    }

    fn value(&self) -> (r: String) {
        let mut s = String::from_str("NoteOff: ch=");
        push_decimal(&mut s, self.channel as u32);
        s.append(", note=");
        push_decimal(&mut s, self.note as u32);
        s.append(", vel=");
        push_decimal(&mut s, self.velocity as u32);
        s
    }

    fn to_buffer(&self) -> (r: ByteBuffer) {
        let mut buffer = ByteBuffer::new();
        buffer.put_byte(status(0x80, self.channel));
        buffer.put_byte(self.note);
        buffer.put_byte(self.velocity);
        buffer
    }

    fn clone_event(&self) -> (r: Self) {
        NoteOff { time: self.time, channel: self.channel, note: self.note, velocity: self.velocity }
    }
}

/// Marks the end of a track.
#[derive(Debug, Clone)]
pub struct EndOfTrack {
    time: u32,
}

impl View for EndOfTrack {
    type V = EventView;

    closed spec fn view(&self) -> EventView {
        EventView::EndOfTrack { time: self.time }
    }
}

impl EndOfTrack {
    pub fn new() -> (r: Self)
        ensures
            r@ == (EventView::EndOfTrack { time: 0 }),
    {
        EndOfTrack { time: 0 }
    }
}

impl Default for EndOfTrack {
    fn default() -> (r: Self)
        ensures
            r@ == (EventView::EndOfTrack { time: 0 }),
    {
        Self::new()
    }
}

impl TrackEvent for EndOfTrack {
    fn lead_time(&self) -> (r: u32) {
        self.time
    }

    fn set_lead_time(&mut self, time: u32) {
        self.time = time;
    }

    fn value(&self) -> (r: String) {
        String::from_str("EndOfTrack")
    }

    fn to_buffer(&self) -> (r: ByteBuffer) {
        let mut buffer = ByteBuffer::new();
        buffer.put_byte(0xFF);
        buffer.put_byte(0x2F);
        buffer.put_byte(0x00);
        buffer
    }

    fn clone_event(&self) -> (r: Self) {
        EndOfTrack { time: self.time }
    }
}

} // verus!

verus! {

/// Any one of the event kinds; a track is a sequence of these.
#[derive(Debug)]
pub enum MidiEvent {
    SeqSpec(SeqSpec),
    MetaText(MetaText),
    Tempo(Tempo),
    SysEx(SysEx),
    ProgramChange(ProgramChange),
    ControlChange(ControlChange),
    NoteOn(NoteOn),
    NoteOff(NoteOff),
    EndOfTrack(EndOfTrack),
}

impl View for MidiEvent {
    type V = EventView;

    open spec fn view(&self) -> EventView {
        match self {
            MidiEvent::SeqSpec(e) => e@,
            MidiEvent::MetaText(e) => e@,
            MidiEvent::Tempo(e) => e@,
            MidiEvent::SysEx(e) => e@,
            MidiEvent::ProgramChange(e) => e@,
            MidiEvent::ControlChange(e) => e@,
            MidiEvent::NoteOn(e) => e@,
            MidiEvent::NoteOff(e) => e@,
            MidiEvent::EndOfTrack(e) => e@,
        }
    }
}

/// The models of a sequence of events.
pub open spec fn views_of(events: Seq<MidiEvent>) -> Seq<EventView> {
    events.map_values(|e: MidiEvent| e@)
}

impl TrackEvent for MidiEvent {
    fn lead_time(&self) -> (r: u32) {
        match self {
            MidiEvent::SeqSpec(e) => e.lead_time(),
            MidiEvent::MetaText(e) => e.lead_time(),
            MidiEvent::Tempo(e) => e.lead_time(),
            MidiEvent::SysEx(e) => e.lead_time(),
            MidiEvent::ProgramChange(e) => e.lead_time(),
            MidiEvent::ControlChange(e) => e.lead_time(),
            MidiEvent::NoteOn(e) => e.lead_time(),
            MidiEvent::NoteOff(e) => e.lead_time(),
            MidiEvent::EndOfTrack(e) => e.lead_time(),
        }
    }

    fn set_lead_time(&mut self, time: u32) {
        match self {
            MidiEvent::SeqSpec(e) => e.set_lead_time(time),
            MidiEvent::MetaText(e) => e.set_lead_time(time),
            MidiEvent::Tempo(e) => e.set_lead_time(time),
            MidiEvent::SysEx(e) => e.set_lead_time(time),
            MidiEvent::ProgramChange(e) => e.set_lead_time(time),
            MidiEvent::ControlChange(e) => e.set_lead_time(time),
            MidiEvent::NoteOn(e) => e.set_lead_time(time),
            MidiEvent::NoteOff(e) => e.set_lead_time(time),
            MidiEvent::EndOfTrack(e) => e.set_lead_time(time),
        }
    }

    fn value(&self) -> (r: String) {
        match self {
            MidiEvent::SeqSpec(e) => e.value(),
            MidiEvent::MetaText(e) => e.value(),
            MidiEvent::Tempo(e) => e.value(),
            MidiEvent::SysEx(e) => e.value(),
            MidiEvent::ProgramChange(e) => e.value(),
            MidiEvent::ControlChange(e) => e.value(),
            MidiEvent::NoteOn(e) => e.value(),
            MidiEvent::NoteOff(e) => e.value(),
            MidiEvent::EndOfTrack(e) => e.value(),
        }
    }

    fn to_buffer(&self) -> (r: ByteBuffer) {
        match self {
            MidiEvent::SeqSpec(e) => e.to_buffer(),
            MidiEvent::MetaText(e) => e.to_buffer(),
            MidiEvent::Tempo(e) => e.to_buffer(),
            MidiEvent::SysEx(e) => e.to_buffer(),
            MidiEvent::ProgramChange(e) => e.to_buffer(),
            MidiEvent::ControlChange(e) => e.to_buffer(),
            MidiEvent::NoteOn(e) => e.to_buffer(),
            MidiEvent::NoteOff(e) => e.to_buffer(),
            MidiEvent::EndOfTrack(e) => e.to_buffer(),
        }
    }

    fn clone_event(&self) -> (r: Self) {
        match self {
            MidiEvent::SeqSpec(e) => MidiEvent::SeqSpec(e.clone_event()),
            MidiEvent::MetaText(e) => MidiEvent::MetaText(e.clone_event()),
            MidiEvent::Tempo(e) => MidiEvent::Tempo(e.clone_event()),
            MidiEvent::SysEx(e) => MidiEvent::SysEx(e.clone_event()),
            MidiEvent::ProgramChange(e) => MidiEvent::ProgramChange(e.clone_event()),
            MidiEvent::ControlChange(e) => MidiEvent::ControlChange(e.clone_event()),
            MidiEvent::NoteOn(e) => MidiEvent::NoteOn(e.clone_event()),
            MidiEvent::NoteOff(e) => MidiEvent::NoteOff(e.clone_event()),
            MidiEvent::EndOfTrack(e) => MidiEvent::EndOfTrack(e.clone_event()),
        }
    }
}

} // verus!
