//! Serialises the tracks of one or more scores into a Standard MIDI File.

use crate::byte_buffer::ByteBuffer;
use crate::errors::ConversionError;
use crate::mf2tt2mf::{MAX_MML_CHARS, Mf2tt2mf, score_tracks};
use crate::mml::score_parts;
use crate::scan::{all_encodable, times_sorted};
use crate::track_event::{EventView, MidiEvent, TrackEvent, low_byte, views_of};
use vstd::prelude::*;

verus! {

/// Ticks per quarter note written in the file header.
pub const TIMEBASE: u16 = 96;

/// Tracks made from each score.
pub const TRACKS_PER_MML: u16 = 3;

/// Pan value of every track: the centre.
pub const DEFAULT_PAN: u8 = 64;

/// Reverb value of every track.
pub const DEFAULT_REVERB: u8 = 0;

/// Most scores whose track count fits the 16-bit header field.
pub const MAX_SCORES: usize = 21845;

// ----- variable-length quantities -----

/// The leading bytes of a variable-length quantity: seven bits each, all with the
/// continuation bit set.
pub open spec fn vlq_high(n: nat) -> Seq<u8>
    decreases n,
{
    if n < 128 {
        seq![(n + 128) as u8]
    } else {
        vlq_high(n / 128).push((n % 128 + 128) as u8)
    }
}

/// MIDI variable-length quantity: seven bits per byte, most significant group
/// first, the continuation bit set on every byte but the last.
pub open spec fn vlq(n: nat) -> Seq<u8> {
    if n < 128 {
        seq![n as u8]
    } else {
        vlq_high(n / 128).push((n % 128) as u8)
    }
}

fn push_vlq_high(buf: &mut ByteBuffer, n: u32)
    ensures
        final(buf)@ == old(buf)@ + vlq_high(n as nat),
    decreases n,
{
    if n < 128 {
        buf.put_byte((n + 128) as u8);
        assert(final(buf)@ =~= old(buf)@ + vlq_high(n as nat));
    } else {
        push_vlq_high(buf, n / 128);
        buf.put_byte((n % 128 + 128) as u8);
        assert(final(buf)@ =~= old(buf)@ + vlq_high(n as nat));
    }
}

/// Encodes `value` as a variable-length quantity.
pub fn write_var_len(value: u32) -> (r: ByteBuffer)
    ensures
        r@ == vlq(value as nat),
{
    let mut buf = ByteBuffer::new();
    if value < 128 {
        buf.put_byte(value as u8);
    } else {
        push_vlq_high(&mut buf, value / 128);
        buf.put_byte((value % 128) as u8);
    }
    assert(buf@ =~= vlq(value as nat));
    buf
}

// ----- track chunks -----

/// Running status: a status byte is written unless it is a channel-voice status
/// (0x80 to 0xEF) equal to the one written last.
pub open spec fn status_written(status: u8, last: u8) -> bool {
    status < 0x80 || status > 0xEF || status != last
}

/// The bytes of `evs` in a track chunk: each event's delta time from `prev`, its
/// status byte when running status asks for it, and the rest of its bytes.
/// `last` is the status byte of the event before.
pub open spec fn track_body(evs: Seq<EventView>, prev: int, last: u8) -> Seq<u8>
    decreases evs.len(),
{
    if evs.len() == 0 {
        Seq::empty()
    } else {
        let e = evs[0];
        let b = e.encoding();
        let status = b[0];
        vlq((e.time() - prev) as nat) + (if status_written(status, last) {
            seq![status]
        } else {
            Seq::empty()
        }) + b.subrange(1, b.len() as int) + track_body(evs.skip(1), e.time() as int, status)
    }
}

pub open spec fn be16(n: nat) -> Seq<u8> {
    seq![low_byte(n as int / 256), low_byte(n as int)]
}

pub open spec fn be32(n: nat) -> Seq<u8> {
    seq![
        low_byte(n as int / 0x100_0000),
        low_byte(n as int / 0x1_0000),
        low_byte(n as int / 256),
        low_byte(n as int),
    ]
}

/// `MTrk`, the body's length in 32 bits, the body.
pub open spec fn track_chunk(evs: Seq<EventView>) -> Seq<u8> {
    let body = track_body(evs, 0, 0);
    seq![0x4Du8, 0x54, 0x72, 0x6B] + be32(body.len() % 0x1_0000_0000) + body
}

/// `MThd`, length 6, format 1, the track count and the timebase.
pub open spec fn file_header(track_count: nat, timebase: nat) -> Seq<u8> {
    seq![0x4Du8, 0x54, 0x68, 0x64, 0x00, 0x00, 0x00, 0x06, 0x00, 0x01] + be16(track_count) + be16(
        timebase,
    )
}

/// The chunks of `tracks`, one after the other.
pub open spec fn chunks(tracks: Seq<Seq<EventView>>) -> Seq<u8>
    decreases tracks.len(),
{
    if tracks.len() == 0 {
        Seq::empty()
    } else {
        chunks(tracks.drop_last()) + track_chunk(tracks.last())
    }
}

/// The channel of the score at `index`: `index + 1`, in 8 bits.
pub open spec fn channel_of(index: int) -> u8 {
    ((index + 1) % 256) as u8
}

/// The tracks of the score at `index`, on its channel with its instrument.
pub open spec fn tracks_of_score(mmls: Seq<Seq<char>>, insts: Seq<u8>, index: int) -> Seq<
    Seq<EventView>,
> {
    score_tracks(mmls[index], channel_of(index), insts[index], DEFAULT_PAN, DEFAULT_REVERB)->Some_0
}

/// The chunks of the first `n` scores.
pub open spec fn scores_chunks(mmls: Seq<Seq<char>>, insts: Seq<u8>, n: int) -> Seq<u8>
    decreases n,
{
    if n <= 0 {
        Seq::empty()
    } else {
        scores_chunks(mmls, insts, n - 1) + chunks(tracks_of_score(mmls, insts, n - 1))
    }
}

/// The whole file for the scores `mmls` played by the instruments `insts`.
pub open spec fn midi_file(mmls: Seq<Seq<char>>, insts: Seq<u8>) -> Seq<u8> {
    file_header(3 * mmls.len(), TIMEBASE as nat) + scores_chunks(mmls, insts, mmls.len() as int)
}

/// Index of the first score that does not have the three-part shape, from `i` on.
pub open spec fn first_unreadable(mmls: Seq<Seq<char>>, i: int) -> Option<int>
    decreases mmls.len() - i,
{
    if i < 0 || i >= mmls.len() {
        None
    } else if score_parts(mmls[i]) is None {
        Some(i)
    } else {
        first_unreadable(mmls, i + 1)
    }
}

/// Running status: of two consecutive events, the second one's status byte is
/// left out exactly when it is a channel-voice status (0x80 to 0xEF) equal to
/// the first one's; a different kind or channel writes it again.
pub proof fn lemma_running_status(
    e1: EventView,
    e2: EventView,
    rest: Seq<EventView>,
    prev: int,
    last: u8,
)
    requires
        e1.encoding().len() > 0,
        e2.encoding().len() > 0,
    ensures
        ({
            let s1 = e1.encoding()[0];
            let b2 = e2.encoding();
            let s2 = b2[0];
            track_body(seq![e1, e2] + rest, prev, last) == track_body(seq![e1], prev, last) + vlq(
                (e2.time() - e1.time()) as nat,
            ) + (if 0x80 <= s2 <= 0xEF && s2 == s1 {
                Seq::empty()
            } else {
                seq![s2]
            }) + b2.subrange(1, b2.len() as int) + track_body(rest, e2.time() as int, s2)
        }),
{
    let all = seq![e1, e2] + rest;
    assert(all[0] == e1);
    assert(all.skip(1) =~= seq![e2] + rest);
    assert((seq![e2] + rest)[0] == e2);
    assert((seq![e2] + rest).skip(1) =~= rest);
    assert(seq![e1].skip(1) =~= Seq::<EventView>::empty());
    let s1 = e1.encoding()[0];
    let b1 = e1.encoding();
    let b2 = e2.encoding();
    let s2 = b2[0];
    let p1 = vlq((e1.time() - prev) as nat) + (if status_written(s1, last) {
        seq![s1]
    } else {
        Seq::empty()
    }) + b1.subrange(1, b1.len() as int);
    let p2 = vlq((e2.time() - e1.time()) as nat) + (if status_written(s2, s1) {
        seq![s2]
    } else {
        Seq::empty()
    }) + b2.subrange(1, b2.len() as int);
    assert(track_body(Seq::<EventView>::empty(), e1.time() as int, s1) == Seq::<u8>::empty());
    assert(track_body(seq![e1], prev, last) == p1 + track_body(
        seq![e1].skip(1),
        e1.time() as int,
        s1,
    ));
    assert(track_body(seq![e1], prev, last) =~= p1);
    assert(track_body(seq![e2] + rest, e1.time() as int, s1) == p2 + track_body(
        rest,
        e2.time() as int,
        s2,
    ));
    assert(track_body(all, prev, last) == p1 + track_body(seq![e2] + rest, e1.time() as int, s1));
    assert(track_body(all, prev, last) =~= p1 + (p2 + track_body(rest, e2.time() as int, s2)));
}

/// Determinism: the bytes depend on the scores and the instruments alone, so two
/// converters that hold the same ones give the same file, or fail the same way.
pub proof fn lemma_deterministic(a: YksConverter, b: YksConverter)
    requires
        a.mmls() == b.mmls(),
        a.insts() == b.insts(),
    ensures
        first_unreadable(a.mmls(), 0) == first_unreadable(b.mmls(), 0),
        midi_file(a.mmls(), a.insts()) == midi_file(b.mmls(), b.insts()),
{
}

/// Serialises one track's events, in time order, into the body of a track chunk
/// with delta times and running status. Fails, with the empty description of
/// the event, when an event has no bytes.
pub fn encode_track(events: &[MidiEvent]) -> (r: Result<ByteBuffer, ConversionError>)
    requires
        times_sorted(views_of(events@)),
    ensures
        all_encodable(views_of(events@)) ==> (r matches Ok(b) && b@ == track_body(
            views_of(events@),
            0,
            0,
        )),
        !all_encodable(views_of(events@)) ==> (r matches Err(
            ConversionError::EventConversionFailed(s),
        ) && s@ == Seq::<char>::empty()),
{
    let ghost v = views_of(events@);
    let mut time: u32 = 0;
    let mut last: u8 = 0;
    let mut track_buffer = ByteBuffer::new();
    let mut i: usize = 0;
    assert(v.skip(0) =~= v);
    while i < events.len()
        invariant
            v == views_of(events@),
            times_sorted(v),
            i <= v.len(),
            i > 0 ==> time == v[i - 1].time(),
            i == 0 ==> time == 0,
            track_buffer@ + track_body(v.skip(i as int), time as int, last) == track_body(v, 0, 0),
            forall|j: int| 0 <= j < i ==> (#[trigger] v[j]).encoding().len() > 0,
        decreases v.len() - i,
    {
        let event = &events[i];
        let t = event.lead_time();
        let delta = t - time;
        time = t;
        let var_len = write_var_len(delta);
        let event_buffer = event.to_buffer();
        if event_buffer.size() == 0 {
            return Err(ConversionError::EventConversionFailed(String::new()));
        }
        let ghost before = track_buffer@;
        let ghost b = event_buffer@;
        track_buffer.put_bytes(&var_len);
        let start = event_buffer.get_at(0);
        if start < 0x80 || start > 0xef || start != last {
            track_buffer.put_byte(start);
        }
        let mut k: usize = 1;
        while k < event_buffer.size()
            invariant
                1 <= k <= b.len(),
                b == event_buffer@,
                track_buffer@ == before + vlq(delta as nat) + (if status_written(b[0], last) {
                    seq![b[0]]
                } else {
                    Seq::empty()
                }) + b.subrange(1, k as int),
            decreases b.len() - k,
        {
            track_buffer.put_byte(event_buffer.get_at(k));
            assert(b.subrange(1, k + 1 as int) =~= b.subrange(1, k as int).push(b[k as int]));
            k = k + 1;
        }
        proof {
            let rest = v.skip(i as int);
            assert(rest[0] == v[i as int]);
            assert(rest.skip(1) =~= v.skip(i + 1));
            assert(b.subrange(1, k as int) =~= b.subrange(1, b.len() as int));
        }
        last = start;
        i = i + 1;
    }
    Ok(track_buffer)
}


/// Converts scores, each with its instrument, into one MIDI file.
pub struct YksConverter {
    mml: Vec<String>,
    inst: Vec<u8>,
}

impl YksConverter {
    /// The scores, as characters.
    pub closed spec fn mmls(&self) -> Seq<Seq<char>> {
        self.mml@.map_values(|s: String| s@)
    }

    /// The instruments (program numbers), one for each score.
    pub closed spec fn insts(&self) -> Seq<u8> {
        self.inst@
    }

    pub fn new(mml: String, inst: u8) -> (r: Self)
        ensures
            r.mmls() == seq![mml@],
            r.insts() == seq![inst],
    {
        let r = YksConverter { mml: vec![mml], inst: vec![inst] };
        assert(r.mmls() =~= seq![mml@]);
        r
    }

    pub fn new_multi(mml: Vec<String>, inst: Vec<u8>) -> (r: Self)
        ensures
            r.mmls() == mml@.map_values(|s: String| s@),
            r.insts() == inst@,
    {
        YksConverter { mml, inst }
    }

    pub fn set_mml(&mut self, mml: String)
        ensures
            final(self).mmls() == seq![mml@],
            final(self).insts() == old(self).insts(),
    {
        self.mml = vec![mml];
        assert(self.mmls() =~= seq![mml@]);
    }

    pub fn set_mml_multi(&mut self, mml: Vec<String>)
        ensures
            final(self).mmls() == mml@.map_values(|s: String| s@),
            final(self).insts() == old(self).insts(),
    {
        self.mml = mml;
    }

    pub fn set_inst(&mut self, inst: u8)
        ensures
            final(self).mmls() == old(self).mmls(),
            final(self).insts() == seq![inst],
    {
        self.inst = vec![inst];
    }

    pub fn set_inst_multi(&mut self, inst: Vec<u8>)
        ensures
            final(self).mmls() == old(self).mmls(),
            final(self).insts() == inst@,
    {
        self.inst = inst;
    }

    pub fn mml(&self) -> (r: &[String])
        ensures
            r@.map_values(|s: String| s@) == self.mmls(),
    {
        self.mml.as_slice()
    }

    pub fn inst(&self) -> (r: &[u8])
        ensures
            r@ == self.insts(),
    {
        self.inst.as_slice()
    }

    /// Converts the scores into a MIDI file: format 1, three tracks per score,
    /// 96 ticks per quarter note. Score `i` plays on channel `i + 1` with
    /// instrument `i`.
    pub fn to_buffer_result(&self) -> (r: Result<ByteBuffer, ConversionError>)
        requires
            self.mmls().len() <= MAX_SCORES,
            forall|i: int|
                0 <= i < self.mmls().len() ==> (#[trigger] self.mmls()[i]).len() <= MAX_MML_CHARS,
        ensures
            self.mmls().len() != self.insts().len() ==> r == Err::<ByteBuffer, ConversionError>(
                ConversionError::MmlInstCountMismatch {
                    mml_count: self.mmls().len() as usize,
                    inst_count: self.insts().len() as usize,
                },
            ),
            self.mmls().len() == self.insts().len() ==> match first_unreadable(self.mmls(), 0) {
                Some(i) => r matches Err(ConversionError::MmlParseFailed(s)) && s@
                    == self.mmls()[i],
                None => r matches Ok(b) && b@ == midi_file(self.mmls(), self.insts()),
            },
    {
        let n = self.mml.len();
        if n != self.inst.len() {
            return Err(
                ConversionError::MmlInstCountMismatch { mml_count: n, inst_count: self.inst.len() },
            );
        }
        let ghost mmls = self.mmls();
        let ghost insts = self.insts();
        let mut byte_buffer = ByteBuffer::new();
        byte_buffer.put_bytes_array(&[0x4Du8, 0x54, 0x68, 0x64]);
        byte_buffer.put_bytes_array(&[0x00u8, 0x00, 0x00, 0x06, 0x00]);
        byte_buffer.put_byte(1);
        byte_buffer.put_u16((n as u16) * TRACKS_PER_MML);
        byte_buffer.put_u16(TIMEBASE);
        assert(byte_buffer@ =~= file_header(3 * mmls.len(), TIMEBASE as nat));
        let mut i: usize = 0;
        while i < n
            invariant
                n == mmls.len(),
                n == insts.len(),
                mmls == self.mmls(),
                insts == self.insts(),
                i <= n,
                forall|k: int| 0 <= k < n ==> (#[trigger] mmls[k]).len() <= MAX_MML_CHARS,
                first_unreadable(mmls, 0) == first_unreadable(mmls, i as int),
                byte_buffer@ == file_header(3 * mmls.len(), TIMEBASE as nat) + scores_chunks(
                    mmls,
                    insts,
                    i as int,
                ),
            decreases n - i,
        {
            let channel = ((i + 1) % 256) as u8;
            let mut reader = Mf2tt2mf::new(channel, self.inst[i], DEFAULT_PAN, DEFAULT_REVERB);
            assert(mmls[i as int] == self.mml@[i as int]@);
            if !reader.from_mml(self.mml[i].as_str()) {
                return Err(ConversionError::MmlParseFailed(self.mml[i].clone()));
            }
            let tracks = reader.build();
            let ghost spec_tracks = tracks_of_score(mmls, insts, i as int);
            assert(spec_tracks == reader.tracks());
            let ghost head = byte_buffer@;
            assert(chunks(spec_tracks.subrange(0, 0)) =~= Seq::<u8>::empty());
            assert(head + Seq::<u8>::empty() =~= head);
            let mut j: usize = 0;
            while j < tracks.len()
                invariant
                    j <= tracks@.len(),
                    tracks@.len() == spec_tracks.len(),
                    forall|k: int|
                        0 <= k < tracks@.len() ==> views_of((#[trigger] tracks@[k])@)
                            == spec_tracks[k],
                    forall|k: int|
                        0 <= k < spec_tracks.len() ==> times_sorted(#[trigger] spec_tracks[k])
                            && all_encodable(spec_tracks[k]),
                    byte_buffer@ == head + chunks(spec_tracks.subrange(0, j as int)),
                decreases tracks@.len() - j,
            {
                let body = match encode_track(tracks[j].as_slice()) {
                    Ok(b) => b,
                    Err(e) => {
                        return Err(e);
                    },
                };
                let ghost before = byte_buffer@;
                byte_buffer.put_bytes_array(&[0x4Du8, 0x54, 0x72, 0x6B]);
                byte_buffer.put_u32((body.size() as u64 % 0x1_0000_0000) as u32);
                byte_buffer.put_bytes(&body);
                proof {
                    assert(spec_tracks.subrange(0, j + 1 as int).drop_last()
                        =~= spec_tracks.subrange(0, j as int));
                    assert(byte_buffer@ =~= before + track_chunk(spec_tracks[j as int]));
                }
                j = j + 1;
            }
            assert(spec_tracks.subrange(0, j as int) =~= spec_tracks);
            i = i + 1;
        }
        Ok(byte_buffer)
    }

    /// The file of `to_buffer_result`, or `None` where it fails.
    pub fn to_buffer(&self) -> (r: Option<ByteBuffer>)
        requires
            self.mmls().len() <= MAX_SCORES,
            forall|i: int|
                0 <= i < self.mmls().len() ==> (#[trigger] self.mmls()[i]).len() <= MAX_MML_CHARS,
        ensures
            r is Some <==> (self.mmls().len() == self.insts().len() && first_unreadable(
                self.mmls(),
                0,
            ) is None),
            r matches Some(b) ==> b@ == midi_file(self.mmls(), self.insts()),
    {
        match self.to_buffer_result() {
            Ok(buffer) => Some(buffer),
            Err(_) => None,
        }
    }
}

} // verus!
