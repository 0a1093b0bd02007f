//! Turns one score `MML@part,part,part;` into the event lists of its three tracks.

use crate::mml::{
    TokenView, chars_of, ends_token, is_space, is_token_head, lemma_bare_token,
    lemma_number_token, lemma_part_garbage_skipped, lemma_without_spaces_none, remove_spaces,
    score_parts, split_score, tokenize, tokens_of, without_spaces,
};
use crate::scan::{
    MAX_NOTE_TIME, MAX_TOKEN_TICKS, all_encodable, lemma_concat_encodable, lemma_concat_sorted,
    lemma_scan_sorted, scan_events, scan_tokens, times_sorted, times_within, token_views,
    command_value, dotted, duration, initial_state, lemma_decimal_value, letter_note, lower_note,
    note_off, parse_number, raise_note, run, step,
};
use crate::text::{decimal, push_decimal};
use crate::track_builder::{TrackBuilder, strings_view, track_lines};
use crate::track_event::{
    ControlChange, EndOfTrack, EventView, MetaText, MidiEvent, ProgramChange, SysEx, Tempo,
    TrackEvent, views_of,
};
use vstd::prelude::*;
use vstd::string::StringExecFns;

verus! {

/// Text of the meta event that opens the first track of channel 1.
pub const PROJECT_TEXT: &'static str = "Yokoso Project(https://yoko.so/)";

/// Tempo of the first track of channel 1 before any `t` command: 120 beats per minute.
pub const DEFAULT_TEMPO: u32 = 500000;

/// Tick time at which the notes of a part start.
pub const TRACK_START_TIME: u32 = 384;

/// Tick time of the EndOfTrack of an empty part.
pub const EMPTY_TRACK_END_TIME: u32 = 385;

/// Controller number of pan.
pub const PAN_CONTROLLER: u8 = 10;

/// Controller number of reverb.
pub const REVERB_CONTROLLER: u8 = 91;

/// Longest score, in characters, whose tick times all fit in 32 bits.
pub const MAX_MML_CHARS: usize = 4_000_000;

/// The system-exclusive message that opens the first track of channel 1.
pub open spec fn setup_sysex() -> Seq<u8> {
    seq![0x41u8, 0x10, 0x42, 0x12, 0x40, 0x00, 0x7f, 0x00, 0x41, 0xf7]
}

/// The events every track starts with: on the first track of channel 1 the
/// project text, the default tempo and the system-exclusive message at tick 0;
/// then on every track the program, pan and reverb at ticks 192, 193 and 194.
pub open spec fn setup_events(channel: u8, instrument: u8, pan: u8, reverb: u8, first: bool) -> Seq<
    EventView,
> {
    let opening = if channel == 1 && first {
        seq![
            EventView::MetaText { time: 0, text: PROJECT_TEXT@ },
            EventView::Tempo { time: 0, tempo: DEFAULT_TEMPO },
            EventView::SysEx { time: 0, data: setup_sysex() },
        ]
    } else {
        Seq::empty()
    };
    opening + seq![
        EventView::ProgramChange { time: 192, channel, program: instrument },
        EventView::ControlChange { time: 193, channel, controller: PAN_CONTROLLER, value: pan },
        EventView::ControlChange {
            time: 194,
            channel,
            controller: REVERB_CONTROLLER,
            value: reverb,
        },
    ]
}

/// The events of a part: scanned from tick 384 on, or a lone EndOfTrack at tick
/// 385 when the part is empty.
pub open spec fn part_events(part: Seq<char>, channel: u8) -> Seq<EventView> {
    if part.len() > 0 {
        scan_events(tokens_of(without_spaces(part)), TRACK_START_TIME, channel)
    } else {
        seq![EventView::EndOfTrack { time: EMPTY_TRACK_END_TIME }]
    }
}

/// The complete event list of track `index` of a score.
pub open spec fn track_spec(
    part: Seq<char>,
    index: int,
    channel: u8,
    instrument: u8,
    pan: u8,
    reverb: u8,
) -> Seq<EventView> {
    setup_events(channel, instrument, pan, reverb, index == 0) + part_events(part, channel)
}

/// The three tracks of a score, or `None` when `mml` holds no score.
pub open spec fn score_tracks(
    mml: Seq<char>,
    channel: u8,
    instrument: u8,
    pan: u8,
    reverb: u8,
) -> Option<Seq<Seq<EventView>>> {
    match score_parts(mml) {
        Some(parts) => Some(
            Seq::new(3, |k: int| track_spec(parts[k], k, channel, instrument, pan, reverb)),
        ),
        None => None,
    }
}

/// Reads one score for one channel and keeps the tracks it describes.
pub struct Mf2tt2mf {
    channel: u8,
    instrument: u8,
    pan: u8,
    reverb: u8,
    track_builders: Vec<TrackBuilder>,
}

impl Mf2tt2mf {
    /// The event lists of the tracks read so far.
    pub closed spec fn tracks(&self) -> Seq<Seq<EventView>> {
        self.track_builders@.map_values(|b: TrackBuilder| b@)
    }

    pub closed spec fn settings(&self) -> (u8, u8, u8, u8) {
        (self.channel, self.instrument, self.pan, self.reverb)
    }

    pub fn new(channel: u8, instrument: u8, pan: u8, reverb: u8) -> (r: Self)
        ensures
            r.tracks() == Seq::<Seq<EventView>>::empty(),
            r.settings() == (channel, instrument, pan, reverb),
    {
        let r = Mf2tt2mf { channel, instrument, pan, reverb, track_builders: Vec::new() };
        assert(r.tracks() =~= Seq::<Seq<EventView>>::empty());
        r
    }

    /// The events of one non-empty part, scanned from `lead_time` on.
    pub fn parse_track(&self, track: &Vec<char>, lead_time: u32) -> (r: Vec<MidiEvent>)
        requires
            lead_time + MAX_TOKEN_TICKS * track@.len() + MAX_NOTE_TIME <= u32::MAX,
        ensures
            views_of(r@) == scan_events(tokens_of(without_spaces(track@)), lead_time, self.settings().0),
    {
        let clean = remove_spaces(track);
        proof {
            lemma_without_spaces_len(track@);
            crate::mml::lemma_tokens_from_len(clean@, 0);
        }
        let tokens = tokenize(&clean);
        assert(token_views(tokens@) == tokens_of(clean@));
        proof {
            assert(MAX_TOKEN_TICKS * tokens@.len() <= MAX_TOKEN_TICKS * track@.len())
                by (nonlinear_arith)
                requires
                    tokens@.len() <= track@.len(),
            ;
        }
        scan_tokens(&tokens, lead_time, self.channel)
    }

    /// Reads the leftmost score of `mml`. On success the three tracks replace those
    /// read before and the result is `true`; when `mml` holds no score, no tracks
    /// are kept and the result is `false`.
    pub fn from_mml(&mut self, mml: &str) -> (r: bool)
        requires
            mml@.len() <= MAX_MML_CHARS,
        ensures
            final(self).settings() == old(self).settings(),
            r == score_parts(mml@) is Some,
            r ==> score_tracks(
                mml@,
                old(self).settings().0,
                old(self).settings().1,
                old(self).settings().2,
                old(self).settings().3,
            ) == Some(final(self).tracks()),
            !r ==> final(self).tracks() == Seq::<Seq<EventView>>::empty(),
            forall|k: int|
                0 <= k < final(self).tracks().len() ==> times_sorted(
                    #[trigger] final(self).tracks()[k],
                ) && all_encodable(final(self).tracks()[k]),
    {
        self.track_builders.clear();
        let chars = chars_of(mml);
        let parts = match split_score(&chars) {
            Some(p) => p,
            None => {
                assert(self.tracks() =~= Seq::<Seq<EventView>>::empty());
                return false;
            },
        };
        let ghost spec_parts = score_parts(mml@)->Some_0;
        let ch = self.channel;
        let mut i: usize = 0;
        while i < 3
            invariant
                0 <= i <= 3,
                parts@.len() == 3,
                spec_parts.len() == 3,
                forall|k: int| 0 <= k < 3 ==> (#[trigger] parts@[k])@ == spec_parts[k],
                forall|k: int| 0 <= k < 3 ==> (#[trigger] parts@[k])@.len() <= mml@.len(),
                mml@.len() <= MAX_MML_CHARS,
                ch == self.channel,
                self.settings() == old(self).settings(),
                self.tracks().len() == i,
                forall|k: int|
                    0 <= k < i ==> times_sorted(#[trigger] self.tracks()[k]) && all_encodable(
                        self.tracks()[k],
                    ),
                forall|k: int| 0 <= k < i ==> #[trigger] self.tracks()[k] == track_spec(
                    spec_parts[k],
                    k,
                    self.channel,
                    self.instrument,
                    self.pan,
                    self.reverb,
                ),
            decreases 3 - i,
        {
            let mut builder = TrackBuilder::new(ch);
            if ch == 1 && i == 0 {
                let text = MetaText::new(PROJECT_TEXT.to_owned());
                let tempo = Tempo::new(DEFAULT_TEMPO);
                let sysex = SysEx::new(
                    vec![0x41u8, 0x10, 0x42, 0x12, 0x40, 0x00, 0x7f, 0x00, 0x41, 0xf7],
                );
                builder.put_event(MidiEvent::MetaText(text));
                builder.put_event(MidiEvent::Tempo(tempo));
                builder.put_event(MidiEvent::SysEx(sysex));
            }
            let mut program = ProgramChange::new(ch, self.instrument);
            program.set_lead_time(192);
            builder.put_event(MidiEvent::ProgramChange(program));
            let mut pan = ControlChange::new(ch, PAN_CONTROLLER, self.pan);
            pan.set_lead_time(193);
            builder.put_event(MidiEvent::ControlChange(pan));
            let mut reverb = ControlChange::new(ch, REVERB_CONTROLLER, self.reverb);
            reverb.set_lead_time(194);
            builder.put_event(MidiEvent::ControlChange(reverb));
            let part = &parts[i];
            if part.len() > 0 {
                proof {
                    assert(TRACK_START_TIME + MAX_TOKEN_TICKS * part@.len() + MAX_NOTE_TIME
                        <= u32::MAX) by (nonlinear_arith)
                        requires
                            part@.len() <= MAX_MML_CHARS,
                    ;
                }
                let events = self.parse_track(part, TRACK_START_TIME);
                builder.put_events(events);
            } else {
                let mut end = EndOfTrack::new();
                end.set_lead_time(EMPTY_TRACK_END_TIME);
                builder.put_event(MidiEvent::EndOfTrack(end));
            }
            let ghost expected = track_spec(
                spec_parts[i as int],
                i as int,
                self.channel,
                self.instrument,
                self.pan,
                self.reverb,
            );
            assert(builder@ =~= expected);
            proof {
                lemma_track_spec(
                    spec_parts[i as int],
                    i as int,
                    self.channel,
                    self.instrument,
                    self.pan,
                    self.reverb,
                );
            }
            let ghost old_tracks = self.tracks();
            let ghost bv = builder@;
            self.track_builders.push(builder);
            assert(self.tracks() =~= old_tracks.push(bv));
            assert forall|k: int| 0 <= k < i + 1 implies #[trigger] self.tracks()[k] == track_spec(
                spec_parts[k],
                k,
                self.channel,
                self.instrument,
                self.pan,
                self.reverb,
            ) by {
                if k < i {
                    assert(self.tracks()[k] == old_tracks[k]);
                }
            }
            i = i + 1;
        }
        assert(score_tracks(mml@, self.channel, self.instrument, self.pan, self.reverb)->Some_0
            =~= self.tracks());
        true
    }

    /// A text listing: a file line `MFile 1 <channel> 96`, then the listing of
    /// each track.
    pub fn build_to_string(&self) -> (r: Vec<String>)
        ensures
            strings_view(r@) == seq!["MFile 1 "@ + decimal(self.settings().0 as nat) + " 96"@]
                + listing(self.tracks()),
    {
        let mut head = String::from_str("MFile 1 ");
        push_decimal(&mut head, self.channel as u32);
        head.append(" 96");
        let mut result: Vec<String> = Vec::new();
        result.push(head);
        let mut i: usize = 0;
        assert(self.tracks().subrange(0, 0) =~= Seq::<Seq<EventView>>::empty());
        while i < self.track_builders.len()
            invariant
                i <= self.track_builders@.len(),
                strings_view(result@) == seq![head@] + listing(self.tracks().subrange(0, i as int)),
            decreases self.track_builders@.len() - i,
        {
            let lines = self.track_builders[i].build();
            let ghost before = strings_view(result@);
            let mut j: usize = 0;
            while j < lines.len()
                invariant
                    j <= lines@.len(),
                    strings_view(result@) == before + strings_view(lines@).subrange(0, j as int),
                decreases lines@.len() - j,
            {
                let mut line = String::new();
                line.append(lines[j].as_str());
                let ghost mid = result@;
                result.push(line);
                assert(strings_view(result@) =~= strings_view(mid).push(line@));
                assert(strings_view(lines@).subrange(0, j + 1 as int) =~= strings_view(
                    lines@,
                ).subrange(0, j as int).push(lines@[j as int]@));
                j = j + 1;
            }
            assert(strings_view(lines@).subrange(0, j as int) =~= strings_view(lines@));
            assert(self.tracks().subrange(0, i + 1 as int).drop_last() =~= self.tracks().subrange(
                0,
                i as int,
            ));
            assert(self.tracks()[i as int] == self.track_builders@[i as int]@);
            i = i + 1;
        }
        assert(self.tracks().subrange(0, i as int) =~= self.tracks());
        result
    }

    /// Copies of the event lists of the tracks read so far.
    pub fn build(&self) -> (r: Vec<Vec<MidiEvent>>)
        ensures
            r@.len() == self.tracks().len(),
            forall|k: int| 0 <= k < r@.len() ==> views_of((#[trigger] r@[k])@) == self.tracks()[k],
    {
        let mut result: Vec<Vec<MidiEvent>> = Vec::new();
        let mut i: usize = 0;
        while i < self.track_builders.len()
            invariant
                i <= self.track_builders@.len(),
                result@.len() == i,
                forall|k: int|
                    0 <= k < i ==> views_of((#[trigger] result@[k])@) == self.tracks()[k],
            decreases self.track_builders@.len() - i,
        {
            let list = self.track_builders[i].event_list();
            let mut events: Vec<MidiEvent> = Vec::new();
            let mut j: usize = 0;
            while j < list.len()
                invariant
                    j <= list@.len(),
                    views_of(events@) == views_of(list@).subrange(0, j as int),
                decreases list@.len() - j,
            {
                let ghost before = events@;
                let e = list[j].clone_event();
                events.push(e);
                assert(views_of(events@) =~= views_of(before).push(e@));
                assert(views_of(events@) =~= views_of(list@).subrange(0, j + 1 as int));
                j = j + 1;
            }
            assert(views_of(list@).subrange(0, j as int) =~= views_of(list@));
            assert(self.tracks()[i as int] == self.track_builders@[i as int]@);
            result.push(events);
            i = i + 1;
        }
        result
    }
}

/// The listings of `tracks`, one after the other.
pub open spec fn listing(tracks: Seq<Seq<EventView>>) -> Seq<Seq<char>>
    decreases tracks.len(),
{
    if tracks.len() == 0 {
        Seq::empty()
    } else {
        listing(tracks.drop_last()) + track_lines(tracks.last())
    }
}

/// A track of a score is in time order and every event of it has bytes.
pub proof fn lemma_track_spec(
    part: Seq<char>,
    index: int,
    channel: u8,
    instrument: u8,
    pan: u8,
    reverb: u8,
)
    requires
        part.len() <= MAX_MML_CHARS,
    ensures
        times_sorted(track_spec(part, index, channel, instrument, pan, reverb)),
        all_encodable(track_spec(part, index, channel, instrument, pan, reverb)),
{
    let setup = setup_events(channel, instrument, pan, reverb, index == 0);
    assert(times_sorted(setup) && times_within(setup, 0, 194) && all_encodable(setup)) by {
        assert forall|j: int, k: int| 0 <= j <= k < setup.len() implies setup[j].time()
            <= setup[k].time() by {}
    }
    let events = part_events(part, channel);
    if part.len() > 0 {
        let clean = without_spaces(part);
        lemma_without_spaces_len(part);
        crate::mml::lemma_tokens_from_len(clean, 0);
        let toks = tokens_of(clean);
        assert(TRACK_START_TIME + MAX_TOKEN_TICKS * toks.len() + MAX_NOTE_TIME <= u32::MAX)
            by (nonlinear_arith)
            requires
                toks.len() <= MAX_MML_CHARS,
        ;
        lemma_scan_sorted(toks, TRACK_START_TIME, channel);
    }
    assert(times_sorted(events) && times_within(events, 194, u32::MAX as int) && all_encodable(
        events,
    )) by {
        if part.len() > 0 {
            let toks = tokens_of(without_spaces(part));
            assert forall|j: int| 0 <= j < events.len() implies 194 <= #[trigger] events[j].time()
                <= u32::MAX by {
                assert(TRACK_START_TIME <= events[j].time());
            }
        }
    }
    lemma_concat_sorted(setup, events, 0, 194, u32::MAX as int);
    lemma_concat_encodable(setup, events);
}

/// Leaving out characters never makes a sequence longer.
proof fn lemma_without_spaces_len(s: Seq<char>)
    ensures
        without_spaces(s).len() <= s.len(),
    decreases s.len(),
{
    if s.len() > 0 {
        lemma_without_spaces_len(s.drop_last());
    }
}


/// The events of a part that sounds one `c` of octave 4 for `ticks` from
/// `lead_time` and ends `tail` ticks later.
pub open spec fn one_note_part(lead_time: u32, channel: u8, ticks: nat, tail: nat) -> Seq<EventView> {
    seq![
        EventView::NoteOn { time: lead_time, channel, note: 60, velocity: 64 },
        note_off((lead_time + ticks) as u32, channel, 60),
        EventView::EndOfTrack { time: (lead_time + ticks + tail) as u32 },
    ]
}

/// `.` when `dot` is set, else nothing.
pub open spec fn dot_text(dot: bool) -> Seq<char> {
    if dot {
        seq!['.']
    } else {
        Seq::empty()
    }
}

/// Lengths in a whole part: for every `n` in `1..=192`, `l<n>c` (and `l<n>.c`)
/// sounds `c` for `384 / n` ticks (dotted: `(384 / n) * 3 / 2`) and keeps that
/// as the default, so the part ends one more such length later; `c<n>` (and
/// `c<n>.`) sounds `c` as long, and the part ends a default quarter note later.
/// These are the results of `parse_track` on those parts.
pub proof fn lemma_part_length(n: nat, dot: bool, lead_time: u32, channel: u8)
    requires
        1 <= n <= 192,
        lead_time + 2 * MAX_TOKEN_TICKS <= u32::MAX,
    ensures
        ({
            let d = dotted(384nat / n, dot);
            &&& scan_events(
                tokens_of(without_spaces(seq!['l'] + decimal(n) + dot_text(dot) + seq!['c'])),
                lead_time,
                channel,
            ) == one_note_part(lead_time, channel, d, d)
            &&& scan_events(
                tokens_of(without_spaces(seq!['c'] + decimal(n) + dot_text(dot))),
                lead_time,
                channel,
            ) == one_note_part(lead_time, channel, d, 96)
        }),
{
    lemma_decimal_value(n);
    assert(384nat / n <= 384) by {
        vstd::arithmetic::div_mod::lemma_div_is_ordered_by_denominator(384, 1, n as int);
    }
    let d = dotted(384nat / n, dot);
    let ds = decimal(n);
    let init = initial_state(lead_time);
    let tc = TokenView { head: 'c', accidental: None, digits: Seq::empty(), dotted: false, tied: false };
    assert(raise_note(48) == 48);
    assert(lower_note(48) == 48);
    assert(letter_note(4, tc) == 60);
    assert(parse_number(Seq::<char>::empty()) is None);
    // l<n>c
    let mid = seq!['l'] + ds + dot_text(dot);
    let s1 = mid + seq!['c'];
    lemma_number_token('l', ds, dot, seq!['c']);
    lemma_bare_token('c');
    assert forall|k: int| 0 <= k < s1.len() implies !is_space(#[trigger] s1[k]) by {
        if k < mid.len() {
            assert(s1[k] == mid[k]);
        } else {
            assert(s1[k] == 'c');
        }
    }
    lemma_without_spaces_none(s1);
    let tl = TokenView { head: 'l', accidental: None, digits: ds, dotted: dot, tied: false };
    let toks = seq![tl, tc];
    assert(tokens_of(without_spaces(s1)) =~= toks);
    assert(command_value(tl) == n);
    assert(toks.drop_last() =~= seq![tl]);
    assert(seq![tl].drop_last() =~= Seq::<TokenView>::empty());
    assert(run(init, Seq::<TokenView>::empty(), channel) == (init, Seq::<EventView>::empty()));
    assert(seq![tl].last() == tl);
    assert(step(init, tl, channel).1 == Seq::<EventView>::empty());
    let st1 = step(init, tl, channel).0;
    assert(st1.note_time == d);
    assert(run(init, seq![tl], channel) == (st1, Seq::<EventView>::empty() + Seq::<EventView>::empty()));
    assert(Seq::<EventView>::empty() + Seq::<EventView>::empty() =~= Seq::<EventView>::empty());
    assert(duration(tc, d) == d);
    let (st2, ev2) = step(st1, tc, channel);
    assert(run(init, toks, channel) == (st2, Seq::<EventView>::empty() + ev2));
    assert(scan_events(toks, lead_time, channel) =~= one_note_part(lead_time, channel, d, d));
    // c<n>
    let s2 = seq!['c'] + ds + dot_text(dot);
    lemma_number_token('c', ds, dot, Seq::empty());
    assert(s2 + Seq::<char>::empty() =~= s2);
    assert(tokens_of(Seq::<char>::empty()) == Seq::<TokenView>::empty());
    lemma_without_spaces_none(s2);
    let tn = TokenView { head: 'c', accidental: None, digits: ds, dotted: dot, tied: false };
    assert(tokens_of(without_spaces(s2)) =~= seq![tn]);
    assert(seq![tn].drop_last() =~= Seq::<TokenView>::empty());
    assert(parse_number(ds) == Some(n));
    assert(duration(tn, 96) == d);
    assert(letter_note(4, tn) == 60);
    assert(seq![tn].last() == tn);
    let (st3, ev3) = step(init, tn, channel);
    assert(run(init, seq![tn], channel) == (st3, Seq::<EventView>::empty() + ev3));
    assert(scan_events(seq![tn], lead_time, channel) =~= one_note_part(lead_time, channel, d, 96));
}

/// Garbage inside a part is skipped: the events of `a`, a run `g` of characters
/// that neither start nor continue a token nor are whitespace, then `b` (the
/// start of a token, or nothing), are the events of `a` followed by `b`. These
/// are the results of `parse_track` on those parts.
pub proof fn lemma_part_garbage(a: Seq<char>, g: Seq<char>, b: Seq<char>, lead_time: u32, channel: u8)
    requires
        g.len() > 0,
        forall|k: int|
            0 <= k < g.len() ==> !is_token_head(#[trigger] g[k]) && !is_space(g[k]) && ends_token(
                g[k],
            ),
        b.len() == 0 || is_token_head(b[0]),
    ensures
        scan_events(tokens_of(without_spaces(a + g + b)), lead_time, channel) == scan_events(
            tokens_of(without_spaces(a + b)),
            lead_time,
            channel,
        ),
{
    lemma_part_garbage_skipped(a, g, b);
}

} // verus!
