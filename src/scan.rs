//! The performance state machine: it walks the tokens of one part and emits
//! time-stamped events.

use crate::mml::{Token, TokenView, is_digit};
use crate::text::{decimal, digit_char};
use crate::track_event::{
    EndOfTrack, EventView, MidiEvent, NoteOff, NoteOn, Tempo, TrackEvent, views_of,
};
use vstd::prelude::*;

verus! {

/// Ticks in a whole note; fixed for every part, whatever `l` sets.
pub const WHOLE_NOTE: u32 = 384;

/// Ticks in a half note: the largest length divisor that `l` and notes accept.
pub const HALF_NOTE: u32 = 192;

/// Ticks in a quarter note: the default length.
pub const QUARTER_NOTE: u32 = 96;

/// The largest default length: a dotted whole note.
pub const MAX_NOTE_TIME: u32 = 576;

/// The most that one token can move the cursor: a dotted note of the largest
/// default length.
pub const MAX_TOKEN_TICKS: u32 = 864;

/// What the scanner keeps while it reads one part.
pub struct PerformanceState {
    /// Default duration, in ticks.
    pub note_time: u32,
    pub octave: u32,
    /// Between 1 and 15.
    pub volume: u8,
    /// A tied note is sounding and waits for its continuation.
    pub tie_pending: bool,
    /// The note that is held while `tie_pending`.
    pub tie_note: u8,
    /// Tick time at which the next event is placed.
    pub cursor: u32,
}

pub open spec fn initial_state(lead_time: u32) -> PerformanceState {
    PerformanceState {
        note_time: 96,
        octave: 4,
        volume: 8,
        tie_pending: false,
        tie_note: 0,
        cursor: lead_time,
    }
}

/// The bounds that every state of a scan keeps.
pub open spec fn state_ok(st: PerformanceState) -> bool {
    st.note_time <= MAX_NOTE_TIME && 1 <= st.volume <= 15
}

// ----- numbers -----

pub open spec fn digit_value(c: char) -> nat {
    if '0' <= c <= '9' {
        (c as u32 - '0' as u32) as nat
    } else {
        0
    }
}

/// Decimal value of a run of digits.
pub open spec fn digits_value(ds: Seq<char>) -> nat
    decreases ds.len(),
{
    if ds.len() == 0 {
        0
    } else {
        digits_value(ds.drop_last()) * 10 + digit_value(ds.last())
    }
}

/// A run of digits read as a 32-bit signed integer: `None` when it is empty or
/// too large.
pub open spec fn parse_number(ds: Seq<char>) -> Option<nat> {
    if ds.len() > 0 && digits_value(ds) <= i32::MAX {
        Some(digits_value(ds))
    } else {
        None
    }
}

/// The argument of a command token (`l o t v < >`): its digits when they start
/// with 1-9 and fit, else 0. A zero first digit ends the argument, and an
/// accidental leaves it empty.
pub open spec fn command_value(t: TokenView) -> nat {
    if t.accidental is Some || t.digits.len() == 0 || t.digits[0] == '0' {
        0
    } else {
        match parse_number(t.digits) {
            Some(v) => v,
            None => 0,
        }
    }
}

/// One and a half times `ticks`, rounded down, when `dot` is set.
pub open spec fn dotted(ticks: nat, dot: bool) -> nat {
    if dot {
        ticks * 3 / 2
    } else {
        ticks
    }
}

/// Ticks of a note or rest token: `384 / n` for a length `n` in `1..=192`, else
/// the default, then the dot.
pub open spec fn duration(t: TokenView, default: nat) -> nat {
    let base = match parse_number(t.digits) {
        Some(v) => if 1 <= v <= 192 {
            384nat / v
        } else {
            default
        },
        None => default,
    };
    dotted(base, t.dotted)
}

/// Ticks of a rest token: as a note, but a rest written with an accidental
/// takes the default length and no dot.
pub open spec fn rest_duration(t: TokenView, default: nat) -> nat {
    if t.accidental is Some {
        default
    } else {
        duration(t, default)
    }
}

// ----- pitches -----

pub open spec fn pitch_class(c: char) -> int {
    if c == 'c' || c == 'C' {
        0
    } else if c == 'd' || c == 'D' {
        2
    } else if c == 'e' || c == 'E' {
        4
    } else if c == 'f' || c == 'F' {
        5
    } else if c == 'g' || c == 'G' {
        7
    } else if c == 'a' || c == 'A' {
        9
    } else {
        11
    }
}

pub open spec fn accidental_shift(a: Option<char>) -> int {
    match a {
        Some(c) => if c == '+' || c == '#' {
            1
        } else if c == '-' {
            -1
        } else {
            0
        },
        None => 0,
    }
}

/// Adds 12 while the note is below 0.
pub open spec fn raise_note(n: int) -> int
    decreases (if n < 0 {
        -n
    } else {
        0
    }),
{
    if n < 0 {
        raise_note(n + 12)
    } else {
        n
    }
}

/// Subtracts 12 while the note is above 96.
pub open spec fn lower_note(n: int) -> int
    decreases (if n > 96 {
        n
    } else {
        0
    }),
{
    if n > 96 {
        lower_note(n - 12)
    } else {
        n
    }
}

/// Note number of a letter token at `octave`: `12 * octave + pitch class +
/// accidental`, brought into `0..=96` by octaves, then raised by one more octave.
pub open spec fn letter_note(octave: nat, t: TokenView) -> int {
    lower_note(raise_note(12 * octave + pitch_class(t.head) + accidental_shift(t.accidental))) + 12
}

/// Note number of an `n` token: its digits when they are at most 96, else 0.
pub open spec fn number_note(t: TokenView) -> nat {
    match parse_number(t.digits) {
        Some(v) => if v <= 96 {
            v
        } else {
            0
        },
        None => 0,
    }
}

// ----- the state machine -----

pub open spec fn note_off(time: u32, channel: u8, note: u8) -> EventView {
    EventView::NoteOff { time, channel, note, velocity: 0 }
}

/// Sounds `note` for `ticks` at the cursor, with the tie rules: a held note of
/// another pitch is released first; a held note of the same pitch goes on without
/// a new NoteOn; a tied note is held instead of released.
pub open spec fn play(
    st: PerformanceState,
    note: u8,
    ticks: nat,
    tied: bool,
    channel: u8,
) -> (PerformanceState, Seq<EventView>) {
    let release = st.tie_pending && note != st.tie_note;
    let released = if release {
        seq![note_off(st.cursor, channel, st.tie_note)]
    } else {
        Seq::empty()
    };
    let started = if st.tie_pending && !release {
        Seq::empty()
    } else {
        seq![
            EventView::NoteOn {
                time: st.cursor,
                channel,
                note,
                velocity: (st.volume * 8) as u8,
            },
        ]
    };
    let end = (st.cursor + ticks) as u32;
    if tied {
        (
            PerformanceState { tie_pending: true, tie_note: note, cursor: end, ..st },
            released + started,
        )
    } else {
        (
            PerformanceState { tie_pending: false, cursor: end, ..st },
            released + started + seq![note_off(end, channel, note)],
        )
    }
}

pub open spec fn is_cmd(c: char, lower: char, upper: char) -> bool {
    c == lower || c == upper
}

/// The effect of one token on the state, and the events it emits.
pub open spec fn step(st: PerformanceState, t: TokenView, channel: u8) -> (
    PerformanceState,
    Seq<EventView>,
) {
    let h = t.head;
    let v = command_value(t);
    if is_cmd(h, 'l', 'L') {
        if 1 <= v <= 192 {
            (PerformanceState { note_time: dotted(384nat / v, t.dotted) as u32, ..st }, Seq::empty())
        } else {
            (st, Seq::empty())
        }
    } else if is_cmd(h, 'o', 'O') {
        (PerformanceState { octave: v as u32, ..st }, Seq::empty())
    } else if is_cmd(h, 't', 'T') {
        if v > 0 {
            (st, seq![EventView::Tempo { time: st.cursor, tempo: (60_000_000nat / v) as u32 }])
        } else {
            (st, Seq::empty())
        }
    } else if is_cmd(h, 'v', 'V') {
        let vol = if v < 1 {
            1
        } else if v > 15 {
            15
        } else {
            v
        };
        (PerformanceState { volume: vol as u8, ..st }, Seq::empty())
    } else if h == '<' {
        (
            PerformanceState {
                octave: if st.octave == 0 {
                    0
                } else {
                    (st.octave - 1) as u32
                },
                ..st
            },
            Seq::empty(),
        )
    } else if h == '>' {
        (
            PerformanceState {
                octave: if st.octave >= 9 {
                    9
                } else {
                    (st.octave + 1) as u32
                },
                ..st
            },
            Seq::empty(),
        )
    } else if is_cmd(h, 'r', 'R') {
        let ticks = rest_duration(t, st.note_time as nat);
        (PerformanceState { cursor: (st.cursor + ticks) as u32, ..st }, Seq::empty())
    } else if is_cmd(h, 'n', 'N') {
        play(st, number_note(t) as u8, st.note_time as nat, t.tied, channel)
    } else {
        play(
            st,
            letter_note(st.octave as nat, t) as u8,
            duration(t, st.note_time as nat),
            t.tied,
            channel,
        )
    }
}

/// The state after `toks`, and all the events they emit, in order.
pub open spec fn run(st: PerformanceState, toks: Seq<TokenView>, channel: u8) -> (
    PerformanceState,
    Seq<EventView>,
)
    decreases toks.len(),
{
    if toks.len() == 0 {
        (st, Seq::empty())
    } else {
        let (s1, e1) = run(st, toks.drop_last(), channel);
        let (s2, e2) = step(s1, toks.last(), channel);
        (s2, e1 + e2)
    }
}

/// What closes a part: the release of a note still held, and EndOfTrack one
/// default length after the cursor.
pub open spec fn finish(st: PerformanceState, channel: u8) -> Seq<EventView> {
    let released = if st.tie_pending {
        seq![note_off(st.cursor, channel, st.tie_note)]
    } else {
        Seq::empty()
    };
    released + seq![EventView::EndOfTrack { time: (st.cursor + st.note_time) as u32 }]
}

/// The events of a whole part, read from its tokens, starting at `lead_time`.
pub open spec fn scan_events(toks: Seq<TokenView>, lead_time: u32, channel: u8) -> Seq<
    EventView,
> {
    let (st, evs) = run(initial_state(lead_time), toks, channel);
    evs + finish(st, channel)
}

} // verus!

verus! {

// ----- executable counterparts -----

fn digit_of(c: char) -> (r: u64)
    ensures
        r == digit_value(c),
        r <= 9,
{
    if '0' <= c && c <= '9' {
        (c as u32 - '0' as u32) as u64
    } else {
        0
    }
}

/// Reads a run of digits as a 32-bit signed integer; `None` when it is empty or
/// too large.
pub fn parse_digits(ds: &Vec<char>) -> (r: Option<u32>)
    ensures
        match parse_number(ds@) {
            Some(n) => r == Some(n as u32) && n <= i32::MAX,
            None => r is None,
        },
{
    let mut acc: u64 = 0;
    let mut over = false;
    let mut i: usize = 0;
    while i < ds.len()
        invariant
            i <= ds@.len(),
            !over ==> acc == digits_value(ds@.subrange(0, i as int)) && acc <= i32::MAX,
            over ==> digits_value(ds@.subrange(0, i as int)) > i32::MAX,
        decreases ds@.len() - i,
    {
        let d = digit_of(ds[i]);
        assert(ds@.subrange(0, i + 1 as int).drop_last() == ds@.subrange(0, i as int));
        if !over {
            acc = acc * 10 + d;
            if acc > 0x7FFF_FFFF {
                over = true;
            }
        }
        i = i + 1;
    }
    assert(ds@.subrange(0, ds@.len() as int) == ds@);
    if ds.len() == 0 || over {
        None
    } else {
        Some(acc as u32)
    }
}

/// The argument of a command token.
fn command_arg(t: &Token) -> (r: u32)
    ensures
        r == command_value(t@),
        r <= i32::MAX,
{
    if t.accidental.is_some() || t.digits.len() == 0 || t.digits[0] == '0' {
        0
    } else {
        match parse_digits(&t.digits) {
            Some(v) => v,
            None => 0,
        }
    }
}

fn dot_ticks(ticks: u32, dot: bool) -> (r: u32)
    requires
        ticks <= MAX_NOTE_TIME,
    ensures
        r == dotted(ticks as nat, dot),
        r <= MAX_TOKEN_TICKS,
{
    if dot {
        ticks * 3 / 2
    } else {
        ticks
    }
}

/// Ticks of a note or rest token, given the default length.
fn token_ticks(t: &Token, default: u32) -> (r: u32)
    requires
        default <= MAX_NOTE_TIME,
    ensures
        r == duration(t@, default as nat),
        r <= MAX_TOKEN_TICKS,
{
    let base = match parse_digits(&t.digits) {
        Some(v) => if 1 <= v && v <= HALF_NOTE {
            WHOLE_NOTE / v
        } else {
            default
        },
        None => default,
    };
    dot_ticks(base, t.dotted)
}

proof fn lemma_lower_note(n: int)
    requires
        n >= 0,
    ensures
        lower_note(n) == if n > 96 {
            85 + (n - 85) % 12
        } else {
            n
        },
    decreases n,
{
    if n > 96 {
        lemma_lower_note(n - 12);
        assert((n - 12 - 85) % 12 == (n - 85) % 12) by {
            vstd::arithmetic::div_mod::lemma_mod_sub_multiples_vanish(n - 85, 12);
        }
        if n - 12 <= 96 {
            assert((n - 85) % 12 == n - 97) by {
                vstd::arithmetic::div_mod::lemma_mod_sub_multiples_vanish(n - 85, 12);
                vstd::arithmetic::div_mod::lemma_small_mod((n - 97) as nat, 12);
            }
        }
    }
}

fn pitch_class_of(c: char) -> (r: i64)
    ensures
        r == pitch_class(c),
        0 <= r <= 11,
{
    if c == 'c' || c == 'C' {
        0
    } else if c == 'd' || c == 'D' {
        2
    } else if c == 'e' || c == 'E' {
        4
    } else if c == 'f' || c == 'F' {
        5
    } else if c == 'g' || c == 'G' {
        7
    } else if c == 'a' || c == 'A' {
        9
    } else {
        11
    }
}

fn shift_of(a: Option<char>) -> (r: i64)
    ensures
        r == accidental_shift(a),
        -1 <= r <= 1,
{
    match a {
        Some(c) => if c == '+' || c == '#' {
            1
        } else if c == '-' {
            -1
        } else {
            0
        },
        None => 0,
    }
}

/// Note number of a letter token at `octave`.
fn letter_pitch(octave: u32, t: &Token) -> (r: u8)
    ensures
        r == letter_note(octave as nat, t@),
        12 <= r <= 108,
{
    let raw: i64 = 12 * (octave as i64) + pitch_class_of(t.head) + shift_of(t.accidental);
    let up: i64 = if raw < 0 {
        raw + 12
    } else {
        raw
    };
    proof {
        if raw < 0 {
            assert(raise_note(raw + 12) == raw + 12);
        }
        assert(raise_note(raw as int) == up);
        lemma_lower_note(up as int);
    }
    let u = up as u64;
    let down: u64 = if u > 96 {
        85 + (u - 85) % 12
    } else {
        u
    };
    (down + 12) as u8
}

/// Note number of an `n` token.
fn number_pitch(t: &Token) -> (r: u8)
    ensures
        r == number_note(t@),
        r <= 96,
{
    match parse_digits(&t.digits) {
        Some(v) => if v <= 96 {
            v as u8
        } else {
            0
        },
        None => 0,
    }
}

fn note_off_event(time: u32, channel: u8, note: u8) -> (r: MidiEvent)
    ensures
        r@ == note_off(time, channel, note),
{
    let mut e = NoteOff::new(channel, note, 0);
    e.set_lead_time(time);
    MidiEvent::NoteOff(e)
}

impl PerformanceState {
    pub fn new(lead_time: u32) -> (r: Self)
        ensures
            r == initial_state(lead_time),
    {
        PerformanceState {
            note_time: QUARTER_NOTE,
            octave: 4,
            volume: 8,
            tie_pending: false,
            tie_note: 0,
            cursor: lead_time,
        }
    }

    /// Sounds `note` for `ticks`, appending the events to `events`.
    fn play(&mut self, note: u8, ticks: u32, tied: bool, channel: u8, events: &mut Vec<MidiEvent>)
        requires
            old(self).cursor + ticks <= u32::MAX,
            state_ok(*old(self)),
        ensures
            (*final(self), views_of(final(events)@)) == ({
                let (s, e) = play(*old(self), note, ticks as nat, tied, channel);
                (s, views_of(old(events)@) + e)
            }),
    {
        let ghost start = *self;
        let ghost before = views_of(events@);
        let release = self.tie_pending && note != self.tie_note;
        if release {
            events.push(note_off_event(self.cursor, channel, self.tie_note));
        }
        if !(self.tie_pending && !release) {
            let mut on = NoteOn::new(channel, note, self.volume * 8);
            on.set_lead_time(self.cursor);
            events.push(MidiEvent::NoteOn(on));
        }
        self.cursor = self.cursor + ticks;
        if tied {
            self.tie_pending = true;
            self.tie_note = note;
        } else {
            self.tie_pending = false;
            events.push(note_off_event(self.cursor, channel, note));
        }
        proof {
            let (s, e) = play(start, note, ticks as nat, tied, channel);
            assert(views_of(events@) =~= before + e);
        }
    }
}


impl PerformanceState {
    /// Applies one token: updates the state and appends the events it emits.
    pub fn apply(&mut self, t: &Token, channel: u8, events: &mut Vec<MidiEvent>)
        requires
            state_ok(*old(self)),
            old(self).cursor + MAX_TOKEN_TICKS <= u32::MAX,
        ensures
            (*final(self), views_of(final(events)@)) == ({
                let (s, e) = step(*old(self), t@, channel);
                (s, views_of(old(events)@) + e)
            }),
            state_ok(*final(self)),
            old(self).cursor <= final(self).cursor <= old(self).cursor + MAX_TOKEN_TICKS,
    {
        let ghost start = *self;
        let h = t.head;
        let v = command_arg(t);
        if h == 'l' || h == 'L' {
            if 1 <= v && v <= HALF_NOTE {
                self.note_time = dot_ticks(WHOLE_NOTE / v, t.dotted);
            }
        } else if h == 'o' || h == 'O' {
            self.octave = v;
        } else if h == 't' || h == 'T' {
            if v > 0 {
                let mut e = Tempo::new(60_000_000 / v);
                e.set_lead_time(self.cursor);
                events.push(MidiEvent::Tempo(e));
                proof {
                    assert(views_of(events@) =~= views_of(old(events)@) + step(
                        start,
                        t@,
                        channel,
                    ).1);
                }
            }
        } else if h == 'v' || h == 'V' {
            self.volume = if v < 1 {
                1
            } else if v > 15 {
                15
            } else {
                v as u8
            };
        } else if h == '<' {
            self.octave = if self.octave == 0 {
                0
            } else {
                self.octave - 1
            };
        } else if h == '>' {
            self.octave = if self.octave >= 9 {
                9
            } else {
                self.octave + 1
            };
        } else if h == 'r' || h == 'R' {
            let ticks = if t.accidental.is_some() {
                self.note_time
            } else {
                token_ticks(t, self.note_time)
            };
            self.cursor = self.cursor + ticks;
        } else if h == 'n' || h == 'N' {
            let note = number_pitch(t);
            self.play(note, self.note_time, t.tied, channel, events);
        } else {
            let note = letter_pitch(self.octave, t);
            let ticks = token_ticks(t, self.note_time);
            self.play(note, ticks, t.tied, channel, events);
        }
        proof {
            if views_of(events@) == views_of(old(events)@) {
                assert(views_of(old(events)@) + Seq::<EventView>::empty() =~= views_of(
                    old(events)@,
                ));
            }
        }
    }
}


/// The models of a sequence of tokens.
pub open spec fn token_views(toks: Seq<Token>) -> Seq<TokenView> {
    toks.map_values(|t: Token| t@)
}

/// Runs the state machine over `toks` from `lead_time` and closes the part.
pub fn scan_tokens(toks: &Vec<Token>, lead_time: u32, channel: u8) -> (r: Vec<MidiEvent>)
    requires
        lead_time + MAX_TOKEN_TICKS * toks@.len() + MAX_NOTE_TIME <= u32::MAX,
    ensures
        views_of(r@) == scan_events(token_views(toks@), lead_time, channel),
{
    let ghost tv = token_views(toks@);
    let mut st = PerformanceState::new(lead_time);
    let mut events: Vec<MidiEvent> = Vec::new();
    let mut i: usize = 0;
    assert(views_of(events@) =~= Seq::<EventView>::empty());
    assert(tv.subrange(0, 0) =~= Seq::<TokenView>::empty());
    while i < toks.len()
        invariant
            i <= toks@.len(),
            tv == token_views(toks@),
            lead_time + MAX_TOKEN_TICKS * toks@.len() + MAX_NOTE_TIME <= u32::MAX,
            (st, views_of(events@)) == run(
                initial_state(lead_time),
                tv.subrange(0, i as int),
                channel,
            ),
            state_ok(st),
            st.cursor <= lead_time + MAX_TOKEN_TICKS * i,
        decreases toks@.len() - i,
    {
        proof {
            assert(MAX_TOKEN_TICKS * i + MAX_TOKEN_TICKS <= MAX_TOKEN_TICKS * toks@.len())
                by (nonlinear_arith)
                requires
                    i < toks@.len(),
            ;
        }
        st.apply(&toks[i], channel, &mut events);
        assert(tv.subrange(0, i + 1 as int).drop_last() =~= tv.subrange(0, i as int));
        i = i + 1;
        proof {
            assert(MAX_TOKEN_TICKS * (i - 1) + MAX_TOKEN_TICKS == MAX_TOKEN_TICKS * i)
                by (nonlinear_arith);
        }
    }
    assert(tv.subrange(0, i as int) =~= tv);
    let ghost before = views_of(events@);
    if st.tie_pending {
        events.push(note_off_event(st.cursor, channel, st.tie_note));
    }
    let mut end = EndOfTrack::new();
    end.set_lead_time(st.cursor + st.note_time);
    events.push(MidiEvent::EndOfTrack(end));
    assert(views_of(events@) =~= before + finish(st, channel));
    events
}


/// Every event of `evs` has at least one byte.
pub open spec fn all_encodable(evs: Seq<EventView>) -> bool {
    forall|j: int| 0 <= j < evs.len() ==> (#[trigger] evs[j]).encoding().len() > 0
}

pub proof fn lemma_concat_encodable(a: Seq<EventView>, b: Seq<EventView>)
    requires
        all_encodable(a),
        all_encodable(b),
    ensures
        all_encodable(a + b),
{
    assert forall|j: int| 0 <= j < (a + b).len() implies (#[trigger] (a + b)[j]).encoding().len()
        > 0 by {
        if j < a.len() {
            assert((a + b)[j] == a[j]);
        } else {
            assert((a + b)[j] == b[j - a.len()]);
        }
    }
}

/// Event times never decrease along `evs`.
pub open spec fn times_sorted(evs: Seq<EventView>) -> bool {
    forall|j: int, k: int| 0 <= j <= k < evs.len() ==> evs[j].time() <= evs[k].time()
}

/// Every event of `evs` lies in `[lo, hi]`.
pub open spec fn times_within(evs: Seq<EventView>, lo: int, hi: int) -> bool {
    forall|j: int| 0 <= j < evs.len() ==> lo <= #[trigger] evs[j].time() <= hi
}

proof fn lemma_duration_bound(t: TokenView, default: nat)
    requires
        default <= MAX_NOTE_TIME,
    ensures
        duration(t, default) <= MAX_TOKEN_TICKS,
{
}

pub proof fn lemma_concat_sorted(a: Seq<EventView>, b: Seq<EventView>, lo: int, mid: int, hi: int)
    requires
        times_sorted(a),
        times_sorted(b),
        times_within(a, lo, mid),
        times_within(b, mid, hi),
        lo <= mid <= hi,
    ensures
        times_sorted(a + b),
        times_within(a + b, lo, hi),
{
    assert forall|j: int, k: int| 0 <= j <= k < (a + b).len() implies (a + b)[j].time() <= (a
        + b)[k].time() by {
        if k < a.len() {
        } else if j >= a.len() {
            assert((a + b)[j] == b[j - a.len()]);
            assert((a + b)[k] == b[k - a.len()]);
        } else {
            assert((a + b)[j] == a[j]);
            assert((a + b)[k] == b[k - a.len()]);
        }
    }
    assert forall|j: int| 0 <= j < (a + b).len() implies lo <= #[trigger] (a + b)[j].time()
        <= hi by {
        if j < a.len() {
            assert((a + b)[j] == a[j]);
        } else {
            assert((a + b)[j] == b[j - a.len()]);
        }
    }
}

/// One token keeps the state's bounds, moves the cursor forward by at most one
/// token's worth, and emits events in time order between the old and new cursor.
pub proof fn lemma_step(st: PerformanceState, t: TokenView, channel: u8)
    requires
        state_ok(st),
        st.cursor + MAX_TOKEN_TICKS <= u32::MAX,
    ensures
        ({
            let (s, e) = step(st, t, channel);
            &&& state_ok(s)
            &&& st.cursor <= s.cursor <= st.cursor + MAX_TOKEN_TICKS
            &&& s.note_time == st.note_time || is_cmd(t.head, 'l', 'L')
            &&& times_sorted(e)
            &&& times_within(e, st.cursor as int, s.cursor as int)
            &&& all_encodable(e)
        }),
{
    lemma_duration_bound(t, st.note_time as nat);
    let h = t.head;
    if is_cmd(h, 'l', 'L') || is_cmd(h, 'o', 'O') || is_cmd(h, 'v', 'V') || h == '<' || h == '>'
        || is_cmd(h, 'r', 'R') {
        assert(step(st, t, channel).1 =~= Seq::<EventView>::empty());
    } else if is_cmd(h, 't', 'T') {
        let e = step(st, t, channel).1;
        assert(times_sorted(e));
    } else if is_cmd(h, 'n', 'N') {
        lemma_play(st, number_note(t) as u8, st.note_time as nat, t.tied, channel);
    } else {
        lemma_play(
            st,
            letter_note(st.octave as nat, t) as u8,
            duration(t, st.note_time as nat),
            t.tied,
            channel,
        );
    }
}

proof fn lemma_play(st: PerformanceState, note: u8, ticks: nat, tied: bool, channel: u8)
    requires
        state_ok(st),
        ticks <= MAX_TOKEN_TICKS,
        st.cursor + MAX_TOKEN_TICKS <= u32::MAX,
    ensures
        ({
            let (s, e) = play(st, note, ticks, tied, channel);
            &&& state_ok(s)
            &&& s.note_time == st.note_time
            &&& s.cursor == st.cursor + ticks
            &&& times_sorted(e)
            &&& times_within(e, st.cursor as int, s.cursor as int)
            &&& all_encodable(e)
        }),
{
    let (s, e) = play(st, note, ticks, tied, channel);
    assert forall|j: int, k: int| 0 <= j <= k < e.len() implies e[j].time() <= e[k].time() by {}
}

/// The whole run keeps the bounds and emits its events in time order, between the
/// first and the last cursor.
pub proof fn lemma_run(st: PerformanceState, toks: Seq<TokenView>, channel: u8)
    requires
        state_ok(st),
        st.cursor + MAX_TOKEN_TICKS * toks.len() <= u32::MAX,
    ensures
        ({
            let (s, e) = run(st, toks, channel);
            &&& state_ok(s)
            &&& st.cursor <= s.cursor <= st.cursor + MAX_TOKEN_TICKS * toks.len()
            &&& times_sorted(e)
            &&& times_within(e, st.cursor as int, s.cursor as int)
            &&& all_encodable(e)
        }),
    decreases toks.len(),
{
    if toks.len() > 0 {
        let n = toks.len() - 1;
        assert(MAX_TOKEN_TICKS * n + MAX_TOKEN_TICKS == MAX_TOKEN_TICKS * toks.len())
            by (nonlinear_arith)
            requires
                n == toks.len() - 1,
        ;
        lemma_run(st, toks.drop_last(), channel);
        let (s1, e1) = run(st, toks.drop_last(), channel);
        lemma_step(s1, toks.last(), channel);
        let (s2, e2) = step(s1, toks.last(), channel);
        lemma_concat_sorted(e1, e2, st.cursor as int, s1.cursor as int, s2.cursor as int);
        lemma_concat_encodable(e1, e2);
    }
}

/// The events of a part are in time order, from `lead_time` on.
pub proof fn lemma_scan_sorted(toks: Seq<TokenView>, lead_time: u32, channel: u8)
    requires
        lead_time + MAX_TOKEN_TICKS * toks.len() + MAX_NOTE_TIME <= u32::MAX,
    ensures
        times_sorted(scan_events(toks, lead_time, channel)),
        times_within(scan_events(toks, lead_time, channel), lead_time as int, u32::MAX as int),
        scan_events(toks, lead_time, channel).len() > 0,
        all_encodable(scan_events(toks, lead_time, channel)),
{
    let st0 = initial_state(lead_time);
    lemma_run(st0, toks, channel);
    let (s, e) = run(st0, toks, channel);
    let f = finish(s, channel);
    assert(times_sorted(f) && times_within(f, s.cursor as int, u32::MAX as int) && all_encodable(
        f,
    )) by {
        assert forall|j: int, k: int| 0 <= j <= k < f.len() implies f[j].time() <= f[k].time() by {}
    }
    lemma_concat_sorted(e, f, lead_time as int, s.cursor as int, u32::MAX as int);
    lemma_concat_encodable(e, f);
}


/// Decimal text reads back as its number.
pub proof fn lemma_decimal_value(n: nat)
    ensures
        digits_value(decimal(n)) == n,
        decimal(n).len() > 0,
        n >= 1 ==> decimal(n)[0] != '0',
        forall|k: int| 0 <= k < decimal(n).len() ==> is_digit(#[trigger] decimal(n)[k]),
    decreases n,
{
    lemma_digit_char_value(n % 10);
    if n < 10 {
        assert(decimal(n).drop_last() =~= Seq::<char>::empty());
        assert(digits_value(Seq::<char>::empty()) == 0);
        assert(n % 10 == n);
    } else {
        lemma_decimal_value(n / 10);
        let d = decimal(n);
        assert(d.drop_last() =~= decimal(n / 10));
        assert(d.last() == digit_char(n % 10));
        assert(digits_value(d) == digits_value(decimal(n / 10)) * 10 + digit_value(
            digit_char(n % 10),
        ));
        assert(d[0] == decimal(n / 10)[0]);
        assert forall|k: int| 0 <= k < d.len() implies is_digit(#[trigger] d[k]) by {
            if k < d.len() - 1 {
                assert(d[k] == decimal(n / 10)[k]);
            }
        }
        assert(n == (n / 10) * 10 + n % 10) by {
            vstd::arithmetic::div_mod::lemma_fundamental_div_mod(n as int, 10);
        }
    }
}

proof fn lemma_digit_char_value(d: nat)
    requires
        d < 10,
    ensures
        digit_value(digit_char(d)) == d,
        d >= 1 ==> digit_char(d) != '0',
        is_digit(digit_char(d)),
{
}

/// Lengths: for every length `n` in `1..=192` written in decimal, a note or a
/// rest lasts `384 / n` ticks and an `l` command makes that the default; with a
/// dot it is `(384 / n) * 3 / 2` ticks (the product with 1.5 rounded down).
pub proof fn lemma_length(st: PerformanceState, t: TokenView, channel: u8, n: nat)
    requires
        1 <= n <= 192,
        t.digits == decimal(n),
        t.accidental is None,
    ensures
        duration(t, st.note_time as nat) == if t.dotted {
            (384nat / n) * 3 / 2
        } else {
            384nat / n
        },
        is_cmd(t.head, 'r', 'R') && st.cursor + duration(t, st.note_time as nat) <= u32::MAX
            ==> step(st, t, channel).0.cursor == st.cursor + duration(t, st.note_time as nat),
        is_cmd(t.head, 'l', 'L') ==> step(st, t, channel).0.note_time == if t.dotted {
            (384nat / n) * 3 / 2
        } else {
            384nat / n
        },
{
    lemma_decimal_value(n);
    assert(384nat / n <= 384) by {
        vstd::arithmetic::div_mod::lemma_div_is_ordered_by_denominator(384, 1, n as int);
    }
}

/// Octave commands: `>` raises the octave by one but never past 9, `<` lowers it
/// by one but never below 0, and `o` sets it to its argument as written, however
/// large.
pub proof fn lemma_octave(st: PerformanceState, t: TokenView, channel: u8)
    ensures
        t.head == '>' ==> step(st, t, channel).0.octave == if st.octave >= 9 {
            9
        } else {
            st.octave + 1
        },
        t.head == '<' ==> step(st, t, channel).0.octave == if st.octave == 0 {
            0
        } else {
            st.octave - 1
        },
        is_cmd(t.head, 'o', 'O') ==> step(st, t, channel).0.octave == command_value(t),
{
}

/// Ties: a note tied to a note of the same pitch sounds once, with one NoteOn and
/// one NoteOff, for the sum of both lengths. Tied to a note of another pitch, it
/// is released at the very tick where the second starts.
pub proof fn lemma_tie(
    st: PerformanceState,
    first: u8,
    second: u8,
    ticks1: nat,
    ticks2: nat,
    channel: u8,
)
    requires
        !st.tie_pending,
        st.cursor + ticks1 + ticks2 <= u32::MAX,
    ensures
        ({
            let (s1, e1) = play(st, first, ticks1, true, channel);
            let (s2, e2) = play(s1, second, ticks2, false, channel);
            let on1 = EventView::NoteOn {
                time: st.cursor,
                channel,
                note: first,
                velocity: (st.volume * 8) as u8,
            };
            let mid = (st.cursor + ticks1) as u32;
            let end = (st.cursor + ticks1 + ticks2) as u32;
            &&& !s2.tie_pending
            &&& s2.cursor == end
            &&& first == second ==> e1 + e2 == seq![on1, note_off(end, channel, first)]
            &&& first != second ==> e1 + e2 == seq![
                on1,
                note_off(mid, channel, first),
                EventView::NoteOn {
                    time: mid,
                    channel,
                    note: second,
                    velocity: (st.volume * 8) as u8,
                },
                note_off(end, channel, second),
            ]
        }),
{
    let (s1, e1) = play(st, first, ticks1, true, channel);
    let (s2, e2) = play(s1, second, ticks2, false, channel);
    assert(e1 =~= seq![
        EventView::NoteOn {
            time: st.cursor,
            channel,
            note: first,
            velocity: (st.volume * 8) as u8,
        },
    ]);
    if first == second {
        assert(e2 =~= seq![note_off((st.cursor + ticks1 + ticks2) as u32, channel, first)]);
    } else {
        assert(e2 =~= seq![
            note_off((st.cursor + ticks1) as u32, channel, first),
            EventView::NoteOn {
                time: (st.cursor + ticks1) as u32,
                channel,
                note: second,
                velocity: (st.volume * 8) as u8,
            },
            note_off((st.cursor + ticks1 + ticks2) as u32, channel, second),
        ]);
    }
}

} // verus!
