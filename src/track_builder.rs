//! Collects the events of one track.

use crate::text::{decimal, push_decimal};
use crate::track_event::{EventView, MidiEvent, TrackEvent, views_of};
use vstd::prelude::*;
use vstd::string::StringExecFns;

verus! {

/// The events of one track, in the order they were put.
pub struct TrackBuilder {
    channel: u8,
    events: Vec<MidiEvent>,
}

impl View for TrackBuilder {
    type V = Seq<EventView>;

    closed spec fn view(&self) -> Seq<EventView> {
        views_of(self.events@)
    }
}

impl TrackBuilder {
    pub closed spec fn channel(&self) -> u8 {
        self.channel
    }

    pub fn new(channel: u8) -> (r: Self)
        ensures
            r@ == Seq::<EventView>::empty(),
            r.channel() == channel,
    {
        let r = TrackBuilder { channel, events: Vec::new() };
        assert(r@ =~= Seq::<EventView>::empty());
        r
    }

    pub fn put_event(&mut self, event: MidiEvent) -> (r: &mut Self)
        ensures
            r@ == old(self)@.push(event@),
            r.channel() == old(self).channel(),
            *final(self) == *final(r),
    {
        self.events.push(event);
        assert(views_of(self.events@) =~= views_of(old(self).events@).push(event@));
        self
    }

    pub fn put_events(&mut self, events: Vec<MidiEvent>) -> (r: &mut Self)
        ensures
            r@ == old(self)@ + views_of(events@),
            r.channel() == old(self).channel(),
            *final(self) == *final(r),
    {
        let ghost events_in = events@;
        let mut events = events;
        self.events.append(&mut events);
        assert(views_of(self.events@) =~= views_of(old(self).events@) + views_of(events_in));
        self
    }

    /// A text listing: `MTrk`, then one line per event.
    pub fn build(&self) -> (r: Vec<String>)
        ensures
            strings_view(r@) == track_lines(self@),
    {
        let mut result: Vec<String> = Vec::new();
        result.push(String::from_str("MTrk"));
        let mut i: usize = 0;
        while i < self.events.len()
            invariant
                i <= self.events@.len(),
                strings_view(result@) == seq!["MTrk"@] + views_of(self.events@).subrange(
                    0,
                    i as int,
                ).map_values(|e: EventView| event_line(e)),
            decreases self.events@.len() - i,
        {
            let e = &self.events[i];
            let mut line = String::new();
            push_decimal(&mut line, e.lead_time());
            line.append(" ");
            let value = e.value();
            line.append(value.as_str());
            let ghost before = result@;
            result.push(line);
            proof {
                assert(line@ =~= event_line(self.events@[i as int]@));
                assert(strings_view(result@) =~= strings_view(before).push(line@));
                assert(views_of(self.events@).subrange(0, i + 1 as int).map_values(
                    |e: EventView| event_line(e),
                ) =~= views_of(self.events@).subrange(0, i as int).map_values(
                    |e: EventView| event_line(e),
                ).push(event_line(self.events@[i as int]@)));
            }
            i = i + 1;
        }
        assert(views_of(self.events@).subrange(0, i as int) =~= self@);
        result
    }

    pub fn event_list(&self) -> (r: &[MidiEvent])
        ensures
            views_of(r@) == self@,
    {
        self.events.as_slice()
    }
}

/// The text of a sequence of strings.
pub open spec fn strings_view(v: Seq<String>) -> Seq<Seq<char>> {
    v.map_values(|s: String| s@)
}

/// One line of a listing: the event's tick time, a space, its description.
pub open spec fn event_line(e: EventView) -> Seq<char> {
    decimal(e.time() as nat) + " "@ + e.description()
}

/// The listing of one track.
pub open spec fn track_lines(events: Seq<EventView>) -> Seq<Seq<char>> {
    seq!["MTrk"@] + events.map_values(|e: EventView| event_line(e))
}

} // verus!
