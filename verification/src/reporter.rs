//! An event-summary reporter: counts the kinds of events it is handed.

use vstd::prelude::*;
use crate::event::{Event, EventKind};

verus! {

/// Counts speciation, dispersal and coalescence events, inside and across
/// cells, skipping immediately repeated event records (an event delivered
/// twice in a row — as replayed streams can do — is counted once).
#[derive(Clone, Copy, PartialEq, Eq, Structural, Debug)]
pub struct EventReporter {
    pub last_speciation_event: Option<Event>,
    pub last_dispersal_event: Option<Event>,
    pub speciation: u64,
    pub out_dispersal: u64,
    pub self_dispersal: u64,
    pub out_coalescence: u64,
    pub self_coalescence: u64,
}

/// The reporter after counting one event: the mathematical model of
/// `report_speciation` and `report_dispersal`.
pub open spec fn report_one(r: EventReporter, event: Event) -> EventReporter {
    match event.kind {
        EventKind::Speciation => if r.last_speciation_event == Some(event) {
            r
        } else {
            EventReporter {
                last_speciation_event: Some(event),
                speciation: (r.speciation + 1) as u64,
                ..r
            }
        },
        EventKind::Dispersal { target, coalescence } => if r.last_dispersal_event == Some(event) {
            r
        } else {
            let counted = EventReporter { last_dispersal_event: Some(event), ..r };
            match (event.origin.location == target.location, coalescence is Some) {
                (true, true) => EventReporter {
                    self_coalescence: (r.self_coalescence + 1) as u64,
                    ..counted
                },
                (true, false) => EventReporter {
                    self_dispersal: (r.self_dispersal + 1) as u64,
                    ..counted
                },
                (false, true) => EventReporter {
                    out_coalescence: (r.out_coalescence + 1) as u64,
                    ..counted
                },
                (false, false) => EventReporter {
                    out_dispersal: (r.out_dispersal + 1) as u64,
                    ..counted
                },
            }
        },
    }
}

/// The reporter after counting a whole stream, in order.
pub open spec fn report_all(r: EventReporter, events: Seq<Event>) -> EventReporter
    decreases events.len(),
{
    if events.len() == 0 {
        r
    } else {
        report_one(report_all(r, events.drop_last()), events.last())
    }
}

impl EventReporter {
    /// The total number of events counted so far.
    pub open spec fn total(self) -> int {
        self.speciation + self.out_dispersal + self.self_dispersal + self.out_coalescence
            + self.self_coalescence
    }

    /// Count a speciation event, unless it repeats the last one seen.
    pub fn report_speciation(&mut self, event: &Event)
        requires
            event.kind is Speciation,
            old(self).total() < u64::MAX,
        ensures
            *final(self) == report_one(*old(self), *event),
    {
        let repeated = match &self.last_speciation_event {
            Some(last) => *last == *event,
            None => false,
        };
        if repeated {
            return ;
        }
        self.last_speciation_event = Some(*event);
        self.speciation = self.speciation + 1;
    }

    /// Count a dispersal event by its class (inside or across cells, with
    /// or without coalescence), unless it repeats the last one seen.
    pub fn report_dispersal(&mut self, event: &Event)
        requires
            event.kind is Dispersal,
            old(self).total() < u64::MAX,
        ensures
            *final(self) == report_one(*old(self), *event),
    {
        let repeated = match &self.last_dispersal_event {
            Some(last) => *last == *event,
            None => false,
        };
        if repeated {
            return ;
        }
        self.last_dispersal_event = Some(*event);
        match &event.kind {
            EventKind::Dispersal { target, coalescence } => {
                let self_dispersal = event.origin.location.x == target.location.x
                    && event.origin.location.y == target.location.y;
                match (self_dispersal, coalescence.is_some()) {
                    (true, true) => {
                        self.self_coalescence = self.self_coalescence + 1;
                    },
                    (true, false) => {
                        self.self_dispersal = self.self_dispersal + 1;
                    },
                    (false, true) => {
                        self.out_coalescence = self.out_coalescence + 1;
                    },
                    (false, false) => {
                        self.out_dispersal = self.out_dispersal + 1;
                    },
                }
            },
            EventKind::Speciation => {},
        }
    }

    /// Count every event of a stream in order.
    pub fn report_events(&mut self, events: &Vec<Event>)
        requires
            old(self).total() + events@.len() < u64::MAX,
        ensures
            *final(self) == report_all(*old(self), events@),
    {
        let ghost r0 = *self;
        let mut i: usize = 0;
        while i < events.len()
            invariant
                i <= events@.len(),
                self.total() + events@.len() - i < u64::MAX,
                *self == report_all(r0, events@.take(i as int)),
            decreases events@.len() - i,
        {
            proof {
                assert(events@.take(i + 1).drop_last() =~= events@.take(i as int));
                assert(events@.take(i + 1).last() == events@[i as int]);
            }
            let event = &events[i];
            match &event.kind {
                EventKind::Speciation => {
                    self.report_speciation(event);
                },
                EventKind::Dispersal { .. } => {
                    self.report_dispersal(event);
                },
            }
            i = i + 1;
        }
        proof {
            assert(events@.take(events@.len() as int) =~= events@);
        }
    }
}

impl Default for EventReporter {
    /// A reporter with every count at zero.
    fn default() -> (r: EventReporter)
        ensures
            r.speciation == 0,
            r.out_dispersal == 0,
            r.self_dispersal == 0,
            r.out_coalescence == 0,
            r.self_coalescence == 0,
            r.last_speciation_event is None,
            r.last_dispersal_event is None,
    {
        EventReporter {
            last_speciation_event: None,
            last_dispersal_event: None,
            speciation: 0,
            out_dispersal: 0,
            self_dispersal: 0,
            out_coalescence: 0,
            self_coalescence: 0,
        }
    }
}

} // verus!
