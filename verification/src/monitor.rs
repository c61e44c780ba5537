//! The watch over the network path: when the system's monitor is made, started
//! and cancelled.
use vstd::prelude::*;

verus! {

/// The watch as the contracts see it.
pub struct MonitorView {
    /// A start was asked for. The monitor is made at the first start only.
    pub asked: bool,
    /// There is a monitor, and it was not cancelled.
    pub running: bool,
}

/// The watch over the network path.
pub struct PathMonitor {
    asked: bool,
    running: bool,
}

impl View for PathMonitor {
    type V = MonitorView;

    closed spec fn view(&self) -> MonitorView {
        MonitorView { asked: self.asked, running: self.running }
    }
}

/// What happens to the watch.
pub enum MonitorEvent {
    /// A start is asked for; says whether the system could make a monitor now.
    Start(bool),
    Stop,
}

impl MonitorView {
    /// A watch that was never started.
    pub open spec fn fresh() -> MonitorView {
        MonitorView { asked: false, running: false }
    }

    /// Whether a start makes a monitor.
    pub open spec fn makes(self) -> bool {
        !self.asked
    }

    /// The watch after a start was asked for.
    pub open spec fn started(self) -> MonitorView {
        MonitorView { asked: true, ..self }
    }

    /// The watch after the system was asked for a monitor.
    pub open spec fn with_monitor(self, made: bool) -> MonitorView {
        MonitorView { running: made, ..self }
    }

    pub open spec fn stopped(self) -> MonitorView {
        MonitorView { running: false, ..self }
    }

    pub open spec fn after(self, event: MonitorEvent) -> MonitorView {
        match event {
            MonitorEvent::Start(made) => if self.makes() {
                self.started().with_monitor(made)
            } else {
                self.started()
            },
            MonitorEvent::Stop => self.stopped(),
        }
    }

    pub open spec fn after_all(self, events: Seq<MonitorEvent>) -> MonitorView
        decreases events.len(),
    {
        if events.len() == 0 {
            self
        } else {
            self.after(events[0]).after_all(events.drop_first())
        }
    }

    /// How many monitors are asked of the system.
    pub open spec fn attempts(self, events: Seq<MonitorEvent>) -> nat
        decreases events.len(),
    {
        if events.len() == 0 {
            0
        } else {
            (if events[0] is Start && self.makes() {
                1nat
            } else {
                0nat
            }) + self.after(events[0]).attempts(events.drop_first())
        }
    }

    /// How many monitors are cancelled.
    pub open spec fn cancelled(self, events: Seq<MonitorEvent>) -> nat
        decreases events.len(),
    {
        if events.len() == 0 {
            0
        } else {
            (if events[0] is Stop && self.running {
                1nat
            } else {
                0nat
            }) + self.after(events[0]).cancelled(events.drop_first())
        }
    }
}

impl PathMonitor {
    pub fn new() -> (watch: PathMonitor)
        ensures
            watch@ == MonitorView::fresh(),
    {
        PathMonitor { asked: false, running: false }
    }

    /// Asks for a start; says whether a monitor is to be made now.
    pub fn start_monitor(&mut self) -> (make: bool)
        ensures
            make == old(self)@.makes(),
            final(self)@ == old(self)@.started(),
    {
        let make: bool = !self.asked;
        self.asked = true;
        make
    }

    /// Notes whether the system made a monitor; it is to be started if so.
    pub fn monitor_made(&mut self, made: bool) -> (start: bool)
        ensures
            start == made,
            final(self)@ == old(self)@.with_monitor(made),
    {
        self.running = made;
        made
    }

    /// Ends the watch; says whether there is a monitor to cancel.
    pub fn stop_monitor(&mut self) -> (cancel: bool)
        ensures
            cancel == old(self)@.running,
            final(self)@ == old(self)@.stopped(),
    {
        let cancel: bool = self.running;
        self.running = false;
        cancel
    }
}

/// However often the watch is started and stopped, the system is asked for a
/// monitor once at most: also where it could not make one, and after a stop.
pub proof fn law_one_monitor(watch: MonitorView, events: Seq<MonitorEvent>)
    ensures
        watch.attempts(events) <= 1,
        watch.asked ==> watch.attempts(events) == 0,
    decreases events.len(),
{
    if events.len() > 0 {
        law_one_monitor(watch.after(events[0]), events.drop_first());
    }
}

/// No monitor is cancelled twice, and none that was not made: as many as were
/// running or asked for, at most, and those that were cancelled do not run.
pub proof fn law_cancelled_once(watch: MonitorView, events: Seq<MonitorEvent>)
    requires
        watch.running ==> watch.asked,
    ensures
        watch.cancelled(events) + (if watch.after_all(events).running {
            1nat
        } else {
            0nat
        }) <= watch.attempts(events) + (if watch.running {
            1nat
        } else {
            0nat
        }),
    decreases events.len(),
{
    if events.len() > 0 {
        law_cancelled_once(watch.after(events[0]), events.drop_first());
    }
}

/// The first start, and no other, makes a monitor; whether it runs is what the
/// system made of it; a stop ends it and lets no other start.
pub proof fn law_watch(watch: MonitorView, made: bool)
    ensures
        !MonitorView::fresh().asked && !MonitorView::fresh().running,
        watch.makes() <==> !watch.asked,
        watch.started().asked,
        watch.started().running == watch.running,
        watch.with_monitor(made).running == made,
        watch.with_monitor(made).asked == watch.asked,
        !watch.stopped().running,
        watch.stopped().asked == watch.asked,
{
}

} // verus!
