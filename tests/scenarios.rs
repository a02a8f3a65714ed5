use state_machine::{State, StateMachine, Trans};

/// What a recording state asks for on each kind of tick.
#[derive(Clone, Copy, Debug, PartialEq)]
enum Ask {
    Stay,
    Pop,
    PushT,
    SwitchU,
    Quit,
}

/// A state that logs every callback it receives into the context.
struct Rec {
    name: &'static str,
    on_events: Ask,
    on_fixed: Ask,
    on_update: Ask,
}

fn rec(name: &'static str) -> Rec {
    Rec { name, on_events: Ask::Stay, on_fixed: Ask::Stay, on_update: Ask::Stay }
}

impl Rec {
    fn log(&self, m: &mut Vec<String>, what: &str) {
        m.push(format!("{}.{}", self.name, what));
    }

    fn ask(&self, a: Ask) -> Trans<Rec> {
        match a {
            Ask::Stay => Trans::Stay,
            Ask::Pop => Trans::Pop,
            Ask::PushT => Trans::Push(Rec {
                name: "T",
                on_events: Ask::Quit,
                on_fixed: Ask::Pop,
                on_update: Ask::SwitchU,
            }),
            Ask::SwitchU => Trans::Switch(rec("U")),
            Ask::Quit => Trans::Quit,
        }
    }
}

// Compiled outside Verus, the trait's spec functions are plain methods too;
// each one here is its callback run on owned values.
impl State<Vec<String>, ()> for Rec {
    fn start_spec(mut self, mut m: Vec<String>, r: ()) -> (Rec, Vec<String>) {
        self.on_start(&mut m, &r);
        (self, m)
    }

    fn stop_spec(mut self, mut m: Vec<String>, r: ()) -> Vec<String> {
        self.on_stop(&mut m, &r);
        m
    }

    fn pause_spec(mut self, mut m: Vec<String>, r: ()) -> (Rec, Vec<String>) {
        self.on_pause(&mut m, &r);
        (self, m)
    }

    fn resume_spec(mut self, mut m: Vec<String>, r: ()) -> (Rec, Vec<String>) {
        self.on_resume(&mut m, &r);
        (self, m)
    }

    fn events_spec(mut self, mut m: Vec<String>, r: ()) -> (Rec, Vec<String>, Trans<Rec>) {
        let t = self.handle_events(&mut m, &r);
        (self, m, t)
    }

    fn fixed_update_spec(mut self, mut m: Vec<String>, r: ()) -> (Rec, Vec<String>, Trans<Rec>) {
        let t = self.fixed_update(&mut m, &r);
        (self, m, t)
    }

    fn update_spec(mut self, mut m: Vec<String>, r: ()) -> (Rec, Vec<String>, Trans<Rec>) {
        let t = self.update(&mut m, &r);
        (self, m, t)
    }

    fn on_start(&mut self, m: &mut Vec<String>, _r: &()) {
        self.log(m, "on_start");
    }

    fn on_stop(&mut self, m: &mut Vec<String>, _r: &()) {
        self.log(m, "on_stop");
    }

    fn on_pause(&mut self, m: &mut Vec<String>, _r: &()) {
        self.log(m, "on_pause");
    }

    fn on_resume(&mut self, m: &mut Vec<String>, _r: &()) {
        self.log(m, "on_resume");
    }

    fn handle_events(&mut self, m: &mut Vec<String>, _r: &()) -> Trans<Rec> {
        self.log(m, "handle_events");
        self.ask(self.on_events)
    }

    fn fixed_update(&mut self, m: &mut Vec<String>, _r: &()) -> Trans<Rec> {
        self.log(m, "fixed_update");
        self.ask(self.on_fixed)
    }

    fn update(&mut self, m: &mut Vec<String>, _r: &()) -> Trans<Rec> {
        self.log(m, "update");
        self.ask(self.on_update)
    }
}

fn running_s(s: Rec) -> (StateMachine<Rec>, Vec<String>) {
    let mut sm = StateMachine::new(s);
    let mut log: Vec<String> = Vec::new();
    sm.start(&mut log, &());
    (sm, log)
}

#[test]
fn scenario_start_fires_on_start_once() {
    let mut sm = StateMachine::new(rec("S"));
    let mut log: Vec<String> = Vec::new();
    assert!(!sm.is_running());
    assert!(log.is_empty());
    sm.start(&mut log, &());
    assert_eq!(log, vec!["S.on_start"]);
    assert!(sm.is_running());
    sm.start(&mut log, &());
    assert_eq!(log, vec!["S.on_start"]);
}

#[test]
fn scenario_push_pauses_then_starts() {
    let mut s = rec("S");
    s.on_update = Ask::PushT;
    let (mut sm, mut log) = running_s(s);
    log.clear();
    sm.update(&mut log, &());
    assert_eq!(log, vec!["S.update", "S.on_pause", "T.on_start"]);
    log.clear();
    sm.handle_events(&mut log, &());
    assert_eq!(log[0], "T.handle_events");
}

fn running_s_under_t() -> (StateMachine<Rec>, Vec<String>) {
    let mut s = rec("S");
    s.on_update = Ask::PushT;
    let (mut sm, mut log) = running_s(s);
    sm.update(&mut log, &());
    log.clear();
    (sm, log)
}

#[test]
fn scenario_pop_stops_then_resumes() {
    let (mut sm, mut log) = running_s_under_t();
    sm.fixed_update(&mut log, &());
    assert_eq!(log, vec!["T.fixed_update", "T.on_stop", "S.on_resume"]);
    assert!(sm.is_running());
    log.clear();
    sm.handle_events(&mut log, &());
    assert_eq!(log, vec!["S.handle_events"]);
}

#[test]
fn scenario_switch_stops_then_starts_and_leaves_beneath() {
    let (mut sm, mut log) = running_s_under_t();
    sm.update(&mut log, &());
    assert_eq!(log, vec!["T.update", "T.on_stop", "U.on_start"]);
    assert!(sm.is_running());
    log.clear();
    sm.handle_events(&mut log, &());
    assert_eq!(log, vec!["U.handle_events"]);
}

#[test]
fn scenario_quit_stops_top_to_bottom() {
    let (mut sm, mut log) = running_s_under_t();
    sm.handle_events(&mut log, &());
    assert_eq!(log, vec!["T.handle_events", "T.on_stop", "S.on_stop"]);
    assert!(!sm.is_running());
    log.clear();
    sm.update(&mut log, &());
    assert!(log.is_empty());
}

#[test]
fn scenario_pop_of_last_state_halts() {
    let mut s = rec("S");
    s.on_fixed = Ask::Pop;
    let (mut sm, mut log) = running_s(s);
    log.clear();
    sm.fixed_update(&mut log, &());
    assert_eq!(log, vec!["S.fixed_update", "S.on_stop"]);
    assert!(!sm.is_running());
    log.clear();
    sm.update(&mut log, &());
    sm.fixed_update(&mut log, &());
    sm.handle_events(&mut log, &());
    sm.start(&mut log, &());
    assert!(log.is_empty());
    assert!(!sm.is_running());
}
