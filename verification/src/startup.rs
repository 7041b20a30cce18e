//! The way from the command line to a running server: what is checked, in which order, and what
//! ends the program early.

use vstd::prelude::*;

use crate::node::{check_node, node_problem};
use crate::ports::{
    first_free, last_port, no_free_port, no_port_message, port_notice, port_range, port_warning,
    search_tries_a_hundred_ports, PortSearch,
};

verus! {

/// Where the startup stands.
pub enum Startup {
    /// The built site is looked for.
    SiteCheck { default_port: u16 },
    /// The version of Node.js is asked for.
    NodeCheck { default_port: u16 },
    /// A port for the server is searched.
    PublicPort(PortSearch),
    /// The server has its port, and one for the API process is searched.
    ApiPort { port: u16, search: PortSearch },
    /// The API process is started.
    NodeLaunch { port: u16, api_port: u16 },
    /// The server runs.
    Serving { port: u16, api_port: u16 },
    /// The program ends.
    Stopped,
}

/// What a [`Startup`] stands for. A search is given by its origin and the ports that are left.
pub enum Stage {
    SiteCheck { default_port: u16 },
    NodeCheck { default_port: u16 },
    PublicPort { start: u16, left: Seq<u16> },
    ApiPort { port: u16, start: u16, left: Seq<u16> },
    NodeLaunch { port: u16, api_port: u16 },
    Serving { port: u16, api_port: u16 },
    Stopped,
}

/// What happened.
pub enum StartEvent {
    /// Whether the built site was found, and where it was looked for.
    Site { found: bool, path: String },
    /// What `node --version` printed, if it could be run.
    NodeVersion(Option<Vec<u8>>),
    /// The port that was tried is now held.
    Bound,
    /// The port that was tried is taken.
    Refused,
    /// The API process is up, or why it is not.
    NodeStarted(Result<(), String>),
}

/// What to do next.
pub enum StartAction {
    /// Look for the built site.
    FindSite,
    /// Run `node --version`.
    AskNodeVersion,
    /// Try to listen on a port.
    TryPort(u16),
    /// Start the API process on a port.
    LaunchNode(u16),
    /// Announce the server and serve.
    Serve { port: u16, api_port: u16 },
    /// Print a complaint and end with failure.
    Fail(String),
    /// End at once, as a defect.
    Abort(String),
    /// Nothing: the event does not belong here.
    Ignore,
}

/// What a [`StartAction`] stands for.
pub enum Action {
    FindSite,
    AskNodeVersion,
    TryPort(u16),
    LaunchNode(u16),
    Serve { port: u16, api_port: u16 },
    Fail(Seq<char>),
    Abort(Seq<char>),
    Ignore,
}

impl View for StartAction {
    type V = Action;

    open spec fn view(&self) -> Action {
        match *self {
            StartAction::FindSite => Action::FindSite,
            StartAction::AskNodeVersion => Action::AskNodeVersion,
            StartAction::TryPort(port) => Action::TryPort(port),
            StartAction::LaunchNode(port) => Action::LaunchNode(port),
            StartAction::Serve { port, api_port } => Action::Serve { port, api_port },
            StartAction::Fail(text) => Action::Fail(text@),
            StartAction::Abort(text) => Action::Abort(text@),
            StartAction::Ignore => Action::Ignore,
        }
    }
}

impl View for Startup {
    type V = Stage;

    open spec fn view(&self) -> Stage {
        match *self {
            Startup::SiteCheck { default_port } => Stage::SiteCheck { default_port },
            Startup::NodeCheck { default_port } => Stage::NodeCheck { default_port },
            Startup::PublicPort(search) => Stage::PublicPort {
                start: search.origin(),
                left: search.remaining(),
            },
            Startup::ApiPort { port, search } => Stage::ApiPort {
                port,
                start: search.origin(),
                left: search.remaining(),
            },
            Startup::NodeLaunch { port, api_port } => Stage::NodeLaunch { port, api_port },
            Startup::Serving { port, api_port } => Stage::Serving { port, api_port },
            Startup::Stopped => Stage::Stopped,
        }
    }
}

/// A step of the startup: the next state, a notice to print, and what to do.
pub struct StartStep {
    pub state: Startup,
    pub notice: Option<String>,
    pub action: StartAction,
}

/// What a [`StartStep`] stands for.
pub struct Step {
    pub stage: Stage,
    pub notice: Option<Seq<char>>,
    pub action: Action,
}

impl View for StartStep {
    type V = Step;

    open spec fn view(&self) -> Step {
        Step {
            stage: self.state@,
            notice: match self.notice {
                Some(text) => Some(text@),
                None => None,
            },
            action: self.action@,
        }
    }
}

/// The complaint that there is no built site.
pub open spec fn no_site_message(path: Seq<char>) -> Seq<char> {
    "\n  \x1b[31m✗\x1b[0m  dist/ not found at "@ + path
        + ".\n      Run \x1b[36mnpm run build\x1b[0m first.\n\n"@
}

/// The complaint that the API process did not come up.
pub open spec fn launch_failed_message(reason: Seq<char>) -> Seq<char> {
    "\n  \x1b[31m✗\x1b[0m  Failed to start Node API process: "@ + reason + "\n\n"@
}

/// A step without a notice.
pub open spec fn quiet(stage: Stage, action: Action) -> Step {
    Step { stage, notice: None, action }
}

/// The step that tries the next port of a search, or gives up.
pub open spec fn search_step(stage: Stage, start: u16, left: Seq<u16>) -> Step {
    if left.len() == 0 {
        quiet(Stage::Stopped, Action::Abort(no_port_message(start)))
    } else {
        quiet(stage, Action::TryPort(left[0]))
    }
}

/// The warning that goes with a port, if it is not the one that was asked for.
pub open spec fn notice_for(start: u16, port: u16) -> Option<Seq<char>> {
    if port == start {
        None
    } else {
        Some(port_warning(start, port))
    }
}

/// What follows an event.
pub open spec fn next_step(stage: Stage, event: StartEvent) -> Step {
    match (stage, event) {
        (Stage::SiteCheck { default_port }, StartEvent::Site { found, path }) => if found {
            quiet(Stage::NodeCheck { default_port }, Action::AskNodeVersion)
        } else {
            quiet(Stage::Stopped, Action::Fail(no_site_message(path@)))
        },
        (Stage::NodeCheck { default_port }, StartEvent::NodeVersion(output)) => match node_problem(
            version_output(output),
        ) {
            Some(message) => quiet(Stage::Stopped, Action::Fail(message)),
            None => quiet(
                Stage::PublicPort { start: default_port, left: port_range(default_port) },
                Action::TryPort(default_port),
            ),
        },
        (Stage::PublicPort { start, left }, StartEvent::Refused) => search_step(
            Stage::PublicPort { start, left: left.drop_first() },
            start,
            left.drop_first(),
        ),
        (Stage::PublicPort { start, left }, StartEvent::Bound) => Step {
            notice: notice_for(start, left[0]),
            ..api_search(left[0])
        },
        (Stage::ApiPort { port, start, left }, StartEvent::Refused) => search_step(
            Stage::ApiPort { port, start, left: left.drop_first() },
            start,
            left.drop_first(),
        ),
        (Stage::ApiPort { port, start, left }, StartEvent::Bound) => Step {
            stage: Stage::NodeLaunch { port, api_port: left[0] },
            notice: notice_for(start, left[0]),
            action: Action::LaunchNode(left[0]),
        },
        (Stage::NodeLaunch { port, api_port }, StartEvent::NodeStarted(outcome)) => match outcome {
            Ok(_) => quiet(Stage::Serving { port, api_port }, Action::Serve { port, api_port }),
            Err(reason) => quiet(Stage::Stopped, Action::Fail(launch_failed_message(reason@))),
        },
        _ => quiet(stage, Action::Ignore),
    }
}

/// The bytes of a version output, if there is one.
pub open spec fn version_output(output: Option<Vec<u8>>) -> Option<Seq<u8>> {
    match output {
        Some(bytes) => Some(bytes@),
        None => None,
    }
}

/// The start of the search for the port of the API process, right above the server's own port.
pub open spec fn api_search(port: u16) -> Step {
    if port == u16::MAX {
        quiet(Stage::Stopped, Action::Abort("attempt to add with overflow"@))
    } else {
        quiet(
            Stage::ApiPort { port, start: (port + 1) as u16, left: port_range((port + 1) as u16) },
            Action::TryPort((port + 1) as u16),
        )
    }
}

impl Startup {
    /// Whether a search is under way wherever the state says so.
    pub open spec fn wf(self) -> bool {
        match self {
            Startup::PublicPort(search) => search.wf() && search.remaining().len() > 0,
            Startup::ApiPort { port, search } => search.wf() && search.remaining().len() > 0,
            _ => true,
        }
    }

    /// Begins the startup.
    pub fn begin(default_port: u16) -> (step: StartStep)
        ensures
            step.state.wf(),
            step@ == quiet(Stage::SiteCheck { default_port }, Action::FindSite),
    {
        StartStep {
            state: Startup::SiteCheck { default_port },
            notice: None,
            action: StartAction::FindSite,
        }
    }

    /// Takes an event in.
    pub fn step(self, event: StartEvent) -> (step: StartStep)
        requires
            self.wf(),
        ensures
            step.state.wf(),
            step@ == next_step(self@, event),
    {
        match (self, event) {
            (Startup::SiteCheck { default_port }, StartEvent::Site { found, path }) => {
                if found {
                    quiet_step(Startup::NodeCheck { default_port }, StartAction::AskNodeVersion)
                } else {
                    let mut text = "\n  \x1b[31m✗\x1b[0m  dist/ not found at ".to_owned();
                    text.append(path.as_str());
                    text.append(".\n      Run \x1b[36mnpm run build\x1b[0m first.\n\n");
                    quiet_step(Startup::Stopped, StartAction::Fail(text))
                }
            },
            (Startup::NodeCheck { default_port }, StartEvent::NodeVersion(output)) => {
                let verdict = match &output {
                    Some(bytes) => check_node(Some(bytes.as_slice())),
                    None => check_node(None),
                };
                match verdict {
                    Err(message) => quiet_step(Startup::Stopped, StartAction::Fail(message)),
                    Ok(_) => {
                        proof {
                            crate::ports::ports_ascend(default_port);
                        }
                        quiet_step(
                            Startup::PublicPort(PortSearch::new(default_port)),
                            StartAction::TryPort(default_port),
                        )
                    },
                }
            },
            (Startup::PublicPort(search), StartEvent::Refused) => {
                let mut search = search;
                search.refused();
                match search.current() {
                    Some(port) => quiet_step(
                        Startup::PublicPort(search),
                        StartAction::TryPort(port),
                    ),
                    None => quiet_step(
                        Startup::Stopped,
                        StartAction::Abort(no_free_port(search.start())),
                    ),
                }
            },
            (Startup::PublicPort(search), StartEvent::Bound) => {
                let port: u16 = search.current().unwrap();
                let notice = port_notice(search.start(), port);
                if port == u16::MAX {
                    StartStep {
                        state: Startup::Stopped,
                        notice,
                        action: StartAction::Abort("attempt to add with overflow".to_owned()),
                    }
                } else {
                    let next: u16 = port + 1;
                    proof {
                        crate::ports::ports_ascend(next);
                    }
                    StartStep {
                        state: Startup::ApiPort { port, search: PortSearch::new(next) },
                        notice,
                        action: StartAction::TryPort(next),
                    }
                }
            },
            (Startup::ApiPort { port, search }, StartEvent::Refused) => {
                let mut search = search;
                search.refused();
                match search.current() {
                    Some(next) => quiet_step(
                        Startup::ApiPort { port, search },
                        StartAction::TryPort(next),
                    ),
                    None => quiet_step(
                        Startup::Stopped,
                        StartAction::Abort(no_free_port(search.start())),
                    ),
                }
            },
            (Startup::ApiPort { port, search }, StartEvent::Bound) => {
                let api_port: u16 = search.current().unwrap();
                StartStep {
                    state: Startup::NodeLaunch { port, api_port },
                    notice: port_notice(search.start(), api_port),
                    action: StartAction::LaunchNode(api_port),
                }
            },
            (Startup::NodeLaunch { port, api_port }, StartEvent::NodeStarted(outcome)) => {
                match outcome {
                    Ok(_) => quiet_step(
                        Startup::Serving { port, api_port },
                        StartAction::Serve { port, api_port },
                    ),
                    Err(reason) => {
                        let mut text =
                            "\n  \x1b[31m✗\x1b[0m  Failed to start Node API process: ".to_owned();
                        text.append(reason.as_str());
                        text.append("\n\n");
                        quiet_step(Startup::Stopped, StartAction::Fail(text))
                    },
                }
            },
            (state, _) => quiet_step(state, StartAction::Ignore),
        }
    }
}

fn quiet_step(state: Startup, action: StartAction) -> (step: StartStep)
    ensures
        step.state == state,
        step.notice is None,
        step.action == action,
{
    StartStep { state, notice: None, action }
}

// ---------------------------------------------------------------------------
// Laws
// ---------------------------------------------------------------------------

/// Where the startup stands after some events.
pub open spec fn after(stage: Stage, events: Seq<StartEvent>) -> Stage
    decreases events.len(),
{
    if events.len() == 0 {
        stage
    } else {
        after(next_step(stage, events[0]).stage, events.drop_first())
    }
}

/// Whether a search has ports left, and they are the last ones of its range.
pub open spec fn is_tail_of_range(start: u16, left: Seq<u16>) -> bool {
    &&& 0 < left.len() <= port_range(start).len()
    &&& left == port_range(start).skip(port_range(start).len() - left.len())
}

/// What holds of every stage that the startup reaches.
pub open spec fn is_sound(default_port: u16, stage: Stage) -> bool {
    match stage {
        Stage::SiteCheck { default_port: d } => d == default_port,
        Stage::NodeCheck { default_port: d } => d == default_port,
        Stage::PublicPort { start, left } => start == default_port && is_tail_of_range(start, left),
        Stage::ApiPort { port, start, left } => default_port <= port <= last_port(default_port)
            && start == port + 1 && is_tail_of_range(start, left),
        Stage::NodeLaunch { port, api_port } => default_port <= port <= last_port(default_port)
            && port < u16::MAX && port < api_port <= last_port((port + 1) as u16),
        Stage::Serving { port, api_port } => default_port <= port <= last_port(default_port) && port
            < u16::MAX && port < api_port <= last_port((port + 1) as u16),
        Stage::Stopped => true,
    }
}

proof fn lemma_tail_of_range(start: u16, left: Seq<u16>)
    requires
        is_tail_of_range(start, left),
    ensures
        start <= left[0] <= last_port(start),
        left.len() > 1 ==> is_tail_of_range(start, left.drop_first()),
{
    let range = port_range(start);
    assert(left[0] == range[range.len() - left.len()]);
    if left.len() > 1 {
        assert(left.drop_first() =~= range.skip(range.len() - left.drop_first().len()));
    }
}

proof fn lemma_whole_range(start: u16)
    ensures
        is_tail_of_range(start, port_range(start)),
{
    crate::ports::ports_ascend(start);
    assert(port_range(start).skip(0) == port_range(start));
}

/// Every event keeps the startup sound.
pub proof fn step_keeps_soundness(default_port: u16, stage: Stage, event: StartEvent)
    requires
        is_sound(default_port, stage),
    ensures
        is_sound(default_port, next_step(stage, event).stage),
{
    lemma_whole_range(default_port);
    match stage {
        Stage::PublicPort { start, left } => {
            lemma_tail_of_range(start, left);
            if left[0] < u16::MAX {
                lemma_whole_range((left[0] + 1) as u16);
            }
        },
        Stage::ApiPort { port, start, left } => {
            lemma_tail_of_range(start, left);
        },
        _ => {},
    }
}

proof fn lemma_after_is_sound(default_port: u16, stage: Stage, events: Seq<StartEvent>)
    requires
        is_sound(default_port, stage),
    ensures
        is_sound(default_port, after(stage, events)),
    decreases events.len(),
{
    if events.len() > 0 {
        step_keeps_soundness(default_port, stage, events[0]);
        lemma_after_is_sound(default_port, next_step(stage, events[0]).stage, events.drop_first());
    }
}

/// Whatever happens, a server that runs holds a port of the range that begins at the asked one,
/// and its API process holds another port, above it and in the range that begins right above it.
pub proof fn running_server_holds_its_ports(default_port: u16, events: Seq<StartEvent>)
    ensures
        is_sound(default_port, after(Stage::SiteCheck { default_port }, events)),
        match after(Stage::SiteCheck { default_port }, events) {
            Stage::Serving { port, api_port } => default_port <= port <= last_port(default_port)
                && port < api_port && api_port <= last_port((port + 1) as u16),
            _ => true,
        },
{
    lemma_after_is_sound(default_port, Stage::SiteCheck { default_port }, events);
}

/// Whether an event says that the built site is there.
pub open spec fn says_site_found(event: StartEvent) -> bool {
    match event {
        StartEvent::Site { found, path } => found,
        _ => false,
    }
}

/// Whether an event says that a Node.js that will do is there.
pub open spec fn says_node_will_do(event: StartEvent) -> bool {
    match event {
        StartEvent::NodeVersion(output) => node_problem(version_output(output)) is None,
        _ => false,
    }
}

/// Whether an event says that the API process is up.
pub open spec fn says_node_is_up(event: StartEvent) -> bool {
    match event {
        StartEvent::NodeStarted(outcome) => outcome is Ok,
        _ => false,
    }
}

/// Whether some event of a list passes a test.
pub open spec fn some_event(events: Seq<StartEvent>, test: spec_fn(StartEvent) -> bool) -> bool {
    exists|i: int| 0 <= i < events.len() && test(#[trigger] events[i])
}

/// How far a stage is from the start; a stopped startup counts as no way at all.
pub open spec fn progress(stage: Stage) -> int {
    match stage {
        Stage::Stopped => 0,
        Stage::SiteCheck { .. } => 0,
        Stage::NodeCheck { .. } => 1,
        Stage::PublicPort { .. } => 2,
        Stage::ApiPort { .. } => 2,
        Stage::NodeLaunch { .. } => 2,
        Stage::Serving { .. } => 3,
    }
}

proof fn lemma_needed_events(stage: Stage, events: Seq<StartEvent>)
    ensures
        progress(stage) < 1 <= progress(after(stage, events)) ==> some_event(
            events,
            |e: StartEvent| says_site_found(e),
        ),
        progress(stage) < 2 <= progress(after(stage, events)) ==> some_event(
            events,
            |e: StartEvent| says_node_will_do(e),
        ),
        progress(stage) < 3 <= progress(after(stage, events)) ==> some_event(
            events,
            |e: StartEvent| says_node_is_up(e),
        ),
    decreases events.len(),
{
    if events.len() > 0 {
        let next = next_step(stage, events[0]).stage;
        let rest = events.drop_first();
        lemma_needed_events(next, rest);
        lemma_event_of_rest(events, |e: StartEvent| says_site_found(e));
        lemma_event_of_rest(events, |e: StartEvent| says_node_will_do(e));
        lemma_event_of_rest(events, |e: StartEvent| says_node_is_up(e));
    }
}

proof fn lemma_event_of_rest(events: Seq<StartEvent>, test: spec_fn(StartEvent) -> bool)
    requires
        events.len() > 0,
    ensures
        some_event(events.drop_first(), test) ==> some_event(events, test),
        test(events[0]) ==> some_event(events, test),
{
    if some_event(events.drop_first(), test) {
        let i = choose|i: int|
            0 <= i < events.drop_first().len() && test(#[trigger] events.drop_first()[i]);
        assert(test(events[i + 1]));
    }
}

/// No server runs unless the built site was found, a Node.js that will do was found, and the API
/// process came up.
pub proof fn running_server_passed_every_check(default_port: u16, events: Seq<StartEvent>)
    requires
        after(Stage::SiteCheck { default_port }, events) is Serving,
    ensures
        some_event(events, |e: StartEvent| says_site_found(e)),
        some_event(events, |e: StartEvent| says_node_will_do(e)),
        some_event(events, |e: StartEvent| says_node_is_up(e)),
{
    lemma_needed_events(Stage::SiteCheck { default_port }, events);
}

/// A stopped startup stays stopped.
pub proof fn stopped_stays_stopped(events: Seq<StartEvent>)
    ensures
        after(Stage::Stopped, events) is Stopped,
    decreases events.len(),
{
    if events.len() > 0 {
        stopped_stays_stopped(events.drop_first());
    }
}

/// What trying ports in order brings, where just the ports of `free` can be had.
pub open spec fn attempts(ports: Seq<u16>, free: Set<u16>) -> Seq<StartEvent>
    decreases ports.len(),
{
    if ports.len() == 0 {
        Seq::empty()
    } else if free.contains(ports[0]) {
        seq![StartEvent::Bound]
    } else {
        seq![StartEvent::Refused] + attempts(ports.drop_first(), free)
    }
}

proof fn lemma_search(start: u16, left: Seq<u16>, free: Set<u16>)
    requires
        left.len() > 0,
    ensures
        after(Stage::PublicPort { start, left }, attempts(left, free)) == match first_free(
            left,
            free,
        ) {
            Some(port) => api_search(port).stage,
            None => Stage::Stopped,
        },
    decreases left.len(),
{
    let stage = Stage::PublicPort { start, left };
    let events = attempts(left, free);
    reveal_with_fuel(after, 2);
    if free.contains(left[0]) {
        assert(events.drop_first() =~= Seq::empty());
    } else {
        let rest = attempts(left.drop_first(), free);
        assert(events.drop_first() =~= rest);
        if left.len() > 1 {
            lemma_search(start, left.drop_first(), free);
        } else {
            assert(left.drop_first() =~= Seq::empty());
        }
    }
}

/// The server takes the lowest free port of its range: a busy port is passed over for the next
/// one, and the startup gives up only where the whole range is taken.
pub proof fn server_takes_the_lowest_free_port(start: u16, free: Set<u16>)
    ensures
        after(
            Stage::PublicPort { start, left: port_range(start) },
            attempts(port_range(start), free),
        ) == match first_free(port_range(start), free) {
            Some(port) => api_search(port).stage,
            None => Stage::Stopped,
        },
        match first_free(port_range(start), free) {
            Some(port) => free.contains(port) && start <= port <= last_port(start) && forall|p: u16|
                start <= p < port ==> !free.contains(p),
            None => forall|p: u16| start <= p <= last_port(start) ==> !free.contains(p),
        },
{
    crate::ports::ports_ascend(start);
    lemma_search(start, port_range(start), free);
    crate::ports::search_finds_the_lowest_free_port(start, free);
}

proof fn lemma_api_search(port: u16, start: u16, left: Seq<u16>, free: Set<u16>)
    requires
        left.len() > 0,
    ensures
        after(Stage::ApiPort { port, start, left }, attempts(left, free)) == match first_free(
            left,
            free,
        ) {
            Some(api_port) => Stage::NodeLaunch { port, api_port },
            None => Stage::Stopped,
        },
    decreases left.len(),
{
    let events = attempts(left, free);
    reveal_with_fuel(after, 2);
    if free.contains(left[0]) {
        assert(events.drop_first() =~= Seq::empty());
    } else {
        assert(events.drop_first() =~= attempts(left.drop_first(), free));
        if left.len() > 1 {
            lemma_api_search(port, start, left.drop_first(), free);
        } else {
            assert(left.drop_first() =~= Seq::empty());
        }
    }
}

proof fn lemma_after_in_steps(stage: Stage, first: Seq<StartEvent>, second: Seq<StartEvent>)
    ensures
        after(stage, first + second) == after(after(stage, first), second),
    decreases first.len(),
{
    if first.len() == 0 {
        assert(first + second == second);
    } else {
        assert((first + second).drop_first() == first.drop_first() + second);
        lemma_after_in_steps(next_step(stage, first[0]).stage, first.drop_first(), second);
    }
}

/// What a startup meets where the built site is there, just the ports of `free` can be had, the
/// server gets `port`, and the API process comes up.
pub open spec fn smooth_events(
    default_port: u16,
    path: String,
    output: Option<Vec<u8>>,
    free: Set<u16>,
    port: u16,
) -> Seq<StartEvent> {
    seq![StartEvent::Site { found: true, path }, StartEvent::NodeVersion(output)] + attempts(
        port_range(default_port),
        free,
    ) + attempts(port_range((port + 1) as u16), free) + seq![StartEvent::NodeStarted(Ok(()))]
}

/// A server comes up wherever the built site is there, Node.js will do, both searches find a free
/// port and the API process starts. It holds the lowest free port of the range that begins at the
/// asked one, and the API process the lowest free port of the range that begins right above that.
pub proof fn server_comes_up(
    default_port: u16,
    path: String,
    output: Option<Vec<u8>>,
    free: Set<u16>,
    port: u16,
    api_port: u16,
)
    requires
        node_problem(version_output(output)) is None,
        first_free(port_range(default_port), free) == Some(port),
        port < u16::MAX,
        first_free(port_range((port + 1) as u16), free) == Some(api_port),
    ensures
        after(
            Stage::SiteCheck { default_port },
            smooth_events(default_port, path, output, free, port),
        ) == (Stage::Serving { port, api_port }),
{
    let next = (port + 1) as u16;
    let checks = seq![StartEvent::Site { found: true, path }, StartEvent::NodeVersion(output)];
    let public = attempts(port_range(default_port), free);
    let internal = attempts(port_range(next), free);
    let launch = seq![StartEvent::NodeStarted(Ok(()))];
    let begin = Stage::SiteCheck { default_port };
    lemma_after_in_steps(begin, checks + public + internal, launch);
    lemma_after_in_steps(begin, checks + public, internal);
    lemma_after_in_steps(begin, checks, public);
    reveal_with_fuel(after, 3);
    assert(checks.drop_first() =~= seq![StartEvent::NodeVersion(output)]);
    assert(checks.drop_first().drop_first() =~= Seq::empty());
    assert(launch.drop_first() =~= Seq::empty());
    crate::ports::ports_ascend(default_port);
    crate::ports::ports_ascend(next);
    lemma_search(default_port, port_range(default_port), free);
    lemma_api_search(port, next, port_range(next), free);
}

/// Whether a search is under way whose next port is `port`.
pub open spec fn tries_next(stage: Stage, port: u16) -> bool {
    match stage {
        Stage::PublicPort { start, left } => left.len() > 0 && left[0] == port,
        Stage::ApiPort { port: own, start, left } => left.len() > 0 && left[0] == port,
        _ => false,
    }
}

/// What is done agrees with where the startup then stands. The port that is tried is the next one
/// of the search; the API process is started on the port that was found for it; the server serves
/// on its own port and hands on to that of the API process; the program ends where the startup has
/// stopped; and where nothing is done, nothing has changed.
pub proof fn action_agrees_with_the_stage(stage: Stage, event: StartEvent)
    ensures
        match next_step(stage, event).action {
            Action::FindSite => false,
            Action::AskNodeVersion => next_step(stage, event).stage is NodeCheck,
            Action::TryPort(p) => tries_next(next_step(stage, event).stage, p),
            Action::LaunchNode(p) => match next_step(stage, event).stage {
                Stage::NodeLaunch { port, api_port } => api_port == p,
                _ => false,
            },
            Action::Serve { port, api_port } => next_step(stage, event).stage == (Stage::Serving {
                port,
                api_port,
            }),
            Action::Fail(_) => next_step(stage, event).stage is Stopped,
            Action::Abort(_) => next_step(stage, event).stage is Stopped,
            Action::Ignore => next_step(stage, event).stage == stage,
        },
        next_step(stage, event).stage != stage ==> !(next_step(stage, event).action is Ignore),
{
    match stage {
        Stage::NodeCheck { default_port } => {
            search_tries_a_hundred_ports(default_port);
        },
        Stage::PublicPort { start, left } => {
            if left[0] < u16::MAX {
                search_tries_a_hundred_ports((left[0] + 1) as u16);
            }
            if left.len() > 0 {
                assert(left.drop_first() != left) by {
                    assert(left.drop_first().len() == left.len() - 1);
                }
            }
        },
        _ => {},
    }
}

/// A startup begins with the look for the built site, then asks for the version of Node.js, and then
/// tries just the port that was asked for.
pub proof fn asked_port_is_tried_first(default_port: u16, path: String, output: Option<Vec<u8>>)
    requires
        node_problem(version_output(output)) is None,
    ensures
        ({
            let site = next_step(
                Stage::SiteCheck { default_port },
                StartEvent::Site { found: true, path },
            );
            let node = next_step(site.stage, StartEvent::NodeVersion(output));
            &&& site.action is AskNodeVersion
            &&& site.notice is None
            &&& node.action == Action::TryPort(default_port)
            &&& node.notice is None
            &&& tries_next(node.stage, default_port)
        }),
{
    search_tries_a_hundred_ports(default_port);
}

/// Without the built site the program ends with a complaint that names the path; with a Node.js that
/// will not do, with the complaint about that.
pub proof fn failed_check_ends_the_program(
    default_port: u16,
    path: String,
    output: Option<Vec<u8>>,
)
    ensures
        ({
            let site = next_step(
                Stage::SiteCheck { default_port },
                StartEvent::Site { found: false, path },
            );
            &&& site.stage is Stopped
            &&& site.action == Action::Fail(
                "\n  \x1b[31m✗\x1b[0m  dist/ not found at "@ + path@
                    + ".\n      Run \x1b[36mnpm run build\x1b[0m first.\n\n"@,
            )
        }),
        ({
            let node = next_step(
                Stage::NodeCheck { default_port },
                StartEvent::NodeVersion(output),
            );
            let problem = node_problem(
                match output {
                    Some(bytes) => Some(bytes@),
                    None => None,
                },
            );
            problem is Some ==> node.stage is Stopped && node.action == Action::Fail(problem->0)
        }),
{
}

/// A refused port is passed over for the one right after it, up to the end of the range; after the
/// last one the program ends with a complaint that names the range. The port that the server holds
/// does not change while one for the API process is searched.
pub proof fn refused_port_is_passed_over(port: u16, start: u16, i: int)
    requires
        0 <= i < port_range(start).len(),
    ensures
        ({
            let left = port_range(start).skip(i);
            let public = next_step(Stage::PublicPort { start, left }, StartEvent::Refused);
            let api = next_step(Stage::ApiPort { port, start, left }, StartEvent::Refused);
            let more = i + 1 < port_range(start).len();
            &&& more ==> public.action == Action::TryPort((start + i + 1) as u16)
            &&& more ==> public.stage == (Stage::PublicPort {
                start,
                left: port_range(start).skip(i + 1),
            })
            &&& more ==> api.action == Action::TryPort((start + i + 1) as u16)
            &&& more ==> api.stage == (Stage::ApiPort {
                port,
                start,
                left: port_range(start).skip(i + 1),
            })
            &&& !more ==> public.action == Action::Abort(no_port_message(start))
            &&& !more ==> api.action == Action::Abort(no_port_message(start))
            &&& public.notice is None && api.notice is None
        }),
{
    search_tries_a_hundred_ports(start);
    let left = port_range(start).skip(i);
    assert(left.drop_first() =~= port_range(start).skip(i + 1));
    if i + 1 < port_range(start).len() {
        assert(left.drop_first()[0] == port_range(start)[i + 1]);
    }
}

/// A port that can be had is kept, with a warning if and only if it is not the one that was asked
/// for. The search for the API process then begins right above the server's port, and the API
/// process is started on the port that was found for it. The last port of all leaves none above it.
pub proof fn bound_port_is_kept(port: u16, start: u16, i: int)
    requires
        0 <= i < port_range(start).len(),
    ensures
        ({
            let left = port_range(start).skip(i);
            let found = (start + i) as u16;
            let public = next_step(Stage::PublicPort { start, left }, StartEvent::Bound);
            let api = next_step(Stage::ApiPort { port, start, left }, StartEvent::Bound);
            let warning = if i == 0 {
                None
            } else {
                Some(port_warning(start, found))
            };
            &&& public.notice == warning
            &&& found < 65535 ==> public.stage == (Stage::ApiPort {
                port: found,
                start: (found + 1) as u16,
                left: port_range((found + 1) as u16),
            })
            &&& found < 65535 ==> public.action == Action::TryPort((found + 1) as u16)
            &&& found == 65535 ==> public.stage is Stopped && public.action == Action::Abort(
                "attempt to add with overflow"@,
            )
            &&& api.notice == warning
            &&& api.stage == (Stage::NodeLaunch { port, api_port: found })
            &&& api.action == Action::LaunchNode(found)
        }),
{
    search_tries_a_hundred_ports(start);
    assert(port_range(start).skip(i)[0] == port_range(start)[i]);
}

/// The server serves once the API process is up, on the ports that were found; where it did not come
/// up the program ends with a complaint that gives the reason.
pub proof fn server_serves_once_the_process_is_up(port: u16, api_port: u16, reason: String)
    ensures
        ({
            let up = next_step(
                Stage::NodeLaunch { port, api_port },
                StartEvent::NodeStarted(Ok(())),
            );
            let down = next_step(
                Stage::NodeLaunch { port, api_port },
                StartEvent::NodeStarted(Err(reason)),
            );
            &&& up.action == (Action::Serve { port, api_port })
            &&& up.stage == (Stage::Serving { port, api_port })
            &&& up.notice is None
            &&& down.stage is Stopped
            &&& down.action == Action::Fail(
                "\n  \x1b[31m✗\x1b[0m  Failed to start Node API process: "@ + reason@ + "\n\n"@,
            )
        }),
{
}

/// An event that does not answer what was last done changes nothing; neither does any event once the
/// server runs or the startup has stopped.
pub proof fn other_events_change_nothing(stage: Stage, event: StartEvent)
    requires
        match stage {
            Stage::SiteCheck { .. } => !(event is Site),
            Stage::NodeCheck { .. } => !(event is NodeVersion),
            Stage::PublicPort { .. } => !(event is Bound) && !(event is Refused),
            Stage::ApiPort { .. } => !(event is Bound) && !(event is Refused),
            Stage::NodeLaunch { .. } => !(event is NodeStarted),
            _ => true,
        },
    ensures
        next_step(stage, event).stage == stage,
        next_step(stage, event).action is Ignore,
        next_step(stage, event).notice is None,
{
}

/// A step without a notice is its stage and its action.
pub proof fn quiet_step_says_nothing(stage: Stage, action: Action)
    ensures
        quiet(stage, action).stage == stage,
        quiet(stage, action).action == action,
        quiet(stage, action).notice is None,
{
}

/// A step stands for the stage of its state, the text of its notice and its action.
pub proof fn step_stands_for_its_parts(step: StartStep)
    ensures
        step@.stage == step.state@,
        step@.action == step.action@,
        step@.notice is Some <==> step.notice is Some,
        step.notice is Some ==> step@.notice == Some(step.notice->0@),
{
}

/// An action stands for itself, with its text where it has one.
pub proof fn action_stands_for_itself(action: StartAction)
    ensures
        match action {
            StartAction::FindSite => action@ is FindSite,
            StartAction::AskNodeVersion => action@ is AskNodeVersion,
            StartAction::TryPort(p) => action@ == Action::TryPort(p),
            StartAction::LaunchNode(p) => action@ == Action::LaunchNode(p),
            StartAction::Serve { port, api_port } => action@ == (Action::Serve { port, api_port }),
            StartAction::Fail(text) => action@ == Action::Fail(text@),
            StartAction::Abort(text) => action@ == Action::Abort(text@),
            StartAction::Ignore => action@ is Ignore,
        },
{
}

/// A state stands for its stage, with its ports; a search stands for where it began and what is left
/// of it.
pub proof fn state_stands_for_its_stage(state: Startup)
    ensures
        match state {
            Startup::SiteCheck { default_port } => state@ == (Stage::SiteCheck { default_port }),
            Startup::NodeCheck { default_port } => state@ == (Stage::NodeCheck { default_port }),
            Startup::PublicPort(search) => state@ == (Stage::PublicPort {
                start: search.origin(),
                left: search.remaining(),
            }),
            Startup::ApiPort { port, search } => state@ == (Stage::ApiPort {
                port,
                start: search.origin(),
                left: search.remaining(),
            }),
            Startup::NodeLaunch { port, api_port } => state@ == (Stage::NodeLaunch {
                port,
                api_port,
            }),
            Startup::Serving { port, api_port } => state@ == (Stage::Serving { port, api_port }),
            Startup::Stopped => state@ is Stopped,
        },
{
}

/// The output of a command stands for its bytes.
pub proof fn output_stands_for_its_bytes(output: Option<Vec<u8>>)
    ensures
        version_output(output) is Some <==> output is Some,
        output is Some ==> version_output(output) == Some(output->0@),
{
}

} // verus!
