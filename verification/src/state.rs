//! Application state: the authoritative in-memory snapshot of the
//! interactive session, together with its invariants.

use vstd::prelude::*;
use vstd::string::StringExecFns;
use crate::record::{ContainerRecord, RecordView};

verus! {

/// The fixed, closed set of commands offered by the dashboard menu.
#[derive(Clone, Copy, PartialEq, Eq, Structural)]
pub enum Command {
    ListRunning,
    ListAll,
    Stop,
    Prune,
}

/// How many commands the fixed menu holds.
pub const COMMAND_COUNT: usize = 4;

/// The command shown at a given menu position.
pub open spec fn spec_command_of(i: int) -> Command {
    if i == 0 {
        Command::ListRunning
    } else if i == 1 {
        Command::ListAll
    } else if i == 2 {
        Command::Stop
    } else {
        Command::Prune
    }
}

/// Whether a command triggers a container-list refresh while highlighted.
pub open spec fn spec_is_listing(c: Command) -> bool {
    c == Command::ListRunning || c == Command::ListAll
}

/// The command shown at a given menu position.
pub fn command_of(i: usize) -> (c: Command)
    requires
        i < COMMAND_COUNT,
    ensures
        c == spec_command_of(i as int),
{
    if i == 0 {
        Command::ListRunning
    } else if i == 1 {
        Command::ListAll
    } else if i == 2 {
        Command::Stop
    } else {
        Command::Prune
    }
}

/// A recognized key event, as forwarded by the input relay.
#[derive(Clone, Copy, PartialEq, Eq, Structural)]
pub enum Key {
    /// Terminates the session.
    Quit,
    /// Moves the row highlight down by one, clamped.
    Down,
    /// Moves the row highlight up by one, clamped.
    Up,
    /// Cycles the command highlight forward, with wraparound.
    Right,
    /// Cycles the command highlight backward, with wraparound.
    Left,
    /// Stops the highlighted container immediately, whatever command is
    /// highlighted.
    StopNow,
    /// Executes the highlighted command.
    Activate,
    /// Any other key: no effect.
    Other,
}

/// What the control loop must do after dispatching a key, beyond the state
/// transition itself. External actions are carried out outside the library
/// and their outcomes handed back through `apply_stop_result` and
/// `apply_prune_result`.
pub enum Action {
    /// Proceed to the next iteration.
    Continue,
    /// Leave the loop; the session is over.
    Quit,
    /// Invoke the external tool's stop action on this container identifier.
    Stop(String),
    /// Invoke the external tool's system-prune action.
    Prune,
}

/// Mathematical view of an action.
pub enum ActionView {
    Continue,
    Quit,
    Stop(Seq<char>),
    Prune,
}

impl View for Action {
    type V = ActionView;

    open spec fn view(&self) -> ActionView {
        match self {
            Action::Continue => ActionView::Continue,
            Action::Quit => ActionView::Quit,
            Action::Stop(id) => ActionView::Stop(id@),
            Action::Prune => ActionView::Prune,
        }
    }
}

/// Mathematical view of the whole application state.
#[verifier::ext_equal]
pub struct StateView {
    pub selected_command: int,
    pub selected_row: int,
    pub containers: Seq<RecordView>,
    pub show_all: bool,
    pub status: Seq<char>,
}

impl StateView {
    /// The state invariants: the command highlight is a valid menu index,
    /// and the row highlight is a valid row index while rows exist and
    /// sits inert at zero while none do.
    pub open spec fn inv(self) -> bool {
        &&& 0 <= self.selected_command < COMMAND_COUNT
        &&& self.containers.len() > 0 ==> 0 <= self.selected_row < self.containers.len()
        &&& self.containers.len() == 0 ==> self.selected_row == 0
    }
}

/// The authoritative in-memory snapshot of the interactive session.
pub struct AppState {
    selected_command: usize,
    selected_row: usize,
    containers: Vec<ContainerRecord>,
    show_all: bool,
    status: String,
}

impl View for AppState {
    type V = StateView;

    closed spec fn view(&self) -> StateView {
        StateView {
            selected_command: self.selected_command as int,
            selected_row: self.selected_row as int,
            containers: self.containers@.map_values(|r: ContainerRecord| r@),
            show_all: self.show_all,
            status: self.status@,
        }
    }
}

impl AppState {
    /// A fresh session: first command highlighted, no containers cached,
    /// running containers only, empty status line.
    pub fn new() -> (s: AppState)
        ensures
            s@.inv(),
            s@.selected_command == 0,
            s@.selected_row == 0,
            s@.containers.len() == 0,
            s@.show_all == false,
            s@.status.len() == 0,
    {
        let s = AppState {
            selected_command: 0,
            selected_row: 0,
            containers: Vec::new(),
            show_all: false,
            status: String::new(),
        };
        proof {
            assert(s@.containers =~= Seq::<RecordView>::empty());
        }
        s
    }

    /// The menu position of the highlighted command.
    pub fn selected_command(&self) -> (i: usize)
        ensures
            i as int == self@.selected_command,
    {
        self.selected_command
    }

    /// The index of the highlighted row.
    pub fn selected_row(&self) -> (i: usize)
        ensures
            i as int == self@.selected_row,
    {
        self.selected_row
    }

    /// The cached container list, one record per row.
    pub fn containers(&self) -> (c: &Vec<ContainerRecord>)
        ensures
            c@.map_values(|r: ContainerRecord| r@) == self@.containers,
    {
        &self.containers
    }

    /// Whether the next list refresh includes stopped containers.
    pub fn show_all(&self) -> (b: bool)
        ensures
            b == self@.show_all,
    {
        self.show_all
    }

    /// The outcome message of the last completed action.
    pub fn status(&self) -> (s: &String)
        ensures
            s@ == self@.status,
    {
        &self.status
    }

    /// Whether the highlighted command asks for a list refresh this
    /// iteration.
    pub fn needs_refresh(&self) -> (b: bool)
        requires
            self@.inv(),
        ensures
            b == spec_is_listing(spec_command_of(self@.selected_command)),
    {
        self.selected_command == 0 || self.selected_command == 1
    }

    /// Replace the cached container list with a freshly decoded one. The
    /// previous list is fully discarded; the row highlight is clamped to
    /// the new bounds and sits at zero when the new list is empty.
    pub fn set_containers(&mut self, containers: Vec<ContainerRecord>)
        requires
            old(self)@.inv(),
        ensures
            final(self)@.inv(),
            final(self)@.containers == containers@.map_values(|r: ContainerRecord| r@),
            final(self)@.selected_row == spec_clamp_row(old(self)@.selected_row, containers@.len() as int),
            final(self)@.selected_command == old(self)@.selected_command,
            final(self)@.show_all == old(self)@.show_all,
            final(self)@.status == old(self)@.status,
    {
        if self.selected_row >= containers.len() {
            if containers.len() == 0 {
                self.selected_row = 0;
            } else {
                self.selected_row = containers.len() - 1;
            }
        }
        self.containers = containers;
    }

    /// Dispatch one key event: mutate the state as `spec_dispatch` says and
    /// hand back the external action, if any, that the loop must perform.
    pub fn handle_key(&mut self, key: Key) -> (act: Action)
        requires
            old(self)@.inv(),
        ensures
            final(self)@.inv(),
            final(self)@ == spec_dispatch(old(self)@, key).0,
            act@ == spec_dispatch(old(self)@, key).1,
    {
        let act = match key {
            Key::Quit => Action::Quit,
            Key::Down => {
                let len = self.containers.len();
                if len > 0 && self.selected_row < len - 1 {
                    self.selected_row = self.selected_row + 1;
                }
                Action::Continue
            },
            Key::Up => {
                if self.selected_row > 0 {
                    self.selected_row = self.selected_row - 1;
                }
                Action::Continue
            },
            Key::Right => {
                self.selected_command = (self.selected_command + 1) % COMMAND_COUNT;
                Action::Continue
            },
            Key::Left => {
                if self.selected_command == 0 {
                    self.selected_command = COMMAND_COUNT - 1;
                } else {
                    self.selected_command = self.selected_command - 1;
                }
                Action::Continue
            },
            Key::StopNow => self.stop_selected(),
            Key::Activate => match command_of(self.selected_command) {
                Command::Stop => self.stop_selected(),
                Command::Prune => Action::Prune,
                Command::ListRunning => {
                    self.show_all = false;
                    self.selected_row = 0;
                    Action::Continue
                },
                Command::ListAll => {
                    self.show_all = true;
                    self.selected_row = 0;
                    Action::Continue
                },
            },
            Key::Other => Action::Continue,
        };
        proof {
            assert(self@ =~= spec_dispatch(old(self)@, key).0);
        }
        act
    }

    /// The stop action scoped to the highlighted row, shared by the
    /// immediate-stop shortcut and the activated stop command.
    fn stop_selected(&self) -> (act: Action)
        requires
            self@.inv(),
        ensures
            act@ == spec_stop_selected(self@).1,
    {
        if self.containers.len() > 0 {
            Action::Stop(self.containers[self.selected_row].id.clone())
        } else {
            Action::Continue
        }
    }

    /// Record the outcome of a stop invocation in the status line: the
    /// affirmative message names the stopped container, the failure message
    /// carries the reported error text. Nothing else changes; the loop
    /// simply renders the next frame with the new message.
    pub fn apply_stop_result(&mut self, id: &str, outcome: Result<(), String>)
        requires
            old(self)@.inv(),
        ensures
            final(self)@.inv(),
            outcome is Ok ==> final(self)@.status == spec_stopped_msg(id@),
            outcome is Err ==> final(self)@.status == spec_stop_failed_msg(outcome->Err_0@),
            final(self)@.selected_command == old(self)@.selected_command,
            final(self)@.selected_row == old(self)@.selected_row,
            final(self)@.containers == old(self)@.containers,
            final(self)@.show_all == old(self)@.show_all,
    {
        match outcome {
            Ok(_) => {
                let mut m = String::from_str("Stopped container ");
                m.append(id);
                self.status = m;
            },
            Err(e) => {
                let mut m = String::from_str("Failed to stop container: ");
                m.append(e.as_str());
                self.status = m;
            },
        }
    }

    /// Record the outcome of a prune invocation in the status line, in the
    /// same way as `apply_stop_result`.
    pub fn apply_prune_result(&mut self, outcome: Result<(), String>)
        requires
            old(self)@.inv(),
        ensures
            final(self)@.inv(),
            outcome is Ok ==> final(self)@.status == spec_pruned_msg(),
            outcome is Err ==> final(self)@.status == spec_prune_failed_msg(outcome->Err_0@),
            final(self)@.selected_command == old(self)@.selected_command,
            final(self)@.selected_row == old(self)@.selected_row,
            final(self)@.containers == old(self)@.containers,
            final(self)@.show_all == old(self)@.show_all,
    {
        match outcome {
            Ok(_) => {
                self.status = String::from_str("System pruned");
            },
            Err(e) => {
                let mut m = String::from_str("Failed to prune system: ");
                m.append(e.as_str());
                self.status = m;
            },
        }
    }
}

/// The status line after a successful stop of the given container.
pub open spec fn spec_stopped_msg(id: Seq<char>) -> Seq<char> {
    "Stopped container "@ + id
}

/// The status line after a failed stop, carrying the reported error text.
pub open spec fn spec_stop_failed_msg(err: Seq<char>) -> Seq<char> {
    "Failed to stop container: "@ + err
}

/// The status line after a successful prune.
pub open spec fn spec_pruned_msg() -> Seq<char> {
    "System pruned"@
}

/// The status line after a failed prune, carrying the reported error text.
pub open spec fn spec_prune_failed_msg(err: Seq<char>) -> Seq<char> {
    "Failed to prune system: "@ + err
}

/// The state after a whole sequence of key events, ignoring the external
/// actions they demand.
pub open spec fn spec_dispatch_seq(v: StateView, ks: Seq<Key>) -> StateView
    decreases ks.len(),
{
    if ks.len() == 0 {
        v
    } else {
        spec_dispatch_seq(spec_dispatch(v, ks[0]).0, ks.drop_first())
    }
}

/// Law: dispatching any single key preserves the state invariants.
pub proof fn lemma_dispatch_preserves_inv(v: StateView, k: Key)
    requires
        v.inv(),
    ensures
        spec_dispatch(v, k).0.inv(),
{
}

/// Law: the state invariants hold after any sequence of key events; in
/// particular the command highlight stays a valid menu index and the row
/// highlight stays within the cached list's bounds.
pub proof fn lemma_dispatch_seq_preserves_inv(v: StateView, ks: Seq<Key>)
    requires
        v.inv(),
    ensures
        spec_dispatch_seq(v, ks).inv(),
    decreases ks.len(),
{
    if ks.len() > 0 {
        lemma_dispatch_preserves_inv(v, ks[0]);
        lemma_dispatch_seq_preserves_inv(spec_dispatch(v, ks[0]).0, ks.drop_first());
    }
}

/// Law: cycling the command highlight is a closed rotation over the menu:
/// as many presses of the right key as there are commands return the state
/// to exactly where it started.
pub proof fn lemma_right_cycle_closed(v: StateView)
    requires
        v.inv(),
    ensures
        spec_dispatch_seq(v, seq![Key::Right, Key::Right, Key::Right, Key::Right]) == v,
{
    reveal_with_fuel(spec_dispatch_seq, 5);
    let ks = seq![Key::Right, Key::Right, Key::Right, Key::Right];
    let v1 = spec_dispatch(v, Key::Right).0;
    let v2 = spec_dispatch(v1, Key::Right).0;
    let v3 = spec_dispatch(v2, Key::Right).0;
    let v4 = spec_dispatch(v3, Key::Right).0;
    assert(ks.drop_first() =~= seq![Key::Right, Key::Right, Key::Right]);
    assert(ks.drop_first().drop_first() =~= seq![Key::Right, Key::Right]);
    assert(ks.drop_first().drop_first().drop_first() =~= seq![Key::Right]);
    assert(ks.drop_first().drop_first().drop_first().drop_first() =~= Seq::<Key>::empty());
    assert(spec_dispatch_seq(v, ks) == v4);
    assert(v4 =~= v);
}

/// Law: an up or down key moves the row highlight alone, by at most one,
/// only in its own direction, and never past either boundary.
pub proof fn lemma_row_key_step(v: StateView, k: Key)
    requires
        v.inv(),
        k == Key::Up || k == Key::Down,
    ensures
        ({
            let w = spec_dispatch(v, k).0;
            &&& w.containers == v.containers
            &&& w.selected_command == v.selected_command
            &&& w.show_all == v.show_all
            &&& w.status == v.status
            &&& k == Key::Down ==> v.selected_row <= w.selected_row <= v.selected_row + 1
            &&& k == Key::Up ==> v.selected_row - 1 <= w.selected_row <= v.selected_row
            &&& w.inv()
        }),
{
}

/// Law: under any sequence of up and down keys the row highlight stays
/// within the cached list's bounds, sits inert at zero while the list is
/// empty, and the list itself is untouched.
pub proof fn lemma_row_keys_bounded(v: StateView, ks: Seq<Key>)
    requires
        v.inv(),
        forall|i: int| 0 <= i < ks.len() ==> (ks[i] == Key::Up || ks[i] == Key::Down),
    ensures
        ({
            let w = spec_dispatch_seq(v, ks);
            &&& w.containers == v.containers
            &&& v.containers.len() > 0 ==> 0 <= w.selected_row < v.containers.len()
            &&& v.containers.len() == 0 ==> w.selected_row == 0
        }),
    decreases ks.len(),
{
    if ks.len() > 0 {
        lemma_row_key_step(v, ks[0]);
        lemma_row_keys_bounded(spec_dispatch(v, ks[0]).0, ks.drop_first());
    }
}

/// Law: activating a listing command resets the row highlight to the first
/// row and sets the show-all flag that governs every subsequent refresh:
/// false for the running-only command, true for the all-containers command.
/// The command highlight keeps pointing at a listing command, so a refresh
/// follows on the very next iteration.
pub proof fn lemma_activate_listing_resets(v: StateView)
    requires
        v.inv(),
        spec_is_listing(spec_command_of(v.selected_command)),
    ensures
        ({
            let (w, a) = spec_dispatch(v, Key::Activate);
            &&& w.selected_row == 0
            &&& (w.show_all <==> spec_command_of(v.selected_command) == Command::ListAll)
            &&& w.selected_command == v.selected_command
            &&& a == ActionView::Continue
            &&& spec_is_listing(spec_command_of(w.selected_command))
            &&& w.inv()
        }),
{
}

/// Law: the status messages name their subject: the affirmative stop
/// message ends with the target identifier, and each failure message ends
/// with the reported error text.
pub proof fn lemma_status_names_subject(id: Seq<char>, err: Seq<char>)
    ensures
        spec_stopped_msg(id).len() == 18 + id.len(),
        spec_stopped_msg(id).skip(18) == id,
        spec_stop_failed_msg(err).len() == 26 + err.len(),
        spec_stop_failed_msg(err).skip(26) == err,
        spec_prune_failed_msg(err).len() == 24 + err.len(),
        spec_prune_failed_msg(err).skip(24) == err,
{
    reveal_strlit("Stopped container ");
    reveal_strlit("Failed to stop container: ");
    reveal_strlit("Failed to prune system: ");
    assert(spec_stopped_msg(id).skip(18) =~= id);
    assert(spec_stop_failed_msg(err).skip(26) =~= err);
    assert(spec_prune_failed_msg(err).skip(24) =~= err);
}

/// Law: the immediate-stop shortcut and the activated stop command are the
/// same action: with the stop command highlighted, the activate key and the
/// shortcut agree exactly, on the state and on the demanded action.
pub proof fn lemma_shortcut_and_stop_command_agree(v: StateView)
    requires
        v.inv(),
        spec_command_of(v.selected_command) == Command::Stop,
    ensures
        spec_dispatch(v, Key::StopNow) == spec_dispatch(v, Key::Activate),
{
}

/// The menu label of each command, as handed to the renderer.
pub fn command_label(c: Command) -> (s: &'static str)
    ensures
        c == Command::ListRunning ==> s@ == "ps"@,
        c == Command::ListAll ==> s@ == "ps -a"@,
        c == Command::Stop ==> s@ == "stop"@,
        c == Command::Prune ==> s@ == "prune"@,
{
    match c {
        Command::ListRunning => "ps",
        Command::ListAll => "ps -a",
        Command::Stop => "stop",
        Command::Prune => "prune",
    }
}

/// Where the row highlight lands when the list is replaced by one of the
/// given length: unchanged while still in bounds, clamped to the last row
/// otherwise, inert at zero when no rows exist.
pub open spec fn spec_clamp_row(row: int, len: int) -> int {
    if len == 0 {
        0
    } else if row < len {
        row
    } else {
        len - 1
    }
}

/// Stopping the highlighted container: the state is untouched and the
/// identifier of the highlighted row is handed out for the external stop
/// action; with no rows cached there is nothing to stop.
pub open spec fn spec_stop_selected(v: StateView) -> (StateView, ActionView) {
    if v.containers.len() > 0 {
        (v, ActionView::Stop(v.containers[v.selected_row].id))
    } else {
        (v, ActionView::Continue)
    }
}

/// The control-loop transition: what one key event does to the state, and
/// which external action, if any, it demands.
pub open spec fn spec_dispatch(v: StateView, k: Key) -> (StateView, ActionView)
    recommends
        v.inv(),
{
    match k {
        Key::Quit => (v, ActionView::Quit),
        Key::Down => (
            StateView {
                selected_row: if v.selected_row + 1 < v.containers.len() {
                    v.selected_row + 1
                } else {
                    v.selected_row
                },
                ..v
            },
            ActionView::Continue,
        ),
        Key::Up => (
            StateView {
                selected_row: if v.selected_row > 0 {
                    v.selected_row - 1
                } else {
                    0
                },
                ..v
            },
            ActionView::Continue,
        ),
        Key::Right => (
            StateView { selected_command: (v.selected_command + 1) % (COMMAND_COUNT as int), ..v },
            ActionView::Continue,
        ),
        Key::Left => (
            StateView {
                selected_command: if v.selected_command == 0 {
                    COMMAND_COUNT as int - 1
                } else {
                    v.selected_command - 1
                },
                ..v
            },
            ActionView::Continue,
        ),
        Key::StopNow => spec_stop_selected(v),
        Key::Activate => match spec_command_of(v.selected_command) {
            Command::Stop => spec_stop_selected(v),
            Command::Prune => (v, ActionView::Prune),
            Command::ListRunning => (
                StateView { show_all: false, selected_row: 0, ..v },
                ActionView::Continue,
            ),
            Command::ListAll => (
                StateView { show_all: true, selected_row: 0, ..v },
                ActionView::Continue,
            ),
        },
        Key::Other => (v, ActionView::Continue),
    }
}

} // verus!
