//! The shell around the experiments: the screens, the shared requests and the
//! perf run's snapshots.

use vstd::prelude::*;
use vstd::string::StringExecFns;

use crate::text::{append_decimal, decimal_of, label};

verus! {

/// The top-level screen.
#[derive(Clone, Copy, Debug, PartialEq, Eq, Hash, Structural)]
pub enum AppState {
    Menu,
    Playing,
    Options,
}

impl Default for AppState {
    /// The program opens on the menu.
    fn default() -> (state: AppState)
        ensures
            state == AppState::Menu,
    {
        AppState::Menu
    }
}

impl AppState {
    /// The simulation steps while playing and behind the menu, as its live
    /// backdrop; the options screen pauses it.
    pub open spec fn runs(self) -> bool {
        self == AppState::Menu || self == AppState::Playing
    }

    /// Whether the simulation steps in this state.
    pub fn sim_runs(self) -> (b: bool)
        ensures
            b == self.runs(),
            b == (self != AppState::Options),
    {
        matches!(self, AppState::Menu | AppState::Playing)
    }
}

/// The experiments that the program can show.
#[derive(Clone, Copy, Debug, PartialEq, Eq, Hash, Structural)]
pub enum ExperimentId {
    Flock,
    Fish,
    Flow,
    Forest,
}

/// How the window presents its frames.
#[derive(Clone, Copy, Debug, PartialEq, Eq, Structural)]
pub enum Presentation {
    AutoVsync,
    AutoNoVsync,
}

/// What to set the window's presentation to: nothing while the setting has not
/// changed.
pub fn apply_vsync(changed: bool, vsync: bool) -> (mode: Option<Presentation>)
    ensures
        mode == (if !changed {
            None::<Presentation>
        } else if vsync {
            Some(Presentation::AutoVsync)
        } else {
            Some(Presentation::AutoNoVsync)
        }),
{
    if !changed {
        None
    } else if vsync {
        Some(Presentation::AutoVsync)
    } else {
        Some(Presentation::AutoNoVsync)
    }
}

/// Whether an experiment's picture and state are dropped: another one has just
/// become the current one.
pub fn clear_when_inactive(changed: bool, current: ExperimentId, own: ExperimentId) -> (clear: bool)
    ensures
        clear == (changed && current != own),
{
    changed && current != own
}

/// Whether an experiment's panel is shown: only while it is being played.
pub fn panel_shown(state: AppState, current: ExperimentId, own: ExperimentId) -> (shown: bool)
    ensures
        shown == (state == AppState::Playing && current == own),
{
    state == AppState::Playing && current == own
}

/// The name of the button that folds a panel.
pub fn panel_toggle_label(open: bool) -> (name: &'static str)
    ensures
        name@ == (if open {
            "Hide"@
        } else {
            "Show"@
        }),
{
    if open {
        "Hide"
    } else {
        "Show"
    }
}

/// The score of the flock: the card's count where it simulates, else the
/// processor's.
pub fn flock_score(gpu: Option<u64>, flock: u64) -> (text: String)
    ensures
        text@ == "Boids: "@ + decimal_of(
            (match gpu {
                Some(n) => n,
                None => flock,
            }) as int,
        ),
{
    match gpu {
        Some(n) => label("Boids: ", n),
        None => label("Boids: ", flock),
    }
}

/// The score of the fish: what they have eaten.
pub fn fish_score(eaten: u32) -> (text: String)
    ensures
        text@ == "Score: "@ + decimal_of(eaten as int),
{
    label("Score: ", eaten as u64)
}

/// The score of the flow field: its cells.
pub fn flow_score(cols: u32, rows: u32) -> (text: String)
    ensures
        text@ == "Cells: "@ + decimal_of(cols * rows),
{
    assert(cols * rows <= u32::MAX * u32::MAX) by (nonlinear_arith)
        requires
            cols <= u32::MAX,
            rows <= u32::MAX,
    ;
    label("Cells: ", cols as u64 * rows as u64)
}

/// The score of the forest: its trees and their segments.
pub fn forest_score(trees: u64, segments: u64) -> (text: String)
    ensures
        text@ == "Trees: "@ + decimal_of(trees as int) + "   "@ + decimal_of(segments as int)
            + " segments"@,
{
    let mut text: String = label("Trees: ", trees);
    text.append("   ");
    append_decimal(&mut text, segments);
    text.append(" segments");
    text
}

/// One second, in the nanoseconds that times are counted in.
pub const SECOND: u64 = 1_000_000_000;

/// When the first snapshot may be taken: before that, the flock is still
/// dispersing.
pub const FIRST_SNAPSHOT: u64 = 4_000_000_000;

/// The least time between two snapshots.
pub const SNAPSHOT_INTERVAL: u64 = 5_000_000_000;

/// The files that snapshots cycle through.
pub const SNAPSHOT_SLOTS: u32 = 3;

/// When a headless run takes its next snapshot, and how many it has taken.
#[derive(Clone, Copy, Debug, PartialEq, Eq, Structural)]
pub struct SnapshotClock {
    /// The time of the next snapshot; none before the first frame.
    pub next: Option<u64>,
    pub index: u32,
}

/// The file of a snapshot slot.
pub open spec fn snapshot_path_of(slot: int) -> Seq<char> {
    if slot == 0 {
        "/tmp/boids_headless_0.png"@
    } else if slot == 1 {
        "/tmp/boids_headless_1.png"@
    } else {
        "/tmp/boids_headless_2.png"@
    }
}

/// The file of a snapshot slot.
pub fn snapshot_path(slot: u32) -> (path: &'static str)
    requires
        slot < SNAPSHOT_SLOTS,
    ensures
        path@ == snapshot_path_of(slot as int),
{
    if slot == 0 {
        "/tmp/boids_headless_0.png"
    } else if slot == 1 {
        "/tmp/boids_headless_1.png"
    } else {
        "/tmp/boids_headless_2.png"
    }
}

impl Default for SnapshotClock {
    fn default() -> (clock: SnapshotClock)
        ensures
            clock == (SnapshotClock { next: None, index: 0 }),
    {
        SnapshotClock { next: None, index: 0 }
    }
}

impl SnapshotClock {
    /// The clock after a frame at `elapsed`.
    pub open spec fn after(self, elapsed: u64) -> SnapshotClock {
        match self.next {
            None => SnapshotClock { next: Some(FIRST_SNAPSHOT), index: self.index },
            Some(next) => if elapsed < next {
                self
            } else {
                SnapshotClock {
                    next: Some((elapsed + SNAPSHOT_INTERVAL) as u64),
                    index: (self.index + 1) as u32,
                }
            },
        }
    }

    /// Whether a frame at `elapsed` takes a snapshot.
    pub open spec fn due(self, elapsed: u64) -> bool {
        match self.next {
            None => false,
            Some(next) => elapsed >= next,
        }
    }

    /// One frame at `elapsed`: the slot to save a snapshot to, where one is due.
    pub fn tick(&mut self, elapsed: u64) -> (slot: Option<u32>)
        requires
            old(self).due(elapsed) ==> elapsed + SNAPSHOT_INTERVAL <= u64::MAX,
            old(self).due(elapsed) ==> old(self).index < u32::MAX,
        ensures
            *final(self) == old(self).after(elapsed),
            slot == (if old(self).due(elapsed) {
                Some(old(self).index % SNAPSHOT_SLOTS)
            } else {
                None
            }),
    {
        match self.next {
            None => {
                self.next = Some(FIRST_SNAPSHOT);
                None
            },
            Some(next) => {
                if elapsed < next {
                    return None;
                }
                self.next = Some(elapsed + SNAPSHOT_INTERVAL);
                let slot: u32 = self.index % SNAPSHOT_SLOTS;
                self.index = self.index + 1;
                Some(slot)
            },
        }
    }
}

/// After a snapshot, none is due before the interval has passed.
pub proof fn law_snapshots_are_spaced(clock: SnapshotClock, taken: u64, later: u64)
    requires
        clock.due(taken),
        taken + SNAPSHOT_INTERVAL <= u64::MAX,
    ensures
        clock.after(taken).due(later) <==> later >= taken + SNAPSHOT_INTERVAL,
{
}

/// A fresh clock takes its first snapshot no earlier than the second frame and
/// the first seconds.
pub proof fn law_first_snapshot_waits(first: u64, later: u64)
    ensures
        !(SnapshotClock { next: None, index: 0 }).due(first),
        (SnapshotClock { next: None, index: 0 }).after(first).due(later) <==> later
            >= FIRST_SNAPSHOT,
{
}

/// Whether a run with these arguments simulates the flock on the processor.
pub fn cpu_sim_selected(args: &Vec<String>) -> (cpu: bool)
    ensures
        cpu == exists|i: int|
            0 <= i < args.len() && ((#[trigger] args[i])@ == "cpu"@ || args[i]@ == "nosim"@),
{
    let mut i: usize = 0;
    while i < args.len()
        invariant
            i <= args.len(),
            forall|j: int| 0 <= j < i ==> (#[trigger] args[j])@ != "cpu"@ && args[j]@ != "nosim"@,
        decreases args.len() - i,
    {
        if is_text(&args[i], "cpu") || is_text(&args[i], "nosim") {
            assert(args[i as int]@ == "cpu"@ || args[i as int]@ == "nosim"@);
            return true;
        }
        i += 1;
    }
    false
}

/// Whether a run with these arguments draws the flock without steering it.
pub fn steering_skipped(args: &Vec<String>) -> (skip: bool)
    ensures
        skip == exists|i: int| 0 <= i < args.len() && (#[trigger] args[i])@ == "nosim"@,
{
    has_flag(args, "nosim")
}

/// Whether `text` is the characters of `word`.
pub fn is_text(text: &String, word: &str) -> (same: bool)
    ensures
        same == (text@ == word@),
{
    *text == word.to_owned()
}

/// Whether one of the arguments is `word`.
pub fn has_flag(args: &Vec<String>, word: &str) -> (found: bool)
    ensures
        found == exists|i: int| 0 <= i < args.len() && (#[trigger] args[i])@ == word@,
{
    let mut i: usize = 0;
    while i < args.len()
        invariant
            i <= args.len(),
            forall|j: int| 0 <= j < i ==> (#[trigger] args[j])@ != word@,
        decreases args.len() - i,
    {
        if is_text(&args[i], word) {
            return true;
        }
        i += 1;
    }
    false
}

} // verus!
