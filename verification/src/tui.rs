//! The presentation bridge: the typed events a background orchestration
//! task publishes, and the foreground state they are folded into. Events
//! carry the generation of the run that produced them; a stale event —
//! one from a superseded run after a restart — changes nothing.

use vstd::prelude::*;
use vstd::string::StringExecFns;
use crate::engine::ServerStatus;

verus! {

/// One event on the channel from the orchestration task to the renderer.
#[derive(Debug)]
pub enum TuiMessage {
    ServerStatusUpdate(String, ServerStatus),
    ServerOutput(String, String),
    CommandOutput(String),
    ServersReady,
    Error(String),
}

/// The views of a server's captured lines.
pub open spec fn lines_view(v: Seq<String>) -> Seq<Seq<char>> {
    v.map_values(|s: String| s@)
}

/// `m` holds `key` at some position.
pub open spec fn has_key<T>(m: Seq<(String, T)>, key: Seq<char>) -> bool {
    exists|j: int| 0 <= j < m.len() && (#[trigger] m[j]).0@ == key
}

/// `j` is the first position of `key` in `m`.
pub open spec fn key_at<T>(m: Seq<(String, T)>, key: Seq<char>, j: int) -> bool {
    &&& 0 <= j < m.len()
    &&& m[j].0@ == key
    &&& forall|j2: int| 0 <= j2 < j ==> (#[trigger] m[j2]).0@ != key
}

/// What the foreground knows, folded from events: per-server statuses and
/// captured output lines, both keyed by server name in first-seen order,
/// and the final command's output.
pub struct UiState {
    /// The run generation whose events are current.
    pub generation: u64,
    pub statuses: Vec<(String, ServerStatus)>,
    pub outputs: Vec<(String, Vec<String>)>,
    pub command_output: Vec<String>,
    pub servers_started: bool,
}

/// Where a window of the last `max` of `len` lines starts.
pub open spec fn tail_start_spec(len: nat, max: nat) -> nat {
    if len > max {
        (len - max) as nat
    } else {
        0
    }
}

/// The index a renderer starts at to show only the last `max` lines.
pub fn tail_start(len: usize, max: usize) -> (r: usize)
    ensures
        r as nat == tail_start_spec(len as nat, max as nat),
{
    if len > max {
        len - max
    } else {
        0
    }
}

fn find_key_status(m: &Vec<(String, ServerStatus)>, key: &String) -> (r: Option<usize>)
    ensures
        match r {
            Some(j) => key_at(m@, key@, j as int),
            None => !has_key(m@, key@),
        },
{
    let n = m.len();
    let mut j: usize = 0;
    while j < n
        invariant
            j <= n,
            n == m@.len(),
            forall|j2: int| 0 <= j2 < j ==> (#[trigger] m@[j2]).0@ != key@,
        decreases n - j,
    {
        if m[j].0 == *key {
            return Some(j);
        }
        j += 1;
    }
    None
}

fn find_key_lines(m: &Vec<(String, Vec<String>)>, key: &String) -> (r: Option<usize>)
    ensures
        match r {
            Some(j) => key_at(m@, key@, j as int),
            None => !has_key(m@, key@),
        },
{
    let n = m.len();
    let mut j: usize = 0;
    while j < n
        invariant
            j <= n,
            n == m@.len(),
            forall|j2: int| 0 <= j2 < j ==> (#[trigger] m@[j2]).0@ != key@,
        decreases n - j,
    {
        if m[j].0 == *key {
            return Some(j);
        }
        j += 1;
    }
    None
}

impl UiState {
    /// A fresh foreground state: generation zero, nothing known.
    pub fn new() -> (r: UiState)
        ensures
            r.generation == 0,
            r.statuses@ == Seq::<(String, ServerStatus)>::empty(),
            r.outputs@ == Seq::<(String, Vec<String>)>::empty(),
            r.command_output@ == Seq::<String>::empty(),
            !r.servers_started,
    {
        UiState {
            generation: 0,
            statuses: Vec::new(),
            outputs: Vec::new(),
            command_output: Vec::new(),
            servers_started: false,
        }
    }

    /// Folds one event into the state. An event of another generation —
    /// from a superseded run — changes nothing. A status update upserts
    /// the server's status; an output line is appended under its server;
    /// a fatal error is appended to the command panel with its marker;
    /// command output and the ready signal change no state here.
    pub fn apply(&mut self, generation: u64, message: TuiMessage)
        ensures
            generation != old(self).generation ==> *final(self) == *old(self),
            final(self).generation == old(self).generation,
            final(self).servers_started == old(self).servers_started,
            generation == old(self).generation ==> match message {
                TuiMessage::ServerStatusUpdate(name, st) => {
                    &&& final(self).outputs@ == old(self).outputs@
                    &&& final(self).command_output@ == old(self).command_output@
                    &&& if has_key(old(self).statuses@, name@) {
                        exists|j: int|
                            {
                                &&& key_at(old(self).statuses@, name@, j)
                                &&& final(self).statuses@.len() == old(self).statuses@.len()
                                &&& (forall|j2: int|
                                    0 <= j2 < old(self).statuses@.len() && j2 != j ==> final(self).statuses@[j2] == old(self).statuses@[j2])
                                &&& (#[trigger] final(self).statuses@[j]).0@ == old(
                                    self,
                                ).statuses@[j].0@
                                &&& final(self).statuses@[j].1 == st
                            }
                    } else {
                        final(self).statuses@ == old(self).statuses@.push((name, st))
                    }
                },
                TuiMessage::ServerOutput(name, line) => {
                    &&& final(self).statuses@ == old(self).statuses@
                    &&& final(self).command_output@ == old(self).command_output@
                    &&& if has_key(old(self).outputs@, name@) {
                        exists|j: int|
                            {
                                &&& key_at(old(self).outputs@, name@, j)
                                &&& final(self).outputs@.len() == old(self).outputs@.len()
                                &&& (forall|j2: int|
                                    0 <= j2 < old(self).outputs@.len() && j2 != j ==> final(self).outputs@[j2] == old(self).outputs@[j2])
                                &&& (#[trigger] final(self).outputs@[j]).0@ == old(
                                    self,
                                ).outputs@[j].0@
                                &&& lines_view(final(self).outputs@[j].1@) == lines_view(
                                    old(self).outputs@[j].1@,
                                ).push(line@)
                            }
                    } else {
                        &&& final(self).outputs@.len() == old(self).outputs@.len() + 1
                        &&& (forall|j2: int|
                            0 <= j2 < old(self).outputs@.len() ==> final(self).outputs@[j2] == old(
                                self,
                            ).outputs@[j2])
                        &&& final(self).outputs@.last().0 == name
                        &&& lines_view(final(self).outputs@.last().1@) == seq![line@]
                    }
                },
                TuiMessage::CommandOutput(_) => *final(self) == *old(self),
                TuiMessage::ServersReady => *final(self) == *old(self),
                TuiMessage::Error(err) => {
                    &&& final(self).statuses@ == old(self).statuses@
                    &&& final(self).outputs@ == old(self).outputs@
                    &&& final(self).command_output@.len() == old(self).command_output@.len() + 1
                    &&& (forall|j: int|
                        0 <= j < old(self).command_output@.len() ==> final(self).command_output@[j] == old(self).command_output@[j])
                    &&& final(self).command_output@.last()@ == "ERROR: "@ + err@
                },
            },
    {
        if generation != self.generation {
            return ;
        }
        match message {
            TuiMessage::ServerStatusUpdate(name, st) => {
                match find_key_status(&self.statuses, &name) {
                    Some(j) => {
                        let key = self.statuses[j].0.clone();
                        self.statuses.set(j, (key, st));
                        proof {
                            assert(final(self).statuses@[j as int].0@ == old(
                                self,
                            ).statuses@[j as int].0@);
                        }
                    },
                    None => {
                        self.statuses.push((name, st));
                    },
                }
            },
            TuiMessage::ServerOutput(name, line) => {
                match find_key_lines(&self.outputs, &name) {
                    Some(j) => {
                        let src_len = self.outputs[j].1.len();
                        let mut entry: Vec<String> = Vec::new();
                        let mut m: usize = 0;
                        while m < src_len
                            invariant
                                m <= src_len,
                                j < self.outputs@.len(),
                                src_len == self.outputs@[j as int].1@.len(),
                                entry@.len() == m,
                                forall|i: int|
                                    0 <= i < m ==> (#[trigger] entry@[i])@
                                        == self.outputs@[j as int].1@[i]@,
                            decreases src_len - m,
                        {
                            entry.push(self.outputs[j].1[m].clone());
                            m += 1;
                        }
                        entry.push(line);
                        let key = self.outputs[j].0.clone();
                        self.outputs.set(j, (key, entry));
                        proof {
                            assert(lines_view(final(self).outputs@[j as int].1@) =~= lines_view(
                                old(self).outputs@[j as int].1@,
                            ).push(
                                final(self).outputs@[j as int].1@[final(self).outputs@[j as int].1@.len() - 1]@,
                            ));
                        }
                    },
                    None => {
                        let mut lines: Vec<String> = Vec::new();
                        lines.push(line);
                        proof {
                            assert(lines_view(lines@) =~= seq![lines@[0]@]);
                        }
                        self.outputs.push((name, lines));
                    },
                }
            },
            TuiMessage::CommandOutput(_) => {},
            TuiMessage::ServersReady => {},
            TuiMessage::Error(err) => {
                let mut m = String::new();
                m.append("ERROR: ");
                m.append(err.as_str());
                proof {
                    assert(m@ =~= "ERROR: "@ + err@);
                }
                self.command_output.push(m);
            },
        }
    }

    /// Marks the run started: the command panel switches from the hint to
    /// the output view.
    pub fn mark_started(&mut self)
        ensures
            final(self).servers_started,
            final(self).generation == old(self).generation,
            final(self).statuses@ == old(self).statuses@,
            final(self).outputs@ == old(self).outputs@,
            final(self).command_output@ == old(self).command_output@,
    {
        self.servers_started = true;
    }

    /// Begins a new run: clears everything folded so far and moves to the
    /// next generation, so that events of the superseded run are ignored.
    pub fn restart(&mut self)
        ensures
            final(self).generation == (if old(self).generation < u64::MAX {
                old(self).generation + 1
            } else {
                0
            }),
            final(self).statuses@ == Seq::<(String, ServerStatus)>::empty(),
            final(self).outputs@ == Seq::<(String, Vec<String>)>::empty(),
            final(self).command_output@ == Seq::<String>::empty(),
            !final(self).servers_started,
    {
        if self.generation < u64::MAX {
            self.generation = self.generation + 1;
        } else {
            self.generation = 0;
        }
        self.statuses.clear();
        self.outputs.clear();
        self.command_output.clear();
        self.servers_started = false;
    }
}

} // verus!
