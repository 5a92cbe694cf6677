//! The traversal state machine.
//!
//! The walker visits a tree depth first and renames every entry whose
//! name contains control characters, directories only after all their
//! children. It performs no filesystem operation itself: it keeps an
//! explicit stack of pending tasks and, fed one event at a time by a
//! driver, answers with the next command the driver should carry out.
//! Every decision the walk makes is taken here and verified; the driver
//! only stats, lists, renames and prints as told.

use vstd::prelude::*;
use crate::fs_path::FsPath;
use crate::sanitize::clean_filename;
use crate::sanitize::clean_seq;
use crate::sanitize::control_free;
use crate::sanitize::lemma_clean_control_free;

verus! {

/// Why a walk was aborted.
#[derive(Clone, Copy, PartialEq, Eq, Structural, Debug)]
pub enum WalkError {
    /// The visited path does not exist.
    NotFound,
    /// The visited path is read-only, so it cannot be modified.
    Permission,
    /// A path has no usable final name component, or sanitizing would
    /// leave the name empty.
    InvalidName,
    /// A filesystem operation of the driver failed.
    Io,
}

/// A pending task on the walker's stack.
pub enum Task {
    /// The entry's metadata must still be checked before it is
    /// processed.
    Visit(FsPath),
    /// The entry is a directory whose children must still be listed.
    List(FsPath),
    /// The entry is a directory whose children are done; its own
    /// rename step is still pending.
    Finish(FsPath),
}

/// The view of a pending task, over path views.
pub enum SpecTask {
    Visit(Seq<Seq<char>>),
    List(Seq<Seq<char>>),
    Finish(Seq<Seq<char>>),
}

impl View for Task {
    type V = SpecTask;

    open spec fn view(&self) -> SpecTask {
        match self {
            Task::Visit(p) => SpecTask::Visit(p@),
            Task::List(p) => SpecTask::List(p@),
            Task::Finish(p) => SpecTask::Finish(p@),
        }
    }
}

/// What the driver should do next.
pub enum Command {
    /// Report whether the path exists, is read-only, and is a
    /// directory, with a `Stat` event.
    Stat(FsPath),
    /// List the directory's immediate children, with a `Children`
    /// event.
    List(FsPath),
    /// Rename `from` to `to` on the filesystem, print the live report
    /// line on success, and answer with a `Proceed` event.
    Rename { from: FsPath, to: FsPath },
    /// Print the dry-run report line for this rename, touch nothing,
    /// and answer with a `Proceed` event.
    Report { from: FsPath, to: FsPath },
    /// The walk is complete.
    Done,
}

/// The view of a command, over path views.
pub enum SpecCommand {
    Stat(Seq<Seq<char>>),
    List(Seq<Seq<char>>),
    Rename { from: Seq<Seq<char>>, to: Seq<Seq<char>> },
    Report { from: Seq<Seq<char>>, to: Seq<Seq<char>> },
    Done,
}

impl View for Command {
    type V = SpecCommand;

    open spec fn view(&self) -> SpecCommand {
        match self {
            Command::Stat(p) => SpecCommand::Stat(p@),
            Command::List(p) => SpecCommand::List(p@),
            Command::Rename { from, to } => SpecCommand::Rename { from: from@, to: to@ },
            Command::Report { from, to } => SpecCommand::Report { from: from@, to: to@ },
            Command::Done => SpecCommand::Done,
        }
    }
}

/// The driver's answer to the previous command.
pub enum Event {
    /// Start the walk, or confirm a completed rename or printed report.
    Proceed,
    /// The metadata of the path the walker asked to stat.
    Stat { exists: bool, readonly: bool, is_dir: bool },
    /// The names of the immediate children of the listed directory.
    Children(Vec<String>),
}

/// The view of an event, over name views.
pub enum SpecEvent {
    Proceed,
    Stat { exists: bool, readonly: bool, is_dir: bool },
    Children(Seq<Seq<char>>),
}

impl View for Event {
    type V = SpecEvent;

    open spec fn view(&self) -> SpecEvent {
        match self {
            Event::Proceed => SpecEvent::Proceed,
            Event::Stat { exists, readonly, is_dir } => (SpecEvent::Stat {
                exists: *exists,
                readonly: *readonly,
                is_dir: *is_dir,
            }),
            Event::Children(names) => SpecEvent::Children(
                names@.map_values(|s: String| s@),
            ),
        }
    }
}

/// The rename step on the entry at `p`: no command when the name is
/// already clean, a rename (or, in a dry run, a report) to the sibling
/// path with the sanitized name otherwise. A path without a final name
/// component, or a name that sanitizing would leave empty, is refused.
pub open spec fn spec_rename_step(p: Seq<Seq<char>>, dry_run: bool) -> Result<
    Option<SpecCommand>,
    WalkError,
> {
    if p.len() == 0 {
        Err(WalkError::InvalidName)
    } else {
        let cleaned = clean_seq(p.last());
        if cleaned == p.last() {
            Ok(None)
        } else if cleaned.len() == 0 {
            Err(WalkError::InvalidName)
        } else if dry_run {
            Ok(Some(SpecCommand::Report { from: p, to: p.update(p.len() - 1, cleaned) }))
        } else {
            Ok(Some(SpecCommand::Rename { from: p, to: p.update(p.len() - 1, cleaned) }))
        }
    }
}

/// Pops completed tasks until the machine owes the driver a command:
/// a stat for the next visit, the rename step of a finished directory,
/// or completion of the whole walk.
pub open spec fn spec_advance(stack: Seq<SpecTask>, dry_run: bool) -> (Seq<SpecTask>, Result<
    SpecCommand,
    WalkError,
>)
    decreases stack.len(),
{
    if stack.len() == 0 {
        (stack, Ok(SpecCommand::Done))
    } else {
        match stack.last() {
            SpecTask::Visit(p) => (stack, Ok(SpecCommand::Stat(p))),
            SpecTask::List(p) => (stack, Ok(SpecCommand::List(p))),
            SpecTask::Finish(p) => match spec_rename_step(p, dry_run) {
                Err(e) => (stack.drop_last(), Err(e)),
                Ok(Some(c)) => (stack.drop_last(), Ok(c)),
                Ok(None) => spec_advance(stack.drop_last(), dry_run),
            },
        }
    }
}

/// One visit task per child of `p`, the first-listed child on top.
pub open spec fn child_visits(p: Seq<Seq<char>>, names: Seq<Seq<char>>) -> Seq<SpecTask> {
    Seq::new(names.len(), |i: int| SpecTask::Visit(p.push(names[names.len() - 1 - i])))
}

/// The machine's whole transition: what one event does to the stack
/// and which command (or error) comes back.
pub open spec fn spec_step(stack: Seq<SpecTask>, dry_run: bool, ev: SpecEvent) -> (Seq<
    SpecTask,
>, Result<SpecCommand, WalkError>) {
    match ev {
        SpecEvent::Proceed => spec_advance(stack, dry_run),
        SpecEvent::Stat { exists, readonly, is_dir } => match stack.last() {
            SpecTask::Visit(p) => {
                if !exists {
                    (stack.drop_last(), Err(WalkError::NotFound))
                } else if readonly {
                    (stack.drop_last(), Err(WalkError::Permission))
                } else if is_dir {
                    (stack.drop_last().push(SpecTask::List(p)), Ok(SpecCommand::List(p)))
                } else {
                    match spec_rename_step(p, dry_run) {
                        Err(e) => (stack.drop_last(), Err(e)),
                        Ok(Some(c)) => (stack.drop_last(), Ok(c)),
                        Ok(None) => spec_advance(stack.drop_last(), dry_run),
                    }
                }
            },
            _ => (stack, Ok(SpecCommand::Done)),
        },
        SpecEvent::Children(names) => match stack.last() {
            SpecTask::List(p) => spec_advance(
                stack.drop_last().push(SpecTask::Finish(p)) + child_visits(p, names),
                dry_run,
            ),
            _ => (stack, Ok(SpecCommand::Done)),
        },
    }
}

/// The walker: the pending-task stack and the chosen mode.
pub struct Walker {
    pub stack: Vec<Task>,
    pub dry_run: bool,
}

impl Walker {
    /// The view of the pending-task stack.
    pub open spec fn stack_view(&self) -> Seq<SpecTask> {
        self.stack@.map_values(|t: Task| t@)
    }

    /// Which events the machine accepts in its current state: a stat
    /// answer only while a visit is on top, a children answer only
    /// while a listing is on top, and a plain proceed otherwise.
    pub open spec fn accepts(&self, ev: SpecEvent) -> bool {
        match ev {
            SpecEvent::Proceed => self.stack_view().len() == 0 || !(self.stack_view().last()
                is List),
            SpecEvent::Stat { .. } => self.stack_view().len() > 0 && self.stack_view().last()
                is Visit,
            SpecEvent::Children(_) => self.stack_view().len() > 0 && self.stack_view().last()
                is List,
        }
    }

    /// Starts a walk rooted at `root`.
    pub fn new(root: FsPath, dry_run: bool) -> (w: Walker)
        ensures
            w.dry_run == dry_run,
            w.stack_view() =~= seq![SpecTask::Visit(root@)],
    {
        let mut stack: Vec<Task> = Vec::new();
        stack.push(Task::Visit(root));
        Walker { stack, dry_run }
    }

    /// The rename step on the entry at `p`, as `spec_rename_step` says.
    fn do_rename_step(p: FsPath, dry_run: bool) -> (r: Result<Option<Command>, WalkError>)
        ensures
            match r {
                Ok(Some(c)) => spec_rename_step(p@, dry_run) == Ok::<Option<SpecCommand>,
                    WalkError,
                >(Some(c@)),
                Ok(None) => spec_rename_step(p@, dry_run) == Ok::<Option<SpecCommand>,
                    WalkError,
                >(None),
                Err(e) => spec_rename_step(p@, dry_run) == Err::<Option<SpecCommand>,
                    WalkError,
                >(e),
            },
    {
        let cleaned: String;
        match p.file_name() {
            None => {
                return Err(WalkError::InvalidName);
            },
            Some(name) => {
                cleaned = clean_filename(name.as_str());
            },
        }
        if p.components[p.components.len() - 1].eq(&cleaned) {
            return Ok(None);
        }
        if cleaned.as_str().is_empty() {
            return Err(WalkError::InvalidName);
        }
        let to = p.with_last(cleaned);
        if dry_run {
            Ok(Some(Command::Report { from: p, to }))
        } else {
            Ok(Some(Command::Rename { from: p, to }))
        }
    }

    /// Pops completed tasks until a command is owed, as `spec_advance`
    /// says.
    fn advance(&mut self) -> (r: Result<Command, WalkError>)
        ensures
            final(self).dry_run == old(self).dry_run,
            final(self).stack_view() == spec_advance(
                old(self).stack_view(),
                old(self).dry_run,
            ).0,
            (match r {
                Ok(c) => spec_advance(old(self).stack_view(), old(self).dry_run).1 == Ok::<
                    SpecCommand,
                    WalkError,
                >(c@),
                Err(e) => spec_advance(old(self).stack_view(), old(self).dry_run).1 == Err::<
                    SpecCommand,
                    WalkError,
                >(e),
            }),
    {
        loop
            invariant
                self.dry_run == old(self).dry_run,
                spec_advance(self.stack_view(), self.dry_run) == spec_advance(
                    old(self).stack_view(),
                    old(self).dry_run,
                ),
            decreases self.stack.len(),
        {
            let ghost pre = self.stack_view();
            match self.stack.pop() {
                None => {
                    return Ok(Command::Done);
                },
                Some(t) => {
                    proof {
                        assert(pre.last() == t@);
                        assert(self.stack_view() =~= pre.drop_last());
                    }
                    match t {
                        Task::Visit(p) => {
                            let c = Command::Stat(p.duplicated());
                            self.stack.push(Task::Visit(p));
                            proof {
                                assert(self.stack_view() =~= pre);
                            }
                            return Ok(c);
                        },
                        Task::List(p) => {
                            let c = Command::List(p.duplicated());
                            self.stack.push(Task::List(p));
                            proof {
                                assert(self.stack_view() =~= pre);
                            }
                            return Ok(c);
                        },
                        Task::Finish(p) => match Self::do_rename_step(p, self.dry_run) {
                            Err(e) => {
                                return Err(e);
                            },
                            Ok(Some(c)) => {
                                return Ok(c);
                            },
                            Ok(None) => {
                            },
                        },
                    }
                },
            }
        }
    }

    /// Feeds the machine one event and returns the next command, as
    /// `spec_step` says. The walk is complete when `Done` comes back;
    /// an error aborts it.
    pub fn step(&mut self, ev: Event) -> (r: Result<Command, WalkError>)
        requires
            old(self).accepts(ev@),
        ensures
            final(self).dry_run == old(self).dry_run,
            final(self).stack_view() == spec_step(
                old(self).stack_view(),
                old(self).dry_run,
                ev@,
            ).0,
            (match r {
                Ok(c) => spec_step(old(self).stack_view(), old(self).dry_run, ev@).1 == Ok::<
                    SpecCommand,
                    WalkError,
                >(c@),
                Err(e) => spec_step(old(self).stack_view(), old(self).dry_run, ev@).1 == Err::<
                    SpecCommand,
                    WalkError,
                >(e),
            }),
    {
        let ghost pre = self.stack_view();
        match ev {
            Event::Proceed => self.advance(),
            Event::Stat { exists, readonly, is_dir } => {
                proof {
                    assert(pre.last() == self.stack@.last()@);
                }
                let t = self.stack.pop().unwrap();
                proof {
                    assert(t@ == pre.last());
                    assert(self.stack_view() =~= pre.drop_last());
                }
                let p = match t {
                    Task::Visit(p) => p,
                    Task::List(p) => p,
                    Task::Finish(p) => p,
                };
                proof {
                    assert(pre.last() == SpecTask::Visit(p@));
                }
                if !exists {
                    Err(WalkError::NotFound)
                } else if readonly {
                    Err(WalkError::Permission)
                } else if is_dir {
                    let c = Command::List(p.duplicated());
                    self.stack.push(Task::List(p));
                    proof {
                        assert(self.stack_view() =~= pre.drop_last().push(
                            SpecTask::List(pre.last()->Visit_0),
                        ));
                    }
                    Ok(c)
                } else {
                    match Self::do_rename_step(p, self.dry_run) {
                        Err(e) => Err(e),
                        Ok(Some(c)) => Ok(c),
                        Ok(None) => self.advance(),
                    }
                }
            },
            Event::Children(names) => {
                proof {
                    assert(pre.last() == self.stack@.last()@);
                }
                let t = self.stack.pop().unwrap();
                proof {
                    assert(t@ == pre.last());
                    assert(self.stack_view() =~= pre.drop_last());
                }
                let p = match t {
                    Task::Visit(p) => p,
                    Task::List(p) => p,
                    Task::Finish(p) => p,
                };
                proof {
                    assert(pre.last() == SpecTask::List(p@));
                }
                let ghost base = pre.drop_last();
                let fin = p.duplicated();
                self.stack.push(Task::Finish(fin));
                proof {
                    assert(self.stack_view() =~= base.push(SpecTask::Finish(p@)));
                }
                let mut names = names;
                let ghost orig = names@;
                let ghost names0 = orig.map_values(|s: String| s@);
                proof {
                    assert(orig.take(orig.len() as int) =~= orig);
                    assert(child_visits(p@, names0).take(0) =~= Seq::<SpecTask>::empty());
                    assert(self.stack_view() =~= base.push(SpecTask::Finish(p@)) + child_visits(
                        p@,
                        names0,
                    ).take(0));
                }
                while names.len() > 0
                    invariant
                        self.dry_run == old(self).dry_run,
                        names@.len() <= orig.len(),
                        names@ == orig.take(names@.len() as int),
                        names0 == orig.map_values(|s: String| s@),
                        self.stack_view() == base.push(SpecTask::Finish(p@)) + child_visits(
                            p@,
                            names0,
                        ).take(orig.len() - names@.len()),
                    decreases names.len(),
                {
                    let ghost k = names@.len() as int;
                    let ghost n = orig.len() as int;
                    let nm = names.pop().unwrap();
                    proof {
                        assert(orig.take(k).last() == orig[k - 1]);
                        assert(nm == orig[k - 1]);
                        assert(names@ =~= orig.take(k - 1));
                        assert(names0.len() == n);
                        assert(nm@ == names0[k - 1]);
                    }
                    let kid = p.child(nm);
                    self.stack.push(Task::Visit(kid));
                    proof {
                        assert(child_visits(p@, names0)[n - k] == SpecTask::Visit(
                            p@.push(names0[n - 1 - (n - k)]),
                        ));
                        assert(kid@ == p@.push(names0[k - 1]));
                        assert(self.stack_view() =~= (base.push(SpecTask::Finish(p@))
                            + child_visits(p@, names0).take(n - k)).push(
                            child_visits(p@, names0)[n - k],
                        ));
                        assert(self.stack_view() =~= base.push(SpecTask::Finish(p@))
                            + child_visits(p@, names0).take(n - k + 1));
                    }
                }
                proof {
                    assert(child_visits(p@, names0).take(orig.len() as int) =~= child_visits(
                        p@,
                        names0,
                    ));
                    assert(self.stack_view() =~= base.push(SpecTask::Finish(p@)) + child_visits(
                        p@,
                        names0,
                    ));
                }
                self.advance()
            },
        }
    }
}

/// Law: popping completed tasks in dry-run mode never yields a rename
/// command.
pub proof fn lemma_advance_dry_never_renames(stack: Seq<SpecTask>)
    ensures
        !(spec_advance(stack, true).1 matches Ok(SpecCommand::Rename { .. })),
    decreases stack.len(),
{
    if stack.len() > 0 {
        lemma_advance_dry_never_renames(stack.drop_last());
    }
}

/// Law: in dry-run mode no event ever makes the machine command a
/// rename, so a driver that only performs commanded operations leaves
/// every filesystem entry unchanged.
pub proof fn lemma_dry_run_never_renames(stack: Seq<SpecTask>, ev: SpecEvent)
    ensures
        !(spec_step(stack, true, ev).1 matches Ok(SpecCommand::Rename { .. })),
{
    lemma_advance_dry_never_renames(stack);
    match ev {
        SpecEvent::Proceed => {
        },
        SpecEvent::Stat { .. } => {
            lemma_advance_dry_never_renames(stack.drop_last());
        },
        SpecEvent::Children(names) => {
            match stack.last() {
                SpecTask::List(p) => {
                    lemma_advance_dry_never_renames(
                        stack.drop_last().push(SpecTask::Finish(p)) + child_visits(p, names),
                    );
                },
                _ => {
                },
            }
        },
    }
}

/// Holds when `to` is `from` with exactly the final name component
/// replaced by its sanitized form, which is non-empty, control-free,
/// and differs from the original name.
pub open spec fn sanitizing_pair(from: Seq<Seq<char>>, to: Seq<Seq<char>>) -> bool {
    &&& from.len() > 0
    &&& to == from.update(from.len() - 1, clean_seq(from.last()))
    &&& control_free(to.last())
    &&& to.last().len() > 0
    &&& to.last() != from.last()
}

/// Holds when the command, if it renames or reports at all, does so as
/// a sanitizing rename of the final name component.
pub open spec fn sanitizing_command(c: SpecCommand) -> bool {
    match c {
        SpecCommand::Rename { from, to } => sanitizing_pair(from, to),
        SpecCommand::Report { from, to } => sanitizing_pair(from, to),
        _ => true,
    }
}

/// Law: a rename step only ever proposes a sanitizing rename.
pub proof fn lemma_rename_step_sanitizes(p: Seq<Seq<char>>, dry_run: bool)
    ensures
        (match spec_rename_step(p, dry_run) {
            Ok(Some(c)) => sanitizing_command(c),
            _ => true,
        }),
{
    if p.len() > 0 {
        lemma_clean_control_free(p.last());
        assert(p.update(p.len() - 1, clean_seq(p.last())).last() == clean_seq(p.last()));
    }
}

/// Law: popping completed tasks only ever yields sanitizing renames.
pub proof fn lemma_advance_sanitizes(stack: Seq<SpecTask>, dry_run: bool)
    ensures
        (match spec_advance(stack, dry_run).1 {
            Ok(c) => sanitizing_command(c),
            Err(_) => true,
        }),
    decreases stack.len(),
{
    if stack.len() > 0 {
        match stack.last() {
            SpecTask::Finish(p) => {
                lemma_rename_step_sanitizes(p, dry_run);
            },
            _ => {
            },
        }
        lemma_advance_sanitizes(stack.drop_last(), dry_run);
    }
}

/// Law: whatever rename or report the machine commands, in either
/// mode, replaces exactly the final name component with its sanitized
/// form; the tool never produces a target name that is empty or still
/// holds a control character.
pub proof fn lemma_commands_sanitize(stack: Seq<SpecTask>, dry_run: bool, ev: SpecEvent)
    ensures
        (match spec_step(stack, dry_run, ev).1 {
            Ok(c) => sanitizing_command(c),
            Err(_) => true,
        }),
{
    lemma_advance_sanitizes(stack, dry_run);
    lemma_advance_sanitizes(stack.drop_last(), dry_run);
    match ev {
        SpecEvent::Proceed => {
        },
        SpecEvent::Stat { .. } => {
            match stack.last() {
                SpecTask::Visit(p) => {
                    lemma_rename_step_sanitizes(p, dry_run);
                },
                _ => {
                },
            }
        },
        SpecEvent::Children(names) => {
            match stack.last() {
                SpecTask::List(p) => {
                    lemma_advance_sanitizes(
                        stack.drop_last().push(SpecTask::Finish(p)) + child_visits(p, names),
                        dry_run,
                    );
                },
                _ => {
                },
            }
        },
    }
}

/// Law: when a directory's listing arrives, the directory's own rename
/// task is placed beneath one visit task per child, the first-listed
/// child on top; the machine therefore reaches the directory's rename
/// step only after every child task has been processed and popped.
pub proof fn lemma_post_order(
    stack: Seq<SpecTask>,
    dry_run: bool,
    p: Seq<Seq<char>>,
    names: Seq<Seq<char>>,
)
    requires
        stack.len() > 0,
        stack.last() == SpecTask::List(p),
        names.len() > 0,
    ensures
        spec_step(stack, dry_run, SpecEvent::Children(names)).0 == stack.drop_last().push(
            SpecTask::Finish(p),
        ) + child_visits(p, names),
        spec_step(stack, dry_run, SpecEvent::Children(names)).0.last() == SpecTask::Visit(
            p.push(names[0]),
        ),
        spec_step(stack, dry_run, SpecEvent::Children(names)).1 == Ok::<SpecCommand, WalkError>(
            SpecCommand::Stat(p.push(names[0])),
        ),
{
    let s2 = stack.drop_last().push(SpecTask::Finish(p)) + child_visits(p, names);
    assert(child_visits(p, names).len() == names.len());
    assert(s2.last() == child_visits(p, names)[names.len() - 1]);
    assert(child_visits(p, names)[names.len() - 1] == SpecTask::Visit(p.push(names[0])));
}

} // verus!
