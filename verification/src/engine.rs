//! The rename engine: a state machine that decides one run.
//!
//! The engine owns every decision of a run — in which order targets are
//! taken up, how a classified target is handled, how a directory is
//! traversed depth-first while symbolic links are skipped, which rename
//! comes next, and when the run stops — while the caller performs the
//! filesystem work.  The caller feeds an [`Event`] in, performs the
//! [`Action`] handed back, and repeats until the action is
//! [`Action::Finished`].
//!
//! The contracts of [`Engine::step`] state the run's guarantees.  Every
//! event determines the shape of the next action: a regular-file target is
//! renamed to its salted form at once, a directory target is listed, a
//! symbolic-link target is passed over, a missing target ends the run with
//! its error, and a failed rename or listing ends the run with exactly the
//! reported error.  Renames are requested only for paths reported as
//! regular files, and every such path stays owed until its rename is
//! requested or the run fails; listings are requested only for the
//! directory target itself and for entries reported as directories, each
//! of which stays due until it is listed or the run fails.  Targets are
//! taken up strictly in caller order, one at a time, and the collected
//! files of a directory target are renamed in their collection order.

use vstd::prelude::*;
use vstd::string::*;

use crate::config::Config;
use crate::naming::transform;
use crate::naming::transformed_path;

verus! {

/// What a path denotes at the moment it is looked at.
#[derive(Clone, Copy, PartialEq, Eq, Structural)]
pub enum FileKind {
    RegularFile,
    Directory,
    SymbolicLink,
    Missing,
}

/// One immediate entry of a listed directory: its full path and its kind.
pub struct DirEntry {
    pub path: String,
    pub kind: FileKind,
}

/// What the engine asks the caller to do next.
pub enum Action {
    /// Determine the kind of this path and answer with `Classified`.
    Classify(String),
    /// List the immediate entries of this directory and answer with
    /// `Listed`, or with `ListFailed` if the directory cannot be read.
    ListDir(String),
    /// Rename the first path to the second and answer with `Renamed`, or
    /// with `RenameFailed` if the rename primitive fails.
    Rename(String, String),
    /// The run is over; no further event is accepted.
    Finished(Result<bool, String>),
}

/// What the caller reports back to the engine.
pub enum Event {
    /// Begin the run.
    Start,
    /// The answer to `Classify`.
    Classified(FileKind),
    /// The answer to `ListDir`: the immediate entries, in listing order.
    Listed(Vec<DirEntry>),
    /// The answer to `ListDir` when the directory cannot be read.
    ListFailed(String),
    /// The answer to `Rename` on success.
    Renamed,
    /// The answer to `Rename` on failure.
    RenameFailed(String),
}

#[derive(Clone, Copy, PartialEq, Eq, Structural)]
enum Phase {
    Boot,
    AwaitKind,
    AwaitRenameSingle,
    AwaitList,
    AwaitRenameList,
    Done,
}

/// The paths of the entries of kind `k` in a listing.
pub open spec fn listed_kind(v: Seq<DirEntry>, k: FileKind) -> Set<Seq<char>> {
    Set::new(|p: Seq<char>| exists|i: int| 0 <= i < v.len() && v[i].kind == k && v[i].path@ == p)
}

/// The paths of the regular-file entries of a listing.
pub open spec fn listed_regulars(v: Seq<DirEntry>) -> Set<Seq<char>> {
    listed_kind(v, FileKind::RegularFile)
}

/// The paths of the directory entries of a listing.
pub open spec fn listed_directories(v: Seq<DirEntry>) -> Set<Seq<char>> {
    listed_kind(v, FileKind::Directory)
}

/// The paths held in a sequence of owned strings.
spec fn collected_paths(v: Seq<String>) -> Set<Seq<char>> {
    Set::new(|p: Seq<char>| exists|i: int| 0 <= i < v.len() && v[i]@ == p)
}

/// The paths held from position `from` on.
spec fn tail_paths(v: Seq<String>, from: int) -> Set<Seq<char>> {
    Set::new(|p: Seq<char>| exists|i: int| from <= i < v.len() && v[i]@ == p)
}

/// The character sequences of a sequence of owned strings.
spec fn seq_views(v: Seq<String>) -> Seq<Seq<char>> {
    Seq::new(v.len(), |i: int| v[i]@)
}

proof fn lemma_collected_push(v: Seq<String>, x: String)
    ensures
        collected_paths(v.push(x)) =~= collected_paths(v).insert(x@),
{
    assert forall|p: Seq<char>| collected_paths(v.push(x)).contains(p) implies collected_paths(
        v,
    ).insert(x@).contains(p) by {
        let i = choose|i: int| 0 <= i < v.push(x).len() && v.push(x)[i]@ == p;
        if i < v.len() {
            assert(v[i]@ == p);
        } else {
            assert(v.push(x)[i] == x);
        }
    }
    assert forall|p: Seq<char>| collected_paths(v).insert(x@).contains(p) implies collected_paths(
        v.push(x),
    ).contains(p) by {
        if p == x@ {
            assert(v.push(x)[v.len() as int]@ == p);
        } else {
            let i = choose|i: int| 0 <= i < v.len() && v[i]@ == p;
            assert(v.push(x)[i]@ == p);
        }
    }
}

proof fn lemma_listed_kind_drop_last(v: Seq<DirEntry>, k: FileKind)
    requires
        v.len() > 0,
    ensures
        v.last().kind == k ==> listed_kind(v, k) =~= listed_kind(v.drop_last(), k).insert(
            v.last().path@,
        ),
        v.last().kind != k ==> listed_kind(v, k) =~= listed_kind(v.drop_last(), k),
{
    let w = v.drop_last();
    assert forall|p: Seq<char>| listed_kind(v, k).contains(p) implies (if v.last().kind == k {
        listed_kind(w, k).insert(v.last().path@)
    } else {
        listed_kind(w, k)
    }).contains(p) by {
        let i = choose|i: int| 0 <= i < v.len() && v[i].kind == k && v[i].path@ == p;
        if i < v.len() - 1 {
            assert(w[i] == v[i]);
            assert(listed_kind(w, k).contains(p));
        } else {
            assert(v[i] == v.last());
        }
    }
    assert forall|p: Seq<char>| listed_kind(w, k).contains(p) implies listed_kind(v, k).contains(
        p,
    ) by {
        let i = choose|i: int| 0 <= i < w.len() && w[i].kind == k && w[i].path@ == p;
        assert(v[i] == w[i]);
    }
    if v.last().kind == k {
        assert(listed_kind(v, k).contains(v.last().path@)) by {
            assert(v[v.len() - 1].kind == k);
        }
    }
}

proof fn lemma_listed_kind_push(v: Seq<DirEntry>, x: DirEntry, k: FileKind)
    ensures
        x.kind == k ==> listed_kind(v.push(x), k) =~= listed_kind(v, k).insert(x.path@),
        x.kind != k ==> listed_kind(v.push(x), k) =~= listed_kind(v, k),
{
    assert(v.push(x).drop_last() =~= v);
    assert(v.push(x).last() == x);
    lemma_listed_kind_drop_last(v.push(x), k);
}

/// The engine of one run.  It holds the salt, the targets in caller order,
/// and the traversal and rename progress of the target under work.
pub struct Engine {
    salt: String,
    targets: Vec<String>,
    idx: usize,
    pending: Vec<DirEntry>,
    collected: Vec<String>,
    fidx: usize,
    phase: Phase,
}

impl Engine {
    /// The salt of the run.
    pub closed spec fn salt_spec(&self) -> Seq<char> {
        self.salt@
    }

    /// The targets of the run, in caller order.
    pub closed spec fn targets_spec(&self) -> Seq<Seq<char>> {
        self.targets.deep_view()
    }

    /// The position of the target under work: every target before it has
    /// been fully processed.
    pub closed spec fn target_idx(&self) -> int {
        self.idx as int
    }

    /// Whether the run is over; a finished engine accepts no further event.
    pub closed spec fn is_done(&self) -> bool {
        self.phase is Done
    }

    /// Whether the engine waits for `Start`.
    pub closed spec fn ready_to_start(&self) -> bool {
        self.phase is Boot
    }

    /// Whether the engine waits for the classification of the target under
    /// work.
    pub closed spec fn classifying(&self) -> bool {
        self.phase is AwaitKind
    }

    /// Whether the engine waits for the outcome of the rename of a
    /// regular-file target.
    pub closed spec fn renaming_target(&self) -> bool {
        self.phase is AwaitRenameSingle
    }

    /// Whether the engine waits for a directory listing while traversing a
    /// directory target.
    pub closed spec fn traversing(&self) -> bool {
        self.phase is AwaitList
    }

    /// Whether the engine waits for the outcome of the rename of a
    /// collected file.
    pub closed spec fn renaming_list(&self) -> bool {
        self.phase is AwaitRenameList
    }

    /// Internal consistency of the state.
    pub closed spec fn inv(&self) -> bool {
        &&& self.idx <= self.targets@.len()
        &&& (self.phase is AwaitKind || self.phase is AwaitRenameSingle || self.phase
            is AwaitList) ==> self.idx < self.targets@.len()
        &&& self.phase is AwaitRenameList ==> (self.idx < self.targets@.len() && self.fidx
            < self.collected@.len())
    }

    /// Which event the engine is waiting for.
    pub open spec fn accepts(&self, e: Event) -> bool {
        if self.ready_to_start() {
            e is Start
        } else if self.classifying() {
            e is Classified
        } else if self.traversing() {
            e is Listed || e is ListFailed
        } else if self.renaming_target() || self.renaming_list() {
            e is Renamed || e is RenameFailed
        } else {
            false
        }
    }

    /// The paths reported as regular files whose rename the engine still
    /// owes: it must request each of them before it may finish
    /// successfully.
    pub closed spec fn owed(&self) -> Set<Seq<char>> {
        if self.phase is AwaitList {
            collected_paths(self.collected@) + listed_regulars(self.pending@)
        } else if self.phase is AwaitRenameList {
            tail_paths(self.collected@, self.fidx + 1)
        } else {
            Set::<Seq<char>>::empty()
        }
    }

    /// The paths reported as directories whose listing the engine still
    /// owes while traversing a directory target.
    pub closed spec fn due_dirs(&self) -> Set<Seq<char>> {
        if self.phase is AwaitList {
            listed_directories(self.pending@)
        } else {
            Set::<Seq<char>>::empty()
        }
    }

    /// The collected files not yet handed out as rename requests, in the
    /// order in which their renames will be requested.
    pub closed spec fn rename_queue(&self) -> Seq<Seq<char>> {
        if self.phase is AwaitList {
            seq_views(self.collected@)
        } else if self.phase is AwaitRenameList {
            seq_views(self.collected@).skip(self.fidx + 1)
        } else {
            Seq::<Seq<char>>::empty()
        }
    }

    /// The paths that the event `e`, arriving in this state, reports as
    /// regular files.
    pub open spec fn regulars_of(&self, e: Event) -> Set<Seq<char>> {
        match e {
            Event::Classified(k) => if k is RegularFile && self.classifying() {
                Set::<Seq<char>>::empty().insert(self.targets_spec()[self.target_idx()])
            } else {
                Set::<Seq<char>>::empty()
            },
            Event::Listed(es) => listed_regulars(es@),
            _ => Set::<Seq<char>>::empty(),
        }
    }

    /// The paths that the event `e`, arriving in this state, reports as
    /// directories to descend into.
    pub open spec fn dirs_of(&self, e: Event) -> Set<Seq<char>> {
        match e {
            Event::Classified(k) => if k is Directory && self.classifying() {
                Set::<Seq<char>>::empty().insert(self.targets_spec()[self.target_idx()])
            } else {
                Set::<Seq<char>>::empty()
            },
            Event::Listed(es) => listed_directories(es@),
            _ => Set::<Seq<char>>::empty(),
        }
    }

    /// Set up the engine for one run over the config's targets.
    pub fn new(config: Config) -> (r: Engine)
        ensures
            r.inv(),
            !r.is_done(),
            r.ready_to_start(),
            r.accepts(Event::Start),
            r.salt_spec() == config.salt@,
            r.targets_spec() == config.files.deep_view(),
            r.target_idx() == 0,
            r.owed() =~= Set::<Seq<char>>::empty(),
            r.due_dirs() =~= Set::<Seq<char>>::empty(),
    {
        Engine {
            salt: config.salt,
            targets: config.files,
            idx: 0,
            pending: Vec::new(),
            collected: Vec::new(),
            fidx: 0,
            phase: Phase::Boot,
        }
    }

    /// Take up the next unprocessed target, or finish the run successfully
    /// when none is left.
    fn emit_next_target(&mut self) -> (r: Action)
        requires
            old(self).idx <= old(self).targets@.len(),
        ensures
            final(self).inv(),
            final(self).salt == old(self).salt,
            final(self).targets == old(self).targets,
            final(self).idx == old(self).idx,
            final(self).owed() =~= Set::<Seq<char>>::empty(),
            final(self).due_dirs() =~= Set::<Seq<char>>::empty(),
            (r is Finished) <==> final(self).phase is Done,
            r matches Action::Finished(res) ==> (res matches Ok(b) && b == true && final(self).idx
                == final(self).targets@.len()),
            r matches Action::Classify(t) ==> (final(self).phase is AwaitKind && final(self).idx
                < final(self).targets@.len() && t@ == final(self).targets@[final(self).idx as int]@),
            (r is Classify) || (r is Finished),
    {
        if self.idx < self.targets.len() {
            self.phase = Phase::AwaitKind;
            Action::Classify(self.targets[self.idx].clone())
        } else {
            self.phase = Phase::Done;
            Action::Finished(Ok(true))
        }
    }

    /// Request the rename of the next collected file, or move on to the
    /// next target when every collected file has been requested.
    fn emit_next_rename(&mut self) -> (r: Action)
        requires
            old(self).idx < old(self).targets@.len(),
            old(self).fidx <= old(self).collected@.len(),
        ensures
            final(self).inv(),
            final(self).salt == old(self).salt,
            final(self).targets == old(self).targets,
            old(self).idx <= final(self).idx <= final(self).targets@.len(),
            final(self).due_dirs() =~= Set::<Seq<char>>::empty(),
            (r is Finished) <==> final(self).phase is Done,
            r matches Action::Finished(res) ==> (res matches Ok(b) && b == true && final(self).idx
                == final(self).targets@.len()),
            r matches Action::Classify(t) ==> (final(self).phase is AwaitKind && final(self).idx
                < final(self).targets@.len() && t@ == final(self).targets@[final(self).idx as int]@),
            r matches Action::Rename(from, to) ==> (final(self).phase is AwaitRenameList && to@
                == transformed_path(from@, old(self).salt@) && final(self).idx == old(self).idx),
            r matches Action::Rename(from, to) ==> (from@ == seq_views(old(self).collected@)[old(self).fidx as int] && final(self).rename_queue() == seq_views(old(self).collected@).skip(
                old(self).fidx + 1,
            )),
            old(self).fidx < old(self).collected@.len() ==> r is Rename,
            old(self).fidx >= old(self).collected@.len() ==> ((r is Classify || r is Finished)
                && final(self).idx == old(self).idx + 1),
            r matches Action::Rename(from, to) ==> tail_paths(
                old(self).collected@,
                old(self).fidx as int,
            ).contains(from@),
            forall|p: Seq<char>|
                tail_paths(old(self).collected@, old(self).fidx as int).contains(p) ==> (final(self).owed().contains(p) || (r matches Action::Rename(from, to) && from@ == p)),
            forall|p: Seq<char>|
                final(self).owed().contains(p) ==> tail_paths(
                    old(self).collected@,
                    old(self).fidx as int,
                ).contains(p),
            !(r is ListDir),
    {
        if self.fidx < self.collected.len() {
            let from = self.collected[self.fidx].clone();
            let to = transform(from.as_str(), self.salt.as_str());
            self.phase = Phase::AwaitRenameList;
            proof {
                assert(tail_paths(self.collected@, self.fidx as int).contains(from@));
                assert(seq_views(self.collected@)[self.fidx as int] == self.collected@[self.fidx as int]@);
                assert forall|p: Seq<char>|
                    tail_paths(self.collected@, self.fidx as int).contains(p) implies (tail_paths(
                    self.collected@,
                    self.fidx + 1,
                ).contains(p) || from@ == p) by {
                    let i = choose|i: int|
                        self.fidx <= i < self.collected@.len() && self.collected@[i]@ == p;
                    if i > self.fidx {
                        assert(tail_paths(self.collected@, self.fidx + 1).contains(p));
                    }
                }
            }
            Action::Rename(from, to)
        } else {
            let tlen = self.targets.len();
            proof {
                assert(self.idx < tlen);
            }
            self.idx = self.idx + 1;
            self.emit_next_target()
        }
    }

    /// Work through the pending traversal entries: collect regular files,
    /// skip symbolic links, descend into the next directory, and when the
    /// traversal is complete begin renaming the collected files.
    fn drain(&mut self) -> (r: Action)
        requires
            old(self).inv(),
            old(self).phase is AwaitList,
        ensures
            final(self).inv(),
            final(self).salt == old(self).salt,
            final(self).targets == old(self).targets,
            old(self).idx <= final(self).idx <= final(self).targets@.len(),
            (r is Finished) <==> final(self).phase is Done,
            r matches Action::Finished(res) ==> (res matches Ok(b) && b == true && final(self).idx
                == final(self).targets@.len()),
            r matches Action::Classify(t) ==> (final(self).phase is AwaitKind && final(self).idx
                < final(self).targets@.len() && t@ == final(self).targets@[final(self).idx as int]@),
            r matches Action::ListDir(d) ==> (final(self).phase is AwaitList && final(self).idx
                == old(self).idx),
            (r is Classify || r is Finished) ==> final(self).idx == old(self).idx + 1,
            (r is ListDir || r is Rename) ==> final(self).idx == old(self).idx,
            r matches Action::Rename(from, to) ==> (final(self).phase is AwaitRenameList && to@
                == transformed_path(from@, old(self).salt@)),
            r matches Action::Rename(from, to) ==> old(self).owed().contains(from@),
            r matches Action::Rename(from, to) ==> (old(self).rename_queue().len() > 0 ==> (from@
                == old(self).rename_queue().first() && old(self).rename_queue().skip(
                1,
            ).is_prefix_of(final(self).rename_queue()))),
            r matches Action::ListDir(d) ==> old(self).rename_queue().is_prefix_of(
                final(self).rename_queue(),
            ),
            forall|p: Seq<char>|
                old(self).owed().contains(p) ==> (final(self).owed().contains(p) || (r matches
                Action::Rename(from, to) && from@ == p)),
            forall|p: Seq<char>| final(self).owed().contains(p) ==> old(self).owed().contains(p),
            r matches Action::ListDir(d) ==> old(self).due_dirs().contains(d@),
            forall|p: Seq<char>|
                old(self).due_dirs().contains(p) ==> (final(self).due_dirs().contains(p) || (
                r matches Action::ListDir(d) && d@ == p)),
            forall|p: Seq<char>| final(self).due_dirs().contains(p) ==> old(self).due_dirs().contains(p),
    {
        loop
            invariant
                self.inv(),
                self.phase is AwaitList,
                old(self).phase is AwaitList,
                self.salt == old(self).salt,
                self.targets == old(self).targets,
                self.idx == old(self).idx,
                old(self).collected@.is_prefix_of(self.collected@),
                collected_paths(self.collected@) + listed_regulars(self.pending@) =~= old(self).owed(),
                listed_directories(self.pending@) =~= old(self).due_dirs(),
            decreases self.pending@.len(),
        {
            let ghost ppre = self.pending@;
            let ghost cpre = self.collected@;
            match self.pending.pop() {
                Some(entry) => {
                    proof {
                        lemma_listed_kind_drop_last(ppre, FileKind::RegularFile);
                        lemma_listed_kind_drop_last(ppre, FileKind::Directory);
                    }
                    match entry.kind {
                        FileKind::RegularFile => {
                            self.collected.push(entry.path);
                            proof {
                                lemma_collected_push(cpre, self.collected@.last());
                                assert(collected_paths(self.collected@) + listed_regulars(
                                    self.pending@,
                                ) =~= collected_paths(cpre) + listed_regulars(ppre));
                                assert(cpre.is_prefix_of(self.collected@));
                            }
                        },
                        FileKind::Directory => {
                            proof {
                                assert(collected_paths(self.collected@) + listed_regulars(
                                    self.pending@,
                                ) =~= collected_paths(cpre) + listed_regulars(ppre));
                                assert(listed_directories(ppre).contains(entry.path@));
                                assert forall|p: Seq<char>|
                                    listed_directories(ppre).contains(p) implies (
                                listed_directories(self.pending@).contains(p) || p
                                    == entry.path@) by {}
                                assert(seq_views(old(self).collected@).is_prefix_of(
                                    seq_views(self.collected@),
                                )) by {
                                    assert(seq_views(old(self).collected@) =~= seq_views(
                                        self.collected@,
                                    ).subrange(0, old(self).collected@.len() as int));
                                }
                            }
                            return Action::ListDir(entry.path);
                        },
                        FileKind::SymbolicLink => {
                            proof {
                                assert(collected_paths(self.collected@) + listed_regulars(
                                    self.pending@,
                                ) =~= collected_paths(cpre) + listed_regulars(ppre));
                            }
                        },
                        FileKind::Missing => {
                            proof {
                                assert(collected_paths(self.collected@) + listed_regulars(
                                    self.pending@,
                                ) =~= collected_paths(cpre) + listed_regulars(ppre));
                            }
                        },
                    }
                },
                None => {
                    self.fidx = 0;
                    let ghost cmid = self.collected@;
                    proof {
                        assert(listed_regulars(self.pending@) =~= Set::<Seq<char>>::empty());
                        assert(tail_paths(self.collected@, 0) =~= collected_paths(
                            self.collected@,
                        ));
                        assert(tail_paths(self.collected@, 0) =~= old(self).owed());
                    }
                    let r = self.emit_next_rename();
                    proof {
                        if old(self).collected@.len() > 0 {
                            assert(old(self).collected@[0] == cmid[0]);
                            assert(seq_views(old(self).collected@).first() == old(
                                self,
                            ).collected@[0]@);
                            assert(seq_views(cmid)[0] == cmid[0]@);
                            assert(seq_views(old(self).collected@).skip(1).is_prefix_of(
                                seq_views(cmid).skip(1),
                            )) by {
                                assert(seq_views(old(self).collected@).skip(1) =~= seq_views(
                                    cmid,
                                ).skip(1).subrange(
                                    0,
                                    seq_views(old(self).collected@).skip(1).len() as int,
                                ));
                            }
                        }
                    }
                    return r;
                },
            }
        }
    }

    /// Feed one event in and get the next action back.
    ///
    /// The contract pins the run down.  Every event determines the next
    /// action: a target reported missing ends the run at once with the
    /// not-found error; a regular-file target is renamed to its salted
    /// form; a directory target is listed; a symbolic-link target is
    /// passed over without rename, listing or error; a failed rename or
    /// listing ends the run with exactly the reported error.  Renames take
    /// only paths reported as regular files, and a reported regular file
    /// stays owed until its rename is requested or the run fails; listings
    /// take only reported directories, each of which stays due until it is
    /// listed or the run fails.  The target index moves forward by exactly
    /// one each time a target is finished, and a successful finish means
    /// the index reached the end.  The collected files of a directory
    /// target are renamed in collection order: each rename request takes
    /// the head of the queue, and listings only append to it.
    pub fn step(&mut self, e: Event) -> (r: Action)
        requires
            old(self).inv(),
            old(self).accepts(e),
        ensures
            final(self).inv(),
            final(self).salt_spec() == old(self).salt_spec(),
            final(self).targets_spec() == old(self).targets_spec(),
            old(self).target_idx() <= final(self).target_idx() <= final(self).targets_spec().len(),
            (r is Finished) <==> final(self).is_done(),
            // what a rename request is
            r matches Action::Rename(from, to) ==> to@ == transformed_path(
                from@,
                old(self).salt_spec(),
            ),
            r matches Action::Rename(from, to) ==> (old(self).owed().contains(from@) || old(self).regulars_of(e).contains(from@)),
            // no reported regular file is forgotten
            forall|p: Seq<char>|
                (old(self).owed().contains(p) || old(self).regulars_of(e).contains(p)) ==> (final(self).owed().contains(p) || (r matches Action::Rename(from, to) && from@ == p) || (
                r matches Action::Finished(res) && res is Err)),
            forall|p: Seq<char>|
                final(self).owed().contains(p) ==> (old(self).owed().contains(p) || old(self).regulars_of(e).contains(p)),
            // listings take only reported directories, and none is forgotten
            r matches Action::ListDir(d) ==> (old(self).due_dirs().contains(d@) || old(self).dirs_of(e).contains(d@)),
            forall|p: Seq<char>|
                (old(self).due_dirs().contains(p) || old(self).dirs_of(e).contains(p)) ==> (final(self).due_dirs().contains(p) || (r matches Action::ListDir(d) && d@ == p) || (
                r matches Action::Finished(res) && res is Err)),
            forall|p: Seq<char>|
                final(self).due_dirs().contains(p) ==> (old(self).due_dirs().contains(p) || old(self).dirs_of(e).contains(p)),
            // each event determines the next action and the index move
            e is Start ==> (final(self).target_idx() == old(self).target_idx() && ((r matches
                Action::Classify(t)) || (r matches Action::Finished(res) && res is Ok))),
            e matches Event::Classified(k) && k is Missing ==> (r matches Action::Finished(res)
                && res matches Err(m) && m@ == "file don't found"@ && final(self).target_idx()
                == old(self).target_idx()),
            e matches Event::Classified(k) && k is RegularFile ==> (r matches Action::Rename(
                from,
                to,
            ) && from@ == old(self).targets_spec()[old(self).target_idx()] && final(self).target_idx() == old(self).target_idx()),
            e matches Event::Classified(k) && k is Directory ==> (r matches Action::ListDir(d)
                && d@ == old(self).targets_spec()[old(self).target_idx()] && final(self).target_idx() == old(self).target_idx()),
            e matches Event::Classified(k) && k is SymbolicLink ==> (final(self).target_idx()
                == old(self).target_idx() + 1 && ((r matches Action::Classify(t)) || (r matches
                Action::Finished(res) && res is Ok))),
            e is Renamed ==> ((r is Rename || r is Classify) || (r matches Action::Finished(res)
                && res is Ok)),
            e is Renamed ==> final(self).target_idx() == old(self).target_idx() + (
            if (r is Classify || r is Finished) {
                1int
            } else {
                0int
            }),
            e matches Event::Listed(es) ==> ((r is Rename || r is Classify || r is ListDir) || (
            r matches Action::Finished(res) && res is Ok)),
            e matches Event::Listed(es) ==> final(self).target_idx() == old(self).target_idx() + (
            if (r is Classify || r is Finished) {
                1int
            } else {
                0int
            }),
            e matches Event::RenameFailed(m) ==> (r matches Action::Finished(res) && res matches
                Err(mm) && mm@ == m@),
            e matches Event::ListFailed(m) ==> (r matches Action::Finished(res) && res matches Err(
                mm,
            ) && mm@ == m@),
            // collected files are renamed in collection order
            e is Renamed && old(self).renaming_list() ==> ((r matches Action::Rename(from, to)
                ==> (from@ == old(self).rename_queue().first() && final(self).rename_queue()
                == old(self).rename_queue().skip(1))) && ((r is Classify || r is Finished) ==> old(self).rename_queue().len() == 0)),
            e matches Event::Listed(es) && r is ListDir ==> old(self).rename_queue().is_prefix_of(
                final(self).rename_queue(),
            ),
            e matches Event::Listed(es) ==> (r matches Action::Rename(from, to) ==> (old(self).rename_queue().len() > 0 ==> from@ == old(self).rename_queue().first())),
            e matches Event::Listed(es) ==> (r matches Action::Rename(from, to) ==> (old(self).rename_queue().len() > 0 ==> old(self).rename_queue().skip(1).is_prefix_of(final(self).rename_queue()))),
            // which mode the engine is in afterwards
            r matches Action::ListDir(d) ==> final(self).traversing(),
            e matches Event::Classified(k) && k is RegularFile ==> final(self).renaming_target(),
            e matches Event::Listed(es) && r is Rename ==> final(self).renaming_list(),
            e is Renamed && r is Rename ==> final(self).renaming_list(),
            // a successful finish processed everything
            r matches Action::Finished(res) && res is Ok ==> final(self).target_idx() == final(self).targets_spec().len(),
            r matches Action::Finished(res) ==> (res matches Ok(b) ==> b == true),
            r matches Action::Classify(t) ==> (final(self).target_idx() < final(self).targets_spec().len() && t@ == final(self).targets_spec()[final(self).target_idx()]),
            // which events the next state accepts
            r matches Action::Classify(t) ==> forall|k: FileKind|
                final(self).accepts(Event::Classified(k)),
            r matches Action::ListDir(d) ==> ((forall|es: Vec<DirEntry>|
                final(self).accepts(Event::Listed(es))) && (forall|m: String|
                final(self).accepts(Event::ListFailed(m)))),
            r matches Action::Rename(from, to) ==> (final(self).accepts(Event::Renamed) && (forall|
                m: String,
            |
                final(self).accepts(Event::RenameFailed(m)))),
    {
        proof {
            if old(self).classifying() {
                assert(self.targets.deep_view()[self.idx as int] == self.targets@[self.idx as int]@);
            }
        }
        match e {
            Event::Start => self.emit_next_target(),
            Event::Classified(k) => {
                match k {
                    FileKind::Missing => {
                        self.phase = Phase::Done;
                        Action::Finished(Err(String::from_str("file don't found")))
                    },
                    FileKind::SymbolicLink => {
                        let tlen = self.targets.len();
                        proof {
                            assert(self.idx < tlen);
                        }
                        self.idx = self.idx + 1;
                        self.emit_next_target()
                    },
                    FileKind::RegularFile => {
                        let t = self.targets[self.idx].clone();
                        let to = transform(t.as_str(), self.salt.as_str());
                        self.phase = Phase::AwaitRenameSingle;
                        Action::Rename(t, to)
                    },
                    FileKind::Directory => {
                        let t = self.targets[self.idx].clone();
                        self.pending = Vec::new();
                        self.collected = Vec::new();
                        self.phase = Phase::AwaitList;
                        Action::ListDir(t)
                    },
                }
            },
            Event::Listed(listing) => {
                let mut listing = listing;
                let ghost entries0 = listing@;
                let ghost pending0 = self.pending@;
                while listing.len() > 0
                    invariant
                        self.inv(),
                        self.phase is AwaitList,
                        self.salt == old(self).salt,
                        self.targets == old(self).targets,
                        self.idx == old(self).idx,
                        self.collected == old(self).collected,
                        listed_regulars(self.pending@) + listed_regulars(listing@)
                            =~= listed_regulars(pending0) + listed_regulars(entries0),
                        listed_directories(self.pending@) + listed_directories(listing@)
                            =~= listed_directories(pending0) + listed_directories(entries0),
                    decreases listing@.len(),
                {
                    let ghost lpre = listing@;
                    let ghost ppre = self.pending@;
                    let entry = listing.pop().unwrap();
                    self.pending.push(entry);
                    proof {
                        lemma_listed_kind_drop_last(lpre, FileKind::RegularFile);
                        lemma_listed_kind_drop_last(lpre, FileKind::Directory);
                        lemma_listed_kind_push(ppre, self.pending@.last(), FileKind::RegularFile);
                        lemma_listed_kind_push(ppre, self.pending@.last(), FileKind::Directory);
                        assert(listed_regulars(self.pending@) + listed_regulars(listing@)
                            =~= listed_regulars(ppre) + listed_regulars(lpre));
                        assert(listed_directories(self.pending@) + listed_directories(listing@)
                            =~= listed_directories(ppre) + listed_directories(lpre));
                    }
                }
                proof {
                    assert(old(self).phase is AwaitList);
                    assert(old(self).regulars_of(e) == listed_regulars(entries0));
                    assert(old(self).dirs_of(e) == listed_directories(entries0));
                    assert(old(self).owed() == collected_paths(old(self).collected@)
                        + listed_regulars(pending0));
                    assert(listed_regulars(listing@) =~= Set::<Seq<char>>::empty());
                    assert(listed_directories(listing@) =~= Set::<Seq<char>>::empty());
                    assert(listed_regulars(self.pending@) =~= listed_regulars(pending0)
                        + listed_regulars(entries0));
                    assert(listed_directories(self.pending@) =~= listed_directories(pending0)
                        + listed_directories(entries0));
                    assert(collected_paths(self.collected@) + listed_regulars(self.pending@)
                        =~= old(self).owed() + old(self).regulars_of(e));
                }
                self.drain()
            },
            Event::ListFailed(m) => {
                self.phase = Phase::Done;
                Action::Finished(Err(m))
            },
            Event::Renamed => {
                match self.phase {
                    Phase::AwaitRenameSingle => {
                        let tlen = self.targets.len();
                        proof {
                            assert(self.idx < tlen);
                        }
                        self.idx = self.idx + 1;
                        self.emit_next_target()
                    },
                    Phase::AwaitRenameList => {
                        let clen = self.collected.len();
                        proof {
                            assert(self.fidx < clen);
                            assert(seq_views(self.collected@).len() == self.collected@.len());
                        }
                        self.fidx = self.fidx + 1;
                        self.emit_next_rename()
                    },
                    _ => {
                        proof {
                            assert(false);
                        }
                        Action::Finished(Ok(true))
                    },
                }
            },
            Event::RenameFailed(m) => {
                self.phase = Phase::Done;
                Action::Finished(Err(m))
            },
        }
    }
}

} // verus!
