//! Idempotent cleanup of leftover devices, plus what a termination signal does.
//!
//! TCMU/configfs leftovers otherwise need manual surgery, so the sweep works by
//! naming convention rather than only from in-process state: a run killed with
//! `SIGKILL` can still be cleaned up afterwards.

use vstd::prelude::*;
use vstd::utf8::encode_utf8;

use crate::configfs;
use crate::configfs::removal_after;
use crate::configfs::removal_asks;
use crate::configfs::Removal;
use crate::configfs::RemovalOp;
use crate::configfs::RemovalPhase;
use crate::configfs::RemovalReply;
use crate::configfs::RemovalTarget;
use crate::configfs::DEV_PREFIX;
use crate::configfs::NAA_PREFIX;
use crate::device::is_device_for;
use crate::device::Device;
use crate::device::UNMOUNT_DELAY;
use crate::device::UNMOUNT_TRIES;
use crate::error::is_io;
use crate::error::Error;
use crate::error::IoFailure;
use crate::host::Platform;
use crate::host::Progress;
use crate::path;
use crate::path::byte_names;
use crate::path::joined_bytes;
use crate::path::shown;
use crate::path::shown_each;
use crate::path::HostPath;
use crate::text;
use crate::text::texts;

verus! {

/// What a sweep removed, for reporting.
#[derive(Debug, PartialEq, Eq)]
pub struct Swept {
    /// `tcm_loop` nexuses removed, by NAA name.
    pub nexuses: Vec<String>,
    /// `target_core_user` backstores removed, by device name.
    pub backstores: Vec<String>,
    /// Mountpoints that were mounted and are no longer.
    pub unmounted: Vec<HostPath>,
}

impl Default for Swept {
    fn default() -> (swept: Self)
        ensures
            swept.nexuses@.len() == 0,
            swept.backstores@.len() == 0,
            swept.unmounted@.len() == 0,
    {
        Swept { nexuses: Vec::new(), backstores: Vec::new(), unmounted: Vec::new() }
    }
}

impl Swept {
    /// True when nothing was removed and nothing unmounted, which is the expected
    /// result on a host with no interrupted runs.
    pub fn is_empty(&self) -> (yes: bool)
        ensures
            yes == (self.nexuses@.len() == 0 && self.backstores@.len() == 0
                && self.unmounted@.len() == 0),
    {
        self.nexuses.len() == 0 && self.backstores.len() == 0 && self.unmounted.len() == 0
    }
}

/// Where the kernel lists what is mounted.
pub const MOUNTS: &'static str = "/proc/mounts";

/// Whether a line of the mount table is for `target`: that is its second field,
/// in which the kernel escapes white space and backslashes.
pub open spec fn is_mount_line(line: Seq<char>, target: Seq<char>) -> bool {
    text::words(line).len() >= 2 && text::unescaped(text::words(line)[1]) == target
}

/// Whether `target` is among the mount points of a mount table.
pub open spec fn lists_mount(mounts: Seq<char>, target: Seq<char>) -> bool {
    exists|i: int|
        0 <= i < text::lines(mounts).len() && is_mount_line(
            #[trigger] text::lines(mounts)[i],
            target,
        )
}

/// True if `target` is a mount point, per the mount table. `mounts` is what
/// [`MOUNTS`] holds, if it can be read.
pub fn is_mounted(mounts: Option<&str>, target: &HostPath) -> (yes: bool)
    ensures
        yes == (mounts matches Some(m) && lists_mount(m@, shown(target@))),
{
    let table = match mounts {
        Some(table) => table,
        None => {
            return false;
        },
    };
    let wanted = target.display();
    let lines = text::split_lines(table);
    let mut i: usize = 0;
    while i < lines.len()
        invariant
            i <= lines.len(),
            mounts == Some(table),
            wanted@ == shown(target@),
            texts(lines@) == text::lines(table@),
            forall|j: int|
                0 <= j < i ==> !is_mount_line(#[trigger] text::lines(table@)[j], wanted@),
        decreases lines.len() - i,
    {
        let fields = text::split_words(lines[i].as_str());
        assert(texts(lines@)[i as int] == lines@[i as int]@);
        if fields.len() >= 2 {
            assert(texts(fields@)[1] == fields@[1]@);
            if text::unescape(fields[1].as_str()) == wanted {
                assert(is_mount_line(text::lines(table@)[i as int], wanted@));
                return true;
            }
        }
        i += 1;
    }
    false
}

/// A mount point is found in the mount table whatever characters its path holds:
/// a line that the kernel writes for it is a line for it.
pub proof fn law_a_mount_point_is_found(source: Seq<char>, target: Seq<char>, rest: Seq<char>)
    requires
        source.len() > 0,
        target.len() > 0,
    ensures
        is_mount_line(
            text::escaped(source) + seq![' '] + (text::escaped(target) + seq![' '] + rest),
            target,
        ),
{
    text::law_table_fields_read_back(source, target, rest);
}

/// A path that is being unmounted; see [`unmount_path`].
#[derive(Debug)]
pub struct PathUnmount {
    pub target: HostPath,
    pub phase: PathPhase,
}

#[derive(Debug, Clone, Copy)]
pub enum PathPhase {
    Probe,
    Sync,
    /// `left` counts the tries, the one that is asked for now included.
    Try { left: u32 },
    Pause { left: u32 },
}

/// What unmounting a path asks of the host.
#[derive(Debug)]
pub enum PathOp {
    ReadText(&'static str),
    /// Flush everything to disk.
    Sync,
    Unmount(HostPath),
    Sleep(u128),
}

#[derive(Debug)]
pub enum PathReply {
    Text(Result<String, IoFailure>),
    Synced,
    Unmounted(Result<(), IoFailure>),
    Slept,
}

/// Unmount a path if it is mounted, retrying while it is busy. The outcome is
/// whether it was mounted and is no longer: always false off Linux, where
/// nothing can be mounted by this crate.
pub fn unmount_path(target: HostPath, platform: Platform) -> (unmounting: Progress<
    PathUnmount,
    bool,
>)
    ensures
        unmounting == (if platform.linux {
            Progress::Running(PathUnmount { target, phase: PathPhase::Probe })
        } else {
            Progress::Finished(false)
        }),
{
    if platform.linux {
        Progress::Running(PathUnmount { target, phase: PathPhase::Probe })
    } else {
        Progress::Finished(false)
    }
}

impl PathUnmount {
    /// Whether `op` is what the host is asked for.
    pub open spec fn asks(self, op: PathOp) -> bool {
        match self.phase {
            PathPhase::Probe => op matches PathOp::ReadText(path) && path@ == MOUNTS@,
            PathPhase::Sync => op is Sync,
            PathPhase::Try { .. } => op matches PathOp::Unmount(path) && path@ == self.target@,
            PathPhase::Pause { .. } => op == PathOp::Sleep(UNMOUNT_DELAY),
        }
    }

    /// Where an answer leads: on to another question, or to the outcome.
    pub open spec fn after(self, reply: PathReply) -> Progress<PathUnmount, bool> {
        match (self.phase, reply) {
            (PathPhase::Probe, PathReply::Text(mounts)) => if mounts matches Ok(m) && lists_mount(
                m@,
                shown(self.target@),
            ) {
                Progress::Running(PathUnmount { phase: PathPhase::Sync, ..self })
            } else {
                Progress::Finished(false)
            },
            (PathPhase::Sync, PathReply::Synced) => Progress::Running(
                PathUnmount { phase: PathPhase::Try { left: UNMOUNT_TRIES }, ..self },
            ),
            (PathPhase::Try { .. }, PathReply::Unmounted(Ok(_))) => Progress::Finished(true),
            (PathPhase::Try { left }, PathReply::Unmounted(Err(_))) => Progress::Running(
                PathUnmount {
                    phase: PathPhase::Pause {
                        left: if left > 0 {
                            (left - 1) as u32
                        } else {
                            0
                        },
                    },
                    ..self
                },
            ),
            (PathPhase::Pause { left }, PathReply::Slept) => if left > 0 {
                Progress::Running(PathUnmount { phase: PathPhase::Try { left }, ..self })
            } else {
                Progress::Finished(false)
            },
            _ => Progress::Running(self),
        }
    }

    /// How many tries to unmount a run of answers answers.
    pub open spec fn tries(self, replies: Seq<PathReply>) -> nat
        decreases replies.len(),
    {
        if replies.len() == 0 {
            0
        } else {
            (if self.phase is Try && replies[0] is Unmounted {
                1nat
            } else {
                0nat
            }) + match self.after(replies[0]) {
                Progress::Running(next) => next.tries(replies.skip(1)),
                Progress::Finished(_) => 0,
            }
        }
    }

    /// How many tries are left.
    pub open spec fn tries_left(self) -> nat {
        match self.phase {
            PathPhase::Probe | PathPhase::Sync => UNMOUNT_TRIES as nat,
            PathPhase::Try { left } => left as nat,
            PathPhase::Pause { left } => left as nat,
        }
    }

    /// What to ask the host.
    pub fn op(&self) -> (op: PathOp)
        ensures
            self.asks(op),
    {
        match self.phase {
            PathPhase::Probe => PathOp::ReadText(MOUNTS),
            PathPhase::Sync => PathOp::Sync,
            PathPhase::Try { .. } => PathOp::Unmount(self.target.clone()),
            PathPhase::Pause { .. } => PathOp::Sleep(UNMOUNT_DELAY),
        }
    }

    /// Take the host's answer.
    pub fn resume(self, reply: PathReply) -> (progress: Progress<PathUnmount, bool>)
        ensures
            progress == self.after(reply),
    {
        let phase = match (self.phase, reply) {
            (PathPhase::Probe, PathReply::Text(mounts)) => {
                let mounted = match &mounts {
                    Ok(mounts) => is_mounted(Some(mounts.as_str()), &self.target),
                    Err(_) => is_mounted(None, &self.target),
                };
                if !mounted {
                    return Progress::Finished(false);
                }
                PathPhase::Sync
            },
            (PathPhase::Sync, PathReply::Synced) => PathPhase::Try { left: UNMOUNT_TRIES },
            (PathPhase::Try { .. }, PathReply::Unmounted(Ok(()))) => {
                return Progress::Finished(true);
            },
            (PathPhase::Try { left }, PathReply::Unmounted(Err(_))) => PathPhase::Pause {
                left: if left > 0 {
                    left - 1
                } else {
                    0
                },
            },
            (PathPhase::Pause { left }, PathReply::Slept) => {
                if left == 0 {
                    return Progress::Finished(false);
                }
                PathPhase::Try { left }
            },
            (phase, _) => phase,
        };
        Progress::Running(PathUnmount { target: self.target, phase })
    }
}

/// However the host answers, a path is unmounted with a bounded number of tries.
pub proof fn law_path_tries_are_bounded(unmounting: PathUnmount, replies: Seq<PathReply>)
    requires
        unmounting.phase matches PathPhase::Try { left } ==> left > 0,
    ensures
        unmounting.tries(replies) <= unmounting.tries_left(),
    decreases replies.len(),
{
    if replies.len() > 0 {
        match unmounting.after(replies[0]) {
            Progress::Running(next) => law_path_tries_are_bounded(next, replies.skip(1)),
            Progress::Finished(_) => {},
        }
    }
}

/// A path that the mount table does not list is left alone: the answer is no,
/// with nothing flushed and nothing unmounted.
pub proof fn law_an_unmounted_path_is_left_alone(
    unmounting: PathUnmount,
    op: PathOp,
    mounts: Result<String, IoFailure>,
)
    requires
        unmounting.phase is Probe,
        unmounting.asks(op),
        mounts matches Ok(m) ==> !lists_mount(m@, shown(unmounting.target@)),
    ensures
        op is ReadText,
        unmounting.after(PathReply::Text(mounts)) == Progress::<PathUnmount, bool>::Finished(false),
{
}

/// Whether a directory entry carries the prefix, as text.
pub open spec fn is_marked(name: Seq<u8>, prefix: Seq<char>) -> bool {
    prefix.is_prefix_of(shown(name))
}

/// The first entry from `from` on that carries the prefix.
pub open spec fn first_marked(names: Seq<Seq<u8>>, from: nat, prefix: Seq<char>) -> nat
    decreases names.len() - from,
{
    if from >= names.len() {
        names.len()
    } else if is_marked(names[from as int], prefix) {
        from
    } else {
        first_marked(names, from + 1, prefix)
    }
}

/// The items that `keep` holds of the place of, in their order.
pub open spec fn kept<T>(items: Seq<T>, keep: spec_fn(int) -> bool) -> Seq<T>
    decreases items.len(),
{
    if items.len() == 0 {
        Seq::empty()
    } else {
        let before = kept(items.drop_last(), keep);
        if keep(items.len() - 1) {
            before.push(items.last())
        } else {
            before
        }
    }
}

/// The items at the given places.
pub open spec fn picked<T>(items: Seq<T>, places: Seq<nat>) -> Seq<T> {
    Seq::new(places.len(), |i: int| items[places[i] as int])
}

/// Whether `places` are, in order, places of marked names before `end`.
pub open spec fn is_tally(
    names: Seq<Seq<u8>>,
    places: Seq<nat>,
    end: nat,
    prefix: Seq<char>,
) -> bool {
    &&& end <= names.len()
    &&& forall|i: int|
        0 <= i < places.len() ==> (#[trigger] places[i]) < end && is_marked(
            names[places[i] as int],
            prefix,
        )
    &&& forall|i: int, j: int| 0 <= i < j < places.len() ==> places[i] < places[j]
}

proof fn lemma_kept_alike<T>(
    items: Seq<T>,
    keep: spec_fn(int) -> bool,
    other: spec_fn(int) -> bool,
)
    requires
        forall|j: int| 0 <= j < items.len() ==> #[trigger] keep(j) == other(j),
    ensures
        kept(items, keep) == kept(items, other),
    decreases items.len(),
{
    if items.len() > 0 {
        lemma_kept_alike(items.drop_last(), keep, other);
    }
}

proof fn lemma_picked_is_kept<T>(items: Seq<T>, places: Seq<nat>, keep: spec_fn(int) -> bool)
    requires
        forall|i: int| 0 <= i < places.len() ==> (#[trigger] places[i]) < items.len(),
        forall|i: int, j: int| 0 <= i < j < places.len() ==> places[i] < places[j],
        forall|j: nat| j < items.len() ==> (#[trigger] places.contains(j) <==> keep(j as int)),
    ensures
        picked(items, places) == kept(items, keep),
    decreases items.len(),
{
    if items.len() == 0 {
        assert(picked(items, places) =~= Seq::<T>::empty()) by {
            if places.len() > 0 {
                assert(places[0] < items.len());
            }
        }
    } else {
        let fewer = items.drop_last();
        let end = fewer.len();
        assert(places.contains(end) <==> keep(end as int));
        if keep(end as int) {
            let at = choose|i: int| 0 <= i < places.len() && places[i] == end;
            assert(at == places.len() - 1) by {
                if at < places.len() - 1 {
                    assert(places[at] < places[places.len() - 1]);
                }
            }
            let before = places.drop_last();
            assert forall|i: int| 0 <= i < before.len() implies (#[trigger] before[i])
                < fewer.len() by {
                assert(places[i] < places[at]);
            }
            assert forall|j: nat| j < fewer.len() implies (#[trigger] before.contains(j) <==> keep(
                j as int,
            )) by {
                assert(places.contains(j) <==> keep(j as int));
                if places.contains(j) {
                    let i = choose|i: int| 0 <= i < places.len() && places[i] == j;
                    assert(before[i] == j);
                }
                if before.contains(j) {
                    let i = choose|i: int| 0 <= i < before.len() && before[i] == j;
                    assert(places[i] == j);
                }
            }
            lemma_picked_is_kept(fewer, before, keep);
            assert(picked(items, places) =~= picked(fewer, before).push(items.last()));
        } else {
            assert forall|i: int| 0 <= i < places.len() implies (#[trigger] places[i])
                < fewer.len() by {
                assert(places.contains(places[i]));
            }
            lemma_picked_is_kept(fewer, places, keep);
            assert(picked(items, places) =~= picked(fewer, places));
        }
    }
}

proof fn lemma_first_marked(names: Seq<Seq<u8>>, from: nat, prefix: Seq<char>)
    requires
        from <= names.len(),
    ensures
        from <= first_marked(names, from, prefix) <= names.len(),
        first_marked(names, from, prefix) < names.len() ==> is_marked(
            names[first_marked(names, from, prefix) as int],
            prefix,
        ),
    decreases names.len() - from,
{
    if from < names.len() && !is_marked(names[from as int], prefix) {
        lemma_first_marked(names, from + 1, prefix);
    }
}

fn find_marked(names: &Vec<HostPath>, from: usize, prefix: &str) -> (at: usize)
    requires
        from <= names@.len(),
    ensures
        at == first_marked(byte_names(names@), from as nat, prefix@),
        at <= names@.len(),
{
    let mut at: usize = from;
    while at < names.len()
        invariant
            from <= at <= names.len(),
            first_marked(byte_names(names@), from as nat, prefix@) == first_marked(
                byte_names(names@),
                at as nat,
                prefix@,
            ),
        decreases names.len() - at,
    {
        let name = names[at].display();
        assert(byte_names(names@)[at as int] == names@[at as int]@);
        if text::starts_with(name.as_str(), prefix) {
            return at;
        }
        at += 1;
    }
    at
}

/// A sweep of configfs under way; see [`cleanup_all`].
#[derive(Debug)]
pub struct Sweep {
    gone_nexuses: Vec<usize>,
    gone_backstores: Vec<usize>,
    nexus_names: Vec<HostPath>,
    backstore_names: Vec<HostPath>,
    at: usize,
    links: Vec<HostPath>,
    link: usize,
    phase: SweepPhase,
    removal: RemovalPhase,
}

#[derive(Debug, Clone, Copy, PartialEq, Eq, Structural)]
pub enum SweepPhase {
    /// List the nexuses.
    Nexuses,
    /// List what is bound to a nexus's LUN.
    Links,
    LinkProbe,
    LinkRemove,
    Lun,
    Tpgt,
    Nexus,
    /// List the backstores.
    Backstores,
    BackstoreProbe,
    Backstore,
    Hba,
}

impl SweepPhase {
    /// Whether a sweep in this phase is at some nexus.
    pub open spec fn at_nexus(self) -> bool {
        self is Links || self is LinkProbe || self is LinkRemove || self is Lun || self is Tpgt
            || self is Nexus
    }

    /// Whether a sweep in this phase is at some backstore.
    pub open spec fn at_backstore(self) -> bool {
        self is BackstoreProbe || self is Backstore
    }

    /// Whether a sweep in this phase is through with the nexuses.
    pub open spec fn past_nexuses(self) -> bool {
        self is Backstores || self is Hba || self.at_backstore()
    }

    /// Whether a sweep in this phase is removing something.
    pub open spec fn removing(self) -> bool {
        self is LinkRemove || self is Lun || self is Tpgt || self is Nexus || self is Backstore
            || self is Hba
    }

    fn is_removing(self) -> (yes: bool)
        ensures
            yes == self.removing(),
    {
        match self {
            SweepPhase::LinkRemove => true,
            SweepPhase::Lun => true,
            SweepPhase::Tpgt => true,
            SweepPhase::Nexus => true,
            SweepPhase::Backstore => true,
            SweepPhase::Hba => true,
            _ => false,
        }
    }
}

/// Places in a list.
pub open spec fn places(indices: Seq<usize>) -> Seq<nat> {
    Seq::new(indices.len(), |i: int| indices[i] as nat)
}

/// Where a sweep stands.
pub struct SweepView {
    /// Which of the found nexuses were removed so far.
    pub gone_nexuses: Seq<nat>,
    /// Which of the found backstores were removed so far.
    pub gone_backstores: Seq<nat>,
    /// The nexuses that were found, sorted.
    pub nexus_names: Seq<Seq<u8>>,
    /// The backstores that were found, sorted.
    pub backstore_names: Seq<Seq<u8>>,
    /// Which of the found nexuses or backstores the sweep is at.
    pub at: nat,
    /// What is bound to the LUN of the nexus that the sweep is at.
    pub links: Seq<Seq<u8>>,
    /// Which of these the sweep is at.
    pub link: nat,
    pub phase: SweepPhase,
    /// How far the removal is that the sweep is at.
    pub removal: RemovalPhase,
}

impl View for Sweep {
    type V = SweepView;

    closed spec fn view(&self) -> SweepView {
        SweepView {
            gone_nexuses: places(self.gone_nexuses@),
            gone_backstores: places(self.gone_backstores@),
            nexus_names: byte_names(self.nexus_names@),
            backstore_names: byte_names(self.backstore_names@),
            at: self.at as nat,
            links: byte_names(self.links@),
            link: self.link as nat,
            phase: self.phase,
            removal: self.removal,
        }
    }
}

/// What a sweep asks of the host.
#[derive(Debug)]
pub enum SweepOp {
    /// The names in a directory, if it is one and can be listed.
    List(HostPath),
    IsSymlink(HostPath),
    IsDir(HostPath),
    Remove(RemovalOp),
}

#[derive(Debug)]
pub enum SweepReply {
    Names(Option<Vec<HostPath>>),
    IsSymlink(bool),
    IsDir(bool),
    Removal(RemovalReply),
}

/// Whether an answer is that the host removed what it was asked to.
pub open spec fn was_removed(reply: RemovalReply) -> bool {
    reply matches RemovalReply::Removed(removed) && removed is Ok
}

impl SweepView {
    /// Where a sweep starts.
    pub open spec fn start() -> SweepView {
        SweepView {
            gone_nexuses: Seq::empty(),
            gone_backstores: Seq::empty(),
            nexus_names: Seq::empty(),
            backstore_names: Seq::empty(),
            at: 0,
            links: Seq::empty(),
            link: 0,
            phase: SweepPhase::Nexuses,
            removal: RemovalPhase::Probe,
        }
    }

    /// The nexuses that the sweep reports, by name: those that were removed.
    pub open spec fn nexuses(self) -> Seq<Seq<char>> {
        shown_each(picked(self.nexus_names, self.gone_nexuses))
    }

    /// The backstores that the sweep reports, by name: those that were removed.
    pub open spec fn backstores(self) -> Seq<Seq<char>> {
        shown_each(picked(self.backstore_names, self.gone_backstores))
    }

    /// How many of the found nexuses the sweep is past.
    pub open spec fn nexuses_met(self) -> nat {
        if self.phase.at_nexus() {
            self.at
        } else if self.phase.past_nexuses() {
            self.nexus_names.len()
        } else {
            0
        }
    }

    /// How many of the found backstores the sweep is past.
    pub open spec fn backstores_met(self) -> nat {
        if self.phase.at_backstore() {
            self.at
        } else if self.phase is Hba {
            self.backstore_names.len()
        } else {
            0
        }
    }

    /// What every sweep keeps to: it is only ever at entries that carry the
    /// prefixes, and what it reports are, in order, marked entries that it is
    /// past.
    pub open spec fn well_formed(self) -> bool {
        &&& !self.phase.removing() ==> self.removal is Probe
        &&& self.phase is Nexuses ==> self.nexus_names.len() == 0
        &&& is_tally(self.nexus_names, self.gone_nexuses, self.nexuses_met(), NAA_PREFIX@)
        &&& is_tally(
            self.backstore_names,
            self.gone_backstores,
            self.backstores_met(),
            DEV_PREFIX@,
        )
        &&& self.phase.at_nexus() ==> {
            &&& self.at < self.nexus_names.len()
            &&& is_marked(self.nexus_names[self.at as int], NAA_PREFIX@)
        }
        &&& self.phase is LinkProbe || self.phase is LinkRemove ==> self.link < self.links.len()
        &&& self.phase.at_backstore() ==> {
            &&& self.at < self.backstore_names.len()
            &&& is_marked(self.backstore_names[self.at as int], DEV_PREFIX@)
        }
    }

    /// The name of the nexus that the sweep is at.
    pub open spec fn naa(self) -> Seq<char> {
        shown(self.nexus_names[self.at as int])
    }

    /// The directory of the nexus that the sweep is at.
    pub open spec fn nexus_dir(self) -> Seq<u8> {
        joined_bytes(encode_utf8(configfs::loopback_text()), self.nexus_names[self.at as int])
    }

    /// The symlink that the sweep is at.
    pub open spec fn link_path(self) -> Seq<u8> {
        joined_bytes(encode_utf8(configfs::lun0_text(self.naa())), self.links[self.link as int])
    }

    /// The directory of the backstore that the sweep is at.
    pub open spec fn backstore_dir(self) -> Seq<u8> {
        joined_bytes(encode_utf8(configfs::hba_text()), self.backstore_names[self.at as int])
    }

    /// Whether `op` is what the host is asked for.
    pub open spec fn asks(self, op: SweepOp) -> bool {
        match self.phase {
            SweepPhase::Nexuses => op matches SweepOp::List(path) && path@ == encode_utf8(
                configfs::loopback_text(),
            ),
            SweepPhase::Links => op matches SweepOp::List(path) && path@ == encode_utf8(
                configfs::lun0_text(self.naa()),
            ),
            SweepPhase::LinkProbe => op matches SweepOp::IsSymlink(path) && path@
                == self.link_path(),
            SweepPhase::LinkRemove => self.asks_removal(
                RemovalTarget::Symlink,
                self.link_path(),
                op,
            ),
            SweepPhase::Lun => self.asks_removal(
                RemovalTarget::Directory,
                encode_utf8(configfs::lun0_text(self.naa())),
                op,
            ),
            SweepPhase::Tpgt => self.asks_removal(
                RemovalTarget::Directory,
                encode_utf8(configfs::tpgt_text(self.naa())),
                op,
            ),
            SweepPhase::Nexus => self.asks_removal(RemovalTarget::Directory, self.nexus_dir(), op),
            SweepPhase::Backstores => op matches SweepOp::List(path) && path@ == encode_utf8(
                configfs::hba_text(),
            ),
            SweepPhase::BackstoreProbe => op matches SweepOp::IsDir(path) && path@
                == self.backstore_dir(),
            SweepPhase::Backstore => self.asks_removal(
                RemovalTarget::Directory,
                self.backstore_dir(),
                op,
            ),
            SweepPhase::Hba => self.asks_removal(
                RemovalTarget::Directory,
                encode_utf8(configfs::hba_text()),
                op,
            ),
        }
    }

    /// Whether `op` is what removing `at` asks for; see [`configfs::rm_symlink`]
    /// and [`configfs::rmdir`].
    pub open spec fn asks_removal(self, target: RemovalTarget, at: Seq<u8>, op: SweepOp) -> bool {
        op matches SweepOp::Remove(o) && removal_asks(target, at, self.removal, o)
    }

    /// The sweep at the first marked nexus from `from` on, or past them.
    pub open spec fn nexus_from(self, from: nat) -> SweepView {
        let at = first_marked(self.nexus_names, from, NAA_PREFIX@);
        SweepView {
            at,
            phase: if at < self.nexus_names.len() {
                SweepPhase::Links
            } else {
                SweepPhase::Backstores
            },
            ..self
        }
    }

    /// The sweep at symlink `link` of a nexus, or past them.
    pub open spec fn link_from(self, link: nat) -> SweepView {
        SweepView {
            link,
            phase: if link < self.links.len() {
                SweepPhase::LinkProbe
            } else {
                SweepPhase::Lun
            },
            ..self
        }
    }

    /// The sweep at the first marked backstore from `from` on, or past them.
    pub open spec fn backstore_from(self, from: nat) -> SweepView {
        let at = first_marked(self.backstore_names, from, DEV_PREFIX@);
        SweepView {
            at,
            phase: if at < self.backstore_names.len() {
                SweepPhase::BackstoreProbe
            } else {
                SweepPhase::Hba
            },
            ..self
        }
    }

    /// The sweep once an answer ends the removal that it is at. A nexus or a
    /// backstore is reported only where the host removed it.
    pub open spec fn after_removal(self, reply: RemovalReply) -> SweepView {
        let done = SweepView { removal: RemovalPhase::Probe, ..self };
        match self.phase {
            SweepPhase::LinkRemove => done.link_from(self.link + 1),
            SweepPhase::Lun => SweepView { phase: SweepPhase::Tpgt, ..done },
            SweepPhase::Tpgt => SweepView { phase: SweepPhase::Nexus, ..done },
            SweepPhase::Nexus => (SweepView {
                gone_nexuses: if was_removed(reply) {
                    self.gone_nexuses.push(self.at)
                } else {
                    self.gone_nexuses
                },
                ..done
            }).nexus_from(self.at + 1),
            SweepPhase::Backstore => (SweepView {
                gone_backstores: if was_removed(reply) {
                    self.gone_backstores.push(self.at)
                } else {
                    self.gone_backstores
                },
                ..done
            }).backstore_from(self.at + 1),
            _ => done,
        }
    }

    /// Whether an answer ends the removal that the sweep is at.
    pub open spec fn ends_removal(self, reply: SweepReply) -> bool {
        &&& self.phase.removing()
        &&& reply matches SweepReply::Removal(reply)
        &&& removal_after(self.removal, reply) is None
    }

    /// Whether an answer ends the sweep.
    pub open spec fn ends(self, reply: SweepReply) -> bool {
        self.phase is Hba && self.ends_removal(reply)
    }

    /// Whether an answer that does not end the sweep leads to `next`.
    pub open spec fn leads_to(self, reply: SweepReply, next: SweepView) -> bool {
        match (self.phase, reply) {
            (SweepPhase::Nexuses, SweepReply::Names(Some(found))) => {
                &&& path::in_byte_order(next.nexus_names)
                &&& next.nexus_names.to_multiset() == byte_names(found@).to_multiset()
                &&& next == (SweepView { nexus_names: next.nexus_names, ..self }).nexus_from(0)
            },
            (SweepPhase::Nexuses, SweepReply::Names(None)) => next == self.nexus_from(0),
            (SweepPhase::Links, SweepReply::Names(Some(found))) => next == (SweepView {
                links: byte_names(found@),
                ..self
            }).link_from(0),
            (SweepPhase::Links, SweepReply::Names(None)) => next == SweepView {
                phase: SweepPhase::Lun,
                ..self
            },
            (SweepPhase::LinkProbe, SweepReply::IsSymlink(yes)) => next == if yes {
                SweepView { phase: SweepPhase::LinkRemove, ..self }
            } else {
                self.link_from(self.link + 1)
            },
            (SweepPhase::Backstores, SweepReply::Names(Some(found))) => {
                &&& path::in_byte_order(next.backstore_names)
                &&& next.backstore_names.to_multiset() == byte_names(found@).to_multiset()
                &&& next == (SweepView {
                    backstore_names: next.backstore_names,
                    ..self
                }).backstore_from(0)
            },
            (SweepPhase::Backstores, SweepReply::Names(None)) => next == SweepView {
                phase: SweepPhase::Hba,
                ..self
            },
            (SweepPhase::BackstoreProbe, SweepReply::IsDir(yes)) => next == if yes {
                SweepView { phase: SweepPhase::Backstore, ..self }
            } else {
                self.backstore_from(self.at + 1)
            },
            (_, SweepReply::Removal(reply)) => next == if self.phase.removing() {
                match removal_after(self.removal, reply) {
                    Some(removal) => SweepView { removal, ..self },
                    None => self.after_removal(reply),
                }
            } else {
                self
            },
            _ => next == self,
        }
    }
}

/// Remove every device this crate could have created, including leftovers from
/// a previous crashed run.
///
/// Safe to call repeatedly, and safe to call when nothing is left.
pub fn cleanup_all() -> (sweep: Sweep)
    ensures
        sweep@ == SweepView::start(),
{
    let sweep = Sweep {
        gone_nexuses: Vec::new(),
        gone_backstores: Vec::new(),
        nexus_names: Vec::new(),
        backstore_names: Vec::new(),
        at: 0,
        links: Vec::new(),
        link: 0,
        phase: SweepPhase::Nexuses,
        removal: RemovalPhase::Probe,
    };
    assert(sweep@.gone_nexuses =~= Seq::<nat>::empty());
    assert(sweep@.gone_backstores =~= Seq::<nat>::empty());
    assert(sweep@.nexus_names =~= Seq::<Seq<u8>>::empty());
    assert(sweep@.backstore_names =~= Seq::<Seq<u8>>::empty());
    assert(sweep@.links =~= Seq::<Seq<u8>>::empty());
    sweep
}

impl Sweep {
    #[verifier::type_invariant]
    spec fn sound(self) -> bool {
        self@.well_formed()
    }

    /// What to ask the host.
    pub fn op(&self) -> (op: SweepOp)
        ensures
            self@.asks(op),
            self@.well_formed(),
    {
        proof {
            use_type_invariant(self);
        }
        match self.phase {
            SweepPhase::Nexuses => SweepOp::List(
                HostPath::new(configfs::loopback_path().as_str()),
            ),
            SweepPhase::Links => SweepOp::List(self.lun0()),
            SweepPhase::LinkProbe => SweepOp::IsSymlink(self.lun0().join(&self.links[self.link])),
            SweepPhase::LinkRemove => self.remove(
                RemovalTarget::Symlink,
                self.lun0().join(&self.links[self.link]),
            ),
            SweepPhase::Lun => self.remove(RemovalTarget::Directory, self.lun0()),
            SweepPhase::Tpgt => {
                let naa = self.nexus_names[self.at].display();
                let tpgt = HostPath::new(configfs::tpgt_path(naa.as_str()).as_str());
                self.remove(RemovalTarget::Directory, tpgt)
            },
            SweepPhase::Nexus => {
                let loopback = HostPath::new(configfs::loopback_path().as_str());
                self.remove(RemovalTarget::Directory, loopback.join(&self.nexus_names[self.at]))
            },
            SweepPhase::Backstores => SweepOp::List(HostPath::new(configfs::hba_path().as_str())),
            SweepPhase::BackstoreProbe => {
                let hba = HostPath::new(configfs::hba_path().as_str());
                SweepOp::IsDir(hba.join(&self.backstore_names[self.at]))
            },
            SweepPhase::Backstore => {
                let hba = HostPath::new(configfs::hba_path().as_str());
                self.remove(RemovalTarget::Directory, hba.join(&self.backstore_names[self.at]))
            },
            SweepPhase::Hba => self.remove(
                RemovalTarget::Directory,
                HostPath::new(configfs::hba_path().as_str()),
            ),
        }
    }

    fn remove(&self, target: RemovalTarget, path: HostPath) -> (op: SweepOp)
        ensures
            self@.asks_removal(target, path@, op),
    {
        let removal = Removal { path, target, phase: self.removal };
        SweepOp::Remove(removal.op())
    }

    /// LUN 0 of the nexus that the sweep is at.
    fn lun0(&self) -> (path: HostPath)
        requires
            self@.at < self@.nexus_names.len(),
        ensures
            path@ == encode_utf8(configfs::lun0_text(self@.naa())),
    {
        let naa = self.nexus_names[self.at].display();
        HostPath::new(configfs::lun0_path(naa.as_str()).as_str())
    }
}

fn display_picked(names: &Vec<HostPath>, indices: &Vec<usize>) -> (found: Vec<String>)
    requires
        forall|i: int| 0 <= i < indices@.len() ==> (#[trigger] places(indices@)[i]) < names@.len(),
    ensures
        texts(found@) == shown_each(picked(byte_names(names@), places(indices@))),
{
    let ghost all = shown_each(picked(byte_names(names@), places(indices@)));
    let mut found: Vec<String> = Vec::new();
    let mut i: usize = 0;
    while i < indices.len()
        invariant
            i <= indices.len(),
            all == shown_each(picked(byte_names(names@), places(indices@))),
            forall|j: int|
                0 <= j < indices@.len() ==> (#[trigger] places(indices@)[j]) < names@.len(),
            texts(found@) == all.take(i as int),
        decreases indices.len() - i,
    {
        let ghost before = texts(found@);
        assert(places(indices@)[i as int] < names@.len());
        found.push(names[indices[i]].display());
        assert(texts(found@) =~= before.push(all[i as int]));
        assert(all.take(i as int).push(all[i as int]) =~= all.take(i + 1));
        i += 1;
    }
    assert(all.take(i as int) =~= all);
    found
}

proof fn lemma_nexus_from(sweep: SweepView, from: nat)
    requires
        sweep.removal is Probe,
        is_tally(sweep.nexus_names, sweep.gone_nexuses, from, NAA_PREFIX@),
        sweep.gone_backstores.len() == 0,
    ensures
        sweep.nexus_from(from).well_formed(),
{
    lemma_first_marked(sweep.nexus_names, from, NAA_PREFIX@);
}

proof fn lemma_backstore_from(sweep: SweepView, from: nat)
    requires
        sweep.removal is Probe,
        is_tally(
            sweep.nexus_names,
            sweep.gone_nexuses,
            sweep.nexus_names.len(),
            NAA_PREFIX@,
        ),
        is_tally(sweep.backstore_names, sweep.gone_backstores, from, DEV_PREFIX@),
    ensures
        sweep.backstore_from(from).well_formed(),
{
    lemma_first_marked(sweep.backstore_names, from, DEV_PREFIX@);
}

proof fn lemma_tally_empty(places: Seq<nat>, names: Seq<Seq<u8>>, prefix: Seq<char>)
    requires
        is_tally(names, places, 0, prefix),
    ensures
        places.len() == 0,
{
    if places.len() > 0 {
        assert(places[0] < 0);
    }
}

proof fn lemma_sweep_goes_on(sweep: SweepView, reply: SweepReply, next: SweepView)
    requires
        sweep.well_formed(),
        !sweep.ends(reply),
        sweep.leads_to(reply, next),
    ensures
        next.well_formed(),
{
    if sweep.backstores_met() == 0 {
        lemma_tally_empty(sweep.gone_backstores, sweep.backstore_names, DEV_PREFIX@);
    }
    match (sweep.phase, reply) {
        (SweepPhase::Nexuses, SweepReply::Names(found)) => {
            lemma_tally_empty(sweep.gone_nexuses, sweep.nexus_names, NAA_PREFIX@);
            let listed = SweepView { nexus_names: next.nexus_names, ..sweep };
            lemma_nexus_from(listed, 0);
        },
        (SweepPhase::Nexus, SweepReply::Removal(answer)) => {
            if sweep.ends_removal(reply) {
                let done = SweepView {
                    gone_nexuses: if was_removed(answer) {
                        sweep.gone_nexuses.push(sweep.at)
                    } else {
                        sweep.gone_nexuses
                    },
                    removal: RemovalPhase::Probe,
                    ..sweep
                };
                lemma_nexus_from(done, sweep.at + 1);
            }
        },
        (SweepPhase::Backstores, SweepReply::Names(found)) => {
            let listed = SweepView { backstore_names: next.backstore_names, ..sweep };
            if found is Some {
                lemma_backstore_from(listed, 0);
            }
        },
        (SweepPhase::BackstoreProbe, SweepReply::IsDir(yes)) => {
            if !yes {
                lemma_backstore_from(sweep, sweep.at + 1);
            }
        },
        (SweepPhase::Backstore, SweepReply::Removal(answer)) => {
            if sweep.ends_removal(reply) {
                let done = SweepView {
                    gone_backstores: if was_removed(answer) {
                        sweep.gone_backstores.push(sweep.at)
                    } else {
                        sweep.gone_backstores
                    },
                    removal: RemovalPhase::Probe,
                    ..sweep
                };
                lemma_backstore_from(done, sweep.at + 1);
            }
        },
        _ => {},
    }
}

impl Sweep {
    /// Take the host's answer.
    pub fn resume(self, reply: SweepReply) -> (progress: Progress<Sweep, Swept>)
        ensures
            match progress {
                Progress::Running(next) => {
                    &&& !self@.ends(reply)
                    &&& self@.leads_to(reply, next@)
                    &&& next@.well_formed()
                },
                Progress::Finished(swept) => {
                    &&& self@.ends(reply)
                    &&& texts(swept.nexuses@) == self@.nexuses()
                    &&& texts(swept.backstores@) == self@.backstores()
                    &&& swept.unmounted@.len() == 0
                },
            },
            self@.well_formed(),
    {
        proof {
            use_type_invariant(&self);
        }
        let ghost before = self@;
        let mut gone_nexuses = self.gone_nexuses;
        let mut gone_backstores = self.gone_backstores;
        let mut nexus_names = self.nexus_names;
        let mut backstore_names = self.backstore_names;
        let mut links = self.links;
        let mut at: usize = self.at;
        let mut link: usize = self.link;
        let mut phase = self.phase;
        let mut removal = self.removal;
        let mut done = false;
        if let SweepReply::Removal(reply) = &reply {
            if phase.is_removing() {
                match configfs::next_removal_phase(removal, reply) {
                    Some(next) => {
                        removal = next;
                    },
                    None => {
                        removal = RemovalPhase::Probe;
                        done = true;
                    },
                }
            }
        }
        match (self.phase, reply) {
            (SweepPhase::Nexuses, SweepReply::Names(found)) => {
                if let Some(found) = found {
                    nexus_names = path::sort_names(found);
                }
                at = find_marked(&nexus_names, 0, NAA_PREFIX);
                phase = if at < nexus_names.len() {
                    SweepPhase::Links
                } else {
                    SweepPhase::Backstores
                };
            },
            (SweepPhase::Links, SweepReply::Names(found)) => {
                phase = SweepPhase::Lun;
                if let Some(found) = found {
                    links = found;
                    link = 0;
                    if links.len() > 0 {
                        phase = SweepPhase::LinkProbe;
                    }
                }
            },
            (SweepPhase::LinkProbe, SweepReply::IsSymlink(true)) => {
                phase = SweepPhase::LinkRemove;
            },
            (SweepPhase::LinkProbe, SweepReply::IsSymlink(false)) => {
                assert(link < links.len());
                link += 1;
                phase = if link < links.len() {
                    SweepPhase::LinkProbe
                } else {
                    SweepPhase::Lun
                };
            },
            (SweepPhase::LinkRemove, SweepReply::Removal(_)) => if done {
                assert(link < links.len());
                link += 1;
                phase = if link < links.len() {
                    SweepPhase::LinkProbe
                } else {
                    SweepPhase::Lun
                };
            },
            (SweepPhase::Lun, SweepReply::Removal(_)) => if done {
                phase = SweepPhase::Tpgt;
            },
            (SweepPhase::Tpgt, SweepReply::Removal(_)) => if done {
                phase = SweepPhase::Nexus;
            },
            (SweepPhase::Nexus, SweepReply::Removal(answer)) => if done {
                if let RemovalReply::Removed(Ok(())) = answer {
                    gone_nexuses.push(at);
                }
                assert(at < nexus_names.len());
                at = find_marked(&nexus_names, at + 1, NAA_PREFIX);
                phase = if at < nexus_names.len() {
                    SweepPhase::Links
                } else {
                    SweepPhase::Backstores
                };
            },
            (SweepPhase::Backstores, SweepReply::Names(found)) => {
                phase = SweepPhase::Hba;
                if let Some(found) = found {
                    backstore_names = path::sort_names(found);
                    at = find_marked(&backstore_names, 0, DEV_PREFIX);
                    if at < backstore_names.len() {
                        phase = SweepPhase::BackstoreProbe;
                    }
                }
            },
            (SweepPhase::BackstoreProbe, SweepReply::IsDir(true)) => {
                phase = SweepPhase::Backstore;
            },
            (SweepPhase::BackstoreProbe, SweepReply::IsDir(false)) => {
                assert(at < backstore_names.len());
                at = find_marked(&backstore_names, at + 1, DEV_PREFIX);
                phase = if at < backstore_names.len() {
                    SweepPhase::BackstoreProbe
                } else {
                    SweepPhase::Hba
                };
            },
            (SweepPhase::Backstore, SweepReply::Removal(answer)) => if done {
                if let RemovalReply::Removed(Ok(())) = answer {
                    gone_backstores.push(at);
                }
                assert(at < backstore_names.len());
                at = find_marked(&backstore_names, at + 1, DEV_PREFIX);
                phase = if at < backstore_names.len() {
                    SweepPhase::BackstoreProbe
                } else {
                    SweepPhase::Hba
                };
            },
            (SweepPhase::Hba, SweepReply::Removal(_)) => if done {
                return Progress::Finished(
                    Swept {
                        nexuses: display_picked(&nexus_names, &gone_nexuses),
                        backstores: display_picked(&backstore_names, &gone_backstores),
                        unmounted: Vec::new(),
                    },
                );
            },
            _ => {},
        }
        let ghost after = SweepView {
            gone_nexuses: places(gone_nexuses@),
            gone_backstores: places(gone_backstores@),
            nexus_names: byte_names(nexus_names@),
            backstore_names: byte_names(backstore_names@),
            at: at as nat,
            links: byte_names(links@),
            link: link as nat,
            phase,
            removal,
        };
        proof {
            assert(before.leads_to(reply, after)) by {
                match (before.phase, reply) {
                    (SweepPhase::Nexus, SweepReply::Removal(answer)) => if done {
                        assert(was_removed(answer) ==> after.gone_nexuses
                            =~= before.gone_nexuses.push(before.at));
                    },
                    (SweepPhase::Backstore, SweepReply::Removal(answer)) => if done {
                        assert(was_removed(answer) ==> after.gone_backstores
                            =~= before.gone_backstores.push(before.at));
                    },
                    _ => {},
                }
            }
            lemma_sweep_goes_on(before, reply, after);
        }
        Progress::Running(
            Sweep {
                gone_nexuses,
                gone_backstores,
                nexus_names,
                backstore_names,
                at,
                links,
                link,
                phase,
                removal,
            },
        )
    }
}

/// Whether a sweep may remove what stands at `path`: a symlink or a directory of
/// a nexus that carries the prefix, the directory of a backstore that carries
/// the prefix, or the HBA itself.
pub open spec fn is_ours(path: Seq<u8>) -> bool {
    ||| path == encode_utf8(configfs::hba_text())
    ||| exists|name: Seq<u8>|
        is_marked(name, DEV_PREFIX@) && path == #[trigger] joined_bytes(
            encode_utf8(configfs::hba_text()),
            name,
        )
    ||| exists|name: Seq<u8>| #[trigger]
        is_marked(name, NAA_PREFIX@) && {
            ||| path == joined_bytes(encode_utf8(configfs::loopback_text()), name)
            ||| path == encode_utf8(configfs::tpgt_text(shown(name)))
            ||| path == encode_utf8(configfs::lun0_text(shown(name)))
            ||| exists|link: Seq<u8>|
                path == #[trigger] joined_bytes(
                    encode_utf8(configfs::lun0_text(shown(name))),
                    link,
                )
        }
}

/// A sweep removes nothing but what carries the prefixes that every device of
/// this crate carries.
pub proof fn law_a_sweep_removes_only_marked_entries(sweep: SweepView, op: SweepOp)
    requires
        sweep.well_formed(),
        sweep.asks(op),
    ensures
        op matches SweepOp::Remove(RemovalOp::RemoveDir(path)) ==> is_ours(path@),
        op matches SweepOp::Remove(RemovalOp::RemoveFile(path)) ==> is_ours(path@),
{
    if sweep.phase.at_nexus() {
        let name = sweep.nexus_names[sweep.at as int];
        assert(is_marked(name, NAA_PREFIX@));
        if sweep.phase is LinkRemove {
            let link = sweep.links[sweep.link as int];
            assert(sweep.link_path() == joined_bytes(
                encode_utf8(configfs::lun0_text(shown(name))),
                link,
            ));
        }
    }
    if sweep.phase.at_backstore() {
        let name = sweep.backstore_names[sweep.at as int];
        assert(is_marked(name, DEV_PREFIX@) && sweep.backstore_dir() == joined_bytes(
            encode_utf8(configfs::hba_text()),
            name,
        ));
    }
}

/// Whether a sweep went through `states`, one answer after the other.
pub open spec fn is_sweep(states: Seq<SweepView>, replies: Seq<SweepReply>) -> bool {
    &&& states.len() == replies.len() + 1
    &&& states[0] == SweepView::start()
    &&& forall|i: int| 0 <= i < replies.len() ==> #[trigger] sweep_went_on(states, replies, i)
}

/// Whether the answer at `i` did not end the sweep, but led on.
pub open spec fn sweep_went_on(
    states: Seq<SweepView>,
    replies: Seq<SweepReply>,
    i: int,
) -> bool {
    !states[i].ends(replies[i]) && states[i].leads_to(replies[i], states[i + 1])
}

/// Whether the answer at `i` listed the nexuses, or the backstores, as `names`.
pub open spec fn were_listed(
    states: Seq<SweepView>,
    replies: Seq<SweepReply>,
    phase: SweepPhase,
    i: int,
    names: Seq<Seq<u8>>,
) -> bool {
    &&& 0 <= i < replies.len()
    &&& states[i].phase == phase
    &&& match replies[i] {
        SweepReply::Names(Some(found)) => {
            path::in_byte_order(names) && names.to_multiset() == byte_names(found@).to_multiset()
        },
        SweepReply::Names(None) => names.len() == 0,
        _ => false,
    }
}

/// Whether the answer at `i` ended the removal of the nexus, or the backstore, at
/// place `j`.
pub open spec fn removal_was_answered(
    states: Seq<SweepView>,
    replies: Seq<SweepReply>,
    phase: SweepPhase,
    i: int,
    j: int,
) -> bool {
    &&& 0 <= i < replies.len()
    &&& states[i].phase == phase
    &&& states[i].at == j
    &&& states[i].ends_removal(replies[i])
}

/// Whether the removal of the nexus, or the backstore, at place `j` was gone
/// through by state `k`.
pub open spec fn was_asked_to_go(
    states: Seq<SweepView>,
    replies: Seq<SweepReply>,
    phase: SweepPhase,
    k: int,
    j: int,
) -> bool {
    exists|i: int| i < k && #[trigger] removal_was_answered(states, replies, phase, i, j)
}

/// Whether by state `k` the host had answered that it removed the nexus, or the
/// backstore, at place `j`.
pub open spec fn was_gone(
    states: Seq<SweepView>,
    replies: Seq<SweepReply>,
    phase: SweepPhase,
    k: int,
    j: int,
) -> bool {
    exists|i: int|
        i < k && (replies[i] matches SweepReply::Removal(answer) && was_removed(answer))
            && #[trigger] removal_was_answered(states, replies, phase, i, j)
}

/// Whether the answer at `i` was whether the backstore at place `j` is a
/// directory.
pub open spec fn was_looked_at(
    states: Seq<SweepView>,
    replies: Seq<SweepReply>,
    i: int,
    j: int,
) -> bool {
    &&& 0 <= i < replies.len()
    &&& states[i].phase is BackstoreProbe
    &&& states[i].at == j
    &&& replies[i] is IsDir
}

/// Whether the backstore at place `j` was looked at by state `k`, and its removal
/// gone through if it is a directory.
pub open spec fn was_dealt_with(
    states: Seq<SweepView>,
    replies: Seq<SweepReply>,
    k: int,
    j: int,
) -> bool {
    exists|i: int|
        i < k && (replies[i] == SweepReply::IsDir(true) ==> was_asked_to_go(
            states,
            replies,
            SweepPhase::Backstore,
            k,
            j,
        )) && #[trigger] was_looked_at(states, replies, i, j)
}

/// Whether the backstore at place `j` was seen to be a directory by state `k`.
pub open spec fn was_seen(
    states: Seq<SweepView>,
    replies: Seq<SweepReply>,
    k: int,
    j: int,
) -> bool {
    exists|i: int|
        i < k && replies[i] == SweepReply::IsDir(true) && #[trigger] was_looked_at(
            states,
            replies,
            i,
            j,
        )
}

proof fn lemma_asked_to_go_stays(
    states: Seq<SweepView>,
    replies: Seq<SweepReply>,
    phase: SweepPhase,
    k: int,
    j: int,
)
    ensures
        was_asked_to_go(states, replies, phase, k, j) ==> was_asked_to_go(
            states,
            replies,
            phase,
            k + 1,
            j,
        ),
        was_gone(states, replies, phase, k, j) ==> was_gone(states, replies, phase, k + 1, j),
{
    if was_asked_to_go(states, replies, phase, k, j) {
        let i = choose|i: int|
            i < k && #[trigger] removal_was_answered(states, replies, phase, i, j);
        assert(removal_was_answered(states, replies, phase, i, j));
    }
    if was_gone(states, replies, phase, k, j) {
        let i = choose|i: int|
            i < k && (replies[i] matches SweepReply::Removal(answer) && was_removed(answer))
                && #[trigger] removal_was_answered(states, replies, phase, i, j);
        assert(removal_was_answered(states, replies, phase, i, j));
    }
}

proof fn lemma_dealt_with_stays(
    states: Seq<SweepView>,
    replies: Seq<SweepReply>,
    k: int,
    j: int,
)
    requires
        was_dealt_with(states, replies, k, j),
    ensures
        was_dealt_with(states, replies, k + 1, j),
{
    let i = choose|i: int|
        i < k && (replies[i] == SweepReply::IsDir(true) ==> was_asked_to_go(
            states,
            replies,
            SweepPhase::Backstore,
            k,
            j,
        )) && #[trigger] was_looked_at(states, replies, i, j);
    lemma_asked_to_go_stays(states, replies, SweepPhase::Backstore, k, j);
    assert(was_looked_at(states, replies, i, j));
}

proof fn lemma_unmarked_between(names: Seq<Seq<u8>>, from: nat, prefix: Seq<char>, j: int)
    requires
        from <= j < first_marked(names, from, prefix),
        from <= names.len(),
    ensures
        j < names.len(),
        !is_marked(names[j], prefix),
    decreases names.len() - from,
{
    if from < names.len() && from < j {
        lemma_unmarked_between(names, from + 1, prefix, j);
    }
}

/// Whether the places that count as gone are those of which the host has answered
/// that it removed what stands there.
spec fn is_counted(
    states: Seq<SweepView>,
    replies: Seq<SweepReply>,
    phase: SweepPhase,
    gone: Seq<nat>,
    k: int,
) -> bool {
    forall|j: nat| #[trigger]
        gone.contains(j) <==> was_gone(states, replies, phase, k, j as int)
}

proof fn lemma_count_goes_on(
    states: Seq<SweepView>,
    replies: Seq<SweepReply>,
    phase: SweepPhase,
    before: Seq<nat>,
    after: Seq<nat>,
    k: int,
)
    requires
        0 <= k < replies.len(),
        is_counted(states, replies, phase, before, k),
        after == (if states[k].phase == phase && states[k].ends_removal(replies[k]) && was_removed(
            replies[k]->Removal_0,
        ) {
            before.push(states[k].at)
        } else {
            before
        }),
    ensures
        is_counted(states, replies, phase, after, k + 1),
{
    assert forall|j: nat| #[trigger]
        after.contains(j) <==> was_gone(states, replies, phase, k + 1, j as int) by {
        assert(before.contains(j) <==> was_gone(states, replies, phase, k, j as int));
        lemma_asked_to_go_stays(states, replies, phase, k, j as int);
        let grew = states[k].phase == phase && states[k].ends_removal(replies[k]) && was_removed(
            replies[k]->Removal_0,
        );
        if after.contains(j) {
            let i = choose|i: int| 0 <= i < after.len() && after[i] == j;
            if i < before.len() {
                assert(before[i] == j);
            } else {
                assert(removal_was_answered(states, replies, phase, k, j as int));
            }
        }
        if before.contains(j) {
            let i = choose|i: int| 0 <= i < before.len() && before[i] == j;
            assert(after[i] == j);
        }
        if was_gone(states, replies, phase, k + 1, j as int) {
            let i = choose|i: int|
                i < k + 1 && (replies[i] matches SweepReply::Removal(answer) && was_removed(
                    answer,
                )) && #[trigger] removal_was_answered(states, replies, phase, i, j as int);
            if i < k {
                assert(was_gone(states, replies, phase, k, j as int));
            } else {
                assert(grew);
                assert(after[before.len() as int] == j);
            }
        }
    }
}

proof fn lemma_sweep_evidence(states: Seq<SweepView>, replies: Seq<SweepReply>, k: int)
    requires
        is_sweep(states, replies),
        0 <= k < states.len(),
    ensures
        states[k].well_formed(),
        is_counted(states, replies, SweepPhase::Nexus, states[k].gone_nexuses, k),
        is_counted(states, replies, SweepPhase::Backstore, states[k].gone_backstores, k),
        !(states[k].phase is Nexuses) ==> exists|i: int|
            were_listed(states, replies, SweepPhase::Nexuses, i, states[k].nexus_names),
        forall|j: int|
            0 <= j < states[k].nexuses_met() && is_marked(
                #[trigger] states[k].nexus_names[j],
                NAA_PREFIX@,
            ) ==> was_asked_to_go(states, replies, SweepPhase::Nexus, k, j),
    decreases k,
{
    if k > 0 {
        let prior = k - 1;
        lemma_sweep_evidence(states, replies, prior);
        assert(sweep_went_on(states, replies, prior));
        let before = states[prior];
        let after = states[k];
        let names = after.nexus_names;
        lemma_sweep_goes_on(before, replies[prior], after);
        lemma_count_goes_on(
            states,
            replies,
            SweepPhase::Nexus,
            before.gone_nexuses,
            after.gone_nexuses,
            prior,
        );
        lemma_count_goes_on(
            states,
            replies,
            SweepPhase::Backstore,
            before.gone_backstores,
            after.gone_backstores,
            prior,
        );
        if !(after.phase is Nexuses) {
            if before.phase is Nexuses {
                assert(were_listed(states, replies, SweepPhase::Nexuses, prior, names));
            } else {
                let i = choose|i: int|
                    were_listed(states, replies, SweepPhase::Nexuses, i, before.nexus_names);
                assert(were_listed(states, replies, SweepPhase::Nexuses, i, names));
            }
        }
        assert forall|j: int|
            0 <= j < after.nexuses_met() && is_marked(
                #[trigger] after.nexus_names[j],
                NAA_PREFIX@,
            ) implies was_asked_to_go(states, replies, SweepPhase::Nexus, k, j) by {
            lemma_asked_to_go_stays(states, replies, SweepPhase::Nexus, prior, j);
            if before.phase is Nexuses {
                lemma_unmarked_between(names, 0, NAA_PREFIX@, j);
            } else if j < before.nexuses_met() {
                assert(is_marked(before.nexus_names[j], NAA_PREFIX@));
            } else if j == before.at {
                assert(removal_was_answered(states, replies, SweepPhase::Nexus, prior, j));
            } else {
                lemma_unmarked_between(names, before.at + 1, NAA_PREFIX@, j);
            }
        }
    } else {
        assert forall|j: nat, phase: SweepPhase| !#[trigger] was_gone(
            states,
            replies,
            phase,
            0,
            j as int,
        ) by {}
    }
}

/// A sweep leaves out no marked nexus: the removal of each one that the host
/// listed is gone through, and what is reported are, in order, exactly those that
/// the host answered to have removed.
pub proof fn law_a_sweep_reports_the_nexuses_that_were_removed(
    states: Seq<SweepView>,
    replies: Seq<SweepReply>,
    last: SweepReply,
)
    requires
        is_sweep(states, replies),
        states.last().ends(last),
    ensures
        exists|i: int, names: Seq<Seq<u8>>| #[trigger]
            were_listed(states, replies, SweepPhase::Nexuses, i, names) && {
                &&& forall|j: int|
                    0 <= j < names.len() && is_marked(#[trigger] names[j], NAA_PREFIX@)
                        ==> was_asked_to_go(
                        states,
                        replies,
                        SweepPhase::Nexus,
                        replies.len() as int,
                        j,
                    )
                &&& states.last().nexuses() == shown_each(
                    kept(
                        names,
                        |j: int|
                            is_marked(names[j], NAA_PREFIX@) && was_gone(
                                states,
                                replies,
                                SweepPhase::Nexus,
                                replies.len() as int,
                                j,
                            ),
                    ),
                )
            },
{
    let end = states.len() - 1;
    lemma_sweep_evidence(states, replies, end);
    let names = states[end].nexus_names;
    let gone = states[end].gone_nexuses;
    let i = choose|i: int| were_listed(states, replies, SweepPhase::Nexuses, i, names);
    assert(were_listed(states, replies, SweepPhase::Nexuses, i, names));
    let keep = |j: int|
        is_marked(names[j], NAA_PREFIX@) && was_gone(
            states,
            replies,
            SweepPhase::Nexus,
            replies.len() as int,
            j,
        );
    assert forall|j: nat| j < names.len() implies (#[trigger] gone.contains(j) <==> keep(
        j as int,
    )) by {
        if gone.contains(j) {
            let at = choose|at: int| 0 <= at < gone.len() && gone[at] == j;
            assert(is_marked(names[gone[at] as int], NAA_PREFIX@));
        }
    }
    lemma_picked_is_kept(names, gone, keep);
}

proof fn lemma_backstore_evidence(states: Seq<SweepView>, replies: Seq<SweepReply>, k: int)
    requires
        is_sweep(states, replies),
        0 <= k < states.len(),
    ensures
        if states[k].phase is Hba || states[k].phase.at_backstore() {
            exists|i: int|
                were_listed(
                    states,
                    replies,
                    SweepPhase::Backstores,
                    i,
                    states[k].backstore_names,
                )
        } else {
            states[k].backstore_names.len() == 0
        },
        states[k].phase is Backstore ==> was_seen(states, replies, k, states[k].at as int),
        forall|j: int|
            0 <= j < states[k].backstores_met() && is_marked(
                #[trigger] states[k].backstore_names[j],
                DEV_PREFIX@,
            ) ==> was_dealt_with(states, replies, k, j),
    decreases k,
{
    if k > 0 {
        let prior = k - 1;
        lemma_backstore_evidence(states, replies, prior);
        lemma_sweep_evidence(states, replies, prior);
        assert(sweep_went_on(states, replies, prior));
        let before = states[prior];
        let after = states[k];
        let names = after.backstore_names;
        if before.phase is Backstores && !(after.phase is Backstores) {
            assert(were_listed(states, replies, SweepPhase::Backstores, prior, names));
        } else if before.phase is Hba || before.phase.at_backstore() {
            let i = choose|i: int|
                were_listed(states, replies, SweepPhase::Backstores, i, before.backstore_names);
            assert(were_listed(states, replies, SweepPhase::Backstores, i, names));
        }
        let current = before.at as int;
        if before.phase is BackstoreProbe && replies[prior] is IsDir {
            assert(was_looked_at(states, replies, prior, current));
        }
        if before.phase is Backstore {
            let i = choose|i: int|
                i < prior && replies[i] == SweepReply::IsDir(true) && #[trigger] was_looked_at(
                    states,
                    replies,
                    i,
                    current,
                );
            assert(was_looked_at(states, replies, i, current));
            if before.ends_removal(replies[prior]) {
                assert(removal_was_answered(
                    states,
                    replies,
                    SweepPhase::Backstore,
                    prior,
                    current,
                ));
                assert(was_dealt_with(states, replies, k, current));
            } else {
                assert(after.at == before.at && after.phase is Backstore);
                assert(was_seen(states, replies, k, current));
            }
        }
        assert forall|j: int|
            0 <= j < after.backstores_met() && is_marked(
                #[trigger] after.backstore_names[j],
                DEV_PREFIX@,
            ) implies was_dealt_with(states, replies, k, j) by {
            if before.phase is Backstores {
                if names.len() > 0 {
                    lemma_unmarked_between(names, 0, DEV_PREFIX@, j);
                }
            } else {
                assert(names == before.backstore_names);
                if j < before.backstores_met() {
                    assert(is_marked(before.backstore_names[j], DEV_PREFIX@));
                    lemma_dealt_with_stays(states, replies, prior, j);
                } else if j > before.at {
                    lemma_unmarked_between(names, before.at + 1, DEV_PREFIX@, j);
                }
            }
        }
    }
}

/// A sweep leaves out no marked backstore either: each one that the host listed is
/// looked at, the removal of each that is a directory is gone through, and what is
/// reported are, in order, exactly those that the host answered to have removed.
pub proof fn law_a_sweep_reports_the_backstores_that_were_removed(
    states: Seq<SweepView>,
    replies: Seq<SweepReply>,
    last: SweepReply,
)
    requires
        is_sweep(states, replies),
        states.last().ends(last),
    ensures
        exists|i: int, names: Seq<Seq<u8>>| #[trigger]
            were_listed(states, replies, SweepPhase::Backstores, i, names) && {
                &&& forall|j: int|
                    0 <= j < names.len() && is_marked(#[trigger] names[j], DEV_PREFIX@)
                        ==> was_dealt_with(states, replies, replies.len() as int, j)
                &&& states.last().backstores() == shown_each(
                    kept(
                        names,
                        |j: int|
                            is_marked(names[j], DEV_PREFIX@) && was_gone(
                                states,
                                replies,
                                SweepPhase::Backstore,
                                replies.len() as int,
                                j,
                            ),
                    ),
                )
            },
{
    let end = states.len() - 1;
    lemma_sweep_evidence(states, replies, end);
    lemma_backstore_evidence(states, replies, end);
    let names = states[end].backstore_names;
    let gone = states[end].gone_backstores;
    let i = choose|i: int| were_listed(states, replies, SweepPhase::Backstores, i, names);
    assert(were_listed(states, replies, SweepPhase::Backstores, i, names));
    let keep = |j: int|
        is_marked(names[j], DEV_PREFIX@) && was_gone(
            states,
            replies,
            SweepPhase::Backstore,
            replies.len() as int,
            j,
        );
    assert forall|j: nat| j < names.len() implies (#[trigger] gone.contains(j) <==> keep(
        j as int,
    )) by {
        if gone.contains(j) {
            let at = choose|at: int| 0 <= at < gone.len() && gone[at] == j;
            assert(is_marked(names[gone[at] as int], DEV_PREFIX@));
        }
    }
    lemma_picked_is_kept(names, gone, keep);
}

/// Whether any nexus, or any backstore, was answered to have been removed.
pub open spec fn was_any_gone(
    states: Seq<SweepView>,
    replies: Seq<SweepReply>,
    phase: SweepPhase,
) -> bool {
    exists|j: int| #[trigger] was_gone(states, replies, phase, replies.len() as int, j)
}

/// A sweep in which the host removed no nexus and no backstore reports nothing,
/// whatever it listed: an entry that stays busy is not reported, however often it
/// is swept.
pub proof fn law_a_sweep_that_removed_nothing_reports_nothing(
    states: Seq<SweepView>,
    replies: Seq<SweepReply>,
    last: SweepReply,
)
    requires
        is_sweep(states, replies),
        states.last().ends(last),
        !was_any_gone(states, replies, SweepPhase::Nexus),
        !was_any_gone(states, replies, SweepPhase::Backstore),
    ensures
        states.last().nexuses().len() == 0,
        states.last().backstores().len() == 0,
{
    let end = states.len() - 1;
    lemma_sweep_evidence(states, replies, end);
    let nexuses = states[end].gone_nexuses;
    let backstores = states[end].gone_backstores;
    if nexuses.len() > 0 {
        assert(nexuses.contains(nexuses[0]));
        assert(was_gone(states, replies, SweepPhase::Nexus, end, nexuses[0] as int));
    }
    if backstores.len() > 0 {
        assert(backstores.contains(backstores[0]));
        assert(was_gone(states, replies, SweepPhase::Backstore, end, backstores[0] as int));
    }
}

/// What stands in configfs, as far as a sweep sees it.
pub struct Tree {
    /// The nexuses, by name.
    pub nexuses: Set<Seq<u8>>,
    /// The nexuses that the host refuses to remove.
    pub busy_nexuses: Set<Seq<u8>>,
    /// The entries of the HBA, by name.
    pub backstores: Set<Seq<u8>>,
    /// The names that are those of directories.
    pub directories: Set<Seq<u8>>,
    /// The backstores that the host refuses to remove.
    pub busy_backstores: Set<Seq<u8>>,
}

/// Whether an answer lists exactly `entries`.
pub open spec fn lists_exactly(found: Option<Vec<HostPath>>, entries: Set<Seq<u8>>) -> bool {
    forall|name: Seq<u8>| #[trigger]
        entries.contains(name) <==> (found matches Some(f) && byte_names(f@).contains(name))
}

/// Whether `reply` is what a host with this configfs answers a sweep. An entry is
/// there until the sweep itself removes it.
pub open spec fn is_true_of(tree: Tree, sweep: SweepView, reply: SweepReply) -> bool {
    let nexus = sweep.nexus_names[sweep.at as int];
    let backstore = sweep.backstore_names[sweep.at as int];
    match (sweep.phase, reply) {
        (SweepPhase::Nexuses, SweepReply::Names(found)) => lists_exactly(found, tree.nexuses),
        (SweepPhase::Nexus, SweepReply::Removal(RemovalReply::Found(found))) => found
            == tree.nexuses.contains(nexus),
        (SweepPhase::Nexus, SweepReply::Removal(RemovalReply::Removed(removed))) => removed is Ok
            <==> !tree.busy_nexuses.contains(nexus),
        (SweepPhase::Backstores, SweepReply::Names(found)) => lists_exactly(
            found,
            tree.backstores,
        ),
        (SweepPhase::BackstoreProbe, SweepReply::IsDir(yes)) => yes == tree.directories.contains(
            backstore,
        ),
        (SweepPhase::Backstore, SweepReply::Removal(RemovalReply::Found(found))) => found
            == tree.directories.contains(backstore),
        (SweepPhase::Backstore, SweepReply::Removal(RemovalReply::Removed(removed))) => removed
            is Ok <==> !tree.busy_backstores.contains(backstore),
        _ => true,
    }
}

/// Whether a sweep met a host with this configfs.
pub open spec fn sweeps(tree: Tree, states: Seq<SweepView>, replies: Seq<SweepReply>) -> bool {
    &&& is_sweep(states, replies)
    &&& forall|i: int|
        0 <= i < replies.len() ==> #[trigger] is_true_of(tree, states[i], replies[i])
}

/// Whether the host answered at `i` that it removed the nexus `name`.
pub open spec fn took_nexus(
    states: Seq<SweepView>,
    replies: Seq<SweepReply>,
    i: int,
    name: Seq<u8>,
) -> bool {
    &&& 0 <= i < replies.len()
    &&& states[i].phase is Nexus
    &&& states[i].nexus_names[states[i].at as int] == name
    &&& states[i].ends_removal(replies[i])
    &&& replies[i] matches SweepReply::Removal(answer) && was_removed(answer)
}

/// Whether the host answered at `i` that it removed the backstore `name`.
pub open spec fn took_backstore(
    states: Seq<SweepView>,
    replies: Seq<SweepReply>,
    i: int,
    name: Seq<u8>,
) -> bool {
    &&& 0 <= i < replies.len()
    &&& states[i].phase is Backstore
    &&& states[i].backstore_names[states[i].at as int] == name
    &&& states[i].ends_removal(replies[i])
    &&& replies[i] matches SweepReply::Removal(answer) && was_removed(answer)
}

/// Whether a sweep left `after` of `before`: what the host answered to have
/// removed is gone, and nothing else changed.
pub open spec fn leaves(
    before: Tree,
    states: Seq<SweepView>,
    replies: Seq<SweepReply>,
    after: Tree,
) -> bool {
    &&& forall|name: Seq<u8>| #[trigger]
        after.nexuses.contains(name) <==> before.nexuses.contains(name) && !(exists|i: int|
            took_nexus(states, replies, i, name))
    &&& forall|name: Seq<u8>| #[trigger]
        after.backstores.contains(name) <==> before.backstores.contains(name) && !(exists|i: int|
            took_backstore(states, replies, i, name))
    &&& after.directories == before.directories
    &&& after.busy_nexuses == before.busy_nexuses
    &&& after.busy_backstores == before.busy_backstores
}

proof fn lemma_names_stay(states: Seq<SweepView>, replies: Seq<SweepReply>, i: int, k: int)
    requires
        is_sweep(states, replies),
        0 <= i <= k < states.len(),
    ensures
        !(states[i].phase is Nexuses) ==> {
            &&& !(states[k].phase is Nexuses)
            &&& states[k].nexus_names == states[i].nexus_names
        },
        states[i].phase.at_backstore() || states[i].phase is Hba ==> {
            &&& states[k].phase.at_backstore() || states[k].phase is Hba
            &&& states[k].backstore_names == states[i].backstore_names
        },
    decreases k - i,
{
    if i < k {
        let prior = k - 1;
        lemma_names_stay(states, replies, i, prior);
        assert(sweep_went_on(states, replies, prior));
    }
}

proof fn lemma_same_names(names: Seq<Seq<u8>>, found: Seq<Seq<u8>>, name: Seq<u8>)
    requires
        names.to_multiset() == found.to_multiset(),
    ensures
        names.contains(name) <==> found.contains(name),
{
    broadcast use vstd::seq_lib::group_to_multiset_ensures;

    assert(names.contains(name) <==> names.to_multiset().count(name) > 0);
    assert(found.contains(name) <==> found.to_multiset().count(name) > 0);
}

proof fn lemma_listed(
    tree: Tree,
    states: Seq<SweepView>,
    replies: Seq<SweepReply>,
    phase: SweepPhase,
    i: int,
    names: Seq<Seq<u8>>,
    name: Seq<u8>,
)
    requires
        sweeps(tree, states, replies),
        phase is Nexuses || phase is Backstores,
        were_listed(states, replies, phase, i, names),
    ensures
        phase is Nexuses ==> (names.contains(name) <==> tree.nexuses.contains(name)),
        phase is Backstores ==> (names.contains(name) <==> tree.backstores.contains(name)),
{
    assert(is_true_of(tree, states[i], replies[i]));
    match replies[i] {
        SweepReply::Names(Some(found)) => lemma_same_names(names, byte_names(found@), name),
        _ => {},
    }
}

/// A nexus that the host does not refuse to remove is taken by the sweep.
proof fn lemma_idle_nexus_is_taken(
    tree: Tree,
    states: Seq<SweepView>,
    replies: Seq<SweepReply>,
    last: SweepReply,
    name: Seq<u8>,
)
    requires
        sweeps(tree, states, replies),
        states.last().ends(last),
        tree.nexuses.contains(name),
        is_marked(name, NAA_PREFIX@),
        !tree.busy_nexuses.contains(name),
    ensures
        exists|i: int| took_nexus(states, replies, i, name),
{
    let end = states.len() - 1;
    lemma_sweep_evidence(states, replies, end);
    let names = states[end].nexus_names;
    let listed = choose|i: int| were_listed(states, replies, SweepPhase::Nexuses, i, names);
    lemma_listed(tree, states, replies, SweepPhase::Nexuses, listed, names, name);
    let j = choose|j: int| 0 <= j < names.len() && names[j] == name;
    assert(is_marked(states[end].nexus_names[j], NAA_PREFIX@));
    assert(was_asked_to_go(states, replies, SweepPhase::Nexus, end, j));
    let i = choose|i: int|
        i < end && #[trigger] removal_was_answered(states, replies, SweepPhase::Nexus, i, j);
    lemma_names_stay(states, replies, i, end);
    assert(is_true_of(tree, states[i], replies[i]));
    assert(took_nexus(states, replies, i, name));
}

/// A backstore that the host does not refuse to remove is taken by the sweep.
proof fn lemma_idle_backstore_is_taken(
    tree: Tree,
    states: Seq<SweepView>,
    replies: Seq<SweepReply>,
    last: SweepReply,
    name: Seq<u8>,
)
    requires
        sweeps(tree, states, replies),
        states.last().ends(last),
        tree.backstores.contains(name),
        tree.directories.contains(name),
        is_marked(name, DEV_PREFIX@),
        !tree.busy_backstores.contains(name),
    ensures
        exists|i: int| took_backstore(states, replies, i, name),
{
    let end = states.len() - 1;
    lemma_backstore_evidence(states, replies, end);
    let names = states[end].backstore_names;
    let listed = choose|i: int| were_listed(states, replies, SweepPhase::Backstores, i, names);
    lemma_listed(tree, states, replies, SweepPhase::Backstores, listed, names, name);
    let j = choose|j: int| 0 <= j < names.len() && names[j] == name;
    assert(is_marked(states[end].backstore_names[j], DEV_PREFIX@));
    assert(was_dealt_with(states, replies, end, j));
    let looked = choose|i: int|
        i < end && (replies[i] == SweepReply::IsDir(true) ==> was_asked_to_go(
            states,
            replies,
            SweepPhase::Backstore,
            end,
            j,
        )) && #[trigger] was_looked_at(states, replies, i, j);
    lemma_names_stay(states, replies, looked, end);
    assert(is_true_of(tree, states[looked], replies[looked]));
    assert(was_asked_to_go(states, replies, SweepPhase::Backstore, end, j));
    let i = choose|i: int|
        i < end && #[trigger] removal_was_answered(states, replies, SweepPhase::Backstore, i, j);
    lemma_names_stay(states, replies, i, end);
    assert(is_true_of(tree, states[i], replies[i]));
    assert(took_backstore(states, replies, i, name));
}

/// What a sweep reports is gone from configfs.
pub proof fn law_what_a_sweep_reports_is_gone(
    before: Tree,
    states: Seq<SweepView>,
    replies: Seq<SweepReply>,
    last: SweepReply,
    after: Tree,
    name: Seq<u8>,
)
    requires
        sweeps(before, states, replies),
        states.last().ends(last),
        leaves(before, states, replies, after),
    ensures
        picked(states.last().nexus_names, states.last().gone_nexuses).contains(name)
            ==> !after.nexuses.contains(name),
        picked(states.last().backstore_names, states.last().gone_backstores).contains(name)
            ==> !after.backstores.contains(name),
{
    let end = states.len() - 1;
    lemma_sweep_evidence(states, replies, end);
    let nexuses = states[end].gone_nexuses;
    let backstores = states[end].gone_backstores;
    if picked(states[end].nexus_names, nexuses).contains(name) {
        let at = choose|at: int|
            0 <= at < nexuses.len() && picked(states[end].nexus_names, nexuses)[at] == name;
        let j = nexuses[at];
        assert(nexuses.contains(j));
        let i = choose|i: int|
            i < end && (replies[i] matches SweepReply::Removal(answer) && was_removed(answer))
                && #[trigger] removal_was_answered(
                states,
                replies,
                SweepPhase::Nexus,
                i,
                j as int,
            );
        lemma_names_stay(states, replies, i, end);
        assert(took_nexus(states, replies, i, name));
    }
    if picked(states[end].backstore_names, backstores).contains(name) {
        let at = choose|at: int|
            0 <= at < backstores.len() && picked(states[end].backstore_names, backstores)[at]
                == name;
        let j = backstores[at];
        assert(backstores.contains(j));
        let i = choose|i: int|
            i < end && (replies[i] matches SweepReply::Removal(answer) && was_removed(answer))
                && #[trigger] removal_was_answered(
                states,
                replies,
                SweepPhase::Backstore,
                i,
                j as int,
            );
        lemma_names_stay(states, replies, i, end);
        assert(took_backstore(states, replies, i, name));
    }
}

/// A sweep is safe to repeat: where nothing else changes configfs, a second one
/// finds nothing more to remove and reports nothing, even if some entries stay
/// because the host refuses to remove them.
pub proof fn law_a_second_sweep_reports_nothing(
    before: Tree,
    states: Seq<SweepView>,
    replies: Seq<SweepReply>,
    last: SweepReply,
    after: Tree,
    next_states: Seq<SweepView>,
    next_replies: Seq<SweepReply>,
    next_last: SweepReply,
)
    requires
        sweeps(before, states, replies),
        states.last().ends(last),
        leaves(before, states, replies, after),
        sweeps(after, next_states, next_replies),
        next_states.last().ends(next_last),
    ensures
        next_states.last().nexuses().len() == 0,
        next_states.last().backstores().len() == 0,
{
    let end = next_replies.len() as int;
    assert forall|j: int| !(#[trigger] was_gone(
        next_states,
        next_replies,
        SweepPhase::Nexus,
        end,
        j,
    )) by {
        if was_gone(next_states, next_replies, SweepPhase::Nexus, end, j) {
            let i = choose|i: int|
                i < end && (next_replies[i] matches SweepReply::Removal(answer) && was_removed(
                    answer,
                )) && #[trigger] removal_was_answered(
                    next_states,
                    next_replies,
                    SweepPhase::Nexus,
                    i,
                    j,
                );
            lemma_sweep_evidence(next_states, next_replies, i);
            let names = next_states[i].nexus_names;
            let name = names[j];
            let listed = choose|k: int|
                were_listed(next_states, next_replies, SweepPhase::Nexuses, k, names);
            assert(names.contains(name));
            lemma_listed(
                after,
                next_states,
                next_replies,
                SweepPhase::Nexuses,
                listed,
                names,
                name,
            );
            assert(is_true_of(after, next_states[i], next_replies[i]));
            lemma_idle_nexus_is_taken(before, states, replies, last, name);
        }
    }
    assert forall|j: int| !(#[trigger] was_gone(
        next_states,
        next_replies,
        SweepPhase::Backstore,
        end,
        j,
    )) by {
        if was_gone(next_states, next_replies, SweepPhase::Backstore, end, j) {
            let i = choose|i: int|
                i < end && (next_replies[i] matches SweepReply::Removal(answer) && was_removed(
                    answer,
                )) && #[trigger] removal_was_answered(
                    next_states,
                    next_replies,
                    SweepPhase::Backstore,
                    i,
                    j,
                );
            lemma_sweep_evidence(next_states, next_replies, i);
            lemma_backstore_evidence(next_states, next_replies, i);
            let names = next_states[i].backstore_names;
            let name = names[j];
            let listed = choose|k: int|
                were_listed(next_states, next_replies, SweepPhase::Backstores, k, names);
            assert(names.contains(name));
            lemma_listed(
                after,
                next_states,
                next_replies,
                SweepPhase::Backstores,
                listed,
                names,
                name,
            );
            assert(is_true_of(after, next_states[i], next_replies[i]));
            let seen = choose|k: int|
                k < i && next_replies[k] == SweepReply::IsDir(true) && #[trigger] was_looked_at(
                    next_states,
                    next_replies,
                    k,
                    j,
                );
            lemma_names_stay(next_states, next_replies, seen, i);
            assert(is_true_of(after, next_states[seen], next_replies[seen]));
            lemma_idle_backstore_is_taken(before, states, replies, last, name);
        }
    }
    law_a_sweep_that_removed_nothing_reports_nothing(next_states, next_replies, next_last);
}

proof fn lemma_none_marked(names: Seq<Seq<u8>>, from: nat, prefix: Seq<char>)
    requires
        from <= names.len(),
        forall|i: int| 0 <= i < names.len() ==> !is_marked(#[trigger] names[i], prefix),
    ensures
        first_marked(names, from, prefix) == names.len(),
    decreases names.len() - from,
{
    if from < names.len() {
        lemma_none_marked(names, from + 1, prefix);
    }
}

proof fn lemma_none_marked_sorted(names: Seq<Seq<u8>>, found: Seq<Seq<u8>>, prefix: Seq<char>)
    requires
        names.to_multiset() == found.to_multiset(),
        forall|i: int| 0 <= i < found.len() ==> !is_marked(#[trigger] found[i], prefix),
    ensures
        first_marked(names, 0, prefix) == names.len(),
{
    broadcast use vstd::seq_lib::group_to_multiset_ensures;

    assert forall|i: int| 0 <= i < names.len() implies !is_marked(#[trigger] names[i], prefix) by {
        assert(names.contains(names[i]));
        assert(found.to_multiset().count(names[i]) > 0);
        assert(found.contains(names[i]));
    }
    lemma_none_marked(names, 0, prefix);
}

/// Whether an answer is no listing, or one that shows the sweep nothing marked.
pub open spec fn lists_nothing(sweep: SweepView, reply: SweepReply) -> bool {
    match (sweep.phase, reply) {
        (SweepPhase::Nexuses, SweepReply::Names(Some(found))) => forall|i: int|
            0 <= i < found@.len() ==> !is_marked((#[trigger] byte_names(found@)[i]), NAA_PREFIX@),
        (SweepPhase::Backstores, SweepReply::Names(Some(found))) => forall|i: int|
            0 <= i < found@.len() ==> !is_marked((#[trigger] byte_names(found@)[i]), DEV_PREFIX@),
        _ => true,
    }
}

/// A sweep is safe where nothing is left: while the host lists no marked nexus
/// and no marked backstore, nothing is asked to be removed but the HBA, and
/// nothing is reported.
pub proof fn law_a_sweep_with_nothing_left_removes_nothing(
    states: Seq<SweepView>,
    replies: Seq<SweepReply>,
    k: int,
    op: SweepOp,
)
    requires
        is_sweep(states, replies),
        0 <= k < states.len(),
        forall|i: int|
            0 <= i < replies.len() ==> #[trigger] lists_nothing(states[i], replies[i]),
        states[k].asks(op),
    ensures
        states[k].phase is Nexuses || states[k].phase is Backstores || states[k].phase is Hba,
        states[k].nexuses().len() == 0,
        states[k].backstores().len() == 0,
        op matches SweepOp::Remove(removing) ==> removal_asks(
            RemovalTarget::Directory,
            encode_utf8(configfs::hba_text()),
            states[k].removal,
            removing,
        ),
{
    lemma_nothing_left(states, replies, k);
}

proof fn lemma_nothing_left(states: Seq<SweepView>, replies: Seq<SweepReply>, k: int)
    requires
        is_sweep(states, replies),
        0 <= k < states.len(),
        forall|i: int|
            0 <= i < replies.len() ==> #[trigger] lists_nothing(states[i], replies[i]),
    ensures
        states[k].phase is Nexuses || states[k].phase is Backstores || states[k].phase is Hba,
        states[k].phase is Nexuses ==> states[k].nexus_names.len() == 0,
        states[k].gone_nexuses.len() == 0,
        states[k].gone_backstores.len() == 0,
    decreases k,
{
    if k > 0 {
        let prior = k - 1;
        lemma_nothing_left(states, replies, prior);
        assert(sweep_went_on(states, replies, prior));
        assert(lists_nothing(states[prior], replies[prior]));
        match (states[prior].phase, replies[prior]) {
            (SweepPhase::Nexuses, SweepReply::Names(Some(found))) => lemma_none_marked_sorted(
                states[k].nexus_names,
                byte_names(found@),
                NAA_PREFIX@,
            ),
            (SweepPhase::Backstores, SweepReply::Names(Some(found))) => lemma_none_marked_sorted(
                states[k].backstore_names,
                byte_names(found@),
                DEV_PREFIX@,
            ),
            _ => {},
        }
    }
}

/// A cleanup under way; see [`force_cleanup`].
#[derive(Debug)]
pub struct Cleanup {
    /// The mountpoints that are still to come.
    pub rest: Vec<HostPath>,
    /// The mountpoints that were mounted and are no longer.
    pub unmounted: Vec<HostPath>,
    pub stage: CleanupStage,
}

#[derive(Debug)]
pub enum CleanupStage {
    Unmount { target: HostPath, unmounting: PathUnmount },
    Sweep(Sweep),
}

/// What a cleanup asks of the host.
#[derive(Debug)]
pub enum CleanupOp {
    Unmount(PathOp),
    Sweep(SweepOp),
}

#[derive(Debug)]
pub enum CleanupReply {
    Unmount(PathReply),
    Sweep(SweepReply),
}

/// Unmount the given mountpoints, then sweep configfs.
///
/// This is what `obdctl cleanup` runs: the mounts have to go first, since a
/// mounted device cannot be torn down. Off Linux there is nothing to unmount.
pub fn force_cleanup(mountpoints: Vec<HostPath>, platform: Platform) -> (cleanup: Cleanup)
    ensures
        cleanup.starts(
            if platform.linux {
                byte_names(mountpoints@)
            } else {
                Seq::empty()
            },
            Seq::empty(),
        ),
{
    let unmounted: Vec<HostPath> = Vec::new();
    let rest: Vec<HostPath> = if platform.linux {
        mountpoints
    } else {
        Vec::new()
    };
    assert(byte_names(unmounted@) =~= Seq::<Seq<u8>>::empty());
    assert(!platform.linux ==> byte_names(rest@) =~= Seq::<Seq<u8>>::empty());
    Cleanup::go_on(rest, unmounted)
}

impl Cleanup {
    /// Whether a cleanup is about to go on with the mountpoints in `rest`, and
    /// then with the sweep.
    pub open spec fn starts(self, rest: Seq<Seq<u8>>, unmounted: Seq<Seq<u8>>) -> bool {
        &&& byte_names(self.unmounted@) == unmounted
        &&& if rest.len() == 0 {
            &&& self.rest@.len() == 0
            &&& self.stage matches CleanupStage::Sweep(sweep) && sweep@ == SweepView::start()
        } else {
            &&& byte_names(self.rest@) == rest.skip(1)
            &&& self.stage matches CleanupStage::Unmount { target, unmounting } && target@
                == rest[0] && unmounting.target@ == rest[0] && unmounting.phase is Probe
        }
    }

    fn go_on(rest: Vec<HostPath>, unmounted: Vec<HostPath>) -> (cleanup: Cleanup)
        ensures
            cleanup.starts(byte_names(rest@), byte_names(unmounted@)),
    {
        let mut rest = rest;
        let ghost whole = byte_names(rest@);
        if rest.len() == 0 {
            return Cleanup { rest, unmounted, stage: CleanupStage::Sweep(cleanup_all()) };
        }
        let target = rest.remove(0);
        assert(byte_names(rest@) =~= whole.skip(1));
        let unmounting = PathUnmount { target: target.clone(), phase: PathPhase::Probe };
        Cleanup { rest, unmounted, stage: CleanupStage::Unmount { target, unmounting } }
    }

    /// Whether `op` is what the host is asked for.
    pub open spec fn asks(self, op: CleanupOp) -> bool {
        match self.stage {
            CleanupStage::Unmount { unmounting, .. } => op matches CleanupOp::Unmount(o)
                && unmounting.asks(o),
            CleanupStage::Sweep(sweep) => op matches CleanupOp::Sweep(o) && sweep@.asks(o),
        }
    }

    /// What to ask the host.
    pub fn op(&self) -> (op: CleanupOp)
        ensures
            self.asks(op),
    {
        match &self.stage {
            CleanupStage::Unmount { unmounting, .. } => CleanupOp::Unmount(unmounting.op()),
            CleanupStage::Sweep(sweep) => CleanupOp::Sweep(sweep.op()),
        }
    }

    /// Whether an answer ends the cleanup.
    pub open spec fn ends(self, reply: CleanupReply) -> bool {
        match (self.stage, reply) {
            (CleanupStage::Sweep(sweep), CleanupReply::Sweep(reply)) => sweep@.ends(reply),
            _ => false,
        }
    }

    /// Whether an answer that does not end the cleanup leads to `next`.
    pub open spec fn leads_to(self, reply: CleanupReply, next: Cleanup) -> bool {
        match (self.stage, reply) {
            (
                CleanupStage::Unmount { target, unmounting },
                CleanupReply::Unmount(reply),
            ) => match unmounting.after(reply) {
                Progress::Running(unmounting) => next == Cleanup {
                    stage: CleanupStage::Unmount { target, unmounting },
                    ..self
                },
                Progress::Finished(gone) => next.starts(
                    byte_names(self.rest@),
                    if gone {
                        byte_names(self.unmounted@).push(target@)
                    } else {
                        byte_names(self.unmounted@)
                    },
                ),
            },
            (CleanupStage::Sweep(sweep), CleanupReply::Sweep(reply)) => {
                &&& next == Cleanup { stage: next.stage, ..self }
                &&& next.stage matches CleanupStage::Sweep(after) && sweep@.leads_to(reply, after@)
            },
            _ => next == self,
        }
    }

    /// What comes out where an answer ends the cleanup.
    pub open spec fn outcome(self, out: Result<Swept, Error>) -> bool {
        &&& self.stage matches CleanupStage::Sweep(sweep)
        &&& out matches Ok(swept)
        &&& texts(swept.nexuses@) == sweep@.nexuses()
        &&& texts(swept.backstores@) == sweep@.backstores()
        &&& byte_names(swept.unmounted@) == byte_names(self.unmounted@)
    }

    /// Take the host's answer.
    pub fn resume(self, reply: CleanupReply) -> (progress: Progress<Cleanup, Result<Swept, Error>>)
        ensures
            match progress {
                Progress::Running(next) => !self.ends(reply) && self.leads_to(reply, next),
                Progress::Finished(out) => self.ends(reply) && self.outcome(out),
            },
    {
        match (self.stage, reply) {
            (
                CleanupStage::Unmount { target, unmounting },
                CleanupReply::Unmount(reply),
            ) => match unmounting.resume(reply) {
                Progress::Running(unmounting) => Progress::Running(
                    Cleanup {
                        rest: self.rest,
                        unmounted: self.unmounted,
                        stage: CleanupStage::Unmount { target, unmounting },
                    },
                ),
                Progress::Finished(gone) => {
                    let mut unmounted = self.unmounted;
                    let ghost before = byte_names(unmounted@);
                    if gone {
                        unmounted.push(target);
                        assert(byte_names(unmounted@) =~= before.push(target@));
                    }
                    Progress::Running(Cleanup::go_on(self.rest, unmounted))
                },
            },
            (CleanupStage::Sweep(sweep), CleanupReply::Sweep(reply)) => match sweep.resume(reply) {
                Progress::Running(sweep) => Progress::Running(
                    Cleanup {
                        rest: self.rest,
                        unmounted: self.unmounted,
                        stage: CleanupStage::Sweep(sweep),
                    },
                ),
                Progress::Finished(swept) => {
                    let mut swept = swept;
                    swept.unmounted = self.unmounted;
                    Progress::Finished(Ok(swept))
                },
            },
            (stage, _) => Progress::Running(
                Cleanup { rest: self.rest, unmounted: self.unmounted, stage },
            ),
        }
    }
}

/// A sweep recognises every device of this crate, and takes down the same
/// directories for it as the device's own teardown.
pub proof fn law_a_sweep_recognises_every_device(
    made: Result<Device, Error>,
    name: Seq<char>,
    config_path: Seq<u8>,
    result_path: Seq<u8>,
    naa_suffix: Seq<char>,
)
    requires
        is_device_for(made, name, config_path, result_path, naa_suffix),
        made is Ok,
    ensures
        ({
            let device = made->Ok_0@;
            &&& is_marked(encode_utf8(device.name), DEV_PREFIX@)
            &&& is_marked(encode_utf8(device.naa), NAA_PREFIX@)
            &&& joined_bytes(encode_utf8(configfs::hba_text()), encode_utf8(device.name))
                == encode_utf8(configfs::backstore_text(device.name))
            &&& joined_bytes(encode_utf8(configfs::loopback_text()), encode_utf8(device.naa))
                == encode_utf8(configfs::nexus_text(device.naa))
        }),
{
    let naa = NAA_PREFIX@ + naa_suffix;
    assert(NAA_PREFIX@ =~= naa.subrange(0, NAA_PREFIX@.len() as int));
    vstd::utf8::encode_utf8_valid_utf8(name);
    vstd::utf8::encode_utf8_decode_utf8(name);
    vstd::utf8::encode_utf8_valid_utf8(naa);
    vstd::utf8::encode_utf8_decode_utf8(naa);
    path::law_text_and_bytes_join_alike(configfs::hba_text(), name);
    path::law_text_and_bytes_join_alike(configfs::loopback_text(), naa);
}

/// Whether a cleanup of `mountpoints` went through `states`, one answer after
/// the other.
pub open spec fn is_cleanup(
    mountpoints: Seq<Seq<u8>>,
    states: Seq<Cleanup>,
    replies: Seq<CleanupReply>,
) -> bool {
    &&& states.len() == replies.len() + 1
    &&& states[0].starts(mountpoints, Seq::empty())
    &&& forall|i: int| 0 <= i < replies.len() ==> #[trigger] cleanup_went_on(states, replies, i)
}

/// Whether the answer at `i` did not end the cleanup, but led on.
pub open spec fn cleanup_went_on(states: Seq<Cleanup>, replies: Seq<CleanupReply>, i: int) -> bool {
    !states[i].ends(replies[i]) && states[i].leads_to(replies[i], states[i + 1])
}

/// Whether the cleanup was at `mountpoint` in state `i`.
pub open spec fn was_at(states: Seq<Cleanup>, i: int, mountpoint: Seq<u8>) -> bool {
    &&& 0 <= i < states.len()
    &&& states[i].stage matches CleanupStage::Unmount { target, .. } && target@ == mountpoint
}

/// Whether the cleanup has been at `mountpoint` by state `k`.
pub open spec fn has_been_at(states: Seq<Cleanup>, k: int, mountpoint: Seq<u8>) -> bool {
    exists|i: int| i <= k && #[trigger] was_at(states, i, mountpoint)
}

proof fn lemma_cleanup_evidence(
    mountpoints: Seq<Seq<u8>>,
    states: Seq<Cleanup>,
    replies: Seq<CleanupReply>,
    k: int,
)
    requires
        is_cleanup(mountpoints, states, replies),
        0 <= k < states.len(),
    ensures
        states[k].rest@.len() <= mountpoints.len(),
        byte_names(states[k].rest@) == mountpoints.skip(
            mountpoints.len() - states[k].rest@.len(),
        ),
        states[k].stage is Sweep ==> states[k].rest@.len() == 0,
        forall|j: int|
            0 <= j < mountpoints.len() - states[k].rest@.len() ==> #[trigger] has_been_at(
                states,
                k,
                mountpoints[j],
            ),
    decreases k,
{
    if k == 0 {
        let rest = states[0].rest@.len();
        if mountpoints.len() == 0 {
            assert(byte_names(states[0].rest@) =~= mountpoints.skip(0));
        } else {
            assert(byte_names(states[0].rest@).len() == rest);
            assert(byte_names(states[0].rest@) == mountpoints.skip(1));
            assert forall|j: int| 0 <= j < mountpoints.len() - rest implies #[trigger] has_been_at(
                states,
                0,
                mountpoints[j],
            ) by {
                assert(was_at(states, 0, mountpoints[j]));
            }
        }
    } else {
        let prior = k - 1;
        lemma_cleanup_evidence(mountpoints, states, replies, prior);
        let before = states[prior];
        let after = states[k];
        assert(cleanup_went_on(states, replies, prior));
        let met = mountpoints.len() - before.rest@.len();
        assert(byte_names(before.rest@).len() == before.rest@.len());
        assert(byte_names(after.rest@).len() == after.rest@.len());
        if after.rest@.len() < before.rest@.len() {
            assert(byte_names(after.rest@) == mountpoints.skip(met).skip(1));
            assert(mountpoints.skip(met).skip(1) =~= mountpoints.skip(met + 1));
            assert(was_at(states, k, mountpoints[met]));
        } else {
            assert(after.rest@.len() == before.rest@.len());
            assert(byte_names(after.rest@) =~= byte_names(before.rest@));
        }
        assert forall|j: int| 0 <= j < mountpoints.len() - after.rest@.len() implies
            #[trigger] has_been_at(states, k, mountpoints[j]) by {
            if j < met {
                assert(has_been_at(states, prior, mountpoints[j]));
                let i = choose|i: int| i <= prior && #[trigger] was_at(states, i, mountpoints[j]);
                assert(was_at(states, i, mountpoints[j]));
            } else {
                assert(j == met);
                assert(was_at(states, k, mountpoints[j]));
            }
        }
    }
}

/// The mounts go first, since a mounted device cannot be torn down: by the time
/// a cleanup sweeps, it has been at every one of the mountpoints.
pub proof fn law_mounts_go_before_the_sweep(
    mountpoints: Seq<Seq<u8>>,
    states: Seq<Cleanup>,
    replies: Seq<CleanupReply>,
    k: int,
    j: int,
)
    requires
        is_cleanup(mountpoints, states, replies),
        0 <= k < states.len(),
        states[k].stage is Sweep,
        0 <= j < mountpoints.len(),
    ensures
        has_been_at(states, k - 1, mountpoints[j]),
{
    lemma_cleanup_evidence(mountpoints, states, replies, k);
    assert(has_been_at(states, k, mountpoints[j]));
    let i = choose|i: int| i <= k && #[trigger] was_at(states, i, mountpoints[j]);
    assert(i <= k - 1 && was_at(states, i, mountpoints[j]));
}

/// A cleanup unmounts only what it was given: every mountpoint that it is at, and
/// every one that it reports as unmounted, is one of the mountpoints.
pub proof fn law_only_given_mountpoints_are_unmounted(
    mountpoints: Seq<Seq<u8>>,
    states: Seq<Cleanup>,
    replies: Seq<CleanupReply>,
    k: int,
)
    requires
        is_cleanup(mountpoints, states, replies),
        0 <= k < states.len(),
    ensures
        states[k].stage matches CleanupStage::Unmount { target, unmounting } ==> (
        mountpoints.contains(target@) && unmounting.target@ == target@),
        forall|j: int|
            0 <= j < states[k].unmounted@.len() ==> mountpoints.contains(
                #[trigger] byte_names(states[k].unmounted@)[j],
            ),
    decreases k,
{
    assert(byte_names(states[k].unmounted@).len() == states[k].unmounted@.len());
    if k == 0 {
        if mountpoints.len() > 0 {
            assert(mountpoints.contains(mountpoints[0]));
        }
    } else {
        let prior = k - 1;
        let before = states[prior];
        law_only_given_mountpoints_are_unmounted(mountpoints, states, replies, prior);
        lemma_cleanup_evidence(mountpoints, states, replies, prior);
        assert(cleanup_went_on(states, replies, prior));
        let met = mountpoints.len() - before.rest@.len();
        assert(byte_names(before.rest@).len() == before.rest@.len());
        if before.rest@.len() > 0 {
            assert(mountpoints.skip(met)[0] == mountpoints[met]);
            assert(mountpoints.contains(mountpoints[met]));
        }
        assert forall|j: int| 0 <= j < states[k].unmounted@.len() implies mountpoints.contains(
            #[trigger] byte_names(states[k].unmounted@)[j],
        ) by {
            assert(byte_names(before.unmounted@).len() == before.unmounted@.len());
            if j < before.unmounted@.len() {
                assert(mountpoints.contains(byte_names(before.unmounted@)[j]));
            }
        }
    }
}

/// Whether the answer at `i` ended the unmount of the mountpoint at place `j`,
/// and `yes` came out: it was mounted and is no longer.
pub open spec fn unmount_was_answered(
    mountpoints: Seq<Seq<u8>>,
    states: Seq<Cleanup>,
    replies: Seq<CleanupReply>,
    i: int,
    j: int,
    yes: bool,
) -> bool {
    &&& 0 <= i < replies.len()
    &&& j == mountpoints.len() - states[i].rest@.len() - 1
    &&& states[i].stage matches CleanupStage::Unmount { target, unmounting }
    &&& replies[i] matches CleanupReply::Unmount(reply)
    &&& unmounting.after(reply) == Progress::<PathUnmount, bool>::Finished(yes)
}

/// Whether the mountpoint at place `j` was unmounted by state `k`.
pub open spec fn was_unmounted(
    mountpoints: Seq<Seq<u8>>,
    states: Seq<Cleanup>,
    replies: Seq<CleanupReply>,
    k: int,
    j: int,
) -> bool {
    exists|i: int|
        i < k && #[trigger] unmount_was_answered(mountpoints, states, replies, i, j, true)
}

/// How many of the mountpoints a cleanup is done with.
pub open spec fn mountpoints_met(mountpoints: Seq<Seq<u8>>, cleanup: Cleanup) -> int {
    match cleanup.stage {
        CleanupStage::Unmount { .. } => mountpoints.len() - cleanup.rest@.len() - 1,
        CleanupStage::Sweep(_) => mountpoints.len() as int,
    }
}

proof fn lemma_unmounted_evidence(
    mountpoints: Seq<Seq<u8>>,
    states: Seq<Cleanup>,
    replies: Seq<CleanupReply>,
    k: int,
)
    requires
        is_cleanup(mountpoints, states, replies),
        0 <= k < states.len(),
    ensures
        0 <= mountpoints_met(mountpoints, states[k]) <= mountpoints.len(),
        states[k].stage matches CleanupStage::Unmount { target, .. } ==> (
        mountpoints_met(mountpoints, states[k]) < mountpoints.len() && target@
            == mountpoints[mountpoints_met(mountpoints, states[k])]),
        forall|j: int| #[trigger]
            was_unmounted(mountpoints, states, replies, k, j) ==> j < mountpoints_met(
                mountpoints,
                states[k],
            ),
        byte_names(states[k].unmounted@) == kept(
            mountpoints.take(mountpoints_met(mountpoints, states[k])),
            |j: int| was_unmounted(mountpoints, states, replies, k, j),
        ),
    decreases k,
{
    let after = states[k];
    let met = mountpoints_met(mountpoints, after);
    let keep = |j: int| was_unmounted(mountpoints, states, replies, k, j);
    lemma_cleanup_evidence(mountpoints, states, replies, k);
    assert(byte_names(after.rest@).len() == after.rest@.len());
    if k == 0 {
        assert(met == 0);
        assert(mountpoints.take(0) =~= Seq::<Seq<u8>>::empty());
    } else {
        let prior = k - 1;
        let before = states[prior];
        let past = mountpoints_met(mountpoints, before);
        let kept_before = |j: int| was_unmounted(mountpoints, states, replies, prior, j);
        lemma_unmounted_evidence(mountpoints, states, replies, prior);
        lemma_cleanup_evidence(mountpoints, states, replies, prior);
        assert(cleanup_went_on(states, replies, prior));
        assert(byte_names(before.rest@).len() == before.rest@.len());
        assert forall|j: int| #[trigger]
            was_unmounted(mountpoints, states, replies, k, j) <==> (was_unmounted(
                mountpoints,
                states,
                replies,
                prior,
                j,
            ) || unmount_was_answered(mountpoints, states, replies, prior, j, true)) by {
            if was_unmounted(mountpoints, states, replies, k, j) {
                let i = choose|i: int|
                    i < k && #[trigger] unmount_was_answered(
                        mountpoints,
                        states,
                        replies,
                        i,
                        j,
                        true,
                    );
                assert(i == prior || i < prior);
            }
            if was_unmounted(mountpoints, states, replies, prior, j) {
                let i = choose|i: int|
                    i < prior && #[trigger] unmount_was_answered(
                        mountpoints,
                        states,
                        replies,
                        i,
                        j,
                        true,
                    );
                assert(unmount_was_answered(mountpoints, states, replies, i, j, true));
            }
        }
        let earlier = mountpoints.take(past);
        lemma_kept_alike(earlier, keep, kept_before);
        if met > past {
            assert(met == past + 1);
            assert(mountpoints.take(met).drop_last() =~= earlier);
            assert(mountpoints.take(met).last() == mountpoints[past]);
        } else {
            assert(met == past);
        }
        if after.stage is Unmount && met > past {
            assert(byte_names(before.rest@) == mountpoints.skip(past + 1));
            assert(mountpoints.skip(past + 1)[0] == mountpoints[met]);
        }
    }
}

/// A cleanup always succeeds, and the mountpoints that it reports are, in the
/// order in which they were given, exactly those that were mounted and are no
/// longer.
pub proof fn law_a_cleanup_reports_what_was_unmounted(
    mountpoints: Seq<Seq<u8>>,
    states: Seq<Cleanup>,
    replies: Seq<CleanupReply>,
    last: CleanupReply,
    out: Result<Swept, Error>,
)
    requires
        is_cleanup(mountpoints, states, replies),
        states.last().ends(last),
        states.last().outcome(out),
    ensures
        out matches Ok(swept) && byte_names(swept.unmounted@) == kept(
            mountpoints,
            |j: int| was_unmounted(mountpoints, states, replies, replies.len() as int, j),
        ),
{
    lemma_unmounted_evidence(mountpoints, states, replies, states.len() - 1);
    assert(mountpoints.take(mountpoints.len() as int) =~= mountpoints);
}

/// A signal that ends the process.
#[derive(Debug, Clone, Copy, PartialEq, Eq, Structural)]
pub enum Termination {
    /// `SIGHUP`
    Hangup,
    /// `SIGINT`
    Interrupt,
    /// `SIGTERM`
    Terminate,
}

impl Termination {
    /// The signal's number.
    pub open spec fn spec_number(self) -> int {
        match self {
            Termination::Hangup => 1,
            Termination::Interrupt => 2,
            Termination::Terminate => 15,
        }
    }

    /// The signal's number.
    pub fn number(self) -> (n: i32)
        ensures
            n == self.spec_number(),
    {
        match self {
            Termination::Hangup => 1,
            Termination::Interrupt => 2,
            Termination::Terminate => 15,
        }
    }
}

/// What becomes of a process that a signal ends; see
/// [`install_signal_handler`].
#[derive(Debug)]
pub enum SignalHandler {
    Register { mountpoints: Vec<HostPath> },
    Listen { mountpoints: Vec<HostPath> },
    Cleanup { signal: Termination, cleanup: Cleanup },
}

/// What handling signals asks of the host.
#[derive(Debug)]
pub enum SignalOp {
    /// Register for the signals.
    Register([Termination; 3]),
    /// Wait for the first of them, on a thread of its own: what follows is not
    /// async-signal-safe, so it must not run inside a signal handler.
    Listen,
    Cleanup(CleanupOp),
}

#[derive(Debug)]
pub enum SignalReply {
    Registered(Result<(), IoFailure>),
    /// The signal that was caught, or none where no more can come.
    Caught(Option<Termination>),
    Cleanup(CleanupReply),
}

/// What handling signals comes to.
#[derive(Debug)]
pub enum SignalEnd {
    /// Exit with this code.
    Exit(i32),
    /// No signal can come any more.
    Quiet,
}

/// Run the cleanup sweep on SIGINT/SIGTERM/SIGHUP, then exit. Nothing is done
/// off Linux: there are no devices to clean up.
pub fn install_signal_handler(mountpoints: Vec<HostPath>, platform: Platform) -> (handler: Option<
    SignalHandler,
>)
    ensures
        handler == (if platform.linux {
            Some(SignalHandler::Register { mountpoints })
        } else {
            None
        }),
{
    if platform.linux {
        Some(SignalHandler::Register { mountpoints })
    } else {
        None
    }
}

impl SignalHandler {
    /// Whether `op` is what the host is asked for.
    pub open spec fn asks(self, op: SignalOp) -> bool {
        match self {
            SignalHandler::Register { .. } => op matches SignalOp::Register(signals) && signals@
                == seq![Termination::Interrupt, Termination::Terminate, Termination::Hangup],
            SignalHandler::Listen { .. } => op is Listen,
            SignalHandler::Cleanup { cleanup, .. } => op matches SignalOp::Cleanup(o)
                && cleanup.asks(o),
        }
    }

    /// Whether an answer ends the handling.
    pub open spec fn ends(self, reply: SignalReply) -> bool {
        match (self, reply) {
            (SignalHandler::Register { .. }, SignalReply::Registered(registered)) => registered
                is Err,
            (SignalHandler::Listen { .. }, SignalReply::Caught(caught)) => caught is None,
            (SignalHandler::Cleanup { cleanup, .. }, SignalReply::Cleanup(reply)) => cleanup.ends(
                reply,
            ),
            _ => false,
        }
    }

    /// Whether an answer that does not end the handling leads to `next`.
    pub open spec fn leads_to(self, reply: SignalReply, next: SignalHandler) -> bool {
        match (self, reply) {
            (SignalHandler::Register { mountpoints }, SignalReply::Registered(_)) => next == (
            SignalHandler::Listen { mountpoints }),
            (SignalHandler::Listen { mountpoints }, SignalReply::Caught(Some(caught))) => {
                &&& next matches SignalHandler::Cleanup { signal, cleanup }
                &&& signal == caught
                &&& cleanup.starts(byte_names(mountpoints@), Seq::empty())
            },
            (SignalHandler::Cleanup { signal, cleanup }, SignalReply::Cleanup(reply)) => {
                &&& next matches SignalHandler::Cleanup { signal: s, cleanup: c }
                &&& s == signal
                &&& cleanup.leads_to(reply, c)
            },
            _ => next == self,
        }
    }

    /// What comes out where an answer ends the handling. As shells have it, a
    /// process that a signal ends exits with 128 and the signal's number.
    pub open spec fn outcome(self, reply: SignalReply, out: Result<SignalEnd, Error>) -> bool {
        match (self, reply) {
            (_, SignalReply::Registered(Err(source))) => out matches Err(error) && is_io(
                error,
                "installing signal handler"@,
                source,
            ),
            (SignalHandler::Cleanup { signal, .. }, _) => out matches Ok(SignalEnd::Exit(code))
                && code == 128 + signal.spec_number(),
            _ => out == Ok::<SignalEnd, Error>(SignalEnd::Quiet),
        }
    }

    /// What to ask the host.
    pub fn op(&self) -> (op: SignalOp)
        ensures
            self.asks(op),
    {
        match self {
            SignalHandler::Register { .. } => SignalOp::Register(
                [Termination::Interrupt, Termination::Terminate, Termination::Hangup],
            ),
            SignalHandler::Listen { .. } => SignalOp::Listen,
            SignalHandler::Cleanup { cleanup, .. } => SignalOp::Cleanup(cleanup.op()),
        }
    }

    /// Take the host's answer.
    pub fn resume(self, reply: SignalReply) -> (progress: Progress<
        SignalHandler,
        Result<SignalEnd, Error>,
    >)
        ensures
            match progress {
                Progress::Running(next) => !self.ends(reply) && self.leads_to(reply, next),
                Progress::Finished(out) => self.ends(reply) && self.outcome(reply, out),
            },
    {
        match (self, reply) {
            (
                SignalHandler::Register { mountpoints },
                SignalReply::Registered(registered),
            ) => match registered {
                Ok(()) => Progress::Running(SignalHandler::Listen { mountpoints }),
                Err(source) => {
                    let context = "installing signal handler".to_owned();
                    Progress::Finished(Err(Error::io(context, source)))
                },
            },
            (SignalHandler::Listen { mountpoints }, SignalReply::Caught(caught)) => match caught {
                Some(signal) => {
                    let unmounted: Vec<HostPath> = Vec::new();
                    assert(byte_names(unmounted@) =~= Seq::<Seq<u8>>::empty());
                    let cleanup = Cleanup::go_on(mountpoints, unmounted);
                    Progress::Running(SignalHandler::Cleanup { signal, cleanup })
                },
                None => Progress::Finished(Ok(SignalEnd::Quiet)),
            },
            (SignalHandler::Cleanup { signal, cleanup }, SignalReply::Cleanup(reply)) => {
                match cleanup.resume(reply) {
                    Progress::Running(cleanup) => Progress::Running(
                        SignalHandler::Cleanup { signal, cleanup },
                    ),
                    Progress::Finished(_) => Progress::Finished(
                        Ok(SignalEnd::Exit(128 + signal.number())),
                    ),
                }
            },
            (handler, _) => Progress::Running(handler),
        }
    }
}

/// Whether handling signals went through `states`, one answer after the other.
pub open spec fn is_handling(
    mountpoints: Vec<HostPath>,
    states: Seq<SignalHandler>,
    replies: Seq<SignalReply>,
) -> bool {
    &&& states.len() == replies.len() + 1
    &&& states[0] == (SignalHandler::Register { mountpoints })
    &&& forall|i: int| 0 <= i < replies.len() ==> #[trigger] handling_went_on(states, replies, i)
}

/// Whether the answer at `i` did not end the handling, but led on.
pub open spec fn handling_went_on(
    states: Seq<SignalHandler>,
    replies: Seq<SignalReply>,
    i: int,
) -> bool {
    !states[i].ends(replies[i]) && states[i].leads_to(replies[i], states[i + 1])
}

/// Whether answer `i` was that `signal` was caught, and a cleanup of
/// `mountpoints` began with it.
pub open spec fn was_caught(
    mountpoints: Vec<HostPath>,
    states: Seq<SignalHandler>,
    replies: Seq<SignalReply>,
    i: int,
    signal: Termination,
) -> bool {
    &&& 0 <= i < replies.len()
    &&& replies[i] matches SignalReply::Caught(Some(caught)) && caught == signal
    &&& states[i + 1] matches SignalHandler::Cleanup { cleanup, .. } && cleanup.starts(
        byte_names(mountpoints@),
        Seq::empty(),
    )
}

proof fn lemma_handling_evidence(
    mountpoints: Vec<HostPath>,
    states: Seq<SignalHandler>,
    replies: Seq<SignalReply>,
    k: int,
)
    requires
        is_handling(mountpoints, states, replies),
        0 <= k < states.len(),
    ensures
        match states[k] {
            SignalHandler::Register { mountpoints: m } => m == mountpoints,
            SignalHandler::Listen { mountpoints: m } => m == mountpoints,
            SignalHandler::Cleanup { signal, .. } => exists|i: int| #[trigger]
                was_caught(mountpoints, states, replies, i, signal),
        },
    decreases k,
{
    if k > 0 {
        let prior = k - 1;
        lemma_handling_evidence(mountpoints, states, replies, prior);
        assert(handling_went_on(states, replies, prior));
        if states[k] is Cleanup {
            let signal = states[k]->Cleanup_signal;
            if states[prior] is Cleanup {
                let i = choose|i: int| #[trigger]
                    was_caught(mountpoints, states, replies, i, signal);
                assert(was_caught(mountpoints, states, replies, i, signal));
            } else {
                assert(was_caught(mountpoints, states, replies, prior, signal));
            }
        }
    }
}

/// A process is ended for a signal only after a whole cleanup: an exit code comes
/// out only where a signal was caught, the mountpoints were unmounted and
/// configfs was swept, and the code tells which signal it was.
pub proof fn law_a_signal_ends_the_process_only_after_a_cleanup(
    mountpoints: Vec<HostPath>,
    states: Seq<SignalHandler>,
    replies: Seq<SignalReply>,
    last: SignalReply,
    code: i32,
)
    requires
        is_handling(mountpoints, states, replies),
        states.last().ends(last),
        states.last().outcome(last, Ok::<SignalEnd, Error>(SignalEnd::Exit(code))),
    ensures
        exists|i: int, signal: Termination| #[trigger]
            was_caught(mountpoints, states, replies, i, signal) && code == 128
                + signal.spec_number(),
        states.last() matches SignalHandler::Cleanup { cleanup, .. } && (last matches
            SignalReply::Cleanup(reply) && cleanup.ends(reply)),
{
    lemma_handling_evidence(mountpoints, states, replies, states.len() - 1);
    let signal = states.last()->Cleanup_signal;
    let i = choose|i: int| #[trigger] was_caught(mountpoints, states, replies, i, signal);
    assert(was_caught(mountpoints, states, replies, i, signal));
}

/// A mount as the kernel knows it.
pub struct MountView {
    pub source: Seq<char>,
    pub point: Seq<char>,
    /// The file system, its options, and what else the kernel writes.
    pub rest: Seq<char>,
}

impl MountView {
    /// Whether the kernel can write a line for the mount.
    pub open spec fn can_be_listed(self) -> bool {
        &&& self.source.len() > 0
        &&& self.point.len() > 0
        &&& self.rest.len() > 0
        &&& self.rest.last() != '\r'
        &&& !self.rest.contains('\n')
    }

    /// The line that the kernel writes for the mount.
    pub open spec fn line(self) -> Seq<char> {
        text::escaped(self.source) + seq![' '] + (text::escaped(self.point) + seq![' '] + self.rest)
    }
}

/// The table that the kernel writes for some mounts.
pub open spec fn mount_table(mounts: Seq<MountView>) -> Seq<char> {
    text::ended(Seq::new(mounts.len(), |i: int| mounts[i].line()))
}

/// A line that the kernel writes is for the path on which it says that something
/// is mounted and for no other, be it above that path, below it or alike.
pub proof fn law_a_mount_line_is_for_one_path(mount: MountView, target: Seq<char>)
    requires
        mount.source.len() > 0,
        mount.point.len() > 0,
    ensures
        is_mount_line(mount.line(), target) <==> mount.point == target,
{
    text::law_table_fields_read_back(mount.source, mount.point, mount.rest);
}

/// A table that the kernel writes lists exactly the paths on which something is
/// mounted.
pub proof fn law_a_table_lists_exactly_what_is_mounted(mounts: Seq<MountView>, target: Seq<char>)
    requires
        forall|i: int| 0 <= i < mounts.len() ==> (#[trigger] mounts[i]).can_be_listed(),
    ensures
        lists_mount(mount_table(mounts), target) <==> exists|i: int|
            0 <= i < mounts.len() && (#[trigger] mounts[i]).point == target,
{
    let written = Seq::new(mounts.len(), |i: int| mounts[i].line());
    assert forall|i: int| 0 <= i < written.len() implies !(#[trigger] written[i]).contains('\n')
        && written[i].last() != '\r' by {
        let mount = mounts[i];
        assert(mount.can_be_listed());
        let line = mount.line();
        let source = text::escaped(mount.source);
        let point = text::escaped(mount.point);
        text::lemma_escaped_has_no_line_feed(mount.source);
        text::lemma_escaped_has_no_line_feed(mount.point);
        assert(line.last() == mount.rest.last());
        assert forall|j: int| 0 <= j < line.len() implies line[j] != '\n' by {
            let second = source.len() + 1;
            let third = second + point.len() + 1;
            if j < source.len() {
                assert(line[j] == source[j]);
                assert(source.contains(source[j]));
            } else if second <= j < second + point.len() {
                assert(line[j] == point[j - second]);
                assert(point.contains(point[j - second]));
            } else if j >= third {
                assert(line[j] == mount.rest[j - third]);
                assert(mount.rest.contains(mount.rest[j - third]));
            }
        }
    }
    text::law_lines_read_back(written);
    assert(text::lines(mount_table(mounts)) == written);
    assert forall|i: int| 0 <= i < mounts.len() implies (is_mount_line(
        #[trigger] written[i],
        target,
    ) <==> mounts[i].point == target) by {
        assert(mounts[i].can_be_listed());
        law_a_mount_line_is_for_one_path(mounts[i], target);
    }
    if exists|i: int| 0 <= i < mounts.len() && (#[trigger] mounts[i]).point == target {
        let i = choose|i: int| 0 <= i < mounts.len() && (#[trigger] mounts[i]).point == target;
        assert(is_mount_line(text::lines(mount_table(mounts))[i], target));
    }
}

/// Unmounting a path asks about that path alone: it is looked up in the mount
/// table, where it is found exactly if something is mounted on it, and it is the
/// path that is unmounted. Only the host's word that it was unmounted makes the
/// outcome so.
pub proof fn law_the_path_that_is_unmounted_is_the_one_that_was_given(
    unmounting: PathUnmount,
    op: PathOp,
    reply: PathReply,
    mounts: Seq<MountView>,
)
    requires
        unmounting.asks(op),
        forall|i: int| 0 <= i < mounts.len() ==> (#[trigger] mounts[i]).can_be_listed(),
    ensures
        match op {
            PathOp::ReadText(path) => path@ == "/proc/mounts"@,
            PathOp::Unmount(path) => path@ == unmounting.target@,
            PathOp::Sleep(span) => span == 500_000_000,
            PathOp::Sync => true,
        },
        unmounting.after(reply) matches Progress::Running(next) ==> next.target
            == unmounting.target,
        op is ReadText && (reply matches PathReply::Text(Ok(contents)) && contents@ == mount_table(
            mounts,
        )) ==> (unmounting.after(reply) is Running <==> exists|i: int|
            0 <= i < mounts.len() && (#[trigger] mounts[i]).point == shown(unmounting.target@)),
        unmounting.after(reply) == Progress::<PathUnmount, bool>::Finished(true) <==> op is Unmount
            && (reply matches PathReply::Unmounted(Ok(_))),
{
    law_a_table_lists_exactly_what_is_mounted(mounts, shown(unmounting.target@));
}

/// A sweep takes an entry for one of this crate's exactly by how its name
/// begins.
pub proof fn law_a_sweep_goes_by_how_a_name_begins(name: Seq<char>)
    ensures
        is_marked(encode_utf8(name), DEV_PREFIX@) <==> name.len() >= 4 && name.take(4) == seq![
            'p',
            'o',
            'c',
            '_',
        ],
        is_marked(encode_utf8(name), NAA_PREFIX@) <==> name.len() >= 16 && name.take(16)
            == "naa.5001405e0b0d"@,
{
    vstd::utf8::encode_utf8_valid_utf8(name);
    vstd::utf8::encode_utf8_decode_utf8(name);
    reveal_strlit("poc_");
    reveal_strlit("naa.5001405e0b0d");
    assert(DEV_PREFIX@ =~= seq!['p', 'o', 'c', '_']);
    if name.len() >= 4 {
        assert(name.take(4) =~= name.subrange(0, 4));
    }
    if name.len() >= 16 {
        assert(name.take(16) =~= name.subrange(0, 16));
    }
}

/// What a sweep removes for an entry stands at that entry's own paths: the LUN,
/// the portal group and the nexus under the nexus's name, with the symlinks in
/// the LUN under their own, and the backstore under its name.
pub proof fn law_a_sweep_removes_under_the_names_it_found(
    sweep: SweepView,
    op: RemovalOp,
    name: Seq<char>,
    link: Seq<char>,
)
    requires
        sweep.asks(SweepOp::Remove(op)),
        configfs::is_segment(name),
        configfs::is_segment(link),
        sweep.phase.at_nexus() ==> sweep.nexus_names[sweep.at as int] == encode_utf8(name),
        sweep.phase.at_backstore() ==> sweep.backstore_names[sweep.at as int] == encode_utf8(name),
        sweep.phase is LinkRemove ==> sweep.links[sweep.link as int] == encode_utf8(link),
    ensures
        ({
            let nexus = "/sys/kernel/config/target/loopback/"@ + name;
            let at = match op {
                RemovalOp::LinkExists(path) => path@,
                RemovalOp::RemoveFile(path) => path@,
                RemovalOp::IsDir(path) => path@,
                RemovalOp::RemoveDir(path) => path@,
            };
            &&& sweep.phase is LinkRemove <==> op is LinkExists || op is RemoveFile
            &&& match sweep.phase {
                SweepPhase::LinkRemove => at == encode_utf8(
                    nexus + "/tpgt_1/lun/lun_0/"@ + link,
                ),
                SweepPhase::Lun => at == encode_utf8(nexus + "/tpgt_1/lun/lun_0"@),
                SweepPhase::Tpgt => at == encode_utf8(nexus + "/tpgt_1"@),
                SweepPhase::Nexus => at == encode_utf8(nexus),
                SweepPhase::Backstore => at == encode_utf8(
                    "/sys/kernel/config/target/core/user_1/"@ + name,
                ),
                SweepPhase::Hba => at == encode_utf8("/sys/kernel/config/target/core/user_1"@),
                _ => false,
            }
        }),
{
    vstd::utf8::encode_utf8_valid_utf8(name);
    vstd::utf8::encode_utf8_decode_utf8(name);
    configfs::law_configfs_paths_hold_the_names(name, name);
    configfs::law_configfs_paths_hold_the_names(link, name);
    path::law_text_and_bytes_join_alike(configfs::hba_text(), name);
    path::law_text_and_bytes_join_alike(configfs::loopback_text(), name);
    path::law_text_and_bytes_join_alike(configfs::lun0_text(name), link);
}

/// A sweep lists the nexuses and the backstores where configfs holds them, and
/// the symlinks where the nexus that it is at holds them.
pub proof fn law_a_sweep_lists_where_devices_stand(
    sweep: SweepView,
    at: HostPath,
    name: Seq<char>,
)
    requires
        sweep.asks(SweepOp::List(at)),
        configfs::is_segment(name),
        sweep.phase.at_nexus() ==> sweep.nexus_names[sweep.at as int] == encode_utf8(name),
    ensures
        match sweep.phase {
            SweepPhase::Nexuses => at@ == encode_utf8("/sys/kernel/config/target/loopback"@),
            SweepPhase::Links => at@ == encode_utf8(
                "/sys/kernel/config/target/loopback/"@ + name + "/tpgt_1/lun/lun_0"@,
            ),
            SweepPhase::Backstores => at@ == encode_utf8("/sys/kernel/config/target/core/user_1"@),
            _ => false,
        },
{
    vstd::utf8::encode_utf8_valid_utf8(name);
    vstd::utf8::encode_utf8_decode_utf8(name);
    configfs::law_configfs_paths_hold_the_names(name, name);
}

/// Whether the symlink at place `j` of the nexus at place `at` was looked at
/// before `k` and, where it is one, its removal was gone through.
pub open spec fn link_was_dealt_with(
    states: Seq<SweepView>,
    replies: Seq<SweepReply>,
    k: int,
    at: nat,
    j: int,
) -> bool {
    exists|i: int| #[trigger] link_was_looked_at(states, replies, i, at, j) && i < k && (replies[i]
        == SweepReply::IsSymlink(true) ==> link_was_taken(states, replies, k, at, j))
}

/// Whether the answer at `i` was whether the entry at place `j` of the nexus at
/// place `at` is a symlink.
pub open spec fn link_was_looked_at(
    states: Seq<SweepView>,
    replies: Seq<SweepReply>,
    i: int,
    at: nat,
    j: int,
) -> bool {
    &&& 0 <= i < replies.len()
    &&& states[i].phase is LinkProbe
    &&& states[i].at == at
    &&& states[i].link == j
    &&& replies[i] is IsSymlink
}

/// Whether the removal of the symlink at place `j` of the nexus at place `at` was
/// gone through before `k`.
pub open spec fn link_was_taken(
    states: Seq<SweepView>,
    replies: Seq<SweepReply>,
    k: int,
    at: nat,
    j: int,
) -> bool {
    exists|m: int| #[trigger] link_removal_ended(states, replies, m, at, j) && m < k
}

/// Whether the answer at `m` ended the removal of the symlink at place `j` of the
/// nexus at place `at`.
pub open spec fn link_removal_ended(
    states: Seq<SweepView>,
    replies: Seq<SweepReply>,
    m: int,
    at: nat,
    j: int,
) -> bool {
    &&& 0 <= m < replies.len()
    &&& states[m].phase is LinkRemove
    &&& states[m].at == at
    &&& states[m].link == j
    &&& states[m].ends_removal(replies[m])
}

proof fn lemma_link_stays_dealt_with(
    states: Seq<SweepView>,
    replies: Seq<SweepReply>,
    k: int,
    at: nat,
    j: int,
)
    ensures
        link_was_dealt_with(states, replies, k, at, j) ==> link_was_dealt_with(
            states,
            replies,
            k + 1,
            at,
            j,
        ),
{
    if link_was_dealt_with(states, replies, k, at, j) {
        let i = choose|i: int| #[trigger] link_was_looked_at(states, replies, i, at, j) && i < k
            && (replies[i] == SweepReply::IsSymlink(true) ==> link_was_taken(
            states,
            replies,
            k,
            at,
            j,
        ));
        assert(link_was_looked_at(states, replies, i, at, j));
        if replies[i] == SweepReply::IsSymlink(true) {
            let m = choose|m: int| #[trigger] link_removal_ended(states, replies, m, at, j) && m
                < k;
            assert(link_removal_ended(states, replies, m, at, j));
        }
    }
}

/// How many entries of a nexus a sweep that is at it has dealt with.
spec fn links_met(sweep: SweepView, all: nat) -> nat {
    if sweep.phase is LinkProbe || sweep.phase is LinkRemove {
        sweep.link
    } else {
        all
    }
}

proof fn lemma_links_are_dealt_with(
    states: Seq<SweepView>,
    replies: Seq<SweepReply>,
    listed: int,
    found: Vec<HostPath>,
    k: int,
)
    requires
        is_sweep(states, replies),
        0 <= listed < k < states.len(),
        states[listed].phase is Links,
        replies[listed] == SweepReply::Names(Some(found)),
    ensures
        states[k].at == states[listed].at && states[k].phase.at_nexus() ==> states[k].links
            == byte_names(found@) && !(states[k].phase is Links),
        states[k].at == states[listed].at && states[k].phase.at_nexus() && (states[k].phase
            is LinkProbe || states[k].phase is LinkRemove) ==> states[k].link < found@.len(),
        states[k].at != states[listed].at ==> states[k].at > states[listed].at
            || states[k].phase.past_nexuses(),
        !states[k].phase.at_nexus() ==> states[k].phase.past_nexuses(),
        forall|j: int|
            0 <= j < found@.len() && (j < links_met(states[k], found@.len()) || states[k].at
                != states[listed].at || !states[k].phase.at_nexus()) ==> #[trigger]
                link_was_dealt_with(states, replies, k, states[listed].at, j),
    decreases k,
{
    let at = states[listed].at;
    let prior = k - 1;
    assert(sweep_went_on(states, replies, prior));
    assert(byte_names(found@).len() == found@.len());
    let before = states[prior];
    let now = states[k];
    lemma_sweep_evidence(states, replies, prior);
    if before.phase.at_nexus() {
        lemma_first_marked(before.nexus_names, before.at + 1, NAA_PREFIX@);
    }
    if prior > listed {
        lemma_links_are_dealt_with(states, replies, listed, found, prior);
        assert forall|j: int|
            0 <= j < found@.len() && (j < links_met(now, found@.len()) || now.at != at
                || !now.phase.at_nexus()) implies #[trigger] link_was_dealt_with(
            states,
            replies,
            k,
            at,
            j,
        ) by {
            lemma_link_stays_dealt_with(states, replies, prior, at, j);
            if before.at == at && before.phase.at_nexus() && j == before.link {
                if before.phase is LinkProbe && replies[prior] is IsSymlink {
                    assert(link_was_looked_at(states, replies, prior, at, j));
                }
                if before.phase is LinkRemove && before.ends_removal(replies[prior]) {
                    lemma_link_was_looked_at(states, replies, prior);
                    let i = choose|i: int| #[trigger]
                        link_was_looked_at(states, replies, i, at, j) && i < prior;
                    assert(link_was_looked_at(states, replies, i, at, j));
                    assert(link_removal_ended(states, replies, prior, at, j));
                    assert(link_was_taken(states, replies, k, at, j));
                }
            }
        }
    }
}

/// A sweep leaves out no symlink of a nexus: before it removes the LUN in which
/// the host listed some entries, and before it goes on to another nexus or to
/// the backstores, it has looked at each of them and gone through the removal of
/// each that is a symlink.
pub proof fn law_every_symlink_of_a_nexus_is_dealt_with(
    states: Seq<SweepView>,
    replies: Seq<SweepReply>,
    listed: int,
    found: Vec<HostPath>,
    k: int,
    j: int,
)
    requires
        is_sweep(states, replies),
        0 <= listed < k < states.len(),
        states[listed].phase is Links,
        replies[listed] == SweepReply::Names(Some(found)),
        states[k].phase is Lun || states[k].phase is Links || states[k].phase is Backstores
            || states[k].phase is Hba,
        0 <= j < found@.len(),
    ensures
        link_was_dealt_with(states, replies, k, states[listed].at, j),
{
    lemma_links_are_dealt_with(states, replies, listed, found, k);
}

proof fn lemma_link_was_looked_at(states: Seq<SweepView>, replies: Seq<SweepReply>, k: int)
    requires
        is_sweep(states, replies),
        0 <= k < states.len(),
        states[k].phase is LinkRemove,
    ensures
        exists|i: int| #[trigger]
            link_was_looked_at(states, replies, i, states[k].at, states[k].link as int) && i < k,
    decreases k,
{
    let prior = k - 1;
    assert(states[0].phase is Nexuses);
    assert(sweep_went_on(states, replies, prior));
    let at = states[k].at;
    let j = states[k].link as int;
    if states[prior].phase is LinkRemove {
        lemma_link_was_looked_at(states, replies, prior);
        let i = choose|i: int| #[trigger] link_was_looked_at(states, replies, i, at, j) && i < prior;
        assert(link_was_looked_at(states, replies, i, at, j));
    } else {
        assert(link_was_looked_at(states, replies, prior, at, j));
    }
}

/// A path that stays busy is tried twenty times: a failed try leaves one fewer,
/// there are twenty at the start, and the path is given up exactly where none is
/// left.
pub proof fn law_a_busy_path_is_tried_twenty_times(unmounting: PathUnmount, reply: PathReply)
    ensures
        unmounting.phase is Probe ==> unmounting.tries_left() == 20,
        unmounting.after(reply) matches Progress::Running(next) ==> next.tries_left() == (
        if unmounting.phase is Try && reply is Unmounted && unmounting.tries_left() > 0 {
            unmounting.tries_left() - 1
        } else {
            unmounting.tries_left() as int
        }),
        unmounting.phase is Pause && reply is Slept ==> (unmounting.after(reply) == Progress::<
            PathUnmount,
            bool,
        >::Finished(false) <==> unmounting.tries_left() == 0),
        unmounting.phase is Try && reply is Unmounted ==> (unmounting.after(reply) is Running <==>
            reply->Unmounted_0 is Err),
{
}

} // verus!
