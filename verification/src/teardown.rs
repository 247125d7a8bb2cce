//! Taking a device's configfs entries down.
//!
//! Teardown is order sensitive - LUN symlink, `lun_0`, `tpgt_1`, `naa.*`,
//! backstore, HBA - and every step is idempotent, so it can safely run over a
//! half-built device.

use vstd::prelude::*;
use vstd::utf8::encode_utf8;

use crate::configfs;
use crate::configfs::removal_after;
use crate::configfs::Removal;
use crate::configfs::RemovalOp;
use crate::configfs::RemovalReply;
use crate::configfs::ScsiOp;
use crate::configfs::ScsiReply;
use crate::configfs::ScsiWait;
use crate::configfs::DEV_PREFIX;
use crate::configfs::NAA_PREFIX;
use crate::host::Progress;
use crate::path::joined;
use crate::path::HostPath;

verus! {

/// One step of taking a device down. None of them fails: what is already gone
/// is passed over, and what is still in use is left.
#[derive(Debug)]
pub enum TeardownStep {
    RemoveLink(String),
    RemoveDir(String),
    /// Wait for the SCSI device to disappear.
    AwaitRemoval { address: String, timeout: u128 },
}

/// What a step removes or waits for.
pub enum StepView {
    RemoveLink(Seq<char>),
    RemoveDir(Seq<char>),
    AwaitRemoval { address: Seq<char>, timeout: u128 },
}

impl View for TeardownStep {
    type V = StepView;

    open spec fn view(&self) -> StepView {
        match self {
            TeardownStep::RemoveLink(path) => StepView::RemoveLink(path@),
            TeardownStep::RemoveDir(path) => StepView::RemoveDir(path@),
            TeardownStep::AwaitRemoval { address, timeout } => StepView::AwaitRemoval {
                address: address@,
                timeout: *timeout,
            },
        }
    }
}

/// What a sequence of steps does.
pub open spec fn step_views(steps: Seq<TeardownStep>) -> Seq<StepView> {
    Seq::new(steps.len(), |i: int| steps[i]@)
}

/// How long to wait for a SCSI device to disappear.
pub const REMOVAL_TIMEOUT: u128 = 15_000_000_000;

/// How to take a device down: LUN symlink, `lun_0`, `tpgt_1`, `naa.*`,
/// backstore, HBA, then wait for the SCSI node to disappear.
pub open spec fn teardown_plan(
    name: Seq<char>,
    naa: Seq<char>,
    address: Option<Seq<char>>,
) -> Seq<StepView> {
    seq![
        StepView::RemoveLink(configfs::lun_link_text(naa, name)),
        StepView::RemoveDir(configfs::lun0_text(naa)),
        StepView::RemoveDir(configfs::tpgt_text(naa)),
        StepView::RemoveDir(configfs::nexus_text(naa)),
        StepView::RemoveDir(configfs::backstore_text(name)),
        StepView::RemoveDir(configfs::hba_text()),
    ] + match address {
        Some(address) => seq![StepView::AwaitRemoval { address, timeout: REMOVAL_TIMEOUT }],
        None => Seq::empty(),
    }
}

/// The text of an optional string.
pub open spec fn optional_text(s: Option<String>) -> Option<Seq<char>> {
    match s {
        Some(s) => Some(s@),
        None => None,
    }
}

/// A teardown under way; see [`teardown`].
#[derive(Debug)]
pub struct Teardown {
    pub current: StepRun,
    /// The steps that are still to come.
    pub rest: Vec<TeardownStep>,
}

/// A step under way.
#[derive(Debug)]
pub enum StepRun {
    Removal(Removal),
    Scsi(ScsiWait),
}

/// What a teardown asks of the host.
#[derive(Debug)]
pub enum TeardownOp {
    Removal(RemovalOp),
    Scsi(ScsiOp),
}

#[derive(Debug)]
pub enum TeardownReply {
    Removal(RemovalReply),
    Scsi(ScsiReply),
}

impl StepRun {
    /// Whether this is the given step, however far it is.
    pub open spec fn is_for(self, step: StepView) -> bool {
        match step {
            StepView::RemoveLink(path) => self matches StepRun::Removal(removal)
                && removal.target is Symlink && removal.path@ == encode_utf8(path),
            StepView::RemoveDir(path) => self matches StepRun::Removal(removal)
                && removal.target is Directory && removal.path@ == encode_utf8(path),
            StepView::AwaitRemoval { address, timeout } => self matches StepRun::Scsi(wait)
                && wait.address@ == address && wait.timeout == timeout,
        }
    }

    /// Whether a step has just begun.
    pub open spec fn is_fresh(self) -> bool {
        match self {
            StepRun::Removal(removal) => removal.phase is Probe,
            StepRun::Scsi(wait) => wait.phase is Probe,
        }
    }

    fn start(step: TeardownStep) -> (run: StepRun)
        ensures
            run.is_for(step@),
            run.is_fresh(),
    {
        match step {
            TeardownStep::RemoveLink(path) => StepRun::Removal(
                configfs::rm_symlink(HostPath::new(path.as_str())),
            ),
            TeardownStep::RemoveDir(path) => StepRun::Removal(
                configfs::rmdir(HostPath::new(path.as_str())),
            ),
            TeardownStep::AwaitRemoval { address, timeout } => StepRun::Scsi(
                configfs::wait_for_scsi_removal(address.as_str(), timeout),
            ),
        }
    }
}

/// Take a device down, strictly in reverse creation order. Whatever the host
/// answers, the teardown does not fail.
pub fn teardown(name: &str, naa: &str, address: Option<String>) -> (teardown: Teardown)
    ensures
        teardown.is_at(teardown_plan(name@, naa@, optional_text(address))),
{
    let mut rest: Vec<TeardownStep> = Vec::new();
    rest.push(TeardownStep::RemoveDir(configfs::lun0_path(naa)));
    rest.push(TeardownStep::RemoveDir(configfs::tpgt_path(naa)));
    rest.push(TeardownStep::RemoveDir(configfs::nexus_path(naa)));
    rest.push(TeardownStep::RemoveDir(configfs::backstore_path(name)));
    // Only succeeds once empty, which is what we want.
    rest.push(TeardownStep::RemoveDir(configfs::hba_path()));
    if let Some(address) = address {
        rest.push(TeardownStep::AwaitRemoval { address, timeout: REMOVAL_TIMEOUT });
    }
    assert(step_views(rest@) =~= teardown_plan(name@, naa@, optional_text(address)).skip(1));
    let first = TeardownStep::RemoveLink(configfs::lun_link_path(naa, name));
    Teardown { current: StepRun::start(first), rest }
}

impl Teardown {
    /// Whether the teardown is about to do `steps`.
    pub open spec fn is_at(self, steps: Seq<StepView>) -> bool {
        &&& steps.len() > 0
        &&& self.current.is_for(steps[0])
        &&& self.current.is_fresh()
        &&& step_views(self.rest@) == steps.skip(1)
    }

    /// Whether `op` is what the host is asked for.
    pub open spec fn asks(self, op: TeardownOp) -> bool {
        match self.current {
            StepRun::Removal(removal) => op matches TeardownOp::Removal(o) && removal.asks(o),
            StepRun::Scsi(wait) => op matches TeardownOp::Scsi(o) && wait.asks(o),
        }
    }

    /// Whether an answer ends the step that is under way.
    pub open spec fn ends_step(self, reply: TeardownReply) -> bool {
        match (self.current, reply) {
            (StepRun::Removal(removal), TeardownReply::Removal(reply)) => removal_after(
                removal.phase,
                reply,
            ) is None,
            (StepRun::Scsi(wait), TeardownReply::Scsi(reply)) => wait.after(reply) is None,
            _ => false,
        }
    }

    /// Whether an answer ends the teardown.
    pub open spec fn ends(self, reply: TeardownReply) -> bool {
        self.ends_step(reply) && self.rest@.len() == 0
    }

    /// Whether an answer that does not end the teardown leads to `next`.
    pub open spec fn leads_to(self, reply: TeardownReply, next: Teardown) -> bool {
        if self.ends_step(reply) {
            next.is_at(step_views(self.rest@))
        } else {
            match (self.current, reply) {
                (StepRun::Removal(removal), TeardownReply::Removal(reply)) => {
                    &&& removal_after(removal.phase, reply) matches Some(phase)
                    &&& next == Teardown {
                        current: StepRun::Removal(Removal { phase, ..removal }),
                        ..self
                    }
                },
                (StepRun::Scsi(wait), TeardownReply::Scsi(reply)) => {
                    &&& wait.after(reply) matches Some(wait)
                    &&& next == Teardown { current: StepRun::Scsi(wait), ..self }
                },
                _ => next == self,
            }
        }
    }

    /// What to ask the host.
    pub fn op(&self) -> (op: TeardownOp)
        ensures
            self.asks(op),
    {
        match &self.current {
            StepRun::Removal(removal) => TeardownOp::Removal(removal.op()),
            StepRun::Scsi(wait) => TeardownOp::Scsi(wait.op()),
        }
    }

    /// Take the host's answer.
    pub fn resume(self, reply: TeardownReply) -> (progress: Progress<Teardown, ()>)
        ensures
            match progress {
                Progress::Running(next) => !self.ends(reply) && self.leads_to(reply, next),
                Progress::Finished(_) => self.ends(reply),
            },
    {
        let mut rest = self.rest;
        let current = match (self.current, reply) {
            (StepRun::Removal(removal), TeardownReply::Removal(reply)) => {
                match removal.resume(reply) {
                    Progress::Running(removal) => Some(StepRun::Removal(removal)),
                    Progress::Finished(_) => None,
                }
            },
            (StepRun::Scsi(wait), TeardownReply::Scsi(reply)) => match wait.resume(reply) {
                Progress::Running(wait) => Some(StepRun::Scsi(wait)),
                Progress::Finished(_) => None,
            },
            (current, _) => Some(current),
        };
        if let Some(current) = current {
            return Progress::Running(Teardown { current, rest });
        }
        if rest.len() == 0 {
            return Progress::Finished(());
        }
        let ghost steps = step_views(rest@);
        let first = rest.remove(0);
        assert(step_views(rest@) =~= steps.skip(1));
        Progress::Running(Teardown { current: StepRun::start(first), rest })
    }
}

impl Teardown {
    /// Whether the host's next answer can lead to `next`: one that does not fit
    /// changes nothing.
    pub open spec fn moves_to(self, next: Teardown) -> bool {
        exists|reply: TeardownReply|
            !self.ends(reply) && #[trigger] self.leads_to(reply, next)
    }
}

/// Whether a teardown of `plan` is under way from state `s` to state `k`. In
/// `seen` stands, for each state of whatever it is a part of, the teardown where
/// there is one.
pub open spec fn is_teardown(
    plan: Seq<StepView>,
    seen: Seq<Option<Teardown>>,
    s: int,
    k: int,
) -> bool {
    &&& 0 <= s <= k < seen.len()
    &&& seen[s] matches Some(teardown) && teardown.is_at(plan)
    &&& forall|i: int| s <= i < k ==> #[trigger] teardown_went_on(seen, i)
}

/// Whether the teardown of state `i` led on to that of the next.
pub open spec fn teardown_went_on(seen: Seq<Option<Teardown>>, i: int) -> bool {
    &&& seen[i] matches Some(before)
    &&& seen[i + 1] matches Some(after)
    &&& before.moves_to(after) || before == after
}

/// Whether a teardown of `plan` is under way in state `k`.
pub open spec fn takes_down(plan: Seq<StepView>, seen: Seq<Option<Teardown>>, k: int) -> bool {
    exists|s: int| #[trigger] is_teardown(plan, seen, s, k)
}

/// Whether the teardown was at `step` in state `i`.
pub open spec fn was_doing(seen: Seq<Option<Teardown>>, i: int, step: StepView) -> bool {
    0 <= i < seen.len() && (seen[i] matches Some(teardown) && teardown.current.is_for(step))
}

/// Whether the teardown has been at `step` by state `k`.
pub open spec fn has_been_doing(seen: Seq<Option<Teardown>>, k: int, step: StepView) -> bool {
    exists|i: int| i <= k && #[trigger] was_doing(seen, i, step)
}

pub(crate) proof fn lemma_teardown_begins(
    plan: Seq<StepView>,
    seen: Seq<Option<Teardown>>,
    k: int,
)
    requires
        0 <= k < seen.len(),
        seen[k] matches Some(teardown) && teardown.is_at(plan),
    ensures
        takes_down(plan, seen, k),
{
    assert(is_teardown(plan, seen, k, k));
}

pub(crate) proof fn lemma_teardown_goes_on(
    plan: Seq<StepView>,
    seen: Seq<Option<Teardown>>,
    k: int,
)
    requires
        takes_down(plan, seen, k),
        k + 1 < seen.len(),
        teardown_went_on(seen, k),
    ensures
        takes_down(plan, seen, k + 1),
{
    let s = choose|s: int| #[trigger] is_teardown(plan, seen, s, k);
    assert(is_teardown(plan, seen, s, k + 1));
}

proof fn lemma_teardown_evidence(
    plan: Seq<StepView>,
    seen: Seq<Option<Teardown>>,
    s: int,
    k: int,
)
    requires
        is_teardown(plan, seen, s, k),
    ensures
        seen[k] is Some,
        seen[k]->Some_0.rest@.len() < plan.len(),
        step_views(seen[k]->Some_0.rest@) == plan.skip(
            plan.len() - seen[k]->Some_0.rest@.len(),
        ),
        seen[k]->Some_0.current.is_for(plan[plan.len() - seen[k]->Some_0.rest@.len() - 1]),
        forall|j: int|
            0 <= j < plan.len() - seen[k]->Some_0.rest@.len() ==> #[trigger] has_been_doing(
                seen,
                k,
                plan[j],
            ),
    decreases k - s,
{
    if k == s {
        let after = seen[k]->Some_0;
        assert(step_views(after.rest@).len() == after.rest@.len());
        assert forall|j: int| 0 <= j < plan.len() - after.rest@.len() implies
            #[trigger] has_been_doing(seen, k, plan[j]) by {
            assert(was_doing(seen, k, plan[j]));
        }
    } else {
        let prior = k - 1;
        assert(is_teardown(plan, seen, s, prior));
        lemma_teardown_evidence(plan, seen, s, prior);
        assert(teardown_went_on(seen, prior));
        let before = seen[prior]->Some_0;
        let after = seen[k]->Some_0;
        let done = plan.len() - before.rest@.len();
        assert(step_views(before.rest@).len() == before.rest@.len());
        assert(step_views(after.rest@).len() == after.rest@.len());
        assert(after == before || before.moves_to(after));
        if before.moves_to(after) {
            let reply = choose|reply: TeardownReply|
                !before.ends(reply) && #[trigger] before.leads_to(reply, after);
            if before.ends_step(reply) {
                assert(plan.skip(done)[0] == plan[done]);
                assert(plan.skip(done).skip(1) =~= plan.skip(done + 1));
            }
        }
        assert forall|j: int| 0 <= j < plan.len() - after.rest@.len() implies
            #[trigger] has_been_doing(seen, k, plan[j]) by {
            if j < done {
                assert(has_been_doing(seen, prior, plan[j]));
                let i = choose|i: int| i <= prior && #[trigger] was_doing(seen, i, plan[j]);
                assert(was_doing(seen, i, plan[j]));
            } else {
                assert(was_doing(seen, k, plan[j]));
            }
        }
    }
}

/// A teardown does its steps one after the other and leaves none out: while it is
/// at one of them it has been at all those before, and by the time it is done it
/// has been at every one.
pub proof fn law_a_teardown_does_every_step_in_order(
    plan: Seq<StepView>,
    seen: Seq<Option<Teardown>>,
    k: int,
    last: TeardownReply,
    j: int,
)
    requires
        takes_down(plan, seen, k),
        0 <= j < plan.len(),
    ensures
        seen[k] matches Some(teardown) && {
            &&& teardown.rest@.len() < plan.len()
            &&& teardown.current.is_for(plan[plan.len() - teardown.rest@.len() - 1])
            &&& j < plan.len() - teardown.rest@.len() ==> has_been_doing(seen, k, plan[j])
            &&& teardown.ends(last) ==> has_been_doing(seen, k, plan[j])
        },
{
    let s = choose|s: int| #[trigger] is_teardown(plan, seen, s, k);
    lemma_teardown_evidence(plan, seen, s, k);
    if j < plan.len() - seen[k]->Some_0.rest@.len() {
        assert(has_been_doing(seen, k, plan[j]));
    }
}

/// A teardown never goes back to a step that it is done with.
pub proof fn law_a_teardown_never_goes_back(before: Teardown, after: Teardown)
    requires
        before.moves_to(after),
    ensures
        after.rest@.len() <= before.rest@.len(),
{
    let reply = choose|reply: TeardownReply|
        !before.ends(reply) && #[trigger] before.leads_to(reply, after);
    assert(step_views(before.rest@).len() == before.rest@.len());
    assert(step_views(after.rest@).len() == after.rest@.len());
}

/// Whether `child` stands somewhere inside the directory `parent`.
pub open spec fn is_inside(child: Seq<char>, parent: Seq<char>) -> bool {
    parent.push('/').is_prefix_of(child)
}

proof fn lemma_joined_is_inside(base: Seq<char>, part: Seq<char>)
    requires
        base.len() > 0,
        base.last() != '/',
        part.len() > 0 ==> part[0] != '/',
    ensures
        is_inside(joined(base, part), base),
        joined(base, part) == base.push('/') + part,
{
    assert(base.push('/') =~= joined(base, part).subrange(0, base.len() as int + 1));
}

proof fn lemma_inside_deeper(child: Seq<char>, middle: Seq<char>, parent: Seq<char>)
    requires
        is_inside(child, middle),
        is_inside(middle, parent),
    ensures
        is_inside(child, parent),
{
    assert(parent.push('/') =~= child.subrange(0, parent.len() as int + 1)) by {
        assert forall|i: int| 0 <= i < parent.len() + 1 implies parent.push('/')[i] == child[i] by {
            assert(middle.push('/')[i] == middle[i]);
        }
    }
}

/// A device is taken down from the inside out: each directory goes only after
/// what the device put into it, so the symlink before its LUN, the LUN before
/// its portal group, that before its nexus, and the backstore before the HBA.
/// The wait for the SCSI device comes last.
pub proof fn law_teardown_goes_from_the_inside_out(
    name: Seq<char>,
    naa: Seq<char>,
    address: Option<Seq<char>>,
)
    requires
        DEV_PREFIX@.is_prefix_of(name),
        NAA_PREFIX@.is_prefix_of(naa),
        naa.last() != '/',
    ensures
        ({
            let plan = teardown_plan(name, naa, address);
            &&& plan[0] matches StepView::RemoveLink(link)
            &&& plan[1] matches StepView::RemoveDir(lun0)
            &&& plan[2] matches StepView::RemoveDir(tpgt)
            &&& plan[3] matches StepView::RemoveDir(nexus)
            &&& plan[4] matches StepView::RemoveDir(backstore)
            &&& plan[5] matches StepView::RemoveDir(hba)
            &&& is_inside(link, lun0)
            &&& is_inside(lun0, tpgt)
            &&& is_inside(tpgt, nexus)
            &&& is_inside(backstore, hba)
            &&& match address {
                Some(a) => plan.len() == 7 && plan[6] == (StepView::AwaitRemoval {
                    address: a,
                    timeout: REMOVAL_TIMEOUT,
                }),
                None => plan.len() == 6,
            }
        }),
{
    reveal_strlit("poc_");
    reveal_strlit("naa.5001405e0b0d");
    reveal_strlit("/sys/kernel/config/target");
    reveal_strlit("core");
    reveal_strlit("user_1");
    reveal_strlit("loopback");
    reveal_strlit("tpgt_1");
    reveal_strlit("lun");
    reveal_strlit("lun_0");
    assert(name[0] == DEV_PREFIX@[0]);
    assert(naa[0] == NAA_PREFIX@[0]);
    let tpgt = configfs::tpgt_text(naa);
    let lun = joined(tpgt, "lun"@);
    lemma_joined_is_inside(configfs::CONFIGFS@, "core"@);
    lemma_joined_is_inside(joined(configfs::CONFIGFS@, "core"@), configfs::CORE_HBA@);
    lemma_joined_is_inside(configfs::CONFIGFS@, "loopback"@);
    lemma_joined_is_inside(configfs::loopback_text(), naa);
    lemma_joined_is_inside(configfs::nexus_text(naa), "tpgt_1"@);
    lemma_joined_is_inside(tpgt, "lun"@);
    lemma_joined_is_inside(lun, "lun_0"@);
    lemma_inside_deeper(configfs::lun0_text(naa), lun, tpgt);
    lemma_joined_is_inside(configfs::lun0_text(naa), name);
    lemma_joined_is_inside(configfs::hba_text(), name);
}

/// Taking a device down removes, in this order, the symlink, the LUN, the portal
/// group and the nexus under the device's own nexus, the backstore under the
/// device's own name and the HBA, and then waits for the device at the address
/// that was given, if one was.
pub proof fn law_a_teardown_removes_what_the_device_is_made_of(
    name: Seq<char>,
    naa: Seq<char>,
    address: Option<Seq<char>>,
)
    requires
        configfs::is_segment(name),
        configfs::is_segment(naa),
    ensures
        ({
            let plan = teardown_plan(name, naa, address);
            let nexus = "/sys/kernel/config/target/loopback/"@ + naa;
            &&& plan.len() == (if address is Some {
                7nat
            } else {
                6nat
            })
            &&& plan[0] == StepView::RemoveLink(nexus + "/tpgt_1/lun/lun_0/"@ + name)
            &&& plan[1] == StepView::RemoveDir(nexus + "/tpgt_1/lun/lun_0"@)
            &&& plan[2] == StepView::RemoveDir(nexus + "/tpgt_1"@)
            &&& plan[3] == StepView::RemoveDir(nexus)
            &&& plan[4] == StepView::RemoveDir("/sys/kernel/config/target/core/user_1/"@ + name)
            &&& plan[5] == StepView::RemoveDir("/sys/kernel/config/target/core/user_1"@)
            &&& address matches Some(a) ==> plan[6] == (StepView::AwaitRemoval {
                address: a,
                timeout: 15_000_000_000,
            })
        }),
{
    configfs::law_configfs_paths_hold_the_names(name, naa);
}

/// What a teardown asks of the host at a step is about that step alone: it looks
/// for and removes the symlink or the directory that the step names, or it looks
/// for the SCSI device at the step's address.
pub proof fn law_a_teardown_asks_about_its_step(teardown: Teardown, step: StepView, op: TeardownOp)
    requires
        teardown.current.is_for(step),
        teardown.asks(op),
    ensures
        match step {
            StepView::RemoveLink(path) => match op {
                TeardownOp::Removal(RemovalOp::LinkExists(p)) => p@ == encode_utf8(path),
                TeardownOp::Removal(RemovalOp::RemoveFile(p)) => p@ == encode_utf8(path),
                _ => false,
            },
            StepView::RemoveDir(path) => match op {
                TeardownOp::Removal(RemovalOp::IsDir(p)) => p@ == encode_utf8(path),
                TeardownOp::Removal(RemovalOp::RemoveDir(p)) => p@ == encode_utf8(path),
                _ => false,
            },
            StepView::AwaitRemoval { address, .. } => match op {
                TeardownOp::Scsi(ScsiOp::Exists(p)) => p@ == "/sys/class/scsi_device/"@ + address
                    + ":0"@,
                TeardownOp::Scsi(ScsiOp::Elapsed) => true,
                TeardownOp::Scsi(ScsiOp::Sleep(span)) => span == 100_000_000,
                _ => false,
            },
        },
{
}

} // verus!
