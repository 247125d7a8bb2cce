//! The configfs side of the TCMU device lifecycle.
//!
//! A `target_core_user` backstore whose `dev_config` points at an overlaybd
//! JSON config, plus a `tcm_loop` nexus that turns it into a local `/dev/sdX`.
//! Every wait in the lifecycle is a machine in this file.

use vstd::prelude::*;

use crate::error::is_io;
use crate::error::Error;
use crate::error::IoFailure;
use crate::host::Progress;
use crate::path;
use crate::path::joined;
use crate::path::shown;
use crate::path::HostPath;
use crate::text;

verus! {

/// configfs root for the SCSI target subsystem.
pub const CONFIGFS: &'static str = "/sys/kernel/config/target";

/// The `target_core_user` HBA; the index is arbitrary but must be consistent.
pub const CORE_HBA: &'static str = "user_1";

/// Every backstore this crate creates starts with this.
pub const DEV_PREFIX: &'static str = "poc_";

/// Every `tcm_loop` nexus this crate creates starts with this.
pub const NAA_PREFIX: &'static str = "naa.5001405e0b0d";

/// Mirrors what accelerated-container-image's snapshotter uses.
pub const MAX_DATA_AREA_MB: u32 = 4;

/// `EAGAIN`, which the kernel answers while the daemon is still attaching.
pub const EAGAIN: i32 = 11;

/// Directory that holds the backstores.
pub open spec fn hba_text() -> Seq<char> {
    joined(joined(CONFIGFS@, "core"@), CORE_HBA@)
}

/// Directory that holds the nexuses.
pub open spec fn loopback_text() -> Seq<char> {
    joined(CONFIGFS@, "loopback"@)
}

/// Directory for the backstore called `name`.
pub open spec fn backstore_text(name: Seq<char>) -> Seq<char> {
    joined(hba_text(), name)
}

/// Directory for the nexus called `naa`.
pub open spec fn nexus_text(naa: Seq<char>) -> Seq<char> {
    joined(loopback_text(), naa)
}

/// Target portal group of the nexus called `naa`.
pub open spec fn tpgt_text(naa: Seq<char>) -> Seq<char> {
    joined(nexus_text(naa), "tpgt_1"@)
}

/// LUN 0 of the nexus called `naa`.
pub open spec fn lun0_text(naa: Seq<char>) -> Seq<char> {
    joined(joined(tpgt_text(naa), "lun"@), "lun_0"@)
}

/// The symlink under LUN 0 of `naa` for the backstore called `name`.
pub open spec fn lun_link_text(naa: Seq<char>, name: Seq<char>) -> Seq<char> {
    joined(lun0_text(naa), name)
}

/// The attribute in which `tcm_loop` publishes a nexus's SCSI address.
pub open spec fn address_text(naa: Seq<char>) -> Seq<char> {
    joined(tpgt_text(naa), "address"@)
}

/// Root of the SCSI target subsystem in configfs.
pub fn configfs_root() -> (path: String)
    ensures
        path@ == CONFIGFS@,
{
    CONFIGFS.to_owned()
}

/// Directory that holds the backstores.
pub fn hba_path() -> (path: String)
    ensures
        path@ == hba_text(),
{
    path::join(path::join(configfs_root().as_str(), "core").as_str(), CORE_HBA)
}

/// Directory that holds the nexuses.
pub fn loopback_path() -> (path: String)
    ensures
        path@ == loopback_text(),
{
    path::join(configfs_root().as_str(), "loopback")
}

/// Directory for a device's `target_core_user` backstore.
pub fn backstore_path(name: &str) -> (path: String)
    ensures
        path@ == backstore_text(name@),
{
    path::join(hba_path().as_str(), name)
}

/// Directory for a `tcm_loop` nexus.
pub fn nexus_path(naa: &str) -> (path: String)
    ensures
        path@ == nexus_text(naa@),
{
    path::join(loopback_path().as_str(), naa)
}

/// Target portal group for a `tcm_loop` nexus.
pub fn tpgt_path(naa: &str) -> (path: String)
    ensures
        path@ == tpgt_text(naa@),
{
    path::join(nexus_path(naa).as_str(), "tpgt_1")
}

/// LUN 0 under a nexus; the only LUN this crate creates.
pub fn lun0_path(naa: &str) -> (path: String)
    ensures
        path@ == lun0_text(naa@),
{
    path::join(path::join(tpgt_path(naa).as_str(), "lun").as_str(), "lun_0")
}

/// The symlink that binds a backstore to LUN 0, which is what makes the
/// device appear as a `/dev/sdX`.
pub fn lun_link_path(naa: &str, name: &str) -> (path: String)
    ensures
        path@ == lun_link_text(naa@, name@),
{
    path::join(lun0_path(naa).as_str(), name)
}

/// The attribute that holds a nexus's SCSI address.
pub fn address_path(naa: &str) -> (path: String)
    ensures
        path@ == address_text(naa@),
{
    path::join(tpgt_path(naa).as_str(), "address")
}

/// A configfs write under way; see [`write_attr`].
#[derive(Debug)]
pub struct AttrWrite {
    pub path: String,
    pub value: String,
    /// How long to wait after each `EAGAIN`.
    pub delay: u128,
    /// How many writes are left, the one that is asked for now included.
    pub remaining: u32,
    pub phase: AttrPhase,
}

#[derive(Debug)]
pub enum AttrPhase {
    Write,
    /// The write met `EAGAIN`, and another one follows.
    Pause,
    /// The last write met `EAGAIN` too.
    GiveUp { failure: IoFailure },
}

/// What a configfs write asks of the host.
#[derive(Debug)]
pub enum AttrOp {
    /// Open `path` for writing and write `value` in one go, with no newline.
    Write { path: String, value: String },
    Sleep(u128),
}

#[derive(Debug)]
pub enum AttrReply {
    Wrote(Result<(), IoFailure>),
    Slept,
}

/// Write a configfs attribute.
///
/// The value goes out in a single `write(2)` with no trailing newline:
/// "Configfs expects write(2) to store the entire buffer at once" (kernel
/// `Documentation/filesystems/configfs.rst`, "Normal attributes").
///
/// `retries` covers `EAGAIN`. Enabling a `target_core_user` backstore sends a
/// netlink event to the userspace handler, and the kernel fails that with
/// `-EAGAIN` while the interface is blocked, which is the window where the
/// daemon has not finished attaching. There is always at least one write.
pub fn write_attr(path: &str, value: &str, retries: u32, delay: u128) -> (writing: AttrWrite)
    ensures
        writing.begins(path@, value@, retries, delay),
{
    AttrWrite {
        path: path.to_owned(),
        value: value.to_owned(),
        delay,
        remaining: if retries == 0 {
            1
        } else {
            retries
        },
        phase: AttrPhase::Write,
    }
}

impl AttrWrite {
    /// Where an answer leads: on to another question, or to the end.
    pub open spec fn after(self, reply: AttrReply) -> Option<AttrWrite> {
        match (self.phase, reply) {
            (AttrPhase::Write, AttrReply::Wrote(Ok(_))) => None,
            (AttrPhase::Write, AttrReply::Wrote(Err(failure))) => if failure.os_code != Some(EAGAIN) {
                None
            } else if self.remaining > 1 {
                Some(
                    AttrWrite {
                        remaining: (self.remaining - 1) as u32,
                        phase: AttrPhase::Pause,
                        ..self
                    },
                )
            } else {
                Some(AttrWrite { remaining: 0, phase: AttrPhase::GiveUp { failure }, ..self })
            },
            (AttrPhase::Pause, AttrReply::Slept) => Some(
                AttrWrite { phase: AttrPhase::Write, ..self },
            ),
            (AttrPhase::GiveUp { .. }, AttrReply::Slept) => None,
            _ => Some(self),
        }
    }

    /// What the error says when the attribute cannot be written.
    pub open spec fn context(self) -> Seq<char> {
        "writing '"@ + self.value@ + "' to "@ + self.path@
    }

    /// What comes out where an answer leads to the end.
    pub open spec fn outcome(self, reply: AttrReply, out: Result<(), Error>) -> bool {
        match (self.phase, reply) {
            (AttrPhase::Write, AttrReply::Wrote(Ok(_))) => out is Ok,
            (AttrPhase::Write, AttrReply::Wrote(Err(failure))) => out matches Err(error) && is_io(
                error,
                self.context(),
                failure,
            ),
            (AttrPhase::GiveUp { failure }, _) => out matches Err(error) && is_io(
                error,
                self.context(),
                failure,
            ),
            _ => false,
        }
    }

    /// Where a run of answers leads.
    pub open spec fn after_all(self, replies: Seq<AttrReply>) -> Option<AttrWrite>
        decreases replies.len(),
    {
        if replies.len() == 0 {
            Some(self)
        } else {
            match self.after(replies[0]) {
                Some(next) => next.after_all(replies.skip(1)),
                None => None,
            }
        }
    }

    /// Whether this is a write of `value` to `path` that has just begun.
    pub open spec fn begins(
        self,
        path: Seq<char>,
        value: Seq<char>,
        retries: u32,
        delay: u128,
    ) -> bool {
        &&& self.path@ == path
        &&& self.value@ == value
        &&& self.delay == delay
        &&& self.remaining == (if retries == 0 {
            1
        } else {
            retries
        })
        &&& self.phase is Write
    }

    /// Whether an answer ends the write well.
    pub open spec fn succeeds(self, reply: AttrReply) -> bool {
        self.phase is Write && (reply matches AttrReply::Wrote(wrote) && wrote is Ok)
    }

    /// Whether an answer ends the write with an error.
    pub open spec fn fails(self, reply: AttrReply) -> bool {
        self.after(reply) is None && !self.succeeds(reply)
    }

    /// Whether `op` is what the host is asked for.
    pub open spec fn asks(self, op: AttrOp) -> bool {
        op == (match self.phase {
            AttrPhase::Write => AttrOp::Write { path: self.path, value: self.value },
            AttrPhase::Pause => AttrOp::Sleep(self.delay),
            AttrPhase::GiveUp { .. } => AttrOp::Sleep(self.delay),
        })
    }

    /// How many writes a run of answers answers.
    pub open spec fn writes(self, replies: Seq<AttrReply>) -> nat
        decreases replies.len(),
    {
        if replies.len() == 0 {
            0
        } else {
            (if self.phase is Write && replies[0] is Wrote {
                1nat
            } else {
                0nat
            }) + match self.after(replies[0]) {
                Some(next) => next.writes(replies.skip(1)),
                None => 0,
            }
        }
    }

    /// What to ask the host.
    pub fn op(&self) -> (op: AttrOp)
        ensures
            self.asks(op),
    {
        match self.phase {
            AttrPhase::Write => AttrOp::Write { path: self.path.clone(), value: self.value.clone() },
            AttrPhase::Pause => AttrOp::Sleep(self.delay),
            AttrPhase::GiveUp { .. } => AttrOp::Sleep(self.delay),
        }
    }

    fn failed(path: &str, value: &str, failure: IoFailure) -> (error: Error)
        ensures
            is_io(error, "writing '"@ + value@ + "' to "@ + path@, failure),
    {
        let context = "writing '".to_owned().concat(value).concat("' to ").concat(path);
        Error::io(context, failure)
    }

    /// Take the host's answer.
    pub fn resume(self, reply: AttrReply) -> (progress: Progress<AttrWrite, Result<(), Error>>)
        ensures
            match self.after(reply) {
                Some(next) => progress == Progress::<AttrWrite, Result<(), Error>>::Running(next),
                None => progress matches Progress::Finished(out) && self.outcome(reply, out),
            },
    {
        match self.phase {
            AttrPhase::Write => match reply {
                AttrReply::Wrote(Ok(())) => Progress::Finished(Ok(())),
                AttrReply::Wrote(Err(failure)) => {
                    let again = match failure.os_code {
                        Some(code) => code == EAGAIN,
                        None => false,
                    };
                    if !again {
                        Progress::Finished(
                            Err(Self::failed(self.path.as_str(), self.value.as_str(), failure)),
                        )
                    } else if self.remaining > 1 {
                        Progress::Running(
                            AttrWrite {
                                path: self.path,
                                value: self.value,
                                delay: self.delay,
                                remaining: self.remaining - 1,
                                phase: AttrPhase::Pause,
                            },
                        )
                    } else {
                        Progress::Running(
                            AttrWrite {
                                path: self.path,
                                value: self.value,
                                delay: self.delay,
                                remaining: 0,
                                phase: AttrPhase::GiveUp { failure },
                            },
                        )
                    }
                },
                AttrReply::Slept => Progress::Running(
                    AttrWrite {
                        path: self.path,
                        value: self.value,
                        delay: self.delay,
                        remaining: self.remaining,
                        phase: AttrPhase::Write,
                    },
                ),
            },
            AttrPhase::Pause => Progress::Running(
                AttrWrite {
                    path: self.path,
                    value: self.value,
                    delay: self.delay,
                    remaining: self.remaining,
                    phase: match reply {
                        AttrReply::Slept => AttrPhase::Write,
                        AttrReply::Wrote(_) => AttrPhase::Pause,
                    },
                },
            ),
            AttrPhase::GiveUp { failure } => match reply {
                AttrReply::Slept => Progress::Finished(
                    Err(Self::failed(self.path.as_str(), self.value.as_str(), failure)),
                ),
                AttrReply::Wrote(_) => Progress::Running(
                    AttrWrite {
                        path: self.path,
                        value: self.value,
                        delay: self.delay,
                        remaining: self.remaining,
                        phase: AttrPhase::GiveUp { failure },
                    },
                ),
            },
        }
    }
}

/// However the host answers, an attribute is written at most as often as the
/// retries allow.
pub proof fn law_writes_are_bounded(writing: AttrWrite, replies: Seq<AttrReply>)
    requires
        writing.phase is Write || writing.phase is Pause ==> writing.remaining >= 1,
    ensures
        writing.phase is GiveUp ==> writing.writes(replies) == 0,
        writing.writes(replies) <= writing.remaining,
    decreases replies.len(),
{
    if replies.len() > 0 {
        match writing.after(replies[0]) {
            Some(next) => law_writes_are_bounded(next, replies.skip(1)),
            None => {},
        }
    }
}

/// The answers of a host that meets `EAGAIN` once for each of `failures`.
pub open spec fn eagain_rounds(failures: Seq<IoFailure>) -> Seq<AttrReply>
    decreases failures.len(),
{
    if failures.len() == 0 {
        Seq::empty()
    } else {
        seq![AttrReply::Wrote(Err(failures[0])), AttrReply::Slept] + eagain_rounds(failures.skip(1))
    }
}

/// As long as writes are left, `EAGAIN` leads to the same write again.
pub proof fn law_eagain_is_retried(writing: AttrWrite, failures: Seq<IoFailure>)
    requires
        writing.phase is Write,
        failures.len() < writing.remaining,
        forall|i: int| 0 <= i < failures.len() ==> (#[trigger] failures[i]).os_code == Some(EAGAIN),
    ensures
        writing.after_all(eagain_rounds(failures)) == Some(
            AttrWrite { remaining: (writing.remaining - failures.len()) as u32, ..writing },
        ),
    decreases failures.len(),
{
    reveal_with_fuel(AttrWrite::after_all, 3);
    if failures.len() > 0 {
        let replies = eagain_rounds(failures);
        let rest = failures.skip(1);
        let next = AttrWrite { remaining: (writing.remaining - 1) as u32, ..writing };
        assert(replies.skip(1).skip(1) =~= eagain_rounds(rest));
        assert forall|i: int| 0 <= i < rest.len() implies (#[trigger] rest[i]).os_code == Some(
            EAGAIN,
        ) by {
            assert(rest[i] == failures[i + 1]);
        }
        assert(writing.after(replies[0]) == Some(AttrWrite { phase: AttrPhase::Pause, ..next }));
        law_eagain_is_retried(next, rest);
    }
}

/// A `major:minor` pair, as sysfs writes it in a `dev` attribute.
pub open spec fn parsed_devt(text: Seq<char>) -> Option<(u32, u32)> {
    match text::cut_once(text::trimmed(text), ':') {
        None => None,
        Some((major, minor)) => match (
            text::parsed_number(major, u32::MAX as nat),
            text::parsed_number(minor, u32::MAX as nat),
        ) {
            (Some(a), Some(b)) => Some((a as u32, b as u32)),
            _ => None,
        },
    }
}

/// Read a sysfs `dev` attribute ("major:minor").
pub fn sysfs_devt(attr: &str) -> (devt: Option<(u32, u32)>)
    ensures
        devt == parsed_devt(attr@),
{
    let trimmed = text::trim(attr);
    let (major, minor) = match text::split_once(trimmed.as_str(), ':') {
        Some(cut) => cut,
        None => {
            return None;
        },
    };
    match (
        text::parse_number(major.as_str(), 0xffff_ffff),
        text::parse_number(minor.as_str(), 0xffff_ffff),
    ) {
        (Some(a), Some(b)) => Some((a as u32, b as u32)),
        _ => None,
    }
}

/// The major number in a Linux `dev_t`: twelve bits at 8 and twenty more at 44;
/// see makedev(3).
pub open spec fn dev_major(rdev: u64) -> u32 {
    (((rdev & 0x0000_0000_000f_ff00) >> 8) | ((rdev & 0xffff_f000_0000_0000) >> 32)) as u32
}

/// The minor number in a Linux `dev_t`: eight bits at 0 and twenty-four more
/// at 20.
pub open spec fn dev_minor(rdev: u64) -> u32 {
    ((rdev & 0x0000_0000_0000_00ff) | ((rdev & 0x0000_0fff_fff0_0000) >> 12)) as u32
}

/// The Linux `dev_t` for a major and a minor number.
pub open spec fn makedev(major: u32, minor: u32) -> u64 {
    (((major as u64) & 0xfff) << 8) | (((major as u64) & 0xffff_f000) << 32) | ((minor as u64)
        & 0xff) | (((minor as u64) & 0xffff_ff00) << 12)
}

/// Taking a `dev_t` apart gives back the numbers it was made of, and making one
/// of its numbers gives back the `dev_t`.
pub proof fn law_dev_t_round_trip(major: u32, minor: u32, rdev: u64)
    ensures
        dev_major(makedev(major, minor)) == major,
        dev_minor(makedev(major, minor)) == minor,
        makedev(dev_major(rdev), dev_minor(rdev)) == rdev,
{
    assert(dev_major(makedev(major, minor)) == major) by (bit_vector);
    assert(dev_minor(makedev(major, minor)) == minor) by (bit_vector);
    assert(makedev(dev_major(rdev), dev_minor(rdev)) == rdev) by (bit_vector);
}

/// True once the device node exists and refers to the expected `dev_t`. `rdev`
/// is what the node's metadata holds, if there is a node.
pub fn node_matches(rdev: Option<u64>, devt: (u32, u32)) -> (yes: bool)
    ensures
        yes == (rdev matches Some(r) && (dev_major(r), dev_minor(r)) == devt),
{
    let r = match rdev {
        Some(r) => r,
        None => {
            return false;
        },
    };
    let major: u32 = ((r >> 8) & 0xfff) as u32 | ((r >> 32) & 0xffff_f000) as u32;
    let minor: u32 = (r & 0xff) as u32 | ((r >> 12) & 0xffff_ff00) as u32;
    proof {
        assert((((r >> 8) & 0xfff) as u32 | ((r >> 32) & 0xffff_f000) as u32) == dev_major(r))
            by (bit_vector);
        assert(((r & 0xff) as u32 | ((r >> 12) & 0xffff_ff00) as u32) == dev_minor(r))
            by (bit_vector);
    }
    major == devt.0 && minor == devt.1
}

/// The sector that is read to see whether a node works.
pub const SECTOR: usize = 512;

/// True once the node can actually be opened and read: `read` is how many
/// bytes of a sector came back, if the node could be opened and read at all.
///
/// A node can exist with the right `dev_t` while the device behind it is still
/// being set up or torn down, which `mount` then reports as "not a valid block
/// device".
pub fn node_readable(read: Option<usize>) -> (yes: bool)
    ensures
        yes == (read == Some(SECTOR)),
{
    match read {
        Some(n) => n == SECTOR,
        None => false,
    }
}

/// The last `count` of the lines.
pub open spec fn last_lines(all: Seq<Seq<char>>, count: nat) -> Seq<Seq<char>> {
    if all.len() <= count {
        all
    } else {
        all.skip(all.len() - count)
    }
}

/// The tail of a log: its last lines, or a remark where it cannot be read.
pub open spec fn tail_text(contents: Option<Seq<char>>, log: Seq<u8>, count: nat) -> Seq<char> {
    match contents {
        Some(contents) => text::glued(last_lines(text::lines(contents), count), "\n"@),
        None => "(no "@ + shown(log) + ")"@,
    }
}

/// Tail of the overlaybd log, for failure messages. `contents` is what the log
/// holds, if it can be read.
pub fn log_tail(contents: Option<&str>, log: &HostPath, count: usize) -> (tail: String)
    ensures
        tail@ == tail_text(
            match contents {
                Some(c) => Some(c@),
                None => None,
            },
            log@,
            count as nat,
        ),
{
    match contents {
        Some(c) => {
            let all = text::split_lines(c);
            let start: usize = if all.len() > count {
                all.len() - count
            } else {
                0
            };
            assert(text::texts(all@).skip(start as int) =~= last_lines(
                text::lines(c@),
                count as nat,
            ));
            text::glue(&all, start, "\n")
        },
        None => {
            let shown_log = log.display();
            "(no ".to_owned().concat(shown_log.as_str()).concat(")")
        },
    }
}

/// How long to wait between two looks at a result file or a SCSI device.
pub const POLL: u128 = 100_000_000;

/// A wait for the daemon's report; see [`await_result`].
#[derive(Debug)]
pub struct ResultWait {
    pub result_file: HostPath,
    pub timeout: u128,
    pub phase: ResultPhase,
}

#[derive(Debug)]
pub enum ResultPhase {
    Clock,
    Read,
    Sleep,
}

/// What a wait for the daemon's report asks of the host.
#[derive(Debug)]
pub enum ResultOp {
    /// How long the wait has taken so far, from when it first asks this.
    Elapsed,
    Read(HostPath),
    Sleep(u128),
}

#[derive(Debug)]
pub enum ResultReply {
    Elapsed(u128),
    Read(Result<String, IoFailure>),
    Slept,
}

/// Read the daemon's `resultFile`, waiting for it to appear.
///
/// The configfs write succeeds even when the device fails to attach: overlaybd
/// writes `success` or the failure reason to this file instead, so it has to be
/// checked explicitly after `enable`. The outcome is what the file says,
/// without the white space around it, or nothing when the time is up.
pub fn await_result(result_file: HostPath, timeout: u128) -> (wait: ResultWait)
    ensures
        wait == (ResultWait { result_file, timeout, phase: ResultPhase::Clock }),
{
    ResultWait { result_file, timeout, phase: ResultPhase::Clock }
}

impl ResultWait {
    /// Where an answer leads.
    pub open spec fn after(self, reply: ResultReply) -> Option<ResultWait> {
        match (self.phase, reply) {
            (ResultPhase::Clock, ResultReply::Elapsed(elapsed)) => if elapsed < self.timeout {
                Some(ResultWait { phase: ResultPhase::Read, ..self })
            } else {
                None
            },
            (ResultPhase::Read, ResultReply::Read(Ok(contents))) => if text::trimmed(
                contents@,
            ).len() > 0 {
                None
            } else {
                Some(ResultWait { phase: ResultPhase::Sleep, ..self })
            },
            (ResultPhase::Read, ResultReply::Read(Err(_))) => Some(
                ResultWait { phase: ResultPhase::Sleep, ..self },
            ),
            (ResultPhase::Sleep, ResultReply::Slept) => Some(
                ResultWait { phase: ResultPhase::Clock, ..self },
            ),
            _ => Some(self),
        }
    }

    /// What comes out where an answer leads to the end.
    pub open spec fn outcome(self, reply: ResultReply) -> Seq<char> {
        match reply {
            ResultReply::Read(Ok(contents)) => text::trimmed(contents@),
            _ => Seq::empty(),
        }
    }

    /// Whether `op` is what the host is asked for.
    pub open spec fn asks(self, op: ResultOp) -> bool {
        match self.phase {
            ResultPhase::Clock => op is Elapsed,
            ResultPhase::Read => op matches ResultOp::Read(path) && path@ == self.result_file@,
            ResultPhase::Sleep => op == ResultOp::Sleep(POLL),
        }
    }

    /// What to ask the host.
    pub fn op(&self) -> (op: ResultOp)
        ensures
            self.asks(op),
    {
        match self.phase {
            ResultPhase::Clock => ResultOp::Elapsed,
            ResultPhase::Read => ResultOp::Read(self.result_file.clone()),
            ResultPhase::Sleep => ResultOp::Sleep(POLL),
        }
    }

    fn at(self, phase: ResultPhase) -> (wait: ResultWait)
        ensures
            wait == (ResultWait { phase, ..self }),
    {
        ResultWait { result_file: self.result_file, timeout: self.timeout, phase }
    }

    /// Take the host's answer.
    pub fn resume(self, reply: ResultReply) -> (progress: Progress<ResultWait, String>)
        ensures
            match self.after(reply) {
                Some(next) => progress == Progress::<ResultWait, String>::Running(next),
                None => progress matches Progress::Finished(out) && out@ == self.outcome(reply),
            },
    {
        match (&self.phase, reply) {
            (ResultPhase::Clock, ResultReply::Elapsed(elapsed)) => {
                if elapsed < self.timeout {
                    Progress::Running(self.at(ResultPhase::Read))
                } else {
                    Progress::Finished(String::new())
                }
            },
            (ResultPhase::Read, ResultReply::Read(Ok(contents))) => {
                let trimmed = text::trim(contents.as_str());
                if !trimmed.as_str().is_empty() {
                    Progress::Finished(trimmed)
                } else {
                    Progress::Running(self.at(ResultPhase::Sleep))
                }
            },
            (ResultPhase::Read, ResultReply::Read(Err(_))) => Progress::Running(
                self.at(ResultPhase::Sleep),
            ),
            (ResultPhase::Sleep, ResultReply::Slept) => Progress::Running(
                self.at(ResultPhase::Clock),
            ),
            _ => Progress::Running(self),
        }
    }
}

/// A report that was read in time is never blank and has no white space around
/// it; only a wait that ran out of time ends with nothing.
pub proof fn law_a_report_is_trimmed(wait: ResultWait, reply: ResultReply)
    requires
        wait.after(reply) is None,
    ensures
        wait.phase is Clock <==> wait.outcome(reply) == Seq::<char>::empty(),
        wait.phase is Clock ==> (reply matches ResultReply::Elapsed(elapsed) && elapsed
            >= wait.timeout),
        text::trimmed(wait.outcome(reply)) == wait.outcome(reply),
{
    match reply {
        ResultReply::Read(Ok(contents)) => {
            text::lemma_trimmed_twice(contents@);
        },
        _ => {},
    }
}

/// The SCSI device at an address, as sysfs lists it.
pub open spec fn scsi_text(address: Seq<char>) -> Seq<char> {
    "/sys/class/scsi_device/"@ + address + ":0"@
}

/// A wait for a SCSI device to go; see [`wait_for_scsi_removal`].
#[derive(Debug)]
pub struct ScsiWait {
    pub address: String,
    pub timeout: u128,
    pub phase: ScsiPhase,
}

#[derive(Debug)]
pub enum ScsiPhase {
    Probe,
    Clock,
    Sleep,
    /// One more look, to tell whether the device went in time.
    Last,
}

/// What a wait for a SCSI device to go asks of the host.
#[derive(Debug)]
pub enum ScsiOp {
    Exists(String),
    /// How long the wait has taken so far, from when it first asks this.
    Elapsed,
    Sleep(u128),
}

#[derive(Debug)]
pub enum ScsiReply {
    Exists(bool),
    Elapsed(u128),
    Slept,
}

/// Wait for the SCSI device to disappear before anyone reuses the address.
///
/// The kernel reuses `host:channel:target` once a device is gone, so returning
/// while the old one is still being removed lets the *next* device resolve onto
/// a node that is about to vanish. The outcome is whether it went.
pub fn wait_for_scsi_removal(address: &str, timeout: u128) -> (wait: ScsiWait)
    ensures
        wait.address@ == address@,
        wait.timeout == timeout,
        wait.phase is Probe,
{
    ScsiWait { address: address.to_owned(), timeout, phase: ScsiPhase::Probe }
}

impl ScsiWait {
    /// Where an answer leads.
    pub open spec fn after(self, reply: ScsiReply) -> Option<ScsiWait> {
        match (self.phase, reply) {
            (ScsiPhase::Probe, ScsiReply::Exists(true)) => Some(
                ScsiWait { phase: ScsiPhase::Clock, ..self },
            ),
            (ScsiPhase::Probe, ScsiReply::Exists(false)) => Some(
                ScsiWait { phase: ScsiPhase::Last, ..self },
            ),
            (ScsiPhase::Clock, ScsiReply::Elapsed(elapsed)) => if elapsed < self.timeout {
                Some(ScsiWait { phase: ScsiPhase::Sleep, ..self })
            } else {
                Some(ScsiWait { phase: ScsiPhase::Last, ..self })
            },
            (ScsiPhase::Sleep, ScsiReply::Slept) => Some(
                ScsiWait { phase: ScsiPhase::Probe, ..self },
            ),
            (ScsiPhase::Last, ScsiReply::Exists(_)) => None,
            _ => Some(self),
        }
    }

    /// Whether `op` is what the host is asked for.
    pub open spec fn asks(self, op: ScsiOp) -> bool {
        match self.phase {
            ScsiPhase::Probe | ScsiPhase::Last => op matches ScsiOp::Exists(path) && path@
                == scsi_text(self.address@),
            ScsiPhase::Clock => op is Elapsed,
            ScsiPhase::Sleep => op == ScsiOp::Sleep(POLL),
        }
    }

    /// What to ask the host.
    pub fn op(&self) -> (op: ScsiOp)
        ensures
            self.asks(op),
    {
        match self.phase {
            ScsiPhase::Probe | ScsiPhase::Last => ScsiOp::Exists(
                scsi_path(self.address.as_str()),
            ),
            ScsiPhase::Clock => ScsiOp::Elapsed,
            ScsiPhase::Sleep => ScsiOp::Sleep(POLL),
        }
    }

    fn at(self, phase: ScsiPhase) -> (wait: ScsiWait)
        ensures
            wait == (ScsiWait { phase, ..self }),
    {
        ScsiWait { address: self.address, timeout: self.timeout, phase }
    }

    /// Take the host's answer.
    pub fn resume(self, reply: ScsiReply) -> (progress: Progress<ScsiWait, bool>)
        ensures
            match self.after(reply) {
                Some(next) => progress == Progress::<ScsiWait, bool>::Running(next),
                None => progress matches Progress::Finished(gone) && reply == ScsiReply::Exists(
                    !gone,
                ),
            },
    {
        match (&self.phase, &reply) {
            (ScsiPhase::Probe, ScsiReply::Exists(exists)) => {
                if *exists {
                    Progress::Running(self.at(ScsiPhase::Clock))
                } else {
                    Progress::Running(self.at(ScsiPhase::Last))
                }
            },
            (ScsiPhase::Clock, ScsiReply::Elapsed(elapsed)) => {
                if *elapsed < self.timeout {
                    Progress::Running(self.at(ScsiPhase::Sleep))
                } else {
                    Progress::Running(self.at(ScsiPhase::Last))
                }
            },
            (ScsiPhase::Sleep, ScsiReply::Slept) => Progress::Running(self.at(ScsiPhase::Probe)),
            (ScsiPhase::Last, ScsiReply::Exists(exists)) => Progress::Finished(!*exists),
            _ => Progress::Running(self),
        }
    }
}

/// The SCSI device at an address, as sysfs lists it.
pub fn scsi_path(address: &str) -> (path: String)
    ensures
        path@ == scsi_text(address@),
{
    "/sys/class/scsi_device/".to_owned().concat(address).concat(":0")
}

/// The directory in which sysfs lists the block device at an address.
pub open spec fn block_dir_text(address: Seq<char>) -> Seq<char> {
    "/sys/class/scsi_device/"@ + address + ":0/device/block"@
}

/// The node for a block device.
pub open spec fn node_text(name: Seq<char>) -> Seq<char> {
    joined("/dev"@, name)
}

/// The sysfs attribute that holds a block device's `dev_t`.
pub open spec fn devt_text(address: Seq<char>, name: Seq<char>) -> Seq<char> {
    joined(joined(block_dir_text(address), name), "dev"@)
}

/// Whether `name` is the one among `names` that sorts first as text.
pub open spec fn is_first_name(names: Seq<HostPath>, name: Seq<char>) -> bool {
    &&& exists|i: int| 0 <= i < names.len() && shown((#[trigger] names[i])@) == name
    &&& forall|j: int|
        0 <= j < names.len() ==> text::lex_le(
            text::codes(name),
            text::codes(shown((#[trigger] names[j])@)),
        )
}

/// Only one name sorts first.
pub proof fn law_only_one_name_sorts_first(names: Seq<HostPath>, a: Seq<char>, b: Seq<char>)
    requires
        is_first_name(names, a),
        is_first_name(names, b),
    ensures
        a == b,
{
    let i = choose|i: int| 0 <= i < names.len() && shown((#[trigger] names[i])@) == a;
    let j = choose|j: int| 0 <= j < names.len() && shown((#[trigger] names[j])@) == b;
    assert(text::lex_le(text::codes(a), text::codes(shown(names[j]@))));
    assert(text::lex_le(text::codes(b), text::codes(shown(names[i]@))));
    text::lemma_lex_antisymmetric(text::codes(a), text::codes(b));
    assert(a.len() == text::codes(a).len() && b.len() == text::codes(b).len());
    assert forall|k: int| 0 <= k < a.len() implies a[k] == b[k] by {
        assert(text::codes(a)[k] == text::codes(b)[k]);
        vstd::utf8::char_u32_cast(a[k], a[k] as u32);
        vstd::utf8::char_u32_cast(b[k], a[k] as u32);
    }
    assert(a =~= b);
}

/// The first of the names, as text.
fn first_name(names: &Vec<HostPath>) -> (first: Option<String>)
    ensures
        match first {
            Some(name) => is_first_name(names@, name@),
            None => names@.len() == 0,
        },
{
    if names.len() == 0 {
        return None;
    }
    let mut best = names[0].display();
    let mut best_key = text::codes_of(best.as_str());
    let mut i: usize = 1;
    proof {
        text::lemma_lex_total(best_key@, best_key@);
    }
    while i < names.len()
        invariant
            1 <= i <= names.len(),
            best_key@ == text::codes(best@),
            exists|k: int| 0 <= k < i && shown((#[trigger] names@[k])@) == best@,
            forall|j: int|
                0 <= j < i ==> text::lex_le(
                    text::codes(best@),
                    text::codes(shown((#[trigger] names@[j])@)),
                ),
        decreases names.len() - i,
    {
        let other = names[i].display();
        let other_key = text::codes_of(other.as_str());
        if !text::in_order(&best_key, &other_key) {
            proof {
                text::lemma_lex_total(best_key@, other_key@);
                text::lemma_lex_total(other_key@, other_key@);
                assert forall|j: int| 0 <= j < i implies text::lex_le(
                    other_key@,
                    text::codes(shown((#[trigger] names@[j])@)),
                ) by {
                    text::lemma_lex_transitive(
                        other_key@,
                        best_key@,
                        text::codes(shown(names@[j]@)),
                    );
                }
                assert(shown(names@[i as int]@) == other@);
            }
            best = other;
            best_key = other_key;
        }
        i += 1;
    }
    Some(best)
}

/// A search for a device's node; see [`resolve_block_device`].
#[derive(Debug)]
pub struct NodeSearch {
    pub device: String,
    pub naa: String,
    pub timeout: u128,
    /// The SCSI address, once it is known.
    pub address: String,
    /// The last block device that sysfs listed at the address.
    pub last_seen: String,
    /// How often the node belonged to some other device.
    pub recycled: u32,
    /// How often the node belonged to this device but could not be read.
    pub not_ready: u32,
    pub phase: NodePhase,
}

#[derive(Debug, Clone, Copy)]
pub enum NodePhase {
    Address,
    /// The time starts to count once the address is known.
    Start,
    Clock,
    List,
    Devt,
    Node { devt: (u32, u32) },
    Sector,
    Sleep,
}

/// What a search for a node asks of the host.
#[derive(Debug)]
pub enum NodeOp {
    ReadText(String),
    StartClock,
    /// How long the search has taken since the clock was started.
    Elapsed,
    /// The names in a directory, if it is one and can be listed.
    List(String),
    /// The device number that a node refers to, if there is a node.
    DeviceNumber(String),
    /// How many bytes one read of a sector gives, if the node can be read.
    ReadSector(String),
    Sleep(u128),
}

#[derive(Debug)]
pub enum NodeReply {
    Text(Result<String, IoFailure>),
    Started,
    Elapsed(u128),
    Names(Option<Vec<HostPath>>),
    Number(Option<u64>),
    Sector(Option<usize>),
    Slept,
}

/// How long to wait between two looks for a node.
pub const NODE_POLL: u128 = 200_000_000;

/// Resolve `/dev/sdX` from the loopback nexus rather than guessing.
///
/// `tcm_loop` publishes the SCSI `host:channel:target` triple in the tpgt's
/// `address` attribute; LUN 0 is the one we linked. udev creates the node
/// asynchronously, and the kernel reuses SCSI addresses once a device is gone,
/// so this waits until the node exists, its `dev_t` matches what sysfs reports
/// for *this* device, and it is readable. The outcome is the node and the
/// address.
pub fn resolve_block_device(device: &str, naa: &str, timeout: u128) -> (search: NodeSearch)
    ensures
        search.begins(device@, naa@, timeout),
{
    NodeSearch {
        device: device.to_owned(),
        naa: naa.to_owned(),
        timeout,
        address: String::new(),
        last_seen: String::new(),
        recycled: 0,
        not_ready: 0,
        phase: NodePhase::Address,
    }
}

/// A count that stops at its largest value.
pub open spec fn counted(n: u32) -> u32 {
    if n < u32::MAX {
        (n + 1) as u32
    } else {
        n
    }
}

fn count(n: u32) -> (next: u32)
    ensures
        next == counted(n),
{
    if n < u32::MAX {
        n + 1
    } else {
        n
    }
}

impl NodeSearch {
    /// Whether this is a search that has just begun.
    pub open spec fn begins(self, device: Seq<char>, naa: Seq<char>, timeout: u128) -> bool {
        &&& self.device@ == device
        &&& self.naa@ == naa
        &&& self.timeout == timeout
        &&& self.address@ == Seq::<char>::empty()
        &&& self.last_seen@ == Seq::<char>::empty()
        &&& self.recycled == 0
        &&& self.not_ready == 0
        &&& self.phase is Address
    }

    /// Whether `op` is what the host is asked for.
    pub open spec fn asks(self, op: NodeOp) -> bool {
        match self.phase {
            NodePhase::Address => op matches NodeOp::ReadText(path) && path@ == address_text(
                self.naa@,
            ),
            NodePhase::Start => op is StartClock,
            NodePhase::Clock => op is Elapsed,
            NodePhase::List => op matches NodeOp::List(path) && path@ == block_dir_text(
                self.address@,
            ),
            NodePhase::Devt => op matches NodeOp::ReadText(path) && path@ == devt_text(
                self.address@,
                self.last_seen@,
            ),
            NodePhase::Node { .. } => op matches NodeOp::DeviceNumber(node) && node@ == node_text(
                self.last_seen@,
            ),
            NodePhase::Sector => op matches NodeOp::ReadSector(node) && node@ == node_text(
                self.last_seen@,
            ),
            NodePhase::Sleep => op == NodeOp::Sleep(NODE_POLL),
        }
    }

    /// Whether an answer ends the search.
    pub open spec fn ends(self, reply: NodeReply) -> bool {
        match (self.phase, reply) {
            (NodePhase::Address, NodeReply::Text(Err(_))) => true,
            (NodePhase::Clock, NodeReply::Elapsed(elapsed)) => elapsed >= self.timeout,
            (NodePhase::Sector, NodeReply::Sector(read)) => read == Some(SECTOR),
            _ => false,
        }
    }

    /// Whether an answer that does not end the search leads to `next`.
    pub open spec fn leads_to(self, reply: NodeReply, next: NodeSearch) -> bool {
        match (self.phase, reply) {
            (NodePhase::Address, NodeReply::Text(Ok(contents))) => {
                &&& next.address@ == text::trimmed(contents@)
                &&& next == NodeSearch { address: next.address, phase: NodePhase::Start, ..self }
            },
            (NodePhase::Start, NodeReply::Started) => next == NodeSearch {
                phase: NodePhase::Clock,
                ..self
            },
            (NodePhase::Clock, NodeReply::Elapsed(_)) => next == NodeSearch {
                phase: NodePhase::List,
                ..self
            },
            (NodePhase::List, NodeReply::Names(names)) => match names {
                Some(names) if names@.len() > 0 => {
                    &&& is_first_name(names@, next.last_seen@)
                    &&& next == NodeSearch {
                        last_seen: next.last_seen,
                        phase: NodePhase::Devt,
                        ..self
                    }
                },
                _ => next == NodeSearch { phase: NodePhase::Sleep, ..self },
            },
            (NodePhase::Devt, NodeReply::Text(contents)) => match contents {
                Ok(contents) => match parsed_devt(contents@) {
                    Some(devt) => next == NodeSearch { phase: NodePhase::Node { devt }, ..self },
                    None => next == NodeSearch { phase: NodePhase::Sleep, ..self },
                },
                Err(_) => next == NodeSearch { phase: NodePhase::Sleep, ..self },
            },
            (NodePhase::Node { devt }, NodeReply::Number(rdev)) => if rdev matches Some(r) && (
                dev_major(r),
                dev_minor(r),
            ) == devt {
                next == NodeSearch { phase: NodePhase::Sector, ..self }
            } else {
                next == NodeSearch {
                    recycled: counted(self.recycled),
                    phase: NodePhase::Sleep,
                    ..self
                }
            },
            (NodePhase::Sector, NodeReply::Sector(_)) => next == NodeSearch {
                not_ready: counted(self.not_ready),
                phase: NodePhase::Sleep,
                ..self
            },
            (NodePhase::Sleep, NodeReply::Slept) => next == NodeSearch {
                phase: NodePhase::Clock,
                ..self
            },
            _ => next == self,
        }
    }

    /// What comes out where an answer ends the search.
    pub open spec fn outcome(
        self,
        reply: NodeReply,
        out: Result<(String, String), Error>,
    ) -> bool {
        match (self.phase, reply) {
            (NodePhase::Address, NodeReply::Text(Err(failure))) => out matches Err(error) && is_io(
                error,
                "reading "@ + address_text(self.naa@),
                failure,
            ),
            (NodePhase::Sector, _) => out matches Ok((node, address)) && node@ == node_text(
                self.last_seen@,
            ) && address == self.address,
            _ => out matches Err(Error::NoBlockDevice { device, path, seen }) && device
                == self.device && path@ == block_dir_text(self.address@) && seen@ == (
            if self.last_seen@.len() == 0 {
                "<nothing>"@
            } else {
                self.last_seen@
            }),
        }
    }

    /// What to ask the host.
    pub fn op(&self) -> (op: NodeOp)
        ensures
            self.asks(op),
    {
        match self.phase {
            NodePhase::Address => NodeOp::ReadText(address_path(self.naa.as_str())),
            NodePhase::Start => NodeOp::StartClock,
            NodePhase::Clock => NodeOp::Elapsed,
            NodePhase::List => NodeOp::List(block_dir_path(self.address.as_str())),
            NodePhase::Devt => {
                let dir = block_dir_path(self.address.as_str());
                let entry = path::join(dir.as_str(), self.last_seen.as_str());
                NodeOp::ReadText(path::join(entry.as_str(), "dev"))
            },
            NodePhase::Node { .. } => NodeOp::DeviceNumber(
                path::join("/dev", self.last_seen.as_str()),
            ),
            NodePhase::Sector => NodeOp::ReadSector(path::join("/dev", self.last_seen.as_str())),
            NodePhase::Sleep => NodeOp::Sleep(NODE_POLL),
        }
    }

    /// Take the host's answer.
    pub fn resume(self, reply: NodeReply) -> (progress: Progress<
        NodeSearch,
        Result<(String, String), Error>,
    >)
        ensures
            match progress {
                Progress::Running(next) => !self.ends(reply) && self.leads_to(reply, next),
                Progress::Finished(out) => self.ends(reply) && self.outcome(reply, out),
            },
    {
        let mut search = self;
        match (search.phase, reply) {
            (NodePhase::Address, NodeReply::Text(Ok(contents))) => {
                search.address = text::trim(contents.as_str());
                search.phase = NodePhase::Start;
            },
            (NodePhase::Address, NodeReply::Text(Err(failure))) => {
                let path = address_path(search.naa.as_str());
                let context = "reading ".to_owned().concat(path.as_str());
                return Progress::Finished(Err(Error::io(context, failure)));
            },
            (NodePhase::Start, NodeReply::Started) => {
                search.phase = NodePhase::Clock;
            },
            (NodePhase::Clock, NodeReply::Elapsed(elapsed)) => {
                if elapsed >= search.timeout {
                    let path = block_dir_path(search.address.as_str());
                    let seen = if search.last_seen.as_str().is_empty() {
                        "<nothing>".to_owned()
                    } else {
                        search.last_seen
                    };
                    return Progress::Finished(
                        Err(Error::NoBlockDevice { device: search.device, path, seen }),
                    );
                }
                search.phase = NodePhase::List;
            },
            (NodePhase::List, NodeReply::Names(names)) => {
                search.phase = NodePhase::Sleep;
                if let Some(names) = names {
                    if let Some(name) = first_name(&names) {
                        search.last_seen = name;
                        search.phase = NodePhase::Devt;
                    }
                }
            },
            (NodePhase::Devt, NodeReply::Text(contents)) => {
                search.phase = NodePhase::Sleep;
                if let Ok(contents) = contents {
                    if let Some(devt) = sysfs_devt(contents.as_str()) {
                        search.phase = NodePhase::Node { devt };
                    }
                }
            },
            (NodePhase::Node { devt }, NodeReply::Number(rdev)) => {
                if node_matches(rdev, devt) {
                    search.phase = NodePhase::Sector;
                } else {
                    search.recycled = count(search.recycled);
                    search.phase = NodePhase::Sleep;
                }
            },
            (NodePhase::Sector, NodeReply::Sector(read)) => {
                if node_readable(read) {
                    let node = path::join("/dev", search.last_seen.as_str());
                    return Progress::Finished(Ok((node, search.address)));
                }
                search.not_ready = count(search.not_ready);
                search.phase = NodePhase::Sleep;
            },
            (NodePhase::Sleep, NodeReply::Slept) => {
                search.phase = NodePhase::Clock;
            },
            _ => {},
        }
        Progress::Running(search)
    }
}

/// The directory in which sysfs lists the block device at an address.
pub fn block_dir_path(address: &str) -> (path: String)
    ensures
        path@ == block_dir_text(address@),
{
    "/sys/class/scsi_device/".to_owned().concat(address).concat(":0/device/block")
}

/// Whether a search went through `states`, one answer after the other.
pub open spec fn is_search(states: Seq<NodeSearch>, replies: Seq<NodeReply>) -> bool {
    &&& states.len() == replies.len() + 1
    &&& states[0].phase is Address
    &&& forall|i: int| 0 <= i < replies.len() ==> #[trigger] search_went_on(states, replies, i)
}

/// Whether the answer at `i` did not end the search, but led on.
pub open spec fn search_went_on(
    states: Seq<NodeSearch>,
    replies: Seq<NodeReply>,
    i: int,
) -> bool {
    !states[i].ends(replies[i]) && states[i].leads_to(replies[i], states[i + 1])
}

/// Whether the answer at `j` was the `dev_t` that sysfs has for the block
/// device that the search looks at in state `k`.
pub open spec fn devt_was_read(
    states: Seq<NodeSearch>,
    replies: Seq<NodeReply>,
    j: int,
    k: int,
    devt: (u32, u32),
) -> bool {
    &&& 0 <= j < k < states.len()
    &&& states[j].phase is Devt
    &&& states[j].address == states[k].address
    &&& states[j].last_seen == states[k].last_seen
    &&& replies[j] matches NodeReply::Text(Ok(contents)) && parsed_devt(contents@) == Some(devt)
}

/// Whether the answer at `i` was that the node which the search looks at in
/// state `k` refers to the `dev_t` that sysfs has for it.
pub open spec fn node_was_matched(
    states: Seq<NodeSearch>,
    replies: Seq<NodeReply>,
    i: int,
    k: int,
) -> bool {
    &&& 0 <= i < k < states.len()
    &&& states[i].address == states[k].address
    &&& states[i].last_seen == states[k].last_seen
    &&& states[i].phase matches NodePhase::Node { devt } && (replies[i] matches NodeReply::Number(
        Some(rdev),
    ) && (dev_major(rdev), dev_minor(rdev)) == devt) && (exists|j: int|
        devt_was_read(states, replies, j, i, devt))
}

proof fn lemma_search_evidence(states: Seq<NodeSearch>, replies: Seq<NodeReply>, k: int)
    requires
        is_search(states, replies),
        0 <= k < states.len(),
    ensures
        states[k].phase matches NodePhase::Node { devt } ==> exists|j: int|
            devt_was_read(states, replies, j, k, devt),
        states[k].phase is Sector ==> exists|i: int| node_was_matched(states, replies, i, k),
    decreases k,
{
    if k > 0 {
        let prior = k - 1;
        let before = states[prior];
        let reply = replies[prior];
        lemma_search_evidence(states, replies, prior);
        assert(search_went_on(states, replies, prior));
        match states[k].phase {
            NodePhase::Node { devt } => {
                if before.phase is Devt {
                    assert(devt_was_read(states, replies, k - 1, k, devt));
                } else {
                    let j = choose|j: int| devt_was_read(states, replies, j, prior, devt);
                    assert(devt_was_read(states, replies, j, k, devt));
                }
            },
            NodePhase::Sector => {
                if before.phase is Sector {
                    let i = choose|i: int| node_was_matched(states, replies, i, prior);
                    assert(node_was_matched(states, replies, i, k));
                } else {
                    assert(node_was_matched(states, replies, k - 1, k));
                }
            },
            _ => {},
        }
    }
}

/// A search never settles on a node that belongs to another device: where it
/// ends with a node, sysfs gave a `dev_t` for that block device at that address,
/// the node then referred to it, and a whole sector of the node could be read.
pub proof fn law_only_the_devices_own_node_is_resolved(
    states: Seq<NodeSearch>,
    replies: Seq<NodeReply>,
    last: NodeReply,
    out: Result<(String, String), Error>,
)
    requires
        is_search(states, replies),
        states.last().ends(last),
        states.last().outcome(last, out),
        out is Ok,
    ensures
        last == NodeReply::Sector(Some(SECTOR)),
        exists|i: int| #[trigger]
            node_was_matched(states, replies, i, states.len() as int - 1),
        out->Ok_0.0@ == node_text(states.last().last_seen@),
        out->Ok_0.1 == states.last().address,
{
    let end = states.len() - 1;
    lemma_search_evidence(states, replies, end);
    let i = choose|i: int| node_was_matched(states, replies, i, end);
    assert(node_was_matched(states, replies, i, states.len() - 1));
}

/// A removal that does not mind what is already gone; see [`rm_symlink`] and
/// [`rmdir`].
#[derive(Debug)]
pub struct Removal {
    pub path: HostPath,
    pub target: RemovalTarget,
    pub phase: RemovalPhase,
}

#[derive(Debug, Clone, Copy, PartialEq, Eq, Structural)]
pub enum RemovalTarget {
    Symlink,
    Directory,
}

#[derive(Debug, Clone, Copy, PartialEq, Eq, Structural)]
pub enum RemovalPhase {
    Probe,
    Remove,
}

/// What a removal asks of the host.
#[derive(Debug)]
pub enum RemovalOp {
    /// Whether anything stands at the path, a dangling symlink included.
    LinkExists(HostPath),
    /// Whether the path leads to a directory.
    IsDir(HostPath),
    RemoveFile(HostPath),
    /// Remove the directory, which has to be empty.
    RemoveDir(HostPath),
}

#[derive(Debug)]
pub enum RemovalReply {
    Found(bool),
    Removed(Result<(), IoFailure>),
}

/// What came of a removal.
#[derive(Debug)]
pub enum Removed {
    /// There was nothing to remove.
    Absent,
    /// It was removed.
    Gone,
    /// It could not be removed, and stays.
    Left(IoFailure),
}

/// Remove a symlink, ignoring "already gone".
pub fn rm_symlink(path: HostPath) -> (removal: Removal)
    ensures
        removal == (Removal {
            path,
            target: RemovalTarget::Symlink,
            phase: RemovalPhase::Probe,
        }),
{
    Removal { path, target: RemovalTarget::Symlink, phase: RemovalPhase::Probe }
}

/// Remove a configfs directory, ignoring "already gone" and "not empty".
///
/// The shared HBA directory is expected to fail while other devices still live
/// under it, which is why this is deliberately infallible.
pub fn rmdir(path: HostPath) -> (removal: Removal)
    ensures
        removal == (Removal {
            path,
            target: RemovalTarget::Directory,
            phase: RemovalPhase::Probe,
        }),
{
    Removal { path, target: RemovalTarget::Directory, phase: RemovalPhase::Probe }
}

impl Removal {
    /// Whether `op` is what the host is asked for.
    pub open spec fn asks(self, op: RemovalOp) -> bool {
        removal_asks(self.target, self.path@, self.phase, op)
    }

    /// What to ask the host.
    pub fn op(&self) -> (op: RemovalOp)
        ensures
            self.asks(op),
    {
        let path = self.path.clone();
        match (self.phase, self.target) {
            (RemovalPhase::Probe, RemovalTarget::Symlink) => RemovalOp::LinkExists(path),
            (RemovalPhase::Probe, RemovalTarget::Directory) => RemovalOp::IsDir(path),
            (RemovalPhase::Remove, RemovalTarget::Symlink) => RemovalOp::RemoveFile(path),
            (RemovalPhase::Remove, RemovalTarget::Directory) => RemovalOp::RemoveDir(path),
        }
    }

    /// Take the host's answer. Only what was found is removed.
    pub fn resume(self, reply: RemovalReply) -> (progress: Progress<Removal, Removed>)
        ensures
            progress == (match removal_after(self.phase, reply) {
                Some(phase) => Progress::Running(Removal { phase, ..self }),
                None => Progress::Finished(removal_end(reply)),
            }),
    {
        match next_removal_phase(self.phase, &reply) {
            Some(phase) => Progress::Running(
                Removal { path: self.path, target: self.target, phase },
            ),
            None => Progress::Finished(
                match reply {
                    RemovalReply::Removed(Ok(())) => Removed::Gone,
                    RemovalReply::Removed(Err(failure)) => Removed::Left(failure),
                    RemovalReply::Found(_) => Removed::Absent,
                },
            ),
        }
    }
}

/// Whether `op` is what the removal of `at` asks for.
pub open spec fn removal_asks(
    target: RemovalTarget,
    at: Seq<u8>,
    phase: RemovalPhase,
    op: RemovalOp,
) -> bool {
    match (phase, target) {
        (RemovalPhase::Probe, RemovalTarget::Symlink) => op matches RemovalOp::LinkExists(path)
            && path@ == at,
        (RemovalPhase::Probe, RemovalTarget::Directory) => op matches RemovalOp::IsDir(path)
            && path@ == at,
        (RemovalPhase::Remove, RemovalTarget::Symlink) => op matches RemovalOp::RemoveFile(path)
            && path@ == at,
        (RemovalPhase::Remove, RemovalTarget::Directory) => op matches RemovalOp::RemoveDir(path)
            && path@ == at,
    }
}

/// Where an answer leads a removal: on, or to the end.
pub open spec fn removal_after(phase: RemovalPhase, reply: RemovalReply) -> Option<RemovalPhase> {
    match (phase, reply) {
        (RemovalPhase::Probe, RemovalReply::Found(found)) => if found {
            Some(RemovalPhase::Remove)
        } else {
            None
        },
        (RemovalPhase::Remove, RemovalReply::Removed(_)) => None,
        _ => Some(phase),
    }
}

/// What came of a removal that an answer ends.
pub open spec fn removal_end(reply: RemovalReply) -> Removed {
    match reply {
        RemovalReply::Found(_) => Removed::Absent,
        RemovalReply::Removed(Ok(_)) => Removed::Gone,
        RemovalReply::Removed(Err(failure)) => Removed::Left(failure),
    }
}

/// Where an answer leads a removal: on, or to the end.
pub fn next_removal_phase(phase: RemovalPhase, reply: &RemovalReply) -> (next: Option<RemovalPhase>)
    ensures
        next == removal_after(phase, *reply),
{
    match (phase, reply) {
        (RemovalPhase::Probe, RemovalReply::Found(found)) => if *found {
            Some(RemovalPhase::Remove)
        } else {
            None
        },
        (RemovalPhase::Remove, RemovalReply::Removed(_)) => None,
        _ => Some(phase),
    }
}

/// Whether `name` is one step of a path: it is not empty, and no slash stands at
/// either end.
pub open spec fn is_segment(name: Seq<char>) -> bool {
    name.len() > 0 && name[0] != '/' && name.last() != '/'
}

/// A device's backstore and nexus stand at fixed places in configfs, under the
/// device's own names, and so does everything in the nexus.
pub proof fn law_configfs_paths_hold_the_names(name: Seq<char>, naa: Seq<char>)
    requires
        is_segment(name),
        is_segment(naa),
    ensures
        hba_text() == "/sys/kernel/config/target/core/user_1"@,
        loopback_text() == "/sys/kernel/config/target/loopback"@,
        backstore_text(name) == "/sys/kernel/config/target/core/user_1/"@ + name,
        nexus_text(naa) == "/sys/kernel/config/target/loopback/"@ + naa,
        tpgt_text(naa) == "/sys/kernel/config/target/loopback/"@ + naa + "/tpgt_1"@,
        lun0_text(naa) == "/sys/kernel/config/target/loopback/"@ + naa + "/tpgt_1/lun/lun_0"@,
        lun_link_text(naa, name) == "/sys/kernel/config/target/loopback/"@ + naa
            + "/tpgt_1/lun/lun_0/"@ + name,
        address_text(naa) == "/sys/kernel/config/target/loopback/"@ + naa + "/tpgt_1/address"@,
{
    reveal_strlit("/sys/kernel/config/target");
    reveal_strlit("core");
    reveal_strlit("user_1");
    reveal_strlit("loopback");
    reveal_strlit("tpgt_1");
    reveal_strlit("lun");
    reveal_strlit("lun_0");
    reveal_strlit("address");
    reveal_strlit("/sys/kernel/config/target/core/user_1");
    reveal_strlit("/sys/kernel/config/target/loopback");
    reveal_strlit("/sys/kernel/config/target/core/user_1/");
    reveal_strlit("/sys/kernel/config/target/loopback/");
    reveal_strlit("/tpgt_1");
    reveal_strlit("/tpgt_1/lun/lun_0");
    reveal_strlit("/tpgt_1/lun/lun_0/");
    reveal_strlit("/tpgt_1/address");
    assert(hba_text() =~= "/sys/kernel/config/target/core/user_1"@);
    assert(loopback_text() =~= "/sys/kernel/config/target/loopback"@);
    assert(backstore_text(name) =~= "/sys/kernel/config/target/core/user_1/"@ + name);
    assert(nexus_text(naa) =~= "/sys/kernel/config/target/loopback/"@ + naa);
    assert(tpgt_text(naa) =~= nexus_text(naa) + "/tpgt_1"@);
    assert(lun0_text(naa) =~= nexus_text(naa) + "/tpgt_1/lun/lun_0"@);
    assert(lun_link_text(naa, name) =~= nexus_text(naa) + "/tpgt_1/lun/lun_0/"@ + name);
    assert(address_text(naa) =~= nexus_text(naa) + "/tpgt_1/address"@);
}

/// Two devices with different names share no path in configfs, and neither do
/// two nexuses.
pub proof fn law_devices_share_no_configfs_path(
    name: Seq<char>,
    other: Seq<char>,
    naa: Seq<char>,
    other_naa: Seq<char>,
)
    requires
        is_segment(name),
        is_segment(other),
        is_segment(naa),
        is_segment(other_naa),
    ensures
        backstore_text(name) == backstore_text(other) ==> name == other,
        lun_link_text(naa, name) == lun_link_text(naa, other) ==> name == other,
        nexus_text(naa) == nexus_text(other_naa) ==> naa == other_naa,
        tpgt_text(naa) == tpgt_text(other_naa) ==> naa == other_naa,
        lun0_text(naa) == lun0_text(other_naa) ==> naa == other_naa,
        address_text(naa) == address_text(other_naa) ==> naa == other_naa,
{
    law_configfs_paths_hold_the_names(name, naa);
    law_configfs_paths_hold_the_names(other, other_naa);
    law_configfs_paths_hold_the_names(other, naa);
    let core = "/sys/kernel/config/target/core/user_1/"@;
    let loopback = "/sys/kernel/config/target/loopback/"@;
    lemma_one_between(core, name, other, Seq::empty());
    lemma_one_between(loopback, naa, other_naa, Seq::empty());
    lemma_one_between(loopback, naa, other_naa, "/tpgt_1"@);
    lemma_one_between(loopback, naa, other_naa, "/tpgt_1/lun/lun_0"@);
    lemma_one_between(loopback, naa, other_naa, "/tpgt_1/address"@);
    lemma_one_between(loopback + naa + "/tpgt_1/lun/lun_0/"@, name, other, Seq::empty());
    assert(core + name + Seq::empty() =~= core + name);
    assert(core + other + Seq::empty() =~= core + other);
    assert(loopback + naa + Seq::empty() =~= loopback + naa);
    assert(loopback + other_naa + Seq::empty() =~= loopback + other_naa);
    let link = loopback + naa + "/tpgt_1/lun/lun_0/"@;
    assert(link + name + Seq::empty() =~= link + name);
    assert(link + other + Seq::empty() =~= link + other);
}

proof fn lemma_one_between(before: Seq<char>, a: Seq<char>, b: Seq<char>, after: Seq<char>)
    ensures
        before + a + after == before + b + after ==> a == b,
{
    let one = before + a + after;
    let other = before + b + after;
    if one == other {
        assert(one.len() == before.len() + a.len() + after.len());
        assert(other.len() == before.len() + b.len() + after.len());
        assert forall|i: int| 0 <= i < a.len() implies a[i] == b[i] by {
            assert(one[before.len() + i] == a[i]);
            assert(other[before.len() + i] == b[i]);
        }
        assert(a =~= b);
    }
}

/// The SCSI device, the block devices listed under it and their `dev_t` stand
/// in sysfs at a path that holds the address, so that no two addresses share
/// one; a node stands in `/dev` under the block device's name.
pub proof fn law_sysfs_paths_hold_the_address(
    address: Seq<char>,
    other: Seq<char>,
    name: Seq<char>,
)
    requires
        is_segment(name),
    ensures
        scsi_text(address) == "/sys/class/scsi_device/"@ + address + ":0"@,
        block_dir_text(address) == "/sys/class/scsi_device/"@ + address + ":0/device/block"@,
        devt_text(address, name) == "/sys/class/scsi_device/"@ + address + ":0/device/block/"@
            + name + "/dev"@,
        node_text(name) == "/dev/"@ + name,
        scsi_text(address) == scsi_text(other) ==> address == other,
        block_dir_text(address) == block_dir_text(other) ==> address == other,
        devt_text(address, name) == devt_text(other, name) ==> address == other,
{
    lemma_sysfs_texts(address, name);
    lemma_sysfs_texts(other, name);
    let class = "/sys/class/scsi_device/"@;
    lemma_one_between(class, address, other, ":0"@);
    lemma_one_between(class, address, other, ":0/device/block"@);
    let rest = ":0/device/block/"@ + name + "/dev"@;
    lemma_one_between(class, address, other, rest);
    assert(devt_text(address, name) =~= class + address + rest);
    assert(devt_text(other, name) =~= class + other + rest);
}

proof fn lemma_sysfs_texts(address: Seq<char>, name: Seq<char>)
    requires
        is_segment(name),
    ensures
        devt_text(address, name) == "/sys/class/scsi_device/"@ + address + ":0/device/block/"@
            + name + "/dev"@,
        node_text(name) == "/dev/"@ + name,
{
    reveal_strlit(":0/device/block");
    reveal_strlit(":0/device/block/");
    reveal_strlit("dev");
    reveal_strlit("/dev");
    reveal_strlit("/dev/");
    let dir = block_dir_text(address);
    assert(dir.last() == 'k');
    assert(joined(dir, name) =~= "/sys/class/scsi_device/"@ + address + ":0/device/block/"@ + name);
    assert(joined(dir, name).last() == name.last());
    assert(devt_text(address, name) =~= joined(dir, name) + "/dev"@);
    assert(node_text(name) =~= "/dev/"@ + name);
}

/// Whether `ops` are what a search asked in its states, in turn.
pub open spec fn asked_in_turn(states: Seq<NodeSearch>, ops: Seq<NodeOp>) -> bool {
    &&& ops.len() == states.len()
    &&& forall|i: int| 0 <= i < ops.len() ==> states[i].asks(#[trigger] ops[i])
}

/// Whether, before `k`, the attribute at `path` was read and held `address`,
/// with nothing but white space around it.
pub open spec fn address_was_read(
    ops: Seq<NodeOp>,
    replies: Seq<NodeReply>,
    k: int,
    path: Seq<char>,
    address: Seq<char>,
) -> bool {
    exists|i: int|
        0 <= i < k && i < replies.len() && (#[trigger] ops[i] matches NodeOp::ReadText(p) && p@
            == path) && (replies[i] matches NodeReply::Text(Ok(contents)) && text::trimmed(
            contents@,
        ) == address)
}

/// Whether, before `k`, the directory `dir` was listed and `name` came first.
pub open spec fn name_was_listed(
    ops: Seq<NodeOp>,
    replies: Seq<NodeReply>,
    k: int,
    dir: Seq<char>,
    name: Seq<char>,
) -> bool {
    exists|i: int|
        0 <= i < k && i < replies.len() && (#[trigger] ops[i] matches NodeOp::List(p) && p@ == dir)
            && (replies[i] matches NodeReply::Names(Some(names)) && is_first_name(names@, name))
}

proof fn lemma_search_origin(
    states: Seq<NodeSearch>,
    ops: Seq<NodeOp>,
    replies: Seq<NodeReply>,
    k: int,
)
    requires
        is_search(states, replies),
        asked_in_turn(states, ops),
        0 <= k < states.len(),
    ensures
        states[k].naa == states[0].naa,
        states[k].device == states[0].device,
        states[k].timeout == states[0].timeout,
        !(states[k].phase is Address) ==> address_was_read(
            ops,
            replies,
            k,
            address_text(states[0].naa@),
            states[k].address@,
        ),
        states[k].phase is Devt || states[k].phase is Node || states[k].phase is Sector
            ==> name_was_listed(
            ops,
            replies,
            k,
            block_dir_text(states[k].address@),
            states[k].last_seen@,
        ),
    decreases k,
{
    if k > 0 {
        let prior = k - 1;
        lemma_search_origin(states, ops, replies, prior);
        assert(search_went_on(states, replies, prior));
        assert(states[prior].asks(ops[prior]));
        let before = states[prior];
        if !(before.phase is Address) {
            let i = choose|i: int|
                0 <= i < prior && i < replies.len() && (#[trigger] ops[i] matches NodeOp::ReadText(
                    p,
                ) && p@ == address_text(states[0].naa@)) && (replies[i] matches NodeReply::Text(
                    Ok(contents),
                ) && text::trimmed(contents@) == before.address@);
            assert(0 <= i < k && ops[i] is ReadText);
        }
        if before.phase is Devt || before.phase is Node || before.phase is Sector {
            let i = choose|i: int|
                0 <= i < prior && i < replies.len() && (#[trigger] ops[i] matches NodeOp::List(p)
                    && p@ == block_dir_text(before.address@)) && (
                replies[i] matches NodeReply::Names(Some(names)) && is_first_name(
                    names@,
                    before.last_seen@,
                ));
            assert(0 <= i < k && ops[i] is List);
        }
    }
}

/// Everything that a search asks about, it asks about its own nexus: the address
/// is read from the nexus's own attribute, the block devices are listed at the
/// address that was read there, and the `dev_t` and the node are those of the
/// block device that was listed there.
pub proof fn law_a_search_looks_where_its_nexus_says(
    states: Seq<NodeSearch>,
    ops: Seq<NodeOp>,
    replies: Seq<NodeReply>,
    device: Seq<char>,
    naa: Seq<char>,
    timeout: u128,
    k: int,
)
    requires
        is_segment(naa),
        is_search(states, replies),
        states[0].begins(device, naa, timeout),
        asked_in_turn(states, ops),
        0 <= k < ops.len(),
    ensures
        ({
            let attribute = "/sys/kernel/config/target/loopback/"@ + naa + "/tpgt_1/address"@;
            let class = "/sys/class/scsi_device/"@;
            match ops[k] {
                NodeOp::ReadText(path) => path@ == attribute || exists|
                    address: Seq<char>,
                    name: Seq<char>,
                | #[trigger]
                    address_was_read(ops, replies, k, attribute, address)
                        && #[trigger] name_was_listed(
                        ops,
                        replies,
                        k,
                        class + address + ":0/device/block"@,
                        name,
                    ) && (is_segment(name) ==> path@ == class + address + ":0/device/block/"@ + name
                        + "/dev"@),
                NodeOp::List(path) => exists|address: Seq<char>| #[trigger]
                    address_was_read(ops, replies, k, attribute, address) && path@ == class
                        + address + ":0/device/block"@,
                NodeOp::DeviceNumber(node) | NodeOp::ReadSector(node) => exists|
                    address: Seq<char>,
                    name: Seq<char>,
                | #[trigger]
                    address_was_read(ops, replies, k, attribute, address)
                        && #[trigger] name_was_listed(
                        ops,
                        replies,
                        k,
                        class + address + ":0/device/block"@,
                        name,
                    ) && (is_segment(name) ==> node@ == "/dev/"@ + name),
                NodeOp::Sleep(span) => span == 200_000_000,
                NodeOp::StartClock | NodeOp::Elapsed => true,
            }
        }),
{
    let attribute = "/sys/kernel/config/target/loopback/"@ + naa + "/tpgt_1/address"@;
    let class = "/sys/class/scsi_device/"@;
    lemma_search_origin(states, ops, replies, k);
    assert(states[k].asks(ops[k]));
    assert(is_segment(seq!['a']));
    law_configfs_paths_hold_the_names(seq!['a'], naa);
    let address = states[k].address@;
    let name = states[k].last_seen@;
    if is_segment(name) {
        lemma_sysfs_texts(address, name);
    }
    if !(states[k].phase is Address) {
        assert(address_was_read(ops, replies, k, attribute, address));
    }
    if states[k].phase is Devt || states[k].phase is Node || states[k].phase is Sector {
        assert(name_was_listed(ops, replies, k, class + address + ":0/device/block"@, name));
    }
}

/// Whether, before `k`, the attribute at `path` was read and gave the device
/// number to which `node` was then found to refer.
pub open spec fn numbers_agreed(
    ops: Seq<NodeOp>,
    replies: Seq<NodeReply>,
    k: int,
    path: Seq<char>,
    node: Seq<char>,
) -> bool {
    exists|i: int, j: int|
        0 <= i < j < k && j < replies.len() && (#[trigger] ops[i] matches NodeOp::ReadText(p) && p@
            == path) && (#[trigger] ops[j] matches NodeOp::DeviceNumber(n) && n@ == node) && (
        replies[i] matches NodeReply::Text(Ok(contents)) && (replies[j] matches NodeReply::Number(
            Some(rdev),
        ) && parsed_devt(contents@) == Some((dev_major(rdev), dev_minor(rdev)))))
}

/// Where a search ends with a node, the address is the one in the nexus's own
/// attribute, the node is the one in `/dev` for the block device that sysfs
/// lists at that address, its number is the one that sysfs gives for it there,
/// and the last question read a whole sector of it.
pub proof fn law_the_node_that_is_resolved_is_at_the_nexus_address(
    states: Seq<NodeSearch>,
    ops: Seq<NodeOp>,
    replies: Seq<NodeReply>,
    last: NodeReply,
    out: Result<(String, String), Error>,
    device: Seq<char>,
    naa: Seq<char>,
    timeout: u128,
)
    requires
        is_segment(naa),
        is_search(states, replies),
        states[0].begins(device, naa, timeout),
        asked_in_turn(states, ops),
        states.last().ends(last),
        states.last().outcome(last, out),
    ensures
        ({
            let attribute = "/sys/kernel/config/target/loopback/"@ + naa + "/tpgt_1/address"@;
            let class = "/sys/class/scsi_device/"@;
            let k = ops.len() as int;
            match out {
                Ok((node, address)) => {
                    &&& ops.last() matches NodeOp::ReadSector(n) && n@ == node@
                    &&& last matches NodeReply::Sector(Some(read)) && read == 512
                    &&& address_was_read(ops, replies, k, attribute, address@)
                    &&& exists|name: Seq<char>| #[trigger]
                        name_was_listed(
                            ops,
                            replies,
                            k,
                            class + address@ + ":0/device/block"@,
                            name,
                        ) && (is_segment(name) ==> node@ == "/dev/"@ + name && numbers_agreed(
                            ops,
                            replies,
                            k,
                            class + address@ + ":0/device/block/"@ + name + "/dev"@,
                            node@,
                        ))
                },
                Err(Error::Io { context, source }) => {
                    &&& context@ == "reading "@ + attribute
                    &&& last matches NodeReply::Text(Err(failure)) && failure == source
                },
                Err(Error::NoBlockDevice { device: d, path, .. }) => {
                    &&& d@ == device
                    &&& last matches NodeReply::Elapsed(elapsed) && elapsed >= timeout
                    &&& exists|address: Seq<char>| #[trigger]
                        address_was_read(ops, replies, k, attribute, address) && path@ == class
                            + address + ":0/device/block"@
                },
                Err(_) => false,
            }
        }),
{
    let attribute = "/sys/kernel/config/target/loopback/"@ + naa + "/tpgt_1/address"@;
    let class = "/sys/class/scsi_device/"@;
    let end = states.len() - 1;
    let k = ops.len() as int;
    lemma_search_origin(states, ops, replies, end);
    lemma_search_evidence(states, replies, end);
    assert(states[end].asks(ops[end]));
    assert(is_segment(seq!['a']));
    law_configfs_paths_hold_the_names(seq!['a'], naa);
    let address = states[end].address@;
    let name = states[end].last_seen@;
    if !(states[end].phase is Address) {
        assert(address_was_read(ops, replies, k, attribute, address));
    }
    if states[end].phase is Sector {
        assert(name_was_listed(ops, replies, k, class + address + ":0/device/block"@, name));
        let i = choose|i: int| node_was_matched(states, replies, i, end);
        assert(node_was_matched(states, replies, i, end));
        match states[i].phase {
            NodePhase::Node { devt } => {
                let j = choose|j: int| devt_was_read(states, replies, j, i, devt);
                assert(devt_was_read(states, replies, j, i, devt));
                assert(states[i].asks(ops[i]));
                assert(states[j].asks(ops[j]));
            },
            _ => {},
        }
        if is_segment(name) {
            lemma_sysfs_texts(address, name);
        }
    }
}

proof fn lemma_attr_run(writing: AttrWrite, replies: Seq<AttrReply>)
    requires
        match writing.phase {
            AttrPhase::GiveUp { failure } => writing.remaining == 0 && failure.os_code == Some(
                EAGAIN,
            ),
            _ => writing.remaining >= 1,
        },
    ensures
        writing.after_all(replies) matches Some(now) ==> {
            &&& now.path == writing.path
            &&& now.value == writing.value
            &&& now.delay == writing.delay
            &&& now.remaining + writing.writes(replies) == writing.remaining
            &&& match now.phase {
                AttrPhase::GiveUp { failure } => now.remaining == 0 && failure.os_code == Some(
                    EAGAIN,
                ),
                _ => now.remaining >= 1,
            }
        },
    decreases replies.len(),
{
    if replies.len() > 0 {
        match writing.after(replies[0]) {
            Some(next) => {
                lemma_attr_run(next, replies.skip(1));
            },
            None => {},
        }
    }
}

/// Every question of a configfs write is for the value that was given, at the
/// path that was given, or a pause of the length that was given.
pub proof fn law_an_attribute_gets_the_value_that_was_given(
    writing: AttrWrite,
    path: Seq<char>,
    value: Seq<char>,
    retries: u32,
    delay: u128,
    replies: Seq<AttrReply>,
    op: AttrOp,
)
    requires
        writing.begins(path, value, retries, delay),
        writing.after_all(replies) matches Some(now) && now.asks(op),
    ensures
        match op {
            AttrOp::Write { path: p, value: v } => p@ == path && v@ == value,
            AttrOp::Sleep(span) => span == delay,
        },
{
    lemma_attr_run(writing, replies);
}

/// A configfs write ends well where the host wrote the value. It ends with the
/// host's own failure where that is not `EAGAIN`, and where it is, only after as
/// many writes as were allowed, and at least one.
pub proof fn law_an_attribute_write_ends_as_the_host_says(
    writing: AttrWrite,
    path: Seq<char>,
    value: Seq<char>,
    retries: u32,
    delay: u128,
    replies: Seq<AttrReply>,
    reply: AttrReply,
    out: Result<(), Error>,
)
    requires
        writing.begins(path, value, retries, delay),
        writing.after_all(replies) matches Some(now) && now.after(reply) is None && now.outcome(
            reply,
            out,
        ),
    ensures
        match out {
            Ok(_) => reply matches AttrReply::Wrote(Ok(_)),
            Err(error) => {
                &&& error matches Error::Io { context, source } && context@ == "writing '"@ + value
                    + "' to "@ + path && (if source.os_code == Some(11i32) {
                    reply is Slept && writing.writes(replies) >= 1 && writing.writes(replies)
                        >= retries
                } else {
                    reply matches AttrReply::Wrote(Err(failure)) && failure == source
                })
            },
        },
{
    lemma_attr_run(writing, replies);
}

/// The numbers in a `dev_t` stand where makedev(3) puts them: the low byte of
/// the minor number, then twelve bits of the major, then the rest of the minor
/// and the rest of the major.
pub proof fn law_dev_t_is_laid_out_in_four_parts(rdev: u64)
    ensures
        dev_major(rdev) == (rdev / 0x100) % 0x1000 + (rdev / 0x1000_0000_0000) * 0x1000,
        dev_minor(rdev) == rdev % 0x100 + ((rdev / 0x10_0000) % 0x100_0000) * 0x100,
{
    assert(dev_major(rdev) == (rdev / 0x100) % 0x1000 + (rdev / 0x1000_0000_0000) * 0x1000)
        by (bit_vector);
    assert(dev_minor(rdev) == rdev % 0x100 + ((rdev / 0x10_0000) % 0x100_0000) * 0x100)
        by (bit_vector);
}

/// What sysfs writes for a device number reads back as that number.
pub proof fn law_devt_attribute_reads_back(major: u32, minor: u32)
    ensures
        parsed_devt(
            text::decimal(major as nat) + seq![':'] + text::decimal(minor as nat) + seq!['\n'],
        ) == Some((major, minor)),
        parsed_devt(text::decimal(major as nat) + seq![':'] + text::decimal(minor as nat)) == Some(
            (major, minor),
        ),
{
    let a = text::decimal(major as nat);
    let b = text::decimal(minor as nat);
    let pair = a + seq![':'] + b;
    text::law_decimal_is_written_in_digits(major as nat);
    text::law_decimal_is_written_in_digits(minor as nat);
    text::law_decimal_reads_back(major as nat, u32::MAX as nat);
    text::law_decimal_reads_back(minor as nat, u32::MAX as nat);
    assert(pair[0] == a[0]);
    assert(pair.last() == b.last());
    text::law_trimmed_is_what_stands_between_white_space(Seq::empty(), pair, seq!['\n']);
    text::law_trimmed_is_what_stands_between_white_space(Seq::empty(), pair, Seq::empty());
    assert(Seq::empty() + pair + seq!['\n'] =~= pair + seq!['\n']);
    assert(Seq::empty() + pair + Seq::empty() =~= pair);
    text::lemma_cut_once_at(pair, ':', a.len() as int);
    assert(pair.take(a.len() as int) =~= a);
    assert(pair.skip(a.len() as int + 1) =~= b);
}

/// The tail of a log that can be read is its last lines as they stand there, all
/// of them where there are no more than asked for.
pub proof fn law_a_log_tail_is_the_end_of_the_log(
    contents: Seq<char>,
    log: Seq<u8>,
    count: nat,
)
    ensures
        ({
            let all = text::lines(contents);
            let kept = if all.len() <= count {
                all.len()
            } else {
                count
            };
            tail_text(Some(contents), log, count) == text::glued(
                all.subrange(all.len() - kept, all.len() as int),
                "\n"@,
            )
        }),
        tail_text(None, log, count) == "(no "@ + shown(log) + ")"@,
{
    let all = text::lines(contents);
    if all.len() <= count {
        assert(all.subrange(0, all.len() as int) =~= all);
    } else {
        assert(all.subrange(all.len() - count, all.len() as int) =~= all.skip(all.len() - count));
    }
}

/// A wait for a report reads the file that it was given and nothing else, in the
/// time that it was given; what it reads there, less the white space around it,
/// is the report, and only a wait that ran out has none.
pub proof fn law_a_report_comes_from_the_result_file(
    wait: ResultWait,
    op: ResultOp,
    reply: ResultReply,
)
    requires
        wait.asks(op),
    ensures
        op matches ResultOp::Read(path) ==> path@ == wait.result_file@,
        op matches ResultOp::Sleep(span) ==> span == 100_000_000,
        match wait.after(reply) {
            Some(next) => {
                &&& next.result_file == wait.result_file
                &&& next.timeout == wait.timeout
                &&& op is Elapsed && reply is Elapsed ==> reply->Elapsed_0 < wait.timeout
                &&& op is Read ==> (reply matches ResultReply::Read(Ok(contents))
                    ==> text::trimmed(contents@).len() == 0)
            },
            None => match reply {
                ResultReply::Elapsed(elapsed) => op is Elapsed && elapsed >= wait.timeout
                    && wait.outcome(reply).len() == 0,
                ResultReply::Read(Ok(contents)) => op is Read && wait.outcome(reply)
                    == text::trimmed(contents@) && wait.outcome(reply).len() > 0,
                _ => false,
            },
        },
{
}

/// A wait for a SCSI device looks at the device at its own address, goes on
/// looking while the device is there and time is left, and says that the device
/// is gone exactly where the last look found none.
pub proof fn law_a_scsi_device_is_gone_when_none_is_found(
    wait: ScsiWait,
    op: ScsiOp,
    reply: ScsiReply,
)
    requires
        wait.asks(op),
    ensures
        op matches ScsiOp::Exists(path) ==> path@ == "/sys/class/scsi_device/"@ + wait.address@
            + ":0"@,
        op matches ScsiOp::Sleep(span) ==> span == 100_000_000,
        match wait.after(reply) {
            Some(next) => {
                &&& next.address == wait.address
                &&& next.timeout == wait.timeout
                &&& wait.phase is Probe ==> op is Exists
                &&& next.phase is Last && wait.phase is Clock ==> (
                reply matches ScsiReply::Elapsed(elapsed) && elapsed >= wait.timeout)
                &&& next.phase is Last && wait.phase is Probe ==> reply == ScsiReply::Exists(false)
                &&& next.phase is Sleep && wait.phase is Clock ==> (
                reply matches ScsiReply::Elapsed(elapsed) && elapsed < wait.timeout)
            },
            None => op is Exists && reply is Exists,
        },
{
}

/// A removal looks at what it was given and removes nothing else, and only
/// where something stands there; a symlink is unlinked, a directory has to be
/// empty.
pub proof fn law_a_removal_takes_only_what_it_was_given(
    removal: Removal,
    op: RemovalOp,
    reply: RemovalReply,
)
    requires
        removal.asks(op),
    ensures
        match op {
            RemovalOp::LinkExists(path) | RemovalOp::RemoveFile(path) => path@ == removal.path@
                && removal.target == RemovalTarget::Symlink,
            RemovalOp::IsDir(path) | RemovalOp::RemoveDir(path) => path@ == removal.path@
                && removal.target == RemovalTarget::Directory,
        },
        removal_after(removal.phase, reply) == Some(RemovalPhase::Remove) && removal.phase
            == RemovalPhase::Probe <==> removal.phase == RemovalPhase::Probe && reply
            == RemovalReply::Found(true),
        removal_after(removal.phase, reply) is None ==> match removal_end(reply) {
            Removed::Absent => (op is LinkExists || op is IsDir) && reply == RemovalReply::Found(
                false,
            ),
            Removed::Gone => (op is RemoveFile || op is RemoveDir) && (
            reply matches RemovalReply::Removed(Ok(_))),
            Removed::Left(failure) => (op is RemoveFile || op is RemoveDir) && (
            reply matches RemovalReply::Removed(Err(source)) && source == failure),
        },
{
}

/// The name that is taken from a listing is one of those listed, and compared
/// with any other it begins that one or, at the first difference, has the
/// smaller character.
pub proof fn law_the_first_name_comes_before_the_others(
    names: Seq<HostPath>,
    name: Seq<char>,
    j: int,
    d: int,
)
    requires
        is_first_name(names, name),
        0 <= j < names.len(),
        0 <= d <= name.len(),
        d <= shown(names[j]@).len(),
        name.take(d) == shown(names[j]@).take(d),
    ensures
        exists|i: int| 0 <= i < names.len() && shown((#[trigger] names[i])@) == name,
        d < name.len() ==> d < shown(names[j]@).len() && name[d] as u32 <= shown(
            names[j]@,
        )[d] as u32,
{
    let a = text::codes(name);
    let other = shown(names[j]@);
    let b = text::codes(other);
    assert(text::lex_le(a, b));
    assert forall|n: int| 0 <= n < d implies #[trigger] a[n] == b[n] by {
        assert(name.take(d)[n] == other.take(d)[n]);
    }
    text::law_order_is_that_of_the_first_difference(a, b, d);
}

proof fn lemma_last_seen_was_listed(
    states: Seq<NodeSearch>,
    ops: Seq<NodeOp>,
    replies: Seq<NodeReply>,
    k: int,
)
    requires
        is_search(states, replies),
        asked_in_turn(states, ops),
        states[0].last_seen@.len() == 0,
        0 <= k < states.len(),
    ensures
        states[k].last_seen@.len() > 0 ==> !(states[k].phase is Address) && name_was_listed(
            ops,
            replies,
            k,
            block_dir_text(states[k].address@),
            states[k].last_seen@,
        ),
    decreases k,
{
    if k > 0 {
        let prior = k - 1;
        lemma_last_seen_was_listed(states, ops, replies, prior);
        assert(search_went_on(states, replies, prior));
        assert(states[prior].asks(ops[prior]));
        let before = states[prior];
        if before.last_seen@.len() > 0 {
            let i = choose|i: int|
                0 <= i < prior && i < replies.len() && (#[trigger] ops[i] matches NodeOp::List(p)
                    && p@ == block_dir_text(before.address@)) && (
                replies[i] matches NodeReply::Names(Some(names)) && is_first_name(
                    names@,
                    before.last_seen@,
                ));
            assert(0 <= i < k && ops[i] is List);
        }
        if before.phase is List && replies[prior] is Names {
            assert(ops[prior] is List);
        }
    }
}

/// A search that ran out of time names a block device that sysfs did list at the
/// address that was read, or says that it saw none.
pub proof fn law_a_search_in_vain_names_what_it_saw(
    states: Seq<NodeSearch>,
    ops: Seq<NodeOp>,
    replies: Seq<NodeReply>,
    last: NodeReply,
    out: Result<(String, String), Error>,
    device: Seq<char>,
    naa: Seq<char>,
    timeout: u128,
)
    requires
        is_search(states, replies),
        states[0].begins(device, naa, timeout),
        asked_in_turn(states, ops),
        states.last().ends(last),
        states.last().outcome(last, out),
    ensures
        out matches Err(Error::NoBlockDevice { path, seen, .. }) ==> seen@ == "<nothing>"@
            || name_was_listed(ops, replies, ops.len() as int, path@, seen@),
{
    let end = states.len() - 1;
    lemma_last_seen_was_listed(states, ops, replies, end);
}

/// A search goes on with every good answer: with a listing to the name that came
/// first, with a device number that sysfs gave to the node, with a node of that
/// number to its first sector, and it ends once a whole sector was read.
pub proof fn law_a_search_goes_on_with_every_good_answer(
    search: NodeSearch,
    op: NodeOp,
    reply: NodeReply,
    next: NodeSearch,
    major: u32,
    minor: u32,
)
    requires
        search.asks(op),
        !search.ends(reply) ==> search.leads_to(reply, next),
    ensures
        search.phase is List && (reply matches NodeReply::Names(Some(names)) && names@.len() > 0)
            ==> next.phase is Devt,
        search.phase is Devt && (reply matches NodeReply::Text(Ok(contents)) && contents@
            == text::decimal(major as nat) + seq![':'] + text::decimal(minor as nat) + seq!['\n'])
            ==> next.phase == (NodePhase::Node { devt: (major, minor) }),
        search.phase == (NodePhase::Node { devt: (major, minor) }) && (
        reply matches NodeReply::Number(Some(rdev)) && (rdev / 0x100) % 0x1000 + (rdev
            / 0x1000_0000_0000) * 0x1000 == major && rdev % 0x100 + ((rdev / 0x10_0000)
            % 0x100_0000) * 0x100 == minor) ==> next.phase is Sector,
        search.phase is Sector ==> op is ReadSector && (search.ends(reply) <==> reply
            == NodeReply::Sector(Some(512usize))),
        search.phase is Clock && (reply matches NodeReply::Elapsed(elapsed) && elapsed
            < search.timeout) ==> next.phase is List,
{
    law_devt_attribute_reads_back(major, minor);
    match reply {
        NodeReply::Number(Some(rdev)) => {
            law_dev_t_is_laid_out_in_four_parts(rdev);
        },
        _ => {},
    }
}

/// Once the host has written the value, the write is over and has gone well.
pub proof fn law_a_value_that_was_written_is_written(
    writing: AttrWrite,
    op: AttrOp,
    reply: AttrReply,
)
    requires
        writing.asks(op),
        op is Write,
        reply matches AttrReply::Wrote(wrote) && wrote is Ok,
    ensures
        writing.after(reply) is None,
        writing.outcome(reply, Ok::<(), Error>(())),
{
}

} // verus!
