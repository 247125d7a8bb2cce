//! Device lifecycle as a typestate: [`Device`] -> [`Live`] -> [`Mounted`].
//!
//! You cannot mount a device that is not up, because the states are distinct
//! types, and each way on consumes the state it starts from.

use vstd::prelude::*;
use vstd::utf8::encode_utf8;

use crate::config::ConfigOp;
use crate::config::ConfigReply;
use crate::config::ConfigWrite;
use crate::config::DeviceConfig;
use crate::configfs;
use crate::configfs::address_was_read;
use crate::configfs::dev_major;
use crate::configfs::dev_minor;
use crate::configfs::is_first_name;
use crate::configfs::name_was_listed;
use crate::configfs::numbers_agreed;
use crate::configfs::parsed_devt;
use crate::configfs::AttrOp;
use crate::configfs::AttrReply;
use crate::configfs::AttrWrite;
use crate::configfs::NodeOp;
use crate::configfs::NodePhase;
use crate::configfs::NodeReply;
use crate::configfs::NodeSearch;
use crate::configfs::ResultOp;
use crate::configfs::ResultReply;
use crate::configfs::ResultWait;
use crate::configfs::DEV_PREFIX;
use crate::configfs::MAX_DATA_AREA_MB;
use crate::configfs::NAA_PREFIX;
use crate::error::is_io;
use crate::error::Error;
use crate::error::IoFailure;
use crate::host::Parents;
use crate::host::Platform;
use crate::host::Progress;
use crate::path;
use crate::path::joined;
use crate::path::shown;
use crate::path::HostPath;
use crate::teardown;
use crate::teardown::lemma_teardown_begins;
use crate::teardown::lemma_teardown_goes_on;
use crate::teardown::takes_down;
use crate::teardown::teardown_plan;
use crate::teardown::StepView;
use crate::teardown::Teardown;
use crate::teardown::TeardownOp;
use crate::teardown::TeardownReply;
use crate::text;

verus! {

/// Where overlaybd writes its log, used when reporting a launch failure.
pub const OVERLAYBD_LOG: &'static str = "/var/log/overlaybd.log";

/// How many lines of the log a launch failure quotes.
pub const LOG_LINES: usize = 25;

/// How a device is mounted.
#[derive(Debug, Clone, Copy, PartialEq, Eq, Structural)]
pub enum Mode {
    /// Writable: the device must have an upper.
    Rw,
    /// `ro,noload`. All of a lower-only device's layers are read-only, so ext4
    /// cannot replay a journal; `noload` skips the attempt.
    Ro,
}

impl Mode {
    /// Whether the mount is read-only.
    pub fn is_read_only(self) -> (yes: bool)
        ensures
            yes == (self is Ro),
    {
        self == Mode::Ro
    }

    /// The mount options, in words.
    pub open spec fn options(self) -> Seq<char> {
        match self {
            Mode::Rw => "rw"@,
            Mode::Ro => "ro,noload"@,
        }
    }
}

/// A device that has not been launched yet.
#[derive(Debug)]
pub struct Device {
    name: String,
    config_path: HostPath,
    result_path: HostPath,
    naa: String,
}

/// What makes up a device.
pub struct DeviceView {
    pub name: Seq<char>,
    pub config_path: Seq<u8>,
    pub result_path: Seq<u8>,
    pub naa: Seq<char>,
}

impl View for Device {
    type V = DeviceView;

    closed spec fn view(&self) -> DeviceView {
        DeviceView {
            name: self.name@,
            config_path: self.config_path@,
            result_path: self.result_path@,
            naa: self.naa@,
        }
    }
}

impl Clone for Device {
    fn clone(&self) -> (copy: Self)
        ensures
            copy@ == self@,
    {
        proof {
            use_type_invariant(self);
        }
        Device {
            name: self.name.clone(),
            config_path: self.config_path.clone(),
            result_path: self.result_path.clone(),
            naa: self.naa.clone(),
        }
    }
}

/// Whether `error` says that `name` lacks the prefix.
pub open spec fn is_bad_name(error: Error, name: Seq<char>) -> bool {
    error matches Error::BadDeviceName { name: n, prefix } && n@ == name && prefix@ == DEV_PREFIX@
}

/// Whether `made` is the answer to a request for a device.
pub open spec fn is_device_for(
    made: Result<Device, Error>,
    name: Seq<char>,
    config_path: Seq<u8>,
    result_path: Seq<u8>,
    naa_suffix: Seq<char>,
) -> bool {
    match made {
        Ok(device) => {
            &&& DEV_PREFIX@.is_prefix_of(name)
            &&& device@ == (DeviceView {
                name,
                config_path,
                result_path,
                naa: NAA_PREFIX@ + naa_suffix,
            })
        },
        Err(error) => !DEV_PREFIX@.is_prefix_of(name) && is_bad_name(error, name),
    }
}

/// The nexus for a suffix.
fn naa_for(naa_suffix: &str) -> (naa: String)
    ensures
        naa@ == NAA_PREFIX@ + naa_suffix@,
{
    NAA_PREFIX.to_owned().concat(naa_suffix)
}

impl Device {
    /// Devices carry the prefixes by which the cleanup sweep finds them.
    #[verifier::type_invariant]
    spec fn marked(self) -> bool {
        DEV_PREFIX@.is_prefix_of(self.name@) && NAA_PREFIX@.is_prefix_of(self.naa@)
    }

    /// Build a device.
    ///
    /// `name` must start with [`DEV_PREFIX`] so the cleanup sweep can recognise
    /// it. `naa_suffix` is appended to [`NAA_PREFIX`] and must be unique among
    /// live devices.
    pub fn new(
        name: &str,
        config_path: HostPath,
        result_path: HostPath,
        naa_suffix: &str,
    ) -> (made: Result<Self, Error>)
        ensures
            is_device_for(made, name@, config_path@, result_path@, naa_suffix@),
    {
        if !text::starts_with(name, DEV_PREFIX) {
            return Err(Error::BadDeviceName { name: name.to_owned(), prefix: DEV_PREFIX });
        }
        let naa = naa_for(naa_suffix);
        assert(NAA_PREFIX@.is_prefix_of(naa@)) by {
            assert(NAA_PREFIX@ =~= naa@.subrange(0, NAA_PREFIX@.len() as int));
        }
        Ok(Device { name: name.to_owned(), config_path, result_path, naa })
    }

    /// Build a device from a [`DeviceConfig`], writing the config out first.
    pub fn from_config(
        name: &str,
        config: &DeviceConfig,
        config_path: HostPath,
        naa_suffix: &str,
    ) -> (building: FromConfig)
        ensures
            building.name@ == name@,
            building.naa_suffix@ == naa_suffix@,
            building.config_path@ == config_path@,
            building.result_path@ == config@.result_file,
            building.writing.path@ == config_path@,
            building.writing.phase matches crate::config::ConfigPhase::Parents { rendered }
                && crate::config::is_rendering(config@, rendered),
            building.writing.sound(),
    {
        FromConfig {
            name: name.to_owned(),
            naa_suffix: naa_suffix.to_owned(),
            config_path: config_path.clone(),
            result_path: config.result_file().clone(),
            writing: config.write(config_path),
        }
    }

    /// The backstore's name.
    pub fn name(&self) -> (name: &str)
        ensures
            name@ == self@.name,
            DEV_PREFIX@.is_prefix_of(name@),
    {
        proof {
            use_type_invariant(self);
        }
        self.name.as_str()
    }

    /// The nexus's name.
    pub fn naa(&self) -> (naa: &str)
        ensures
            naa@ == self@.naa,
            NAA_PREFIX@.is_prefix_of(naa@),
    {
        proof {
            use_type_invariant(self);
        }
        self.naa.as_str()
    }
}

/// A device that is being built from a config; see [`Device::from_config`].
#[derive(Debug)]
pub struct FromConfig {
    pub name: String,
    pub naa_suffix: String,
    pub config_path: HostPath,
    pub result_path: HostPath,
    pub writing: ConfigWrite,
}

impl FromConfig {
    /// What to ask the host: all there is to do is to write the config.
    pub fn op(&self) -> (op: ConfigOp)
        ensures
            self.writing.asks(op),
    {
        self.writing.op()
    }

    /// Take the host's answer. Once the config is written the device is built.
    pub fn resume(self, reply: ConfigReply) -> (progress: Progress<
        FromConfig,
        Result<Device, Error>,
    >)
        ensures
            match progress {
                Progress::Running(next) => {
                    &&& !self.writing.ends(reply)
                    &&& self.writing.leads_to(reply, next.writing)
                    &&& next == FromConfig { writing: next.writing, ..self }
                    &&& self.writing.sound() ==> next.writing.sound()
                },
                Progress::Finished(out) => {
                    &&& self.writing.ends(reply)
                    &&& {
                        ||| out matches Err(error) && self.writing.outcome(
                            reply,
                            Err::<(), Error>(error),
                        )
                        ||| self.writing.outcome(reply, Ok::<(), Error>(())) && is_device_for(
                            out,
                            self.name@,
                            self.config_path@,
                            self.result_path@,
                            self.naa_suffix@,
                        )
                    }
                },
            },
    {
        match self.writing.resume(reply) {
            Progress::Running(writing) => Progress::Running(
                FromConfig {
                    name: self.name,
                    naa_suffix: self.naa_suffix,
                    config_path: self.config_path,
                    result_path: self.result_path,
                    writing,
                },
            ),
            Progress::Finished(Err(error)) => Progress::Finished(Err(error)),
            Progress::Finished(Ok(())) => Progress::Finished(
                Device::new(
                    self.name.as_str(),
                    self.config_path,
                    self.result_path,
                    self.naa_suffix.as_str(),
                ),
            ),
        }
    }
}

/// A launched device with a resolved block node, not yet mounted.
#[derive(Debug)]
pub struct Live {
    device: Device,
    block_device: String,
    scsi_address: String,
}

/// What makes up a launched device.
pub struct LiveView {
    pub device: DeviceView,
    pub block_device: Seq<char>,
    pub scsi_address: Seq<char>,
}

impl View for Live {
    type V = LiveView;

    closed spec fn view(&self) -> LiveView {
        LiveView {
            device: self.device@,
            block_device: self.block_device@,
            scsi_address: self.scsi_address@,
        }
    }
}

impl LiveView {
    /// How to take the device down.
    pub open spec fn plan(self) -> Seq<StepView> {
        teardown_plan(self.device.name, self.device.naa, Some(self.scsi_address))
    }
}

/// The part of a nexus's name after the prefix.
pub open spec fn suffix_of(naa: Seq<char>) -> Seq<char> {
    if NAA_PREFIX@.is_prefix_of(naa) {
        naa.skip(NAA_PREFIX@.len() as int)
    } else {
        naa
    }
}

impl Live {
    /// The resolved `/dev/sdX`. Never hardcode this; it is recycled.
    pub fn block_device(&self) -> (node: &str)
        ensures
            node@ == self@.block_device,
    {
        self.block_device.as_str()
    }

    /// The backstore's name.
    pub fn name(&self) -> (name: &str)
        ensures
            name@ == self@.device.name,
            DEV_PREFIX@.is_prefix_of(name@),
    {
        self.device.name()
    }

    /// The nexus's name.
    pub fn naa(&self) -> (naa: &str)
        ensures
            naa@ == self@.device.naa,
            NAA_PREFIX@.is_prefix_of(naa@),
    {
        self.device.naa()
    }

    /// Tear the device down. This consumes the device, so it happens once.
    pub fn down(self) -> (teardown: Teardown)
        ensures
            teardown.is_at(self@.plan()),
    {
        teardown::teardown(
            self.device.name.as_str(),
            self.device.naa.as_str(),
            Some(self.scsi_address),
        )
    }

    /// Give up ownership without tearing down.
    ///
    /// Used by `obdctl device up`, which must leave the device running for a
    /// later process. Library callers normally want [`Live::down`] instead.
    pub fn persist(self) -> (persisted: PersistedDevice)
        ensures
            persisted.describes(self@, None),
    {
        proof {
            use_type_invariant(&self.device);
        }
        let naa = self.device.naa.as_str();
        let skipped: usize = NAA_PREFIX.unicode_len();
        let whole: usize = naa.unicode_len();
        let naa_suffix = naa.substring_char(skipped, whole).to_owned();
        proof {
            assert(naa_suffix@ =~= naa@.skip(skipped as int));
            assert(NAA_PREFIX@ + naa_suffix@ =~= naa@);
        }
        PersistedDevice {
            name: self.device.name,
            naa_suffix,
            block_device: self.block_device,
            mountpoint: None,
        }
    }
}

/// A device deliberately left running across process boundaries.
///
/// `obdctl device up` prints this so a later `obdctl device down` can find the
/// device again; nothing here is state that could not be re-derived from the
/// name and nexus suffix.
#[derive(Debug, Clone)]
pub struct PersistedDevice {
    pub name: String,
    pub naa_suffix: String,
    pub block_device: String,
    pub mountpoint: Option<HostPath>,
}

impl PersistedDevice {
    /// Whether this is what a later process needs for a device that was left
    /// running, mounted or not.
    pub open spec fn describes(self, live: LiveView, mountpoint: Option<Seq<u8>>) -> bool {
        &&& self.name@ == live.device.name
        &&& self.naa_suffix@ == suffix_of(live.device.naa)
        &&& NAA_PREFIX@ + self.naa_suffix@ == live.device.naa
        &&& self.block_device@ == live.block_device
        &&& path::optional_bytes(self.mountpoint) == mountpoint
    }
}

/// A device that is being launched; see [`Device::up`].
#[derive(Debug)]
pub struct Launch {
    pub device: Device,
    pub phase: LaunchPhase,
}

#[derive(Debug)]
pub enum LaunchPhase {
    /// Make room for the result file.
    ResultDir,
    /// Remove what an earlier launch left there.
    ClearResult,
    Backstore,
    /// Name the device config.
    Config(AttrWrite),
    DataArea(AttrWrite),
    Enable(AttrWrite),
    /// Wait for what the daemon reports.
    Result(ResultWait),
    /// The daemon reported something other than success.
    Log { result: String },
    Teardown { failure: Error, teardown: Teardown },
    Lun,
    Nexus(AttrWrite),
    LinkProbe,
    Link,
    Resolve(NodeSearch),
}

/// What launching a device asks of the host.
#[derive(Debug)]
pub enum LaunchOp {
    /// Create the directory that the path stands in, with its own parents.
    CreateParents(HostPath),
    /// Remove a file, if it can be removed.
    RemoveFile(HostPath),
    CreateDirAll(String),
    Attr(AttrOp),
    Result(ResultOp),
    ReadLog(HostPath),
    Teardown(TeardownOp),
    /// Whether anything stands at the path, a dangling symlink included.
    LinkExists(String),
    Symlink { target: String, link: String },
    Node(NodeOp),
}

#[derive(Debug)]
pub enum LaunchReply {
    Parents(Parents),
    /// A file was removed, or could not be.
    Removed,
    Created(Result<(), IoFailure>),
    Attr(AttrReply),
    Result(ResultReply),
    Log(Result<String, IoFailure>),
    Teardown(TeardownReply),
    LinkExists(bool),
    Linked(Result<(), IoFailure>),
    Node(NodeReply),
}

/// How often enabling a device is tried while the daemon is still attaching.
pub const ENABLE_RETRIES: u32 = 100;

/// How long to wait between two tries.
pub const ENABLE_DELAY: u128 = 50_000_000;

/// How long the daemon has to report.
pub const RESULT_TIMEOUT: u128 = 10_000_000_000;

/// How long the node has to become usable.
pub const NODE_TIMEOUT: u128 = 30_000_000_000;

impl DeviceView {
    /// The attribute through which the backstore is configured.
    pub open spec fn control(self) -> Seq<char> {
        joined(configfs::backstore_text(self.name), "control"@)
    }

    /// Whether `phase` names the config to the daemon. The daemon registers the
    /// TCMU subtype "overlaybd"; everything after the first '/' is taken as the
    /// absolute config path.
    pub open spec fn writes_config(self, phase: LaunchPhase) -> bool {
        phase matches LaunchPhase::Config(writing) && writing.begins(
            self.control(),
            "dev_config=overlaybd/"@ + shown(self.config_path),
            1,
            0,
        )
    }

    /// Whether `phase` sizes the data area.
    pub open spec fn writes_data_area(self, phase: LaunchPhase) -> bool {
        phase matches LaunchPhase::DataArea(writing) && writing.begins(
            self.control(),
            "max_data_area_mb="@ + text::decimal(MAX_DATA_AREA_MB as nat),
            1,
            0,
        )
    }

    /// Whether `phase` enables the backstore.
    pub open spec fn writes_enable(self, phase: LaunchPhase) -> bool {
        phase matches LaunchPhase::Enable(writing) && writing.begins(
            joined(configfs::backstore_text(self.name), "enable"@),
            "1"@,
            ENABLE_RETRIES,
            ENABLE_DELAY,
        )
    }

    /// Whether `phase` begins to wait for the daemon's report.
    pub open spec fn awaits_result(self, phase: LaunchPhase) -> bool {
        phase matches LaunchPhase::Result(wait) && wait.result_file@ == self.result_path
            && wait.timeout == RESULT_TIMEOUT && wait.phase is Clock
    }

    /// Whether `phase` sets up the nexus.
    pub open spec fn writes_nexus(self, phase: LaunchPhase) -> bool {
        phase matches LaunchPhase::Nexus(writing) && writing.begins(
            joined(configfs::tpgt_text(self.naa), "nexus"@),
            self.naa,
            1,
            0,
        )
    }

    /// Whether `phase` begins to look for the device's node.
    pub open spec fn resolves(self, phase: LaunchPhase) -> bool {
        phase matches LaunchPhase::Resolve(search) && search.begins(
            self.name,
            self.naa,
            NODE_TIMEOUT,
        )
    }
}

impl Launch {
    /// Whether `op` is what the host is asked for.
    pub open spec fn asks(self, op: LaunchOp) -> bool {
        let device = self.device@;
        match self.phase {
            LaunchPhase::ResultDir => op matches LaunchOp::CreateParents(path) && path@
                == device.result_path,
            LaunchPhase::ClearResult => op matches LaunchOp::RemoveFile(path) && path@
                == device.result_path,
            LaunchPhase::Backstore => op matches LaunchOp::CreateDirAll(path) && path@
                == configfs::backstore_text(device.name),
            LaunchPhase::Config(writing) => op matches LaunchOp::Attr(o) && writing.asks(o),
            LaunchPhase::DataArea(writing) => op matches LaunchOp::Attr(o) && writing.asks(o),
            LaunchPhase::Enable(writing) => op matches LaunchOp::Attr(o) && writing.asks(o),
            LaunchPhase::Result(wait) => op matches LaunchOp::Result(o) && wait.asks(o),
            LaunchPhase::Log { .. } => op matches LaunchOp::ReadLog(log) && log@ == encode_utf8(
                OVERLAYBD_LOG@,
            ),
            LaunchPhase::Teardown { teardown, .. } => op matches LaunchOp::Teardown(o)
                && teardown.asks(o),
            LaunchPhase::Lun => op matches LaunchOp::CreateDirAll(path) && path@
                == configfs::lun0_text(device.naa),
            LaunchPhase::Nexus(writing) => op matches LaunchOp::Attr(o) && writing.asks(o),
            LaunchPhase::LinkProbe => op matches LaunchOp::LinkExists(path) && path@
                == configfs::lun_link_text(device.naa, device.name),
            LaunchPhase::Link => op matches LaunchOp::Symlink { target, link } && target@
                == configfs::backstore_text(device.name) && link@ == configfs::lun_link_text(
                device.naa,
                device.name,
            ),
            LaunchPhase::Resolve(search) => op matches LaunchOp::Node(o) && search.asks(o),
        }
    }

    /// Whether an answer ends the launch.
    pub open spec fn ends(self, reply: LaunchReply) -> bool {
        match (self.phase, reply) {
            (LaunchPhase::ResultDir, LaunchReply::Parents(parents)) => parents is Failed,
            (LaunchPhase::Backstore, LaunchReply::Created(created)) => created is Err,
            (LaunchPhase::Config(writing), LaunchReply::Attr(reply)) => writing.fails(reply),
            (LaunchPhase::DataArea(writing), LaunchReply::Attr(reply)) => writing.fails(reply),
            (LaunchPhase::Enable(writing), LaunchReply::Attr(reply)) => writing.fails(reply),
            (LaunchPhase::Teardown { teardown, .. }, LaunchReply::Teardown(reply)) => teardown.ends(
                reply,
            ),
            (LaunchPhase::Lun, LaunchReply::Created(created)) => created is Err,
            (LaunchPhase::Nexus(writing), LaunchReply::Attr(reply)) => writing.fails(reply),
            (LaunchPhase::Link, LaunchReply::Linked(linked)) => linked is Err,
            (LaunchPhase::Resolve(search), LaunchReply::Node(reply)) => search.ends(reply),
            _ => false,
        }
    }

    /// Whether an answer that does not end the launch leads to `next`.
    pub open spec fn phase_after(self, reply: LaunchReply, next: LaunchPhase) -> bool {
        let device = self.device@;
        match (self.phase, reply) {
            (LaunchPhase::ResultDir, LaunchReply::Parents(_)) => next is ClearResult,
            (LaunchPhase::ClearResult, LaunchReply::Removed) => next is Backstore,
            (LaunchPhase::Backstore, LaunchReply::Created(_)) => device.writes_config(next),
            (LaunchPhase::Config(writing), LaunchReply::Attr(reply)) => match writing.after(reply) {
                Some(writing) => next == LaunchPhase::Config(writing),
                None => device.writes_data_area(next),
            },
            (LaunchPhase::DataArea(writing), LaunchReply::Attr(reply)) => match writing.after(
                reply,
            ) {
                Some(writing) => next == LaunchPhase::DataArea(writing),
                None => device.writes_enable(next),
            },
            (LaunchPhase::Enable(writing), LaunchReply::Attr(reply)) => match writing.after(reply) {
                Some(writing) => next == LaunchPhase::Enable(writing),
                None => device.awaits_result(next),
            },
            (LaunchPhase::Result(wait), LaunchReply::Result(reply)) => match wait.after(reply) {
                Some(wait) => next == LaunchPhase::Result(wait),
                None => if wait.outcome(reply) == "success"@ {
                    next is Lun
                } else {
                    next matches LaunchPhase::Log { result } && result@ == wait.outcome(reply)
                },
            },
            (LaunchPhase::Log { result }, LaunchReply::Log(contents)) => {
                &&& next matches LaunchPhase::Teardown { failure, teardown }
                &&& self.is_launch_failure(failure, result@, contents)
                &&& teardown.is_at(teardown_plan(device.name, device.naa, None))
            },
            (LaunchPhase::Teardown { failure, teardown }, LaunchReply::Teardown(reply)) => {
                &&& next matches LaunchPhase::Teardown { failure: f, teardown: t }
                &&& f == failure
                &&& teardown.leads_to(reply, t)
            },
            (LaunchPhase::Lun, LaunchReply::Created(_)) => device.writes_nexus(next),
            (LaunchPhase::Nexus(writing), LaunchReply::Attr(reply)) => match writing.after(reply) {
                Some(writing) => next == LaunchPhase::Nexus(writing),
                None => next is LinkProbe,
            },
            (LaunchPhase::LinkProbe, LaunchReply::LinkExists(exists)) => if exists {
                device.resolves(next)
            } else {
                next is Link
            },
            (LaunchPhase::Link, LaunchReply::Linked(_)) => device.resolves(next),
            (LaunchPhase::Resolve(search), LaunchReply::Node(reply)) => next matches
                LaunchPhase::Resolve(s) && search.leads_to(reply, s),
            _ => next == self.phase,
        }
    }

    /// Whether `failure` quotes what the daemon reported and the end of its log.
    pub open spec fn is_launch_failure(
        self,
        failure: Error,
        reported: Seq<char>,
        contents: Result<String, IoFailure>,
    ) -> bool {
        &&& failure matches Error::LaunchFailed { device, result, log, tail }
        &&& device@ == self.device@.name
        &&& result@ == (if reported.len() == 0 {
            "<empty>"@
        } else {
            reported
        })
        &&& log@ == OVERLAYBD_LOG@
        &&& tail@ == configfs::tail_text(
            match contents {
                Ok(contents) => Some(contents@),
                Err(_) => None,
            },
            encode_utf8(OVERLAYBD_LOG@),
            LOG_LINES as nat,
        )
    }

    /// What comes out where an answer ends the launch.
    pub open spec fn outcome(self, reply: LaunchReply, out: Result<Live, Error>) -> bool {
        let device = self.device@;
        match (self.phase, reply) {
            (_, LaunchReply::Parents(Parents::Failed { parent, source })) => out matches Err(error)
                && is_io(error, "creating "@ + shown(parent@), source),
            (LaunchPhase::Backstore, LaunchReply::Created(Err(source))) => out matches Err(error)
                && is_io(error, "creating "@ + configfs::backstore_text(device.name), source),
            (LaunchPhase::Lun, LaunchReply::Created(Err(source))) => out matches Err(error)
                && is_io(error, "creating "@ + configfs::lun0_text(device.naa), source),
            (LaunchPhase::Config(writing), LaunchReply::Attr(reply)) => out matches Err(error)
                && writing.outcome(reply, Err::<(), Error>(error)),
            (LaunchPhase::DataArea(writing), LaunchReply::Attr(reply)) => out matches Err(error)
                && writing.outcome(reply, Err::<(), Error>(error)),
            (LaunchPhase::Enable(writing), LaunchReply::Attr(reply)) => out matches Err(error)
                && writing.outcome(reply, Err::<(), Error>(error)),
            (LaunchPhase::Nexus(writing), LaunchReply::Attr(reply)) => out matches Err(error)
                && writing.outcome(reply, Err::<(), Error>(error)),
            (LaunchPhase::Teardown { failure, .. }, _) => out == Err::<Live, Error>(failure),
            (_, LaunchReply::Linked(Err(source))) => out matches Err(error) && is_io(
                error,
                "linking "@ + configfs::lun_link_text(device.naa, device.name) + " -> "@
                    + configfs::backstore_text(device.name),
                source,
            ),
            (LaunchPhase::Resolve(search), LaunchReply::Node(reply)) => match out {
                Ok(live) => search.phase is Sector && live@ == (LiveView {
                    device,
                    block_device: configfs::node_text(search.last_seen@),
                    scsi_address: search.address@,
                }),
                Err(error) => search.outcome(reply, Err::<(String, String), Error>(error)),
            },
            _ => false,
        }
    }

    /// What to ask the host.
    pub fn op(&self) -> (op: LaunchOp)
        ensures
            self.asks(op),
    {
        let device = &self.device;
        match &self.phase {
            LaunchPhase::ResultDir => LaunchOp::CreateParents(device.result_path.clone()),
            LaunchPhase::ClearResult => LaunchOp::RemoveFile(device.result_path.clone()),
            LaunchPhase::Backstore => LaunchOp::CreateDirAll(
                configfs::backstore_path(device.name.as_str()),
            ),
            LaunchPhase::Config(writing) => LaunchOp::Attr(writing.op()),
            LaunchPhase::DataArea(writing) => LaunchOp::Attr(writing.op()),
            LaunchPhase::Enable(writing) => LaunchOp::Attr(writing.op()),
            LaunchPhase::Result(wait) => LaunchOp::Result(wait.op()),
            LaunchPhase::Log { .. } => LaunchOp::ReadLog(HostPath::new(OVERLAYBD_LOG)),
            LaunchPhase::Teardown { teardown, .. } => LaunchOp::Teardown(teardown.op()),
            LaunchPhase::Lun => LaunchOp::CreateDirAll(configfs::lun0_path(device.naa.as_str())),
            LaunchPhase::Nexus(writing) => LaunchOp::Attr(writing.op()),
            LaunchPhase::LinkProbe => LaunchOp::LinkExists(
                configfs::lun_link_path(device.naa.as_str(), device.name.as_str()),
            ),
            LaunchPhase::Link => LaunchOp::Symlink {
                target: configfs::backstore_path(device.name.as_str()),
                link: configfs::lun_link_path(device.naa.as_str(), device.name.as_str()),
            },
            LaunchPhase::Resolve(search) => LaunchOp::Node(search.op()),
        }
    }

    /// Take the host's answer.
    pub fn resume(self, reply: LaunchReply) -> (progress: Progress<Launch, Result<Live, Error>>)
        ensures
            match progress {
                Progress::Running(next) => {
                    &&& !self.ends(reply)
                    &&& next.device == self.device
                    &&& self.phase_after(reply, next.phase)
                },
                Progress::Finished(out) => self.ends(reply) && self.outcome(reply, out),
            },
    {
        let device = self.device;
        let phase = match (self.phase, reply) {
            (LaunchPhase::ResultDir, LaunchReply::Parents(Parents::Failed { parent, source })) => {
                let shown_parent = parent.display();
                return Progress::Finished(Err(creating(shown_parent.as_str(), source)));
            },
            (LaunchPhase::ResultDir, LaunchReply::Parents(Parents::Ready)) => {
                LaunchPhase::ClearResult
            },
            (LaunchPhase::ClearResult, LaunchReply::Removed) => LaunchPhase::Backstore,
            (LaunchPhase::Backstore, LaunchReply::Created(created)) => match created {
                Ok(()) => device.write_config(),
                Err(source) => {
                    let dir = configfs::backstore_path(device.name.as_str());
                    return Progress::Finished(Err(creating(dir.as_str(), source)));
                },
            },
            (LaunchPhase::Config(writing), LaunchReply::Attr(reply)) => {
                match writing.resume(reply) {
                    Progress::Running(writing) => LaunchPhase::Config(writing),
                    Progress::Finished(Ok(())) => device.write_data_area(),
                    Progress::Finished(Err(error)) => {
                        return Progress::Finished(Err(error));
                    },
                }
            },
            (LaunchPhase::DataArea(writing), LaunchReply::Attr(reply)) => {
                match writing.resume(reply) {
                    Progress::Running(writing) => LaunchPhase::DataArea(writing),
                    Progress::Finished(Ok(())) => device.write_enable(),
                    Progress::Finished(Err(error)) => {
                        return Progress::Finished(Err(error));
                    },
                }
            },
            (LaunchPhase::Enable(writing), LaunchReply::Attr(reply)) => {
                match writing.resume(reply) {
                    Progress::Running(writing) => LaunchPhase::Enable(writing),
                    // overlaybd reports launch failures through resultFile, not
                    // through the configfs write, so this must be checked
                    // explicitly.
                    Progress::Finished(Ok(())) => LaunchPhase::Result(
                        configfs::await_result(device.result_path.clone(), RESULT_TIMEOUT),
                    ),
                    Progress::Finished(Err(error)) => {
                        return Progress::Finished(Err(error));
                    },
                }
            },
            (LaunchPhase::Result(wait), LaunchReply::Result(reply)) => match wait.resume(reply) {
                Progress::Running(wait) => LaunchPhase::Result(wait),
                Progress::Finished(result) => {
                    if result == "success".to_owned() {
                        LaunchPhase::Lun
                    } else {
                        LaunchPhase::Log { result }
                    }
                },
            },
            (LaunchPhase::Log { result }, LaunchReply::Log(contents)) => LaunchPhase::Teardown {
                failure: device.launch_failure(result, contents),
                teardown: teardown::teardown(device.name.as_str(), device.naa.as_str(), None),
            },
            (LaunchPhase::Teardown { failure, teardown }, LaunchReply::Teardown(reply)) => {
                match teardown.resume(reply) {
                    Progress::Running(teardown) => LaunchPhase::Teardown { failure, teardown },
                    Progress::Finished(()) => {
                        return Progress::Finished(Err(failure));
                    },
                }
            },
            (LaunchPhase::Lun, LaunchReply::Created(created)) => match created {
                Ok(()) => device.write_nexus(),
                Err(source) => {
                    let dir = configfs::lun0_path(device.naa.as_str());
                    return Progress::Finished(Err(creating(dir.as_str(), source)));
                },
            },
            (LaunchPhase::Nexus(writing), LaunchReply::Attr(reply)) => {
                match writing.resume(reply) {
                    Progress::Running(writing) => LaunchPhase::Nexus(writing),
                    Progress::Finished(Ok(())) => LaunchPhase::LinkProbe,
                    Progress::Finished(Err(error)) => {
                        return Progress::Finished(Err(error));
                    },
                }
            },
            (LaunchPhase::LinkProbe, LaunchReply::LinkExists(exists)) => {
                if exists {
                    device.resolve()
                } else {
                    LaunchPhase::Link
                }
            },
            (LaunchPhase::Link, LaunchReply::Linked(linked)) => match linked {
                Ok(()) => device.resolve(),
                Err(source) => {
                    let link = configfs::lun_link_path(device.naa.as_str(), device.name.as_str());
                    let target = configfs::backstore_path(device.name.as_str());
                    let context = "linking ".to_owned().concat(link.as_str()).concat(
                        " -> ",
                    ).concat(target.as_str());
                    return Progress::Finished(Err(Error::io(context, source)));
                },
            },
            (LaunchPhase::Resolve(search), LaunchReply::Node(reply)) => {
                match search.resume(reply) {
                    Progress::Running(search) => LaunchPhase::Resolve(search),
                    Progress::Finished(Ok((node, address))) => {
                        return Progress::Finished(
                            Ok(Live { device, block_device: node, scsi_address: address }),
                        );
                    },
                    Progress::Finished(Err(error)) => {
                        return Progress::Finished(Err(error));
                    },
                }
            },
            (phase, _) => phase,
        };
        Progress::Running(Launch { device, phase })
    }
}

/// The error for a directory that cannot be created.
fn creating(dir: &str, source: IoFailure) -> (error: Error)
    ensures
        is_io(error, "creating "@ + dir@, source),
{
    Error::io("creating ".to_owned().concat(dir), source)
}

impl Device {
    /// An attribute of the device's backstore.
    fn backstore_attr(&self, attr: &str) -> (path: String)
        ensures
            path@ == joined(configfs::backstore_text(self@.name), attr@),
    {
        path::join(configfs::backstore_path(self.name.as_str()).as_str(), attr)
    }

    fn write_config(&self) -> (phase: LaunchPhase)
        ensures
            self@.writes_config(phase),
    {
        let config = self.config_path.display();
        let value = "dev_config=overlaybd/".to_owned().concat(config.as_str());
        let control = self.backstore_attr("control");
        LaunchPhase::Config(configfs::write_attr(control.as_str(), value.as_str(), 1, 0))
    }

    fn write_data_area(&self) -> (phase: LaunchPhase)
        ensures
            self@.writes_data_area(phase),
    {
        let megabytes = text::decimal_text(MAX_DATA_AREA_MB as u64);
        let value = "max_data_area_mb=".to_owned().concat(megabytes.as_str());
        let control = self.backstore_attr("control");
        LaunchPhase::DataArea(configfs::write_attr(control.as_str(), value.as_str(), 1, 0))
    }

    fn write_enable(&self) -> (phase: LaunchPhase)
        ensures
            self@.writes_enable(phase),
    {
        let enable = self.backstore_attr("enable");
        LaunchPhase::Enable(
            configfs::write_attr(enable.as_str(), "1", ENABLE_RETRIES, ENABLE_DELAY),
        )
    }

    fn write_nexus(&self) -> (phase: LaunchPhase)
        ensures
            self@.writes_nexus(phase),
    {
        let nexus = path::join(configfs::tpgt_path(self.naa.as_str()).as_str(), "nexus");
        LaunchPhase::Nexus(configfs::write_attr(nexus.as_str(), self.naa.as_str(), 1, 0))
    }

    fn resolve(&self) -> (phase: LaunchPhase)
        ensures
            self@.resolves(phase),
    {
        LaunchPhase::Resolve(
            configfs::resolve_block_device(self.name.as_str(), self.naa.as_str(), NODE_TIMEOUT),
        )
    }

    fn launch_failure(&self, reported: String, contents: Result<String, IoFailure>) -> (failure:
        Error)
        ensures
            forall|phase: LaunchPhase| #[trigger]
                (Launch { device: *self, phase }).is_launch_failure(failure, reported@, contents),
    {
        let result = if reported.as_str().is_empty() {
            "<empty>".to_owned()
        } else {
            reported
        };
        let log = HostPath::new(OVERLAYBD_LOG);
        let tail = match &contents {
            Ok(contents) => configfs::log_tail(Some(contents.as_str()), &log, LOG_LINES),
            Err(_) => configfs::log_tail(None, &log, LOG_LINES),
        };
        Error::LaunchFailed {
            device: self.name.clone(),
            result,
            log: OVERLAYBD_LOG.to_owned(),
            tail,
        }
    }

    /// Launch the device and resolve its `/dev/sdX`.
    pub fn up(self, platform: Platform) -> (launch: Result<Launch, Error>)
        ensures
            launch == (if platform.linux {
                Ok(Launch { device: self, phase: LaunchPhase::ResultDir })
            } else {
                Err::<Launch, Error>(Error::UnsupportedPlatform { os: platform.os })
            }),
    {
        if !platform.linux {
            return Err(Error::unsupported(platform.os));
        }
        Ok(Launch { device: self, phase: LaunchPhase::ResultDir })
    }
}

/// A device, and where and how it is to be mounted.
#[derive(Debug)]
pub struct MountRequest {
    pub live: Live,
    pub mountpoint: HostPath,
    pub mode: Mode,
}

/// A device that is being mounted; see [`Live::mount`].
#[derive(Debug)]
pub enum Mounting {
    CreateDir(MountRequest),
    Mount(MountRequest),
    Open(MountRequest),
    /// The device goes down with the mount that failed.
    Teardown { failure: Error, teardown: Teardown },
}

/// What mounting a device asks of the host.
#[derive(Debug)]
pub enum MountOp {
    CreateDirAll(HostPath),
    /// `mount(2)` with the given file system and, beside `read_only`, no flags.
    Mount {
        source: String,
        target: HostPath,
        file_system: &'static str,
        read_only: bool,
        data: Option<&'static str>,
    },
    /// Open a handle that is confined to the directory.
    OpenDir(HostPath),
    Teardown(TeardownOp),
}

#[derive(Debug)]
pub enum MountReply {
    Created(Result<(), IoFailure>),
    Mounted(Result<(), IoFailure>),
    Opened(Result<(), IoFailure>),
    Teardown(TeardownReply),
}

/// The file system on a device.
pub const FILE_SYSTEM: &'static str = "ext4";

/// The mount data that skips replaying a journal.
pub const NOLOAD: &'static str = "noload";

impl MountRequest {
    /// Whether `op` mounts the device: read-only, and without replaying a
    /// journal, where the mode says so.
    pub open spec fn is_mount(self, op: MountOp) -> bool {
        &&& op matches MountOp::Mount { source, target, file_system, read_only, data }
        &&& source@ == self.live@.block_device
        &&& target@ == self.mountpoint@
        &&& file_system@ == FILE_SYSTEM@
        &&& read_only == (self.mode is Ro)
        &&& match data {
            Some(data) => self.mode is Ro && data@ == NOLOAD@,
            None => self.mode is Rw,
        }
    }

    /// What is being done while the directory is made.
    pub open spec fn creating(self) -> Seq<char> {
        "creating "@ + shown(self.mountpoint@)
    }

    /// What is being done while the device is mounted.
    pub open spec fn mounting(self) -> Seq<char> {
        "mounting "@ + self.live@.block_device + " at "@ + shown(self.mountpoint@) + " ("@
            + self.mode.options() + ")"@
    }

    /// What is being done while the mount is opened.
    pub open spec fn opening(self) -> Seq<char> {
        "opening "@ + shown(self.mountpoint@) + " with cap-std"@
    }

    /// Whether `next` takes the device down because of a failure.
    pub open spec fn gives_up(
        self,
        context: Seq<char>,
        source: IoFailure,
        next: Mounting,
    ) -> bool {
        &&& next matches Mounting::Teardown { failure, teardown }
        &&& is_io(failure, context, source)
        &&& teardown.is_at(self.live@.plan())
    }

    fn give_up(self, context: String, source: IoFailure) -> (next: Mounting)
        ensures
            self.gives_up(context@, source, next),
    {
        Mounting::Teardown { failure: Error::io(context, source), teardown: self.live.down() }
    }

    fn mount_op(&self) -> (op: MountOp)
        ensures
            self.is_mount(op),
    {
        MountOp::Mount {
            source: self.live.block_device.clone(),
            target: self.mountpoint.clone(),
            file_system: FILE_SYSTEM,
            read_only: self.mode.is_read_only(),
            data: if self.mode.is_read_only() {
                Some(NOLOAD)
            } else {
                None
            },
        }
    }

    fn creating_context(&self) -> (context: String)
        ensures
            context@ == self.creating(),
    {
        let mountpoint = self.mountpoint.display();
        "creating ".to_owned().concat(mountpoint.as_str())
    }

    fn mounting_context(&self) -> (context: String)
        ensures
            context@ == self.mounting(),
    {
        let mountpoint = self.mountpoint.display();
        let options = if self.mode.is_read_only() {
            "ro,noload"
        } else {
            "rw"
        };
        "mounting ".to_owned().concat(self.live.block_device.as_str()).concat(" at ").concat(
            mountpoint.as_str(),
        ).concat(" (").concat(options).concat(")")
    }

    fn opening_context(&self) -> (context: String)
        ensures
            context@ == self.opening(),
    {
        let mountpoint = self.mountpoint.display();
        "opening ".to_owned().concat(mountpoint.as_str()).concat(" with cap-std")
    }
}

impl Mounting {
    /// Whether `op` is what the host is asked for.
    pub open spec fn asks(self, op: MountOp) -> bool {
        match self {
            Mounting::CreateDir(request) => op matches MountOp::CreateDirAll(path) && path@
                == request.mountpoint@,
            Mounting::Mount(request) => request.is_mount(op),
            Mounting::Open(request) => op matches MountOp::OpenDir(path) && path@
                == request.mountpoint@,
            Mounting::Teardown { teardown, .. } => op matches MountOp::Teardown(o)
                && teardown.asks(o),
        }
    }

    /// Whether an answer ends the mounting.
    pub open spec fn ends(self, reply: MountReply) -> bool {
        match (self, reply) {
            (Mounting::Open(_), MountReply::Opened(opened)) => opened is Ok,
            (Mounting::Teardown { teardown, .. }, MountReply::Teardown(reply)) => teardown.ends(
                reply,
            ),
            _ => false,
        }
    }

    /// Whether an answer that does not end the mounting leads to `next`.
    pub open spec fn leads_to(self, reply: MountReply, next: Mounting) -> bool {
        match (self, reply) {
            (Mounting::CreateDir(request), MountReply::Created(Ok(_))) => next == Mounting::Mount(
                request,
            ),
            (
                Mounting::CreateDir(request),
                MountReply::Created(Err(source)),
            ) => request.gives_up(request.creating(), source, next),
            (Mounting::Mount(request), MountReply::Mounted(Ok(_))) => next == Mounting::Open(
                request,
            ),
            (Mounting::Mount(request), MountReply::Mounted(Err(source))) => request.gives_up(
                request.mounting(),
                source,
                next,
            ),
            (Mounting::Open(request), MountReply::Opened(Err(source))) => request.gives_up(
                request.opening(),
                source,
                next,
            ),
            (Mounting::Teardown { failure, teardown }, MountReply::Teardown(reply)) => {
                &&& next matches Mounting::Teardown { failure: f, teardown: t }
                &&& f == failure
                &&& teardown.leads_to(reply, t)
            },
            _ => next == self,
        }
    }

    /// What comes out where an answer ends the mounting.
    pub open spec fn outcome(self, out: Result<Mounted, Error>) -> bool {
        match self {
            Mounting::Open(request) => out matches Ok(mounted) && mounted@ == (MountedView {
                live: request.live@,
                mountpoint: request.mountpoint@,
            }),
            Mounting::Teardown { failure, .. } => out == Err::<Mounted, Error>(failure),
            _ => false,
        }
    }

    /// What to ask the host.
    pub fn op(&self) -> (op: MountOp)
        ensures
            self.asks(op),
    {
        match self {
            Mounting::CreateDir(request) => MountOp::CreateDirAll(request.mountpoint.clone()),
            Mounting::Mount(request) => request.mount_op(),
            Mounting::Open(request) => MountOp::OpenDir(request.mountpoint.clone()),
            Mounting::Teardown { teardown, .. } => MountOp::Teardown(teardown.op()),
        }
    }

    /// Take the host's answer.
    pub fn resume(self, reply: MountReply) -> (progress: Progress<Mounting, Result<Mounted, Error>>)
        ensures
            match progress {
                Progress::Running(next) => !self.ends(reply) && self.leads_to(reply, next),
                Progress::Finished(out) => self.ends(reply) && self.outcome(out),
            },
    {
        Progress::Running(
            match (self, reply) {
                (Mounting::CreateDir(request), MountReply::Created(created)) => match created {
                    Ok(()) => Mounting::Mount(request),
                    Err(source) => {
                        let context = request.creating_context();
                        request.give_up(context, source)
                    },
                },
                (Mounting::Mount(request), MountReply::Mounted(mounted)) => match mounted {
                    Ok(()) => Mounting::Open(request),
                    Err(source) => {
                        let context = request.mounting_context();
                        request.give_up(context, source)
                    },
                },
                (Mounting::Open(request), MountReply::Opened(opened)) => match opened {
                    Ok(()) => {
                        return Progress::Finished(
                            Ok(Mounted { live: request.live, mountpoint: request.mountpoint }),
                        );
                    },
                    Err(source) => {
                        let context = request.opening_context();
                        request.give_up(context, source)
                    },
                },
                (Mounting::Teardown { failure, teardown }, MountReply::Teardown(reply)) => {
                    match teardown.resume(reply) {
                        Progress::Running(teardown) => Mounting::Teardown { failure, teardown },
                        Progress::Finished(()) => {
                            return Progress::Finished(Err(failure));
                        },
                    }
                },
                (mounting, _) => mounting,
            },
        )
    }
}

impl Live {
    /// Mount the device as ext4.
    ///
    /// Mount *before* handing the directory to anything that opens descriptors
    /// on it, and drop those descriptors before unmounting.
    pub fn mount(self, mountpoint: HostPath, mode: Mode, platform: Platform) -> (mounting: Result<
        Mounting,
        Error,
    >)
        ensures
            mounting == (if platform.linux {
                Ok(Mounting::CreateDir(MountRequest { live: self, mountpoint, mode }))
            } else {
                Err::<Mounting, Error>(Error::UnsupportedPlatform { os: platform.os })
            }),
    {
        if !platform.linux {
            return Err(Error::unsupported(platform.os));
        }
        Ok(Mounting::CreateDir(MountRequest { live: self, mountpoint, mode }))
    }
}

/// A mounted device.
#[derive(Debug)]
pub struct Mounted {
    live: Live,
    mountpoint: HostPath,
}

/// What makes up a mounted device.
pub struct MountedView {
    pub live: LiveView,
    pub mountpoint: Seq<u8>,
}

impl View for Mounted {
    type V = MountedView;

    closed spec fn view(&self) -> MountedView {
        MountedView { live: self.live@, mountpoint: self.mountpoint@ }
    }
}

impl Mounted {
    /// Where the device is mounted. Needed for handing the path to a process
    /// that cannot take a file descriptor.
    pub fn mountpoint(&self) -> (path: &HostPath)
        ensures
            path@ == self@.mountpoint,
    {
        &self.mountpoint
    }

    /// The resolved `/dev/sdX`.
    pub fn block_device(&self) -> (node: &str)
        ensures
            node@ == self@.live.block_device,
    {
        self.live.block_device()
    }

    /// The backstore's name.
    pub fn name(&self) -> (name: &str)
        ensures
            name@ == self@.live.device.name,
            DEV_PREFIX@.is_prefix_of(name@),
    {
        self.live.name()
    }

    /// Close our own handle, sync, then unmount, giving back the still-live
    /// device.
    pub fn unmount(self, platform: Platform) -> (unmounting: Result<Unmounting, Error>)
        ensures
            unmounting == (if platform.linux {
                Ok(Unmounting::Close { mounted: self })
            } else {
                Err::<Unmounting, Error>(Error::UnsupportedPlatform { os: platform.os })
            }),
    {
        if !platform.linux {
            return Err(Error::unsupported(platform.os));
        }
        Ok(Unmounting::Close { mounted: self })
    }

    /// Unmount and tear the device down in one step.
    pub fn down(self, platform: Platform) -> (going: Result<GoingDown, Error>)
        ensures
            going == (if platform.linux {
                Ok(GoingDown::Unmount(Unmounting::Close { mounted: self }))
            } else {
                Err::<GoingDown, Error>(Error::UnsupportedPlatform { os: platform.os })
            }),
    {
        match self.unmount(platform) {
            Ok(unmounting) => Ok(GoingDown::Unmount(unmounting)),
            Err(error) => Err(error),
        }
    }

    /// What becomes of a mounted device that its owner lets go of: it is
    /// unmounted if that can be done, and torn down.
    pub fn release(self) -> (release: Release)
        ensures
            release == (Release::Close { mounted: self }),
    {
        Release::Close { mounted: self }
    }

    /// Leave the device mounted for a later process; see [`Live::persist`].
    pub fn persist(self) -> (persisted: PersistedDevice)
        ensures
            persisted.describes(self@.live, Some(self@.mountpoint)),
    {
        let mut persisted = self.live.persist();
        persisted.mountpoint = Some(self.mountpoint);
        persisted
    }

    /// Create a subdirectory and open a handle confined to it.
    ///
    /// Prefer this over handing out the mount root: overlaybd's consumers wipe
    /// their output directory on every run, so the mount root would lose
    /// `lost+found` and anything else.
    pub fn create_subdir(&self, name: &str) -> (subdir: Subdir)
        ensures
            subdir.name@ == name@,
            subdir.mountpoint@ == self@.mountpoint,
            subdir.phase is Probe,
    {
        Subdir {
            name: name.to_owned(),
            mountpoint: self.mountpoint.clone(),
            phase: SubdirPhase::Probe,
        }
    }
}

/// How often an unmount is tried while the mount is busy.
pub const UNMOUNT_TRIES: u32 = 20;

/// How long to wait after a try that failed.
pub const UNMOUNT_DELAY: u128 = 500_000_000;

/// What unmounting a device asks of the host.
#[derive(Debug)]
pub enum UnmountOp {
    /// Close the handle that [`MountOp::OpenDir`] opened, if it is still open:
    /// otherwise we are the thing holding the mount.
    CloseDir,
    /// Flush everything to disk.
    Sync,
    Unmount(HostPath),
    Sleep(u128),
    Teardown(TeardownOp),
}

#[derive(Debug)]
pub enum UnmountReply {
    /// No handle is open any more.
    Closed,
    Synced,
    Unmounted(Result<(), IoFailure>),
    Slept,
    Teardown(TeardownReply),
}

/// How many tries are left after one that failed.
pub open spec fn one_less(left: u32) -> u32 {
    if left > 0 {
        (left - 1) as u32
    } else {
        0
    }
}

fn less_one(left: u32) -> (less: u32)
    ensures
        less == one_less(left),
{
    if left > 0 {
        left - 1
    } else {
        0
    }
}

/// A mounted device that was let go of; see [`Mounted::release`].
#[derive(Debug)]
pub enum Release {
    Close { mounted: Mounted },
    Sync { mounted: Mounted },
    /// `left` counts the tries, the one that is asked for now included.
    Try { mounted: Mounted, left: u32 },
    Pause { mounted: Mounted, left: u32 },
    Teardown(Teardown),
}

impl Release {
    /// Whether `op` is what the host is asked for.
    pub open spec fn asks(self, op: UnmountOp) -> bool {
        match self {
            Release::Close { .. } => op is CloseDir,
            Release::Sync { .. } => op is Sync,
            Release::Try { mounted, .. } => op matches UnmountOp::Unmount(path) && path@
                == mounted@.mountpoint,
            Release::Pause { .. } => op == UnmountOp::Sleep(UNMOUNT_DELAY),
            Release::Teardown(teardown) => op matches UnmountOp::Teardown(o) && teardown.asks(o),
        }
    }

    /// Whether an answer ends the release.
    pub open spec fn ends(self, reply: UnmountReply) -> bool {
        match (self, reply) {
            (Release::Teardown(teardown), UnmountReply::Teardown(reply)) => teardown.ends(reply),
            _ => false,
        }
    }

    /// Whether an answer that does not end the release leads to `next`. The
    /// device goes down whether or not it could be unmounted.
    pub open spec fn leads_to(self, reply: UnmountReply, next: Release) -> bool {
        match (self, reply) {
            (Release::Close { mounted }, UnmountReply::Closed) => next == (Release::Sync { mounted }),
            (Release::Sync { mounted }, UnmountReply::Synced) => next == (Release::Try {
                mounted,
                left: UNMOUNT_TRIES,
            }),
            (Release::Try { mounted, .. }, UnmountReply::Unmounted(Ok(_))) => next matches
                Release::Teardown(teardown) && teardown.is_at(mounted@.live.plan()),
            (Release::Try { mounted, left }, UnmountReply::Unmounted(Err(_))) => next == (
            Release::Pause { mounted, left: one_less(left) }),
            (Release::Pause { mounted, left }, UnmountReply::Slept) => if left > 0 {
                next == (Release::Try { mounted, left })
            } else {
                next matches Release::Teardown(teardown) && teardown.is_at(mounted@.live.plan())
            },
            (Release::Teardown(teardown), UnmountReply::Teardown(reply)) => next matches
                Release::Teardown(t) && teardown.leads_to(reply, t),
            _ => next == self,
        }
    }

    /// What to ask the host.
    pub fn op(&self) -> (op: UnmountOp)
        ensures
            self.asks(op),
    {
        match self {
            Release::Close { .. } => UnmountOp::CloseDir,
            Release::Sync { .. } => UnmountOp::Sync,
            Release::Try { mounted, .. } => UnmountOp::Unmount(mounted.mountpoint.clone()),
            Release::Pause { .. } => UnmountOp::Sleep(UNMOUNT_DELAY),
            Release::Teardown(teardown) => UnmountOp::Teardown(teardown.op()),
        }
    }

    /// Take the host's answer.
    pub fn resume(self, reply: UnmountReply) -> (progress: Progress<Release, ()>)
        ensures
            match progress {
                Progress::Running(next) => !self.ends(reply) && self.leads_to(reply, next),
                Progress::Finished(_) => self.ends(reply),
            },
    {
        Progress::Running(
            match (self, reply) {
                (Release::Close { mounted }, UnmountReply::Closed) => Release::Sync { mounted },
                (Release::Sync { mounted }, UnmountReply::Synced) => Release::Try {
                    mounted,
                    left: UNMOUNT_TRIES,
                },
                (Release::Try { mounted, .. }, UnmountReply::Unmounted(Ok(()))) => {
                    Release::Teardown(mounted.live.down())
                },
                (Release::Try { mounted, left }, UnmountReply::Unmounted(Err(_))) => {
                    Release::Pause { mounted, left: less_one(left) }
                },
                (Release::Pause { mounted, left }, UnmountReply::Slept) => if left > 0 {
                    Release::Try { mounted, left }
                } else {
                    Release::Teardown(mounted.live.down())
                },
                (Release::Teardown(teardown), UnmountReply::Teardown(reply)) => {
                    match teardown.resume(reply) {
                        Progress::Running(teardown) => Release::Teardown(teardown),
                        Progress::Finished(()) => {
                            return Progress::Finished(());
                        },
                    }
                },
                (release, _) => release,
            },
        )
    }
}

/// A device that is being unmounted; see [`Mounted::unmount`].
#[derive(Debug)]
pub enum Unmounting {
    Close { mounted: Mounted },
    Sync { mounted: Mounted },
    /// `left` counts the tries, the one that is asked for now included.
    Try { mounted: Mounted, left: u32 },
    Pause { mounted: Mounted, left: u32, failure: IoFailure },
    /// Every try failed: the caller gets the error, and nobody is left to hold
    /// the device.
    Release { release: Release, error: Error },
}

impl Unmounting {
    /// Whether `op` is what the host is asked for.
    pub open spec fn asks(self, op: UnmountOp) -> bool {
        match self {
            Unmounting::Close { .. } => op is CloseDir,
            Unmounting::Sync { .. } => op is Sync,
            Unmounting::Try { mounted, .. } => op matches UnmountOp::Unmount(path) && path@
                == mounted@.mountpoint,
            Unmounting::Pause { .. } => op == UnmountOp::Sleep(UNMOUNT_DELAY),
            Unmounting::Release { release, .. } => release.asks(op),
        }
    }

    /// Whether an answer ends the unmounting.
    pub open spec fn ends(self, reply: UnmountReply) -> bool {
        match (self, reply) {
            (Unmounting::Try { .. }, UnmountReply::Unmounted(Ok(_))) => true,
            (Unmounting::Release { release, .. }, _) => release.ends(reply),
            _ => false,
        }
    }

    /// Whether an answer that does not end the unmounting leads to `next`.
    pub open spec fn leads_to(self, reply: UnmountReply, next: Unmounting) -> bool {
        match (self, reply) {
            (Unmounting::Close { mounted }, UnmountReply::Closed) => next == (Unmounting::Sync { mounted }),
            (Unmounting::Sync { mounted }, UnmountReply::Synced) => next == (Unmounting::Try {
                mounted,
                left: UNMOUNT_TRIES,
            }),
            (Unmounting::Try { mounted, left }, UnmountReply::Unmounted(Err(failure))) => next == (
            Unmounting::Pause { mounted, left: one_less(left), failure }),
            (Unmounting::Pause { mounted, left, failure }, UnmountReply::Slept) => if left > 0 {
                next == (Unmounting::Try { mounted, left })
            } else {
                &&& next matches Unmounting::Release { release, error }
                &&& release == (Release::Close { mounted })
                &&& error matches Error::Busy { path, source }
                &&& path@ == mounted@.mountpoint
                &&& source == failure
            },
            (Unmounting::Release { release, error }, _) => {
                &&& next matches Unmounting::Release { release: r, error: e }
                &&& e == error
                &&& release.leads_to(reply, r)
            },
            _ => next == self,
        }
    }

    /// What comes out where an answer ends the unmounting.
    pub open spec fn outcome(self, out: Result<Live, Error>) -> bool {
        match self {
            Unmounting::Try { mounted, .. } => out matches Ok(live) && live@ == mounted@.live,
            Unmounting::Release { error, .. } => out == Err::<Live, Error>(error),
            _ => false,
        }
    }

    /// What to ask the host.
    pub fn op(&self) -> (op: UnmountOp)
        ensures
            self.asks(op),
    {
        match self {
            Unmounting::Close { .. } => UnmountOp::CloseDir,
            Unmounting::Sync { .. } => UnmountOp::Sync,
            Unmounting::Try { mounted, .. } => UnmountOp::Unmount(mounted.mountpoint.clone()),
            Unmounting::Pause { .. } => UnmountOp::Sleep(UNMOUNT_DELAY),
            Unmounting::Release { release, .. } => release.op(),
        }
    }

    /// Take the host's answer.
    pub fn resume(self, reply: UnmountReply) -> (progress: Progress<
        Unmounting,
        Result<Live, Error>,
    >)
        ensures
            match progress {
                Progress::Running(next) => !self.ends(reply) && self.leads_to(reply, next),
                Progress::Finished(out) => self.ends(reply) && self.outcome(out),
            },
    {
        Progress::Running(
            match (self, reply) {
                (Unmounting::Close { mounted }, UnmountReply::Closed) => Unmounting::Sync { mounted },
                (Unmounting::Sync { mounted }, UnmountReply::Synced) => Unmounting::Try {
                    mounted,
                    left: UNMOUNT_TRIES,
                },
                (Unmounting::Try { mounted, left }, UnmountReply::Unmounted(unmounted)) => {
                    match unmounted {
                        Ok(()) => {
                            return Progress::Finished(Ok(mounted.live));
                        },
                        Err(failure) => Unmounting::Pause {
                            mounted,
                            left: less_one(left),
                            failure,
                        },
                    }
                },
                (Unmounting::Pause { mounted, left, failure }, UnmountReply::Slept) => {
                    if left > 0 {
                        Unmounting::Try { mounted, left }
                    } else {
                        let path = mounted.mountpoint.clone();
                        Unmounting::Release {
                            release: mounted.release(),
                            error: Error::Busy { path, source: failure },
                        }
                    }
                },
                (Unmounting::Release { release, error }, reply) => match release.resume(reply) {
                    Progress::Running(release) => Unmounting::Release { release, error },
                    Progress::Finished(()) => {
                        return Progress::Finished(Err(error));
                    },
                },
                (unmounting, _) => unmounting,
            },
        )
    }
}

/// A device that is being unmounted and torn down; see [`Mounted::down`].
#[derive(Debug)]
pub enum GoingDown {
    Unmount(Unmounting),
    Teardown(Teardown),
}

impl GoingDown {
    /// Whether `op` is what the host is asked for.
    pub open spec fn asks(self, op: UnmountOp) -> bool {
        match self {
            GoingDown::Unmount(unmounting) => unmounting.asks(op),
            GoingDown::Teardown(teardown) => op matches UnmountOp::Teardown(o) && teardown.asks(o),
        }
    }

    /// Whether an answer leads to `progress`. The teardown follows an unmount
    /// that succeeded.
    pub open spec fn leads_to(
        self,
        reply: UnmountReply,
        progress: Progress<GoingDown, Result<(), Error>>,
    ) -> bool {
        match self {
            GoingDown::Unmount(unmounting) => match progress {
                Progress::Running(GoingDown::Unmount(next)) => {
                    !unmounting.ends(reply) && unmounting.leads_to(reply, next)
                },
                Progress::Running(GoingDown::Teardown(teardown)) => {
                    &&& unmounting.ends(reply)
                    &&& exists|live: Live| #[trigger]
                        unmounting.outcome(Ok::<Live, Error>(live)) && teardown.is_at(live@.plan())
                },
                Progress::Finished(out) => {
                    unmounting.ends(reply) && (out matches Err(error) && unmounting.outcome(
                        Err::<Live, Error>(error),
                    ))
                },
            },
            GoingDown::Teardown(teardown) => match reply {
                UnmountReply::Teardown(reply) => match progress {
                    Progress::Running(next) => !teardown.ends(reply) && (next matches
                        GoingDown::Teardown(t) && teardown.leads_to(reply, t)),
                    Progress::Finished(out) => teardown.ends(reply) && out is Ok,
                },
                _ => progress == Progress::<GoingDown, Result<(), Error>>::Running(self),
            },
        }
    }

    /// What to ask the host.
    pub fn op(&self) -> (op: UnmountOp)
        ensures
            self.asks(op),
    {
        match self {
            GoingDown::Unmount(unmounting) => unmounting.op(),
            GoingDown::Teardown(teardown) => UnmountOp::Teardown(teardown.op()),
        }
    }

    /// Take the host's answer.
    pub fn resume(self, reply: UnmountReply) -> (progress: Progress<GoingDown, Result<(), Error>>)
        ensures
            self.leads_to(reply, progress),
    {
        match self {
            GoingDown::Unmount(unmounting) => match unmounting.resume(reply) {
                Progress::Running(unmounting) => Progress::Running(GoingDown::Unmount(unmounting)),
                Progress::Finished(Ok(live)) => {
                    assert(unmounting.outcome(Ok::<Live, Error>(live)));
                    Progress::Running(GoingDown::Teardown(live.down()))
                },
                Progress::Finished(Err(error)) => Progress::Finished(Err(error)),
            },
            GoingDown::Teardown(teardown) => match reply {
                UnmountReply::Teardown(reply) => match teardown.resume(reply) {
                    Progress::Running(teardown) => Progress::Running(GoingDown::Teardown(teardown)),
                    Progress::Finished(()) => Progress::Finished(Ok(())),
                },
                _ => Progress::Running(GoingDown::Teardown(teardown)),
            },
        }
    }
}

/// A named device that is being torn down; see [`teardown_named`].
#[derive(Debug)]
pub struct NamedTeardown {
    pub name: String,
    pub naa: String,
    pub phase: NamedPhase,
}

#[derive(Debug)]
pub enum NamedPhase {
    /// The address has to be read while the nexus still exists.
    Address,
    Teardown(Teardown),
}

/// What tearing down a named device asks of the host.
#[derive(Debug)]
pub enum NamedOp {
    ReadText(String),
    Teardown(TeardownOp),
}

#[derive(Debug)]
pub enum NamedReply {
    Text(Result<String, IoFailure>),
    Teardown(TeardownReply),
}

/// Tear down one named device without having a [`Live`] handle.
///
/// `obdctl device up` and `obdctl device down` run in different processes, so
/// teardown cannot rely on a handle. Everything it needs is derivable from the
/// name and nexus suffix the caller already chose, which is why no state file
/// is involved. Idempotent: removing a device that is already gone succeeds.
pub fn teardown_named(name: &str, naa_suffix: &str) -> (teardown: Result<NamedTeardown, Error>)
    ensures
        match teardown {
            Ok(t) => DEV_PREFIX@.is_prefix_of(name@) && t.begins(name@, naa_suffix@),
            Err(error) => !DEV_PREFIX@.is_prefix_of(name@) && is_bad_name(error, name@),
        },
{
    if !text::starts_with(name, DEV_PREFIX) {
        return Err(Error::BadDeviceName { name: name.to_owned(), prefix: DEV_PREFIX });
    }
    Ok(
        NamedTeardown {
            name: name.to_owned(),
            naa: naa_for(naa_suffix),
            phase: NamedPhase::Address,
        },
    )
}

impl NamedTeardown {
    /// Whether this is a teardown that has just begun.
    pub open spec fn begins(self, name: Seq<char>, naa_suffix: Seq<char>) -> bool {
        self.name@ == name && self.naa@ == NAA_PREFIX@ + naa_suffix && self.phase is Address
    }

    /// Whether `op` is what the host is asked for.
    pub open spec fn asks(self, op: NamedOp) -> bool {
        match self.phase {
            NamedPhase::Address => op matches NamedOp::ReadText(path) && path@
                == configfs::address_text(self.naa@),
            NamedPhase::Teardown(teardown) => op matches NamedOp::Teardown(o) && teardown.asks(o),
        }
    }

    /// Whether an answer ends the teardown.
    pub open spec fn ends(self, reply: NamedReply) -> bool {
        match (self.phase, reply) {
            (NamedPhase::Teardown(teardown), NamedReply::Teardown(reply)) => teardown.ends(reply),
            _ => false,
        }
    }

    /// Whether an answer that does not end the teardown leads to `next`: the
    /// device goes down, and its SCSI device is waited for where the nexus still
    /// had an address.
    pub open spec fn leads_to(self, reply: NamedReply, next: NamedTeardown) -> bool {
        match (self.phase, reply) {
            (NamedPhase::Address, NamedReply::Text(contents)) => {
                &&& next == NamedTeardown { phase: next.phase, ..self }
                &&& next.phase matches NamedPhase::Teardown(teardown)
                &&& teardown.is_at(
                    teardown_plan(
                        self.name@,
                        self.naa@,
                        match contents {
                            Ok(contents) => Some(text::trimmed(contents@)),
                            Err(_) => None,
                        },
                    ),
                )
            },
            (NamedPhase::Teardown(teardown), NamedReply::Teardown(reply)) => {
                &&& next == NamedTeardown { phase: next.phase, ..self }
                &&& next.phase matches NamedPhase::Teardown(t) && teardown.leads_to(reply, t)
            },
            _ => next == self,
        }
    }

    /// What to ask the host.
    pub fn op(&self) -> (op: NamedOp)
        ensures
            self.asks(op),
    {
        match &self.phase {
            NamedPhase::Address => NamedOp::ReadText(configfs::address_path(self.naa.as_str())),
            NamedPhase::Teardown(teardown) => NamedOp::Teardown(teardown.op()),
        }
    }

    /// Take the host's answer. Whatever it is, the teardown succeeds.
    pub fn resume(self, reply: NamedReply) -> (progress: Progress<NamedTeardown, ()>)
        ensures
            match progress {
                Progress::Running(next) => !self.ends(reply) && self.leads_to(reply, next),
                Progress::Finished(_) => self.ends(reply),
            },
    {
        let phase = match (self.phase, reply) {
            (NamedPhase::Address, NamedReply::Text(contents)) => {
                let address = match contents {
                    Ok(contents) => Some(text::trim(contents.as_str())),
                    Err(_) => None,
                };
                NamedPhase::Teardown(
                    teardown::teardown(self.name.as_str(), self.naa.as_str(), address),
                )
            },
            (NamedPhase::Teardown(teardown), NamedReply::Teardown(reply)) => {
                match teardown.resume(reply) {
                    Progress::Running(teardown) => NamedPhase::Teardown(teardown),
                    Progress::Finished(()) => {
                        return Progress::Finished(());
                    },
                }
            },
            (phase, _) => phase,
        };
        Progress::Running(NamedTeardown { name: self.name, naa: self.naa, phase })
    }
}

/// A subdirectory on its way; see [`Mounted::create_subdir`].
#[derive(Debug)]
pub struct Subdir {
    pub name: String,
    pub mountpoint: HostPath,
    pub phase: SubdirPhase,
}

#[derive(Debug, Clone, Copy)]
pub enum SubdirPhase {
    Probe,
    Create,
    Open,
}

/// What creating a subdirectory asks of the host. The names are taken under the
/// handle that is confined to the mount.
#[derive(Debug)]
pub enum SubdirOp {
    /// Whether the name can be looked up.
    Exists(String),
    Create(String),
    /// Open a handle that is confined to the subdirectory.
    Open(String),
}

#[derive(Debug)]
pub enum SubdirReply {
    Exists(bool),
    Created(Result<(), IoFailure>),
    Opened(Result<(), IoFailure>),
}

impl Subdir {
    /// Whether `op` is what the host is asked for.
    pub open spec fn asks(self, op: SubdirOp) -> bool {
        match self.phase {
            SubdirPhase::Probe => op == SubdirOp::Exists(self.name),
            SubdirPhase::Create => op == SubdirOp::Create(self.name),
            SubdirPhase::Open => op == SubdirOp::Open(self.name),
        }
    }

    /// Whether an answer ends the creation.
    pub open spec fn ends(self, reply: SubdirReply) -> bool {
        match (self.phase, reply) {
            (SubdirPhase::Create, SubdirReply::Created(created)) => created is Err,
            (SubdirPhase::Open, SubdirReply::Opened(_)) => true,
            _ => false,
        }
    }

    /// Where an answer that does not end the creation leads.
    pub open spec fn phase_after(self, reply: SubdirReply) -> SubdirPhase {
        match (self.phase, reply) {
            (SubdirPhase::Probe, SubdirReply::Exists(exists)) => if exists {
                SubdirPhase::Open
            } else {
                SubdirPhase::Create
            },
            (SubdirPhase::Create, SubdirReply::Created(_)) => SubdirPhase::Open,
            _ => self.phase,
        }
    }

    /// What comes out where an answer ends the creation.
    pub open spec fn outcome(self, reply: SubdirReply, out: Result<(), Error>) -> bool {
        let place = self.name@ + " under "@ + shown(self.mountpoint@);
        match reply {
            SubdirReply::Created(Err(source)) => out matches Err(error) && is_io(
                error,
                "creating "@ + place,
                source,
            ),
            SubdirReply::Opened(Err(source)) => out matches Err(error) && is_io(
                error,
                "opening "@ + place,
                source,
            ),
            _ => out is Ok,
        }
    }

    /// What to ask the host.
    pub fn op(&self) -> (op: SubdirOp)
        ensures
            self.asks(op),
    {
        match self.phase {
            SubdirPhase::Probe => SubdirOp::Exists(self.name.clone()),
            SubdirPhase::Create => SubdirOp::Create(self.name.clone()),
            SubdirPhase::Open => SubdirOp::Open(self.name.clone()),
        }
    }

    fn failed(&self, doing: &str, source: IoFailure) -> (error: Error)
        ensures
            is_io(error, doing@ + (self.name@ + " under "@ + shown(self.mountpoint@)), source),
    {
        let mountpoint = self.mountpoint.display();
        let place = self.name.clone().concat(" under ").concat(mountpoint.as_str());
        Error::io(doing.to_owned().concat(place.as_str()), source)
    }

    /// Take the host's answer.
    pub fn resume(self, reply: SubdirReply) -> (progress: Progress<Subdir, Result<(), Error>>)
        ensures
            match progress {
                Progress::Running(next) => {
                    &&& !self.ends(reply)
                    &&& next == Subdir { phase: self.phase_after(reply), ..self }
                },
                Progress::Finished(out) => self.ends(reply) && self.outcome(reply, out),
            },
    {
        let phase = match (self.phase, reply) {
            (SubdirPhase::Probe, SubdirReply::Exists(exists)) => if exists {
                SubdirPhase::Open
            } else {
                SubdirPhase::Create
            },
            (SubdirPhase::Create, SubdirReply::Created(created)) => match created {
                Ok(()) => SubdirPhase::Open,
                Err(source) => {
                    return Progress::Finished(Err(self.failed("creating ", source)));
                },
            },
            (SubdirPhase::Open, SubdirReply::Opened(opened)) => {
                return Progress::Finished(
                    match opened {
                        Ok(()) => Ok(()),
                        Err(source) => Err(self.failed("opening ", source)),
                    },
                );
            },
            (phase, _) => phase,
        };
        Progress::Running(Subdir { name: self.name, mountpoint: self.mountpoint, phase })
    }
}

/// A device that was left running can be taken down by its name and suffix
/// alone: from the address that its nexus still shows, that does what the
/// device's own teardown would have done.
pub proof fn law_a_persisted_device_can_be_taken_down(
    live: LiveView,
    mountpoint: Option<Seq<u8>>,
    persisted: PersistedDevice,
    named: NamedTeardown,
    contents: String,
    next: NamedTeardown,
)
    requires
        persisted.describes(live, mountpoint),
        named.begins(persisted.name@, persisted.naa_suffix@),
        text::trimmed(contents@) == live.scsi_address,
        named.leads_to(NamedReply::Text(Ok(contents)), next),
    ensures
        next.phase matches NamedPhase::Teardown(teardown) && teardown.is_at(live.plan()),
{
}

/// The name that made a device is one that [`teardown_named`] accepts.
pub proof fn law_a_device_has_a_name_to_be_torn_down_by(
    made: Result<Device, Error>,
    name: Seq<char>,
    config_path: Seq<u8>,
    result_path: Seq<u8>,
    naa_suffix: Seq<char>,
)
    requires
        is_device_for(made, name, config_path, result_path, naa_suffix),
        made is Ok,
    ensures
        DEV_PREFIX@.is_prefix_of(made->Ok_0@.name),
        NAA_PREFIX@.is_prefix_of(made->Ok_0@.naa),
        suffix_of(made->Ok_0@.naa) == naa_suffix,
{
    let naa = NAA_PREFIX@ + naa_suffix;
    assert(NAA_PREFIX@ =~= naa.subrange(0, NAA_PREFIX@.len() as int));
    assert(naa.skip(NAA_PREFIX@.len() as int) =~= naa_suffix);
}

/// Whether a launch went through `states`, one answer after the other.
pub open spec fn is_launch(states: Seq<Launch>, replies: Seq<LaunchReply>) -> bool {
    &&& states.len() == replies.len() + 1
    &&& states[0].phase is ResultDir
    &&& forall|i: int| 0 <= i < replies.len() ==> #[trigger] launch_went_on(states, replies, i)
}

/// Whether the answer at `i` did not end the launch, but led on.
pub open spec fn launch_went_on(states: Seq<Launch>, replies: Seq<LaunchReply>, i: int) -> bool {
    &&& !states[i].ends(replies[i])
    &&& states[i + 1].device == states[i].device
    &&& states[i].phase_after(replies[i], states[i + 1].phase)
}

/// Whether by answer `i` what an earlier launch reported was removed.
pub open spec fn was_cleared(states: Seq<Launch>, replies: Seq<LaunchReply>, i: int) -> bool {
    0 <= i < replies.len() && states[i].phase is ClearResult && replies[i] is Removed
}

/// Whether answer `i` was that the device is enabled.
pub open spec fn was_enabled(states: Seq<Launch>, replies: Seq<LaunchReply>, i: int) -> bool {
    &&& 0 <= i < replies.len()
    &&& states[i].phase matches LaunchPhase::Enable(writing)
    &&& replies[i] matches LaunchReply::Attr(reply)
    &&& writing.succeeds(reply)
}

/// Whether answer `i` ended the wait for the daemon's report.
pub open spec fn was_reported(states: Seq<Launch>, replies: Seq<LaunchReply>, i: int) -> bool {
    &&& 0 <= i < replies.len()
    &&& states[i].phase matches LaunchPhase::Result(wait)
    &&& wait.result_file@ == states[0].device@.result_path
    &&& replies[i] matches LaunchReply::Result(reply)
    &&& wait.after(reply) is None
}

/// What the daemon reported where the wait ended with answer `i`.
pub open spec fn report(states: Seq<Launch>, replies: Seq<LaunchReply>, i: int) -> Seq<char> {
    states[i].phase->Result_0.outcome(replies[i]->Result_0)
}

/// Whether an earlier report was removed before answer `k`.
pub open spec fn cleared_before(states: Seq<Launch>, replies: Seq<LaunchReply>, k: int) -> bool {
    exists|i: int| i < k && #[trigger] was_cleared(states, replies, i)
}

/// Whether the device was enabled before answer `k`, and any earlier report was
/// removed before that.
pub open spec fn enabled_before(states: Seq<Launch>, replies: Seq<LaunchReply>, k: int) -> bool {
    exists|i: int|
        i < k && cleared_before(states, replies, i) && #[trigger] was_enabled(states, replies, i)
}

/// Whether the daemon reported success before answer `k`, once the device was
/// enabled.
pub open spec fn successful_before(
    states: Seq<Launch>,
    replies: Seq<LaunchReply>,
    k: int,
) -> bool {
    exists|i: int|
        i < k && enabled_before(states, replies, i) && report(states, replies, i) == "success"@
            && #[trigger] was_reported(states, replies, i)
}

/// Whether the launch is past removing an earlier report.
pub open spec fn is_past_clearing(phase: LaunchPhase) -> bool {
    !(phase is ResultDir || phase is ClearResult)
}

/// Whether the launch is past enabling the device.
pub open spec fn is_past_enabling(phase: LaunchPhase) -> bool {
    phase is Result || phase is Log || phase is Teardown || is_past_reporting(phase)
}

/// Whether the launch is past a report of success.
pub open spec fn is_past_reporting(phase: LaunchPhase) -> bool {
    phase is Lun || phase is Nexus || phase is LinkProbe || phase is Link || phase is Resolve
}

proof fn lemma_launch_evidence(states: Seq<Launch>, replies: Seq<LaunchReply>, k: int)
    requires
        is_launch(states, replies),
        0 <= k < states.len(),
    ensures
        states[k].device == states[0].device,
        states[k].phase matches LaunchPhase::Result(wait) ==> wait.result_file@
            == states[0].device@.result_path,
        is_past_clearing(states[k].phase) ==> cleared_before(states, replies, k),
        is_past_enabling(states[k].phase) ==> enabled_before(states, replies, k),
        is_past_reporting(states[k].phase) ==> successful_before(states, replies, k),
    decreases k,
{
    if k > 0 {
        let prior = k - 1;
        lemma_launch_evidence(states, replies, prior);
        assert(launch_went_on(states, replies, prior));
        let before = states[prior].phase;
        let after = states[k].phase;
        if is_past_clearing(after) {
            if is_past_clearing(before) {
                let i = choose|i: int| i < prior && #[trigger] was_cleared(states, replies, i);
                assert(was_cleared(states, replies, i));
            } else {
                assert(was_cleared(states, replies, prior));
            }
        }
        if is_past_enabling(after) {
            if is_past_enabling(before) {
                let i = choose|i: int|
                    i < prior && cleared_before(states, replies, i) && #[trigger] was_enabled(
                        states,
                        replies,
                        i,
                    );
                assert(was_enabled(states, replies, i));
            } else {
                assert(was_enabled(states, replies, prior));
            }
        }
        if is_past_reporting(after) {
            if is_past_reporting(before) {
                let i = choose|i: int|
                    i < prior && enabled_before(states, replies, i) && report(states, replies, i)
                        == "success"@ && #[trigger] was_reported(states, replies, i);
                assert(was_reported(states, replies, i));
            } else {
                assert(was_reported(states, replies, prior));
            }
        }
    }
}

/// A device counts as live only after overlaybd said so: where a launch ends
/// with a live device, whatever an earlier launch had reported was removed, then
/// the device was enabled, and after that its result file read `success`.
pub proof fn law_a_live_device_was_reported_successful(
    states: Seq<Launch>,
    replies: Seq<LaunchReply>,
    last: LaunchReply,
    out: Result<Live, Error>,
)
    requires
        is_launch(states, replies),
        states.last().ends(last),
        states.last().outcome(last, out),
        out is Ok,
    ensures
        successful_before(states, replies, replies.len() as int),
        out->Ok_0@.device == states[0].device@,
{
    lemma_launch_evidence(states, replies, states.len() - 1);
}

/// The teardowns that the states of a launch hold.
pub open spec fn launch_teardowns(states: Seq<Launch>) -> Seq<Option<Teardown>> {
    Seq::new(
        states.len(),
        |i: int|
            match states[i].phase {
                LaunchPhase::Teardown { teardown, .. } => Some(teardown),
                _ => None,
            },
    )
}

/// Whether `failure` quotes what the daemon reported to the launch of `device`.
pub open spec fn quotes(failure: Error, device: DeviceView, reported: Seq<char>) -> bool {
    &&& failure matches Error::LaunchFailed { device: name, result, .. }
    &&& name@ == device.name
    &&& result@ == (if reported.len() == 0 {
        "<empty>"@
    } else {
        reported
    })
}

proof fn lemma_refusal_evidence(
    states: Seq<Launch>,
    replies: Seq<LaunchReply>,
    j: int,
    k: int,
)
    requires
        is_launch(states, replies),
        was_reported(states, replies, j),
        report(states, replies, j) != "success"@,
        j < k < states.len(),
    ensures
        match states[k].phase {
            LaunchPhase::Log { result } => result@ == report(states, replies, j),
            LaunchPhase::Teardown { failure, .. } => {
                &&& quotes(failure, states[0].device@, report(states, replies, j))
                &&& takes_down(
                    teardown_plan(states[0].device@.name, states[0].device@.naa, None),
                    launch_teardowns(states),
                    k,
                )
            },
            _ => false,
        },
    decreases k,
{
    let prior = k - 1;
    lemma_launch_evidence(states, replies, prior);
    assert(launch_went_on(states, replies, prior));
    if prior > j {
        lemma_refusal_evidence(states, replies, j, prior);
        let plan = teardown_plan(states[0].device@.name, states[0].device@.naa, None);
        let seen = launch_teardowns(states);
        if states[prior].phase is Teardown {
            let before = seen[prior]->Some_0;
            let after = seen[k]->Some_0;
            if replies[prior] is Teardown {
                assert(before.leads_to(replies[prior]->Teardown_0, after));
            }
            lemma_teardown_goes_on(plan, seen, prior);
        } else if states[k].phase is Teardown {
            lemma_teardown_begins(plan, seen, k);
        }
    }
}

/// Where overlaybd reports anything but success, the launch takes down what it
/// built, all of it, and only then fails, with what overlaybd reported.
pub proof fn law_a_refused_launch_is_torn_down(
    states: Seq<Launch>,
    replies: Seq<LaunchReply>,
    j: int,
    last: LaunchReply,
    out: Result<Live, Error>,
)
    requires
        is_launch(states, replies),
        was_reported(states, replies, j),
        report(states, replies, j) != "success"@,
        states.last().ends(last),
        states.last().outcome(last, out),
    ensures
        out matches Err(error) && quotes(error, states[0].device@, report(states, replies, j)),
        takes_down(
            teardown_plan(states[0].device@.name, states[0].device@.naa, None),
            launch_teardowns(states),
            states.len() - 1,
        ),
        last matches LaunchReply::Teardown(reply) && (states.last().phase matches
            LaunchPhase::Teardown { teardown, .. } && teardown.ends(reply)),
{
    lemma_refusal_evidence(states, replies, j, states.len() - 1);
}

/// Whether mounting a device went through `states`, one answer after the other.
pub open spec fn is_mounting(
    request: MountRequest,
    states: Seq<Mounting>,
    replies: Seq<MountReply>,
) -> bool {
    &&& states.len() == replies.len() + 1
    &&& states[0] == Mounting::CreateDir(request)
    &&& forall|i: int| 0 <= i < replies.len() ==> #[trigger] mounting_went_on(states, replies, i)
}

/// Whether the answer at `i` did not end the mounting, but led on.
pub open spec fn mounting_went_on(
    states: Seq<Mounting>,
    replies: Seq<MountReply>,
    i: int,
) -> bool {
    !states[i].ends(replies[i]) && states[i].leads_to(replies[i], states[i + 1])
}

/// The teardowns that the states of a mounting hold.
pub open spec fn mounting_teardowns(states: Seq<Mounting>) -> Seq<Option<Teardown>> {
    Seq::new(
        states.len(),
        |i: int|
            match states[i] {
                Mounting::Teardown { teardown, .. } => Some(teardown),
                _ => None,
            },
    )
}

proof fn lemma_mounting_evidence(
    request: MountRequest,
    states: Seq<Mounting>,
    replies: Seq<MountReply>,
    k: int,
)
    requires
        is_mounting(request, states, replies),
        0 <= k < states.len(),
    ensures
        match states[k] {
            Mounting::CreateDir(r) => r == request,
            Mounting::Mount(r) => r == request,
            Mounting::Open(r) => r == request,
            Mounting::Teardown { failure, .. } => failure is Io && takes_down(
                request.live@.plan(),
                mounting_teardowns(states),
                k,
            ),
        },
    decreases k,
{
    if k > 0 {
        let prior = k - 1;
        lemma_mounting_evidence(request, states, replies, prior);
        assert(mounting_went_on(states, replies, prior));
        let plan = request.live@.plan();
        let seen = mounting_teardowns(states);
        if states[prior] is Teardown {
            let before = seen[prior]->Some_0;
            let after = seen[k]->Some_0;
            if replies[prior] is Teardown {
                assert(before.leads_to(replies[prior]->Teardown_0, after));
            }
            lemma_teardown_goes_on(plan, seen, prior);
        } else if states[k] is Teardown {
            lemma_teardown_begins(plan, seen, k);
        }
    }
}

/// A mount that fails takes the device down with it, all of it, and only then
/// fails. One that succeeds keeps the device as it was.
pub proof fn law_a_failed_mount_takes_the_device_down(
    request: MountRequest,
    states: Seq<Mounting>,
    replies: Seq<MountReply>,
    last: MountReply,
    out: Result<Mounted, Error>,
)
    requires
        is_mounting(request, states, replies),
        states.last().ends(last),
        states.last().outcome(out),
    ensures
        match out {
            Ok(mounted) => mounted@ == (MountedView {
                live: request.live@,
                mountpoint: request.mountpoint@,
            }),
            Err(error) => {
                &&& error is Io
                &&& takes_down(request.live@.plan(), mounting_teardowns(states), states.len() - 1)
                &&& last matches MountReply::Teardown(reply)
                &&& states.last() matches Mounting::Teardown { teardown, .. }
                &&& teardown.ends(reply)
            },
        },
{
    lemma_mounting_evidence(request, states, replies, states.len() - 1);
}

/// Whether an unmount of `mounted` went through `states`, one answer after the
/// other.
pub open spec fn is_unmount(
    mounted: Mounted,
    states: Seq<Unmounting>,
    replies: Seq<UnmountReply>,
) -> bool {
    &&& states.len() == replies.len() + 1
    &&& states[0] == (Unmounting::Close { mounted })
    &&& forall|i: int| 0 <= i < replies.len() ==> #[trigger] unmount_went_on(states, replies, i)
}

/// Whether the answer at `i` did not end the unmount, but led on.
pub open spec fn unmount_went_on(
    states: Seq<Unmounting>,
    replies: Seq<UnmountReply>,
    i: int,
) -> bool {
    !states[i].ends(replies[i]) && states[i].leads_to(replies[i], states[i + 1])
}

/// How many of the first `k` answers were that the mount is busy, before the
/// unmount was given up.
pub open spec fn busy_answers(
    states: Seq<Unmounting>,
    replies: Seq<UnmountReply>,
    k: int,
) -> nat
    decreases k,
{
    if k <= 0 {
        0
    } else {
        busy_answers(states, replies, k - 1) + (if states[k - 1] is Try && replies[k - 1] is Unmounted {
            1nat
        } else {
            0nat
        })
    }
}

/// Whether our own handle was closed before answer `k`.
pub open spec fn closed_before(
    states: Seq<Unmounting>,
    replies: Seq<UnmountReply>,
    k: int,
) -> bool {
    exists|i: int| 0 <= i < k && #[trigger] states[i] is Close && replies[i] is Closed
}

/// Whether everything was flushed before answer `k`, and our own handle was
/// closed before that.
pub open spec fn flushed_before(
    states: Seq<Unmounting>,
    replies: Seq<UnmountReply>,
    k: int,
) -> bool {
    exists|i: int|
        0 <= i < k && #[trigger] states[i] is Sync && replies[i] is Synced && closed_before(
            states,
            replies,
            i,
        )
}

/// Whether the last try to unmount before answer `k` met `failure`.
pub open spec fn last_try_met(
    states: Seq<Unmounting>,
    replies: Seq<UnmountReply>,
    k: int,
    failure: IoFailure,
) -> bool {
    exists|i: int| #[trigger]
        try_met(states, replies, i, failure) && i < k && forall|j: int|
            i < j < k ==> !(#[trigger] states[j] is Try)
}

/// Whether the answer at `i` was that a try to unmount met `failure`.
pub open spec fn try_met(
    states: Seq<Unmounting>,
    replies: Seq<UnmountReply>,
    i: int,
    failure: IoFailure,
) -> bool {
    &&& 0 <= i < replies.len()
    &&& states[i] is Try
    &&& replies[i] == UnmountReply::Unmounted(Err(failure))
}

/// The releases that the states of an unmount hold.
pub open spec fn unmount_releases(states: Seq<Unmounting>) -> Seq<Option<Release>> {
    Seq::new(
        states.len(),
        |i: int|
            match states[i] {
                Unmounting::Release { release, .. } => Some(release),
                _ => None,
            },
    )
}

proof fn lemma_last_try_stays(
    states: Seq<Unmounting>,
    replies: Seq<UnmountReply>,
    k: int,
    failure: IoFailure,
)
    requires
        last_try_met(states, replies, k, failure),
        !(states[k] is Try),
    ensures
        last_try_met(states, replies, k + 1, failure),
{
    let i = choose|i: int| #[trigger]
        try_met(states, replies, i, failure) && i < k && forall|j: int|
            i < j < k ==> !(#[trigger] states[j] is Try);
    assert(try_met(states, replies, i, failure));
}

proof fn lemma_unmount_evidence(
    mounted: Mounted,
    states: Seq<Unmounting>,
    replies: Seq<UnmountReply>,
    k: int,
)
    requires
        is_unmount(mounted, states, replies),
        0 <= k < states.len(),
    ensures
        match states[k] {
            Unmounting::Close { mounted: m } => m == mounted && busy_answers(states, replies, k)
                == 0,
            Unmounting::Sync { mounted: m } => m == mounted && busy_answers(states, replies, k)
                == 0 && closed_before(states, replies, k),
            Unmounting::Try { mounted: m, left } => m == mounted && 0 < left <= UNMOUNT_TRIES
                && busy_answers(states, replies, k) == UNMOUNT_TRIES - left && flushed_before(
                states,
                replies,
                k,
            ),
            Unmounting::Pause { mounted: m, left, failure } => m == mounted && left < UNMOUNT_TRIES
                && busy_answers(states, replies, k) == UNMOUNT_TRIES - left && flushed_before(
                states,
                replies,
                k,
            ) && last_try_met(states, replies, k, failure),
            Unmounting::Release { release, error } => {
                &&& busy_answers(states, replies, k) == UNMOUNT_TRIES
                &&& error matches Error::Busy { path, source }
                &&& path@ == mounted@.mountpoint
                &&& last_try_met(states, replies, k, source)
                &&& lets_go(mounted, unmount_releases(states), k)
            },
        },
    decreases k,
{
    if k > 0 {
        let prior = k - 1;
        lemma_unmount_evidence(mounted, states, replies, prior);
        assert(unmount_went_on(states, replies, prior));
        let seen = unmount_releases(states);
        if states[prior] is Close && states[k] is Sync {
            assert(states[prior] is Close && replies[prior] is Closed);
        }
        if states[prior] is Sync && states[k] is Try {
            assert(states[prior] is Sync && replies[prior] is Synced);
        }
        if states[prior] is Try && states[k] is Pause {
            let failure = states[k]->Pause_failure;
            assert(try_met(states, replies, prior, failure));
        }
        if states[prior] is Pause {
            lemma_last_try_stays(states, replies, prior, states[prior]->Pause_failure);
        }
        if states[prior] is Release {
            let before = seen[prior]->Some_0;
            let after = seen[k]->Some_0;
            assert(before.leads_to(replies[prior], after));
            lemma_release_goes_on(mounted, seen, prior);
            lemma_last_try_stays(
                states,
                replies,
                prior,
                states[prior]->Release_error->Busy_source,
            );
        } else if states[k] is Release {
            assert(is_release(mounted, seen, k, k));
        }
    }
}

/// An unmount tries at most as often as [`UNMOUNT_TRIES`] says, and never before
/// our own handle was closed and then everything was flushed. It fails only when
/// that many tries met a busy mount, with what the last of them met, and then lets
/// go of the device; otherwise it gives back the device that was mounted,
/// untouched.
pub proof fn law_unmount_tries_are_bounded(
    mounted: Mounted,
    states: Seq<Unmounting>,
    replies: Seq<UnmountReply>,
    last: UnmountReply,
    out: Result<Live, Error>,
)
    requires
        is_unmount(mounted, states, replies),
        states.last().ends(last),
        states.last().outcome(out),
    ensures
        forall|k: int|
            0 <= k < states.len() && (#[trigger] states[k] is Try) ==> flushed_before(
                states,
                replies,
                k,
            ),
        match out {
            Ok(live) => {
                &&& live@ == mounted@.live
                &&& busy_answers(states, replies, replies.len() as int) < UNMOUNT_TRIES
            },
            Err(error) => {
                &&& busy_answers(states, replies, replies.len() as int) == UNMOUNT_TRIES
                &&& error matches Error::Busy { path, source }
                &&& path@ == mounted@.mountpoint
                &&& last_try_met(states, replies, replies.len() as int, source)
                &&& lets_go(mounted, unmount_releases(states), states.len() - 1)
                &&& states.last() matches Unmounting::Release { release, .. }
                &&& release.ends(last)
            },
        },
{
    lemma_unmount_evidence(mounted, states, replies, states.len() - 1);
    assert forall|k: int| 0 <= k < states.len() && (#[trigger] states[k] is Try) implies
        flushed_before(states, replies, k) by {
        lemma_unmount_evidence(mounted, states, replies, k);
    }
}

/// Unmounting gives back the device that was mounted, as it was.
pub proof fn law_unmount_gives_back_what_was_mounted(
    mounting: Mounting,
    request: MountRequest,
    mounted: Mounted,
    states: Seq<Unmounting>,
    replies: Seq<UnmountReply>,
    last: UnmountReply,
    live: Live,
)
    requires
        mounting == Mounting::Open(request),
        mounting.outcome(Ok::<Mounted, Error>(mounted)),
        is_unmount(mounted, states, replies),
        states.last().ends(last),
        states.last().outcome(Ok::<Live, Error>(live)),
    ensures
        live@ == request.live@,
{
    law_unmount_tries_are_bounded(mounted, states, replies, last, Ok::<Live, Error>(live));
}

impl Release {
    /// Whether the host's next answer can lead to `next`.
    pub open spec fn moves_to(self, next: Release) -> bool {
        exists|reply: UnmountReply| !self.ends(reply) && #[trigger] self.leads_to(reply, next)
    }
}

/// Whether a release of `mounted` is under way from state `s` to state `k`. In
/// `seen` stands, for each state of whatever it is a part of, the release where
/// there is one.
pub open spec fn is_release(
    mounted: Mounted,
    seen: Seq<Option<Release>>,
    s: int,
    k: int,
) -> bool {
    &&& 0 <= s <= k < seen.len()
    &&& seen[s] == Some(Release::Close { mounted })
    &&& forall|i: int| s <= i < k ==> #[trigger] release_went_on(seen, i)
}

/// Whether the release of state `i` led on to that of the next.
pub open spec fn release_went_on(seen: Seq<Option<Release>>, i: int) -> bool {
    &&& seen[i] matches Some(before)
    &&& seen[i + 1] matches Some(after)
    &&& before.moves_to(after)
}

/// Whether a release of `mounted` is under way in state `k`.
pub open spec fn lets_go(mounted: Mounted, seen: Seq<Option<Release>>, k: int) -> bool {
    exists|s: int| #[trigger] is_release(mounted, seen, s, k)
}

proof fn lemma_release_goes_on(mounted: Mounted, seen: Seq<Option<Release>>, k: int)
    requires
        lets_go(mounted, seen, k),
        k + 1 < seen.len(),
        release_went_on(seen, k),
    ensures
        lets_go(mounted, seen, k + 1),
{
    let s = choose|s: int| #[trigger] is_release(mounted, seen, s, k);
    assert(is_release(mounted, seen, s, k + 1));
}

/// The teardowns that the states of a release hold.
pub open spec fn release_teardowns(seen: Seq<Option<Release>>) -> Seq<Option<Teardown>> {
    Seq::new(
        seen.len(),
        |i: int|
            match seen[i] {
                Some(Release::Teardown(teardown)) => Some(teardown),
                _ => None,
            },
    )
}

/// How many tries to unmount a release was done with between states `s` and `k`.
pub open spec fn release_tries(seen: Seq<Option<Release>>, s: int, k: int) -> nat
    decreases k - s,
{
    if k <= s {
        0
    } else {
        release_tries(seen, s, k - 1) + (if seen[k - 1]->Some_0 is Try && seen[k]->Some_0 !is Try {
            1nat
        } else {
            0nat
        })
    }
}

/// Whether the release went on after state `i` because our own handle was closed.
pub open spec fn release_was_closed(seen: Seq<Option<Release>>, i: int) -> bool {
    &&& seen[i] matches Some(before)
    &&& seen[i + 1] matches Some(after)
    &&& before is Close && before.leads_to(UnmountReply::Closed, after)
}

/// Whether the release went on after state `i` because everything was flushed.
pub open spec fn release_was_flushed(seen: Seq<Option<Release>>, i: int) -> bool {
    &&& seen[i] matches Some(before)
    &&& seen[i + 1] matches Some(after)
    &&& before is Sync && before.leads_to(UnmountReply::Synced, after)
}

/// Whether a release closed our own handle between states `s` and `k`.
pub open spec fn release_closed(seen: Seq<Option<Release>>, s: int, k: int) -> bool {
    exists|i: int| s <= i < k && #[trigger] release_was_closed(seen, i)
}

/// Whether a release flushed everything between states `s` and `k`, once it had
/// closed our own handle.
pub open spec fn release_flushed(seen: Seq<Option<Release>>, s: int, k: int) -> bool {
    exists|i: int|
        s <= i < k && release_closed(seen, s, i) && #[trigger] release_was_flushed(seen, i)
}

proof fn lemma_release_evidence(mounted: Mounted, seen: Seq<Option<Release>>, s: int, k: int)
    requires
        is_release(mounted, seen, s, k),
    ensures
        seen[k] is Some,
        match seen[k]->Some_0 {
            Release::Close { mounted: m } => m == mounted && release_tries(seen, s, k) == 0,
            Release::Sync { mounted: m } => m == mounted && release_tries(seen, s, k) == 0
                && release_closed(seen, s, k),
            Release::Try { mounted: m, left } => m == mounted && 0 < left <= UNMOUNT_TRIES
                && release_tries(seen, s, k) + left == UNMOUNT_TRIES && release_flushed(seen, s, k),
            Release::Pause { mounted: m, left } => m == mounted && left < UNMOUNT_TRIES
                && release_tries(seen, s, k) + left == UNMOUNT_TRIES && release_flushed(seen, s, k),
            Release::Teardown(_) => takes_down(mounted@.live.plan(), release_teardowns(seen), k)
                && release_tries(seen, s, k) <= UNMOUNT_TRIES && release_flushed(seen, s, k),
        },
    decreases k - s,
{
    if k > s {
        let prior = k - 1;
        assert(is_release(mounted, seen, s, prior));
        lemma_release_evidence(mounted, seen, s, prior);
        assert(release_went_on(seen, prior));
        let before = seen[prior]->Some_0;
        let after = seen[k]->Some_0;
        let reply = choose|reply: UnmountReply|
            !before.ends(reply) && #[trigger] before.leads_to(reply, after);
        let teardowns = release_teardowns(seen);
        if before is Close && after is Sync {
            assert(release_was_closed(seen, prior));
        }
        if before is Sync {
            let i = choose|i: int| s <= i < prior && #[trigger] release_was_closed(seen, i);
            assert(release_was_closed(seen, i));
            if after is Try {
                assert(release_closed(seen, s, prior));
                assert(release_was_flushed(seen, prior));
            }
        }
        if !(before is Close) && !(before is Sync) {
            let i = choose|i: int|
                s <= i < prior && release_closed(seen, s, i) && #[trigger] release_was_flushed(seen, i);
            assert(release_was_flushed(seen, i));
        }
        if before is Teardown {
            if reply is Teardown {
                assert(before->Teardown_0.leads_to(reply->Teardown_0, after->Teardown_0));
            }
            lemma_teardown_goes_on(mounted@.live.plan(), teardowns, prior);
        } else if after is Teardown {
            lemma_teardown_begins(mounted@.live.plan(), teardowns, k);
        }
    }
}

/// A device that is let go of is unmounted with a bounded number of tries, none of
/// them before our own handle was closed and then everything was flushed, and is
/// gone only after it was taken down, all of it, unmounted or not.
pub proof fn law_a_released_device_is_taken_down(
    mounted: Mounted,
    seen: Seq<Option<Release>>,
    s: int,
    k: int,
    last: UnmountReply,
)
    requires
        is_release(mounted, seen, s, k),
        seen[k] matches Some(release) && release.ends(last),
    ensures
        forall|i: int|
            s <= i <= k && (#[trigger] seen[i])->Some_0 is Try ==> release_flushed(seen, s, i),
        release_tries(seen, s, k) <= UNMOUNT_TRIES,
        takes_down(mounted@.live.plan(), release_teardowns(seen), k),
        last matches UnmountReply::Teardown(reply) && (release_teardowns(seen)[k] matches Some(
            teardown,
        ) && teardown.ends(reply)),
{
    lemma_release_evidence(mounted, seen, s, k);
    assert forall|i: int| s <= i <= k && (#[trigger] seen[i])->Some_0 is Try implies release_flushed(
        seen,
        s,
        i,
    ) by {
        assert(is_release(mounted, seen, s, i));
        lemma_release_evidence(mounted, seen, s, i);
    }
}

/// A device that is to be unmounted and torn down is torn down only once it is
/// unmounted.
pub proof fn law_a_device_goes_down_only_once_unmounted(
    unmounting: Unmounting,
    reply: UnmountReply,
    teardown: Teardown,
)
    requires
        GoingDown::Unmount(unmounting).leads_to(
            reply,
            Progress::Running(GoingDown::Teardown(teardown)),
        ),
    ensures
        reply matches UnmountReply::Unmounted(unmounted) && unmounted is Ok,
        unmounting matches Unmounting::Try { mounted, .. } && teardown.is_at(mounted@.live.plan()),
{
}

/// Whether unmounting `mounted` and taking it down went through `states`, one
/// answer after the other.
pub open spec fn is_going_down(
    mounted: Mounted,
    states: Seq<GoingDown>,
    replies: Seq<UnmountReply>,
) -> bool {
    &&& states.len() == replies.len() + 1
    &&& states[0] == GoingDown::Unmount(Unmounting::Close { mounted })
    &&& forall|i: int| 0 <= i < replies.len() ==> #[trigger] going_down_went_on(states, replies, i)
}

/// Whether the answer at `i` led on to the next state.
pub open spec fn going_down_went_on(
    states: Seq<GoingDown>,
    replies: Seq<UnmountReply>,
    i: int,
) -> bool {
    states[i].leads_to(replies[i], Progress::Running(states[i + 1]))
}

/// The teardowns that the states of a device on its way down hold, once it is
/// unmounted.
pub open spec fn going_down_teardowns(states: Seq<GoingDown>) -> Seq<Option<Teardown>> {
    Seq::new(
        states.len(),
        |i: int|
            match states[i] {
                GoingDown::Teardown(teardown) => Some(teardown),
                _ => None,
            },
    )
}

proof fn lemma_going_down_evidence(
    mounted: Mounted,
    states: Seq<GoingDown>,
    replies: Seq<UnmountReply>,
    k: int,
)
    requires
        is_going_down(mounted, states, replies),
        0 <= k < states.len(),
    ensures
        match states[k] {
            GoingDown::Unmount(Unmounting::Close { mounted: m }) => m == mounted,
            GoingDown::Unmount(Unmounting::Sync { mounted: m }) => m == mounted,
            GoingDown::Unmount(Unmounting::Try { mounted: m, .. }) => m == mounted,
            GoingDown::Unmount(Unmounting::Pause { mounted: m, .. }) => m == mounted,
            GoingDown::Unmount(Unmounting::Release { error, .. }) => error matches Error::Busy {
                path,
                ..
            } && path@ == mounted@.mountpoint,
            GoingDown::Teardown(_) => takes_down(
                mounted@.live.plan(),
                going_down_teardowns(states),
                k,
            ),
        },
    decreases k,
{
    if k > 0 {
        let prior = k - 1;
        lemma_going_down_evidence(mounted, states, replies, prior);
        assert(going_down_went_on(states, replies, prior));
        let plan = mounted@.live.plan();
        let seen = going_down_teardowns(states);
        if states[prior] is Teardown {
            let before = seen[prior]->Some_0;
            let after = seen[k]->Some_0;
            if replies[prior] is Teardown {
                assert(before.leads_to(replies[prior]->Teardown_0, after));
            }
            lemma_teardown_goes_on(plan, seen, prior);
        } else if states[k] is Teardown {
            lemma_teardown_begins(plan, seen, k);
        }
    }
}

/// A mounted device that is to go down is taken down, all of it, where that
/// succeeds. It fails only where the mount stays busy.
pub proof fn law_a_device_that_went_down_was_torn_down(
    mounted: Mounted,
    states: Seq<GoingDown>,
    replies: Seq<UnmountReply>,
    last: UnmountReply,
    out: Result<(), Error>,
)
    requires
        is_going_down(mounted, states, replies),
        states.last().leads_to(last, Progress::Finished(out)),
    ensures
        match out {
            Ok(_) => {
                &&& takes_down(
                    mounted@.live.plan(),
                    going_down_teardowns(states),
                    states.len() - 1,
                )
                &&& last matches UnmountReply::Teardown(reply)
                &&& states.last() matches GoingDown::Teardown(teardown)
                &&& teardown.ends(reply)
            },
            Err(error) => error matches Error::Busy { path, .. } && path@ == mounted@.mountpoint,
        },
{
    lemma_going_down_evidence(mounted, states, replies, states.len() - 1);
}

/// Whether tearing down a named device went through `states`, one answer after
/// the other.
pub open spec fn is_named_teardown(states: Seq<NamedTeardown>, replies: Seq<NamedReply>) -> bool {
    &&& states.len() == replies.len() + 1
    &&& states[0].phase is Address
    &&& forall|i: int| 0 <= i < replies.len() ==> #[trigger] named_went_on(states, replies, i)
}

/// Whether the answer at `i` did not end the teardown, but led on.
pub open spec fn named_went_on(
    states: Seq<NamedTeardown>,
    replies: Seq<NamedReply>,
    i: int,
) -> bool {
    !states[i].ends(replies[i]) && states[i].leads_to(replies[i], states[i + 1])
}

/// The teardowns that the states of a named teardown hold.
pub open spec fn named_teardowns(states: Seq<NamedTeardown>) -> Seq<Option<Teardown>> {
    Seq::new(
        states.len(),
        |i: int|
            match states[i].phase {
                NamedPhase::Teardown(teardown) => Some(teardown),
                NamedPhase::Address => None,
            },
    )
}

/// Whether the device is being taken down by state `k`, with some address or
/// with none.
pub open spec fn is_taken_down_by_name(states: Seq<NamedTeardown>, k: int) -> bool {
    exists|address: Option<Seq<char>>| #[trigger]
        takes_down(
            teardown_plan(states[0].name@, states[0].naa@, address),
            named_teardowns(states),
            k,
        )
}

proof fn lemma_named_evidence(states: Seq<NamedTeardown>, replies: Seq<NamedReply>, k: int)
    requires
        is_named_teardown(states, replies),
        0 <= k < states.len(),
    ensures
        states[k].name == states[0].name,
        states[k].naa == states[0].naa,
        states[k].phase is Teardown ==> is_taken_down_by_name(states, k),
    decreases k,
{
    if k > 0 {
        let prior = k - 1;
        lemma_named_evidence(states, replies, prior);
        assert(named_went_on(states, replies, prior));
        let seen = named_teardowns(states);
        if states[prior].phase is Teardown {
            let address = choose|address: Option<Seq<char>>| #[trigger]
                takes_down(
                    teardown_plan(states[0].name@, states[0].naa@, address),
                    seen,
                    prior,
                );
            let before = seen[prior]->Some_0;
            let after = seen[k]->Some_0;
            if replies[prior] is Teardown {
                assert(before.leads_to(replies[prior]->Teardown_0, after));
            }
            lemma_teardown_goes_on(
                teardown_plan(states[0].name@, states[0].naa@, address),
                seen,
                prior,
            );
        } else if states[k].phase is Teardown {
            let address = match replies[prior] {
                NamedReply::Text(Ok(contents)) => Some(text::trimmed(contents@)),
                _ => None,
            };
            lemma_teardown_begins(
                teardown_plan(states[0].name@, states[0].naa@, address),
                seen,
                k,
            );
        }
    }
}

/// Tearing down by name does all there is to taking the device down, whatever
/// the host answers and however much of the device is left.
pub proof fn law_a_named_device_is_torn_down(
    states: Seq<NamedTeardown>,
    replies: Seq<NamedReply>,
    last: NamedReply,
)
    requires
        is_named_teardown(states, replies),
        states.last().ends(last),
    ensures
        is_taken_down_by_name(states, states.len() - 1),
        last matches NamedReply::Teardown(reply) && (states.last().phase matches
            NamedPhase::Teardown(teardown) && teardown.ends(reply)),
{
    lemma_named_evidence(states, replies, states.len() - 1);
}

/// Whether making a subdirectory went through `states`, one answer after the
/// other.
pub open spec fn is_subdir_making(states: Seq<Subdir>, replies: Seq<SubdirReply>) -> bool {
    &&& states.len() == replies.len() + 1
    &&& states[0].phase is Probe
    &&& forall|i: int| 0 <= i < replies.len() ==> #[trigger] subdir_went_on(states, replies, i)
}

/// Whether the answer at `i` did not end it, but led on.
pub open spec fn subdir_went_on(states: Seq<Subdir>, replies: Seq<SubdirReply>, i: int) -> bool {
    &&& !states[i].ends(replies[i])
    &&& states[i + 1] == Subdir { phase: states[i].phase_after(replies[i]), ..states[i] }
}

/// Whether the answer at `i` was whether there is anything by the name.
pub open spec fn subdir_was_probed(
    states: Seq<Subdir>,
    replies: Seq<SubdirReply>,
    i: int,
    exists_already: bool,
) -> bool {
    0 <= i < replies.len() && states[i].phase is Probe && replies[i] == SubdirReply::Exists(
        exists_already,
    )
}

/// Whether the answer at `i` was that the subdirectory was created.
pub open spec fn subdir_was_created(
    states: Seq<Subdir>,
    replies: Seq<SubdirReply>,
    i: int,
) -> bool {
    &&& 0 <= i < replies.len()
    &&& states[i].phase is Create
    &&& replies[i] matches SubdirReply::Created(created) && created is Ok
}

/// A subdirectory is asked for by its name and nothing else. It is created only
/// where the host said that nothing has that name, so what is there already is
/// kept, and it is opened only once it is there.
pub proof fn law_a_subdirectory_is_made_only_where_there_is_none(
    states: Seq<Subdir>,
    replies: Seq<SubdirReply>,
    k: int,
    op: SubdirOp,
)
    requires
        is_subdir_making(states, replies),
        0 <= k < states.len(),
        states[k].asks(op),
    ensures
        match op {
            SubdirOp::Exists(name) => name == states[0].name,
            SubdirOp::Create(name) => name == states[0].name && exists|i: int|
                i < k && #[trigger] subdir_was_probed(states, replies, i, false),
            SubdirOp::Open(name) => name == states[0].name && ((exists|i: int|
                i < k && #[trigger] subdir_was_probed(states, replies, i, true)) || (exists|i: int|
                i < k && #[trigger] subdir_was_created(states, replies, i))),
        },
        states[k].name == states[0].name,
        states[k].mountpoint == states[0].mountpoint,
    decreases k,
{
    if k > 0 {
        let prior = k - 1;
        let asked = match states[prior].phase {
            SubdirPhase::Probe => SubdirOp::Exists(states[prior].name),
            SubdirPhase::Create => SubdirOp::Create(states[prior].name),
            SubdirPhase::Open => SubdirOp::Open(states[prior].name),
        };
        law_a_subdirectory_is_made_only_where_there_is_none(states, replies, prior, asked);
        assert(subdir_went_on(states, replies, prior));
        if states[prior].phase is Probe {
            assert(states[k].phase is Create ==> subdir_was_probed(states, replies, prior, false));
            assert(states[k].phase is Open ==> subdir_was_probed(states, replies, prior, true));
        }
        if states[prior].phase is Create && states[k].phase is Open {
            assert(subdir_was_created(states, replies, prior));
        }
    }
}

/// Making a subdirectory succeeds only once it was opened by its name: a name that
/// the confined handle refuses to create or to open is an error.
pub proof fn law_a_subdirectory_was_opened_where_it_was_made(
    states: Seq<Subdir>,
    replies: Seq<SubdirReply>,
    last: SubdirReply,
    op: SubdirOp,
    out: Result<(), Error>,
)
    requires
        is_subdir_making(states, replies),
        states.last().asks(op),
        states.last().ends(last),
        states.last().outcome(last, out),
    ensures
        out is Ok <==> op == SubdirOp::Open(states[0].name) && (last matches SubdirReply::Opened(
            opened,
        ) && opened is Ok),
{
    law_a_subdirectory_is_made_only_where_there_is_none(states, replies, states.len() - 1, op);
}

/// A device is made exactly where its name begins as every device's does. It then
/// has the name and the files that were asked for, and the nexus that the suffix
/// makes up.
pub proof fn law_a_device_is_made_as_it_was_asked_for(
    made: Result<Device, Error>,
    name: Seq<char>,
    config_path: Seq<u8>,
    result_path: Seq<u8>,
    naa_suffix: Seq<char>,
)
    requires
        is_device_for(made, name, config_path, result_path, naa_suffix),
    ensures
        match made {
            Ok(device) => {
                &&& name.len() >= 4 && name.take(4) == seq!['p', 'o', 'c', '_']
                &&& device@.name == name
                &&& device@.config_path == config_path
                &&& device@.result_path == result_path
                &&& device@.naa == "naa.5001405e0b0d"@ + naa_suffix
            },
            Err(error) => {
                &&& name.len() < 4 || name.take(4) != seq!['p', 'o', 'c', '_']
                &&& error matches Error::BadDeviceName { name: n, prefix } && n@ == name && prefix@
                    == "poc_"@
            },
        },
{
    reveal_strlit("poc_");
    assert(DEV_PREFIX@ =~= seq!['p', 'o', 'c', '_']);
    if name.len() >= 4 {
        assert(name.take(4) =~= name.subrange(0, 4));
    }
}

/// Whether a write that is under way is of `value` to `path`, with pauses of
/// `delay`.
pub open spec fn is_write_of(
    writing: AttrWrite,
    path: Seq<char>,
    value: Seq<char>,
    delay: u128,
) -> bool {
    writing.path@ == path && writing.value@ == value && writing.delay == delay
}

/// Whether `ops` are what a launch asked in its states, in turn.
pub open spec fn launch_asked(states: Seq<Launch>, ops: Seq<LaunchOp>) -> bool {
    &&& ops.len() == states.len()
    &&& forall|i: int| 0 <= i < ops.len() ==> states[i].asks(#[trigger] ops[i])
}

/// What a launch asked in its search for the node, each question at its place.
pub open spec fn node_ops(ops: Seq<LaunchOp>) -> Seq<NodeOp> {
    Seq::new(
        ops.len(),
        |i: int|
            match ops[i] {
                LaunchOp::Node(op) => op,
                _ => NodeOp::StartClock,
            },
    )
}

/// What the host answered a launch in its search for the node, each answer at
/// its place.
pub open spec fn node_replies(replies: Seq<LaunchReply>) -> Seq<NodeReply> {
    Seq::new(
        replies.len(),
        |i: int|
            match replies[i] {
                LaunchReply::Node(reply) => reply,
                _ => NodeReply::Started,
            },
    )
}

/// Whether, before `k`, the attribute at `path` was read and gave `devt`.
pub open spec fn devt_was_given(
    ops: Seq<NodeOp>,
    replies: Seq<NodeReply>,
    k: int,
    path: Seq<char>,
    devt: (u32, u32),
) -> bool {
    exists|i: int|
        0 <= i < k && i < replies.len() && (#[trigger] ops[i] matches NodeOp::ReadText(p) && p@
            == path) && (replies[i] matches NodeReply::Text(Ok(contents)) && parsed_devt(contents@)
            == Some(devt))
}

/// Whether what a search inside a launch stands for was learned from the host by
/// state `k`.
spec fn search_is_founded(
    ops: Seq<NodeOp>,
    replies: Seq<NodeReply>,
    k: int,
    device: DeviceView,
    search: NodeSearch,
) -> bool {
    let dir = configfs::block_dir_text(search.address@);
    let attribute = configfs::devt_text(search.address@, search.last_seen@);
    &&& search.device@ == device.name
    &&& search.naa@ == device.naa
    &&& search.timeout == NODE_TIMEOUT
    &&& !(search.phase is Address) ==> address_was_read(
        ops,
        replies,
        k,
        configfs::address_text(device.naa),
        search.address@,
    )
    &&& search.phase is Devt || search.phase is Node || search.phase is Sector
        ==> name_was_listed(ops, replies, k, dir, search.last_seen@)
    &&& search.phase matches NodePhase::Node { devt } ==> devt_was_given(
        ops,
        replies,
        k,
        attribute,
        devt,
    )
    &&& search.phase is Sector ==> numbers_agreed(
        ops,
        replies,
        k,
        attribute,
        configfs::node_text(search.last_seen@),
    )
}

proof fn lemma_founded_stays(
    ops: Seq<NodeOp>,
    replies: Seq<NodeReply>,
    k: int,
    device: DeviceView,
    search: NodeSearch,
)
    requires
        search_is_founded(ops, replies, k, device, search),
    ensures
        search_is_founded(ops, replies, k + 1, device, search),
{
    let dir = configfs::block_dir_text(search.address@);
    let attribute = configfs::devt_text(search.address@, search.last_seen@);
    let address = configfs::address_text(device.naa);
    let node = configfs::node_text(search.last_seen@);
    lemma_read_stays(ops, replies, k, address, search.address@);
    lemma_listed_stays(ops, replies, k, dir, search.last_seen@);
    if search.phase is Node {
        let devt = search.phase->devt;
        if devt_was_given(ops, replies, k, attribute, devt) {
            let i = choose|i: int|
                0 <= i < k && i < replies.len() && (#[trigger] ops[i] matches NodeOp::ReadText(p)
                    && p@ == attribute) && (replies[i] matches NodeReply::Text(Ok(contents))
                    && parsed_devt(contents@) == Some(devt));
            assert(0 <= i < k + 1 && ops[i] is ReadText);
        }
    }
    if numbers_agreed(ops, replies, k, attribute, node) {
        let (i, j) = choose|i: int, j: int|
            0 <= i < j < k && j < replies.len() && (#[trigger] ops[i] matches NodeOp::ReadText(p)
                && p@ == attribute) && (#[trigger] ops[j] matches NodeOp::DeviceNumber(n) && n@
                == node) && (replies[i] matches NodeReply::Text(Ok(contents)) && (
            replies[j] matches NodeReply::Number(Some(rdev)) && parsed_devt(contents@) == Some(
                (dev_major(rdev), dev_minor(rdev)),
            )));
        assert(0 <= i < j < k + 1 && ops[i] is ReadText && ops[j] is DeviceNumber);
    }
}

proof fn lemma_read_stays(
    ops: Seq<NodeOp>,
    replies: Seq<NodeReply>,
    k: int,
    path: Seq<char>,
    address: Seq<char>,
)
    ensures
        address_was_read(ops, replies, k, path, address) ==> address_was_read(
            ops,
            replies,
            k + 1,
            path,
            address,
        ),
{
    if address_was_read(ops, replies, k, path, address) {
        let i = choose|i: int|
            0 <= i < k && i < replies.len() && (#[trigger] ops[i] matches NodeOp::ReadText(p) && p@
                == path) && (replies[i] matches NodeReply::Text(Ok(contents)) && text::trimmed(
                contents@,
            ) == address);
        assert(0 <= i < k + 1 && ops[i] is ReadText);
    }
}

proof fn lemma_listed_stays(
    ops: Seq<NodeOp>,
    replies: Seq<NodeReply>,
    k: int,
    dir: Seq<char>,
    name: Seq<char>,
)
    ensures
        name_was_listed(ops, replies, k, dir, name) ==> name_was_listed(
            ops,
            replies,
            k + 1,
            dir,
            name,
        ),
{
    if name_was_listed(ops, replies, k, dir, name) {
        let i = choose|i: int|
            0 <= i < k && i < replies.len() && (#[trigger] ops[i] matches NodeOp::List(p) && p@
                == dir) && (replies[i] matches NodeReply::Names(Some(names)) && is_first_name(
                names@,
                name,
            ));
        assert(0 <= i < k + 1 && ops[i] is List);
    }
}

proof fn lemma_founded_goes_on(
    ops: Seq<NodeOp>,
    replies: Seq<NodeReply>,
    k: int,
    device: DeviceView,
    search: NodeSearch,
    next: NodeSearch,
)
    requires
        0 <= k < replies.len(),
        search_is_founded(ops, replies, k, device, search),
        search.asks(ops[k]),
        !search.ends(replies[k]),
        search.leads_to(replies[k], next),
    ensures
        search_is_founded(ops, replies, k + 1, device, next),
{
    lemma_founded_stays(ops, replies, k, device, search);
    let attribute = configfs::devt_text(search.address@, search.last_seen@);
    let node = configfs::node_text(search.last_seen@);
    match (search.phase, replies[k]) {
        (NodePhase::Address, NodeReply::Text(Ok(_))) => {
            assert(ops[k] is ReadText);
        },
        (NodePhase::List, NodeReply::Names(_)) => {
            assert(ops[k] is List);
        },
        (NodePhase::Devt, NodeReply::Text(Ok(_))) => {
            assert(ops[k] is ReadText);
            if next.phase is Node {
                assert(devt_was_given(ops, replies, k + 1, attribute, next.phase->devt));
            }
        },
        (NodePhase::Node { devt }, NodeReply::Number(_)) => {
            assert(ops[k] is DeviceNumber);
            if next.phase is Sector {
                let i = choose|i: int|
                    0 <= i < k && i < replies.len() && (#[trigger] ops[i] matches NodeOp::ReadText(
                        p,
                    ) && p@ == attribute) && (replies[i] matches NodeReply::Text(Ok(contents))
                        && parsed_devt(contents@) == Some(devt));
                assert(0 <= i < k && ops[i] is ReadText && ops[k] is DeviceNumber);
                assert(numbers_agreed(ops, replies, k + 1, attribute, node));
            }
        },
        _ => {},
    }
}

proof fn lemma_launch_run(
    states: Seq<Launch>,
    ops: Seq<LaunchOp>,
    replies: Seq<LaunchReply>,
    k: int,
)
    requires
        is_launch(states, replies),
        launch_asked(states, ops),
        0 <= k < states.len(),
    ensures
        ({
            let device = states[0].device@;
            &&& states[k].device == states[0].device
            &&& match states[k].phase {
                LaunchPhase::Config(writing) => is_write_of(
                    writing,
                    device.control(),
                    "dev_config=overlaybd/"@ + shown(device.config_path),
                    0,
                ),
                LaunchPhase::DataArea(writing) => is_write_of(
                    writing,
                    device.control(),
                    "max_data_area_mb="@ + text::decimal(4),
                    0,
                ),
                LaunchPhase::Enable(writing) => is_write_of(
                    writing,
                    joined(configfs::backstore_text(device.name), "enable"@),
                    "1"@,
                    50_000_000,
                ),
                LaunchPhase::Nexus(writing) => is_write_of(
                    writing,
                    joined(configfs::tpgt_text(device.naa), "nexus"@),
                    device.naa,
                    0,
                ),
                LaunchPhase::Result(wait) => wait.result_file@ == device.result_path && wait.timeout
                    == 10_000_000_000,
                LaunchPhase::Resolve(search) => search_is_founded(
                    node_ops(ops),
                    node_replies(replies),
                    k,
                    device,
                    search,
                ),
                _ => true,
            }
        }),
    decreases k,
{
    if k > 0 {
        let prior = k - 1;
        lemma_launch_run(states, ops, replies, prior);
        assert(launch_went_on(states, replies, prior));
        assert(states[prior].asks(ops[prior]));
        let device = states[0].device@;
        if states[k].phase is Resolve {
            let next = states[k].phase->Resolve_0;
            if states[prior].phase is Resolve {
                let search = states[prior].phase->Resolve_0;
                if replies[prior] is Node {
                    assert(node_ops(ops)[prior] == ops[prior]->Node_0);
                    assert(node_replies(replies)[prior] == replies[prior]->Node_0);
                    lemma_founded_goes_on(
                        node_ops(ops),
                        node_replies(replies),
                        prior,
                        device,
                        search,
                        next,
                    );
                } else {
                    lemma_founded_stays(
                        node_ops(ops),
                        node_replies(replies),
                        prior,
                        device,
                        search,
                    );
                }
            }
        }
    }
}

/// Everything that a launch asks for is about its own device: its result file,
/// its backstore, its nexus and the symlink between them. The backstore is told
/// the device's own config and the size of the data area and is then enabled,
/// and the nexus is told its own name.
pub proof fn law_a_launch_is_about_its_own_device(
    states: Seq<Launch>,
    ops: Seq<LaunchOp>,
    replies: Seq<LaunchReply>,
    k: int,
)
    requires
        is_launch(states, replies),
        launch_asked(states, ops),
        0 <= k < ops.len(),
        configfs::is_segment(states[0].device@.name),
        configfs::is_segment(states[0].device@.naa),
    ensures
        ({
            let device = states[0].device@;
            let backstore = "/sys/kernel/config/target/core/user_1/"@ + device.name;
            let nexus = "/sys/kernel/config/target/loopback/"@ + device.naa;
            let phase = states[k].phase;
            match ops[k] {
                LaunchOp::CreateParents(path) => path@ == device.result_path,
                LaunchOp::RemoveFile(path) => path@ == device.result_path,
                LaunchOp::CreateDirAll(path) => if phase is Backstore {
                    path@ == backstore
                } else {
                    phase is Lun && path@ == nexus + "/tpgt_1/lun/lun_0"@
                },
                LaunchOp::Attr(AttrOp::Write { path, value }) => match phase {
                    LaunchPhase::Config(_) => path@ == backstore + "/control"@ && value@
                        == "dev_config=overlaybd/"@ + shown(device.config_path),
                    LaunchPhase::DataArea(_) => path@ == backstore + "/control"@ && value@
                        == "max_data_area_mb=4"@,
                    LaunchPhase::Enable(_) => path@ == backstore + "/enable"@ && value@ == "1"@,
                    LaunchPhase::Nexus(_) => path@ == nexus + "/tpgt_1/nexus"@ && value@
                        == device.naa,
                    _ => false,
                },
                LaunchOp::Attr(AttrOp::Sleep(span)) => if phase is Enable {
                    span == 50_000_000
                } else {
                    span == 0
                },
                LaunchOp::Result(ResultOp::Read(path)) => path@ == device.result_path,
                LaunchOp::Result(ResultOp::Sleep(span)) => span == 100_000_000,
                LaunchOp::Result(ResultOp::Elapsed) => true,
                LaunchOp::ReadLog(log) => log@ == encode_utf8("/var/log/overlaybd.log"@),
                LaunchOp::LinkExists(path) => path@ == nexus + "/tpgt_1/lun/lun_0/"@ + device.name,
                LaunchOp::Symlink { target, link } => target@ == backstore && link@ == nexus
                    + "/tpgt_1/lun/lun_0/"@ + device.name,
                LaunchOp::Teardown(_) => phase is Teardown,
                LaunchOp::Node(_) => phase is Resolve,
            }
        }),
{
    let device = states[0].device@;
    lemma_launch_run(states, ops, replies, k);
    configfs::law_configfs_paths_hold_the_names(device.name, device.naa);
    lemma_attribute_texts(device);
    assert(states[k].asks(ops[k]));
}

/// The node of a device that was launched is the one at which the search of that
/// launch ended: the last question read a whole sector of it, sysfs listed it at
/// the address that the device's own nexus gave, and its number was the one that
/// sysfs gave for it there.
pub proof fn law_a_live_device_has_the_node_that_was_searched_out(
    states: Seq<Launch>,
    ops: Seq<LaunchOp>,
    replies: Seq<LaunchReply>,
    last: LaunchReply,
    live: Live,
)
    requires
        is_launch(states, replies),
        launch_asked(states, ops),
        states.last().ends(last),
        states.last().outcome(last, Ok::<Live, Error>(live)),
        configfs::is_segment(states[0].device@.naa),
    ensures
        ({
            let attribute = "/sys/kernel/config/target/loopback/"@ + states[0].device@.naa
                + "/tpgt_1/address"@;
            let dir = "/sys/class/scsi_device/"@ + live@.scsi_address + ":0/device/block"@;
            let k = ops.len() as int;
            &&& live@.device == states[0].device@
            &&& ops.last() matches LaunchOp::Node(NodeOp::ReadSector(node)) && node@
                == live@.block_device
            &&& last matches LaunchReply::Node(NodeReply::Sector(Some(read))) && read == 512
            &&& address_was_read(
                node_ops(ops),
                node_replies(replies),
                k,
                attribute,
                live@.scsi_address,
            )
            &&& exists|name: Seq<char>| #[trigger]
                name_was_listed(node_ops(ops), node_replies(replies), k, dir, name) && (
                configfs::is_segment(name) ==> live@.block_device == "/dev/"@ + name
                    && numbers_agreed(
                    node_ops(ops),
                    node_replies(replies),
                    k,
                    dir + "/"@ + name + "/dev"@,
                    live@.block_device,
                ))
        }),
{
    let end = states.len() - 1;
    let device = states[0].device@;
    lemma_launch_run(states, ops, replies, end);
    assert(states[end].asks(ops[end]));
    let search = states[end].phase->Resolve_0;
    let name = search.last_seen@;
    let address = search.address@;
    lemma_founded_stays(node_ops(ops), node_replies(replies), end, device, search);
    assert(configfs::is_segment(seq!['a']));
    configfs::law_configfs_paths_hold_the_names(seq!['a'], device.naa);
    let dir = "/sys/class/scsi_device/"@ + address + ":0/device/block"@;
    assert(name_was_listed(node_ops(ops), node_replies(replies), ops.len() as int, dir, name));
    if configfs::is_segment(name) {
        configfs::law_sysfs_paths_hold_the_address(address, address, name);
        reveal_strlit(":0/device/block");
        reveal_strlit(":0/device/block/");
        reveal_strlit("/");
        assert(dir + "/"@ + name + "/dev"@ =~= "/sys/class/scsi_device/"@ + address
            + ":0/device/block/"@ + name + "/dev"@);
        assert(live@.block_device == "/dev/"@ + name);
        assert(numbers_agreed(
            node_ops(ops),
            node_replies(replies),
            ops.len() as int,
            dir + "/"@ + name + "/dev"@,
            live@.block_device,
        ));
    }
    assert(live@.scsi_address == address);
}

/// What is mounted is the node at which the search of the device's launch ended,
/// whose number matched and of which a sector was read, and nothing else. It is
/// mounted as ext4 on the mountpoint that was given, read-only and without
/// replaying a journal exactly where that was asked for.
pub proof fn law_the_node_that_is_mounted_is_the_one_that_was_resolved(
    launches: Seq<Launch>,
    launch_ops: Seq<LaunchOp>,
    launch_replies: Seq<LaunchReply>,
    last: LaunchReply,
    live: Live,
    mountpoint: HostPath,
    mode: Mode,
    states: Seq<Mounting>,
    replies: Seq<MountReply>,
    k: int,
    op: MountOp,
)
    requires
        is_launch(launches, launch_replies),
        launch_asked(launches, launch_ops),
        launches.last().ends(last),
        launches.last().outcome(last, Ok::<Live, Error>(live)),
        configfs::is_segment(launches[0].device@.naa),
        is_mounting(MountRequest { live, mountpoint, mode }, states, replies),
        0 <= k < states.len(),
        states[k].asks(op),
    ensures
        match op {
            MountOp::Mount { source, target, file_system, read_only, data } => {
                &&& launch_ops.last() matches LaunchOp::Node(NodeOp::ReadSector(node)) && node@
                    == source@
                &&& target@ == mountpoint@
                &&& file_system@ == "ext4"@
                &&& match mode {
                    Mode::Ro => read_only && (data matches Some(d) && d@ == "noload"@),
                    Mode::Rw => !read_only && data is None,
                }
            },
            MountOp::CreateDirAll(path) => path@ == mountpoint@,
            MountOp::OpenDir(path) => path@ == mountpoint@,
            MountOp::Teardown(_) => states[k] is Teardown,
        },
{
    let request = MountRequest { live, mountpoint, mode };
    lemma_mounting_evidence(request, states, replies, k);
    law_a_live_device_has_the_node_that_was_searched_out(
        launches,
        launch_ops,
        launch_replies,
        last,
        live,
    );
}

/// Requests that ask for the same mount are for the same node, the same
/// mountpoint and the same mode.
pub proof fn law_different_devices_are_mounted_from_different_nodes(
    a: MountRequest,
    b: MountRequest,
    op: MountOp,
)
    requires
        Mounting::Mount(a).asks(op),
        Mounting::Mount(b).asks(op),
    ensures
        a.live@.block_device == b.live@.block_device,
        a.mountpoint@ == b.mountpoint@,
        a.mode == b.mode,
{
}

/// A mount that the host refuses is told with the node, the mountpoint and how
/// it was to be mounted, and with the host's own failure.
pub proof fn law_a_refused_mount_is_told_with_its_node(
    request: MountRequest,
    source: IoFailure,
    next: Mounting,
)
    requires
        Mounting::Mount(request).leads_to(MountReply::Mounted(Err(source)), next),
    ensures
        next matches Mounting::Teardown { failure: Error::Io { context, source: s }, .. } && s
            == source && context@ == "mounting "@ + request.live@.block_device + " at "@ + shown(
            request.mountpoint@,
        ) + (if request.mode is Ro {
            " (ro,noload)"@
        } else {
            " (rw)"@
        }),
{
    reveal_strlit(" (");
    reveal_strlit(")");
    reveal_strlit("rw");
    reveal_strlit("ro,noload");
    reveal_strlit(" (rw)");
    reveal_strlit(" (ro,noload)");
    let front = "mounting "@ + request.live@.block_device + " at "@ + shown(request.mountpoint@);
    if request.mode is Ro {
        assert(request.mounting() =~= front + " (ro,noload)"@);
    } else {
        assert(request.mounting() =~= front + " (rw)"@);
    }
}

/// The mounted device that an unmount still holds.
pub open spec fn holds(unmounting: Unmounting, mounted: Mounted) -> bool {
    match unmounting {
        Unmounting::Close { mounted: m } => m == mounted,
        Unmounting::Sync { mounted: m } => m == mounted,
        Unmounting::Try { mounted: m, .. } => m == mounted,
        Unmounting::Pause { mounted: m, .. } => m == mounted,
        Unmounting::Release { release, .. } => match release {
            Release::Close { mounted: m } => m == mounted,
            Release::Sync { mounted: m } => m == mounted,
            Release::Try { mounted: m, .. } => m == mounted,
            Release::Pause { mounted: m, .. } => m == mounted,
            Release::Teardown(_) => true,
        },
    }
}

/// Whatever an unmount asks the host to unmount is the path on which the device
/// is mounted, also once it has given the device up, and it pauses for half a
/// second between two tries.
pub proof fn law_only_the_devices_own_mountpoint_is_unmounted(
    mounted: Mounted,
    states: Seq<Unmounting>,
    replies: Seq<UnmountReply>,
    k: int,
    op: UnmountOp,
)
    requires
        is_unmount(mounted, states, replies),
        0 <= k < states.len(),
        states[k].asks(op),
    ensures
        op matches UnmountOp::Unmount(path) ==> path@ == mounted@.mountpoint,
        op matches UnmountOp::Sleep(span) ==> span == 500_000_000,
{
    lemma_unmount_holds(mounted, states, replies, k);
}

proof fn lemma_unmount_holds(
    mounted: Mounted,
    states: Seq<Unmounting>,
    replies: Seq<UnmountReply>,
    k: int,
)
    requires
        is_unmount(mounted, states, replies),
        0 <= k < states.len(),
    ensures
        holds(states[k], mounted),
    decreases k,
{
    if k > 0 {
        let prior = k - 1;
        lemma_unmount_holds(mounted, states, replies, prior);
        assert(unmount_went_on(states, replies, prior));
    }
}

/// A device that stays busy is told by the path on which it is mounted.
pub proof fn law_a_busy_device_is_told_by_its_mountpoint(
    mounted: Mounted,
    states: Seq<Unmounting>,
    replies: Seq<UnmountReply>,
    k: int,
)
    requires
        is_unmount(mounted, states, replies),
        0 <= k < states.len(),
    ensures
        states[k] matches Unmounting::Release { error, .. } ==> (error matches Error::Busy {
            path,
            ..
        } && path@ == mounted@.mountpoint),
    decreases k,
{
    if k > 0 {
        let prior = k - 1;
        law_a_busy_device_is_told_by_its_mountpoint(mounted, states, replies, prior);
        lemma_unmount_holds(mounted, states, replies, prior);
        assert(unmount_went_on(states, replies, prior));
    }
}

/// What is kept of a device that is left running tells it apart from every
/// other: the name, the nexus once the prefix stands before the suffix, the node
/// and the mountpoint are the device's own.
pub proof fn law_what_is_persisted_tells_the_device(
    persisted: PersistedDevice,
    live: LiveView,
    mountpoint: Option<Seq<u8>>,
)
    requires
        persisted.describes(live, mountpoint),
    ensures
        persisted.name@ == live.device.name,
        "naa.5001405e0b0d"@ + persisted.naa_suffix@ == live.device.naa,
        persisted.block_device@ == live.block_device,
        match persisted.mountpoint {
            Some(path) => mountpoint == Some(path@),
            None => mountpoint is None,
        },
{
}

/// A device that is torn down by name is the one with that name and that suffix:
/// the address is read from the nexus that the suffix makes up, and the plan is
/// the one for the two names and the address that stood there, if it could be
/// read.
pub proof fn law_a_named_teardown_is_of_the_named_device(
    named: NamedTeardown,
    name: Seq<char>,
    naa_suffix: Seq<char>,
    op: NamedOp,
    reply: Result<String, IoFailure>,
    next: NamedTeardown,
)
    requires
        named.begins(name, naa_suffix),
        named.asks(op),
        named.leads_to(NamedReply::Text(reply), next),
        naa_suffix.len() > 0 ==> naa_suffix.last() != '/',
    ensures
        ({
            let naa = "naa.5001405e0b0d"@ + naa_suffix;
            &&& op matches NamedOp::ReadText(path) && path@
                == "/sys/kernel/config/target/loopback/"@ + naa + "/tpgt_1/address"@
            &&& next.phase matches NamedPhase::Teardown(teardown) && teardown.is_at(
                teardown_plan(
                    name,
                    naa,
                    match reply {
                        Ok(contents) => Some(text::trimmed(contents@)),
                        Err(_) => None,
                    },
                ),
            )
        }),
{
    let naa = "naa.5001405e0b0d"@ + naa_suffix;
    reveal_strlit("naa.5001405e0b0d");
    assert(naa[0] == 'n');
    if naa_suffix.len() > 0 {
        assert(naa.last() == naa_suffix.last());
    } else {
        assert(naa.last() == 'd');
    }
    assert(configfs::is_segment(seq!['a']));
    configfs::law_configfs_paths_hold_the_names(seq!['a'], naa);
}

/// A launch that the daemon refused is told with the device's name, the report
/// as it was, or a remark where there was none, and the end of the daemon's log.
pub proof fn law_a_refused_launch_is_told_with_its_report(
    launch: Launch,
    result: String,
    contents: Result<String, IoFailure>,
    next: LaunchPhase,
)
    requires
        launch.phase == (LaunchPhase::Log { result }),
        launch.phase_after(LaunchReply::Log(contents), next),
    ensures
        next matches LaunchPhase::Teardown {
            failure: Error::LaunchFailed { device, result: r, log, tail },
            teardown,
        } && {
            &&& device@ == launch.device@.name
            &&& result@.len() > 0 ==> r@ == result@
            &&& result@.len() == 0 ==> r@ == "<empty>"@
            &&& log@ == "/var/log/overlaybd.log"@
            &&& contents matches Ok(c) ==> {
                let all = text::lines(c@);
                tail@ == text::glued(
                    if all.len() <= 25 {
                        all
                    } else {
                        all.skip(all.len() - 25)
                    },
                    "\n"@,
                )
            }
            &&& contents is Err ==> tail@ == "(no /var/log/overlaybd.log)"@
            &&& teardown.is_at(teardown_plan(launch.device@.name, launch.device@.naa, None))
        },
{
    let log = "/var/log/overlaybd.log"@;
    vstd::utf8::encode_utf8_valid_utf8(log);
    vstd::utf8::encode_utf8_decode_utf8(log);
    reveal_strlit("(no ");
    reveal_strlit(")");
    reveal_strlit("/var/log/overlaybd.log");
    reveal_strlit("(no /var/log/overlaybd.log)");
    assert("(no "@ + log + ")"@ =~= "(no /var/log/overlaybd.log)"@);
}

/// A subdirectory is looked for, made and opened under the name that was given.
pub proof fn law_a_subdirectory_has_the_name_that_was_given(
    subdir: Subdir,
    op: SubdirOp,
    reply: SubdirReply,
    out: Result<(), Error>,
)
    requires
        subdir.asks(op),
        subdir.ends(reply),
        subdir.outcome(reply, out),
    ensures
        match op {
            SubdirOp::Exists(name) => name@ == subdir.name@,
            SubdirOp::Create(name) => name@ == subdir.name@,
            SubdirOp::Open(name) => name@ == subdir.name@,
        },
        match out {
            Ok(_) => op is Open && (reply matches SubdirReply::Opened(opened) && opened is Ok),
            Err(error) => error matches Error::Io { context, source } && {
                ||| op is Create && reply == SubdirReply::Created(Err::<(), IoFailure>(source))
                    && context@ == "creating "@ + (subdir.name@ + " under "@ + shown(
                    subdir.mountpoint@,
                ))
                ||| op is Open && reply == SubdirReply::Opened(Err::<(), IoFailure>(source))
                    && context@ == "opening "@ + (subdir.name@ + " under "@ + shown(
                    subdir.mountpoint@,
                ))
            },
        },
{
}

/// A live device is taken down under its own names and waited for at its own
/// address.
pub proof fn law_a_live_device_is_taken_down_as_itself(live: LiveView)
    ensures
        live.plan() == teardown_plan(live.device.name, live.device.naa, Some(live.scsi_address)),
        live.plan()[6] == (StepView::AwaitRemoval {
            address: live.scsi_address,
            timeout: 15_000_000_000,
        }),
{
}

/// Whether, before `k`, the host was asked to write `value` to the attribute at
/// `path` and did so.
pub open spec fn attr_was_written(
    ops: Seq<LaunchOp>,
    replies: Seq<LaunchReply>,
    k: int,
    path: Seq<char>,
    value: Seq<char>,
) -> bool {
    exists|i: int|
        0 <= i < k && i < replies.len() && (#[trigger] ops[i] matches LaunchOp::Attr(
            AttrOp::Write { path: p, value: v },
        ) && p@ == path && v@ == value) && (replies[i] matches LaunchReply::Attr(
            AttrReply::Wrote(wrote),
        ) && wrote is Ok)
}

/// Whether, before `k`, the host was asked to make the directory at `path` and
/// did so.
pub open spec fn dir_was_made(
    ops: Seq<LaunchOp>,
    replies: Seq<LaunchReply>,
    k: int,
    path: Seq<char>,
) -> bool {
    exists|i: int|
        0 <= i < k && i < replies.len() && (#[trigger] ops[i] matches LaunchOp::CreateDirAll(p)
            && p@ == path) && (replies[i] matches LaunchReply::Created(created) && created is Ok)
}

/// Whether, before `k`, the host found a symlink at `link`, or made one there
/// that leads to `target`.
pub open spec fn link_is_there(
    ops: Seq<LaunchOp>,
    replies: Seq<LaunchReply>,
    k: int,
    target: Seq<char>,
    link: Seq<char>,
) -> bool {
    exists|i: int|
        0 <= i < k && i < replies.len() && (match #[trigger] ops[i] {
            LaunchOp::LinkExists(path) => path@ == link && replies[i] == LaunchReply::LinkExists(
                true,
            ),
            LaunchOp::Symlink { target: t, link: l } => t@ == target && l@ == link && (
            replies[i] matches LaunchReply::Linked(linked) && linked is Ok),
            _ => false,
        })
}

proof fn lemma_written_stays(
    ops: Seq<LaunchOp>,
    replies: Seq<LaunchReply>,
    k: int,
    path: Seq<char>,
    value: Seq<char>,
)
    ensures
        attr_was_written(ops, replies, k, path, value) ==> attr_was_written(
            ops,
            replies,
            k + 1,
            path,
            value,
        ),
{
    if attr_was_written(ops, replies, k, path, value) {
        let i = choose|i: int|
            0 <= i < k && i < replies.len() && (#[trigger] ops[i] matches LaunchOp::Attr(
                AttrOp::Write { path: p, value: v },
            ) && p@ == path && v@ == value) && (replies[i] matches LaunchReply::Attr(
                AttrReply::Wrote(wrote),
            ) && wrote is Ok);
        assert(0 <= i < k + 1 && ops[i] is Attr);
    }
}

proof fn lemma_made_stays(
    ops: Seq<LaunchOp>,
    replies: Seq<LaunchReply>,
    k: int,
    path: Seq<char>,
)
    ensures
        dir_was_made(ops, replies, k, path) ==> dir_was_made(ops, replies, k + 1, path),
{
    if dir_was_made(ops, replies, k, path) {
        let i = choose|i: int|
            0 <= i < k && i < replies.len() && (#[trigger] ops[i] matches LaunchOp::CreateDirAll(p)
                && p@ == path) && (replies[i] matches LaunchReply::Created(created) && created
                is Ok);
        assert(0 <= i < k + 1 && ops[i] is CreateDirAll);
    }
}

proof fn lemma_link_stays(
    ops: Seq<LaunchOp>,
    replies: Seq<LaunchReply>,
    k: int,
    target: Seq<char>,
    link: Seq<char>,
)
    ensures
        link_is_there(ops, replies, k, target, link) ==> link_is_there(
            ops,
            replies,
            k + 1,
            target,
            link,
        ),
{
    if link_is_there(ops, replies, k, target, link) {
        let i = choose|i: int|
            0 <= i < k && i < replies.len() && (match #[trigger] ops[i] {
                LaunchOp::LinkExists(path) => path@ == link && replies[i]
                    == LaunchReply::LinkExists(true),
                LaunchOp::Symlink { target: t, link: l } => t@ == target && l@ == link && (
                replies[i] matches LaunchReply::Linked(linked) && linked is Ok),
                _ => false,
            });
        assert(0 <= i < k + 1 && (ops[i] is LinkExists || ops[i] is Symlink));
    }
}

/// Whether a launch is past making the backstore.
spec fn is_past_backstore(phase: LaunchPhase) -> bool {
    is_past_clearing(phase) && !(phase is Backstore)
}

/// Whether a launch is past telling the backstore its config.
spec fn is_past_config(phase: LaunchPhase) -> bool {
    is_past_backstore(phase) && !(phase is Config)
}

/// Whether a launch is past sizing the data area.
spec fn is_past_area(phase: LaunchPhase) -> bool {
    is_past_config(phase) && !(phase is DataArea)
}

/// Whether a launch is past making the LUN.
spec fn is_past_lun(phase: LaunchPhase) -> bool {
    is_past_reporting(phase) && !(phase is Lun)
}

/// Whether a launch is past setting up the nexus.
spec fn is_past_nexus(phase: LaunchPhase) -> bool {
    is_past_lun(phase) && !(phase is Nexus)
}

proof fn lemma_launch_sets_up(
    states: Seq<Launch>,
    ops: Seq<LaunchOp>,
    replies: Seq<LaunchReply>,
    k: int,
)
    requires
        is_launch(states, replies),
        launch_asked(states, ops),
        0 <= k < states.len(),
    ensures
        ({
            let device = states[0].device@;
            let backstore = configfs::backstore_text(device.name);
            let phase = states[k].phase;
            &&& is_past_backstore(phase) ==> dir_was_made(ops, replies, k, backstore)
            &&& is_past_config(phase) ==> attr_was_written(
                ops,
                replies,
                k,
                device.control(),
                "dev_config=overlaybd/"@ + shown(device.config_path),
            )
            &&& is_past_area(phase) ==> attr_was_written(
                ops,
                replies,
                k,
                device.control(),
                "max_data_area_mb="@ + text::decimal(4),
            )
            &&& is_past_enabling(phase) ==> attr_was_written(
                ops,
                replies,
                k,
                joined(backstore, "enable"@),
                "1"@,
            )
            &&& is_past_lun(phase) ==> dir_was_made(
                ops,
                replies,
                k,
                configfs::lun0_text(device.naa),
            )
            &&& is_past_nexus(phase) ==> attr_was_written(
                ops,
                replies,
                k,
                joined(configfs::tpgt_text(device.naa), "nexus"@),
                device.naa,
            )
            &&& phase is Resolve ==> link_is_there(
                ops,
                replies,
                k,
                backstore,
                configfs::lun_link_text(device.naa, device.name),
            )
        }),
    decreases k,
{
    if k > 0 {
        let prior = k - 1;
        lemma_launch_sets_up(states, ops, replies, prior);
        lemma_launch_run(states, ops, replies, prior);
        assert(launch_went_on(states, replies, prior));
        assert(states[prior].asks(ops[prior]));
        let device = states[0].device@;
        let backstore = configfs::backstore_text(device.name);
        let lun = configfs::lun0_text(device.naa);
        lemma_made_stays(ops, replies, prior, backstore);
        lemma_made_stays(ops, replies, prior, lun);
        lemma_written_stays(
            ops,
            replies,
            prior,
            device.control(),
            "dev_config=overlaybd/"@ + shown(device.config_path),
        );
        lemma_written_stays(
            ops,
            replies,
            prior,
            device.control(),
            "max_data_area_mb="@ + text::decimal(4),
        );
        lemma_written_stays(ops, replies, prior, joined(backstore, "enable"@), "1"@);
        lemma_written_stays(
            ops,
            replies,
            prior,
            joined(configfs::tpgt_text(device.naa), "nexus"@),
            device.naa,
        );
        lemma_link_stays(
            ops,
            replies,
            prior,
            backstore,
            configfs::lun_link_text(device.naa, device.name),
        );
        let before = states[prior].phase;
        let after = states[k].phase;
        match before {
            LaunchPhase::Backstore | LaunchPhase::Lun => {
                if is_past_backstore(after) && !(after is Lun) {
                    assert(ops[prior] is CreateDirAll);
                }
            },
            LaunchPhase::Config(writing)
            | LaunchPhase::DataArea(writing)
            | LaunchPhase::Enable(writing)
            | LaunchPhase::Nexus(writing) => {
                if replies[prior] is Attr && writing.after(replies[prior]->Attr_0) is None {
                    assert(writing.succeeds(replies[prior]->Attr_0));
                    assert(ops[prior] is Attr);
                }
            },
            LaunchPhase::LinkProbe => {
                if after is Resolve {
                    assert(ops[prior] is LinkExists);
                }
            },
            LaunchPhase::Link => {
                if after is Resolve {
                    assert(ops[prior] is Symlink);
                }
            },
            _ => {},
        }
    }
}

/// A device counts as live only once all of it was set up: the host made its
/// backstore, was told its config and the size of the data area and enabled it,
/// made its LUN, was told the nexus, and has the symlink that binds the two.
pub proof fn law_a_live_device_was_set_up_in_full(
    states: Seq<Launch>,
    ops: Seq<LaunchOp>,
    replies: Seq<LaunchReply>,
    last: LaunchReply,
    live: Live,
)
    requires
        is_launch(states, replies),
        launch_asked(states, ops),
        states.last().ends(last),
        states.last().outcome(last, Ok::<Live, Error>(live)),
        configfs::is_segment(states[0].device@.name),
        configfs::is_segment(states[0].device@.naa),
    ensures
        ({
            let device = states[0].device@;
            let backstore = "/sys/kernel/config/target/core/user_1/"@ + device.name;
            let nexus = "/sys/kernel/config/target/loopback/"@ + device.naa;
            let k = replies.len() as int;
            &&& dir_was_made(ops, replies, k, backstore)
            &&& attr_was_written(
                ops,
                replies,
                k,
                backstore + "/control"@,
                "dev_config=overlaybd/"@ + shown(device.config_path),
            )
            &&& attr_was_written(
                ops,
                replies,
                k,
                backstore + "/control"@,
                "max_data_area_mb=4"@,
            )
            &&& attr_was_written(ops, replies, k, backstore + "/enable"@, "1"@)
            &&& dir_was_made(ops, replies, k, nexus + "/tpgt_1/lun/lun_0"@)
            &&& attr_was_written(ops, replies, k, nexus + "/tpgt_1/nexus"@, device.naa)
            &&& link_is_there(
                ops,
                replies,
                k,
                backstore,
                nexus + "/tpgt_1/lun/lun_0/"@ + device.name,
            )
        }),
{
    let device = states[0].device@;
    lemma_launch_sets_up(states, ops, replies, states.len() - 1);
    configfs::law_configfs_paths_hold_the_names(device.name, device.naa);
    lemma_attribute_texts(device);
}

proof fn lemma_attribute_texts(device: DeviceView)
    requires
        configfs::is_segment(device.name),
        configfs::is_segment(device.naa),
    ensures
        device.control() == "/sys/kernel/config/target/core/user_1/"@ + device.name + "/control"@,
        joined(configfs::backstore_text(device.name), "enable"@)
            == "/sys/kernel/config/target/core/user_1/"@ + device.name + "/enable"@,
        joined(configfs::tpgt_text(device.naa), "nexus"@) == "/sys/kernel/config/target/loopback/"@
            + device.naa + "/tpgt_1/nexus"@,
        "max_data_area_mb="@ + text::decimal(4) == "max_data_area_mb=4"@,
{
    let backstore = configfs::backstore_text(device.name);
    let tpgt = configfs::tpgt_text(device.naa);
    configfs::law_configfs_paths_hold_the_names(device.name, device.naa);
    reveal_strlit("control");
    reveal_strlit("/control");
    reveal_strlit("enable");
    reveal_strlit("/enable");
    reveal_strlit("nexus");
    reveal_strlit("/nexus");
    reveal_strlit("/tpgt_1");
    reveal_strlit("/tpgt_1/nexus");
    reveal_strlit("max_data_area_mb=");
    reveal_strlit("max_data_area_mb=4");
    assert(backstore.last() == device.name.last());
    assert(tpgt.last() == '1');
    assert(joined(backstore, "control"@) =~= backstore + "/control"@);
    assert(joined(backstore, "enable"@) =~= backstore + "/enable"@);
    assert(joined(tpgt, "nexus"@) =~= tpgt + "/nexus"@);
    assert(tpgt + "/nexus"@ =~= "/sys/kernel/config/target/loopback/"@ + device.naa
        + "/tpgt_1/nexus"@);
    assert(text::decimal(4) =~= seq!['4']);
    assert("max_data_area_mb="@ + text::decimal(4) =~= "max_data_area_mb=4"@);
}

/// A launch that fails before the daemon is asked tells what it was doing to
/// which path of its own device, and the host's own failure.
pub proof fn law_a_failed_launch_names_its_own_paths(
    states: Seq<Launch>,
    ops: Seq<LaunchOp>,
    replies: Seq<LaunchReply>,
    last: LaunchReply,
    context: String,
    source: IoFailure,
)
    requires
        is_launch(states, replies),
        launch_asked(states, ops),
        states.last().ends(last),
        states.last().outcome(last, Err::<Live, Error>(Error::Io { context, source })),
        configfs::is_segment(states[0].device@.name),
        configfs::is_segment(states[0].device@.naa),
    ensures
        ({
            let device = states[0].device@;
            let backstore = "/sys/kernel/config/target/core/user_1/"@ + device.name;
            let nexus = "/sys/kernel/config/target/loopback/"@ + device.naa;
            let link = nexus + "/tpgt_1/lun/lun_0/"@ + device.name;
            match states.last().phase {
                LaunchPhase::Backstore => context@ == "creating "@ + backstore && last
                    == LaunchReply::Created(Err::<(), IoFailure>(source)),
                LaunchPhase::Lun => context@ == "creating "@ + (nexus + "/tpgt_1/lun/lun_0"@)
                    && last == LaunchReply::Created(Err::<(), IoFailure>(source)),
                LaunchPhase::Config(_) => context@ == "writing '"@ + ("dev_config=overlaybd/"@
                    + shown(device.config_path)) + "' to "@ + (backstore + "/control"@),
                LaunchPhase::DataArea(_) => context@ == "writing '"@ + "max_data_area_mb=4"@
                    + "' to "@ + (backstore + "/control"@),
                LaunchPhase::Enable(_) => context@ == "writing '"@ + "1"@ + "' to "@ + (backstore
                    + "/enable"@),
                LaunchPhase::Nexus(_) => context@ == "writing '"@ + device.naa + "' to "@ + (nexus
                    + "/tpgt_1/nexus"@),
                LaunchPhase::Link => context@ == "linking "@ + link + " -> "@ + backstore && last
                    == LaunchReply::Linked(Err::<(), IoFailure>(source)),
                LaunchPhase::Resolve(_) => context@ == "reading "@ + (nexus + "/tpgt_1/address"@),
                _ => true,
            }
        }),
{
    let device = states[0].device@;
    lemma_launch_run(states, ops, replies, states.len() - 1);
    configfs::law_configfs_paths_hold_the_names(device.name, device.naa);
    lemma_attribute_texts(device);
}

/// A device that stays busy is given up after twenty tries, no fewer and no more,
/// and one that is unmounted had fewer that failed.
pub proof fn law_a_busy_device_is_tried_twenty_times(
    mounted: Mounted,
    states: Seq<Unmounting>,
    replies: Seq<UnmountReply>,
    last: UnmountReply,
    out: Result<Live, Error>,
)
    requires
        is_unmount(mounted, states, replies),
        states.last().ends(last),
        states.last().outcome(out),
    ensures
        out is Err ==> busy_answers(states, replies, replies.len() as int) == 20,
        out is Ok ==> busy_answers(states, replies, replies.len() as int) < 20,
{
    law_unmount_tries_are_bounded(mounted, states, replies, last, out);
}

/// A launch goes on to the nexus exactly where the daemon reported success, with
/// nothing but white space around the word.
pub proof fn law_a_launch_goes_on_exactly_with_a_report_of_success(
    launch: Launch,
    op: LaunchOp,
    contents: String,
    next: LaunchPhase,
)
    requires
        launch.asks(op),
        op matches LaunchOp::Result(ResultOp::Read(_)),
        launch.phase_after(LaunchReply::Result(ResultReply::Read(Ok(contents))), next),
    ensures
        text::trimmed(contents@) == "success"@ <==> next is Lun,
        text::trimmed(contents@).len() > 0 && text::trimmed(contents@) != "success"@ ==> (
        next matches LaunchPhase::Log { result } && result@ == text::trimmed(contents@)),
        text::trimmed(contents@).len() == 0 ==> next is Result,
{
    reveal_strlit("success");
    assert("success"@.len() == 7);
}

/// A mount succeeds where the host makes the directory, mounts the device and
/// opens the mount, and the device that comes out is the one that went in.
pub proof fn law_a_mount_that_the_host_makes_succeeds(
    request: MountRequest,
    second: Mounting,
    third: Mounting,
    made: Result<(), IoFailure>,
    mounted: Result<(), IoFailure>,
    opened: Result<(), IoFailure>,
)
    requires
        made is Ok,
        mounted is Ok,
        opened is Ok,
        Mounting::CreateDir(request).leads_to(MountReply::Created(made), second),
        second.leads_to(MountReply::Mounted(mounted), third),
    ensures
        !Mounting::CreateDir(request).ends(MountReply::Created(made)),
        !second.ends(MountReply::Mounted(mounted)),
        third.ends(MountReply::Opened(opened)),
        forall|out: Result<Mounted, Error>| #[trigger]
            third.outcome(out) ==> (out matches Ok(m) && m@.live == request.live@ && m@.mountpoint
                == request.mountpoint@),
{
}

} // verus!
