//! What the commands of `obdctl` do with their arguments.
//!
//! Commands are **stateless**: a device is identified by its name and nexus
//! suffix, both of which the caller already chose, so bringing it up in one
//! process and taking it down in another needs no state file.

use vstd::prelude::*;
use vstd::utf8::encode_utf8;

use crate::cleanup::unmount_path;
use crate::cleanup::PathOp;
use crate::cleanup::PathPhase;
use crate::cleanup::PathReply;
use crate::cleanup::PathUnmount;
use crate::config::lower_views;
use crate::config::without_slashes;
use crate::config::DeviceConfig;
use crate::config::DeviceConfigView;
use crate::config::Lower;
use crate::config::LowerView;
use crate::config::DIGEST_PREFIX;
use crate::configfs::DEV_PREFIX;
use crate::configfs::NAA_PREFIX;
use crate::device::is_bad_name;
use crate::device::teardown_named;
use crate::device::Device;
use crate::device::DeviceView;
use crate::device::Launch;
use crate::device::LaunchOp;
use crate::device::LaunchPhase;
use crate::device::LaunchReply;
use crate::device::Live;
use crate::device::LiveView;
use crate::device::Mode;
use crate::device::MountOp;
use crate::device::MountReply;
use crate::device::Mounted;
use crate::device::Mounting;
use crate::device::NamedOp;
use crate::device::NamedReply;
use crate::device::NamedTeardown;
use crate::device::PersistedDevice;
use crate::device::Release;
use crate::device::Subdir;
use crate::device::SubdirOp;
use crate::device::SubdirReply;
use crate::device::UnmountOp;
use crate::device::UnmountReply;
use crate::error::Error;
use crate::host::Platform;
use crate::host::Progress;
use crate::path::byte_names;
use crate::path::shown;
use crate::path::HostPath;
use crate::teardown::lemma_teardown_begins;
use crate::teardown::lemma_teardown_goes_on;
use crate::teardown::takes_down;
use crate::teardown::teardown_plan;
use crate::teardown::Teardown;
use crate::text;
use crate::text::texts;

verus! {

/// What is logged for a number of `-v` flags, unless the environment says: the
/// audit trail, then debug, then trace.
pub fn default_filter(verbose: u8) -> (filter: &'static str)
    ensures
        filter@ == (if verbose == 0 {
            "obd=info,obdctl=info"@
        } else if verbose == 1 {
            "obd=debug,obdctl=debug"@
        } else {
            "obd=trace,obdctl=trace"@
        }),
{
    match verbose {
        0 => "obd=info,obdctl=info",
        1 => "obd=debug,obdctl=debug",
        _ => "obd=trace,obdctl=trace",
    }
}

/// Why the arguments for streamed lowers are refused.
#[derive(Debug)]
pub enum ArgError {
    /// The cache directories do not pair with the streamed lowers.
    DirCount { dirs: usize, lowers: usize },
    /// A streamed lower without a size.
    NoSize { spec: String },
    /// A streamed lower whose size is not a byte count.
    BadSize { spec: String, size: String },
    /// A streamed lower whose digest is not `sha256:...`.
    BadDigest { digest: String },
}

impl ArgError {
    /// The error in words.
    pub open spec fn words(self) -> Seq<char> {
        match self {
            ArgError::DirCount { dirs, lowers } => {
                "--remote-lower-dir must be given once per --remote-lower, or not at all ("@
                    + text::decimal(dirs as nat) + " dir(s) for "@ + text::decimal(lowers as nat)
                    + " streamed lower(s)); pass an empty value to leave one purely streamed"@
            },
            ArgError::NoSize { spec } => "--remote-lower must be DIGEST=SIZE: "@ + spec@,
            ArgError::BadSize { spec, .. } => "--remote-lower size must be a byte count: "@
                + spec@,
            ArgError::BadDigest { digest } => "layer digest must be `sha256:...`: "@ + digest@,
        }
    }

    /// The error in words.
    pub fn message(&self) -> (message: String)
        ensures
            message@ == self.words(),
    {
        match self {
            ArgError::DirCount { dirs, lowers } => {
                let dirs = text::decimal_text(*dirs as u64);
                let lowers = text::decimal_text(*lowers as u64);
                "--remote-lower-dir must be given once per --remote-lower, or not at all (".to_owned().concat(
                    dirs.as_str(),
                ).concat(" dir(s) for ").concat(lowers.as_str()).concat(
                    " streamed lower(s)); pass an empty value to leave one purely streamed",
                )
            },
            ArgError::NoSize { spec } => "--remote-lower must be DIGEST=SIZE: ".to_owned().concat(
                spec.as_str(),
            ),
            ArgError::BadSize { spec, .. } => {
                "--remote-lower size must be a byte count: ".to_owned().concat(spec.as_str())
            },
            ArgError::BadDigest { digest } => {
                "layer digest must be `sha256:...`: ".to_owned().concat(digest.as_str())
            },
        }
    }
}

/// The parts of `DIGEST=SIZE` or `DIGEST=SIZE=DIR`: the digest, the size and
/// the directory, which is empty where there is none.
pub open spec fn spec_parts(spec: Seq<char>) -> Option<(Seq<char>, Seq<char>, Seq<char>)> {
    match text::cut_once(spec, '=') {
        Some((digest, rest)) => match text::cut_once(rest, '=') {
            Some((size, dir)) => Some((digest, size, dir)),
            None => Some((digest, rest, Seq::empty())),
        },
        None => None,
    }
}

/// The digest that a streamed lower gives.
pub open spec fn spec_digest(spec: Seq<char>) -> Seq<char> {
    match spec_parts(spec) {
        Some((digest, _, _)) => digest,
        None => Seq::empty(),
    }
}

/// The directory that a streamed lower gives, empty where it gives none.
pub open spec fn spec_dir(spec: Seq<char>) -> Seq<char> {
    match spec_parts(spec) {
        Some((_, _, dir)) => dir,
        None => Seq::empty(),
    }
}

/// The size that a streamed lower gives.
pub open spec fn spec_size(spec: Seq<char>) -> Option<nat> {
    match spec_parts(spec) {
        Some((_, size, _)) => text::parsed_number(size, u64::MAX as nat),
        None => None,
    }
}

/// Whether a streamed lower is spelled as it has to be.
pub open spec fn is_lower_spec(spec: Seq<char>) -> bool {
    spec_size(spec) is Some && DIGEST_PREFIX@.is_prefix_of(spec_digest(spec))
}

/// Whether `error` says what is wrong with a streamed lower.
pub open spec fn is_spec_error(error: ArgError, spec: Seq<char>) -> bool {
    match spec_parts(spec) {
        None => error matches ArgError::NoSize { spec: s } && s@ == spec,
        Some((digest, size, _)) => if spec_size(spec) is None {
            error matches ArgError::BadSize { spec: s, size: z } && s@ == spec && z@ == size
        } else {
            !DIGEST_PREFIX@.is_prefix_of(digest) && (error matches ArgError::BadDigest { digest: d }
                && d@ == digest)
        },
    }
}

/// Where the blocks of a streamed lower may be persisted: in the directory that
/// it names itself, else in the one at the same position, and nowhere where
/// that one is absent or empty.
pub open spec fn spec_cache_dir(spec: Seq<char>, dirs: Seq<Seq<u8>>, i: int) -> Option<Seq<u8>> {
    let own = spec_dir(spec);
    if own.len() > 0 {
        Some(encode_utf8(own))
    } else if i < dirs.len() && dirs[i].len() > 0 {
        Some(dirs[i])
    } else {
        None
    }
}

/// The streamed lower that a spec at position `i` stands for.
pub open spec fn spec_lower(spec: Seq<char>, dirs: Seq<Seq<u8>>, i: int) -> LowerView {
    LowerView::Remote {
        digest: spec_digest(spec),
        size: spec_size(spec)->0 as u64,
        cache_dir: spec_cache_dir(spec, dirs, i),
    }
}

/// Whether the directories pair with the streamed lowers: one for each, or none
/// at all.
pub open spec fn dirs_pair(specs: Seq<Seq<char>>, dirs: Seq<Seq<u8>>) -> bool {
    dirs.len() == 0 || dirs.len() == specs.len()
}

/// Whether `out` is what becomes of the arguments for streamed lowers.
pub open spec fn are_remote_lowers(
    specs: Seq<Seq<char>>,
    dirs: Seq<Seq<u8>>,
    out: Result<Seq<LowerView>, ArgError>,
) -> bool {
    match out {
        Ok(lowers) => {
            &&& dirs_pair(specs, dirs)
            &&& forall|i: int| 0 <= i < specs.len() ==> is_lower_spec(#[trigger] specs[i])
            &&& lowers == Seq::new(specs.len(), |i: int| spec_lower(specs[i], dirs, i))
        },
        Err(error) => if dirs_pair(specs, dirs) {
            exists|k: int|
                0 <= k < specs.len() && is_spec_error(error, #[trigger] specs[k]) && forall|i: int|
                    0 <= i < k ==> is_lower_spec(#[trigger] specs[i])
        } else {
            error == (ArgError::DirCount { dirs: dirs.len() as usize, lowers: specs.len() as usize })
        },
    }
}

/// What the lowers of an outcome say.
pub open spec fn viewed(out: Result<Vec<Lower>, ArgError>) -> Result<Seq<LowerView>, ArgError> {
    match out {
        Ok(lowers) => Ok(lower_views(lowers@)),
        Err(error) => Err(error),
    }
}

/// One streamed lower, without the directory at its position.
fn remote_lower(spec: &String) -> (lower: Result<(Lower, String), ArgError>)
    ensures
        match lower {
            Ok((l, dir)) => {
                &&& is_lower_spec(spec@)
                &&& l@ == (LowerView::Remote {
                    digest: spec_digest(spec@),
                    size: spec_size(spec@)->0 as u64,
                    cache_dir: None,
                })
                &&& dir@ == spec_dir(spec@)
            },
            Err(error) => is_spec_error(error, spec@),
        },
{
    let (digest, rest) = match text::split_once(spec.as_str(), '=') {
        Some(parts) => parts,
        None => {
            return Err(ArgError::NoSize { spec: spec.clone() });
        },
    };
    let (size, dir) = match text::split_once(rest.as_str(), '=') {
        Some(parts) => parts,
        None => (rest, String::new()),
    };
    let bytes = match text::parse_number(size.as_str(), 0xffff_ffff_ffff_ffff) {
        Some(bytes) => bytes,
        None => {
            return Err(ArgError::BadSize { spec: spec.clone(), size });
        },
    };
    match Lower::remote(digest.as_str(), bytes) {
        Ok(lower) => Ok((lower, dir)),
        Err(_) => Err(ArgError::BadDigest { digest }),
    }
}

/// Build the streamed lowers from `--remote-lower` and `--remote-lower-dir`.
///
/// A lower can name its cache directory itself, after its size. The other
/// directories pair positionally with the lowers, so the rule for them is all or
/// nothing: anything else silently attaches a cache directory to the wrong
/// layer.
pub fn remote_lowers(specs: &Vec<String>, dirs: &Vec<HostPath>) -> (out: Result<
    Vec<Lower>,
    ArgError,
>)
    ensures
        are_remote_lowers(texts(specs@), byte_names(dirs@), viewed(out)),
{
    if dirs.len() != 0 && dirs.len() != specs.len() {
        return Err(ArgError::DirCount { dirs: dirs.len(), lowers: specs.len() });
    }
    let ghost said = texts(specs@);
    let ghost named = byte_names(dirs@);
    let ghost expected = Seq::new(said.len(), |i: int| spec_lower(said[i], named, i));
    let mut lowers: Vec<Lower> = Vec::new();
    let mut i: usize = 0;
    assert(lower_views(lowers@) =~= expected.take(0));
    while i < specs.len()
        invariant
            i <= specs.len(),
            said == texts(specs@),
            named == byte_names(dirs@),
            dirs_pair(said, named),
            expected == Seq::new(said.len(), |i: int| spec_lower(said[i], named, i)),
            forall|j: int| 0 <= j < i ==> is_lower_spec(#[trigger] said[j]),
            lower_views(lowers@) == expected.take(i as int),
        decreases specs.len() - i,
    {
        let ghost before = lower_views(lowers@);
        assert(said[i as int] == specs@[i as int]@);
        let (lower, own) = match remote_lower(&specs[i]) {
            Ok(parts) => parts,
            Err(error) => {
                assert(is_spec_error(error, said[i as int]));
                return Err(error);
            },
        };
        // An absent or empty dir keeps that layer purely streamed, which is what
        // overlaybd does when the key is missing.
        let lower = if !own.as_str().is_empty() {
            lower.with_cache_dir(HostPath::new(own.as_str()))
        } else if i < dirs.len() && !dirs[i].is_empty() {
            lower.with_cache_dir(dirs[i].clone())
        } else {
            lower
        };
        assert(i < named.len() ==> named[i as int] == dirs@[i as int]@);
        assert(lower@ == expected[i as int]);
        lowers.push(lower);
        assert(lower_views(lowers@) =~= before.push(expected[i as int]));
        assert(lower_views(lowers@) =~= expected.take(i + 1));
        i += 1;
    }
    assert(expected.take(i as int) =~= expected);
    Ok(lowers)
}

/// What `obdctl config` is called with.
#[derive(Debug)]
pub struct ConfigArgs {
    pub result_file: HostPath,
    pub lowers: Vec<HostPath>,
    pub remote_lowers: Vec<String>,
    pub remote_lower_dirs: Vec<HostPath>,
    pub repo_blob_url: Option<String>,
    pub upper_data: Option<HostPath>,
    pub upper_index: Option<HostPath>,
}

/// Local files as lowers.
pub open spec fn file_lowers(paths: Seq<Seq<u8>>) -> Seq<LowerView> {
    Seq::new(paths.len(), |i: int| LowerView::File(paths[i]))
}

impl ConfigArgs {
    /// The config that the arguments ask for: the local lowers, then `remote`
    /// above them.
    pub open spec fn described(self, remote: Seq<LowerView>) -> DeviceConfigView {
        DeviceConfigView {
            lowers: file_lowers(byte_names(self.lowers@)) + remote,
            upper: match (self.upper_data, self.upper_index) {
                (Some(data), Some(index)) => Some((data@, index@)),
                _ => None,
            },
            result_file: self.result_file@,
            repo_blob_url: match self.repo_blob_url {
                Some(url) => Some(without_slashes(url@)),
                None => None,
            },
        }
    }
}

/// Build the config that the arguments ask for.
pub fn config(args: &ConfigArgs) -> (out: Result<DeviceConfig, ArgError>)
    ensures
        match out {
            Ok(config) => exists|remote: Seq<LowerView>|
                are_remote_lowers(
                    texts(args.remote_lowers@),
                    byte_names(args.remote_lower_dirs@),
                    Ok::<Seq<LowerView>, ArgError>(remote),
                ) && config@ == #[trigger] args.described(remote),
            Err(error) => are_remote_lowers(
                texts(args.remote_lowers@),
                byte_names(args.remote_lower_dirs@),
                Err::<Seq<LowerView>, ArgError>(error),
            ),
        },
{
    let mut config = DeviceConfig::new(args.result_file.clone());
    let ghost files = file_lowers(byte_names(args.lowers@));
    let mut i: usize = 0;
    assert(config@.lowers =~= files.take(0));
    while i < args.lowers.len()
        invariant
            i <= args.lowers.len(),
            files == file_lowers(byte_names(args.lowers@)),
            config@ == (DeviceConfigView {
                lowers: files.take(i as int),
                upper: None,
                result_file: args.result_file@,
                repo_blob_url: None,
            }),
        decreases args.lowers.len() - i,
    {
        let ghost before = config@.lowers;
        let file = Lower::file(args.lowers[i].clone());
        assert(file@ == files[i as int]);
        config = config.lower(file);
        assert(config@.lowers =~= files.take(i + 1));
        i += 1;
    }
    assert(files.take(i as int) =~= files);
    let remote = match remote_lowers(&args.remote_lowers, &args.remote_lower_dirs) {
        Ok(remote) => remote,
        Err(error) => {
            return Err(error);
        },
    };
    let ghost views = lower_views(remote@);
    config = config.lowers(remote);
    if let Some(url) = &args.repo_blob_url {
        config = config.repo_blob_url(url.as_str());
    }
    if let (Some(data), Some(index)) = (&args.upper_data, &args.upper_index) {
        config = config.upper(data.clone(), index.clone());
    }
    assert(config@ == args.described(views));
    Ok(config)
}

/// What was being done when writing a device config failed.
pub fn config_context(out: &HostPath) -> (context: String)
    ensures
        context@ == "writing the device config "@ + shown(out@),
{
    let out = out.display();
    "writing the device config ".to_owned().concat(out.as_str())
}

/// What was being done when creating a layer failed.
pub fn create_context(data: &HostPath, size_gb: u32) -> (context: String)
    ensures
        context@ == "creating a "@ + text::decimal(size_gb as nat) + "G sparse writable layer at "@
            + shown(data@),
{
    let size = text::decimal_text(size_gb as u64);
    let data = data.display();
    "creating a ".to_owned().concat(size.as_str()).concat("G sparse writable layer at ").concat(
        data.as_str(),
    )
}

/// What was being done when committing a layer failed.
pub fn commit_context(data: &HostPath, out: &HostPath) -> (context: String)
    ensures
        context@ == "committing "@ + shown(data@) + " into the read-only layer "@ + shown(out@),
{
    let data = data.display();
    let out = out.display();
    "committing ".to_owned().concat(data.as_str()).concat(" into the read-only layer ").concat(
        out.as_str(),
    )
}

/// What was being done when a cleanup failed.
pub const CLEANUP_CONTEXT: &'static str = "sweeping leftover overlaybd devices";

/// A cache directory stays with the lower that it was given next to, and an
/// empty one leaves that lower purely streamed.
pub proof fn law_a_cache_dir_stays_with_its_lower(
    specs: Seq<Seq<char>>,
    dirs: Seq<Seq<u8>>,
    lowers: Seq<LowerView>,
    i: int,
)
    requires
        are_remote_lowers(specs, dirs, Ok::<Seq<LowerView>, ArgError>(lowers)),
        0 <= i < specs.len(),
    ensures
        lowers.len() == specs.len(),
        lowers[i] matches LowerView::Remote { digest, cache_dir, .. } && digest == spec_digest(
            specs[i],
        ) && cache_dir == (if spec_dir(specs[i]).len() > 0 {
            Some(encode_utf8(spec_dir(specs[i])))
        } else if dirs.len() > 0 && dirs[i].len() > 0 {
            Some(dirs[i])
        } else {
            None
        }),
{
}

/// Why a command failed, and what it was doing.
#[derive(Debug)]
pub struct Failure {
    /// What it was doing, where there is more to say than the error does.
    pub context: Option<String>,
    pub error: Error,
}

impl Failure {
    /// Whether this is `error`, met while doing what `context` says.
    pub open spec fn tells(self, context: Option<Seq<char>>, error: Error) -> bool {
        &&& match (self.context, context) {
            (Some(ours), Some(context)) => ours@ == context,
            (None, None) => true,
            _ => false,
        }
        &&& self.error == error
    }
}

/// What `obdctl device up` is called with.
#[derive(Debug)]
pub struct UpArgs {
    pub name: String,
    pub config: HostPath,
    pub result_file: HostPath,
    pub naa_suffix: String,
    /// Mount here after launching.
    pub mount: Option<HostPath>,
    /// Mount read-only. Required when the device has no upper.
    pub read_only: bool,
    /// Create this subdirectory under the mount.
    pub subdir: Option<String>,
}

impl UpArgs {
    /// What is being done while the device launches.
    pub open spec fn launching(self) -> Seq<char> {
        "launching device "@ + self.name@ + " from "@ + shown(self.config@)
    }

    /// What is being done while the device is mounted.
    pub open spec fn mounting(self, mountpoint: HostPath) -> Seq<char> {
        "mounting device "@ + self.name@ + " at "@ + shown(mountpoint@)
    }

    /// How the device is mounted.
    pub open spec fn mode(self) -> Mode {
        if self.read_only {
            Mode::Ro
        } else {
            Mode::Rw
        }
    }

    fn launching_context(&self) -> (context: String)
        ensures
            context@ == self.launching(),
    {
        let config = self.config.display();
        "launching device ".to_owned().concat(self.name.as_str()).concat(" from ").concat(
            config.as_str(),
        )
    }

    fn mounting_context(&self, mountpoint: &HostPath) -> (context: String)
        ensures
            context@ == self.mounting(*mountpoint),
    {
        let place = mountpoint.display();
        "mounting device ".to_owned().concat(self.name.as_str()).concat(" at ").concat(
            place.as_str(),
        )
    }
}

/// A device that is being brought up; see [`device_up`].
#[derive(Debug)]
pub struct DeviceUp {
    pub args: UpArgs,
    pub platform: Platform,
    pub stage: UpStage,
}

#[derive(Debug)]
pub enum UpStage {
    Launch(Launch),
    Mount { mountpoint: HostPath, mounting: Mounting },
    Subdir { mounted: Mounted, creating: Subdir },
    /// The subdirectory could not be created, so the device is let go of.
    Release { release: Release, failure: Failure },
}

/// What bringing a device up asks of the host.
#[derive(Debug)]
pub enum UpOp {
    Launch(LaunchOp),
    Mount(MountOp),
    Subdir(SubdirOp),
    Release(UnmountOp),
}

#[derive(Debug)]
pub enum UpReply {
    Launch(LaunchReply),
    Mount(MountReply),
    Subdir(SubdirReply),
    Release(UnmountReply),
}

/// Launch a device and optionally mount it, then leave it running: a later
/// process does the work, and takes it back down.
pub fn device_up(args: UpArgs, platform: Platform) -> (up: Result<DeviceUp, Failure>)
    ensures
        match up {
            Ok(up) => {
                &&& DEV_PREFIX@.is_prefix_of(args.name@)
                &&& platform.linux
                &&& up.args == args
                &&& up.platform == platform
                &&& up.stage matches UpStage::Launch(launch) && launch.phase is ResultDir
                    && launch.device@ == (DeviceView {
                    name: args.name@,
                    config_path: args.config@,
                    result_path: args.result_file@,
                    naa: NAA_PREFIX@ + args.naa_suffix@,
                })
            },
            Err(failure) => if DEV_PREFIX@.is_prefix_of(args.name@) {
                !platform.linux && failure.tells(
                    Some(args.launching()),
                    Error::UnsupportedPlatform { os: platform.os },
                )
            } else {
                failure.context is None && is_bad_name(failure.error, args.name@)
            },
        },
{
    let made = Device::new(
        args.name.as_str(),
        args.config.clone(),
        args.result_file.clone(),
        args.naa_suffix.as_str(),
    );
    let device = match made {
        Ok(device) => device,
        Err(error) => {
            return Err(Failure { context: None, error });
        },
    };
    match device.up(platform) {
        Ok(launch) => Ok(DeviceUp { args, platform, stage: UpStage::Launch(launch) }),
        Err(error) => Err(Failure { context: Some(args.launching_context()), error }),
    }
}

impl DeviceUp {
    /// Whether `op` is what the host is asked for.
    pub open spec fn asks(self, op: UpOp) -> bool {
        match self.stage {
            UpStage::Launch(launch) => op matches UpOp::Launch(o) && launch.asks(o),
            UpStage::Mount { mounting, .. } => op matches UpOp::Mount(o) && mounting.asks(o),
            UpStage::Subdir { creating, .. } => op matches UpOp::Subdir(o) && creating.asks(o),
            UpStage::Release { release, .. } => op matches UpOp::Release(o) && release.asks(o),
        }
    }

    /// What to ask the host.
    pub fn op(&self) -> (op: UpOp)
        ensures
            self.asks(op),
    {
        match &self.stage {
            UpStage::Launch(launch) => UpOp::Launch(launch.op()),
            UpStage::Mount { mounting, .. } => UpOp::Mount(mounting.op()),
            UpStage::Subdir { creating, .. } => UpOp::Subdir(creating.op()),
            UpStage::Release { release, .. } => UpOp::Release(release.op()),
        }
    }

    /// Whether `progress` is a step to `stage`.
    pub open spec fn steps_to(
        self,
        progress: Progress<DeviceUp, Result<PersistedDevice, Failure>>,
        stage: UpStage,
    ) -> bool {
        progress == Progress::<DeviceUp, Result<PersistedDevice, Failure>>::Running(
            DeviceUp { stage, ..self },
        )
    }

    /// Whether `progress` is the end, with an error.
    pub open spec fn fails(
        self,
        progress: Progress<DeviceUp, Result<PersistedDevice, Failure>>,
        context: Option<Seq<char>>,
        error: Error,
    ) -> bool {
        progress matches Progress::Finished(Err(failure)) && failure.tells(context, error)
    }

    /// What follows a launch: the device is mounted where that is asked for, and
    /// left running otherwise.
    pub open spec fn after_launch(
        self,
        out: Result<Live, Error>,
        progress: Progress<DeviceUp, Result<PersistedDevice, Failure>>,
    ) -> bool {
        match out {
            Err(error) => self.fails(progress, Some(self.args.launching()), error),
            Ok(live) => match self.args.mount {
                None => progress matches Progress::Finished(Ok(persisted)) && persisted.describes(
                    live@,
                    None,
                ),
                Some(target) => if self.platform.linux {
                    &&& progress matches Progress::Running(next)
                    &&& next == DeviceUp { stage: next.stage, ..self }
                    &&& next.stage matches UpStage::Mount { mountpoint, mounting }
                    &&& mountpoint@ == target@
                    &&& mounting matches Mounting::CreateDir(request)
                    &&& request.live == live
                    &&& request.mountpoint@ == target@
                    &&& request.mode == self.args.mode()
                } else {
                    self.fails(
                        progress,
                        Some(self.args.mounting(target)),
                        Error::UnsupportedPlatform { os: self.platform.os },
                    )
                },
            },
        }
    }

    /// What follows a mount: the subdirectory is created where one is asked for,
    /// and the device is left running otherwise.
    pub open spec fn after_mount(
        self,
        mountpoint: HostPath,
        out: Result<Mounted, Error>,
        progress: Progress<DeviceUp, Result<PersistedDevice, Failure>>,
    ) -> bool {
        match out {
            Err(error) => self.fails(progress, Some(self.args.mounting(mountpoint)), error),
            Ok(mounted) => match self.args.subdir {
                None => progress matches Progress::Finished(Ok(persisted)) && persisted.describes(
                    mounted@.live,
                    Some(mounted@.mountpoint),
                ),
                Some(name) => {
                    &&& progress matches Progress::Running(next)
                    &&& next == DeviceUp { stage: next.stage, ..self }
                    &&& next.stage matches UpStage::Subdir { mounted: m, creating }
                    &&& m == mounted
                    &&& creating.name@ == name@
                    &&& creating.mountpoint@ == mounted@.mountpoint
                    &&& creating.phase is Probe
                },
            },
        }
    }

    /// What follows the creation of the subdirectory: the device is left running,
    /// or let go of where it failed.
    pub open spec fn after_subdir(
        self,
        mounted: Mounted,
        out: Result<(), Error>,
        progress: Progress<DeviceUp, Result<PersistedDevice, Failure>>,
    ) -> bool {
        match out {
            Err(error) => self.steps_to(
                progress,
                UpStage::Release {
                    release: Release::Close { mounted },
                    failure: Failure { context: None, error },
                },
            ),
            Ok(_) => progress matches Progress::Finished(Ok(persisted)) && persisted.describes(
                mounted@.live,
                Some(mounted@.mountpoint),
            ),
        }
    }

    /// Whether an answer leads to `progress`.
    pub open spec fn leads_to(
        self,
        reply: UpReply,
        progress: Progress<DeviceUp, Result<PersistedDevice, Failure>>,
    ) -> bool {
        match (self.stage, reply) {
            (UpStage::Launch(launch), UpReply::Launch(reply)) => if launch.ends(reply) {
                exists|out: Result<Live, Error>| #[trigger]
                    launch.outcome(reply, out) && self.after_launch(out, progress)
            } else {
                exists|phase: LaunchPhase| #[trigger]
                    launch.phase_after(reply, phase) && self.steps_to(
                        progress,
                        UpStage::Launch(Launch { phase, ..launch }),
                    )
            },
            (UpStage::Mount { mountpoint, mounting }, UpReply::Mount(reply)) => if mounting.ends(
                reply,
            ) {
                exists|out: Result<Mounted, Error>| #[trigger]
                    mounting.outcome(out) && self.after_mount(mountpoint, out, progress)
            } else {
                exists|next: Mounting| #[trigger]
                    mounting.leads_to(reply, next) && self.steps_to(
                        progress,
                        UpStage::Mount { mountpoint, mounting: next },
                    )
            },
            (UpStage::Subdir { mounted, creating }, UpReply::Subdir(reply)) => if creating.ends(
                reply,
            ) {
                exists|out: Result<(), Error>| #[trigger]
                    creating.outcome(reply, out) && self.after_subdir(mounted, out, progress)
            } else {
                self.steps_to(
                    progress,
                    UpStage::Subdir {
                        mounted,
                        creating: Subdir { phase: creating.phase_after(reply), ..creating },
                    },
                )
            },
            (UpStage::Release { release, failure }, UpReply::Release(reply)) => if release.ends(
                reply,
            ) {
                progress == Progress::<DeviceUp, Result<PersistedDevice, Failure>>::Finished(
                    Err(failure),
                )
            } else {
                exists|next: Release| #[trigger]
                    release.leads_to(reply, next) && self.steps_to(
                        progress,
                        UpStage::Release { release: next, failure },
                    )
            },
            _ => self.steps_to(progress, self.stage),
        }
    }

    /// Take the host's answer.
    pub fn resume(self, reply: UpReply) -> (progress: Progress<
        DeviceUp,
        Result<PersistedDevice, Failure>,
    >)
        ensures
            self.leads_to(reply, progress),
    {
        let args = self.args;
        let platform = self.platform;
        let stage = match (self.stage, reply) {
            (UpStage::Launch(launch), UpReply::Launch(reply)) => match launch.resume(reply) {
                Progress::Running(next) => {
                    assert(launch.phase_after(reply, next.phase));
                    UpStage::Launch(next)
                },
                Progress::Finished(out) => {
                    assert(launch.outcome(reply, out));
                    return DeviceUp::launched(args, platform, out);
                },
            },
            (UpStage::Mount { mountpoint, mounting }, UpReply::Mount(reply)) => {
                match mounting.resume(reply) {
                    Progress::Running(next) => {
                        assert(mounting.leads_to(reply, next));
                        UpStage::Mount { mountpoint, mounting: next }
                    },
                    Progress::Finished(out) => {
                        assert(mounting.outcome(out));
                        return DeviceUp::mounted(args, platform, mountpoint, out);
                    },
                }
            },
            (UpStage::Subdir { mounted, creating }, UpReply::Subdir(reply)) => {
                match creating.resume(reply) {
                    Progress::Running(creating) => UpStage::Subdir { mounted, creating },
                    Progress::Finished(out) => {
                        assert(creating.outcome(reply, out));
                        match out {
                            Ok(()) => {
                                return Progress::Finished(Ok(mounted.persist()));
                            },
                            Err(error) => UpStage::Release {
                                release: mounted.release(),
                                failure: Failure { context: None, error },
                            },
                        }
                    },
                }
            },
            (UpStage::Release { release, failure }, UpReply::Release(reply)) => {
                match release.resume(reply) {
                    Progress::Running(next) => {
                        assert(release.leads_to(reply, next));
                        UpStage::Release { release: next, failure }
                    },
                    Progress::Finished(()) => {
                        return Progress::Finished(Err(failure));
                    },
                }
            },
            (stage, _) => stage,
        };
        Progress::Running(DeviceUp { args, platform, stage })
    }

    fn launched(args: UpArgs, platform: Platform, out: Result<Live, Error>) -> (progress: Progress<
        DeviceUp,
        Result<PersistedDevice, Failure>,
    >)
        ensures
            forall|stage: UpStage| #[trigger]
                (DeviceUp { args, platform, stage }).after_launch(out, progress),
    {
        let live = match out {
            Ok(live) => live,
            Err(error) => {
                let context = Some(args.launching_context());
                return Progress::Finished(Err(Failure { context, error }));
            },
        };
        let mountpoint = match &args.mount {
            Some(mountpoint) => mountpoint.clone(),
            None => {
                return Progress::Finished(Ok(live.persist()));
            },
        };
        let mode = if args.read_only {
            Mode::Ro
        } else {
            Mode::Rw
        };
        match live.mount(mountpoint.clone(), mode, platform) {
            Ok(mounting) => Progress::Running(
                DeviceUp { args, platform, stage: UpStage::Mount { mountpoint, mounting } },
            ),
            Err(error) => {
                let context = Some(args.mounting_context(&mountpoint));
                Progress::Finished(Err(Failure { context, error }))
            },
        }
    }

    fn mounted(
        args: UpArgs,
        platform: Platform,
        mountpoint: HostPath,
        out: Result<Mounted, Error>,
    ) -> (progress: Progress<DeviceUp, Result<PersistedDevice, Failure>>)
        ensures
            forall|stage: UpStage| #[trigger]
                (DeviceUp { args, platform, stage }).after_mount(mountpoint, out, progress),
    {
        let mounted = match out {
            Ok(mounted) => mounted,
            Err(error) => {
                let context = Some(args.mounting_context(&mountpoint));
                return Progress::Finished(Err(Failure { context, error }));
            },
        };
        let creating = match &args.subdir {
            Some(name) => mounted.create_subdir(name.as_str()),
            None => {
                return Progress::Finished(Ok(mounted.persist()));
            },
        };
        Progress::Running(DeviceUp { args, platform, stage: UpStage::Subdir { mounted, creating } })
    }
}

/// What is left to do about a device whose owner is gone before it was up.
#[derive(Debug)]
pub enum Abandoned {
    /// It was not live yet.
    Nothing,
    Teardown(Teardown),
    Release(Release),
}

/// What is said where a device goes down because its owner is gone.
pub const DROP_WARNING: &'static str = "taking an overlaybd device down from Drop";

impl Abandoned {
    /// What to warn of: a device that goes down without anyone having asked.
    pub fn warning(&self) -> (warning: Option<&'static str>)
        ensures
            match warning {
                Some(warning) => !(self is Nothing) && warning@ == DROP_WARNING@,
                None => self is Nothing,
            },
    {
        match self {
            Abandoned::Nothing => None,
            _ => Some(DROP_WARNING),
        }
    }
}

impl DeviceUp {
    /// Whether `abandoned` cleans up after the device: a live one is taken down,
    /// all of it, and a mounted one is unmounted before that. What is being
    /// cleaned up already goes on.
    pub open spec fn cleans_up(self, abandoned: Abandoned) -> bool {
        match self.stage {
            UpStage::Launch(launch) => match launch.phase {
                LaunchPhase::Teardown { teardown, .. } => abandoned == Abandoned::Teardown(
                    teardown,
                ),
                _ => abandoned is Nothing,
            },
            UpStage::Mount { mounting, .. } => match mounting {
                Mounting::CreateDir(request) => abandoned matches Abandoned::Teardown(teardown)
                    && teardown.is_at(request.live@.plan()),
                Mounting::Mount(request) => abandoned matches Abandoned::Teardown(teardown)
                    && teardown.is_at(request.live@.plan()),
                Mounting::Open(request) => abandoned matches Abandoned::Teardown(teardown)
                    && teardown.is_at(request.live@.plan()),
                Mounting::Teardown { teardown, .. } => abandoned == Abandoned::Teardown(teardown),
            },
            UpStage::Subdir { mounted, .. } => abandoned == Abandoned::Release(
                Release::Close { mounted },
            ),
            UpStage::Release { release, .. } => abandoned == Abandoned::Release(release),
        }
    }

    /// Give up on bringing the device up, wherever it stands: leftover configfs
    /// entries otherwise need manual surgery.
    pub fn abandon(self) -> (abandoned: Abandoned)
        ensures
            self.cleans_up(abandoned),
    {
        match self.stage {
            UpStage::Launch(launch) => match launch.phase {
                LaunchPhase::Teardown { teardown, .. } => Abandoned::Teardown(teardown),
                _ => Abandoned::Nothing,
            },
            UpStage::Mount { mounting, .. } => Abandoned::Teardown(
                match mounting {
                    Mounting::CreateDir(request) => request.live.down(),
                    Mounting::Mount(request) => request.live.down(),
                    Mounting::Open(request) => request.live.down(),
                    Mounting::Teardown { teardown, .. } => teardown,
                },
            ),
            UpStage::Subdir { mounted, .. } => Abandoned::Release(mounted.release()),
            UpStage::Release { release, .. } => Abandoned::Release(release),
        }
    }
}

/// What `obdctl device down` is called with.
#[derive(Debug)]
pub struct DownArgs {
    pub name: String,
    pub naa_suffix: String,
    /// Unmount this path first.
    pub mount: Option<HostPath>,
}

/// A device that is being taken down; see [`device_down`].
#[derive(Debug)]
pub struct DeviceDown {
    pub name: String,
    pub naa_suffix: String,
    pub stage: DownStage,
}

#[derive(Debug)]
pub enum DownStage {
    Unmount(PathUnmount),
    Teardown { unmounted: bool, teardown: NamedTeardown },
}

/// What taking a device down asks of the host.
#[derive(Debug)]
pub enum DownOp {
    Unmount(PathOp),
    Teardown(NamedOp),
}

#[derive(Debug)]
pub enum DownReply {
    Unmount(PathReply),
    Teardown(NamedReply),
}

/// Unmount a device where its mount is given, then tear it down: a mounted
/// device cannot be torn down. Only this device goes away. The outcome is
/// whether anything was unmounted.
pub fn device_down(args: DownArgs, platform: Platform) -> (down: Progress<
    DeviceDown,
    Result<bool, Failure>,
>)
    ensures
        match args.mount {
            Some(mountpoint) if platform.linux => {
                &&& down matches Progress::Running(d)
                &&& d.name == args.name
                &&& d.naa_suffix == args.naa_suffix
                &&& d.stage == DownStage::Unmount(
                    PathUnmount { target: mountpoint, phase: PathPhase::Probe },
                )
            },
            _ => DeviceDown::is_next(args.name, args.naa_suffix, false, down),
        },
{
    let name = args.name;
    let naa_suffix = args.naa_suffix;
    let unmounted = match args.mount {
        Some(mountpoint) => match unmount_path(mountpoint, platform) {
            Progress::Running(unmounting) => {
                return Progress::Running(
                    DeviceDown { name, naa_suffix, stage: DownStage::Unmount(unmounting) },
                );
            },
            Progress::Finished(unmounted) => unmounted,
        },
        None => false,
    };
    DeviceDown::go_on(name, naa_suffix, unmounted)
}

impl DeviceDown {
    /// Whether `progress` goes on with the teardown, or ends because the name is
    /// not one of a device.
    pub open spec fn is_next(
        name: String,
        naa_suffix: String,
        unmounted: bool,
        progress: Progress<DeviceDown, Result<bool, Failure>>,
    ) -> bool {
        if DEV_PREFIX@.is_prefix_of(name@) {
            &&& progress matches Progress::Running(next)
            &&& next.name == name
            &&& next.naa_suffix == naa_suffix
            &&& next.stage matches DownStage::Teardown { unmounted: u, teardown }
            &&& u == unmounted
            &&& teardown.begins(name@, naa_suffix@)
        } else {
            &&& progress matches Progress::Finished(Err(failure))
            &&& failure.context matches Some(context) && context@ == "tearing down device "@
                + name@
            &&& is_bad_name(failure.error, name@)
        }
    }

    fn go_on(name: String, naa_suffix: String, unmounted: bool) -> (progress: Progress<
        DeviceDown,
        Result<bool, Failure>,
    >)
        ensures
            DeviceDown::is_next(name, naa_suffix, unmounted, progress),
    {
        match teardown_named(name.as_str(), naa_suffix.as_str()) {
            Ok(teardown) => Progress::Running(
                DeviceDown { name, naa_suffix, stage: DownStage::Teardown { unmounted, teardown } },
            ),
            Err(error) => {
                let context = Some("tearing down device ".to_owned().concat(name.as_str()));
                Progress::Finished(Err(Failure { context, error }))
            },
        }
    }

    /// Whether `op` is what the host is asked for.
    pub open spec fn asks(self, op: DownOp) -> bool {
        match self.stage {
            DownStage::Unmount(unmounting) => op matches DownOp::Unmount(o) && unmounting.asks(o),
            DownStage::Teardown { teardown, .. } => op matches DownOp::Teardown(o)
                && teardown.asks(o),
        }
    }

    /// What to ask the host.
    pub fn op(&self) -> (op: DownOp)
        ensures
            self.asks(op),
    {
        match &self.stage {
            DownStage::Unmount(unmounting) => DownOp::Unmount(unmounting.op()),
            DownStage::Teardown { teardown, .. } => DownOp::Teardown(teardown.op()),
        }
    }

    /// Whether an answer leads to `progress`.
    pub open spec fn leads_to(
        self,
        reply: DownReply,
        progress: Progress<DeviceDown, Result<bool, Failure>>,
    ) -> bool {
        match (self.stage, reply) {
            (
                DownStage::Unmount(unmounting),
                DownReply::Unmount(reply),
            ) => match unmounting.after(reply) {
                Progress::Running(next) => progress == Progress::<
                    DeviceDown,
                    Result<bool, Failure>,
                >::Running(DeviceDown { stage: DownStage::Unmount(next), ..self }),
                Progress::Finished(unmounted) => DeviceDown::is_next(
                    self.name,
                    self.naa_suffix,
                    unmounted,
                    progress,
                ),
            },
            (
                DownStage::Teardown { unmounted, teardown },
                DownReply::Teardown(reply),
            ) => if teardown.ends(reply) {
                progress == Progress::<DeviceDown, Result<bool, Failure>>::Finished(Ok(unmounted))
            } else {
                &&& progress matches Progress::Running(next)
                &&& next == DeviceDown { stage: next.stage, ..self }
                &&& next.stage matches DownStage::Teardown { unmounted: u, teardown: t }
                &&& u == unmounted
                &&& teardown.leads_to(reply, t)
            },
            _ => progress == Progress::<DeviceDown, Result<bool, Failure>>::Running(self),
        }
    }

    /// Take the host's answer.
    pub fn resume(self, reply: DownReply) -> (progress: Progress<DeviceDown, Result<bool, Failure>>)
        ensures
            self.leads_to(reply, progress),
    {
        let name = self.name;
        let naa_suffix = self.naa_suffix;
        let stage = match (self.stage, reply) {
            (
                DownStage::Unmount(unmounting),
                DownReply::Unmount(reply),
            ) => match unmounting.resume(reply) {
                Progress::Running(unmounting) => DownStage::Unmount(unmounting),
                Progress::Finished(unmounted) => {
                    return DeviceDown::go_on(name, naa_suffix, unmounted);
                },
            },
            (
                DownStage::Teardown { unmounted, teardown },
                DownReply::Teardown(reply),
            ) => match teardown.resume(reply) {
                Progress::Running(teardown) => DownStage::Teardown { unmounted, teardown },
                Progress::Finished(()) => {
                    return Progress::Finished(Ok(unmounted));
                },
            },
            (stage, _) => stage,
        };
        Progress::Running(DeviceDown { name, naa_suffix, stage })
    }
}

/// Whether bringing a device up went through `states`, one answer after the
/// other.
pub open spec fn is_rise(states: Seq<DeviceUp>, replies: Seq<UpReply>) -> bool {
    &&& states.len() == replies.len() + 1
    &&& states[0].platform.linux
    &&& states[0].stage matches UpStage::Launch(launch) && launch.phase is ResultDir
    &&& forall|i: int| 0 <= i < replies.len() ==> #[trigger] rose_on(states, replies, i)
}

/// Whether the answer at `i` did not end it, but led on.
pub open spec fn rose_on(states: Seq<DeviceUp>, replies: Seq<UpReply>, i: int) -> bool {
    states[i].leads_to(
        replies[i],
        Progress::<DeviceUp, Result<PersistedDevice, Failure>>::Running(states[i + 1]),
    )
}

impl DeviceUp {
    /// Whether the device is already on its way down again.
    pub open spec fn is_sinking(self) -> bool {
        match self.stage {
            UpStage::Launch(launch) => launch.phase is Log || launch.phase is Teardown,
            UpStage::Mount { mounting, .. } => mounting is Teardown,
            UpStage::Subdir { .. } => false,
            UpStage::Release { .. } => true,
        }
    }
}

proof fn lemma_sinking_goes_on(
    up: DeviceUp,
    reply: UpReply,
    progress: Progress<DeviceUp, Result<PersistedDevice, Failure>>,
)
    requires
        up.is_sinking(),
        up.leads_to(reply, progress),
    ensures
        progress matches Progress::Running(next) ==> next.is_sinking(),
        progress matches Progress::Finished(out) ==> out is Err,
{
}

proof fn lemma_sinking_to_the_end(states: Seq<DeviceUp>, replies: Seq<UpReply>, k: int)
    requires
        is_rise(states, replies),
        0 <= k < states.len(),
        states[k].is_sinking(),
    ensures
        states.last().is_sinking(),
    decreases states.len() - k,
{
    if k < replies.len() {
        assert(rose_on(states, replies, k));
        lemma_sinking_goes_on(
            states[k],
            replies[k],
            Progress::<DeviceUp, Result<PersistedDevice, Failure>>::Running(states[k + 1]),
        );
        lemma_sinking_to_the_end(states, replies, k + 1);
    }
}

/// A device that was brought up is left running: where it ends well, the host
/// was never asked to unmount it or to take it down.
pub proof fn law_a_device_brought_up_is_left_running(
    states: Seq<DeviceUp>,
    replies: Seq<UpReply>,
    last: UpReply,
    persisted: PersistedDevice,
    k: int,
    op: UpOp,
)
    requires
        is_rise(states, replies),
        states.last().leads_to(
            last,
            Progress::<DeviceUp, Result<PersistedDevice, Failure>>::Finished(Ok(persisted)),
        ),
        0 <= k < states.len(),
        states[k].asks(op),
    ensures
        !(op is Release),
        op matches UpOp::Launch(launch) ==> !(launch is Teardown),
        op matches UpOp::Mount(mount) ==> !(mount is Teardown),
{
    if states[k].is_sinking() {
        lemma_sinking_to_the_end(states, replies, k);
        lemma_sinking_goes_on(
            states.last(),
            last,
            Progress::<DeviceUp, Result<PersistedDevice, Failure>>::Finished(Ok(persisted)),
        );
    }
}

/// The teardowns that the states hold of a device that was live.
pub open spec fn up_teardowns(states: Seq<DeviceUp>) -> Seq<Option<Teardown>> {
    Seq::new(
        states.len(),
        |i: int|
            match states[i].stage {
                UpStage::Mount { mounting: Mounting::Teardown { teardown, .. }, .. } => Some(
                    teardown,
                ),
                UpStage::Release { release: Release::Teardown(teardown), .. } => Some(teardown),
                _ => None,
            },
    )
}

/// Whether answer `i` ended the launch with a live device.
pub open spec fn was_launched(
    states: Seq<DeviceUp>,
    replies: Seq<UpReply>,
    i: int,
    live: Live,
) -> bool {
    &&& 0 <= i < replies.len()
    &&& states[i].stage matches UpStage::Launch(launch)
    &&& replies[i] matches UpReply::Launch(reply)
    &&& launch.ends(reply)
    &&& launch.outcome(reply, Ok::<Live, Error>(live))
}

/// Whether state `k` is about the device that was launched, and takes down all
/// of it where it takes anything down.
pub open spec fn is_about(states: Seq<DeviceUp>, k: int, live: LiveView) -> bool {
    let takes_it_down = takes_down(live.plan(), up_teardowns(states), k);
    match states[k].stage {
        UpStage::Launch(_) => false,
        UpStage::Mount { mounting, .. } => match mounting {
            Mounting::CreateDir(request) => request.live@ == live,
            Mounting::Mount(request) => request.live@ == live,
            Mounting::Open(request) => request.live@ == live,
            Mounting::Teardown { .. } => takes_it_down,
        },
        UpStage::Subdir { mounted, .. } => mounted@.live == live,
        UpStage::Release { release, .. } => match release {
            Release::Close { mounted } => mounted@.live == live,
            Release::Sync { mounted } => mounted@.live == live,
            Release::Try { mounted, .. } => mounted@.live == live,
            Release::Pause { mounted, .. } => mounted@.live == live,
            Release::Teardown(_) => takes_it_down,
        },
    }
}

/// Whether a device was launched, and state `k` is about it.
pub open spec fn holds_a_launched_device(
    states: Seq<DeviceUp>,
    replies: Seq<UpReply>,
    k: int,
) -> bool {
    exists|i: int, live: Live| #[trigger]
        was_launched(states, replies, i, live) && is_about(states, k, live@)
}

proof fn lemma_rise_stays_about(
    states: Seq<DeviceUp>,
    replies: Seq<UpReply>,
    k: int,
    live: LiveView,
)
    requires
        is_rise(states, replies),
        0 <= k < replies.len(),
        is_about(states, k, live),
    ensures
        is_about(states, k + 1, live),
{
    assert(rose_on(states, replies, k));
    let seen = up_teardowns(states);
    let next = states[k + 1];
    match (states[k].stage, replies[k]) {
        (UpStage::Mount { mounting, .. }, UpReply::Mount(reply)) => {
            if !mounting.ends(reply) {
                let after = next.stage->Mount_mounting;
                assert(mounting.leads_to(reply, after));
                if mounting is Teardown {
                    if reply is Teardown {
                        assert(seen[k]->Some_0.leads_to(reply->Teardown_0, seen[k + 1]->Some_0));
                    }
                    lemma_teardown_goes_on(live.plan(), seen, k);
                } else if after is Teardown {
                    lemma_teardown_begins(live.plan(), seen, k + 1);
                }
            }
        },
        (UpStage::Release { release, .. }, UpReply::Release(reply)) => {
            let after = next.stage->Release_release;
            assert(release.leads_to(reply, after));
            if release is Teardown {
                if reply is Teardown {
                    assert(seen[k]->Some_0.leads_to(reply->Teardown_0, seen[k + 1]->Some_0));
                }
                lemma_teardown_goes_on(live.plan(), seen, k);
            } else if after is Teardown {
                lemma_teardown_begins(live.plan(), seen, k + 1);
            }
        },
        (UpStage::Subdir { .. }, UpReply::Subdir(_)) => {},
        _ => {
            assert(next.stage == states[k].stage);
            if seen[k] is Some {
                lemma_teardown_goes_on(live.plan(), seen, k);
            }
        },
    }
}

proof fn lemma_rise_evidence(states: Seq<DeviceUp>, replies: Seq<UpReply>, k: int)
    requires
        is_rise(states, replies),
        0 <= k < states.len(),
    ensures
        states[k].platform.linux,
        !(states[k].stage is Launch) ==> holds_a_launched_device(states, replies, k),
    decreases k,
{
    if k > 0 {
        let prior = k - 1;
        lemma_rise_evidence(states, replies, prior);
        assert(rose_on(states, replies, prior));
        if states[prior].stage is Launch {
            if !(states[k].stage is Launch) {
                let launch = states[prior].stage->Launch_0;
                let reply = replies[prior]->Launch_0;
                let out = choose|out: Result<Live, Error>| #[trigger]
                    launch.outcome(reply, out) && states[prior].after_launch(
                        out,
                        Progress::<DeviceUp, Result<PersistedDevice, Failure>>::Running(states[k]),
                    );
                assert(was_launched(states, replies, prior, out->Ok_0));
                assert(is_about(states, k, out->Ok_0@));
            }
        } else {
            let (i, live) = choose|i: int, live: Live| #[trigger]
                was_launched(states, replies, i, live) && is_about(states, prior, live@);
            lemma_rise_stays_about(states, replies, prior, live@);
            assert(was_launched(states, replies, i, live) && is_about(states, k, live@));
        }
    }
}

/// Whether answer `last` ended a teardown.
pub open spec fn ended_a_teardown(up: DeviceUp, last: UpReply) -> bool {
    match (up.stage, last) {
        (
            UpStage::Mount { mounting: Mounting::Teardown { teardown, .. }, .. },
            UpReply::Mount(MountReply::Teardown(reply)),
        ) => teardown.ends(reply),
        (
            UpStage::Release { release: Release::Teardown(teardown), .. },
            UpReply::Release(UnmountReply::Teardown(reply)),
        ) => teardown.ends(reply),
        _ => false,
    }
}

/// A device that was live is not left behind by a failure: there is an error only
/// after all of the device was taken down.
pub proof fn law_a_failure_leaves_no_live_device_behind(
    states: Seq<DeviceUp>,
    replies: Seq<UpReply>,
    last: UpReply,
    failure: Failure,
)
    requires
        is_rise(states, replies),
        states.last().leads_to(
            last,
            Progress::<DeviceUp, Result<PersistedDevice, Failure>>::Finished(Err(failure)),
        ),
        !(states.last().stage is Launch),
    ensures
        exists|i: int, live: Live| #[trigger]
            was_launched(states, replies, i, live) && takes_down(
                live@.plan(),
                up_teardowns(states),
                states.len() - 1,
            ),
        ended_a_teardown(states.last(), last),
{
    let end = states.len() - 1;
    lemma_rise_evidence(states, replies, end);
    let (i, live) = choose|i: int, live: Live| #[trigger]
        was_launched(states, replies, i, live) && is_about(states, end, live@);
    assert(was_launched(states, replies, i, live));
    assert(takes_down(live@.plan(), up_teardowns(states), end));
}

/// Whether taking a device down went through `states`, one answer after the
/// other.
pub open spec fn is_descent(states: Seq<DeviceDown>, replies: Seq<DownReply>) -> bool {
    &&& states.len() == replies.len() + 1
    &&& forall|i: int| 0 <= i < replies.len() ==> #[trigger] went_down_on(states, replies, i)
}

/// Whether the answer at `i` did not end it, but led on.
pub open spec fn went_down_on(states: Seq<DeviceDown>, replies: Seq<DownReply>, i: int) -> bool {
    states[i].leads_to(
        replies[i],
        Progress::<DeviceDown, Result<bool, Failure>>::Running(states[i + 1]),
    )
}

/// Whether the mount was done with by answer `i`, and the teardown of the device
/// began.
pub open spec fn mount_was_done_with(
    states: Seq<DeviceDown>,
    replies: Seq<DownReply>,
    i: int,
) -> bool {
    &&& 0 <= i < replies.len()
    &&& states[i].stage matches DownStage::Unmount(unmounting)
    &&& replies[i] matches DownReply::Unmount(reply)
    &&& unmounting.after(reply) is Finished
    &&& states[i + 1].stage matches DownStage::Teardown { teardown, .. }
    &&& teardown.begins(states[0].name@, states[0].naa_suffix@)
}

/// A mounted device cannot be torn down, so the mount goes first: where a
/// mountpoint is given, the device is torn down only once the mount was done
/// with. Only the device with that name is torn down.
pub proof fn law_a_mount_goes_before_its_device(
    states: Seq<DeviceDown>,
    replies: Seq<DownReply>,
    k: int,
)
    requires
        is_descent(states, replies),
        states[0].stage is Unmount,
        0 <= k < states.len(),
    ensures
        states[k].name == states[0].name,
        states[k].naa_suffix == states[0].naa_suffix,
        states[k].stage matches DownStage::Teardown { teardown, .. } ==> {
            &&& teardown.name@ == states[0].name@
            &&& teardown.naa@ == NAA_PREFIX@ + states[0].naa_suffix@
            &&& exists|i: int| i < k && #[trigger] mount_was_done_with(states, replies, i)
        },
    decreases k,
{
    if k > 0 {
        let prior = k - 1;
        law_a_mount_goes_before_its_device(states, replies, prior);
        assert(went_down_on(states, replies, prior));
        if states[k].stage is Teardown {
            if states[prior].stage is Teardown {
                let i = choose|i: int|
                    i < prior && #[trigger] mount_was_done_with(states, replies, i);
                assert(mount_was_done_with(states, replies, i));
            } else {
                assert(mount_was_done_with(states, replies, prior));
            }
        }
    }
}

/// A streamed lower is read as it is spelled: the digest and the size that were
/// written around the first equals sign, and the directory that was written
/// behind a second one or given at the same position, are the lower's own. It is
/// refused only for its digest.
pub proof fn law_a_streamed_lower_is_read_as_it_is_spelled(
    specs: Seq<Seq<char>>,
    dirs: Seq<Seq<u8>>,
    out: Result<Seq<LowerView>, ArgError>,
    i: int,
    digest: Seq<char>,
    size: u64,
    dir: Seq<char>,
)
    requires
        are_remote_lowers(specs, dirs, out),
        0 <= i < specs.len(),
        !digest.contains('='),
        specs[i] == digest + seq!['='] + text::decimal(size as nat) + (if dir.len() == 0 {
            Seq::<char>::empty()
        } else {
            seq!['='] + dir
        }),
    ensures
        match out {
            Ok(lowers) => {
                &&& digest.len() >= 7 && digest.take(7) == "sha256:"@
                &&& lowers.len() == specs.len()
                &&& lowers[i] == (LowerView::Remote {
                    digest,
                    size,
                    cache_dir: if dir.len() > 0 {
                        Some(encode_utf8(dir))
                    } else if dirs.len() > 0 && dirs[i].len() > 0 {
                        Some(dirs[i])
                    } else {
                        None
                    },
                })
            },
            Err(error) => is_spec_error(error, specs[i]) ==> (digest.len() < 7 || digest.take(7)
                != "sha256:"@) && (error matches ArgError::BadDigest { digest: d } && d@ == digest),
        },
{
    let spec = specs[i];
    let number = text::decimal(size as nat);
    let tail = if dir.len() == 0 {
        Seq::<char>::empty()
    } else {
        seq!['='] + dir
    };
    let rest = number + tail;
    assert(spec =~= digest + seq!['='] + rest);
    assert forall|j: int| 0 <= j < digest.len() implies spec[j] != '=' by {
        assert(spec[j] == digest[j]);
        assert(digest.contains(digest[j]));
    }
    text::lemma_cut_once_at(spec, '=', digest.len() as int);
    assert(spec.take(digest.len() as int) =~= digest);
    assert(spec.skip(digest.len() as int + 1) =~= rest);
    text::law_decimal_is_written_in_digits(size as nat);
    text::law_decimal_reads_back(size as nat, u64::MAX as nat);
    assert forall|j: int| 0 <= j < number.len() implies rest[j] != '=' by {
        assert(rest[j] == number[j]);
        assert('0' <= number[j] <= '9');
    }
    if dir.len() == 0 {
        assert(rest =~= number);
        text::lemma_cut_once(rest, '=');
        if text::cut_once(rest, '=') is Some {
            let head = text::cut_once(rest, '=')->Some_0.0;
            assert(rest[head.len() as int] == '=');
        }
        assert(spec_dir(spec) =~= dir);
    } else {
        text::lemma_cut_once_at(rest, '=', number.len() as int);
        assert(rest.take(number.len() as int) =~= number);
        assert(rest.skip(number.len() as int + 1) =~= dir);
    }
    reveal_strlit("sha256:");
    if digest.len() >= 7 {
        assert(digest.take(7) =~= digest.subrange(0, 7));
    }
}

/// The arguments for streamed lowers are refused where the directories do not
/// pair with them, which names both counts, and else only for a lower that is
/// spelled wrong.
pub proof fn law_streamed_lowers_are_refused_for_a_reason(
    specs: Seq<Seq<char>>,
    dirs: Seq<Seq<u8>>,
    out: Result<Seq<LowerView>, ArgError>,
)
    requires
        are_remote_lowers(specs, dirs, out),
        specs.len() <= usize::MAX,
        dirs.len() <= usize::MAX,
    ensures
        out is Ok ==> dirs.len() == 0 || dirs.len() == specs.len(),
        out matches Err(ArgError::DirCount { dirs: d, lowers }) ==> d == dirs.len() && lowers
            == specs.len() && dirs.len() != 0 && dirs.len() != specs.len(),
        out matches Err(ArgError::NoSize { spec }) ==> specs.contains(spec@) && !spec@.contains('='),
        out matches Err(ArgError::BadSize { spec, size }) ==> specs.contains(spec@)
            && text::parsed_number(size@, u64::MAX as nat) is None,
        out matches Err(ArgError::BadDigest { digest }) ==> !"sha256:"@.is_prefix_of(digest@),
{
    if out is Err && dirs_pair(specs, dirs) {
        let error = out->Err_0;
        let k = choose|k: int|
            0 <= k < specs.len() && is_spec_error(error, #[trigger] specs[k]) && forall|i: int|
                0 <= i < k ==> is_lower_spec(#[trigger] specs[i]);
        assert(specs.contains(specs[k]));
        text::lemma_cut_once(specs[k], '=');
    }
}

/// A config holds what its arguments say: the local lowers in order, the
/// streamed ones in order above them, both files of the writable layer or
/// neither, the result file and the base URL.
pub proof fn law_a_config_holds_what_its_arguments_say(
    args: ConfigArgs,
    remote: Seq<LowerView>,
    i: int,
)
    ensures
        ({
            let config = args.described(remote);
            let files = args.lowers@.len();
            &&& config.lowers.len() == files + remote.len()
            &&& 0 <= i < files ==> config.lowers[i] == LowerView::File(args.lowers@[i]@)
            &&& 0 <= i < remote.len() ==> config.lowers[files + i] == remote[i]
            &&& config.result_file == args.result_file@
            &&& match (args.upper_data, args.upper_index) {
                (Some(data), Some(index)) => config.upper == Some((data@, index@)),
                _ => config.upper is None,
            }
            &&& match args.repo_blob_url {
                Some(url) => config.repo_blob_url == Some(without_slashes(url@)),
                None => config.repo_blob_url is None,
            }
        }),
{
}

/// Whether a stage is about `device`, mounted as the arguments ask for.
spec fn is_asked_for(up: DeviceUp, args: UpArgs, device: DeviceView) -> bool {
    &&& up.args == args
    &&& match up.stage {
        UpStage::Launch(launch) => launch.device@ == device,
        UpStage::Mount { mountpoint, mounting } => {
            &&& args.mount matches Some(target) && mountpoint@ == target@ && match mounting {
                Mounting::CreateDir(r) | Mounting::Mount(r) | Mounting::Open(r) => {
                    &&& r.live@.device == device
                    &&& r.mountpoint@ == target@
                    &&& r.mode is Ro <==> args.read_only
                },
                Mounting::Teardown { .. } => true,
            }
        },
        UpStage::Subdir { mounted, creating } => {
            &&& mounted@.live.device == device
            &&& args.mount matches Some(target) && mounted@.mountpoint == target@
            &&& args.subdir matches Some(name) && creating.name@ == name@
            &&& creating.mountpoint@ == mounted@.mountpoint
        },
        UpStage::Release { .. } => true,
    }
}

proof fn lemma_rise_is_asked_for(
    states: Seq<DeviceUp>,
    replies: Seq<UpReply>,
    device: DeviceView,
    k: int,
)
    requires
        is_rise(states, replies),
        states[0].stage matches UpStage::Launch(launch) && launch.device@ == device,
        0 <= k < states.len(),
    ensures
        is_asked_for(states[k], states[0].args, device),
    decreases k,
{
    if k > 0 {
        let prior = k - 1;
        lemma_rise_is_asked_for(states, replies, device, prior);
        assert(rose_on(states, replies, prior));
    }
}

/// Bringing a device up mounts it where it was asked for and as it was asked
/// for, read-only or not, and makes the subdirectory that was asked for.
pub proof fn law_a_device_is_brought_up_as_it_was_asked_for(
    states: Seq<DeviceUp>,
    replies: Seq<UpReply>,
    device: DeviceView,
    k: int,
    op: UpOp,
)
    requires
        is_rise(states, replies),
        states[0].stage matches UpStage::Launch(launch) && launch.device@ == device,
        0 <= k < states.len(),
        states[k].asks(op),
    ensures
        match op {
            UpOp::Mount(MountOp::CreateDirAll(path)) => states[0].args.mount matches Some(target)
                && path@ == target@,
            UpOp::Mount(MountOp::OpenDir(path)) => states[0].args.mount matches Some(target)
                && path@ == target@,
            UpOp::Mount(MountOp::Mount { target: path, read_only, .. }) => {
                &&& states[0].args.mount matches Some(target) && path@ == target@
                &&& read_only == states[0].args.read_only
            },
            UpOp::Subdir(SubdirOp::Exists(made)) => states[0].args.subdir matches Some(name)
                && made@ == name@,
            UpOp::Subdir(SubdirOp::Create(made)) => states[0].args.subdir matches Some(name)
                && made@ == name@,
            UpOp::Subdir(SubdirOp::Open(made)) => states[0].args.subdir matches Some(name)
                && made@ == name@,
            _ => true,
        },
{
    lemma_rise_is_asked_for(states, replies, device, k);
}

/// What is told of a device that was brought up is the device that was asked
/// for: its name, the suffix of its nexus, and the mountpoint that was asked for,
/// if one was.
pub proof fn law_a_device_that_came_up_is_told_as_it_was_asked_for(
    states: Seq<DeviceUp>,
    replies: Seq<UpReply>,
    device: DeviceView,
    last: UpReply,
    persisted: PersistedDevice,
)
    requires
        is_rise(states, replies),
        states[0].stage matches UpStage::Launch(launch) && launch.device@ == device,
        states.last().leads_to(
            last,
            Progress::<DeviceUp, Result<PersistedDevice, Failure>>::Finished(Ok(persisted)),
        ),
    ensures
        persisted.name@ == device.name,
        "naa.5001405e0b0d"@ + persisted.naa_suffix@ == device.naa,
        match (states[0].args.mount, persisted.mountpoint) {
            (Some(asked), Some(told)) => asked@ == told@,
            (None, None) => true,
            _ => false,
        },
{
    lemma_rise_is_asked_for(states, replies, device, states.len() - 1);
}

/// Whether, before `k`, the host unmounted what it was asked to unmount.
pub open spec fn was_taken_off(
    states: Seq<DeviceDown>,
    replies: Seq<DownReply>,
    k: int,
) -> bool {
    exists|i: int|
        0 <= i < k && i < replies.len() && (#[trigger] states[i].stage matches DownStage::Unmount(
            unmounting,
        ) && unmounting.phase is Try) && (replies[i] matches DownReply::Unmount(
            PathReply::Unmounted(unmounted),
        ) && unmounted is Ok)
}

/// Taking a device down keeps to the path, the name and the suffix that were
/// given, and says that something was unmounted only where the host did so.
pub proof fn law_a_device_goes_down_as_it_was_asked_for(
    states: Seq<DeviceDown>,
    replies: Seq<DownReply>,
    k: int,
)
    requires
        is_descent(states, replies),
        states[0].stage is Unmount,
        0 <= k < states.len(),
    ensures
        states[k].name == states[0].name,
        states[k].naa_suffix == states[0].naa_suffix,
        match states[k].stage {
            DownStage::Unmount(unmounting) => unmounting.target == states[0].stage->Unmount_0.target,
            DownStage::Teardown { unmounted, teardown } => {
                &&& teardown.name@ == states[0].name@
                &&& teardown.naa@ == "naa.5001405e0b0d"@ + states[0].naa_suffix@
                &&& unmounted ==> was_taken_off(states, replies, k)
            },
        },
    decreases k,
{
    if k > 0 {
        let prior = k - 1;
        law_a_device_goes_down_as_it_was_asked_for(states, replies, prior);
        assert(went_down_on(states, replies, prior));
        match states[k].stage {
            DownStage::Teardown { unmounted, .. } => {
                if unmounted {
                    if states[prior].stage is Unmount {
                        assert(states[prior].stage->Unmount_0.phase is Try);
                    } else {
                        let i = choose|i: int|
                            0 <= i < prior && i < replies.len() && (
                            #[trigger] states[i].stage matches DownStage::Unmount(unmounting)
                                && unmounting.phase is Try) && (
                            replies[i] matches DownReply::Unmount(PathReply::Unmounted(taken))
                                && taken is Ok);
                        assert(0 <= i < k && states[i].stage is Unmount);
                    }
                }
            },
            _ => {},
        }
    }
}

/// A device that is given up on while it comes up goes down as itself: one that
/// is being mounted is taken down by its own names, and one that is mounted is
/// let go of from where it was to be mounted.
pub proof fn law_an_abandoned_device_goes_down_as_itself(
    states: Seq<DeviceUp>,
    replies: Seq<UpReply>,
    device: DeviceView,
    k: int,
    abandoned: Abandoned,
)
    requires
        is_rise(states, replies),
        states[0].stage matches UpStage::Launch(launch) && launch.device@ == device,
        0 <= k < states.len(),
        states[k].cleans_up(abandoned),
    ensures
        match states[k].stage {
            UpStage::Launch(launch) => launch.phase is Teardown <==> !(abandoned is Nothing),
            UpStage::Mount { mounting, .. } => abandoned matches Abandoned::Teardown(teardown) && (
            mounting is Teardown || exists|address: Seq<char>|
                teardown.is_at(
                    #[trigger] teardown_plan(device.name, device.naa, Some(address)),
                )),
            UpStage::Subdir { .. } => abandoned matches Abandoned::Release(
                Release::Close { mounted },
            ) && mounted@.live.device == device && (states[0].args.mount matches Some(target)
                && mounted@.mountpoint == target@),
            UpStage::Release { release, .. } => abandoned == Abandoned::Release(release),
        },
{
    lemma_rise_is_asked_for(states, replies, device, k);
    match states[k].stage {
        UpStage::Mount { mounting, .. } => match mounting {
            Mounting::CreateDir(request)
            | Mounting::Mount(request)
            | Mounting::Open(request) => {
                let plan = teardown_plan(
                    device.name,
                    device.naa,
                    Some(request.live@.scsi_address),
                );
                assert(request.live@.plan() == plan);
            },
            Mounting::Teardown { .. } => {},
        },
        _ => {},
    }
}

/// A launch or a mount that fails while a device comes up is told with what was
/// being done: the device's name and its config, or the device's name and the
/// mountpoint; the error itself is passed on as it is.
pub proof fn law_a_device_that_did_not_come_up_says_why(
    up: DeviceUp,
    mountpoint: HostPath,
    error: Error,
    launched: Failure,
    mounted: Failure,
)
    requires
        up.after_launch(
            Err::<Live, Error>(error),
            Progress::<DeviceUp, Result<PersistedDevice, Failure>>::Finished(Err(launched)),
        ),
        up.after_mount(
            mountpoint,
            Err::<Mounted, Error>(error),
            Progress::<DeviceUp, Result<PersistedDevice, Failure>>::Finished(Err(mounted)),
        ),
    ensures
        launched.error == error,
        launched.context matches Some(context) && context@ == "launching device "@ + up.args.name@
            + " from "@ + shown(up.args.config@),
        mounted.error == error,
        mounted.context matches Some(context) && context@ == "mounting device "@ + up.args.name@
            + " at "@ + shown(mountpoint@),
{
}

/// Taking a device down is refused exactly for a name that does not begin as
/// every device's does, and the refusal names it.
pub proof fn law_only_a_devices_name_is_taken_down(
    name: String,
    naa_suffix: String,
    unmounted: bool,
    progress: Progress<DeviceDown, Result<bool, Failure>>,
)
    requires
        DeviceDown::is_next(name, naa_suffix, unmounted, progress),
    ensures
        progress is Running <==> name@.len() >= 4 && name@.take(4) == seq!['p', 'o', 'c', '_'],
        match progress {
            Progress::Running(next) => next.stage matches DownStage::Teardown {
                unmounted: u,
                teardown,
            } && u == unmounted && teardown.name@ == name@ && teardown.naa@
                == "naa.5001405e0b0d"@ + naa_suffix@,
            Progress::Finished(out) => out matches Err(failure) && (failure.context matches Some(
                context,
            ) && context@ == "tearing down device "@ + name@) && (failure.error matches
                Error::BadDeviceName { name: n, .. } && n@ == name@),
        },
{
    reveal_strlit("poc_");
    assert(DEV_PREFIX@ =~= seq!['p', 'o', 'c', '_']);
    if name@.len() >= 4 {
        assert(name@.take(4) =~= name@.subrange(0, 4));
    }
}

} // verus!
