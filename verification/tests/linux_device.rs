//! The device lifecycle, against a simulated Linux host.

use std::collections::BTreeMap;
use std::collections::BTreeSet;

use cap_std::ambient_authority;
use cap_std::fs::Dir;
use obd::cli;
use obd::cli::Abandoned;
use obd::cli::DeviceDown;
use obd::cli::DeviceUp;
use obd::cli::DownArgs;
use obd::cli::DownOp;
use obd::cli::DownReply;
use obd::cli::Failure;
use obd::cli::UpArgs;
use obd::cli::UpOp;
use obd::cli::UpReply;
use obd::cli::UpStage;
use obd::cleanup::PathOp;
use obd::cleanup::PathReply;
use obd::config::ConfigOp;
use obd::config::ConfigReply;
use obd::configfs;
use obd::configfs::AttrOp;
use obd::configfs::AttrReply;
use obd::configfs::NodeOp;
use obd::configfs::NodeReply;
use obd::configfs::RemovalOp;
use obd::configfs::RemovalReply;
use obd::configfs::ResultOp;
use obd::configfs::ResultReply;
use obd::configfs::ScsiOp;
use obd::configfs::ScsiReply;
use obd::device::GoingDown;
use obd::device::Launch;
use obd::device::LaunchOp;
use obd::device::LaunchReply;
use obd::device::MountOp;
use obd::device::MountReply;
use obd::device::Mounting;
use obd::device::NamedOp;
use obd::device::NamedReply;
use obd::device::NamedTeardown;
use obd::device::Release;
use obd::device::Subdir;
use obd::device::SubdirOp;
use obd::device::SubdirReply;
use obd::device::UnmountOp;
use obd::device::UnmountReply;
use obd::device::Unmounting;
use obd::error::IoFailure;
use obd::host::Parents;
use obd::host::Platform;
use obd::host::Progress;
use obd::path::HostPath;
use obd::teardown::Teardown;
use obd::teardown::TeardownOp;
use obd::teardown::TeardownReply;
use obd::tools;
use obd::tools::LayerOp;
use obd::tools::LayerReply;
use obd::tools::ToolOutput;
use obd::tools::ToolReply;
use obd::Device;
use obd::DeviceConfig;
use obd::Error;
use obd::Live;
use obd::Lower;
use obd::Mode;
use obd::Mounted;
use obd::PersistedDevice;

const LINUX: Platform = Platform { linux: true, os: "linux" };
const ELSEWHERE: Platform = Platform { linux: false, os: "macos" };

fn p(text: &str) -> HostPath {
    HostPath::new(text)
}

fn errno(code: i32) -> IoFailure {
    IoFailure {
        os_code: Some(code),
        message: format!("os error {code}"),
    }
}

/// A host with one mount at most, whose answers can be set to fail.
struct Sim {
    /// What is in configfs.
    entries: BTreeSet<String>,
    files: BTreeMap<String, String>,
    /// What the daemon reports.
    report: &'static str,
    mount: Option<(String, bool)>,
    subdirs: BTreeSet<String>,
    /// How often an unmount fails.
    busy: usize,
    /// How often enabling a device meets `EAGAIN`.
    not_yet: usize,
    refuse_enable: bool,
    refuse_link: bool,
    refuse_mount: bool,
    refuse_subdir: bool,
    /// What was done, in order.
    log: Vec<String>,
    now: u128,
    clock: Option<u128>,
}

impl Sim {
    fn new() -> Sim {
        Sim {
            entries: BTreeSet::new(),
            files: BTreeMap::new(),
            report: "success",
            mount: None,
            subdirs: BTreeSet::new(),
            busy: 0,
            not_yet: 0,
            refuse_enable: false,
            refuse_link: false,
            refuse_mount: false,
            refuse_subdir: false,
            log: Vec::new(),
            now: 0,
            clock: None,
        }
    }

    fn create_all(&mut self, path: &str) {
        // `core` and `loopback` are the kernel's own.
        let mut at = path;
        while at.matches('/').count() > configfs::CONFIGFS.matches('/').count() + 1 {
            self.entries.insert(at.to_string());
            at = &at[..at.rfind('/').unwrap()];
        }
    }

    fn sleep(&mut self, span: u128) {
        self.now += span;
    }

    fn elapsed(&mut self) -> u128 {
        let now = self.now;
        now - *self.clock.get_or_insert(now)
    }

    /// How often a device was taken down: how often its backstore was removed.
    fn teardowns(&self) -> usize {
        let backstores = "rmdir /sys/kernel/config/target/core/user_1/";
        self.log.iter().filter(|l| l.starts_with(backstores)).count()
    }

    /// A directory with anything left in it stays.
    fn removal_reply(&mut self, op: RemovalOp) -> RemovalReply {
        match op {
            RemovalOp::LinkExists(path) | RemovalOp::IsDir(path) => {
                RemovalReply::Found(self.entries.contains(&path.display()))
            }
            RemovalOp::RemoveFile(path) => {
                self.log.push(format!("unlink {}", path.display()));
                self.entries.remove(&path.display());
                RemovalReply::Removed(Ok(()))
            }
            RemovalOp::RemoveDir(path) => {
                let path = path.display();
                self.log.push(format!("rmdir {path}"));
                // What the kernel made for a portal group goes with it.
                self.entries.remove(&format!("{path}/lun"));
                let inside = format!("{path}/");
                if self.entries.iter().any(|e| e.starts_with(&inside)) {
                    return RemovalReply::Removed(Err(errno(39)));
                }
                self.entries.remove(&path);
                RemovalReply::Removed(Ok(()))
            }
        }
    }

    fn teardown_reply(&mut self, op: TeardownOp) -> TeardownReply {
        match op {
            TeardownOp::Removal(op) => TeardownReply::Removal(self.removal_reply(op)),
            TeardownOp::Scsi(op) => TeardownReply::Scsi(match op {
                ScsiOp::Exists(path) => {
                    let line = format!("await {path}");
                    if self.log.last() != Some(&line) {
                        self.log.push(line);
                    }
                    ScsiReply::Exists(false)
                }
                ScsiOp::Elapsed => ScsiReply::Elapsed(0),
                ScsiOp::Sleep(span) => {
                    self.sleep(span);
                    ScsiReply::Slept
                }
            }),
        }
    }

    fn teardown(&mut self, mut teardown: Teardown) {
        loop {
            let reply = self.teardown_reply(teardown.op());
            match teardown.resume(reply) {
                Progress::Running(next) => teardown = next,
                Progress::Finished(()) => return,
            }
        }
    }

    fn attr_reply(&mut self, op: AttrOp) -> AttrReply {
        match op {
            AttrOp::Write { path, value } => {
                self.log.push(format!("write {path} {value}"));
                if path.ends_with("/enable") {
                    if self.refuse_enable {
                        return AttrReply::Wrote(Err(errno(22)));
                    }
                    if self.not_yet > 0 {
                        self.not_yet -= 1;
                        return AttrReply::Wrote(Err(errno(11)));
                    }
                }
                AttrReply::Wrote(Ok(()))
            }
            AttrOp::Sleep(span) => {
                self.sleep(span);
                AttrReply::Slept
            }
        }
    }

    fn result_reply(&mut self, op: ResultOp) -> ResultReply {
        match op {
            ResultOp::Elapsed => ResultReply::Elapsed(self.elapsed()),
            ResultOp::Read(path) => {
                let line = format!("read {}", path.display());
                if self.log.last() != Some(&line) {
                    self.log.push(line);
                }
                ResultReply::Read(Ok(format!("{}\n", self.report)))
            }
            ResultOp::Sleep(span) => {
                self.sleep(span);
                ResultReply::Slept
            }
        }
    }

    fn node_reply(&mut self, op: NodeOp) -> NodeReply {
        match op {
            NodeOp::ReadText(path) => {
                self.log.push(format!("read {path}"));
                NodeReply::Text(Ok(if path.ends_with("/address") {
                    " 0:0:1\n".to_string()
                } else {
                    "8:0\n".to_string()
                }))
            }
            NodeOp::StartClock => {
                self.clock = Some(self.now);
                NodeReply::Started
            }
            NodeOp::Elapsed => NodeReply::Elapsed(self.elapsed()),
            NodeOp::List(path) => {
                self.log.push(format!("list {path}"));
                NodeReply::Names(Some(vec![p("sda")]))
            }
            NodeOp::DeviceNumber(node) => {
                self.log.push(format!("stat {node}"));
                NodeReply::Number(Some(8 << 8))
            }
            NodeOp::ReadSector(node) => {
                self.log.push(format!("sector {node}"));
                NodeReply::Sector(Some(512))
            }
            NodeOp::Sleep(span) => {
                self.sleep(span);
                NodeReply::Slept
            }
        }
    }

    fn launch_reply(&mut self, op: LaunchOp) -> LaunchReply {
        match op {
            LaunchOp::CreateParents(path) => {
                self.log.push(format!("parents {}", path.display()));
                LaunchReply::Parents(Parents::Ready)
            }
            LaunchOp::RemoveFile(path) => {
                self.log.push(format!("remove {}", path.display()));
                self.clock = None;
                LaunchReply::Removed
            }
            LaunchOp::CreateDirAll(path) => {
                self.log.push(format!("mkdir {path}"));
                self.create_all(&path);
                LaunchReply::Created(Ok(()))
            }
            LaunchOp::Attr(op) => LaunchReply::Attr(self.attr_reply(op)),
            LaunchOp::Result(op) => LaunchReply::Result(self.result_reply(op)),
            LaunchOp::ReadLog(log) => {
                self.log.push(format!("log {}", log.display()));
                LaunchReply::Log(Ok("before\nthe end\n".to_string()))
            }
            LaunchOp::Teardown(op) => LaunchReply::Teardown(self.teardown_reply(op)),
            LaunchOp::LinkExists(path) => LaunchReply::LinkExists(self.entries.contains(&path)),
            LaunchOp::Symlink { target, link } => {
                self.log.push(format!("link {link} {target}"));
                if self.refuse_link {
                    return LaunchReply::Linked(Err(errno(1)));
                }
                self.entries.insert(link);
                LaunchReply::Linked(Ok(()))
            }
            LaunchOp::Node(op) => LaunchReply::Node(self.node_reply(op)),
        }
    }

    fn launch(&mut self, mut launch: Launch) -> Result<Live, Error> {
        loop {
            let reply = self.launch_reply(launch.op());
            match launch.resume(reply) {
                Progress::Running(next) => launch = next,
                Progress::Finished(out) => return out,
            }
        }
    }

    fn mount_reply(&mut self, op: MountOp) -> MountReply {
        match op {
            MountOp::CreateDirAll(path) => {
                self.log.push(format!("mkdir {}", path.display()));
                MountReply::Created(Ok(()))
            }
            MountOp::Mount {
                source,
                target,
                file_system,
                read_only,
                data,
            } => {
                self.log.push(format!(
                    "mount {source} {} {file_system} {read_only} {data:?}",
                    target.display()
                ));
                if self.refuse_mount {
                    return MountReply::Mounted(Err(errno(22)));
                }
                self.mount = Some((target.display(), read_only));
                MountReply::Mounted(Ok(()))
            }
            MountOp::OpenDir(path) => {
                self.log.push(format!("open {}", path.display()));
                MountReply::Opened(Ok(()))
            }
            MountOp::Teardown(op) => MountReply::Teardown(self.teardown_reply(op)),
        }
    }

    fn mount(&mut self, mut mounting: Mounting) -> Result<Mounted, Error> {
        loop {
            let reply = self.mount_reply(mounting.op());
            match mounting.resume(reply) {
                Progress::Running(next) => mounting = next,
                Progress::Finished(out) => return out,
            }
        }
    }

    fn unmount_reply(&mut self, op: UnmountOp) -> UnmountReply {
        match op {
            UnmountOp::CloseDir => {
                self.log.push("close".to_string());
                UnmountReply::Closed
            }
            UnmountOp::Sync => {
                self.log.push("sync".to_string());
                UnmountReply::Synced
            }
            UnmountOp::Unmount(path) => {
                self.log.push(format!("unmount {}", path.display()));
                if self.busy > 0 {
                    self.busy -= 1;
                    return UnmountReply::Unmounted(Err(errno(16)));
                }
                self.mount = None;
                UnmountReply::Unmounted(Ok(()))
            }
            UnmountOp::Sleep(span) => {
                assert_eq!(span, 500_000_000);
                self.log.push("sleep".to_string());
                UnmountReply::Slept
            }
            UnmountOp::Teardown(op) => UnmountReply::Teardown(self.teardown_reply(op)),
        }
    }

    fn unmount(&mut self, mut unmounting: Unmounting) -> Result<Live, Error> {
        loop {
            let reply = self.unmount_reply(unmounting.op());
            match unmounting.resume(reply) {
                Progress::Running(next) => unmounting = next,
                Progress::Finished(out) => return out,
            }
        }
    }

    fn going_down(&mut self, mut going: GoingDown) -> Result<(), Error> {
        loop {
            let reply = self.unmount_reply(going.op());
            match going.resume(reply) {
                Progress::Running(next) => going = next,
                Progress::Finished(out) => return out,
            }
        }
    }

    fn release(&mut self, mut release: Release) {
        loop {
            let reply = self.unmount_reply(release.op());
            match release.resume(reply) {
                Progress::Running(next) => release = next,
                Progress::Finished(()) => return,
            }
        }
    }

    fn subdir_reply(&mut self, op: SubdirOp) -> SubdirReply {
        match op {
            SubdirOp::Exists(name) => SubdirReply::Exists(self.subdirs.contains(&name)),
            SubdirOp::Create(name) => {
                self.log.push(format!("mkdir {name}"));
                if self.refuse_subdir {
                    return SubdirReply::Created(Err(errno(30)));
                }
                self.subdirs.insert(name);
                SubdirReply::Created(Ok(()))
            }
            SubdirOp::Open(name) => SubdirReply::Opened(if self.subdirs.contains(&name) {
                Ok(())
            } else {
                Err(errno(2))
            }),
        }
    }

    fn subdir(&mut self, mut subdir: Subdir) -> Result<(), Error> {
        loop {
            let reply = self.subdir_reply(subdir.op());
            match subdir.resume(reply) {
                Progress::Running(next) => subdir = next,
                Progress::Finished(out) => return out,
            }
        }
    }

    /// Write a file through a handle that is confined to a subdirectory.
    fn write(&mut self, name: &str, contents: &str) -> Result<(), IoFailure> {
        match &self.mount {
            Some((_, false)) => {
                self.files.insert(name.to_string(), contents.to_string());
                Ok(())
            }
            _ => Err(errno(30)),
        }
    }

    fn named_reply(&mut self, op: NamedOp) -> NamedReply {
        match op {
            NamedOp::ReadText(path) => {
                self.log.push(format!("read {path}"));
                let tpgt = path.strip_suffix("/address").unwrap();
                NamedReply::Text(if self.entries.contains(tpgt) {
                    Ok(" 0:0:1\n".to_string())
                } else {
                    Err(errno(2))
                })
            }
            NamedOp::Teardown(op) => NamedReply::Teardown(self.teardown_reply(op)),
        }
    }

    fn named(&mut self, mut teardown: NamedTeardown) {
        loop {
            let reply = self.named_reply(teardown.op());
            match teardown.resume(reply) {
                Progress::Running(next) => teardown = next,
                Progress::Finished(()) => return,
            }
        }
    }

    fn up_reply(&mut self, op: UpOp) -> UpReply {
        match op {
            UpOp::Launch(op) => UpReply::Launch(self.launch_reply(op)),
            UpOp::Mount(op) => UpReply::Mount(self.mount_reply(op)),
            UpOp::Subdir(op) => UpReply::Subdir(self.subdir_reply(op)),
            UpOp::Release(op) => UpReply::Release(self.unmount_reply(op)),
        }
    }

    fn up(&mut self, mut up: DeviceUp) -> Result<PersistedDevice, Failure> {
        loop {
            let reply = self.up_reply(up.op());
            match up.resume(reply) {
                Progress::Running(next) => up = next,
                Progress::Finished(out) => return out,
            }
        }
    }

    fn path_reply(&mut self, op: PathOp) -> PathReply {
        match op {
            PathOp::ReadText(path) => {
                assert_eq!(path, "/proc/mounts");
                PathReply::Text(Ok(match &self.mount {
                    Some((target, _)) => format!("/dev/sda {target} ext4 rw 0 0\n"),
                    None => String::new(),
                }))
            }
            PathOp::Sync => match self.unmount_reply(UnmountOp::Sync) {
                UnmountReply::Synced => PathReply::Synced,
                other => panic!("{other:?}"),
            },
            PathOp::Unmount(path) => match self.unmount_reply(UnmountOp::Unmount(path)) {
                UnmountReply::Unmounted(out) => PathReply::Unmounted(out),
                other => panic!("{other:?}"),
            },
            PathOp::Sleep(span) => match self.unmount_reply(UnmountOp::Sleep(span)) {
                UnmountReply::Slept => PathReply::Slept,
                other => panic!("{other:?}"),
            },
        }
    }

    fn down(&mut self, down: Progress<DeviceDown, Result<bool, Failure>>) -> Result<bool, Failure> {
        let mut down = match down {
            Progress::Running(down) => down,
            Progress::Finished(out) => return out,
        };
        loop {
            let reply = match down.op() {
                DownOp::Unmount(op) => DownReply::Unmount(self.path_reply(op)),
                DownOp::Teardown(op) => DownReply::Teardown(self.named_reply(op)),
            };
            match down.resume(reply) {
                Progress::Running(next) => down = next,
                Progress::Finished(out) => return out,
            }
        }
    }

    fn count(&self, line: &str) -> usize {
        self.log.iter().filter(|l| *l == line).count()
    }
}

/// Build a device from a config, writing the config out.
fn from_config(name: &str, config: &DeviceConfig, path: &str, naa: &str) -> Result<Device, Error> {
    let mut building = Device::from_config(name, config, p(path), naa);
    loop {
        let reply = match building.op() {
            ConfigOp::CreateParents(_) => ConfigReply::Parents(Parents::Ready),
            ConfigOp::WriteFile { path: at, .. } => {
                assert_eq!(at.display(), path);
                ConfigReply::Wrote(Ok(()))
            }
        };
        match building.resume(reply) {
            Progress::Running(next) => building = next,
            Progress::Finished(out) => return out,
        }
    }
}

/// Build a writable device: a sparse upper over the baselayer.
fn writable_device(name: &str, naa: &str) -> Device {
    let config = DeviceConfig::new(p("/w/result"))
        .lower(Lower::file(p(tools::DEFAULT_BASELAYER)))
        .upper(p("/w/u.data"), p("/w/u.index"));
    from_config(name, &config, "/w/device.json", naa).expect("building the device")
}

/// The whole happy path, and what must not happen on it: an explicit `down`
/// that leaves anything to tear down.
#[test]
fn explicit_down_does_not_warn_or_tear_down_twice() {
    let mut sim = Sim::new();
    let device = writable_device("poc_rsdown", "0081");
    let live = sim.launch(device.up(LINUX).expect("starts")).expect("launching");
    assert_eq!(live.block_device(), "/dev/sda");
    let mounting = live.mount(p("/mnt/obd-rs-test-a"), Mode::Rw, LINUX).expect("starts");
    let mounted = sim.mount(mounting).expect("mounting");

    sim.subdir(mounted.create_subdir("job-out")).expect("creating a subdir");
    sim.write("marker.txt", "written through cap-std").expect("writing");

    // A handle like the one that the host opens for the subdirectory.
    let tmp = tempfile::tempdir().unwrap();
    let root = Dir::open_ambient_dir(tmp.path(), ambient_authority()).unwrap();
    root.create_dir("job-out").unwrap();
    let job_out = root.open_dir("job-out").unwrap();
    job_out.write("marker.txt", b"written through cap-std").expect("writing");
    assert!(job_out.read("../../etc/hostname").is_err(), "cap-std escaped");

    let live = sim.unmount(mounted.unmount(LINUX).expect("starts")).expect("unmounting");
    assert_eq!(sim.teardowns(), 0);
    // This consumes the device: nothing is left for anyone to drop.
    sim.teardown(live.down());

    // And teardown happened exactly once.
    assert_eq!(sim.teardowns(), 1);
    for line in sim.log.iter().filter(|l| l.starts_with("rmdir") || l.starts_with("unlink")) {
        assert_eq!(sim.count(line), 1, "{line}");
    }
    assert!(sim.entries.is_empty(), "{:?}", sim.entries);
}

/// Whoever brings a device up, and cleans up after it if dropped half-way.
struct Owner<'a> {
    up: Option<DeviceUp>,
    sim: &'a mut Sim,
}

impl<'a> Owner<'a> {
    fn new(args: UpArgs, sim: &'a mut Sim) -> Owner<'a> {
        let up = cli::device_up(args, LINUX).expect("starts");
        Owner { up: Some(up), sim }
    }

    /// Go on until `stop` holds, or to the end.
    fn run(&mut self, stop: fn(&UpStage) -> bool) -> Option<Result<PersistedDevice, Failure>> {
        while let Some(up) = self.up.take() {
            if stop(&up.stage) {
                self.up = Some(up);
                return None;
            }
            let reply = self.sim.up_reply(up.op());
            match up.resume(reply) {
                Progress::Running(next) => self.up = Some(next),
                Progress::Finished(out) => return Some(out),
            }
        }
        None
    }
}

impl Drop for Owner<'_> {
    fn drop(&mut self) {
        let Some(up) = self.up.take() else {
            return;
        };
        let abandoned = up.abandon();
        if let Some(warning) = abandoned.warning() {
            self.sim.log.push(warning.to_string());
        }
        match abandoned {
            Abandoned::Nothing => {}
            Abandoned::Teardown(teardown) => self.sim.teardown(teardown),
            Abandoned::Release(release) => self.sim.release(release),
        }
    }
}

/// Dropping a live device without calling `down` must still clean up, and must
/// say so: leftover configfs entries otherwise need manual surgery.
#[test]
fn dropping_a_live_device_tears_it_down_and_warns() {
    let backstore = "/sys/kernel/config/target/core/user_1/poc_rsdrop";
    let warning = "taking an overlaybd device down from Drop";
    let args = |subdir| {
        let mut args = up_args("poc_rsdrop", Some("/mnt/a"), subdir);
        args.naa_suffix = "0082".to_string();
        args
    };

    // Live, not mounted yet.
    let mut sim = Sim::new();
    let mut owner = Owner::new(args(None), &mut sim);
    assert!(owner.run(|stage| matches!(stage, UpStage::Mount { .. })).is_none());
    assert!(owner.sim.entries.contains(backstore));
    assert_eq!(owner.sim.teardowns(), 0);
    drop(owner);
    assert_eq!(sim.count(warning), 1);
    assert_eq!(sim.teardowns(), 1);
    assert!(!sim.entries.contains(backstore), "the backstore was left behind");
    assert!(sim.entries.is_empty(), "{:?}", sim.entries);

    // Mounted.
    let mut sim = Sim::new();
    let mut owner = Owner::new(args(Some("job-out")), &mut sim);
    assert!(owner.run(|stage| matches!(stage, UpStage::Subdir { .. })).is_none());
    drop(owner);
    assert_eq!(sim.count(warning), 1);
    let at = sim.log.iter().position(|l| l == warning).unwrap();
    assert_eq!(sim.log[at + 1..at + 4], ["close", "sync", "unmount /mnt/a"]);
    assert!(sim.mount.is_none());
    assert!(sim.entries.is_empty(), "{:?}", sim.entries);

    // Not live yet: there is nothing to take down.
    let mut sim = Sim::new();
    drop(Owner::new(args(None), &mut sim));
    assert!(sim.log.is_empty());

    // Left running, so nothing is dropped half-way.
    let mut sim = Sim::new();
    let mut owner = Owner::new(args(None), &mut sim);
    assert!(owner.run(|_| false).expect("ends").is_ok());
    drop(owner);
    assert_eq!((sim.count(warning), sim.teardowns()), (0, 0));
    assert!(sim.entries.contains(backstore));
}

/// A committed layer is stacked below a device that is mounted so that it
/// refuses writes.
#[test]
fn committed_layer_restacks_read_only() {
    let mut sim = Sim::new();
    let device = writable_device("poc_rscommit", "0083");
    let live = sim.launch(device.up(LINUX).unwrap()).expect("launching");
    let mounted = sim
        .mount(live.mount(p("/mnt/obd-rs-test-b"), Mode::Rw, LINUX).unwrap())
        .expect("mounting");
    sim.subdir(mounted.create_subdir("job-out")).expect("creating a subdir");
    sim.write("marker.txt", "survives the commit").expect("writing");
    sim.going_down(mounted.down(LINUX).unwrap()).expect("tearing down");
    assert_eq!(sim.teardowns(), 1);

    // Commit only once the device is gone.
    let mut commit = tools::commit_layer(p("/w/u.data"), p("/w/u.index"), p("/w/job.commit"), "test");
    let size = loop {
        let reply = match commit.op() {
            LayerOp::Exists(_) => LayerReply::Exists(false),
            LayerOp::Environment => LayerReply::Environment {
                bin_dir: None,
                path_dirs: vec![],
            },
            LayerOp::Find(_) => LayerReply::Find(ToolReply::IsFile(true)),
            LayerOp::Run { .. } => LayerReply::Ran {
                rendered: "overlaybd-commit".to_string(),
                output: Ok(ToolOutput {
                    success: true,
                    code: Some(0),
                    stdout: vec![],
                    stderr: vec![],
                }),
            },
            LayerOp::Size(_) => LayerReply::Size(Ok(4096)),
            LayerOp::CreateParents(path) => panic!("{}", path.display()),
        };
        match commit.resume(reply) {
            Progress::Running(next) => commit = next,
            Progress::Finished(out) => break out.expect("committing"),
        }
    };
    assert!(size > 0);

    let config = DeviceConfig::new(p("/w/result-b")).lowers(vec![
        Lower::file(p(tools::DEFAULT_BASELAYER)),
        Lower::file(p("/w/job.commit")),
    ]);
    let device = from_config("poc_rsro", &config, "/w/device-b.json", "0084")
        .expect("building the read-only device");
    let live = sim.launch(device.up(LINUX).unwrap()).expect("launching");
    let mounted = sim
        .mount(live.mount(p("/mnt/obd-rs-test-b"), Mode::Ro, LINUX).unwrap())
        .expect("mounting read-only");
    assert_eq!(
        sim.count("mount /dev/sda /mnt/obd-rs-test-b ext4 true Some(\"noload\")"),
        1
    );
    sim.subdir(mounted.create_subdir("job-out")).expect("opening job-out");
    assert_eq!(sim.files["marker.txt"], "survives the commit");
    assert!(
        sim.write("nope.txt", "x").is_err(),
        "a read-only chain accepted a write"
    );
    sim.going_down(mounted.down(LINUX).unwrap()).expect("tearing down");
    assert!(sim.entries.is_empty(), "{:?}", sim.entries);
}

#[test]
fn a_launch_goes_step_by_step() {
    let mut sim = Sim::new();
    sim.launch(writable_device("poc_a", "0021").up(LINUX).unwrap()).unwrap();
    let hba = "/sys/kernel/config/target/core/user_1";
    let tpgt = "/sys/kernel/config/target/loopback/naa.5001405e0b0d0021/tpgt_1";
    assert_eq!(
        sim.log,
        vec![
            "parents /w/result".to_string(),
            "remove /w/result".to_string(),
            format!("mkdir {hba}/poc_a"),
            format!("write {hba}/poc_a/control dev_config=overlaybd//w/device.json"),
            format!("write {hba}/poc_a/control max_data_area_mb=4"),
            format!("write {hba}/poc_a/enable 1"),
            "read /w/result".to_string(),
            format!("mkdir {tpgt}/lun/lun_0"),
            format!("write {tpgt}/nexus naa.5001405e0b0d0021"),
            format!("link {tpgt}/lun/lun_0/poc_a {hba}/poc_a"),
            format!("read {tpgt}/address"),
            "list /sys/class/scsi_device/0:0:1:0/device/block".to_string(),
            "read /sys/class/scsi_device/0:0:1:0/device/block/sda/dev".to_string(),
            "stat /dev/sda".to_string(),
            "sector /dev/sda".to_string(),
        ]
    );
}

#[test]
fn enabling_a_device_is_tried_again_while_the_daemon_attaches() {
    let mut sim = Sim::new();
    sim.not_yet = 99;
    sim.launch(writable_device("poc_a", "0021").up(LINUX).unwrap()).expect("the last try");
    let enable = "write /sys/kernel/config/target/core/user_1/poc_a/enable 1";
    assert_eq!(sim.count(enable), 100);
    assert!(sim.now >= 99 * 50_000_000);

    let mut sim = Sim::new();
    sim.not_yet = 100;
    let out = sim.launch(writable_device("poc_a", "0021").up(LINUX).unwrap());
    assert!(matches!(out, Err(Error::Io { source, .. }) if source.os_code == Some(11)));
    assert_eq!(sim.count(enable), 100);
}

#[test]
fn a_refused_launch_is_torn_down_before_it_fails() {
    let mut sim = Sim::new();
    sim.report = "";
    let out = sim.launch(writable_device("poc_a", "0021").up(LINUX).unwrap());
    match out {
        Err(Error::LaunchFailed {
            device,
            result,
            log,
            tail,
        }) => {
            assert_eq!(device, "poc_a");
            assert_eq!(result, "<empty>");
            assert_eq!(log, "/var/log/overlaybd.log");
            assert_eq!(tail, "before\nthe end");
        }
        other => panic!("{other:?}"),
    }
    assert_eq!(sim.teardowns(), 1);
    assert!(sim.entries.is_empty(), "{:?}", sim.entries);
    assert_eq!(sim.count("log /var/log/overlaybd.log"), 1);
    assert!(sim.now >= 10_000_000_000, "an empty report is waited for");
    assert!(!sim.log.iter().any(|l| l.starts_with("link") || l.contains("nexus ")));

    sim.report = "failed: no such layer";
    let out = sim.launch(writable_device("poc_a", "0021").up(LINUX).unwrap());
    assert!(matches!(out, Err(Error::LaunchFailed { result, .. }) if result == "failed: no such layer"));
}

#[test]
fn a_launch_reports_what_failed() {
    let mut sim = Sim::new();
    sim.refuse_enable = true;
    let out = sim.launch(writable_device("poc_a", "0021").up(LINUX).unwrap());
    assert!(matches!(
        out,
        Err(Error::Io { context, .. })
            if context == "writing '1' to /sys/kernel/config/target/core/user_1/poc_a/enable"
    ));

    let mut sim = Sim::new();
    sim.refuse_link = true;
    let out = sim.launch(writable_device("poc_a", "0021").up(LINUX).unwrap());
    match out {
        Err(Error::Io { context, source }) => {
            assert_eq!(
                context,
                "linking /sys/kernel/config/target/loopback/naa.5001405e0b0d0021/tpgt_1/lun/lun_0/poc_a \
                 -> /sys/kernel/config/target/core/user_1/poc_a"
            );
            assert_eq!(source.os_code, Some(1));
        }
        other => panic!("{other:?}"),
    }

    let launch = writable_device("poc_a", "0021").up(LINUX).unwrap();
    let parents = Parents::Failed {
        parent: p("/w"),
        source: errno(13),
    };
    match launch.resume(LaunchReply::Parents(parents)) {
        Progress::Finished(Err(Error::Io { context, .. })) => assert_eq!(context, "creating /w"),
        other => panic!("{other:?}"),
    }

    let mut launch = writable_device("poc_a", "0021").up(LINUX).unwrap();
    for reply in [LaunchReply::Parents(Parents::Ready), LaunchReply::Removed] {
        launch = match launch.resume(reply) {
            Progress::Running(next) => next,
            other => panic!("{other:?}"),
        };
    }
    match launch.resume(LaunchReply::Created(Err(errno(13)))) {
        Progress::Finished(Err(Error::Io { context, .. })) => assert_eq!(
            context,
            "creating /sys/kernel/config/target/core/user_1/poc_a"
        ),
        other => panic!("{other:?}"),
    }
}

#[test]
fn a_link_that_is_there_is_not_made_again() {
    let mut sim = Sim::new();
    let link = configfs::lun_link_path("naa.5001405e0b0d0021", "poc_a");
    sim.entries.insert(link);
    sim.launch(writable_device("poc_a", "0021").up(LINUX).unwrap()).unwrap();
    assert!(!sim.log.iter().any(|l| l.starts_with("link ")));
}

#[test]
fn teardown_goes_from_the_inside_out() {
    let mut sim = Sim::new();
    let live = sim.launch(writable_device("poc_a", "0021").up(LINUX).unwrap()).unwrap();
    sim.log.clear();
    sim.teardown(live.down());
    let hba = "/sys/kernel/config/target/core/user_1";
    let naa = "/sys/kernel/config/target/loopback/naa.5001405e0b0d0021";
    assert_eq!(
        sim.log,
        vec![
            format!("unlink {naa}/tpgt_1/lun/lun_0/poc_a"),
            format!("rmdir {naa}/tpgt_1/lun/lun_0"),
            format!("rmdir {naa}/tpgt_1"),
            format!("rmdir {naa}"),
            format!("rmdir {hba}/poc_a"),
            format!("rmdir {hba}"),
            "await /sys/class/scsi_device/0:0:1:0".to_string(),
        ]
    );
}

fn mounted_device(sim: &mut Sim) -> Mounted {
    let live = sim.launch(writable_device("poc_a", "0021").up(LINUX).unwrap()).unwrap();
    let mounting = live.mount(p("/mnt/a"), Mode::Rw, LINUX).unwrap();
    let mounted = sim.mount(mounting).unwrap();
    sim.log.clear();
    mounted
}

#[test]
fn a_failed_mount_takes_the_device_down() {
    let mut sim = Sim::new();
    sim.refuse_mount = true;
    let live = sim.launch(writable_device("poc_a", "0021").up(LINUX).unwrap()).unwrap();
    let out = sim.mount(live.mount(p("/mnt/a"), Mode::Ro, LINUX).unwrap());
    match out {
        Err(Error::Io { context, source }) => {
            assert_eq!(context, "mounting /dev/sda at /mnt/a (ro,noload)");
            assert_eq!(source.os_code, Some(22));
        }
        other => panic!("{other:?}"),
    }
    assert_eq!(sim.teardowns(), 1);
    assert!(sim.entries.is_empty());

    let mut sim = Sim::new();
    let live = sim.launch(writable_device("poc_a", "0021").up(LINUX).unwrap()).unwrap();
    let mounting = live.mount(p("/mnt/a"), Mode::Rw, LINUX).unwrap();
    let mounting = match mounting.resume(MountReply::Created(Err(errno(13)))) {
        Progress::Running(next) => next,
        other => panic!("{other:?}"),
    };
    assert!(matches!(mounting.op(), MountOp::Teardown(_)));
    let out = sim.mount(mounting);
    assert!(matches!(out, Err(Error::Io { context, .. }) if context == "creating /mnt/a"));
}

#[test]
fn an_unmount_is_tried_again_while_the_mount_is_busy() {
    let mut sim = Sim::new();
    let mounted = mounted_device(&mut sim);
    assert_eq!(mounted.mountpoint().display(), "/mnt/a");
    assert_eq!((mounted.name(), mounted.block_device()), ("poc_a", "/dev/sda"));
    sim.busy = 19;
    let live = sim.unmount(mounted.unmount(LINUX).unwrap()).expect("the last try succeeds");
    assert_eq!(live.naa(), "naa.5001405e0b0d0021");
    assert_eq!(sim.log[..3], ["close", "sync", "unmount /mnt/a"]);
    assert_eq!((sim.count("unmount /mnt/a"), sim.count("sleep")), (20, 19));
    assert_eq!(sim.teardowns(), 0);
}

#[test]
fn a_mount_that_stays_busy_is_given_up() {
    let mut sim = Sim::new();
    let mounted = mounted_device(&mut sim);
    sim.busy = usize::MAX;
    match sim.unmount(mounted.unmount(LINUX).unwrap()) {
        Err(Error::Busy { path, source }) => {
            assert_eq!(path.display(), "/mnt/a");
            assert_eq!(source.os_code, Some(16));
        }
        other => panic!("{other:?}"),
    }
    // Once for the caller, and once more as the device is let go of.
    assert_eq!(sim.count("close"), 2);
    assert_eq!((sim.count("sync"), sim.count("unmount /mnt/a")), (2, 40));
    assert_eq!(sim.teardowns(), 1);
}

#[test]
fn a_mounted_device_that_is_let_go_of_is_cleaned_up() {
    let mut sim = Sim::new();
    let mounted = mounted_device(&mut sim);
    sim.busy = 2;
    sim.release(mounted.release());
    assert_eq!(sim.log[..3], ["close", "sync", "unmount /mnt/a"]);
    assert_eq!((sim.count("unmount /mnt/a"), sim.count("sleep")), (3, 2));
    assert!(sim.mount.is_none());
    assert_eq!(sim.teardowns(), 1);
    assert!(sim.entries.is_empty());
}

#[test]
fn a_subdirectory_is_made_once_and_opened() {
    let mut sim = Sim::new();
    let mounted = mounted_device(&mut sim);
    sim.subdir(mounted.create_subdir("job-out")).unwrap();
    sim.subdir(mounted.create_subdir("job-out")).unwrap();
    assert_eq!(sim.count("mkdir job-out"), 1);

    sim.refuse_subdir = true;
    let out = sim.subdir(mounted.create_subdir("other"));
    assert!(matches!(out, Err(Error::Io { context, .. }) if context == "creating other under /mnt/a"));
    let opening = match mounted.create_subdir("gone").resume(SubdirReply::Exists(true)) {
        Progress::Running(next) => next,
        other => panic!("{other:?}"),
    };
    let out = sim.subdir(opening);
    assert!(matches!(out, Err(Error::Io { context, .. }) if context == "opening gone under /mnt/a"));
}

#[test]
fn operations_off_linux_are_refused() {
    let mut sim = Sim::new();
    let live = sim.launch(writable_device("poc_a", "0021").up(LINUX).unwrap()).unwrap();
    assert!(matches!(
        live.mount(p("/mnt/a"), Mode::Rw, ELSEWHERE),
        Err(Error::UnsupportedPlatform { os: "macos" })
    ));
    let mounted = mounted_device(&mut sim);
    assert!(matches!(
        mounted.unmount(ELSEWHERE),
        Err(Error::UnsupportedPlatform { .. })
    ));
    let mounted = mounted_device(&mut sim);
    assert!(matches!(
        mounted.down(ELSEWHERE),
        Err(Error::UnsupportedPlatform { .. })
    ));
}

#[test]
fn a_persisted_device_is_taken_down_by_its_name() {
    let mut sim = Sim::new();
    let persisted = mounted_device(&mut sim).persist();
    assert_eq!(persisted.name, "poc_a");
    assert_eq!(persisted.naa_suffix, "0021");
    assert_eq!(persisted.block_device, "/dev/sda");
    assert_eq!(persisted.mountpoint.as_ref().unwrap().display(), "/mnt/a");
    assert_eq!(sim.teardowns(), 0);

    let teardown = obd::teardown_named(&persisted.name, &persisted.naa_suffix).unwrap();
    sim.named(teardown);
    assert!(sim.entries.is_empty());
    assert_eq!(sim.count("await /sys/class/scsi_device/0:0:1:0"), 1);

    // Removing a device that is already gone succeeds.
    sim.log.clear();
    sim.named(obd::teardown_named("poc_a", "0021").unwrap());
    assert!(!sim.log.iter().any(|l| l.starts_with("await")));
    assert!(matches!(
        obd::teardown_named("sda", "0021"),
        Err(Error::BadDeviceName { name, prefix }) if name == "sda" && prefix == "poc_"
    ));
}

fn up_args(name: &str, mount: Option<&str>, subdir: Option<&str>) -> UpArgs {
    UpArgs {
        name: name.to_string(),
        config: p("/w/d.json"),
        result_file: p("/w/result"),
        naa_suffix: "0021".to_string(),
        mount: mount.map(p),
        read_only: false,
        subdir: subdir.map(|s| s.to_string()),
    }
}

#[test]
fn bringing_a_device_up_leaves_it_running() {
    let mut sim = Sim::new();
    let up = cli::device_up(up_args("poc_a", None, None), LINUX).unwrap();
    let persisted = sim.up(up).unwrap();
    assert!(persisted.mountpoint.is_none());
    assert_eq!(sim.teardowns(), 0);

    let mut sim = Sim::new();
    let mut args = up_args("poc_a", Some("/mnt/a"), None);
    args.read_only = true;
    let persisted = sim.up(cli::device_up(args, LINUX).unwrap()).unwrap();
    assert_eq!(persisted.mountpoint.unwrap().display(), "/mnt/a");
    assert_eq!(sim.mount, Some(("/mnt/a".to_string(), true)));

    let mut sim = Sim::new();
    let args = up_args("poc_a", Some("/mnt/a"), Some("job-out"));
    let persisted = sim.up(cli::device_up(args, LINUX).unwrap()).unwrap();
    assert_eq!(persisted.naa_suffix, "0021");
    assert!(sim.subdirs.contains("job-out"));
    assert_eq!(sim.mount, Some(("/mnt/a".to_string(), false)));
    assert_eq!(sim.teardowns(), 0);
}

#[test]
fn bringing_a_device_up_cleans_up_after_a_failure() {
    let mut sim = Sim::new();
    sim.report = "no";
    let failure = sim.up(cli::device_up(up_args("poc_a", None, None), LINUX).unwrap()).unwrap_err();
    assert_eq!(
        failure.context.as_deref(),
        Some("launching device poc_a from /w/d.json")
    );
    assert!(matches!(failure.error, Error::LaunchFailed { .. }));

    let mut sim = Sim::new();
    sim.refuse_mount = true;
    let args = up_args("poc_a", Some("/mnt/a"), None);
    let failure = sim.up(cli::device_up(args, LINUX).unwrap()).unwrap_err();
    assert_eq!(
        failure.context.as_deref(),
        Some("mounting device poc_a at /mnt/a")
    );
    assert_eq!(sim.teardowns(), 1);

    let mut sim = Sim::new();
    sim.refuse_subdir = true;
    let args = up_args("poc_a", Some("/mnt/a"), Some("job-out"));
    let failure = sim.up(cli::device_up(args, LINUX).unwrap()).unwrap_err();
    assert!(failure.context.is_none());
    assert!(matches!(failure.error, Error::Io { context, .. } if context == "creating job-out under /mnt/a"));
    assert!(sim.mount.is_none());
    assert_eq!(sim.teardowns(), 1);
    assert!(sim.entries.is_empty());

    let failure = cli::device_up(up_args("a", None, None), LINUX).unwrap_err();
    assert!(failure.context.is_none());
    assert!(matches!(failure.error, Error::BadDeviceName { .. }));
    let failure = cli::device_up(up_args("poc_a", None, None), ELSEWHERE).unwrap_err();
    assert!(failure.context.is_some());
    assert!(matches!(failure.error, Error::UnsupportedPlatform { .. }));
}

fn down_args(name: &str, mount: Option<&str>) -> DownArgs {
    DownArgs {
        name: name.to_string(),
        naa_suffix: "0021".to_string(),
        mount: mount.map(p),
    }
}

#[test]
fn taking_a_device_down_unmounts_it_first() {
    let mut sim = Sim::new();
    mounted_device(&mut sim).persist();
    let unmounted = sim.down(cli::device_down(down_args("poc_a", Some("/mnt/a")), LINUX)).unwrap();
    assert!(unmounted);
    assert!(sim.mount.is_none());
    assert!(sim.entries.is_empty());
    let at = |line: &str| sim.log.iter().position(|l| l.starts_with(line)).unwrap();
    assert!(at("unmount /mnt/a") < at("unlink"));

    let unmounted = sim.down(cli::device_down(down_args("poc_a", Some("/mnt/a")), LINUX)).unwrap();
    assert!(!unmounted);
    assert!(!sim.down(cli::device_down(down_args("poc_a", None), LINUX)).unwrap());
    assert!(!sim.down(cli::device_down(down_args("poc_a", Some("/mnt/a")), ELSEWHERE)).unwrap());
}

#[test]
fn taking_down_something_else_is_refused_after_the_unmount() {
    let mut sim = Sim::new();
    mounted_device(&mut sim).persist();
    let failure = sim.down(cli::device_down(down_args("sda", Some("/mnt/a")), LINUX)).unwrap_err();
    assert_eq!(failure.context.as_deref(), Some("tearing down device sda"));
    assert!(matches!(failure.error, Error::BadDeviceName { .. }));
    assert!(sim.mount.is_none());
    assert_eq!(sim.teardowns(), 0);
}

#[test]
fn an_answer_to_another_question_changes_nothing() {
    let launch = writable_device("poc_a", "0021").up(LINUX).unwrap();
    let launch = match launch.resume(LaunchReply::LinkExists(true)) {
        Progress::Running(next) => next,
        other => panic!("{other:?}"),
    };
    assert!(matches!(launch.op(), LaunchOp::CreateParents(_)));
}
