//! The sweep, and what a signal does.

use std::collections::BTreeMap;
use std::collections::BTreeSet;

use obd::cleanup;
use obd::cleanup::Cleanup;
use obd::cleanup::CleanupOp;
use obd::cleanup::CleanupReply;
use obd::cleanup::PathOp;
use obd::cleanup::PathReply;
use obd::cleanup::PathUnmount;
use obd::cleanup::SignalEnd;
use obd::cleanup::SignalOp;
use obd::cleanup::SignalReply;
use obd::cleanup::Sweep;
use obd::cleanup::SweepOp;
use obd::cleanup::SweepReply;
use obd::cleanup::Termination;
use obd::configfs::RemovalOp;
use obd::configfs::RemovalReply;
use obd::error::IoFailure;
use obd::host::Platform;
use obd::host::Progress;
use obd::path::HostPath;
use obd::Error;
use obd::Swept;

const LINUX: Platform = Platform { linux: true, os: "linux" };
const ELSEWHERE: Platform = Platform { linux: false, os: "macos" };

const LOOPBACK: &str = "/sys/kernel/config/target/loopback";
const HBA: &str = "/sys/kernel/config/target/core/user_1";

fn p(text: &str) -> HostPath {
    HostPath::new(text)
}

fn busy() -> IoFailure {
    IoFailure {
        os_code: Some(16),
        message: "Device or resource busy".to_string(),
    }
}

#[test]
fn the_mount_table_is_read_by_its_second_field() {
    let table = "sysfs /sys sysfs rw 0 0\n/dev/sda /mnt/a ext4 rw 0 0\r\nodd\n\n";
    assert!(cleanup::is_mounted(Some(table), &p("/mnt/a")));
    assert!(cleanup::is_mounted(Some(table), &p("/sys")));
    assert!(!cleanup::is_mounted(Some(table), &p("/dev/sda")));
    assert!(!cleanup::is_mounted(Some(table), &p("ext4")));
    assert!(!cleanup::is_mounted(Some(table), &p("/mnt")));
    assert!(!cleanup::is_mounted(Some(""), &p("")));
    assert!(!cleanup::is_mounted(None, &p("/sys")));
}

#[test]
fn a_mount_point_is_found_whatever_its_path_holds() {
    let table = concat_lines(&[
        "/dev/sda /mnt/a\\040b ext4 rw 0 0",
        "/dev/sdb /mnt/c\\134d ext4 rw 0 0",
        "/dev/sdc /mnt/t\\011n\\012e ext4 rw 0 0",
        "/dev/sdd /mnt/x\u{a0}y ext4 rw 0 0",
    ]);
    for target in ["/mnt/a b", "/mnt/c\\d", "/mnt/t\tn\ne", "/mnt/x\u{a0}y"] {
        assert!(cleanup::is_mounted(Some(&table), &p(target)), "{target}");
    }
    for target in ["/mnt/a\\040b", "/mnt/a", "/mnt/c\\134d", "/mnt/x", "b"] {
        assert!(!cleanup::is_mounted(Some(&table), &p(target)), "{target}");
    }

    // So such a mount is unmounted.
    let unmounting = match cleanup::unmount_path(p("/mnt/a b"), LINUX) {
        Progress::Running(unmounting) => unmounting,
        Progress::Finished(out) => panic!("{out}"),
    };
    match unmounting.resume(PathReply::Text(Ok(table))) {
        Progress::Running(next) => assert!(matches!(next.op(), PathOp::Sync)),
        Progress::Finished(out) => panic!("{out}"),
    }
}

fn concat_lines(lines: &[&str]) -> String {
    lines.iter().map(|line| format!("{line}\n")).collect()
}

/// Unmount a path on a host where it is busy for a while.
fn run_path(unmounting: Progress<PathUnmount, bool>, mounted: bool, mut refusals: usize) -> (bool, Vec<String>) {
    let mut log = Vec::new();
    let mut unmounting = match unmounting {
        Progress::Running(unmounting) => unmounting,
        Progress::Finished(out) => return (out, log),
    };
    loop {
        let reply = match unmounting.op() {
            PathOp::ReadText(path) => {
                log.push(format!("read {path}"));
                PathReply::Text(Ok(if mounted {
                    "/dev/sda /mnt/a ext4 rw 0 0\n".to_string()
                } else {
                    String::new()
                }))
            }
            PathOp::Sync => {
                log.push("sync".to_string());
                PathReply::Synced
            }
            PathOp::Unmount(path) => {
                log.push(format!("unmount {}", path.display()));
                if refusals > 0 {
                    refusals -= 1;
                    PathReply::Unmounted(Err(busy()))
                } else {
                    PathReply::Unmounted(Ok(()))
                }
            }
            PathOp::Sleep(span) => {
                assert_eq!(span, 500_000_000);
                log.push("sleep".to_string());
                PathReply::Slept
            }
        };
        match unmounting.resume(reply) {
            Progress::Running(next) => unmounting = next,
            Progress::Finished(out) => return (out, log),
        }
    }
}

#[test]
fn a_path_is_unmounted_only_where_it_is_mounted() {
    let (out, log) = run_path(cleanup::unmount_path(p("/mnt/a"), LINUX), false, 0);
    assert!(!out);
    assert_eq!(log, vec!["read /proc/mounts"]);
    let (out, log) = run_path(cleanup::unmount_path(p("/mnt/a"), LINUX), true, 1);
    assert!(out);
    assert_eq!(
        log,
        vec![
            "read /proc/mounts",
            "sync",
            "unmount /mnt/a",
            "sleep",
            "unmount /mnt/a"
        ]
    );
    let (out, log) = run_path(cleanup::unmount_path(p("/mnt/a"), ELSEWHERE), true, 0);
    assert!(!out);
    assert!(log.is_empty());
}

#[test]
fn a_path_that_stays_busy_is_left() {
    let (out, log) = run_path(cleanup::unmount_path(p("/mnt/a"), LINUX), true, usize::MAX);
    assert!(!out);
    assert_eq!(log.iter().filter(|l| l.starts_with("unmount")).count(), 20);
    assert_eq!(log.iter().filter(|l| *l == "sleep").count(), 20);
    let (out, _) = run_path(cleanup::unmount_path(p("/mnt/a"), LINUX), true, 19);
    assert!(out);
}

/// A host's configfs: directories with what is in them.
struct Sim {
    dirs: BTreeMap<String, Vec<HostPath>>,
    links: BTreeSet<String>,
    mounts: Vec<&'static str>,
    /// Whether what is to be removed is gone by the time it is looked at.
    gone: bool,
    /// The directories that the host refuses to remove.
    stays: BTreeSet<String>,
    log: Vec<String>,
}

impl Sim {
    fn new() -> Sim {
        Sim {
            dirs: BTreeMap::new(),
            links: BTreeSet::new(),
            mounts: Vec::new(),
            gone: false,
            stays: BTreeSet::new(),
            log: Vec::new(),
        }
    }

    fn with(mut self, dir: &str, names: &[&str]) -> Sim {
        let names = names.iter().map(|n| p(n)).collect();
        self.dirs.insert(dir.to_string(), names);
        self
    }

    fn sweep_reply(&mut self, op: SweepOp) -> SweepReply {
        match op {
            SweepOp::List(path) => SweepReply::Names(self.dirs.get(&path.display()).cloned()),
            SweepOp::IsSymlink(path) => SweepReply::IsSymlink(self.links.contains(&path.display())),
            SweepOp::IsDir(path) => SweepReply::IsDir(!path.display().ends_with("_file")),
            SweepOp::Remove(op) => SweepReply::Removal(match op {
                RemovalOp::LinkExists(_) | RemovalOp::IsDir(_) => RemovalReply::Found(!self.gone),
                RemovalOp::RemoveFile(path) => {
                    self.log.push(format!("unlink {}", path.display()));
                    RemovalReply::Removed(Ok(()))
                }
                RemovalOp::RemoveDir(path) => {
                    let path = path.display();
                    self.log.push(format!("rmdir {path}"));
                    // A directory that stays is left, and the sweep goes on.
                    RemovalReply::Removed(if self.stays.contains(&path) {
                        Err(busy())
                    } else {
                        let (parent, name) = path.rsplit_once('/').unwrap();
                        if let Some(names) = self.dirs.get_mut(parent) {
                            names.retain(|n| n.display() != name);
                        }
                        Ok(())
                    })
                }
            }),
        }
    }

    fn sweep(&mut self, mut sweep: Sweep) -> Swept {
        loop {
            let reply = self.sweep_reply(sweep.op());
            match sweep.resume(reply) {
                Progress::Running(next) => sweep = next,
                Progress::Finished(out) => return out,
            }
        }
    }

    fn cleanup_reply(&mut self, op: CleanupOp) -> CleanupReply {
        match op {
            CleanupOp::Unmount(op) => CleanupReply::Unmount(match op {
                PathOp::ReadText(_) => {
                    let lines: Vec<String> =
                        self.mounts.iter().map(|m| format!("dev {m} ext4")).collect();
                    PathReply::Text(Ok(lines.join("\n")))
                }
                PathOp::Sync => PathReply::Synced,
                PathOp::Unmount(path) => {
                    self.log.push(format!("unmount {}", path.display()));
                    self.mounts.retain(|m| *m != path.display());
                    PathReply::Unmounted(Ok(()))
                }
                PathOp::Sleep(_) => PathReply::Slept,
            }),
            CleanupOp::Sweep(op) => CleanupReply::Sweep(self.sweep_reply(op)),
        }
    }

    fn cleanup(&mut self, mut cleanup: Cleanup) -> Swept {
        loop {
            let reply = self.cleanup_reply(cleanup.op());
            match cleanup.resume(reply) {
                Progress::Running(next) => cleanup = next,
                Progress::Finished(out) => return out.expect("a cleanup succeeds"),
            }
        }
    }
}

fn leftovers() -> Sim {
    let first = format!("{LOOPBACK}/naa.5001405e0b0d0021/tpgt_1/lun/lun_0");
    let mut sim = Sim::new()
        .with(
            LOOPBACK,
            &["naa.5001405e0b0d0099", "naa.6001", "discovery_auth", "naa.5001405e0b0d0021"],
        )
        .with(&first, &["statistics", "poc_a"])
        .with(HBA, &["poc_b", "hba_info", "poc_file", "poc_a"]);
    sim.links.insert(format!("{first}/poc_a"));
    sim
}

#[test]
fn a_sweep_removes_what_carries_the_prefixes_and_nothing_else() {
    let mut sim = leftovers();
    let swept = sim.sweep(obd::cleanup_all());
    assert_eq!(
        swept.nexuses,
        vec!["naa.5001405e0b0d0021", "naa.5001405e0b0d0099"]
    );
    assert_eq!(swept.backstores, vec!["poc_a", "poc_b"]);
    assert!(swept.unmounted.is_empty());
    assert!(!swept.is_empty());
    assert_eq!(
        sim.log,
        vec![
            format!("unlink {LOOPBACK}/naa.5001405e0b0d0021/tpgt_1/lun/lun_0/poc_a"),
            format!("rmdir {LOOPBACK}/naa.5001405e0b0d0021/tpgt_1/lun/lun_0"),
            format!("rmdir {LOOPBACK}/naa.5001405e0b0d0021/tpgt_1"),
            format!("rmdir {LOOPBACK}/naa.5001405e0b0d0021"),
            format!("rmdir {LOOPBACK}/naa.5001405e0b0d0099/tpgt_1/lun/lun_0"),
            format!("rmdir {LOOPBACK}/naa.5001405e0b0d0099/tpgt_1"),
            format!("rmdir {LOOPBACK}/naa.5001405e0b0d0099"),
            format!("rmdir {HBA}/poc_a"),
            format!("rmdir {HBA}/poc_b"),
            format!("rmdir {HBA}"),
        ]
    );
}

#[test]
fn a_sweep_passes_over_what_is_already_gone() {
    let mut sim = leftovers();
    sim.gone = true;
    let swept = sim.sweep(obd::cleanup_all());
    assert!(swept.is_empty(), "{swept:?}");
    assert!(sim.log.is_empty());
}

#[test]
fn a_sweep_reports_only_what_was_removed() {
    let mut sim = leftovers();
    sim.stays.insert(format!("{LOOPBACK}/naa.5001405e0b0d0021"));
    sim.stays.insert(format!("{HBA}/poc_b"));
    sim.stays.insert(HBA.to_string());
    let swept = sim.sweep(obd::cleanup_all());
    assert_eq!(swept.nexuses, vec!["naa.5001405e0b0d0099"]);
    assert_eq!(swept.backstores, vec!["poc_a"]);
    // What stays was asked to go all the same.
    assert!(sim.log.contains(&format!("rmdir {LOOPBACK}/naa.5001405e0b0d0021")));
    assert!(sim.log.contains(&format!("rmdir {HBA}/poc_b")));

    // A directory inside that stays does not count against its nexus.
    let mut sim = leftovers();
    sim.stays.insert(format!("{LOOPBACK}/naa.5001405e0b0d0021/tpgt_1"));
    assert_eq!(sim.sweep(obd::cleanup_all()).nexuses.len(), 2);

    // What is reported is gone, so that a second sweep reports nothing, though
    // something stays.
    let mut sim = leftovers();
    sim.stays.insert(format!("{LOOPBACK}/naa.5001405e0b0d0021"));
    sim.stays.insert(format!("{HBA}/poc_b"));
    let first = sim.sweep(obd::cleanup_all());
    for (dir, names) in [(LOOPBACK, &first.nexuses), (HBA, &first.backstores)] {
        assert_eq!(names.len(), 1);
        for name in names {
            assert!(!sim.dirs[dir].contains(&p(name)), "{name}");
        }
    }
    assert!(sim.sweep(obd::cleanup_all()).is_empty());
    assert!(sim.dirs[LOOPBACK].contains(&p("naa.5001405e0b0d0021")));
    assert!(sim.dirs[HBA].contains(&p("poc_b")));

    // Where everything stays, nothing is reported, however often.
    let mut sim = leftovers();
    for dir in [LOOPBACK, HBA] {
        for name in ["naa.5001405e0b0d0021", "naa.5001405e0b0d0099", "poc_a", "poc_b"] {
            sim.stays.insert(format!("{dir}/{name}"));
        }
    }
    for _ in 0..2 {
        assert!(sim.sweep(obd::cleanup_all()).is_empty());
    }
}

#[test]
fn a_sweep_with_nothing_left_removes_nothing() {
    let hosts = [
        Sim::new(),
        Sim::new().with(LOOPBACK, &[]).with(HBA, &[]),
        Sim::new().with(LOOPBACK, &["naa.6001"]).with(HBA, &["hba_info"]),
    ];
    for mut sim in hosts {
        let swept = sim.sweep(obd::cleanup_all());
        assert!(swept.is_empty());
        assert_eq!(swept, Swept::default());
        assert_eq!(sim.log, vec![format!("rmdir {HBA}")]);
    }
}

#[test]
fn the_mounts_go_before_the_sweep() {
    let mut sim = leftovers();
    sim.mounts = vec!["/mnt/b", "/mnt/a"];
    let mountpoints = vec![p("/mnt/a"), p("/mnt/none"), p("/mnt/b")];
    let swept = sim.cleanup(obd::force_cleanup(mountpoints, LINUX));
    assert_eq!(swept.unmounted, vec![p("/mnt/a"), p("/mnt/b")]);
    assert_eq!(swept.nexuses.len(), 2);
    assert_eq!(swept.backstores.len(), 2);
    assert_eq!(sim.log[0], "unmount /mnt/a");
    assert_eq!(sim.log[1], "unmount /mnt/b");
    assert!(!sim.log[2..].iter().any(|l| l.starts_with("unmount")));

    // Off Linux nothing is unmounted.
    let mut sim = Sim::new();
    sim.mounts = vec!["/mnt/a"];
    let swept = sim.cleanup(obd::force_cleanup(vec![p("/mnt/a")], ELSEWHERE));
    assert!(swept.is_empty());
    assert_eq!(sim.mounts, vec!["/mnt/a"]);
}

#[test]
fn a_signal_cleans_up_and_exits_with_its_number() {
    for (signal, code) in [
        (Termination::Hangup, 129),
        (Termination::Interrupt, 130),
        (Termination::Terminate, 143),
    ] {
        let mut handler = obd::install_signal_handler(vec![p("/mnt/a")], LINUX).unwrap();
        let mut asked = Vec::new();
        let mut sim = leftovers();
        sim.mounts = vec!["/mnt/a", "/mnt/b"];
        let end = loop {
            let reply = match handler.op() {
                SignalOp::Register(signals) => {
                    asked.push("register");
                    let numbers: Vec<i32> = signals.iter().map(|s| s.number()).collect();
                    assert_eq!(numbers, vec![2, 15, 1]);
                    SignalReply::Registered(Ok(()))
                }
                SignalOp::Listen => {
                    asked.push("listen");
                    SignalReply::Caught(Some(signal))
                }
                SignalOp::Cleanup(op) => {
                    if asked.last() != Some(&"cleanup") {
                        asked.push("cleanup");
                    }
                    SignalReply::Cleanup(sim.cleanup_reply(op))
                }
            };
            match handler.resume(reply) {
                Progress::Running(next) => handler = next,
                Progress::Finished(out) => break out.unwrap(),
            }
        };
        assert!(matches!(end, SignalEnd::Exit(n) if n == code));
        assert_eq!(asked, vec!["register", "listen", "cleanup"]);
        assert_eq!(sim.log[0], "unmount /mnt/a");
        assert_eq!(sim.log.last(), Some(&format!("rmdir {HBA}")));
        assert_eq!(sim.mounts, vec!["/mnt/b"]);
    }
}

#[test]
fn signals_that_cannot_be_handled_are_reported() {
    assert!(obd::install_signal_handler(Vec::new(), ELSEWHERE).is_none());
    let handler = obd::install_signal_handler(Vec::new(), LINUX).unwrap();
    match handler.resume(SignalReply::Registered(Err(busy()))) {
        Progress::Finished(Err(Error::Io { context, .. })) => {
            assert_eq!(context, "installing signal handler");
        }
        other => panic!("{other:?}"),
    }
    let handler = obd::install_signal_handler(Vec::new(), LINUX).unwrap();
    let handler = match handler.resume(SignalReply::Registered(Ok(()))) {
        Progress::Running(next) => next,
        other => panic!("{other:?}"),
    };
    assert!(matches!(
        handler.resume(SignalReply::Caught(None)),
        Progress::Finished(Ok(SignalEnd::Quiet))
    ));
}
