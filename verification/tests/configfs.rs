//! The configfs waits, with a host that answers from a script.

use obd::configfs;
use obd::configfs::AttrOp;
use obd::configfs::AttrReply;
use obd::configfs::AttrWrite;
use obd::configfs::NodeOp;
use obd::configfs::NodeReply;
use obd::configfs::NodeSearch;
use obd::configfs::Removal;
use obd::configfs::RemovalOp;
use obd::configfs::RemovalReply;
use obd::configfs::Removed;
use obd::configfs::ResultOp;
use obd::configfs::ResultReply;
use obd::configfs::ScsiOp;
use obd::configfs::ScsiReply;
use obd::error::IoFailure;
use obd::host::Progress;
use obd::path::HostPath;
use obd::Error;

fn p(text: &str) -> HostPath {
    HostPath::new(text)
}

fn errno(code: i32) -> IoFailure {
    IoFailure {
        os_code: Some(code),
        message: format!("os error {code}"),
    }
}

#[test]
fn paths_are_where_the_kernel_has_them() {
    let naa = "naa.5001405e0b0d0021";
    assert_eq!(configfs::configfs_root(), "/sys/kernel/config/target");
    assert_eq!(
        configfs::backstore_path("poc_a"),
        "/sys/kernel/config/target/core/user_1/poc_a"
    );
    assert_eq!(
        configfs::tpgt_path(naa),
        "/sys/kernel/config/target/loopback/naa.5001405e0b0d0021/tpgt_1"
    );
    assert_eq!(
        configfs::lun0_path(naa),
        "/sys/kernel/config/target/loopback/naa.5001405e0b0d0021/tpgt_1/lun/lun_0"
    );
    assert_eq!(
        configfs::lun_link_path(naa, "poc_a"),
        "/sys/kernel/config/target/loopback/naa.5001405e0b0d0021/tpgt_1/lun/lun_0/poc_a"
    );
    assert_eq!(
        configfs::address_path(naa),
        "/sys/kernel/config/target/loopback/naa.5001405e0b0d0021/tpgt_1/address"
    );
}

/// Run a write against a host that fails with each of the codes in turn and
/// then accepts. Gives the outcome, the writes and the sleeps.
fn run_write(mut writing: AttrWrite, codes: &[i32]) -> (Result<(), Error>, usize, Vec<u128>) {
    let mut writes = 0;
    let mut sleeps = Vec::new();
    loop {
        let reply = match writing.op() {
            AttrOp::Write { path, value } => {
                assert_eq!((path.as_str(), value.as_str()), ("/attr", "1"));
                writes += 1;
                AttrReply::Wrote(match codes.get(writes - 1) {
                    Some(code) => Err(errno(*code)),
                    None => Ok(()),
                })
            }
            AttrOp::Sleep(span) => {
                sleeps.push(span);
                AttrReply::Slept
            }
        };
        match writing.resume(reply) {
            Progress::Running(next) => writing = next,
            Progress::Finished(out) => return (out, writes, sleeps),
        }
    }
}

#[test]
fn eagain_is_retried_and_nothing_else_is() {
    let (out, writes, sleeps) = run_write(configfs::write_attr("/attr", "1", 100, 50), &[11, 11]);
    assert!(out.is_ok());
    assert_eq!((writes, sleeps), (3, vec![50, 50]));

    let (out, writes, sleeps) = run_write(configfs::write_attr("/attr", "1", 100, 50), &[11, 13]);
    assert_eq!((writes, sleeps), (2, vec![50]));
    match out {
        Err(Error::Io { context, source }) => {
            assert_eq!(context, "writing '1' to /attr");
            assert_eq!(source.os_code, Some(13));
        }
        other => panic!("{other:?}"),
    }
}

#[test]
fn writes_stop_when_the_retries_are_used_up() {
    let (out, writes, sleeps) = run_write(configfs::write_attr("/attr", "1", 3, 7), &[11; 10]);
    assert!(matches!(out, Err(Error::Io { source, .. }) if source.os_code == Some(11)));
    assert_eq!((writes, sleeps), (3, vec![7, 7, 7]));

    // No retries still means one write.
    let (out, writes, _) = run_write(configfs::write_attr("/attr", "1", 0, 0), &[11]);
    assert!(out.is_err());
    assert_eq!(writes, 1);
}

#[test]
fn device_numbers_are_taken_apart() {
    assert_eq!(configfs::sysfs_devt("8:16\n"), Some((8, 16)));
    assert_eq!(configfs::sysfs_devt(" +8:16"), Some((8, 16)));
    assert_eq!(configfs::sysfs_devt("8"), None);
    assert_eq!(configfs::sysfs_devt("8:"), None);
    assert_eq!(configfs::sysfs_devt("8:1:2"), None);
    assert_eq!(configfs::sysfs_devt("4294967296:0"), None);
    assert!(configfs::node_matches(Some(0x0810), (8, 16)));
    assert!(!configfs::node_matches(Some(0x0811), (8, 16)));
    assert!(!configfs::node_matches(None, (8, 16)));
    // major 0x12345678, minor 0x9abcdef0, spread as makedev(3) does.
    let rdev = 0x1234_59ab_cde6_78f0u64;
    assert!(configfs::node_matches(Some(rdev), (0x1234_5678, 0x9abc_def0)));
    assert!(configfs::node_readable(Some(512)));
    assert!(!configfs::node_readable(Some(511)));
    assert!(!configfs::node_readable(None));
}

#[test]
fn the_log_is_quoted_from_its_end() {
    let log = p("/var/log/overlaybd.log");
    assert_eq!(configfs::log_tail(Some("a\nb\r\nc\n"), &log, 2), "b\nc");
    assert_eq!(configfs::log_tail(Some("a\nb"), &log, 25), "a\nb");
    assert_eq!(configfs::log_tail(Some(""), &log, 25), "");
    assert_eq!(
        configfs::log_tail(None, &log, 25),
        "(no /var/log/overlaybd.log)"
    );
}

/// Wait for a report with a clock that goes on by a second for each sleep.
fn run_result(timeout: u128, reports: &[Option<&str>]) -> (String, usize) {
    let mut wait = configfs::await_result(p("/result"), timeout);
    let mut now = 0;
    let mut reads = 0;
    loop {
        let reply = match wait.op() {
            ResultOp::Elapsed => ResultReply::Elapsed(now),
            ResultOp::Read(path) => {
                assert_eq!(path.display(), "/result");
                reads += 1;
                ResultReply::Read(match reports.get(reads - 1) {
                    Some(Some(text)) => Ok(text.to_string()),
                    _ => Err(errno(2)),
                })
            }
            ResultOp::Sleep(span) => {
                assert_eq!(span, 100_000_000);
                now += 1_000_000_000;
                ResultReply::Slept
            }
        };
        match wait.resume(reply) {
            Progress::Running(next) => wait = next,
            Progress::Finished(out) => return (out, reads),
        }
    }
}

#[test]
fn a_report_is_waited_for_and_trimmed() {
    let second = 1_000_000_000;
    assert_eq!(
        run_result(10 * second, &[None, Some(" \n"), Some(" success\n")]),
        ("success".to_string(), 3)
    );
    assert_eq!(run_result(3 * second, &[]), (String::new(), 3));
    assert_eq!(run_result(0, &[Some("success")]), (String::new(), 0));
}

/// Wait for a SCSI device that is there for `present` looks.
fn run_scsi(timeout: u128, present: usize) -> (bool, usize, usize) {
    let mut wait = configfs::wait_for_scsi_removal("0:0:1", timeout);
    let mut now = 0;
    let mut looks = 0;
    let mut sleeps = 0;
    loop {
        let reply = match wait.op() {
            ScsiOp::Exists(path) => {
                assert_eq!(path, "/sys/class/scsi_device/0:0:1:0");
                looks += 1;
                ScsiReply::Exists(looks <= present)
            }
            ScsiOp::Elapsed => ScsiReply::Elapsed(now),
            ScsiOp::Sleep(span) => {
                assert_eq!(span, 100_000_000);
                now += span;
                sleeps += 1;
                ScsiReply::Slept
            }
        };
        match wait.resume(reply) {
            Progress::Running(next) => wait = next,
            Progress::Finished(gone) => return (gone, looks, sleeps),
        }
    }
}

#[test]
fn a_scsi_device_is_waited_for_until_it_goes() {
    assert_eq!(run_scsi(15_000_000_000, 0), (true, 2, 0));
    assert_eq!(run_scsi(15_000_000_000, 2), (true, 4, 2));
    let (gone, _, sleeps) = run_scsi(15_000_000_000, usize::MAX);
    assert_eq!((gone, sleeps), (false, 150));
}

/// One round of what a host shows of a block device.
struct Look {
    names: Option<Vec<&'static str>>,
    devt: Option<&'static str>,
    rdev: Option<u64>,
    sector: Option<usize>,
}

fn look(name: &'static str, devt: &'static str, rdev: u64, sector: usize) -> Look {
    Look {
        names: Some(vec![name]),
        devt: Some(devt),
        rdev: Some(rdev),
        sector: Some(sector),
    }
}

fn run_search(rounds: Vec<Look>) -> (Result<(String, String), Error>, NodeCounts) {
    let mut search = configfs::resolve_block_device("poc_a", "naa.x", 30_000_000_000);
    let mut round = 0;
    let mut sleeps = 0;
    loop {
        let now = rounds.get(round);
        let reply = match search.op() {
            NodeOp::ReadText(path) if path.ends_with("/address") => {
                assert_eq!(
                    path,
                    "/sys/kernel/config/target/loopback/naa.x/tpgt_1/address"
                );
                NodeReply::Text(Ok("0:0:1\n".to_string()))
            }
            NodeOp::ReadText(path) => {
                assert!(path.starts_with("/sys/class/scsi_device/0:0:1:0/device/block/"));
                assert!(path.ends_with("/dev"));
                NodeReply::Text(match now.and_then(|l| l.devt) {
                    Some(text) => Ok(text.to_string()),
                    None => Err(errno(2)),
                })
            }
            NodeOp::StartClock => NodeReply::Started,
            NodeOp::Elapsed => NodeReply::Elapsed(if now.is_some() { 0 } else { 30_000_000_000 }),
            NodeOp::List(path) => {
                assert_eq!(path, "/sys/class/scsi_device/0:0:1:0/device/block");
                NodeReply::Names(
                    now.and_then(|l| l.names.clone())
                        .map(|names| names.into_iter().map(HostPath::new).collect()),
                )
            }
            NodeOp::DeviceNumber(path) => {
                assert!(path.starts_with("/dev/"));
                NodeReply::Number(now.and_then(|l| l.rdev))
            }
            NodeOp::ReadSector(path) => {
                assert!(path.starts_with("/dev/"));
                NodeReply::Sector(now.and_then(|l| l.sector))
            }
            NodeOp::Sleep(span) => {
                assert_eq!(span, 200_000_000);
                sleeps += 1;
                round += 1;
                NodeReply::Slept
            }
        };
        let counts = NodeCounts::of(&search, sleeps);
        match search.resume(reply) {
            Progress::Running(next) => search = next,
            Progress::Finished(out) => return (out, counts),
        }
    }
}

#[derive(Debug, PartialEq)]
struct NodeCounts {
    recycled: u32,
    not_ready: u32,
    sleeps: u32,
}

impl NodeCounts {
    fn of(search: &NodeSearch, sleeps: u32) -> NodeCounts {
        NodeCounts {
            recycled: search.recycled,
            not_ready: search.not_ready,
            sleeps,
        }
    }
}

#[test]
fn a_recycled_node_is_never_resolved() {
    let (out, counts) = run_search(vec![
        Look {
            names: None,
            devt: None,
            rdev: None,
            sector: None,
        },
        // The node still belongs to another device, though it reads well.
        look("sdb", "8:16\n", 0x0820, 512),
        // It is ours, but cannot be read yet.
        look("sdb", "8:16\n", 0x0810, 0),
        look("sdb", "8:16\n", 0x0810, 512),
    ]);
    let (node, address) = out.expect("resolves");
    assert_eq!((node.as_str(), address.as_str()), ("/dev/sdb", "0:0:1"));
    assert_eq!(
        counts,
        NodeCounts {
            recycled: 1,
            not_ready: 1,
            sleeps: 3
        }
    );
}

#[test]
fn the_first_name_in_order_is_looked_at() {
    let mut round = look("sdb", "8:16", 0x0810, 512);
    round.names = Some(vec!["sdc", "sdb", "sdd"]);
    let (out, _) = run_search(vec![round]);
    assert_eq!(out.unwrap().0, "/dev/sdb");
}

#[test]
fn a_search_that_runs_out_of_time_says_what_it_saw() {
    let (out, _) = run_search(vec![look("sdb", "garbage", 0x0810, 512)]);
    match out {
        Err(Error::NoBlockDevice { device, path, seen }) => {
            assert_eq!(device, "poc_a");
            assert_eq!(path, "/sys/class/scsi_device/0:0:1:0/device/block");
            assert_eq!(seen, "sdb");
        }
        other => panic!("{other:?}"),
    }
    let (out, _) = run_search(vec![]);
    assert!(matches!(out, Err(Error::NoBlockDevice { seen, .. }) if seen == "<nothing>"));
}

#[test]
fn a_nexus_without_an_address_cannot_be_searched() {
    let search = configfs::resolve_block_device("poc_a", "naa.x", 1);
    match search.resume(NodeReply::Text(Err(errno(2)))) {
        Progress::Finished(Err(Error::Io { context, .. })) => assert_eq!(
            context,
            "reading /sys/kernel/config/target/loopback/naa.x/tpgt_1/address"
        ),
        other => panic!("{other:?}"),
    }
}

fn run_removal(mut removal: Removal, found: bool, result: Result<(), IoFailure>) -> (Removed, usize) {
    let mut result = Some(result);
    let mut removals = 0;
    loop {
        let reply = match removal.op() {
            RemovalOp::LinkExists(_) | RemovalOp::IsDir(_) => RemovalReply::Found(found),
            RemovalOp::RemoveFile(_) | RemovalOp::RemoveDir(_) => {
                removals += 1;
                RemovalReply::Removed(result.take().expect("removed once"))
            }
        };
        match removal.resume(reply) {
            Progress::Running(next) => removal = next,
            Progress::Finished(out) => return (out, removals),
        }
    }
}

#[test]
fn removals_do_not_mind_what_is_gone_or_in_use() {
    assert!(matches!(
        configfs::rm_symlink(p("/l")).op(),
        RemovalOp::LinkExists(_)
    ));
    assert!(matches!(configfs::rmdir(p("/d")).op(), RemovalOp::IsDir(_)));
    for start in [configfs::rm_symlink, configfs::rmdir] {
        let (out, removals) = run_removal(start(p("/x")), false, Ok(()));
        assert!(matches!(out, Removed::Absent));
        assert_eq!(removals, 0);
        let (out, removals) = run_removal(start(p("/x")), true, Ok(()));
        assert!(matches!(out, Removed::Gone));
        assert_eq!(removals, 1);
        let (out, _) = run_removal(start(p("/x")), true, Err(errno(39)));
        assert!(matches!(out, Removed::Left(f) if f.os_code == Some(39)));
    }
}
