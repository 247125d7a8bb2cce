//! Finding and running the `overlaybd-*` binaries.

use obd::error::IoFailure;
use obd::host::Parents;
use obd::host::Progress;
use obd::path::HostPath;
use obd::tools;
use obd::tools::LayerCommit;
use obd::tools::LayerCreation;
use obd::tools::LayerOp;
use obd::tools::LayerReply;
use obd::tools::ToolOp;
use obd::tools::ToolOutput;
use obd::tools::ToolReply;
use obd::Error;

fn p(text: &str) -> HostPath {
    HostPath::new(text)
}

fn failure() -> IoFailure {
    IoFailure {
        os_code: Some(2),
        message: "No such file or directory".to_string(),
    }
}

/// Search on a host that has the binary in the given places.
fn search(env: Option<&str>, path: &[&str], there: &[&str]) -> (Result<HostPath, Error>, Vec<String>) {
    let dirs = path.iter().map(|d| p(d)).collect();
    let mut search = tools::find("overlaybd-create", env.map(p), dirs);
    let mut looked = Vec::new();
    loop {
        let ToolOp::IsFile(candidate) = search.op();
        let shown = candidate.display();
        let found = there.contains(&shown.as_str());
        looked.push(shown);
        match search.resume(ToolReply::IsFile(found)) {
            Progress::Running(next) => search = next,
            Progress::Finished(out) => return (out, looked),
        }
    }
}

#[test]
fn a_binary_comes_from_the_first_place_that_has_it() {
    let everywhere = [
        "/env/overlaybd-create",
        "/opt/overlaybd/bin/overlaybd-create",
        "/usr/bin/overlaybd/overlaybd-create",
        "/bin/overlaybd-create",
    ];
    for first in 0..everywhere.len() {
        let (out, looked) = search(Some("/env"), &["/bin"], &everywhere[first..]);
        assert_eq!(out.unwrap().display(), everywhere[first]);
        assert_eq!(looked, everywhere[..=first]);
    }
}

#[test]
fn a_missing_binary_names_the_known_places() {
    let (out, looked) = search(None, &["/bin", "/sbin"], &[]);
    assert_eq!(looked.len(), 4);
    match out {
        Err(Error::ToolMissing { name, searched }) => {
            assert_eq!(name, "overlaybd-create");
            let searched: Vec<String> = searched.iter().map(|s| s.display()).collect();
            assert_eq!(
                searched,
                vec![
                    "/opt/overlaybd/bin/overlaybd-create",
                    "/usr/bin/overlaybd/overlaybd-create"
                ]
            );
        }
        other => panic!("{other:?}"),
    }
    let (out, _) = search(Some("/env/"), &[], &[]);
    assert!(matches!(
        out,
        Err(Error::ToolMissing { searched, .. })
            if searched.len() == 3 && searched[0].display() == "/env/overlaybd-create"
    ));
}

fn output(success: bool, code: Option<i32>, stdout: &[u8], stderr: &[u8]) -> ToolOutput {
    ToolOutput {
        success,
        code,
        stdout: stdout.to_vec(),
        stderr: stderr.to_vec(),
    }
}

#[test]
fn a_command_is_judged_by_its_exit() {
    let out = tools::run("\"x\"", Ok(output(true, Some(0), b" fine \xff\n", b"noise")));
    assert_eq!(out.unwrap(), " fine \u{fffd}\n");

    let out = tools::run("\"x\" \"-s\"", Ok(output(false, Some(-3), b"  out\n", b"err \n\n")));
    match out {
        Err(Error::ToolFailed {
            command,
            code,
            output,
        }) => {
            assert_eq!(command, "\"x\" \"-s\"");
            assert_eq!(code, "-3");
            assert_eq!(output, "out\nerr");
        }
        other => panic!("{other:?}"),
    }

    let out = tools::run("x", Ok(output(false, None, b"", b"")));
    assert!(matches!(out, Err(Error::ToolFailed { code, output, .. }) if code == "signal" && output.is_empty()));

    let out = tools::run("x", Err(failure()));
    assert!(matches!(out, Err(Error::Io { context, .. }) if context == "could not run x"));
}

/// Create a layer on a host that has the given files.
fn create(there: &[&str], run: ToolOutput) -> (Result<(), Error>, Vec<String>) {
    let mut creation: LayerCreation = tools::create_sparse_layer(p("/x/u.data"), p("/x/u.index"), 64);
    let mut run = Some(run);
    let mut log = Vec::new();
    loop {
        let reply = match creation.op() {
            LayerOp::Exists(path) => {
                log.push(format!("exists {}", path.display()));
                LayerReply::Exists(there.contains(&path.display().as_str()))
            }
            LayerOp::CreateParents(path) => {
                log.push(format!("parents {}", path.display()));
                LayerReply::Parents(Parents::Ready)
            }
            LayerOp::Environment => {
                log.push("environment".to_string());
                LayerReply::Environment {
                    bin_dir: Some(p("/env")),
                    path_dirs: vec![p("/bin")],
                }
            }
            LayerOp::Find(ToolOp::IsFile(path)) => {
                log.push(format!("look {}", path.display()));
                LayerReply::Find(ToolReply::IsFile(there.contains(&path.display().as_str())))
            }
            LayerOp::Run { program, arguments } => {
                let arguments: Vec<String> = arguments.iter().map(|a| a.display()).collect();
                log.push(format!("run {} {}", program.display(), arguments.join(" ")));
                LayerReply::Ran {
                    rendered: "create".to_string(),
                    output: Ok(run.take().expect("run once")),
                }
            }
            LayerOp::Size(path) => panic!("size of {}", path.display()),
        };
        match creation.resume(reply) {
            Progress::Running(next) => creation = next,
            Progress::Finished(out) => return (out, log),
        }
    }
}

fn fine() -> ToolOutput {
    output(true, Some(0), b"", b"")
}

#[test]
fn a_layer_is_created_sparse() {
    let (out, log) = create(&["/opt/overlaybd/bin/overlaybd-create"], fine());
    assert!(out.is_ok());
    assert_eq!(
        log,
        vec![
            "exists /x/u.data",
            "exists /x/u.index",
            "parents /x/u.data",
            "environment",
            "look /env/overlaybd-create",
            "look /opt/overlaybd/bin/overlaybd-create",
            "run /opt/overlaybd/bin/overlaybd-create -s /x/u.data /x/u.index 64",
        ]
    );
}

#[test]
fn a_layer_is_never_created_over_a_file() {
    for there in ["/x/u.data", "/x/u.index"] {
        let (out, log) = create(&[there], fine());
        assert!(matches!(out, Err(Error::LayerExists { path }) if path.display() == there));
        assert!(log.iter().all(|line| line.starts_with("exists ")));
    }
}

#[test]
fn creating_a_layer_reports_what_failed() {
    let (out, log) = create(&[], fine());
    assert!(matches!(
        out,
        Err(Error::ToolMissing { name, searched }) if name == "overlaybd-create" && searched.len() == 3
    ));
    assert_eq!(log.last().unwrap(), "look /bin/overlaybd-create");

    let refused = output(false, Some(1), b"", b"exists");
    let (out, _) = create(&["/bin/overlaybd-create"], refused);
    assert!(matches!(
        out,
        Err(Error::ToolFailed { command, output, .. }) if command == "create" && output == "exists"
    ));

    let mut creation = tools::create_sparse_layer(p("/x/d"), p("/x/i"), 1);
    for _ in 0..2 {
        creation = match creation.resume(LayerReply::Exists(false)) {
            Progress::Running(next) => next,
            other => panic!("{other:?}"),
        };
    }
    let parents = Parents::Failed {
        parent: p("/x"),
        source: failure(),
    };
    match creation.resume(LayerReply::Parents(parents)) {
        Progress::Finished(Err(Error::Io { context, .. })) => assert_eq!(context, "creating /x"),
        other => panic!("{other:?}"),
    }
}

/// Commit a layer with the given answers.
fn commit(
    exists: bool,
    ran: Result<ToolOutput, IoFailure>,
    size: Result<u64, IoFailure>,
) -> (Result<u64, Error>, Vec<String>) {
    let mut commit: LayerCommit = tools::commit_layer(p("/d"), p("/i"), p("/out"), "job 1");
    let mut ran = Some(ran);
    let mut size = Some(size);
    let mut log = Vec::new();
    loop {
        let reply = match commit.op() {
            LayerOp::Exists(path) => {
                log.push(format!("exists {}", path.display()));
                LayerReply::Exists(exists)
            }
            LayerOp::Environment => LayerReply::Environment {
                bin_dir: Some(p("/env")),
                path_dirs: vec![],
            },
            LayerOp::Find(ToolOp::IsFile(path)) => {
                log.push(format!("look {}", path.display()));
                LayerReply::Find(ToolReply::IsFile(true))
            }
            LayerOp::Run { program, arguments } => {
                let arguments: Vec<String> = arguments.iter().map(|a| a.display()).collect();
                log.push(format!("run {} {}", program.display(), arguments.join("|")));
                LayerReply::Ran {
                    rendered: "commit".to_string(),
                    output: ran.take().expect("run once"),
                }
            }
            LayerOp::Size(path) => {
                log.push(format!("size {}", path.display()));
                LayerReply::Size(size.take().expect("sized once"))
            }
            LayerOp::CreateParents(path) => panic!("parents of {}", path.display()),
        };
        match commit.resume(reply) {
            Progress::Running(next) => commit = next,
            Progress::Finished(out) => return (out, log),
        }
    }
}

#[test]
fn a_commit_reports_the_size() {
    let (out, log) = commit(false, Ok(fine()), Ok(167936));
    assert_eq!(out.unwrap(), 167936);
    assert_eq!(
        log,
        vec![
            "exists /out",
            "look /env/overlaybd-commit",
            "run /env/overlaybd-commit -m|job 1|/d|/i|/out",
            "size /out"
        ]
    );
}

#[test]
fn a_layer_is_never_committed_over_a_file() {
    let (out, log) = commit(true, Ok(fine()), Ok(1));
    assert!(matches!(out, Err(Error::LayerExists { path }) if path.display() == "/out"));
    assert_eq!(log, vec!["exists /out"]);
}

#[test]
fn a_commit_reports_what_failed() {
    let (out, log) = commit(false, Ok(output(false, Some(1), b"", b"torn")), Ok(1));
    assert!(matches!(out, Err(Error::ToolFailed { output, .. }) if output == "torn"));
    assert_eq!(log.len(), 3);
    let (out, _) = commit(false, Err(failure()), Ok(1));
    assert!(matches!(out, Err(Error::Io { context, .. }) if context == "could not run commit"));
    let (out, _) = commit(false, Ok(fine()), Err(failure()));
    assert!(matches!(out, Err(Error::Io { context, .. }) if context == "stat /out"));
}

#[test]
fn the_known_places_are_the_documented_ones() {
    assert_eq!(
        tools::SEARCH_DIRS,
        ["/opt/overlaybd/bin", "/usr/bin/overlaybd"]
    );
    assert_eq!(tools::DEFAULT_BASELAYER, "/opt/overlaybd/baselayers/ext4_64");
    assert_eq!(tools::BASELAYER_SIZE_GB, 64);
}
