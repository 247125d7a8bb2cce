//! Config rendering, validation, confinement and the platform rules.

use cap_std::ambient_authority;
use cap_std::fs::Dir;
use obd::checks::HostFacts;
use obd::cli;
use obd::cli::ArgError;
use obd::config::ConfigOp;
use obd::config::ConfigReply;
use obd::error::IoFailure;
use obd::host::Parents;
use obd::host::Platform;
use obd::host::Progress;
use obd::path::HostPath;
use obd::Device;
use obd::DeviceConfig;
use obd::Error;
use obd::Lower;
use serde_json::Value;

const LINUX: Platform = Platform { linux: true, os: "linux" };
const ELSEWHERE: Platform = Platform { linux: false, os: "macos" };

fn p(text: &str) -> HostPath {
    HostPath::new(text)
}

fn json(text: &str) -> Value {
    serde_json::from_str(text).expect("valid json")
}

fn parse(config: &DeviceConfig) -> Value {
    json(&config.to_json().expect("renders"))
}

/// One local lower plus an upper, and no repoBlobUrl.
#[test]
fn writable_device_config_matches_python() {
    let config = DeviceConfig::new(p("/var/lib/poc/result-a"))
        .lower(Lower::file(p("/opt/overlaybd/baselayers/ext4_64")))
        .upper(p("/var/lib/poc/upper.data"), p("/var/lib/poc/upper.index"));

    assert_eq!(
        parse(&config),
        json(
            r#"{
                "lowers": [{ "file": "/opt/overlaybd/baselayers/ext4_64" }],
                "upper": {
                    "index": "/var/lib/poc/upper.index",
                    "data": "/var/lib/poc/upper.data"
                },
                "resultFile": "/var/lib/poc/result-a"
            }"#
        )
    );
}

/// A read-only device stacking a committed layer.
#[test]
fn readonly_device_config_has_no_upper() {
    let config = DeviceConfig::new(p("/var/lib/poc/result-b")).lowers(vec![
        Lower::file(p("/opt/overlaybd/baselayers/ext4_64")),
        Lower::file(p("/var/lib/poc/job1-layer.commit")),
    ]);

    assert_eq!(
        parse(&config),
        json(
            r#"{
                "lowers": [
                    { "file": "/opt/overlaybd/baselayers/ext4_64" },
                    { "file": "/var/lib/poc/job1-layer.commit" }
                ],
                "resultFile": "/var/lib/poc/result-b"
            }"#
        )
    );
}

/// A streamed lower: digest and size, with repoBlobUrl at the top level.
#[test]
fn remote_lower_renders_digest_and_size() {
    let config = DeviceConfig::new(p("/var/lib/poc/result-b"))
        .lower(Lower::file(p("/opt/overlaybd/baselayers/ext4_64")))
        .lower(Lower::remote("sha256:04f7bec5", 167936).expect("valid digest"))
        .repo_blob_url("https://reg.azurecr.io/v2/repo/blobs/");

    assert_eq!(
        parse(&config),
        json(
            r#"{
                "repoBlobUrl": "https://reg.azurecr.io/v2/repo/blobs",
                "lowers": [
                    { "file": "/opt/overlaybd/baselayers/ext4_64" },
                    { "digest": "sha256:04f7bec5", "size": 167936 }
                ],
                "resultFile": "/var/lib/poc/result-b"
            }"#
        )
    );
}

#[test]
fn remote_lower_can_cache_to_a_directory() {
    let config = DeviceConfig::new(p("/r"))
        .lower(
            Lower::remote("sha256:abc", 10)
                .unwrap()
                .with_cache_dir(p("/cache")),
        )
        .repo_blob_url("https://example/v2/x/blobs");
    assert_eq!(parse(&config)["lowers"][0]["dir"], Value::from("/cache"));
}

/// overlaybd refuses a remote lower with an empty repoBlobUrl, so the config is
/// rejected before it can reach the daemon.
#[test]
fn remote_lower_without_repo_blob_url_is_rejected() {
    let config = DeviceConfig::new(p("/r")).lower(Lower::remote("sha256:abc", 10).unwrap());
    assert!(matches!(config.to_json(), Err(Error::MissingRepoBlobUrl)));
}

#[test]
fn remote_lower_with_an_empty_repo_blob_url_is_rejected() {
    for url in ["", "/", "//"] {
        let config = DeviceConfig::new(p("/r"))
            .lower(Lower::remote("sha256:abc", 10).unwrap())
            .repo_blob_url(url);
        assert!(matches!(config.to_json(), Err(Error::MissingRepoBlobUrl)));
    }
    let local = DeviceConfig::new(p("/r"))
        .lower(Lower::file(p("/base")))
        .repo_blob_url("/");
    assert_eq!(parse(&local)["repoBlobUrl"], Value::from(""));
}

#[test]
fn digest_must_be_sha256() {
    assert!(matches!(
        Lower::remote("md5:abc", 1),
        Err(Error::BadDigest { .. })
    ));
    assert!(Lower::remote("sha256:abc", 1).is_ok());
}

/// The cleanup sweep finds devices by name, so the prefix is mandatory.
#[test]
fn device_name_must_carry_the_sweep_prefix() {
    assert!(matches!(
        Device::new("wrong", p("/c.json"), p("/r"), "0021"),
        Err(Error::BadDeviceName { .. })
    ));
    let device = Device::new("poc_a", p("/c.json"), p("/r"), "0021").expect("accepted");
    assert_eq!(device.name(), "poc_a");
    assert_eq!(device.naa(), "naa.5001405e0b0d0021");
}

#[test]
fn config_writes_to_disk_with_a_trailing_newline() {
    let tmp = tempfile::tempdir().unwrap();
    let root = Dir::open_ambient_dir(tmp.path(), ambient_authority()).unwrap();
    let config = DeviceConfig::new(p("/r")).lower(Lower::file(p("/base")));

    let mut writing = config.write(p("nested/device.json"));
    loop {
        let reply = match writing.op() {
            ConfigOp::CreateParents(path) => {
                assert_eq!(path.display(), "nested/device.json");
                root.create_dir_all("nested").unwrap();
                ConfigReply::Parents(Parents::Ready)
            }
            ConfigOp::WriteFile { path, contents } => {
                root.write(path.display(), contents.as_bytes()).unwrap();
                ConfigReply::Wrote(Ok(()))
            }
        };
        match writing.resume(reply) {
            Progress::Running(next) => writing = next,
            Progress::Finished(out) => {
                out.expect("writes, creating parents");
                break;
            }
        }
    }

    let text = root.read_to_string("nested/device.json").unwrap();
    assert!(text.ends_with("}\n"), "config should end with a newline");
    assert_eq!(json(&text)["lowers"][0]["file"], Value::from("/base"));
}

/// The sandboxing guarantee the program leans on: a handle to the mount cannot
/// be used to reach outside it.
#[test]
fn cap_std_dir_confines_to_its_root() {
    let tmp = tempfile::tempdir().unwrap();
    let root = Dir::open_ambient_dir(tmp.path(), ambient_authority()).unwrap();
    root.create_dir("job-out").unwrap();
    let job_out = root.open_dir("job-out").unwrap();

    job_out.write("result.json", b"{}").unwrap();
    assert_eq!(job_out.read("result.json").unwrap(), b"{}");

    // Escapes must fail rather than silently resolve.
    assert!(job_out.read("../../etc/hosts").is_err(), "`..` escaped");
    assert!(job_out.read("/etc/hosts").is_err(), "absolute path escaped");
}

/// Off Linux the types still exist, but the device operations refuse to run
/// rather than doing something wrong.
#[test]
fn device_operations_refuse_to_run_off_linux() {
    let device = Device::new("poc_a", p("/c.json"), p("/r"), "0021").unwrap();
    assert!(matches!(
        device.up(ELSEWHERE),
        Err(Error::UnsupportedPlatform { .. })
    ));
}

fn facts(platform: Platform) -> HostFacts {
    HostFacts {
        platform,
        create: Some(p("/opt/overlaybd/bin/overlaybd-create")),
        commit: None,
        baselayer: obd::checks::baselayer(None),
        has_baselayer: true,
        has_configfs: false,
        has_target_core_user: true,
        has_tcm_loop: false,
        is_root: false,
    }
}

/// Preflight is honest about the platform it is running on.
#[test]
fn preflight_reports_the_platform() {
    for platform in [LINUX, ELSEWHERE] {
        let checks = obd::preflight(&facts(platform));
        let linux = checks
            .iter()
            .find(|c| c.name == "linux host")
            .expect("checked");
        assert_eq!(linux.ok, platform.linux);
    }
}

#[test]
fn preflight_says_what_to_do() {
    let checks = obd::preflight(&facts(LINUX));
    let said: Vec<(&str, bool, Option<&str>)> = checks
        .iter()
        .map(|c| (c.name.as_str(), c.ok, c.hint.as_deref()))
        .collect();
    assert_eq!(
        said,
        vec![
            ("linux host", true, None),
            (
                "overlaybd-create at /opt/overlaybd/bin/overlaybd-create",
                true,
                None
            ),
            (
                "overlaybd-commit",
                false,
                Some(
                    "sudo ./scripts/install-overlaybd.sh (installs containerd-overlaybd from PMC \
                     and wires /opt/overlaybd)"
                )
            ),
            ("baselayer /opt/overlaybd/baselayers/ext4_64", true, None),
            (
                "configfs at /sys/kernel/config/target",
                false,
                Some(
                    "sudo modprobe target_core_user tcm_loop && \
                     sudo mount -t configfs none /sys/kernel/config"
                )
            ),
            ("module target_core_user", true, None),
            ("module tcm_loop", false, Some("sudo modprobe tcm_loop")),
            (
                "running as root",
                false,
                Some("configfs and mount(2) need root; re-run with sudo")
            ),
        ]
    );

    let elsewhere = obd::preflight(&facts(ELSEWHERE));
    assert_eq!(elsewhere.len(), 7);
    assert_eq!(
        elsewhere[0].hint.as_deref(),
        Some("configfs and TCMU are Linux-only; this binary is built for macos")
    );
}

#[test]
fn a_host_with_everything_passes() {
    let all = HostFacts {
        platform: LINUX,
        create: Some(p("/a")),
        commit: Some(p("/b")),
        baselayer: obd::checks::baselayer(Some("/layers/base")),
        has_baselayer: true,
        has_configfs: true,
        has_target_core_user: true,
        has_tcm_loop: true,
        is_root: true,
    };
    let checks = obd::preflight(&all);
    assert_eq!(checks.len(), 8);
    assert!(checks.iter().all(|c| c.ok && c.hint.is_none()));
    assert_eq!(checks[3].name, "baselayer /layers/base");
    assert_eq!(obd::checks::module_dir("tcm_loop"), "/sys/module/tcm_loop");
}

fn specs(values: &[&str]) -> Vec<String> {
    values.iter().map(|s| (*s).to_string()).collect()
}

fn dirs(values: &[&str]) -> Vec<HostPath> {
    values.iter().map(|s| HostPath::new(s)).collect()
}

/// Render the lowers the way the daemon will read them.
fn rendered(specs: &Vec<String>, dirs: &Vec<HostPath>) -> Value {
    let mut config = DeviceConfig::new(p("/result")).repo_blob_url("https://example/v2/x/blobs");
    for lower in cli::remote_lowers(specs, dirs).expect("builds") {
        config = config.lower(lower);
    }
    parse(&config)
}

/// The dir has to land on the layer it was typed next to, so this pins the
/// pairing rather than the count.
#[test]
fn a_cache_dir_pairs_with_the_lower_at_the_same_position() {
    let config = rendered(
        &specs(&["sha256:aa=10", "sha256:bb=20"]),
        &dirs(&["", "/cache/bb"]),
    );
    assert!(config["lowers"][0].get("dir").is_none(), "{config}");
    assert_eq!(config["lowers"][1]["dir"], Value::from("/cache/bb"));
}

#[test]
fn no_dirs_leaves_every_streamed_lower_alone() {
    let config = rendered(&specs(&["sha256:aa=10"]), &dirs(&[]));
    assert!(config["lowers"][0].get("dir").is_none(), "{config}");
    assert_eq!(config["lowers"][0]["digest"], Value::from("sha256:aa"));
}

#[test]
fn a_partial_list_of_dirs_is_refused() {
    let err = cli::remote_lowers(
        &specs(&["sha256:aa=10", "sha256:bb=20"]),
        &dirs(&["/cache/only-one"]),
    )
    .expect_err("ambiguous pairing must not be guessed");
    let message = err.message();
    assert!(message.contains("once per --remote-lower"), "{message}");
    assert_eq!(
        message,
        "--remote-lower-dir must be given once per --remote-lower, or not at all \
         (1 dir(s) for 2 streamed lower(s)); pass an empty value to leave one purely streamed"
    );
}

#[test]
fn a_spec_without_a_size_is_refused() {
    let err = cli::remote_lowers(&specs(&["sha256:aa"]), &dirs(&[])).expect_err("needs DIGEST=SIZE");
    let message = err.message();
    assert!(message.contains("DIGEST=SIZE"), "{message}");
    assert_eq!(message, "--remote-lower must be DIGEST=SIZE: sha256:aa");
}

#[test]
fn a_spec_can_name_its_own_cache_dir() {
    let config = rendered(
        &specs(&["sha256:aa=10", "sha256:bb=20=/cache/b=b", "sha256:cc=30="]),
        &dirs(&[]),
    );
    assert!(config["lowers"][0].get("dir").is_none(), "{config}");
    assert_eq!(config["lowers"][1]["dir"], Value::from("/cache/b=b"));
    assert_eq!(config["lowers"][1]["size"], Value::from(20));
    assert!(config["lowers"][2].get("dir").is_none(), "{config}");
}

#[test]
fn a_bad_size_or_digest_is_refused() {
    let err = cli::remote_lowers(&specs(&["sha256:aa=ten"]), &dirs(&[])).expect_err("not a number");
    assert!(matches!(&err, ArgError::BadSize { size, .. } if size == "ten"));
    assert_eq!(
        err.message(),
        "--remote-lower size must be a byte count: sha256:aa=ten"
    );
    let err = cli::remote_lowers(&specs(&["sha256:aa=1", "md5:bb=2"]), &dirs(&[]))
        .expect_err("not a sha256");
    assert!(matches!(&err, ArgError::BadDigest { digest } if digest == "md5:bb"));
    assert_eq!(err.message(), "layer digest must be `sha256:...`: md5:bb");
    let err = cli::remote_lowers(&specs(&["sha256:aa=18446744073709551616"]), &dirs(&[]))
        .expect_err("too large");
    assert!(matches!(err, ArgError::BadSize { .. }));
    assert!(cli::remote_lowers(&specs(&["sha256:aa=18446744073709551615"]), &dirs(&[])).is_ok());
}

#[test]
fn config_arguments_become_a_config() {
    let args = cli::ConfigArgs {
        result_file: p("/r"),
        lowers: dirs(&["/base", "/job.commit"]),
        remote_lowers: specs(&["sha256:aa=10"]),
        remote_lower_dirs: dirs(&["/cache"]),
        repo_blob_url: Some("https://x/blobs///".to_string()),
        upper_data: Some(p("/u.data")),
        upper_index: Some(p("/u.index")),
    };
    let config = cli::config(&args).expect("builds");
    assert!(config.has_remote_lowers());
    assert_eq!(config.result_file().display(), "/r");
    assert_eq!(
        config.to_json().unwrap(),
        r#"{
  "repoBlobUrl": "https://x/blobs",
  "lowers": [
    {
      "file": "/base"
    },
    {
      "file": "/job.commit"
    },
    {
      "digest": "sha256:aa",
      "size": 10,
      "dir": "/cache"
    }
  ],
  "upper": {
    "index": "/u.index",
    "data": "/u.data"
  },
  "resultFile": "/r"
}"#
    );

    let lone_data = cli::ConfigArgs {
        lowers: dirs(&[]),
        remote_lowers: specs(&[]),
        remote_lower_dirs: dirs(&[]),
        repo_blob_url: None,
        upper_index: None,
        ..args
    };
    let config = cli::config(&lone_data).expect("builds");
    assert_eq!(
        config.to_json().unwrap(),
        "{\n  \"lowers\": [],\n  \"resultFile\": \"/r\"\n}"
    );
}

#[test]
fn a_path_that_is_not_utf8_is_shown_with_replacements() {
    let odd = HostPath {
        bytes: vec![b'/', 0xff, b'x'],
    };
    assert_eq!(odd.display(), "/\u{fffd}x");
    assert!(odd.to_text().is_none());
    assert_eq!(p("/ü").to_text().as_deref(), Some("/ü"));
    let config = DeviceConfig::new(odd);
    assert_eq!(parse(&config)["resultFile"], Value::from("/\u{fffd}x"));
}

#[test]
fn writing_a_config_reports_what_failed() {
    let failure = IoFailure {
        os_code: Some(13),
        message: "Permission denied".to_string(),
    };
    let config = DeviceConfig::new(p("/r"));

    let writing = config.write(p("/etc/x/device.json"));
    let parents = Parents::Failed {
        parent: p("/etc/x"),
        source: failure.clone(),
    };
    match writing.resume(ConfigReply::Parents(parents)) {
        Progress::Finished(Err(Error::Io { context, source })) => {
            assert_eq!(context, "creating /etc/x");
            assert_eq!(source.os_code, Some(13));
        }
        other => panic!("{other:?}"),
    }

    // Answers to another question change nothing.
    let writing = config.write(p("/d.json"));
    let writing = match writing.resume(ConfigReply::Wrote(Ok(()))) {
        Progress::Running(next) => next,
        other => panic!("{other:?}"),
    };
    let writing = match writing.resume(ConfigReply::Parents(Parents::Ready)) {
        Progress::Running(next) => next,
        other => panic!("{other:?}"),
    };
    match writing.resume(ConfigReply::Wrote(Err(failure))) {
        Progress::Finished(Err(Error::Io { context, .. })) => {
            assert_eq!(context, "writing /d.json");
        }
        other => panic!("{other:?}"),
    }

    // The directory is made before the config is refused.
    let refused = DeviceConfig::new(p("/r")).lower(Lower::remote("sha256:a", 1).unwrap());
    let writing = refused.write(p("/d.json"));
    assert!(matches!(writing.op(), ConfigOp::CreateParents(_)));
    assert!(matches!(
        writing.resume(ConfigReply::Parents(Parents::Ready)),
        Progress::Finished(Err(Error::MissingRepoBlobUrl))
    ));
}

#[test]
fn an_io_failure_becomes_an_error() {
    let error = Error::from(IoFailure {
        os_code: None,
        message: "gone".to_string(),
    });
    assert!(matches!(error, Error::Io { context, source } if context == "io" && source.message == "gone"));
}

#[test]
fn verbosity_picks_the_filter() {
    assert_eq!(cli::default_filter(0), "obd=info,obdctl=info");
    assert_eq!(cli::default_filter(1), "obd=debug,obdctl=debug");
    assert_eq!(cli::default_filter(2), "obd=trace,obdctl=trace");
    assert_eq!(cli::default_filter(255), "obd=trace,obdctl=trace");
}

#[test]
fn errors_say_what_went_wrong() {
    let gone = || IoFailure {
        os_code: Some(2),
        message: "No such file or directory (os error 2)".to_string(),
    };
    let cases = [
        (
            Error::UnsupportedPlatform { os: "macos" },
            "overlaybd device operations require Linux (configfs + target_core_user); \
             this binary was built for macos",
        ),
        (
            Error::ToolMissing {
                name: "overlaybd-create",
                searched: vec![p("/opt/overlaybd/bin/overlaybd-create"), p("/a \"b\"/x")],
            },
            "overlaybd binary `overlaybd-create` not found in \
             [\"/opt/overlaybd/bin/overlaybd-create\", \"/a \\\"b\\\"/x\"]; \
             run scripts/install-overlaybd.sh, or set OVERLAYBD_BIN_DIR",
        ),
        (
            Error::ToolMissing {
                name: "x",
                searched: vec![],
            },
            "overlaybd binary `x` not found in []; \
             run scripts/install-overlaybd.sh, or set OVERLAYBD_BIN_DIR",
        ),
        (
            Error::ToolFailed {
                command: "\"x\" \"-s\"".to_string(),
                code: "1".to_string(),
                output: "torn".to_string(),
            },
            "`\"x\" \"-s\"` failed (1):\ntorn",
        ),
        (
            Error::LaunchFailed {
                device: "poc_a".to_string(),
                result: "<empty>".to_string(),
                log: "/var/log/overlaybd.log".to_string(),
                tail: "a\nb".to_string(),
            },
            "overlaybd refused to launch `poc_a`: resultFile=<empty>\n\
             --- /var/log/overlaybd.log ---\na\nb",
        ),
        (
            Error::NoBlockDevice {
                device: "poc_a".to_string(),
                path: "/sys/x".to_string(),
                seen: "<nothing>".to_string(),
            },
            "no usable block device appeared for `poc_a` at /sys/x (sysfs saw <nothing>); \
             is udev running? check dmesg for tcm_loop errors",
        ),
        (
            Error::Busy {
                path: p("/mnt/a"),
                source: gone(),
            },
            "could not unmount /mnt/a: No such file or directory (os error 2)\n\
             an open file descriptor on the mount is the usual cause - drop any cap-std Dir \
             (and anything derived from it) before unmounting",
        ),
        (
            Error::BadDeviceName {
                name: "sda".to_string(),
                prefix: "poc_",
            },
            "device name must start with `poc_`: sda",
        ),
        (
            Error::BadDigest {
                digest: "md5:abc".to_string(),
            },
            "layer digest must be `sha256:...`: md5:abc",
        ),
        (
            Error::MissingRepoBlobUrl,
            "remote lowers need a repo_blob_url (overlaybd rejects an empty repoBlobUrl)",
        ),
        (
            Error::LayerExists { path: p("/x") },
            "refusing to overwrite existing layer /x: overlaybd-create opens outputs O_EXCL",
        ),
        (
            Error::Io {
                context: "creating /x".to_string(),
                source: gone(),
            },
            "creating /x: No such file or directory (os error 2)",
        ),
        (
            Error::Json {
                message: "odd".to_string(),
            },
            "could not serialise the device config: odd",
        ),
    ];
    for (error, message) in cases {
        assert_eq!(error.message(), message);
    }
}
