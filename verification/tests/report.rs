//! What `obdctl` prints.

use obd::cli;
use obd::path::HostPath;
use obd::report;
use obd::Check;
use obd::PersistedDevice;
use obd::Swept;

fn p(text: &str) -> HostPath {
    HostPath::new(text)
}

fn odd() -> HostPath {
    HostPath {
        bytes: vec![b'/', 0xc3],
    }
}

fn checks() -> Vec<Check> {
    vec![
        Check {
            name: "linux host".to_string(),
            ok: true,
            hint: None,
        },
        Check {
            name: "running as root".to_string(),
            ok: false,
            hint: Some("sudo".to_string()),
        },
    ]
}

#[test]
fn a_preflight_is_listed_and_counted() {
    assert_eq!(report::blocking(&checks()), 1);
    assert_eq!(
        report::preflight_lines(&checks()),
        vec![
            "  [ok]   linux host",
            "  [FAIL] running as root",
            "         -> sudo",
            "",
            "preflight: FAIL (1 blocking)",
        ]
    );
    let good = vec![checks().remove(0)];
    assert_eq!(report::blocking(&good), 0);
    assert_eq!(
        report::preflight_lines(&good),
        vec!["  [ok]   linux host", "", "preflight: PASS"]
    );
    assert_eq!(
        report::preflight_json(&checks()),
        r#"[
  {
    "name": "linux host",
    "ok": true
  },
  {
    "name": "running as root",
    "ok": false,
    "hint": "sudo"
  }
]"#
    );
}

#[test]
fn layers_and_configs_are_reported() {
    assert_eq!(
        report::created_line(&p("/u.data"), &p("/u.index"), 64),
        "created sparse writable layer (64G virtual): /u.data / /u.index"
    );
    assert_eq!(
        report::created_json(&p("/u.data"), &p("/u.index"), 64).unwrap(),
        r#"{"data":"/u.data","index":"/u.index","virtual_size_gb":64}"#
    );
    assert!(report::created_json(&odd(), &p("/i"), 64).is_none());
    assert!(report::created_json(&p("/d"), &odd(), 64).is_none());
    assert_eq!(
        report::committed_line(&p("/job.commit"), 167936),
        "committed read-only layer: /job.commit (167936 bytes)"
    );
    assert_eq!(
        report::committed_json(&p("/job \"1\""), 167936).unwrap(),
        r#"{"layer":"/job \"1\"","size":167936}"#
    );
    assert!(report::committed_json(&odd(), 1).is_none());
    assert_eq!(
        report::config_line(&p("/d.json")),
        "wrote device config /d.json"
    );
    assert_eq!(
        report::config_json(&p("/d.json"), true).unwrap(),
        r#"{"config":"/d.json","remote_lowers":true}"#
    );
    assert!(report::config_json(&odd(), false).is_none());
}

#[test]
fn a_device_left_running_is_reported() {
    let mut persisted = PersistedDevice {
        name: "poc_a".to_string(),
        naa_suffix: "0021".to_string(),
        block_device: "/dev/sda".to_string(),
        mountpoint: None,
    };
    assert_eq!(
        report::persisted_lines(&persisted, Some("ignored")),
        vec!["device poc_a is /dev/sda"]
    );
    assert_eq!(
        report::persisted_json(&persisted).unwrap(),
        "{\n  \"name\": \"poc_a\",\n  \"naa_suffix\": \"0021\",\n  \"block_device\": \"/dev/sda\"\n}"
    );
    persisted.mountpoint = Some(p("/mnt/obd-a"));
    assert_eq!(
        report::persisted_lines(&persisted, None),
        vec!["device poc_a is /dev/sda", "mounted at /mnt/obd-a"]
    );
    assert_eq!(
        report::persisted_lines(&persisted, Some("job-out")),
        vec![
            "device poc_a is /dev/sda",
            "mounted at /mnt/obd-a",
            "subdir /mnt/obd-a/job-out"
        ]
    );
    assert_eq!(
        report::persisted_json(&persisted).unwrap(),
        r#"{
  "name": "poc_a",
  "naa_suffix": "0021",
  "block_device": "/dev/sda",
  "mountpoint": "/mnt/obd-a"
}"#
    );
    persisted.mountpoint = Some(odd());
    assert!(report::persisted_json(&persisted).is_none());
}

#[test]
fn a_device_taken_down_is_reported() {
    let mount = Some(p("/mnt/a"));
    assert_eq!(
        report::down_lines("poc_a", &mount, true),
        vec!["unmounted /mnt/a", "device poc_a torn down"]
    );
    assert_eq!(
        report::down_lines("poc_a", &mount, false),
        vec!["device poc_a torn down"]
    );
    assert_eq!(
        report::down_lines("poc_a", &None, true),
        vec!["device poc_a torn down"]
    );
    assert_eq!(
        report::down_json("poc_a", "0021", true),
        r#"{"naa_suffix":"0021","name":"poc_a","unmounted":true}"#
    );
}

#[test]
fn a_sweep_is_reported() {
    assert_eq!(
        report::swept_lines(&Swept::default()),
        vec!["nothing to clean up"]
    );
    let mut swept = Swept {
        nexuses: vec!["naa.5001405e0b0d0021".to_string()],
        backstores: vec!["poc_a".to_string(), "poc_b".to_string()],
        unmounted: vec![p("/mnt/a")],
    };
    assert_eq!(
        report::swept_lines(&swept),
        vec![
            "unmounted /mnt/a",
            "removed backstore poc_a",
            "removed backstore poc_b",
            "removed nexus naa.5001405e0b0d0021",
        ]
    );
    assert_eq!(
        report::swept_json(&swept).unwrap(),
        r#"{
  "nexuses": [
    "naa.5001405e0b0d0021"
  ],
  "backstores": [
    "poc_a",
    "poc_b"
  ],
  "unmounted": [
    "/mnt/a"
  ]
}"#
    );
    swept.unmounted.push(odd());
    assert!(report::swept_json(&swept).is_none());
}

#[test]
fn failures_say_what_was_being_done() {
    assert_eq!(
        cli::config_context(&p("/d.json")),
        "writing the device config /d.json"
    );
    assert_eq!(
        cli::create_context(&p("/u.data"), 64),
        "creating a 64G sparse writable layer at /u.data"
    );
    assert_eq!(
        cli::commit_context(&p("/u.data"), &p("/out")),
        "committing /u.data into the read-only layer /out"
    );
    assert_eq!(cli::CLEANUP_CONTEXT, "sweeping leftover overlaybd devices");
}
