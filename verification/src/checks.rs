//! Whether a host can drive overlaybd devices at all.

use vstd::prelude::*;

use crate::configfs::CONFIGFS;
use crate::host::Platform;
use crate::path;
use crate::path::joined;
use crate::path::shown;
use crate::path::HostPath;
use crate::text;
use crate::tools;

verus! {

/// One preflight finding.
#[derive(Debug, Clone, PartialEq, Eq)]
pub struct Check {
    pub name: String,
    pub ok: bool,
    /// What to do about it, when it failed.
    pub hint: Option<String>,
}

/// What a finding says.
pub struct CheckView {
    pub name: Seq<char>,
    pub ok: bool,
    pub hint: Option<Seq<char>>,
}

impl View for Check {
    type V = CheckView;

    open spec fn view(&self) -> CheckView {
        CheckView {
            name: self.name@,
            ok: self.ok,
            hint: match self.hint {
                Some(hint) => Some(hint@),
                None => None,
            },
        }
    }
}

impl CheckView {
    /// A check that passed.
    pub open spec fn passed(name: Seq<char>) -> CheckView {
        CheckView { name, ok: true, hint: None }
    }

    /// A check that failed.
    pub open spec fn failed(name: Seq<char>, hint: Seq<char>) -> CheckView {
        CheckView { name, ok: false, hint: Some(hint) }
    }

    /// A check that passed or failed.
    pub open spec fn judged(ok: bool, name: Seq<char>, hint: Seq<char>) -> CheckView {
        if ok {
            CheckView::passed(name)
        } else {
            CheckView::failed(name, hint)
        }
    }
}

/// What a sequence of findings says.
pub open spec fn check_views(checks: Seq<Check>) -> Seq<CheckView> {
    Seq::new(checks.len(), |i: int| checks[i]@)
}

impl Check {
    fn pass(name: &str) -> (check: Self)
        ensures
            check@ == CheckView::passed(name@),
    {
        Check { name: name.to_owned(), ok: true, hint: None }
    }

    fn fail(name: &str, hint: &str) -> (check: Self)
        ensures
            check@ == CheckView::failed(name@, hint@),
    {
        Check { name: name.to_owned(), ok: false, hint: Some(hint.to_owned()) }
    }

    fn judge(ok: bool, name: &str, hint: &str) -> (check: Self)
        ensures
            check@ == CheckView::judged(ok, name@, hint@),
    {
        if ok {
            Check::pass(name)
        } else {
            Check::fail(name, hint)
        }
    }
}

/// The kernel modules that a device needs.
pub const MODULES: [&'static str; 2] = ["target_core_user", "tcm_loop"];

/// Where the kernel lists a module that is loaded.
pub fn module_dir(module: &str) -> (path: String)
    ensures
        path@ == joined("/sys/module"@, module@),
{
    path::join("/sys/module", module)
}

/// The baselayer: the one that `OVERLAYBD_BASELAYER` names, if it names one.
pub fn baselayer(named: Option<&str>) -> (path: HostPath)
    ensures
        path@ == vstd::utf8::encode_utf8(
            match named {
                Some(named) => named@,
                None => tools::DEFAULT_BASELAYER@,
            },
        ),
        shown(path@) == (match named {
            Some(named) => named@,
            None => tools::DEFAULT_BASELAYER@,
        }),
{
    match named {
        Some(named) => HostPath::new(named),
        None => HostPath::new(tools::DEFAULT_BASELAYER),
    }
}

/// What was found out about a host.
#[derive(Debug)]
pub struct HostFacts {
    pub platform: Platform,
    /// Where `overlaybd-create` was found, if anywhere.
    pub create: Option<HostPath>,
    /// Where `overlaybd-commit` was found, if anywhere.
    pub commit: Option<HostPath>,
    pub baselayer: HostPath,
    /// Whether the baselayer is a file.
    pub has_baselayer: bool,
    /// Whether configfs is mounted, with the target subsystem in it.
    pub has_configfs: bool,
    /// Whether `target_core_user` is loaded.
    pub has_target_core_user: bool,
    /// Whether `tcm_loop` is loaded.
    pub has_tcm_loop: bool,
    /// Whether the process runs as root.
    pub is_root: bool,
}

/// The finding about a binary.
pub open spec fn tool_check(binary: Seq<char>, found: Option<HostPath>) -> CheckView {
    match found {
        Some(path) => CheckView::passed(binary + " at "@ + shown(path@)),
        None => CheckView::failed(
            binary,
            "sudo ./scripts/install-overlaybd.sh (installs containerd-overlaybd from PMC and wires /opt/overlaybd)"@,
        ),
    }
}

impl HostFacts {
    /// What is to be said about the host.
    pub open spec fn findings(self) -> Seq<CheckView> {
        seq![
            CheckView::judged(
                self.platform.linux,
                "linux host"@,
                "configfs and TCMU are Linux-only; this binary is built for "@ + self.platform.os@,
            ),
            tool_check(tools::CREATE@, self.create),
            tool_check(tools::COMMIT@, self.commit),
            CheckView::judged(
                self.has_baselayer,
                "baselayer "@ + shown(self.baselayer@),
                "sudo ./scripts/install-overlaybd.sh, or set OVERLAYBD_BASELAYER to an ext4 layer"@,
            ),
            CheckView::judged(
                self.has_configfs,
                "configfs at "@ + CONFIGFS@,
                "sudo modprobe target_core_user tcm_loop && sudo mount -t configfs none /sys/kernel/config"@,
            ),
            CheckView::judged(
                self.has_target_core_user,
                "module "@ + MODULES@[0]@,
                "sudo modprobe "@ + MODULES@[0]@,
            ),
            CheckView::judged(
                self.has_tcm_loop,
                "module "@ + MODULES@[1]@,
                "sudo modprobe "@ + MODULES@[1]@,
            ),
        ] + if self.platform.linux {
            seq![
                CheckView::judged(
                    self.is_root,
                    "running as root"@,
                    "configfs and mount(2) need root; re-run with sudo"@,
                ),
            ]
        } else {
            Seq::empty()
        }
    }
}

fn check_tool(binary: &str, found: &Option<HostPath>) -> (check: Check)
    ensures
        check@ == tool_check(binary@, *found),
{
    match found {
        Some(path) => {
            let place = path.display();
            Check::pass(binary.to_owned().concat(" at ").concat(place.as_str()).as_str())
        },
        None => Check::fail(
            binary,
            "sudo ./scripts/install-overlaybd.sh (installs containerd-overlaybd from PMC and wires /opt/overlaybd)",
        ),
    }
}

fn check_module(module: &str, loaded: bool) -> (check: Check)
    ensures
        check@ == CheckView::judged(loaded, "module "@ + module@, "sudo modprobe "@ + module@),
{
    let name = "module ".to_owned().concat(module);
    let hint = "sudo modprobe ".to_owned().concat(module);
    Check::judge(loaded, name.as_str(), hint.as_str())
}

/// Check that a host can actually drive overlaybd devices.
pub fn preflight(facts: &HostFacts) -> (checks: Vec<Check>)
    ensures
        check_views(checks@) == facts.findings(),
{
    let mut checks: Vec<Check> = Vec::new();
    let foreign = "configfs and TCMU are Linux-only; this binary is built for ".to_owned().concat(
        facts.platform.os,
    );
    checks.push(Check::judge(facts.platform.linux, "linux host", foreign.as_str()));
    checks.push(check_tool(tools::CREATE, &facts.create));
    checks.push(check_tool(tools::COMMIT, &facts.commit));
    let layer = facts.baselayer.display();
    checks.push(
        Check::judge(
            facts.has_baselayer,
            "baselayer ".to_owned().concat(layer.as_str()).as_str(),
            "sudo ./scripts/install-overlaybd.sh, or set OVERLAYBD_BASELAYER to an ext4 layer",
        ),
    );
    checks.push(
        Check::judge(
            facts.has_configfs,
            "configfs at ".to_owned().concat(CONFIGFS).as_str(),
            "sudo modprobe target_core_user tcm_loop && sudo mount -t configfs none /sys/kernel/config",
        ),
    );
    checks.push(check_module(MODULES[0], facts.has_target_core_user));
    checks.push(check_module(MODULES[1], facts.has_tcm_loop));
    if facts.platform.linux {
        checks.push(
            Check::judge(
                facts.is_root,
                "running as root",
                "configfs and mount(2) need root; re-run with sudo",
            ),
        );
    }
    assert(check_views(checks@) =~= facts.findings());
    checks
}

/// A check that failed says what to do about it, and one that passed has nothing
/// to say.
pub proof fn law_every_failed_check_has_a_hint(facts: HostFacts, i: int)
    requires
        0 <= i < facts.findings().len(),
    ensures
        facts.findings()[i].ok <==> facts.findings()[i].hint is None,
{
}

/// A host passes exactly when it is Linux with everything in place and the
/// process is root.
pub proof fn law_a_host_passes_when_everything_is_there(facts: HostFacts)
    ensures
        (forall|i: int| 0 <= i < facts.findings().len() ==> (#[trigger] facts.findings()[i]).ok)
            <==> facts.platform.linux && facts.create is Some && facts.commit is Some
            && facts.has_baselayer && facts.has_configfs && facts.has_target_core_user
            && facts.has_tcm_loop && facts.is_root,
{
    let findings = facts.findings();
    assert(findings[0].ok == facts.platform.linux);
    assert(findings[1].ok == (facts.create is Some));
    assert(findings[2].ok == (facts.commit is Some));
    assert(findings[3].ok == facts.has_baselayer);
    assert(findings[4].ok == facts.has_configfs);
    assert(findings[5].ok == facts.has_target_core_user);
    assert(findings[6].ok == facts.has_tcm_loop);
    if facts.platform.linux {
        assert(findings[7].ok == facts.is_root);
    }
}

/// Each finding says what it is about and is fine exactly where its own fact is:
/// the host, the two binaries and where they are, the baselayer and where it was
/// looked for, configfs, the two modules and, on Linux, the process's rights.
pub proof fn law_each_finding_is_about_its_own_fact(facts: HostFacts)
    ensures
        ({
            let found = facts.findings();
            &&& found.len() == (if facts.platform.linux {
                8nat
            } else {
                7nat
            })
            &&& found[0].name == "linux host"@ && found[0].ok == facts.platform.linux
            &&& match facts.create {
                Some(path) => found[1].ok && found[1].name == "overlaybd-create"@ + " at "@ + shown(
                    path@,
                ),
                None => !found[1].ok && found[1].name == "overlaybd-create"@,
            }
            &&& match facts.commit {
                Some(path) => found[2].ok && found[2].name == "overlaybd-commit"@ + " at "@ + shown(
                    path@,
                ),
                None => !found[2].ok && found[2].name == "overlaybd-commit"@,
            }
            &&& found[3].name == "baselayer "@ + shown(facts.baselayer@) && found[3].ok
                == facts.has_baselayer
            &&& found[4].name == "configfs at /sys/kernel/config/target"@ && found[4].ok
                == facts.has_configfs
            &&& found[5].name == "module target_core_user"@ && found[5].ok
                == facts.has_target_core_user
            &&& found[6].name == "module tcm_loop"@ && found[6].ok == facts.has_tcm_loop
            &&& facts.platform.linux ==> found[7].name == "running as root"@ && found[7].ok
                == facts.is_root
        }),
{
    reveal_strlit("configfs at ");
    reveal_strlit("/sys/kernel/config/target");
    reveal_strlit("configfs at /sys/kernel/config/target");
    reveal_strlit("module ");
    reveal_strlit("target_core_user");
    reveal_strlit("tcm_loop");
    reveal_strlit("module target_core_user");
    reveal_strlit("module tcm_loop");
    assert("configfs at "@ + "/sys/kernel/config/target"@
        =~= "configfs at /sys/kernel/config/target"@);
    assert("module "@ + "target_core_user"@ =~= "module target_core_user"@);
    assert("module "@ + "tcm_loop"@ =~= "module tcm_loop"@);
}

/// What to do about a module that is not loaded names that module, and a host
/// that is not Linux is told what the binary was built for.
pub proof fn law_a_hint_names_what_is_missing(facts: HostFacts)
    ensures
        !facts.platform.linux ==> (facts.findings()[0].hint matches Some(hint) && text::holds_text(
            hint,
            facts.platform.os@,
        )),
        !facts.has_target_core_user ==> facts.findings()[5].hint == Some(
            "sudo modprobe target_core_user"@,
        ),
        !facts.has_tcm_loop ==> facts.findings()[6].hint == Some("sudo modprobe tcm_loop"@),
{
    reveal_strlit("sudo modprobe ");
    reveal_strlit("target_core_user");
    reveal_strlit("tcm_loop");
    reveal_strlit("sudo modprobe target_core_user");
    reveal_strlit("sudo modprobe tcm_loop");
    assert("sudo modprobe "@ + "target_core_user"@ =~= "sudo modprobe target_core_user"@);
    assert("sudo modprobe "@ + "tcm_loop"@ =~= "sudo modprobe tcm_loop"@);
    if !facts.platform.linux {
        let front = "configfs and TCMU are Linux-only; this binary is built for "@;
        assert(front + facts.platform.os@ =~= front + facts.platform.os@ + Seq::empty());
    }
}

} // verus!
