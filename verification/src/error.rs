//! Error type for the overlaybd device lifecycle.

use vstd::prelude::*;

use crate::path::byte_names;
use crate::path::quoted_text;
use crate::path::shown;
use crate::path::HostPath;
use crate::text;
use crate::text::texts;

verus! {

/// Why a host operation failed.
#[derive(Debug, Clone)]
pub struct IoFailure {
    /// The operating system's error number, where the failure came from it.
    pub os_code: Option<i32>,
    /// The failure in words.
    pub message: String,
}

#[derive(Debug)]
pub enum Error {
    /// configfs, TCMU and `mount(2)` are Linux-only. The types exist on other
    /// platforms, but the operations refuse to run.
    UnsupportedPlatform { os: &'static str },
    /// An `overlaybd-*` binary is in none of the places it was looked for.
    ToolMissing { name: &'static str, searched: Vec<HostPath> },
    /// An `overlaybd-*` binary ran and failed.
    ToolFailed { command: String, code: String, output: String },
    /// overlaybd reports launch failures through the device's `resultFile`
    /// rather than through the configfs write, so this is checked explicitly.
    LaunchFailed { device: String, result: String, log: String, tail: String },
    /// No node for the device became usable in time.
    NoBlockDevice { device: String, path: String, seen: String },
    /// The mount could not be unmounted.
    Busy { path: HostPath, source: IoFailure },
    /// A device name without the prefix that the cleanup sweep looks for.
    BadDeviceName { name: String, prefix: &'static str },
    /// A layer digest that is not `sha256:...`.
    BadDigest { digest: String },
    /// A streamed lower, but no base URL to stream it from.
    MissingRepoBlobUrl,
    /// An output that already exists.
    LayerExists { path: HostPath },
    /// A host operation failed.
    Io { context: String, source: IoFailure },
    /// The device config could not be serialised.
    Json { message: String },
}

/// Whether `error` is an I/O error that reads `context` and stems from `source`.
pub open spec fn is_io(error: Error, context: Seq<char>, source: IoFailure) -> bool {
    error matches Error::Io { context: c, source: s } && c@ == context && s == source
}

/// The paths in quotes.
pub open spec fn quoted_each(paths: Seq<Seq<u8>>) -> Seq<Seq<char>> {
    Seq::new(paths.len(), |i: int| quoted_text(shown(paths[i])))
}

/// The paths as a list in brackets.
fn quoted_list(paths: &Vec<HostPath>) -> (list: String)
    ensures
        list@ == "["@ + text::glued(quoted_each(byte_names(paths@)), ", "@) + "]"@,
{
    let ghost all = quoted_each(byte_names(paths@));
    let mut quoted: Vec<String> = Vec::new();
    let mut i: usize = 0;
    while i < paths.len()
        invariant
            i <= paths.len(),
            all == quoted_each(byte_names(paths@)),
            texts(quoted@) == all.take(i as int),
        decreases paths.len() - i,
    {
        let ghost before = texts(quoted@);
        quoted.push(paths[i].quoted());
        assert(texts(quoted@) =~= before.push(all[i as int]));
        assert(all.take(i as int).push(all[i as int]) =~= all.take(i + 1));
        i += 1;
    }
    assert(all.take(i as int) =~= all);
    assert(texts(quoted@).skip(0) =~= all);
    let inner = text::glue(&quoted, 0, ", ");
    "[".to_owned().concat(inner.as_str()).concat("]")
}

impl Error {
    /// The error in words.
    pub open spec fn words(self) -> Seq<char> {
        match self {
            Error::UnsupportedPlatform { os } => {
                "overlaybd device operations require Linux (configfs + target_core_user); this binary was built for "@
                    + os@
            },
            Error::ToolMissing { name, searched } => "overlaybd binary `"@ + name@
                + "` not found in ["@ + text::glued(quoted_each(byte_names(searched@)), ", "@)
                + "]; run scripts/install-overlaybd.sh, or set OVERLAYBD_BIN_DIR"@,
            Error::ToolFailed { command, code, output } => "`"@ + command@ + "` failed ("@ + code@
                + "):\n"@ + output@,
            Error::LaunchFailed { device, result, log, tail } => "overlaybd refused to launch `"@
                + device@ + "`: resultFile="@ + result@ + "\n--- "@ + log@ + " ---\n"@ + tail@,
            Error::NoBlockDevice { device, path, seen } => {
                "no usable block device appeared for `"@ + device@ + "` at "@ + path@
                    + " (sysfs saw "@ + seen@
                    + "); is udev running? check dmesg for tcm_loop errors"@
            },
            Error::Busy { path, source } => "could not unmount "@ + shown(path@) + ": "@
                + source.message@
                + "\nan open file descriptor on the mount is the usual cause - drop any cap-std Dir (and anything derived from it) before unmounting"@,
            Error::BadDeviceName { name, prefix } => "device name must start with `"@ + prefix@
                + "`: "@ + name@,
            Error::BadDigest { digest } => "layer digest must be `sha256:...`: "@ + digest@,
            Error::MissingRepoBlobUrl => {
                "remote lowers need a repo_blob_url (overlaybd rejects an empty repoBlobUrl)"@
            },
            Error::LayerExists { path } => "refusing to overwrite existing layer "@ + shown(path@)
                + ": overlaybd-create opens outputs O_EXCL"@,
            Error::Io { context, source } => context@ + ": "@ + source.message@,
            Error::Json { message } => "could not serialise the device config: "@ + message@,
        }
    }

    /// The error in words.
    pub fn message(&self) -> (message: String)
        ensures
            message@ == self.words(),
    {
        match self {
            Error::UnsupportedPlatform { os } => {
                "overlaybd device operations require Linux (configfs + target_core_user); this binary was built for ".to_owned().concat(
                    os,
                )
            },
            Error::ToolMissing { name, searched } => {
                let places = quoted_list(searched);
                let message = "overlaybd binary `".to_owned().concat(name).concat(
                    "` not found in ",
                ).concat(places.as_str()).concat(
                    "; run scripts/install-overlaybd.sh, or set OVERLAYBD_BIN_DIR",
                );
                proof {
                    reveal_strlit("` not found in [");
                    reveal_strlit("` not found in ");
                    reveal_strlit("[");
                    reveal_strlit("]; run scripts/install-overlaybd.sh, or set OVERLAYBD_BIN_DIR");
                    reveal_strlit("; run scripts/install-overlaybd.sh, or set OVERLAYBD_BIN_DIR");
                    reveal_strlit("]");
                    assert("` not found in ["@ =~= "` not found in "@ + "["@);
                    assert("]; run scripts/install-overlaybd.sh, or set OVERLAYBD_BIN_DIR"@
                        =~= "]"@ + "; run scripts/install-overlaybd.sh, or set OVERLAYBD_BIN_DIR"@);
                    assert(message@ =~= self.words());
                }
                message
            },
            Error::ToolFailed { command, code, output } => "`".to_owned().concat(
                command.as_str(),
            ).concat("` failed (").concat(code.as_str()).concat("):\n").concat(output.as_str()),
            Error::LaunchFailed { device, result, log, tail } => {
                "overlaybd refused to launch `".to_owned().concat(device.as_str()).concat(
                    "`: resultFile=",
                ).concat(result.as_str()).concat("\n--- ").concat(log.as_str()).concat(
                    " ---\n",
                ).concat(tail.as_str())
            },
            Error::NoBlockDevice { device, path, seen } => {
                "no usable block device appeared for `".to_owned().concat(device.as_str()).concat(
                    "` at ",
                ).concat(path.as_str()).concat(" (sysfs saw ").concat(seen.as_str()).concat(
                    "); is udev running? check dmesg for tcm_loop errors",
                )
            },
            Error::Busy { path, source } => "could not unmount ".to_owned().concat(
                path.display().as_str(),
            ).concat(": ").concat(source.message.as_str()).concat(
                "\nan open file descriptor on the mount is the usual cause - drop any cap-std Dir (and anything derived from it) before unmounting",
            ),
            Error::BadDeviceName { name, prefix } => {
                "device name must start with `".to_owned().concat(prefix).concat("`: ").concat(
                    name.as_str(),
                )
            },
            Error::BadDigest { digest } => {
                "layer digest must be `sha256:...`: ".to_owned().concat(digest.as_str())
            },
            Error::MissingRepoBlobUrl => {
                "remote lowers need a repo_blob_url (overlaybd rejects an empty repoBlobUrl)".to_owned()
            },
            Error::LayerExists { path } => {
                "refusing to overwrite existing layer ".to_owned().concat(
                    path.display().as_str(),
                ).concat(": overlaybd-create opens outputs O_EXCL")
            },
            Error::Io { context, source } => context.clone().concat(": ").concat(
                source.message.as_str(),
            ),
            Error::Json { message } => "could not serialise the device config: ".to_owned().concat(
                message.as_str(),
            ),
        }
    }

    /// A failed host operation, with what was being done.
    pub fn io(context: String, source: IoFailure) -> (error: Self)
        ensures
            error == (Error::Io { context, source }),
    {
        Error::Io { context, source }
    }

    /// What device operations answer on a platform other than Linux.
    pub fn unsupported(os: &'static str) -> (error: Self)
        ensures
            error == (Error::UnsupportedPlatform { os }),
    {
        Error::UnsupportedPlatform { os }
    }
}

impl From<IoFailure> for Error {
    fn from(source: IoFailure) -> (error: Self)
        ensures
            is_io(error, "io"@, source),
    {
        Error::Io { context: "io".to_owned(), source }
    }
}

impl vstd::std_specs::convert::FromSpecImpl<IoFailure> for Error {
    open spec fn obeys_from_spec() -> bool {
        false
    }

    open spec fn from_spec(source: IoFailure) -> Self {
        arbitrary()
    }
}

/// An error in words quotes everything that it knows, as it is: names, paths,
/// reports, logs and the host's own words.
pub proof fn law_an_error_quotes_what_it_knows(error: Error)
    ensures
        ({
            let words = error.words();
            match error {
                Error::UnsupportedPlatform { os } => text::holds_text(words, os@),
                Error::ToolMissing { name, searched } => {
                    &&& text::holds_text(words, name@)
                    &&& forall|i: int|
                        0 <= i < searched@.len() ==> text::holds_text(
                            words,
                            quoted_text(shown((#[trigger] searched@[i])@)),
                        )
                },
                Error::ToolFailed { command, code, output } => {
                    &&& text::holds_text(words, command@)
                    &&& text::holds_text(words, code@)
                    &&& text::holds_text(words, output@)
                },
                Error::LaunchFailed { device, result, log, tail } => {
                    &&& text::holds_text(words, device@)
                    &&& text::holds_text(words, result@)
                    &&& text::holds_text(words, log@)
                    &&& text::holds_text(words, tail@)
                },
                Error::NoBlockDevice { device, path, seen } => {
                    &&& text::holds_text(words, device@)
                    &&& text::holds_text(words, path@)
                    &&& text::holds_text(words, seen@)
                },
                Error::Busy { path, source } => {
                    &&& text::holds_text(words, shown(path@))
                    &&& text::holds_text(words, source.message@)
                },
                Error::BadDeviceName { name, prefix } => {
                    &&& text::holds_text(words, name@)
                    &&& text::holds_text(words, prefix@)
                },
                Error::BadDigest { digest } => text::holds_text(words, digest@),
                Error::MissingRepoBlobUrl => text::holds_text(words, "repoBlobUrl"@),
                Error::LayerExists { path } => text::holds_text(words, shown(path@)),
                Error::Io { context, source } => {
                    &&& text::holds_text(words, context@)
                    &&& text::holds_text(words, source.message@)
                },
                Error::Json { message } => text::holds_text(words, message@),
            }
        }),
{
    let words = error.words();
    let none = Seq::<char>::empty();
    match error {
        Error::UnsupportedPlatform { os } => {
            assert(words
                =~= "overlaybd device operations require Linux (configfs + target_core_user); this binary was built for "@
                + os@ + none);
        },
        Error::ToolMissing { name, searched } => {
            let quoted = quoted_each(byte_names(searched@));
            let list = text::glued(quoted, ", "@);
            let front = "overlaybd binary `"@;
            let between = "` not found in ["@;
            let back = "]; run scripts/install-overlaybd.sh, or set OVERLAYBD_BIN_DIR"@;
            assert(words =~= front + name@ + (between + list + back));
            assert(words =~= (front + name@ + between) + list + back);
            assert forall|i: int| 0 <= i < searched@.len() implies text::holds_text(
                words,
                quoted_text(shown((#[trigger] searched@[i])@)),
            ) by {
                text::law_a_glued_text_holds_its_parts(quoted, ", "@, i);
                assert(quoted[i] == quoted_text(shown(searched@[i]@)));
                text::lemma_holds_within(words, list, quoted[i]);
            }
        },
        Error::ToolFailed { command, code, output } => {
            let a = "`"@;
            let b = "` failed ("@;
            let c = "):\n"@;
            assert(words =~= a + command@ + (b + code@ + c + output@));
            assert(words =~= (a + command@ + b) + code@ + (c + output@));
            assert(words =~= (a + command@ + b + code@ + c) + output@ + none);
        },
        Error::LaunchFailed { device, result, log, tail } => {
            let a = "overlaybd refused to launch `"@;
            let b = "`: resultFile="@;
            let c = "\n--- "@;
            let d = " ---\n"@;
            assert(words =~= a + device@ + (b + result@ + c + log@ + d + tail@));
            assert(words =~= (a + device@ + b) + result@ + (c + log@ + d + tail@));
            assert(words =~= (a + device@ + b + result@ + c) + log@ + (d + tail@));
            assert(words =~= (a + device@ + b + result@ + c + log@ + d) + tail@ + none);
        },
        Error::NoBlockDevice { device, path, seen } => {
            let a = "no usable block device appeared for `"@;
            let b = "` at "@;
            let c = " (sysfs saw "@;
            let d = "); is udev running? check dmesg for tcm_loop errors"@;
            assert(words =~= a + device@ + (b + path@ + c + seen@ + d));
            assert(words =~= (a + device@ + b) + path@ + (c + seen@ + d));
            assert(words =~= (a + device@ + b + path@ + c) + seen@ + d);
        },
        Error::Busy { path, source } => {
            let a = "could not unmount "@;
            let b = ": "@;
            let c =
                "\nan open file descriptor on the mount is the usual cause - drop any cap-std Dir (and anything derived from it) before unmounting"@;
            assert(words =~= a + shown(path@) + (b + source.message@ + c));
            assert(words =~= (a + shown(path@) + b) + source.message@ + c);
        },
        Error::BadDeviceName { name, prefix } => {
            let a = "device name must start with `"@;
            assert(words =~= a + prefix@ + ("`: "@ + name@));
            assert(words =~= (a + prefix@ + "`: "@) + name@ + none);
        },
        Error::BadDigest { digest } => {
            assert(words =~= "layer digest must be `sha256:...`: "@ + digest@ + none);
        },
        Error::MissingRepoBlobUrl => {
            reveal_strlit(
                "remote lowers need a repo_blob_url (overlaybd rejects an empty repoBlobUrl)",
            );
            reveal_strlit("repoBlobUrl");
            assert(words.take(63) + "repoBlobUrl"@ + words.skip(74) =~= words);
        },
        Error::LayerExists { path } => {
            assert(words =~= "refusing to overwrite existing layer "@ + shown(path@)
                + ": overlaybd-create opens outputs O_EXCL"@);
        },
        Error::Io { context, source } => {
            assert(words =~= none + context@ + (": "@ + source.message@));
            assert(words =~= (context@ + ": "@) + source.message@ + none);
        },
        Error::Json { message } => {
            assert(words =~= "could not serialise the device config: "@ + message@ + none);
        },
    }
}

} // verus!
