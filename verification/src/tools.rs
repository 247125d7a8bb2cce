//! Drives the `overlaybd-*` binaries, plus binary discovery.

use vstd::prelude::*;
use vstd::utf8::encode_utf8;

use crate::error::is_io;
use crate::error::Error;
use crate::error::IoFailure;
use crate::host::Parents;
use crate::host::Progress;
use crate::path::byte_names;
use crate::path::joined_bytes;
use crate::path::show_bytes;
use crate::path::shown;
use crate::path::HostPath;
use crate::text;

verus! {

/// Install locations, in priority order. The upstream GitHub-release package
/// installs into `/opt/overlaybd/bin`; the PMC `containerd-overlaybd` package
/// installs into `/usr/bin/overlaybd` instead, which is why both are searched.
pub const SEARCH_DIRS: [&'static str; 2] = ["/opt/overlaybd/bin", "/usr/bin/overlaybd"];

/// The empty 64 GiB ext4 image every device stacks as its bottom lower.
pub const DEFAULT_BASELAYER: &'static str = "/opt/overlaybd/baselayers/ext4_64";

/// Virtual size of the baselayer, in GiB. A writable layer stacked on top has
/// to advertise the same virtual size.
pub const BASELAYER_SIZE_GB: u32 = 64;

/// The binary that creates writable layers.
pub const CREATE: &'static str = "overlaybd-create";

/// The binary that commits writable layers.
pub const COMMIT: &'static str = "overlaybd-commit";

/// `binary` in each of the directories.
pub open spec fn in_each(dirs: Seq<Seq<u8>>, binary: Seq<char>) -> Seq<Seq<u8>> {
    Seq::new(dirs.len(), |i: int| joined_bytes(dirs[i], encode_utf8(binary)))
}

/// The well-known install directories.
pub open spec fn search_dirs() -> Seq<Seq<u8>> {
    seq![encode_utf8(SEARCH_DIRS@[0]@), encode_utf8(SEARCH_DIRS@[1]@)]
}

/// The places that a binary is known to be installed in: the directory that the
/// environment names, if it names one, then the well-known ones.
pub open spec fn known_places(binary: Seq<char>, bin_dir: Option<Seq<u8>>) -> Seq<Seq<u8>> {
    in_each(
        match bin_dir {
            Some(dir) => seq![dir],
            None => Seq::empty(),
        } + search_dirs(),
        binary,
    )
}

/// A search for a binary; see [`find`].
#[derive(Debug)]
pub struct ToolSearch {
    name: &'static str,
    places: Vec<HostPath>,
    known: usize,
    at: usize,
}

/// Where a search for a binary stands.
pub struct ToolSearchView {
    pub name: Seq<char>,
    /// Where to look, in priority order.
    pub places: Seq<Seq<u8>>,
    /// How many of these are known install locations; the rest is `PATH`.
    pub known: nat,
    /// Which of them comes next.
    pub at: nat,
}

impl View for ToolSearch {
    type V = ToolSearchView;

    closed spec fn view(&self) -> ToolSearchView {
        ToolSearchView {
            name: self.name@,
            places: byte_names(self.places@),
            known: self.known as nat,
            at: self.at as nat,
        }
    }
}

/// What a search for a binary asks of the host.
#[derive(Debug)]
pub enum ToolOp {
    IsFile(HostPath),
}

#[derive(Debug)]
pub enum ToolReply {
    IsFile(bool),
}

/// Locate an overlaybd binary.
///
/// `bin_dir`, which is `OVERLAYBD_BIN_DIR`, wins, then the well-known install
/// directories, then the directories of `PATH`.
pub fn find(
    binary: &'static str,
    bin_dir: Option<HostPath>,
    path_dirs: Vec<HostPath>,
) -> (search: ToolSearch)
    ensures
        search@.begins(
            binary@,
            crate::path::optional_bytes(bin_dir),
            byte_names(path_dirs@),
        ),
{
    let ghost env_dir = crate::path::optional_bytes(bin_dir);
    let mut dirs: Vec<HostPath> = Vec::new();
    if let Some(dir) = bin_dir {
        dirs.push(dir);
    }
    dirs.push(HostPath::new(SEARCH_DIRS[0]));
    dirs.push(HostPath::new(SEARCH_DIRS[1]));
    let known: usize = dirs.len();
    let ghost known_dirs = byte_names(dirs@);
    let mut from_path = path_dirs;
    dirs.append(&mut from_path);
    assert(byte_names(dirs@) =~= known_dirs + byte_names(path_dirs@));
    let places = candidates(&dirs, binary);
    proof {
        assert(in_each(known_dirs, binary@) =~= known_places(binary@, env_dir));
        assert(byte_names(places@) =~= in_each(known_dirs, binary@) + in_each(
            byte_names(path_dirs@),
            binary@,
        ));
    }
    ToolSearch { name: binary, places, known, at: 0 }
}

fn candidates(dirs: &Vec<HostPath>, binary: &str) -> (places: Vec<HostPath>)
    ensures
        byte_names(places@) == in_each(byte_names(dirs@), binary@),
{
    let name = HostPath::new(binary);
    let mut places: Vec<HostPath> = Vec::new();
    let mut i: usize = 0;
    while i < dirs.len()
        invariant
            i <= dirs.len(),
            name@ == encode_utf8(binary@),
            byte_names(places@) == in_each(byte_names(dirs@), binary@).take(i as int),
        decreases dirs.len() - i,
    {
        let ghost before = byte_names(places@);
        places.push(dirs[i].join(&name));
        assert(byte_names(places@) =~= before.push(
            in_each(byte_names(dirs@), binary@)[i as int],
        ));
        i += 1;
    }
    assert(in_each(byte_names(dirs@), binary@).take(i as int) =~= in_each(
        byte_names(dirs@),
        binary@,
    ));
    places
}

impl ToolSearchView {
    /// Whether `op` is what the host is asked for.
    pub open spec fn asks(self, op: ToolOp) -> bool {
        op matches ToolOp::IsFile(path) && path@ == self.places[self.at as int]
    }

    /// Whether this is a search that has just begun.
    pub open spec fn begins(
        self,
        binary: Seq<char>,
        bin_dir: Option<Seq<u8>>,
        path_dirs: Seq<Seq<u8>>,
    ) -> bool {
        let known = known_places(binary, bin_dir);
        self == ToolSearchView {
            name: binary,
            places: known + in_each(path_dirs, binary),
            known: known.len(),
            at: 0,
        }
    }

    /// Where the search goes on after looking in vain, if there is anywhere left.
    pub open spec fn after_nothing(self) -> Option<ToolSearchView> {
        if self.at + 1 < self.places.len() {
            Some(ToolSearchView { at: self.at + 1, ..self })
        } else {
            None
        }
    }

    /// Where the search goes on after looking in vain `count` times.
    pub open spec fn after_nothings(self, count: nat) -> Option<ToolSearchView>
        decreases count,
    {
        if count == 0 {
            Some(self)
        } else {
            match self.after_nothing() {
                Some(next) => next.after_nothings((count - 1) as nat),
                None => None,
            }
        }
    }

    /// Whether `error` says that the binary is nowhere: it names the known install
    /// locations.
    pub open spec fn is_missing(self, error: Error) -> bool {
        error matches Error::ToolMissing { name, searched } && name@ == self.name && byte_names(
            searched@,
        ) == self.places.take(self.known as int)
    }

    /// Where an answer that does not end the search leads.
    pub open spec fn after(self, reply: ToolReply) -> Option<ToolSearchView> {
        match reply {
            ToolReply::IsFile(true) => None,
            ToolReply::IsFile(false) => self.after_nothing(),
        }
    }

    /// What comes out where an answer ends the search.
    pub open spec fn outcome(self, reply: ToolReply, out: Result<HostPath, Error>) -> bool {
        match reply {
            ToolReply::IsFile(true) => out matches Ok(path) && path@
                == self.places[self.at as int],
            ToolReply::IsFile(false) => out matches Err(error) && self.is_missing(error),
        }
    }
}

impl ToolSearch {
    #[verifier::type_invariant]
    spec fn sound(self) -> bool {
        self.at < self.places@.len() && self.known <= self.places@.len()
    }

    /// What to ask the host.
    pub fn op(&self) -> (op: ToolOp)
        ensures
            self@.asks(op),
            self@.at < self@.places.len(),
    {
        proof {
            use_type_invariant(self);
        }
        ToolOp::IsFile(self.places[self.at].clone())
    }

    /// Take the host's answer.
    pub fn resume(self, reply: ToolReply) -> (progress: Progress<
        ToolSearch,
        Result<HostPath, Error>,
    >)
        ensures
            match progress {
                Progress::Running(search) => self@.after(reply) == Some(search@),
                Progress::Finished(out) => self@.after(reply) is None && self@.outcome(reply, out),
            },
    {
        proof {
            use_type_invariant(&self);
        }
        let ToolReply::IsFile(found) = reply;
        if found {
            return Progress::Finished(Ok(self.places[self.at].clone()));
        }
        let count: usize = self.places.len();
        if count - self.at > 1 {
            return Progress::Running(
                ToolSearch {
                    name: self.name,
                    places: self.places,
                    known: self.known,
                    at: self.at + 1,
                },
            );
        }
        let ghost all = byte_names(self.places@);
        let name = self.name;
        let known: usize = self.known;
        let mut searched = self.places;
        searched.truncate(known);
        assert(byte_names(searched@) =~= all.take(known as int));
        Progress::Finished(Err(Error::ToolMissing { name, searched }))
    }
}

/// A binary is taken from the first of the places that has it: the directory
/// that the environment names comes before the well-known ones, and those come
/// before `PATH`.
pub proof fn law_the_first_place_wins(search: ToolSearchView, misses: nat, op: ToolOp)
    requires
        search.at + misses < search.places.len(),
        (ToolSearchView { at: search.at + misses, ..search }).asks(op),
    ensures
        search.after_nothings(misses) == Some(ToolSearchView { at: search.at + misses, ..search }),
        op matches ToolOp::IsFile(path) && path@ == search.places[search.at as int + misses],
    decreases misses,
{
    if misses > 0 {
        let next = ToolSearchView { at: search.at + 1, ..search };
        law_the_first_place_wins(next, (misses - 1) as nat, op);
    }
}

/// What a command left behind.
#[derive(Debug)]
pub struct ToolOutput {
    /// Whether it exited with zero.
    pub success: bool,
    /// What it exited with, unless a signal ended it.
    pub code: Option<i32>,
    pub stdout: Vec<u8>,
    pub stderr: Vec<u8>,
}

impl ToolOutput {
    /// The exit code in words.
    pub open spec fn code_text(self) -> Seq<char> {
        match self.code {
            Some(code) => text::signed_decimal(code as int),
            None => "signal"@,
        }
    }
}

/// Whether `out` is what a command that ran comes to.
pub open spec fn judges(
    rendered: Seq<char>,
    output: Result<ToolOutput, IoFailure>,
    out: Result<String, Error>,
) -> bool {
    match output {
        Ok(o) => if o.success {
            out matches Ok(stdout) && stdout@ == shown(o.stdout@)
        } else {
            out matches Err(Error::ToolFailed { command, code, output: combined }) && command@
                == rendered && code@ == o.code_text() && combined@ == text::trimmed(
                shown(o.stdout@) + shown(o.stderr@),
            )
        },
        Err(source) => out matches Err(error) && is_io(error, "could not run "@ + rendered, source),
    }
}

/// Whether a command did what it was to do.
pub open spec fn succeeded(output: Result<ToolOutput, IoFailure>) -> bool {
    output matches Ok(output) && output.success
}

/// Judge a command that ran, failing on a non-zero exit with its combined
/// output. `rendered` is the command in words.
pub fn run(rendered: &str, output: Result<ToolOutput, IoFailure>) -> (out: Result<String, Error>)
    ensures
        judges(rendered@, output, out),
{
    let output = match output {
        Ok(output) => output,
        Err(source) => {
            return Err(Error::io("could not run ".to_owned().concat(rendered), source));
        },
    };
    let stdout = show_bytes(output.stdout.as_slice());
    if output.success {
        return Ok(stdout);
    }
    let stderr = show_bytes(output.stderr.as_slice());
    let combined = stdout.concat(stderr.as_str());
    let code = match output.code {
        Some(code) => text::signed_decimal_text(code),
        None => "signal".to_owned(),
    };
    Err(
        Error::ToolFailed {
            command: rendered.to_owned(),
            code,
            output: text::trim(combined.as_str()),
        },
    )
}

/// What making a layer asks of the host.
#[derive(Debug)]
pub enum LayerOp {
    /// Whether the path leads to anything.
    Exists(HostPath),
    /// Create the directory that the path stands in, with its own parents.
    CreateParents(HostPath),
    /// The directory that the environment names for the binaries, if it names
    /// one, and the directories of `PATH`.
    Environment,
    Find(ToolOp),
    Run { program: HostPath, arguments: Vec<HostPath> },
    /// The size of a file.
    Size(HostPath),
}

#[derive(Debug)]
pub enum LayerReply {
    Exists(bool),
    Parents(Parents),
    Environment { bin_dir: Option<HostPath>, path_dirs: Vec<HostPath> },
    Find(ToolReply),
    /// The command in words, and what it left behind.
    Ran { rendered: String, output: Result<ToolOutput, IoFailure> },
    Size(Result<u64, IoFailure>),
}

/// Whether an answer ends a search without the binary.
pub open spec fn fails_to_find(search: ToolSearch, reply: ToolReply) -> bool {
    search@.after(reply) is None && reply == ToolReply::IsFile(false)
}

/// Whether `error` says that there is something at `path` already.
pub open spec fn is_existing(error: Error, path: Seq<u8>) -> bool {
    error matches Error::LayerExists { path: p } && p@ == path
}

/// A writable layer that is being created; see [`create_sparse_layer`].
#[derive(Debug)]
pub struct LayerCreation {
    pub data: HostPath,
    pub index: HostPath,
    pub vsize_gb: u32,
    pub phase: CreationPhase,
}

#[derive(Debug)]
pub enum CreationPhase {
    ProbeData,
    ProbeIndex,
    Parents,
    Environment,
    Find(ToolSearch),
    Run { program: HostPath },
}

/// Create a **sparse** writable (upper) layer.
///
/// `-s` selects the sparse-file layer. The default log-structured layer is
/// append-only and tuned for image conversion, not for a runtime workload that
/// creates and deletes files.
///
/// Both paths must not already exist: the tool opens its outputs with
/// `O_RDWR | O_EXCL | O_CREAT`. Checking up front turns a terse tool error into
/// a clear one.
pub fn create_sparse_layer(data: HostPath, index: HostPath, vsize_gb: u32) -> (creation:
    LayerCreation)
    ensures
        creation == (LayerCreation { data, index, vsize_gb, phase: CreationPhase::ProbeData }),
{
    LayerCreation { data, index, vsize_gb, phase: CreationPhase::ProbeData }
}

impl LayerCreation {
    /// What `overlaybd-create` is called with.
    pub open spec fn arguments(self) -> Seq<Seq<u8>> {
        seq![
            encode_utf8("-s"@),
            self.data@,
            self.index@,
            encode_utf8(text::decimal(self.vsize_gb as nat)),
        ]
    }

    /// Whether `op` is what the host is asked for.
    pub open spec fn asks(self, op: LayerOp) -> bool {
        match self.phase {
            CreationPhase::ProbeData => op matches LayerOp::Exists(path) && path@ == self.data@,
            CreationPhase::ProbeIndex => op matches LayerOp::Exists(path) && path@ == self.index@,
            CreationPhase::Parents => op matches LayerOp::CreateParents(path) && path@
                == self.data@,
            CreationPhase::Environment => op is Environment,
            CreationPhase::Find(search) => op matches LayerOp::Find(o) && search@.asks(o),
            CreationPhase::Run { program: p } => op matches LayerOp::Run { program, arguments }
                && program@ == p@ && byte_names(arguments@) == self.arguments(),
        }
    }

    /// Whether an answer ends the creation.
    pub open spec fn ends(self, reply: LayerReply) -> bool {
        match (self.phase, reply) {
            (CreationPhase::ProbeData, LayerReply::Exists(exists)) => exists,
            (CreationPhase::ProbeIndex, LayerReply::Exists(exists)) => exists,
            (CreationPhase::Parents, LayerReply::Parents(parents)) => parents is Failed,
            (CreationPhase::Find(search), LayerReply::Find(reply)) => fails_to_find(search, reply),
            (CreationPhase::Run { .. }, LayerReply::Ran { .. }) => true,
            _ => false,
        }
    }

    /// Whether an answer that does not end the creation leads to `next`.
    pub open spec fn phase_after(self, reply: LayerReply, next: CreationPhase) -> bool {
        match (self.phase, reply) {
            (CreationPhase::ProbeData, LayerReply::Exists(_)) => next is ProbeIndex,
            (CreationPhase::ProbeIndex, LayerReply::Exists(_)) => next is Parents,
            (CreationPhase::Parents, LayerReply::Parents(_)) => next is Environment,
            (CreationPhase::Environment, LayerReply::Environment { bin_dir, path_dirs }) => {
                &&& next matches CreationPhase::Find(search)
                &&& search@.begins(
                    CREATE@,
                    crate::path::optional_bytes(bin_dir),
                    byte_names(path_dirs@),
                )
            },
            (CreationPhase::Find(search), LayerReply::Find(reply)) => match search@.after(reply) {
                Some(after) => next matches CreationPhase::Find(s) && s@ == after,
                None => next matches CreationPhase::Run { program } && search@.outcome(
                    reply,
                    Ok::<HostPath, Error>(program),
                ),
            },
            _ => next == self.phase,
        }
    }

    /// What comes out where an answer ends the creation.
    pub open spec fn outcome(self, reply: LayerReply, out: Result<(), Error>) -> bool {
        match (self.phase, reply) {
            (CreationPhase::ProbeData, _) => out matches Err(error) && is_existing(
                error,
                self.data@,
            ),
            (CreationPhase::ProbeIndex, _) => out matches Err(error) && is_existing(
                error,
                self.index@,
            ),
            (_, LayerReply::Parents(Parents::Failed { parent, source })) => out matches Err(error)
                && is_io(error, "creating "@ + shown(parent@), source),
            (CreationPhase::Find(search), _) => out matches Err(error) && search@.is_missing(error),
            (_, LayerReply::Ran { rendered, output }) => match out {
                Ok(_) => succeeded(output),
                Err(error) => judges(rendered@, output, Err::<String, Error>(error)),
            },
            _ => false,
        }
    }

    /// What to ask the host.
    pub fn op(&self) -> (op: LayerOp)
        ensures
            self.asks(op),
    {
        match &self.phase {
            CreationPhase::ProbeData => LayerOp::Exists(self.data.clone()),
            CreationPhase::ProbeIndex => LayerOp::Exists(self.index.clone()),
            CreationPhase::Parents => LayerOp::CreateParents(self.data.clone()),
            CreationPhase::Environment => LayerOp::Environment,
            CreationPhase::Find(search) => LayerOp::Find(search.op()),
            CreationPhase::Run { program } => {
                let mut arguments: Vec<HostPath> = Vec::new();
                arguments.push(HostPath::new("-s"));
                arguments.push(self.data.clone());
                arguments.push(self.index.clone());
                arguments.push(HostPath::new(text::decimal_text(self.vsize_gb as u64).as_str()));
                assert(byte_names(arguments@) =~= self.arguments());
                LayerOp::Run { program: program.clone(), arguments }
            },
        }
    }

    /// Take the host's answer.
    pub fn resume(self, reply: LayerReply) -> (progress: Progress<LayerCreation, Result<(), Error>>)
        ensures
            match progress {
                Progress::Running(next) => {
                    &&& !self.ends(reply)
                    &&& next == LayerCreation { phase: next.phase, ..self }
                    &&& self.phase_after(reply, next.phase)
                },
                Progress::Finished(out) => self.ends(reply) && self.outcome(reply, out),
            },
    {
        let phase = match (self.phase, reply) {
            (CreationPhase::ProbeData, LayerReply::Exists(exists)) => {
                if exists {
                    return Progress::Finished(Err(Error::LayerExists { path: self.data }));
                }
                CreationPhase::ProbeIndex
            },
            (CreationPhase::ProbeIndex, LayerReply::Exists(exists)) => {
                if exists {
                    return Progress::Finished(Err(Error::LayerExists { path: self.index }));
                }
                CreationPhase::Parents
            },
            (CreationPhase::Parents, LayerReply::Parents(parents)) => match parents {
                Parents::Ready => CreationPhase::Environment,
                Parents::Failed { parent, source } => {
                    let shown_parent = parent.display();
                    let context = "creating ".to_owned().concat(shown_parent.as_str());
                    return Progress::Finished(Err(Error::io(context, source)));
                },
            },
            (CreationPhase::Environment, LayerReply::Environment { bin_dir, path_dirs }) => {
                CreationPhase::Find(find(CREATE, bin_dir, path_dirs))
            },
            (CreationPhase::Find(search), LayerReply::Find(reply)) => match search.resume(reply) {
                Progress::Running(search) => CreationPhase::Find(search),
                Progress::Finished(Ok(program)) => CreationPhase::Run { program },
                Progress::Finished(Err(error)) => {
                    return Progress::Finished(Err(error));
                },
            },
            (CreationPhase::Run { .. }, LayerReply::Ran { rendered, output }) => {
                return Progress::Finished(
                    match run(rendered.as_str(), output) {
                        Ok(_) => Ok(()),
                        Err(error) => Err(error),
                    },
                );
            },
            (phase, _) => phase,
        };
        Progress::Running(
            LayerCreation { data: self.data, index: self.index, vsize_gb: self.vsize_gb, phase },
        )
    }
}

/// A writable layer that is being committed; see [`commit_layer`].
#[derive(Debug)]
pub struct LayerCommit {
    pub data: HostPath,
    pub index: HostPath,
    pub out: HostPath,
    pub message: String,
    pub phase: CommitPhase,
}

#[derive(Debug)]
pub enum CommitPhase {
    Probe,
    Environment,
    Find(ToolSearch),
    Run { program: HostPath },
    Size,
}

/// Turn a writable layer into a read-only overlaybd layer. The outcome is the
/// new layer's size.
///
/// The device must be **torn down** first. `overlaybd-commit` opens the data
/// file `O_RDWR` and does not check whether the daemon still has it open, so
/// committing a live device captures a torn filesystem rather than failing.
pub fn commit_layer(data: HostPath, index: HostPath, out: HostPath, message: &str) -> (commit:
    LayerCommit)
    ensures
        commit.data == data,
        commit.index == index,
        commit.out == out,
        commit.message@ == message@,
        commit.phase is Probe,
{
    LayerCommit { data, index, out, message: message.to_owned(), phase: CommitPhase::Probe }
}

impl LayerCommit {
    /// What `overlaybd-commit` is called with.
    pub open spec fn arguments(self) -> Seq<Seq<u8>> {
        seq![
            encode_utf8("-m"@),
            encode_utf8(self.message@),
            self.data@,
            self.index@,
            self.out@,
        ]
    }

    /// Whether `op` is what the host is asked for.
    pub open spec fn asks(self, op: LayerOp) -> bool {
        match self.phase {
            CommitPhase::Probe => op matches LayerOp::Exists(path) && path@ == self.out@,
            CommitPhase::Environment => op is Environment,
            CommitPhase::Find(search) => op matches LayerOp::Find(o) && search@.asks(o),
            CommitPhase::Run { program: p } => op matches LayerOp::Run { program, arguments }
                && program@ == p@ && byte_names(arguments@) == self.arguments(),
            CommitPhase::Size => op matches LayerOp::Size(path) && path@ == self.out@,
        }
    }

    /// Whether an answer ends the commit.
    pub open spec fn ends(self, reply: LayerReply) -> bool {
        match (self.phase, reply) {
            (CommitPhase::Probe, LayerReply::Exists(exists)) => exists,
            (CommitPhase::Find(search), LayerReply::Find(reply)) => fails_to_find(search, reply),
            (CommitPhase::Run { .. }, LayerReply::Ran { output, .. }) => !succeeded(output),
            (CommitPhase::Size, LayerReply::Size(_)) => true,
            _ => false,
        }
    }

    /// Whether an answer that does not end the commit leads to `next`.
    pub open spec fn phase_after(self, reply: LayerReply, next: CommitPhase) -> bool {
        match (self.phase, reply) {
            (CommitPhase::Probe, LayerReply::Exists(_)) => next is Environment,
            (CommitPhase::Environment, LayerReply::Environment { bin_dir, path_dirs }) => {
                &&& next matches CommitPhase::Find(search)
                &&& search@.begins(
                    COMMIT@,
                    crate::path::optional_bytes(bin_dir),
                    byte_names(path_dirs@),
                )
            },
            (CommitPhase::Find(search), LayerReply::Find(reply)) => match search@.after(reply) {
                Some(after) => next matches CommitPhase::Find(s) && s@ == after,
                None => next matches CommitPhase::Run { program } && search@.outcome(
                    reply,
                    Ok::<HostPath, Error>(program),
                ),
            },
            (CommitPhase::Run { .. }, LayerReply::Ran { .. }) => next is Size,
            _ => next == self.phase,
        }
    }

    /// What comes out where an answer ends the commit.
    pub open spec fn outcome(self, reply: LayerReply, out: Result<u64, Error>) -> bool {
        match (self.phase, reply) {
            (CommitPhase::Find(search), _) => out matches Err(error) && search@.is_missing(error),
            (_, LayerReply::Ran { rendered, output }) => out matches Err(error) && judges(
                rendered@,
                output,
                Err::<String, Error>(error),
            ),
            (_, LayerReply::Size(Ok(size))) => out == Ok::<u64, Error>(size),
            (_, LayerReply::Size(Err(source))) => out matches Err(error) && is_io(
                error,
                "stat "@ + shown(self.out@),
                source,
            ),
            _ => out matches Err(error) && is_existing(error, self.out@),
        }
    }

    /// What to ask the host.
    pub fn op(&self) -> (op: LayerOp)
        ensures
            self.asks(op),
    {
        match &self.phase {
            CommitPhase::Probe => LayerOp::Exists(self.out.clone()),
            CommitPhase::Environment => LayerOp::Environment,
            CommitPhase::Find(search) => LayerOp::Find(search.op()),
            CommitPhase::Run { program } => {
                let mut arguments: Vec<HostPath> = Vec::new();
                arguments.push(HostPath::new("-m"));
                arguments.push(HostPath::new(self.message.as_str()));
                arguments.push(self.data.clone());
                arguments.push(self.index.clone());
                arguments.push(self.out.clone());
                assert(byte_names(arguments@) =~= self.arguments());
                LayerOp::Run { program: program.clone(), arguments }
            },
            CommitPhase::Size => LayerOp::Size(self.out.clone()),
        }
    }

    /// Take the host's answer.
    pub fn resume(self, reply: LayerReply) -> (progress: Progress<LayerCommit, Result<u64, Error>>)
        ensures
            match progress {
                Progress::Running(next) => {
                    &&& !self.ends(reply)
                    &&& next == LayerCommit { phase: next.phase, ..self }
                    &&& self.phase_after(reply, next.phase)
                },
                Progress::Finished(out) => self.ends(reply) && self.outcome(reply, out),
            },
    {
        let phase = match (self.phase, reply) {
            (CommitPhase::Probe, LayerReply::Exists(exists)) => {
                if exists {
                    return Progress::Finished(Err(Error::LayerExists { path: self.out }));
                }
                CommitPhase::Environment
            },
            (CommitPhase::Environment, LayerReply::Environment { bin_dir, path_dirs }) => {
                CommitPhase::Find(find(COMMIT, bin_dir, path_dirs))
            },
            (CommitPhase::Find(search), LayerReply::Find(reply)) => match search.resume(reply) {
                Progress::Running(search) => CommitPhase::Find(search),
                Progress::Finished(Ok(program)) => CommitPhase::Run { program },
                Progress::Finished(Err(error)) => {
                    return Progress::Finished(Err(error));
                },
            },
            (CommitPhase::Run { .. }, LayerReply::Ran { rendered, output }) => {
                match run(rendered.as_str(), output) {
                    Ok(_) => CommitPhase::Size,
                    Err(error) => {
                        return Progress::Finished(Err(error));
                    },
                }
            },
            (CommitPhase::Size, LayerReply::Size(size)) => {
                return Progress::Finished(
                    match size {
                        Ok(size) => Ok(size),
                        Err(source) => {
                            let shown_out = self.out.display();
                            let context = "stat ".to_owned().concat(shown_out.as_str());
                            Err(Error::io(context, source))
                        },
                    },
                );
            },
            (phase, _) => phase,
        };
        Progress::Running(
            LayerCommit {
                data: self.data,
                index: self.index,
                out: self.out,
                message: self.message,
                phase,
            },
        )
    }
}

/// Whether a creation went through `states`, one answer after the other.
pub open spec fn is_creation(states: Seq<LayerCreation>, replies: Seq<LayerReply>) -> bool {
    &&& states.len() == replies.len() + 1
    &&& states[0].phase is ProbeData
    &&& forall|i: int| 0 <= i < replies.len() ==> #[trigger] creation_went_on(states, replies, i)
}

/// Whether the answer at `i` did not end the creation, but led on.
pub open spec fn creation_went_on(
    states: Seq<LayerCreation>,
    replies: Seq<LayerReply>,
    i: int,
) -> bool {
    &&& !states[i].ends(replies[i])
    &&& states[i + 1] == LayerCreation { phase: states[i + 1].phase, ..states[i] }
    &&& states[i].phase_after(replies[i], states[i + 1].phase)
}

/// Whether the answer at `i` was that the data file is not there.
pub open spec fn data_was_absent(
    states: Seq<LayerCreation>,
    replies: Seq<LayerReply>,
    i: int,
) -> bool {
    0 <= i < replies.len() && states[i].phase is ProbeData && replies[i] == LayerReply::Exists(
        false,
    )
}

/// Whether the answer at `i` was that the index file is not there.
pub open spec fn index_was_absent(
    states: Seq<LayerCreation>,
    replies: Seq<LayerReply>,
    i: int,
) -> bool {
    0 <= i < replies.len() && states[i].phase is ProbeIndex && replies[i] == LayerReply::Exists(
        false,
    )
}

/// A layer is never created over a file: whatever the host is asked for beyond
/// looking whether the outputs are there, it has said before that neither is.
pub proof fn law_a_layer_is_never_created_over_a_file(
    states: Seq<LayerCreation>,
    replies: Seq<LayerReply>,
    k: int,
)
    requires
        is_creation(states, replies),
        0 <= k < states.len(),
    ensures
        states[k].data == states[0].data,
        states[k].index == states[0].index,
        !(states[k].phase is ProbeData) ==> exists|i: int| #[trigger]
            data_was_absent(states, replies, i),
        !(states[k].phase is ProbeData) && !(states[k].phase is ProbeIndex) ==> exists|i: int|
            #[trigger]
            index_was_absent(states, replies, i),
    decreases k,
{
    if k > 0 {
        let prior = k - 1;
        law_a_layer_is_never_created_over_a_file(states, replies, prior);
        assert(creation_went_on(states, replies, prior));
        if states[prior].phase is ProbeData && !(states[k].phase is ProbeData) {
            assert(data_was_absent(states, replies, prior));
        }
        if states[prior].phase is ProbeIndex && !(states[k].phase is ProbeIndex) {
            assert(index_was_absent(states, replies, prior));
        }
    }
}

/// Whether a commit went through `states`, one answer after the other.
pub open spec fn is_commit(states: Seq<LayerCommit>, replies: Seq<LayerReply>) -> bool {
    &&& states.len() == replies.len() + 1
    &&& states[0].phase is Probe
    &&& forall|i: int| 0 <= i < replies.len() ==> #[trigger] commit_went_on(states, replies, i)
}

/// Whether the answer at `i` did not end the commit, but led on.
pub open spec fn commit_went_on(
    states: Seq<LayerCommit>,
    replies: Seq<LayerReply>,
    i: int,
) -> bool {
    &&& !states[i].ends(replies[i])
    &&& states[i + 1] == LayerCommit { phase: states[i + 1].phase, ..states[i] }
    &&& states[i].phase_after(replies[i], states[i + 1].phase)
}

/// Whether the answer at `i` was that the output is not there.
pub open spec fn output_was_absent(
    states: Seq<LayerCommit>,
    replies: Seq<LayerReply>,
    i: int,
) -> bool {
    0 <= i < replies.len() && states[i].phase is Probe && replies[i] == LayerReply::Exists(false)
}

/// Whether the answer at `i` was that the tool did what it was to do.
pub open spec fn was_committed(
    states: Seq<LayerCommit>,
    replies: Seq<LayerReply>,
    i: int,
) -> bool {
    &&& 0 <= i < replies.len()
    &&& states[i].phase is Run
    &&& replies[i] matches LayerReply::Ran { output, .. } && succeeded(output)
}

/// A layer is never committed over a file: whatever the host is asked for beyond
/// looking whether the output is there, it has said before that it is not. The
/// size of the output is asked for only after the tool succeeded.
pub proof fn law_a_layer_is_never_committed_over_a_file(
    states: Seq<LayerCommit>,
    replies: Seq<LayerReply>,
    k: int,
)
    requires
        is_commit(states, replies),
        0 <= k < states.len(),
    ensures
        states[k].out == states[0].out,
        !(states[k].phase is Probe) ==> exists|i: int| #[trigger]
            output_was_absent(states, replies, i),
        states[k].phase is Size ==> exists|i: int| #[trigger] was_committed(states, replies, i),
    decreases k,
{
    if k > 0 {
        let prior = k - 1;
        law_a_layer_is_never_committed_over_a_file(states, replies, prior);
        assert(commit_went_on(states, replies, prior));
        if states[prior].phase is Probe && !(states[k].phase is Probe) {
            assert(output_was_absent(states, replies, prior));
        }
        if states[prior].phase is Run && states[k].phase is Size {
            assert(was_committed(states, replies, prior));
        }
    }
}

/// A binary is looked for under its own name: first in the directory that the
/// environment names, if it names one, then where the two packages install it,
/// then in the directories of `PATH`, one after the other.
pub proof fn law_places_come_in_order_of_priority(
    search: ToolSearchView,
    binary: Seq<char>,
    bin_dir: Option<Seq<u8>>,
    path_dirs: Seq<Seq<u8>>,
    i: int,
    op: ToolOp,
)
    requires
        search.begins(binary, bin_dir, path_dirs),
        binary.len() > 0 && binary[0] != '/',
        0 <= i < search.places.len(),
        (ToolSearchView { at: i as nat, ..search }).asks(op),
    ensures
        ({
            let first: int = if bin_dir is Some {
                1
            } else {
                0
            };
            &&& search.places.len() == first + 2 + path_dirs.len()
            &&& search.known == first + 2
            &&& op matches ToolOp::IsFile(path) && path@ == (if i < first {
                joined_bytes(bin_dir->Some_0, encode_utf8(binary))
            } else if i == first {
                encode_utf8("/opt/overlaybd/bin/"@ + binary)
            } else if i == first + 1 {
                encode_utf8("/usr/bin/overlaybd/"@ + binary)
            } else {
                joined_bytes(path_dirs[i - first - 2], encode_utf8(binary))
            })
        }),
{
    reveal_strlit("/opt/overlaybd/bin");
    reveal_strlit("/opt/overlaybd/bin/");
    reveal_strlit("/usr/bin/overlaybd");
    reveal_strlit("/usr/bin/overlaybd/");
    crate::path::law_text_and_bytes_join_alike("/opt/overlaybd/bin"@, binary);
    crate::path::law_text_and_bytes_join_alike("/usr/bin/overlaybd"@, binary);
    assert(crate::path::joined("/opt/overlaybd/bin"@, binary) =~= "/opt/overlaybd/bin/"@ + binary);
    assert(crate::path::joined("/usr/bin/overlaybd"@, binary) =~= "/usr/bin/overlaybd/"@ + binary);
}

/// Whether, before `k`, the host was asked whether `program` is a file and said
/// that it is.
pub open spec fn program_was_found(
    ops: Seq<LayerOp>,
    replies: Seq<LayerReply>,
    k: int,
    program: Seq<u8>,
) -> bool {
    exists|i: int|
        0 <= i < k && i < replies.len() && (#[trigger] ops[i] matches LayerOp::Find(
            ToolOp::IsFile(path),
        ) && path@ == program) && replies[i] == LayerReply::Find(ToolReply::IsFile(true))
}

/// Whether `first` is the search for `binary` that begins with an answer about
/// the environment.
pub open spec fn begins_with(reply: LayerReply, binary: Seq<char>, first: ToolSearchView) -> bool {
    reply matches LayerReply::Environment { bin_dir, path_dirs } && first.begins(
        binary,
        crate::path::optional_bytes(bin_dir),
        byte_names(path_dirs@),
    )
}

/// Whether `search` looks for `binary` in the places that what the host said of
/// its environment before `k` makes up.
pub open spec fn is_search_for(
    replies: Seq<LayerReply>,
    k: int,
    binary: Seq<char>,
    search: ToolSearchView,
) -> bool {
    exists|i: int, first: ToolSearchView|
        0 <= i < k && i < replies.len() && #[trigger] begins_with(replies[i], binary, first)
            && search.places == first.places && search.known == first.known && search.name
            == first.name
}

/// Whether `ops` are what a creation asked in its states, in turn.
pub open spec fn creation_asked(states: Seq<LayerCreation>, ops: Seq<LayerOp>) -> bool {
    &&& ops.len() == states.len()
    &&& forall|i: int| 0 <= i < ops.len() ==> states[i].asks(#[trigger] ops[i])
}

proof fn lemma_creation_run(
    states: Seq<LayerCreation>,
    ops: Seq<LayerOp>,
    replies: Seq<LayerReply>,
    k: int,
)
    requires
        is_creation(states, replies),
        creation_asked(states, ops),
        0 <= k < states.len(),
    ensures
        states[k].data == states[0].data,
        states[k].index == states[0].index,
        states[k].vsize_gb == states[0].vsize_gb,
        states[k].phase matches CreationPhase::Find(search) ==> is_search_for(
            replies,
            k,
            "overlaybd-create"@,
            search@,
        ),
        states[k].phase matches CreationPhase::Run { program } ==> program_was_found(
            ops,
            replies,
            k,
            program@,
        ),
    decreases k,
{
    if k > 0 {
        let prior = k - 1;
        lemma_creation_run(states, ops, replies, prior);
        assert(creation_went_on(states, replies, prior));
        assert(states[prior].asks(ops[prior]));
        match states[k].phase {
            CreationPhase::Find(search) => {
                if states[prior].phase is Find {
                    let before = states[prior].phase->Find_0;
                    let (i, first) = choose|i: int, first: ToolSearchView|
                        0 <= i < prior && i < replies.len() && #[trigger] begins_with(
                            replies[i],
                            "overlaybd-create"@,
                            first,
                        ) && before@.places == first.places && before@.known == first.known
                            && before@.name == first.name;
                    assert(begins_with(replies[i], "overlaybd-create"@, first));
                } else {
                    assert(begins_with(replies[prior], "overlaybd-create"@, search@));
                }
            },
            CreationPhase::Run { program } => {
                if states[prior].phase is Run {
                    let i = choose|i: int|
                        0 <= i < prior && i < replies.len() && (#[trigger] ops[i] matches LayerOp::Find(
                            ToolOp::IsFile(path),
                        ) && path@ == program@) && replies[i] == LayerReply::Find(
                            ToolReply::IsFile(true),
                        );
                    assert(0 <= i < k && ops[i] is Find);
                } else {
                    assert(replies[prior] == LayerReply::Find(ToolReply::IsFile(true)));
                    assert(ops[prior] is Find);
                }
            },
            _ => {},
        }
    }
}

/// A layer is created as it was asked for: the host is asked about the data and
/// the index file that were given, and the command is a binary that was found,
/// called with the sparse flag, those two files in this order, and a text that
/// reads as the size that was asked for.
pub proof fn law_a_layer_is_created_as_it_was_asked_for(
    states: Seq<LayerCreation>,
    ops: Seq<LayerOp>,
    replies: Seq<LayerReply>,
    data: HostPath,
    index: HostPath,
    vsize_gb: u32,
    k: int,
)
    requires
        is_creation(states, replies),
        creation_asked(states, ops),
        states[0] == (LayerCreation { data, index, vsize_gb, phase: CreationPhase::ProbeData }),
        0 <= k < ops.len(),
    ensures
        match ops[k] {
            LayerOp::Exists(path) => path@ == data@ || path@ == index@,
            LayerOp::CreateParents(path) => path@ == data@,
            LayerOp::Environment => true,
            LayerOp::Find(op) => exists|search: ToolSearchView|
                #![trigger search.asks(op)]
                search.asks(op) && is_search_for(replies, k, "overlaybd-create"@, search),
            LayerOp::Run { program, arguments } => {
                &&& program_was_found(ops, replies, k, program@)
                &&& arguments@.len() == 4
                &&& arguments@[0]@ == encode_utf8("-s"@)
                &&& arguments@[1]@ == data@
                &&& arguments@[2]@ == index@
                &&& exists|size: Seq<char>|
                    arguments@[3]@ == #[trigger] encode_utf8(size) && text::parsed_number(
                        size,
                        u32::MAX as nat,
                    ) == Some(vsize_gb as nat)
            },
            LayerOp::Size(_) => false,
        },
{
    lemma_creation_run(states, ops, replies, k);
    assert(states[k].asks(ops[k]));
    match ops[k] {
        LayerOp::Find(op) => {
            let search = states[k].phase->Find_0;
            assert(search@.asks(op));
        },
        LayerOp::Run { program, arguments } => {
            let names = byte_names(arguments@);
            assert(names.len() == arguments@.len());
            assert(names[0] == arguments@[0]@);
            assert(names[1] == arguments@[1]@);
            assert(names[2] == arguments@[2]@);
            assert(names[3] == arguments@[3]@);
            let size = text::decimal(vsize_gb as nat);
            text::law_decimal_reads_back(vsize_gb as nat, u32::MAX as nat);
            assert(arguments@[3]@ == encode_utf8(size));
        },
        _ => {},
    }
}

/// Creations that ask for the same command are for the same layer: the same two
/// files and the same size.
pub proof fn law_different_layers_are_created_by_different_commands(
    a: LayerCreation,
    b: LayerCreation,
    op: LayerOp,
)
    requires
        op is Run,
        a.asks(op),
        b.asks(op),
    ensures
        a.data@ == b.data@,
        a.index@ == b.index@,
        a.vsize_gb == b.vsize_gb,
{
    let one = a.arguments();
    let other = b.arguments();
    assert(one == other);
    assert(one[1] == other[1] && one[2] == other[2] && one[3] == other[3]);
    let size = text::decimal(a.vsize_gb as nat);
    let other_size = text::decimal(b.vsize_gb as nat);
    vstd::utf8::encode_utf8_decode_utf8(size);
    vstd::utf8::encode_utf8_decode_utf8(other_size);
    text::law_decimal_tells_numbers_apart(a.vsize_gb as nat, b.vsize_gb as nat);
}

/// Whether `ops` are what a commit asked in its states, in turn.
pub open spec fn commit_asked(states: Seq<LayerCommit>, ops: Seq<LayerOp>) -> bool {
    &&& ops.len() == states.len()
    &&& forall|i: int| 0 <= i < ops.len() ==> states[i].asks(#[trigger] ops[i])
}

proof fn lemma_commit_run(
    states: Seq<LayerCommit>,
    ops: Seq<LayerOp>,
    replies: Seq<LayerReply>,
    k: int,
)
    requires
        is_commit(states, replies),
        commit_asked(states, ops),
        0 <= k < states.len(),
    ensures
        states[k].data == states[0].data,
        states[k].index == states[0].index,
        states[k].out == states[0].out,
        states[k].message == states[0].message,
        states[k].phase matches CommitPhase::Find(search) ==> is_search_for(
            replies,
            k,
            "overlaybd-commit"@,
            search@,
        ),
        states[k].phase matches CommitPhase::Run { program } ==> program_was_found(
            ops,
            replies,
            k,
            program@,
        ),
    decreases k,
{
    if k > 0 {
        let prior = k - 1;
        lemma_commit_run(states, ops, replies, prior);
        assert(commit_went_on(states, replies, prior));
        assert(states[prior].asks(ops[prior]));
        match states[k].phase {
            CommitPhase::Find(search) => {
                if states[prior].phase is Find {
                    let before = states[prior].phase->Find_0;
                    let (i, first) = choose|i: int, first: ToolSearchView|
                        0 <= i < prior && i < replies.len() && #[trigger] begins_with(
                            replies[i],
                            "overlaybd-commit"@,
                            first,
                        ) && before@.places == first.places && before@.known == first.known
                            && before@.name == first.name;
                    assert(begins_with(replies[i], "overlaybd-commit"@, first));
                } else {
                    assert(begins_with(replies[prior], "overlaybd-commit"@, search@));
                }
            },
            CommitPhase::Run { program } => {
                if states[prior].phase is Run {
                    let i = choose|i: int|
                        0 <= i < prior && i < replies.len() && (#[trigger] ops[i] matches LayerOp::Find(
                            ToolOp::IsFile(path),
                        ) && path@ == program@) && replies[i] == LayerReply::Find(
                            ToolReply::IsFile(true),
                        );
                    assert(0 <= i < k && ops[i] is Find);
                } else {
                    assert(replies[prior] == LayerReply::Find(ToolReply::IsFile(true)));
                    assert(ops[prior] is Find);
                }
            },
            _ => {},
        }
    }
}

/// A layer is committed as it was asked for: the host is asked about the output
/// that was given, and the command is a binary that was found, called with the
/// message, then the data file, the index file and the output that were given.
pub proof fn law_a_layer_is_committed_as_it_was_asked_for(
    states: Seq<LayerCommit>,
    ops: Seq<LayerOp>,
    replies: Seq<LayerReply>,
    k: int,
)
    requires
        is_commit(states, replies),
        commit_asked(states, ops),
        0 <= k < ops.len(),
    ensures
        match ops[k] {
            LayerOp::Exists(path) => path@ == states[0].out@,
            LayerOp::CreateParents(_) => false,
            LayerOp::Environment => true,
            LayerOp::Find(op) => exists|search: ToolSearchView|
                #![trigger search.asks(op)]
                search.asks(op) && is_search_for(replies, k, "overlaybd-commit"@, search),
            LayerOp::Run { program, arguments } => {
                &&& program_was_found(ops, replies, k, program@)
                &&& arguments@.len() == 5
                &&& arguments@[0]@ == encode_utf8("-m"@)
                &&& arguments@[1]@ == encode_utf8(states[0].message@)
                &&& arguments@[2]@ == states[0].data@
                &&& arguments@[3]@ == states[0].index@
                &&& arguments@[4]@ == states[0].out@
            },
            LayerOp::Size(path) => path@ == states[0].out@,
        },
{
    lemma_commit_run(states, ops, replies, k);
    assert(states[k].asks(ops[k]));
    match ops[k] {
        LayerOp::Find(op) => {
            let search = states[k].phase->Find_0;
            assert(search@.asks(op));
        },
        LayerOp::Run { program, arguments } => {
            let names = byte_names(arguments@);
            assert(names.len() == arguments@.len());
            assert(names[0] == arguments@[0]@);
            assert(names[1] == arguments@[1]@);
            assert(names[2] == arguments@[2]@);
            assert(names[3] == arguments@[3]@);
            assert(names[4] == arguments@[4]@);
        },
        _ => {},
    }
}

/// A creation ends well exactly where the tool ran and succeeded.
pub proof fn law_a_layer_is_created_when_the_tool_says_so(
    creation: LayerCreation,
    reply: LayerReply,
    out: Result<(), Error>,
)
    requires
        creation.ends(reply),
        creation.outcome(reply, out),
    ensures
        out is Ok <==> creation.phase is Run && (reply matches LayerReply::Ran {
            output: Ok(output),
            ..
        } && output.success),
{
}

/// A commit ends well only with a size, which is the one that the host gave for
/// the output after the tool had succeeded.
pub proof fn law_a_committed_layer_has_the_size_of_its_output(
    commits: Seq<LayerCommit>,
    ops: Seq<LayerOp>,
    replies: Seq<LayerReply>,
    last: LayerReply,
    size: u64,
)
    requires
        is_commit(commits, replies),
        commit_asked(commits, ops),
        commits.last().ends(last),
        commits.last().outcome(last, Ok::<u64, Error>(size)),
    ensures
        ops.last() matches LayerOp::Size(path) && path@ == commits[0].out@,
        last == LayerReply::Size(Ok::<u64, IoFailure>(size)),
        exists|i: int|
            0 <= i < replies.len() && (#[trigger] ops[i]) is Run && (
            replies[i] matches LayerReply::Ran { output: Ok(output), .. } && output.success),
{
    let end = commits.len() - 1;
    lemma_commit_run(commits, ops, replies, end);
    law_a_layer_is_never_committed_over_a_file(commits, replies, end);
    assert(commits[end].asks(ops[end]));
    let i = choose|i: int| was_committed(commits, replies, i);
    assert(was_committed(commits, replies, i));
    assert(commits[i].asks(ops[i]));
}

/// A command that failed is told whole: its words, its exit code as a number or
/// the word for a signal, and all that it printed, less the white space around
/// it. One that succeeded gives what it printed to its output.
pub proof fn law_a_failed_command_is_told_whole(
    rendered: Seq<char>,
    output: ToolOutput,
    printed: Seq<char>,
    complained: Seq<char>,
    out: Result<String, Error>,
)
    requires
        judges(rendered, Ok::<ToolOutput, IoFailure>(output), out),
        output.stdout@ == encode_utf8(printed),
        output.stderr@ == encode_utf8(complained),
    ensures
        match out {
            Ok(stdout) => output.success && stdout@ == printed,
            Err(Error::ToolFailed { command, code, output: combined }) => {
                &&& !output.success
                &&& command@ == rendered
                &&& combined@ == text::trimmed(printed + complained)
                &&& match output.code {
                    Some(n) if n >= 0 => code@ == text::decimal(n as nat),
                    Some(n) => code@ == seq!['-'] + text::decimal((-n) as nat),
                    None => code@ == "signal"@,
                }
            },
            Err(_) => false,
        },
{
    vstd::utf8::encode_utf8_valid_utf8(printed);
    vstd::utf8::encode_utf8_decode_utf8(printed);
    vstd::utf8::encode_utf8_valid_utf8(complained);
    vstd::utf8::encode_utf8_decode_utf8(complained);
}

/// A binary that is nowhere is told by its name and the install locations that
/// were looked in, without `PATH`.
pub proof fn law_a_missing_binary_names_where_it_should_be(
    first: ToolSearchView,
    search: ToolSearchView,
    binary: Seq<char>,
    bin_dir: Option<Seq<u8>>,
    path_dirs: Seq<Seq<u8>>,
    error: Error,
)
    requires
        first.begins(binary, bin_dir, path_dirs),
        search == (ToolSearchView { at: search.at, ..first }),
        search.is_missing(error),
        binary.len() > 0 && binary[0] != '/',
    ensures
        error matches Error::ToolMissing { name, searched } && name@ == binary && {
            let all = byte_names(searched@);
            let well_known = seq![
                encode_utf8("/opt/overlaybd/bin/"@ + binary),
                encode_utf8("/usr/bin/overlaybd/"@ + binary),
            ];
            all == (match bin_dir {
                Some(dir) => seq![joined_bytes(dir, encode_utf8(binary))] + well_known,
                None => well_known,
            })
        },
{
    let well_known = seq![
        encode_utf8("/opt/overlaybd/bin/"@ + binary),
        encode_utf8("/usr/bin/overlaybd/"@ + binary),
    ];
    reveal_strlit("/opt/overlaybd/bin");
    reveal_strlit("/opt/overlaybd/bin/");
    reveal_strlit("/usr/bin/overlaybd");
    reveal_strlit("/usr/bin/overlaybd/");
    crate::path::law_text_and_bytes_join_alike("/opt/overlaybd/bin"@, binary);
    crate::path::law_text_and_bytes_join_alike("/usr/bin/overlaybd"@, binary);
    assert(crate::path::joined("/opt/overlaybd/bin"@, binary) =~= "/opt/overlaybd/bin/"@ + binary);
    assert(crate::path::joined("/usr/bin/overlaybd"@, binary) =~= "/usr/bin/overlaybd/"@ + binary);
    let known = first.places.take(first.known as int);
    match bin_dir {
        Some(dir) => {
            assert(known =~= seq![joined_bytes(dir, encode_utf8(binary))] + well_known);
        },
        None => {
            assert(known =~= well_known);
        },
    }
}

/// A layer that was not made says why: which of its own files was there already,
/// which directory could not be made, that its own output could not be looked
/// at, or what the tool left behind.
pub proof fn law_a_layer_that_was_not_made_says_why(
    creation: LayerCreation,
    created: Error,
    reply: LayerReply,
    commit: LayerCommit,
    committed: Error,
    answer: LayerReply,
)
    requires
        creation.ends(reply),
        creation.outcome(reply, Err::<(), Error>(created)),
        commit.ends(answer),
        commit.outcome(answer, Err::<u64, Error>(committed)),
    ensures
        created matches Error::LayerExists { path } ==> reply == LayerReply::Exists(true) && path@
            == (if creation.phase is ProbeData {
            creation.data@
        } else {
            creation.index@
        }),
        reply matches LayerReply::Parents(Parents::Failed { parent, source }) ==> (
        created matches Error::Io { context, source: s } && context@ == "creating "@ + shown(parent@)
            && s == source),
        reply matches LayerReply::Ran { output: Err(source), rendered } ==> (
        created matches Error::Io { context, source: s } && context@ == "could not run "@
            + rendered@ && s == source),
        committed matches Error::LayerExists { path } ==> answer == LayerReply::Exists(true)
            && path@ == commit.out@,
        answer matches LayerReply::Size(Err(source)) ==> (committed matches Error::Io {
            context,
            source: s,
        } && context@ == "stat "@ + shown(commit.out@) && s == source),
        answer matches LayerReply::Ran { output: Err(source), rendered } ==> (
        committed matches Error::Io { context, source: s } && context@ == "could not run "@
            + rendered@ && s == source),
{
}

} // verus!
