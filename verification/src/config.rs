//! The overlaybd device config JSON.
//!
//! Field names and shape match what the daemon expects; see overlaybd's
//! "Standalone Usage" docs. `lowers` is bottom-up.

use vstd::prelude::*;

use crate::error::is_io;
use crate::error::Error;
use crate::error::IoFailure;
use crate::host::Parents;
use crate::host::Progress;
use crate::json;
use crate::json::JsonTree;
use crate::path;
use crate::path::HostPath;
use crate::text;

verus! {

/// What a streamed layer's digest has to start with.
pub const DIGEST_PREFIX: &'static str = "sha256:";

/// One lower layer: either a local file or a blob streamed from a registry.
#[derive(Debug, Clone, PartialEq, Eq)]
pub enum Lower {
    /// A layer that exists as a file on this host.
    File(HostPath),
    /// A layer overlaybd fetches from a registry.
    ///
    /// overlaybd resolves these as `<repoBlobUrl>/<digest>` and range-reads the
    /// blob; it never fetches a manifest.
    Remote {
        digest: String,
        size: u64,
        /// Where overlaybd may persist what it has fetched. `None` leaves the
        /// layer purely streamed (it still uses the daemon's own block cache).
        cache_dir: Option<HostPath>,
    },
}

/// What a lower says.
pub enum LowerView {
    File(Seq<u8>),
    Remote { digest: Seq<char>, size: u64, cache_dir: Option<Seq<u8>> },
}

impl View for Lower {
    type V = LowerView;

    open spec fn view(&self) -> LowerView {
        match self {
            Lower::File(path) => LowerView::File(path@),
            Lower::Remote { digest, size, cache_dir } => LowerView::Remote {
                digest: digest@,
                size: *size,
                cache_dir: path::optional_bytes(*cache_dir),
            },
        }
    }
}

impl LowerView {
    /// The lower as the daemon reads it: `{"file": ...}`, or `{"digest": ...,
    /// "size": ...}` with a `dir` where blocks may be persisted.
    pub open spec fn tree(self) -> JsonTree {
        match self {
            LowerView::File(path) => JsonTree::Object(
                seq![("file"@, JsonTree::Text(path::shown(path)))],
            ),
            LowerView::Remote { digest, size, cache_dir } => JsonTree::Object(
                seq![("digest"@, JsonTree::Text(digest)), ("size"@, JsonTree::Number(size))] + (
                match cache_dir {
                    Some(dir) => seq![("dir"@, JsonTree::Text(path::shown(dir)))],
                    None => Seq::empty(),
                }),
            ),
        }
    }
}

impl Lower {
    /// A local file lower.
    pub fn file(path: HostPath) -> (lower: Self)
        ensures
            lower == Lower::File(path),
    {
        Lower::File(path)
    }

    /// A streamed lower. The digest must be `sha256:...`, which is what
    /// overlaybd appends to `repoBlobUrl`.
    pub fn remote(digest: &str, size: u64) -> (lower: Result<Self, Error>)
        ensures
            match lower {
                Ok(l) => {
                    &&& DIGEST_PREFIX@.is_prefix_of(digest@)
                    &&& l@ == (LowerView::Remote { digest: digest@, size, cache_dir: None })
                },
                Err(e) => {
                    &&& !DIGEST_PREFIX@.is_prefix_of(digest@)
                    &&& e matches Error::BadDigest { digest: d } && d@ == digest@
                },
            },
    {
        if !text::starts_with(digest, DIGEST_PREFIX) {
            return Err(Error::BadDigest { digest: digest.to_owned() });
        }
        Ok(Lower::Remote { digest: digest.to_owned(), size, cache_dir: None })
    }

    /// Let overlaybd persist fetched blocks into `dir`. A local file is left as
    /// it is.
    pub fn with_cache_dir(self, dir: HostPath) -> (lower: Self)
        ensures
            lower == (match self {
                Lower::File(path) => Lower::File(path),
                Lower::Remote { digest, size, cache_dir } => Lower::Remote {
                    digest,
                    size,
                    cache_dir: Some(dir),
                },
            }),
    {
        match self {
            Lower::File(path) => Lower::File(path),
            Lower::Remote { digest, size, cache_dir: _ } => Lower::Remote {
                digest,
                size,
                cache_dir: Some(dir),
            },
        }
    }

    /// Whether the layer is streamed.
    pub fn is_remote(&self) -> (yes: bool)
        ensures
            yes == (self is Remote),
            yes == (self@ is Remote),
    {
        match self {
            Lower::File(_) => false,
            Lower::Remote { .. } => true,
        }
    }

    /// The lower as a JSON value.
    fn to_value(&self) -> (value: serde_json::Value)
        ensures
            json::json_tree(value) == self@.tree(),
    {
        proof {
            reveal_strlit("digest");
            reveal_strlit("size");
            reveal_strlit("dir");
        }
        let mut fields: Vec<(String, serde_json::Value)> = Vec::new();
        match self {
            Lower::File(path) => {
                fields.push(("file".to_owned(), json::text_value(path.display())));
            },
            Lower::Remote { digest, size, cache_dir } => {
                fields.push(("digest".to_owned(), json::text_value(digest.clone())));
                fields.push(("size".to_owned(), json::number_value(*size)));
                if let Some(dir) = cache_dir {
                    fields.push(("dir".to_owned(), json::text_value(dir.display())));
                }
            },
        }
        proof {
            let members = json::json_members(fields@);
            assert("digest"@[0] != "size"@[0]);
            assert("digest"@.len() != "dir"@.len());
            assert("size"@.len() != "dir"@.len());
            match self@.tree() {
                JsonTree::Object(expected) => {
                    assert(members =~= expected);
                },
                _ => {},
            }
        }
        json::object_value(fields)
    }
}

/// The lowers of a config, as they are said.
pub open spec fn lower_views(lowers: Seq<Lower>) -> Seq<LowerView> {
    Seq::new(lowers.len(), |i: int| lowers[i]@)
}

/// A device config: the lowers, an optional writable upper, and where the
/// daemon reports launch success.
#[derive(Debug, Clone)]
pub struct DeviceConfig {
    lowers: Vec<Lower>,
    upper: Option<(HostPath, HostPath)>,
    result_file: HostPath,
    repo_blob_url: Option<String>,
}

/// What a device config says.
pub struct DeviceConfigView {
    /// Bottom-up.
    pub lowers: Seq<LowerView>,
    /// The writable layer's data and index files.
    pub upper: Option<(Seq<u8>, Seq<u8>)>,
    pub result_file: Seq<u8>,
    pub repo_blob_url: Option<Seq<char>>,
}

impl View for DeviceConfig {
    type V = DeviceConfigView;

    closed spec fn view(&self) -> DeviceConfigView {
        DeviceConfigView {
            lowers: lower_views(self.lowers@),
            upper: match self.upper {
                Some((data, index)) => Some((data@, index@)),
                None => None,
            },
            result_file: self.result_file@,
            repo_blob_url: match self.repo_blob_url {
                Some(url) => Some(url@),
                None => None,
            },
        }
    }
}

impl DeviceConfigView {
    /// Whether any lower is streamed.
    pub open spec fn has_remote(self) -> bool {
        exists|i: int| 0 <= i < self.lowers.len() && (#[trigger] self.lowers[i]) is Remote
    }

    /// Whether a lower is streamed and nothing says from where: overlaybd
    /// refuses a streamed lower with an empty base URL.
    pub open spec fn lacks_url(self) -> bool {
        self.has_remote() && (match self.repo_blob_url {
            Some(url) => url.len() == 0,
            None => true,
        })
    }

    /// The lowers as the daemon reads them.
    pub open spec fn lower_trees(self) -> Seq<JsonTree> {
        Seq::new(self.lowers.len(), |i: int| self.lowers[i].tree())
    }

    /// The config as the daemon reads it, in the order overlaybd's examples use.
    pub open spec fn tree(self) -> JsonTree {
        JsonTree::Object(
            (match self.repo_blob_url {
                Some(url) => seq![("repoBlobUrl"@, JsonTree::Text(url))],
                None => Seq::empty(),
            }) + seq![("lowers"@, JsonTree::List(self.lower_trees()))] + (match self.upper {
                Some((data, index)) => seq![("upper"@, upper_tree(data, index))],
                None => Seq::empty(),
            }) + seq![("resultFile"@, JsonTree::Text(path::shown(self.result_file)))],
        )
    }
}

/// The writable layer as the daemon reads it.
pub open spec fn upper_tree(data: Seq<u8>, index: Seq<u8>) -> JsonTree {
    JsonTree::Object(
        seq![
            ("index"@, JsonTree::Text(path::shown(index))),
            ("data"@, JsonTree::Text(path::shown(data))),
        ],
    )
}

/// `url` without the slashes at its end.
pub open spec fn without_slashes(url: Seq<char>) -> Seq<char>
    decreases url.len(),
{
    if url.len() > 0 && url.last() == '/' {
        without_slashes(url.drop_last())
    } else {
        url
    }
}

/// A base URL never ends in a slash, and taking slashes off again changes
/// nothing: `<repoBlobUrl>/<digest>` has exactly one slash in the middle.
pub proof fn law_base_url_has_no_slash_at_its_end(url: Seq<char>)
    ensures
        without_slashes(url).len() > 0 ==> without_slashes(url).last() != '/',
        without_slashes(without_slashes(url)) == without_slashes(url),
    decreases url.len(),
{
    if url.len() > 0 && url.last() == '/' {
        law_base_url_has_no_slash_at_its_end(url.drop_last());
    }
}

/// What `to_json` answers for a config that says `config`.
pub open spec fn is_rendering(config: DeviceConfigView, rendered: Result<String, Error>) -> bool {
    match rendered {
        Ok(json) => !config.lacks_url() && json@ == json::pretty_text(config.tree()),
        Err(e) => config.lacks_url() && e is MissingRepoBlobUrl,
    }
}

/// A config with a streamed lower is rendered only with a base URL that says
/// where the lower comes from.
pub proof fn law_streamed_lowers_have_a_base_url(
    config: DeviceConfigView,
    rendered: Result<String, Error>,
)
    requires
        is_rendering(config, rendered),
        rendered is Ok,
        config.has_remote(),
    ensures
        config.repo_blob_url matches Some(url) && url.len() > 0,
{
}

impl DeviceConfig {
    /// Start a config. `result_file` is where overlaybd writes `success` or a
    /// failure reason.
    pub fn new(result_file: HostPath) -> (config: Self)
        ensures
            config@ == (DeviceConfigView {
                lowers: Seq::empty(),
                upper: None,
                result_file: result_file@,
                repo_blob_url: None,
            }),
    {
        let config = DeviceConfig { lowers: Vec::new(), upper: None, result_file, repo_blob_url: None };
        assert(config@.lowers =~= Seq::<LowerView>::empty());
        config
    }

    /// Append a lower. Order matters: bottom-up.
    pub fn lower(self, lower: Lower) -> (config: Self)
        ensures
            config@ == (DeviceConfigView { lowers: self@.lowers.push(lower@), ..self@ }),
    {
        let mut config = self;
        config.lowers.push(lower);
        assert(config@.lowers =~= self@.lowers.push(lower@));
        config
    }

    /// Append several lowers, bottom-up.
    pub fn lowers(self, lowers: Vec<Lower>) -> (config: Self)
        ensures
            config@ == (DeviceConfigView {
                lowers: self@.lowers + lower_views(lowers@),
                ..self@
            }),
    {
        let mut config = self;
        let mut added = lowers;
        config.lowers.append(&mut added);
        assert(config@.lowers =~= self@.lowers + lower_views(lowers@));
        config
    }

    /// Attach the sparse writable layer. Without one the device is read-only.
    pub fn upper(self, data: HostPath, index: HostPath) -> (config: Self)
        ensures
            config@ == (DeviceConfigView { upper: Some((data@, index@)), ..self@ }),
    {
        let mut config = self;
        config.upper = Some((data, index));
        config
    }

    /// Base URL for streamed lowers, e.g.
    /// `https://<registry>/v2/<repo>/blobs`.
    ///
    /// This is a single top-level field, so every remote lower in one device
    /// comes from the same repository.
    pub fn repo_blob_url(self, url: &str) -> (config: Self)
        ensures
            config@ == (DeviceConfigView {
                repo_blob_url: Some(without_slashes(url@)),
                ..self@
            }),
    {
        let chars = text::chars_of(url);
        let mut end: usize = chars.len();
        assert(url@.take(end as int) == url@);
        while end > 0 && chars[end - 1] == '/'
            invariant
                chars@ == url@,
                end <= chars.len(),
                without_slashes(url@.take(end as int)) == without_slashes(url@),
            decreases end,
        {
            assert(url@.take(end as int).drop_last() == url@.take(end - 1));
            end -= 1;
        }
        let base = url.substring_char(0, end).to_owned();
        assert(base@ == url@.take(end as int));
        let mut config = self;
        config.repo_blob_url = Some(base);
        config
    }

    /// True if any lower is streamed.
    pub fn has_remote_lowers(&self) -> (yes: bool)
        ensures
            yes == self@.has_remote(),
    {
        let mut i: usize = 0;
        while i < self.lowers.len()
            invariant
                i <= self.lowers.len(),
                forall|j: int| 0 <= j < i ==> !((#[trigger] self@.lowers[j]) is Remote),
            decreases self.lowers.len() - i,
        {
            if self.lowers[i].is_remote() {
                assert(self@.lowers[i as int] is Remote);
                return true;
            }
            assert(self@.lowers[i as int] == self.lowers@[i as int]@);
            i += 1;
        }
        false
    }

    /// Where the daemon reports launch status.
    pub fn result_file(&self) -> (path: &HostPath)
        ensures
            path@ == self@.result_file,
    {
        &self.result_file
    }

    /// Render to JSON, validating the combination first.
    pub fn to_json(&self) -> (rendered: Result<String, Error>)
        ensures
            is_rendering(self@, rendered),
            rendered matches Ok(json) ==> json::is_braced(json@),
    {
        let no_url = match &self.repo_blob_url {
            Some(url) => url.as_str().is_empty(),
            None => true,
        };
        if self.has_remote_lowers() && no_url {
            return Err(Error::MissingRepoBlobUrl);
        }
        let value = self.to_value();
        match json::to_string_pretty(&value) {
            Ok(json) => Ok(json),
            Err(message) => Err(Error::Json { message }),
        }
    }

    /// The config as a JSON value.
    fn to_value(&self) -> (value: serde_json::Value)
        ensures
            json::json_tree(value) == self@.tree(),
    {
        let mut lowers: Vec<serde_json::Value> = Vec::new();
        let mut i: usize = 0;
        while i < self.lowers.len()
            invariant
                i <= self.lowers.len(),
                json::json_trees(lowers@) == self@.lower_trees().take(i as int),
            decreases self.lowers.len() - i,
        {
            let ghost before = lowers@;
            let one = self.lowers[i].to_value();
            lowers.push(one);
            assert(self@.lowers[i as int] == self.lowers@[i as int]@);
            assert(json::json_trees(lowers@) =~= json::json_trees(before).push(
                self@.lower_trees()[i as int],
            ));
            assert(json::json_trees(lowers@) =~= self@.lower_trees().take(i + 1));
            i += 1;
        }
        assert(self@.lower_trees().take(i as int) == self@.lower_trees());

        let mut fields: Vec<(String, serde_json::Value)> = Vec::new();
        if let Some(url) = &self.repo_blob_url {
            fields.push(("repoBlobUrl".to_owned(), json::text_value(url.clone())));
        }
        fields.push(("lowers".to_owned(), json::list_value(lowers)));
        if let Some((data, index)) = &self.upper {
            fields.push(("upper".to_owned(), upper_value(data, index)));
        }
        fields.push(("resultFile".to_owned(), json::text_value(self.result_file.display())));
        proof {
            reveal_strlit("repoBlobUrl");
            reveal_strlit("lowers");
            reveal_strlit("upper");
            reveal_strlit("resultFile");
            assert("repoBlobUrl"@.len() == 11 && "lowers"@.len() == 6 && "upper"@.len() == 5
                && "resultFile"@.len() == 10);
            match self@.tree() {
                JsonTree::Object(expected) => {
                    assert(json::json_members(fields@) =~= expected);
                },
                _ => {},
            }
        }
        json::object_value(fields)
    }
}

/// The writable layer as a JSON value.
fn upper_value(data: &HostPath, index: &HostPath) -> (value: serde_json::Value)
    ensures
        json::json_tree(value) == upper_tree(data@, index@),
{
    let mut fields: Vec<(String, serde_json::Value)> = Vec::new();
    fields.push(("index".to_owned(), json::text_value(index.display())));
    fields.push(("data".to_owned(), json::text_value(data.display())));
    proof {
        reveal_strlit("index");
        reveal_strlit("data");
        assert("index"@.len() != "data"@.len());
        match upper_tree(data@, index@) {
            JsonTree::Object(expected) => {
                assert(json::json_members(fields@) =~= expected);
            },
            _ => {},
        }
    }
    json::object_value(fields)
}

/// A device config on its way to a file; see [`DeviceConfig::write`].
#[derive(Debug)]
pub struct ConfigWrite {
    pub path: HostPath,
    pub phase: ConfigPhase,
}

#[derive(Debug)]
pub enum ConfigPhase {
    Parents { rendered: Result<String, Error> },
    Write { contents: String },
}

/// What writing a device config asks of the host.
#[derive(Debug)]
pub enum ConfigOp {
    /// Create the directory that the path stands in, with its own parents.
    CreateParents(HostPath),
    WriteFile { path: HostPath, contents: String },
}

#[derive(Debug)]
pub enum ConfigReply {
    Parents(Parents),
    Wrote(Result<(), IoFailure>),
}

impl DeviceConfig {
    /// Write the config, creating parent directories as needed.
    pub fn write(&self, path: HostPath) -> (writing: ConfigWrite)
        ensures
            writing.path == path,
            writing.phase matches ConfigPhase::Parents { rendered } && is_rendering(self@, rendered),
            writing.sound(),
    {
        ConfigWrite { path, phase: ConfigPhase::Parents { rendered: self.to_json() } }
    }
}

/// Whether `contents` is what a config file holds: an object in braces, and a
/// newline at the end.
pub open spec fn is_config_file(contents: Seq<char>) -> bool {
    contents.len() > 0 && contents.last() == '\n' && json::is_braced(contents.drop_last())
}

impl ConfigWrite {
    /// Whether what is to be written is an object in braces.
    pub open spec fn sound(self) -> bool {
        match self.phase {
            ConfigPhase::Parents { rendered } => rendered matches Ok(json) ==> json::is_braced(
                json@,
            ),
            ConfigPhase::Write { contents } => is_config_file(contents@),
        }
    }

    /// Whether an answer ends the writing.
    pub open spec fn ends(self, reply: ConfigReply) -> bool {
        match (self.phase, reply) {
            (ConfigPhase::Parents { rendered }, ConfigReply::Parents(parents)) => rendered is Err
                || parents is Failed,
            (ConfigPhase::Write { .. }, ConfigReply::Wrote(_)) => true,
            _ => false,
        }
    }

    /// Whether an answer that does not end the writing leads to `next`.
    pub open spec fn leads_to(self, reply: ConfigReply, next: ConfigWrite) -> bool {
        match (self.phase, reply) {
            (ConfigPhase::Parents { rendered: Ok(json) }, ConfigReply::Parents(Parents::Ready)) => {
                &&& next.path == self.path
                &&& next.phase matches ConfigPhase::Write { contents } && contents@ == json@.push(
                    '\n',
                )
            },
            _ => next == self,
        }
    }

    /// What comes out where an answer ends the writing.
    pub open spec fn outcome(self, reply: ConfigReply, out: Result<(), Error>) -> bool {
        match (self.phase, reply) {
            (
                ConfigPhase::Parents { .. },
                ConfigReply::Parents(Parents::Failed { parent, source }),
            ) => out matches Err(error) && is_io(
                error,
                "creating "@ + path::shown(parent@),
                source,
            ),
            (ConfigPhase::Parents { rendered: Err(error) }, _) => out == Err::<(), Error>(error),
            (ConfigPhase::Write { .. }, ConfigReply::Wrote(Err(source))) => out matches Err(error)
                && is_io(error, "writing "@ + path::shown(self.path@), source),
            _ => out is Ok,
        }
    }

    /// Whether `op` is what the host is asked for.
    pub open spec fn asks(self, op: ConfigOp) -> bool {
        match self.phase {
            ConfigPhase::Parents { .. } => op matches ConfigOp::CreateParents(path) && path@
                == self.path@,
            ConfigPhase::Write { contents: c } => op matches ConfigOp::WriteFile {
                path,
                contents,
            } && path@ == self.path@ && contents == c,
        }
    }

    /// What to ask the host.
    pub fn op(&self) -> (op: ConfigOp)
        ensures
            self.asks(op),
    {
        match &self.phase {
            ConfigPhase::Parents { .. } => ConfigOp::CreateParents(self.path.clone()),
            ConfigPhase::Write { contents } => ConfigOp::WriteFile {
                path: self.path.clone(),
                contents: contents.clone(),
            },
        }
    }

    /// Take the host's answer.
    pub fn resume(self, reply: ConfigReply) -> (progress: Progress<ConfigWrite, Result<(), Error>>)
        ensures
            match progress {
                Progress::Running(next) => {
                    &&& !self.ends(reply)
                    &&& self.leads_to(reply, next)
                    &&& self.sound() ==> next.sound()
                },
                Progress::Finished(out) => self.ends(reply) && self.outcome(reply, out),
            },
    {
        match (self.phase, reply) {
            (
                ConfigPhase::Parents { .. },
                ConfigReply::Parents(Parents::Failed { parent, source }),
            ) => {
                let shown = parent.display();
                let context = "creating ".to_owned().concat(shown.as_str());
                Progress::Finished(Err(Error::io(context, source)))
            },
            (ConfigPhase::Parents { rendered }, ConfigReply::Parents(Parents::Ready)) => {
                match rendered {
                    Ok(json) => {
                        let mut contents = json;
                        contents.push('\n');
                        assert(contents@.drop_last() =~= json@);
                        Progress::Running(
                            ConfigWrite { path: self.path, phase: ConfigPhase::Write { contents } },
                        )
                    },
                    Err(error) => Progress::Finished(Err(error)),
                }
            },
            (ConfigPhase::Write { .. }, ConfigReply::Wrote(Err(source))) => {
                let shown = self.path.display();
                let context = "writing ".to_owned().concat(shown.as_str());
                Progress::Finished(Err(Error::io(context, source)))
            },
            (ConfigPhase::Write { .. }, ConfigReply::Wrote(Ok(()))) => Progress::Finished(Ok(())),
            (phase, _) => Progress::Running(ConfigWrite { path: self.path, phase }),
        }
    }
}

/// A config file is one JSON object in braces and ends in a newline.
pub proof fn law_a_config_file_ends_in_a_newline(writing: ConfigWrite, op: ConfigOp)
    requires
        writing.sound(),
        writing.asks(op),
    ensures
        op matches ConfigOp::WriteFile { contents, .. } ==> {
            &&& contents@.len() >= 3
            &&& contents@[0] == '{'
            &&& contents@[contents@.len() - 2] == '}'
            &&& contents@.last() == '\n'
        },
{
}

/// A local lower is told by its file alone, and a streamed one by its digest,
/// character for character, its size and the directory it may be persisted in,
/// where there is one.
pub proof fn law_a_lower_is_told_as_it_is(lower: LowerView)
    ensures
        match lower {
            LowerView::File(file) => {
                &&& json::member(lower.tree(), "file"@) == Some(
                    JsonTree::Text(path::shown(file)),
                )
                &&& json::member(lower.tree(), "digest"@) is None
                &&& json::member(lower.tree(), "size"@) is None
                &&& json::member(lower.tree(), "dir"@) is None
            },
            LowerView::Remote { digest, size, cache_dir } => {
                &&& json::member(lower.tree(), "file"@) is None
                &&& json::member(lower.tree(), "digest"@) == Some(JsonTree::Text(digest))
                &&& json::member(lower.tree(), "size"@) == Some(JsonTree::Number(size))
                &&& json::member(lower.tree(), "dir"@) == (match cache_dir {
                    Some(dir) => Some(JsonTree::Text(path::shown(dir))),
                    None => None,
                })
            },
        },
{
    reveal_strlit("file");
    reveal_strlit("digest");
    reveal_strlit("size");
    reveal_strlit("dir");
    reveal_with_fuel(json::found, 5);
    assert("file"@[0] != "size"@[0]);
    assert("digest"@.len() == 6 && "file"@.len() == 4 && "size"@.len() == 4 && "dir"@.len() == 3);
}

/// Lowers that are told alike are alike: the digest and the size are the same,
/// and so are the paths as they are shown.
pub proof fn law_lowers_that_are_told_alike_are_alike(a: LowerView, b: LowerView)
    requires
        a.tree() == b.tree(),
    ensures
        match (a, b) {
            (LowerView::File(one), LowerView::File(other)) => path::shown(one) == path::shown(other),
            (
                LowerView::Remote { digest: d, size: s, cache_dir: c },
                LowerView::Remote { digest, size, cache_dir },
            ) => {
                &&& d == digest
                &&& s == size
                &&& match (c, cache_dir) {
                    (Some(one), Some(other)) => path::shown(one) == path::shown(other),
                    (None, None) => true,
                    _ => false,
                }
            },
            _ => false,
        },
{
    law_a_lower_is_told_as_it_is(a);
    law_a_lower_is_told_as_it_is(b);
}

/// A config is told by its lowers, each at its own position, by its writable
/// layer, by the file in which the daemon reports, and by the base URL.
pub proof fn law_a_config_is_told_as_it_is(config: DeviceConfigView)
    ensures
        json::member(config.tree(), "lowers"@) matches Some(JsonTree::List(told)) && told.len()
            == config.lowers.len() && (forall|i: int|
            0 <= i < told.len() ==> #[trigger] told[i] == config.lowers[i].tree()),
        json::member(config.tree(), "resultFile"@) == Some(
            JsonTree::Text(path::shown(config.result_file)),
        ),
        json::member(config.tree(), "repoBlobUrl"@) == (match config.repo_blob_url {
            Some(url) => Some(JsonTree::Text(url)),
            None => None,
        }),
        match config.upper {
            Some((data, index)) => json::member(config.tree(), "upper"@) matches Some(upper)
                && json::member(upper, "data"@) == Some(JsonTree::Text(path::shown(data)))
                && json::member(upper, "index"@) == Some(JsonTree::Text(path::shown(index))),
            None => json::member(config.tree(), "upper"@) is None,
        },
{
    reveal_strlit("repoBlobUrl");
    reveal_strlit("lowers");
    reveal_strlit("upper");
    reveal_strlit("resultFile");
    reveal_strlit("data");
    reveal_strlit("index");
    reveal_with_fuel(json::found, 5);
    assert("repoBlobUrl"@.len() == 11 && "lowers"@.len() == 6 && "upper"@.len() == 5
        && "resultFile"@.len() == 10);
    assert("data"@.len() == 4 && "index"@.len() == 5);
}

/// Configs that are told alike say the same: the same lowers in the same order,
/// and the same for everything else, paths as they are shown.
pub proof fn law_configs_that_are_told_alike_are_alike(
    a: DeviceConfigView,
    b: DeviceConfigView,
    i: int,
)
    requires
        a.tree() == b.tree(),
    ensures
        a.lowers.len() == b.lowers.len(),
        0 <= i < a.lowers.len() ==> match (a.lowers[i], b.lowers[i]) {
            (LowerView::File(one), LowerView::File(other)) => path::shown(one) == path::shown(other),
            (
                LowerView::Remote { digest: d, size: s, cache_dir: c },
                LowerView::Remote { digest, size, cache_dir },
            ) => {
                &&& d == digest
                &&& s == size
                &&& match (c, cache_dir) {
                    (Some(one), Some(other)) => path::shown(one) == path::shown(other),
                    (None, None) => true,
                    _ => false,
                }
            },
            _ => false,
        },
        match (a.upper, b.upper) {
            (Some((data, index)), Some((other_data, other_index))) => path::shown(data)
                == path::shown(other_data) && path::shown(index) == path::shown(other_index),
            (None, None) => true,
            _ => false,
        },
        path::shown(a.result_file) == path::shown(b.result_file),
        a.repo_blob_url == b.repo_blob_url,
{
    law_a_config_is_told_as_it_is(a);
    law_a_config_is_told_as_it_is(b);
    if 0 <= i < a.lowers.len() {
        assert(a.lower_trees()[i] == b.lower_trees()[i]) by {
            assert(json::member(a.tree(), "lowers"@) == json::member(b.tree(), "lowers"@));
            let told = json::member(a.tree(), "lowers"@)->Some_0->List_0;
            assert(told[i] == a.lowers[i].tree());
            assert(told[i] == b.lowers[i].tree());
        }
        law_lowers_that_are_told_alike_are_alike(a.lowers[i], b.lowers[i]);
    }
}

/// `count` slashes.
pub open spec fn slashes(count: nat) -> Seq<char> {
    Seq::new(count, |i: int| '/')
}

/// Nothing but slashes is taken off the end of a base URL.
pub proof fn law_a_base_url_loses_only_slashes(url: Seq<char>)
    ensures
        exists|count: nat| url == without_slashes(url) + #[trigger] slashes(count),
    decreases url.len(),
{
    if url.len() > 0 && url.last() == '/' {
        let shorter = url.drop_last();
        law_a_base_url_loses_only_slashes(shorter);
        let count = choose|count: nat| shorter == without_slashes(shorter) + #[trigger] slashes(count);
        assert(url =~= shorter.push('/'));
        assert((without_slashes(shorter) + slashes(count)).push('/') =~= without_slashes(url)
            + slashes(count + 1));
    } else {
        assert(url =~= without_slashes(url) + slashes(0));
    }
}

/// The file that is written for a config stands at the path that was given, and
/// holds the config's own text and a newline; it is written only once the
/// directory around it is there, and nothing is written for a config that cannot
/// be rendered.
pub proof fn law_the_config_that_is_written_is_the_one_that_was_given(
    config: DeviceConfigView,
    at: HostPath,
    first: ConfigWrite,
    reply: ConfigReply,
    next: ConfigWrite,
    asked: ConfigOp,
    op: ConfigOp,
)
    requires
        first.path == at,
        first.phase matches ConfigPhase::Parents { rendered } && is_rendering(config, rendered),
        first.asks(asked),
        !first.ends(reply),
        first.leads_to(reply, next),
        next.asks(op),
    ensures
        asked matches ConfigOp::CreateParents(path) && path@ == at@,
        match op {
            ConfigOp::CreateParents(path) => path@ == at@,
            ConfigOp::WriteFile { path, contents } => {
                &&& path@ == at@
                &&& reply matches ConfigReply::Parents(Parents::Ready)
                &&& !(config.has_remote() && config.repo_blob_url is None)
                &&& contents@ == json::pretty_text(config.tree()).push('\n')
            },
        },
{
}

/// A config that cannot be rendered is one with a streamed lower and no base
/// URL, or an empty one, and every other is rendered.
pub proof fn law_only_a_streamed_lower_without_a_base_url_is_refused(
    config: DeviceConfigView,
    rendered: Result<String, Error>,
)
    requires
        is_rendering(config, rendered),
    ensures
        rendered is Err <==> (exists|i: int|
            0 <= i < config.lowers.len() && !((#[trigger] config.lowers[i]) is File)) && (
        config.repo_blob_url is None || config.repo_blob_url == Some(Seq::<char>::empty())),
{
    if config.has_remote() {
        let i = choose|i: int| 0 <= i < config.lowers.len() && (#[trigger] config.lowers[i]) is Remote;
        assert(!(config.lowers[i] is File));
    }
    if exists|i: int| 0 <= i < config.lowers.len() && !((#[trigger] config.lowers[i]) is File) {
        let i = choose|i: int|
            0 <= i < config.lowers.len() && !((#[trigger] config.lowers[i]) is File);
        assert(config.lowers[i] is Remote);
    }
    if config.repo_blob_url matches Some(url) && url.len() == 0 {
        assert(config.repo_blob_url->Some_0 =~= Seq::<char>::empty());
    }
}

/// A config that could not be written is told with the path at which that
/// failed and the host's own failure.
pub proof fn law_a_config_that_was_not_written_says_why(
    writing: ConfigWrite,
    reply: ConfigReply,
    out: Result<(), Error>,
)
    requires
        writing.ends(reply),
        writing.outcome(reply, out),
    ensures
        match reply {
            ConfigReply::Parents(Parents::Failed { parent, source }) => out matches Err(
                Error::Io { context, source: s },
            ) && context@ == "creating "@ + path::shown(parent@) && s == source,
            ConfigReply::Wrote(Err(source)) => out matches Err(Error::Io { context, source: s })
                && context@ == "writing "@ + path::shown(writing.path@) && s == source,
            ConfigReply::Parents(Parents::Ready) => writing.phase matches ConfigPhase::Parents {
                rendered: Err(error),
            } && out == Err::<(), Error>(error),
            ConfigReply::Wrote(Ok(_)) => out is Ok,
        },
{
}

} // verus!
