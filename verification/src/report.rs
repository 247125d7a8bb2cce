//! What `obdctl` prints: lines for people, and JSON for programs.
//!
//! A path can be printed in JSON only where it is UTF-8; the functions that
//! render JSON answer with nothing where one is not.

use vstd::prelude::*;
use vstd::utf8::encode_utf8;
use vstd::utf8::valid_utf8;

use crate::checks::check_views;
use crate::checks::Check;
use crate::checks::CheckView;
use crate::cleanup::Swept;
use crate::device::PersistedDevice;
use crate::json;
use crate::json::compact_text;
use crate::json::json_members;
use crate::json::json_tree;
use crate::json::json_trees;
use crate::json::pretty_text;
use crate::json::JsonTree;
use crate::path::byte_names;
use crate::path::joined_bytes;
use crate::path::shown;
use crate::path::shown_each;
use crate::path::HostPath;
use crate::text;
use crate::text::texts;

verus! {

/// How many checks failed.
pub open spec fn failures(checks: Seq<CheckView>) -> nat
    decreases checks.len(),
{
    if checks.len() == 0 {
        0
    } else {
        failures(checks.drop_last()) + if checks.last().ok {
            0nat
        } else {
            1nat
        }
    }
}

/// How many checks failed. A failed preflight is a finding, not a crash: it is
/// reported through the exit code.
pub fn blocking(checks: &Vec<Check>) -> (failed: usize)
    ensures
        failed == failures(check_views(checks@)),
        failed <= checks@.len(),
{
    let mut failed: usize = 0;
    let mut i: usize = 0;
    assert(check_views(checks@).take(0) =~= Seq::empty());
    while i < checks.len()
        invariant
            i <= checks.len(),
            failed <= i,
            failed == failures(check_views(checks@).take(i as int)),
        decreases checks.len() - i,
    {
        assert(check_views(checks@).take(i + 1).drop_last() =~= check_views(checks@).take(
            i as int,
        ));
        if !checks[i].ok {
            failed += 1;
        }
        i += 1;
    }
    assert(check_views(checks@).take(i as int) =~= check_views(checks@));
    failed
}

/// The lines for one check.
pub open spec fn check_lines(check: CheckView) -> Seq<Seq<char>> {
    if check.ok {
        seq!["  [ok]   "@ + check.name]
    } else {
        seq!["  [FAIL] "@ + check.name] + match check.hint {
            Some(hint) => seq!["         -> "@ + hint],
            None => Seq::empty(),
        }
    }
}

/// The lines for some checks.
pub open spec fn all_check_lines(checks: Seq<CheckView>) -> Seq<Seq<char>>
    decreases checks.len(),
{
    if checks.len() == 0 {
        Seq::empty()
    } else {
        all_check_lines(checks.drop_last()) + check_lines(checks.last())
    }
}

/// What a preflight comes to.
pub open spec fn verdict(failed: nat) -> Seq<char> {
    if failed == 0 {
        "preflight: PASS"@
    } else {
        "preflight: FAIL ("@ + text::decimal(failed) + " blocking)"@
    }
}

/// The lines that `obdctl preflight` prints.
pub fn preflight_lines(checks: &Vec<Check>) -> (lines: Vec<String>)
    ensures
        texts(lines@) == all_check_lines(check_views(checks@)) + seq![
            ""@,
            verdict(failures(check_views(checks@))),
        ],
{
    let mut lines: Vec<String> = Vec::new();
    let mut i: usize = 0;
    let ghost views = check_views(checks@);
    assert(views.take(0) =~= Seq::empty());
    assert(texts(lines@) =~= Seq::empty());
    while i < checks.len()
        invariant
            i <= checks.len(),
            views == check_views(checks@),
            texts(lines@) == all_check_lines(views.take(i as int)),
        decreases checks.len() - i,
    {
        assert(views.take(i + 1).drop_last() =~= views.take(i as int));
        let ghost before = texts(lines@);
        let check = &checks[i];
        assert(views[i as int] == check@);
        if check.ok {
            lines.push("  [ok]   ".to_owned().concat(check.name.as_str()));
        } else {
            lines.push("  [FAIL] ".to_owned().concat(check.name.as_str()));
            if let Some(hint) = &check.hint {
                lines.push("         -> ".to_owned().concat(hint.as_str()));
            }
        }
        assert(texts(lines@) =~= before + check_lines(check@));
        i += 1;
    }
    assert(views.take(i as int) =~= views);
    let failed: usize = blocking(checks);
    let ghost before = texts(lines@);
    lines.push("".to_owned());
    if failed == 0 {
        lines.push("preflight: PASS".to_owned());
    } else {
        let count = text::decimal_text(failed as u64);
        lines.push(
            "preflight: FAIL (".to_owned().concat(count.as_str()).concat(" blocking)"),
        );
    }
    assert(texts(lines@) =~= before + seq![""@, verdict(failures(views))]);
    lines
}

/// The line that `obdctl layer create` prints.
pub fn created_line(data: &HostPath, index: &HostPath, size_gb: u32) -> (line: String)
    ensures
        line@ == "created sparse writable layer ("@ + text::decimal(size_gb as nat)
            + "G virtual): "@ + shown(data@) + " / "@ + shown(index@),
{
    let size = text::decimal_text(size_gb as u64);
    let data = data.display();
    let index = index.display();
    "created sparse writable layer (".to_owned().concat(size.as_str()).concat(
        "G virtual): ",
    ).concat(data.as_str()).concat(" / ").concat(index.as_str())
}

/// The line that `obdctl layer commit` prints.
pub fn committed_line(out: &HostPath, size: u64) -> (line: String)
    ensures
        line@ == "committed read-only layer: "@ + shown(out@) + " ("@ + text::decimal(size as nat)
            + " bytes)"@,
{
    let out = out.display();
    let size = text::decimal_text(size);
    "committed read-only layer: ".to_owned().concat(out.as_str()).concat(" (").concat(
        size.as_str(),
    ).concat(" bytes)")
}

/// The line that `obdctl config` prints.
pub fn config_line(out: &HostPath) -> (line: String)
    ensures
        line@ == "wrote device config "@ + shown(out@),
{
    let out = out.display();
    "wrote device config ".to_owned().concat(out.as_str())
}

/// The lines for a device that was left running.
pub open spec fn persisted_texts(
    persisted: PersistedDevice,
    subdir: Option<Seq<char>>,
) -> Seq<Seq<char>> {
    seq!["device "@ + persisted.name@ + " is "@ + persisted.block_device@] + match (
        persisted.mountpoint,
        subdir,
    ) {
        (Some(mountpoint), Some(subdir)) => seq![
            "mounted at "@ + shown(mountpoint@),
            "subdir "@ + shown(joined_bytes(mountpoint@, encode_utf8(subdir))),
        ],
        (Some(mountpoint), None) => seq!["mounted at "@ + shown(mountpoint@)],
        (None, _) => Seq::empty(),
    }
}

/// The lines that `obdctl device up` prints.
pub fn persisted_lines(persisted: &PersistedDevice, subdir: Option<&str>) -> (lines: Vec<String>)
    ensures
        texts(lines@) == persisted_texts(
            *persisted,
            match subdir {
                Some(subdir) => Some(subdir@),
                None => None,
            },
        ),
{
    let mut lines: Vec<String> = Vec::new();
    lines.push(
        "device ".to_owned().concat(persisted.name.as_str()).concat(" is ").concat(
            persisted.block_device.as_str(),
        ),
    );
    if let Some(mountpoint) = &persisted.mountpoint {
        let place = mountpoint.display();
        lines.push("mounted at ".to_owned().concat(place.as_str()));
        if let Some(subdir) = subdir {
            let inner = mountpoint.join(&HostPath::new(subdir)).display();
            lines.push("subdir ".to_owned().concat(inner.as_str()));
        }
    }
    assert(texts(lines@) =~= persisted_texts(
        *persisted,
        match subdir {
            Some(subdir) => Some(subdir@),
            None => None,
        },
    ));
    lines
}

/// The lines that `obdctl device down` prints.
pub fn down_lines(name: &str, mount: &Option<HostPath>, unmounted: bool) -> (lines: Vec<String>)
    ensures
        texts(lines@) == (match *mount {
            Some(mountpoint) if unmounted => seq!["unmounted "@ + shown(mountpoint@)],
            _ => Seq::empty(),
        }) + seq!["device "@ + name@ + " torn down"@],
{
    let mut lines: Vec<String> = Vec::new();
    if unmounted {
        if let Some(mountpoint) = mount {
            let place = mountpoint.display();
            lines.push("unmounted ".to_owned().concat(place.as_str()));
        }
    }
    lines.push("device ".to_owned().concat(name).concat(" torn down"));
    assert(texts(lines@) =~= (match *mount {
        Some(mountpoint) if unmounted => seq!["unmounted "@ + shown(mountpoint@)],
        _ => Seq::empty(),
    }) + seq!["device "@ + name@ + " torn down"@]);
    lines
}

/// Each name with `before` in front of it.
pub open spec fn each_after(before: Seq<char>, names: Seq<Seq<char>>) -> Seq<Seq<char>> {
    Seq::new(names.len(), |i: int| before + names[i])
}

fn push_each(lines: &mut Vec<String>, before: &str, names: &Vec<String>)
    ensures
        texts(final(lines)@) == texts(old(lines)@) + each_after(before@, texts(names@)),
{
    let mut i: usize = 0;
    let ghost start = texts(lines@);
    let ghost added = each_after(before@, texts(names@));
    assert(texts(lines@) =~= start + added.take(0));
    while i < names.len()
        invariant
            i <= names.len(),
            added == each_after(before@, texts(names@)),
            texts(lines@) == start + added.take(i as int),
        decreases names.len() - i,
    {
        let ghost so_far = texts(lines@);
        lines.push(before.to_owned().concat(names[i].as_str()));
        assert(texts(lines@) =~= so_far.push(added[i as int]));
        assert(texts(lines@) =~= start + added.take(i + 1));
        i += 1;
    }
    assert(added.take(i as int) =~= added);
}

/// The lines that `obdctl cleanup` prints.
pub fn swept_lines(swept: &Swept) -> (lines: Vec<String>)
    ensures
        texts(lines@) == each_after("unmounted "@, shown_each(byte_names(swept.unmounted@)))
            + each_after("removed backstore "@, texts(swept.backstores@)) + each_after(
            "removed nexus "@,
            texts(swept.nexuses@),
        ) + if swept.unmounted@.len() == 0 && swept.backstores@.len() == 0 && swept.nexuses@.len()
            == 0 {
            seq!["nothing to clean up"@]
        } else {
            Seq::empty()
        },
{
    let mut lines: Vec<String> = Vec::new();
    let mut i: usize = 0;
    let ghost added = each_after("unmounted "@, shown_each(byte_names(swept.unmounted@)));
    assert(texts(lines@) =~= added.take(0));
    while i < swept.unmounted.len()
        invariant
            i <= swept.unmounted.len(),
            added == each_after("unmounted "@, shown_each(byte_names(swept.unmounted@))),
            texts(lines@) == added.take(i as int),
        decreases swept.unmounted.len() - i,
    {
        let ghost so_far = texts(lines@);
        let place = swept.unmounted[i].display();
        lines.push("unmounted ".to_owned().concat(place.as_str()));
        assert(texts(lines@) =~= so_far.push(added[i as int]));
        assert(texts(lines@) =~= added.take(i + 1));
        i += 1;
    }
    assert(added.take(i as int) =~= added);
    push_each(&mut lines, "removed backstore ", &swept.backstores);
    push_each(&mut lines, "removed nexus ", &swept.nexuses);
    let ghost before = texts(lines@);
    if swept.is_empty() {
        lines.push("nothing to clean up".to_owned());
        assert(texts(lines@) =~= before + seq!["nothing to clean up"@]);
    } else {
        assert(before + Seq::<Seq<char>>::empty() =~= before);
    }
    lines
}

/// A check as a program reads it.
pub open spec fn check_tree(check: CheckView) -> JsonTree {
    JsonTree::Object(
        seq![("name"@, JsonTree::Text(check.name)), ("ok"@, JsonTree::Flag(check.ok))]
            + match check.hint {
            Some(hint) => seq![("hint"@, JsonTree::Text(hint))],
            None => Seq::empty(),
        },
    )
}

fn check_value(check: &Check) -> (value: serde_json::Value)
    ensures
        json_tree(value) == check_tree(check@),
{
    let mut fields: Vec<(String, serde_json::Value)> = Vec::new();
    fields.push(("name".to_owned(), json::text_value(check.name.clone())));
    fields.push(("ok".to_owned(), json::flag_value(check.ok)));
    if let Some(hint) = &check.hint {
        fields.push(("hint".to_owned(), json::text_value(hint.clone())));
    }
    proof {
        reveal_strlit("name");
        reveal_strlit("ok");
        reveal_strlit("hint");
        assert("name"@[0] != "hint"@[0]);
        assert("ok"@.len() == 2);
        match check_tree(check@) {
            JsonTree::Object(expected) => {
                assert(json_members(fields@) =~= expected);
            },
            _ => {},
        }
    }
    json::object_value(fields)
}

/// Checks as a program reads them.
pub open spec fn checks_tree(checks: Seq<CheckView>) -> JsonTree {
    JsonTree::List(Seq::new(checks.len(), |i: int| check_tree(checks[i])))
}

/// The JSON that `obdctl preflight` prints.
pub fn preflight_json(checks: &Vec<Check>) -> (rendered: String)
    ensures
        rendered@ == pretty_text(checks_tree(check_views(checks@))),
{
    let mut values: Vec<serde_json::Value> = Vec::new();
    let mut i: usize = 0;
    let ghost expected = Seq::new(checks@.len(), |i: int| check_tree(check_views(checks@)[i]));
    assert(json_trees(values@) =~= expected.take(0));
    while i < checks.len()
        invariant
            i <= checks.len(),
            expected == Seq::new(checks@.len(), |i: int| check_tree(check_views(checks@)[i])),
            json_trees(values@) == expected.take(i as int),
        decreases checks.len() - i,
    {
        let ghost before = json_trees(values@);
        values.push(check_value(&checks[i]));
        assert(json_trees(values@) =~= before.push(expected[i as int]));
        assert(json_trees(values@) =~= expected.take(i + 1));
        i += 1;
    }
    assert(expected.take(i as int) =~= Seq::new(
        check_views(checks@).len(),
        |i: int| check_tree(check_views(checks@)[i]),
    ));
    pretty(&json::list_value(values))
}

fn pretty(value: &serde_json::Value) -> (rendered: String)
    ensures
        rendered@ == pretty_text(json_tree(*value)),
{
    match json::to_string_pretty(value) {
        Ok(rendered) => rendered,
        Err(message) => message,
    }
}

/// A new writable layer as a program reads it.
pub open spec fn created_tree(data: Seq<char>, index: Seq<char>, size_gb: u32) -> JsonTree {
    JsonTree::Object(
        seq![
            ("data"@, JsonTree::Text(data)),
            ("index"@, JsonTree::Text(index)),
            ("virtual_size_gb"@, JsonTree::Number(size_gb as u64)),
        ],
    )
}

/// The JSON that `obdctl layer create` prints.
pub fn created_json(data: &HostPath, index: &HostPath, size_gb: u32) -> (rendered: Option<String>)
    ensures
        match rendered {
            Some(r) => valid_utf8(data@) && valid_utf8(index@) && r@ == compact_text(
                created_tree(shown(data@), shown(index@), size_gb),
            ),
            None => !(valid_utf8(data@) && valid_utf8(index@)),
        },
{
    let (data_text, index_text) = match (data.to_text(), index.to_text()) {
        (Some(data), Some(index)) => (data, index),
        _ => {
            return None;
        },
    };
    let mut fields: Vec<(String, serde_json::Value)> = Vec::new();
    fields.push(("data".to_owned(), json::text_value(data_text)));
    fields.push(("index".to_owned(), json::text_value(index_text)));
    fields.push(("virtual_size_gb".to_owned(), json::number_value(size_gb as u64)));
    proof {
        reveal_strlit("data");
        reveal_strlit("index");
        reveal_strlit("virtual_size_gb");
        assert("data"@.len() == 4 && "index"@.len() == 5 && "virtual_size_gb"@.len() == 15);
        match created_tree(shown(data@), shown(index@), size_gb) {
            JsonTree::Object(expected) => {
                assert(json_members(fields@) =~= expected);
            },
            _ => {},
        }
    }
    Some(json::to_compact_string(&json::object_value(fields)))
}

/// A committed layer as a program reads it.
pub open spec fn committed_tree(out: Seq<char>, size: u64) -> JsonTree {
    JsonTree::Object(
        seq![("layer"@, JsonTree::Text(out)), ("size"@, JsonTree::Number(size))],
    )
}

/// The JSON that `obdctl layer commit` prints.
pub fn committed_json(out: &HostPath, size: u64) -> (rendered: Option<String>)
    ensures
        match rendered {
            Some(r) => valid_utf8(out@) && r@ == compact_text(committed_tree(shown(out@), size)),
            None => !valid_utf8(out@),
        },
{
    let out_text = match out.to_text() {
        Some(out) => out,
        None => {
            return None;
        },
    };
    let mut fields: Vec<(String, serde_json::Value)> = Vec::new();
    fields.push(("layer".to_owned(), json::text_value(out_text)));
    fields.push(("size".to_owned(), json::number_value(size)));
    proof {
        reveal_strlit("layer");
        reveal_strlit("size");
        assert("layer"@.len() != "size"@.len());
        match committed_tree(shown(out@), size) {
            JsonTree::Object(expected) => {
                assert(json_members(fields@) =~= expected);
            },
            _ => {},
        }
    }
    Some(json::to_compact_string(&json::object_value(fields)))
}

/// A written device config as a program reads it.
pub open spec fn config_tree(out: Seq<char>, remote_lowers: bool) -> JsonTree {
    JsonTree::Object(
        seq![("config"@, JsonTree::Text(out)), ("remote_lowers"@, JsonTree::Flag(remote_lowers))],
    )
}

/// The JSON that `obdctl config` prints.
pub fn config_json(out: &HostPath, remote_lowers: bool) -> (rendered: Option<String>)
    ensures
        match rendered {
            Some(r) => valid_utf8(out@) && r@ == compact_text(
                config_tree(shown(out@), remote_lowers),
            ),
            None => !valid_utf8(out@),
        },
{
    let out_text = match out.to_text() {
        Some(out) => out,
        None => {
            return None;
        },
    };
    let mut fields: Vec<(String, serde_json::Value)> = Vec::new();
    fields.push(("config".to_owned(), json::text_value(out_text)));
    fields.push(("remote_lowers".to_owned(), json::flag_value(remote_lowers)));
    proof {
        reveal_strlit("config");
        reveal_strlit("remote_lowers");
        assert("config"@.len() != "remote_lowers"@.len());
        match config_tree(shown(out@), remote_lowers) {
            JsonTree::Object(expected) => {
                assert(json_members(fields@) =~= expected);
            },
            _ => {},
        }
    }
    Some(json::to_compact_string(&json::object_value(fields)))
}

/// A device that was left running, as a program reads it.
pub open spec fn persisted_tree(persisted: PersistedDevice) -> JsonTree {
    JsonTree::Object(
        seq![
            ("name"@, JsonTree::Text(persisted.name@)),
            ("naa_suffix"@, JsonTree::Text(persisted.naa_suffix@)),
            ("block_device"@, JsonTree::Text(persisted.block_device@)),
        ] + match persisted.mountpoint {
            Some(mountpoint) => seq![("mountpoint"@, JsonTree::Text(shown(mountpoint@)))],
            None => Seq::empty(),
        },
    )
}

/// The JSON that `obdctl device up` prints.
pub fn persisted_json(persisted: &PersistedDevice) -> (rendered: Option<String>)
    ensures
        match rendered {
            Some(r) => (persisted.mountpoint matches Some(mountpoint) ==> valid_utf8(mountpoint@))
                && r@ == pretty_text(persisted_tree(*persisted)),
            None => persisted.mountpoint matches Some(mountpoint) && !valid_utf8(mountpoint@),
        },
{
    let mut fields: Vec<(String, serde_json::Value)> = Vec::new();
    fields.push(("name".to_owned(), json::text_value(persisted.name.clone())));
    fields.push(("naa_suffix".to_owned(), json::text_value(persisted.naa_suffix.clone())));
    fields.push(("block_device".to_owned(), json::text_value(persisted.block_device.clone())));
    if let Some(mountpoint) = &persisted.mountpoint {
        match mountpoint.to_text() {
            Some(place) => {
                fields.push(("mountpoint".to_owned(), json::text_value(place)));
            },
            None => {
                return None;
            },
        }
    }
    proof {
        reveal_strlit("name");
        reveal_strlit("naa_suffix");
        reveal_strlit("block_device");
        reveal_strlit("mountpoint");
        assert("name"@.len() == 4 && "block_device"@.len() == 12);
        assert("naa_suffix"@[0] != "mountpoint"@[0]);
        assert("naa_suffix"@.len() == 10 && "mountpoint"@.len() == 10);
        match persisted_tree(*persisted) {
            JsonTree::Object(expected) => {
                assert(json_members(fields@) =~= expected);
            },
            _ => {},
        }
    }
    Some(pretty(&json::object_value(fields)))
}

/// A device that was taken down, as a program reads it.
pub open spec fn down_tree(name: Seq<char>, naa_suffix: Seq<char>, unmounted: bool) -> JsonTree {
    JsonTree::Object(
        seq![
            ("naa_suffix"@, JsonTree::Text(naa_suffix)),
            ("name"@, JsonTree::Text(name)),
            ("unmounted"@, JsonTree::Flag(unmounted)),
        ],
    )
}

/// The JSON that `obdctl device down` prints.
pub fn down_json(name: &str, naa_suffix: &str, unmounted: bool) -> (rendered: String)
    ensures
        rendered@ == compact_text(down_tree(name@, naa_suffix@, unmounted)),
{
    let mut fields: Vec<(String, serde_json::Value)> = Vec::new();
    fields.push(("naa_suffix".to_owned(), json::text_value(naa_suffix.to_owned())));
    fields.push(("name".to_owned(), json::text_value(name.to_owned())));
    fields.push(("unmounted".to_owned(), json::flag_value(unmounted)));
    proof {
        reveal_strlit("naa_suffix");
        reveal_strlit("name");
        reveal_strlit("unmounted");
        assert("naa_suffix"@.len() == 10 && "name"@.len() == 4 && "unmounted"@.len() == 9);
        match down_tree(name@, naa_suffix@, unmounted) {
            JsonTree::Object(expected) => {
                assert(json_members(fields@) =~= expected);
            },
            _ => {},
        }
    }
    json::to_compact_string(&json::object_value(fields))
}

/// Texts as a program reads them.
pub open spec fn texts_tree(all: Seq<Seq<char>>) -> JsonTree {
    JsonTree::List(Seq::new(all.len(), |i: int| JsonTree::Text(all[i])))
}

fn texts_value(all: &Vec<String>) -> (value: serde_json::Value)
    ensures
        json_tree(value) == texts_tree(texts(all@)),
{
    let mut values: Vec<serde_json::Value> = Vec::new();
    let mut i: usize = 0;
    let ghost expected = Seq::new(all@.len(), |i: int| JsonTree::Text(texts(all@)[i]));
    assert(json_trees(values@) =~= expected.take(0));
    while i < all.len()
        invariant
            i <= all.len(),
            expected == Seq::new(all@.len(), |i: int| JsonTree::Text(texts(all@)[i])),
            json_trees(values@) == expected.take(i as int),
        decreases all.len() - i,
    {
        let ghost before = json_trees(values@);
        values.push(json::text_value(all[i].clone()));
        assert(json_trees(values@) =~= before.push(expected[i as int]));
        assert(json_trees(values@) =~= expected.take(i + 1));
        i += 1;
    }
    assert(expected.take(i as int) =~= Seq::new(
        texts(all@).len(),
        |i: int| JsonTree::Text(texts(all@)[i]),
    ));
    json::list_value(values)
}

/// Whether every path is UTF-8.
pub open spec fn all_text(paths: Seq<Seq<u8>>) -> bool {
    forall|i: int| 0 <= i < paths.len() ==> valid_utf8(#[trigger] paths[i])
}

fn path_texts(paths: &Vec<HostPath>) -> (all: Option<Vec<String>>)
    ensures
        match all {
            Some(a) => all_text(byte_names(paths@)) && texts(a@) == shown_each(byte_names(paths@)),
            None => !all_text(byte_names(paths@)),
        },
{
    let mut all: Vec<String> = Vec::new();
    let mut i: usize = 0;
    assert(texts(all@) =~= shown_each(byte_names(paths@)).take(0));
    while i < paths.len()
        invariant
            i <= paths.len(),
            forall|j: int| 0 <= j < i ==> valid_utf8(#[trigger] byte_names(paths@)[j]),
            texts(all@) == shown_each(byte_names(paths@)).take(i as int),
        decreases paths.len() - i,
    {
        let ghost before = texts(all@);
        assert(byte_names(paths@)[i as int] == paths@[i as int]@);
        match paths[i].to_text() {
            Some(text) => {
                all.push(text);
            },
            None => {
                return None;
            },
        }
        assert(texts(all@) =~= before.push(shown_each(byte_names(paths@))[i as int]));
        assert(texts(all@) =~= shown_each(byte_names(paths@)).take(i + 1));
        i += 1;
    }
    assert(shown_each(byte_names(paths@)).take(i as int) =~= shown_each(byte_names(paths@)));
    Some(all)
}

/// What was swept, as a program reads it.
pub open spec fn swept_tree(swept: Swept) -> JsonTree {
    JsonTree::Object(
        seq![
            ("nexuses"@, texts_tree(texts(swept.nexuses@))),
            ("backstores"@, texts_tree(texts(swept.backstores@))),
            ("unmounted"@, texts_tree(shown_each(byte_names(swept.unmounted@)))),
        ],
    )
}

/// The JSON that `obdctl cleanup` prints.
pub fn swept_json(swept: &Swept) -> (rendered: Option<String>)
    ensures
        match rendered {
            Some(r) => all_text(byte_names(swept.unmounted@)) && r@ == pretty_text(
                swept_tree(*swept),
            ),
            None => !all_text(byte_names(swept.unmounted@)),
        },
{
    let unmounted = match path_texts(&swept.unmounted) {
        Some(unmounted) => unmounted,
        None => {
            return None;
        },
    };
    let mut fields: Vec<(String, serde_json::Value)> = Vec::new();
    fields.push(("nexuses".to_owned(), texts_value(&swept.nexuses)));
    fields.push(("backstores".to_owned(), texts_value(&swept.backstores)));
    fields.push(("unmounted".to_owned(), texts_value(&unmounted)));
    proof {
        reveal_strlit("nexuses");
        reveal_strlit("backstores");
        reveal_strlit("unmounted");
        assert("nexuses"@.len() == 7 && "backstores"@.len() == 10 && "unmounted"@.len() == 9);
        match swept_tree(*swept) {
            JsonTree::Object(expected) => {
                assert(json_members(fields@) =~= expected);
            },
            _ => {},
        }
    }
    Some(pretty(&json::object_value(fields)))
}

/// The checks that failed are counted one by one: none failed exactly where all
/// are fine, one more failed check is one more in the count, and the count of
/// two lists is the sum of theirs.
pub proof fn law_every_failed_check_counts(a: Seq<CheckView>, b: Seq<CheckView>, one: CheckView)
    ensures
        failures(seq![one]) == (if one.ok {
            0nat
        } else {
            1nat
        }),
        failures(a + b) == failures(a) + failures(b),
        failures(a) == 0 <==> forall|i: int| 0 <= i < a.len() ==> (#[trigger] a[i]).ok,
        failures(a) <= a.len(),
    decreases b.len(), a.len(),
{
    reveal_with_fuel(failures, 2);
    assert(seq![one].drop_last() =~= Seq::empty());
    if b.len() > 0 {
        law_every_failed_check_counts(a, b.drop_last(), one);
        assert((a + b).drop_last() =~= a + b.drop_last());
        assert((a + b).last() == b.last());
    } else {
        assert(a + b =~= a);
        if a.len() > 0 {
            let shorter = a.drop_last();
            law_every_failed_check_counts(shorter, Seq::empty(), one);
            assert(forall|i: int| 0 <= i < shorter.len() ==> shorter[i] == a[i]);
            if failures(a) == 0 {
                assert forall|i: int| 0 <= i < a.len() implies (#[trigger] a[i]).ok by {
                    if i < shorter.len() {
                        assert(shorter[i].ok);
                    }
                }
            } else if forall|i: int| 0 <= i < a.len() ==> (#[trigger] a[i]).ok {
                assert(a.last().ok);
                assert forall|i: int| 0 <= i < shorter.len() implies (#[trigger] shorter[i]).ok by {
                    assert(a[i].ok);
                }
            }
        }
    }
}

/// Checks are printed in order, each with its own name: one that passed on a
/// line of its own, one that failed with its hint on the next.
pub proof fn law_checks_are_printed_one_after_the_other(
    a: Seq<CheckView>,
    b: Seq<CheckView>,
    one: CheckView,
)
    ensures
        all_check_lines(a + b) == all_check_lines(a) + all_check_lines(b),
        one.ok ==> all_check_lines(seq![one]) == seq!["  [ok]   "@ + one.name],
        !one.ok && one.hint is Some ==> all_check_lines(seq![one]) == seq![
            "  [FAIL] "@ + one.name,
            "         -> "@ + one.hint->Some_0,
        ],
        !one.ok && one.hint is None ==> all_check_lines(seq![one]) == seq![
            "  [FAIL] "@ + one.name,
        ],
    decreases b.len(),
{
    reveal_with_fuel(all_check_lines, 2);
    assert(seq![one].drop_last() =~= Seq::empty());
    assert(all_check_lines(seq![one]) =~= check_lines(one));
    if !one.ok && one.hint is Some {
        assert(check_lines(one) =~= seq![
            "  [FAIL] "@ + one.name,
            "         -> "@ + one.hint->Some_0,
        ]);
    }
    if !one.ok && one.hint is None {
        assert(check_lines(one) =~= seq!["  [FAIL] "@ + one.name]);
    }
    if b.len() > 0 {
        law_checks_are_printed_one_after_the_other(a, b.drop_last(), one);
        assert((a + b).drop_last() =~= a + b.drop_last());
        assert((a + b).last() == b.last());
        assert(all_check_lines(a + b) =~= all_check_lines(a) + (all_check_lines(b.drop_last())
            + check_lines(b.last())));
    } else {
        assert(a + b =~= a);
        assert(all_check_lines(a) + all_check_lines(b) =~= all_check_lines(a));
    }
}

/// The verdict is a pass exactly where nothing failed, and else names how many
/// did.
pub proof fn law_the_verdict_names_how_many_failed(failed: nat)
    ensures
        failed == 0 ==> verdict(failed) == "preflight: PASS"@,
        failed > 0 ==> verdict(failed) == "preflight: FAIL ("@ + text::decimal(failed)
            + " blocking)"@,
        verdict(failed) == "preflight: PASS"@ ==> failed == 0,
{
    reveal_strlit("preflight: PASS");
    reveal_strlit("preflight: FAIL (");
    if failed > 0 {
        assert(verdict(failed)[11] == 'F');
        assert("preflight: PASS"@[11] == 'P');
    }
}

/// A check is told in JSON by its name, whether it passed, and its hint where it
/// has one; the checks are told in order.
pub proof fn law_a_check_is_told_as_it_is(checks: Seq<CheckView>, i: int)
    requires
        0 <= i < checks.len(),
    ensures
        checks_tree(checks) matches JsonTree::List(told) && told.len() == checks.len() && {
            &&& json::member(told[i], "name"@) == Some(JsonTree::Text(checks[i].name))
            &&& json::member(told[i], "ok"@) == Some(JsonTree::Flag(checks[i].ok))
            &&& json::member(told[i], "hint"@) == (match checks[i].hint {
                Some(hint) => Some(JsonTree::Text(hint)),
                None => None,
            })
        },
{
    reveal_strlit("name");
    reveal_strlit("ok");
    reveal_strlit("hint");
    reveal_with_fuel(json::found, 4);
    assert("name"@[0] != "hint"@[0]);
    assert("name"@.len() == 4 && "ok"@.len() == 2 && "hint"@.len() == 4);
}

/// A layer that was created is told in JSON by its two files and its size, and
/// one that was committed by its file and its size.
pub proof fn law_a_layer_is_told_as_it_is(data: Seq<char>, index: Seq<char>, size_gb: u32, size: u64)
    ensures
        json::member(created_tree(data, index, size_gb), "data"@) == Some(JsonTree::Text(data)),
        json::member(created_tree(data, index, size_gb), "index"@) == Some(JsonTree::Text(index)),
        json::member(created_tree(data, index, size_gb), "virtual_size_gb"@) == Some(
            JsonTree::Number(size_gb as u64),
        ),
        json::member(committed_tree(data, size), "layer"@) == Some(JsonTree::Text(data)),
        json::member(committed_tree(data, size), "size"@) == Some(JsonTree::Number(size)),
{
    reveal_strlit("data");
    reveal_strlit("index");
    reveal_strlit("virtual_size_gb");
    reveal_strlit("layer");
    reveal_strlit("size");
    reveal_with_fuel(json::found, 4);
    assert("data"@.len() == 4 && "index"@.len() == 5 && "virtual_size_gb"@.len() == 15);
    assert("layer"@.len() == 5 && "size"@.len() == 4);
}

/// A config that was written is told in JSON by its path and whether it has
/// streamed lowers.
pub proof fn law_a_config_is_told_by_its_path(out: Seq<char>, remote_lowers: bool)
    ensures
        json::member(config_tree(out, remote_lowers), "config"@) == Some(JsonTree::Text(out)),
        json::member(config_tree(out, remote_lowers), "remote_lowers"@) == Some(
            JsonTree::Flag(remote_lowers),
        ),
{
    reveal_strlit("config");
    reveal_strlit("remote_lowers");
    reveal_with_fuel(json::found, 3);
    assert("config"@.len() == 6 && "remote_lowers"@.len() == 13);
}

/// A device that was left running is told in JSON by its name, its suffix, its
/// node and, where it is mounted, its mountpoint; one that was taken down by its
/// name, its suffix and whether it was unmounted.
pub proof fn law_a_device_is_told_as_it_is(
    persisted: PersistedDevice,
    name: Seq<char>,
    naa_suffix: Seq<char>,
    unmounted: bool,
)
    ensures
        json::member(persisted_tree(persisted), "name"@) == Some(JsonTree::Text(persisted.name@)),
        json::member(persisted_tree(persisted), "naa_suffix"@) == Some(
            JsonTree::Text(persisted.naa_suffix@),
        ),
        json::member(persisted_tree(persisted), "block_device"@) == Some(
            JsonTree::Text(persisted.block_device@),
        ),
        json::member(persisted_tree(persisted), "mountpoint"@) == (match persisted.mountpoint {
            Some(mountpoint) => Some(JsonTree::Text(shown(mountpoint@))),
            None => None,
        }),
        json::member(down_tree(name, naa_suffix, unmounted), "name"@) == Some(JsonTree::Text(name)),
        json::member(down_tree(name, naa_suffix, unmounted), "naa_suffix"@) == Some(
            JsonTree::Text(naa_suffix),
        ),
        json::member(down_tree(name, naa_suffix, unmounted), "unmounted"@) == Some(
            JsonTree::Flag(unmounted),
        ),
{
    reveal_strlit("name");
    reveal_strlit("naa_suffix");
    reveal_strlit("block_device");
    reveal_strlit("mountpoint");
    reveal_strlit("unmounted");
    reveal_with_fuel(json::found, 5);
    assert("name"@.len() == 4 && "naa_suffix"@.len() == 10 && "block_device"@.len() == 12);
    assert("mountpoint"@.len() == 10 && "unmounted"@.len() == 9);
    assert("mountpoint"@[0] != "naa_suffix"@[0]);
}

/// What a cleanup removed is told in JSON in full and in order: the nexuses, the
/// backstores and the mountpoints, each under its own key.
pub proof fn law_what_was_swept_is_told_in_full(swept: Swept)
    ensures
        json::member(swept_tree(swept), "nexuses"@) matches Some(JsonTree::List(told))
            && told.len() == swept.nexuses@.len() && (forall|i: int|
            0 <= i < told.len() ==> #[trigger] told[i] == JsonTree::Text(swept.nexuses@[i]@)),
        json::member(swept_tree(swept), "backstores"@) matches Some(JsonTree::List(told))
            && told.len() == swept.backstores@.len() && (forall|i: int|
            0 <= i < told.len() ==> #[trigger] told[i] == JsonTree::Text(swept.backstores@[i]@)),
        json::member(swept_tree(swept), "unmounted"@) matches Some(JsonTree::List(told))
            && told.len() == swept.unmounted@.len() && (forall|i: int|
            0 <= i < told.len() ==> #[trigger] told[i] == JsonTree::Text(
                shown(swept.unmounted@[i]@),
            )),
{
    reveal_strlit("nexuses");
    reveal_strlit("backstores");
    reveal_strlit("unmounted");
    reveal_with_fuel(json::found, 4);
    assert("nexuses"@.len() == 7 && "backstores"@.len() == 10 && "unmounted"@.len() == 9);
}

/// The lines for a device that was left running name its node and, where it is
/// mounted, its mountpoint and the subdirectory under it.
pub proof fn law_a_running_device_is_printed_as_it_is(
    persisted: PersistedDevice,
    subdir: Option<Seq<char>>,
)
    ensures
        ({
            let lines = persisted_texts(persisted, subdir);
            &&& lines[0] == "device "@ + persisted.name@ + " is "@ + persisted.block_device@
            &&& match persisted.mountpoint {
                Some(mountpoint) => {
                    &&& lines[1] == "mounted at "@ + shown(mountpoint@)
                    &&& lines.len() == (if subdir is Some {
                        3nat
                    } else {
                        2nat
                    })
                    &&& subdir matches Some(name) ==> lines[2] == "subdir "@ + shown(
                        joined_bytes(mountpoint@, encode_utf8(name)),
                    )
                },
                None => lines.len() == 1,
            }
        }),
{
}

/// Each of the names is printed on a line of its own behind the same words.
pub proof fn law_each_name_is_printed(before: Seq<char>, names: Seq<Seq<char>>, i: int)
    requires
        0 <= i < names.len(),
    ensures
        each_after(before, names).len() == names.len(),
        each_after(before, names)[i] == before + names[i],
{
}

} // verus!
