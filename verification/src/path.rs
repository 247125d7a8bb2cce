//! Paths.
//!
//! Paths inside the kernel's file systems are built here out of names, so they
//! are text. Paths that a caller names are whatever bytes the host accepts:
//! [`HostPath`] carries those bytes unchanged and shows them as text for
//! messages and for the device config.

use vstd::prelude::*;
use vstd::utf8::decode_utf8;
use vstd::utf8::encode_utf8;
use vstd::utf8::valid_utf8;

use crate::text;

verus! {

/// A path, or one name in a path, as the host spells it.
#[derive(Debug, PartialEq, Eq)]
pub struct HostPath {
    pub bytes: Vec<u8>,
}

impl View for HostPath {
    type V = Seq<u8>;

    open spec fn view(&self) -> Seq<u8> {
        self.bytes@
    }
}

/// What `String::from_utf8_lossy` makes of bytes that are not UTF-8.
pub uninterp spec fn lossy_text(bytes: Seq<u8>) -> Seq<char>;

/// The text that bytes are shown as.
pub open spec fn shown(bytes: Seq<u8>) -> Seq<char> {
    if valid_utf8(bytes) {
        decode_utf8(bytes)
    } else {
        lossy_text(bytes)
    }
}

/// `String::from_utf8_lossy`: bytes that are UTF-8 are decoded, and any others
/// are decoded with replacement characters, in a way that depends on the bytes
/// alone.
#[verifier::external_body]
fn from_utf8_lossy(bytes: &[u8]) -> (text: String)
    ensures
        valid_utf8(bytes@) ==> text@ == decode_utf8(bytes@),
        !valid_utf8(bytes@) ==> text@ == lossy_text(bytes@),
{
    String::from_utf8_lossy(bytes).into_owned()
}

/// `std::str::from_utf8`: bytes that are UTF-8 are decoded, and any others are
/// refused.
#[verifier::external_body]
fn from_utf8(bytes: &[u8]) -> (text: Option<String>)
    ensures
        text is Some <==> valid_utf8(bytes@),
        text matches Some(t) ==> t@ == decode_utf8(bytes@),
{
    std::str::from_utf8(bytes).ok().map(|text| text.to_owned())
}

/// What formatting a path with `{:?}` gives for a path that is this text: the text
/// in double quotes, with whatever cannot stand there escaped.
pub uninterp spec fn quoted_text(text: Seq<char>) -> Seq<char>;

/// The `Debug` of `std::path::Path`: the text that it formats a path as depends on
/// the path alone. How it escapes is left unsaid.
#[verifier::external_body]
fn debug_path(text: &str) -> (quoted: String)
    ensures
        quoted@ == quoted_text(text@),
{
    format!("{:?}", std::path::Path::new(text))
}

/// Show bytes as text.
pub fn show_bytes(bytes: &[u8]) -> (text: String)
    ensures
        text@ == shown(bytes@),
{
    from_utf8_lossy(bytes)
}

/// `part` under `base`: an absolute `part` stands alone, and a separator is put
/// between the two unless `base` is empty or ends in one.
pub open spec fn joined(base: Seq<char>, part: Seq<char>) -> Seq<char> {
    if part.len() > 0 && part[0] == '/' {
        part
    } else if base.len() == 0 || base.last() == '/' {
        base + part
    } else {
        base.push('/') + part
    }
}

/// `part` under `base`, for paths as bytes.
pub open spec fn joined_bytes(base: Seq<u8>, part: Seq<u8>) -> Seq<u8> {
    if part.len() > 0 && part[0] == 47 {
        part
    } else if base.len() == 0 || base.last() == 47 {
        base + part
    } else {
        base.push(47) + part
    }
}

/// `part` under `base`.
pub fn join(base: &str, part: &str) -> (path: String)
    ensures
        path@ == joined(base@, part@),
{
    let b = text::chars_of(base);
    let p = text::chars_of(part);
    if p.len() > 0 && p[0] == '/' {
        return part.to_owned();
    }
    let mut path = base.to_owned();
    if b.len() > 0 && b[b.len() - 1] != '/' {
        path.push('/');
    }
    path.append(part);
    path
}

impl HostPath {
    /// The path that `text` spells.
    pub fn new(text: &str) -> (path: HostPath)
        ensures
            path@ == encode_utf8(text@),
            shown(path@) == text@,
    {
        proof {
            vstd::utf8::encode_utf8_valid_utf8(text@);
            vstd::utf8::encode_utf8_decode_utf8(text@);
        }
        HostPath { bytes: text.as_bytes_vec() }
    }

    /// The path as text, with replacement characters where it is not UTF-8.
    pub fn display(&self) -> (text: String)
        ensures
            text@ == shown(self@),
    {
        show_bytes(self.bytes.as_slice())
    }

    /// The path in quotes, for a message that lists several. One that is not UTF-8
    /// is quoted as it is shown.
    pub fn quoted(&self) -> (text: String)
        ensures
            text@ == quoted_text(shown(self@)),
    {
        debug_path(self.display().as_str())
    }

    /// The path as text, where it is UTF-8.
    pub fn to_text(&self) -> (text: Option<String>)
        ensures
            text is Some <==> valid_utf8(self@),
            text matches Some(t) ==> t@ == shown(self@),
    {
        from_utf8(self.bytes.as_slice())
    }

    /// Whether the path has no bytes at all.
    pub fn is_empty(&self) -> (yes: bool)
        ensures
            yes == (self@.len() == 0),
    {
        self.bytes.len() == 0
    }

    /// `part` under this path.
    pub fn join(&self, part: &HostPath) -> (path: HostPath)
        ensures
            path@ == joined_bytes(self@, part@),
    {
        if part.bytes.len() > 0 && part.bytes[0] == 47 {
            return part.clone();
        }
        let mut path = self.clone();
        if self.bytes.len() > 0 && self.bytes[self.bytes.len() - 1] != 47 {
            path.bytes.push(47);
        }
        let mut i: usize = 0;
        let ghost start = path.bytes@;
        while i < part.bytes.len()
            invariant
                i <= part.bytes.len(),
                path.bytes@ == start + part.bytes@.take(i as int),
            decreases part.bytes.len() - i,
        {
            path.bytes.push(part.bytes[i]);
            assert(path.bytes@ =~= start + part.bytes@.take(i + 1));
            i += 1;
        }
        assert(part.bytes@.take(i as int) == part.bytes@);
        path
    }
}

impl Clone for HostPath {
    fn clone(&self) -> (copy: Self)
        ensures
            copy@ == self@,
    {
        let mut bytes: Vec<u8> = Vec::new();
        let mut i: usize = 0;
        while i < self.bytes.len()
            invariant
                i <= self.bytes.len(),
                bytes@ == self.bytes@.take(i as int),
            decreases self.bytes.len() - i,
        {
            bytes.push(self.bytes[i]);
            i += 1;
        }
        HostPath { bytes }
    }
}

/// The bytes of an optional path.
pub open spec fn optional_bytes(path: Option<HostPath>) -> Option<Seq<u8>> {
    match path {
        Some(p) => Some(p@),
        None => None,
    }
}

/// The bytes of each path in a sequence.
pub open spec fn byte_names(paths: Seq<HostPath>) -> Seq<Seq<u8>> {
    Seq::new(paths.len(), |i: int| paths[i]@)
}

/// The paths as they are shown.
pub open spec fn shown_each(paths: Seq<Seq<u8>>) -> Seq<Seq<char>> {
    Seq::new(paths.len(), |i: int| shown(paths[i]))
}

/// Bytes as numbers, for ordering.
pub open spec fn octets(bytes: Seq<u8>) -> Seq<u32> {
    Seq::new(bytes.len(), |i: int| bytes[i] as u32)
}

/// Whether names stand in the order of their bytes.
pub open spec fn in_byte_order(names: Seq<Seq<u8>>) -> bool {
    forall|i: int, j: int|
        0 <= i <= j < names.len() ==> text::lex_le(
            octets(#[trigger] names[i]),
            octets(#[trigger] names[j]),
        )
}

fn octets_of(path: &HostPath) -> (v: Vec<u32>)
    ensures
        v@ == octets(path@),
{
    let mut v: Vec<u32> = Vec::new();
    let mut i: usize = 0;
    while i < path.bytes.len()
        invariant
            i <= path.bytes.len(),
            v@ == octets(path@).take(i as int),
        decreases path.bytes.len() - i,
    {
        v.push(path.bytes[i] as u32);
        i += 1;
    }
    assert(octets(path@).take(i as int) == octets(path@));
    v
}

proof fn lemma_insert_into_multiset(s: Seq<Seq<u8>>, at: int, name: Seq<u8>)
    requires
        0 <= at <= s.len(),
    ensures
        s.insert(at, name).to_multiset() == s.to_multiset().insert(name),
{
    broadcast use vstd::seq_lib::group_to_multiset_ensures;
    broadcast use vstd::multiset::group_multiset_axioms;

    let grown = s.insert(at, name);
    assert(grown.remove(at) =~= s);
    assert(grown[at] == name);
    assert(grown.contains(name));
    let removed = grown.to_multiset().remove(name);
    assert(removed == s.to_multiset());
    assert forall|other: Seq<u8>| #[trigger] grown.to_multiset().count(other)
        == s.to_multiset().insert(name).count(other) by {
        assert(removed.count(other) == s.to_multiset().count(other));
    }
    assert(grown.to_multiset() =~= s.to_multiset().insert(name));
}

/// Put names into the order of their bytes.
pub fn sort_names(names: Vec<HostPath>) -> (sorted: Vec<HostPath>)
    ensures
        in_byte_order(byte_names(sorted@)),
        byte_names(sorted@).to_multiset() == byte_names(names@).to_multiset(),
{
    broadcast use vstd::seq_lib::group_to_multiset_ensures;

    let mut pending = names;
    let mut sorted: Vec<HostPath> = Vec::new();
    let ghost all = byte_names(names@).to_multiset();
    assert(byte_names(sorted@) =~= Seq::<Seq<u8>>::empty());
    assert(all =~= byte_names(pending@).to_multiset().add(byte_names(sorted@).to_multiset()));
    while pending.len() > 0
        invariant
            in_byte_order(byte_names(sorted@)),
            all == byte_names(pending@).to_multiset().add(byte_names(sorted@).to_multiset()),
        decreases pending.len(),
    {
        let ghost before = pending@;
        let next = match pending.pop() {
            Some(next) => next,
            None => {
                return sorted;
            },
        };
        proof {
            assert(byte_names(before) =~= byte_names(pending@).push(next@));
            vstd::seq_lib::to_multiset_build(byte_names(pending@), next@);
        }
        let key = octets_of(&next);
        let mut at: usize = 0;
        while at < sorted.len() && text::in_order(&octets_of(&sorted[at]), &key)
            invariant
                at <= sorted.len(),
                key@ == octets(next@),
                forall|i: int|
                    0 <= i < at ==> text::lex_le(octets(#[trigger] byte_names(sorted@)[i]), key@),
            decreases sorted.len() - at,
        {
            at += 1;
        }
        let ghost old_sorted = byte_names(sorted@);
        proof {
            if at < sorted.len() {
                text::lemma_lex_total(octets(old_sorted[at as int]), key@);
            }
            assert forall|i: int| at <= i < old_sorted.len() implies text::lex_le(
                key@,
                octets(#[trigger] old_sorted[i]),
            ) by {
                assert(text::lex_le(octets(old_sorted[at as int]), octets(old_sorted[i])));
                text::lemma_lex_transitive(
                    key@,
                    octets(old_sorted[at as int]),
                    octets(old_sorted[i]),
                );
            }
        }
        sorted.insert(at, next);
        proof {
            let new_sorted = byte_names(sorted@);
            assert(new_sorted =~= old_sorted.insert(at as int, next@));
            text::lemma_lex_total(key@, key@);
            assert forall|i: int, j: int| 0 <= i <= j < new_sorted.len() implies text::lex_le(
                octets(#[trigger] new_sorted[i]),
                octets(#[trigger] new_sorted[j]),
            ) by {
                if i < at {
                    assert(new_sorted[i] == old_sorted[i]);
                } else if i > at {
                    assert(new_sorted[i] == old_sorted[i - 1]);
                }
                if j < at {
                    assert(new_sorted[j] == old_sorted[j]);
                } else if j > at {
                    assert(new_sorted[j] == old_sorted[j - 1]);
                }
            }
            lemma_insert_into_multiset(old_sorted, at as int, next@);
            assert(byte_names(before).to_multiset() == byte_names(pending@).to_multiset().insert(
                next@,
            ));
            assert(all =~= byte_names(pending@).to_multiset().add(new_sorted.to_multiset())) by {
                broadcast use vstd::multiset::group_multiset_axioms;

            }
        }
    }
    proof {
        assert(byte_names(pending@) =~= Seq::<Seq<u8>>::empty());
        assert(byte_names(sorted@).to_multiset() =~= all);
    }
    sorted
}

proof fn lemma_encode_concat(a: Seq<char>, b: Seq<char>)
    ensures
        encode_utf8(a + b) == encode_utf8(a) + encode_utf8(b),
    decreases a.len(),
{
    if a.len() == 0 {
        assert(a + b =~= b);
        assert(encode_utf8(a) + encode_utf8(b) =~= encode_utf8(b));
    } else {
        assert((a + b).drop_first() =~= a.drop_first() + b);
        lemma_encode_concat(a.drop_first(), b);
        assert(encode_utf8(a + b) =~= encode_utf8(a) + encode_utf8(b));
    }
}

proof fn lemma_encode_one(c: char)
    ensures
        encode_utf8(seq![c]).len() > 0,
        encode_utf8(seq![c])[0] == 47 <==> c == '/',
        encode_utf8(seq![c]).last() == 47 <==> c == '/',
        encode_utf8(seq!['/']) == seq![47u8],
{
    reveal_with_fuel(encode_utf8, 2);
    vstd::utf8::char_is_scalar(c);
    let n = c as u32;
    assert(seq![c].drop_first() =~= Seq::empty());
    assert(seq!['/'].drop_first() =~= Seq::empty());
    assert(encode_utf8(seq![c]) =~= vstd::utf8::encode_scalar(n));
    assert(encode_utf8(seq!['/']) =~= vstd::utf8::encode_scalar('/' as u32));
    assert(n <= 0x7f ==> ((n & 0x7f) as u8 == 47u8 <==> n == 47)) by (bit_vector);
    assert((47u32 & 0x7f) as u8 == 47u8) by (bit_vector);
    assert((0xc0u8 | ((n >> 6) & 0x1f) as u8) != 47) by (bit_vector);
    assert((0xe0u8 | ((n >> 12) & 0x0f) as u8) != 47) by (bit_vector);
    assert((0xf0u8 | ((n >> 18) & 0x7) as u8) != 47) by (bit_vector);
    assert((0x80u8 | (n & 0x3f) as u8) != 47) by (bit_vector);
}

/// A path that is put together as text names the same place as one that is put
/// together as bytes.
pub proof fn law_text_and_bytes_join_alike(base: Seq<char>, part: Seq<char>)
    ensures
        joined_bytes(encode_utf8(base), encode_utf8(part)) == encode_utf8(joined(base, part)),
{
    let b = encode_utf8(base);
    let p = encode_utf8(part);
    if part.len() > 0 {
        lemma_encode_one(part[0]);
        assert(part =~= seq![part[0]] + part.drop_first());
        lemma_encode_concat(seq![part[0]], part.drop_first());
        assert(p[0] == encode_utf8(seq![part[0]])[0]);
    }
    if base.len() > 0 {
        lemma_encode_one(base.last());
        assert(base =~= base.drop_last() + seq![base.last()]);
        lemma_encode_concat(base.drop_last(), seq![base.last()]);
        assert(b.last() == encode_utf8(seq![base.last()]).last());
    }
    lemma_encode_concat(base, part);
    lemma_encode_concat(base, seq!['/']);
    lemma_encode_concat(base.push('/'), part);
    lemma_encode_one('/');
    assert(base.push('/') =~= base + seq!['/']);
    assert(b.push(47) =~= b + seq![47u8]);
}

/// A path that is text is shown as that text, and two such paths are shown alike
/// only where they are the same.
pub proof fn law_a_text_path_is_shown_as_it_is(a: Seq<char>, b: Seq<char>)
    ensures
        shown(encode_utf8(a)) == a,
        encode_utf8(a) == encode_utf8(b) ==> a == b,
{
    vstd::utf8::encode_utf8_valid_utf8(a);
    vstd::utf8::encode_utf8_decode_utf8(a);
    vstd::utf8::encode_utf8_decode_utf8(b);
}

/// A part under a base is the base, one slash and the part; a part that starts at
/// the root is taken as it is.
pub proof fn law_joining_puts_one_slash_between(base: Seq<char>, part: Seq<char>)
    ensures
        part.len() > 0 && part[0] == '/' ==> joined(base, part) == part,
        base.len() > 0 && base.last() != '/' && (part.len() == 0 || part[0] != '/') ==> joined(
            base,
            part,
        ) == base + seq!['/'] + part,
        base.len() > 0 && base.last() == '/' && (part.len() == 0 || part[0] != '/') ==> joined(
            base,
            part,
        ) == base + part,
        base.len() == 0 ==> joined(base, part) == part,
{
    if base.len() > 0 && base.last() != '/' && (part.len() == 0 || part[0] != '/') {
        assert(base.push('/') =~= base + seq!['/']);
    }
    if base.len() == 0 {
        assert(base + part =~= part);
    }
}

/// The same holds of paths as bytes.
pub proof fn law_joining_bytes_puts_one_slash_between(base: Seq<u8>, part: Seq<u8>)
    ensures
        part.len() > 0 && part[0] == 47 ==> joined_bytes(base, part) == part,
        base.len() > 0 && base.last() != 47 && (part.len() == 0 || part[0] != 47)
            ==> joined_bytes(base, part) == base + seq![47u8] + part,
        base.len() > 0 && base.last() == 47 && (part.len() == 0 || part[0] != 47)
            ==> joined_bytes(base, part) == base + part,
        base.len() == 0 ==> joined_bytes(base, part) == part,
{
    if base.len() > 0 && base.last() != 47 && (part.len() == 0 || part[0] != 47) {
        assert(base.push(47) =~= base + seq![47u8]);
    }
    if base.len() == 0 {
        assert(base + part =~= part);
    }
}

/// Of two names in byte order, the later one does not end inside the earlier
/// one, and where they first differ the earlier one has the smaller byte.
pub proof fn law_byte_order_goes_by_the_first_difference(
    names: Seq<Seq<u8>>,
    i: int,
    j: int,
    d: int,
)
    requires
        in_byte_order(names),
        0 <= i <= j < names.len(),
        0 <= d <= names[i].len(),
        d <= names[j].len(),
        names[i].take(d) == names[j].take(d),
    ensures
        d < names[i].len() ==> d < names[j].len() && names[i][d] <= names[j][d],
{
    let a = octets(names[i]);
    let b = octets(names[j]);
    assert(text::lex_le(a, b));
    assert forall|n: int| 0 <= n < d implies #[trigger] a[n] == b[n] by {
        assert(names[i].take(d)[n] == names[i][n]);
        assert(names[j].take(d)[n] == names[j][n]);
    }
    text::law_order_is_that_of_the_first_difference(a, b, d);
}

} // verus!
