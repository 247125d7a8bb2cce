//! Text handling on characters: trimming, splitting, prefixes and decimal
//! numbers, each stated over `Seq<char>`.

use vstd::prelude::*;

verus! {

/// The characters with Unicode's `White_Space` property.
pub open spec fn is_space(c: char) -> bool {
    ||| '\u{9}' <= c <= '\u{d}'
    ||| c == ' '
    ||| c == '\u{85}'
    ||| c == '\u{a0}'
    ||| c == '\u{1680}'
    ||| '\u{2000}' <= c <= '\u{200a}'
    ||| c == '\u{2028}'
    ||| c == '\u{2029}'
    ||| c == '\u{202f}'
    ||| c == '\u{205f}'
    ||| c == '\u{3000}'
}

/// `s` without its leading white space.
pub open spec fn trim_start(s: Seq<char>) -> Seq<char>
    decreases s.len(),
{
    if s.len() > 0 && is_space(s[0]) {
        trim_start(s.skip(1))
    } else {
        s
    }
}

/// `s` without its trailing white space.
pub open spec fn trim_end(s: Seq<char>) -> Seq<char>
    decreases s.len(),
{
    if s.len() > 0 && is_space(s.last()) {
        trim_end(s.drop_last())
    } else {
        s
    }
}

/// `s` without the white space around it.
pub open spec fn trimmed(s: Seq<char>) -> Seq<char> {
    trim_end(trim_start(s))
}

/// `s` cut around the first `c` in it.
pub open spec fn cut_once(s: Seq<char>, c: char) -> Option<(Seq<char>, Seq<char>)>
    decreases s.len(),
{
    if s.len() == 0 {
        None
    } else if s[0] == c {
        Some((Seq::empty(), s.skip(1)))
    } else {
        match cut_once(s.skip(1), c) {
            None => None,
            Some((head, tail)) => Some((seq![s[0]] + head, tail)),
        }
    }
}

/// `line` without one carriage return at its end.
pub open spec fn without_return(line: Seq<char>) -> Seq<char> {
    if line.len() > 0 && line.last() == '\r' {
        line.drop_last()
    } else {
        line
    }
}

/// The lines of `s`: each ends at a line feed, which is dropped together with
/// one carriage return before it. The last one needs no line feed.
pub open spec fn lines(s: Seq<char>) -> Seq<Seq<char>>
    decreases s.len(),
    via lines_shrink
{
    if s.len() == 0 {
        Seq::empty()
    } else {
        match cut_once(s, '\n') {
            None => seq![s],
            Some((line, rest)) => seq![without_return(line)] + lines(rest),
        }
    }
}

#[via_fn]
proof fn lines_shrink(s: Seq<char>) {
    lemma_cut_once(s, '\n');
}

/// Whether `c` parts the fields of a table: a space or a tab.
pub open spec fn is_blank(c: char) -> bool {
    c == ' ' || c == '\t'
}

/// `s` without the blanks at its front.
pub open spec fn without_blanks(s: Seq<char>) -> Seq<char>
    decreases s.len(),
{
    if s.len() > 0 && is_blank(s[0]) {
        without_blanks(s.skip(1))
    } else {
        s
    }
}

/// The runs of `s` between blanks.
pub open spec fn words(s: Seq<char>) -> Seq<Seq<char>>
    decreases s.len(),
    via words_shrink
{
    let t = without_blanks(s);
    if t.len() == 0 {
        Seq::empty()
    } else {
        seq![word(t)] + words(t.skip(word(t).len() as int))
    }
}

#[via_fn]
proof fn words_shrink(s: Seq<char>) {
    lemma_without_blanks_len(s);
    lemma_word_len(without_blanks(s));
}

/// The run at the front of `s` up to the first blank.
pub open spec fn word(s: Seq<char>) -> Seq<char>
    decreases s.len(),
{
    if s.len() == 0 || is_blank(s[0]) {
        Seq::empty()
    } else {
        seq![s[0]] + word(s.skip(1))
    }
}

/// `parts` with `separator` between each two of them.
pub open spec fn glued(parts: Seq<Seq<char>>, separator: Seq<char>) -> Seq<char>
    decreases parts.len(),
{
    if parts.len() == 0 {
        Seq::empty()
    } else if parts.len() == 1 {
        parts[0]
    } else {
        glued(parts.drop_last(), separator) + separator + parts.last()
    }
}

/// The texts that a sequence of strings holds.
pub open spec fn texts(strings: Seq<String>) -> Seq<Seq<char>> {
    Seq::new(strings.len(), |i: int| strings[i]@)
}

/// Whether `c` is an octal digit.
pub open spec fn is_octal(c: char) -> bool {
    '0' <= c && c <= '7'
}

/// Whether `s` begins with a backslash and three octal digits that make up a
/// byte.
pub open spec fn is_escape(s: Seq<char>) -> bool {
    s.len() >= 4 && s[0] == '\\' && '0' <= s[1] && s[1] <= '3' && is_octal(s[2]) && is_octal(s[3])
}

/// The character that a backslash and three octal digits stand for.
pub open spec fn escape_value(s: Seq<char>) -> char {
    ((s[1] as u32 - '0' as u32) * 64 + (s[2] as u32 - '0' as u32) * 8 + (s[3] as u32
        - '0' as u32)) as u8 as char
}

/// `s` with each backslash and three octal digits turned into the character that
/// they stand for.
pub open spec fn unescaped(s: Seq<char>) -> Seq<char>
    decreases s.len(),
{
    if s.len() == 0 {
        Seq::empty()
    } else if is_escape(s) {
        seq![escape_value(s)] + unescaped(s.skip(4))
    } else {
        seq![s[0]] + unescaped(s.skip(1))
    }
}

/// `s` as the kernel writes it into a table whose fields white space parts: a
/// space, tab, newline or backslash becomes a backslash and three octal digits.
pub open spec fn escaped(s: Seq<char>) -> Seq<char>
    decreases s.len(),
{
    if s.len() == 0 {
        Seq::empty()
    } else {
        (if s[0] == ' ' {
            "\\040"@
        } else if s[0] == '\t' {
            "\\011"@
        } else if s[0] == '\n' {
            "\\012"@
        } else if s[0] == '\\' {
            "\\134"@
        } else {
            seq![s[0]]
        }) + escaped(s.skip(1))
    }
}

/// What the kernel escaped reads back as it was.
pub proof fn law_escaped_text_reads_back(s: Seq<char>)
    ensures
        unescaped(escaped(s)) == s,
    decreases s.len(),
{
    reveal_strlit("\\040");
    reveal_strlit("\\011");
    reveal_strlit("\\012");
    reveal_strlit("\\134");
    if s.len() > 0 {
        let rest = escaped(s.skip(1));
        let whole = escaped(s);
        law_escaped_text_reads_back(s.skip(1));
        if s[0] == ' ' || s[0] == '\t' || s[0] == '\n' || s[0] == '\\' {
            assert(is_escape(whole));
            assert(whole.skip(4) =~= rest);
            assert(escape_value(whole) == s[0]);
        } else {
            assert(whole.skip(1) =~= rest);
        }
        assert(seq![s[0]] + s.skip(1) =~= s);
    }
}

proof fn lemma_escaped_has_no_blanks(s: Seq<char>)
    ensures
        s.len() > 0 ==> escaped(s).len() > 0,
        forall|j: int| 0 <= j < escaped(s).len() ==> !is_blank(#[trigger] escaped(s)[j]),
    decreases s.len(),
{
    reveal_strlit("\\040");
    reveal_strlit("\\011");
    reveal_strlit("\\012");
    reveal_strlit("\\134");
    if s.len() > 0 {
        lemma_escaped_has_no_blanks(s.skip(1));
        let rest = escaped(s.skip(1));
        let first = escaped(s).len() - rest.len();
        assert forall|j: int| 0 <= j < escaped(s).len() implies !is_blank(
            #[trigger] escaped(s)[j],
        ) by {
            if j >= first {
                assert(escaped(s)[j] == rest[j - first]);
            }
        }
    }
}

proof fn lemma_first_word(field: Seq<char>, rest: Seq<char>)
    requires
        field.len() > 0,
        forall|j: int| 0 <= j < field.len() ==> !is_blank(#[trigger] field[j]),
    ensures
        words(field + seq![' '] + rest) == seq![field] + words(seq![' '] + rest),
{
    let s = field + seq![' '] + rest;
    assert(s[0] == field[0]);
    lemma_without_blanks_at(s, 0);
    assert(s.skip(0) =~= s);
    assert forall|j: int| 0 <= j < field.len() implies !is_blank(#[trigger] s[j]) by {
        assert(s[j] == field[j]);
    }
    lemma_word_at(s, field.len() as int);
    assert(s.take(field.len() as int) =~= field);
    assert(s.skip(field.len() as int) =~= seq![' '] + rest);
}

proof fn lemma_blank_first(rest: Seq<char>)
    ensures
        words(seq![' '] + rest) == words(rest),
{
    assert((seq![' '] + rest).skip(1) =~= rest);
    assert(without_blanks(seq![' '] + rest) == without_blanks(rest));
}

/// The fields of a table line that the kernel writes read back as they were,
/// whatever characters they hold.
pub proof fn law_table_fields_read_back(first: Seq<char>, second: Seq<char>, rest: Seq<char>)
    requires
        first.len() > 0,
        second.len() > 0,
    ensures
        ({
            let line = escaped(first) + seq![' '] + (escaped(second) + seq![' '] + rest);
            &&& words(line).len() >= 2
            &&& unescaped(words(line)[0]) == first
            &&& unescaped(words(line)[1]) == second
        }),
{
    lemma_escaped_has_no_blanks(first);
    lemma_escaped_has_no_blanks(second);
    law_escaped_text_reads_back(first);
    law_escaped_text_reads_back(second);
    let tail = escaped(second) + seq![' '] + rest;
    lemma_first_word(escaped(first), tail);
    lemma_blank_first(tail);
    lemma_first_word(escaped(second), rest);
}

/// The decimal digit for `d`.
pub open spec fn digit(d: nat) -> char {
    if d == 0 {
        '0'
    } else if d == 1 {
        '1'
    } else if d == 2 {
        '2'
    } else if d == 3 {
        '3'
    } else if d == 4 {
        '4'
    } else if d == 5 {
        '5'
    } else if d == 6 {
        '6'
    } else if d == 7 {
        '7'
    } else if d == 8 {
        '8'
    } else {
        '9'
    }
}

/// `n` written in decimal, without leading zeros.
pub open spec fn decimal(n: nat) -> Seq<char>
    decreases n,
{
    if n < 10 {
        seq![digit(n)]
    } else {
        decimal(n / 10).push(digit(n % 10))
    }
}

/// `n` written in decimal, with a minus sign where it is negative.
pub open spec fn signed_decimal(n: int) -> Seq<char> {
    if n < 0 {
        seq!['-'] + decimal((-n) as nat)
    } else {
        decimal(n as nat)
    }
}

/// Whether `s` is a run of decimal digits, at least one.
pub open spec fn is_digits(s: Seq<char>) -> bool {
    &&& s.len() > 0
    &&& forall|i: int| 0 <= i < s.len() ==> '0' <= #[trigger] s[i] <= '9'
}

/// The number that a run of decimal digits stands for.
pub open spec fn digits_value(s: Seq<char>) -> nat
    decreases s.len(),
{
    if s.len() == 0 {
        0
    } else {
        digits_value(s.drop_last()) * 10 + (s.last() as u32 - '0' as u32) as nat
    }
}

/// What a number's text leaves once an optional plus sign is taken off.
pub open spec fn unsigned_part(s: Seq<char>) -> Seq<char> {
    if s.len() > 0 && s[0] == '+' {
        s.skip(1)
    } else {
        s
    }
}

/// The number that `s` spells: an optional plus sign and decimal digits, for a
/// value of at most `max`.
pub open spec fn parsed_number(s: Seq<char>, max: nat) -> Option<nat> {
    let digits = unsigned_part(s);
    if is_digits(digits) && digits_value(digits) <= max {
        Some(digits_value(digits))
    } else {
        None
    }
}

/// The code points of a text.
pub open spec fn codes(s: Seq<char>) -> Seq<u32> {
    Seq::new(s.len(), |i: int| s[i] as u32)
}

/// Lexicographic order.
pub open spec fn lex_le(a: Seq<u32>, b: Seq<u32>) -> bool
    decreases a.len(),
{
    if a.len() == 0 {
        true
    } else if b.len() == 0 {
        false
    } else {
        a[0] < b[0] || (a[0] == b[0] && lex_le(a.skip(1), b.skip(1)))
    }
}

pub proof fn lemma_trim_start_len(s: Seq<char>)
    ensures
        trim_start(s).len() <= s.len(),
        trim_start(s).len() > 0 ==> !is_space(trim_start(s)[0]),
    decreases s.len(),
{
    if s.len() > 0 && is_space(s[0]) {
        lemma_trim_start_len(s.skip(1));
    }
}

pub proof fn lemma_word_len(s: Seq<char>)
    ensures
        word(s).len() <= s.len(),
        s.len() > 0 && !is_blank(s[0]) ==> word(s).len() > 0,
    decreases s.len(),
{
    if s.len() > 0 && !is_blank(s[0]) {
        lemma_word_len(s.skip(1));
    }
}

/// What `cut_once` gives back: the two halves around the first `c`, or nothing
/// where there is none.
pub proof fn lemma_cut_once(s: Seq<char>, c: char)
    ensures
        match cut_once(s, c) {
            None => !s.contains(c),
            Some((head, tail)) => {
                &&& !head.contains(c)
                &&& s == head + seq![c] + tail
            },
        },
    decreases s.len(),
{
    if s.len() > 0 && s[0] != c {
        lemma_cut_once(s.skip(1), c);
        assert(s == seq![s[0]] + s.skip(1));
        match cut_once(s.skip(1), c) {
            None => {
                assert forall|i: int| 0 <= i < s.len() implies s[i] != c by {
                    if i > 0 {
                        assert(s.skip(1)[i - 1] == s[i]);
                        assert(s.skip(1).contains(s[i]));
                    }
                }
            },
            Some((head, tail)) => {
                assert(s =~= (seq![s[0]] + head) + seq![c] + tail);
                assert forall|i: int| 0 <= i < head.len() + 1 implies (seq![s[0]] + head)[i] != c by {
                    if i > 0 {
                        assert((seq![s[0]] + head)[i] == head[i - 1]);
                        assert(head.contains(head[i - 1]));
                    }
                }
            },
        }
    } else if s.len() > 0 {
        assert(s =~= Seq::<char>::empty() + seq![c] + s.skip(1));
    }
}

/// Cutting at position `i` where `c` stands there and nowhere before.
pub proof fn lemma_cut_once_at(s: Seq<char>, c: char, i: int)
    requires
        0 <= i < s.len(),
        s[i] == c,
        forall|j: int| 0 <= j < i ==> s[j] != c,
    ensures
        cut_once(s, c) == Some((s.take(i), s.skip(i + 1))),
    decreases s.len(),
{
    if i > 0 {
        lemma_cut_once_at(s.skip(1), c, i - 1);
        assert(s.skip(1).skip(i) == s.skip(i + 1));
        assert(seq![s[0]] + s.skip(1).take(i - 1) == s.take(i));
    } else {
        assert(s.take(0) == Seq::<char>::empty());
    }
}

proof fn lemma_no_cut(s: Seq<char>, c: char)
    requires
        forall|j: int| 0 <= j < s.len() ==> s[j] != c,
    ensures
        cut_once(s, c) is None,
    decreases s.len(),
{
    if s.len() > 0 {
        lemma_no_cut(s.skip(1), c);
    }
}

proof fn lemma_trim_start_at(s: Seq<char>, i: int)
    requires
        0 <= i <= s.len(),
        forall|j: int| 0 <= j < i ==> is_space(#[trigger] s[j]),
        i < s.len() ==> !is_space(s[i]),
    ensures
        trim_start(s) == s.skip(i),
    decreases s.len(),
{
    if i > 0 {
        assert forall|j: int| 0 <= j < i - 1 implies is_space(#[trigger] s.skip(1)[j]) by {
            assert(s.skip(1)[j] == s[j + 1]);
        }
        lemma_trim_start_at(s.skip(1), i - 1);
        assert(s.skip(1).skip(i - 1) == s.skip(i));
    } else {
        assert(s.skip(0) == s);
    }
}

proof fn lemma_trim_end_at(s: Seq<char>, i: int)
    requires
        0 <= i <= s.len(),
        forall|j: int| i <= j < s.len() ==> is_space(#[trigger] s[j]),
        i > 0 ==> !is_space(s[i - 1]),
    ensures
        trim_end(s) == s.take(i),
    decreases s.len(),
{
    if i < s.len() {
        lemma_trim_end_at(s.drop_last(), i);
        assert(s.drop_last().take(i) == s.take(i));
    } else {
        assert(s.take(i) == s);
    }
}

proof fn lemma_word_at(s: Seq<char>, i: int)
    requires
        0 <= i <= s.len(),
        forall|j: int| 0 <= j < i ==> !is_blank(#[trigger] s[j]),
        i < s.len() ==> is_blank(s[i]),
    ensures
        word(s) == s.take(i),
    decreases s.len(),
{
    if i > 0 {
        assert forall|j: int| 0 <= j < i - 1 implies !is_blank(#[trigger] s.skip(1)[j]) by {
            assert(s.skip(1)[j] == s[j + 1]);
        }
        lemma_word_at(s.skip(1), i - 1);
        assert(seq![s[0]] + s.skip(1).take(i - 1) == s.take(i));
    } else {
        assert(s.take(0) == Seq::<char>::empty());
    }
}

proof fn lemma_without_blanks_len(s: Seq<char>)
    ensures
        without_blanks(s).len() <= s.len(),
        without_blanks(s).len() > 0 ==> !is_blank(without_blanks(s)[0]),
    decreases s.len(),
{
    if s.len() > 0 && is_blank(s[0]) {
        lemma_without_blanks_len(s.skip(1));
    }
}

proof fn lemma_without_blanks_at(s: Seq<char>, i: int)
    requires
        0 <= i <= s.len(),
        forall|j: int| 0 <= j < i ==> is_blank(#[trigger] s[j]),
        i < s.len() ==> !is_blank(s[i]),
    ensures
        without_blanks(s) == s.skip(i),
    decreases s.len(),
{
    if i > 0 {
        assert forall|j: int| 0 <= j < i - 1 implies is_blank(#[trigger] s.skip(1)[j]) by {
            assert(s.skip(1)[j] == s[j + 1]);
        }
        lemma_without_blanks_at(s.skip(1), i - 1);
        assert(s.skip(1).skip(i - 1) == s.skip(i));
    } else {
        assert(s.skip(0) == s);
    }
}

/// Trimmed text neither starts nor ends with white space.
pub proof fn lemma_trimmed_ends(s: Seq<char>)
    ensures
        trimmed(s).len() > 0 ==> !is_space(trimmed(s)[0]) && !is_space(trimmed(s).last()),
        trimmed(s).len() <= s.len(),
{
    lemma_trim_start_len(s);
    lemma_trim_end_prefix(trim_start(s));
}

proof fn lemma_trim_end_prefix(s: Seq<char>)
    ensures
        trim_end(s).len() <= s.len(),
        trim_end(s) == s.take(trim_end(s).len() as int),
        trim_end(s).len() > 0 ==> !is_space(trim_end(s).last()),
    decreases s.len(),
{
    if s.len() > 0 && is_space(s.last()) {
        lemma_trim_end_prefix(s.drop_last());
        assert(s.drop_last().take(trim_end(s).len() as int) == s.take(trim_end(s).len() as int));
    } else {
        assert(s.take(s.len() as int) == s);
    }
}

/// Trimming twice is trimming once.
pub proof fn lemma_trimmed_twice(s: Seq<char>)
    ensures
        trimmed(trimmed(s)) == trimmed(s),
{
    lemma_trimmed_ends(s);
    let t = trimmed(s);
    if t.len() > 0 {
        lemma_trim_start_at(t, 0);
        lemma_trim_end_at(t.skip(0), t.len() as int);
        assert(t.skip(0) == t);
        assert(t.take(t.len() as int) == t);
    }
}

proof fn lemma_digits_grow(s: Seq<char>, i: int)
    requires
        is_digits(s),
        0 <= i <= s.len(),
    ensures
        digits_value(s.take(i)) <= digits_value(s),
    decreases s.len() - i,
{
    if i < s.len() {
        assert(s.take(i + 1).drop_last() == s.take(i));
        lemma_digits_grow(s, i + 1);
    } else {
        assert(s.take(i) == s);
    }
}

proof fn lemma_decimal_digit(d: nat)
    requires
        d < 10,
    ensures
        '0' <= digit(d) <= '9',
        (digit(d) as u32 - '0' as u32) == d,
{
}

proof fn lemma_decimal_is_digits(n: nat)
    ensures
        is_digits(decimal(n)),
        digits_value(decimal(n)) == n,
    decreases n,
{
    reveal_with_fuel(digits_value, 2);
    if n < 10 {
        lemma_decimal_digit(n);
        assert(decimal(n).drop_last() == Seq::<char>::empty());
    } else {
        lemma_decimal_is_digits(n / 10);
        lemma_decimal_digit(n % 10);
        assert(decimal(n).drop_last() == decimal(n / 10));
    }
}

/// A number that was written in decimal is read back as it was.
pub proof fn law_decimal_reads_back(n: nat, max: nat)
    requires
        n <= max,
    ensures
        parsed_number(decimal(n), max) == Some(n),
{
    lemma_decimal_is_digits(n);
    let s = decimal(n);
    assert('0' <= s[0] <= '9');
    assert(unsigned_part(s) == s);
}

/// Whether `c` is white space.
pub fn is_whitespace(c: char) -> (yes: bool)
    ensures
        yes == is_space(c),
{
    ('\u{9}' <= c && c <= '\u{d}') || c == ' ' || c == '\u{85}' || c == '\u{a0}' || c == '\u{1680}'
        || ('\u{2000}' <= c && c <= '\u{200a}') || c == '\u{2028}' || c == '\u{2029}' || c
        == '\u{202f}' || c == '\u{205f}' || c == '\u{3000}'
}

/// The characters of `s`, in order.
pub fn chars_of(s: &str) -> (v: Vec<char>)
    ensures
        v@ == s@,
{
    let mut v: Vec<char> = Vec::new();
    for c in it: s.chars()
        invariant
            v@ == s@.take(it.index()),
            it.seq() == s@,
    {
        v.push(c);
    }
    v
}

/// Whether `s` begins with `prefix`.
pub fn starts_with(s: &str, prefix: &str) -> (yes: bool)
    ensures
        yes == prefix@.is_prefix_of(s@),
{
    let a = chars_of(s);
    let b = chars_of(prefix);
    if b.len() > a.len() {
        return false;
    }
    let mut i: usize = 0;
    while i < b.len()
        invariant
            a@ == s@,
            b@ == prefix@,
            i <= b.len() <= a.len(),
            forall|j: int| 0 <= j < i ==> a@[j] == b@[j],
        decreases b.len() - i,
    {
        if a[i] != b[i] {
            return false;
        }
        i += 1;
    }
    assert(prefix@ =~= s@.subrange(0, prefix@.len() as int));
    true
}

/// `s` without the white space around it.
pub fn trim(s: &str) -> (t: String)
    ensures
        t@ == trimmed(s@),
{
    let v = chars_of(s);
    let mut from: usize = 0;
    while from < v.len() && is_whitespace(v[from])
        invariant
            v@ == s@,
            from <= v.len(),
            forall|j: int| 0 <= j < from ==> is_space(#[trigger] v@[j]),
        decreases v.len() - from,
    {
        from += 1;
    }
    let mut to: usize = v.len();
    while to > from && is_whitespace(v[to - 1])
        invariant
            v@ == s@,
            from <= to <= v.len(),
            forall|j: int| to <= j < v.len() ==> is_space(#[trigger] v@[j]),
        decreases to,
    {
        to -= 1;
    }
    proof {
        lemma_trim_start_at(s@, from as int);
        let rest = s@.skip(from as int);
        assert forall|j: int| to - from <= j < rest.len() implies is_space(#[trigger] rest[j]) by {
            assert(rest[j] == v@[j + from]);
        }
        lemma_trim_end_at(rest, to - from);
        assert(rest.take(to - from) == s@.subrange(from as int, to as int));
    }
    s.substring_char(from, to).to_owned()
}

/// Cut `s` around the first `c` in it.
pub fn split_once(s: &str, c: char) -> (cut: Option<(String, String)>)
    ensures
        match cut {
            None => cut_once(s@, c) is None,
            Some((head, tail)) => cut_once(s@, c) == Some((head@, tail@)),
        },
{
    let v = chars_of(s);
    let mut i: usize = 0;
    while i < v.len()
        invariant
            v@ == s@,
            i <= v.len(),
            forall|j: int| 0 <= j < i ==> v@[j] != c,
        decreases v.len() - i,
    {
        if v[i] == c {
            proof {
                lemma_cut_once_at(s@, c, i as int);
            }
            let head = s.substring_char(0, i).to_owned();
            let tail = s.substring_char(i + 1, v.len()).to_owned();
            assert(head@ == s@.take(i as int));
            assert(tail@ == s@.skip(i + 1));
            return Some((head, tail));
        }
        i += 1;
    }
    proof {
        lemma_no_cut(s@, c);
    }
    None
}

/// The lines of `s`.
pub fn split_lines(s: &str) -> (found: Vec<String>)
    ensures
        texts(found@) == lines(s@),
{
    let v = chars_of(s);
    let mut found: Vec<String> = Vec::new();
    let mut start: usize = 0;
    let mut i: usize = 0;
    proof {
        assert(s@.skip(0) == s@);
        assert(texts(found@) + lines(s@) == lines(s@));
    }
    while i < v.len()
        invariant
            v@ == s@,
            start <= i <= v.len(),
            forall|j: int| start <= j < i ==> v@[j] != '\n',
            texts(found@) + lines(s@.skip(start as int)) == lines(s@),
        decreases v.len() - i,
    {
        if v[i] == '\n' {
            let ghost rest = s@.skip(start as int);
            proof {
                assert forall|j: int| 0 <= j < i - start implies rest[j] != '\n' by {
                    assert(rest[j] == v@[j + start]);
                }
                lemma_cut_once_at(rest, '\n', i - start);
                assert(rest.skip(i - start + 1) == s@.skip(i + 1));
            }
            let end: usize = if i > start && v[i - 1] == '\r' {
                i - 1
            } else {
                i
            };
            let line = s.substring_char(start, end).to_owned();
            let ghost before = found@;
            found.push(line);
            proof {
                let cut = rest.take(i - start);
                assert(cut.len() > 0 ==> cut.last() == v@[i - 1]);
                assert(line@ =~= without_return(cut));
                assert(texts(found@) =~= texts(before).push(line@));
                assert(lines(rest) == seq![line@] + lines(s@.skip(i + 1)));
                assert(texts(found@) + lines(s@.skip(i + 1)) =~= texts(before) + (seq![line@] + lines(
                    s@.skip(i + 1),
                )));
            }
            start = i + 1;
        }
        i += 1;
    }
    let ghost rest = s@.skip(start as int);
    if start < v.len() {
        let line = s.substring_char(start, v.len()).to_owned();
        let ghost before = found@;
        found.push(line);
        proof {
            assert forall|j: int| 0 <= j < rest.len() implies rest[j] != '\n' by {
                assert(rest[j] == v@[j + start]);
            }
            lemma_no_cut(rest, '\n');
            assert(line@ =~= rest);
            assert(texts(found@) =~= texts(before) + seq![line@]);
        }
    } else {
        assert(rest.len() == 0);
        assert(texts(found@) + Seq::<Seq<char>>::empty() =~= texts(found@));
    }
    found
}

/// The runs of `s` between blanks.
pub fn split_words(s: &str) -> (found: Vec<String>)
    ensures
        texts(found@) == words(s@),
{
    let v = chars_of(s);
    let mut found: Vec<String> = Vec::new();
    let mut i: usize = 0;
    proof {
        assert(s@.skip(0) == s@);
        assert(texts(found@) + words(s@) == words(s@));
    }
    while i < v.len()
        invariant
            v@ == s@,
            i <= v.len(),
            texts(found@) + words(s@.skip(i as int)) == words(s@),
        decreases v.len() - i,
    {
        let ghost rest = s@.skip(i as int);
        let mut from: usize = i;
        while from < v.len() && (v[from] == ' ' || v[from] == '\t')
            invariant
                v@ == s@,
                i <= from <= v.len(),
                forall|j: int| i <= j < from ==> is_blank(#[trigger] v@[j]),
            decreases v.len() - from,
        {
            from += 1;
        }
        proof {
            assert forall|j: int| 0 <= j < from - i implies is_blank(#[trigger] rest[j]) by {
                assert(rest[j] == v@[j + i]);
            }
            lemma_without_blanks_at(rest, from - i);
            assert(rest.skip(from - i) == s@.skip(from as int));
        }
        if from == v.len() {
            assert(words(rest) =~= Seq::<Seq<char>>::empty());
            assert(texts(found@) + words(rest) =~= texts(found@));
            return found;
        }
        let mut to: usize = from;
        while to < v.len() && v[to] != ' ' && v[to] != '\t'
            invariant
                v@ == s@,
                from <= to <= v.len(),
                forall|j: int| from <= j < to ==> !is_blank(#[trigger] v@[j]),
            decreases v.len() - to,
        {
            to += 1;
        }
        let ghost t = s@.skip(from as int);
        let one = s.substring_char(from, to).to_owned();
        let ghost before = found@;
        proof {
            assert forall|j: int| 0 <= j < to - from implies !is_blank(#[trigger] t[j]) by {
                assert(t[j] == v@[j + from]);
            }
            lemma_word_at(t, to - from);
            assert(one@ =~= word(t));
            assert(t.skip(to - from) == s@.skip(to as int));
        }
        found.push(one);
        proof {
            assert(texts(found@) =~= texts(before).push(one@));
            assert(words(rest) == seq![one@] + words(s@.skip(to as int)));
            assert(texts(found@) + words(s@.skip(to as int)) =~= texts(before) + (seq![one@] + words(
                s@.skip(to as int),
            )));
        }
        i = to;
    }
    proof {
        let rest = s@.skip(i as int);
        assert(rest.len() == 0);
        assert(words(rest) =~= Seq::<Seq<char>>::empty());
        assert(texts(found@) + words(rest) =~= texts(found@));
    }
    found
}

/// Join `parts[from..]` with `separator` between each two.
pub fn glue(parts: &Vec<String>, from: usize, separator: &str) -> (text: String)
    requires
        from <= parts.len(),
    ensures
        text@ == glued(texts(parts@).skip(from as int), separator@),
{
    let mut text = String::new();
    let mut i: usize = from;
    let ghost all = texts(parts@).skip(from as int);
    while i < parts.len()
        invariant
            from <= i <= parts.len(),
            all == texts(parts@).skip(from as int),
            text@ == glued(all.take(i - from), separator@),
        decreases parts.len() - i,
    {
        proof {
            assert(all.take(i - from + 1).drop_last() == all.take(i - from));
            assert(all.take(i - from + 1).last() == parts@[i as int]@);
        }
        if i > from {
            text.append(separator);
        }
        text.append(parts[i].as_str());
        proof {
            if i == from {
                assert(text@ =~= parts@[i as int]@);
            }
        }
        i += 1;
    }
    assert(all.take(i - from) == all);
    text
}

/// The decimal digit for `d`.
fn digit_char(d: u64) -> (c: char)
    requires
        d < 10,
    ensures
        c == digit(d as nat),
{
    match d {
        0 => '0',
        1 => '1',
        2 => '2',
        3 => '3',
        4 => '4',
        5 => '5',
        6 => '6',
        7 => '7',
        8 => '8',
        _ => '9',
    }
}

/// Append one character, as `String::push` does: the text grows by `c` at its
/// end and is otherwise unchanged.
pub assume_specification[ String::push ](s: &mut String, c: char)
    ensures
        final(s)@ == old(s)@.push(c),
;

/// The character that three octal digits stand for.
fn escape_char(a: char, b: char, c: char) -> (character: char)
    requires
        '0' <= a && a <= '3',
        is_octal(b),
        is_octal(c),
    ensures
        character == escape_value(seq!['\\', a, b, c]),
{
    let high: u32 = a as u32 - '0' as u32;
    let middle: u32 = b as u32 - '0' as u32;
    let low: u32 = c as u32 - '0' as u32;
    let code: u8 = (high * 64 + middle * 8 + low) as u8;
    code as char
}

/// `s` with each backslash and three octal digits turned into the character that
/// they stand for.
pub fn unescape(s: &str) -> (text: String)
    ensures
        text@ == unescaped(s@),
{
    let chars = chars_of(s);
    let mut text = String::new();
    let mut i: usize = 0;
    assert(text@ + unescaped(s@.skip(0)) =~= unescaped(s@)) by {
        assert(s@.skip(0) =~= s@);
    }
    while i < chars.len()
        invariant
            chars@ == s@,
            i <= chars.len(),
            text@ + unescaped(s@.skip(i as int)) == unescaped(s@),
        decreases chars.len() - i,
    {
        let ghost rest = s@.skip(i as int);
        let ghost before = text@;
        let left: usize = chars.len() - i;
        if left >= 4 && chars[i] == '\\' && '0' <= chars[i + 1] && chars[i + 1] <= '3' && '0'
            <= chars[i + 2] && chars[i + 2] <= '7' && '0' <= chars[i + 3] && chars[i + 3] <= '7' {
            text.push(escape_char(chars[i + 1], chars[i + 2], chars[i + 3]));
            assert(is_escape(rest));
            assert(rest.skip(4) =~= s@.skip(i + 4));
            assert(before + (seq![escape_value(rest)] + unescaped(rest.skip(4))) =~= text@
                + unescaped(rest.skip(4)));
            i += 4;
        } else {
            text.push(chars[i]);
            assert(!is_escape(rest));
            assert(rest.skip(1) =~= s@.skip(i + 1));
            assert(before + (seq![rest[0]] + unescaped(rest.skip(1))) =~= text@ + unescaped(
                rest.skip(1),
            ));
            i += 1;
        }
    }
    assert(text@ + unescaped(s@.skip(i as int)) =~= text@);
    text
}

/// `n` in decimal.
pub fn decimal_text(n: u64) -> (text: String)
    ensures
        text@ == decimal(n as nat),
    decreases n,
{
    if n < 10 {
        let mut text = String::new();
        text.push(digit_char(n));
        assert(text@ =~= decimal(n as nat));
        text
    } else {
        let mut text = decimal_text(n / 10);
        text.push(digit_char(n % 10));
        text
    }
}

/// `n` in decimal, with its sign where it is negative.
pub fn signed_decimal_text(n: i32) -> (text: String)
    ensures
        text@ == signed_decimal(n as int),
{
    if n < 0 {
        let magnitude: i64 = -(n as i64);
        let mut text = String::new();
        text.push('-');
        let digits = decimal_text(magnitude as u64);
        text.append(digits.as_str());
        assert(text@ =~= signed_decimal(n as int));
        text
    } else {
        decimal_text(n as u64)
    }
}

/// Read a number of at most `max`.
pub fn parse_number(s: &str, max: u64) -> (n: Option<u64>)
    ensures
        match n {
            Some(value) => parsed_number(s@, max as nat) == Some(value as nat),
            None => parsed_number(s@, max as nat) is None,
        },
{
    let v = chars_of(s);
    let first: usize = if v.len() > 0 && v[0] == '+' {
        1
    } else {
        0
    };
    let ghost digits = unsigned_part(s@);
    assert(digits =~= v@.skip(first as int));
    if v.len() == first {
        return None;
    }
    let mut total: u64 = 0;
    let mut i: usize = first;
    while i < v.len()
        invariant
            v@ == s@,
            first <= 1,
            first < v.len(),
            first <= i <= v.len(),
            digits == unsigned_part(s@),
            digits == v@.skip(first as int),
            forall|j: int| 0 <= j < i - first ==> '0' <= #[trigger] digits[j] <= '9',
            total <= max,
            total == digits_value(digits.take(i - first)),
        decreases v.len() - i,
    {
        let c = v[i];
        assert(c == digits[i - first]);
        if c < '0' || c > '9' {
            assert(!is_digits(digits));
            return None;
        }
        let d: u32 = c as u32 - 48;
        let wide: u128 = (total as u128) * 10 + (d as u128);
        proof {
            assert(digits.take(i - first + 1).drop_last() == digits.take(i - first));
            assert(wide == digits_value(digits.take(i - first + 1)));
        }
        if wide > max as u128 {
            proof {
                if is_digits(digits) {
                    lemma_digits_grow(digits, i - first + 1);
                }
            }
            return None;
        }
        total = wide as u64;
        i += 1;
    }
    assert(digits.take(i - first) == digits);
    Some(total)
}

/// The code points of `s`.
pub fn codes_of(s: &str) -> (v: Vec<u32>)
    ensures
        v@ == codes(s@),
{
    let mut v: Vec<u32> = Vec::new();
    for c in it: s.chars()
        invariant
            v@ == codes(s@).take(it.index()),
            it.seq() == s@,
    {
        v.push(c as u32);
    }
    v
}

/// Whether `a` comes no later than `b` in lexicographic order.
pub fn in_order(a: &Vec<u32>, b: &Vec<u32>) -> (yes: bool)
    ensures
        yes == lex_le(a@, b@),
{
    let mut i: usize = 0;
    assert(a@.skip(0) == a@);
    assert(b@.skip(0) == b@);
    while i < a.len() && i < b.len()
        invariant
            i <= a.len(),
            i <= b.len(),
            lex_le(a@, b@) == lex_le(a@.skip(i as int), b@.skip(i as int)),
        decreases a.len() - i,
    {
        assert(a@.skip(i as int).skip(1) == a@.skip(i + 1));
        assert(b@.skip(i as int).skip(1) == b@.skip(i + 1));
        if a[i] < b[i] {
            return true;
        }
        if a[i] > b[i] {
            return false;
        }
        i += 1;
    }
    i == a.len()
}

pub proof fn lemma_lex_total(a: Seq<u32>, b: Seq<u32>)
    ensures
        lex_le(a, b) || lex_le(b, a),
    decreases a.len(),
{
    if a.len() > 0 && b.len() > 0 {
        lemma_lex_total(a.skip(1), b.skip(1));
    }
}

pub proof fn lemma_lex_transitive(a: Seq<u32>, b: Seq<u32>, c: Seq<u32>)
    requires
        lex_le(a, b),
        lex_le(b, c),
    ensures
        lex_le(a, c),
    decreases a.len(),
{
    if a.len() > 0 && b.len() > 0 && c.len() > 0 && a[0] == b[0] && b[0] == c[0] {
        lemma_lex_transitive(a.skip(1), b.skip(1), c.skip(1));
    }
}

pub proof fn lemma_lex_antisymmetric(a: Seq<u32>, b: Seq<u32>)
    requires
        lex_le(a, b),
        lex_le(b, a),
    ensures
        a == b,
    decreases a.len(),
{
    if a.len() > 0 {
        lemma_lex_antisymmetric(a.skip(1), b.skip(1));
        assert(a == seq![a[0]] + a.skip(1));
        assert(b == seq![b[0]] + b.skip(1));
    } else {
        assert(a == b);
    }
}

/// White space is what Unicode says it is.
pub proof fn law_white_space_is_what_unicode_says(c: char)
    ensures
        is_space(c) <==> {
            let code = c as u32;
            ||| 9 <= code <= 13
            ||| code == 32
            ||| code == 133
            ||| code == 160
            ||| code == 5760
            ||| 8192 <= code <= 8202
            ||| code == 8232
            ||| code == 8233
            ||| code == 8239
            ||| code == 8287
            ||| code == 12288
        },
{
}

/// Trimming takes off the white space before and after a text, all of it, and
/// nothing else.
pub proof fn law_trimmed_is_what_stands_between_white_space(
    before: Seq<char>,
    middle: Seq<char>,
    after: Seq<char>,
)
    requires
        forall|i: int| 0 <= i < before.len() ==> is_space(#[trigger] before[i]),
        forall|i: int| 0 <= i < after.len() ==> is_space(#[trigger] after[i]),
        middle.len() > 0 ==> !is_space(middle[0]) && !is_space(middle.last()),
    ensures
        trimmed(before + middle + after) == middle,
{
    let s = before + middle + after;
    if middle.len() > 0 {
        assert forall|j: int| 0 <= j < before.len() implies is_space(#[trigger] s[j]) by {
            assert(s[j] == before[j]);
        }
        assert(s[before.len() as int] == middle[0]);
        lemma_trim_start_at(s, before.len() as int);
        let t = s.skip(before.len() as int);
        assert(t =~= middle + after);
        assert forall|j: int| middle.len() <= j < t.len() implies is_space(#[trigger] t[j]) by {
            assert(t[j] == after[j - middle.len()]);
        }
        lemma_trim_end_at(t, middle.len() as int);
        assert(t.take(middle.len() as int) =~= middle);
    } else {
        assert forall|j: int| 0 <= j < s.len() implies is_space(#[trigger] s[j]) by {
            if j < before.len() {
                assert(s[j] == before[j]);
            } else {
                assert(s[j] == after[j - before.len()]);
            }
        }
        lemma_trim_start_at(s, s.len() as int);
        assert(s.skip(s.len() as int) =~= middle);
    }
}

/// Every text is its trimmed part with white space around it.
pub proof fn law_trimming_drops_only_white_space(s: Seq<char>)
    ensures
        exists|before: Seq<char>, after: Seq<char>|
            s == #[trigger] (before + trimmed(s) + after) && (forall|i: int|
                0 <= i < before.len() ==> is_space(#[trigger] before[i])) && (forall|i: int|
                0 <= i < after.len() ==> is_space(#[trigger] after[i])),
        trimmed(s).len() > 0 ==> !is_space(trimmed(s)[0]) && !is_space(trimmed(s).last()),
{
    lemma_trimmed_ends(s);
    lemma_trim_start_parts(s);
    lemma_trim_end_parts(trim_start(s));
    let before = s.take(s.len() - trim_start(s).len());
    let after = trim_start(s).skip(trimmed(s).len() as int);
    assert(s =~= before + trim_start(s));
    assert(trim_start(s) =~= trimmed(s) + after);
    assert(s =~= before + trimmed(s) + after);
}

proof fn lemma_trim_start_parts(s: Seq<char>)
    ensures
        trim_start(s).len() <= s.len(),
        trim_start(s) == s.skip(s.len() - trim_start(s).len()),
        forall|i: int| 0 <= i < s.len() - trim_start(s).len() ==> is_space(#[trigger] s[i]),
    decreases s.len(),
{
    if s.len() > 0 && is_space(s[0]) {
        let t = s.skip(1);
        lemma_trim_start_parts(t);
        assert(t.skip(t.len() - trim_start(t).len()) =~= s.skip(s.len() - trim_start(t).len()));
        assert forall|i: int| 0 <= i < s.len() - trim_start(s).len() implies is_space(
            #[trigger] s[i],
        ) by {
            if i > 0 {
                assert(t[i - 1] == s[i]);
            }
        }
    } else {
        assert(s.skip(0) =~= s);
    }
}

proof fn lemma_trim_end_parts(s: Seq<char>)
    ensures
        trim_end(s).len() <= s.len(),
        trim_end(s) == s.take(trim_end(s).len() as int),
        forall|i: int| trim_end(s).len() <= i < s.len() ==> is_space(#[trigger] s[i]),
    decreases s.len(),
{
    if s.len() > 0 && is_space(s.last()) {
        let t = s.drop_last();
        lemma_trim_end_parts(t);
        assert(t.take(trim_end(t).len() as int) =~= s.take(trim_end(t).len() as int));
        assert forall|i: int| trim_end(s).len() <= i < s.len() implies is_space(#[trigger] s[i]) by {
            if i < t.len() {
                assert(t[i] == s[i]);
            }
        }
    } else {
        assert(s.take(s.len() as int) =~= s);
    }
}

/// A line feed ends a line, together with a carriage return before it; what
/// follows the last one is a line of its own, unless it is empty.
pub proof fn law_a_line_ends_at_its_line_feed(line: Seq<char>, rest: Seq<char>)
    requires
        !line.contains('\n'),
    ensures
        lines(line + seq!['\r', '\n'] + rest) == seq![line] + lines(rest),
        line.len() == 0 || line.last() != '\r' ==> lines(line + seq!['\n'] + rest) == seq![line]
            + lines(rest),
        line.len() > 0 ==> lines(line) == seq![line],
        lines(Seq::empty()) == Seq::<Seq<char>>::empty(),
{
    let plain = line + seq!['\n'] + rest;
    assert forall|j: int| 0 <= j < line.len() implies plain[j] != '\n' by {
        assert(plain[j] == line[j]);
        assert(line.contains(line[j]));
    }
    lemma_cut_once_at(plain, '\n', line.len() as int);
    assert(plain.take(line.len() as int) =~= line);
    assert(plain.skip(line.len() as int + 1) =~= rest);
    let returned = line + seq!['\r', '\n'] + rest;
    assert forall|j: int| 0 <= j < line.len() + 1 implies returned[j] != '\n' by {
        if j < line.len() {
            assert(returned[j] == line[j]);
            assert(line.contains(line[j]));
        }
    }
    lemma_cut_once_at(returned, '\n', line.len() as int + 1);
    assert(returned.take(line.len() as int + 1) =~= line.push('\r'));
    assert(returned.skip(line.len() as int + 2) =~= rest);
    assert(without_return(line.push('\r')) =~= line);
    assert forall|j: int| 0 <= j < line.len() implies line[j] != '\n' by {
        assert(line.contains(line[j]));
    }
    lemma_no_cut(line, '\n');
}

/// `parts` one after the other, each with a line feed behind it.
pub open spec fn ended(parts: Seq<Seq<char>>) -> Seq<char>
    decreases parts.len(),
{
    if parts.len() == 0 {
        Seq::empty()
    } else {
        parts[0] + seq!['\n'] + ended(parts.skip(1))
    }
}

/// Texts without line feeds that are written one to a line are read back one by
/// one, in order.
pub proof fn law_lines_read_back(parts: Seq<Seq<char>>)
    requires
        forall|i: int|
            0 <= i < parts.len() ==> !(#[trigger] parts[i]).contains('\n') && (parts[i].len() == 0
                || parts[i].last() != '\r'),
    ensures
        lines(ended(parts)) == parts,
    decreases parts.len(),
{
    if parts.len() > 0 {
        let rest = parts.skip(1);
        assert forall|i: int| 0 <= i < rest.len() implies !(#[trigger] rest[i]).contains('\n') && (
        rest[i].len() == 0 || rest[i].last() != '\r') by {
            assert(rest[i] == parts[i + 1]);
        }
        law_lines_read_back(rest);
        law_a_line_ends_at_its_line_feed(parts[0], ended(rest));
        assert(seq![parts[0]] + rest =~= parts);
    } else {
        law_a_line_ends_at_its_line_feed(Seq::empty(), Seq::empty());
        assert(parts =~= Seq::empty());
    }
}

/// Blanks part words: a word ends at the blank that follows it, blanks before a
/// word are no part of it, and the last word needs none behind it.
pub proof fn law_blanks_part_words(w: Seq<char>, rest: Seq<char>)
    requires
        w.len() > 0,
        !w.contains(' '),
        !w.contains('\t'),
    ensures
        words(w + seq![' '] + rest) == seq![w] + words(rest),
        words(w + seq!['\t'] + rest) == seq![w] + words(rest),
        words(seq![' '] + rest) == words(rest),
        words(seq!['\t'] + rest) == words(rest),
        words(w) == seq![w],
        words(Seq::empty()) == Seq::<Seq<char>>::empty(),
{
    assert forall|j: int| 0 <= j < w.len() implies !is_blank(#[trigger] w[j]) by {
        assert(w.contains(w[j]));
    }
    lemma_word_then_blank(w, ' ', rest);
    lemma_word_then_blank(w, '\t', rest);
    assert((seq![' '] + rest).skip(1) =~= rest);
    assert(without_blanks(seq![' '] + rest) == without_blanks(rest));
    assert((seq!['\t'] + rest).skip(1) =~= rest);
    assert(without_blanks(seq!['\t'] + rest) == without_blanks(rest));
    lemma_without_blanks_at(w, 0);
    assert(w.skip(0) =~= w);
    lemma_word_at(w, w.len() as int);
    assert(w.take(w.len() as int) =~= w);
    assert(w.skip(w.len() as int) =~= Seq::empty());
    assert(words(Seq::empty()) =~= Seq::<Seq<char>>::empty());
    assert(words(w) =~= seq![w]);
}

proof fn lemma_word_then_blank(w: Seq<char>, blank: char, rest: Seq<char>)
    requires
        w.len() > 0,
        is_blank(blank),
        forall|j: int| 0 <= j < w.len() ==> !is_blank(#[trigger] w[j]),
    ensures
        words(w + seq![blank] + rest) == seq![w] + words(rest),
{
    let s = w + seq![blank] + rest;
    assert(s[0] == w[0]);
    lemma_without_blanks_at(s, 0);
    assert(s.skip(0) =~= s);
    assert forall|j: int| 0 <= j < w.len() implies !is_blank(#[trigger] s[j]) by {
        assert(s[j] == w[j]);
    }
    lemma_word_at(s, w.len() as int);
    assert(s.take(w.len() as int) =~= w);
    let tail = s.skip(w.len() as int);
    assert(tail =~= seq![blank] + rest);
    assert(tail.skip(1) =~= rest);
    assert(without_blanks(tail) == without_blanks(rest));
    assert(words(tail) == words(rest));
}

/// Gluing two lists of texts gives the two glued texts with the separator
/// between them, and one text alone is left as it is.
pub proof fn law_glued_lists_are_glued(
    a: Seq<Seq<char>>,
    b: Seq<Seq<char>>,
    one: Seq<char>,
    separator: Seq<char>,
)
    requires
        a.len() > 0,
        b.len() > 0,
    ensures
        glued(seq![one], separator) == one,
        glued(a + b, separator) == glued(a, separator) + separator + glued(b, separator),
        glued(Seq::empty(), separator) == Seq::<char>::empty(),
    decreases b.len(),
{
    assert((a + b).last() == b.last());
    if b.len() == 1 {
        assert((a + b).drop_last() =~= a);
    } else {
        let shorter = b.drop_last();
        law_glued_lists_are_glued(a, shorter, one, separator);
        assert((a + b).drop_last() =~= a + shorter);
        assert(glued(a + b, separator) =~= glued(a, separator) + separator + (glued(
            shorter,
            separator,
        ) + separator + b.last()));
    }
}

/// The kernel escapes exactly the characters that would part a table, each as
/// its number in octal, and leaves every other as it is.
pub proof fn law_the_kernel_escapes_what_parts_a_table(c: char, rest: Seq<char>)
    ensures
        escaped(seq![c] + rest) == escaped(seq![c]) + escaped(rest),
        escaped(seq![' ']) == seq!['\\', '0', '4', '0'],
        escaped(seq!['\t']) == seq!['\\', '0', '1', '1'],
        escaped(seq!['\n']) == seq!['\\', '0', '1', '2'],
        escaped(seq!['\\']) == seq!['\\', '1', '3', '4'],
        c != ' ' && c != '\t' && c != '\n' && c != '\\' ==> escaped(seq![c]) == seq![c],
        escaped(Seq::empty()) == Seq::<char>::empty(),
{
    reveal_strlit("\\040");
    reveal_strlit("\\011");
    reveal_strlit("\\012");
    reveal_strlit("\\134");
    reveal_with_fuel(escaped, 2);
    assert((seq![c] + rest).skip(1) =~= rest);
    assert(seq![c].skip(1) =~= Seq::<char>::empty());
    assert(seq![' '].skip(1) =~= Seq::<char>::empty());
    assert(seq!['\t'].skip(1) =~= Seq::<char>::empty());
    assert(seq!['\n'].skip(1) =~= Seq::<char>::empty());
    assert(seq!['\\'].skip(1) =~= Seq::<char>::empty());
    assert(escaped(seq![' ']) =~= seq!['\\', '0', '4', '0']);
    assert(escaped(seq!['\t']) =~= seq!['\\', '0', '1', '1']);
    assert(escaped(seq!['\n']) =~= seq!['\\', '0', '1', '2']);
    assert(escaped(seq!['\\']) =~= seq!['\\', '1', '3', '4']);
    assert(escaped(seq![c]) + escaped(rest) =~= escaped(seq![c] + rest));
}

/// A backslash and three octal digits that make up a byte stand for the
/// character with that number, and any other character for itself.
pub proof fn law_an_escape_is_a_number_in_octal(x: char, y: char, z: char, rest: Seq<char>)
    ensures
        '0' <= x <= '3' && '0' <= y <= '7' && '0' <= z <= '7' ==> {
            let read = unescaped(seq!['\\', x, y, z] + rest);
            &&& read.len() == 1 + unescaped(rest).len()
            &&& read[0] as u32 == (x as u32 - 48) * 64 + (y as u32 - 48) * 8 + (z as u32 - 48)
            &&& read.skip(1) == unescaped(rest)
        },
        x != '\\' ==> unescaped(seq![x] + rest) == seq![x] + unescaped(rest),
        !('0' <= x <= '3' && '0' <= y <= '7' && '0' <= z <= '7') ==> unescaped(
            seq!['\\', x, y, z] + rest,
        ) == seq!['\\'] + unescaped(seq![x, y, z] + rest),
        unescaped(Seq::empty()) == Seq::<char>::empty(),
{
    let s = seq!['\\', x, y, z] + rest;
    assert(s.skip(4) =~= rest);
    assert(s.skip(1) =~= seq![x, y, z] + rest);
    assert((seq![x] + rest).skip(1) =~= rest);
    if is_escape(s) {
        let value = ((x as u32 - '0' as u32) * 64 + (y as u32 - '0' as u32) * 8 + (z as u32
            - '0' as u32));
        assert(0 <= value < 256);
        assert(escape_value(s) as u32 == value);
        assert(unescaped(s).skip(1) =~= unescaped(rest));
    }
}

/// A number is written with decimal digits alone, the units last, and without
/// leading zeros.
pub proof fn law_decimal_is_written_in_digits(n: nat)
    ensures
        decimal(n).len() > 0,
        forall|i: int| 0 <= i < decimal(n).len() ==> '0' <= #[trigger] decimal(n)[i] <= '9',
        forall|i: int|
            0 <= i < decimal(n).len() ==> !is_space(#[trigger] decimal(n)[i]) && decimal(n)[i]
                != ':',
        decimal(n).last() as u32 == 48 + n % 10,
        n < 10 ==> decimal(n).len() == 1,
        n >= 10 ==> decimal(n).drop_last() == decimal(n / 10),
        n > 0 ==> decimal(n)[0] != '0',
    decreases n,
{
    lemma_decimal_is_digits(n);
    if n >= 10 {
        law_decimal_is_written_in_digits(n / 10);
        assert(decimal(n).drop_last() =~= decimal(n / 10));
        assert(decimal(n)[0] == decimal(n / 10)[0]);
    }
}

/// Numbers that differ are written differently.
pub proof fn law_decimal_tells_numbers_apart(n: nat, m: nat)
    ensures
        decimal(n) == decimal(m) ==> n == m,
{
    lemma_decimal_is_digits(n);
    lemma_decimal_is_digits(m);
}

/// A negative number is written with a minus sign before its size.
pub proof fn law_signed_decimal_has_a_minus_sign(n: int)
    ensures
        n >= 0 ==> signed_decimal(n) == decimal(n as nat),
        n < 0 ==> signed_decimal(n) == seq!['-'] + decimal((-n) as nat),
{
}

/// `count` zeros.
pub open spec fn zeros(count: nat) -> Seq<char> {
    Seq::new(count, |i: int| '0')
}

/// What reads as a number is that number written in decimal, with nothing before
/// it but zeros and one plus sign.
pub proof fn law_a_number_is_read_from_its_digits(s: Seq<char>, max: nat)
    ensures
        parsed_number(s, max) matches Some(n) ==> n <= max && exists|count: nat| {
            ||| s == #[trigger] zeros(count) + decimal(n)
            ||| s == seq!['+'] + zeros(count) + decimal(n)
        },
{
    if parsed_number(s, max) is Some {
        let n = parsed_number(s, max)->Some_0;
        let digits = unsigned_part(s);
        lemma_digits_are_zeros_and_decimal(digits);
        let count = choose|count: nat| digits == #[trigger] zeros(count) + decimal(n);
        if s.len() > 0 && s[0] == '+' {
            assert(s =~= seq!['+'] + digits);
            assert(seq!['+'] + digits =~= seq!['+'] + zeros(count) + decimal(n));
        }
        assert(digits == zeros(count) + decimal(n));
    }
}

proof fn lemma_digits_are_zeros_and_decimal(s: Seq<char>)
    requires
        is_digits(s),
    ensures
        exists|count: nat| s == #[trigger] zeros(count) + decimal(digits_value(s)),
    decreases s.len(),
{
    let d = (s.last() as u32 - '0' as u32) as nat;
    let head = s.drop_last();
    lemma_digit_of(s.last());
    if head.len() == 0 {
        reveal_with_fuel(digits_value, 2);
        assert(s =~= zeros(0) + decimal(d));
        assert(digits_value(s) == d);
    } else {
        assert forall|i: int| 0 <= i < head.len() implies '0' <= #[trigger] head[i] <= '9' by {
            assert(head[i] == s[i]);
        }
        lemma_digits_are_zeros_and_decimal(head);
        let m = digits_value(head);
        let count = choose|count: nat| head == #[trigger] zeros(count) + decimal(m);
        if m == 0 {
            assert(decimal(0) =~= seq!['0']);
            assert(digits_value(s) == d);
            assert(s =~= head.push(s.last()));
            assert(head =~= zeros(count + 1));
            assert(decimal(d) =~= seq![s.last()]);
            assert(s =~= zeros(count + 1) + decimal(d));
        } else {
            let n = digits_value(s);
            assert(n == m * 10 + d);
            assert(n / 10 == m && n % 10 == d);
            assert(decimal(n) == decimal(m).push(digit(d)));
            assert(s =~= head.push(s.last()));
            assert(s =~= zeros(count) + decimal(n));
        }
    }
}

proof fn lemma_digit_of(c: char)
    requires
        '0' <= c <= '9',
    ensures
        digit((c as u32 - '0' as u32) as nat) == c,
{
}

/// Zeros and a plus sign before a number do not change what is read.
pub proof fn law_leading_zeros_and_a_plus_sign_are_read_over(count: nat, n: nat, max: nat)
    requires
        n <= max,
    ensures
        parsed_number(zeros(count) + decimal(n), max) == Some(n),
        parsed_number(seq!['+'] + zeros(count) + decimal(n), max) == Some(n),
{
    let digits = zeros(count) + decimal(n);
    lemma_decimal_is_digits(n);
    lemma_zeros_add_nothing(count, decimal(n));
    assert forall|i: int| 0 <= i < digits.len() implies '0' <= #[trigger] digits[i] <= '9' by {
        if i >= count {
            assert(digits[i] == decimal(n)[i - count]);
        }
    }
    assert('0' <= digits[0] <= '9');
    let signed = seq!['+'] + zeros(count) + decimal(n);
    assert(signed.skip(1) =~= digits);
}

proof fn lemma_zeros_add_nothing(count: nat, s: Seq<char>)
    ensures
        digits_value(zeros(count) + s) == digits_value(s),
    decreases count + s.len(),
{
    let whole = zeros(count) + s;
    if s.len() > 0 {
        lemma_zeros_add_nothing(count, s.drop_last());
        assert(whole.drop_last() =~= zeros(count) + s.drop_last());
    } else if count > 0 {
        lemma_zeros_add_nothing((count - 1) as nat, s);
        assert(whole.drop_last() =~= zeros((count - 1) as nat) + s);
        assert(whole.last() == '0');
    } else {
        assert(whole =~= s);
    }
}

/// Two texts are in order where one begins the other or, at the first place at
/// which they differ, has the smaller character.
pub proof fn law_order_is_that_of_the_first_difference(a: Seq<u32>, b: Seq<u32>, d: int)
    requires
        0 <= d <= a.len(),
        d <= b.len(),
        forall|i: int| 0 <= i < d ==> #[trigger] a[i] == b[i],
    ensures
        d == a.len() ==> lex_le(a, b),
        d < a.len() && d == b.len() ==> !lex_le(a, b),
        d < a.len() && d < b.len() && a[d] < b[d] ==> lex_le(a, b),
        d < a.len() && d < b.len() && a[d] > b[d] ==> !lex_le(a, b),
    decreases d,
{
    if d > 0 {
        assert(a[0] == b[0]);
        assert forall|i: int| 0 <= i < d - 1 implies #[trigger] a.skip(1)[i] == b.skip(1)[i] by {
            assert(a[i + 1] == b[i + 1]);
        }
        law_order_is_that_of_the_first_difference(a.skip(1), b.skip(1), d - 1);
    }
}

/// What the kernel escaped stays on one line.
pub proof fn lemma_escaped_has_no_line_feed(s: Seq<char>)
    ensures
        !escaped(s).contains('\n'),
    decreases s.len(),
{
    reveal_strlit("\\040");
    reveal_strlit("\\011");
    reveal_strlit("\\012");
    reveal_strlit("\\134");
    if s.len() > 0 {
        let rest = escaped(s.skip(1));
        lemma_escaped_has_no_line_feed(s.skip(1));
        let first = escaped(s).len() - rest.len();
        assert forall|j: int| 0 <= j < escaped(s).len() implies escaped(s)[j] != '\n' by {
            if j >= first {
                assert(escaped(s)[j] == rest[j - first]);
                assert(rest.contains(rest[j - first]));
            }
        }
    }
}

/// Whether `part` stands somewhere in `whole`, character for character.
pub open spec fn holds_text(whole: Seq<char>, part: Seq<char>) -> bool {
    exists|before: Seq<char>, after: Seq<char>| whole == #[trigger] (before + part + after)
}

/// What a part of a text holds, the text holds too.
pub proof fn lemma_holds_within(whole: Seq<char>, middle: Seq<char>, part: Seq<char>)
    requires
        holds_text(whole, middle),
        holds_text(middle, part),
    ensures
        holds_text(whole, part),
{
    let (a, b) = choose|before: Seq<char>, after: Seq<char>|
        whole == #[trigger] (before + middle + after);
    let (c, d) = choose|before: Seq<char>, after: Seq<char>|
        middle == #[trigger] (before + part + after);
    assert(whole =~= (a + c) + part + (d + b));
}

/// A glued text holds each of its parts as it is.
pub proof fn law_a_glued_text_holds_its_parts(
    parts: Seq<Seq<char>>,
    separator: Seq<char>,
    i: int,
)
    requires
        0 <= i < parts.len(),
    ensures
        holds_text(glued(parts, separator), parts[i]),
    decreases parts.len(),
{
    let whole = glued(parts, separator);
    if parts.len() == 1 {
        assert(whole =~= Seq::empty() + parts[i] + Seq::empty());
    } else if i == parts.len() - 1 {
        let before = glued(parts.drop_last(), separator) + separator;
        assert(whole =~= before + parts[i] + Seq::empty());
    } else {
        let shorter = parts.drop_last();
        law_a_glued_text_holds_its_parts(shorter, separator, i);
        let inner = glued(shorter, separator);
        assert(whole =~= Seq::empty() + inner + (separator + parts.last()));
        assert(shorter[i] == parts[i]);
        lemma_holds_within(whole, inner, parts[i]);
    }
}

} // verus!
