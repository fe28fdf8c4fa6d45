//! Does the long-path opt-in lift `MAX_PATH` for a relative path, and does it
//! change how that path is parsed?
//!
//! The observations the probe takes, the shapes of relative path it tries,
//! and the readings of its inputs that decide whether a run means anything:
//! the registry half of the opt-in, and whether the temporary directory is
//! one the apparatus can be built in.

use vstd::prelude::*;

use crate::report::{lines_of, strip_cr};
use crate::text::{
    completed_pieces, dec, join_with, lemma_join_push, lemma_split_push, push_char, push_dec, push_str,
    trailing_piece,
};

verus! {

/// Windows's classic path ceiling, counting the terminating NUL.
pub const MAX_PATH: usize = 260;

/// The longest path content that fits under the ceiling, terminator
/// excluded: a path of exactly `MAX_PATH` content units does not fit.
pub const MAX_PATH_CONTENT: usize = MAX_PATH - 1;

/// One directory level of the deep tree.
pub const SEGMENT: &'static str = "aaaaaaaa";

/// The file every attempt tries to open.
pub const TARGET: &'static str = "target.txt";

/// The longest temporary directory the probe will run in, in UTF-16 units.
pub const MAX_TEMP_DIR: usize = 200;

/// `ERROR_FILE_NOT_FOUND`.
pub const ERROR_FILE_NOT_FOUND: u32 = 2;

/// `ERROR_PATH_NOT_FOUND`, which is how Windows reports an over-long path.
pub const ERROR_PATH_NOT_FOUND: u32 = 3;

/// A path shape, and whether it is expected to survive `\\?\` parsing.
#[derive(Clone, Copy, Debug, PartialEq, Eq, Structural)]
pub enum Shape {
    /// Plain backslash-separated segments: the control.
    Plain,
    /// Contains `b\..`, which cancels to nothing if something resolves it.
    DotDot,
    /// Uses `/` as the separator, which Win32 converts and `\\?\` does not.
    ForwardSlash,
}

impl Shape {
    /// The label a table prints for the shape.
    pub open spec fn label_text(self) -> Seq<char> {
        match self {
            Shape::Plain => "plain"@,
            Shape::DotDot => "with `..`"@,
            Shape::ForwardSlash => "forward slashes"@,
        }
    }

    /// A short word for a table.
    pub fn label(self) -> (label: &'static str)
        ensures
            label@ == self.label_text(),
    {
        match self {
            Shape::Plain => "plain",
            Shape::DotDot => "with `..`",
            Shape::ForwardSlash => "forward slashes",
        }
    }

    /// Whether `\\?\` parsing would still resolve this shape: only the
    /// plain one.
    pub fn survives_verbatim_parsing(self) -> (survives: bool)
        ensures
            survives == (self == Shape::Plain),
    {
        match self {
            Shape::Plain => true,
            _ => false,
        }
    }
}

/// What one attempt did.
#[derive(Clone, Copy, Debug, PartialEq, Eq, Structural)]
pub struct Attempt {
    /// The shape tried.
    pub shape: Shape,
    /// Total length the call had to resolve, in UTF-16 units: current
    /// directory plus the relative path as written.
    pub resolved_len: usize,
    /// Whether that total is over [`MAX_PATH_CONTENT`].
    pub over_max_path: bool,
    /// Whether the file opened.
    pub opened: bool,
    /// The Win32 error when it did not.
    pub error: u32,
}

/// Everything one run observed.
#[derive(Clone, Debug)]
pub struct Observation {
    /// Whether this binary declares `longPathAware`.
    pub manifest_aware: bool,
    /// Whether the machine has `LongPathsEnabled` set; `None` when the run
    /// was refused before the registry could be read.
    pub registry_enabled: Option<bool>,
    /// Every attempt, short ones first.
    pub attempts: Vec<Attempt>,
    /// Set when the apparatus itself failed, in which case the attempts say
    /// nothing about the machine.
    pub apparatus_error: Option<String>,
}

/// Whether an attempt's failure is the not-found that Windows reports for an
/// over-long path, as opposed to some other error.
pub open spec fn refused(attempt: Attempt) -> bool {
    !attempt.opened && (attempt.error == ERROR_PATH_NOT_FOUND || attempt.error == ERROR_FILE_NOT_FOUND)
}

/// Whether an error means "the path was rejected for length", as opposed to
/// a genuine absence: the file did not open, with a not-found error.
pub fn is_refusal(attempt: &Attempt) -> (refusal: bool)
    ensures
        refusal == refused(*attempt),
{
    !attempt.opened && (attempt.error == ERROR_PATH_NOT_FOUND || attempt.error == ERROR_FILE_NOT_FOUND)
}

/// The pieces of the relative path of `shape` reaching `depth` levels down.
pub open spec fn path_parts(depth: nat, shape: Shape) -> Seq<Seq<char>> {
    Seq::new(depth, |i: int| SEGMENT@) + (if shape == Shape::DotDot {
        seq!["b"@, ".."@]
    } else {
        Seq::empty()
    }) + seq![TARGET@]
}

/// The separator a shape is written with.
pub open spec fn separator(shape: Shape) -> char {
    if shape == Shape::ForwardSlash {
        '/'
    } else {
        '\\'
    }
}

/// One relative path of the requested shape reaching `depth` levels down:
/// `depth` segments, then `b` and `..` for the `..` shape, then the target,
/// joined by the shape's separator.
pub fn relative_path(depth: usize, shape: Shape) -> (path: String)
    ensures
        path@ == join_with(path_parts(depth as nat, shape), separator(shape)),
{
    let sep = if shape == Shape::ForwardSlash { '/' } else { '\\' };
    let ghost parts = path_parts(depth as nat, shape);
    let mut path = String::new();
    let mut level: usize = 0;
    while level < depth
        invariant
            level <= depth,
            parts == path_parts(depth as nat, shape),
            path@ == join_with(parts.take(level as int), sep),
            sep == separator(shape),
        decreases depth - level,
    {
        proof {
            lemma_join_push(parts.take(level as int), parts[level as int], sep);
            assert(parts.take(level + 1) =~= parts.take(level as int).push(parts[level as int]));
            assert(parts[level as int] == SEGMENT@);
        }
        if level > 0 {
            push_char(&mut path, sep);
        }
        push_str(&mut path, SEGMENT);
        level = level + 1;
    }
    let ghost mut taken: int = depth as int;
    if shape == Shape::DotDot {
        proof {
            lemma_join_push(parts.take(taken), parts[taken], sep);
            assert(parts.take(taken + 1) =~= parts.take(taken).push(parts[taken]));
            assert(parts[taken] == "b"@);
        }
        if depth > 0 {
            push_char(&mut path, sep);
        }
        push_str(&mut path, "b");
        proof {
            taken = taken + 1;
            lemma_join_push(parts.take(taken), parts[taken], sep);
            assert(parts.take(taken + 1) =~= parts.take(taken).push(parts[taken]));
            assert(parts[taken] == ".."@);
        }
        push_char(&mut path, sep);
        push_str(&mut path, "..");
        proof {
            taken = taken + 1;
        }
    }
    proof {
        lemma_join_push(parts.take(taken), parts[taken], sep);
        assert(parts.take(taken + 1) =~= parts.take(taken).push(parts[taken]));
        assert(parts[taken] == TARGET@);
        assert(parts.take(taken + 1) =~= parts);
    }
    if depth > 0 || shape == Shape::DotDot {
        push_char(&mut path, sep);
    }
    push_str(&mut path, TARGET);
    path
}

/// Whether `c` is white space as `char::is_whitespace` reads it: the Unicode
/// `White_Space` property.
pub open spec fn is_space(c: char) -> bool {
    let u = c as u32;
    (0x9 <= u <= 0xd) || u == 0x20 || u == 0x85 || u == 0xa0 || u == 0x1680 || (0x2000 <= u <= 0x200a)
        || u == 0x2028 || u == 0x2029 || u == 0x202f || u == 0x205f || u == 0x3000
}

/// The white-space-separated words of `s`, in order, as
/// `str::split_whitespace` yields them.
pub open spec fn words(s: Seq<char>) -> Seq<Seq<char>>
    decreases s.len(),
{
    if s.len() == 0 {
        Seq::empty()
    } else {
        let before = words(s.drop_last());
        let c = s.last();
        if is_space(c) {
            before
        } else if s.len() >= 2 && !is_space(s[s.len() - 2]) {
            before.update(before.len() - 1, before.last().push(c))
        } else {
            before.push(seq![c])
        }
    }
}

/// The value of one hexadecimal digit, if `c` is one (either case).
pub open spec fn hex_digit(c: char) -> Option<nat> {
    let u = c as u32;
    if 0x30 <= u <= 0x39 {
        Some((u - 0x30) as nat)
    } else if 0x61 <= u <= 0x66 {
        Some((u - 0x61 + 10) as nat)
    } else if 0x41 <= u <= 0x46 {
        Some((u - 0x41 + 10) as nat)
    } else {
        None
    }
}

/// The number `s` spells in hexadecimal, if every character is a digit.
pub open spec fn hex_value(s: Seq<char>) -> Option<nat>
    decreases s.len(),
{
    if s.len() == 0 {
        Some(0)
    } else {
        match (hex_value(s.drop_last()), hex_digit(s.last())) {
            (Some(high), Some(low)) => Some(high * 16 + low),
            _ => None,
        }
    }
}

/// What `u32::from_str_radix(s, 16)` accepts: an optional `+`, then at least
/// one hexadecimal digit, spelling a value that fits in 32 bits.
pub open spec fn parse_hex_u32(s: Seq<char>) -> Option<u32> {
    let digits = if s.len() > 0 && s[0] == '+' { s.skip(1) } else { s };
    if digits.len() == 0 {
        None
    } else {
        match hex_value(digits) {
            Some(v) => if v <= u32::MAX { Some(v as u32) } else { None },
            None => None,
        }
    }
}

/// The DWORD one line of `reg query` output gives for `name`: the line's
/// words must be `name`, `REG_DWORD` and a `0x`-prefixed hexadecimal value.
pub open spec fn line_dword(line: Seq<char>, name: Seq<char>) -> Option<u32> {
    let w = words(line);
    if w.len() >= 3 && w[0] == name && w[1] == "REG_DWORD"@ && w[2].len() >= 2 && w[2].take(2)
        == "0x"@ {
        parse_hex_u32(w[2].skip(2))
    } else {
        None
    }
}

/// The first value present in `values`.
pub open spec fn first_some(values: Seq<Option<u32>>) -> Option<u32>
    decreases values.len(),
{
    if values.len() == 0 {
        None
    } else if values[0] is Some {
        values[0]
    } else {
        first_some(values.skip(1))
    }
}

/// The DWORD `reg query ... /v <name>` printed: that of the first line that
/// has one.
pub open spec fn registry_value(stdout: Seq<char>, name: Seq<char>) -> Option<u32> {
    first_some(lines_of(stdout).map_values(|line: Seq<char>| line_dword(line, name)))
}

/// Whether `reg query`'s output says the machine half of the opt-in is on:
/// any nonzero `LongPathsEnabled`.
pub open spec fn opted_in(stdout: Seq<char>) -> bool {
    match registry_value(stdout, "LongPathsEnabled"@) {
        Some(v) => v != 0,
        None => false,
    }
}

proof fn lemma_first_some_push(values: Seq<Option<u32>>, value: Option<u32>)
    ensures
        first_some(values.push(value)) == (if first_some(values) is Some {
            first_some(values)
        } else {
            value
        }),
    decreases values.len(),
{
    if values.len() > 0 {
        assert(values.push(value)[0] == values[0]);
        assert(values.push(value).skip(1) =~= values.skip(1).push(value));
        lemma_first_some_push(values.skip(1), value);
    } else {
        assert(values.push(value).skip(1) =~= Seq::<Option<u32>>::empty());
        assert(first_some(values.push(value).skip(1)) is None);
        assert(values.push(value)[0] == value);
    }
}

proof fn lemma_line_dword_strip_cr(line: Seq<char>, name: Seq<char>)
    ensures
        line_dword(strip_cr(line), name) == line_dword(line, name),
{
    if line.len() > 0 && line.last() == '\r' {
        assert(is_space('\r'));
        assert(words(line) == words(line.drop_last()));
    }
}

/// Whether `a` and `b` hold the same text.
fn same_text(a: &str, b: &str) -> (same: bool)
    ensures
        same == (a@ == b@),
{
    let a_owned = a.to_owned();
    let b_owned = b.to_owned();
    a_owned == b_owned
}

/// Whether `c` is white space, as [`is_space`] defines it.
fn space_char(c: char) -> (space: bool)
    ensures
        space == is_space(c),
{
    let u = c as u32;
    (0x9 <= u && u <= 0xd) || u == 0x20 || u == 0x85 || u == 0xa0 || u == 0x1680 || (0x2000 <= u && u
        <= 0x200a) || u == 0x2028 || u == 0x2029 || u == 0x202f || u == 0x205f || u == 0x3000
}

/// The white-space-separated words of `s`.
fn split_words(s: &str) -> (out: Vec<String>)
    ensures
        out@.map_values(|w: String| w@) == words(s@),
{
    let mut done: Vec<String> = Vec::new();
    let mut current = String::new();
    let mut in_word = false;
    let ghost mut seen: Seq<char> = Seq::empty();
    for c in it: s.chars()
        invariant
            seen == it.seq().take(it.index() as int),
            it.seq() == s@,
            in_word == (seen.len() > 0 && !is_space(seen.last())),
            !in_word ==> current@.len() == 0,
            words(seen) == (if in_word {
                done@.map_values(|w: String| w@).push(current@)
            } else {
                done@.map_values(|w: String| w@)
            }),
    {
        let ghost before = seen;
        proof {
            seen = seen.push(c);
            assert(seen =~= it.seq().take(it.index() + 1));
            assert(seen.drop_last() =~= before);
        }
        if space_char(c) {
            if in_word {
                let ghost old_view = done@.map_values(|w: String| w@);
                let ghost word_view = current@;
                let word = current;
                current = String::new();
                done.push(word);
                proof {
                    assert(done@.map_values(|w: String| w@) =~= old_view.push(word_view));
                }
            }
            in_word = false;
        } else {
            let ghost old_current = current@;
            push_char(&mut current, c);
            proof {
                if in_word {
                    let d = done@.map_values(|w: String| w@);
                    assert(d.push(old_current).update(d.len() as int, old_current.push(c)) =~= d.push(
                        current@,
                    ));
                } else {
                    assert(current@ =~= seq![c]);
                }
            }
            in_word = true;
        }
    }
    proof {
        assert(seen =~= s@);
    }
    if in_word {
        let ghost old_view = done@.map_values(|w: String| w@);
        let ghost word_view = current@;
        done.push(current);
        proof {
            assert(done@.map_values(|w: String| w@) =~= old_view.push(word_view));
        }
    }
    done
}

/// What `u32::from_str_radix(s, 16)` returns, as [`parse_hex_u32`] states it.
fn parse_hex(s: &str) -> (value: Option<u32>)
    ensures
        value == parse_hex_u32(s@),
{
    let ghost text = s@;
    let ghost digits = if text.len() > 0 && text[0] == '+' { text.skip(1) } else { text };
    let mut seen_any = false;
    let mut leading = true;
    let mut valid = true;
    let mut big = false;
    let mut acc: u64 = 0;
    let ghost mut taken: Seq<char> = Seq::empty();
    for c in it: s.chars()
        invariant
            it.seq() == text,
            text == s@,
            digits == (if text.len() > 0 && text[0] == '+' { text.skip(1) } else { text }),
            leading == (it.index() == 0),
            it.index() > 0 ==> taken == digits.take(
                it.index() - (if text[0] == '+' { 1int } else { 0int }),
            ),
            it.index() == 0 ==> taken.len() == 0,
            seen_any == (taken.len() > 0),
            valid == (hex_value(taken) is Some),
            valid && !big ==> acc == hex_value(taken).unwrap() && acc <= u32::MAX,
            valid && big ==> hex_value(taken).unwrap() > u32::MAX,
    {
        if leading && c == '+' {
            leading = false;
            proof {
                assert(digits.take(0) =~= taken);
            }
        } else {
            let ghost before = taken;
            proof {
                taken = taken.push(c);
                let skip: int = if text[0] == '+' { 1 } else { 0 };
                assert(taken =~= digits.take(it.index() + 1 - skip));
                assert(taken.drop_last() =~= before);
            }
            leading = false;
            seen_any = true;
            let u = c as u32;
            let digit: u64 = if 0x30 <= u && u <= 0x39 {
                (u - 0x30) as u64
            } else if 0x61 <= u && u <= 0x66 {
                (u - 0x61 + 10) as u64
            } else if 0x41 <= u && u <= 0x46 {
                (u - 0x41 + 10) as u64
            } else {
                16
            };
            if digit == 16 {
                valid = false;
            } else if valid && !big {
                let next = acc * 16 + digit;
                if next > 0xffff_ffff {
                    big = true;
                } else {
                    acc = next;
                }
            }
        }
    }
    proof {
        if text.len() > 0 {
            let skip: int = if text[0] == '+' { 1 } else { 0 };
            assert(taken =~= digits.take(text.len() - skip));
            assert(digits.take(text.len() - skip) =~= digits);
        } else {
            assert(digits =~= taken);
        }
    }
    if !seen_any || !valid || big {
        None
    } else {
        Some(acc as u32)
    }
}

/// The DWORD one line of `reg query` output gives for `name`.
fn line_value(line: &str, name: &str) -> (value: Option<u32>)
    ensures
        value == line_dword(line@, name@),
{
    let w = split_words(line);
    proof {
        assert(w@.len() == words(line@).len());
    }
    if w.len() < 3 {
        return None;
    }
    let first = w[0].as_str();
    let second = w[1].as_str();
    let third = w[2].as_str();
    proof {
        assert(first@ == words(line@)[0]);
        assert(second@ == words(line@)[1]);
        assert(third@ == words(line@)[2]);
    }
    if !same_text(first, name) || !same_text(second, "REG_DWORD") {
        return None;
    }
    match after_hex_prefix(third) {
        Some(digits) => parse_hex(digits.as_str()),
        None => None,
    }
}

/// What follows a leading `0x` in `s`, if `s` starts with one.
fn after_hex_prefix(s: &str) -> (rest: Option<String>)
    ensures
        rest is Some <==> (s@.len() >= 2 && s@.take(2) == "0x"@),
        rest is Some ==> rest.unwrap()@ == s@.skip(2),
{
    proof {
        reveal_strlit("0x");
    }
    let mut prefix_ok = true;
    let mut rest = String::new();
    let mut pos: u8 = 0;
    for c in it: s.chars()
        invariant
            it.seq() == s@,
            pos == (if it.index() < 2 { it.index() } else { 2 }),
            prefix_ok == ((it.index() >= 1 ==> s@[0] == '0') && (it.index() >= 2 ==> s@[1] == 'x')),
            rest@ == (if it.index() <= 2 { Seq::<char>::empty() } else { s@.subrange(2, it.index() as int) }),
    {
        let ghost index = it.index();
        proof {
            assert(s@[index as int] == c);
        }
        if pos == 0 {
            prefix_ok = c == '0';
            pos = 1;
        } else if pos == 1 {
            prefix_ok = prefix_ok && c == 'x';
            pos = 2;
        } else {
            push_char(&mut rest, c);
            proof {
                assert(s@.subrange(2, index + 1) =~= (if index <= 2 {
                    Seq::<char>::empty()
                } else {
                    s@.subrange(2, index as int)
                }).push(c));
            }
        }
    }
    if pos == 2 && prefix_ok {
        proof {
            assert(s@.take(2) =~= "0x"@);
            if s@.len() == 2 {
                assert(s@.skip(2) =~= Seq::<char>::empty());
            } else {
                assert(s@.skip(2) =~= s@.subrange(2, s@.len() as int));
            }
        }
        Some(rest)
    } else {
        proof {
            if s@.len() >= 2 && s@.take(2) == "0x"@ {
                assert(s@[0] == s@.take(2)[0]);
                assert(s@[1] == s@.take(2)[1]);
            }
        }
        None
    }
}

/// The DWORD `reg query ... /v <name>` printed, if it printed one.
///
/// Each line is read as whole words rather than searched for a substring:
/// `reg.exe` prints the value in hex, so a substring test for `0x1` would
/// also match `0x10`.
pub fn registry_dword(stdout: &str, name: &str) -> (value: Option<u32>)
    ensures
        value == registry_value(stdout@, name@),
{
    let ghost f = |line: Seq<char>| line_dword(line, name@);
    let mut found: Option<u32> = None;
    let mut line = String::new();
    let ghost mut seen: Seq<char> = Seq::empty();
    for c in it: stdout.chars()
        invariant
            seen == it.seq().take(it.index() as int),
            it.seq() == stdout@,
            f == (|line: Seq<char>| line_dword(line, name@)),
            line@ == trailing_piece(seen, '\n'),
            found == first_some(completed_pieces(seen, '\n').map_values(f)),
    {
        proof {
            lemma_split_push(seen, c, '\n');
        }
        let ghost before = seen;
        proof {
            seen = seen.push(c);
            assert(seen =~= it.seq().take(it.index() + 1));
        }
        if c == '\n' {
            let value = line_value(line.as_str(), name);
            proof {
                let old_pieces = completed_pieces(before, '\n');
                assert(old_pieces.push(line@).map_values(f) =~= old_pieces.map_values(f).push(
                    f(line@),
                ));
                lemma_first_some_push(old_pieces.map_values(f), f(line@));
            }
            if found.is_none() {
                found = value;
            }
            line = String::new();
        } else {
            push_char(&mut line, c);
        }
    }
    proof {
        assert(seen =~= stdout@);
        let closed = completed_pieces(stdout@, '\n');
        let rest = trailing_piece(stdout@, '\n');
        let stripped = closed.map_values(|l: Seq<char>| strip_cr(l));
        assert forall|i: int| 0 <= i < closed.len() implies #[trigger] stripped.map_values(f)[i]
            == closed.map_values(f)[i] by {
            lemma_line_dword_strip_cr(closed[i], name@);
        }
        assert(stripped.map_values(f) =~= closed.map_values(f));
        if rest.len() == 0 {
            assert(lines_of(stdout@) == stripped);
        } else {
            assert(lines_of(stdout@) == stripped.push(rest));
            assert(stripped.push(rest).map_values(f) =~= closed.map_values(f).push(f(rest)));
            lemma_first_some_push(closed.map_values(f), f(rest));
        }
    }
    if found.is_none() {
        let value = line_value(line.as_str(), name);
        proof {
            let rest = trailing_piece(stdout@, '\n');
            if rest.len() == 0 {
                assert(words(rest) =~= Seq::<Seq<char>>::empty());
            }
        }
        found = value;
    }
    found
}

/// Whether `reg query`'s output says the machine half of the opt-in is on.
///
/// Any nonzero value counts: the flag is a boolean stored in a DWORD.
pub fn enabled_in(stdout: &str) -> (enabled: bool)
    ensures
        enabled == opted_in(stdout@),
{
    match registry_dword(stdout, "LongPathsEnabled") {
        Some(value) => value != 0,
        None => false,
    }
}

/// A UTF-16 unit that opens a surrogate pair.
pub open spec fn is_high_surrogate(unit: u16) -> bool {
    0xd800 <= unit <= 0xdbff
}

/// A UTF-16 unit that closes a surrogate pair.
pub open spec fn is_low_surrogate(unit: u16) -> bool {
    0xdc00 <= unit <= 0xdfff
}

/// Whether `units` is well-formed UTF-16: every surrogate is half of a
/// pair, high then low.
pub open spec fn well_formed_utf16(units: Seq<u16>) -> bool
    decreases units.len(),
{
    if units.len() == 0 {
        true
    } else if is_high_surrogate(units[0]) {
        units.len() >= 2 && is_low_surrogate(units[1]) && well_formed_utf16(units.skip(2))
    } else if is_low_surrogate(units[0]) {
        false
    } else {
        well_formed_utf16(units.skip(1))
    }
}

/// Whether `units` begins with the UTF-16 spelling of the ASCII text `prefix`.
pub open spec fn starts_with_ascii(units: Seq<u16>, prefix: Seq<char>) -> bool {
    units.len() >= prefix.len() && forall|k: int| 0 <= k < prefix.len() ==> units[k] == prefix[k] as u16
}

/// The device-namespace prefix `\\?\`.
pub open spec fn verbatim_prefix() -> Seq<char> {
    seq!['\\', '\\', '?', '\\']
}

/// The device-namespace prefix `\\.\`.
pub open spec fn device_prefix() -> Seq<char> {
    seq!['\\', '\\', '.', '\\']
}

/// The opening of a UNC path, `\\`.
pub open spec fn unc_prefix() -> Seq<char> {
    seq!['\\', '\\']
}

/// How a refusal names the variable: `%name%`.
pub open spec fn variable(name: Seq<char>) -> Seq<char> {
    "%"@ + name + "%"@
}

/// The refusal for a value that is not well-formed UTF-16.
pub open spec fn ill_formed_refusal(name: Seq<char>) -> Seq<char> {
    variable(name)
        + " is not well-formed UTF-16. The apparatus composes its `\\\\?\\` paths as text, which would replace the ill-formed part and name a different file. Point "@
        + variable(name) + " somewhere expressible."@
}

/// The refusal for a value in the device namespace, naming its prefix.
pub open spec fn device_refusal(name: Seq<char>, prefix: Seq<char>) -> Seq<char> {
    variable(name) + " starts with `"@ + prefix
        + "`, which names the device namespace rather than an ordinary directory. This probe composes its own `\\\\?\\` prefix by concatenation, and `\\\\?\\` additionally turns off the path normalisation the probe measures. Point "@
        + variable(name) + " at an ordinary local directory."@
}

/// The refusal for a UNC value.
pub open spec fn unc_refusal(name: Seq<char>) -> Seq<char> {
    variable(name)
        + " is a UNC path. This probe builds its apparatus through `\\\\?\\` paths, which spell a UNC root differently, and it does not implement that spelling. Point "@
        + variable(name) + " at a local directory."@
}

/// The refusal for a value longer than [`MAX_TEMP_DIR`] units.
pub open spec fn length_refusal(name: Seq<char>, units: nat) -> Seq<char> {
    variable(name) + " is "@ + dec(units) + " UTF-16 units, over this probe's limit of "@ + dec(
        MAX_TEMP_DIR as nat,
    )
        + ". A temporary directory that long makes a longPathAware process hang rather than fail, so the run is refused instead. Point "@
        + variable(name) + " somewhere shorter."@
}

/// Why a temporary directory named by variable `name` with UTF-16 content
/// `value` cannot host the run, checked in this order: well-formedness, the
/// two device prefixes, UNC, then length.
pub open spec fn refusal_for(name: Seq<char>, value: Seq<u16>) -> Option<Seq<char>> {
    if !well_formed_utf16(value) {
        Some(ill_formed_refusal(name))
    } else if starts_with_ascii(value, verbatim_prefix()) {
        Some(device_refusal(name, verbatim_prefix()))
    } else if starts_with_ascii(value, device_prefix()) {
        Some(device_refusal(name, device_prefix()))
    } else if starts_with_ascii(value, unc_prefix()) {
        Some(unc_refusal(name))
    } else if value.len() <= MAX_TEMP_DIR {
        None
    } else {
        Some(length_refusal(name, value.len()))
    }
}

/// The refusal for `%TMP%` when it is set, else for `%TEMP%` when that is,
/// else none: the order `GetTempPath` consults them in.
pub open spec fn temp_refusal(tmp: Option<Seq<u16>>, temp: Option<Seq<u16>>) -> Option<Seq<char>> {
    match tmp {
        Some(value) => refusal_for("TMP"@, value),
        None => match temp {
            Some(value) => refusal_for("TEMP"@, value),
            None => None,
        },
    }
}

/// The units a variable holds, if it is set.
pub open spec fn units_of(value: Option<&[u16]>) -> Option<Seq<u16>> {
    match value {
        Some(units) => Some(units@),
        None => None,
    }
}

/// The refusals keep their order: `%TEMP%` is consulted only when `%TMP%`
/// is unset; a value that is not well-formed UTF-16 is refused as such
/// whatever its prefix spells; a device-namespace value is refused as
/// itself, never as UNC; and a well-formed ordinary value is refused only
/// for its length.
pub proof fn lemma_refusals_keep_their_order(tmp: Seq<u16>, temp: Option<Seq<u16>>, other: Option<Seq<u16>>, name: Seq<char>, value: Seq<u16>)
    ensures
        temp_refusal(Some(tmp), temp) == temp_refusal(Some(tmp), other),
        !well_formed_utf16(value) ==> refusal_for(name, value) == Some(ill_formed_refusal(name)),
        well_formed_utf16(value) && starts_with_ascii(value, verbatim_prefix()) ==> refusal_for(name, value)
            == Some(device_refusal(name, verbatim_prefix())),
        well_formed_utf16(value) && starts_with_ascii(value, device_prefix()) ==> refusal_for(name, value)
            == Some(device_refusal(name, device_prefix())),
        well_formed_utf16(value) && !starts_with_ascii(value, unc_prefix()) ==> (refusal_for(name, value)
            is Some <==> value.len() > MAX_TEMP_DIR),
{
    if well_formed_utf16(value) && starts_with_ascii(value, device_prefix()) {
        if starts_with_ascii(value, verbatim_prefix()) {
            assert(value[2] == verbatim_prefix()[2] as u16);
            assert(value[2] == device_prefix()[2] as u16);
        }
    }
    if well_formed_utf16(value) && !starts_with_ascii(value, unc_prefix()) {
        if starts_with_ascii(value, verbatim_prefix()) {
            assert(starts_with_ascii(value, unc_prefix()));
        }
        if starts_with_ascii(value, device_prefix()) {
            assert(starts_with_ascii(value, unc_prefix()));
        }
    }
}

/// Whether `units` is well-formed UTF-16.
fn is_well_formed_utf16(units: &[u16]) -> (well_formed: bool)
    ensures
        well_formed == well_formed_utf16(units@),
{
    let mut i: usize = 0;
    assert(units@.skip(0) =~= units@);
    while i < units.len()
        invariant
            i <= units.len(),
            well_formed_utf16(units@) == well_formed_utf16(units@.skip(i as int)),
        decreases units.len() - i,
    {
        let ghost rest = units@.skip(i as int);
        let unit = units[i];
        assert(rest[0] == unit);
        if 0xd800 <= unit && unit <= 0xdbff {
            if i + 1 < units.len() && 0xdc00 <= units[i + 1] && units[i + 1] <= 0xdfff {
                assert(rest[1] == units[i + 1]);
                assert(rest.skip(2) =~= units@.skip(i + 2));
                i = i + 2;
            } else {
                return false;
            }
        } else if 0xdc00 <= unit && unit <= 0xdfff {
            return false;
        } else {
            assert(rest.skip(1) =~= units@.skip(i + 1));
            i = i + 1;
        }
    }
    assert(units@.skip(i as int) =~= Seq::<u16>::empty());
    true
}

/// Whether `units` begins with the UTF-16 spelling of `prefix`, which is ASCII.
fn starts_with_units(units: &[u16], prefix: &[u16]) -> (starts: bool)
    ensures
        starts == (units@.len() >= prefix@.len() && forall|k: int|
            0 <= k < prefix@.len() ==> units@[k] == prefix@[k]),
{
    if units.len() < prefix.len() {
        return false;
    }
    let mut k: usize = 0;
    while k < prefix.len()
        invariant
            k <= prefix.len() <= units.len(),
            forall|j: int| 0 <= j < k ==> units@[j] == prefix@[j],
        decreases prefix.len() - k,
    {
        if units[k] != prefix[k] {
            return false;
        }
        k = k + 1;
    }
    true
}

/// Appends the refusal text that is common to all four refusals: `%name%`.
fn push_variable(out: &mut String, name: &str)
    ensures
        final(out)@ == old(out)@ + variable(name@),
{
    push_str(out, "%");
    push_str(out, name);
    push_str(out, "%");
}

/// Why the run must refuse to start on the temporary directory held in the
/// variable `name`, whose value is `value` in UTF-16 units.
fn refusal_of(name: &str, value: &[u16]) -> (refusal: Option<String>)
    ensures
        refusal is Some == refusal_for(name@, value@) is Some,
        refusal is Some ==> refusal.unwrap()@ == refusal_for(name@, value@).unwrap(),
{
    let mut out = String::new();
    if !is_well_formed_utf16(value) {
        push_variable(&mut out, name);
        push_str(&mut out, " is not well-formed UTF-16. The apparatus composes its `\\\\?\\` paths as text, which would replace the ill-formed part and name a different file. Point ");
        push_variable(&mut out, name);
        push_str(&mut out, " somewhere expressible.");
        proof {
            assert(out@ =~= ill_formed_refusal(name@));
        }
        return Some(out);
    }
    let verbatim: [u16; 4] = [0x5c, 0x5c, 0x3f, 0x5c];
    let device: [u16; 4] = [0x5c, 0x5c, 0x2e, 0x5c];
    let unc: [u16; 2] = [0x5c, 0x5c];
    let is_verbatim = starts_with_units(value, &verbatim);
    let is_device = starts_with_units(value, &device);
    let is_unc = starts_with_units(value, &unc);
    proof {
        assert(is_verbatim == starts_with_ascii(value@, verbatim_prefix())) by {
            assert(verbatim@ =~= verbatim_prefix().map_values(|c: char| c as u16));
        }
        assert(is_device == starts_with_ascii(value@, device_prefix())) by {
            assert(device@ =~= device_prefix().map_values(|c: char| c as u16));
        }
        assert(is_unc == starts_with_ascii(value@, unc_prefix())) by {
            assert(unc@ =~= unc_prefix().map_values(|c: char| c as u16));
        }
    }
    if is_verbatim || is_device {
        let prefix = if is_verbatim { "\\\\?\\" } else { "\\\\.\\" };
        proof {
            reveal_strlit("\\\\?\\");
            reveal_strlit("\\\\.\\");
            assert("\\\\?\\"@ =~= verbatim_prefix());
            assert("\\\\.\\"@ =~= device_prefix());
        }
        push_variable(&mut out, name);
        push_str(&mut out, " starts with `");
        push_str(&mut out, prefix);
        push_str(&mut out, "`, which names the device namespace rather than an ordinary directory. This probe composes its own `\\\\?\\` prefix by concatenation, and `\\\\?\\` additionally turns off the path normalisation the probe measures. Point ");
        push_variable(&mut out, name);
        push_str(&mut out, " at an ordinary local directory.");
        proof {
            if is_verbatim {
                assert(out@ =~= device_refusal(name@, verbatim_prefix()));
            } else {
                assert(out@ =~= device_refusal(name@, device_prefix()));
            }
        }
        return Some(out);
    }
    if is_unc {
        push_variable(&mut out, name);
        push_str(&mut out, " is a UNC path. This probe builds its apparatus through `\\\\?\\` paths, which spell a UNC root differently, and it does not implement that spelling. Point ");
        push_variable(&mut out, name);
        push_str(&mut out, " at a local directory.");
        proof {
            assert(out@ =~= unc_refusal(name@));
        }
        return Some(out);
    }
    if value.len() <= MAX_TEMP_DIR {
        return None;
    }
    push_variable(&mut out, name);
    push_str(&mut out, " is ");
    push_dec(&mut out, value.len() as u64);
    push_str(&mut out, " UTF-16 units, over this probe's limit of ");
    push_dec(&mut out, MAX_TEMP_DIR as u64);
    push_str(&mut out, ". A temporary directory that long makes a longPathAware process hang rather than fail, so the run is refused instead. Point ");
    push_variable(&mut out, name);
    push_str(&mut out, " somewhere shorter.");
    proof {
        assert(out@ =~= length_refusal(name@, value@.len()));
    }
    Some(out)
}

/// Why this run must refuse to start, if it must, given the UTF-16 contents
/// of `%TMP%` and `%TEMP%`.
///
/// `%TMP%` is consulted first and `%TEMP%` only when it is unset, as
/// `GetTempPath` does. Each refusal is checked in an order where every check
/// can rely on the one before: a value that is not well-formed UTF-16 is
/// refused as such before its prefix is read as text; `\\?\` and `\\.\` are
/// device namespaces, not UNC; and a UNC root is refused rather than spelled
/// wrong. Otherwise a value over [`MAX_TEMP_DIR`] units is refused, because a
/// temporary directory that long makes a long-path-aware process hang.
pub fn temp_dir_refusal(tmp: Option<&[u16]>, temp: Option<&[u16]>) -> (refusal: Option<String>)
    ensures
        refusal is Some == temp_refusal(units_of(tmp), units_of(temp)) is Some,
        refusal is Some ==> refusal.unwrap()@ == temp_refusal(units_of(tmp), units_of(temp)).unwrap(),
{
    match tmp {
        Some(value) => refusal_of("TMP", value),
        None => match temp {
            Some(value) => refusal_of("TEMP", value),
            None => None,
        },
    }
}

/// The number of UTF-16 units `s` takes: two for a character beyond the
/// basic plane, one for any other.
pub open spec fn utf16_units(s: Seq<char>) -> nat
    decreases s.len(),
{
    if s.len() == 0 {
        0
    } else {
        utf16_units(s.drop_last()) + if (s.last() as u32) > 0xffff { 2nat } else { 1nat }
    }
}

/// The length of `s` in UTF-16 units, the unit `MAX_PATH` counts; saturates
/// at `usize::MAX`.
pub fn utf16_len(s: &str) -> (units: usize)
    ensures
        units == (if utf16_units(s@) < usize::MAX { utf16_units(s@) } else { usize::MAX as nat }),
{
    let mut units: usize = 0;
    let ghost mut seen: Seq<char> = Seq::empty();
    for c in it: s.chars()
        invariant
            seen == it.seq().take(it.index() as int),
            it.seq() == s@,
            units == (if utf16_units(seen) < usize::MAX { utf16_units(seen) } else { usize::MAX as nat }),
    {
        proof {
            let before = seen;
            seen = seen.push(c);
            assert(seen =~= it.seq().take(it.index() + 1));
            assert(seen.drop_last() =~= before);
        }
        let width: usize = if (c as u32) > 0xffff { 2 } else { 1 };
        if units <= usize::MAX - width {
            units = units + width;
        } else {
            units = usize::MAX;
        }
    }
    proof {
        assert(seen =~= s@);
    }
    units
}

/// The record of one attempt at a path of `resolved_len` UTF-16 units, which
/// is over the ceiling exactly when it exceeds [`MAX_PATH_CONTENT`]: a path
/// of `MAX_PATH` content units leaves no room for the terminator.
pub fn attempt_of(shape: Shape, resolved_len: usize, opened: bool, error: u32) -> (attempt: Attempt)
    ensures
        attempt == (Attempt { shape, resolved_len, over_max_path: resolved_len > MAX_PATH_CONTENT, opened, error }),
{
    Attempt { shape, resolved_len, over_max_path: resolved_len > MAX_PATH_CONTENT, opened, error }
}

} // verus!
