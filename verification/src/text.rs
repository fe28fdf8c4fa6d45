//! Text as sequences of characters: splitting, joining, and the helpers the
//! renderers build their output with.

use vstd::prelude::*;

verus! {

/// The pieces `s` falls into when cut at every `sep`: one more piece than
/// there are separators, the last one being whatever follows the final
/// separator (empty when `s` ends with one).
pub open spec fn split_on(s: Seq<char>, sep: char) -> Seq<Seq<char>>
    decreases s.len(),
{
    if s.len() == 0 {
        seq![Seq::<char>::empty()]
    } else {
        let pieces = split_on(s.drop_last(), sep);
        if s.last() == sep {
            pieces.push(Seq::<char>::empty())
        } else {
            pieces.update(pieces.len() - 1, pieces.last().push(s.last()))
        }
    }
}

/// `split_on` always yields at least one piece, and no piece holds the
/// separator.
pub proof fn lemma_split_on_shape(s: Seq<char>, sep: char)
    ensures
        split_on(s, sep).len() >= 1,
        forall|i: int| 0 <= i < split_on(s, sep).len() ==> !(#[trigger] split_on(s, sep)[i]).contains(sep),
    decreases s.len(),
{
    if s.len() > 0 {
        lemma_split_on_shape(s.drop_last(), sep);
        let pieces = split_on(s.drop_last(), sep);
        if s.last() != sep {
            let last = pieces.last();
            assert forall|i: int| 0 <= i < split_on(s, sep).len() implies !(#[trigger] split_on(s, sep)[i]).contains(sep) by {
                if i == pieces.len() - 1 {
                    assert(!last.contains(sep));
                    if last.push(s.last()).contains(sep) {
                        let k = choose|k: int| 0 <= k < last.push(s.last()).len() && last.push(s.last())[k] == sep;
                        if k < last.len() {
                            assert(last[k] == sep);
                        }
                    }
                }
            }
        } else {
            assert forall|i: int| 0 <= i < split_on(s, sep).len() implies !(#[trigger] split_on(s, sep)[i]).contains(sep) by {
                if i == pieces.len() {
                    assert(split_on(s, sep)[i] =~= Seq::<char>::empty());
                }
            }
        }
    }
}

/// The pieces of `s` that a separator has closed: every piece but the last.
pub open spec fn completed_pieces(s: Seq<char>, sep: char) -> Seq<Seq<char>> {
    split_on(s, sep).drop_last()
}

/// What follows the final separator of `s` (all of `s` when it has none).
pub open spec fn trailing_piece(s: Seq<char>, sep: char) -> Seq<char> {
    split_on(s, sep).last()
}

/// Appending one character either closes the trailing piece (a separator) or
/// extends it.
pub proof fn lemma_split_push(s: Seq<char>, c: char, sep: char)
    ensures
        c == sep ==> completed_pieces(s.push(c), sep) == completed_pieces(s, sep).push(trailing_piece(s, sep))
            && trailing_piece(s.push(c), sep) == Seq::<char>::empty(),
        c != sep ==> completed_pieces(s.push(c), sep) == completed_pieces(s, sep)
            && trailing_piece(s.push(c), sep) == trailing_piece(s, sep).push(c),
{
    lemma_split_on_shape(s, sep);
    assert(s.push(c).drop_last() =~= s);
    let pieces = split_on(s, sep);
    if c == sep {
        assert(pieces.push(Seq::<char>::empty()).drop_last() =~= pieces);
        assert(pieces.drop_last().push(pieces.last()) =~= pieces);
    } else {
        let updated = pieces.update(pieces.len() - 1, pieces.last().push(c));
        assert(updated.drop_last() =~= pieces.drop_last());
    }
}

/// Text with no separator in it is a single piece: itself.
pub proof fn lemma_split_without_sep(s: Seq<char>, sep: char)
    requires
        !s.contains(sep),
    ensures
        split_on(s, sep) == seq![s],
    decreases s.len(),
{
    if s.len() > 0 {
        assert(!s.drop_last().contains(sep)) by {
            if s.drop_last().contains(sep) {
                let k = choose|k: int| 0 <= k < s.drop_last().len() && s.drop_last()[k] == sep;
                assert(s[k] == sep);
            }
        }
        lemma_split_without_sep(s.drop_last(), sep);
        assert(s.last() != sep);
        assert(s.drop_last().push(s.last()) =~= s);
        assert(seq![s.drop_last()].update(0, s.drop_last().push(s.last())) =~= seq![s]);
    } else {
        assert(s =~= Seq::<char>::empty());
    }
}

/// Cutting `p + b` is cutting `p`, then cutting what `p` left open followed
/// by `b`: the pieces `p` closed stay closed, and the rest is decided by its
/// trailing piece alone.
pub proof fn lemma_split_append(p: Seq<char>, b: Seq<char>, sep: char)
    ensures
        completed_pieces(p + b, sep) == completed_pieces(p, sep) + completed_pieces(
            trailing_piece(p, sep) + b,
            sep,
        ),
        trailing_piece(p + b, sep) == trailing_piece(trailing_piece(p, sep) + b, sep),
    decreases b.len(),
{
    let t = trailing_piece(p, sep);
    if b.len() == 0 {
        lemma_split_on_shape(p, sep);
        assert(!t.contains(sep));
        lemma_split_without_sep(t, sep);
        assert(p + b =~= p);
        assert(t + b =~= t);
        assert(completed_pieces(t, sep) =~= Seq::<Seq<char>>::empty());
        assert(completed_pieces(p, sep) + Seq::<Seq<char>>::empty() =~= completed_pieces(p, sep));
    } else {
        let c = b.last();
        let rest = b.drop_last();
        lemma_split_append(p, rest, sep);
        lemma_split_push(p + rest, c, sep);
        lemma_split_push(t + rest, c, sep);
        assert((p + rest).push(c) =~= p + b);
        assert((t + rest).push(c) =~= t + b);
        if c == sep {
            assert(completed_pieces(p, sep) + completed_pieces(t + rest, sep).push(trailing_piece(t + rest, sep))
                =~= (completed_pieces(p, sep) + completed_pieces(t + rest, sep)).push(
                trailing_piece(t + rest, sep),
            ));
        }
    }
}

/// The digit character for `d`, which must be below 16; lower-case or
/// upper-case past 9.
pub open spec fn digit_char(d: nat, upper: bool) -> char {
    if d < 10 {
        (48 + d) as char
    } else if upper {
        (55 + d) as char
    } else {
        (87 + d) as char
    }
}

/// `n` written in `base` (2 to 16), most significant digit first, with no
/// leading zeros (zero is one digit).
pub open spec fn digits(n: nat, base: nat, upper: bool) -> Seq<char>
    decreases n,
{
    if base < 2 || n < base {
        seq![digit_char(n, upper)]
    } else {
        proof {
            lemma_div_smaller(n, base);
        }
        digits(n / base, base, upper).push(digit_char(n % base, upper))
    }
}

/// Dividing by a base of at least two makes a number at least that base smaller.
pub proof fn lemma_div_smaller(n: nat, base: nat)
    requires
        base >= 2,
        n >= base,
    ensures
        n / base < n,
{
    assert(n / base < n) by (nonlinear_arith)
        requires
            base >= 2,
            n >= base,
    ;
}

/// `n` in decimal.
pub open spec fn dec(n: nat) -> Seq<char> {
    digits(n, 10, false)
}

/// `count` copies of `c`.
pub open spec fn repeat(c: char, count: nat) -> Seq<char>
    decreases count,
{
    if count == 0 {
        Seq::<char>::empty()
    } else {
        repeat(c, (count - 1) as nat).push(c)
    }
}

/// `s` filled with `fill` on the left up to `width` characters, as `{:>w$}`
/// (or `{:0w$}` with `'0'`) lays it out. Never truncates.
pub open spec fn pad_left(s: Seq<char>, width: nat, fill: char) -> Seq<char> {
    if s.len() >= width {
        s
    } else {
        repeat(fill, (width - s.len()) as nat) + s
    }
}

/// `s` filled with spaces on the right up to `width` characters, as `{:<w$}`
/// lays it out. Never truncates.
pub open spec fn pad_right(s: Seq<char>, width: nat) -> Seq<char> {
    if s.len() >= width {
        s
    } else {
        s + repeat(' ', (width - s.len()) as nat)
    }
}

/// The character for a digit below 16.
fn digit_to_char(d: u64, upper: bool) -> (c: char)
    requires
        d < 16,
    ensures
        c == digit_char(d as nat, upper),
{
    if d < 10 {
        ((48 + d) as u8) as char
    } else if upper {
        ((55 + d) as u8) as char
    } else {
        ((87 + d) as u8) as char
    }
}

/// The digits of `n` in `base`.
pub fn digits_of(n: u64, base: u64, upper: bool) -> (out: String)
    requires
        2 <= base <= 16,
    ensures
        out@ == digits(n as nat, base as nat, upper),
    decreases n,
{
    if n < base {
        let mut out = String::new();
        push_char(&mut out, digit_to_char(n, upper));
        out
    } else {
        proof {
            lemma_div_smaller(n as nat, base as nat);
        }
        let mut out = digits_of(n / base, base, upper);
        push_char(&mut out, digit_to_char(n % base, upper));
        out
    }
}

/// `n` in decimal, for values past 64 bits.
pub fn digits_of_wide(n: u128) -> (out: String)
    ensures
        out@ == dec(n as nat),
    decreases n,
{
    if n < 10 {
        let mut out = String::new();
        push_char(&mut out, digit_to_char(n as u64, false));
        out
    } else {
        proof {
            lemma_div_smaller(n as nat, 10);
        }
        let mut out = digits_of_wide(n / 10);
        push_char(&mut out, digit_to_char((n % 10) as u64, false));
        out
    }
}

/// Appends `n` in decimal.
pub fn push_dec(out: &mut String, n: u64)
    ensures
        final(out)@ == old(out)@ + dec(n as nat),
{
    let text = digits_of(n, 10, false);
    push_str(out, text.as_str());
}

/// `n` as `{:#0w$x}` writes it: `0x`, then lower-case hexadecimal digits
/// filled with zeros to `width` characters in all.
pub open spec fn alt_hex(n: nat, width: nat) -> Seq<char> {
    "0x"@ + pad_left(digits(n, 16, false), if width >= 2 { (width - 2) as nat } else { 0 }, '0')
}

/// Appends `n` as `{:#0w$x}` writes it.
pub fn push_alt_hex(out: &mut String, n: u64, width: usize)
    ensures
        final(out)@ == old(out)@ + alt_hex(n as nat, width as nat),
{
    let ghost start = out@;
    push_str(out, "0x");
    let text = digits_of(n, 16, false);
    let pad = if width >= 2 { width - 2 } else { 0 };
    push_padded_left(out, text.as_str(), pad, '0');
    proof {
        assert(out@ =~= start + alt_hex(n as nat, width as nat));
    }
}

/// `n` as `{:0w$X}` writes it: upper-case hexadecimal digits filled with
/// zeros to `width`.
pub open spec fn hex_upper(n: nat, width: nat) -> Seq<char> {
    pad_left(digits(n, 16, true), width, '0')
}

/// Appends `n` as `{:0w$X}` writes it.
pub fn push_hex_upper(out: &mut String, n: u64, width: usize)
    ensures
        final(out)@ == old(out)@ + hex_upper(n as nat, width as nat),
{
    let text = digits_of(n, 16, true);
    push_padded_left(out, text.as_str(), width, '0');
}

/// Appends `count` copies of `c`.
pub fn push_repeat(out: &mut String, c: char, count: usize)
    ensures
        final(out)@ == old(out)@ + repeat(c, count as nat),
{
    let ghost start = out@;
    let mut done: usize = 0;
    while done < count
        invariant
            done <= count,
            out@ == start + repeat(c, done as nat),
        decreases count - done,
    {
        push_char(out, c);
        done = done + 1;
        assert(out@ =~= start + repeat(c, done as nat));
    }
}

/// The number of characters in `s`, or `usize::MAX` when there are more.
pub fn char_count(s: &str) -> (n: usize)
    ensures
        n == (if s@.len() < usize::MAX { s@.len() } else { usize::MAX as nat }),
{
    let mut n: usize = 0;
    for c in it: s.chars()
        invariant
            n == (if it.index() < usize::MAX { it.index() as nat } else { usize::MAX as nat }),
            it.seq() == s@,
    {
        if n < usize::MAX {
            n = n + 1;
        }
    }
    n
}

/// Appends `s` filled on the left with `fill` to `width` characters.
pub fn push_padded_left(out: &mut String, s: &str, width: usize, fill: char)
    ensures
        final(out)@ == old(out)@ + pad_left(s@, width as nat, fill),
{
    let len = char_count(s);
    if len < width {
        push_repeat(out, fill, width - len);
    }
    push_str(out, s);
}

/// Appends `s` filled on the right with spaces to `width` characters.
pub fn push_padded_right(out: &mut String, s: &str, width: usize)
    ensures
        final(out)@ == old(out)@ + pad_right(s@, width as nat),
{
    let len = char_count(s);
    push_str(out, s);
    if len < width {
        push_repeat(out, ' ', width - len);
    }
}

/// `lines` joined with `sep` between neighbours.
pub open spec fn join_with(lines: Seq<Seq<char>>, sep: char) -> Seq<char>
    decreases lines.len(),
{
    if lines.len() == 0 {
        Seq::<char>::empty()
    } else if lines.len() == 1 {
        lines[0]
    } else {
        join_with(lines.drop_last(), sep).push(sep) + lines.last()
    }
}

/// Joining one more item adds a separator and the item, unless it is the
/// first.
pub proof fn lemma_join_push(items: Seq<Seq<char>>, item: Seq<char>, sep: char)
    ensures
        join_with(items.push(item), sep) == (if items.len() == 0 {
            item
        } else {
            join_with(items, sep).push(sep) + item
        }),
{
    assert(items.push(item).drop_last() =~= items);
    if items.len() == 0 {
        assert(items.push(item)[0] == item);
    }
}

/// `items` joined with the text `sep` between neighbours, as `[..].join(sep)`.
pub open spec fn join_text(items: Seq<Seq<char>>, sep: Seq<char>) -> Seq<char>
    decreases items.len(),
{
    if items.len() == 0 {
        Seq::<char>::empty()
    } else if items.len() == 1 {
        items[0]
    } else {
        join_text(items.drop_last(), sep) + sep + items.last()
    }
}

/// The texts of `items`.
pub open spec fn texts(items: Seq<String>) -> Seq<Seq<char>> {
    items.map_values(|item: String| item@)
}

/// Appends `items` joined with `sep` between neighbours.
pub fn push_joined(out: &mut String, items: &Vec<String>, sep: &str)
    ensures
        final(out)@ == old(out)@ + join_text(texts(items@), sep@),
{
    let ghost start = out@;
    let mut i: usize = 0;
    while i < items.len()
        invariant
            i <= items.len(),
            out@ == start + join_text(texts(items@).take(i as int), sep@),
        decreases items.len() - i,
    {
        let ghost before = texts(items@).take(i as int);
        if i > 0 {
            push_str(out, sep);
        }
        push_str(out, items[i].as_str());
        proof {
            let after = texts(items@).take(i + 1);
            assert(after.drop_last() =~= before);
            assert(after.last() == items@[i as int]@);
            if i == 0 {
                assert(after.len() == 1);
            }
        }
        i = i + 1;
        proof {
            assert(out@ =~= start + join_text(texts(items@).take(i as int), sep@));
        }
    }
    assert(texts(items@).take(i as int) =~= texts(items@));
}

/// Appends one character.
#[verifier::external_body]
pub(crate) fn push_char(s: &mut String, c: char)
    ensures
        final(s)@ == old(s)@.push(c),
{
    s.push(c);
}

/// Appends a string slice.
pub(crate) fn push_str(s: &mut String, t: &str)
    ensures
        final(s)@ == old(s)@ + t@,
{
    s.append(t);
}

} // verus!
