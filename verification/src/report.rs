//! The one place a probe writes.
//!
//! A probe's findings are its report, so the report is a value: a [`Report`]
//! receives whole lines, [`Captured`] keeps them for a test to read, and
//! [`LineSink`] lets a renderer write formatted text that is reassembled into
//! lines as it arrives.

use std::io::Write;

use vstd::prelude::*;

use crate::text::{
    completed_pieces, join_with, lemma_split_on_shape, lemma_split_push, push_char, push_str, split_on,
    trailing_piece,
};

verus! {

/// Somewhere a probe's report can go.
pub trait Report {
    /// Every line this report has received, in order.
    spec fn emitted(&self) -> Seq<Seq<char>>;

    /// Emit one line.
    fn line(&mut self, text: &str)
        ensures
            final(self).emitted() == old(self).emitted().push(text@),
    ;
}

/// The lines a block of text shows a reader: cut at every `\n`, a `\r`
/// directly before a `\n` dropped, and no empty line after a final newline.
pub open spec fn lines_of(block: Seq<char>) -> Seq<Seq<char>> {
    let closed = completed_pieces(block, '\n').map_values(|line: Seq<char>| strip_cr(line));
    let rest = trailing_piece(block, '\n');
    if rest.len() == 0 {
        closed
    } else {
        closed.push(rest)
    }
}

/// A line without the `\r` of a `\r\n` ending.
pub open spec fn strip_cr(line: Seq<char>) -> Seq<char> {
    if line.len() > 0 && line.last() == '\r' {
        line.drop_last()
    } else {
        line
    }
}

/// The real stream: standard output, one line per [`Report::line`].
pub struct Stdout {
    printed: Ghost<Seq<Seq<char>>>,
}

impl Stdout {
    /// Standard output, with nothing printed through this handle yet.
    pub fn new() -> (out: Self)
        ensures
            out.emitted() == Seq::<Seq<char>>::empty(),
    {
        Stdout { printed: Ghost(Seq::empty()) }
    }
}

impl Report for Stdout {
    closed spec fn emitted(&self) -> Seq<Seq<char>> {
        self.printed@
    }

    fn line(&mut self, text: &str) {
        print_line(text);
        proof {
            self.printed = Ghost(self.printed@.push(text@));
        }
    }
}

/// Writes `text` and a newline to standard output through `writeln!` on
/// `std::io::stdout()`. Nothing is stated of the stream: what a terminal
/// shows is outside this program. A failed write is ignored rather than
/// turned into a panic.
#[verifier::external_body]
fn print_line(text: &str) {
    let _ = writeln!(std::io::stdout(), "{}", text);
}

/// A report that keeps what it was given.
///
/// The point of the whole abstraction: a probe's findings become a value a
/// test can read.
#[derive(Debug)]
pub struct Captured {
    /// Lines written, in order.
    pub lines: Vec<String>,
}

impl Captured {
    /// The lines as character sequences.
    pub open spec fn lines_view(&self) -> Seq<Seq<char>> {
        self.lines@.map_values(|s: String| s@)
    }

    /// The report as one string, as a reader would see it.
    pub fn text(&self) -> (joined: String)
        ensures
            joined@ == join_with(self.lines_view(), '\n'),
    {
        let mut joined = String::new();
        let mut index: usize = 0;
        while index < self.lines.len()
            invariant
                index <= self.lines.len(),
                joined@ == join_with(self.lines_view().take(index as int), '\n'),
            decreases self.lines.len() - index,
        {
            let ghost before = self.lines_view().take(index as int);
            if index > 0 {
                push_char(&mut joined, '\n');
            }
            push_str(&mut joined, self.lines[index].as_str());
            proof {
                let after = self.lines_view().take(index + 1);
                assert(after.drop_last() =~= before);
                if index == 0 {
                    assert(before =~= Seq::<Seq<char>>::empty());
                }
            }
            index = index + 1;
        }
        proof {
            assert(self.lines_view().take(self.lines.len() as int) =~= self.lines_view());
        }
        joined
    }
}

impl Default for Captured {
    fn default() -> (captured: Self)
        ensures
            captured.lines@.len() == 0,
    {
        Captured { lines: Vec::new() }
    }
}

impl Report for Captured {
    open spec fn emitted(&self) -> Seq<Seq<char>> {
        self.lines_view()
    }

    fn line(&mut self, text: &str) {
        self.lines.push(text.to_owned());
        assert(self.lines_view() =~= old(self).lines_view().push(text@));
    }
}

proof fn lemma_pieces_avoid(s: Seq<char>, sep: char, c: char)
    requires
        !s.contains(c),
    ensures
        forall|i: int| 0 <= i < split_on(s, sep).len() ==> !(#[trigger] split_on(s, sep)[i]).contains(c),
    decreases s.len(),
{
    lemma_split_on_shape(s, sep);
    if s.len() > 0 {
        assert(!s.drop_last().contains(c)) by {
            if s.drop_last().contains(c) {
                let k = choose|k: int| 0 <= k < s.drop_last().len() && s.drop_last()[k] == c;
                assert(s[k] == c);
            }
        }
        lemma_pieces_avoid(s.drop_last(), sep, c);
        lemma_split_on_shape(s.drop_last(), sep);
        let pieces = split_on(s.drop_last(), sep);
        if s.last() != sep {
            let last = pieces.last();
            assert forall|i: int| 0 <= i < split_on(s, sep).len() implies !(#[trigger] split_on(s, sep)[i]).contains(c) by {
                if i == pieces.len() - 1 {
                    assert(!last.contains(c));
                    if last.push(s.last()).contains(c) {
                        let k = choose|k: int| 0 <= k < last.push(s.last()).len() && last.push(s.last())[k] == c;
                        if k < last.len() {
                            assert(last[k] == c);
                        } else {
                            assert(s[s.len() - 1] == c);
                        }
                    }
                }
            }
        } else {
            assert forall|i: int| 0 <= i < split_on(s, sep).len() implies !(#[trigger] split_on(s, sep)[i]).contains(c) by {
                if i == pieces.len() {
                    assert(split_on(s, sep)[i] =~= Seq::<char>::empty());
                }
            }
        }
    }
}

proof fn lemma_join_split(s: Seq<char>, sep: char)
    ensures
        join_with(split_on(s, sep), sep) == s,
    decreases s.len(),
{
    if s.len() == 0 {
        assert(split_on(s, sep) =~= seq![Seq::<char>::empty()]);
        assert(s =~= Seq::<char>::empty());
    } else {
        let rest = s.drop_last();
        lemma_join_split(rest, sep);
        lemma_split_on_shape(rest, sep);
        let pieces = split_on(rest, sep);
        if s.last() == sep {
            let after = pieces.push(Seq::<char>::empty());
            assert(after.drop_last() =~= pieces);
            assert(join_with(after, sep) =~= join_with(pieces, sep).push(sep) + Seq::<char>::empty());
            assert(s =~= rest.push(sep));
        } else {
            let c = s.last();
            let after = pieces.update(pieces.len() - 1, pieces.last().push(c));
            if pieces.len() == 1 {
                assert(after.len() == 1);
                assert(join_with(after, sep) == after[0]);
                assert(join_with(pieces, sep) == pieces[0]);
                assert(s =~= rest.push(c));
            } else {
                assert(after.drop_last() =~= pieces.drop_last());
                assert(join_with(after, sep) == join_with(pieces.drop_last(), sep).push(sep) + pieces.last().push(c));
                assert(join_with(pieces, sep) == join_with(pieces.drop_last(), sep).push(sep) + pieces.last());
                assert(join_with(pieces.drop_last(), sep).push(sep) + pieces.last().push(c) =~= (join_with(
                    pieces.drop_last(),
                    sep,
                ).push(sep) + pieces.last()).push(c));
                assert(s =~= rest.push(c));
            }
        }
    }
}

/// Writing `block` into a fresh [`LineSink`] and finishing it emits the
/// lines `emit` does, for any block with no carriage return: the completed
/// lines, then what follows the last newline if anything does.
pub proof fn lemma_sink_matches_emit(block: Seq<char>)
    requires
        !block.contains('\r'),
    ensures
        lines_of(block) == completed_pieces(block, '\n') + (if trailing_piece(block, '\n').len() > 0 {
            seq![trailing_piece(block, '\n')]
        } else {
            Seq::<Seq<char>>::empty()
        }),
{
    lemma_pieces_avoid(block, '\n', '\r');
    lemma_split_on_shape(block, '\n');
    let closed = completed_pieces(block, '\n');
    assert forall|i: int| 0 <= i < closed.len() implies #[trigger] strip_cr(closed[i]) == closed[i] by {
        assert(closed[i] == split_on(block, '\n')[i]);
        assert(!closed[i].contains('\r'));
        if closed[i].len() > 0 {
            assert(closed[i][closed[i].len() - 1] != '\r');
        }
    }
    assert(closed.map_values(|line: Seq<char>| strip_cr(line)) =~= closed);
    if trailing_piece(block, '\n').len() > 0 {
        assert(closed.push(trailing_piece(block, '\n')) =~= closed + seq![trailing_piece(block, '\n')]);
    } else {
        assert(closed =~= closed + Seq::<Seq<char>>::empty());
    }
}

/// A block's final newline does not become an extra empty line: ending a
/// nonempty block with `\n` leaves its lines as they were.
pub proof fn lemma_trailing_newline_adds_no_line(block: Seq<char>)
    requires
        block.len() > 0,
        block.last() != '\n',
        block.last() != '\r',
    ensures
        lines_of(block.push('\n')) == lines_of(block),
{
    lemma_split_push(block, '\n', '\n');
    lemma_split_push(block.drop_last(), block.last(), '\n');
    assert(block.drop_last().push(block.last()) =~= block);
    let t = trailing_piece(block, '\n');
    assert(t.len() > 0 && t.last() == block.last());
    let closed = completed_pieces(block, '\n');
    assert(closed.push(t).map_values(|line: Seq<char>| strip_cr(line)) =~= closed.map_values(
        |line: Seq<char>| strip_cr(line),
    ).push(strip_cr(t)));
}

/// What a report holds after a block is emitted into it reads back as the
/// block, for any block with no carriage return and no final newline.
pub proof fn lemma_emitted_lines_read_back(block: Seq<char>)
    requires
        !block.contains('\r'),
        block.len() == 0 || block.last() != '\n',
    ensures
        join_with(lines_of(block), '\n') == block,
{
    lemma_sink_matches_emit(block);
    lemma_join_split(block, '\n');
    lemma_split_on_shape(block, '\n');
    let pieces = split_on(block, '\n');
    if block.len() == 0 {
        assert(pieces =~= seq![Seq::<char>::empty()]);
        assert(lines_of(block) =~= Seq::<Seq<char>>::empty());
        assert(block =~= Seq::<char>::empty());
    } else {
        lemma_split_push(block.drop_last(), block.last(), '\n');
        assert(block.drop_last().push(block.last()) =~= block);
        assert(trailing_piece(block, '\n').len() > 0);
        assert(pieces.drop_last() + seq![pieces.last()] =~= pieces);
    }
}

/// What a sink holding `held` emits, and then holds, as `writes` arrive one
/// after another through [`LineSink::write_text`] or `write_str`: each write
/// emits the lines it completes and holds what follows its last newline.
pub open spec fn sink_writes(held: Seq<char>, writes: Seq<Seq<char>>) -> (Seq<Seq<char>>, Seq<char>)
    decreases writes.len(),
{
    if writes.len() == 0 {
        (Seq::empty(), held)
    } else {
        let before = sink_writes(held, writes.drop_last());
        let step = before.1 + writes.last();
        (before.0 + completed_pieces(step, '\n'), trailing_piece(step, '\n'))
    }
}

/// The lines `emitted` followed, as [`LineSink::finish`] does, by the held
/// text `pending` when there is any.
pub open spec fn finished(emitted: Seq<Seq<char>>, pending: Seq<char>) -> Seq<Seq<char>> {
    if pending.len() == 0 {
        emitted
    } else {
        emitted.push(pending)
    }
}

/// However a text reaches a sink, as one write or cut into many, the sink
/// emits and holds the same: what cutting the held text and all the writes
/// together at every newline gives.
pub proof fn lemma_sink_writes_ignore_cuts(held: Seq<char>, writes: Seq<Seq<char>>)
    requires
        !held.contains('\n'),
    ensures
        sink_writes(held, writes) == (
        completed_pieces(held + writes.flatten(), '\n'),
        trailing_piece(held + writes.flatten(), '\n'),
        ),
    decreases writes.len(),
{
    writes.lemma_flatten_and_flatten_alt_are_equivalent();
    if writes.len() == 0 {
        crate::text::lemma_split_without_sep(held, '\n');
        assert(held + writes.flatten() =~= held);
        assert(completed_pieces(held, '\n') =~= Seq::<Seq<char>>::empty());
    } else {
        lemma_sink_writes_ignore_cuts(held, writes.drop_last());
        writes.drop_last().lemma_flatten_and_flatten_alt_are_equivalent();
        let p = held + writes.drop_last().flatten();
        crate::text::lemma_split_append(p, writes.last(), '\n');
        assert(p + writes.last() =~= held + writes.flatten());
    }
}

/// Writing a block into a fresh [`LineSink`] in any number of pieces and
/// then finishing it emits exactly the lines [`emit`] emits for the whole
/// block, for any block with no carriage return.
pub proof fn lemma_any_split_emits_as_emit(writes: Seq<Seq<char>>)
    requires
        !writes.flatten().contains('\r'),
    ensures
        finished(sink_writes(Seq::empty(), writes).0, sink_writes(Seq::empty(), writes).1) == lines_of(
            writes.flatten(),
        ),
{
    let block = writes.flatten();
    assert(!Seq::<char>::empty().contains('\n'));
    lemma_sink_writes_ignore_cuts(Seq::empty(), writes);
    assert(Seq::<char>::empty() + block =~= block);
    lemma_sink_matches_emit(block);
    let closed = completed_pieces(block, '\n');
    let rest = trailing_piece(block, '\n');
    if rest.len() > 0 {
        assert(closed.push(rest) =~= closed + seq![rest]);
    } else {
        assert(closed =~= closed + Seq::<Seq<char>>::empty());
    }
}

/// Write a rendered block to `report`, one line at a time.
///
/// A trailing newline does not produce an extra empty line, and a `\r\n`
/// ending counts as a newline, exactly as `str::lines` reads a block.
pub fn emit<R: Report>(report: &mut R, block: &str)
    ensures
        final(report).emitted() == old(report).emitted() + lines_of(block@),
{
    let ghost start = report.emitted();
    // The trailing piece is `current` followed by a `\r` when `held_cr` is
    // set; the `\r` is held back until it is known not to end the line.
    let mut current = String::new();
    let mut held_cr = false;
    let ghost mut seen: Seq<char> = Seq::empty();
    for c in it: block.chars()
        invariant
            seen == it.seq().take(it.index() as int),
            it.seq() == block@,
            trailing_piece(seen, '\n') == (if held_cr { current@.push('\r') } else { current@ }),
            !held_cr ==> (current@.len() == 0 || current@.last() != '\r'),
            report.emitted() == start + completed_pieces(seen, '\n').map_values(
                |line: Seq<char>| strip_cr(line),
            ),
    {
        proof {
            lemma_split_push(seen, c, '\n');
        }
        let ghost before = seen;
        proof {
            seen = seen.push(c);
            assert(seen =~= it.seq().take(it.index() + 1));
        }
        if c == '\n' {
            proof {
                if held_cr {
                    assert(current@.push('\r').drop_last() =~= current@);
                }
            }
            report.line(current.as_str());
            current = String::new();
            held_cr = false;
            proof {
                let old_lines = completed_pieces(before, '\n');
                assert(old_lines.push(trailing_piece(before, '\n')).map_values(
                    |line: Seq<char>| strip_cr(line),
                ) =~= old_lines.map_values(|line: Seq<char>| strip_cr(line)).push(
                    strip_cr(trailing_piece(before, '\n')),
                ));
            }
        } else if c == '\r' {
            if held_cr {
                push_char(&mut current, '\r');
            }
            held_cr = true;
        } else {
            if held_cr {
                push_char(&mut current, '\r');
            }
            push_char(&mut current, c);
            held_cr = false;
        }
    }
    if held_cr {
        push_char(&mut current, '\r');
    }
    proof {
        assert(seen =~= block@);
    }
    if !current.as_str().is_empty() {
        report.line(current.as_str());
    }
}

/// The error `fmt::Write` can report, named so that `write_str` can return
/// `fmt::Result`.
#[verifier::external_type_specification]
#[verifier::external_body]
pub struct ExFmtError(std::fmt::Error);

/// A [`Report`] a renderer can `write!` into directly.
///
/// `write_str` receives whatever slices the formatting machinery hands it, so
/// this holds a partial line until a `\n` arrives and emits exactly the
/// completed ones. [`LineSink::finish`] emits a final line that has no
/// newline after it.
pub struct LineSink<'a, R: Report> {
    report: &'a mut R,
    partial: String,
}

impl<'a, R: Report> LineSink<'a, R> {
    /// The text written since the last newline, not yet emitted.
    pub closed spec fn pending(&self) -> Seq<char> {
        self.partial@
    }

    /// The report the sink writes into, as it stands now.
    pub closed spec fn target(&self) -> R {
        *self.report
    }

    /// The borrow of the report the sink writes into.
    pub closed spec fn lent(&self) -> &'a mut R {
        self.report
    }

    /// What the report holds once the pending text is emitted.
    pub open spec fn flushed(&self) -> Seq<Seq<char>> {
        finished(self.target().emitted(), self.pending())
    }

    /// Wrap a [`Report`] so renderers can write formatted text into it.
    pub fn new(report: &'a mut R) -> (sink: Self)
        ensures
            sink.pending() == Seq::<char>::empty(),
            sink.target() == *old(report),
            *final(sink.lent()) == *final(report),
    {
        LineSink { report, partial: String::new() }
    }

    /// Write `text`: every line it completes is emitted, and what follows its
    /// last newline is held.
    pub fn write_text(&mut self, text: &str)
        ensures
            !old(self).pending().contains('\n') ==> {
                &&& final(self).target().emitted() == old(self).target().emitted()
                    + completed_pieces(old(self).pending() + text@, '\n')
                &&& final(self).pending() == trailing_piece(old(self).pending() + text@, '\n')
            },
            !old(self).pending().contains('\n') ==> !final(self).pending().contains('\n'),
            *final(final(self).lent()) == *final(old(self).lent()),
            final(self).target() == *final(self).lent(),
    {
        let ghost start = self.report.emitted();
        let ghost held = self.partial@;
        let ghost mut seen: Seq<char> = held;
        proof {
            if !held.contains('\n') {
                crate::text::lemma_split_without_sep(held, '\n');
                assert(completed_pieces(held, '\n') =~= Seq::<Seq<char>>::empty());
            }
        }
        for c in it: text.chars()
            invariant
                it.seq() == text@,
                seen == held + it.seq().take(it.index() as int),
                *final(self.report) == *final(old(self).report),
                !held.contains('\n') ==> {
                    &&& self.report.emitted() == start + completed_pieces(seen, '\n')
                    &&& self.partial@ == trailing_piece(seen, '\n')
                },
        {
            proof {
                lemma_split_push(seen, c, '\n');
                seen = seen.push(c);
                assert(seen =~= held + it.seq().take(it.index() + 1));
            }
            if c == '\n' {
                self.report.line(self.partial.as_str());
                self.partial = String::new();
            } else {
                push_char(&mut self.partial, c);
            }
        }
        proof {
            assert(seen =~= held + text@);
            lemma_split_on_shape(seen, '\n');
        }
    }

    /// Emit any text written since the last newline.
    ///
    /// Idempotent: a second call with nothing held emits nothing.
    pub fn finish(&mut self)
        ensures
            final(self).pending() == Seq::<char>::empty(),
            old(self).pending().len() == 0 ==> final(self).target().emitted() == old(
                self,
            ).target().emitted(),
            old(self).pending().len() > 0 ==> final(self).target().emitted() == old(
                self,
            ).target().emitted().push(old(self).pending()),
            *final(final(self).lent()) == *final(old(self).lent()),
            final(self).target() == *final(self).lent(),
    {
        if !self.partial.as_str().is_empty() {
            self.report.line(self.partial.as_str());
            self.partial = String::new();
        }
    }
}

impl<'a, R: Report> std::fmt::Write for LineSink<'a, R> {
    fn write_str(&mut self, text: &str) -> (r: std::fmt::Result)
        ensures
            r is Ok,
            !old(self).pending().contains('\n') ==> {
                &&& final(self).target().emitted() == old(self).target().emitted()
                    + completed_pieces(old(self).pending() + text@, '\n')
                &&& final(self).pending() == trailing_piece(old(self).pending() + text@, '\n')
            },
            !old(self).pending().contains('\n') ==> !final(self).pending().contains('\n'),
            *final(final(self).lent()) == *final(old(self).lent()),
            final(self).target() == *final(self).lent(),
    {
        self.write_text(text);
        Ok(())
    }
}

} // verus!
verus! {

/// Render a report straight into `report`, a line at a time as it is produced.
///
/// The renderer writes into a [`LineSink`], so each completed line reaches
/// `report` as it is composed rather than when the renderer returns, and a
/// final line the renderer left without a newline is emitted at the end.
///
/// `render` runs once, on a sink that holds no text and writes into `report`
/// as it stood. When the renderer returns with its sink still writing into
/// the borrow it was handed, `report` ends holding what the sink had emitted
/// and then the renderer's unterminated last line, if it left one. Every
/// renderer meets that condition: the sink's lifetime is one the renderer
/// may borrow under but cannot name, so it has no other borrow of that
/// lifetime to put in its place. The condition stays in the contract
/// because a caller's proof sees the renderer only through its
/// `call_ensures`, which admits any sink afterwards.
pub fn emit_report_to<R: Report, F: FnOnce(&mut LineSink<'_, R>)>(report: &mut R, render: F)
    requires
        forall|sink: &mut LineSink<'_, R>| call_requires(render, (sink,)),
    ensures
        exists|sink: &mut LineSink<'_, R>| {
            &&& call_ensures(render, (sink,), ())
            &&& sink.pending() == Seq::<char>::empty()
            &&& sink.target() == *old(report)
            &&& *final(sink.lent()) == *final(report)
            &&& *final((*final(sink)).lent()) == *final(sink.lent()) ==> final(report).emitted() == (
            *final(sink)).flushed()
        },
{
    let mut sink = LineSink::new(report);
    render(&mut sink);
    sink.finish();
}

/// Render a report straight to standard output, a line at a time as it is
/// produced, so the lines already finished survive whatever the renderer
/// does next.
pub fn emit_report<F: FnOnce(&mut LineSink<'_, Stdout>)>(render: F)
    requires
        forall|sink: &mut LineSink<'_, Stdout>| call_requires(render, (sink,)),
    ensures
        exists|sink: &mut LineSink<'_, Stdout>| {
            &&& call_ensures(render, (sink,), ())
            &&& sink.pending() == Seq::<char>::empty()
            &&& sink.target().emitted() == Seq::<Seq<char>>::empty()
        },
{
    let mut out = Stdout::new();
    emit_report_to(&mut out, render);
}

} // verus!
