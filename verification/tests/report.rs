use std::fmt::Write;

use windows_platform_probes::report::{emit, emit_report_to, Captured, LineSink, Report};

#[test]
fn a_line_sink_emits_one_line_per_newline() {
    let mut captured = Captured::default();
    {
        let mut sink = LineSink::new(&mut captured);
        sink.write_str("header\n").expect("writing to a line sink cannot fail");
        sink.write_str(&format!("row {}\n", 1)).expect("writing to a line sink cannot fail");
        sink.write_str(&format!("row {}\n", 2)).expect("writing to a line sink cannot fail");
        sink.finish();
    }

    assert_eq!(captured.lines, ["header", "row 1", "row 2"]);
}

#[test]
fn a_line_sink_joins_fragments_written_below_a_line() {
    let mut captured = Captured::default();
    {
        let mut sink = LineSink::new(&mut captured);
        sink.write_str("one ").expect("writing to a line sink cannot fail");
        sink.write_str("two ").expect("writing to a line sink cannot fail");
        sink.write_str("three\n").expect("writing to a line sink cannot fail");
        sink.finish();
    }

    assert_eq!(captured.lines, ["one two three"]);
}

#[test]
fn a_line_sink_splits_a_multi_line_write() {
    let mut captured = Captured::default();
    {
        let mut sink = LineSink::new(&mut captured);
        sink.write_str("a\nb\nc\n").expect("writing to a line sink cannot fail");
        sink.finish();
    }

    assert_eq!(captured.lines, ["a", "b", "c"]);
}

#[test]
fn a_line_sink_emits_a_final_line_that_has_no_newline() {
    let mut captured = Captured::default();
    {
        let mut sink = LineSink::new(&mut captured);
        sink.write_str("kept\n").expect("writing to a line sink cannot fail");
        sink.write_str("also kept").expect("writing to a line sink cannot fail");
        sink.finish();
    }

    assert_eq!(captured.lines, ["kept", "also kept"]);
}

#[test]
fn finishing_a_line_sink_twice_adds_nothing() {
    let mut captured = Captured::default();
    {
        let mut sink = LineSink::new(&mut captured);
        sink.write_str("only\n").expect("writing to a line sink cannot fail");
        sink.finish();
        sink.finish();
    }

    assert_eq!(captured.lines, ["only"]);
}

#[test]
fn a_line_sink_preserves_a_blank_line() {
    let mut captured = Captured::default();
    {
        let mut sink = LineSink::new(&mut captured);
        sink.write_str("section\n").expect("writing to a line sink cannot fail");
        sink.write_str("\n").expect("writing to a line sink cannot fail");
        sink.write_str("next\n").expect("writing to a line sink cannot fail");
        sink.finish();
    }

    assert_eq!(captured.lines, ["section", "", "next"]);
}

#[test]
fn a_line_sink_matches_what_emit_produces_for_the_same_text() {
    let block = "header\n\nrow 1\nrow 2\ntrailing";

    let mut through_emit = Captured::default();
    emit(&mut through_emit, block);

    let mut through_sink = Captured::default();
    {
        let mut sink = LineSink::new(&mut through_sink);
        sink.write_str(block).expect("writing to a line sink cannot fail");
        sink.finish();
    }

    assert_eq!(through_sink.lines, through_emit.lines);
}

#[test]
fn a_captured_report_keeps_its_lines_in_order() {
    let mut captured = Captured::default();
    captured.line("header");
    captured.line("row one");
    captured.line("row two");

    assert_eq!(captured.lines, ["header", "row one", "row two"]);
    assert_eq!(captured.text(), "header\nrow one\nrow two");
}

#[test]
fn emitting_a_block_gives_the_report_one_line_at_a_time() {
    let mut captured = Captured::default();
    emit(&mut captured, "one\ntwo\nthree");

    assert_eq!(captured.lines, ["one", "two", "three"]);
}

#[test]
fn a_trailing_newline_does_not_become_an_extra_blank_line() {
    let mut with = Captured::default();
    let mut without = Captured::default();
    emit(&mut with, "one\ntwo\n");
    emit(&mut without, "one\ntwo");

    assert_eq!(with.lines, without.lines);
}

#[test]
fn an_interior_blank_line_survives() {
    let mut captured = Captured::default();
    emit(&mut captured, "section\n\nnext");

    assert_eq!(captured.lines, ["section", "", "next"]);
}

#[test]
fn a_renderer_that_returns_normally_reports_every_line_and_does_not_panic() {
    let mut captured = Captured::default();

    emit_report_to(&mut captured, |out| {
        let _ = out.write_str("first\n");
        let _ = out.write_str("second\n");
    });

    assert_eq!(captured.lines, ["first", "second"]);
}

#[test]
fn a_crlf_block_emits_the_lines_without_their_carriage_returns() {
    let mut captured = Captured::default();
    emit(&mut captured, "one\r\ntwo\r\n\r\nthree\r");

    assert_eq!(captured.lines, ["one", "two", "", "three\r"]);
}

#[test]
fn an_empty_block_emits_nothing() {
    let mut captured = Captured::default();
    emit(&mut captured, "");

    assert!(captured.lines.is_empty());
    assert_eq!(captured.text(), "");
}

#[test]
fn every_cut_of_a_block_into_writes_emits_what_emit_does() {
    let block = "header\n\nrow 1\nrow 2\ntrailing";
    let mut expected = Captured::default();
    emit(&mut expected, block);
    for first in 0..=block.len() {
        for second in first..=block.len() {
            let mut captured = Captured::default();
            {
                let mut sink = LineSink::new(&mut captured);
                assert!(sink.write_str(&block[..first]).is_ok());
                assert!(sink.write_str(&block[first..second]).is_ok());
                assert!(sink.write_str(&block[second..]).is_ok());
                sink.finish();
            }
            assert_eq!(captured.lines, expected.lines, "cut at {first} and {second}");
        }
    }
    assert_eq!(expected.lines, ["header", "", "row 1", "row 2", "trailing"]);
}
