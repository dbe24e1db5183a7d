use indenter::{indented, Error, Format, Indented, Inserter, InserterMut, Write};

/// A sink that takes a given number of writes and fails from then on.
struct Flaky {
    text: String,
    budget: usize,
    calls: usize,
}

impl Flaky {
    fn new(budget: usize) -> Flaky {
        Flaky { text: String::new(), budget, calls: 0 }
    }
}

impl Write for Flaky {
    fn write_str(&mut self, s: &str) -> Result<(), Error> {
        self.calls += 1;
        if self.budget == 0 {
            return Err(Error);
        }
        self.budget -= 1;
        self.text.push_str(s);
        Ok(())
    }
}

/// An inserter that writes `<n>` for line `n` and notes each call.
struct Recorder {
    lines: Vec<usize>,
    fail_at: Option<usize>,
}

impl Recorder {
    fn new() -> Recorder {
        Recorder { lines: Vec::new(), fail_at: None }
    }
}

impl<D: Write + ?Sized> Inserter<D> for Recorder {
    fn insert(&mut self, line: usize, f: &mut D) -> Result<(), Error> {
        self.lines.push(line);
        if self.fail_at == Some(line) {
            return Err(Error);
        }
        f.write_str(&format!("<{}>", line))
    }
}

fn write_all<D: Write + ?Sized>(w: &mut Indented<'_, D>, chunks: &[&str]) {
    for chunk in chunks {
        w.write_str(chunk).unwrap();
    }
}

#[test]
fn chunks_in_the_middle_of_lines() {
    let mut output = String::new();
    let mut w = indented(&mut output);
    write_all(&mut w, &["ver", "ify\nth", "is"]);
    assert_eq!("    verify\n    this", output);
}

#[test]
fn leading_blank_text_is_dropped() {
    let mut output = String::new();
    indented(&mut output).write_str("   \n\t\n  real text").unwrap();
    assert_eq!("    real text", output);
}

#[test]
fn leading_blank_text_gets_no_prefix() {
    let mut output = String::new();
    let mut rec = Recorder::new();
    indented(&mut output)
        .with_format(Format::Custom { inserter: InserterMut(&mut rec) })
        .write_str("   \n\t\n  real text")
        .unwrap();
    assert_eq!("<0>real text", output);
    assert_eq!(vec![0], rec.lines);
}

#[test]
fn blank_text_is_dropped_across_calls() {
    let mut output = String::new();
    let mut w = indented(&mut output).ind(7);
    write_all(&mut w, &["  ", "\n", "", " \n\n", "\t", " x", " y"]);
    assert_eq!("   7: x y", output);
}

#[test]
fn only_blank_text_writes_nothing() {
    let mut sink = Flaky::new(0);
    let mut w = indented(&mut sink);
    assert_eq!(Ok(()), w.write_str(" \n \t\n"));
    assert_eq!(Ok(()), w.write_str(""));
    assert_eq!(0, sink.calls);
    assert_eq!("", sink.text);
}

#[test]
fn empty_chunk_on_a_started_line() {
    let mut output = String::new();
    let mut w = indented(&mut output);
    write_all(&mut w, &["a", "", "b"]);
    assert_eq!("    ab", output);
}

#[test]
fn first_line_keeps_its_inner_and_trailing_space() {
    let mut output = String::new();
    indented(&mut output).write_str("  a b  \n  c  ").unwrap();
    assert_eq!("    a b  \n      c  ", output);
}

#[test]
fn empty_lines_are_indented_once_started() {
    let mut output = String::new();
    indented(&mut output)
        .with_format(Format::Uniform { indentation: "> " })
        .write_str("a\n\nb\n")
        .unwrap();
    assert_eq!("> a\n> \n> b\n> ", output);
}

#[test]
fn line_feed_at_the_start_of_a_later_chunk() {
    let mut output = String::new();
    let mut w = indented(&mut output).with_format(Format::Uniform { indentation: "- " });
    write_all(&mut w, &["a", "\n", "b", "\nc"]);
    assert_eq!("- a\n- b\n- c", output);
}

#[test]
fn uniform_marker_follows_every_line_feed() {
    let mut output = String::new();
    indented(&mut output)
        .with_format(Format::Uniform { indentation: ">> " })
        .write_str("a\nb\n\nc")
        .unwrap();
    assert_eq!(">> a\n>> b\n>> \n>> c", output);
}

#[test]
fn empty_marker_passes_text_on() {
    let mut output = String::new();
    indented(&mut output)
        .with_format(Format::Uniform { indentation: "" })
        .write_str(" a\n b")
        .unwrap();
    assert_eq!("a\n b", output);
}

#[test]
fn one_call_or_many_give_the_same() {
    let text = " \n  first line\n\nthird\n  fourth ";
    let cuts: [&[&str]; 4] = [
        &[" \n  first line\n\nthird\n  fourth "],
        &[" ", "\n", "  first", " line\n", "\nthird\n  fourth", " "],
        &[" \n  f", "irst line", "\n\n", "third\n", "  fourth "],
        &[" ", "\n", " ", " ", "f", "irst line\n\nthird\n  fourth", " "],
    ];
    let mut whole = String::new();
    indented(&mut whole).ind(3).write_str(text).unwrap();
    assert_eq!("   3: first line\n      \n      third\n        fourth ", whole);
    for chunks in cuts {
        assert_eq!(text, chunks.concat());
        let mut output = String::new();
        let mut w = indented(&mut output).ind(3);
        write_all(&mut w, chunks);
        assert_eq!(whole, output);
    }
}

#[test]
fn number_is_set_to_the_right() {
    let mut output = String::new();
    indented(&mut output).ind(0).write_str("a\nb").unwrap();
    assert_eq!("   0: a\n      b", output);

    let mut output = String::new();
    indented(&mut output).ind(123).write_str("a\nb").unwrap();
    assert_eq!(" 123: a\n      b", output);

    let mut output = String::new();
    indented(&mut output).ind(9999).write_str("a\nb").unwrap();
    assert_eq!("9999: a\n      b", output);
}

#[test]
fn wide_number_widens_the_padding() {
    let mut output = String::new();
    indented(&mut output).ind(12345).write_str("a\nb").unwrap();
    assert_eq!("12345: a\n       b", output);

    let mut output = String::new();
    indented(&mut output).ind(1000000).write_str("a\nb\nc").unwrap();
    assert_eq!("1000000: a\n         b\n         c", output);
}

#[test]
fn largest_number() {
    let mut output = String::new();
    indented(&mut output).ind(usize::MAX).write_str("a\nb").unwrap();
    let number = format!("{}: ", usize::MAX);
    let blank = " ".repeat(number.len());
    assert_eq!(format!("{}a\n{}b", number, blank), output);
}

#[test]
fn number_stands_on_the_first_line_only() {
    let mut output = String::new();
    let mut w = indented(&mut output).ind(5);
    write_all(&mut w, &["a\nb", "\nc\n", "d"]);
    assert_eq!("   5: a\n      b\n      c\n      d", output);
}

#[test]
fn custom_inserter_counts_lines_from_zero() {
    let mut output = String::new();
    let mut rec = Recorder::new();
    {
        let mut w =
            indented(&mut output).with_format(Format::Custom { inserter: InserterMut(&mut rec) });
        write_all(&mut w, &["\n\n a\nb", "c\n", "\nd", "", "\n"]);
    }
    assert_eq!("<0>a\n<1>bc\n<2>\n<3>d\n<4>", output);
    assert_eq!(vec![0, 1, 2, 3, 4], rec.lines);
}

#[test]
fn custom_inserter_is_not_asked_for_blank_text() {
    let mut output = String::new();
    let mut rec = Recorder::new();
    {
        let mut w =
            indented(&mut output).with_format(Format::Custom { inserter: InserterMut(&mut rec) });
        write_all(&mut w, &["  ", "\n", "\n \t"]);
    }
    assert_eq!("", output);
    assert!(rec.lines.is_empty());
}

#[test]
fn failure_of_the_sink_ends_the_call() {
    // The writes for "a\nb\nc": prefix, "a", "\n", prefix, "b", "\n", prefix, "c".
    let expected = ["", "> ", "> a", "> a\n", "> a\n> ", "> a\n> b", "> a\n> b\n", "> a\n> b\n> "];
    for budget in 0..8 {
        let mut sink = Flaky::new(budget);
        let res = indented(&mut sink)
            .with_format(Format::Uniform { indentation: "> " })
            .write_str("a\nb\nc");
        assert_eq!(Err(Error), res);
        assert_eq!(expected[budget], sink.text);
        assert_eq!(budget + 1, sink.calls);
    }
    let mut sink = Flaky::new(8);
    let res = indented(&mut sink)
        .with_format(Format::Uniform { indentation: "> " })
        .write_str("a\nb\nc");
    assert_eq!(Ok(()), res);
    assert_eq!("> a\n> b\n> c", sink.text);
    assert_eq!(8, sink.calls);
}

#[test]
fn failure_leaves_the_front_of_the_output() {
    let mut whole = String::new();
    indented(&mut whole).ind(42).write_str("one\ntwo\n\nthree").unwrap();
    assert_eq!("  42: one\n      two\n      \n      three", whole);
    let mut budget = 0;
    loop {
        let mut sink = Flaky::new(budget);
        let res = indented(&mut sink).ind(42).write_str("one\ntwo\n\nthree");
        assert!(whole.starts_with(&sink.text));
        if res.is_ok() {
            assert_eq!(whole, sink.text);
            break;
        }
        assert_eq!(budget + 1, sink.calls);
        budget += 1;
    }
}

#[test]
fn failure_of_the_inserter_ends_the_call() {
    let mut output = String::new();
    let mut rec = Recorder::new();
    rec.fail_at = Some(1);
    let res = indented(&mut output)
        .with_format(Format::Custom { inserter: InserterMut(&mut rec) })
        .write_str("a\nb\nc");
    assert_eq!(Err(Error), res);
    assert_eq!("<0>a\n", output);
    assert_eq!(vec![0, 1], rec.lines);
}

#[test]
fn unicode_white_space_is_dropped() {
    let mut output = String::new();
    indented(&mut output)
        .write_str(
            "\u{a0}\u{1680}\u{2003}\u{2028}\u{2029}\u{202f}\u{205f}\u{3000}\u{85}\r\u{b}\u{c}x",
        )
        .unwrap();
    assert_eq!("    x", output);
}

#[test]
fn other_invisible_characters_are_text() {
    for c in ['\u{200b}', '\u{180e}', '\u{feff}', '\u{1c}', '\u{8}', '\u{200e}'] {
        let mut output = String::new();
        let text = format!(" {}x", c);
        indented(&mut output).write_str(&text).unwrap();
        assert_eq!(format!("    {}x", c), output);
    }
}

#[test]
fn carriage_return_is_no_line_feed() {
    let mut output = String::new();
    indented(&mut output).write_str("a\r\nb\rc").unwrap();
    assert_eq!("    a\r\n    b\rc", output);
}

#[test]
fn text_beyond_ascii() {
    let mut output = String::new();
    let mut w = indented(&mut output).with_format(Format::Uniform { indentation: "→ " });
    write_all(&mut w, &["  héllo\nwörld", " ✓\n", "日本語"]);
    assert_eq!("→ héllo\n→ wörld ✓\n→ 日本語", output);
}

#[test]
fn format_set_after_the_start_holds_from_the_next_line() {
    let mut output = String::new();
    let mut w = indented(&mut output);
    w.write_str("a\nb").unwrap();
    let mut w = w.with_format(Format::Uniform { indentation: "--" });
    w.write_str("c\nd").unwrap();
    let mut w = w.ind(8);
    w.write_str("\ne").unwrap();
    assert_eq!("    a\n    bc\n--d\n      e", output);
}

#[test]
fn writers_nest() {
    let mut output = String::new();
    {
        let mut outer = indented(&mut output).with_format(Format::Uniform { indentation: "| " });
        let mut inner = indented(&mut outer).with_format(Format::Uniform { indentation: "- " });
        write_all(&mut inner, &["a\nb", "\nc"]);
    }
    assert_eq!("| - a\n| - b\n| - c", output);
}

#[test]
fn outer_writer_drops_blank_padding_in_front_of_its_first_line() {
    let mut output = String::new();
    {
        let mut outer = indented(&mut output).with_format(Format::Uniform { indentation: "| " });
        let mut inner = indented(&mut outer).ind(1);
        write_all(&mut inner, &["a\nb", "\nc"]);
    }
    assert_eq!("| 1: a\n|       b\n|       c", output);
}

#[test]
fn prefix_of_each_format() {
    let mut output = String::new();
    let mut uniform: Format<'_, String> = Format::Uniform { indentation: "ab" };
    uniform.insert_indentation(0, &mut output).unwrap();
    uniform.insert_indentation(17, &mut output).unwrap();
    assert_eq!("abab", output);

    let mut output = String::new();
    let mut numbered: Format<'_, String> = Format::Numbered { ind: 10 };
    numbered.insert_indentation(0, &mut output).unwrap();
    assert_eq!("  10: ", output);
    numbered.insert_indentation(1, &mut output).unwrap();
    assert_eq!("  10:       ", output);
    numbered.insert_indentation(usize::MAX, &mut output).unwrap();
    assert_eq!("  10:             ", output);

    let mut output = String::new();
    let mut rec = Recorder::new();
    let mut custom: Format<'_, String> = Format::Custom { inserter: InserterMut(&mut rec) };
    custom.insert_indentation(3, &mut output).unwrap();
    custom.insert_indentation(0, &mut output).unwrap();
    assert_eq!("<3><0>", output);
    assert_eq!(vec![3, 0], rec.lines);
}

#[test]
fn prefix_stops_where_the_sink_fails() {
    // The writes for the number 7: three spaces, "7", ": ".
    let expected = ["", "   ", "   7"];
    for budget in 0..3 {
        let mut sink = Flaky::new(budget);
        let mut numbered: Format<'_, Flaky> = Format::Numbered { ind: 7 };
        assert_eq!(Err(Error), numbered.insert_indentation(0, &mut sink));
        assert_eq!(expected[budget], sink.text);
    }
    let mut sink = Flaky::new(3);
    let mut numbered: Format<'_, Flaky> = Format::Numbered { ind: 7 };
    assert_eq!(Ok(()), numbered.insert_indentation(0, &mut sink));
    assert_eq!("   7: ", sink.text);
}

#[test]
fn string_takes_every_chunk() {
    let mut output = String::from("kept");
    assert_eq!(Ok(()), output.write_str(""));
    assert_eq!(Ok(()), Write::write_str(&mut output, " and more"));
    assert_eq!("kept and more", output);
}

#[test]
fn writer_adds_to_what_the_sink_holds() {
    let mut output = String::from("head:");
    indented(&mut output).write_str("a\nb").unwrap();
    assert_eq!("head:    a\n    b", output);
}

#[test]
fn white_space_is_what_the_standard_library_trims() {
    let listed = |c: char| {
        let u = c as u32;
        (0x09..=0x0D).contains(&u)
            || u == 0x20
            || u == 0x85
            || u == 0xA0
            || u == 0x1680
            || (0x2000..=0x200A).contains(&u)
            || u == 0x2028
            || u == 0x2029
            || u == 0x202F
            || u == 0x205F
            || u == 0x3000
    };
    let mut text = String::new();
    let mut output = String::new();
    let mut dropped = 0;
    for c in '\0'..=char::MAX {
        text.clear();
        text.push(c);
        text.push('x');
        output.clear();
        indented(&mut output)
            .with_format(Format::Uniform { indentation: "" })
            .write_str(&text)
            .unwrap();
        if listed(c) {
            dropped += 1;
            assert_eq!("x", output, "U+{:04X}", c as u32);
        } else {
            assert_eq!(text, output, "U+{:04X}", c as u32);
        }
    }
    assert_eq!(25, dropped);
}

#[test]
fn numbers_as_the_standard_library_formats_them() {
    let mut numbers: Vec<usize> = (0..12000).collect();
    let mut power: usize = 1;
    while let Some(next) = power.checked_mul(10) {
        numbers.extend([next - 1, next, next + 1]);
        power = next;
    }
    numbers.extend([usize::MAX - 1, usize::MAX]);
    for n in numbers {
        let mut output = String::new();
        indented(&mut output).ind(n).write_str("a\nb").unwrap();
        let number = format!("{: >4}: ", n);
        let blank = " ".repeat(number.chars().count());
        assert_eq!(format!("{}a\n{}b", number, blank), output);
    }
}

/// The text with its leading white space dropped, a prefix in front, and a
/// prefix behind every line feed; nothing for blank text.
fn expected_layout(text: &str, prefix: &dyn Fn(usize) -> String) -> String {
    let rest = text.trim_start();
    let mut out = String::new();
    if rest.is_empty() {
        return out;
    }
    let mut line = 0;
    out.push_str(&prefix(line));
    for c in rest.chars() {
        out.push(c);
        if c == '\n' {
            line += 1;
            out.push_str(&prefix(line));
        }
    }
    out
}

#[test]
fn random_texts_and_cuts() {
    let alphabet = ['a', 'b', ' ', ' ', '\n', '\n', '\t', 'é', '\u{2003}', '\r'];
    let mut seed: u64 = 0x2545F4914F6CDD1D;
    let mut next = move |bound: usize| {
        seed ^= seed << 13;
        seed ^= seed >> 7;
        seed ^= seed << 17;
        (seed % bound as u64) as usize
    };
    for round in 0..3000 {
        let len = next(24);
        let text: String = (0..len).map(|_| alphabet[next(alphabet.len())]).collect();
        let chars: Vec<char> = text.chars().collect();
        let mut chunks: Vec<String> = Vec::new();
        let mut at = 0;
        while at < chars.len() {
            let step = next(5).min(chars.len() - at);
            chunks.push(chars[at..at + step].iter().collect());
            at += step;
        }
        chunks.push(String::new());

        let mut output = String::new();
        {
            let mut w = indented(&mut output).with_format(Format::Uniform { indentation: "~~" });
            for chunk in &chunks {
                w.write_str(chunk).unwrap();
            }
        }
        assert_eq!(expected_layout(&text, &|_| String::from("~~")), output, "{:?}", text);

        let ind = round * 7;
        let mut output = String::new();
        {
            let mut w = indented(&mut output).ind(ind);
            for chunk in &chunks {
                w.write_str(chunk).unwrap();
            }
        }
        let number = format!("{: >4}: ", ind);
        let blank = " ".repeat(number.len());
        let numbered = |line: usize| if line == 0 { number.clone() } else { blank.clone() };
        assert_eq!(expected_layout(&text, &numbered), output, "{:?}", text);

        let mut output = String::new();
        let mut rec = Recorder::new();
        {
            let mut w = indented(&mut output)
                .with_format(Format::Custom { inserter: InserterMut(&mut rec) });
            for chunk in &chunks {
                w.write_str(chunk).unwrap();
            }
        }
        assert_eq!(expected_layout(&text, &|line| format!("<{}>", line)), output, "{:?}", text);
        let lines: Vec<usize> = (0..rec.lines.len()).collect();
        assert_eq!(lines, rec.lines);
    }
}
