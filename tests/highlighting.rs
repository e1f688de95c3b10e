use owo_colors::{AnsiColors, OwoColorize};
use recolor::highlight::{spans_from_captures, Highlighter};
use recolor::render::{render, Span};
use recolor::style::{default_style, parse_style, Color, ConfigError, Style};

fn palette(i: usize) -> owo_colors::Style {
    let all = [
        owo_colors::Style::new().red(),
        owo_colors::Style::new().green(),
        owo_colors::Style::new().yellow(),
        owo_colors::Style::new().blue(),
        owo_colors::Style::new().magenta(),
        owo_colors::Style::new().cyan(),
        owo_colors::Style::new().white(),
    ];
    all[i % all.len()]
}

fn run(args: &[&str], input: &str) -> String {
    let styles: Vec<String> = args[1..].iter().map(|s| s.to_string()).collect();
    let h = Highlighter::new(args[0], &styles).expect("valid configuration");
    let mut out = String::new();
    for line in input.lines() {
        out.push_str(&h.highlight_line(line));
    }
    out
}

#[test]
fn single_match() {
    assert_eq!(
        run(&["(foo)"], "hello foo"),
        format!("hello {}\n", "foo".style(palette(1)))
    );
}

#[test]
fn multiple_match() {
    assert_eq!(
        run(&["(foo)(bar)"], "hello foobar"),
        format!("hello {}{}\n", "foo".style(palette(1)), "bar".style(palette(2)))
    );
}

#[test]
fn named_matches() {
    assert_eq!(
        run(&["(?P<foo>foo)(?P<bar>bar)", "foo=green", "bar=red"], "hello foobar"),
        format!(
            "hello {}{}\n",
            "foo".style(owo_colors::Style::new().green()),
            "bar".style(owo_colors::Style::new().red())
        )
    );
}

#[test]
fn multiple_single_match() {
    assert_eq!(
        run(&["(5)"], "12345 12345 12345"),
        format!("1234{0} 1234{0} 1234{0}\n", "5".style(palette(1)))
    );
}

#[test]
fn no_matches() {
    assert_eq!(run(&["(5)"], "hello world"), "hello world\n");
}

#[test]
fn css_colors() {
    assert_eq!(
        run(&["(?P<five>5)", "five=#ff0000,underline"], "12345 12345 12345"),
        format!(
            "1234{0} 1234{0} 1234{0}\n",
            "5".style(owo_colors::Style::new().truecolor(255, 0, 0).underline())
        )
    );
}

#[test]
fn regex_with_non_capture_group_component() {
    assert_eq!(
        run(&["123(5)"], "12345 12345 1235"),
        format!("12345 12345 123{0}\n", "5".style(palette(1)))
    );
}

#[test]
fn capture_group_inside_another_capture_group() {
    assert_eq!(
        run(&["12(3(5))"], "12345 12345 1235"),
        format!("12345 12345 12{}{}\n", "3".style(palette(1)), "5".style(palette(2)))
    );
}

#[test]
fn nested_group_exact_line() {
    assert_eq!(
        run(&["12(3(5))"], "1235"),
        format!("12{}{}\n", "3".style(palette(1)), "5".style(palette(2)))
    );
}

#[test]
fn nested_outer_style_resumes_after_inner() {
    assert_eq!(
        run(&["a(b(c)d)e"], "abcde"),
        format!(
            "a{}{}{}e\n",
            "b".style(palette(1)),
            "c".style(palette(2)),
            "d".style(palette(1))
        )
    );
}

#[test]
fn multibyte_text_keeps_boundaries() {
    assert_eq!(
        run(&["(é+)"], "café éé!"),
        format!("caf{} {}!\n", "é".style(palette(1)), "éé".style(palette(1)))
    );
}

#[test]
fn no_capture_pattern_leaves_line() {
    assert_eq!(run(&["foo"], "a foo b foo"), "a foo b foo\n");
}

#[test]
fn default_palette_is_deterministic() {
    let first = run(&["(a)(b)(c)(d)(e)(f)(g)(h)"], "abcdefgh");
    let second = run(&["(a)(b)(c)(d)(e)(f)(g)(h)"], "abcdefgh");
    assert_eq!(first, second);
    assert!(first.contains(&format!("{}", "h".style(palette(8)))));
}

#[test]
fn palette_cycles_by_group_index() {
    assert_eq!(default_style(8), default_style(1));
    assert_eq!(default_style(0).fg, Some(Color::Ansi(AnsiColors::Red)));
    assert_eq!(default_style(6).fg, Some(Color::Ansi(AnsiColors::White)));
}

#[test]
fn invalid_style_token() {
    let styles = vec!["foo=purple".to_string()];
    match Highlighter::new("(?P<foo>foo)", &styles) {
        Err(e) => assert_eq!(e, ConfigError::InvalidStyle("purple".to_string())),
        Ok(_) => panic!("purple is not a style"),
    }
}

#[test]
fn invalid_hex_length() {
    assert_eq!(
        parse_style("#ff00"),
        Err(ConfigError::InvalidHex("#ff00".to_string()))
    );
}

#[test]
fn invalid_hex_digit() {
    assert_eq!(
        parse_style("bold,#gg0000"),
        Err(ConfigError::InvalidHex("bold,#gg0000".to_string()))
    );
}

#[test]
fn malformed_assignment() {
    let styles = vec!["foo".to_string()];
    match Highlighter::new("(foo)", &styles) {
        Err(e) => assert_eq!(e, ConfigError::MalformedAssignment("foo".to_string())),
        Ok(_) => panic!("an assignment needs '='"),
    }
}

#[test]
fn invalid_regex_reported_first() {
    let styles = vec!["foo".to_string()];
    match Highlighter::new("(", &styles) {
        Err(e) => assert_eq!(e, ConfigError::InvalidRegex("(".to_string())),
        Ok(_) => panic!("an unclosed group is not a pattern"),
    }
}

#[test]
fn empty_token_is_invalid() {
    assert_eq!(parse_style("red,"), Err(ConfigError::InvalidStyle("red,".to_string())));
}

#[test]
fn later_color_wins_and_effects_accumulate() {
    let st = parse_style("bold,red,green,strike").unwrap();
    let mut want = Style::new();
    want.fg = Some(Color::Ansi(AnsiColors::Green));
    want.bold = true;
    want.strikethrough = true;
    assert_eq!(st, want);
}

#[test]
fn hex_literal_parses_bytes() {
    let st = parse_style("#0aFf10").unwrap();
    assert_eq!(st.fg, Some(Color::Rgb(10, 255, 16)));
}

#[test]
fn synonyms_are_accepted() {
    let st = parse_style("bolded,dim,italics,underlined,blinking,hidden,struckthrough").unwrap();
    assert!(st.bold && st.dimmed && st.italic && st.underline && st.blink && st.hidden);
    assert!(st.strikethrough);
    assert_eq!(st.fg, None);
}

#[test]
fn render_without_spans_is_pass_through() {
    assert_eq!(render("plain line", &vec![]), "plain line\n");
    assert_eq!(render("", &vec![]), "\n");
}

#[test]
fn render_single_span_paints_only_its_text() {
    let st = default_style(1);
    let spans = vec![Span { start: 2, end: 4, style: st }];
    assert_eq!(
        render("abcdef", &spans),
        format!("ab{}ef\n", "cd".style(palette(1)))
    );
}

#[test]
fn render_adjacent_spans() {
    let spans = vec![
        Span { start: 0, end: 2, style: default_style(1) },
        Span { start: 2, end: 3, style: default_style(2) },
    ];
    assert_eq!(
        render("abc", &spans),
        format!("{}{}\n", "ab".style(palette(1)), "c".style(palette(2)))
    );
}

#[test]
fn named_group_without_entry_uses_palette() {
    assert_eq!(
        run(&["(?P<x>a)(?P<y>b)", "y=blue"], "ab"),
        format!("{}{}\n", "a".style(palette(1)), "b".style(owo_colors::Style::new().blue()))
    );
}

#[test]
fn last_assignment_for_a_name_wins() {
    assert_eq!(
        run(&["(?P<x>a)", "x=red", "x=cyan"], "a"),
        format!("{}\n", "a".style(owo_colors::Style::new().cyan()))
    );
}

#[test]
fn spans_follow_match_then_group_order() {
    let caps = vec![
        vec![Some((0, 3)), Some((0, 1)), None, Some((2, 3))],
        vec![Some((4, 5)), Some((4, 5)), Some((5, 5)), None],
    ];
    let spans = spans_from_captures(&caps, &vec![], &vec![]);
    assert_eq!(spans.len(), 4);
    assert_eq!((spans[0].start, spans[0].end), (0, 1));
    assert_eq!(spans[1].style, default_style(3));
    assert_eq!((spans[2].start, spans[2].end), (4, 5));
    assert_eq!((spans[3].start, spans[3].end, spans[3].style), (5, 5, default_style(2)));
}
