use prover_input::lines::{read_first_line, read_lines, split_first_line};

fn std_lines(s: &str) -> Vec<String> {
    std::io::BufRead::lines(s.as_bytes()).map(|l| l.unwrap()).collect()
}

fn std_first_line(s: &str) -> String {
    let mut line = String::new();
    std::io::BufRead::read_line(&mut s.as_bytes(), &mut line).unwrap();
    line.trim_end().to_string()
}

const FILES: [&str; 16] = [
    "",
    "\n",
    "\n\n",
    "0x01",
    "0x01\n",
    "0x01\r\n",
    "0x01 \t\n",
    "  0x01\n",
    "0x02\n0x03\n",
    "0x02\n0x03",
    "0\n1\n1\n",
    "a\n\nb\n",
    "a\n\n",
    "a\r\nb\r\n",
    "a\r",
    "a\r\r\nb\u{3000}\n\u{a0}",
];

#[test]
fn scalar_round_trip() {
    for s in ["0x01", "abc", "0x0000000000000000000000000000000000000000000000000000000000000005", "a b"] {
        assert_eq!(read_first_line(s), s);
        assert_eq!(read_first_line(&format!("{}\n", s)), s);
        assert_eq!(read_first_line(&format!("{}\r\n", s)), s);
        assert_eq!(read_first_line(&format!("{} \t \n \n", s)), s);
    }
}

#[test]
fn first_line_ignores_later_lines() {
    assert_eq!(read_first_line("0x01\n0x02\n"), "0x01");
}

#[test]
fn first_line_keeps_leading_whitespace() {
    assert_eq!(read_first_line("  0x01 \n"), "  0x01");
}

#[test]
fn first_line_of_empty_file_is_empty() {
    assert_eq!(read_first_line(""), "");
    assert_eq!(read_first_line("\n0x01\n"), "");
    assert_eq!(read_first_line("   \n"), "");
}

#[test]
fn first_line_agrees_with_std() {
    for s in FILES {
        assert_eq!(read_first_line(s), std_first_line(s), "{:?}", s);
    }
}

#[test]
fn sequence_order_preservation() {
    assert_eq!(read_lines("l1\nl2\nl3\n"), vec!["l1", "l2", "l3"]);
    assert_eq!(read_lines("l3\nl1\nl2\n"), vec!["l3", "l1", "l2"]);
    let lines = read_lines("0\n1\n1\n");
    assert_eq!(lines.len(), 3);
    assert_eq!(lines, vec!["0", "1", "1"]);
}

#[test]
fn lines_of_empty_file_are_none() {
    assert_eq!(read_lines(""), Vec::<String>::new());
}

#[test]
fn last_line_needs_no_line_feed() {
    assert_eq!(read_lines("0x02\n0x03"), vec!["0x02", "0x03"]);
    assert_eq!(read_lines("0x02"), vec!["0x02"]);
}

#[test]
fn final_line_feed_starts_no_line() {
    assert_eq!(read_lines("0x02\n0x03\n"), vec!["0x02", "0x03"]);
}

#[test]
fn empty_lines_are_kept() {
    assert_eq!(read_lines("a\n\nb\n"), vec!["a", "", "b"]);
    assert_eq!(read_lines("a\n\n"), vec!["a", ""]);
    assert_eq!(read_lines("\n"), vec![""]);
}

#[test]
fn carriage_return_before_line_feed_is_dropped() {
    assert_eq!(read_lines("a\r\nb\r\n"), vec!["a", "b"]);
    assert_eq!(read_lines("a\r\r\n"), vec!["a\r"]);
}

#[test]
fn carriage_return_without_line_feed_is_kept() {
    assert_eq!(read_lines("a\r"), vec!["a\r"]);
    assert_eq!(read_lines("a\rb\n"), vec!["a\rb"]);
}

#[test]
fn lines_are_not_trimmed() {
    assert_eq!(read_lines("  a \n\tb\t\n"), vec!["  a ", "\tb\t"]);
}

#[test]
fn lines_agree_with_std() {
    for s in FILES {
        assert_eq!(read_lines(s), std_lines(s), "{:?}", s);
    }
}

#[test]
fn split_first_line_gives_line_and_rest() {
    let s: Vec<char> = "ab\r\ncd\n".chars().collect();
    let (line, rest) = split_first_line(&s).unwrap();
    assert_eq!(line, &['a', 'b']);
    assert_eq!(rest, &['c', 'd', '\n']);
    let (line, rest) = split_first_line(rest).unwrap();
    assert_eq!(line, &['c', 'd']);
    assert_eq!(rest.len(), 0);
    assert_eq!(split_first_line(rest), None);
}

#[test]
fn split_first_line_without_line_feed_takes_all() {
    let s: Vec<char> = "ab\r".chars().collect();
    let (line, rest) = split_first_line(&s).unwrap();
    assert_eq!(line, &['a', 'b', '\r']);
    assert_eq!(rest.len(), 0);
}
