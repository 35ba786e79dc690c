use my_penrose::text::{chars_of, is_whitespace_char, split, split_words, Separator};

fn std_words(s: &str) -> Vec<String> {
    s.split_whitespace().map(|w| w.to_string()).collect()
}

fn std_fields(s: &str, sep: char) -> Vec<String> {
    s.split(sep).map(|w| w.to_string()).collect()
}

#[test]
fn whitespace_agrees_with_std_on_every_char() {
    let mut n: u32 = 0;
    while n <= 0x10FFFF {
        if let Some(c) = char::from_u32(n) {
            assert_eq!(is_whitespace_char(c), c.is_whitespace(), "U+{:04X}", n);
        }
        n += 1;
    }
}

#[test]
fn whitespace_named_characters() {
    assert!(is_whitespace_char(' '));
    assert!(is_whitespace_char('\t'));
    assert!(is_whitespace_char('\n'));
    assert!(is_whitespace_char('\u{00A0}'));
    assert!(is_whitespace_char('\u{3000}'));
    assert!(!is_whitespace_char('a'));
    assert!(!is_whitespace_char('-'));
    assert!(!is_whitespace_char('\u{180E}'));
    assert!(!is_whitespace_char('\u{200B}'));
}

#[test]
fn chars_of_keeps_every_character() {
    assert_eq!(chars_of(""), Vec::<char>::new());
    assert_eq!(chars_of("a-b"), vec!['a', '-', 'b']);
    assert_eq!(chars_of("né é"), vec!['n', 'é', ' ', 'é']);
}

#[test]
fn words_of_a_command() {
    assert_eq!(
        split_words("feh --bg-fill /home/niloco/pics/pawel-blue.jpg"),
        vec!["feh", "--bg-fill", "/home/niloco/pics/pawel-blue.jpg"]
    );
    assert_eq!(split_words("picom"), vec!["picom"]);
}

#[test]
fn words_skip_runs_of_white_space() {
    assert_eq!(split_words("  a \t\t b\n"), vec!["a", "b"]);
    assert_eq!(split_words("a\u{00A0}b\u{2003}c"), vec!["a", "b", "c"]);
}

#[test]
fn words_of_blank_text_are_none() {
    assert_eq!(split_words(""), Vec::<String>::new());
    assert_eq!(split_words("   "), Vec::<String>::new());
    assert_eq!(split_words("\t\n"), Vec::<String>::new());
}

#[test]
fn words_agree_with_std() {
    let samples = [
        "",
        " ",
        "a",
        " a",
        "a ",
        "a b",
        "a  b",
        "rofi -no-lazy-grab -show run",
        "pamixer --source 1 -t",
        "brightnessctl set 2%-",
        "\tx\ty\t",
        "é è\u{2028}ê",
        "one\u{0085}two",
    ];
    for s in samples.iter() {
        assert_eq!(split_words(s), std_words(s), "{:?}", s);
    }
}

#[test]
fn fields_keep_empty_stretches() {
    assert_eq!(split("", Separator::Char('-')), vec![""]);
    assert_eq!(split("-", Separator::Char('-')), vec!["", ""]);
    assert_eq!(split("M-", Separator::Char('-')), vec!["M", ""]);
    assert_eq!(split("-j", Separator::Char('-')), vec!["", "j"]);
    assert_eq!(split("M--j", Separator::Char('-')), vec!["M", "", "j"]);
    assert_eq!(split("M-S-j", Separator::Char('-')), vec!["M", "S", "j"]);
    assert_eq!(split("space", Separator::Char('-')), vec!["space"]);
}

#[test]
fn fields_agree_with_std() {
    let samples = ["", "-", "--", "a", "a-b", "-a-", "M-S-Return", "é-è", "a/b/c", "/", "//x"];
    for s in samples.iter() {
        assert_eq!(split(s, Separator::Char('-')), std_fields(s, '-'), "{:?}", s);
        assert_eq!(split(s, Separator::Char('/')), std_fields(s, '/'), "{:?}", s);
    }
}

#[test]
fn fields_at_white_space_keep_empty_stretches() {
    assert_eq!(split("a  b", Separator::Whitespace), vec!["a", "", "b"]);
    assert_eq!(split(" a", Separator::Whitespace), vec!["", "a"]);
}

#[test]
fn separator_test_matches_its_character() {
    assert!(Separator::Char('-').test('-'));
    assert!(!Separator::Char('-').test('_'));
    assert!(Separator::Whitespace.test(' '));
    assert!(!Separator::Whitespace.test('x'));
}
