use shortcuts::text::append;
use shortcuts::text::char_is_whitespace;
use shortcuts::text::find;
use shortcuts::text::join;
use shortcuts::text::lines;
use shortcuts::text::remove_char;
use shortcuts::text::replace_char;
use shortcuts::text::split;
use shortcuts::text::to_chars;
use shortcuts::text::trim;
use shortcuts::text::trim_each;

fn chars(s: &str) -> Vec<char> {
    s.chars().collect()
}

fn text(v: &[char]) -> String {
    v.iter().collect()
}

fn texts(v: &[Vec<char>]) -> Vec<String> {
    v.iter().map(|p| text(p)).collect()
}

#[test]
fn whitespace_agrees_with_std_on_every_char() {
    let mut n: u32 = 0;
    while n <= 0x10FFFF {
        if let Some(c) = char::from_u32(n) {
            assert_eq!(char_is_whitespace(c), c.is_whitespace(), "code point {:#x}", n);
        }
        n += 1;
    }
}

#[test]
fn whitespace_named_cases() {
    for c in [' ', '\t', '\n', '\r', '\u{0B}', '\u{0C}', '\u{85}', '\u{A0}', '\u{1680}', '\u{2000}', '\u{200A}', '\u{2028}', '\u{2029}', '\u{202F}', '\u{205F}', '\u{3000}'] {
        assert!(char_is_whitespace(c));
    }
    for c in ['a', '=', ',', '#', '$', '+', '\u{08}', '\u{0E}', '\u{1F}', '\u{200B}', '\u{180E}', '\u{FEFF}'] {
        assert!(!char_is_whitespace(c));
    }
}

#[test]
fn to_chars_keeps_every_char_in_order() {
    assert_eq!(to_chars(""), Vec::<char>::new());
    assert_eq!(to_chars("a=b"), vec!['a', '=', 'b']);
    assert_eq!(to_chars("é\u{3000}𝄞"), vec!['é', '\u{3000}', '𝄞']);
}

#[test]
fn find_gives_first_position_or_length() {
    assert_eq!(find(&chars("a=b=c"), '='), 1);
    assert_eq!(find(&chars("=b"), '='), 0);
    assert_eq!(find(&chars("abc="), '='), 3);
    assert_eq!(find(&chars("abc"), '='), 3);
    assert_eq!(find(&[], '='), 0);
}

#[test]
fn trim_agrees_with_std() {
    for s in ["", " ", "   ", "a", " a", "a ", "  a b  ", "\t\r\n x \u{3000}\u{A0}", "\u{2003}é \u{1680}", "a\n", "x\u{200B} ", " # c "] {
        assert_eq!(text(trim(&chars(s))), s.trim(), "input {:?}", s);
    }
}

#[test]
fn trim_keeps_inner_whitespace() {
    assert_eq!(text(trim(&chars("  $mainMod  SHIFT "))), "$mainMod  SHIFT");
}

#[test]
fn split_agrees_with_std() {
    for s in ["", "a", "=", "a=b", "a=b=c", "==", "=a", "a=", " a , b ,, c", ",", "a,b,"] {
        for sep in ['=', ','] {
            let expected: Vec<String> = s.split(sep).map(|p| p.to_string()).collect();
            assert_eq!(texts(&split(&chars(s), sep)), expected, "input {:?}", s);
        }
    }
}

#[test]
fn split_of_empty_text_is_one_empty_piece() {
    assert_eq!(split(&[], ','), vec![Vec::<char>::new()]);
}

#[test]
fn join_puts_one_separator_between_neighbours() {
    let parts = vec![chars("a"), chars("b"), chars(""), chars("cd")];
    assert_eq!(text(&join(&parts, ',')), "a,b,,cd");
    assert_eq!(text(&join(&parts[2..], ',')), ",cd");
    assert_eq!(text(&join(&parts[3..], ',')), "cd");
    assert_eq!(text(&join(&parts[4..], ',')), "");
    assert_eq!(text(&join(&[chars(""), chars("")], ',')), ",");
    assert_eq!(text(&join(&[], ',')), "");
}

#[test]
fn join_undoes_split() {
    for s in ["", "a", ",", "a,b", ",a,,b,", "exec, kitty --title x,y"] {
        assert_eq!(text(&join(&split(&chars(s), ','), ',')), s);
    }
}

#[test]
fn lines_agree_with_std() {
    for s in ["", "a", "a\n", "a\nb", "a\r\nb\r\n", "\n", "\n\n", "a\n\nb", "a\r", "a\r\n", "\r\n", "a\rb\n", "a\r\r\n", "x\n\r", "open = super+o\nclose = super+c\n", "\r"] {
        let expected: Vec<String> = s.lines().map(|l| l.to_string()).collect();
        assert_eq!(texts(&lines(&chars(s))), expected, "input {:?}", s);
    }
}

#[test]
fn lines_of_empty_text_are_none() {
    assert_eq!(lines(&[]), Vec::<Vec<char>>::new());
}

#[test]
fn lines_keep_a_lone_carriage_return_at_the_very_end() {
    assert_eq!(texts(&lines(&chars("a\nb\r"))), vec!["a".to_string(), "b\r".to_string()]);
}

#[test]
fn remove_char_takes_out_every_occurrence() {
    assert_eq!(text(&remove_char(&chars("$main$Mod$"), '$')), "mainMod");
    assert_eq!(text(&remove_char(&chars("$$"), '$')), "");
    assert_eq!(text(&remove_char(&chars("abc"), '$')), "abc");
    assert_eq!(text(&remove_char(&[], '$')), "");
}

#[test]
fn replace_char_turns_every_occurrence() {
    assert_eq!(text(&replace_char(&chars("a b  c"), ' ', '+')), "a+b++c");
    assert_eq!(text(&replace_char(&chars("abc"), ' ', '+')), "abc");
    assert_eq!(text(&replace_char(&chars("a\tb"), ' ', '+')), "a\tb");
    assert_eq!(text(&replace_char(&[], ' ', '+')), "");
}

#[test]
fn append_adds_at_the_end() {
    let mut out = chars("ab");
    append(&mut out, &chars("cd"));
    assert_eq!(text(&out), "abcd");
    append(&mut out, &[]);
    assert_eq!(text(&out), "abcd");
}

#[test]
fn trim_each_trims_every_piece() {
    let parts = vec![chars(" a "), chars(""), chars("  "), chars("b c")];
    assert_eq!(texts(&trim_each(&parts)), vec!["a", "", "", "b c"]);
}
