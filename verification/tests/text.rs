use save_manager::text::chars_of;
use save_manager::text::contains_chars;
use save_manager::text::equals_at;
use save_manager::text::find_char;
use save_manager::text::is_space_char;
use save_manager::text::lower_char;
use save_manager::text::lowered_chars;
use save_manager::text::parse_u32_at;
use save_manager::text::push_decimal;
use save_manager::text::same_text;
use save_manager::text::starts_with_at;
use save_manager::text::string_of;
use save_manager::text::trimmed;
use save_manager::wrapper_launch::is_executable_path;

fn parse(text: &str) -> Option<u32> {
    let v = chars_of(text);
    parse_u32_at(&v, 0, v.len())
}

fn decimal(n: u64) -> String {
    let mut s = String::new();
    push_decimal(&mut s, n);
    s
}

/// White space is what `char::is_whitespace` says it is, for every character.
#[test]
fn white_space_is_unicode_white_space() {
    for code in 0..=0x10ffffu32 {
        if let Some(c) = char::from_u32(code) {
            assert_eq!(is_space_char(c), c.is_whitespace(), "U+{:04X}", code);
        }
    }
}

/// Lowercase is ASCII lowercase, for every character.
#[test]
fn lower_char_is_ascii_lowercase() {
    for code in 0..=0x10ffffu32 {
        if let Some(c) = char::from_u32(code) {
            assert_eq!(lower_char(c), c.to_ascii_lowercase(), "U+{:04X}", code);
        }
    }
    assert_eq!(lowered_chars("IntoTheDEAD Ünï"), chars_of("intothedead Ünï"));
}

/// Trimming takes away the white space at both ends and nothing else.
#[test]
fn trimmed_is_trim() {
    let samples = [
        "",
        " ",
        "a",
        "  a  ",
        "\t\n a b \r\n",
        "\u{a0}x\u{3000}",
        "\u{2003}\u{2028} mid dle \u{85}",
        "no-space",
        " \u{1680}\u{205f}\u{202f}",
        "é ",
        " \u{200b}zero width stays\u{200b} ",
    ];
    for sample in samples {
        assert_eq!(trimmed(sample), sample.trim(), "{:?}", sample);
    }
}

/// Numbers are read as `str::parse::<u32>` reads them.
#[test]
fn parse_u32_is_std_parse() {
    let samples = [
        "", "0", "7", "007", "+7", "+", "-7", "++7", "7+", " 7", "7 ", "4294967295", "4294967296",
        "+4294967295", "00000000000000000000004294967295", "99999999999999999999", "1e3", "0x10",
        "１２", "1_000", "12a", "a12",
    ];
    for sample in samples {
        assert_eq!(parse(sample), sample.parse::<u32>().ok(), "{:?}", sample);
    }
    let v = chars_of("ab123cd");
    assert_eq!(parse_u32_at(&v, 2, 5), Some(123));
    assert_eq!(parse_u32_at(&v, 2, 4), Some(12));
    assert_eq!(parse_u32_at(&v, 2, 2), None);
    assert_eq!(parse_u32_at(&v, 1, 5), None);
}

/// Numbers are written as `to_string` writes them, and read back.
#[test]
fn decimal_is_to_string() {
    let samples =
        [0u64, 1, 9, 10, 11, 99, 100, 101, 12345, 4294967295, 4294967296, u64::MAX - 1, u64::MAX];
    for n in samples {
        assert_eq!(decimal(n), n.to_string());
    }
    for n in [0u32, 1, 9, 10, 99, 100, 65535, 4294967294, 4294967295] {
        assert_eq!(parse(&decimal(n as u64)), Some(n));
    }
    let mut s = "n=".to_string();
    push_decimal(&mut s, 42);
    assert_eq!(s, "n=42");
}

/// Texts are taken apart into characters and put together again.
#[test]
fn chars_and_strings() {
    let v = chars_of("héllo");
    assert_eq!(v, vec!['h', 'é', 'l', 'l', 'o']);
    assert_eq!(string_of(&v, 0, 5), "héllo");
    assert_eq!(string_of(&v, 1, 3), "él");
    assert_eq!(string_of(&v, 2, 2), "");
    assert!(same_text("a", "a"));
    assert!(!same_text("a", "A"));
    assert!(!same_text("a", "ab"));
}

/// Prefixes, whole matches and first occurrences.
#[test]
fn searching_in_characters() {
    let v = chars_of("gamesave_1.sav.bak");
    assert!(starts_with_at(&v, 0, "gamesave_"));
    assert!(starts_with_at(&v, 9, "1."));
    assert!(starts_with_at(&v, 18, ""));
    assert!(!starts_with_at(&v, 0, "Gamesave_"));
    assert!(!starts_with_at(&v, 15, ".bak"));
    assert!(!starts_with_at(&v, 14, ".bak2"));
    assert!(equals_at(&v, 10, ".sav.bak"));
    assert!(!equals_at(&v, 10, ".sav"));
    assert!(!equals_at(&v, 10, ".sav.bak "));
    assert!(equals_at(&v, 18, ""));
    assert_eq!(find_char(&v, 0, '.'), Some(10));
    assert_eq!(find_char(&v, 9, '.'), Some(1));
    assert_eq!(find_char(&v, 11, '.'), Some(3));
    assert_eq!(find_char(&v, 15, '.'), None);
    assert_eq!(find_char(&v, 18, 'k'), None);
    assert!(contains_chars(&v, &chars_of("save_1")));
    assert!(contains_chars(&v, &chars_of("")));
    assert!(contains_chars(&v, &chars_of("gamesave_1.sav.bak")));
    assert!(!contains_chars(&v, &chars_of("gamesave_1.sav.bak!")));
    assert!(!contains_chars(&v, &chars_of("save_2")));
    assert!(contains_chars(&chars_of(""), &chars_of("")));
    assert!(!contains_chars(&chars_of(""), &chars_of("a")));
}

/// On Windows a path is an executable exactly where its lowercase form ends
/// with `.exe`, whatever characters it holds.
#[test]
fn executable_path_is_lowercase_suffix() {
    for code in 0..=0x10ffffu32 {
        if let Some(c) = char::from_u32(code) {
            for text in [format!("{c}exe"), format!(".{c}xe"), format!(".e{c}e"), format!(".ex{c}"),
                format!("{c}.exe"), format!(".exe{c}")] {
                assert_eq!(
                    is_executable_path(&text, true),
                    text.to_lowercase().ends_with(".exe"),
                    "{:?}",
                    text
                );
            }
        }
    }
}
