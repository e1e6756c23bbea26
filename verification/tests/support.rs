use eebook::chapter::Chapter;
use eebook::commands::Explorer;
use eebook::ebook::{BookState, EpubContents, ViewState, loading};
use eebook::text::{
    chars_of, contains_chars, count_char_exec, decimal_string, is_whitespace, lines_of,
    parse_digits, parse_i32_exec, replace_chars, string_of, trim_chars,
};
use eebook::toolbar::{
    helperClick, jumpDisabled, jumpLabel, nextDisabled, ocrReverseDisabled, ocrSearchDisabled,
    previousDisabled, readEditClick, readEditDisabled, readEditLabel, saveDisabled,
    textSearchDisabled, totalPagesLabel,
};

fn chars(s: &str) -> Vec<char> {
    s.chars().collect()
}

fn small_book() -> BookState {
    let mut book = BookState::new();
    let epub = EpubContents {
        path: String::from("b.epub"),
        language: None,
        cover: None,
        documents: vec![
            (String::from("<p>a</p>"), Some(String::from("t/1.html"))),
            (String::from("<p>b</p>"), Some(String::from("t/2.html"))),
        ],
    };
    loading(&mut book, Some(epub));
    book
}

#[test]
fn decimal_string_spells_numbers() {
    assert_eq!(decimal_string(0), "0");
    assert_eq!(decimal_string(42), "42");
    assert_eq!(decimal_string(-7), "-7");
    assert_eq!(decimal_string(i32::MAX), "2147483647");
    assert_eq!(decimal_string(i32::MIN), "-2147483648");
}

#[test]
fn decimal_string_parses_back() {
    for n in [0, 1, 9, 10, 12345, i32::MAX] {
        assert_eq!(parse_digits(&chars(&decimal_string(n))), Some(n));
    }
    for n in [-1, -300, i32::MIN, 0, 77, i32::MAX] {
        assert_eq!(parse_i32_exec(&chars(&decimal_string(n))), Some(n));
    }
}

#[test]
fn parse_i32_follows_str_parse() {
    for s in ["12", "-12", "+5", "", "-", "+", "1a", "2147483647", "2147483648", "-2147483648", "-2147483649", "007"] {
        assert_eq!(parse_i32_exec(&chars(s)), s.parse::<i32>().ok(), "{}", s);
    }
}

#[test]
fn parse_digits_takes_only_digits() {
    assert_eq!(parse_digits(&chars("305")), Some(305));
    assert_eq!(parse_digits(&chars("-3")), None);
    assert_eq!(parse_digits(&chars("")), None);
    assert_eq!(parse_digits(&chars("99999999999")), None);
}

#[test]
fn text_helpers_follow_str() {
    assert_eq!(string_of(&trim_chars(&chars("  a b \n"))), "a b");
    assert_eq!(string_of(&trim_chars(&chars("\u{3000}x\u{a0}"))), "x");
    assert!(is_whitespace('\t'));
    assert!(!is_whitespace('x'));
    assert!(contains_chars(&chars("abcabd"), &chars("abd")));
    assert!(!contains_chars(&chars("abc"), &chars("abcd")));
    assert!(contains_chars(&chars("abc"), &chars("")));
    assert_eq!(string_of(&replace_chars(&chars("a.epub.epub"), &chars(".epub"), &chars(".zip"))), "a.zip.zip");
    assert_eq!(count_char_exec(&chars("a b  c"), ' '), 3);
    assert_eq!(chars_of("èx"), vec!['è', 'x']);
    for s in ["a\nb", "a\r\nb\n", "\n\nx", "", "last\n"] {
        let got: Vec<String> = lines_of(&chars(s)).iter().map(|l| string_of(l)).collect();
        let want: Vec<String> = s.lines().map(String::from).collect();
        assert_eq!(got, want, "{:?}", s);
    }
}

#[test]
fn explorer_names_the_files() {
    assert_eq!(Explorer::zipPath("C:\\libri\\x.epub"), "C:\\libri\\x.zip");
    assert_eq!(Explorer::folderPath("C:\\libri\\x.epub"), "C:\\libri\\x");
    assert_eq!(Explorer::epubPath("C:\\libri\\x.zip"), "C:\\libri\\x.epub");
    assert_eq!(Explorer::zipPath("nothing"), "nothing");
}

#[test]
fn explorer_plans_the_writes() {
    let mut c1 = Chapter::new();
    c1.fill(String::from("<p>a</p>"), 1, String::from("OEBPS/ch1.html"));
    let mut c2 = Chapter::new();
    c2.fill(String::from("<p>b</p>"), 2, String::from("OEBPS/ch2.html"));
    let chapters = vec![c1, c2];
    let sources = vec![
        String::from("x\\OEBPS\\ch2.html"),
        String::from("x\\style.css"),
        String::from("x\\OEBPS\\ch1.html"),
    ];
    let htmls = vec![String::from("1"), String::from("2")];
    assert_eq!(Explorer::plannedWrites(&sources, &chapters, &htmls), vec![(0, 1), (2, 0)]);
    let fewer = vec![String::from("1")];
    assert_eq!(Explorer::plannedWrites(&sources, &chapters, &fewer), vec![(2, 0)]);
}

#[test]
fn read_edit_button_swaps_views() {
    let mut book = small_book();
    readEditClick(&mut book);
    assert_eq!(book.getCurrentView(), ViewState::EditMode);
    assert_eq!(book.getCursor(), "1");
    book.setCurrentPage(2);
    readEditClick(&mut book);
    assert_eq!(book.getCurrentView(), ViewState::ReadMode);
    assert_eq!(book.getCursor(), "2");
    assert_eq!(book.getUltimateView(), ViewState::EditMode);
}

#[test]
fn read_edit_button_does_nothing_without_a_book() {
    let mut book = BookState::new();
    readEditClick(&mut book);
    assert_eq!(book.getCurrentView(), ViewState::Idle);
}

#[test]
fn help_twice_returns_to_the_view() {
    let mut book = small_book();
    helperClick(&mut book);
    assert_eq!(book.getCurrentView(), ViewState::HelpMode);
    helperClick(&mut book);
    assert_eq!(book.getCurrentView(), ViewState::ReadMode);
    assert_eq!(book.getUltimateView(), ViewState::HelpMode);
}

#[test]
fn read_edit_from_help_goes_back() {
    let mut book = small_book();
    readEditClick(&mut book);
    helperClick(&mut book);
    readEditClick(&mut book);
    assert_eq!(book.getCurrentView(), ViewState::EditMode);
    assert_eq!(book.getCursor(), "1");
}

#[test]
fn labels_and_totals() {
    let mut book = small_book();
    assert_eq!(totalPagesLabel(&book), 2);
    assert_eq!(readEditLabel(ViewState::ReadMode), "Edit");
    assert_eq!(readEditLabel(ViewState::EditMode), "Read");
    assert_eq!(jumpLabel(ViewState::EditMode, ViewState::ReadMode), "Go to Chapter");
    assert_eq!(jumpLabel(ViewState::HelpMode, ViewState::EditMode), "Go to Chapter");
    assert_eq!(jumpLabel(ViewState::HelpMode, ViewState::ReadMode), "Go to Page");
    book.setCurrentView(ViewState::HelpMode);
    assert_eq!(totalPagesLabel(&book), 2);
}

#[test]
fn buttons_are_enabled_by_view() {
    assert!(saveDisabled(ViewState::ReadMode));
    assert!(!saveDisabled(ViewState::EditMode));
    assert!(readEditDisabled(ViewState::Idle, true));
    assert!(readEditDisabled(ViewState::HelpMode, false));
    assert!(!readEditDisabled(ViewState::HelpMode, true));
    assert!(previousDisabled(1, ViewState::ReadMode));
    assert!(!previousDisabled(2, ViewState::ReadMode));
    assert!(nextDisabled(5, 5, ViewState::ReadMode));
    assert!(!nextDisabled(4, 5, ViewState::EditMode));
    assert!(jumpDisabled(ViewState::Idle));
    assert!(!jumpDisabled(ViewState::ReadMode));
    assert!(textSearchDisabled(ViewState::ReadMode, true));
    assert!(!textSearchDisabled(ViewState::ReadMode, false));
    assert!(ocrSearchDisabled(ViewState::Idle));
    assert!(ocrReverseDisabled(true, ViewState::ReadMode));
}
