use eebook::ebook_mod::implementation::{
    spine_pages, BookMetadata, BookState, EDIT_MODE, HELP_MODE, IDLE, JUMP_BY_BOX, JUMP_BY_SEARCH, READ_MODE,
};
use eebook::ebook_mod::rendering::{
    calibre_patterns_valid, create_rich_page, parse_calibre_checked, regex_valid, FormatMap,
    FormattingInfo, RunStyle,
};
use eebook::ebook_mod::search::search_chapter;
use eebook::ebook_mod::export::{build_epub, epub_items, takes_cover, EpubItem, SourceCover, SourceDoc};
use eebook::ebook_mod::widget::{
    about_click, edit_click, edit_disabled, edit_label, next_disabled, ocr_disabled, open_click,
    previous_disabled, save_disabled, search_disabled,
};

const PAGE: &str = "<html>\n<title>Il libro</title>\n<body>\n<h1>Capitolo</h1>\n<p>Testo <b>forte</b></p>\n<br/>\n<p>semplice</p>\n</body>";

fn runs(v: &[eebook::ebook_mod::rendering::Run]) -> Vec<(RunStyle, String)> {
    v.iter().map(|r| (r.style, r.text.clone())).collect()
}

fn three_pages() -> BookState {
    let mut book = BookState::new();
    book.add_page(String::from("<p>alfa</p>"), String::from("alfa\n"));
    book.add_page(String::from("<p>beta gamma</p>"), String::from("beta gamma\n"));
    book.add_page(String::from("<p>beta</p>"), String::from("beta\n"));
    book.first_setup(1, 3);
    book
}

#[test]
fn the_markup_patterns_compile() {
    assert!(calibre_patterns_valid());
    assert!(regex_valid("<(.*?)>"));
    assert!(!regex_valid("(<"));
}

#[test]
fn parse_calibre_strips_markup_and_records_formatting() {
    let mut info = FormatMap::new();
    let out = parse_calibre_checked(PAGE, 7, &mut info).unwrap();
    assert_eq!(out, "Il libro\nCapitolo\nTesto forte\nsemplice\n");
    assert_eq!(info.get((7, 0)), Some(FormattingInfo::Title));
    assert_eq!(info.get((7, 1)), Some(FormattingInfo::Heading));
    assert_eq!(info.get((7, 2)), Some(FormattingInfo::Bold));
    assert_eq!(info.get((7, 3)), None);
    assert_eq!(info.get((6, 0)), None);
}

#[test]
fn parse_calibre_drops_doctype_and_links() {
    let mut info = FormatMap::new();
    let out = parse_calibre_checked(
        "<!DOCTYPE html>\n<i>corsivo</i> \"http://x.y\n  \n<h2>Due</h2>",
        0,
        &mut info,
    )
    .unwrap();
    assert_eq!(out, "corsivo\nDue\n");
    assert_eq!(info.get((0, 0)), Some(FormattingInfo::Italic));
    assert_eq!(info.get((0, 1)), Some(FormattingInfo::Heading2));
}

#[test]
fn rich_page_styles_each_line() {
    let mut info = FormatMap::new();
    let out = parse_calibre_checked(PAGE, 2, &mut info).unwrap();
    let page = create_rich_page(&out, 2, &info);
    let nl = String::from("\n");
    assert_eq!(
        runs(&page),
        vec![
            (RunStyle::Title, String::from("Il libro")),
            (RunStyle::Unstyled, nl.clone()),
            (RunStyle::Unstyled, nl.clone()),
            (RunStyle::Unstyled, nl.clone()),
            (RunStyle::Heading, String::from("Capitolo")),
            (RunStyle::Unstyled, nl.clone()),
            (RunStyle::Unstyled, nl.clone()),
            (RunStyle::Bold, String::from("Testo forte")),
            (RunStyle::Unstyled, nl.clone()),
            (RunStyle::Normal, String::from("semplice")),
            (RunStyle::Unstyled, nl.clone()),
        ]
    );
}

#[test]
fn ignored_lines_give_an_empty_run() {
    let mut info = FormatMap::new();
    info.insert((0, 0), FormattingInfo::Ignore);
    let page = create_rich_page("x\ny", 0, &info);
    assert_eq!(
        runs(&page),
        vec![
            (RunStyle::Unstyled, String::new()),
            (RunStyle::Normal, String::from("y")),
            (RunStyle::Unstyled, String::from("\n")),
        ]
    );
}

#[test]
fn format_map_keeps_the_last_record() {
    let mut m = FormatMap::new();
    m.insert((1, 2), FormattingInfo::Bold);
    m.insert((1, 2), FormattingInfo::Italic);
    m.insert((2, 1), FormattingInfo::Title);
    assert_eq!(m.get((1, 2)), Some(FormattingInfo::Italic));
    assert_eq!(m.get((2, 1)), Some(FormattingInfo::Title));
    assert_eq!(m.get((2, 2)), None);
    m.clear();
    assert_eq!(m.get((1, 2)), None);
}

#[test]
fn new_line_reader_is_closed() {
    let book = BookState::new();
    assert!(!book.is_open());
    assert_eq!(book.current_page(), 0);
    assert_eq!(book.page_box(), "0");
    assert_eq!(book.current_view(), IDLE);
    let m = BookMetadata::new();
    assert_eq!(m.title, "");
}

#[test]
fn first_setup_shows_the_first_page() {
    let book = three_pages();
    assert!(book.is_open());
    assert_eq!(book.current_page(), 1);
    assert_eq!(book.page_box(), "1");
    assert_eq!(book.html_page(), "<p>alfa</p>");
    assert_eq!(book.current_view(), READ_MODE);
    assert_eq!(
        runs(&book.rich_page()),
        vec![(RunStyle::Normal, String::from("alfa")), (RunStyle::Unstyled, String::from("\n"))]
    );
}

#[test]
fn next_and_previous_stay_in_the_book() {
    let mut book = three_pages();
    book.next_page();
    assert_eq!(book.current_page(), 2);
    assert_eq!(book.html_page(), "<p>beta gamma</p>");
    book.next_page();
    book.next_page();
    assert_eq!(book.current_page(), 3);
    assert_eq!(book.page_box(), "3");
    book.previous_page();
    book.previous_page();
    book.previous_page();
    assert_eq!(book.current_page(), 1);
    assert_eq!(book.page_box(), "1");
}

#[test]
fn turning_keeps_the_edited_page() {
    let mut book = three_pages();
    book.set_html_page(String::from("<p>modificata</p>"));
    book.next_page();
    assert_eq!(
        book.modified_pages(),
        vec![
            String::from("<p>modificata</p>"),
            String::from("<p>beta gamma</p>"),
            String::from("<p>beta</p>")
        ]
    );
}

#[test]
fn jump_by_box_goes_to_the_typed_page() {
    let mut book = three_pages();
    book.set_page_box(String::from("3"));
    book.jump_to_page(JUMP_BY_BOX);
    assert_eq!(book.current_page(), 3);
    assert_eq!(book.html_page(), "<p>beta</p>");
    book.set_page_box(String::from("9"));
    book.jump_to_page(JUMP_BY_BOX);
    assert_eq!(book.current_page(), 3);
    assert_eq!(book.page_box(), "3");
    book.set_page_box(String::from("x"));
    book.jump_to_page(JUMP_BY_BOX);
    assert_eq!(book.page_box(), "3");
}

#[test]
fn search_goes_to_the_first_page_with_the_text() {
    let mut book = three_pages();
    book.set_bar_text(String::from("beta"));
    search_chapter(&mut book);
    assert_eq!(book.current_page(), 2);
    assert_eq!(book.page_box(), "2");
    book.set_bar_text(String::from("zeta"));
    search_chapter(&mut book);
    assert_eq!(book.current_page(), 2);
}

#[test]
fn swap_view_and_clear_all() {
    let mut book = three_pages();
    book.swap_view(EDIT_MODE);
    assert_eq!(book.current_view(), EDIT_MODE);
    book.clear_all();
    assert!(!book.is_open());
    assert_eq!(book.current_page(), 1);
    assert_eq!(book.page_box(), "0");
    assert!(book.parsed_pages().is_empty());
    assert_eq!(book.current_view(), IDLE);
}

#[test]
fn the_search_flag_jumps_to_the_current_page() {
    let mut book = three_pages();
    book.set_current_page(2);
    book.jump_to_page(JUMP_BY_SEARCH);
    assert_eq!(book.page_box(), "2");
    assert_eq!(book.html_page(), "<p>beta gamma</p>");
}

#[test]
fn load_pages_reads_and_opens_the_book() {
    let mut book = BookState::new();
    book.load_pages(&vec![
        String::from("<title>Uno</title>\n<p>a</p>"),
        String::from("<p>b</p>\n\n<h1>C</h1>"),
    ]);
    assert!(book.is_open());
    assert_eq!(book.current_page(), 1);
    assert_eq!(book.total_pages(), 2);
    assert_eq!(book.parsed_pages(), vec![String::from("Uno\na\n"), String::from("b\nC\n")]);
    assert_eq!(book.modified_pages()[1], "<p>b</p>\n\n<h1>C</h1>");
    book.next_page();
    assert_eq!(
        runs(&book.rich_page()),
        vec![
            (RunStyle::Normal, String::from("b")),
            (RunStyle::Unstyled, String::from("\n")),
            (RunStyle::Heading, String::from("C")),
            (RunStyle::Unstyled, String::from("\n")),
            (RunStyle::Unstyled, String::from("\n")),
        ]
    );
}

fn tiny_jpeg() -> Vec<u8> {
    let mut picture = image::RgbImage::new(2, 1);
    picture.put_pixel(0, 0, image::Rgb([255, 255, 255]));
    let mut out = std::io::Cursor::new(Vec::new());
    image::DynamicImage::ImageRgb8(picture)
        .write_to(&mut out, image::ImageOutputFormat::Jpeg(90))
        .unwrap();
    out.into_inner()
}

#[test]
fn cover_and_path_getters() {
    let mut book = BookState::new();
    assert!(book.take_cover(Some(tiny_jpeg()), None));
    let (pixels, width, height) = book.cover_image();
    assert_eq!((pixels.len(), width, height), (8, 2, 1));
    assert_eq!(pixels[3], 255);
    assert_eq!(book.metadata.cover_image, "cover.jpeg");
    book.set_filepath(String::from("/b/x.epub"));
    assert_eq!(book.filepath(), "/b/x.epub");
    assert_eq!(book.total_pages(), 0);
}

#[test]
fn an_undecodable_cover_is_refused() {
    let mut book = BookState::new();
    assert!(!book.take_cover(Some(vec![1, 2, 3]), None));
    assert_eq!(book.cover_image(), (vec![1, 2, 3], 0, 0));
    assert_eq!(book.metadata.cover_image, "");
    assert!(!book.set_default_cover(Some(&[9, 9])));
}

#[test]
fn the_default_cover_is_used_without_one() {
    let mut book = BookState::new();
    assert!(book.take_cover(None, None));
    assert_eq!(book.cover_image(), (vec![], 0, 0));
    assert_eq!(book.metadata.cover_image, "no_cover.jpeg");
    let jpeg = tiny_jpeg();
    assert!(book.take_cover(None, Some(&jpeg)));
    assert_eq!((book.cover_image().1, book.cover_image().2), (2, 1));
}

#[test]
fn metadata_is_filled_from_the_book() {
    let mut book = BookState::new();
    book.fill_metadata(
        Some(String::from("Manzoni")),
        Some(String::from("I promessi sposi")),
        None,
        Some(String::from("it")),
        None,
        Some(Some(String::from("p { }"))),
    );
    let m = &book.metadata;
    assert_eq!((m.author.as_str(), m.title.as_str(), m.description.as_str()), ("Manzoni", "I promessi sposi", ""));
    assert_eq!((m.language.as_str(), m.stylesheet.as_str(), m.generator.as_str()), ("it", "p { }", "eeBOOK Reader"));
    book.fill_metadata(None, None, None, None, Some(None), Some(Some(String::from("x"))));
    assert_eq!(book.metadata.stylesheet, "p { }");
    assert_eq!(book.metadata.author, "Manzoni");
}

#[test]
fn legacy_buttons_follow_the_views() {
    let mut book = three_pages();
    edit_click(&mut book);
    assert_eq!(book.current_view(), EDIT_MODE);
    edit_click(&mut book);
    assert_eq!(book.current_view(), READ_MODE);
    about_click(&mut book);
    assert_eq!(book.current_view(), HELP_MODE);
    about_click(&mut book);
    assert_eq!(book.current_view(), READ_MODE);
    open_click(&mut book);
    assert_eq!(book.current_view(), IDLE);
    let mut closed = BookState::new();
    edit_click(&mut closed);
    assert_eq!(closed.current_view(), IDLE);
    about_click(&mut closed);
    about_click(&mut closed);
    assert_eq!(closed.current_view(), IDLE);
    assert_eq!(edit_label(READ_MODE), "Edit Book");
    assert_eq!(edit_label(EDIT_MODE), "Read Book");
    assert!(ocr_disabled(EDIT_MODE) && !ocr_disabled(READ_MODE));
    assert!(save_disabled(READ_MODE) && !save_disabled(EDIT_MODE));
    assert!(edit_disabled(IDLE) && !edit_disabled(READ_MODE));
    assert!(search_disabled(READ_MODE, true) && !search_disabled(READ_MODE, false));
    assert!(next_disabled(3, 3, READ_MODE) && !next_disabled(2, 3, READ_MODE));
    assert!(previous_disabled(1, READ_MODE) && !previous_disabled(2, EDIT_MODE));
}

#[test]
fn epub_items_place_the_edited_pages() {
    let docs = vec![
        SourceDoc { stem: String::from("cover%20page"), tail: String::from("Text\\cover.xhtml"), text: Some(String::from("<img/>")) },
        SourceDoc { stem: String::from("ch%201"), tail: String::from("Text/ch%201.xhtml"), text: Some(String::from("old 1")) },
        SourceDoc { stem: String::from("broken"), tail: String::from("Text/broken.xhtml"), text: None },
        SourceDoc { stem: String::from("ch2"), tail: String::from("Text/ch2.xhtml"), text: Some(String::from("old 2")) },
    ];
    let cover = Some(SourceCover { tail: String::from("Images\\c%20.jpg"), bytes: Some(vec![1, 2]), mime: String::from("image/jpeg") });
    let modified = vec![String::from("new 1"), String::from("new 2"), String::from("unused")];
    let items = epub_items(&docs, &cover, &modified);
    let shown: Vec<String> = items
        .iter()
        .map(|i| match i {
            EpubItem::Cover { href, bytes, mime } => format!("cover {} {:?} {}", href, bytes, mime),
            EpubItem::Chapter { href, title, text } => format!("chapter {} {} {}", href, title, text),
        })
        .collect();
    assert_eq!(
        shown,
        vec![
            String::from("cover Images/c_.jpg [1, 2] image/jpeg"),
            String::from("chapter Text/cover.xhtml cover_page <img/>"),
            String::from("chapter Text/ch_1.xhtml ch_1 new 1"),
            String::from("chapter Text/ch2.xhtml ch2 new 2"),
        ]
    );
    let without_cover: Vec<String> = epub_items(&docs, &None, &modified)
        .iter()
        .map(|i| match i {
            EpubItem::Cover { .. } => String::from("cover"),
            EpubItem::Chapter { text, .. } => text.clone(),
        })
        .collect();
    assert_eq!(without_cover, vec![String::from("new 1"), String::from("new 2")]);
}

#[test]
fn build_epub_packs_a_zip() {
    let mut meta = BookMetadata::new();
    meta.title = String::from("Libro");
    meta.language = String::from("it");
    let items = vec![EpubItem::Chapter {
        href: String::from("ch1.xhtml"),
        title: String::from("Uno"),
        text: String::from("<html><body><p>uno</p></body></html>"),
    }];
    let bytes = build_epub(&meta, &items).0.unwrap();
    assert!(bytes.len() > 100);
    assert_eq!(&bytes[0..2], b"PK");
    let text = String::from_utf8_lossy(&bytes);
    assert!(text.contains("OEBPS/ch1.xhtml"));
}

#[test]
fn spine_pages_skip_the_cover_document() {
    let s = |t: &str| Some(String::from(t));
    let docs = vec![s("cover"), None, s("one"), s("two")];
    assert_eq!(spine_pages(&docs, false), vec![String::from("cover"), String::from("one"), String::from("two")]);
    assert_eq!(spine_pages(&docs, true), vec![String::from("two")]);
    let readable = vec![s("cover"), s("one"), s("two")];
    assert_eq!(spine_pages(&readable, true), vec![String::from("one"), String::from("two")]);
    assert_eq!(spine_pages(&vec![s("only")], true), vec![String::from("only")]);
    assert_eq!(spine_pages(&vec![s("cover"), s("one")], true), vec![String::from("one")]);
    assert!(spine_pages(&vec![], true).is_empty());
}

#[test]
fn the_cover_goes_with_a_read_first_document() {
    let doc = |text: Option<&str>| SourceDoc {
        stem: String::from("a"),
        tail: String::from("a.xhtml"),
        text: text.map(String::from),
    };
    assert!(takes_cover(&vec![doc(Some("x")), doc(None)]));
    assert!(!takes_cover(&vec![doc(None), doc(Some("x"))]));
    assert!(!takes_cover(&vec![]));
}
