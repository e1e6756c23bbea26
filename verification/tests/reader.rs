use eebook::constants::{
    EPUB_LOADING, GO_NEXT, GO_PREV, IMAGE_LOADING, JUMP_BY_BAR_SEARCH, JUMP_BY_BUTTON,
};
use eebook::ebook::{
    loading, reactToBarSearchRefresh, reactToHTMLModification, reactToSearch, reactToZoom,
    saveHTML, BookState, EpubContents, ViewState,
};
use eebook::search::{
    directOCR, find_ranges, looksForMatchesInChapter, looksForMatchesInPage, photo_language,
    reverseOCR, tesseract_language,
};

fn paragraphs(from: usize, to: usize) -> String {
    let mut html = String::from("<html><body>");
    for i in from..to {
        html.push_str(&format!("<p>P{}</p>", i));
    }
    html.push_str("</body></html>");
    html
}

fn blocks(from: usize, to: usize) -> String {
    (from..to).map(|i| format!("P{}\n\n", i)).collect()
}

/// A book of a cover page without a path and two chapters: the first of 25
/// paragraphs (three pages), the second of 3 paragraphs (one page).
fn opened_book() -> BookState {
    let mut book = BookState::new();
    let epub = EpubContents {
        path: String::from("/books/libro.epub"),
        language: Some(String::from("it")),
        cover: Some(vec![1, 2, 3]),
        documents: vec![
            (paragraphs(0, 25), Some(String::from("OEBPS/ch1.html"))),
            (paragraphs(100, 103), Some(String::from("OEBPS/ch2.html"))),
            (String::from("<html></html>"), None),
        ],
    };
    loading(&mut book, Some(epub));
    book
}

fn shown_text(pieces: &[eebook::chapter::Piece]) -> String {
    pieces.iter().map(|p| p.text.clone()).collect()
}

#[test]
fn new_reader_has_nothing_open() {
    let book = BookState::new();
    assert_eq!(book.getCurrentView(), ViewState::Idle);
    assert!(!book.getEpubOpen());
    assert_eq!(book.getTotalPages(), 0);
    assert_eq!(book.getTotalChaps(), 0);
    assert_eq!(book.getCurrentObjType(), EPUB_LOADING);
    assert_eq!(book.getPath(), "");
    assert_eq!(book.getCurrID(), 0);
}

#[test]
fn loading_opens_the_book_at_its_first_page() {
    let book = opened_book();
    assert!(book.getEpubOpen());
    assert_eq!(book.getCurrentView(), ViewState::ReadMode);
    assert_eq!(book.getCurrentPage(), 1);
    assert_eq!(book.getCurrentChap(), 1);
    assert_eq!(book.getTotalChaps(), 2);
    assert_eq!(book.getTotalPages(), 4);
    assert_eq!(book.getPath(), "/books/libro.epub");
    assert_eq!(book.getLanguage(), "it");
    assert_eq!(book.getCoverPixels(), vec![1, 2, 3]);
    assert_eq!(book.getCurrID(), 1);
    assert_eq!(book.getUltID(), 0);
    assert_eq!(book.getHTMLs().len(), 3);
    assert_eq!(book.getCursor(), "1");
    assert_eq!(book.getCurrentHTML(), paragraphs(0, 25));
    let (page, marks) = book.getPageShown();
    assert_eq!(shown_text(&page), blocks(0, 10));
    assert!(marks.is_empty());
    let (chap, _) = book.getChapShown();
    assert_eq!(shown_text(&chap), blocks(0, 25));
}

#[test]
fn plain_pages_are_numbered_through_the_book() {
    let book = opened_book();
    let pages = book.getPlainPages();
    assert_eq!(
        pages,
        vec![
            vec![(blocks(0, 10), 1), (blocks(10, 20), 2), (blocks(21, 25), 3)],
            vec![(blocks(100, 103), 4)],
        ]
    );
    assert_eq!(book.getPlainChapters(), vec![blocks(0, 25), blocks(100, 103)]);
}

#[test]
fn loading_without_a_book_still_sets_up() {
    let mut book = BookState::new();
    loading(&mut book, None);
    assert!(book.getEpubOpen());
    assert_eq!(book.getTotalPages(), 0);
    assert_eq!(book.getCurrentPage(), 1);
    assert_eq!(book.getCurrID(), 0);
}

#[test]
fn loading_an_image_leaves_the_book_alone() {
    let mut book = opened_book();
    book.setObjectType(IMAGE_LOADING);
    loading(&mut book, None);
    assert_eq!(book.getTotalPages(), 4);
    assert_eq!(book.getPath(), "/books/libro.epub");
}

#[test]
fn jump_by_button_goes_to_the_page_in_the_cursor() {
    let mut book = opened_book();
    book.setCursorText(String::from("4"));
    book.jump(JUMP_BY_BUTTON);
    assert_eq!(book.getCurrentPage(), 4);
    assert_eq!(book.getCurrentChap(), 2);
    assert_eq!(shown_text(&book.getPageShown().0), blocks(100, 103));
    assert_eq!(book.getCurrentHTML(), paragraphs(100, 103));
}

#[test]
fn jump_by_button_ignores_a_bad_cursor() {
    let mut book = opened_book();
    for cursor in ["5", "0", "x1", "", "99999999999"] {
        book.setCursorText(String::from(cursor));
        book.jump(JUMP_BY_BUTTON);
        assert_eq!(book.getCurrentPage(), 1);
    }
}

#[test]
fn jump_by_button_in_edit_mode_goes_to_a_chapter() {
    let mut book = opened_book();
    book.setCurrentView(ViewState::EditMode);
    book.setCursorText(String::from("2"));
    book.jump(JUMP_BY_BUTTON);
    assert_eq!(book.getCurrentChap(), 2);
    assert_eq!(shown_text(&book.getChapShown().0), blocks(100, 103));
    assert_eq!(book.getCurrentPage(), 4);
    assert_eq!(shown_text(&book.getPageShown().0), blocks(100, 103));
    assert_eq!(book.getCursor(), "2");
}

#[test]
fn jump_after_a_bar_search_shows_the_current_page() {
    let mut book = opened_book();
    book.setCurrentPage(3);
    book.jump(JUMP_BY_BAR_SEARCH);
    assert_eq!(shown_text(&book.getPageShown().0), blocks(21, 25));
    assert_eq!(book.getCurrentView(), ViewState::ReadMode);
}

#[test]
fn scroll_forward_then_back_returns_to_the_page() {
    let mut book = opened_book();
    book.scroll(GO_NEXT);
    assert_eq!(book.getCurrentPage(), 2);
    assert_eq!(shown_text(&book.getPageShown().0), blocks(10, 20));
    book.scroll(GO_PREV);
    assert_eq!(book.getCurrentPage(), 1);
    assert_eq!(shown_text(&book.getPageShown().0), blocks(0, 10));
}

#[test]
fn scroll_in_edit_mode_turns_chapters() {
    let mut book = opened_book();
    book.setCurrentView(ViewState::EditMode);
    book.scroll(GO_NEXT);
    assert_eq!(book.getCurrentChap(), 2);
    assert_eq!(shown_text(&book.getChapShown().0), blocks(100, 103));
}

#[test]
fn save_html_keeps_the_edited_text() {
    let mut book = opened_book();
    book.setCurrentHTML(String::from("<p>nuovo</p>"));
    saveHTML(&mut book, 2);
    assert_eq!(book.getHTMLs()[1], "<p>nuovo</p>");
    assert_eq!(book.getHTMLs()[0], paragraphs(0, 25));
}

#[test]
fn html_modification_rereads_the_chapter() {
    let mut book = opened_book();
    book.setCurrentView(ViewState::EditMode);
    book.setCurrentHTML(String::from("<p>Uno</p><p>Due</p>"));
    reactToHTMLModification(&mut book);
    assert_eq!(book.getHTMLs()[0], "<p>Uno</p><p>Due</p>");
    assert_eq!(shown_text(&book.getChapShown().0), "Uno\n\nDue\n\n");
    assert_eq!(book.getPlainChapters()[0], "Uno\n\nDue\n\n");
}

#[test]
fn search_colours_cycle_through_the_palette() {
    let mut book = opened_book();
    let mut colours = Vec::new();
    for _ in 0..6 {
        reactToSearch(&mut book, &vec![(0, 1)]);
        colours.push(book.getPageShown().1.last().unwrap().2);
    }
    assert_eq!(colours, vec![1, 2, 3, 4, 0, 1]);
    assert_eq!(book.getPageShown().1.len(), 6);
}

#[test]
fn zoom_and_bar_refresh_redraw_and_clear_marks() {
    let mut book = opened_book();
    reactToSearch(&mut book, &vec![(2, 4)]);
    assert_eq!(book.getPageShown().1, vec![(2, 4, 1)]);
    reactToZoom(&mut book);
    assert!(book.getPageShown().1.is_empty());
    reactToSearch(&mut book, &vec![(2, 4)]);
    reactToBarSearchRefresh(&mut book);
    assert!(book.getPageShown().1.is_empty());
}

#[test]
fn search_in_page_marks_the_matches() {
    let mut book = opened_book();
    looksForMatchesInPage(&mut book, &String::from("P1"));
    assert_eq!(book.getPageShown().1, vec![(4, 6, 1)]);
}

#[test]
fn search_in_page_with_a_bad_pattern_marks_nothing() {
    let mut book = opened_book();
    looksForMatchesInPage(&mut book, &String::from("P("));
    assert!(book.getPageShown().1.is_empty());
}

#[test]
fn search_in_chapter_marks_the_matches() {
    let mut book = opened_book();
    book.setCurrentView(ViewState::EditMode);
    looksForMatchesInChapter(&mut book, &String::from("P2"));
    assert_eq!(
        book.getChapShown().1,
        vec![(8, 10, 1), (90, 92, 1), (95, 97, 1), (100, 102, 1), (105, 107, 1), (110, 112, 1)]
    );
}

#[test]
fn find_ranges_gives_byte_ranges() {
    assert_eq!(find_ranges("a+", "baaca"), vec![(1, 3), (4, 5)]);
    assert_eq!(find_ranges("é|è", "perché è"), vec![(5, 7), (8, 10)]);
    assert!(find_ranges("[", "abc").is_empty());
}

#[test]
fn direct_ocr_goes_to_the_best_page() {
    let mut book = opened_book();
    directOCR(&mut book, &String::from("P12\nP13"));
    assert_eq!(book.getCurrentPage(), 2);
    assert_eq!(book.getPaperWordsEvaluetion(), 1);
    assert_eq!(shown_text(&book.getPageShown().0), blocks(10, 20));
    directOCR(&mut book, &String::from("P101 P102 P0"));
    assert_eq!(book.getCurrentPage(), 4);
    assert_eq!(book.getPaperWordsEvaluetion(), 2);
}

#[test]
fn reverse_ocr_finds_the_best_photo() {
    let mut book = opened_book();
    book.setPaperWordsEvaluetion(5);
    book.getImagesPath().push(String::from("a.png"));
    book.getImagesPath().push(String::from("b.png"));
    book.getImagesPath().push(String::from("c.png"));
    let outputs = vec![Some(String::from("P3\nP4")), None, Some(String::from("P5"))];
    let path = reverseOCR(&mut book, &outputs);
    assert_eq!(path, "a.png");
    assert_eq!(book.getDigitalPageEvaluetion(), 1);
}

#[test]
fn reverse_ocr_without_a_match_gives_nothing() {
    let mut book = opened_book();
    book.setPaperWordsEvaluetion(5);
    book.getImagesPath().push(String::from("a.png"));
    let path = reverseOCR(&mut book, &vec![Some(String::from("nothing"))]);
    assert_eq!(path, "");
}

#[test]
fn ocr_language_codes() {
    assert_eq!(tesseract_language("it"), "ita");
    assert_eq!(tesseract_language("en"), "eng");
    assert_eq!(tesseract_language("fr"), "eng");
    assert_eq!(photo_language(), "ita");
}

#[test]
fn clear_closes_the_book() {
    let mut book = opened_book();
    book.clear();
    assert!(!book.getEpubOpen());
    assert_eq!(book.getTotalPages(), 0);
    assert_eq!(book.getPath(), "");
    assert!(book.getHTMLs().is_empty());
    assert_eq!(book.getLanguage(), "it");
}

#[test]
fn the_cover_counter_wraps_after_many_books() {
    let mut book = BookState::new();
    for _ in 0..255 {
        loading(&mut book, Some(EpubContents { path: String::from("a.epub"), language: None, cover: None, documents: vec![] }));
    }
    assert_eq!(book.getCurrID(), 255);
    assert_eq!(book.getUltID(), 0);
    loading(&mut book, Some(EpubContents { path: String::from("b.epub"), language: None, cover: Some(vec![7]), documents: vec![] }));
    assert_eq!(book.getCurrID(), 0);
    assert_eq!(book.getUltID(), 255);
    loading(&mut book, Some(EpubContents { path: String::from("c.epub"), language: None, cover: Some(vec![8]), documents: vec![] }));
    assert_eq!(book.getCurrID(), 1);
    assert_eq!(book.getUltID(), 0);
}
