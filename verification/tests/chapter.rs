use eebook::chapter::{Chapter, TextStyle};

fn many_paragraphs(n: usize) -> String {
    let mut html = String::from("<html><body>");
    for i in 0..n {
        html.push_str(&format!("<p>P{}</p>", i));
    }
    html.push_str("</body></html>");
    html
}

fn headed_chapter() -> Chapter {
    let mut c = Chapter::new();
    c.fill(
        String::from("<html><head><title>T</title></head><body><h1>Heading</h1><h2>Sub</h2><p>First</p><p>Second</p></body></html>"),
        4,
        String::from(" OEBPS/Text/ch%201.html "),
    );
    c
}

#[test]
fn new_chapter_is_empty() {
    let c = Chapter::new();
    assert_eq!(c.getPath(), "");
    let mut counter = 0;
    let pages = c.createPlainPages(&mut counter);
    assert_eq!(pages, vec![(String::new(), 1)]);
    assert_eq!(counter, 1);
}

#[test]
fn fill_reads_headers_and_paragraphs() {
    let c = headed_chapter();
    let mut counter = 0;
    let pages = c.createPlainPages(&mut counter);
    assert_eq!(pages, vec![(String::from("THeading\nSub\nFirst\n\nSecond\n\n"), 1)]);
    assert_eq!(c.createPlainChapter(), "THeading\nSub\nFirst\n\nSecond\n\n");
}

#[test]
fn fill_normalizes_the_path() {
    let c = headed_chapter();
    assert_eq!(c.getPath(), "OEBPS\\Text\\ch 1.html");
    let mut d = Chapter::new();
    d.fill(String::new(), 1, String::from("a/b/c.xhtml"));
    assert_eq!(d.getPath(), "a\\b\\c.xhtml");
}

#[test]
fn setters_change_the_headers() {
    let mut c = Chapter::new();
    c.addTitle("A");
    c.addHeading("B");
    c.addSubHeading("C");
    c.addPath(String::from("x"));
    assert_eq!(c.getPath(), "x");
    let mut counter = 0;
    assert_eq!(c.createPlainPages(&mut counter), vec![(String::from("AB\nC\n"), 1)]);
}

#[test]
fn update_rereads_but_keeps_the_path() {
    let mut c = headed_chapter();
    c.update("<p>Only</p>");
    assert_eq!(c.getPath(), "OEBPS\\Text\\ch 1.html");
    let mut counter = 0;
    assert_eq!(c.createPlainPages(&mut counter), vec![(String::from("Only\n\n"), 1)]);
}

#[test]
fn pages_hold_ten_elements_and_a_page_break_drops_one_paragraph() {
    let mut c = Chapter::new();
    c.fill(many_paragraphs(25), 1, String::from("c.html"));
    let mut counter = 5;
    let pages = c.createPlainPages(&mut counter);
    let first: String = (0..10).map(|i| format!("P{}\n\n", i)).collect();
    let second: String = (10..20).map(|i| format!("P{}\n\n", i)).collect();
    let third: String = (21..25).map(|i| format!("P{}\n\n", i)).collect();
    assert_eq!(pages, vec![(first, 6), (second, 7), (third, 8)]);
    assert_eq!(counter, 8);
}

#[test]
fn headers_take_room_on_the_first_page() {
    let mut c = Chapter::new();
    let mut html = String::from("<head>T</head><h1>H</h1>");
    for i in 0..9 {
        html.push_str(&format!("<p>P{}</p>", i));
    }
    c.fill(html, 1, String::from("c.html"));
    let mut counter = 0;
    let pages = c.createPlainPages(&mut counter);
    let rest: String = (0..8).map(|i| format!("P{}\n\n", i)).collect();
    assert_eq!(pages[0].0, format!("TH\n{}", rest));
    assert_eq!(pages[1], (String::from("P8\n\n"), 2));
    assert_eq!(pages.len(), 2);
}

#[test]
fn exactly_eleven_following_paragraphs_make_one_page() {
    let mut c = Chapter::new();
    c.fill(many_paragraphs(21), 1, String::from("c.html"));
    let mut counter = 0;
    let pages = c.createPlainPages(&mut counter);
    assert_eq!(pages.len(), 2);
    assert_eq!(counter, 2);
}

#[test]
fn layout_spells_the_plain_pages() {
    let mut c = Chapter::new();
    c.fill(many_paragraphs(25), 1, String::from("c.html"));
    let layouts = c.createRTFPages();
    let mut counter = 0;
    let pages = c.createPlainPages(&mut counter);
    assert_eq!(layouts.len(), pages.len());
    for (layout, (text, _)) in layouts.iter().zip(pages.iter()) {
        let spelled: String = layout.iter().map(|p| p.text.as_str()).collect();
        assert_eq!(&spelled, text);
    }
    assert_eq!(layouts[0][0].style, TextStyle::Paragraph);
    assert_eq!(layouts[0][1].style, TextStyle::Plain);
}

#[test]
fn chapter_layout_styles_headers() {
    let c = headed_chapter();
    let layout = c.createRTFChap();
    let styles: Vec<TextStyle> = layout.iter().map(|p| p.style).collect();
    assert_eq!(
        styles,
        vec![
            TextStyle::Title,
            TextStyle::Heading,
            TextStyle::Plain,
            TextStyle::SubHeading,
            TextStyle::Plain,
            TextStyle::Paragraph,
            TextStyle::Plain,
            TextStyle::Paragraph,
            TextStyle::Plain,
        ]
    );
}
