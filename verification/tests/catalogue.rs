use bifrost_gate::response_codes::{
    build_response_code_items, escape_pdf_text, paginate_rows, row_height, rows_from_items, wrap_text, PdfRow,
    ResponseCodeItem, ResponseCodeRow, ResponseCodeTranslationItem, ResponseTranslationRow,
};

fn base() -> Vec<ResponseCodeRow> {
    vec![
        ResponseCodeRow { code: 30000, kind: "Auth".to_string(), message_en: "API Key Required".to_string() },
        ResponseCodeRow { code: 40000, kind: "Peer".to_string(), message_en: "Peer name required".to_string() },
    ]
}

fn translations() -> Vec<ResponseTranslationRow> {
    vec![
        ResponseTranslationRow { code: 30000, lang: "ES".to_string(), message: "API Key requerida".to_string() },
        ResponseTranslationRow { code: 30000, lang: "fr".to_string(), message: "Clé requise".to_string() },
        ResponseTranslationRow { code: 99, lang: "es".to_string(), message: "x".to_string() },
    ]
}

fn pairs(i: &ResponseCodeItem) -> Vec<(String, String)> {
    i.translations.iter().map(|t| (t.lang.clone(), t.message.clone())).collect()
}

#[test]
fn catalogue_without_filter_lists_everything() {
    let items = build_response_code_items(&base(), &translations(), None);
    assert_eq!(items.len(), 2);
    assert_eq!(items[0].code, 30000);
    assert_eq!(
        pairs(&items[0]),
        vec![
            ("en".to_string(), "API Key Required".to_string()),
            ("es".to_string(), "API Key requerida".to_string()),
            ("fr".to_string(), "Clé requise".to_string()),
        ]
    );
    assert_eq!(pairs(&items[1]), vec![("en".to_string(), "Peer name required".to_string())]);
}

#[test]
fn catalogue_filtered_by_language() {
    let items = build_response_code_items(&base(), &translations(), Some("es-GT"));
    assert_eq!(items.len(), 1);
    assert_eq!(pairs(&items[0]), vec![("es".to_string(), "API Key requerida".to_string())]);
    let en = build_response_code_items(&base(), &translations(), Some("EN"));
    assert_eq!(en.len(), 2);
    assert_eq!(pairs(&en[1]), vec![("en".to_string(), "Peer name required".to_string())]);
    assert_eq!(build_response_code_items(&base(), &translations(), Some("de")).len(), 0);
}

#[test]
fn pdf_text_escaping() {
    assert_eq!(escape_pdf_text("a(b)\\c"), "a\\(b\\)\\\\c");
    assert_eq!(escape_pdf_text("plain"), "plain");
}

#[test]
fn wrapping() {
    assert_eq!(wrap_text("aaa bbb ccc", 7), vec!["aaa bbb", "ccc"]);
    assert_eq!(wrap_text("  ", 5), vec![""]);
    assert_eq!(wrap_text("averyveryverylongword x", 4), vec!["averyveryverylongword", "x"]);
    assert_eq!(wrap_text("é é", 5), vec!["é é"]);
    assert_eq!(wrap_text("é é", 4), vec!["é", "é"]);
}

#[test]
fn wrapping_keeps_every_word() {
    let text = "uno dos  tres\tcuatro cinco seis siete ocho nueve diez";
    let lines = wrap_text(text, 12);
    assert_eq!(lines.join(" "), text.split_whitespace().collect::<Vec<_>>().join(" "));
}

#[test]
fn report_rows() {
    let items = build_response_code_items(&base(), &translations(), None);
    let rows = rows_from_items(&items);
    assert_eq!(rows.len(), 4);
    assert_eq!(rows[0].code, "30000");
    assert_eq!(rows[0].kind, "Auth");
    assert_eq!(rows[1].code, "");
    assert_eq!(rows[1].kind, "");
    assert_eq!(rows[1].lang, "es");
    assert_eq!(rows[3].code, "40000");
    assert_eq!(rows[3].message_lines, vec!["Peer name required"]);
    let negative = vec![ResponseCodeItem {
        code: -5,
        kind: "K".to_string(),
        translations: vec![ResponseCodeTranslationItem { lang: "en".to_string(), message: "m".to_string() }],
    }];
    assert_eq!(rows_from_items(&negative)[0].code, "-5");
}

fn row(lines: usize) -> PdfRow {
    PdfRow { code: String::new(), kind: String::new(), lang: "en".to_string(), message_lines: vec!["x".to_string(); lines] }
}

#[test]
fn row_heights() {
    assert_eq!(row_height(&row(0)), 18);
    assert_eq!(row_height(&row(1)), 18);
    assert_eq!(row_height(&row(3)), 42);
}

#[test]
fn pagination() {
    let rows: Vec<PdfRow> = (0..40).map(|_| row(1)).collect();
    let pages = paginate_rows(&rows);
    assert_eq!(pages.len(), 2);
    assert_eq!(pages[0].len(), 37);
    assert_eq!(pages[1].len(), 3);
    let empty = paginate_rows(&Vec::new());
    assert_eq!(empty.len(), 1);
    assert_eq!(empty[0].len(), 0);
    let tall = vec![row(100), row(1)];
    let pages = paginate_rows(&tall);
    assert_eq!(pages.len(), 2);
    assert_eq!(pages[0].len(), 1);
}

#[test]
fn pages_take_rows_until_the_next_does_not_fit() {
    // rows of one line are 18 points tall: 37 of them take 666 of the 672 points
    let rows: Vec<PdfRow> = (0..38).map(|_| row(1)).collect();
    let pages = paginate_rows(&rows);
    assert_eq!(pages.len(), 2);
    assert_eq!(pages[0].len(), 37);
    assert_eq!(pages[1].len(), 1);
    // a row taller than the table has a page of its own
    let rows = vec![row(1), row(70), row(1)];
    let pages = paginate_rows(&rows);
    assert_eq!(pages.iter().map(|p| p.len()).collect::<Vec<_>>(), vec![1, 1, 1]);
}
