use bifrost_gate::catalogue::{
    blank_field_refusal, catalogue_write_failed, code_removed, code_saved, code_update_refusal, new_code_refusal,
    report_disposition, report_filename, report_timezone, translation_language, translation_removed,
    translation_saved, CatalogueWrite,
};
use bifrost_gate::pdf::{build_simple_pdf, render_page_content};
use bifrost_gate::response_codes::{PdfRow, ResponseCodeItem, ResponseCodeTranslationItem};

fn one_row() -> PdfRow {
    PdfRow {
        code: "20000".to_string(),
        kind: "OK".to_string(),
        lang: "en".to_string(),
        message_lines: vec!["Fine (all)".to_string()],
    }
}

#[test]
fn page_drawing_is_exact() {
    let page = render_page_content(&vec![one_row()], 1, 1, "2024-01-01 00:00:00 UTC");
    let expected = [
        "BT\n/F2 18 Tf\n40 807 Td\n(Bifrost Gateway Service) Tj\nET\n",
        "BT\n/F1 10 Tf\n40 790 Td\n(Response Codes Report) Tj\nET\n",
        "0.75 G\n40 784 m 555 784 l S\n0 G\n",
        "0.93 g\n40 742 515 18 re f\n0 g\n0.85 G\n",
        "40 760 m 555 760 l S\n40 742 m 555 742 l S\n40 760 m 40 742 l S\n100 760 m 100 742 l S\n",
        "210 760 m 210 742 l S\n270 760 m 270 742 l S\n555 760 m 555 742 l S\n0 G\n",
        "BT\n/F2 10 Tf\n44 747 Td\n(CODE) Tj\nET\n",
        "BT\n/F2 10 Tf\n104 747 Td\n(TYPE) Tj\nET\n",
        "BT\n/F2 10 Tf\n214 747 Td\n(LANG) Tj\nET\n",
        "BT\n/F2 10 Tf\n274 747 Td\n(MESSAGE) Tj\nET\n",
        "0.9 G\n40 724 m 555 724 l S\n40 742 m 40 724 l S\n100 742 m 100 724 l S\n",
        "210 742 m 210 724 l S\n270 742 m 270 724 l S\n555 742 m 555 724 l S\n0 G\n",
        "BT\n/F1 10 Tf\n44 730 Td\n(20000) Tj\nET\n",
        "BT\n/F1 10 Tf\n104 730 Td\n(OK) Tj\nET\n",
        "BT\n/F1 10 Tf\n214 730 Td\n(en) Tj\nET\n",
        "BT\n/F1 10 Tf\n274 730 Td\n(Fine \\(all\\)) Tj\nET\n",
        "0.75 G\n40 44 m 555 44 l S\n0 G\n",
        "BT\n/F1 9 Tf\n40 30 Td\n(Generated at 2024-01-01 00:00:00 UTC) Tj\nET\n",
        "BT\n/F1 9 Tf\n470 30 Td\n(Page 1 of 1) Tj\nET\n",
    ]
    .concat();
    assert_eq!(page, expected);
}

#[test]
fn message_lines_go_down_twelve_points() {
    let mut row = one_row();
    row.message_lines = vec!["a".to_string(), "b".to_string(), "c".to_string()];
    let page = render_page_content(&vec![row], 2, 3, "now");
    assert!(page.contains("40 700 m 555 700 l S\n"));
    assert!(page.contains("BT\n/F1 10 Tf\n274 730 Td\n(a) Tj\nET\n"));
    assert!(page.contains("BT\n/F1 10 Tf\n274 718 Td\n(b) Tj\nET\n"));
    assert!(page.contains("BT\n/F1 10 Tf\n274 706 Td\n(c) Tj\nET\n"));
    assert!(page.ends_with("(Page 2 of 3) Tj\nET\n"));
}

fn items() -> Vec<ResponseCodeItem> {
    vec![ResponseCodeItem {
        code: 30000,
        kind: "Auth".to_string(),
        translations: vec![
            ResponseCodeTranslationItem { lang: "en".to_string(), message: "API Key Required".to_string() },
            ResponseCodeTranslationItem { lang: "es".to_string(), message: "Clave requerida ñ".to_string() },
        ],
    }]
}

fn check_cross_references(pdf: &[u8], objects: usize) {
    let text = String::from_utf8(pdf.to_vec()).unwrap();
    assert!(text.starts_with("%PDF-1.4\n"));
    assert!(text.ends_with("\n%%EOF\n"));
    let xref = text.find("xref\n").unwrap();
    let tail = &text[xref..];
    let lines: Vec<&str> = tail.lines().collect();
    assert_eq!(lines[1], format!("0 {}", objects + 1));
    assert_eq!(lines[2], "0000000000 65535 f ");
    for id in 1..=objects {
        let entry = lines[2 + id];
        assert_eq!(entry.len(), 19);
        let off: usize = entry[..10].parse().unwrap();
        assert!(pdf[off..].starts_with(format!("{} 0 obj\n", id).as_bytes()));
    }
    let start = text.rfind("startxref\n").unwrap();
    let pos: usize = text[start + 10..text.len() - 7].parse().unwrap();
    assert_eq!(pos, xref);
}

#[test]
fn report_document_is_well_formed() {
    let pdf = build_simple_pdf(&items(), "2024-01-01 00:00:00 UTC");
    check_cross_references(&pdf, 6);
    let text = String::from_utf8(pdf.clone()).unwrap();
    assert!(text.contains("2 0 obj\n<< /Type /Pages /Kids [5 0 R] /Count 1 >>\nendobj\n"));
    assert!(text.contains("5 0 obj\n<< /Type /Page /Parent 2 0 R /MediaBox [0 0 595 842] /Resources << /Font << /F1 3 0 R /F2 4 0 R >> >> /Contents 6 0 R >>\nendobj\n"));
    let page = render_page_content(
        &bifrost_gate::response_codes::rows_from_items(&items()),
        1,
        1,
        "2024-01-01 00:00:00 UTC",
    );
    let stream = format!("6 0 obj\n<< /Length {} >>\nstream\n{}endstream\nendobj\n", page.len(), page);
    assert!(text.contains(&stream));
}

#[test]
fn empty_report_has_one_page() {
    let pdf = build_simple_pdf(&Vec::new(), "t");
    check_cross_references(&pdf, 6);
    let text = String::from_utf8(pdf).unwrap();
    assert!(text.contains("/Kids [5 0 R] /Count 1"));
    assert!(text.contains("(Page 1 of 1)"));
}

#[test]
fn long_report_has_several_pages() {
    let many: Vec<ResponseCodeItem> = (0..60)
        .map(|i| ResponseCodeItem {
            code: i,
            kind: "K".to_string(),
            translations: vec![ResponseCodeTranslationItem { lang: "en".to_string(), message: "m".to_string() }],
        })
        .collect();
    let pdf = build_simple_pdf(&many, "t");
    check_cross_references(&pdf, 8);
    let text = String::from_utf8(pdf).unwrap();
    assert!(text.contains("/Kids [5 0 R 7 0 R] /Count 2"));
    assert!(text.contains("(Page 2 of 2)"));
}

#[test]
fn catalogue_refusals() {
    let r = new_code_refusal("  ", "x").unwrap();
    assert_eq!((r.status, r.response_code, r.action.as_str(), r.success), (400, 40010, "create", false));
    assert_eq!(r.message, "type y message_en son requeridos");
    assert!(new_code_refusal("Auth", "Required").is_none());
    let r = code_update_refusal(None, None).unwrap();
    assert_eq!(r.message, "Debe enviar al menos type o message_en");
    let r = code_update_refusal(Some(" "), Some("x")).unwrap();
    assert_eq!(r.message, "type no puede estar vacío");
    assert!(code_update_refusal(None, Some(" ")).is_none());
    let r = blank_field_refusal("update", "message_en", "\t").unwrap();
    assert_eq!(r.message, "message_en no puede estar vacío");
    assert!(blank_field_refusal("set-lang", "message", "hola").is_none());
}

#[test]
fn english_is_no_translation() {
    let (lang, refusal) = translation_language("EN-us", false);
    assert_eq!(lang, "en");
    let r = refusal.unwrap();
    assert_eq!((r.status, r.action.as_str()), (400, "set-lang"));
    assert_eq!(r.message, "Para inglés use message_en del código base");
    let (_, refusal) = translation_language("en", true);
    assert_eq!(refusal.unwrap().message, "No se puede eliminar inglés del código base");
    let (lang, refusal) = translation_language(" ES-es ", false);
    assert_eq!(lang, "es");
    assert!(refusal.is_none());
}

#[test]
fn catalogue_outcomes() {
    let r = catalogue_write_failed(CatalogueWrite::SetTranslation, "disk full");
    assert_eq!((r.status, r.response_code, r.action.as_str()), (500, 50000, "set-lang"));
    assert_eq!(r.message, "No se pudo guardar traducción: disk full");
    let r = code_saved(30000, true);
    assert_eq!((r.status, r.response_code, r.message.as_str()), (201, 30000, "Response code guardado"));
    let r = code_saved(30000, false);
    assert_eq!((r.status, r.action.as_str()), (200, "update"));
    let r = code_removed(30000, 0);
    assert_eq!((r.status, r.response_code, r.success), (404, 40400, false));
    let r = code_removed(30000, 1);
    assert_eq!((r.status, r.response_code, r.message.as_str()), (200, 30000, "Response code eliminado"));
    assert_eq!(translation_saved(1, "es").message, "Traducción 'es' guardada");
    assert_eq!(translation_removed(1, "es", 0).message, "No existe traducción 'es' para ese code");
    assert_eq!(translation_removed(1, "es", 2).message, "Traducción 'es' eliminada");
}

#[test]
fn report_naming() {
    assert_eq!(report_filename(Some("es-ES")), "response_codes_es.pdf");
    assert_eq!(report_filename(None), "response_codes_all.pdf");
    assert_eq!(report_disposition("a.pdf"), "attachment; filename=\"a.pdf\"");
    assert_eq!(report_timezone(Some("  "), Some("UTC")), None);
    assert_eq!(report_timezone(None, Some(" Europe/Madrid ")), Some("Europe/Madrid".to_string()));
    assert_eq!(report_timezone(Some("America/Bogota"), None), Some("America/Bogota".to_string()));
    assert_eq!(report_timezone(None, None), None);
}

#[test]
fn a_row_taller_than_the_page_goes_below_it() {
    let tall = PdfRow {
        code: "1".to_string(),
        kind: "K".to_string(),
        lang: "en".to_string(),
        message_lines: vec!["x".to_string(); 70],
    };
    let page = render_page_content(&vec![tall], 1, 1, "t");
    // the row is 70 * 12 + 6 = 846 points tall, so its bottom border is at 742 - 846
    assert!(page.contains("40 -104 m 555 -104 l S\n"));
    // its last line of message is at 742 - 12 - 69 * 12
    assert!(page.contains("274 -98 Td\n"));
}
