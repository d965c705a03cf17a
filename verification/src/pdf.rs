//! The PDF report of the response-code catalogue: the drawing of each page and
//! the document around the pages.
//!
//! Coordinates are whole points, written as decimal integers.
use vstd::prelude::*;

use crate::commands::utf8_len;
use crate::response_codes::{
    item_model, line_counts, lemma_utf8_len_bound, pages_of, paginate_rows, pdf_escaped,
    report_rows, row_h, row_height, row_model, rows_from_items, rows_view, lemma_pages_fit, page_height,
    utf8_len_exec, PdfRow, ResponseCodeItem, RowModel, escape_pdf_text,
};
use crate::text::{
    append_chars, append_str, char_utf8_width, chars_to_string, decimal, decimal_signed,
    i64_decimal, str_chars, trim_end, trim_end_chars, u64_decimal, views,
};

verus! {

pub open spec fn num(n: int) -> Seq<char> {
    decimal_signed(n)
}

/// Draws `text` in `font` at (`x`, `y`).
#[verifier::opaque]
pub open spec fn text_op(font: Seq<char>, size: int, x: int, y: int, text: Seq<char>) -> Seq<char> {
    "BT\n/"@ + font + " "@ + num(size) + " Tf\n"@ + num(x) + " "@ + num(y) + " Td\n("@ + pdf_escaped(text)
        + ") Tj\nET\n"@
}

/// Strokes the line from (`x1`, `y1`) to (`x2`, `y2`).
#[verifier::opaque]
pub open spec fn line_op(x1: int, y1: int, x2: int, y2: int) -> Seq<char> {
    num(x1) + " "@ + num(y1) + " m "@ + num(x2) + " "@ + num(y2) + " l S\n"@
}

/// The title, the rule under it and the header row of the table (from 760 down to 742).
#[verifier::opaque]
pub open spec fn page_head() -> Seq<char> {
    text_op("F2"@, 18, 40, 807, "Bifrost Gateway Service"@) + text_op("F1"@, 10, 40, 790, "Response Codes Report"@)
        + "0.75 G\n40 784 m 555 784 l S\n0 G\n"@ + "0.93 g\n"@ + "40 742 515 18 re f\n"@ + "0 g\n"@ + "0.85 G\n"@
        + line_op(40, 760, 555, 760) + line_op(40, 742, 555, 742) + line_op(40, 760, 40, 742) + line_op(
        100,
        760,
        100,
        742,
    ) + line_op(210, 760, 210, 742) + line_op(270, 760, 270, 742) + line_op(555, 760, 555, 742) + "0 G\n"@
        + text_op("F2"@, 10, 44, 747, "CODE"@) + text_op("F2"@, 10, 104, 747, "TYPE"@) + text_op(
        "F2"@,
        10,
        214,
        747,
        "LANG"@,
    ) + text_op("F2"@, 10, 274, 747, "MESSAGE"@)
}

/// The lines of a message, 12 points apart from `y` down.
pub open spec fn message_ops(lines: Seq<Seq<char>>, y: int) -> Seq<char>
    decreases lines.len(),
{
    if lines.len() == 0 {
        seq![]
    } else {
        message_ops(lines.drop_last(), y) + text_op("F1"@, 10, 274, y - (lines.len() - 1) * 12, lines.last())
    }
}

/// A row of the table whose top is at `y`: its borders, then its cells.
#[verifier::opaque]
pub open spec fn row_ops(r: RowModel, y: int) -> Seq<char> {
    let ny = y - row_h(r.3.len());
    let ty = y - 12;
    "0.9 G\n"@ + line_op(40, ny, 555, ny) + line_op(40, y, 40, ny) + line_op(100, y, 100, ny) + line_op(
        210,
        y,
        210,
        ny,
    ) + line_op(270, y, 270, ny) + line_op(555, y, 555, ny) + "0 G\n"@ + text_op("F1"@, 10, 44, ty, r.0)
        + text_op("F1"@, 10, 104, ty, r.1) + text_op("F1"@, 10, 214, ty, r.2) + message_ops(r.3, ty)
}

/// The rows of a page, one under the other from `y` down.
pub open spec fn rows_ops(rs: Seq<RowModel>, y: int) -> Seq<char>
    decreases rs.len(),
{
    if rs.len() == 0 {
        seq![]
    } else {
        row_ops(rs[0], y) + rows_ops(rs.drop_first(), y - row_h(rs[0].3.len()))
    }
}

/// The rule above the footer, the time of the report and the page number.
#[verifier::opaque]
pub open spec fn page_foot(page: nat, total: nat, generated_at: Seq<char>) -> Seq<char> {
    "0.75 G\n40 44 m 555 44 l S\n0 G\n"@ + text_op("F1"@, 9, 40, 30, "Generated at "@ + generated_at) + text_op(
        "F1"@,
        9,
        470,
        30,
        "Page "@ + decimal(page) + " of "@ + decimal(total),
    )
}

/// The drawing of one page of the report.
pub open spec fn page_content(rs: Seq<RowModel>, page: nat, total: nat, generated_at: Seq<char>) -> Seq<char> {
    page_head() + rows_ops(rs, 742) + page_foot(page, total, generated_at)
}

fn num_chars(n: i128) -> (r: Vec<char>)
    requires
        n > i128::MIN,
    ensures
        r@ == num(n as int),
{
    if n < 0 {
        let m: u128 = (-n) as u128;
        let mut v: Vec<char> = Vec::new();
        v.push('-');
        let d = u128_decimal(m);
        append_chars(&mut v, &d);
        assert(v@ =~= seq!['-'] + decimal(m as nat));
        v
    } else {
        u128_decimal(n as u128)
    }
}

fn text_op_chars(font: &str, size: i128, x: i128, y: i128, text: &str) -> (r: Vec<char>)
    requires
        size > i128::MIN,
        x > i128::MIN,
        y > i128::MIN,
    ensures
        r@ == text_op(font@, size as int, x as int, y as int, text@),
{
    let mut v = str_chars("BT\n/");
    append_str(&mut v, font);
    append_str(&mut v, " ");
    append_chars(&mut v, &num_chars(size));
    append_str(&mut v, " Tf\n");
    append_chars(&mut v, &num_chars(x));
    append_str(&mut v, " ");
    append_chars(&mut v, &num_chars(y));
    append_str(&mut v, " Td\n(");
    let e = escape_pdf_text(text);
    append_str(&mut v, e.as_str());
    append_str(&mut v, ") Tj\nET\n");
    proof {
        reveal(text_op);
    }
    v
}

fn line_op_chars(x1: i128, y1: i128, x2: i128, y2: i128) -> (r: Vec<char>)
    requires
        x1 > i128::MIN,
        y1 > i128::MIN,
        x2 > i128::MIN,
        y2 > i128::MIN,
    ensures
        r@ == line_op(x1 as int, y1 as int, x2 as int, y2 as int),
{
    let mut v = num_chars(x1);
    append_str(&mut v, " ");
    append_chars(&mut v, &num_chars(y1));
    append_str(&mut v, " m ");
    append_chars(&mut v, &num_chars(x2));
    append_str(&mut v, " ");
    append_chars(&mut v, &num_chars(y2));
    append_str(&mut v, " l S\n");
    proof {
        reveal(line_op);
    }
    v
}

fn page_head_chars() -> (r: Vec<char>)
    ensures
        r@ == page_head(),
{
    let mut v = text_op_chars("F2", 18, 40, 807, "Bifrost Gateway Service");
    append_chars(&mut v, &text_op_chars("F1", 10, 40, 790, "Response Codes Report"));
    append_str(&mut v, "0.75 G\n40 784 m 555 784 l S\n0 G\n");
    append_str(&mut v, "0.93 g\n");
    append_str(&mut v, "40 742 515 18 re f\n");
    append_str(&mut v, "0 g\n");
    append_str(&mut v, "0.85 G\n");
    append_chars(&mut v, &line_op_chars(40, 760, 555, 760));
    append_chars(&mut v, &line_op_chars(40, 742, 555, 742));
    append_chars(&mut v, &line_op_chars(40, 760, 40, 742));
    append_chars(&mut v, &line_op_chars(100, 760, 100, 742));
    append_chars(&mut v, &line_op_chars(210, 760, 210, 742));
    append_chars(&mut v, &line_op_chars(270, 760, 270, 742));
    append_chars(&mut v, &line_op_chars(555, 760, 555, 742));
    append_str(&mut v, "0 G\n");
    append_chars(&mut v, &text_op_chars("F2", 10, 44, 747, "CODE"));
    append_chars(&mut v, &text_op_chars("F2", 10, 104, 747, "TYPE"));
    append_chars(&mut v, &text_op_chars("F2", 10, 214, 747, "LANG"));
    append_chars(&mut v, &text_op_chars("F2", 10, 274, 747, "MESSAGE"));
    proof {
        reveal(page_head);
    }
    v
}

fn row_chars(row: &PdfRow, y: i128) -> (r: Vec<char>)
    requires
        -1_000_000_000_000_000_000_000_000_000_000 <= y <= 742,
    ensures
        r@ == row_ops(row_model(*row), y as int),
{
    let ghost r = row_model(*row);
    let h = row_height(row);
    let ny = y - h;
    let ty = y - 12;
    let mut v = str_chars("0.9 G\n");
    append_chars(&mut v, &line_op_chars(40, ny, 555, ny));
    append_chars(&mut v, &line_op_chars(40, y, 40, ny));
    append_chars(&mut v, &line_op_chars(100, y, 100, ny));
    append_chars(&mut v, &line_op_chars(210, y, 210, ny));
    append_chars(&mut v, &line_op_chars(270, y, 270, ny));
    append_chars(&mut v, &line_op_chars(555, y, 555, ny));
    append_str(&mut v, "0 G\n");
    append_chars(&mut v, &text_op_chars("F1", 10, 44, ty, row.code.as_str()));
    append_chars(&mut v, &text_op_chars("F1", 10, 104, ty, row.kind.as_str()));
    append_chars(&mut v, &text_op_chars("F1", 10, 214, ty, row.lang.as_str()));
    let ghost before = v@;
    let mut k: usize = 0;
    assert(r.3.take(0) =~= Seq::<Seq<char>>::empty());
    assert(before + message_ops(r.3.take(0), ty as int) =~= before);
    while k < row.message_lines.len()
        invariant
            k <= row.message_lines.len(),
            -1_000_000_000_000_000_000_000_000_000_000 <= y <= 742,
            ty == y - 12,
            r == row_model(*row),
            v@ == before + message_ops(r.3.take(k as int), ty as int),
        decreases row.message_lines.len() - k,
    {
        let ghost t = r.3.take(k + 1);
        assert(t.drop_last() =~= r.3.take(k as int));
        assert(t.last() == row.message_lines@[k as int]@);
        let dy: i128 = (k as i128) * 12;
        let ghost o = v@;
        append_chars(&mut v, &text_op_chars("F1", 10, 274, ty - dy, row.message_lines[k].as_str()));
        assert(message_ops(t, ty as int) == message_ops(r.3.take(k as int), ty as int) + text_op("F1"@, 10, 274, ty - dy, row.message_lines@[k as int]@));
        assert(v@ =~= before + message_ops(t, ty as int));
        k += 1;
    }
    assert(r.3.take(row.message_lines.len() as int) =~= r.3);
    proof {
        reveal(row_ops);
    }
    v
}

/// The number of message lines of the rows.
pub open spec fn model_lines(rs: Seq<RowModel>) -> nat
    decreases rs.len(),
{
    if rs.len() == 0 {
        0
    } else {
        model_lines(rs.drop_last()) + rs.last().3.len()
    }
}

proof fn lemma_model_lines_take(rs: Seq<RowModel>, i: int)
    requires
        0 <= i <= rs.len(),
    ensures
        model_lines(rs.take(i)) <= model_lines(rs),
    decreases rs.len(),
{
    if i == rs.len() {
        assert(rs.take(i) =~= rs);
    } else {
        lemma_model_lines_take(rs.drop_last(), i);
        assert(rs.drop_last().take(i) =~= rs.take(i));
    }
}

/// The drawing of one page of the report (see `page_content`). Its rows' message
/// lines are at most `usize::MAX` in all, as lines held in memory always are.
pub fn render_page_content(rows: &Vec<PdfRow>, page: usize, total_pages: usize, generated_at: &str) -> (r: String)
    requires
        model_lines(rows_view(rows@)) <= usize::MAX,
    ensures
        r@ == page_content(rows_view(rows@), page as nat, total_pages as nat, generated_at@),
{
    let ghost rv = rows_view(rows@);
    let mut body: Vec<char> = Vec::new();
    let mut y: i128 = 742;
    let mut i: usize = 0;
    assert(rv.skip(0) =~= rv);
    assert(body@ + rows_ops(rv.skip(0), 742) =~= rows_ops(rv, 742));
    while i < rows.len()
        invariant
            i <= rows.len(),
            rv == rows_view(rows@),
            model_lines(rv) <= usize::MAX,
            742 - y <= 18 * i + 12 * model_lines(rv.take(i as int)),
            y <= 742,
            body@ + rows_ops(rv.skip(i as int), y as int) == rows_ops(rv, 742),
        decreases rows.len() - i,
    {
        proof {
            lemma_model_lines_take(rv, i as int);
            let t = rv.take(i + 1);
            assert(t.drop_last() =~= rv.take(i as int));
            assert(t.last() == rv[i as int]);
            assert(rv[i as int].3.len() == rows@[i as int].message_lines@.len());
            lemma_model_lines_take(rv, i + 1);
        }
        let ghost rest = rv.skip(i as int);
        assert(rest[0] == row_model(rows@[i as int]));
        assert(rest.drop_first() =~= rv.skip(i + 1));
        let ghost ob = body@;
        let rc = row_chars(&rows[i], y);
        append_chars(&mut body, &rc);
        let h = row_height(&rows[i]);
        assert(rows_ops(rest, y as int) == row_ops(rest[0], y as int) + rows_ops(rest.drop_first(), y - h));
        assert(body@ + rows_ops(rv.skip(i + 1), y - h) =~= ob + rows_ops(rest, y as int));
        y = y - h;
        i += 1;
    }
    assert(rv.skip(rows.len() as int) =~= Seq::<RowModel>::empty());
    assert(body@ =~= rows_ops(rv, 742));
    let mut foot = str_chars("0.75 G\n40 44 m 555 44 l S\n0 G\n");
    let mut gen = str_chars("Generated at ");
    append_str(&mut gen, generated_at);
    let gs = chars_to_string(&gen);
    append_chars(&mut foot, &text_op_chars("F1", 9, 40, 30, gs.as_str()));
    let mut pg = str_chars("Page ");
    append_chars(&mut pg, &u64_decimal(page as u64));
    append_str(&mut pg, " of ");
    append_chars(&mut pg, &u64_decimal(total_pages as u64));
    let ps = chars_to_string(&pg);
    append_chars(&mut foot, &text_op_chars("F1", 9, 470, 30, ps.as_str()));
    proof {
        reveal(page_foot);
    }
    let mut out = page_head_chars();
    append_chars(&mut out, &body);
    append_chars(&mut out, &foot);
    chars_to_string(&out)
}


// ───────────────────────────── the document ─────────────────────────────

/// The rows of each page, for the rows of the report.
pub open spec fn report_pages(rv: Seq<RowModel>) -> Seq<Seq<RowModel>> {
    let pages = pages_of(rv.map_values(|r: RowModel| r.3.len()));
    Seq::new(pages.len(), |p: int| pages[p].map_values(|i: int| rv[i]))
}

pub open spec fn items_rows(items: Seq<ResponseCodeItem>) -> Seq<RowModel> {
    report_rows(items.map_values(|i: ResponseCodeItem| item_model(i)))
}

/// The references to the page objects: `5 0 R 7 0 R ...`, each followed by a space.
pub open spec fn kids(n: nat) -> Seq<char>
    decreases n,
{
    if n == 0 {
        seq![]
    } else {
        kids((n - 1) as nat) + decimal(5 + 2 * (n - 1) as nat) + " 0 R "@
    }
}

pub open spec fn pages_obj(n: nat) -> Seq<char> {
    "<< /Type /Pages /Kids ["@ + trim_end(kids(n)) + "] /Count "@ + decimal(n) + " >>"@
}

pub open spec fn page_obj(i: nat) -> Seq<char> {
    "<< /Type /Page /Parent 2 0 R /MediaBox [0 0 595 842] /Resources << /Font << /F1 3 0 R /F2 4 0 R >> >> /Contents "@
        + decimal(6 + 2 * i) + " 0 R >>"@
}

pub open spec fn stream_obj(content: Seq<char>) -> Seq<char> {
    "<< /Length "@ + decimal(utf8_len(content)) + " >>\nstream\n"@ + content + "endstream"@
}

/// The page and content objects of the first `k` pages.
pub open spec fn page_objects(pages: Seq<Seq<RowModel>>, g: Seq<char>, k: nat) -> Seq<Seq<char>>
    decreases k,
{
    if k == 0 {
        seq![]
    } else {
        page_objects(pages, g, (k - 1) as nat) + seq![
            page_obj((k - 1) as nat),
            stream_obj(page_content(pages[k - 1], k, pages.len(), g)),
        ]
    }
}

/// The objects of the document, object 1 first: the catalog, the page tree, the two
/// fonts, then each page and its content.
pub open spec fn pdf_objects(pages: Seq<Seq<RowModel>>, g: Seq<char>) -> Seq<Seq<char>> {
    seq![
        "<< /Type /Catalog /Pages 2 0 R >>"@,
        pages_obj(pages.len()),
        "<< /Type /Font /Subtype /Type1 /BaseFont /Helvetica >>"@,
        "<< /Type /Font /Subtype /Type1 /BaseFont /Helvetica-Bold >>"@,
    ] + page_objects(pages, g, pages.len())
}

/// The header and the objects of the document, with the byte offset of each object.
pub open spec fn body_fold(objs: Seq<Seq<char>>) -> (Seq<char>, Seq<nat>)
    decreases objs.len(),
{
    if objs.len() == 0 {
        ("%PDF-1.4\n"@, seq![])
    } else {
        let b = body_fold(objs.drop_last());
        (
            b.0 + decimal(objs.len()) + " 0 obj\n"@ + objs.last() + "\nendobj\n"@,
            b.1.push(utf8_len(b.0)),
        )
    }
}

/// `n` written in decimal with zeros in front up to ten digits.
pub open spec fn pad10(n: nat) -> Seq<char> {
    let d = decimal(n);
    if d.len() < 10 {
        Seq::new((10 - d.len()) as nat, |i: int| '0') + d
    } else {
        d
    }
}

pub open spec fn xref_entries(offs: Seq<nat>) -> Seq<char>
    decreases offs.len(),
{
    if offs.len() == 0 {
        seq![]
    } else {
        xref_entries(offs.drop_last()) + pad10(offs.last()) + " 00000 n \n"@
    }
}

/// The text of the PDF document of the pages: header, objects, cross-reference
/// table and trailer.
pub open spec fn pdf_document(pages: Seq<Seq<RowModel>>, g: Seq<char>) -> Seq<char> {
    let objs = pdf_objects(pages, g);
    let b = body_fold(objs);
    b.0 + "xref\n0 "@ + decimal(objs.len() + 1) + "\n"@ + "0000000000 65535 f \n"@ + xref_entries(b.1)
        + "trailer\n<< /Size "@ + decimal(objs.len() + 1) + " /Root 1 0 R >>\n"@ + "startxref\n"@ + decimal(
        utf8_len(b.0),
    ) + "\n%%EOF\n"@
}

/// The UTF-8 encoding of a character: one byte below 0x80, else a lead byte
/// carrying the top bits and one continuation byte (0x80 plus six bits) for each
/// further six bits.
pub open spec fn utf8_char(c: char) -> Seq<u8> {
    let n = c as u32 as int;
    if n < 0x80 {
        seq![n as u8]
    } else if n < 0x800 {
        seq![(0xC0 + n / 64) as u8, (0x80 + n % 64) as u8]
    } else if n < 0x10000 {
        seq![(0xE0 + n / 4096) as u8, (0x80 + (n / 64) % 64) as u8, (0x80 + n % 64) as u8]
    } else {
        seq![
            (0xF0 + n / 262144) as u8,
            (0x80 + (n / 4096) % 64) as u8,
            (0x80 + (n / 64) % 64) as u8,
            (0x80 + n % 64) as u8,
        ]
    }
}

/// The bytes of the UTF-8 encoding of `text`, character after character.
pub open spec fn utf8_bytes(text: Seq<char>) -> Seq<u8>
    decreases text.len(),
{
    if text.len() == 0 {
        seq![]
    } else {
        utf8_bytes(text.drop_last()) + utf8_char(text.last())
    }
}

/// The encoding takes as many bytes as `String::len` counts.
pub proof fn lemma_utf8_bytes_len(text: Seq<char>)
    ensures
        utf8_bytes(text).len() == utf8_len(text),
    decreases text.len(),
{
    if text.len() > 0 {
        lemma_utf8_bytes_len(text.drop_last());
    }
}

/// `String::into_bytes`: the bytes of the string, which `String` keeps in UTF-8.
#[verifier::external_body]
fn into_bytes(s: String) -> (r: Vec<u8>)
    ensures
        r@ == utf8_bytes(s@),
{
    s.into_bytes()
}

fn u128_decimal(n: u128) -> (r: Vec<char>)
    ensures
        r@ == decimal(n as nat),
    decreases n,
{
    if n < 10 {
        let mut v: Vec<char> = Vec::new();
        let d: u8 = (n as u8) + 48;
        v.push(d as char);
        assert(v@ =~= seq![crate::text::digit_char(n as nat)]);
        v
    } else {
        let mut v = u128_decimal(n / 10);
        let d: u8 = ((n % 10) as u8) + 48;
        v.push(d as char);
        assert(v@ =~= decimal((n / 10) as nat).push(crate::text::digit_char((n % 10) as nat)));
        v
    }
}

fn pad10_chars(n: u128) -> (r: Vec<char>)
    ensures
        r@ == pad10(n as nat),
{
    let d = u128_decimal(n);
    if d.len() < 10 {
        let mut v: Vec<char> = Vec::new();
        let z = 10 - d.len();
        let mut k: usize = 0;
        while k < z
            invariant
                k <= z,
                z == 10 - d@.len(),
                v@ == Seq::new(k as nat, |i: int| '0'),
            decreases z - k,
        {
            v.push('0');
            k += 1;
            assert(v@ =~= Seq::new(k as nat, |i: int| '0'));
        }
        append_chars(&mut v, &d);
        v
    } else {
        d
    }
}

pub proof fn lemma_utf8_len_concat(a: Seq<char>, b: Seq<char>)
    ensures
        utf8_len(a + b) == utf8_len(a) + utf8_len(b),
    decreases b.len(),
{
    if b.len() > 0 {
        lemma_utf8_len_concat(a, b.drop_last());
        assert((a + b).drop_last() =~= a + b.drop_last());
        assert((a + b).last() == b.last());
    } else {
        assert(a + b =~= a);
    }
}

fn kids_chars(n: usize) -> (r: Vec<char>)
    ensures
        r@ == kids(n as nat),
{
    let mut v: Vec<char> = Vec::new();
    let mut k: usize = 0;
    while k < n
        invariant
            k <= n,
            v@ == kids(k as nat),
        decreases n - k,
    {
        append_chars(&mut v, &u128_decimal(5 + 2 * (k as u128)));
        append_str(&mut v, " 0 R ");
        k += 1;
    }
    v
}

/// The rows of each page, as models.
pub open spec fn pages_view(pages: Seq<Vec<PdfRow>>) -> Seq<Seq<RowModel>> {
    pages.map_values(|p: Vec<PdfRow>| rows_view(p@))
}

/// The objects of the document for the given pages, in order (see `pdf_objects`).
fn pdf_object_list(pages: &Vec<Vec<PdfRow>>, generated_at: &str) -> (r: Vec<Vec<char>>)
    requires
        forall|p: int| #![trigger pages@[p]] 0 <= p < pages.len() ==> model_lines(rows_view(pages@[p]@)) <= usize::MAX,
    ensures
        views(r@) == pdf_objects(pages_view(pages@), generated_at@),
        r@.len() == 4 + 2 * pages@.len(),
{
    let ghost pv = pages_view(pages@);
    let n = pages.len();
    let mut objects: Vec<Vec<char>> = Vec::new();
    objects.push(str_chars("<< /Type /Catalog /Pages 2 0 R >>"));
    let mut po = str_chars("<< /Type /Pages /Kids [");
    append_chars(&mut po, &trim_end_chars(&kids_chars(n)));
    append_str(&mut po, "] /Count ");
    append_chars(&mut po, &u64_decimal(n as u64));
    append_str(&mut po, " >>");
    objects.push(po);
    objects.push(str_chars("<< /Type /Font /Subtype /Type1 /BaseFont /Helvetica >>"));
    objects.push(str_chars("<< /Type /Font /Subtype /Type1 /BaseFont /Helvetica-Bold >>"));
    let ghost head = views(objects@);
    assert(head =~= seq![
        "<< /Type /Catalog /Pages 2 0 R >>"@,
        pages_obj(n as nat),
        "<< /Type /Font /Subtype /Type1 /BaseFont /Helvetica >>"@,
        "<< /Type /Font /Subtype /Type1 /BaseFont /Helvetica-Bold >>"@,
    ]);
    assert(head + page_objects(pv, generated_at@, 0) =~= head);
    let mut i: usize = 0;
    while i < n
        invariant
            i <= n,
            n == pages@.len(),
            pv == pages_view(pages@),
            forall|p: int| #![trigger pages@[p]] 0 <= p < pages.len() ==> model_lines(rows_view(pages@[p]@)) <= usize::MAX,
            views(objects@) == head + page_objects(pv, generated_at@, i as nat),
            objects@.len() == 4 + 2 * i,
        decreases n - i,
    {
        let mut p = str_chars(
            "<< /Type /Page /Parent 2 0 R /MediaBox [0 0 595 842] /Resources << /Font << /F1 3 0 R /F2 4 0 R >> >> /Contents ",
        );
        append_chars(&mut p, &u128_decimal(6 + 2 * (i as u128)));
        append_str(&mut p, " 0 R >>");
        assert(p@ == page_obj(i as nat));
        assert(model_lines(rows_view(pages@[i as int]@)) <= usize::MAX);
        let drawn = render_page_content(&pages[i], i + 1, n, generated_at);
        let content = str_chars(drawn.as_str());
        assert(pv[i as int] == rows_view(pages@[i as int]@));
        let mut st = str_chars("<< /Length ");
        append_chars(&mut st, &u128_decimal(utf8_len_exec(&content)));
        append_str(&mut st, " >>\nstream\n");
        append_chars(&mut st, &content);
        append_str(&mut st, "endstream");
        assert(st@ == stream_obj(page_content(pv[i as int], (i + 1) as nat, pv.len(), generated_at@)));
        let ghost o = objects@;
        objects.push(p);
        objects.push(st);
        assert(views(objects@) =~= views(o) + seq![p@, st@]);
        assert(page_objects(pv, generated_at@, (i + 1) as nat) == page_objects(pv, generated_at@, i as nat) + seq![
            page_obj(i as nat),
            stream_obj(page_content(pv[i as int], (i + 1) as nat, pv.len(), generated_at@)),
        ]);
        assert(views(objects@) =~= head + page_objects(pv, generated_at@, (i + 1) as nat));
        i += 1;
    }
    assert(views(objects@) =~= pdf_objects(pv, generated_at@));
    objects
}

/// The header and the numbered objects, with the byte offset of each object and
/// the length in bytes of the whole (see `body_fold`).
fn pdf_body(objects: &Vec<Vec<char>>) -> (r: (Vec<char>, u128, Vec<u128>))
    ensures
        r.0@ == body_fold(views(objects@)).0,
        r.1 == utf8_len(r.0@),
        r.2@.len() == body_fold(views(objects@)).1.len(),
        forall|k: int| 0 <= k < r.2@.len() ==> r.2@[k] as nat == #[trigger] body_fold(views(objects@)).1[k],
{
    let ghost objs = views(objects@);
    let mut pdf = str_chars("%PDF-1.4\n");
    proof {
        reveal_strlit("%PDF-1.4\n");
        assert(pdf@ =~= seq!['%', 'P', 'D', 'F', '-', '1', '.', '4', '\n']);
        reveal_with_fuel(utf8_len, 10);
    }
    let mut pdf_len: u128 = 9;
    let mut offsets: Vec<u128> = Vec::new();
    let mut id: usize = 0;
    assert(objs.take(0) =~= Seq::<Seq<char>>::empty());
    while id < objects.len()
        invariant
            id <= objects.len(),
            objs == views(objects@),
            pdf@ == body_fold(objs.take(id as int)).0,
            pdf_len == utf8_len(pdf@),
            offsets@.len() == body_fold(objs.take(id as int)).1.len(),
            forall|k: int| 0 <= k < offsets@.len() ==> offsets@[k] as nat == #[trigger] body_fold(objs.take(id as int)).1[k],
        decreases objects.len() - id,
    {
        let ghost t = objs.take(id + 1);
        assert(t.drop_last() =~= objs.take(id as int));
        assert(t.last() == objects@[id as int]@);
        let ghost ob = body_fold(objs.take(id as int));
        let ghost oo = offsets@;
        offsets.push(pdf_len);
        let mut piece = u64_decimal((id + 1) as u64);
        append_str(&mut piece, " 0 obj\n");
        append_chars(&mut piece, &objects[id]);
        append_str(&mut piece, "\nendobj\n");
        let w = utf8_len_exec(&piece);
        let ghost op = pdf@;
        append_chars(&mut pdf, &piece);
        proof {
            lemma_utf8_len_concat(op, piece@);
            lemma_utf8_len_bound(op);
            assert(pdf.len() <= usize::MAX);
            assert(piece.len() <= usize::MAX);
        }
        pdf_len = pdf_len + w;
        assert(pdf@ =~= ob.0 + decimal(t.len()) + " 0 obj\n"@ + t.last() + "\nendobj\n"@);
        assert(body_fold(t).1 == ob.1.push(utf8_len(ob.0)));
        assert forall|k: int| 0 <= k < offsets@.len() implies offsets@[k] as nat == #[trigger] body_fold(t).1[k] by {
            if k < oo.len() {
                assert(offsets@[k] == oo[k]);
            }
        }
        id += 1;
    }
    assert(objs.take(objects.len() as int) =~= objs);
    (pdf, pdf_len, offsets)
}

/// The entries of the cross-reference table for the given offsets.
fn xref_chars(offsets: &Vec<u128>, offs: Ghost<Seq<nat>>) -> (r: Vec<char>)
    requires
        offsets@.len() == offs@.len(),
        forall|k: int| 0 <= k < offsets@.len() ==> offsets@[k] as nat == #[trigger] offs@[k],
    ensures
        r@ == xref_entries(offs@),
{
    let mut v: Vec<char> = Vec::new();
    let mut k: usize = 0;
    assert(offs@.take(0) =~= Seq::<nat>::empty());
    while k < offsets.len()
        invariant
            k <= offsets.len(),
            offsets@.len() == offs@.len(),
            forall|j: int| 0 <= j < offsets@.len() ==> offsets@[j] as nat == #[trigger] offs@[j],
            v@ == xref_entries(offs@.take(k as int)),
        decreases offsets.len() - k,
    {
        let ghost t = offs@.take(k + 1);
        assert(t.drop_last() =~= offs@.take(k as int));
        assert(t.last() == offs@[k as int]);
        append_chars(&mut v, &pad10_chars(offsets[k]));
        append_str(&mut v, " 00000 n \n");
        k += 1;
    }
    assert(offs@.take(offsets.len() as int) =~= offs@);
    v
}

/// A row's lines take 12 points each, so the lines of a page are at most a twelfth
/// of its height.
proof fn lemma_page_lines(lc: Seq<nat>, rv: Seq<RowModel>, idx: Seq<int>)
    requires
        lc =~= rv.map_values(|r: RowModel| r.3.len()),
        forall|q: int| 0 <= q < idx.len() ==> 0 <= #[trigger] idx[q] < rv.len(),
    ensures
        12 * model_lines(idx.map_values(|j: int| rv[j])) <= page_height(lc, idx),
    decreases idx.len(),
{
    if idx.len() > 0 {
        let d = idx.drop_last();
        assert forall|q: int| 0 <= q < d.len() implies 0 <= #[trigger] d[q] < rv.len() by {
            assert(d[q] == idx[q]);
        }
        lemma_page_lines(lc, rv, d);
        let m = idx.map_values(|j: int| rv[j]);
        assert(m.drop_last() =~= d.map_values(|j: int| rv[j]));
        assert(idx.last() == idx[idx.len() - 1]);
        assert(m.last() == rv[idx.last()]);
        assert(lc[idx.last()] == rv[idx.last()].3.len());
    }
}

/// The PDF report of the items (see `pdf_document`), as bytes.
pub fn build_simple_pdf(items: &Vec<ResponseCodeItem>, generated_at: &str) -> (r: Vec<u8>)
    ensures
        r@ == utf8_bytes(pdf_document(report_pages(items_rows(items@)), generated_at@)),
        r@.len() == utf8_len(pdf_document(report_pages(items_rows(items@)), generated_at@)),
{
    let rows = rows_from_items(items);
    let ghost rv = rows_view(rows@);
    assert(rv == items_rows(items@));
    let ghost lc = line_counts(rows@);
    assert(lc =~= rv.map_values(|r: RowModel| r.3.len()));
    let pages = paginate_rows(&rows);
    let ghost pv = report_pages(rv);
    assert(pages_view(pages@) =~= pv) by {
        assert forall|p: int| 0 <= p < pv.len() implies #[trigger] pages_view(pages@)[p] == pv[p] by {
            assert(pages_view(pages@)[p] == rows_view(pages@[p]@));
            assert(pages_of(lc)[p].map_values(|j: int| rv[j]) =~= pv[p]);
        }
    }
    proof {
        lemma_pages_fit(lc);
        assert forall|p: int| #![trigger pages@[p]] 0 <= p < pages.len() implies model_lines(rows_view(pages@[p]@)) <= usize::MAX by {
            let idx = pages_of(lc)[p];
            assert(rows_view(pages@[p]@) == idx.map_values(|j: int| rv[j]));
            lemma_page_lines(lc, rv, idx);
            if idx.len() == 1 {
                let m = idx.map_values(|j: int| rv[j]);
                assert(m.drop_last().len() == 0);
                assert(model_lines(m.drop_last()) == 0);
                assert(m.last() == rv[idx[0]]);
                assert(model_lines(m) == rv[idx[0]].3.len());
                assert(rv[idx[0]] == row_model(rows@[idx[0]]));
                assert(rows@[idx[0]].message_lines.len() == rows@[idx[0]].message_lines@.len());
            }
        }
    }
    let objects = pdf_object_list(&pages, generated_at);
    let ghost objs = views(objects@);
    let ghost b = body_fold(objs);
    let (body, body_len, offsets) = pdf_body(&objects);
    let total: u128 = objects.len() as u128 + 1;
    let mut pdf = body;
    append_str(&mut pdf, "xref\n0 ");
    append_chars(&mut pdf, &u128_decimal(total));
    append_str(&mut pdf, "\n");
    append_str(&mut pdf, "0000000000 65535 f \n");
    append_chars(&mut pdf, &xref_chars(&offsets, Ghost(b.1)));
    append_str(&mut pdf, "trailer\n<< /Size ");
    append_chars(&mut pdf, &u128_decimal(total));
    append_str(&mut pdf, " /Root 1 0 R >>\n");
    append_str(&mut pdf, "startxref\n");
    append_chars(&mut pdf, &u128_decimal(body_len));
    append_str(&mut pdf, "\n%%EOF\n");
    assert(objs.len() == objects@.len());
    assert(pdf@ =~= pdf_document(pv, generated_at@));
    let r = into_bytes(chars_to_string(&pdf));
    proof {
        lemma_utf8_bytes_len(pdf@);
    }
    r
}

} // verus!
