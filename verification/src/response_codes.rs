//! The catalogue of response codes: the items listed by the API, and the rows and
//! pages of its PDF report.
use vstd::prelude::*;

use crate::commands::utf8_len;
use crate::i18n::{language_of, normalize_language_tag};
use crate::models::owned;
use crate::text::{
    append_chars, append_str, char_utf8_width, chars_eq, chars_to_string, clone_chars,
    decimal_signed, i64_decimal, lower, lower_chars, str_chars, tokens, tokens_chars, utf8_width,
    views,
};

verus! {

/// A code of the catalogue with its type and English message.
#[derive(Debug, Clone)]
pub struct ResponseCodeRow {
    pub code: i64,
    pub kind: String,
    pub message_en: String,
}

/// The message of a code in another language.
#[derive(Debug, Clone)]
pub struct ResponseTranslationRow {
    pub code: i64,
    pub lang: String,
    pub message: String,
}

#[derive(Debug, Clone)]
pub struct ResponseCodeTranslationItem {
    pub lang: String,
    pub message: String,
}

#[derive(Debug, Clone)]
pub struct ResponseCodeItem {
    pub code: i64,
    pub kind: String,
    pub translations: Vec<ResponseCodeTranslationItem>,
}

pub type Pairs = Seq<(Seq<char>, Seq<char>)>;

/// An item as values: its code, its type and its (language, message) pairs.
pub type ItemModel = (i64, Seq<char>, Pairs);

pub open spec fn translation_pairs(ts: Seq<ResponseCodeTranslationItem>) -> Pairs {
    ts.map_values(|t: ResponseCodeTranslationItem| (t.lang@, t.message@))
}

pub open spec fn item_model(i: ResponseCodeItem) -> ItemModel {
    (i.code, i.kind@, translation_pairs(i.translations@))
}

/// The translations of `code`, in the order stored, each language in ASCII lowercase.
pub open spec fn extras(trs: Seq<ResponseTranslationRow>, code: i64) -> Pairs
    decreases trs.len(),
{
    if trs.len() == 0 {
        seq![]
    } else {
        let p = extras(trs.drop_last(), code);
        if trs.last().code == code {
            p.push((lower(trs.last().lang@), trs.last().message@))
        } else {
            p
        }
    }
}

/// The first pair in language `lang`, if any.
pub open spec fn first_in_lang(ps: Pairs, lang: Seq<char>) -> Pairs
    decreases ps.len(),
{
    if ps.len() == 0 {
        seq![]
    } else if ps[0].0 == lang {
        seq![ps[0]]
    } else {
        first_in_lang(ps.drop_first(), lang)
    }
}

/// The messages listed for a code: the English one and every translation without a
/// filter; only the English one for `en`; only the first translation in the chosen
/// language otherwise.
pub open spec fn shown_translations(row: ResponseCodeRow, trs: Seq<ResponseTranslationRow>, filter: Option<Seq<char>>) -> Pairs {
    match filter {
        None => seq![("en"@, row.message_en@)] + extras(trs, row.code),
        Some(f) => if f == "en"@ {
            seq![("en"@, row.message_en@)]
        } else {
            first_in_lang(extras(trs, row.code), f)
        },
    }
}

/// The items of the catalogue, in the order of the codes, leaving out the codes
/// with nothing to show.
pub open spec fn code_items(base: Seq<ResponseCodeRow>, trs: Seq<ResponseTranslationRow>, filter: Option<Seq<char>>) -> Seq<ItemModel>
    decreases base.len(),
{
    if base.len() == 0 {
        seq![]
    } else {
        let p = code_items(base.drop_last(), trs, filter);
        let t = shown_translations(base.last(), trs, filter);
        if t.len() > 0 {
            p.push((base.last().code, base.last().kind@, t))
        } else {
            p
        }
    }
}

fn translation_item(lang: String, message: String) -> (r: ResponseCodeTranslationItem)
    ensures
        r.lang@ == lang@,
        r.message@ == message@,
{
    ResponseCodeTranslationItem { lang, message }
}

fn push_item(v: &mut Vec<ResponseCodeTranslationItem>, t: ResponseCodeTranslationItem)
    ensures
        translation_pairs(final(v)@) == translation_pairs(old(v)@).push((t.lang@, t.message@)),
{
    let ghost o = v@;
    v.push(t);
    assert(translation_pairs(v@) =~= translation_pairs(o).push((t.lang@, t.message@)));
}

fn extras_exec(trs: &Vec<ResponseTranslationRow>, code: i64) -> (r: Vec<ResponseCodeTranslationItem>)
    ensures
        translation_pairs(r@) == extras(trs@, code),
{
    let mut r: Vec<ResponseCodeTranslationItem> = Vec::new();
    let mut i: usize = 0;
    assert(translation_pairs(r@) =~= Seq::<(Seq<char>, Seq<char>)>::empty());
    while i < trs.len()
        invariant
            i <= trs.len(),
            translation_pairs(r@) == extras(trs@.take(i as int), code),
        decreases trs.len() - i,
    {
        assert(trs@.take(i + 1).drop_last() =~= trs@.take(i as int));
        assert(trs@.take(i + 1).last() == trs@[i as int]);
        if trs[i].code == code {
            let lang = chars_to_string(&lower_chars(&str_chars(trs[i].lang.as_str())));
            push_item(&mut r, translation_item(lang, trs[i].message.clone()));
        }
        i += 1;
    }
    assert(trs@.take(trs.len() as int) =~= trs@);
    r
}

fn first_in_lang_exec(ps: &Vec<ResponseCodeTranslationItem>, lang: &String) -> (r: Vec<ResponseCodeTranslationItem>)
    ensures
        translation_pairs(r@) == first_in_lang(translation_pairs(ps@), lang@),
{
    let ghost tp = translation_pairs(ps@);
    let mut i: usize = 0;
    assert(tp.skip(0) =~= tp);
    while i < ps.len()
        invariant
            i <= ps.len(),
            tp == translation_pairs(ps@),
            first_in_lang(tp, lang@) == first_in_lang(tp.skip(i as int), lang@),
        decreases ps.len() - i,
    {
        assert(tp.skip(i as int).drop_first() =~= tp.skip(i + 1));
        assert(tp.skip(i as int)[0] == (ps@[i as int].lang@, ps@[i as int].message@));
        if chars_eq(&str_chars(ps[i].lang.as_str()), &str_chars(lang.as_str())) {
            let mut r: Vec<ResponseCodeTranslationItem> = Vec::new();
            push_item(&mut r, translation_item(ps[i].lang.clone(), ps[i].message.clone()));
            assert(translation_pairs(r@) =~= seq![tp.skip(i as int)[0]]);
            return r;
        }
        i += 1;
    }
    let r: Vec<ResponseCodeTranslationItem> = Vec::new();
    assert(translation_pairs(r@) =~= Seq::<(Seq<char>, Seq<char>)>::empty());
    r
}

/// The items of the catalogue (see `code_items`), for the language filter asked,
/// normalized like a request's language.
pub fn build_response_code_items(
    base: &Vec<ResponseCodeRow>,
    translations: &Vec<ResponseTranslationRow>,
    lang_filter: Option<&str>,
) -> (r: Vec<ResponseCodeItem>)
    ensures
        r@.map_values(|i: ResponseCodeItem| item_model(i)) == code_items(
            base@,
            translations@,
            match lang_filter {
                Some(l) => Some(language_of(l@)),
                None => None,
            },
        ),
{
    let filter: Option<String> = match lang_filter {
        Some(l) => Some(normalize_language_tag(l)),
        None => None,
    };
    let ghost fv = match lang_filter {
        Some(l) => Some(language_of(l@)),
        None => None,
    };
    let mut items: Vec<ResponseCodeItem> = Vec::new();
    let mut i: usize = 0;
    assert(items@.map_values(|i: ResponseCodeItem| item_model(i)) =~= Seq::<ItemModel>::empty());
    while i < base.len()
        invariant
            i <= base.len(),
            fv == match filter {
                Some(f) => Some(f@),
                None => None,
            },
            items@.map_values(|i: ResponseCodeItem| item_model(i)) == code_items(base@.take(i as int), translations@, fv),
        decreases base.len() - i,
    {
        assert(base@.take(i + 1).drop_last() =~= base@.take(i as int));
        assert(base@.take(i + 1).last() == base@[i as int]);
        let row = &base[i];
        let mut ts: Vec<ResponseCodeTranslationItem> = Vec::new();
        match &filter {
            None => {
                push_item(&mut ts, translation_item(owned("en"), row.message_en.clone()));
                let ex = extras_exec(translations, row.code);
                let mut k: usize = 0;
                let ghost first = translation_pairs(ts@);
                while k < ex.len()
                    invariant
                        k <= ex.len(),
                        translation_pairs(ts@) == first + translation_pairs(ex@).take(k as int),
                    decreases ex.len() - k,
                {
                    push_item(&mut ts, translation_item(ex[k].lang.clone(), ex[k].message.clone()));
                    assert(translation_pairs(ex@).take(k + 1) =~= translation_pairs(ex@).take(k as int).push(
                        (ex@[k as int].lang@, ex@[k as int].message@),
                    ));
                    k += 1;
                }
                assert(translation_pairs(ex@).take(ex.len() as int) =~= translation_pairs(ex@));
            },
            Some(f) => {
                if crate::text::chars_eq_str(&str_chars(f.as_str()), "en") {
                    push_item(&mut ts, translation_item(owned("en"), row.message_en.clone()));
                } else {
                    let ex = extras_exec(translations, row.code);
                    ts = first_in_lang_exec(&ex, f);
                }
            },
        }
        assert(translation_pairs(ts@) =~= shown_translations(base@[i as int], translations@, fv));
        if ts.len() > 0 {
            let ghost o = items@;
            items.push(ResponseCodeItem { code: row.code, kind: row.kind.clone(), translations: ts });
            assert(items@.map_values(|i: ResponseCodeItem| item_model(i)) =~= o.map_values(
                |i: ResponseCodeItem| item_model(i),
            ).push(item_model(items@.last())));
        }
        i += 1;
    }
    assert(base@.take(base.len() as int) =~= base@);
    items
}

// ───────────────────────────── the PDF report ─────────────────────────────

/// `text` escaped for a PDF string: backslashes and parentheses preceded by a backslash.
pub open spec fn pdf_escaped(text: Seq<char>) -> Seq<char>
    decreases text.len(),
{
    if text.len() == 0 {
        seq![]
    } else {
        let c = text.last();
        pdf_escaped(text.drop_last()) + if c == '\\' || c == '(' || c == ')' {
            seq!['\\', c]
        } else {
            seq![c]
        }
    }
}

pub fn escape_pdf_text(input: &str) -> (r: String)
    ensures
        r@ == pdf_escaped(input@),
{
    let v = str_chars(input);
    let mut out: Vec<char> = Vec::new();
    let mut i: usize = 0;
    assert(v@.take(0) =~= Seq::<char>::empty());
    while i < v.len()
        invariant
            i <= v.len(),
            out@ == pdf_escaped(v@.take(i as int)),
        decreases v.len() - i,
    {
        assert(v@.take(i + 1).drop_last() =~= v@.take(i as int));
        assert(v@.take(i + 1).last() == v@[i as int]);
        let c = v[i];
        let ghost o = out@;
        if c == '\\' || c == '(' || c == ')' {
            out.push('\\');
        }
        out.push(c);
        assert(out@ =~= pdf_escaped(v@.take(i + 1)));
        i += 1;
    }
    assert(v@.take(v.len() as int) =~= v@);
    chars_to_string(&out)
}

/// One word of the wrapping: the first word starts the line; a word that fits
/// (in bytes, with a space) goes on the line; otherwise the line is done and the
/// word starts the next.
pub open spec fn wrap_step(st: (Seq<Seq<char>>, Seq<char>), word: Seq<char>, max: nat) -> (Seq<Seq<char>>, Seq<char>) {
    if st.1.len() == 0 {
        (st.0, word)
    } else if utf8_len(st.1) + 1 + utf8_len(word) <= max {
        (st.0, st.1 + " "@ + word)
    } else {
        (st.0.push(st.1), word)
    }
}

pub open spec fn wrap_fold(words: Seq<Seq<char>>, max: nat) -> (Seq<Seq<char>>, Seq<char>)
    decreases words.len(),
{
    if words.len() == 0 {
        (seq![], seq![])
    } else {
        wrap_step(wrap_fold(words.drop_last(), max), words.last(), max)
    }
}

/// The words of `text` laid out in lines of at most `max` bytes (a longer word
/// stands alone on its line); one empty line for a text without words.
pub open spec fn wrapped(text: Seq<char>, max: nat) -> Seq<Seq<char>> {
    let st = wrap_fold(tokens(text), max);
    let out = if st.1.len() > 0 {
        st.0.push(st.1)
    } else {
        st.0
    };
    if out.len() == 0 {
        seq![seq![]]
    } else {
        out
    }
}

pub proof fn lemma_utf8_len_bound(s: Seq<char>)
    ensures
        utf8_len(s) <= 4 * s.len(),
    decreases s.len(),
{
    if s.len() > 0 {
        lemma_utf8_len_bound(s.drop_last());
    }
}

pub fn utf8_len_exec(v: &Vec<char>) -> (r: u128)
    ensures
        r == utf8_len(v@),
        r <= 4 * v.len(),
{
    let mut acc: u128 = 0;
    let mut i: usize = 0;
    assert(v@.take(0) =~= Seq::<char>::empty());
    while i < v.len()
        invariant
            i <= v.len(),
            acc == utf8_len(v@.take(i as int)),
            acc <= 4 * i,
        decreases v.len() - i,
    {
        assert(v@.take(i + 1).drop_last() =~= v@.take(i as int));
        let w = char_utf8_width(v[i]);
        acc = acc + w as u128;
        i += 1;
    }
    assert(v@.take(v.len() as int) =~= v@);
    acc
}

/// The lines of `text` wrapped at `max_chars` bytes (see `wrapped`).
pub fn wrap_text(text: &str, max_chars: usize) -> (r: Vec<String>)
    ensures
        r@.map_values(|s: String| s@) == wrapped(text@, max_chars as nat),
{
    let words = tokens_chars(&str_chars(text));
    let ghost wv = views(words@);
    let mut out: Vec<Vec<char>> = Vec::new();
    let mut line: Vec<char> = Vec::new();
    let mut i: usize = 0;
    assert(wv.take(0) =~= Seq::<Seq<char>>::empty());
    while i < words.len()
        invariant
            i <= words.len(),
            wv == views(words@),
            (views(out@), line@) == wrap_fold(wv.take(i as int), max_chars as nat),
        decreases words.len() - i,
    {
        assert(wv.take(i + 1).drop_last() =~= wv.take(i as int));
        assert(wv.take(i + 1).last() == words@[i as int]@);
        let w = &words[i];
        if line.len() == 0 {
            line = clone_chars(w);
        } else {
            let a = utf8_len_exec(&line);
            let b = utf8_len_exec(w);
            if a + 1 + b <= max_chars as u128 {
                append_str(&mut line, " ");
                append_chars(&mut line, w);
            } else {
                let ghost o = out@;
                let done = line;
                out.push(done);
                assert(views(out@) =~= views(o).push(done@));
                line = clone_chars(w);
            }
        }
        i += 1;
    }
    assert(wv.take(words.len() as int) =~= wv);
    if line.len() > 0 {
        let ghost o = out@;
        out.push(line);
        assert(views(out@) =~= views(o).push(out@.last()@));
    }
    if out.len() == 0 {
        out.push(Vec::new());
        assert(views(out@) =~= seq![Seq::<char>::empty()]);
    }
    let mut r: Vec<String> = Vec::new();
    let mut k: usize = 0;
    while k < out.len()
        invariant
            k <= out.len(),
            r@.map_values(|s: String| s@) == views(out@).take(k as int),
        decreases out.len() - k,
    {
        let ghost o = r@;
        r.push(chars_to_string(&out[k]));
        assert(r@.map_values(|s: String| s@) =~= o.map_values(|s: String| s@).push(out@[k as int]@));
        assert(views(out@).take(k + 1) =~= views(out@).take(k as int).push(out@[k as int]@));
        k += 1;
    }
    assert(views(out@).take(out.len() as int) =~= views(out@));
    r
}


/// One row of the report's table: the code and type (on the first row of a code
/// only), the language and the message's lines.
#[derive(Debug)]
pub struct PdfRow {
    pub code: String,
    pub kind: String,
    pub lang: String,
    pub message_lines: Vec<String>,
}

pub type RowModel = (Seq<char>, Seq<char>, Seq<char>, Seq<Seq<char>>);

pub open spec fn row_model(r: PdfRow) -> RowModel {
    (r.code@, r.kind@, r.lang@, r.message_lines@.map_values(|s: String| s@))
}

pub open spec fn rows_view(rs: Seq<PdfRow>) -> Seq<RowModel> {
    rs.map_values(|r: PdfRow| row_model(r))
}

/// The rows of one item: one per message, the code and type on the first only,
/// messages wrapped at 64 bytes.
pub open spec fn item_rows(it: ItemModel) -> Seq<RowModel> {
    Seq::new(
        it.2.len(),
        |k: int|
            (
                if k == 0 {
                    decimal_signed(it.0 as int)
                } else {
                    seq![]
                },
                if k == 0 {
                    it.1
                } else {
                    seq![]
                },
                it.2[k].0,
                wrapped(it.2[k].1, 64),
            ),
    )
}

pub open spec fn report_rows(items: Seq<ItemModel>) -> Seq<RowModel>
    decreases items.len(),
{
    if items.len() == 0 {
        seq![]
    } else {
        report_rows(items.drop_last()) + item_rows(items.last())
    }
}

fn clone_strings(v: &Vec<String>) -> (r: Vec<String>)
    ensures
        r@.map_values(|s: String| s@) == v@.map_values(|s: String| s@),
{
    let mut r: Vec<String> = Vec::new();
    let mut i: usize = 0;
    while i < v.len()
        invariant
            i <= v.len(),
            r@.map_values(|s: String| s@) == v@.map_values(|s: String| s@).take(i as int),
        decreases v.len() - i,
    {
        let ghost o = r@;
        r.push(v[i].clone());
        assert(r@.map_values(|s: String| s@) =~= o.map_values(|s: String| s@).push(v@[i as int]@));
        assert(v@.map_values(|s: String| s@).take(i + 1) =~= v@.map_values(|s: String| s@).take(i as int).push(v@[i as int]@));
        i += 1;
    }
    assert(v@.map_values(|s: String| s@).take(v.len() as int) =~= v@.map_values(|s: String| s@));
    r
}

fn clone_row(r: &PdfRow) -> (c: PdfRow)
    ensures
        row_model(c) == row_model(*r),
{
    PdfRow {
        code: r.code.clone(),
        kind: r.kind.clone(),
        lang: r.lang.clone(),
        message_lines: clone_strings(&r.message_lines),
    }
}

/// The rows of the report's table for `items` (see `item_rows`).
pub fn rows_from_items(items: &Vec<ResponseCodeItem>) -> (r: Vec<PdfRow>)
    ensures
        rows_view(r@) == report_rows(items@.map_values(|i: ResponseCodeItem| item_model(i))),
{
    let ghost iv = items@.map_values(|i: ResponseCodeItem| item_model(i));
    let mut rows: Vec<PdfRow> = Vec::new();
    let mut i: usize = 0;
    assert(iv.take(0) =~= Seq::<ItemModel>::empty());
    assert(rows_view(rows@) =~= Seq::<RowModel>::empty());
    while i < items.len()
        invariant
            i <= items.len(),
            iv == items@.map_values(|i: ResponseCodeItem| item_model(i)),
            rows_view(rows@) == report_rows(iv.take(i as int)),
        decreases items.len() - i,
    {
        assert(iv.take(i + 1).drop_last() =~= iv.take(i as int));
        assert(iv.take(i + 1).last() == iv[i as int]);
        let item = &items[i];
        let ghost before = rows_view(rows@);
        let ghost it = iv[i as int];
        let mut k: usize = 0;
        while k < item.translations.len()
            invariant
                k <= item.translations.len(),
                it == item_model(*item),
                rows_view(rows@) == before + item_rows(it).take(k as int),
            decreases item.translations.len() - k,
        {
            let code = if k == 0 {
                chars_to_string(&i64_decimal(item.code))
            } else {
                String::new()
            };
            let kind = if k == 0 {
                item.kind.clone()
            } else {
                String::new()
            };
            let tr = &item.translations[k];
            let row = PdfRow { code, kind, lang: tr.lang.clone(), message_lines: wrap_text(tr.message.as_str(), 64) };
            let ghost o = rows@;
            assert(translation_pairs(item.translations@)[k as int] == (tr.lang@, tr.message@));
            proof {
                if k != 0 {
                    assert(row.code@ =~= Seq::<char>::empty());
                    assert(row.kind@ =~= Seq::<char>::empty());
                }
            }
            rows.push(row);
            assert(rows_view(rows@) =~= rows_view(o).push(row_model(rows@.last())));
            assert(item_rows(it).take(k + 1) =~= item_rows(it).take(k as int).push(item_rows(it)[k as int]));
            k += 1;
        }
        assert(item_rows(it).take(item.translations.len() as int) =~= item_rows(it));
        i += 1;
    }
    assert(iv.take(items.len() as int) =~= iv);
    rows
}

/// The height of a row, in points: 12 per line of message (at least one), plus 6.
pub open spec fn row_h(lines: nat) -> int {
    (if lines == 0 {
        1int
    } else {
        lines as int
    }) * 12 + 6
}

pub fn row_height(row: &PdfRow) -> (h: i128)
    ensures
        h == row_h(row.message_lines.len() as nat),
{
    let n = row.message_lines.len();
    let lines: i128 = if n == 0 {
        1
    } else {
        n as i128
    };
    lines * 12 + 6
}

/// The state of the pagination: the pages done, the rows of the current page (by
/// index) and the height left on it.
pub type PageState = (Seq<Seq<int>>, Seq<int>, int);

/// One row of the pagination: a row that would go below the bottom margin (70)
/// starts a new page, unless the current page is empty; the table starts at 742.
pub open spec fn page_step(st: PageState, i: int, h: int) -> PageState {
    if st.2 - h < 70 && st.1.len() > 0 {
        (st.0.push(st.1), seq![i], 742 - h)
    } else {
        (st.0, st.1.push(i), st.2 - h)
    }
}

pub open spec fn page_fold(lines: Seq<nat>) -> PageState
    decreases lines.len(),
{
    if lines.len() == 0 {
        (seq![], seq![], 742)
    } else {
        page_step(page_fold(lines.drop_last()), lines.len() - 1, row_h(lines.last()))
    }
}

/// The rows of each page, by index, for rows with the given numbers of lines; an
/// empty report has one empty page.
pub open spec fn pages_of(lines: Seq<nat>) -> Seq<Seq<int>> {
    let st = page_fold(lines);
    if st.1.len() == 0 {
        st.0.push(seq![])
    } else {
        st.0.push(st.1)
    }
}

pub open spec fn line_counts(rows: Seq<PdfRow>) -> Seq<nat> {
    rows.map_values(|r: PdfRow| r.message_lines@.len())
}

/// The height of the rows of a page, given by index, for rows with the given numbers
/// of lines.
pub open spec fn page_height(lines: Seq<nat>, page: Seq<int>) -> int
    decreases page.len(),
{
    if page.len() == 0 {
        0
    } else {
        page_height(lines, page.drop_last()) + row_h(lines[page.last()])
    }
}

/// A page fits the table (672 points between 742 and the bottom margin at 70),
/// unless it holds a single row.
pub open spec fn page_fits(lines: Seq<nat>, page: Seq<int>) -> bool {
    page.len() <= 1 || page_height(lines, page) <= 672
}

proof fn lemma_page_fold_bounds(lines: Seq<nat>)
    ensures
        page_fold(lines).2 <= 742,
        forall|q: int| 0 <= q < page_fold(lines).1.len() ==> 0 <= #[trigger] page_fold(lines).1[q] < lines.len(),
        forall|p: int, q: int| 0 <= p < page_fold(lines).0.len() && 0 <= q < page_fold(lines).0[p].len()
            ==> 0 <= #[trigger] page_fold(lines).0[p][q] < lines.len(),
    decreases lines.len(),
{
    if lines.len() > 0 {
        lemma_page_fold_bounds(lines.drop_last());
        assert(lines.last() == lines[lines.len() - 1]);
    }
}

/// The height of a page depends only on the rows it holds.
proof fn lemma_page_height_same(a: Seq<nat>, b: Seq<nat>, page: Seq<int>)
    requires
        forall|q: int| 0 <= q < page.len() ==> 0 <= #[trigger] page[q] < a.len() && page[q] < b.len() && a[page[q]] == b[page[q]],
    ensures
        page_height(a, page) == page_height(b, page),
    decreases page.len(),
{
    if page.len() > 0 {
        let d = page.drop_last();
        assert forall|q: int| 0 <= q < d.len() implies 0 <= #[trigger] d[q] < a.len() && d[q] < b.len() && a[d[q]] == b[d[q]] by {
            assert(d[q] == page[q]);
        }
        lemma_page_height_same(a, b, d);
        assert(page.last() == page[page.len() - 1]);
    }
}

/// The pagination keeps the height left on the current page, every page it has
/// done is non-empty and fits unless it holds one row, and the current page fits
/// once it holds two rows.
proof fn lemma_page_fold_heights(lines: Seq<nat>)
    ensures
        page_fold(lines).2 == 742 - page_height(lines, page_fold(lines).1),
        page_fold(lines).1.len() >= 2 ==> page_fold(lines).2 >= 70,
        forall|p: int| #![trigger page_fold(lines).0[p]] 0 <= p < page_fold(lines).0.len() ==> page_fold(lines).0[p].len() >= 1
            && page_fits(lines, page_fold(lines).0[p]),
    decreases lines.len(),
{
    if lines.len() > 0 {
        let pre = lines.drop_last();
        let i = lines.len() - 1;
        let h = row_h(lines.last());
        lemma_page_fold_heights(pre);
        lemma_page_fold_bounds(pre);
        let s0 = page_fold(pre);
        let st = page_fold(lines);
        assert(st == page_step(s0, i, h));
        assert(forall|k: int| 0 <= k < pre.len() ==> pre[k] == lines[k]);
        lemma_page_height_same(pre, lines, s0.1);
        assert forall|p: int| 0 <= p < s0.0.len() implies page_height(pre, s0.0[p]) == page_height(lines, s0.0[p]) by {
            assert forall|q: int| 0 <= q < s0.0[p].len() implies 0 <= #[trigger] s0.0[p][q] < pre.len() && s0.0[p][q]
                < lines.len() && pre[s0.0[p][q]] == lines[s0.0[p][q]] by {}
            lemma_page_height_same(pre, lines, s0.0[p]);
        }
        if s0.2 - h < 70 && s0.1.len() > 0 {
            let one = seq![i];
            assert(one.drop_last() =~= Seq::<int>::empty());
            assert(page_height(lines, one.drop_last()) == 0);
            assert(one.last() == i);
            assert(lines[i] == lines.last());
            assert(page_height(lines, one) == h);
            assert forall|p: int| #![trigger st.0[p]] 0 <= p < st.0.len() implies st.0[p].len() >= 1 && page_fits(lines, st.0[p]) by {
                if p < s0.0.len() {
                    assert(st.0[p] == s0.0[p]);
                } else {
                    assert(st.0[p] == s0.1);
                }
            }
        } else {
            let cur = s0.1.push(i);
            assert(cur.drop_last() =~= s0.1);
            assert(cur.last() == i);
            assert forall|p: int| #![trigger st.0[p]] 0 <= p < st.0.len() implies st.0[p].len() >= 1 && page_fits(lines, st.0[p]) by {
                assert(st.0[p] == s0.0[p]);
            }
        }
    }
}

/// The page that follows page `p` of a pagination state: the next page done, or
/// the current page.
pub open spec fn next_page(st: PageState, p: int) -> Seq<int> {
    if p + 1 < st.0.len() {
        st.0[p + 1]
    } else {
        st.1
    }
}

/// Every page done is followed by a page whose first row would not have fitted on it.
proof fn lemma_page_fold_greedy(lines: Seq<nat>)
    ensures
        forall|p: int| #![trigger page_fold(lines).0[p]] 0 <= p < page_fold(lines).0.len() ==> next_page(page_fold(lines), p).len() > 0
            && page_height(lines, page_fold(lines).0[p]) + row_h(lines[next_page(page_fold(lines), p)[0]]) > 672,
    decreases lines.len(),
{
    if lines.len() > 0 {
        let pre = lines.drop_last();
        let i = lines.len() - 1;
        let h = row_h(lines.last());
        lemma_page_fold_greedy(pre);
        lemma_page_fold_heights(pre);
        lemma_page_fold_bounds(pre);
        let s0 = page_fold(pre);
        let st = page_fold(lines);
        assert(st == page_step(s0, i, h));
        assert(forall|k: int| 0 <= k < pre.len() ==> pre[k] == lines[k]);
        assert(lines[i] == lines.last());
        assert forall|p: int| 0 <= p < s0.0.len() implies page_height(pre, s0.0[p]) == page_height(lines, s0.0[p]) by {
            assert forall|q: int| 0 <= q < s0.0[p].len() implies 0 <= #[trigger] s0.0[p][q] < pre.len() && s0.0[p][q]
                < lines.len() && pre[s0.0[p][q]] == lines[s0.0[p][q]] by {}
            lemma_page_height_same(pre, lines, s0.0[p]);
        }
        lemma_page_height_same(pre, lines, s0.1);
        assert forall|p: int| 0 <= p < s0.0.len() implies next_page(s0, p)[0] < pre.len() && row_h(
            lines[next_page(s0, p)[0]],
        ) == row_h(pre[next_page(s0, p)[0]]) by {
            assert(s0.0[p] == s0.0[p]);
            if p + 1 < s0.0.len() {
                assert(0 <= s0.0[p + 1][0] < pre.len());
            } else {
                assert(0 <= s0.1[0] < pre.len());
            }
        }
        if s0.2 - h < 70 && s0.1.len() > 0 {
            assert forall|p: int| #![trigger st.0[p]] 0 <= p < st.0.len() implies next_page(st, p).len() > 0 && page_height(
                lines,
                st.0[p],
            ) + row_h(lines[next_page(st, p)[0]]) > 672 by {
                if p < s0.0.len() {
                    assert(st.0[p] == s0.0[p]);
                    assert(next_page(st, p) == next_page(s0, p));
                    assert(s0.0[p] == s0.0[p]);
                } else {
                    assert(st.0[p] == s0.1);
                    assert(next_page(st, p) == seq![i]);
                }
            }
        } else {
            assert forall|p: int| #![trigger st.0[p]] 0 <= p < st.0.len() implies next_page(st, p).len() > 0 && page_height(
                lines,
                st.0[p],
            ) + row_h(lines[next_page(st, p)[0]]) > 672 by {
                assert(st.0[p] == s0.0[p]);
                assert(s0.0[p] == s0.0[p]);
                if p + 1 < s0.0.len() {
                    assert(next_page(st, p) == next_page(s0, p));
                } else {
                    assert(next_page(st, p) == s0.1.push(i));
                    assert(s0.1.push(i)[0] == s0.1[0]);
                }
            }
        }
    }
}

proof fn lemma_pages_greedy_at(lines: Seq<nat>, p: int)
    requires
        0 <= p,
        p + 1 < pages_of(lines).len(),
    ensures
        pages_of(lines)[p + 1].len() > 0,
        page_height(lines, pages_of(lines)[p]) + row_h(lines[pages_of(lines)[p + 1][0]]) > 672,
{
    lemma_page_fold_greedy(lines);
    let st = page_fold(lines);
    let last = if st.1.len() == 0 {
        Seq::<int>::empty()
    } else {
        st.1
    };
    assert(pages_of(lines) == st.0.push(last));
    assert(p < st.0.len());
    assert(st.0[p] == st.0[p]);
    assert(next_page(st, p).len() > 0);
    assert(pages_of(lines)[p] == st.0[p]);
    if p + 1 < st.0.len() {
        assert(pages_of(lines)[p + 1] == st.0[p + 1]);
    } else {
        assert(next_page(st, p) == st.1);
        assert(pages_of(lines)[p + 1] == st.1);
    }
    assert(pages_of(lines)[p + 1] == next_page(st, p));
}

/// The pages are filled greedily: the first row of each page but the first would
/// not have fitted on the page before it.
pub proof fn lemma_pages_greedy(lines: Seq<nat>)
    ensures
        forall|p: int| 1 <= p < pages_of(lines).len() ==> (#[trigger] pages_of(lines)[p]).len() > 0,
        forall|p: int|
            #![trigger pages_of(lines)[p]]
            0 <= p && p + 1 < pages_of(lines).len() ==> page_height(lines, pages_of(lines)[p]) + row_h(
                lines[pages_of(lines)[p + 1][0]],
            ) > 672,
{
    assert forall|p: int| 1 <= p < pages_of(lines).len() implies (#[trigger] pages_of(lines)[p]).len() > 0 by {
        lemma_pages_greedy_at(lines, p - 1);
    }
    assert forall|p: int|
        #![trigger pages_of(lines)[p]]
        0 <= p && p + 1 < pages_of(lines).len() implies page_height(lines, pages_of(lines)[p]) + row_h(
            lines[pages_of(lines)[p + 1][0]],
        ) > 672 by {
        lemma_pages_greedy_at(lines, p);
    }
}

/// Every page fits the table, unless it holds a single row; the pages hold rows of
/// the report, by index.
pub proof fn lemma_pages_fit(lines: Seq<nat>)
    ensures
        forall|p: int| #![trigger pages_of(lines)[p]] 0 <= p < pages_of(lines).len() ==> page_fits(lines, pages_of(lines)[p]),
        forall|p: int, q: int| 0 <= p < pages_of(lines).len() && 0 <= q < pages_of(lines)[p].len() ==> 0
            <= #[trigger] pages_of(lines)[p][q] < lines.len(),
{
    lemma_page_fold_heights(lines);
    lemma_page_fold_bounds(lines);
    let st = page_fold(lines);
    assert forall|p: int| #![trigger pages_of(lines)[p]] 0 <= p < pages_of(lines).len() implies page_fits(lines, pages_of(lines)[p]) by {
        if p < st.0.len() {
            assert(pages_of(lines)[p] == st.0[p]);
        } else if st.1.len() > 0 {
            assert(pages_of(lines)[p] == st.1);
        }
    }
    assert forall|p: int, q: int| 0 <= p < pages_of(lines).len() && 0 <= q < pages_of(lines)[p].len() implies 0
        <= #[trigger] pages_of(lines)[p][q] < lines.len() by {
        if p < st.0.len() {
            assert(pages_of(lines)[p] == st.0[p]);
        } else {
            assert(pages_of(lines)[p] == st.1 || pages_of(lines)[p].len() == 0);
        }
    }
}

/// The rows of the report laid out on pages (see `pages_of`).
pub fn paginate_rows(rows: &Vec<PdfRow>) -> (r: Vec<Vec<PdfRow>>)
    ensures
        r@.len() == pages_of(line_counts(rows@)).len(),
        forall|p: int| #![trigger r@[p]] 0 <= p < r@.len() ==> rows_view(r@[p]@) == pages_of(line_counts(rows@))[p].map_values(
            |i: int| rows_view(rows@)[i],
        ),
        r@.len() <= rows@.len() + 1,
        forall|p: int| #![trigger r@[p]] 0 <= p < r@.len() ==> r@[p]@.len() <= rows@.len(),
{
    let ghost lc = line_counts(rows@);
    let ghost rv = rows_view(rows@);
    let mut pages: Vec<Vec<PdfRow>> = Vec::new();
    let mut current: Vec<PdfRow> = Vec::new();
    let mut y: i128 = 742;
    let mut i: usize = 0;
    let ghost mut st: PageState = (seq![], seq![], 742);
    assert(lc.take(0) =~= Seq::<nat>::empty());
    while i < rows.len()
        invariant
            i <= rows.len(),
            lc == line_counts(rows@),
            rv == rows_view(rows@),
            st == page_fold(lc.take(i as int)),
            y == st.2,
            742 - (12 * usize::MAX + 6) <= y <= 742,
            current@.len() == 0 ==> y == 742,
            pages@.len() == st.0.len(),
            forall|p: int| #![trigger pages@[p]] 0 <= p < pages@.len() ==> rows_view(pages@[p]@) == st.0[p].map_values(
                |j: int| rv[j],
            ),
            rows_view(current@) == st.1.map_values(|j: int| rv[j]),
            pages@.len() + (if current@.len() > 0 { 1int } else { 0int }) <= i,
            current@.len() <= i,
            forall|p: int| #![trigger pages@[p]] 0 <= p < pages@.len() ==> pages@[p]@.len() <= i,
        decreases rows.len() - i,
    {
        let ghost t = lc.take(i + 1);
        assert(t.drop_last() =~= lc.take(i as int));
        assert(t.last() == rows@[i as int].message_lines@.len());
        proof {
            lemma_page_fold_bounds(lc.take(i as int));
        }
        assert(rv[i as int] == row_model(rows@[i as int]));
        let h = row_height(&rows[i]);
        let ghost s0 = st;
        assert(current@.len() == rows_view(current@).len());
        assert(page_fold(t) == page_step(s0, i as int, h as int));
        let c = clone_row(&rows[i]);
        assert(c.message_lines@.len() == row_model(c).3.len());
        if y - h < 70 && current.len() > 0 {
            let ghost op = pages@;
            let done = current;
            pages.push(done);
            current = Vec::new();
            y = 742 - h;
            proof {
                st = (s0.0.push(s0.1), seq![i as int], 742 - h);
            }
            assert forall|p: int| #![trigger pages@[p]] 0 <= p < pages@.len() implies rows_view(pages@[p]@) == st.0[p].map_values(
                |j: int| rv[j],
            ) && pages@[p]@.len() <= i + 1 by {
                if p < op.len() {
                    assert(pages@[p] == op[p]);
                }
            }
            current.push(c);
            assert(rows_view(current@) =~= seq![rv[i as int]]);
            assert(st.1.map_values(|j: int| rv[j]) =~= seq![rv[i as int]]);
        } else {
            y = y - h;
            proof {
                st = (s0.0, s0.1.push(i as int), s0.2 - h);
            }
            let ghost oc = current@;
            current.push(c);
            assert(rows_view(current@) =~= rows_view(oc).push(rv[i as int]));
            assert(st.1.map_values(|j: int| rv[j]) =~= s0.1.map_values(|j: int| rv[j]).push(rv[i as int]));
            assert(forall|q: int| 0 <= q < oc.len() ==> current@[q] == oc[q]);
        }
        i += 1;
    }
    assert(lc.take(rows.len() as int) =~= lc);
    let ghost op = pages@;
    let ghost last_page = if st.1.len() == 0 { Seq::<int>::empty() } else { st.1 };
    assert(rows_view(current@) == last_page.map_values(|j: int| rv[j]));
    pages.push(current);
    assert forall|p: int| #![trigger pages@[p]] 0 <= p < pages@.len() implies rows_view(pages@[p]@) == pages_of(lc)[p].map_values(
        |j: int| rv[j],
    ) && pages@[p]@.len() <= rows@.len() by {
        if p < op.len() {
            assert(pages@[p] == op[p]);
        }
    }
    pages
}

} // verus!
