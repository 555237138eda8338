//! Record extraction from HTML pages with CSS selectors.
//!
//! The HTML parser and the CSS selector engine are the `scraper` crate's; URL
//! resolution is the `url` crate's. What this module decides is which elements
//! form the rows of a result, which value each selector takes from a row, how
//! a record is assembled and what the result says about it.
use scraper::{Html, Selector as CssSelector};
use vstd::prelude::*;

use crate::field_map::{entries_from_pairs, Entries, FieldMap};
use crate::text::{chars_of, string_from_chars, trim, trim_chars};
use crate::types::{ExtractType, ScrapeResult, ScrapeStatus, Selector, Timestamp};

verus! {

/// One attribute of an element: (namespace, prefix, local name, value).
pub type Attr = (String, Option<String>, String, String);

/// Abstract attribute: (namespace, prefix, local name, value).
pub type AttrView = (Seq<char>, Option<Seq<char>>, Seq<char>, Seq<char>);

/// Abstract element: (its descendant text nodes in document order, its inner
/// HTML, its attributes).
pub type ElementView = (Seq<Seq<char>>, Seq<char>, Seq<AttrView>);

/// An element of a parsed page, holding what extraction reads of it.
pub struct Element {
    /// The text nodes below the element, in document order.
    pub texts: Vec<String>,
    /// The serialized children of the element.
    pub inner_html: String,
    /// The element's attributes.
    pub attrs: Vec<Attr>,
}

pub open spec fn attr_view(a: Attr) -> AttrView {
    (a.0@, a.1.deep_view(), a.2@, a.3@)
}

impl View for Element {
    type V = ElementView;

    open spec fn view(&self) -> ElementView {
        (
            self.texts@.map_values(|t: String| t@),
            self.inner_html@,
            self.attrs@.map_values(|a: Attr| attr_view(a)),
        )
    }
}

pub open spec fn opt_element_view(e: Option<Element>) -> Option<ElementView> {
    match e {
        Some(x) => Some(x@),
        None => None,
    }
}

// ---------------------------------------------------------------------------
// The outside calls.
// ---------------------------------------------------------------------------

/// Names whether `scraper::Selector::parse` accepts a selector group.
pub uninterp spec fn spec_selector_parses(css: Seq<char>) -> bool;

/// Names the elements, in document order, that `scraper::Html::select` finds
/// for a selector in the document parsed from `html`.
pub uninterp spec fn spec_select(html: Seq<char>, css: Seq<char>) -> Seq<ElementView>;

/// Names, for each element that `spec_select(html, row_css)` lists, the first
/// element below it that matches `field_css` (`ElementRef::select`), if any.
pub uninterp spec fn spec_select_within(
    html: Seq<char>,
    row_css: Seq<char>,
    field_css: Seq<char>,
) -> Seq<Option<ElementView>>;

/// Names what `url::Url::parse(base)` followed by `Url::join(reference)`
/// gives, as a string; `None` when either step fails.
pub uninterp spec fn spec_url_join(base: Seq<char>, reference: Seq<char>) -> Option<Seq<char>>;

/// `scraper::Selector::parse(css).is_ok()`. The answer is named by
/// `spec_selector_parses`.
#[verifier::external_body]
fn selector_parses(css: &str) -> (r: bool)
    ensures
        r == spec_selector_parses(css@),
{
    CssSelector::parse(css).is_ok()
}

/// Parses `html` with `scraper::Html::parse_document` and lists the elements
/// that `Html::select` yields for `css`, each with its text nodes
/// (`ElementRef::text`), inner HTML (`ElementRef::inner_html`) and attributes.
/// The list is named by `spec_select`.
#[verifier::external_body]
fn select_all(html: &str, css: &str) -> (r: Vec<Element>)
    requires
        spec_selector_parses(css@),
    ensures
        r@.map_values(|e: Element| e@) == spec_select(html@, css@),
{
    let doc = Html::parse_document(html);
    let sel = match CssSelector::parse(css) {
        Ok(s) => s,
        Err(_) => return Vec::new(),
    };
    doc.select(&sel).map(|e| Element {
        texts: e.text().map(String::from).collect(),
        inner_html: e.inner_html(),
        attrs: e.value().attrs.iter().map(|(q, v)| (q.ns.to_string(),
            q.prefix.as_deref().map(String::from), q.local.to_string(), v.to_string())).collect(),
    }).collect()
}

/// For each element that `Html::select` yields for `row_css`, the first
/// element that `ElementRef::select` yields below it for `field_css`. The list
/// is named by `spec_select_within`; it has one entry per row, as both walk
/// the same `Html::select` iterator.
#[verifier::external_body]
fn select_first_within(html: &str, row_css: &str, field_css: &str) -> (r: Vec<Option<Element>>)
    requires
        spec_selector_parses(row_css@),
        spec_selector_parses(field_css@),
    ensures
        r@.map_values(|e: Option<Element>| opt_element_view(e)) == spec_select_within(
            html@,
            row_css@,
            field_css@,
        ),
        r@.len() == spec_select(html@, row_css@).len(),
{
    let doc = Html::parse_document(html);
    let (rs, fs) = match (CssSelector::parse(row_css), CssSelector::parse(field_css)) {
        (Ok(r), Ok(f)) => (r, f),
        _ => return Vec::new(),
    };
    doc.select(&rs).map(|row| row.select(&fs).next().map(|e| Element {
        texts: e.text().map(String::from).collect(),
        inner_html: e.inner_html(),
        attrs: e.value().attrs.iter().map(|(q, v)| (q.ns.to_string(),
            q.prefix.as_deref().map(String::from), q.local.to_string(), v.to_string())).collect(),
    })).collect()
}

/// `url::Url::parse(base)` then `Url::join(reference)`, as a string. The
/// result is named by `spec_url_join`.
#[verifier::external_body]
fn url_join(base: &str, reference: &str) -> (r: Option<String>)
    ensures
        r.deep_view() == spec_url_join(base@, reference@),
{
    match url::Url::parse(base) {
        Ok(u) => match u.join(reference) {
            Ok(j) => Some(j.to_string()),
            Err(_) => None,
        },
        Err(_) => None,
    }
}

// ---------------------------------------------------------------------------
// Value extraction.
// ---------------------------------------------------------------------------

/// The text pieces joined with single spaces.
pub open spec fn join_space(texts: Seq<Seq<char>>) -> Seq<char>
    decreases texts.len(),
{
    if texts.len() == 0 {
        Seq::empty()
    } else if texts.len() == 1 {
        texts[0]
    } else {
        join_space(texts.drop_last()) + seq![' '] + texts.last()
    }
}

/// The value of the attribute `name` in no namespace, as
/// `scraper::node::Element::attr` looks it up, if present.
pub open spec fn attr_lookup(attrs: Seq<AttrView>, name: Seq<char>) -> Option<Seq<char>>
    decreases attrs.len(),
{
    if attrs.len() == 0 {
        None
    } else if attrs[0].0.len() == 0 && attrs[0].1 is None && attrs[0].2 == name {
        Some(attrs[0].3)
    } else {
        attr_lookup(attrs.drop_first(), name)
    }
}

/// `value` resolved against `base`: empty stays empty; otherwise the joined
/// URL, or `value` itself when joining fails.
pub open spec fn resolve_url_spec(base: Seq<char>, value: Seq<char>) -> Seq<char> {
    if value.len() == 0 {
        Seq::empty()
    } else {
        match spec_url_join(base, value) {
            Some(u) => u,
            None => value,
        }
    }
}

pub open spec fn attr_or_empty(e: ElementView, name: Seq<char>) -> Seq<char> {
    match attr_lookup(e.2, name) {
        Some(v) => v,
        None => Seq::empty(),
    }
}

/// The value that a selector of kind `extract` takes from element `e` on a
/// page at `base_url`.
pub open spec fn extract_spec(e: ElementView, extract: ExtractType, base_url: Seq<char>) -> Seq<
    char,
> {
    match extract {
        ExtractType::Text => trim(join_space(e.0)),
        ExtractType::Html => e.1,
        ExtractType::Attribute(a) => attr_or_empty(e, a@),
        ExtractType::Link => resolve_url_spec(base_url, attr_or_empty(e, "href"@)),
        ExtractType::Image => resolve_url_spec(base_url, attr_or_empty(e, "src"@)),
    }
}

/// The value of attribute `name` (no namespace, no prefix) of an element.
fn attr_of(attrs: &Vec<Attr>, name: &str) -> (r: Option<String>)
    ensures
        r.deep_view() == attr_lookup(attrs@.map_values(|a: Attr| attr_view(a)), name@),
{
    let ghost av = attrs@.map_values(|a: Attr| attr_view(a));
    assert(av.skip(0) =~= av);
    let mut i: usize = 0;
    while i < attrs.len()
        invariant
            i <= attrs@.len(),
            av == attrs@.map_values(|a: Attr| attr_view(a)),
            attr_lookup(av, name@) == attr_lookup(av.skip(i as int), name@),
        decreases attrs.len() - i,
    {
        let a = &attrs[i];
        let ghost rest = av.skip(i as int);
        assert(rest[0] == attr_view(attrs@[i as int]));
        assert(rest.drop_first() =~= av.skip(i + 1));
        let plain = a.0.as_str().is_empty() && a.1.is_none();
        if plain && crate::field_map::str_equal(a.2.as_str(), name) {
            return Some(a.3.clone());
        }
        i = i + 1;
    }
    assert(av.skip(i as int).len() == 0);
    None
}

/// The text pieces joined with single spaces.
fn join_texts(texts: &Vec<String>) -> (r: Vec<char>)
    ensures
        r@ == join_space(texts@.map_values(|t: String| t@)),
{
    let ghost tv = texts@.map_values(|t: String| t@);
    let mut r: Vec<char> = Vec::new();
    let mut i: usize = 0;
    while i < texts.len()
        invariant
            i <= texts@.len(),
            tv == texts@.map_values(|t: String| t@),
            r@ == join_space(tv.take(i as int)),
        decreases texts.len() - i,
    {
        let piece = chars_of(texts[i].as_str());
        if i > 0 {
            r.push(' ');
        }
        crate::text::append_chars(&mut r, piece.as_slice());
        proof {
            let t = tv.take(i + 1);
            assert(t.drop_last() =~= tv.take(i as int));
            assert(t.last() == tv[i as int]);
            if i == 0 {
                assert(join_space(tv.take(0)) =~= Seq::<char>::empty());
                assert(r@ =~= tv[0]);
            } else {
                assert(r@ =~= join_space(tv.take(i as int)) + seq![' '] + tv[i as int]);
            }
        }
        i = i + 1;
    }
    assert(tv.take(texts@.len() as int) =~= tv);
    r
}

/// `value` resolved against `base` (empty stays empty; a reference that does
/// not join stays as it is).
pub fn resolve_url(base: &str, value: &str) -> (r: String)
    ensures
        r@ == resolve_url_spec(base@, value@),
{
    if value.is_empty() {
        return String::new();
    }
    match url_join(base, value) {
        Some(u) => u,
        None => String::from_str(value),
    }
}

/// The value that `sel` takes from `element` on a page at `base_url`.
pub fn extract_value(element: &Element, sel: &Selector, base_url: &str) -> (r: String)
    ensures
        r@ == extract_spec(element@, sel.extract, base_url@),
{
    match &sel.extract {
        ExtractType::Text => {
            let joined = join_texts(&element.texts);
            let t = trim_chars(joined.as_slice());
            string_from_chars(t.as_slice())
        },
        ExtractType::Html => element.inner_html.clone(),
        ExtractType::Attribute(attr) => match attr_of(&element.attrs, attr.as_str()) {
            Some(v) => v,
            None => String::new(),
        },
        ExtractType::Link => {
            let href = attr_of(&element.attrs, "href");
            proof {
                reveal_strlit("href");
                reveal_strlit("");
            }
            match href {
                Some(v) => resolve_url(base_url, v.as_str()),
                None => resolve_url(base_url, ""),
            }
        },
        ExtractType::Image => {
            let src = attr_of(&element.attrs, "src");
            proof {
                reveal_strlit("src");
                reveal_strlit("");
            }
            match src {
                Some(v) => resolve_url(base_url, v.as_str()),
                None => resolve_url(base_url, ""),
            }
        },
    }
}

/// The elements that `css` selects in `html`, or `None` when `css` is not a
/// valid selector.
pub fn select_elements(html: &str, css: &str) -> (r: Option<Vec<Element>>)
    ensures
        r is Some <==> spec_selector_parses(css@),
        r matches Some(v) ==> v@.map_values(|e: Element| e@) == spec_select(html@, css@),
{
    if selector_parses(css) {
        Some(select_all(html, css))
    } else {
        None
    }
}

// ---------------------------------------------------------------------------
// Pages.
// ---------------------------------------------------------------------------

/// What was selected for one selector beyond the first, as the library's
/// elements: `None` when its CSS does not parse, otherwise, for each row, the
/// first element below the row that it matches (if any).
pub open spec fn selection_view(f: Option<Vec<Option<Element>>>) -> Option<Seq<Option<ElementView>>> {
    match f {
        Some(v) => Some(v@.map_values(|e: Option<Element>| opt_element_view(e))),
        None => None,
    }
}

/// The value selector `j` takes in row `i`, given the row elements `rows`
/// and, for each selector beyond the first, what it selected (`fields`): the
/// first selector reads the row element itself; any other reads its element
/// below the row, and is empty when its CSS does not parse or nothing below the
/// row matches.
pub open spec fn selected_value(
    rows: Seq<ElementView>,
    fields: Seq<Option<Seq<Option<ElementView>>>>,
    sels: Seq<Selector>,
    url: Seq<char>,
    i: int,
    j: int,
) -> Seq<char> {
    if j == 0 {
        extract_spec(rows[i], sels[0].extract, url)
    } else {
        match fields[j] {
            Some(per_row) => match per_row[i] {
                Some(e) => extract_spec(e, sels[j].extract, url),
                None => Seq::empty(),
            },
            None => Seq::empty(),
        }
    }
}

/// The (name, value) pairs of row `i`, one per selector, in selector order.
pub open spec fn selected_pairs(
    rows: Seq<ElementView>,
    fields: Seq<Option<Seq<Option<ElementView>>>>,
    sels: Seq<Selector>,
    url: Seq<char>,
    i: int,
) -> Entries {
    Seq::new(sels.len(), |j: int| (sels[j].name@, selected_value(rows, fields, sels, url, i, j)))
}

/// One record per row, holding each selector's value under its name (a later
/// selector with a repeated name overwrites the earlier value).
pub open spec fn selected_records(
    rows: Seq<ElementView>,
    fields: Seq<Option<Seq<Option<ElementView>>>>,
    sels: Seq<Selector>,
    url: Seq<char>,
) -> Seq<Entries> {
    Seq::new(rows.len(), |i: int| entries_from_pairs(selected_pairs(rows, fields, sels, url, i)))
}

/// What each selector beyond the first selects in `html` below the rows of
/// the first: `None` when its CSS does not parse (and for the first selector
/// itself).
pub open spec fn field_selections(html: Seq<char>, sels: Seq<Selector>) -> Seq<Option<Seq<Option<ElementView>>>> {
    Seq::new(sels.len(), |j: int| if j > 0 && spec_selector_parses(sels[j].css_selector@) {
        Some(spec_select_within(html, sels[0].css_selector@, sels[j].css_selector@))
    } else {
        None
    })
}

/// The (name, value) pairs of row `i` of a page, one per selector, in
/// selector order.
pub open spec fn row_pairs(html: Seq<char>, url: Seq<char>, sels: Seq<Selector>, i: int) -> Entries {
    selected_pairs(spec_select(html, sels[0].css_selector@), field_selections(html, sels), sels, url, i)
}

/// The records that the selectors extract from `html`: none when there is no
/// selector or the first one does not parse; otherwise one per element the
/// first selector matches, holding each selector's value under its name (a
/// later selector with a repeated name overwrites the earlier value).
pub open spec fn html_records(html: Seq<char>, url: Seq<char>, sels: Seq<Selector>) -> Seq<Entries> {
    if sels.len() == 0 || !spec_selector_parses(sels[0].css_selector@) {
        Seq::empty()
    } else {
        selected_records(spec_select(html, sels[0].css_selector@), field_selections(html, sels), sels, url)
    }
}

pub open spec fn records_view(data: Seq<FieldMap>) -> Seq<Entries> {
    data.map_values(|m: FieldMap| m@)
}

/// Extracts one record per element that the first selector matches in
/// `html`; see `html_records`. The result is a success exactly when at least
/// one record was extracted.
pub fn parse_html(html: &str, url: &str, job_id: &str, selectors: &Vec<Selector>) -> (r:
    ScrapeResult)
    ensures
        records_view(r.data@) == html_records(html@, url@, selectors@),
        r.record_count == r.data@.len(),
        r.id == 0,
        r.job_id@ == job_id@,
        r.url@ == url@,
        r.bytes_fetched == html.len() as u64,
        r.data@.len() == 0 ==> r.status == ScrapeStatus::Failed && (r.error matches Some(e)
            && e@ == "No elements matched the selectors"@),
        r.data@.len() > 0 ==> r.status == ScrapeStatus::Success && r.error is None,
{
    let start = crate::types::instant_now();
    let records = extract_records(html, url, selectors);
    let is_empty = records.len() == 0;
    let record_count = records.len();
    let elapsed = crate::types::elapsed_ms(&start);
    let byte_len = html.len();
    ScrapeResult {
        id: 0,
        job_id: String::from_str(job_id),
        url: String::from_str(url),
        timestamp: crate::types::now_utc(),
        data: records,
        status: if is_empty {
            ScrapeStatus::Failed
        } else {
            ScrapeStatus::Success
        },
        error: if is_empty {
            Some(String::from_str("No elements matched the selectors"))
        } else {
            None
        },
        duration_ms: elapsed,
        bytes_fetched: byte_len as u64,
        record_count,
    }
}

/// The records built from selected elements: one per row, holding under
/// each selector's name the value it takes (see `selected_records`). `fields`
/// has one entry per selector; the first is not read.
pub fn build_records(
    rows: &Vec<Element>,
    fields: &Vec<Option<Vec<Option<Element>>>>,
    selectors: &Vec<Selector>,
    url: &str,
) -> (r: Vec<FieldMap>)
    requires
        fields@.len() == selectors@.len(),
        forall|j: int| 0 < j < fields@.len() && (#[trigger] fields@[j]) is Some ==> fields@[j]->0@.len() == rows@.len(),
    ensures
        records_view(r@) == selected_records(
            rows@.map_values(|e: Element| e@),
            fields@.map_values(|f: Option<Vec<Option<Element>>>| selection_view(f)),
            selectors@,
            url@,
        ),
{
    let ghost rv = rows@.map_values(|e: Element| e@);
    let ghost fv = fields@.map_values(|f: Option<Vec<Option<Element>>>| selection_view(f));
    let ghost sels = selectors@;
    let ghost all = selected_records(rv, fv, sels, url@);
    let mut records: Vec<FieldMap> = Vec::new();
    let mut i: usize = 0;
    while i < rows.len()
        invariant
            rv == rows@.map_values(|e: Element| e@),
            fv == fields@.map_values(|f: Option<Vec<Option<Element>>>| selection_view(f)),
            sels == selectors@,
            all == selected_records(rv, fv, sels, url@),
            fields@.len() == sels.len(),
            forall|j: int| 0 < j < fields@.len() && (#[trigger] fields@[j]) is Some ==> fields@[j]->0@.len() == rows@.len(),
            i <= rows@.len(),
            records_view(records@) =~= all.take(i as int),
        decreases rows.len() - i,
    {
        let ghost pairs = selected_pairs(rv, fv, sels, url@, i as int);
        let mut rec = FieldMap::new();
        proof {
            assert(pairs.take(0) =~= Seq::<(Seq<char>, Seq<char>)>::empty());
        }
        let mut k: usize = 0;
        while k < selectors.len()
            invariant
                rv == rows@.map_values(|e: Element| e@),
                fv == fields@.map_values(|f: Option<Vec<Option<Element>>>| selection_view(f)),
                sels == selectors@,
                fields@.len() == sels.len(),
                forall|j: int| 0 < j < fields@.len() && (#[trigger] fields@[j]) is Some ==> fields@[j]->0@.len() == rows@.len(),
                i < rows@.len(),
                pairs == selected_pairs(rv, fv, sels, url@, i as int),
                0 <= k <= sels.len(),
                rec@ == entries_from_pairs(pairs.take(k as int)),
            decreases selectors.len() - k,
        {
            let v = if k == 0 {
                assert(rv[i as int] == rows@[i as int]@);
                extract_value(&rows[i], &selectors[0], url)
            } else {
                match &fields[k] {
                    Some(per_row) => {
                        assert(fv[k as int] == selection_view(fields@[k as int]));
                        assert(per_row@.map_values(|e: Option<Element>| opt_element_view(e))[i as int]
                            == opt_element_view(per_row@[i as int]));
                        match &per_row[i] {
                            Some(e) => extract_value(e, &selectors[k], url),
                            None => String::new(),
                        }
                    },
                    None => {
                        assert(fv[k as int] == selection_view(fields@[k as int]));
                        String::new()
                    },
                }
            };
            rec.insert(selectors[k].name.clone(), v);
            proof {
                assert(pairs.take(k + 1).drop_last() =~= pairs.take(k as int));
                assert(pairs.take(k + 1).last() == pairs[k as int]);
            }
            k = k + 1;
        }
        assert(pairs.take(sels.len() as int) =~= pairs);
        let ghost old_recs = records@;
        let ghost rec_v = rec@;
        records.push(rec);
        proof {
            assert(all[i as int] == entries_from_pairs(pairs));
            assert(records_view(records@) =~= records_view(old_recs).push(rec_v));
            assert(all.take(i + 1) =~= all.take(i as int).push(all[i as int]));
        }
        i = i + 1;
    }
    assert(all.take(rows@.len() as int) =~= all);
    records
}

/// The records of `html_records`.
pub fn extract_records(html: &str, url: &str, selectors: &Vec<Selector>) -> (r: Vec<FieldMap>)
    ensures
        records_view(r@) == html_records(html@, url@, selectors@),
{
    let ghost sels = selectors@;
    if selectors.len() == 0 {
        let r: Vec<FieldMap> = Vec::new();
        assert(records_view(r@) =~= Seq::<Entries>::empty());
        return r;
    }
    let first = &selectors[0];
    if !selector_parses(first.css_selector.as_str()) {
        let r: Vec<FieldMap> = Vec::new();
        assert(records_view(r@) =~= Seq::<Entries>::empty());
        return r;
    }
    let rows = select_all(html, first.css_selector.as_str());
    let ghost want = field_selections(html@, sels);
    // For every selector beyond the first: if its CSS parses, its first match
    // below each row.
    let mut fields: Vec<Option<Vec<Option<Element>>>> = Vec::new();
    fields.push(None);
    let mut j: usize = 1;
    while j < selectors.len()
        invariant
            sels == selectors@,
            want == field_selections(html@, sels),
            sels.len() > 0,
            spec_selector_parses(sels[0].css_selector@),
            1 <= j <= sels.len(),
            fields@.len() == j,
            fields@[0] is None,
            forall|k: int| 0 <= k < j ==> selection_view(#[trigger] fields@[k]) == want[k],
            forall|k: int| 0 < k < j && (#[trigger] fields@[k]) is Some ==> fields@[k]->0@.len() == spec_select(html@, sels[0].css_selector@).len(),
        decreases selectors.len() - j,
    {
        if selector_parses(selectors[j].css_selector.as_str()) {
            fields.push(
                Some(
                    select_first_within(
                        html,
                        selectors[0].css_selector.as_str(),
                        selectors[j].css_selector.as_str(),
                    ),
                ),
            );
        } else {
            fields.push(None);
        }
        j = j + 1;
    }
    assert(fields@.map_values(|f: Option<Vec<Option<Element>>>| selection_view(f)) =~= want);
    build_records(&rows, &fields, selectors, url)
}

/// The URL that the first element matching `css_selector` links to (its
/// `href` resolved against `base_url`); `None` when the selector does not
/// parse, nothing matches, the element has no `href`, or resolution fails.
pub open spec fn next_link_spec(html: Seq<char>, base_url: Seq<char>, css: Seq<char>) -> Option<
    Seq<char>,
> {
    if !spec_selector_parses(css) || spec_select(html, css).len() == 0 {
        None
    } else {
        match attr_lookup(spec_select(html, css)[0].2, "href"@) {
            Some(h) => spec_url_join(base_url, h),
            None => None,
        }
    }
}

/// The link to the next page, as the first element that `css_selector`
/// matches gives it.
pub fn find_next_link(html: &str, base_url: &str, css_selector: &str) -> (r: Option<String>)
    ensures
        r.deep_view() == next_link_spec(html@, base_url@, css_selector@),
{
    if !selector_parses(css_selector) {
        return None;
    }
    let els = select_all(html, css_selector);
    if els.len() == 0 {
        return None;
    }
    assert(els@.map_values(|e: Element| e@)[0] == els@[0]@);
    let href = attr_of(&els[0].attrs, "href");
    proof {
        reveal_strlit("href");
    }
    match href {
        Some(h) => url_join(base_url, h.as_str()),
        None => None,
    }
}

/// Each record holds, under every selector's name, the value of the last
/// selector with that name, and nothing else.
pub proof fn law_record_fields(html: Seq<char>, url: Seq<char>, sels: Seq<Selector>, i: int, k: Seq<char>)
    requires
        0 <= i < html_records(html, url, sels).len(),
    ensures
        crate::field_map::lookup(html_records(html, url, sels)[i], k) == crate::field_map::last_value(
            row_pairs(html, url, sels, i),
            k,
        ),
        forall|j: int| 0 <= j < sels.len() ==> (crate::field_map::lookup(html_records(html, url, sels)[i], #[trigger] sels[j].name@) is Some),
{
    crate::field_map::law_pairs_last_wins(row_pairs(html, url, sels, i), k);
    assert forall|j: int| 0 <= j < sels.len() implies (crate::field_map::lookup(html_records(html, url, sels)[i], #[trigger] sels[j].name@) is Some) by {
        let pairs = row_pairs(html, url, sels, i);
        crate::field_map::law_pairs_last_wins(pairs, sels[j].name@);
        lemma_last_value_some(pairs, j);
    }
}

proof fn lemma_last_value_some(pairs: Entries, j: int)
    requires
        0 <= j < pairs.len(),
    ensures
        crate::field_map::last_value(pairs, pairs[j].0) is Some,
    decreases pairs.len(),
{
    if pairs.last().0 != pairs[j].0 {
        assert(j < pairs.len() - 1);
        assert(pairs.drop_last()[j] == pairs[j]);
        lemma_last_value_some(pairs.drop_last(), j);
    }
}

/// A page yields a successful result exactly when the selectors extract a
/// record from it, and it is a failure for a page where the first selector
/// does not parse or matches nothing.
pub proof fn law_no_rows_no_records(html: Seq<char>, url: Seq<char>, sels: Seq<Selector>)
    requires
        sels.len() == 0 || !spec_selector_parses(sels[0].css_selector@) || spec_select(
            html,
            sels[0].css_selector@,
        ).len() == 0,
    ensures
        html_records(html, url, sels).len() == 0,
{
}

/// The text value of an element is all of its text nodes, in document order,
/// joined by single spaces and then trimmed: nothing for no node, `trim(t1)`
/// for one, `trim(t1 + " " + t2)` for two, `trim(t1 + " " + t2 + " " + t3)`
/// for three, whatever the element's HTML, attributes and page URL.
pub proof fn law_text_value_joins_all_nodes(
    t1: Seq<char>,
    t2: Seq<char>,
    t3: Seq<char>,
    inner: Seq<char>,
    attrs: Seq<AttrView>,
    url: Seq<char>,
)
    ensures
        extract_spec((Seq::empty(), inner, attrs), ExtractType::Text, url) == Seq::<char>::empty(),
        extract_spec((seq![t1], inner, attrs), ExtractType::Text, url) == trim(t1),
        extract_spec((seq![t1, t2], inner, attrs), ExtractType::Text, url) == trim(t1 + seq![' '] + t2),
        extract_spec((seq![t1, t2, t3], inner, attrs), ExtractType::Text, url) == trim(
            t1 + seq![' '] + t2 + seq![' '] + t3,
        ),
{
    assert(seq![t1, t2].drop_last() =~= seq![t1]);
    assert(seq![t1, t2, t3].drop_last() =~= seq![t1, t2]);
    assert(join_space(seq![t1]) == t1);
    assert(join_space(seq![t1, t2]) =~= t1 + seq![' '] + t2);
    assert(join_space(seq![t1, t2, t3]) =~= t1 + seq![' '] + t2 + seq![' '] + t3);
    assert(trim(Seq::<char>::empty()) =~= Seq::<char>::empty()) by {
        reveal_with_fuel(crate::text::trim_start, 1);
        reveal_with_fuel(crate::text::trim_end, 1);
    }
}

} // verus!
