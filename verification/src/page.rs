//! Access to the pages the site serves: HTML documents (through `scraper`), JSON replies
//! (through `serde_json`) and the percent-encoding of query text (through `urlencoding`).
//!
//! HTML parsing and CSS selector matching take the HTML and CSS standards to state, and
//! JSON parsing the JSON grammar, so their results are named rather than spelled out; what
//! the library does with those results is stated exactly by the functions that take them.
use vstd::prelude::*;
use vstd::string::StringExecFns;
use vstd::utf8::encode_utf8;

use crate::text::opt_seq;

verus! {

/// What the logic reads of one matched element: the values of the attributes asked for,
/// in the order asked, and the concatenated text of its descendant text nodes.
pub struct ScrapedElement {
    pub attrs: Vec<Option<String>>,
    pub text: String,
}

impl View for ScrapedElement {
    type V = (Seq<Option<Seq<char>>>, Seq<char>);

    open spec fn view(&self) -> (Seq<Option<Seq<char>>>, Seq<char>) {
        (self.attrs.deep_view(), self.text@)
    }
}

/// The elements of the document `html` that match the CSS selector `selector`, in document
/// order, each read as the values of the attributes `names` and its text; `None` when the
/// selector does not parse.
pub uninterp spec fn html_select(html: Seq<char>, selector: Seq<char>, names: Seq<Seq<char>>)
    -> Option<Seq<(Seq<Option<Seq<char>>>, Seq<char>)>>;

pub open spec fn elements_view(v: Seq<ScrapedElement>) -> Seq<(Seq<Option<Seq<char>>>, Seq<char>)> {
    v.map_values(|e: ScrapedElement| e@)
}

pub open spec fn selection_view(r: Option<Vec<ScrapedElement>>) -> Option<
    Seq<(Seq<Option<Seq<char>>>, Seq<char>)>,
> {
    match r {
        Some(v) => Some(elements_view(v@)),
        None => None,
    }
}

/// The matched elements, or none at all when the selector did not parse.
pub open spec fn matched(sel: Option<Seq<(Seq<Option<Seq<char>>>, Seq<char>)>>) -> Seq<
    (Seq<Option<Seq<char>>>, Seq<char>),
> {
    match sel {
        Some(es) => es,
        None => Seq::empty(),
    }
}

/// The value of the `i`-th attribute read of an element, `None` when it is absent.
pub open spec fn attr_at(e: (Seq<Option<Seq<char>>>, Seq<char>), i: int) -> Option<Seq<char>> {
    if 0 <= i < e.0.len() {
        e.0[i]
    } else {
        None
    }
}

/// Parses `html` with `scraper::Html::parse_document`, parses `selector` with
/// `scraper::Selector::parse`, and reads each element that `Html::select` yields through
/// `ElementRef::value().attr` (for each of `names`) and `ElementRef::text`.
/// The contract claims only that the result is `html_select` of the arguments.
#[verifier::external_body]
pub(crate) fn select_elements(html: &str, selector: &str, names: &Vec<String>) -> (found: Option<
    Vec<ScrapedElement>,
>)
    ensures
        selection_view(found) == html_select(html@, selector@, names.deep_view()),
{
    let sel = scraper::Selector::parse(selector).ok()?;
    let doc = scraper::Html::parse_document(html);
    Some(doc.select(&sel).map(|e| ScrapedElement {
        attrs: names.iter().map(|n| e.value().attr(n).map(|a| a.to_string())).collect(),
        text: e.text().collect(),
    }).collect())
}

/// The owned copy of the element attribute `i` of `e`, when present.
pub fn attr_value(e: &ScrapedElement, i: usize) -> (r: Option<String>)
    ensures
        match r {
            Some(s) => attr_at(e@, i as int) == Some(s@),
            None => attr_at(e@, i as int) is None,
        },
{
    if i < e.attrs.len() {
        match &e.attrs[i] {
            Some(s) => Some(s.clone()),
            None => None,
        }
    } else {
        None
    }
}

/// The first attribute read of the first matched element, if there is one.
pub open spec fn first_attr(es: Seq<(Seq<Option<Seq<char>>>, Seq<char>)>) -> Option<Seq<char>> {
    if es.len() > 0 {
        attr_at(es[0], 0)
    } else {
        None
    }
}

/// The first attribute read of the first matched element, if there is one.
pub fn first_attr_value(es: &Vec<ScrapedElement>) -> (r: Option<String>)
    ensures
        match r {
            Some(s) => first_attr(elements_view(es@)) == Some(s@),
            None => first_attr(elements_view(es@)) is None,
        },
{
    if es.len() > 0 {
        assert(elements_view(es@)[0] == es@[0]@);
        attr_value(&es[0], 0)
    } else {
        None
    }
}

/// The elements that `select_elements` found, none when the selector did not parse.
pub fn found_elements(found: Option<Vec<ScrapedElement>>) -> (r: Vec<ScrapedElement>)
    ensures
        elements_view(r@) == matched(selection_view(found)),
{
    match found {
        Some(v) => v,
        None => {
            let v: Vec<ScrapedElement> = Vec::new();
            assert(elements_view(v@) =~= Seq::empty());
            v
        },
    }
}

/// The single attribute `src` of every element matching `selector` in `html`.
pub fn select_src(html: &str, selector: &str) -> (r: Vec<ScrapedElement>)
    ensures
        elements_view(r@) == matched(html_select(html@, selector@, seq!["src"@])),
{
    let names = vec![String::from_str("src")];
    assert(names.deep_view() =~= seq!["src"@]);
    found_elements(select_elements(html, selector, &names))
}

/// Of a JSON text, the string at `data.content`, when the text parses and that value is a
/// string.
pub uninterp spec fn json_data_content(text: Seq<char>) -> Option<Seq<char>>;

/// Of a JSON text, the `file` member of each item of the array `sources`, `None` for an item
/// whose `file` is absent or not a string; `None` overall when the text does not parse or
/// has no array `sources`.
pub uninterp spec fn json_source_files(text: Seq<char>) -> Option<Seq<Option<Seq<char>>>>;

/// Parses `text` with `serde_json::from_str` into a `serde_json::Value`, then reads
/// `data.content` with `Value::get` and `Value::as_str`.
/// The contract claims only that the result is `json_data_content` of the text.
#[verifier::external_body]
pub(crate) fn data_content_of_json(text: &str) -> (content: Option<String>)
    ensures
        opt_seq(content) == json_data_content(text@),
{
    let json: serde_json::Value = serde_json::from_str(text).ok()?;
    json.get("data").and_then(|d| d.get("content")).and_then(|c| c.as_str()).map(|s| s.to_string())
}

/// Parses `text` with `serde_json::from_str` into a `serde_json::Value`, then reads the array
/// `sources` with `Value::get` and `Value::as_array`, and of each item `file` with
/// `Value::get` and `Value::as_str`.
/// The contract claims only that the result is `json_source_files` of the text.
#[verifier::external_body]
pub(crate) fn source_files_of_json(text: &str) -> (files: Option<Vec<Option<String>>>)
    ensures
        match files {
            Some(v) => json_source_files(text@) == Some(v.deep_view()),
            None => json_source_files(text@) is None,
        },
{
    let json: serde_json::Value = serde_json::from_str(text).ok()?;
    let sources = json.get("sources")?.as_array()?;
    Some(sources.iter().map(|s| s.get("file").and_then(|f| f.as_str()).map(|u| u.to_string())).collect())
}

/// The bytes that `urlencoding::encode` passes through unchanged.
pub open spec fn url_safe_byte(b: u8) -> bool {
    (48 <= b <= 57) || (65 <= b <= 90) || (97 <= b <= 122) || b == 45 || b == 46 || b == 95
        || b == 126
}

/// The upper-case hexadecimal digit of `d < 16`.
pub open spec fn hex_digit(d: u8) -> char {
    if d < 10 {
        (48 + d) as char
    } else {
        (55 + d) as char
    }
}

/// Every byte kept when safe, and written `%XY` (upper-case hex) otherwise.
pub open spec fn percent_encode(bytes: Seq<u8>) -> Seq<char>
    decreases bytes.len(),
{
    if bytes.len() == 0 {
        Seq::empty()
    } else {
        let b = bytes.last();
        percent_encode(bytes.drop_last()) + if url_safe_byte(b) {
            seq![b as char]
        } else {
            seq!['%', hex_digit(b / 16), hex_digit(b % 16)]
        }
    }
}

/// The percent-encoding of the UTF-8 bytes of `s`.
pub open spec fn url_encoded(s: Seq<char>) -> Seq<char> {
    percent_encode(encode_utf8(s))
}

/// Calls `urlencoding::encode`, which percent-encodes every UTF-8 byte of `data` except ASCII
/// letters, digits and `-`, `.`, `_`, `~`, writing upper-case hex digits.
#[verifier::external_body]
pub(crate) fn url_encode(data: &str) -> (encoded: String)
    ensures
        encoded@ == url_encoded(data@),
{
    urlencoding::encode(data).into_owned()
}

} // verus!
