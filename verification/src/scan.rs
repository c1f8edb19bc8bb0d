//! The href scanner: a lexical scan of HTML text for quoted `href`
//! attribute values.
//!
//! The scanner looks for the literal token `href=` followed by a quote. A
//! value opens there where the characters behind the quote are value
//! characters up to the same quote: a value holds neither a blank nor a
//! quote, since no path, no origin and no query can hold one. A token whose
//! quote is not closed in this way opens no value. Every token of the text
//! is looked at, so that no value is lost behind another one. Every value is
//! cut at its first `#` or `?`, so that neither fragment nor query reaches
//! the classifier. Values come out in document order. Nothing else of HTML
//! is understood: unquoted values are not seen and entities are not decoded.

use vstd::prelude::*;
use crate::text::{chars_of, has_at, occurs_at, string_of_range};

verus! {

/// The token that announces an attribute value: `href=`.
pub open spec fn href_token() -> Seq<char> {
    seq!['h', 'r', 'e', 'f', '=']
}

/// The two characters that may enclose an attribute value.
pub open spec fn is_quote(c: char) -> bool {
    c == '"' || c == '\''
}

/// The characters that separate words in HTML: space, tab, line feed, form
/// feed and carriage return.
pub open spec fn is_blank(c: char) -> bool {
    c == ' ' || c == '\t' || c == '\n' || c == '\u{c}' || c == '\r'
}

/// The characters that a value may hold: all but blanks and quotes.
pub open spec fn is_value_char(c: char) -> bool {
    !is_blank(c) && !is_quote(c)
}

/// Whether `text` holds value characters only.
pub open spec fn is_value(text: Seq<char>) -> bool {
    forall|j: int| 0 <= j < text.len() ==> is_value_char(#[trigger] text[j])
}

/// Whether `href=` and a quote stand at index `i` of `html`.
pub open spec fn opens_at(html: Seq<char>, i: int) -> bool {
    &&& occurs_at(html, i, href_token())
    &&& i + 5 < html.len()
    &&& is_quote(html[i + 5])
}

/// The index of the first character of `html` at or after `from` that is no
/// value character, or the length of `html` where there is none.
pub open spec fn value_end(html: Seq<char>, from: int) -> int
    decreases html.len() - from,
{
    if from < 0 || from >= html.len() {
        html.len() as int
    } else if !is_value_char(html[from]) {
        from
    } else {
        value_end(html, from + 1)
    }
}

/// `value_end` lies at or after `from`, only value characters come before
/// it, and the character at it, where there is one, is none.
pub proof fn lemma_value_end(html: Seq<char>, from: int)
    requires
        0 <= from <= html.len(),
    ensures
        from <= value_end(html, from) <= html.len(),
        is_value(html.subrange(from, value_end(html, from))),
        value_end(html, from) < html.len() ==> !is_value_char(html[value_end(html, from)]),
    decreases html.len() - from,
{
    if from < html.len() && is_value_char(html[from]) {
        lemma_value_end(html, from + 1);
        let end = value_end(html, from);
        let value = html.subrange(from, end);
        let rest = html.subrange(from + 1, end);
        assert forall|j: int| 0 <= j < value.len() implies is_value_char(#[trigger] value[j]) by {
            if j > 0 {
                assert(value[j] == rest[j - 1]);
            }
        }
    }
}

/// The index at which the value that opens at index `at` ends: the index of
/// the first character behind the opening quote that is no value character.
pub open spec fn close_of(html: Seq<char>, at: int) -> int {
    value_end(html, at + 6)
}

/// Whether a value opens at index `i` of `html`: `href=` and a quote stand
/// there, and the value characters behind them are followed by the same
/// quote.
pub open spec fn takes_at(html: Seq<char>, i: int) -> bool {
    &&& opens_at(html, i)
    &&& close_of(html, i) < html.len()
    &&& html[close_of(html, i)] == html[i + 5]
}

/// The value that opens at index `at`, as it stands between its quotes.
pub open spec fn value_at(html: Seq<char>, at: int) -> Seq<char> {
    html.subrange(at + 6, close_of(html, at))
}

/// Whether a fragment or a query begins with `c`.
pub open spec fn is_suffix_mark(c: char) -> bool {
    c == '#' || c == '?'
}

/// The index of the first `#` or `?` of `value`, or its length where it
/// holds neither.
pub open spec fn suffix_start(value: Seq<char>) -> int
    decreases value.len(),
{
    if value.len() == 0 {
        0
    } else if is_suffix_mark(value[0]) {
        0
    } else {
        1 + suffix_start(value.drop_first())
    }
}

/// `suffix_start` lies in `value`, no mark comes before it, and a mark
/// stands at it unless it is the length.
pub proof fn lemma_suffix_start(value: Seq<char>)
    ensures
        0 <= suffix_start(value) <= value.len(),
        forall|j: int| 0 <= j < suffix_start(value) ==> !is_suffix_mark(value[j]),
        suffix_start(value) < value.len() ==> is_suffix_mark(value[suffix_start(value)]),
    decreases value.len(),
{
    if value.len() > 0 && !is_suffix_mark(value[0]) {
        let rest = value.drop_first();
        lemma_suffix_start(rest);
        assert forall|j: int| 0 <= j < suffix_start(value) implies !is_suffix_mark(value[j]) by {
            if j > 0 {
                assert(rest[j - 1] == value[j]);
            }
        }
    }
}

/// `value` without its fragment and query: what comes before the first `#`
/// or `?`.
pub open spec fn strip_suffix(value: Seq<char>) -> Seq<char> {
    value.subrange(0, suffix_start(value))
}

/// A text without `#` and `?` has no suffix to strip.
pub proof fn lemma_nothing_to_strip(value: Seq<char>)
    requires
        forall|j: int| 0 <= j < value.len() ==> !is_suffix_mark(#[trigger] value[j]),
    ensures
        strip_suffix(value) == value,
{
    lemma_suffix_start(value);
    assert(strip_suffix(value) =~= value);
}

/// The href that the value opening at index `at` gives.
pub open spec fn href_at(html: Seq<char>, at: int) -> Seq<char> {
    strip_suffix(value_at(html, at))
}

/// The hrefs of the values of `html` that open at or after index `i`, in
/// document order.
pub open spec fn scan_from(html: Seq<char>, i: int) -> Seq<Seq<char>>
    decreases html.len() - i,
{
    if i < 0 || i >= html.len() {
        Seq::empty()
    } else if takes_at(html, i) {
        seq![href_at(html, i)] + scan_from(html, i + 1)
    } else {
        scan_from(html, i + 1)
    }
}

/// The hrefs of `html`: the value of every quoted `href` attribute, in
/// document order, each cut at its first `#` or `?`.
pub open spec fn scan_spec(html: Seq<char>) -> Seq<Seq<char>> {
    scan_from(html, 0)
}

/// The indices of `html`, at or after `i`, at which the values open that
/// `scan_from` gives; each is the index of the `h` of its token.
pub open spec fn openings_from(html: Seq<char>, i: int) -> Seq<int>
    decreases html.len() - i,
{
    if i < 0 || i >= html.len() {
        Seq::empty()
    } else if takes_at(html, i) {
        seq![i] + openings_from(html, i + 1)
    } else {
        openings_from(html, i + 1)
    }
}

/// How many times `href=` stands in `html` at or after index `i`.
pub open spec fn token_count_from(html: Seq<char>, i: int) -> nat
    decreases html.len() - i,
{
    if i < 0 || i >= html.len() {
        0
    } else if occurs_at(html, i, href_token()) {
        1 + token_count_from(html, i + 1)
    } else {
        token_count_from(html, i + 1)
    }
}

/// The hrefs come in document order, each taken as it stands in the text:
/// href `k` is the one of the value that opens at
/// `openings_from(html, from)[k]`, and the openings ascend.
pub proof fn lemma_scan_in_document_order(html: Seq<char>, from: int)
    requires
        0 <= from,
    ensures
        openings_from(html, from).len() == scan_from(html, from).len(),
        forall|k: int|
            #![trigger openings_from(html, from)[k]]
            0 <= k < openings_from(html, from).len() ==> {
                let at = openings_from(html, from)[k];
                &&& from <= at < html.len()
                &&& takes_at(html, at)
                &&& scan_from(html, from)[k] == href_at(html, at)
            },
        forall|k: int, m: int|
            #![trigger openings_from(html, from)[k], openings_from(html, from)[m]]
            0 <= k < m < openings_from(html, from).len() ==> openings_from(html, from)[k]
                < openings_from(html, from)[m],
    decreases html.len() - from,
{
    if from < html.len() {
        lemma_scan_in_document_order(html, from + 1);
        let here = openings_from(html, from);
        let rest = openings_from(html, from + 1);
        if takes_at(html, from) {
            assert(here =~= seq![from] + rest);
            assert forall|k: int|
                #![trigger here[k]]
                0 <= k < here.len() implies {
                let at = here[k];
                &&& from <= at < html.len()
                &&& takes_at(html, at)
                &&& scan_from(html, from)[k] == href_at(html, at)
            } by {
                if k > 0 {
                    assert(here[k] == rest[k - 1]);
                    assert(scan_from(html, from)[k] == scan_from(html, from + 1)[k - 1]);
                }
            }
            assert forall|k: int, m: int|
                #![trigger here[k], here[m]]
                0 <= k < m < here.len() implies here[k] < here[m] by {
                assert(here[m] == rest[m - 1]);
                if k > 0 {
                    assert(here[k] == rest[k - 1]);
                }
            }
        }
    }
}

/// No value is lost: the href of every value that opens at or after `from`
/// is among the hrefs from there on.
pub proof fn lemma_scan_finds(html: Seq<char>, from: int, at: int)
    requires
        0 <= from <= at,
        takes_at(html, at),
    ensures
        scan_from(html, from).contains(href_at(html, at)),
    decreases at - from,
{
    let found = scan_from(html, from);
    if from == at {
        assert(found[0] == href_at(html, at));
    } else {
        lemma_scan_finds(html, from + 1, at);
        let rest = scan_from(html, from + 1);
        let k = choose|k: int| 0 <= k < rest.len() && rest[k] == href_at(html, at);
        if takes_at(html, from) {
            assert(found[k + 1] == rest[k]);
        }
    }
}

/// A value that is written out in the text is one that the scanner takes:
/// where `href=`, a quote, `value` and the same quote stand at index `at`,
/// and `value` holds value characters only, the value that opens at `at` is
/// `value`.
pub proof fn lemma_written_value_opens(html: Seq<char>, at: int, quote: char, value: Seq<char>)
    requires
        is_quote(quote),
        is_value(value),
        occurs_at(html, at, href_token() + seq![quote] + value + seq![quote]),
    ensures
        takes_at(html, at),
        value_at(html, at) == value,
{
    let written = href_token() + seq![quote] + value + seq![quote];
    let there = html.subrange(at, at + written.len());
    assert(there == written);
    assert forall|j: int| 0 <= j < written.len() implies html[at + j] == written[j] by {
        assert(there[j] == written[j]);
    }
    assert(html.subrange(at, at + 5) =~= href_token()) by {
        assert forall|j: int| 0 <= j < 5 implies html[at + j] == href_token()[j] by {
            assert(written[j] == href_token()[j]);
        }
    }
    assert(html[at + 5] == quote) by {
        assert(written[5] == quote);
    }
    assert(html[at + 6 + value.len()] == quote) by {
        assert(written[6 + value.len() as int] == quote);
    }
    assert forall|j: int| 0 <= j < value.len() implies html[at + 6 + j] == value[j] by {
        assert(written[6 + j] == value[j]);
    }
    assert forall|j: int| at + 6 <= j < at + 6 + value.len() implies is_value_char(html[j]) by {
        assert(html[at + 6 + (j - at - 6)] == value[j - at - 6]);
    }
    lemma_value_end_behind(html, at + 6, value.len() as int);
    assert(html.subrange(at + 6, at + 6 + value.len()) =~= value);
}

/// Where `n` value characters stand at index `from` and a character that
/// is none follows them, the value ends behind them.
proof fn lemma_value_end_behind(html: Seq<char>, from: int, n: int)
    requires
        0 <= from,
        0 <= n,
        from + n < html.len(),
        forall|j: int| from <= j < from + n ==> is_value_char(html[j]),
        !is_value_char(html[from + n]),
    ensures
        value_end(html, from) == from + n,
    decreases n,
{
    if n > 0 {
        lemma_value_end_behind(html, from + 1, n - 1);
    }
}

/// The href of a value that is written out in the text is among the hrefs
/// of the text.
pub proof fn lemma_written_href_scanned(html: Seq<char>, at: int, quote: char, value: Seq<char>)
    requires
        is_quote(quote),
        is_value(value),
        occurs_at(html, at, href_token() + seq![quote] + value + seq![quote]),
    ensures
        scan_spec(html).contains(strip_suffix(value)),
{
    lemma_written_value_opens(html, at, quote, value);
    lemma_scan_finds(html, 0, at);
}

/// There are no more hrefs than tokens: every href belongs to an `href=` of
/// its own.
pub proof fn lemma_scan_count(html: Seq<char>, from: int)
    ensures
        scan_from(html, from).len() <= token_count_from(html, from),
    decreases html.len() - from,
{
    if 0 <= from < html.len() {
        lemma_scan_count(html, from + 1);
    }
}

/// Scanning is repeatable: two scans of one text give the same hrefs, as
/// many and in the same order.
pub proof fn lemma_scan_repeatable(html: Seq<char>, first: Seq<Seq<char>>, second: Seq<Seq<char>>)
    requires
        first == scan_spec(html),
        second == scan_spec(html),
    ensures
        first.len() == second.len(),
        forall|i: int| 0 <= i < first.len() ==> first[i] == second[i],
{
}

/// A text without the token holds no href; so does the empty text.
pub proof fn lemma_scan_without_token(html: Seq<char>, from: int)
    requires
        forall|i: int| from <= i < html.len() ==> !opens_at(html, i),
    ensures
        scan_from(html, from) == Seq::<Seq<char>>::empty(),
    decreases html.len() - from,
{
    if 0 <= from < html.len() {
        lemma_scan_without_token(html, from + 1);
    }
}

/// An href holds value characters only, and neither `#` nor `?`.
pub proof fn lemma_scan_href_chars(html: Seq<char>, from: int, k: int, j: int)
    requires
        0 <= from,
        0 <= k < scan_from(html, from).len(),
        0 <= j < scan_from(html, from)[k].len(),
    ensures
        is_value_char(scan_from(html, from)[k][j]),
        !is_suffix_mark(scan_from(html, from)[k][j]),
{
    lemma_scan_in_document_order(html, from);
    let at = openings_from(html, from)[k];
    let value = value_at(html, at);
    lemma_value_end(html, at + 6);
    lemma_suffix_start(value);
    assert(scan_from(html, from)[k][j] == value[j]);
}

/// Computes `value_end`.
fn find_value_end(html: &Vec<char>, from: usize) -> (end: usize)
    requires
        from <= html.len(),
    ensures
        end == value_end(html@, from as int),
        from <= end <= html.len(),
{
    let mut i: usize = from;
    while i < html.len() && !blank_or_quote(html[i])
        invariant
            from <= i <= html.len(),
            value_end(html@, from as int) == value_end(html@, i as int),
        decreases html.len() - i,
    {
        i += 1;
    }
    i
}

/// Decides whether `c` is no value character.
fn blank_or_quote(c: char) -> (yes: bool)
    ensures
        yes == !is_value_char(c),
{
    c == ' ' || c == '\t' || c == '\n' || c == '\u{c}' || c == '\r' || c == '"' || c == '\''
}

/// Computes `strip_suffix` on `html[from..to]` as the index where the kept
/// part ends.
fn suffix_cut(html: &Vec<char>, from: usize, to: usize) -> (cut: usize)
    requires
        from <= to <= html.len(),
    ensures
        from <= cut <= to,
        html@.subrange(from as int, cut as int) == strip_suffix(
            html@.subrange(from as int, to as int),
        ),
{
    let ghost value = html@.subrange(from as int, to as int);
    let mut i: usize = from;
    assert(value.subrange(0, value.len() as int) =~= value);
    while i < to && html[i] != '#' && html[i] != '?'
        invariant
            from <= i <= to <= html.len(),
            value == html@.subrange(from as int, to as int),
            suffix_start(value) == (i - from) + suffix_start(
                value.subrange(i - from, value.len() as int),
            ),
        decreases to - i,
    {
        proof {
            let tail = value.subrange(i - from, value.len() as int);
            assert(tail[0] == html@[i as int]);
            assert(tail.drop_first() =~= value.subrange(i + 1 - from, value.len() as int));
        }
        i += 1;
    }
    proof {
        let tail = value.subrange(i - from, value.len() as int);
        if i < to {
            assert(tail[0] == html@[i as int]);
        }
        assert(suffix_start(tail) == 0);
        assert(html@.subrange(from as int, i as int) =~= value.subrange(0, i - from));
    }
    i
}

/// Scans a page that is held as characters.
fn scan_chars(html: &Vec<char>) -> (hrefs: Vec<String>)
    ensures
        hrefs.deep_view() == scan_spec(html@),
{
    let token: Vec<char> = vec!['h', 'r', 'e', 'f', '='];
    assert(token@ =~= href_token());
    let mut hrefs: Vec<String> = Vec::new();
    let mut i: usize = 0;
    assert(hrefs.deep_view() =~= Seq::<Seq<char>>::empty());
    while i < html.len()
        invariant
            i <= html.len(),
            token@ == href_token(),
            scan_spec(html@) == hrefs.deep_view() + scan_from(html@, i as int),
        decreases html.len() - i,
    {
        if has_at(html, i, &token) && i + 5 < html.len() && (html[i + 5] == '"' || html[i + 5]
            == '\'') {
            let close = find_value_end(html, i + 6);
            if close < html.len() && html[close] == html[i + 5] {
                let cut = suffix_cut(html, i + 6, close);
                let href = string_of_range(html, i + 6, cut);
                let ghost before = hrefs.deep_view();
                hrefs.push(href);
                assert(hrefs.deep_view() =~= before.push(href@));
                assert(before.push(href@) + scan_from(html@, i + 1) =~= before + (seq![href@]
                    + scan_from(html@, i + 1)));
            }
        }
        i += 1;
    }
    assert(scan_from(html@, i as int) =~= Seq::<Seq<char>>::empty());
    assert(hrefs.deep_view() + Seq::<Seq<char>>::empty() =~= hrefs.deep_view());
    hrefs
}

/// Scans `html` for hrefs.
///
/// The result is a function of the text alone: scanning the same page again
/// gives the same hrefs in the same order.
pub fn scan(html: &str) -> (hrefs: Vec<String>)
    ensures
        hrefs.deep_view() == scan_spec(html@),
{
    let chars = chars_of(html);
    scan_chars(&chars)
}

} // verus!
