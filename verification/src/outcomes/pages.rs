//! What queries of a page give, and what is read off its elements.
use crate::parsers::{
    attribute, chars_of, descendant_matches, document_matches, found, inner_html, join_with_space,
    outer_html, places_of, select_all, select_first, select_html, selector_accepted, selector_text,
    spaced, text_nodes, texts_at, with_selector, Doc, Node, Place, SelectorCache,
};
use crate::quotes::{
    page_selectors, parse_quotes, parse_quotes_with, quote_at, read_quote, Quote,
};
use scraper::Selector;
use vstd::prelude::*;

verus! {

// ---------------------------------------------------------------------------
// Texts
// ---------------------------------------------------------------------------
/// Where a part starts in a text that holds one part after another, with one
/// character between each two.
pub open spec fn start_of(parts: Seq<Seq<char>>, k: int) -> int
    decreases k,
{
    if k <= 0 {
        0
    } else {
        start_of(parts, k - 1) + parts[k - 1].len() + 1
    }
}

/// Whether a part stands in a text where it should, with a space behind it where
/// another part follows.
pub open spec fn part_stands(text: Seq<char>, parts: Seq<Seq<char>>, k: int) -> bool {
    let start = start_of(parts, k);
    let end = start + parts[k].len();
    &&& 0 <= start
    &&& end <= text.len()
    &&& text.subrange(start, end) == parts[k]
    &&& k + 1 < parts.len() ==> end < text.len() && text[end] == ' '
}

/// Whether a text is made of all the parts, with a space between each two and
/// nothing else: it has room for that alone, and each part and each space stands
/// where it should.
pub open spec fn made_of(text: Seq<char>, parts: Seq<Seq<char>>) -> bool {
    let n = parts.len() as int;
    &&& text.len() == if n == 0 {
        0
    } else {
        start_of(parts, n - 1) + parts[n - 1].len()
    }
    &&& forall|k: int| 0 <= k < n ==> #[trigger] part_stands(text, parts, k)
}

/// Parts start where they did before one was added.
proof fn lemma_start_of_rest(parts: Seq<Seq<char>>, k: int)
    requires
        0 <= k < parts.len(),
    ensures
        start_of(parts.drop_last(), k) == start_of(parts, k),
        0 <= start_of(parts, k),
    decreases k,
{
    if k > 0 {
        lemma_start_of_rest(parts, k - 1);
    }
}

/// How long the joined text is.
proof fn lemma_spaced_len(parts: Seq<Seq<char>>)
    requires
        parts.len() > 0,
    ensures
        spaced(parts).len() == start_of(parts, parts.len() - 1) + parts.last().len(),
    decreases parts.len(),
{
    if parts.len() > 1 {
        let n = parts.len() as int;
        lemma_spaced_len(parts.drop_last());
        lemma_start_of_rest(parts, n - 2);
        assert(start_of(parts, n - 1) == start_of(parts, n - 2) + parts[n - 2].len() + 1);
    }
}

/// Where a part stands in the joined text.
proof fn lemma_part_stands(parts: Seq<Seq<char>>, k: int)
    requires
        0 <= k < parts.len(),
    ensures
        part_stands(spaced(parts), parts, k),
    decreases parts.len(),
{
    let n = parts.len() as int;
    let text = spaced(parts);
    let start = start_of(parts, k);
    let end = start + parts[k].len();
    lemma_spaced_len(parts);
    lemma_start_of_rest(parts, k);
    if n == 1 {
        assert(text.subrange(start, end) =~= parts[k]);
    } else {
        let rest = parts.drop_last();
        let front = spaced(rest);
        lemma_spaced_len(rest);
        lemma_start_of_rest(parts, n - 2);
        assert(text =~= front.push(' ') + parts.last());
        if k == n - 1 {
            assert(start == start_of(parts, n - 2) + parts[n - 2].len() + 1);
            assert(text.subrange(start, end) =~= parts[k]);
        } else {
            lemma_part_stands(rest, k);
            assert(rest[k] == parts[k]);
            assert(text.subrange(start, end) =~= front.subrange(start, end));
            if k + 1 < n - 1 {
                assert(text[end] == front[end]);
            } else {
                assert(end == front.len());
            }
        }
    }
}

/// Joining makes a text of all the parts.
proof fn lemma_spaced_made_of(parts: Seq<Seq<char>>)
    ensures
        made_of(spaced(parts), parts),
{
    if parts.len() > 0 {
        lemma_spaced_len(parts);
    }
    assert forall|k: int| 0 <= k < parts.len() implies #[trigger] part_stands(
        spaced(parts),
        parts,
        k,
    ) by {
        lemma_part_stands(parts, k);
    }
}

/// The text of an element is made of all its text nodes, however many there are,
/// in their order and with a space between each two.
pub proof fn law_a_text_holds_every_text_node(node: Node<'_>, text: String)
    requires
        call_ensures(Node::text, (&node,), text),
    ensures
        made_of(text@, text_nodes(node@.0, node@.1)),
{
    lemma_spaced_made_of(text_nodes(node@.0, node@.1));
}

/// Joining parts gives a text that is made of all of them.
pub proof fn law_joining_keeps_every_part(parts: &Vec<&str>, text: String)
    requires
        call_ensures(join_with_space, (parts,), text),
    ensures
        made_of(text@, parts@.map_values(|part: &str| part@)),
{
    lemma_spaced_made_of(parts@.map_values(|part: &str| part@));
}

/// What is read off an element is what the tree holds there.
pub proof fn law_an_element_reads_as_it_stands(
    node: Node<'_>,
    name: &str,
    value: Option<&str>,
    html: String,
    inner: String,
)
    ensures
        call_ensures(Node::attr, (&node, name), value) ==> {
            &&& value is Some <==> attribute(node@.0, node@.1, name@) is Some
            &&& value matches Some(text) ==> attribute(node@.0, node@.1, name@) == Some(text@)
        },
        call_ensures(Node::html, (&node,), html) ==> html@ == outer_html(node@.0, node@.1),
        call_ensures(Node::inner_html, (&node,), inner) ==> inner@ == inner_html(node@.0, node@.1),
{
}

// ---------------------------------------------------------------------------
// Queries
// ---------------------------------------------------------------------------
/// Whether nodes are the elements with these numbers in the tree of `source`: as
/// many, and in that order.
pub open spec fn stand_at(nodes: Seq<Node<'_>>, source: Seq<char>, numbers: Seq<nat>) -> bool {
    &&& nodes.len() == numbers.len()
    &&& forall|i: int| 0 <= i < nodes.len() ==> (#[trigger] nodes[i])@ == (source, numbers[i])
}

/// Whether texts are those of the elements with these numbers.
pub open spec fn texts_from(
    texts: Seq<String>,
    source: Seq<char>,
    numbers: Seq<nat>,
) -> bool {
    &&& texts.len() == numbers.len()
    &&& forall|i: int|
        0 <= i < texts.len() ==> made_of((#[trigger] texts[i])@, text_nodes(source, numbers[i]))
}

/// Whether a text is that of the first element with one of these numbers, and
/// there is one exactly when there is such an element.
pub open spec fn first_text_from(
    text: Option<String>,
    source: Seq<char>,
    numbers: Seq<nat>,
) -> bool {
    &&& text is Some <==> numbers.len() > 0
    &&& text matches Some(chars) ==> made_of(chars@, text_nodes(source, numbers[0]))
}

/// A query of a document gives every element that matches, in the order in which
/// they match, and nothing for an invalid selector.
pub proof fn law_a_document_query_gives_every_match(
    doc: &Doc,
    cache: &mut SelectorCache,
    selector: &str,
    nodes: Vec<Node<'_>>,
)
    requires
        call_ensures(Doc::select, (doc, selector), nodes) || call_ensures(
            Doc::select_with,
            (doc, cache, selector),
            nodes,
        ),
    ensures
        selector_accepted(selector@) ==> stand_at(
            nodes@,
            doc@,
            document_matches(doc@, selector@),
        ),
        !selector_accepted(selector@) ==> nodes@.len() == 0,
{
    assert forall|i: int| 0 <= i < nodes@.len() implies (#[trigger] nodes@[i])@ == places_of(
        nodes@,
    )[i] by {}
    assert(places_of(nodes@).len() == nodes@.len());
}

/// A query below an element gives every descendant that matches, in the order in
/// which they match, never the element itself, and nothing for an invalid
/// selector.
pub proof fn law_an_element_query_gives_every_match(
    node: &Node<'_>,
    cache: &mut SelectorCache,
    selector: &str,
    nodes: Vec<Node<'_>>,
)
    requires
        call_ensures(Node::select, (node, selector), nodes) || call_ensures(
            Node::select_with,
            (node, cache, selector),
            nodes,
        ),
    ensures
        selector_accepted(selector@) ==> stand_at(
            nodes@,
            node@.0,
            descendant_matches(node@.0, node@.1, selector@),
        ),
        !selector_accepted(selector@) ==> nodes@.len() == 0,
        forall|i: int| 0 <= i < nodes@.len() ==> (#[trigger] nodes@[i])@ != node@,
{
    assert forall|i: int| 0 <= i < nodes@.len() implies (#[trigger] nodes@[i])@ == places_of(
        nodes@,
    )[i] by {}
    assert(places_of(nodes@).len() == nodes@.len());
}

/// A query of a document for the first element gives the first one that matches,
/// exactly when one matches.
pub proof fn law_a_document_query_gives_the_first_match(
    doc: &Doc,
    cache: &mut SelectorCache,
    selector: &str,
    first: Option<Node<'_>>,
)
    requires
        call_ensures(Doc::first, (doc, selector), first) || call_ensures(
            Doc::first_with,
            (doc, cache, selector),
            first,
        ),
    ensures
        first is Some <==> selector_accepted(selector@) && document_matches(
            doc@,
            selector@,
        ).len() > 0,
        first matches Some(node) ==> node@ == (doc@, document_matches(doc@, selector@)[0]),
{
}

/// A query below an element for the first descendant gives the first one that
/// matches, exactly when one matches.
pub proof fn law_an_element_query_gives_the_first_match(
    node: &Node<'_>,
    cache: &mut SelectorCache,
    selector: &str,
    first: Option<Node<'_>>,
)
    requires
        call_ensures(Node::first, (node, selector), first) || call_ensures(
            Node::first_with,
            (node, cache, selector),
            first,
        ),
    ensures
        first is Some <==> selector_accepted(selector@) && descendant_matches(
            node@.0,
            node@.1,
            selector@,
        ).len() > 0,
        first matches Some(found) ==> found@ == (
            node@.0,
            descendant_matches(node@.0, node@.1, selector@)[0],
        ),
{
}

/// The texts that contracts speak of, one by one.
proof fn lemma_texts(texts: Seq<String>, places: Seq<Place>, source: Seq<char>, numbers: Seq<nat>)
    requires
        chars_of(texts) == texts_at(places),
        places == numbers.map_values(|number: nat| (source, number)),
    ensures
        texts_from(texts, source, numbers),
{
    assert(chars_of(texts).len() == texts.len());
    assert(texts_at(places).len() == numbers.len());
    assert forall|i: int| 0 <= i < texts.len() implies made_of(
        (#[trigger] texts[i])@,
        text_nodes(source, numbers[i]),
    ) by {
        assert(chars_of(texts)[i] == texts[i]@);
        assert(places[i] == (source, numbers[i]));
        lemma_spaced_made_of(text_nodes(source, numbers[i]));
    }
}

/// The texts of a document query are those of every element that matches, in the
/// order in which they match; an invalid selector gives none.
pub proof fn law_a_document_query_gives_every_text(
    doc: &Doc,
    cache: &mut SelectorCache,
    selector: &str,
    texts: Vec<String>,
)
    requires
        call_ensures(Doc::texts_of, (doc, selector), texts) || call_ensures(
            Doc::texts_of_with,
            (doc, cache, selector),
            texts,
        ),
    ensures
        selector_accepted(selector@) ==> texts_from(
            texts@,
            doc@,
            document_matches(doc@, selector@),
        ),
        !selector_accepted(selector@) ==> texts@.len() == 0,
{
    assert(chars_of(texts@).len() == texts@.len());
    if selector_accepted(selector@) {
        let numbers = document_matches(doc@, selector@);
        lemma_texts(
            texts@,
            numbers.map_values(|number: nat| (doc@, number)),
            doc@,
            numbers,
        );
    }
}

/// The texts of a query below an element are those of every descendant that
/// matches, in the order in which they match; an invalid selector gives none.
pub proof fn law_an_element_query_gives_every_text(
    node: &Node<'_>,
    cache: &mut SelectorCache,
    selector: &str,
    texts: Vec<String>,
)
    requires
        call_ensures(Node::texts_of, (node, selector), texts) || call_ensures(
            Node::texts_of_with,
            (node, cache, selector),
            texts,
        ),
    ensures
        selector_accepted(selector@) ==> texts_from(
            texts@,
            node@.0,
            descendant_matches(node@.0, node@.1, selector@),
        ),
        !selector_accepted(selector@) ==> texts@.len() == 0,
{
    assert(chars_of(texts@).len() == texts@.len());
    if selector_accepted(selector@) {
        let numbers = descendant_matches(node@.0, node@.1, selector@);
        lemma_texts(
            texts@,
            numbers.map_values(|number: nat| (node@.0, number)),
            node@.0,
            numbers,
        );
    }
}

/// The text that a document query for the first element gives is that of the
/// first one that matches, exactly when one matches.
pub proof fn law_a_document_query_gives_the_first_text(
    doc: &Doc,
    cache: &mut SelectorCache,
    selector: &str,
    text: Option<String>,
)
    requires
        call_ensures(Doc::text_of, (doc, selector), text) || call_ensures(
            Doc::text_of_with,
            (doc, cache, selector),
            text,
        ),
    ensures
        selector_accepted(selector@) ==> first_text_from(
            text,
            doc@,
            document_matches(doc@, selector@),
        ),
        !selector_accepted(selector@) ==> text is None,
{
    lemma_spaced_made_of(text_nodes(doc@, document_matches(doc@, selector@)[0]));
}

/// The text that a query below an element gives for the first descendant is that
/// of the first one that matches, exactly when one matches.
pub proof fn law_an_element_query_gives_the_first_text(
    node: &Node<'_>,
    cache: &mut SelectorCache,
    selector: &str,
    text: Option<String>,
)
    requires
        call_ensures(Node::text_of, (node, selector), text) || call_ensures(
            Node::text_of_with,
            (node, cache, selector),
            text,
        ),
    ensures
        selector_accepted(selector@) ==> first_text_from(
            text,
            node@.0,
            descendant_matches(node@.0, node@.1, selector@),
        ),
        !selector_accepted(selector@) ==> text is None,
{
    lemma_spaced_made_of(
        text_nodes(node@.0, descendant_matches(node@.0, node@.1, selector@)[0]),
    );
}

/// A one-off query gives the same as a query of the page that was parsed: the text
/// or the outer HTML of every element that matches, or the text of the first one.
pub proof fn law_a_page_query_gives_every_match(
    html: &str,
    selector: &str,
    texts: Vec<String>,
    first: Option<String>,
    pages: Vec<String>,
)
    requires
        call_ensures(select_all, (html, selector), texts),
        call_ensures(select_first, (html, selector), first),
        call_ensures(select_html, (html, selector), pages),
    ensures
        selector_accepted(selector@) ==> {
            let numbers = document_matches(html@, selector@);
            &&& texts_from(texts@, html@, numbers)
            &&& first_text_from(first, html@, numbers)
            &&& pages@.len() == numbers.len()
            &&& forall|i: int|
                0 <= i < pages@.len() ==> (#[trigger] pages@[i])@ == outer_html(html@, numbers[i])
        },
        !selector_accepted(selector@) ==> texts@.len() == 0 && first is None && pages@.len() == 0,
{
    let numbers = document_matches(html@, selector@);
    assert(chars_of(texts@).len() == texts@.len());
    assert(chars_of(pages@).len() == pages@.len());
    if selector_accepted(selector@) {
        lemma_texts(
            texts@,
            numbers.map_values(|number: nat| (html@, number)),
            html@,
            numbers,
        );
        lemma_spaced_made_of(text_nodes(html@, numbers[0]));
        assert forall|i: int| 0 <= i < pages@.len() implies (#[trigger] pages@[i])@ == outer_html(
            html@,
            numbers[i],
        ) by {
            assert(chars_of(pages@)[i] == pages@[i]@);
        }
    }
}

// ---------------------------------------------------------------------------
// Quotes
// ---------------------------------------------------------------------------
/// Whether a text is that of the first descendant that matches, empty where none
/// does.
pub open spec fn field_read(
    field: Seq<char>,
    source: Seq<char>,
    number: nat,
    selector: Seq<char>,
) -> bool {
    let matches = descendant_matches(source, number, selector);
    if selector_accepted(selector) && matches.len() > 0 {
        made_of(field, text_nodes(source, matches[0]))
    } else {
        field.len() == 0
    }
}

/// Whether a quote is what the element with that number holds.
pub open spec fn quote_read(quote: Quote, source: Seq<char>, number: nat) -> bool {
    &&& field_read(quote.text@, source, number, ".text"@)
    &&& field_read(quote.author@, source, number, ".author"@)
    &&& selector_accepted(".tag"@) ==> texts_from(
        quote.tags@,
        source,
        descendant_matches(source, number, ".tag"@),
    )
    &&& !selector_accepted(".tag"@) ==> quote.tags@.len() == 0
}

/// What a quote says, field by field.
proof fn lemma_quote_read(quote: Quote, place: Place)
    requires
        quote@ == quote_at(place),
    ensures
        quote_read(quote, place.0, place.1),
{
    lemma_spaced_made_of(
        text_nodes(place.0, descendant_matches(place.0, place.1, ".text"@)[0]),
    );
    lemma_spaced_made_of(
        text_nodes(place.0, descendant_matches(place.0, place.1, ".author"@)[0]),
    );
    assert(chars_of(quote.tags@).len() == quote.tags@.len());
    if selector_accepted(".tag"@) {
        let numbers = descendant_matches(place.0, place.1, ".tag"@);
        lemma_texts(
            quote.tags@,
            numbers.map_values(|number: nat| (place.0, number)),
            place.0,
            numbers,
        );
    }
}

/// Every quote on a page is read, in the order of the page, each with the text of
/// its first text element, of its first author element and of all its tags.
pub proof fn law_every_quote_of_a_page_is_read(
    cache: &mut SelectorCache,
    html: &str,
    quotes: Vec<Quote>,
)
    requires
        call_ensures(parse_quotes, (html,), quotes) || call_ensures(
            parse_quotes_with,
            (cache, html),
            quotes,
        ),
    ensures
        selector_accepted(".quote"@) ==> {
            let numbers = document_matches(html@, ".quote"@);
            &&& quotes@.len() == numbers.len()
            &&& forall|i: int|
                0 <= i < quotes@.len() ==> quote_read(#[trigger] quotes@[i], html@, numbers[i])
        },
        !selector_accepted(".quote"@) ==> quotes@.len() == 0,
{
    let views = quotes@.map_values(|quote: Quote| quote@);
    assert(views.len() == quotes@.len());
    if selector_accepted(".quote"@) {
        let numbers = document_matches(html@, ".quote"@);
        assert forall|i: int| 0 <= i < quotes@.len() implies quote_read(
            #[trigger] quotes@[i],
            html@,
            numbers[i],
        ) by {
            assert(views[i] == quotes@[i]@);
            lemma_quote_read(quotes@[i], (html@, numbers[i]));
        }
    }
}

/// A quote is read off its element.
pub proof fn law_a_quote_is_read_off_its_element(
    cache: &mut SelectorCache,
    node: &Node<'_>,
    quote: Quote,
)
    requires
        call_ensures(read_quote, (cache, node), quote),
    ensures
        quote_read(quote, node@.0, node@.1),
{
    lemma_quote_read(quote, node@);
}

// ---------------------------------------------------------------------------
// Compiled selectors
// ---------------------------------------------------------------------------
/// A selector is compiled exactly when it is accepted, from its own text. It is
/// kept then, along with all that were kept before and nothing else.
pub proof fn law_a_selector_is_compiled_and_kept(
    cache: &mut SelectorCache,
    selector: &str,
    compiled: Option<&Selector>,
    text: Seq<char>,
)
    requires
        call_ensures(with_selector, (cache, selector), compiled),
    ensures
        compiled is Some <==> selector_accepted(selector@),
        compiled matches Some(entry) ==> selector_text(*entry) == selector@,
        final(cache)@.contains_key(text) <==> old(cache)@.contains_key(text) || text == selector@,
        old(cache)@.contains_key(text) ==> final(cache)@[text] == old(cache)@[text],
{
    assert(final(cache)@.dom().contains(text) <==> old(cache)@.dom().insert(selector@).contains(
        text,
    ));
}

/// Reading the quotes of a page compiles the selector of quotes, and those of
/// their fields where there are quotes; all that were kept before stay.
pub proof fn law_reading_quotes_keeps_their_selectors(
    cache: &mut SelectorCache,
    html: &str,
    quotes: Vec<Quote>,
    text: Seq<char>,
)
    requires
        call_ensures(parse_quotes_with, (cache, html), quotes),
    ensures
        final(cache)@.contains_key(text) <==> {
            ||| old(cache)@.contains_key(text)
            ||| text == ".quote"@
            ||| quotes@.len() > 0 && (text == ".text"@ || text == ".author"@ || text == ".tag"@)
        },
        old(cache)@.contains_key(text) ==> final(cache)@[text] == old(cache)@[text],
{
    let places = found(html@, ".quote"@);
    assert(quotes@.map_values(|quote: Quote| quote@).len() == quotes@.len());
    assert(places.map_values(|place: Place| quote_at(place)).len() == places.len());
    assert(final(cache)@.dom().contains(text) <==> old(cache)@.dom().union(
        page_selectors(quotes@.len()),
    ).contains(text));
}

} // verus!
