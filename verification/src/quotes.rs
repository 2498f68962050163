//! Scraping quotes: a page lists quotes, each with its text, its author and its
//! tags.
use crate::parsers::{
    chars_of, found, found_below, head, places_of, texts_at, Doc, Node, Place, SelectorCache,
};
use vstd::prelude::*;

verus! {

/// A quote on a page.
#[derive(Debug)]
pub struct Quote {
    pub text: String,
    pub author: String,
    pub tags: Vec<String>,
}

/// What a quote says.
pub struct QuoteView {
    pub text: Seq<char>,
    pub author: Seq<char>,
    pub tags: Seq<Seq<char>>,
}

impl View for Quote {
    type V = QuoteView;

    open spec fn view(&self) -> QuoteView {
        QuoteView { text: self.text@, author: self.author@, tags: chars_of(self.tags@) }
    }
}

/// The first of some texts, or nothing where there is none.
pub open spec fn first_or_empty(texts: Seq<Seq<char>>) -> Seq<char> {
    match head(texts) {
        Some(text) => text,
        None => Seq::empty(),
    }
}

/// The quote that the element at a place holds.
pub open spec fn quote_at(place: Place) -> QuoteView {
    QuoteView {
        text: first_or_empty(texts_at(found_below(place, ".text"@))),
        author: first_or_empty(texts_at(found_below(place, ".author"@))),
        tags: texts_at(found_below(place, ".tag"@)),
    }
}

/// The selectors of the fields of a quote.
pub open spec fn field_selectors() -> Set<Seq<char>> {
    set![".text"@, ".author"@, ".tag"@]
}

/// The selectors that reading the quotes of a page compiles, where it lists `n`.
pub open spec fn page_selectors(n: nat) -> Set<Seq<char>> {
    if n == 0 {
        set![".quote"@]
    } else {
        field_selectors().insert(".quote"@)
    }
}

/// The text, or an empty one.
fn or_empty(text: Option<String>) -> (chosen: String)
    ensures
        chosen@ == match text {
            Some(chars) => chars@,
            None => Seq::empty(),
        },
{
    match text {
        Some(chars) => chars,
        None => String::new(),
    }
}

/// Reads every field of a quote off its element, with selectors compiled through
/// `cache`.
pub fn read_quote(cache: &mut SelectorCache, quote: &Node<'_>) -> (read: Quote)
    requires
        old(cache).wf(),
    ensures
        final(cache).wf(),
        final(cache)@.dom() == old(cache)@.dom().union(field_selectors()),
        old(cache)@.submap_of(final(cache)@),
        read@ == quote_at(quote@),
{
    let read = Quote {
        text: or_empty(quote.text_of_with(cache, ".text")),
        author: or_empty(quote.text_of_with(cache, ".author")),
        tags: quote.texts_of_with(cache, ".tag"),
    };
    assert(cache@.dom() =~= old(cache)@.dom().union(field_selectors()));
    read
}

/// Parses the page once and reads every quote off that single parse, with
/// selectors compiled through `cache`.
pub fn parse_quotes_with(cache: &mut SelectorCache, html: &str) -> (quotes: Vec<Quote>)
    requires
        old(cache).wf(),
    ensures
        final(cache).wf(),
        final(cache)@.dom() == old(cache)@.dom().union(page_selectors(found(html@, ".quote"@).len())),
        old(cache)@.submap_of(final(cache)@),
        quotes@.map_values(|quote: Quote| quote@) == found(html@, ".quote"@).map_values(
            |place: Place| quote_at(place),
        ),
{
    let doc = Doc::parse(html);
    let nodes = doc.select_with(cache, ".quote");
    let mut quotes: Vec<Quote> = Vec::with_capacity(nodes.len());
    let mut i: usize = 0;
    assert(cache@.dom() =~= old(cache)@.dom().union(page_selectors(0)));
    while i < nodes.len()
        invariant
            i <= nodes.len(),
            quotes@.len() == i,
            cache.wf(),
            cache@.dom() == old(cache)@.dom().union(page_selectors(i as nat)),
            old(cache)@.submap_of(cache@),
            forall|k: int|
                0 <= k < quotes@.len() ==> (#[trigger] quotes@[k])@ == quote_at(nodes@[k]@),
        decreases nodes.len() - i,
    {
        let ghost before = cache@;
        let quote = read_quote(cache, &nodes[i]);
        assert forall|text: Seq<char>| #[trigger] old(cache)@.contains_key(text) implies
            cache@.contains_key(text) && cache@[text] == old(cache)@[text] by {
            assert(before.contains_key(text));
        }
        quotes.push(quote);
        i += 1;
        assert(cache@.dom() =~= old(cache)@.dom().union(page_selectors(i as nat)));
    }
    let ghost places = found(html@, ".quote"@);
    assert(places_of(nodes@) == places);
    assert forall|k: int| 0 <= k < quotes@.len() implies (#[trigger] quotes@[k])@ == quote_at(
        places[k],
    ) by {
        assert(places_of(nodes@)[k] == nodes@[k]@);
    }
    assert(quotes@.map_values(|quote: Quote| quote@) =~= places.map_values(
        |place: Place| quote_at(place),
    ));
    quotes
}

/// Parses the page once and reads every quote off that single parse.
pub fn parse_quotes(html: &str) -> (quotes: Vec<Quote>)
    ensures
        quotes@.map_values(|quote: Quote| quote@) == found(html@, ".quote"@).map_values(
            |place: Place| quote_at(place),
        ),
{
    let mut cache = SelectorCache::new();
    parse_quotes_with(&mut cache, html)
}

} // verus!
