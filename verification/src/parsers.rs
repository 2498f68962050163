//! HTML querying helpers.
//!
//! [`Doc`] parses a page **once** and lets you drill into it with [`Node`]s that
//! borrow from that single parse. A [`SelectorCache`] keeps compiled selectors,
//! so a scraper that reuses a handful of selectors over thousands of pages pays
//! the CSS parsing cost once per cache instead of once per call.
//!
//! The free functions ([`select_all`], [`select_first`], [`select_html`]) are
//! kept for convenience and one-off queries; they parse the document on every
//! call, so prefer [`Doc`] when you query the same page more than once.
//!
//! In the contracts a document is the text it was parsed from, and an element
//! is a [`Place`]: that text, and the element's number in the parsed tree.
use scraper::{ElementRef, Html, Selector};
use vstd::hash_map::StringHashMap;
use vstd::prelude::*;

verus! {

/// Where an element stands: the text its document was parsed from, and the
/// number of the element in the tree that the parse gave.
pub type Place = (Seq<char>, nat);

// ---------------------------------------------------------------------------
// The parsed tree
// ---------------------------------------------------------------------------
/// The node tree of a parsed document, [`scraper::Html`].
#[verifier::external_type_specification]
#[verifier::external_body]
pub struct ExHtml(Html);

/// A compiled group of CSS selectors, [`scraper::Selector`].
#[verifier::external_type_specification]
#[verifier::external_body]
pub struct ExSelector(Selector);

/// A reference to one element of a tree, [`scraper::ElementRef`].
#[verifier::external_type_specification]
#[verifier::external_body]
pub struct ExElementRef<'a>(ElementRef<'a>);

/// The text that a tree was parsed from.
pub uninterp spec fn tree_source(tree: Html) -> Seq<char>;

/// The text that a selector was compiled from.
pub uninterp spec fn selector_text(selector: Selector) -> Seq<char>;

/// The place of the element that a reference points at.
pub uninterp spec fn element_place(element: ElementRef<'_>) -> (Seq<char>, nat);

/// Whether `Selector::parse` accepts a text.
pub uninterp spec fn selector_accepted(text: Seq<char>) -> bool;

/// The numbers of the elements that `Html::select` yields, in its order, for
/// the tree of `source` and the selector compiled from `selector`.
pub uninterp spec fn document_matches(source: Seq<char>, selector: Seq<char>) -> Seq<nat>;

/// The numbers of the elements that `ElementRef::select` yields, in its order,
/// for the element with the number `number` in the tree of `source`.
pub uninterp spec fn descendant_matches(
    source: Seq<char>,
    number: nat,
    selector: Seq<char>,
) -> Seq<nat>;

/// The text nodes that `ElementRef::text` yields, in its order.
pub uninterp spec fn text_nodes(source: Seq<char>, number: nat) -> Seq<Seq<char>>;

/// What `Element::attr` returns for an attribute's name.
pub uninterp spec fn attribute(source: Seq<char>, number: nat, name: Seq<char>) -> Option<
    Seq<char>,
>;

/// What `ElementRef::html` returns.
pub uninterp spec fn outer_html(source: Seq<char>, number: nat) -> Seq<char>;

/// What `ElementRef::inner_html` returns.
pub uninterp spec fn inner_html(source: Seq<char>, number: nat) -> Seq<char>;

/// `Html::parse_document`: parsing never fails, and the tree is the tree of the
/// given text.
#[verifier::external_body]
fn parse_document(text: &str) -> (tree: Html)
    ensures
        tree_source(tree) == text@,
{
    Html::parse_document(text)
}

/// `Selector::parse`: whether it accepts a text depends on the text alone, and
/// an accepted text gives the selector compiled from it.
#[verifier::external_body]
fn compile_selector(text: &str) -> (selector: Option<Selector>)
    ensures
        selector is Some <==> selector_accepted(text@),
        selector matches Some(compiled) ==> selector_text(compiled) == text@,
{
    Selector::parse(text).ok()
}

/// `Html::select`, with every match taken: which elements match, and in what
/// order they come, depends on the two texts alone.
#[verifier::external_body]
fn document_elements<'a>(tree: &'a Html, selector: &Selector) -> (elements: Vec<ElementRef<'a>>)
    ensures
        elements@.len() == document_matches(tree_source(*tree), selector_text(*selector)).len(),
        forall|i: int|
            0 <= i < elements@.len() ==> element_place(#[trigger] elements@[i]) == (
                tree_source(*tree),
                document_matches(tree_source(*tree), selector_text(*selector))[i],
            ),
{
    tree.select(selector).collect()
}

/// `ElementRef::select`, with every match taken: which descendants match, and in
/// what order they come, depends on the element's place and the selector's text
/// alone. The walk starts below the element, so it is never among the matches.
#[verifier::external_body]
fn descendant_elements<'a>(element: &ElementRef<'a>, selector: &Selector) -> (elements: Vec<
    ElementRef<'a>,
>)
    ensures
        elements@.len() == descendant_matches(
            element_place(*element).0,
            element_place(*element).1,
            selector_text(*selector),
        ).len(),
        forall|i: int|
            0 <= i < elements@.len() ==> element_place(#[trigger] elements@[i]) == (
                element_place(*element).0,
                descendant_matches(
                    element_place(*element).0,
                    element_place(*element).1,
                    selector_text(*selector),
                )[i],
            ),
        forall|i: int|
            0 <= i < elements@.len() ==> element_place(#[trigger] elements@[i]) != element_place(
                *element,
            ),
{
    element.select(selector).collect()
}

/// `ElementRef::text`, with every text node taken.
#[verifier::external_body]
fn element_text_nodes<'a>(element: &ElementRef<'a>) -> (nodes: Vec<&'a str>)
    ensures
        nodes@.map_values(|node: &'a str| node@) == text_nodes(
            element_place(*element).0,
            element_place(*element).1,
        ),
{
    element.text().collect()
}

/// `Element::attr`, on the element that `ElementRef::value` gives.
#[verifier::external_body]
fn element_attribute<'a>(element: &ElementRef<'a>, name: &str) -> (value: Option<&'a str>)
    ensures
        match value {
            Some(text) => attribute(
                element_place(*element).0,
                element_place(*element).1,
                name@,
            ) == Some(text@),
            None => attribute(element_place(*element).0, element_place(*element).1, name@) is None,
        },
{
    element.value().attr(name)
}

/// `ElementRef::html`.
#[verifier::external_body]
fn element_html(element: &ElementRef<'_>) -> (html: String)
    ensures
        html@ == outer_html(element_place(*element).0, element_place(*element).1),
{
    element.html()
}

/// `ElementRef::inner_html`.
#[verifier::external_body]
fn element_inner_html(element: &ElementRef<'_>) -> (html: String)
    ensures
        html@ == inner_html(element_place(*element).0, element_place(*element).1),
{
    element.inner_html()
}

// ---------------------------------------------------------------------------
// What queries give
// ---------------------------------------------------------------------------
/// The elements of a document that a query finds: those that match, or none
/// where the selector is invalid.
pub open spec fn found(source: Seq<char>, selector: Seq<char>) -> Seq<Place> {
    if selector_accepted(selector) {
        document_matches(source, selector).map_values(|number: nat| (source, number))
    } else {
        Seq::empty()
    }
}

/// The descendants of an element that a query finds: those that match, or none
/// where the selector is invalid.
pub open spec fn found_below(place: Place, selector: Seq<char>) -> Seq<Place> {
    if selector_accepted(selector) {
        descendant_matches(place.0, place.1, selector).map_values(|number: nat| (place.0, number))
    } else {
        Seq::empty()
    }
}

/// The first item of a sequence, if it has one.
pub open spec fn head<T>(items: Seq<T>) -> Option<T> {
    if items.len() == 0 {
        None
    } else {
        Some(items[0])
    }
}

/// The parts one after another, with one space between each two.
pub open spec fn spaced(parts: Seq<Seq<char>>) -> Seq<char>
    decreases parts.len(),
{
    if parts.len() == 0 {
        Seq::empty()
    } else if parts.len() == 1 {
        parts[0]
    } else {
        spaced(parts.drop_last()).push(' ') + parts.last()
    }
}

/// The text of the element at a place: its text nodes, joined by a space.
pub open spec fn text_at(place: Place) -> Seq<char> {
    spaced(text_nodes(place.0, place.1))
}

/// The outer HTML of the element at a place.
pub open spec fn html_at(place: Place) -> Seq<char> {
    outer_html(place.0, place.1)
}

/// The texts of the elements at some places.
pub open spec fn texts_at(places: Seq<Place>) -> Seq<Seq<char>> {
    places.map_values(|place: Place| text_at(place))
}

/// The characters of each string.
pub open spec fn chars_of(strings: Seq<String>) -> Seq<Seq<char>> {
    strings.map_values(|text: String| text@)
}

/// The places of some nodes.
pub open spec fn places_of(nodes: Seq<Node<'_>>) -> Seq<Place> {
    nodes.map_values(|node: Node<'_>| node@)
}

/// Joins `parts` with one space between each two.
pub fn join_with_space(parts: &Vec<&str>) -> (text: String)
    ensures
        text@ == spaced(parts@.map_values(|part: &str| part@)),
{
    let ghost all = parts@.map_values(|part: &str| part@);
    let mut text = String::new();
    let mut i: usize = 0;
    while i < parts.len()
        invariant
            i <= parts.len(),
            all == parts@.map_values(|part: &str| part@),
            text@ == spaced(all.take(i as int)),
        decreases parts.len() - i,
    {
        let ghost so_far = all.take(i + 1);
        proof {
            assert(so_far.drop_last() == all.take(i as int));
            assert(so_far.last() == parts@[i as int]@);
            reveal_strlit(" ");
            assert(" "@ =~= seq![' ']);
        }
        if i > 0 {
            text.append(" ");
        }
        text.append(parts[i]);
        proof {
            if i > 0 {
                assert(text@ =~= spaced(so_far.drop_last()).push(' ') + so_far.last());
            } else {
                assert(text@ =~= so_far[0]);
            }
        }
        i += 1;
    }
    assert(all.take(i as int) == all);
    text
}

// ---------------------------------------------------------------------------
// Compiled selectors
// ---------------------------------------------------------------------------
/// Compiled selectors by their text. Invalid selectors are kept too, as `None`,
/// so they are not parsed again either.
pub struct SelectorCache {
    compiled: StringHashMap<Option<Selector>>,
}

impl View for SelectorCache {
    type V = Map<Seq<char>, Option<Selector>>;

    closed spec fn view(&self) -> Map<Seq<char>, Option<Selector>> {
        self.compiled@
    }
}

/// Whether `entry` is what compiling `text` gives.
pub open spec fn compiled_from(entry: Option<Selector>, text: Seq<char>) -> bool {
    &&& entry is Some <==> selector_accepted(text)
    &&& entry matches Some(selector) ==> selector_text(selector) == text
}

impl SelectorCache {
    /// Every entry is what compiling its text gives.
    pub open spec fn wf(&self) -> bool {
        forall|text: Seq<char>| #[trigger]
            self@.contains_key(text) ==> compiled_from(self@[text], text)
    }

    /// A cache that holds nothing yet.
    pub fn new() -> (cache: SelectorCache)
        ensures
            cache.wf(),
            cache@ == Map::<Seq<char>, Option<Selector>>::empty(),
    {
        SelectorCache { compiled: StringHashMap::new() }
    }
}

impl Default for SelectorCache {
    fn default() -> (cache: SelectorCache)
        ensures
            cache.wf(),
            cache@ == Map::<Seq<char>, Option<Selector>>::empty(),
    {
        SelectorCache::new()
    }
}

/// The compiled `selector`, or `None` if it is invalid. It is compiled only if
/// `cache` does not hold it yet, and `cache` holds it afterwards.
pub fn with_selector<'c>(cache: &'c mut SelectorCache, selector: &str) -> (compiled: Option<
    &'c Selector,
>)
    requires
        old(cache).wf(),
    ensures
        final(cache).wf(),
        final(cache)@.dom() == old(cache)@.dom().insert(selector@),
        old(cache)@.submap_of(final(cache)@),
        compiled is Some <==> selector_accepted(selector@),
        compiled matches Some(entry) ==> {
            &&& final(cache)@[selector@] == Some(*entry)
            &&& selector_text(*entry) == selector@
        },
{
    if !cache.compiled.contains_key(selector) {
        let compiled = compile_selector(selector);
        cache.compiled.insert(selector.to_owned(), compiled);
        assert(compiled_from(compiled, selector@));
        assert(cache@ == old(cache)@.insert(selector@, compiled));
        assert forall|text: Seq<char>| #[trigger] cache@.contains_key(text) implies compiled_from(
            cache@[text],
            text,
        ) by {
            assert(text != selector@ ==> old(cache)@.contains_key(text));
        }
    }
    assert(cache@.contains_key(selector@));
    match cache.compiled.get(selector) {
        Some(Some(compiled)) => Some(compiled),
        _ => None,
    }
}

// ---------------------------------------------------------------------------
// Documents
// ---------------------------------------------------------------------------
/// A parsed HTML document. Parse once, query many times.
///
/// An invalid selector finds nothing: a query for all elements gives an empty
/// vector and a query for the first one gives `None`.
pub struct Doc {
    html: Html,
}

/// An element inside a [`Doc`]. Sub-queries reuse the parent's parse: nothing
/// is re-serialized or re-parsed while drilling down.
#[derive(Clone, Copy)]
pub struct Node<'a> {
    element: ElementRef<'a>,
}

impl View for Doc {
    type V = Seq<char>;

    closed spec fn view(&self) -> Seq<char> {
        tree_source(self.html)
    }
}

impl<'a> View for Node<'a> {
    type V = Place;

    closed spec fn view(&self) -> Place {
        element_place(self.element)
    }
}

/// Makes a node of each element.
fn nodes_of<'a>(elements: Vec<ElementRef<'a>>) -> (nodes: Vec<Node<'a>>)
    ensures
        nodes@.len() == elements@.len(),
        forall|i: int|
            0 <= i < nodes@.len() ==> (#[trigger] nodes@[i])@ == element_place(elements@[i]),
{
    let mut nodes: Vec<Node<'a>> = Vec::with_capacity(elements.len());
    let mut i: usize = 0;
    while i < elements.len()
        invariant
            i <= elements.len(),
            nodes@.len() == i,
            forall|k: int|
                0 <= k < nodes@.len() ==> (#[trigger] nodes@[k])@ == element_place(elements@[k]),
        decreases elements.len() - i,
    {
        nodes.push(Node { element: elements[i] });
        i += 1;
    }
    nodes
}

/// The first of `nodes`.
fn first_of<'a>(nodes: &Vec<Node<'a>>) -> (first: Option<Node<'a>>)
    ensures
        first == head(nodes@),
{
    if nodes.len() == 0 {
        None
    } else {
        Some(nodes[0])
    }
}

/// The text of each of `nodes`.
fn text_of_each(nodes: &Vec<Node<'_>>) -> (texts: Vec<String>)
    ensures
        chars_of(texts@) == texts_at(places_of(nodes@)),
{
    let mut texts: Vec<String> = Vec::with_capacity(nodes.len());
    let mut i: usize = 0;
    while i < nodes.len()
        invariant
            i <= nodes.len(),
            texts@.len() == i,
            forall|k: int| 0 <= k < texts@.len() ==> (#[trigger] texts@[k])@ == text_at(nodes@[k]@),
        decreases nodes.len() - i,
    {
        texts.push(nodes[i].text());
        i += 1;
    }
    texts
}

impl Doc {
    /// Parses a page.
    pub fn parse(html: &str) -> (doc: Doc)
        ensures
            doc@ == html@,
    {
        Doc { html: parse_document(html) }
    }

    /// All elements matching `selector`, compiled through `cache`. An invalid
    /// selector yields an empty vector.
    pub fn select_with<'a>(&'a self, cache: &mut SelectorCache, selector: &str) -> (nodes: Vec<
        Node<'a>,
    >)
        requires
            old(cache).wf(),
        ensures
            final(cache).wf(),
            final(cache)@.dom() == old(cache)@.dom().insert(selector@),
            old(cache)@.submap_of(final(cache)@),
            places_of(nodes@) == found(self@, selector@),
    {
        match with_selector(cache, selector) {
            Some(compiled) => {
                let nodes = nodes_of(document_elements(&self.html, compiled));
                assert(places_of(nodes@) =~= found(self@, selector@));
                nodes
            },
            None => Vec::new(),
        }
    }

    /// The first element matching `selector`, compiled through `cache`.
    pub fn first_with<'a>(&'a self, cache: &mut SelectorCache, selector: &str) -> (first: Option<
        Node<'a>,
    >)
        requires
            old(cache).wf(),
        ensures
            final(cache).wf(),
            final(cache)@.dom() == old(cache)@.dom().insert(selector@),
            old(cache)@.submap_of(final(cache)@),
            match first {
                Some(node) => head(found(self@, selector@)) == Some(node@),
                None => head(found(self@, selector@)) is None,
            },
    {
        let nodes = self.select_with(cache, selector);
        assert(places_of(nodes@) == found(self@, selector@));
        first_of(&nodes)
    }

    /// All elements matching `selector`. An invalid selector yields an empty
    /// vector (same as the free functions).
    pub fn select(&self, selector: &str) -> (nodes: Vec<Node<'_>>)
        ensures
            places_of(nodes@) == found(self@, selector@),
    {
        let mut cache = SelectorCache::new();
        self.select_with(&mut cache, selector)
    }

    /// The first element matching `selector`.
    pub fn first(&self, selector: &str) -> (first: Option<Node<'_>>)
        ensures
            match first {
                Some(node) => head(found(self@, selector@)) == Some(node@),
                None => head(found(self@, selector@)) is None,
            },
    {
        let mut cache = SelectorCache::new();
        self.first_with(&mut cache, selector)
    }

    /// Text of the first element matching `selector`, compiled through `cache`.
    pub fn text_of_with(&self, cache: &mut SelectorCache, selector: &str) -> (text: Option<String>)
        requires
            old(cache).wf(),
        ensures
            final(cache).wf(),
            final(cache)@.dom() == old(cache)@.dom().insert(selector@),
            old(cache)@.submap_of(final(cache)@),
            match text {
                Some(chars) => head(texts_at(found(self@, selector@))) == Some(chars@),
                None => head(texts_at(found(self@, selector@))) is None,
            },
    {
        match self.first_with(cache, selector) {
            Some(node) => Some(node.text()),
            None => None,
        }
    }

    /// Text of every element matching `selector`, compiled through `cache`.
    pub fn texts_of_with(&self, cache: &mut SelectorCache, selector: &str) -> (texts: Vec<String>)
        requires
            old(cache).wf(),
        ensures
            final(cache).wf(),
            final(cache)@.dom() == old(cache)@.dom().insert(selector@),
            old(cache)@.submap_of(final(cache)@),
            chars_of(texts@) == texts_at(found(self@, selector@)),
    {
        let nodes = self.select_with(cache, selector);
        text_of_each(&nodes)
    }

    /// Text of the first element matching `selector`.
    pub fn text_of(&self, selector: &str) -> (text: Option<String>)
        ensures
            match text {
                Some(chars) => head(texts_at(found(self@, selector@))) == Some(chars@),
                None => head(texts_at(found(self@, selector@))) is None,
            },
    {
        let mut cache = SelectorCache::new();
        self.text_of_with(&mut cache, selector)
    }

    /// Text of every element matching `selector`.
    pub fn texts_of(&self, selector: &str) -> (texts: Vec<String>)
        ensures
            chars_of(texts@) == texts_at(found(self@, selector@)),
    {
        let mut cache = SelectorCache::new();
        self.texts_of_with(&mut cache, selector)
    }
}

impl<'a> Node<'a> {
    /// Descendants of this element matching `selector`, compiled through
    /// `cache`. An invalid selector yields an empty vector.
    pub fn select_with(&self, cache: &mut SelectorCache, selector: &str) -> (nodes: Vec<Node<'a>>)
        requires
            old(cache).wf(),
        ensures
            final(cache).wf(),
            final(cache)@.dom() == old(cache)@.dom().insert(selector@),
            old(cache)@.submap_of(final(cache)@),
            places_of(nodes@) == found_below(self@, selector@),
            !places_of(nodes@).contains(self@),
    {
        match with_selector(cache, selector) {
            Some(compiled) => {
                let nodes = nodes_of(descendant_elements(&self.element, compiled));
                assert(places_of(nodes@) =~= found_below(self@, selector@));
                nodes
            },
            None => Vec::new(),
        }
    }

    /// First descendant matching `selector`, compiled through `cache`.
    pub fn first_with(&self, cache: &mut SelectorCache, selector: &str) -> (first: Option<Node<'a>>)
        requires
            old(cache).wf(),
        ensures
            final(cache).wf(),
            final(cache)@.dom() == old(cache)@.dom().insert(selector@),
            old(cache)@.submap_of(final(cache)@),
            match first {
                Some(node) => head(found_below(self@, selector@)) == Some(node@),
                None => head(found_below(self@, selector@)) is None,
            },
            first matches Some(node) ==> node@ != self@,
    {
        let nodes = self.select_with(cache, selector);
        assert(places_of(nodes@) == found_below(self@, selector@));
        assert(nodes@.len() > 0 ==> places_of(nodes@)[0] == nodes@[0]@);
        first_of(&nodes)
    }

    /// Descendants of this element matching `selector`.
    pub fn select(&self, selector: &str) -> (nodes: Vec<Node<'a>>)
        ensures
            places_of(nodes@) == found_below(self@, selector@),
            !places_of(nodes@).contains(self@),
    {
        let mut cache = SelectorCache::new();
        self.select_with(&mut cache, selector)
    }

    /// First descendant matching `selector`.
    pub fn first(&self, selector: &str) -> (first: Option<Node<'a>>)
        ensures
            match first {
                Some(node) => head(found_below(self@, selector@)) == Some(node@),
                None => head(found_below(self@, selector@)) is None,
            },
            first matches Some(node) ==> node@ != self@,
    {
        let mut cache = SelectorCache::new();
        self.first_with(&mut cache, selector)
    }

    /// Text of the first descendant matching `selector`, compiled through `cache`.
    pub fn text_of_with(&self, cache: &mut SelectorCache, selector: &str) -> (text: Option<String>)
        requires
            old(cache).wf(),
        ensures
            final(cache).wf(),
            final(cache)@.dom() == old(cache)@.dom().insert(selector@),
            old(cache)@.submap_of(final(cache)@),
            match text {
                Some(chars) => head(texts_at(found_below(self@, selector@))) == Some(chars@),
                None => head(texts_at(found_below(self@, selector@))) is None,
            },
    {
        match self.first_with(cache, selector) {
            Some(node) => Some(node.text()),
            None => None,
        }
    }

    /// Text of every descendant matching `selector`, compiled through `cache`.
    pub fn texts_of_with(&self, cache: &mut SelectorCache, selector: &str) -> (texts: Vec<String>)
        requires
            old(cache).wf(),
        ensures
            final(cache).wf(),
            final(cache)@.dom() == old(cache)@.dom().insert(selector@),
            old(cache)@.submap_of(final(cache)@),
            chars_of(texts@) == texts_at(found_below(self@, selector@)),
    {
        let nodes = self.select_with(cache, selector);
        text_of_each(&nodes)
    }

    /// Text of the first descendant matching `selector`.
    pub fn text_of(&self, selector: &str) -> (text: Option<String>)
        ensures
            match text {
                Some(chars) => head(texts_at(found_below(self@, selector@))) == Some(chars@),
                None => head(texts_at(found_below(self@, selector@))) is None,
            },
    {
        let mut cache = SelectorCache::new();
        self.text_of_with(&mut cache, selector)
    }

    /// Text of every descendant matching `selector`.
    pub fn texts_of(&self, selector: &str) -> (texts: Vec<String>)
        ensures
            chars_of(texts@) == texts_at(found_below(self@, selector@)),
    {
        let mut cache = SelectorCache::new();
        self.texts_of_with(&mut cache, selector)
    }

    /// All text nodes of this element, joined by a space.
    pub fn text(&self) -> (text: String)
        ensures
            text@ == text_at(self@),
    {
        let parts = element_text_nodes(&self.element);
        assert(parts@.map_values(|part: &str| part@) =~= text_nodes(self@.0, self@.1));
        join_with_space(&parts)
    }

    /// Value of the `name` attribute, if present.
    pub fn attr(&self, name: &str) -> (value: Option<&'a str>)
        ensures
            match value {
                Some(text) => attribute(self@.0, self@.1, name@) == Some(text@),
                None => attribute(self@.0, self@.1, name@) is None,
            },
    {
        element_attribute(&self.element, name)
    }

    /// Outer HTML of this element.
    pub fn html(&self) -> (html: String)
        ensures
            html@ == html_at(self@),
    {
        element_html(&self.element)
    }

    /// Inner HTML of this element.
    pub fn inner_html(&self) -> (html: String)
        ensures
            html@ == inner_html(self@.0, self@.1),
    {
        element_inner_html(&self.element)
    }
}

// ---------------------------------------------------------------------------
// One-off queries
// ---------------------------------------------------------------------------
/// Text of every element matching `selector`.
///
/// Parses `html` on every call; use [`Doc`] for repeated queries on one page.
pub fn select_all(html: &str, selector: &str) -> (texts: Vec<String>)
    ensures
        chars_of(texts@) == texts_at(found(html@, selector@)),
{
    Doc::parse(html).texts_of(selector)
}

/// Text of the first element matching `selector`.
///
/// Parses `html` on every call; use [`Doc`] for repeated queries on one page.
pub fn select_first(html: &str, selector: &str) -> (text: Option<String>)
    ensures
        match text {
            Some(chars) => head(texts_at(found(html@, selector@))) == Some(chars@),
            None => head(texts_at(found(html@, selector@))) is None,
        },
{
    Doc::parse(html).text_of(selector)
}

/// Outer HTML of every element matching `selector`.
///
/// Parses `html` on every call; use [`Doc`] for repeated queries on one page.
pub fn select_html(html: &str, selector: &str) -> (pages: Vec<String>)
    ensures
        chars_of(pages@) == found(html@, selector@).map_values(|place: Place| html_at(place)),
{
    let doc = Doc::parse(html);
    let nodes = doc.select(selector);
    let mut pages: Vec<String> = Vec::with_capacity(nodes.len());
    let mut i: usize = 0;
    while i < nodes.len()
        invariant
            i <= nodes.len(),
            pages@.len() == i,
            forall|k: int| 0 <= k < pages@.len() ==> (#[trigger] pages@[k])@ == html_at(nodes@[k]@),
        decreases nodes.len() - i,
    {
        pages.push(nodes[i].html());
        i += 1;
    }
    assert(places_of(nodes@) == found(html@, selector@));
    assert forall|k: int| 0 <= k < pages@.len() implies chars_of(pages@)[k] == html_at(
        found(html@, selector@)[k],
    ) by {
        assert(places_of(nodes@)[k] == nodes@[k]@);
    }
    pages
}

// ---------------------------------------------------------------------------
// What holds of all queries
// ---------------------------------------------------------------------------
/// An invalid selector finds nothing, in a document and below an element.
pub proof fn law_an_invalid_selector_finds_nothing(place: Place, selector: Seq<char>)
    requires
        !selector_accepted(selector),
    ensures
        found(place.0, selector) == Seq::<Place>::empty(),
        found_below(place, selector) == Seq::<Place>::empty(),
        texts_at(found(place.0, selector)) == Seq::<Seq<char>>::empty(),
        texts_at(found_below(place, selector)) == Seq::<Seq<char>>::empty(),
{
    assert(texts_at(found(place.0, selector)) =~= Seq::<Seq<char>>::empty());
    assert(texts_at(found_below(place, selector)) =~= Seq::<Seq<char>>::empty());
}

/// The text of the first element is the first of the texts of all elements.
pub proof fn law_the_first_text_is_that_of_the_first_element(places: Seq<Place>)
    ensures
        head(texts_at(places)) == match head(places) {
            Some(place) => Some(text_at(place)),
            None => None,
        },
{
}

/// What a query finds belongs to the document that was asked, so that it can be
/// asked in turn without another parse.
pub proof fn law_queries_stay_in_their_document(place: Place, selector: Seq<char>, i: int)
    ensures
        0 <= i < found(place.0, selector).len() ==> found(place.0, selector)[i].0 == place.0,
        0 <= i < found_below(place, selector).len() ==> found_below(place, selector)[i].0
            == place.0,
{
}

/// Joining two groups of text nodes is joining them all: one space stands between
/// each two nodes, wherever they are split.
pub proof fn law_joining_in_groups(front: Seq<Seq<char>>, back: Seq<Seq<char>>)
    requires
        front.len() > 0,
        back.len() > 0,
    ensures
        spaced(front + back) == spaced(front).push(' ') + spaced(back),
    decreases back.len(),
{
    let all = front + back;
    assert(all.drop_last() =~= front + back.drop_last());
    if back.len() == 1 {
        assert(all.drop_last() =~= front);
    } else {
        law_joining_in_groups(front, back.drop_last());
        assert(spaced(all) =~= spaced(front).push(' ') + spaced(back));
    }
}

} // verus!
