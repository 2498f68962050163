use scrape_rs::parsers::{
    join_with_space, select_all, select_first, select_html, with_selector, Doc, SelectorCache,
};
use scrape_rs::quotes::{parse_quotes, parse_quotes_with};

const PAGE: &str = r#"
        <div class="quote"><span class="text">To be</span><span class="author">Shakespeare</span><span class="tag">life</span><span class="tag">love</span></div>
        <div class="quote"><span class="text">I think</span><span class="author">Descartes</span></div>
    "#;

#[test]
fn parsers_select() {
    let html = r#"
        <div class="quote"><span class="text">To be</span><span class="author">Shakespeare</span><span class="tag">life</span><span class="tag">love</span></div>
        <div class="quote"><span class="text">I think</span><span class="author">Descartes</span></div>
    "#;
    let quotes = scrape_rs::parsers::select_html(html, ".quote");
    assert_eq!(quotes.len(), 2);
    let first = scrape_rs::parsers::select_first(&quotes[0], ".text").unwrap();
    assert_eq!(first, "To be");
    let tags = scrape_rs::parsers::select_all(&quotes[0], ".tag");
    assert_eq!(tags, vec!["life", "love"]);
    assert!(scrape_rs::parsers::select_first(html, ".missing").is_none());
    assert!(scrape_rs::parsers::select_all(html, "???").is_empty()); // invalid selector
}

#[test]
fn nodes_are_queried_in_turn() {
    let html = r#"<div class="quote"><span class="text">Aaa</span><a class="tag">x</a></div>"#;
    let doc = Doc::parse(html);
    let quotes = doc.select(".quote");
    assert_eq!(quotes.len(), 1);
    for quote in quotes {
        assert_eq!(quote.text_of(".text").as_deref(), Some("Aaa"));
        assert_eq!(quote.texts_of(".tag"), vec!["x"]);
    }
}

#[test]
fn an_invalid_selector_finds_nothing() {
    let doc = Doc::parse(PAGE);
    assert!(doc.select("???").is_empty());
    assert!(doc.first("???").is_none());
    assert!(doc.text_of("???").is_none());
    assert!(doc.texts_of("???").is_empty());
    let quote = doc.first(".quote").unwrap();
    assert!(quote.select("???").is_empty());
    assert!(quote.first("???").is_none());
    assert!(quote.text_of("???").is_none());
    assert!(quote.texts_of("???").is_empty());
    assert!(select_html(PAGE, "???").is_empty());
    assert!(select_first(PAGE, "???").is_none());
}

#[test]
fn the_first_match_is_the_first_of_all() {
    let doc = Doc::parse(PAGE);
    assert_eq!(doc.texts_of(".text"), vec!["To be", "I think"]);
    assert_eq!(doc.text_of(".text").as_deref(), Some("To be"));
    assert_eq!(doc.first(".author").unwrap().text(), "Shakespeare");
    assert_eq!(select_all(PAGE, ".author"), vec!["Shakespeare", "Descartes"]);
    assert_eq!(select_first(PAGE, ".author").as_deref(), Some("Shakespeare"));
}

#[test]
fn sub_queries_look_below_their_element() {
    let html = r#"<p class="a"><b>1</b></p><p class="a"><b>2</b><i class="a">3</i></p><b>4</b>"#;
    let doc = Doc::parse(html);
    let second = doc.select("p")[1];
    assert_eq!(second.texts_of("b"), vec!["2"]);
    // The element itself matches `.a`, but is not among its descendants.
    assert_eq!(second.texts_of(".a"), vec!["3"]);
    assert_eq!(second.first(".a").unwrap().html(), r#"<i class="a">3</i>"#);
    assert!(second.first("p").is_none());
    assert!(second.first_with(&mut SelectorCache::new(), "p").is_none());
}

#[test]
fn text_nodes_are_joined_by_a_space() {
    let doc = Doc::parse("<p>one<b>two</b>three</p><q></q>");
    assert_eq!(doc.first("p").unwrap().text(), "one two three");
    assert_eq!(doc.first("q").unwrap().text(), "");
    assert_eq!(join_with_space(&vec![]), "");
    assert_eq!(join_with_space(&vec!["a"]), "a");
    assert_eq!(join_with_space(&vec!["a", "", "b c"]), "a  b c");
}

#[test]
fn attributes_and_html_of_a_node() {
    let doc = Doc::parse(r#"<a href="/x?a=1&amp;b=2" id="l">go <i>on</i></a>"#);
    let link = doc.first("a").unwrap();
    assert_eq!(link.attr("href"), Some("/x?a=1&b=2"));
    assert_eq!(link.attr("id"), Some("l"));
    assert_eq!(link.attr("class"), None);
    assert_eq!(link.inner_html(), "go <i>on</i>");
    assert_eq!(link.html(), r#"<a href="/x?a=1&amp;b=2" id="l">go <i>on</i></a>"#);
}

#[test]
fn a_node_outlives_the_query() {
    let doc = Doc::parse(PAGE);
    let href = {
        let nodes = doc.select(".quote");
        let copy = nodes[1];
        copy.attr("class")
    };
    assert_eq!(href, Some("quote"));
}

#[test]
fn a_cache_gives_the_same_answers() {
    let doc = Doc::parse(PAGE);
    let mut cache = SelectorCache::new();
    for _ in 0..2 {
        assert_eq!(doc.select_with(&mut cache, ".text").len(), 2);
        assert!(doc.select_with(&mut cache, "???").is_empty());
        let quote = doc.first_with(&mut cache, ".quote").unwrap();
        assert_eq!(quote.select_with(&mut cache, ".tag").len(), 2);
        assert_eq!(quote.first_with(&mut cache, ".tag").unwrap().text(), "life");
        assert!(quote.first_with(&mut cache, "???").is_none());
        assert_eq!(doc.text_of_with(&mut cache, ".author").as_deref(), Some("Shakespeare"));
        assert_eq!(doc.texts_of_with(&mut cache, ".tag"), vec!["life", "love"]);
        assert_eq!(quote.text_of_with(&mut cache, ".text").as_deref(), Some("To be"));
        assert_eq!(quote.texts_of_with(&mut cache, ".tag"), vec!["life", "love"]);
        assert_eq!(parse_quotes_with(&mut cache, PAGE).len(), 2);
    }
    assert!(with_selector(&mut cache, ".tag").is_some());
    assert!(with_selector(&mut cache, "???").is_none());
    assert!(with_selector(&mut SelectorCache::default(), ".tag").is_some());
}

#[test]
fn quotes_are_read_field_by_field() {
    let quotes = parse_quotes(PAGE);
    assert_eq!(quotes.len(), 2);
    assert_eq!(quotes[0].text, "To be");
    assert_eq!(quotes[0].author, "Shakespeare");
    assert_eq!(quotes[0].tags, vec!["life", "love"]);
    assert_eq!(quotes[1].text, "I think");
    assert_eq!(quotes[1].author, "Descartes");
    assert!(quotes[1].tags.is_empty());
}

#[test]
fn a_missing_field_is_empty() {
    let quotes = parse_quotes(r#"<div class="quote"><i class="tag">t</i></div>"#);
    assert_eq!(quotes.len(), 1);
    assert_eq!(quotes[0].text, "");
    assert_eq!(quotes[0].author, "");
    assert_eq!(quotes[0].tags, vec!["t"]);
    assert!(parse_quotes("<p>nothing</p>").is_empty());
}
