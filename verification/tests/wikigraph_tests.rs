use wikigraph::canon::canonicalize;
use wikigraph::chars::chars_of;
use wikigraph::chars::string_of;
use wikigraph::extract::extract_categories;
use wikigraph::extract::extract_links;
use wikigraph::extract::redirect_target;
use wikigraph::extract::truncate_sections;
use wikigraph::index::IdentityIndex;
use wikigraph::markup::is_disambiguation;
use wikigraph::markup::is_redirect;
use wikigraph::markup::is_soft_redirect;
use wikigraph::markup::strip_comments;
use wikigraph::pipeline::category_step;
use wikigraph::pipeline::classify;
use wikigraph::pipeline::link_step;
use wikigraph::pipeline::IndexBuilder;
use wikigraph::pipeline::PageClass;
use wikigraph::pipeline::PageOutcome;
use wikigraph::pipeline::ProgressCounter;

fn v(s: &str) -> Vec<char> {
    chars_of(s)
}

fn strings(vs: &Vec<Vec<char>>) -> Vec<String> {
    let mut r = Vec::new();
    for x in vs {
        r.push(string_of(x));
    }
    r
}

fn wiki_format() -> Option<String> {
    Some("text/x-wiki".to_string())
}

fn wiki_model() -> Option<String> {
    Some("wikitext".to_string())
}

#[test]
fn canonicalize_case_stable_beyond_first() {
    assert_eq!(canonicalize("foo Bar"), "Foo Bar");
}

#[test]
fn canonicalize_underscores_and_nbsp_char() {
    assert_eq!(canonicalize("New_York"), "New York");
    assert_eq!(canonicalize("New\u{00A0}York"), "New York");
}

#[test]
fn canonicalize_nbsp_escape() {
    assert_eq!(canonicalize("New&nbsp;York"), "New York");
}

#[test]
fn canonicalize_whitespace_collapse() {
    assert_eq!(canonicalize("  a   b  "), "A b");
}

#[test]
fn canonicalize_idempotent_samples() {
    let samples = [
        "foo Bar",
        "New_York",
        "  a   b  ",
        "New&nbsp;York",
        "\u{00FC}ber",
        "",
        "  ",
        "&_nbsp;x",
        "a\tb\nc",
    ];
    for s in samples {
        let once = canonicalize(s);
        let twice = canonicalize(&once);
        assert_eq!(twice, once);
    }
}

#[test]
fn canonicalize_unicode_first_char() {
    assert_eq!(canonicalize("\u{00FC}ber"), "\u{00DC}ber");
}

#[test]
fn strip_comments_removes_regions() {
    assert_eq!(string_of(&strip_comments(&v("a<!-- x -->b"))), "ab");
    assert_eq!(string_of(&strip_comments(&v("a<!-- x\ny -->b<!--z-->c"))), "abc");
    assert_eq!(string_of(&strip_comments(&v("a<!--unclosed"))), "a<!--unclosed");
}

#[test]
fn redirect_directive_detection() {
    assert!(is_redirect(&v("#REDIRECT [[X]]")));
    assert!(is_redirect(&v("  \n#redirect [[X]]")));
    assert!(!is_redirect(&v("text #redirect")));
}

#[test]
fn disambiguation_markers() {
    assert!(is_disambiguation(&v("text {{disambig}} more")));
    assert!(is_disambiguation(&v("{{hndis|name=Foo}}")));
    assert!(is_disambiguation(&v("{{geo-dis}}")));
    assert!(is_disambiguation(&v("{{Foo disambiguation}}")));
    assert!(is_disambiguation(&v("{{My disambiguation cleanup|x}}")));
    assert!(!is_disambiguation(&v("{{disx}}")));
    assert!(!is_disambiguation(&v("no template")));
}

#[test]
fn soft_redirect_markers() {
    assert!(is_soft_redirect(&v("{{wiktionary redirect}}")));
    assert!(is_soft_redirect(&v("{{wi|foo}}")));
    assert!(is_soft_redirect(&v("{{Wikidata redirect}}")));
    assert!(!is_soft_redirect(&v("{{wik}}")));
}

#[test]
fn truncation_cuts_at_heading() {
    let t = truncate_sections(&v("body [[A]] == See also == [[B]]"));
    assert_eq!(string_of(&t), "body [[A]] ");
}

#[test]
fn extract_links_prefixes_and_filters() {
    let links = extract_links(&v("[[w:Target]] [[:colon]] [[File:X.png]] [[Image:Y]] [[a|b]]"));
    assert_eq!(strings(&links), vec!["Target", "Colon", "A"]);
}

#[test]
fn extract_links_deduplicates() {
    let links = extract_links(&v("[[Foo]] [[foo]] x [[Foo#section]]"));
    assert_eq!(strings(&links), vec!["Foo"]);
}

#[test]
fn extract_links_prefix_backtracking() {
    // A span that is nothing but a prefix: the prefix is given back and
    // captured as the target itself.
    let links = extract_links(&v("[[w:]]"));
    assert_eq!(strings(&links), vec!["W:"]);
    // A leading hash is swallowed by the capture when the span would
    // otherwise be empty.
    let links2 = extract_links(&v("[[#Foo|Bar]]"));
    assert_eq!(strings(&links2), vec!["#Foo"]);
    // An empty span is no link at all; a blank one canonicalizes to the
    // empty title.
    let links3 = extract_links(&v("[[]] [[ ]]"));
    assert_eq!(strings(&links3), vec![String::new()]);
}

#[test]
fn truncation_heading_case_and_spacing() {
    assert_eq!(string_of(&truncate_sections(&v("a==SEE ALSO=="))), "a");
    assert_eq!(string_of(&truncate_sections(&v("a==  	 references junk"))), "a");
    assert_eq!(string_of(&truncate_sections(&v("a== other section =="))), "a== other section ==");
}

#[test]
fn extract_categories_basic() {
    let cats = extract_categories(&v("x [[Category:Big cats]] y [[category:big_cats]] [[A]]"));
    assert_eq!(strings(&cats), vec!["Big cats"]);
}

#[test]
fn redirect_target_extraction() {
    let r = redirect_target(&v("#REDIRECT [[Target Page]]"));
    assert_eq!(string_of(&r.unwrap()), "Target Page");
    assert!(redirect_target(&v("#REDIRECT no link")).is_none());
}

#[test]
fn classify_eligibility_gate() {
    assert_eq!(
        classify(true, &wiki_format(), &wiki_model(), &v("plain article")),
        PageClass::Article
    );
    assert_eq!(
        classify(false, &wiki_format(), &wiki_model(), &v("plain article")),
        PageClass::Ineligible
    );
    assert_eq!(classify(true, &None, &wiki_model(), &v("x")), PageClass::Ineligible);
    assert_eq!(
        classify(true, &wiki_format(), &Some("json".to_string()), &v("x")),
        PageClass::Ineligible
    );
}

#[test]
fn builder_redirect_produces_one_identity_record() {
    let mut b = IndexBuilder::new();
    let o = b.add_page(
        true,
        &wiki_format(),
        &wiki_model(),
        "Some alias",
        &v("#REDIRECT [[Target Page]]"),
    );
    assert_eq!(o, PageOutcome::RedirectRecorded);
    assert_eq!(b.index.recs.len(), 1);
    assert_eq!(b.index.recs[0].alias, "Some alias");
    assert_eq!(b.index.recs[0].target, "Target Page");
    assert!(b.index.recs[0].id.is_none());
    assert_eq!(b.article_count, 0);
}

#[test]
fn builder_redirect_without_link_is_dropped() {
    let mut b = IndexBuilder::new();
    let o = b.add_page(true, &wiki_format(), &wiki_model(), "Alias", &v("#REDIRECT nothing"));
    assert_eq!(o, PageOutcome::RedirectWithoutTarget);
    assert_eq!(b.index.recs.len(), 0);
}

#[test]
fn builder_article_ordinal_and_first_seen_wins() {
    let mut b = IndexBuilder::new();
    let o1 = b.add_page(true, &wiki_format(), &wiki_model(), "foo", &v("article body"));
    assert_eq!(o1, PageOutcome::ArticleRecorded);
    assert_eq!(b.index.recs.len(), 1);
    assert_eq!(b.index.recs[0].alias, "Foo");
    assert_eq!(b.index.recs[0].target, "Foo");
    assert_eq!(b.index.recs[0].id, Some(1));
    let o2 = b.add_page(true, &wiki_format(), &wiki_model(), "Foo", &v("other body"));
    assert_eq!(o2, PageOutcome::ArticleRecorded);
    assert_eq!(b.index.recs.len(), 1);
    assert_eq!(b.index.recs[0].id, Some(1));
    assert_eq!(b.article_count, 2);
}

#[test]
fn builder_skips_disambiguation_and_soft_redirect() {
    let mut b = IndexBuilder::new();
    assert_eq!(
        b.add_page(true, &wiki_format(), &wiki_model(), "Dab", &v("{{disambig}}")),
        PageOutcome::Skipped
    );
    assert_eq!(
        b.add_page(true, &wiki_format(), &wiki_model(), "Soft", &v("{{wi}}")),
        PageOutcome::Skipped
    );
    assert_eq!(b.index.recs.len(), 0);
    assert_eq!(b.article_count, 0);
}

fn two_hop_index() -> IdentityIndex {
    let mut idx = IdentityIndex::new();
    idx.insert_redirect("A".to_string(), "B".to_string());
    idx.insert_article("B".to_string(), 1);
    idx
}

#[test]
fn single_hop_redirect_resolves() {
    let idx = two_hop_index();
    assert_eq!(idx.resolve(&"A".to_string()), Some("B".to_string()));
    assert_eq!(idx.resolve(&"B".to_string()), Some("B".to_string()));
}

#[test]
fn double_stub_chain_does_not_resolve() {
    let mut idx = IdentityIndex::new();
    idx.insert_redirect("A".to_string(), "B".to_string());
    idx.insert_redirect("B".to_string(), "C".to_string());
    idx.insert_article("C".to_string(), 1);
    assert_eq!(idx.resolve(&"A".to_string()), None);
    assert_eq!(idx.resolve(&"B".to_string()), Some("C".to_string()));
    assert_eq!(idx.resolve(&"Missing".to_string()), None);
}

#[test]
fn link_step_resolves_and_excludes_trailing_section() {
    let mut idx = IdentityIndex::new();
    idx.insert_article("Alpha".to_string(), 1);
    idx.insert_article("Beta".to_string(), 2);
    let text = v("see [[alpha]] and [[alpha]] again == See also == [[beta]]");
    let pl = link_step(&idx, true, &wiki_format(), &wiki_model(), "Page", &text).unwrap();
    assert_eq!(pl.source, "Page");
    assert_eq!(pl.targets, vec!["Alpha".to_string()]);
}

#[test]
fn link_step_none_for_non_articles() {
    let idx = IdentityIndex::new();
    assert!(link_step(&idx, true, &wiki_format(), &wiki_model(), "R", &v("#REDIRECT [[X]]"))
        .is_none());
    assert!(link_step(&idx, true, &wiki_format(), &wiki_model(), "D", &v("{{dab}}")).is_none());
    assert!(link_step(&idx, true, &wiki_format(), &wiki_model(), "S", &v("{{wtr}}")).is_none());
    assert!(link_step(&idx, false, &wiki_format(), &wiki_model(), "N", &v("body")).is_none());
}

#[test]
fn link_step_deadend_has_no_targets() {
    let idx = IdentityIndex::new();
    let pl = link_step(&idx, true, &wiki_format(), &wiki_model(), "Lonely", &v("[[Missing]]"))
        .unwrap();
    assert_eq!(pl.source, "Lonely");
    assert!(pl.targets.is_empty());
}

#[test]
fn link_step_ignores_comments() {
    let mut idx = IdentityIndex::new();
    idx.insert_article("Alpha".to_string(), 1);
    let text = v("<!-- [[alpha]] --> body [[missing]]");
    let pl = link_step(&idx, true, &wiki_format(), &wiki_model(), "Page", &text).unwrap();
    assert!(pl.targets.is_empty());
}

#[test]
fn category_step_keeps_trailing_section() {
    let text = v("body == See also == [[Category:Kept cats]]");
    let pc = category_step(true, &wiki_format(), &wiki_model(), "Page", &text).unwrap();
    assert_eq!(pc.source, "Page");
    assert_eq!(pc.categories, vec!["Kept cats".to_string()]);
}

#[test]
fn category_step_none_for_non_articles() {
    assert!(category_step(true, &wiki_format(), &wiki_model(), "R", &v("#redirect [[X]]"))
        .is_none());
    assert!(category_step(true, &wiki_format(), &wiki_model(), "D", &v("{{hndab|x}}"))
        .is_none());
}

#[test]
fn progress_counter_reports_every_ten_thousand() {
    let mut c = ProgressCounter::new();
    let mut reports = 0;
    for i in 1..=20000u32 {
        let r = c.tick();
        if r {
            assert!(i == 10000 || i == 20000);
            reports += 1;
        }
    }
    assert_eq!(reports, 2);
    assert_eq!(c.count, 20000);
}
