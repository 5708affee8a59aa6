//! The per-record pipeline: the classifier shared by every pass, the
//! identity-index builder of pass one, and the link and category extraction
//! steps of the later passes. The caller feeds records in dump order and
//! writes what each step hands back.

use vstd::prelude::*;
use crate::chars::chars_of;
use crate::chars::string_of;
use crate::canon::spec_canonicalize;
use crate::canon::canonicalize_chars;
use crate::markup::spec_is_redirect;
use crate::markup::spec_is_disambig;
use crate::markup::spec_is_soft_redirect;
use crate::markup::spec_strip_comments;
use crate::markup::is_redirect;
use crate::markup::is_disambiguation;
use crate::markup::is_soft_redirect;
use crate::markup::strip_comments;
use crate::extract::spec_truncate_sections;
use crate::extract::spec_extract_links;
use crate::extract::spec_extract_categories;
use crate::extract::spec_redirect_target;
use crate::extract::truncate_sections;
use crate::extract::extract_links;
use crate::extract::extract_categories;
use crate::extract::redirect_target;
use crate::index::IdentityIndex;
use crate::index::spec_resolve;
use crate::index::spec_upsert;

verus! {

/// What a raw page record is to the graph.
#[derive(Clone, Copy, PartialEq, Eq, Structural, Debug)]
pub enum PageClass {
    /// Wrong namespace, format or model: not part of the corpus.
    Ineligible,
    /// A hard redirect: contributes only an identity alias.
    Redirect,
    /// A disambiguation page: excluded from every output.
    Disambiguation,
    /// A soft-redirect page: excluded from every output.
    SoftRedirect,
    /// A genuine article.
    Article,
}

/// Whether a record is eligible at all: main namespace, wiki-markup format
/// and wiki-markup model.
pub open spec fn spec_eligible(
    ns_main: bool,
    format: Option<Seq<char>>,
    model: Option<Seq<char>>,
) -> bool {
    &&& ns_main
    &&& format == Some("text/x-wiki"@)
    &&& model == Some("wikitext"@)
}

/// The classification applied identically by every pass. The redirect
/// directive is sought in the raw text; the template markers in the
/// comment-stripped text.
pub open spec fn spec_classify(
    ns_main: bool,
    format: Option<Seq<char>>,
    model: Option<Seq<char>>,
    text: Seq<char>,
) -> PageClass {
    if !spec_eligible(ns_main, format, model) {
        PageClass::Ineligible
    } else if spec_is_redirect(text) {
        PageClass::Redirect
    } else if spec_is_disambig(spec_strip_comments(text)) {
        PageClass::Disambiguation
    } else if spec_is_soft_redirect(spec_strip_comments(text)) {
        PageClass::SoftRedirect
    } else {
        PageClass::Article
    }
}

/// The views of an optional tag.
pub open spec fn opt_view(o: Option<String>) -> Option<Seq<char>> {
    match o {
        Some(s) => Some(s@),
        None => None,
    }
}

/// Classifies one raw record.
pub fn classify(
    ns_main: bool,
    format: &Option<String>,
    model: &Option<String>,
    text: &Vec<char>,
) -> (c: PageClass)
    ensures
        c == spec_classify(ns_main, opt_view(*format), opt_view(*model), text@),
{
    let fmt_ok = match format {
        Some(f) => {
            let want = crate::chars::chars_of("text/x-wiki");
            crate::chars::seq_eq(&crate::chars::chars_of(f.as_str()), &want)
        },
        None => false,
    };
    let model_ok = match model {
        Some(m) => {
            let want = crate::chars::chars_of("wikitext");
            crate::chars::seq_eq(&crate::chars::chars_of(m.as_str()), &want)
        },
        None => false,
    };
    if !(ns_main && fmt_ok && model_ok) {
        return PageClass::Ineligible;
    }
    if is_redirect(text) {
        return PageClass::Redirect;
    }
    let stripped = strip_comments(text);
    if is_disambiguation(&stripped) {
        return PageClass::Disambiguation;
    }
    if is_soft_redirect(&stripped) {
        return PageClass::SoftRedirect;
    }
    PageClass::Article
}

/// What one pass-one step did with its record.
#[derive(Clone, Copy, PartialEq, Eq, Structural, Debug)]
pub enum PageOutcome {
    /// Ineligible, disambiguation or soft-redirect: nothing recorded.
    Skipped,
    /// A redirect alias was recorded.
    RedirectRecorded,
    /// A redirect page without an extractable link: reported and dropped.
    RedirectWithoutTarget,
    /// A genuine article was recorded under a fresh ordinal.
    ArticleRecorded,
}

/// The pass-one state: the index under construction and the article
/// ordinal counter.
pub struct IndexBuilder {
    pub index: IdentityIndex,
    pub article_count: u64,
}

impl IndexBuilder {
    /// An empty builder.
    pub fn new() -> (r: Self)
        ensures
            r.index@ == Map::<Seq<char>, (Seq<char>, Option<u64>)>::empty(),
            r.index.wf(),
            r.article_count == 0,
    {
        IndexBuilder { index: IdentityIndex::new(), article_count: 0 }
    }

    /// Consumes one record of the dump. A redirect page contributes an
    /// alias record pointing at the canonicalized target of its first
    /// wikilink, or is dropped with a warning outcome when it has none; a
    /// genuine article is recorded under the next positive ordinal; every
    /// other record leaves the index untouched. Repeated aliases keep the
    /// first record.
    pub fn add_page(
        &mut self,
        ns_main: bool,
        format: &Option<String>,
        model: &Option<String>,
        title: &str,
        text: &Vec<char>,
    ) -> (o: PageOutcome)
        requires
            old(self).index.wf(),
            old(self).article_count < u64::MAX,
        ensures
            final(self).index.wf(),
            ({
                let cls = spec_classify(ns_main, opt_view(*format), opt_view(*model), text@);
                let ca = spec_canonicalize(title@);
                &&& (cls == PageClass::Ineligible || cls == PageClass::Disambiguation || cls
                    == PageClass::SoftRedirect) ==> final(self).index@ == old(self).index@
                    && final(self).article_count == old(self).article_count && o
                    == PageOutcome::Skipped
                &&& cls == PageClass::Redirect ==> match spec_redirect_target(text@) {
                    Some(link) => final(self).index@ == spec_upsert(
                        old(self).index@,
                        ca,
                        (spec_canonicalize(link), None),
                    ) && final(self).article_count == old(self).article_count && o
                        == PageOutcome::RedirectRecorded,
                    None => final(self).index@ == old(self).index@ && final(self).article_count
                        == old(self).article_count && o == PageOutcome::RedirectWithoutTarget,
                }
                &&& cls == PageClass::Article ==> final(self).article_count == old(
                    self,
                ).article_count + 1 && final(self).index@ == spec_upsert(
                    old(self).index@,
                    ca,
                    (ca, Some((old(self).article_count + 1) as u64)),
                ) && o == PageOutcome::ArticleRecorded
            }),
    {
        let cls = classify(ns_main, format, model, text);
        match cls {
            PageClass::Ineligible => PageOutcome::Skipped,
            PageClass::Disambiguation => PageOutcome::Skipped,
            PageClass::SoftRedirect => PageOutcome::Skipped,
            PageClass::Redirect => {
                match redirect_target(text) {
                    None => PageOutcome::RedirectWithoutTarget,
                    Some(link) => {
                        let ca = string_of(&canonicalize_chars(&chars_of(title)));
                        let ct = string_of(&canonicalize_chars(&link));
                        self.index.insert_redirect(ca, ct);
                        PageOutcome::RedirectRecorded
                    },
                }
            },
            PageClass::Article => {
                let ca = string_of(&canonicalize_chars(&chars_of(title)));
                self.article_count = self.article_count + 1;
                self.index.insert_article(ca, self.article_count);
                PageOutcome::ArticleRecorded
            },
        }
    }
}

/// The candidate link targets of an article, resolved in order against the
/// index; unresolvable candidates are dropped silently.
pub open spec fn spec_resolve_all(
    m: Map<Seq<char>, (Seq<char>, Option<u64>)>,
    cands: Seq<Seq<char>>,
) -> Seq<Seq<char>>
    decreases cands.len(),
{
    if cands.len() == 0 {
        Seq::empty()
    } else {
        let head: Seq<Seq<char>> = match spec_resolve(m, cands[0]) {
            Some(t) => seq![t],
            None => Seq::empty(),
        };
        head + spec_resolve_all(m, cands.drop_first())
    }
}

/// The verified outbound links of one article page.
pub struct PageLinks {
    /// The canonical title of the page itself.
    pub source: String,
    /// The resolved canonical targets, in first appearance order; empty
    /// for a deadend page.
    pub targets: Vec<String>,
}

/// Consumes one record for the link pass. Only a genuine article produces
/// output: its candidate targets are taken from the comment-stripped text
/// truncated at the first trailing-section heading, deduplicated, and
/// resolved against the read-only index. A page whose target list comes
/// back empty is a deadend.
#[verifier::loop_isolation(false)]
pub fn link_step(
    index: &IdentityIndex,
    ns_main: bool,
    format: &Option<String>,
    model: &Option<String>,
    title: &str,
    text: &Vec<char>,
) -> (r: Option<PageLinks>)
    requires
        index.wf(),
    ensures
        r is Some <==> spec_classify(ns_main, opt_view(*format), opt_view(*model), text@)
            == PageClass::Article,
        r matches Some(pl) ==> pl.source@ == spec_canonicalize(title@)
            && pl.targets.deep_view() == spec_resolve_all(
            index@,
            spec_extract_links(spec_truncate_sections(spec_strip_comments(text@))),
        ),
{
    let cls = classify(ns_main, format, model, text);
    if !matches!(cls, PageClass::Article) {
        return None;
    }
    let stripped = strip_comments(text);
    let body = truncate_sections(&stripped);
    let cands = extract_links(&body);
    let ghost cand_seq = spec_extract_links(spec_truncate_sections(spec_strip_comments(text@)));
    let mut targets: Vec<String> = Vec::new();
    let mut i: usize = 0;
    proof {
        assert(cands.deep_view() == cand_seq);
        assert(cand_seq.skip(0) =~= cand_seq);
        assert(targets.deep_view() =~= Seq::<Seq<char>>::empty());
        assert(targets.deep_view() + spec_resolve_all(index@, cand_seq) =~= spec_resolve_all(
            index@,
            cand_seq,
        ));
    }
    while i < cands.len()
        invariant
            0 <= i <= cands.len(),
            spec_resolve_all(index@, cand_seq) == targets.deep_view() + spec_resolve_all(
                index@,
                cand_seq.skip(i as int),
            ),
        decreases cands.len() - i,
    {
        let cand = string_of(&cands[i]);
        proof {
            assert(cands.deep_view()[i as int] == cands@[i as int].deep_view());
            assert(cands@[i as int].deep_view() =~= cands@[i as int]@);
            assert(cand_seq.skip(i as int)[0] == cand_seq[i as int]);
            assert(cand_seq.skip(i as int).drop_first() =~= cand_seq.skip(i + 1));
        }
        let ghost old_tv = targets.deep_view();
        match index.resolve(&cand) {
            Some(t) => {
                targets.push(t);
                proof {
                    assert(targets.deep_view() =~= old_tv.push(
                        spec_resolve(index@, cand_seq[i as int])->0,
                    ));
                    assert(spec_resolve_all(index@, cand_seq.skip(i as int)) == seq![
                        spec_resolve(index@, cand_seq[i as int])->0,
                    ] + spec_resolve_all(index@, cand_seq.skip(i + 1)));
                    assert(old_tv.push(spec_resolve(index@, cand_seq[i as int])->0) + spec_resolve_all(
                        index@,
                        cand_seq.skip(i + 1),
                    ) =~= old_tv + (seq![spec_resolve(index@, cand_seq[i as int])->0]
                        + spec_resolve_all(index@, cand_seq.skip(i + 1))));
                }
            },
            None => {
                proof {
                    assert(spec_resolve_all(index@, cand_seq.skip(i as int)) =~= spec_resolve_all(
                        index@,
                        cand_seq.skip(i + 1),
                    ));
                }
            },
        }
        i += 1;
    }
    proof {
        assert(cand_seq.skip(cand_seq.len() as int) =~= Seq::<Seq<char>>::empty());
        assert(targets.deep_view() + Seq::<Seq<char>>::empty() =~= targets.deep_view());
    }
    let source = string_of(&canonicalize_chars(&chars_of(title)));
    Some(PageLinks { source, targets })
}

/// The category memberships of one article page.
pub struct PageCategories {
    /// The canonical title of the page itself.
    pub source: String,
    /// The canonical category names, in first appearance order.
    pub categories: Vec<String>,
}

/// Consumes one record for the category pass. Only a genuine article
/// produces output: category names are taken from the whole
/// comment-stripped text, untruncated, canonicalized and deduplicated; no
/// index lookup is involved.
#[verifier::loop_isolation(false)]
pub fn category_step(
    ns_main: bool,
    format: &Option<String>,
    model: &Option<String>,
    title: &str,
    text: &Vec<char>,
) -> (r: Option<PageCategories>)
    ensures
        r is Some <==> spec_classify(ns_main, opt_view(*format), opt_view(*model), text@)
            == PageClass::Article,
        r matches Some(pc) ==> pc.source@ == spec_canonicalize(title@)
            && pc.categories.deep_view() == spec_extract_categories(spec_strip_comments(text@)),
{
    let cls = classify(ns_main, format, model, text);
    if !matches!(cls, PageClass::Article) {
        return None;
    }
    let stripped = strip_comments(text);
    let names = extract_categories(&stripped);
    let mut categories: Vec<String> = Vec::new();
    let mut i: usize = 0;
    while i < names.len()
        invariant
            0 <= i <= names.len(),
            categories.deep_view() == names.deep_view().take(i as int),
        decreases names.len() - i,
    {
        let ghost old_cv = categories.deep_view();
        let c = string_of(&names[i]);
        proof {
            assert(names.deep_view()[i as int] == names@[i as int].deep_view());
            assert(names@[i as int].deep_view() =~= names@[i as int]@);
        }
        categories.push(c);
        proof {
            assert(categories.deep_view() =~= old_cv.push(names.deep_view()[i as int]));
            assert(categories.deep_view() =~= names.deep_view().take(i + 1));
        }
        i += 1;
    }
    proof {
        assert(names.deep_view().take(names.deep_view().len() as int) =~= names.deep_view());
    }
    let source = string_of(&canonicalize_chars(&chars_of(title)));
    Some(PageCategories { source, categories })
}

/// The article counter driving progress reporting: a report is owed after
/// every ten-thousandth genuine article.
pub struct ProgressCounter {
    pub count: u64,
}

impl ProgressCounter {
    /// A counter at zero.
    pub fn new() -> (r: Self)
        ensures
            r.count == 0,
    {
        ProgressCounter { count: 0 }
    }

    /// Counts one genuine article; true when a progress report is owed.
    pub fn tick(&mut self) -> (report: bool)
        requires
            old(self).count < u64::MAX,
        ensures
            final(self).count == old(self).count + 1,
            report == (final(self).count % 10000 == 0),
    {
        self.count = self.count + 1;
        self.count % 10000 == 0
    }
}

} // verus!
