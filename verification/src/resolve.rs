//! Pairing URLs with the addresses that a lookup of their host found.

use vstd::prelude::*;
use crate::seqs::{
    lemma_select_len, lemma_select_none, lemma_select_step, lemma_views_push, select, views,
};
use crate::urls::{opt_view, Url, UrlView};

verus! {

/// One resolved address.
#[derive(Clone, Copy, Debug, PartialEq, Eq, Structural)]
pub enum Address {
    /// An IPv4 address, most significant octet first.
    V4(u32),
    /// An IPv6 address, most significant octet first.
    V6(u128),
}

/// A URL together with the addresses that its host resolved to.
#[derive(Debug)]
pub struct Site {
    pub url: Url,
    pub ips: Vec<Address>,
}

/// The mathematical value of a [`Site`].
pub struct SiteView {
    pub url: UrlView,
    pub ips: Seq<Address>,
}

impl View for Site {
    type V = SiteView;

    open spec fn view(&self) -> SiteView {
        SiteView { url: self.url@, ips: self.ips@ }
    }
}

/// What a lookup gave for one host.
#[derive(Debug)]
pub enum Answer {
    /// The addresses found, in the order in which the lookup returned them.
    Found(Vec<Address>),
    /// The lookup failed; the text says how.
    Failed(String),
}

/// The mathematical value of an [`Answer`].
pub enum AnswerView {
    Found(Seq<Address>),
    Failed(Seq<char>),
}

impl View for Answer {
    type V = AnswerView;

    open spec fn view(&self) -> AnswerView {
        match self {
            Answer::Found(ips) => AnswerView::Found(ips@),
            Answer::Failed(e) => AnswerView::Failed(e@),
        }
    }
}

/// Why a URL gave no site.
#[derive(Debug)]
pub enum Skip {
    /// The URL has no host to look up.
    NoHost,
    /// No lookup was made for the host.
    NoAnswer,
    /// The lookup failed; the text says how.
    Failed(String),
    /// The lookup succeeded and returned no address.
    NoAddress,
}

/// The mathematical value of a [`Skip`].
pub enum SkipView {
    NoHost,
    NoAnswer,
    Failed(Seq<char>),
    NoAddress,
}

impl View for Skip {
    type V = SkipView;

    open spec fn view(&self) -> SkipView {
        match self {
            Skip::NoHost => SkipView::NoHost,
            Skip::NoAnswer => SkipView::NoAnswer,
            Skip::Failed(e) => SkipView::Failed(e@),
            Skip::NoAddress => SkipView::NoAddress,
        }
    }
}

/// A URL that gave no site, with the reason.
#[derive(Debug)]
pub struct Unresolved {
    pub url: Url,
    pub reason: Skip,
}

impl View for Unresolved {
    type V = (UrlView, SkipView);

    open spec fn view(&self) -> (UrlView, SkipView) {
        (self.url@, self.reason@)
    }
}

/// The view of an answer that may be missing.
pub open spec fn answer_view(answer: Option<Answer>) -> Option<AnswerView> {
    match answer {
        Some(a) => Some(a@),
        None => None,
    }
}

/// What becomes of one URL, given the answer to the lookup of its host: a
/// site, if the URL has a host and the lookup found at least one address
/// for it, and otherwise the reason why there is none.
pub open spec fn resolve(url: UrlView, answer: Option<AnswerView>) -> Result<
    SiteView,
    (UrlView, SkipView),
> {
    if url.host is None {
        Err((url, SkipView::NoHost))
    } else {
        match answer {
            None => Err((url, SkipView::NoAnswer)),
            Some(AnswerView::Failed(e)) => Err((url, SkipView::Failed(e))),
            Some(AnswerView::Found(ips)) => if ips.len() == 0 {
                Err((url, SkipView::NoAddress))
            } else {
                Ok(SiteView { url, ips })
            },
        }
    }
}

/// Each URL with the answer that stands at its place; a URL beyond the end
/// of the answers has none.
pub open spec fn paired(urls: Seq<UrlView>, answers: Seq<Option<AnswerView>>) -> Seq<
    (UrlView, Option<AnswerView>),
> {
    Seq::new(
        urls.len(),
        |i: int|
            (
                urls[i],
                if i < answers.len() {
                    answers[i]
                } else {
                    None
                },
            ),
    )
}

/// The sites of the pairs that resolve, in their order.
pub open spec fn resolved(pairs: Seq<(UrlView, Option<AnswerView>)>) -> Seq<SiteView> {
    select(
        pairs,
        |p: (UrlView, Option<AnswerView>)| resolve(p.0, p.1) is Ok,
        |p: (UrlView, Option<AnswerView>)| resolve(p.0, p.1)->Ok_0,
    )
}

/// The URLs of the pairs that do not resolve, each with its reason, in
/// their order.
pub open spec fn unresolved(pairs: Seq<(UrlView, Option<AnswerView>)>) -> Seq<(UrlView, SkipView)> {
    select(
        pairs,
        |p: (UrlView, Option<AnswerView>)| resolve(p.0, p.1) is Err,
        |p: (UrlView, Option<AnswerView>)| resolve(p.0, p.1)->Err_0,
    )
}

/// The views of answers that may be missing.
pub open spec fn answer_views(answers: Seq<Option<Answer>>) -> Seq<Option<AnswerView>> {
    answers.map_values(|a: Option<Answer>| answer_view(a))
}

/// The sites of the URLs that resolve, in the order of the URLs.
pub open spec fn sites(urls: Seq<UrlView>, answers: Seq<Option<AnswerView>>) -> Seq<SiteView> {
    resolved(paired(urls, answers))
}

/// The URLs that do not resolve, each with its reason, in the order of the
/// URLs.
pub open spec fn skipped(urls: Seq<UrlView>, answers: Seq<Option<AnswerView>>) -> Seq<
    (UrlView, SkipView),
> {
    unresolved(paired(urls, answers))
}

/// The hosts to look up, one entry for each URL in order, with `None`
/// where the URL has no host. Each host stands alone, without scheme, port
/// or path, and the same host is named as often as it occurs.
pub fn lookup_hosts(urls: &[Url]) -> (hosts: Vec<Option<String>>)
    ensures
        hosts@.len() == urls@.len(),
        forall|i: int| 0 <= i < urls@.len() ==> opt_view(#[trigger] hosts@[i]) == urls@[i]@.host,
{
    let mut hosts: Vec<Option<String>> = Vec::new();
    let mut i: usize = 0;
    while i < urls.len()
        invariant
            i <= urls.len(),
            hosts@.len() == i,
            forall|k: int| 0 <= k < i ==> opt_view(#[trigger] hosts@[k]) == urls@[k]@.host,
        decreases urls.len() - i,
    {
        let host = match urls[i].host() {
            Some(h) => Some(h.to_owned()),
            None => None,
        };
        hosts.push(host);
        i += 1;
    }
    hosts
}

/// Decides what becomes of one URL, given the answer to the lookup of its
/// host.
pub fn resolve_one(url: &Url, answer: Option<&Answer>) -> (r: Result<Site, Unresolved>)
    ensures
        match r {
            Ok(site) => resolve(
                url@,
                match answer {
                    Some(a) => Some(a@),
                    None => None,
                },
            ) == Ok::<_, (UrlView, SkipView)>(site@),
            Err(u) => resolve(
                url@,
                match answer {
                    Some(a) => Some(a@),
                    None => None,
                },
            ) == Err::<SiteView, _>(u@),
        },
{
    if url.host().is_none() {
        return Err(Unresolved { url: url.clone(), reason: Skip::NoHost });
    }
    match answer {
        None => Err(Unresolved { url: url.clone(), reason: Skip::NoAnswer }),
        Some(Answer::Failed(e)) => Err(
            Unresolved { url: url.clone(), reason: Skip::Failed(e.clone()) },
        ),
        Some(Answer::Found(ips)) => {
            if ips.len() == 0 {
                Err(Unresolved { url: url.clone(), reason: Skip::NoAddress })
            } else {
                Ok(Site { url: url.clone(), ips: ips.clone() })
            }
        },
    }
}

/// Pairs each URL with the addresses found for its host. `answers` holds,
/// at the place of each URL, the answer to the lookup of its host. A URL
/// gives a site exactly when it has a host, be it a domain name or an
/// address, and the lookup found at least one address; the sites keep the
/// order of the URLs. Every other URL is handed back with the reason, and
/// stops nothing.
pub fn lookup_url(urls: &[Url], answers: &[Option<Answer>]) -> (r: (Vec<Site>, Vec<Unresolved>))
    ensures
        views(r.0@) == sites(views(urls@), answer_views(answers@)),
        views(r.1@) == skipped(
            views(urls@),
            answer_views(answers@),
        ),
{
    let mut found: Vec<Site> = Vec::new();
    let mut left: Vec<Unresolved> = Vec::new();
    let ghost all = paired(views(urls@), answer_views(answers@));
    proof {
        lemma_resolved_start(all.take(0));
    }
    let mut i: usize = 0;
    while i < urls.len()
        invariant
            i <= urls.len(),
            all == paired(views(urls@), answer_views(answers@)),
            views(found@) == resolved(all.take(i as int)),
            views(left@) == unresolved(all.take(i as int)),
        decreases urls.len() - i,
    {
        let answer = if i < answers.len() {
            match &answers[i] {
                Some(a) => Some(a),
                None => None,
            }
        } else {
            None
        };
        proof {
            lemma_resolved_step(all, i as int);
        }
        match resolve_one(&urls[i], answer) {
            Ok(site) => {
                proof {
                    lemma_views_push(found@, site);
                }
                found.push(site);
            },
            Err(u) => {
                proof {
                    lemma_views_push(left@, u);
                }
                left.push(u);
            },
        }
        i += 1;
    }
    assert(all.take(urls.len() as int) == all);
    (found, left)
}

/// No URLs give no sites and no unresolved URLs.
pub proof fn lemma_resolved_start(pairs: Seq<(UrlView, Option<AnswerView>)>)
    requires
        pairs.len() == 0,
    ensures
        resolved(pairs) == Seq::<SiteView>::empty(),
        unresolved(pairs) == Seq::<(UrlView, SkipView)>::empty(),
{
    lemma_select_none(
        pairs,
        |p: (UrlView, Option<AnswerView>)| resolve(p.0, p.1) is Ok,
        |p: (UrlView, Option<AnswerView>)| resolve(p.0, p.1)->Ok_0,
    );
    lemma_select_none(
        pairs,
        |p: (UrlView, Option<AnswerView>)| resolve(p.0, p.1) is Err,
        |p: (UrlView, Option<AnswerView>)| resolve(p.0, p.1)->Err_0,
    );
}

/// One more URL adds its site to the sites if it resolves, and is added to
/// the unresolved ones with its reason if it does not.
pub proof fn lemma_resolved_step(pairs: Seq<(UrlView, Option<AnswerView>)>, i: int)
    requires
        0 <= i < pairs.len(),
    ensures
        match resolve(pairs[i].0, pairs[i].1) {
            Ok(site) => resolved(pairs.take(i + 1)) == resolved(pairs.take(i)).push(site) && unresolved(pairs.take(i + 1)) == unresolved(pairs.take(i)),
            Err(u) => resolved(pairs.take(i + 1)) == resolved(pairs.take(i)) && unresolved(pairs.take(i + 1)) == unresolved(pairs.take(i)).push(u),
        },
{
    lemma_select_step(
        pairs,
        |p: (UrlView, Option<AnswerView>)| resolve(p.0, p.1) is Ok,
        |p: (UrlView, Option<AnswerView>)| resolve(p.0, p.1)->Ok_0,
        i,
    );
    lemma_select_step(
        pairs,
        |p: (UrlView, Option<AnswerView>)| resolve(p.0, p.1) is Err,
        |p: (UrlView, Option<AnswerView>)| resolve(p.0, p.1)->Err_0,
        i,
    );
}

/// A URL gives a site exactly when it has a host and the lookup of it found
/// at least one address; the site then holds that URL and those addresses,
/// in their order.
pub proof fn lemma_site_iff_addresses(url: UrlView, answer: Option<AnswerView>)
    ensures
        resolve(url, answer) is Ok <==> url.host is Some && (answer matches Some(
            AnswerView::Found(ips),
        ) && ips.len() >= 1),
        resolve(url, answer) matches Ok(site) ==> site.url == url && answer == Some(
            AnswerView::Found(site.ips),
        ),
{
}

/// Every URL gives a site or is handed back unresolved, and never both.
pub proof fn lemma_every_url_filed(urls: Seq<UrlView>, answers: Seq<Option<AnswerView>>)
    ensures
        sites(urls, answers).len() + skipped(urls, answers).len() == urls.len(),
{
    let ok = |p: (UrlView, Option<AnswerView>)| resolve(p.0, p.1) is Ok;
    let err = |p: (UrlView, Option<AnswerView>)| resolve(p.0, p.1) is Err;
    lemma_select_len(
        paired(urls, answers),
        ok,
        |p: (UrlView, Option<AnswerView>)| resolve(p.0, p.1)->Ok_0,
        |p: (UrlView, Option<AnswerView>)| resolve(p.0, p.1)->Err_0,
    );
    assert(err =~= (|p: (UrlView, Option<AnswerView>)| !ok(p)));
}

/// Every site holds at least one address.
pub proof fn lemma_sites_have_addresses(
    urls: Seq<UrlView>,
    answers: Seq<Option<AnswerView>>,
    k: int,
)
    requires
        0 <= k < sites(urls, answers).len(),
    ensures
        sites(urls, answers)[k].ips.len() >= 1,
{
    let ok = |p: (UrlView, Option<AnswerView>)| resolve(p.0, p.1) is Ok;
    paired(urls, answers).lemma_filter_pred(ok, k);
}

} // verus!
