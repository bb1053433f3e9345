//! Validated URLs, as the `url` crate parses them.

use url::{Host, ParseError};
use vstd::prelude::*;
use crate::seqs::{
    lemma_select_len, lemma_select_none, lemma_select_step, lemma_views_push, select, views,
};
use crate::text::{lines_of, split_lines};

verus! {

/// Why a text is no URL.
#[derive(Clone, Copy, Debug, PartialEq, Eq, Structural)]
pub enum UrlError {
    /// The host is empty.
    EmptyHost,
    /// The host is no valid international domain name.
    IdnaError,
    /// The port is no number below 65536.
    InvalidPort,
    /// The host looks like an IPv4 address and is none.
    InvalidIpv4Address,
    /// The host stands in square brackets and is no IPv6 address.
    InvalidIpv6Address,
    /// The host holds a character that no domain name may hold.
    InvalidDomainCharacter,
    /// The text has no scheme, so it is at most a relative URL.
    RelativeUrlWithoutBase,
    /// The URL is longer than 4 GB.
    Overflow,
    /// A reason that this library has no name for.
    Other,
}

/// What `url::Url::parse` makes of a text: the serialization of the parsed
/// URL, or the reason for which the text is no URL.
pub uninterp spec fn url_parse(input: Seq<char>) -> Result<Seq<char>, UrlError>;

/// What `url::Url::host` returns of the URL that a text parses to, written
/// as text: a domain name as it stands, an IPv4 address as four decimal
/// numbers with dots, an IPv6 address in its usual short form, without
/// brackets. Nothing where the URL has no host or the text is no URL.
pub uninterp spec fn url_host(input: Seq<char>) -> Option<Seq<char>>;

/// The mathematical value of a [`Url`].
pub struct UrlView {
    /// The URL, written out in full.
    pub text: Seq<char>,
    /// The host, if the URL has one: a domain name or an address.
    pub host: Option<Seq<char>>,
}

/// What parsing `input` gives, as a [`UrlView`].
pub open spec fn parsed(input: Seq<char>) -> Result<UrlView, UrlError> {
    match url_parse(input) {
        Ok(text) => Ok(UrlView { text, host: url_host(input) }),
        Err(e) => Err(e),
    }
}

/// Whether a value is what some text parses to.
pub open spec fn is_parsed(v: UrlView) -> bool {
    exists|input: Seq<char>| #[trigger] parsed(input) == Ok::<_, UrlError>(v)
}

/// The view of an optional string.
pub open spec fn opt_view(s: Option<String>) -> Option<Seq<char>> {
    match s {
        Some(s) => Some(s@),
        None => None,
    }
}

/// A URL that parsed: its normalised text and the host to look up.
#[derive(Debug)]
pub struct Url {
    text: String,
    host: Option<String>,
}

impl View for Url {
    type V = UrlView;

    closed spec fn view(&self) -> UrlView {
        UrlView { text: self.text@, host: opt_view(self.host) }
    }
}

/// Calls `url::Url::parse` and hands out, for a URL that parsed, what
/// `as_str` returns of it, and otherwise the variant of `url::ParseError`;
/// the two variants that arise only where a URL is resolved against
/// another, and any that later versions add, come out as
/// [`UrlError::Other`]. The contract claims that the outcome depends on the
/// text alone, and gives it the name [`url_parse`].
#[verifier::external_body]
fn parse_text(input: &str) -> (r: Result<String, UrlError>)
    ensures
        match r {
            Ok(text) => url_parse(input@) == Ok::<_, UrlError>(text@),
            Err(e) => url_parse(input@) == Err::<Seq<char>, _>(e),
        },
{
    match url::Url::parse(input) {
        Ok(u) => Ok(u.as_str().to_owned()),
        Err(ParseError::EmptyHost) => Err(UrlError::EmptyHost),
        Err(ParseError::IdnaError) => Err(UrlError::IdnaError),
        Err(ParseError::InvalidPort) => Err(UrlError::InvalidPort),
        Err(ParseError::InvalidIpv4Address) => Err(UrlError::InvalidIpv4Address),
        Err(ParseError::InvalidIpv6Address) => Err(UrlError::InvalidIpv6Address),
        Err(ParseError::InvalidDomainCharacter) => Err(UrlError::InvalidDomainCharacter),
        Err(ParseError::RelativeUrlWithoutBase) => Err(UrlError::RelativeUrlWithoutBase),
        Err(ParseError::Overflow) => Err(UrlError::Overflow),
        Err(_) => Err(UrlError::Other),
    }
}

/// Turns the text into a `url::Url` and hands out what `url::Url::host`
/// returns of it, each variant of `url::Host` written as text: the domain
/// name as it stands, an address as its `to_string` gives it. The contract
/// claims that the outcome depends on the text alone, and gives it the name
/// [`url_host`].
#[verifier::external_body]
fn host_of(input: &str) -> (r: Option<String>)
    ensures
        opt_view(r) == url_host(input@),
{
    match url::Url::parse(input) {
        Ok(u) => match u.host() {
            Some(Host::Domain(d)) => Some(d.to_owned()),
            Some(Host::Ipv4(a)) => Some(a.to_string()),
            Some(Host::Ipv6(a)) => Some(a.to_string()),
            None => None,
        },
        Err(_) => None,
    }
}

impl Url {
    #[verifier::type_invariant]
    spec fn inv(&self) -> bool {
        is_parsed(self@)
    }

    /// Parses `input` as an absolute URL.
    pub fn parse(input: &str) -> (r: Result<Url, UrlError>)
        ensures
            match r {
                Ok(u) => parsed(input@) == Ok::<_, UrlError>(u@),
                Err(e) => parsed(input@) == Err::<UrlView, _>(e),
            },
    {
        match parse_text(input) {
            Ok(text) => {
                let host = host_of(input);
                Ok(Url { text, host })
            },
            Err(e) => Err(e),
        }
    }

    /// The URL, written out in full. Every URL is what some text parses to.
    pub fn as_str(&self) -> (s: &str)
        ensures
            s@ == self@.text,
            is_parsed(self@),
    {
        proof {
            use_type_invariant(self);
        }
        self.text.as_str()
    }

    /// The host, if the URL has one: a domain name, or an address written
    /// as text.
    pub fn host(&self) -> (h: Option<&str>)
        ensures
            match h {
                Some(h) => self@.host == Some(h@),
                None => self@.host is None,
            },
    {
        match &self.host {
            Some(h) => Some(h.as_str()),
            None => None,
        }
    }
}

impl Clone for Url {
    fn clone(&self) -> (r: Url)
        ensures
            r == *self,
    {
        proof {
            use_type_invariant(self);
        }
        let host = match &self.host {
            Some(h) => Some(h.clone()),
            None => None,
        };
        Url { text: self.text.clone(), host }
    }
}

/// A line that is no URL, with the reason.
#[derive(Debug)]
pub struct RejectedUrl {
    pub line: String,
    pub error: UrlError,
}

impl View for RejectedUrl {
    type V = (Seq<char>, UrlError);

    open spec fn view(&self) -> (Seq<char>, UrlError) {
        (self.line@, self.error)
    }
}

/// The URLs that the lines which parse give, in the order of the lines.
pub open spec fn accepted(lines: Seq<Seq<char>>) -> Seq<UrlView> {
    select(lines, |l: Seq<char>| parsed(l) is Ok, |l: Seq<char>| parsed(l)->Ok_0)
}

/// The lines that do not parse, each with its reason, in the order of the
/// lines.
pub open spec fn rejected(lines: Seq<Seq<char>>) -> Seq<(Seq<char>, UrlError)> {
    select(lines, |l: Seq<char>| parsed(l) is Err, |l: Seq<char>| (l, parsed(l)->Err_0))
}

/// Files one line under the URLs or under the rejected lines, by what
/// parsing it gave.
pub fn file_url(
    line: &str,
    outcome: Result<Url, UrlError>,
    urls: &mut Vec<Url>,
    rejects: &mut Vec<RejectedUrl>,
)
    ensures
        match outcome {
            Ok(u) => views(final(urls)@) == views(old(urls)@).push(u@) && views(final(rejects)@)
                == views(old(rejects)@),
            Err(e) => views(final(urls)@) == views(old(urls)@) && views(final(rejects)@) == views(
                old(rejects)@,
            ).push((line@, e)),
        },
{
    match outcome {
        Ok(u) => {
            proof {
                lemma_views_push(urls@, u);
            }
            urls.push(u);
        },
        Err(e) => {
            let reject = RejectedUrl { line: line.to_owned(), error: e };
            proof {
                lemma_views_push(rejects@, reject);
            }
            rejects.push(reject);
        },
    }
}

/// Reads a list of URLs, one to a line. The lines that parse give the
/// URLs, in their order; every other line is handed back with the reason
/// for which it is no URL, and stops nothing.
pub fn build_urls(text: &str) -> (r: (Vec<Url>, Vec<RejectedUrl>))
    ensures
        views(r.0@) == accepted(lines_of(text@)),
        views(r.1@) == rejected(lines_of(text@)),
{
    let lines = split_lines(text);
    let mut urls: Vec<Url> = Vec::new();
    let mut rejects: Vec<RejectedUrl> = Vec::new();
    let ghost all = views(lines@);
    proof {
        lemma_loaded_start(all.take(0));
    }
    let mut i: usize = 0;
    while i < lines.len()
        invariant
            i <= lines.len(),
            all == views(lines@),
            views(urls@) == accepted(all.take(i as int)),
            views(rejects@) == rejected(all.take(i as int)),
        decreases lines.len() - i,
    {
        let line = lines[i].as_str();
        let outcome = Url::parse(line);
        file_url(line, outcome, &mut urls, &mut rejects);
        proof {
            lemma_loaded_step(all, i as int);
        }
        i += 1;
    }
    assert(all.take(lines.len() as int) == all);
    (urls, rejects)
}

/// No lines give no URLs and no rejected lines.
pub proof fn lemma_loaded_start(lines: Seq<Seq<char>>)
    requires
        lines.len() == 0,
    ensures
        accepted(lines) == Seq::<UrlView>::empty(),
        rejected(lines) == Seq::<(Seq<char>, UrlError)>::empty(),
{
    lemma_select_none(lines, |l: Seq<char>| parsed(l) is Ok, |l: Seq<char>| parsed(l)->Ok_0);
    lemma_select_none(
        lines,
        |l: Seq<char>| parsed(l) is Err,
        |l: Seq<char>| (l, parsed(l)->Err_0),
    );
}

/// One more line adds its URL to the accepted ones if it parses, and is
/// added to the rejected ones with its reason if it does not.
pub proof fn lemma_loaded_step(lines: Seq<Seq<char>>, i: int)
    requires
        0 <= i < lines.len(),
    ensures
        match parsed(lines[i]) {
            Ok(u) => accepted(lines.take(i + 1)) == accepted(lines.take(i)).push(u) && rejected(
                lines.take(i + 1),
            ) == rejected(lines.take(i)),
            Err(e) => accepted(lines.take(i + 1)) == accepted(lines.take(i)) && rejected(
                lines.take(i + 1),
            ) == rejected(lines.take(i)).push((lines[i], e)),
        },
{
    lemma_select_step(lines, |l: Seq<char>| parsed(l) is Ok, |l: Seq<char>| parsed(l)->Ok_0, i);
    lemma_select_step(
        lines,
        |l: Seq<char>| parsed(l) is Err,
        |l: Seq<char>| (l, parsed(l)->Err_0),
        i,
    );
}

/// Of `n` lines of which `m` parse, exactly `m` give a URL and the other
/// `n - m` are rejected.
pub proof fn lemma_every_line_filed(lines: Seq<Seq<char>>)
    ensures
        accepted(lines).len() == lines.filter(|l: Seq<char>| parsed(l) is Ok).len(),
        accepted(lines).len() + rejected(lines).len() == lines.len(),
{
    let ok = |l: Seq<char>| parsed(l) is Ok;
    let err = |l: Seq<char>| parsed(l) is Err;
    lemma_select_len(
        lines,
        ok,
        |l: Seq<char>| parsed(l)->Ok_0,
        |l: Seq<char>| (l, parsed(l)->Err_0),
    );
    assert(err =~= (|l: Seq<char>| !ok(l)));
}

} // verus!
