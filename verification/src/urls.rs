use vstd::prelude::*;

verus! {

/// What `url::Url::parse` yields for a given input, reduced to the three
/// components the crawler reads: `None` when the input does not parse,
/// otherwise `Some((scheme, domain, cannot_be_a_base))`.
pub uninterp spec fn url_parse_of(s: Seq<char>) -> Option<(Seq<char>, Option<Seq<char>>, bool)>;

/// What parsing a `hyper::Uri` from a given input yields: on success the
/// pair `(host, canonical text)`, on failure the error's display text.
pub uninterp spec fn uri_parse_of(s: Seq<char>) -> Result<
    (Option<Seq<char>>, Seq<char>),
    Seq<char>,
>;

/// Relies on `url::Url::parse`, `Url::scheme`, `Url::domain` and
/// `Url::cannot_be_a_base`: the parse is a pure function of the input
/// string, and the accessors read components of the parsed value.
#[verifier::external_body]
pub(crate) fn parse_web_url_raw(s: &str) -> (r: Option<(String, Option<String>, bool)>)
    ensures
        r is Some <==> url_parse_of(s@) is Some,
        r matches Some(p) ==> {
            let q = url_parse_of(s@)->Some_0;
            &&& p.0@ == q.0
            &&& (p.1 is Some <==> q.1 is Some)
            &&& (p.1 matches Some(d) ==> q.1 == Some(d@))
            &&& p.2 == q.2
        },
{
    match url::Url::parse(s) {
        Ok(u) => Some(
            (u.scheme().to_string(), u.domain().map(|d| d.to_string()), u.cannot_be_a_base()),
        ),
        Err(_) => None,
    }
}

/// Relies on `hyper::Uri`'s `FromStr` parse, `Uri::host` and the `Display`
/// of `Uri` and of its parse error: all are pure functions of the input.
#[verifier::external_body]
pub(crate) fn parse_uri_raw(s: &str) -> (r: Result<(Option<String>, String), String>)
    ensures
        r is Ok <==> uri_parse_of(s@) is Ok,
        r matches Ok(p) ==> {
            let q = uri_parse_of(s@)->Ok_0;
            &&& (p.0 is Some <==> q.0 is Some)
            &&& (p.0 matches Some(h) ==> q.0 == Some(h@))
            &&& p.1@ == q.1
        },
        r matches Err(e) ==> e@ == uri_parse_of(s@)->Err_0,
{
    match s.parse::<hyper::Uri>() {
        Ok(u) => Ok((u.host().map(|h| h.to_string()), u.to_string())),
        Err(e) => Err(e.to_string()),
    }
}

/// The canonical text of a URL the crawler has admitted or may admit,
/// together with the host read out of it. `checker::parse_url` builds one
/// from a raw candidate string.
pub struct CrawlUrl {
    pub text: String,
    pub host: Option<String>,
}

/// Mathematical image of a `CrawlUrl`.
#[verifier::ext_equal]
pub struct CrawlUrlView {
    pub text: Seq<char>,
    pub host: Option<Seq<char>>,
}

impl View for CrawlUrl {
    type V = CrawlUrlView;

    open spec fn view(&self) -> CrawlUrlView {
        CrawlUrlView {
            text: self.text@,
            host: match self.host {
                Some(h) => Some(h@),
                None => None,
            },
        }
    }
}

impl CrawlUrl {
    /// The URL's canonical text.
    pub fn as_str(&self) -> (r: &str)
        ensures
            r@ == self@.text,
    {
        self.text.as_str()
    }

    /// The URL's host, if the parse found one.
    pub fn host_str(&self) -> (r: Option<&str>)
        ensures
            (r is Some <==> self@.host is Some),
            r matches Some(h) ==> self@.host == Some(h@),
    {
        match &self.host {
            Some(h) => Some(h.as_str()),
            None => None,
        }
    }
}

} // verus!
