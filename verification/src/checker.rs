use vstd::prelude::*;
use vstd::string::*;

use crate::text::{contains_seq, str_contains_str};
use crate::urls::{parse_uri_raw, parse_web_url_raw, uri_parse_of, url_parse_of, CrawlUrl};

verus! {

/// A URL string the crawler accepts as a seed or discovered link: it parses
/// as a web URL and carries an explicit `https://` part.
pub open spec fn valid_url_spec(s: Seq<char>) -> bool {
    url_parse_of(s) is Some && contains_seq(s, "https://"@)
}

/// The inputs on which `parse_url` succeeds.
pub open spec fn parse_ok_spec(s: Seq<char>) -> bool {
    valid_url_spec(s) && uri_parse_of(s) is Ok
}

/// Canonical text of a successfully parsed URL.
pub open spec fn parsed_text_spec(s: Seq<char>) -> Seq<char> {
    uri_parse_of(s)->Ok_0.1
}

/// Host of a successfully parsed URL, if it has one.
pub open spec fn parsed_host_spec(s: Seq<char>) -> Option<Seq<char>> {
    uri_parse_of(s)->Ok_0.0
}

/// The message `parse_url` returns on the inputs it rejects.
pub open spec fn parse_err_spec(s: Seq<char>) -> Seq<char> {
    if !valid_url_spec(s) {
        "The Given Uri is not valid: "@ + s
    } else {
        "Failed to parse URL to Uri: "@ + s + ", "@ + uri_parse_of(s)->Err_0
    }
}

/// Check if the URL is acceptable: it must parse and name `https://`.
fn is_valid_url(url: &str) -> (r: bool)
    ensures
        r == valid_url_spec(url@),
{
    let parsed = parse_web_url_raw(url);
    parsed.is_some() && str_contains_str(url, "https://")
}

/// Parse a URL string, yielding its canonical form, or say exactly why not.
pub fn parse_url(url_str: &str) -> (r: Result<CrawlUrl, String>)
    ensures
        r is Ok <==> parse_ok_spec(url_str@),
        r matches Ok(u) ==> u@.text == parsed_text_spec(url_str@) && u@.host == parsed_host_spec(
            url_str@,
        ),
        r matches Err(m) ==> m@ == parse_err_spec(url_str@),
{
    if !is_valid_url(url_str) {
        let mut msg = String::from_str("The Given Uri is not valid: ");
        msg.append(url_str);
        return Err(msg);
    }
    match parse_uri_raw(url_str) {
        Ok(p) => Ok(CrawlUrl { host: p.0, text: p.1 }),
        Err(e) => {
            let mut msg = String::from_str("Failed to parse URL to Uri: ");
            msg.append(url_str);
            msg.append(", ");
            msg.append(e.as_str());
            Err(msg)
        },
    }
}

/// Everything `extract_domain_from_args` promises of its result, given the
/// argument list it read: which errors come on which inputs, and that on
/// success the host and the canonical URL come from the second argument.
pub open spec fn extract_domain_post(
    args: Seq<Seq<char>>,
    r: Result<(String, CrawlUrl), String>,
) -> bool {
    if args.len() <= 1 {
        r matches Err(m) && m@ == "Please Provide 'One' Web Domain URL in the Terminal."@
    } else {
        let s = args[1];
        if !parse_ok_spec(s) {
            r matches Err(m) && m@ == "Invalid URL: "@ + parse_err_spec(s)
        } else if parsed_host_spec(s) is None {
            r matches Err(m) && m@ == "Invalid URL: No host found in URL."@
        } else {
            r matches Ok(p) && p.0@ == parsed_host_spec(s)->Some_0 && p.1@.text
                == parsed_text_spec(s) && p.1@.host == parsed_host_spec(s)
        }
    }
}

/// Extract the target host and seed URL from an argument list.
pub fn extract_domain_from_arg_list(args: &Vec<String>) -> (r: Result<(String, CrawlUrl), String>)
    ensures
        extract_domain_post(args.deep_view(), r),
{
    if args.len() <= 1 {
        return Err(String::from_str("Please Provide 'One' Web Domain URL in the Terminal."));
    }
    let binding = parse_url(args[1].as_str());
    let domain_url = match binding {
        Ok(u) => u,
        Err(e) => {
            let mut msg = String::from_str("Invalid URL: ");
            msg.append(e.as_str());
            return Err(msg);
        },
    };
    let host = match &domain_url.host {
        Some(h) => h.clone(),
        None => {
            return Err(String::from_str("Invalid URL: No host found in URL."));
        },
    };
    Ok((host, domain_url))
}

/// Where the argument list comes from: the process environment in the
/// program around this library, a fixed list in tests.
pub trait ArgsProvider {
    fn args(&self) -> Vec<String>;
}

/// A provider over a fixed argument list, for tests.
pub struct MockArgsProvider {
    mock_args: Vec<String>,
}

impl View for MockArgsProvider {
    type V = Seq<Seq<char>>;

    closed spec fn view(&self) -> Seq<Seq<char>> {
        self.mock_args.deep_view()
    }
}

impl MockArgsProvider {
    pub fn new(mock_args: Vec<String>) -> (r: Self)
        ensures
            r@ == mock_args.deep_view(),
    {
        MockArgsProvider { mock_args }
    }
}

impl ArgsProvider for MockArgsProvider {
    fn args(&self) -> Vec<String> {
        self.mock_args.clone()
    }
}

/// Extract the target host and seed URL from the provider's arguments.
/// Whatever argument list the provider hands back, the result relates to it
/// as `extract_domain_post` says.
pub fn extract_domain_from_args<T: ArgsProvider>(args_provider: &T) -> (r: Result<
    (String, CrawlUrl),
    String,
>)
    ensures
        exists|args: Seq<Seq<char>>| extract_domain_post(args, r),
{
    let args = args_provider.args();
    let r = extract_domain_from_arg_list(&args);
    proof {
        assert(extract_domain_post(args.deep_view(), r));
    }
    r
}

} // verus!
