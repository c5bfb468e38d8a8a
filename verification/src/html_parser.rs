use vstd::prelude::*;
use vstd::string::*;

use crate::text::{ends_with_ci, lower_char, str_ends_with_ci, to_lower_char};
use crate::urls::{parse_web_url_raw, url_parse_of};

verus! {

/// States of the streaming tag tokenizer. The tokenizer is tolerant: markup
/// it cannot make sense of falls back to text or to a bogus section that
/// ends at the next `>`, and a tag left open at the end of the input is
/// dropped.
#[derive(Clone, Copy)]
pub enum TokState {
    /// Ordinary character data.
    InText,
    /// Just after `<`.
    InTagOpen,
    /// Inside a start tag's name.
    InTagName,
    /// Inside an end tag, comment, or other markup skipped up to `>`.
    InBogus,
    /// Between attributes of a start tag.
    BeforeAttrName,
    /// Inside an attribute name.
    InAttrName,
    /// After an attribute name, before `=` or the next attribute.
    AfterAttrName,
    /// After `=`, before the value.
    BeforeAttrValue,
    /// Inside a double-quoted attribute value.
    InValueDq,
    /// Inside a single-quoted attribute value.
    InValueSq,
    /// Inside an unquoted attribute value.
    InValueUnq,
}

/// Mathematical state of the tokenizer: the current parser state, whether
/// the open tag is an anchor (`a`), the spans (as index ranges into the
/// input) of the attribute name and value being read, the href values seen
/// in the open tag, and the href values emitted by finished anchor tags.
#[verifier::ext_equal]
pub struct TokView {
    pub state: TokState,
    pub anchor: bool,
    pub name_start: int,
    pub name_end: int,
    pub val_start: int,
    pub tag_hrefs: Seq<(int, int)>,
    pub out: Seq<(int, int)>,
}

/// HTML whitespace.
pub open spec fn is_space(c: char) -> bool {
    c == ' ' || c == '\t' || c == '\n' || c == '\r' || c == '\u{0c}'
}

/// A character that can open a tag name.
pub open spec fn is_tag_letter(c: char) -> bool {
    ('a' <= c && c <= 'z') || ('A' <= c && c <= 'Z')
}

/// The attribute name spanning `[ns, ne)` of `h` is `href`, compared
/// ASCII-case-insensitively.
pub open spec fn is_href_name(h: Seq<char>, ns: int, ne: int) -> bool {
    &&& 0 <= ns <= ne <= h.len()
    &&& h.subrange(ns, ne).map_values(|c: char| lower_char(c)) == "href"@
}

/// The tokenizer before any input.
pub open spec fn init_tok() -> TokView {
    TokView {
        state: TokState::InText,
        anchor: false,
        name_start: 0,
        name_end: 0,
        val_start: 0,
        tag_hrefs: Seq::empty(),
        out: Seq::empty(),
    }
}

/// Close the current attribute, whose value ends at `ve`: an attribute named
/// `href` contributes its value span to the open tag.
pub open spec fn record_attr(h: Seq<char>, m: TokView, ve: int) -> TokView {
    if is_href_name(h, m.name_start, m.name_end) {
        TokView { tag_hrefs: m.tag_hrefs.push((m.val_start, ve)), ..m }
    } else {
        m
    }
}

/// Close the current tag at `>`: an anchor tag emits its hrefs in order.
pub open spec fn finish_tag(m: TokView) -> TokView {
    if m.anchor {
        TokView { out: m.out + m.tag_hrefs, tag_hrefs: Seq::empty(), ..m }
    } else {
        TokView { tag_hrefs: Seq::empty(), ..m }
    }
}

/// One tokenizer step on character `c = h[i]`.
pub open spec fn spec_step(h: Seq<char>, m: TokView, i: int) -> TokView {
    let c = h[i];
    match m.state {
        TokState::InText => {
            if c == '<' {
                TokView { state: TokState::InTagOpen, ..m }
            } else {
                m
            }
        },
        TokState::InTagOpen => {
            if is_tag_letter(c) {
                TokView {
                    state: TokState::InTagName,
                    anchor: lower_char(c) == 'a',
                    tag_hrefs: Seq::empty(),
                    ..m
                }
            } else if c == '/' || c == '!' || c == '?' {
                TokView { state: TokState::InBogus, ..m }
            } else if c == '<' {
                m
            } else {
                TokView { state: TokState::InText, ..m }
            }
        },
        TokState::InTagName => {
            if is_space(c) || c == '/' {
                TokView { state: TokState::BeforeAttrName, ..m }
            } else if c == '>' {
                TokView { state: TokState::InText, ..finish_tag(m) }
            } else {
                TokView { anchor: false, ..m }
            }
        },
        TokState::InBogus => {
            if c == '>' {
                TokView { state: TokState::InText, ..m }
            } else {
                m
            }
        },
        TokState::BeforeAttrName => {
            if is_space(c) || c == '/' {
                m
            } else if c == '>' {
                TokView { state: TokState::InText, ..finish_tag(m) }
            } else {
                TokView { state: TokState::InAttrName, name_start: i, name_end: i + 1, ..m }
            }
        },
        TokState::InAttrName => {
            if is_space(c) || c == '/' {
                TokView { state: TokState::AfterAttrName, ..m }
            } else if c == '=' {
                TokView { state: TokState::BeforeAttrValue, ..m }
            } else if c == '>' {
                TokView {
                    state: TokState::InText,
                    ..finish_tag(record_attr(h, TokView { val_start: i, ..m }, i))
                }
            } else {
                TokView { name_end: i + 1, ..m }
            }
        },
        TokState::AfterAttrName => {
            if is_space(c) || c == '/' {
                m
            } else if c == '=' {
                TokView { state: TokState::BeforeAttrValue, ..m }
            } else if c == '>' {
                TokView {
                    state: TokState::InText,
                    ..finish_tag(record_attr(h, TokView { val_start: i, ..m }, i))
                }
            } else {
                TokView {
                    state: TokState::InAttrName,
                    name_start: i,
                    name_end: i + 1,
                    ..record_attr(h, TokView { val_start: i, ..m }, i)
                }
            }
        },
        TokState::BeforeAttrValue => {
            if is_space(c) {
                m
            } else if c == '"' {
                TokView { state: TokState::InValueDq, val_start: i + 1, ..m }
            } else if c == '\'' {
                TokView { state: TokState::InValueSq, val_start: i + 1, ..m }
            } else if c == '>' {
                TokView {
                    state: TokState::InText,
                    ..finish_tag(record_attr(h, TokView { val_start: i, ..m }, i))
                }
            } else {
                TokView { state: TokState::InValueUnq, val_start: i, ..m }
            }
        },
        TokState::InValueDq => {
            if c == '"' {
                TokView { state: TokState::BeforeAttrName, ..record_attr(h, m, i) }
            } else {
                m
            }
        },
        TokState::InValueSq => {
            if c == '\'' {
                TokView { state: TokState::BeforeAttrName, ..record_attr(h, m, i) }
            } else {
                m
            }
        },
        TokState::InValueUnq => {
            if is_space(c) {
                TokView { state: TokState::BeforeAttrName, ..record_attr(h, m, i) }
            } else if c == '>' {
                TokView { state: TokState::InText, ..finish_tag(record_attr(h, m, i)) }
            } else {
                m
            }
        },
    }
}

/// The tokenizer state after reading the first `n` characters of `h`.
pub open spec fn run_tok(h: Seq<char>, n: int) -> TokView
    decreases n,
{
    if n <= 0 {
        init_tok()
    } else {
        spec_step(h, run_tok(h, n - 1), n - 1)
    }
}

/// The href spans emitted for the whole input, resolved to the character
/// sequences they span.
pub open spec fn spec_hrefs(h: Seq<char>) -> Seq<Seq<char>> {
    run_tok(h, h.len() as int).out.map_values(|r: (int, int)| h.subrange(r.0, r.1))
}

/// Every span the tokenizer holds after `i` steps lies within the first `i`
/// characters.
pub open spec fn tok_inv(m: TokView, i: int) -> bool {
    &&& 0 <= m.name_start <= m.name_end <= i
    &&& 0 <= m.val_start <= i
    &&& forall|k: int|
        0 <= k < m.tag_hrefs.len() ==> 0 <= #[trigger] m.tag_hrefs[k].0 <= m.tag_hrefs[k].1 <= i
    &&& forall|k: int| 0 <= k < m.out.len() ==> 0 <= #[trigger] m.out[k].0 <= m.out[k].1 <= i
}

/// Index spans as they live in executable code.
pub open spec fn pairs_view(s: Seq<(usize, usize)>) -> Seq<(int, int)> {
    Seq::new(s.len(), |i: int| (s[i].0 as int, s[i].1 as int))
}

/// The streaming tokenizer over one HTML input.
pub struct Tokenizer {
    state: TokState,
    anchor: bool,
    name_start: usize,
    name_end: usize,
    val_start: usize,
    tag_hrefs: Vec<(usize, usize)>,
    out: Vec<(usize, usize)>,
}

impl View for Tokenizer {
    type V = TokView;

    closed spec fn view(&self) -> TokView {
        TokView {
            state: self.state,
            anchor: self.anchor,
            name_start: self.name_start as int,
            name_end: self.name_end as int,
            val_start: self.val_start as int,
            tag_hrefs: pairs_view(self.tag_hrefs@),
            out: pairs_view(self.out@),
        }
    }
}

impl Tokenizer {
    /// A tokenizer that has read nothing.
    pub fn new() -> (t: Tokenizer)
        ensures
            t@ == init_tok(),
    {
        let t = Tokenizer {
            state: TokState::InText,
            anchor: false,
            name_start: 0,
            name_end: 0,
            val_start: 0,
            tag_hrefs: Vec::new(),
            out: Vec::new(),
        };
        proof {
            assert(t@ =~= init_tok());
        }
        t
    }

    /// How many href spans were emitted.
    pub fn out_count(&self) -> (n: usize)
        ensures
            n == self@.out.len(),
    {
        self.out.len()
    }

    /// The span at one position of the emitted hrefs.
    pub fn out_at(&self, j: usize) -> (p: (usize, usize))
        requires
            j < self@.out.len(),
        ensures
            self@.out[j as int] == (p.0 as int, p.1 as int),
    {
        self.out[j]
    }

    /// Whether the attribute name just read is `href`.
    fn name_is_href(&self, s: &str) -> (r: bool)
        requires
            self.name_start <= self.name_end <= s@.len(),
        ensures
            r == is_href_name(s@, self@.name_start, self@.name_end),
    {
        proof {
            reveal_strlit("href");
        }
        let ghost sub = s@.subrange(self@.name_start, self@.name_end).map_values(
            |c: char| lower_char(c),
        );
        if self.name_end - self.name_start != 4 {
            proof {
                assert(sub.len() != 4);
            }
            return false;
        }
        let c0 = to_lower_char(s.get_char(self.name_start));
        let c1 = to_lower_char(s.get_char(self.name_start + 1));
        let c2 = to_lower_char(s.get_char(self.name_start + 2));
        let c3 = to_lower_char(s.get_char(self.name_start + 3));
        let r = c0 == 'h' && c1 == 'r' && c2 == 'e' && c3 == 'f';
        proof {
            assert(sub.len() == 4);
            assert(sub[0] == lower_char(s@[self@.name_start]));
            assert(sub[1] == lower_char(s@[self@.name_start + 1]));
            assert(sub[2] == lower_char(s@[self@.name_start + 2]));
            assert(sub[3] == lower_char(s@[self@.name_start + 3]));
            if r {
                assert(sub =~= "href"@);
            } else {
                assert(sub != "href"@);
            }
        }
        r
    }

    /// Close the current attribute, with its value ending at `ve`.
    fn record_attr_at(&mut self, s: &str, ve: usize)
        requires
            old(self).name_start <= old(self).name_end <= s@.len(),
            old(self).val_start <= ve,
        ensures
            final(self)@ == record_attr(s@, old(self)@, ve as int),
            final(self).name_start == old(self).name_start,
            final(self).name_end == old(self).name_end,
            final(self).val_start == old(self).val_start,
            final(self).state == old(self).state,
            final(self).anchor == old(self).anchor,
            final(self).out == old(self).out,
    {
        if self.name_is_href(s) {
            self.tag_hrefs.push((self.val_start, ve));
            proof {
                assert(self@.tag_hrefs =~= old(self)@.tag_hrefs.push(
                    (old(self)@.val_start, ve as int),
                ));
                assert(self@ =~= record_attr(s@, old(self)@, ve as int));
            }
        } else {
            proof {
                assert(self@ =~= record_attr(s@, old(self)@, ve as int));
            }
        }
    }

    /// Close the current tag: an anchor tag emits its hrefs.
    fn finish_tag_now(&mut self)
        ensures
            final(self)@ == finish_tag(old(self)@),
            final(self).name_start == old(self).name_start,
            final(self).name_end == old(self).name_end,
            final(self).val_start == old(self).val_start,
            final(self).state == old(self).state,
            final(self).anchor == old(self).anchor,
    {
        if self.anchor {
            self.out.append(&mut self.tag_hrefs);
            proof {
                assert(self@.out =~= old(self)@.out + old(self)@.tag_hrefs);
                assert(self@.tag_hrefs =~= Seq::<(int, int)>::empty());
                assert(self@ =~= finish_tag(old(self)@));
            }
        } else {
            self.tag_hrefs.clear();
            proof {
                assert(self@.tag_hrefs =~= Seq::<(int, int)>::empty());
                assert(self@ =~= finish_tag(old(self)@));
            }
        }
    }

    /// Feed one character `c = s[i]`.
    #[verifier::rlimit(100)]
    pub fn step(&mut self, s: &str, i: usize, c: char)
        requires
            i < s@.len(),
            s@.len() <= usize::MAX,
            c == s@[i as int],
            tok_inv(old(self)@, i as int),
        ensures
            final(self)@ == spec_step(s@, old(self)@, i as int),
            tok_inv(final(self)@, i as int + 1),
    {
        let space = c == ' ' || c == '\t' || c == '\n' || c == '\r' || c == '\u{0c}';
        proof {
            assert(space == is_space(c));
        }
        match self.state {
            TokState::InText => {
                if c == '<' {
                    self.state = TokState::InTagOpen;
                }
                proof {
                    assert(self@ =~= spec_step(s@, old(self)@, i as int));
                }
            },
            TokState::InTagOpen => {
                let letter = ('a' <= c && c <= 'z') || ('A' <= c && c <= 'Z');
                proof {
                    assert(letter == is_tag_letter(c));
                }
                if letter {
                    self.state = TokState::InTagName;
                    self.anchor = to_lower_char(c) == 'a';
                    self.tag_hrefs.clear();
                    proof {
                        assert(self@.tag_hrefs =~= Seq::<(int, int)>::empty());
                    }
                } else if c == '/' || c == '!' || c == '?' {
                    self.state = TokState::InBogus;
                } else if c == '<' {
                } else {
                    self.state = TokState::InText;
                }
                proof {
                    assert(self@ =~= spec_step(s@, old(self)@, i as int));
                }
            },
            TokState::InTagName => {
                if space || c == '/' {
                    self.state = TokState::BeforeAttrName;
                } else if c == '>' {
                    self.finish_tag_now();
                    self.state = TokState::InText;
                } else {
                    self.anchor = false;
                }
                proof {
                    assert(self@ =~= spec_step(s@, old(self)@, i as int));
                }
            },
            TokState::InBogus => {
                if c == '>' {
                    self.state = TokState::InText;
                }
                proof {
                    assert(self@ =~= spec_step(s@, old(self)@, i as int));
                }
            },
            TokState::BeforeAttrName => {
                if space || c == '/' {
                } else if c == '>' {
                    self.finish_tag_now();
                    self.state = TokState::InText;
                } else {
                    self.state = TokState::InAttrName;
                    self.name_start = i;
                    self.name_end = i + 1;
                }
                proof {
                    assert(self@ =~= spec_step(s@, old(self)@, i as int));
                }
            },
            TokState::InAttrName => {
                if space || c == '/' {
                    self.state = TokState::AfterAttrName;
                } else if c == '=' {
                    self.state = TokState::BeforeAttrValue;
                } else if c == '>' {
                    self.val_start = i;
                    self.record_attr_at(s, i);
                    self.finish_tag_now();
                    self.state = TokState::InText;
                } else {
                    self.name_end = i + 1;
                }
                proof {
                    assert(self@ =~= spec_step(s@, old(self)@, i as int));
                }
            },
            TokState::AfterAttrName => {
                if space || c == '/' {
                } else if c == '=' {
                    self.state = TokState::BeforeAttrValue;
                } else if c == '>' {
                    self.val_start = i;
                    self.record_attr_at(s, i);
                    self.finish_tag_now();
                    self.state = TokState::InText;
                } else {
                    self.val_start = i;
                    self.record_attr_at(s, i);
                    self.state = TokState::InAttrName;
                    self.name_start = i;
                    self.name_end = i + 1;
                }
                proof {
                    assert(self@ =~= spec_step(s@, old(self)@, i as int));
                }
            },
            TokState::BeforeAttrValue => {
                if space {
                } else if c == '"' {
                    self.state = TokState::InValueDq;
                    self.val_start = i + 1;
                } else if c == '\'' {
                    self.state = TokState::InValueSq;
                    self.val_start = i + 1;
                } else if c == '>' {
                    self.val_start = i;
                    self.record_attr_at(s, i);
                    self.finish_tag_now();
                    self.state = TokState::InText;
                } else {
                    self.state = TokState::InValueUnq;
                    self.val_start = i;
                }
                proof {
                    assert(self@ =~= spec_step(s@, old(self)@, i as int));
                }
            },
            TokState::InValueDq => {
                if c == '"' {
                    self.record_attr_at(s, i);
                    self.state = TokState::BeforeAttrName;
                }
                proof {
                    assert(self@ =~= spec_step(s@, old(self)@, i as int));
                }
            },
            TokState::InValueSq => {
                if c == '\'' {
                    self.record_attr_at(s, i);
                    self.state = TokState::BeforeAttrName;
                }
                proof {
                    assert(self@ =~= spec_step(s@, old(self)@, i as int));
                }
            },
            TokState::InValueUnq => {
                if space {
                    self.record_attr_at(s, i);
                    self.state = TokState::BeforeAttrName;
                } else if c == '>' {
                    self.record_attr_at(s, i);
                    self.finish_tag_now();
                    self.state = TokState::InText;
                }
                proof {
                    assert(self@ =~= spec_step(s@, old(self)@, i as int));
                }
            },
        }
    }
}


/// A candidate href beginning with `/` is resolved against the target
/// domain; anything else stands as written.
pub open spec fn resolve_spec(d: Seq<char>, href: Seq<char>) -> Seq<char> {
    if href.len() > 0 && href[0] == '/' {
        "https://"@ + d + href
    } else {
        href
    }
}

/// The URL parses, its scheme is exactly `https`, its host is exactly the
/// target domain, and it can serve as a base.
pub open spec fn same_domain_spec(u: Seq<char>, d: Seq<char>) -> bool {
    match url_parse_of(u) {
        Some(p) => p.0 == "https"@ && p.1 == Some(d) && !p.2,
        None => false,
    }
}

/// The URL ends, ASCII-case-insensitively, in a media or document
/// extension.
pub open spec fn is_media_spec(u: Seq<char>) -> bool {
    ||| ends_with_ci(u, ".jpg"@)
    ||| ends_with_ci(u, ".jpeg"@)
    ||| ends_with_ci(u, ".png"@)
    ||| ends_with_ci(u, ".gif"@)
    ||| ends_with_ci(u, ".bmp"@)
    ||| ends_with_ci(u, ".mp3"@)
    ||| ends_with_ci(u, ".mp4"@)
    ||| ends_with_ci(u, ".wav"@)
    ||| ends_with_ci(u, ".avi"@)
    ||| ends_with_ci(u, ".mov"@)
    ||| ends_with_ci(u, ".pdf"@)
    ||| ends_with_ci(u, ".doc"@)
    ||| ends_with_ci(u, ".docx"@)
    ||| ends_with_ci(u, ".ppt"@)
    ||| ends_with_ci(u, ".pptx"@)
    ||| ends_with_ci(u, ".xls"@)
    ||| ends_with_ci(u, ".xlsx"@)
    ||| ends_with_ci(u, ".txt"@)
}

/// A candidate href is accepted when its resolved form is a same-domain
/// `https` URL and does not point at a media or document file.
pub open spec fn accept_spec(d: Seq<char>, href: Seq<char>) -> bool {
    same_domain_spec(resolve_spec(d, href), d) && !is_media_spec(resolve_spec(d, href))
}

/// The URLs collected from the first `n` candidate hrefs: each accepted
/// href contributes its resolved form, in order.
pub open spec fn collected(d: Seq<char>, hrefs: Seq<Seq<char>>, n: int) -> Seq<Seq<char>>
    decreases n,
{
    if n <= 0 {
        Seq::empty()
    } else {
        let p = collected(d, hrefs, n - 1);
        if accept_spec(d, hrefs[n - 1]) {
            p.push(resolve_spec(d, hrefs[n - 1]))
        } else {
            p
        }
    }
}

/// Everything link extraction returns for a target domain and an HTML
/// input: the accepted candidates of the tokenizer's hrefs, resolved, in
/// document order.
pub open spec fn spec_extract(d: Seq<char>, h: Seq<char>) -> Seq<Seq<char>> {
    collected(d, spec_hrefs(h), spec_hrefs(h).len() as int)
}

/// Collects the URLs that pass the domain, scheme and file-extension
/// filters for one target domain.
pub struct Sink {
    target_domain: String,
    urls: Vec<String>,
}

impl Sink {
    /// The target domain the sink filters for.
    pub closed spec fn domain_view(self) -> Seq<char> {
        self.target_domain@
    }

    /// The URLs accepted so far, in the order they were seen.
    pub closed spec fn urls_view(self) -> Seq<Seq<char>> {
        self.urls.deep_view()
    }

    /// A sink for the given target domain, with no URLs yet.
    pub fn new(target_domain: &str) -> (s: Sink)
        ensures
            s.domain_view() == target_domain@,
            s.urls_view() == Seq::<Seq<char>>::empty(),
    {
        let s = Sink { target_domain: String::from_str(target_domain), urls: Vec::new() };
        proof {
            assert(s.urls_view() =~= Seq::<Seq<char>>::empty());
        }
        s
    }

    /// Helper to determine if the URL belongs to the target domain: it must
    /// parse, be `https`, and name exactly that domain as its host.
    pub fn is_same_domain(&self, url: &str) -> (r: bool)
        ensures
            r == same_domain_spec(url@, self.domain_view()),
    {
        match parse_web_url_raw(url) {
            Some(p) => {
                let https = String::from_str("https");
                let scheme_ok = p.0 == https;
                let domain_ok = match &p.1 {
                    Some(d) => *d == self.target_domain,
                    None => false,
                };
                scheme_ok && domain_ok && !p.2
            },
            None => false,
        }
    }

    /// Check if the URL is a media or document URL by its extension,
    /// ASCII-case-insensitively.
    pub fn is_media_or_document_url(url: &str) -> (r: bool)
        ensures
            r == is_media_spec(url@),
    {
        str_ends_with_ci(url, ".jpg") || str_ends_with_ci(url, ".jpeg") || str_ends_with_ci(
            url,
            ".png",
        ) || str_ends_with_ci(url, ".gif") || str_ends_with_ci(url, ".bmp") || str_ends_with_ci(
            url,
            ".mp3",
        ) || str_ends_with_ci(url, ".mp4") || str_ends_with_ci(url, ".wav") || str_ends_with_ci(
            url,
            ".avi",
        ) || str_ends_with_ci(url, ".mov") || str_ends_with_ci(url, ".pdf") || str_ends_with_ci(
            url,
            ".doc",
        ) || str_ends_with_ci(url, ".docx") || str_ends_with_ci(url, ".ppt") || str_ends_with_ci(
            url,
            ".pptx",
        ) || str_ends_with_ci(url, ".xls") || str_ends_with_ci(url, ".xlsx") || str_ends_with_ci(
            url,
            ".txt",
        )
    }

    /// Consider one candidate href: resolve it, and keep it exactly when
    /// the filters accept it.
    pub fn process_href(&mut self, href: &str)
        ensures
            final(self).domain_view() == old(self).domain_view(),
            final(self).urls_view() == if accept_spec(old(self).domain_view(), href@) {
                old(self).urls_view().push(resolve_spec(old(self).domain_view(), href@))
            } else {
                old(self).urls_view()
            },
    {
        let resolved: String;
        if href.unicode_len() > 0 && href.get_char(0) == '/' {
            let mut r = String::from_str("https://");
            r.append(self.target_domain.as_str());
            r.append(href);
            resolved = r;
        } else {
            resolved = String::from_str(href);
        }
        proof {
            assert(resolved@ == resolve_spec(self.domain_view(), href@));
        }
        let same = self.is_same_domain(resolved.as_str());
        let media = Sink::is_media_or_document_url(resolved.as_str());
        if same && !media {
            let ghost u0 = self.urls_view();
            self.urls.push(resolved);
            proof {
                assert(self.urls_view() =~= u0.push(resolve_spec(self.domain_view(), href@)));
            }
        }
    }

    /// The accepted URLs, surrendered in order.
    fn into_urls(self) -> (r: Vec<String>)
        ensures
            r.deep_view() == self.urls_view(),
    {
        self.urls
    }
}

/// Parse HTML tolerantly and collect the links to follow: every href of an
/// anchor start tag, in document order, resolved against the target domain
/// and kept exactly when the domain, scheme and extension filters accept
/// it. Extraction has no failure path: any input yields the one sequence
/// `spec_extract` describes.
pub fn get_urls(target_domain: &str, html_content: &str) -> (r: Result<Vec<String>, String>)
    ensures
        r is Ok,
        r matches Ok(urls) ==> urls.deep_view() == spec_extract(target_domain@, html_content@),
{
    let h_len = html_content.unicode_len();
    let ghost h = html_content@;
    let mut tok = Tokenizer::new();
    let mut i: usize = 0;
    proof {
        assert(run_tok(h, 0) == init_tok());
        assert(tok_inv(tok@, 0));
    }
    while i < h_len
        invariant
            h == html_content@,
            h_len == h.len(),
            0 <= i <= h_len,
            tok@ == run_tok(h, i as int),
            tok_inv(tok@, i as int),
        decreases h_len - i,
    {
        let c = html_content.get_char(i);
        tok.step(html_content, i, c);
        proof {
            assert(run_tok(h, i as int + 1) == spec_step(h, run_tok(h, i as int), i as int));
        }
        i += 1;
    }
    let ghost hrefs = spec_hrefs(h);
    proof {
        assert(hrefs.len() == tok@.out.len());
    }
    let mut sink = Sink::new(target_domain);
    let n = tok.out_count();
    let mut j: usize = 0;
    while j < n
        invariant
            h == html_content@,
            h_len == h.len(),
            tok@ == run_tok(h, h.len() as int),
            tok_inv(tok@, h.len() as int),
            n == tok@.out.len(),
            hrefs == spec_hrefs(h),
            hrefs.len() == n,
            0 <= j <= n,
            sink.domain_view() == target_domain@,
            sink.urls_view() == collected(target_domain@, hrefs, j as int),
        decreases n - j,
    {
        let (a, b) = tok.out_at(j);
        proof {
            assert(tok@.out[j as int] == (a as int, b as int));
            assert(h.subrange(a as int, b as int) == hrefs[j as int]);
        }
        let href = html_content.substring_char(a, b);
        sink.process_href(href);
        proof {
            assert(sink.urls_view() == collected(target_domain@, hrefs, j as int + 1));
        }
        j += 1;
    }
    Ok(sink.into_urls())
}

/// LAW: link extraction is a pure function. Two results of extraction on
/// the same target domain and the same HTML are the same sequence, in the
/// same order.
pub proof fn lemma_extraction_deterministic(
    d: Seq<char>,
    h: Seq<char>,
    r1: Seq<Seq<char>>,
    r2: Seq<Seq<char>>,
)
    requires
        r1 == spec_extract(d, h),
        r2 == spec_extract(d, h),
    ensures
        r1 == r2,
{
}

/// LAW: an accepted candidate is included. If the filters accept the
/// candidate at one position of the href list, its resolved form appears in
/// what is collected from that list.
pub proof fn lemma_accepted_is_included(d: Seq<char>, hrefs: Seq<Seq<char>>, n: int, j: int)
    requires
        0 <= j < n <= hrefs.len(),
        accept_spec(d, hrefs[j]),
    ensures
        collected(d, hrefs, n).contains(resolve_spec(d, hrefs[j])),
    decreases n,
{
    let p = collected(d, hrefs, n - 1);
    if j == n - 1 {
        assert(collected(d, hrefs, n) == p.push(resolve_spec(d, hrefs[j])));
        assert(collected(d, hrefs, n)[p.len() as int] == resolve_spec(d, hrefs[j]));
    } else {
        lemma_accepted_is_included(d, hrefs, n - 1, j);
        let i = choose|i: int| 0 <= i < p.len() && p[i] == resolve_spec(d, hrefs[j]);
        assert(collected(d, hrefs, n)[i] == resolve_spec(d, hrefs[j]));
    }
}

/// LAW: nothing else is included. Every collected URL is the resolved form
/// of some accepted candidate of the href list.
pub proof fn lemma_included_was_accepted(d: Seq<char>, hrefs: Seq<Seq<char>>, n: int, x: Seq<char>)
    requires
        collected(d, hrefs, n).contains(x),
    ensures
        exists|j: int| 0 <= j < n && accept_spec(d, #[trigger] hrefs[j]) && x == resolve_spec(
            d,
            hrefs[j],
        ),
    decreases n,
{
    if n <= 0 {
        assert(false);
    } else {
        let p = collected(d, hrefs, n - 1);
        if accept_spec(d, hrefs[n - 1]) {
            let cur = collected(d, hrefs, n);
            let i = choose|i: int| 0 <= i < cur.len() && cur[i] == x;
            if i < p.len() {
                assert(p[i] == x);
                assert(p.contains(x));
                lemma_included_was_accepted(d, hrefs, n - 1, x);
            } else {
                assert(x == resolve_spec(d, hrefs[n - 1]));
                assert(accept_spec(d, hrefs[n - 1]));
            }
        } else {
            lemma_included_was_accepted(d, hrefs, n - 1, x);
        }
    }
}

/// LAW: a candidate whose resolved form ends in a media or document
/// extension is never accepted, whatever its domain or scheme.
pub proof fn lemma_media_never_accepted(d: Seq<char>, href: Seq<char>)
    requires
        is_media_spec(resolve_spec(d, href)),
    ensures
        !accept_spec(d, href),
{
}

/// LAW: a candidate whose resolved form parses with a scheme other than
/// `https`, or with a host other than the target domain, is never accepted;
/// one whose resolved form does not parse at all is never accepted.
pub proof fn lemma_foreign_never_accepted(d: Seq<char>, href: Seq<char>)
    ensures
        url_parse_of(resolve_spec(d, href)) is None ==> !accept_spec(d, href),
        url_parse_of(resolve_spec(d, href)) matches Some(p) && p.0 != "https"@ ==> !accept_spec(
            d,
            href,
        ),
        url_parse_of(resolve_spec(d, href)) matches Some(p) && p.1 != Some(d) ==> !accept_spec(
            d,
            href,
        ),
{
}

/// LAW: a same-domain `https` candidate that is no media or document link
/// is accepted, under its resolved form.
pub proof fn lemma_good_link_accepted(d: Seq<char>, href: Seq<char>)
    requires
        same_domain_spec(resolve_spec(d, href), d),
        !is_media_spec(resolve_spec(d, href)),
    ensures
        accept_spec(d, href),
{
}

/// LAW: a root-relative candidate resolves to `https://` + domain + path,
/// and any other candidate stands unchanged.
pub proof fn lemma_resolution(d: Seq<char>, href: Seq<char>)
    ensures
        href.len() > 0 && href[0] == '/' ==> resolve_spec(d, href) == "https://"@ + d + href,
        !(href.len() > 0 && href[0] == '/') ==> resolve_spec(d, href) == href,
{
}

} // verus!
