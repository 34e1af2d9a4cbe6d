//! A mark, and the link it opens.
//!
//! A mark is exactly what the server's `/api/marks` returns for it. Whether it opens in a browser
//! is a question about its content: a link written out with a web scheme does, a bare host such as
//! `github.com` does as `https://…`, and anything else — `buy milk`, `mailto:` — is a note.
use vstd::prelude::*;
use crate::text;

verus! {

/// One saved mark, exactly the fields `/api/marks` returns.
///
/// The favicon bytes are not part of it: those come from `/api/marks/<id>/icon`, which is why
/// only `icon_id` is here.
#[derive(Clone, Debug)]
pub struct Mark {
    pub id: String,
    /// Doubles as the bookmark's title.
    pub name: String,
    /// The URL the mark points at. The server derives the favicon from its hostname.
    pub content: String,
    /// Set when the server stored a favicon for this mark.
    pub icon_id: Option<String>,
}

/// A parsed URL, as the parts of it this client reads: its scheme, its host, its port when that
/// is not the scheme's own, and the whole of it as the parser writes it back out.
#[derive(Clone, Debug)]
pub struct Link {
    pub scheme: String,
    pub host: Option<String>,
    pub port: Option<u16>,
    pub address: String,
}

/// A parsed URL's parts, as values.
pub type UrlParts = (Seq<char>, Option<Seq<char>>, Option<u16>, Seq<char>);

impl Link {
    /// The parts of this URL, as values.
    pub open spec fn parts(&self) -> UrlParts {
        (
            self.scheme@,
            match self.host {
                Some(h) => Some(h@),
                None => None,
            },
            self.port,
            self.address@,
        )
    }
}

/// What the `url` crate makes of `text`: the parts of the URL it parses it as, or nothing when
/// it is not one.
pub uninterp spec fn url_parse(text: Seq<char>) -> Option<UrlParts>;

/// Parses `text` with `url::Url::parse`, and reads back the scheme (`Url::scheme`), the host
/// (`Url::host_str`), the port (`Url::port`) and the serialization (`Url::as_str`).
///
/// Trusted to answer what `url_parse` names for `text`; nothing more is claimed of what the
/// parser accepts or how it normalises.
#[verifier::external_body]
pub(crate) fn parse_url(text: &str) -> (r: Option<Link>)
    ensures
        r matches Some(l) ==> url_parse(text@) == Some(l.parts()),
        r is None ==> url_parse(text@) is None,
{
    match url::Url::parse(text) {
        Ok(url) => Some(
            Link {
                scheme: url.scheme().to_owned(),
                host: match url.host_str() {
                    Some(host) => Some(host.to_owned()),
                    None => None,
                },
                port: url.port(),
                address: url.as_str().to_owned(),
            },
        ),
        Err(_) => None,
    }
}

/// `http`.
pub open spec fn http() -> Seq<char> {
    seq!['h', 't', 't', 'p']
}

/// `https`.
pub open spec fn https() -> Seq<char> {
    seq!['h', 't', 't', 'p', 's']
}

/// Whether a parsed URL is one a browser opens as a web page: an `http` or `https` scheme, and
/// a host to ask.
pub open spec fn is_web_url(p: UrlParts) -> bool {
    (p.0 == http() || p.0 == https()) && p.1 is Some
}

/// Where the leading run of `t` before any `/`, `:`, `?` or `#` ends.
pub open spec fn host_end(t: Seq<char>, i: int) -> int
    decreases t.len() - i,
{
    if 0 <= i < t.len() && !(t[i] == '/' || t[i] == ':' || t[i] == '?' || t[i] == '#') {
        host_end(t, i + 1)
    } else {
        i
    }
}

/// Whether `t` begins with something that reads as a host rather than as a scheme: the leading
/// run before any `/`, `:`, `?` or `#` carries a dot or is `localhost`.
pub open spec fn reads_as_host(t: Seq<char>) -> bool {
    let host = t.take(host_end(t, 0));
    host.contains('.') || host == seq!['l', 'o', 'c', 'a', 'l', 'h', 'o', 's', 't']
}

/// The link `content` opens, as the parts of its URL.
///
/// A scheme that was written out is taken at its word; otherwise a bare host is read as
/// `https://…`, the way an address bar reads it, but only when it really is a host.
pub open spec fn web_link_of(content: Seq<char>) -> Option<UrlParts> {
    let t = text::trim(content);
    if t.len() == 0 {
        None
    } else if url_parse(t) is Some && is_web_url(url_parse(t)->0) {
        url_parse(t)
    } else if !reads_as_host(t) {
        None
    } else {
        let candidate = url_parse(seq!['h', 't', 't', 'p', 's', ':', '/', '/'] + t);
        if candidate is Some && is_web_url(candidate->0) {
            candidate
        } else {
            None
        }
    }
}

/// Whether a parsed link is one a browser can open.
fn is_web(link: &Link) -> (r: bool)
    ensures
        r == is_web_url(link.parts()),
{
    (text::is_word(&link.scheme, &['h', 't', 't', 'p']) || text::is_word(
        &link.scheme,
        &['h', 't', 't', 'p', 's'],
    )) && link.host.is_some()
}

/// Whether `text` begins with something that reads as a host rather than as a scheme.
///
/// The leading run before any `/`, `:`, `?` or `#` is what a host would be, and it has to carry a
/// dot or be `localhost`: that is what separates `example.com:8080` from
/// `mailto:someone@example.com`.
pub fn looks_like_host(text: &str) -> (r: bool)
    ensures
        r == reads_as_host(text@),
{
    let chars = text::chars_of(text);
    let mut end: usize = 0;
    while end < chars.len() && !(chars[end] == '/' || chars[end] == ':' || chars[end] == '?'
        || chars[end] == '#')
        invariant
            end <= chars.len(),
            chars@ == text@,
            host_end(text@, 0) == host_end(text@, end as int),
        decreases chars.len() - end,
    {
        end += 1;
    }
    let host = &chars[0..end];
    assert(host@ =~= text@.take(host_end(text@, 0)));
    let mut dot = false;
    let mut i: usize = 0;
    while i < host.len()
        invariant
            i <= host.len(),
            dot == host@.take(i as int).contains('.'),
        decreases host.len() - i,
    {
        if host[i] == '.' {
            dot = true;
        }
        proof {
            let before = host@.take(i as int);
            let after = host@.take(i + 1);
            assert(after =~= before.push(host@[i as int]));
            if before.contains('.') {
                let k = choose|k: int| 0 <= k < before.len() && before[k] == '.';
                assert(after[k] == '.');
            }
            if host@[i as int] == '.' {
                assert(after[i as int] == '.');
            }
            if !before.contains('.') && host@[i as int] != '.' {
                assert forall|k: int| 0 <= k < after.len() implies after[k] != '.' by {
                    if k < i {
                        assert(after[k] == before[k]);
                    }
                }
            }
        }
        i += 1;
    }
    assert(host@.take(i as int) =~= host@);
    let localhost = ['l', 'o', 'c', 'a', 'l', 'h', 'o', 's', 't'];
    assert(localhost@ =~= seq!['l', 'o', 'c', 'a', 'l', 'h', 'o', 's', 't']);
    dot || same(host, &localhost)
}

/// Whether `a` and `b` hold the same characters.
fn same(a: &[char], b: &[char]) -> (r: bool)
    ensures
        r == (a@ == b@),
{
    if a.len() != b.len() {
        return false;
    }
    let mut k: usize = 0;
    while k < a.len()
        invariant
            a.len() == b.len(),
            k <= a.len(),
            forall|m: int| 0 <= m < k ==> a@[m] == b@[m],
        decreases a.len() - k,
    {
        if a[k] != b[k] {
            return false;
        }
        k += 1;
    }
    assert(a@ =~= b@);
    true
}

/// Parses `content` as a link a browser could open.
///
/// A bare host such as `github.com`, `localhost:5173` or `example.com:8080/path` is read as
/// `https://…`, the way an address bar reads it, but only when it really is a host: a plain
/// note like `milk` or `buy milk` must not quietly become a URL. A scheme that was written out is
/// taken at its word, which leaves `file:`, `javascript:` and `mailto:` as notes rather than
/// handing them to the browser.
pub fn web_link(content: &str) -> (r: Option<Link>)
    ensures
        r matches Some(l) ==> web_link_of(content@) == Some(l.parts()),
        r is None ==> web_link_of(content@) is None,
{
    let trimmed = text::trim_str(content);
    if trimmed.as_str().is_empty() {
        return None;
    }
    if let Some(url) = parse_url(trimmed.as_str()) {
        if is_web(&url) {
            return Some(url);
        }
    }
    if !looks_like_host(trimmed.as_str()) {
        return None;
    }
    let scheme = text::string_of(&['h', 't', 't', 'p', 's', ':', '/', '/']);
    let address = text::concat(scheme.as_str(), trimmed.as_str());
    match parse_url(address.as_str()) {
        Some(candidate) => {
            if is_web(&candidate) {
                Some(candidate)
            } else {
                None
            }
        },
        None => None,
    }
}

impl Mark {
    /// The link this mark opens, or `None` when it is a plain note.
    pub fn link(&self) -> (r: Option<Link>)
        ensures
            r matches Some(l) ==> web_link_of(self.content@) == Some(l.parts()),
            r is None ==> web_link_of(self.content@) is None,
    {
        web_link(self.content.as_str())
    }
}

} // verus!
