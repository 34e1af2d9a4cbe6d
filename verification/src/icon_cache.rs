//! Where the favicons are kept between runs.
//!
//! Under the cache directory, in a directory of this client's own and one per server beneath
//! it: an icon id means only what the server that issued it says, so two servers' favicons are
//! never kept side by side. What is kept there is a copy of something the server still has.
use std::path::PathBuf;
use vstd::prelude::*;
use crate::mark;
use crate::text;

verus! {

/// The directory this client's cache lives under, inside the cache directory.
pub open spec fn app_dir() -> Seq<char> {
    seq!['m', 'a', 'r', 'k', 's', '-', 'c', 'l', 'i', 'e', 'n', 't']
}

/// The path `dir` with `name` added to its end (`Path::join`).
pub uninterp spec fn joined_path(dir: PathBuf, name: Seq<char>) -> PathBuf;

/// `dir` with `name` added to its end (`std::path::Path::join`), as the name `joined_path`
/// says; nothing more is claimed of what the path then holds.
#[verifier::external_body]
fn join(dir: &PathBuf, name: &str) -> (r: PathBuf)
    ensures
        r == joined_path(*dir, name@),
{
    dir.join(name)
}

/// The favicons this machine has already been given, kept for one server.
pub struct IconFiles {
    /// The directory they are kept in: `<cache>/marks-client/<server>`.
    dir: PathBuf,
}

/// Whether `c` may stand in a directory name as it is.
pub open spec fn is_name_char(c: char) -> bool {
    text::is_ascii_alnum(c) || c == '.' || c == '-' || c == '_'
}

/// `s` with every character that may not stand in a directory name made an underscore.
pub open spec fn sanitized(s: Seq<char>) -> Seq<char> {
    s.map_values(|c: char| if is_name_char(c) { c } else { '_' })
}

/// What names the server at `base_url` before it is made a directory name: its scheme, its host
/// and its port when the URL names one, or the address itself when it is no URL with a host.
pub open spec fn server_label(base_url: Seq<char>) -> Seq<char> {
    match mark::url_parse(base_url) {
        Some(p) => match p.1 {
            Some(host) => match p.2 {
                Some(port) => p.0 + seq!['_'] + host + seq!['_'] + text::decimal(port as nat),
                None => p.0 + seq!['_'] + host,
            },
            None => base_url,
        },
        None => base_url,
    }
}

/// Whatever the address, the name made of it is one that can stand as a directory name: letters,
/// digits, `.`, `-` and `_`, and so never a path separator.
pub proof fn lemma_server_name_is_plain(base_url: Seq<char>)
    ensures
        forall|i: int|
            0 <= i < sanitized(server_label(base_url)).len() ==> is_name_char(
                #[trigger] sanitized(server_label(base_url))[i],
            ),
{
}

/// A directory name for the server at `base_url`.
///
/// The port and the scheme are part of it because `localhost:5173` and a site at `localhost` are
/// not the same server, and neither are `http://` and `https://` of one host.
pub fn server_name(base_url: &str) -> (r: String)
    ensures
        r@ == sanitized(server_label(base_url@)),
{
    let named = match mark::parse_url(base_url) {
        Some(url) => match url.host {
            Some(host) => {
                let mut named = text::concat(url.scheme.as_str(), "_");
                named = text::concat(named.as_str(), host.as_str());
                proof {
                    reveal_strlit("_");
                }
                match url.port {
                    Some(port) => {
                        named = text::concat(named.as_str(), "_");
                        text::push_decimal(&mut named, port as u64);
                        named
                    },
                    None => named,
                }
            },
            None => base_url.to_owned(),
        },
        None => base_url.to_owned(),
    };
    let chars = text::chars_of(named.as_str());
    let mut out: Vec<char> = Vec::new();
    let mut i: usize = 0;
    while i < chars.len()
        invariant
            i <= chars.len(),
            out@ == sanitized(chars@.take(i as int)),
        decreases chars.len() - i,
    {
        let c = chars[i];
        if text::ascii_alnum(c) || c == '.' || c == '-' || c == '_' {
            out.push(c);
        } else {
            out.push('_');
        }
        i += 1;
        assert(out@ =~= sanitized(chars@.take(i as int)));
    }
    assert(chars@.take(i as int) =~= chars@);
    text::string_of(&out)
}

impl IconFiles {
    /// The directory the favicons are kept in.
    pub closed spec fn location(&self) -> PathBuf {
        self.dir
    }

    /// The cache belonging to `base_url`, under the machine's cache directory `cache_dir`, or
    /// `None` when this system has none to keep one in: a window without a cache is a slower
    /// window, not a broken one.
    pub fn for_server(cache_dir: Option<PathBuf>, base_url: &str) -> (r: Option<IconFiles>)
        ensures
            match (cache_dir, r) {
                (Some(cache), Some(files)) => files.location() == joined_path(
                    joined_path(cache, app_dir()),
                    sanitized(server_label(base_url@)),
                ),
                (None, None) => true,
                _ => false,
            },
    {
        match cache_dir {
            Some(cache) => {
                let app = text::string_of(
                    &['m', 'a', 'r', 'k', 's', '-', 'c', 'l', 'i', 'e', 'n', 't'],
                );
                let mine = join(&cache, app.as_str());
                let server = server_name(base_url);
                Some(IconFiles { dir: join(&mine, server.as_str()) })
            },
            None => None,
        }
    }

    /// A cache kept in `dir`.
    pub fn in_dir(dir: PathBuf) -> (r: Self)
        ensures
            r.location() == dir,
    {
        IconFiles { dir }
    }

    /// The directory the favicons are kept in.
    pub fn dir(&self) -> (r: &PathBuf)
        ensures
            *r == self.location(),
    {
        &self.dir
    }
}

} // verus!
