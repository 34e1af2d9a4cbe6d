//! Talking to a marks server: what the client sends and what it makes of the answers.
//!
//! One client per server, holding the session token that makes its requests the signed-in
//! user's. The requests themselves are sent by the program; here is what they are addressed to,
//! the cookie they carry, and how a status and the server's own wording become the error the
//! window shows. The server writes its failures as `{"error": "..."}`, and that wording is passed
//! through rather than replaced; a 401 is the exception, read as [`ApiError::Unauthorized`] so
//! that the window can put the sign-in dialog back up.
use vstd::prelude::*;
use crate::text;

verus! {

/// Why a request failed, reduced to what the window does about it.
#[derive(Debug)]
pub enum ApiError {
    /// The server answered 401: the session cookie is missing, unknown, or expired.
    Unauthorized,
    /// Anything else, phrased for the status line.
    Message(String),
}

impl ApiError {
    /// What the error says on the status line.
    pub fn message(&self) -> (r: String)
        ensures
            match self {
                ApiError::Unauthorized => r@ == "Not signed in"@,
                ApiError::Message(m) => r@ == m@,
            },
    {
        match self {
            // Reached when a 401 arrives somewhere that does not hand it to the sign-in dialog;
            // the wording matches the server's own.
            ApiError::Unauthorized => "Not signed in".to_owned(),
            ApiError::Message(message) => message.as_str().to_owned(),
        }
    }
}

/// A client for one marks server: its address, and the session token once there is one.
pub struct Api {
    base: String,
    /// The value of the session cookie the server set, without the name or the attributes it
    /// travels with.
    token: Option<String>,
}

/// The name the server gives its session cookie.
pub open spec fn cookie_name() -> Seq<char> {
    seq!['t', 'o', 'k', 'e', 'n']
}

/// The token a `set-cookie` header carries: the value of a leading `token=<value>` pair, trimmed,
/// when it has one that is not empty. The attributes after the first `;` describe browser
/// behaviour a native client has none of.
pub open spec fn token_in(header: Seq<char>) -> Option<Seq<char>> {
    let pair = text::trim(header.take(semicolon_at(header, 0)));
    let prefix = cookie_name().push('=');
    if pair.len() >= prefix.len() && pair.take(prefix.len() as int) == prefix {
        let value = text::trim(pair.skip(prefix.len() as int));
        if value.len() > 0 {
            Some(value)
        } else {
            None
        }
    } else {
        None
    }
}

/// The index of the first `;` in `header` at or after `i`, or its end.
pub open spec fn semicolon_at(header: Seq<char>, i: int) -> int
    decreases header.len() - i,
{
    if 0 <= i < header.len() && header[i] != ';' {
        semicolon_at(header, i + 1)
    } else {
        i
    }
}

/// A header with no `;` in it from `i` on is one pair, running to its end.
proof fn lemma_no_semicolon(header: Seq<char>, i: int)
    requires
        0 <= i <= header.len(),
        forall|j: int| i <= j < header.len() ==> header[j] != ';',
    ensures
        semicolon_at(header, i) == header.len(),
    decreases header.len() - i,
{
    if i < header.len() {
        lemma_no_semicolon(header, i + 1);
    }
}

/// What a request carries is what a sign-in is read from: the session cookie this client sends
/// for a token gives that token back, for any token the server could have set (one with no `;`
/// in it, which would end the pair, and no whitespace at its ends, which is trimmed away).
pub proof fn lemma_cookie_round_trip(token: Seq<char>)
    requires
        token.len() > 0,
        !text::is_ws(token[0]),
        !text::is_ws(token.last()),
        forall|j: int| 0 <= j < token.len() ==> token[j] != ';',
    ensures
        token_in(cookie_name().push('=') + token) == Some(token),
{
    let prefix = cookie_name().push('=');
    let header = prefix + token;
    assert forall|j: int| 0 <= j < header.len() implies header[j] != ';' by {
        if j >= prefix.len() {
            assert(header[j] == token[j - prefix.len()]);
        }
    }
    lemma_no_semicolon(header, 0);
    assert(header.take(header.len() as int) =~= header);
    crate::config::lemma_trim_plain(header);
    assert(header.take(prefix.len() as int) =~= prefix);
    assert(header.skip(prefix.len() as int) =~= token);
    crate::config::lemma_trim_plain(token);
}

/// The session token a `set-cookie` header carries, if it carries one.
pub fn session_token(header: Option<&str>) -> (r: Option<String>)
    ensures
        header is None ==> r is None,
        header matches Some(h) ==> token_in(h@) == (match r {
            Some(t) => Some(t@),
            None => None::<Seq<char>>,
        }),
{
    let given = match header {
        Some(given) => given,
        None => return None,
    };
    let chars = text::chars_of(given);
    let mut end: usize = 0;
    while end < chars.len() && chars[end] != ';'
        invariant
            end <= chars.len(),
            chars@ == given@,
            semicolon_at(given@, 0) == semicolon_at(given@, end as int),
        decreases chars.len() - end,
    {
        end += 1;
    }
    let first = text::string_of(&chars[0..end]);
    assert(first@ =~= given@.take(semicolon_at(given@, 0)));
    let pair = text::chars_of(text::trim_str(first.as_str()).as_str());
    let prefix = ['t', 'o', 'k', 'e', 'n', '='];
    assert(prefix@ =~= cookie_name().push('='));
    assert(pair@ == text::trim(given@.take(semicolon_at(given@, 0))));
    if pair.len() < 6 {
        return None;
    }
    let mut k: usize = 0;
    while k < 6
        invariant
            k <= 6,
            prefix@.len() == 6,
            6 <= pair.len(),
            forall|m: int| 0 <= m < k ==> pair@[m] == prefix@[m],
            header == Some(given),
            prefix@ == cookie_name().push('='),
            pair@ == text::trim(given@.take(semicolon_at(given@, 0))),
        decreases prefix.len() - k,
    {
        if pair[k] != prefix[k] {
            assert(pair@.take(prefix@.len() as int)[k as int] != prefix@[k as int]);
            return None;
        }
        k += 1;
    }
    assert(pair@.take(prefix@.len() as int) =~= prefix@);
    let rest = text::string_of(&pair[6..pair.len()]);
    assert(rest@ =~= pair@.skip(6));
    let value = text::trim_str(rest.as_str());
    if value.as_str().is_empty() {
        None
    } else {
        Some(value)
    }
}

/// The error for an answer with `status`, or `None` for a success: a 401 is the session gone,
/// and any other failure is what the server said about it (`server_says`), or its status when it
/// said nothing this client can read.
pub open spec fn failure_of(status: u16, server_says: Option<Seq<char>>) -> Option<
    Result<Seq<char>, ()>,
> {
    if status == 401 {
        Some(Err(()))
    } else if 200 <= status < 300 {
        None
    } else {
        Some(Ok(explained(status, server_says)))
    }
}

/// What a refused request is answered with: the server's own words, or its status.
pub open spec fn explained(status: u16, server_says: Option<Seq<char>>) -> Seq<char> {
    match server_says {
        Some(words) => words,
        None => "The server answered "@ + text::decimal(status as nat) + "."@,
    }
}

/// An error as values: the message it carries, or nothing for a 401.
pub open spec fn error_view(e: ApiError) -> Result<Seq<char>, ()> {
    match e {
        ApiError::Unauthorized => Err(()),
        ApiError::Message(m) => Ok(m@),
    }
}

/// The server's words about a refusal, or its status when there are none to read.
pub fn error_message(status: u16, server_says: Option<String>) -> (r: String)
    ensures
        r@ == explained(
            status,
            match server_says {
                Some(w) => Some(w@),
                None => None,
            },
        ),
{
    match server_says {
        Some(words) => words,
        None => {
            let mut said = "The server answered ".to_owned();
            text::push_decimal(&mut said, status as u64);
            text::concat(said.as_str(), ".")
        },
    }
}

/// What becomes of an answer with `status`: nothing for a success, and the error the window
/// shows otherwise.
pub fn failure(status: u16, server_says: Option<String>) -> (r: Option<ApiError>)
    ensures
        match r {
            Some(e) => failure_of(
                status,
                match server_says {
                    Some(w) => Some(w@),
                    None => None,
                },
            ) == Some(error_view(e)),
            None => failure_of(
                status,
                match server_says {
                    Some(w) => Some(w@),
                    None => None,
                },
            ) is None,
        },
{
    if status == 401 {
        Some(ApiError::Unauthorized)
    } else if 200 <= status && status < 300 {
        None
    } else {
        Some(ApiError::Message(error_message(status, server_says)))
    }
}

/// What a sign-in answered with `status` fails with: a 401 here is an ordinary refusal rather
/// than an expired session, so it keeps the server's wording ("Incorrect username or password").
pub fn sign_in_failure(status: u16, server_says: Option<String>) -> (r: Option<ApiError>)
    ensures
        match r {
            Some(e) => if status == 401 {
                error_view(e) == Ok::<Seq<char>, ()>(
                    explained(
                        status,
                        match server_says {
                            Some(w) => Some(w@),
                            None => None,
                        },
                    ),
                )
            } else {
                failure_of(
                    status,
                    match server_says {
                        Some(w) => Some(w@),
                        None => None,
                    },
                ) == Some(error_view(e))
            },
            None => status != 401 && failure_of(
                status,
                match server_says {
                    Some(w) => Some(w@),
                    None => None,
                },
            ) is None,
        },
{
    if status == 401 {
        Some(ApiError::Message(error_message(status, server_says)))
    } else {
        failure(status, server_says)
    }
}

impl Api {
    /// The address requests are sent under.
    pub closed spec fn base_of(&self) -> Seq<char> {
        self.base@
    }

    /// The session token, once there is one.
    pub closed spec fn token_of(&self) -> Option<Seq<char>> {
        match self.token {
            Some(t) => Some(t@),
            None => None,
        }
    }

    /// A client for `base`, e.g. `http://127.0.0.1:5173`, with no session yet.
    pub fn new(base: &str) -> (r: Api)
        ensures
            r.base_of() == text::trim_end_char(base@, '/'),
            r.token_of() is None,
    {
        Api { base: text::trim_end_matches(base, '/'), token: None }
    }

    /// A client that starts out signed in, for a session token obtained elsewhere.
    pub fn with_token(base: &str, token: &str) -> (r: Api)
        ensures
            r.base_of() == text::trim_end_char(base@, '/'),
            r.token_of() == Some(token@),
    {
        Api { base: text::trim_end_matches(base, '/'), token: Some(token.to_owned()) }
    }

    /// The session token this client signs its requests with, if it has one.
    pub fn token(&self) -> (r: Option<&str>)
        ensures
            match r {
                Some(t) => self.token_of() == Some(t@),
                None => self.token_of() is None,
            },
    {
        match &self.token {
            Some(token) => Some(token.as_str()),
            None => None,
        }
    }

    /// Where a request for `path` goes.
    pub fn url(&self, path: &str) -> (r: String)
        ensures
            r@ == self.base_of() + path@,
    {
        text::concat(self.base.as_str(), path)
    }

    /// The `cookie` header a request carries, when there is a session to carry.
    pub fn cookie(&self) -> (r: Option<String>)
        ensures
            match r {
                Some(c) => self.token_of() matches Some(t) && c@ == cookie_name().push('=') + t,
                None => self.token_of() is None,
            },
    {
        match &self.token {
            Some(token) => {
                let name = text::string_of(&['t', 'o', 'k', 'e', 'n', '=']);
                assert(name@ =~= cookie_name().push('='));
                Some(text::concat(name.as_str(), token.as_str()))
            },
            None => None,
        }
    }

    /// Takes up the session a successful sign-in set, from the answer's `set-cookie` header.
    ///
    /// An answer that accepted the credentials and set no session is still a failure: there is
    /// nothing to sign the next request with.
    pub fn accept_session(&mut self, set_cookie: Option<&str>) -> (r: Result<(), ApiError>)
        ensures
            final(self).base_of() == old(self).base_of(),
            match set_cookie {
                Some(h) => final(self).token_of() == token_in(h@),
                None => final(self).token_of() is None,
            },
            r is Ok <==> final(self).token_of() is Some,
            r matches Err(e) ==> error_view(e) == Ok::<Seq<char>, ()>(
                "The server accepted the credentials but sent no session cookie."@,
            ),
    {
        self.token = session_token(set_cookie);
        if self.token.is_none() {
            return Err(
                ApiError::Message(
                    "The server accepted the credentials but sent no session cookie.".to_owned(),
                ),
            );
        }
        Ok(())
    }
}

} // verus!
