//! The session, kept where the next run of the client can find it.
//!
//! A session is the token a server issued and the server that issued it, kept together because a
//! token means nothing to any other server. Where it is kept, and the reading and writing of the
//! file, are the program's business; what a kept session is worth, and which one a refusal takes
//! away, is decided here.
use vstd::prelude::*;

verus! {

/// What is kept: the token, and the server that issued it.
pub struct Stored {
    pub base_url: String,
    pub token: String,
}

/// A kept session as values: the server and the token.
pub open spec fn pair_of(s: Stored) -> (Seq<char>, Seq<char>) {
    (s.base_url@, s.token@)
}

/// The session `kept` holds, when it is one: a session with no server, or no token, is not one,
/// whatever the other half says.
pub open spec fn session_in(kept: Option<Stored>) -> Option<(Seq<char>, Seq<char>)> {
    match kept {
        Some(s) => if s.base_url@.len() > 0 && s.token@.len() > 0 {
            Some(pair_of(s))
        } else {
            None
        },
        None => None,
    }
}

/// The session kept on disk, and the server that issued it, whoever that is.
///
/// `kept` is what the file held, when it held something that reads as a session at all. This asks
/// what is there for any server, which is what a window that has not been told which server to
/// talk to wants: the address it should offer is the one the last run's session was kept for.
pub fn stored(kept: Option<Stored>) -> (r: Option<(String, String)>)
    ensures
        match r {
            Some((b, t)) => session_in(kept) == Some((b@, t@)),
            None => session_in(kept) is None,
        },
{
    match kept {
        Some(s) => {
            if s.base_url.as_str().is_empty() || s.token.as_str().is_empty() {
                None
            } else {
                Some((s.base_url, s.token))
            }
        },
        None => None,
    }
}

/// The token `base_url` issued in an earlier run, when what is kept is a session of that server.
pub fn load(kept: Option<Stored>, base_url: &str) -> (r: Option<String>)
    ensures
        match r {
            Some(t) => session_in(kept) matches Some((b, t2)) && b == base_url@ && t2 == t@,
            None => !(session_in(kept) matches Some((b, _)) && b == base_url@),
        },
        match r {
            Some(t) => loaded_for(kept, base_url@) == Some(t@),
            None => loaded_for(kept, base_url@) is None,
        },
{
    read_from(kept, base_url)
}

/// The session in `kept`, when there is one and it belongs to `base_url`.
fn read_from(kept: Option<Stored>, base_url: &str) -> (r: Option<String>)
    ensures
        match r {
            Some(t) => session_in(kept) matches Some((b, t2)) && b == base_url@ && t2 == t@,
            None => !(session_in(kept) matches Some((b, _)) && b == base_url@),
        },
{
    match stored(kept) {
        Some((stored_url, token)) => {
            if crate::text::same_text(stored_url.as_str(), base_url) {
                Some(token)
            } else {
                None
            }
        },
        None => None,
    }
}

/// What is written down for `token`, issued by `base_url`: read back, it is that token for that
/// server, and nothing for any other.
pub fn to_keep(base_url: &str, token: &str) -> (r: Stored)
    ensures
        r.base_url@ == base_url@,
        r.token@ == token@,
        base_url@.len() > 0 && token@.len() > 0 ==> loaded_for(Some(r), base_url@) == Some(token@),
        forall|other: Seq<char>| other != base_url@ ==> (#[trigger] loaded_for(Some(r), other)) is None,
{
    Stored { base_url: base_url.to_owned(), token: token.to_owned() }
}

/// What was found where the session is kept, when the session is to be forgotten.
pub enum OnDisk {
    /// No file at all.
    Missing,
    /// A file that could not be read.
    Unreadable,
    /// A file, and the session it holds when it reads as one.
    Read(Option<Stored>),
}

/// Whether `kept` is a stored session other than the one described.
///
/// A file that cannot be read as a session is not another session: there is nothing in it worth
/// keeping, and it is in the way of the next sign-in writing over it.
pub open spec fn other_session(kept: Option<Stored>, base_url: Seq<char>, token: Seq<char>) -> bool {
    match kept {
        Some(s) => s.base_url@ != base_url || s.token@ != token,
        None => false,
    }
}

/// Whether `kept` is a stored session other than the one described.
pub fn is_another_session(kept: &Option<Stored>, base_url: &str, token: &str) -> (r: bool)
    ensures
        r == other_session(*kept, base_url@, token@),
{
    match kept {
        Some(s) => !crate::text::same_text(s.base_url.as_str(), base_url)
            || !crate::text::same_text(s.token.as_str(), token),
        None => false,
    }
}

/// Whether forgetting the session `base_url` issued as `token` removes what was found.
///
/// Read before removing, so that a session that is not this one survives: another server's, or
/// another token for this one, is left where it is, and so is a file that is not there at all.
/// Anything else, unreadable or not a session, is a file to remove rather than one to keep.
pub fn removes(found: &OnDisk, base_url: &str, token: &str) -> (r: bool)
    ensures
        r == match *found {
            OnDisk::Missing => false,
            OnDisk::Unreadable => true,
            OnDisk::Read(kept) => !other_session(kept, base_url@, token@),
        },
{
    match found {
        OnDisk::Missing => false,
        OnDisk::Unreadable => true,
        OnDisk::Read(kept) => !is_another_session(kept, base_url, token),
    }
}

/// A session written down is the session read back: what is kept for a server and a token is
/// found again for that server, holding that token, and is not taken for another session when
/// that one is forgotten.
pub proof fn lemma_kept_is_found(kept: Stored, base_url: Seq<char>, token: Seq<char>)
    requires
        kept.base_url@ == base_url,
        kept.token@ == token,
        base_url.len() > 0,
        token.len() > 0,
    ensures
        session_in(Some(kept)) == Some((base_url, token)),
        !other_session(Some(kept), base_url, token),
{
}

/// What loading asks of a kept session for `base_url`: its token, when the session is one and
/// belongs to that server, and nothing otherwise.
pub open spec fn loaded_for(kept: Option<Stored>, base_url: Seq<char>) -> Option<Seq<char>> {
    match session_in(kept) {
        Some((b, t)) => if b == base_url {
            Some(t)
        } else {
            None
        },
        None => None,
    }
}

/// A session is kept for the server that issued it: what `to_keep` writes down for a server and a
/// token loads back as that token for that server, and as nothing for any other server.
pub proof fn lemma_kept_for_its_server(
    kept: Stored,
    base_url: Seq<char>,
    token: Seq<char>,
    other: Seq<char>,
)
    requires
        kept.base_url@ == base_url,
        kept.token@ == token,
        base_url.len() > 0,
        token.len() > 0,
        other != base_url,
    ensures
        loaded_for(Some(kept), base_url) == Some(token),
        loaded_for(Some(kept), other) is None,
{
}

/// Forgetting one session leaves every other one where it is: a kept session for another server,
/// or another token for the same one, is another session.
pub proof fn lemma_other_sessions_survive(kept: Stored, base_url: Seq<char>, token: Seq<char>)
    requires
        kept.base_url@ != base_url || kept.token@ != token,
    ensures
        other_session(Some(kept), base_url, token),
{
}

} // verus!
