//! Where a session's files live under the store's root, and which provider
//! a resolved model selection builds.

use vstd::prelude::*;

use crate::session::SessionId;
use crate::text::{chars_of, is_blank, str_is_blank, string_of};
use crate::workspace_config::path_join;

verus! {

/// The store of session directories (`<root>/<session id>/`); reading and
/// writing the files is the caller's.
#[derive(Debug, Clone)]
pub struct SessionStore {
    root: String,
}

/// A session's metadata file name.
pub const META_FILE: &'static str = "session.toml";

/// A session's event log file name.
pub const EVENTS_FILE: &'static str = "events.jsonl";

impl SessionStore {
    /// The directory holding every session directory.
    pub closed spec fn root_dir(&self) -> Seq<char> {
        self.root@
    }

    /// A store rooted at `root` (created on first write, not here).
    pub fn new(root: String) -> (r: Self)
        ensures
            r.root_dir() == root@,
    {
        SessionStore { root }
    }

    /// The directory of a session (whether or not it exists yet).
    pub fn session_dir(&self, id: &SessionId) -> (r: String)
        ensures
            r@ == path_join(self.root_dir(), id.0@),
    {
        crate::workspace_config::join_paths(self.root.as_str(), id.0.as_str())
    }

    /// The metadata file of a session.
    pub fn meta_path(&self, id: &SessionId) -> (r: String)
        ensures
            r@ == path_join(path_join(self.root_dir(), id.0@), META_FILE@),
    {
        crate::workspace_config::join_paths(self.session_dir(id).as_str(), META_FILE)
    }

    /// The event log of a session.
    pub fn events_path(&self, id: &SessionId) -> (r: String)
        ensures
            r@ == path_join(path_join(self.root_dir(), id.0@), EVENTS_FILE@),
    {
        crate::workspace_config::join_paths(self.session_dir(id).as_str(), EVENTS_FILE)
    }
}

/// A line without the carriage return of a CRLF line ending.
pub open spec fn strip_cr(l: Seq<char>) -> Seq<char> {
    if l.len() > 0 && l.last() == '\r' {
        l.drop_last()
    } else {
        l
    }
}

/// Reading an event log's text: the records of the lines a newline already
/// ended (blank ones skipped), and the text of the line still open.
pub open spec fn scan_log(s: Seq<char>) -> (Seq<Seq<char>>, Seq<char>)
    decreases s.len(),
{
    if s.len() == 0 {
        (Seq::empty(), Seq::empty())
    } else {
        let (done, cur) = scan_log(s.drop_last());
        if s.last() == '\n' {
            (
                if is_blank(strip_cr(cur)) {
                    done
                } else {
                    done.push(strip_cr(cur))
                },
                Seq::empty(),
            )
        } else {
            (done, cur.push(s.last()))
        }
    }
}

/// The records of an event log's text: each line without its line ending,
/// in order, blank lines skipped (a final line needs no newline).
pub open spec fn log_records(s: Seq<char>) -> Seq<Seq<char>> {
    let (done, cur) = scan_log(s);
    if is_blank(cur) {
        done
    } else {
        done.push(cur)
    }
}

/// The record lines of an event log's text (see [`log_records`]); each is
/// one committed event's JSON, decoded by the caller.
pub fn log_lines(text: &str) -> (r: Vec<String>)
    ensures
        r@.map_values(|l: String| l@) == log_records(text@),
{
    let v = chars_of(text);
    let mut out: Vec<String> = Vec::new();
    let mut cur: Vec<char> = Vec::new();
    let mut i: usize = 0;
    proof {
        assert(v@.subrange(0, 0) =~= Seq::<char>::empty());
        assert(out@.map_values(|l: String| l@) =~= Seq::<Seq<char>>::empty());
        assert(cur@ =~= Seq::<char>::empty());
    }
    while i < v.len()
        invariant
            v@ == text@,
            i <= v@.len(),
            (out@.map_values(|l: String| l@), cur@) == scan_log(v@.subrange(0, i as int)),
        decreases v.len() - i,
    {
        assert(v@.subrange(0, i + 1).drop_last() =~= v@.subrange(0, i as int));
        let ghost prev_out = out@.map_values(|l: String| l@);
        let ghost prev_cur = cur@;
        let c = v[i];
        if c == '\n' {
            if cur.len() > 0 && cur[cur.len() - 1] == '\r' {
                cur.pop();
                assert(cur@ =~= prev_cur.drop_last());
            }
            assert(cur@ == strip_cr(prev_cur));
            let line = string_of(&cur);
            if !str_is_blank(line.as_str()) {
                out.push(line);
                assert(out@.map_values(|l: String| l@) =~= prev_out.push(strip_cr(prev_cur)));
            }
            cur = Vec::new();
            assert(cur@ =~= Seq::<char>::empty());
        } else {
            cur.push(c);
        }
        i += 1;
    }
    assert(v@.subrange(0, v@.len() as int) =~= v@);
    let ghost done = out@.map_values(|l: String| l@);
    let last = string_of(&cur);
    if !str_is_blank(last.as_str()) {
        out.push(last);
        assert(out@.map_values(|l: String| l@) =~= done.push(cur@));
    }
    out
}

/// The kind of API a configured provider speaks.
#[derive(Debug, Clone, PartialEq, Eq)]
pub enum ProviderType {
    /// OpenAI Chat Completions.
    OpenaiChat,
    /// A type this build does not wire.
    Other(String),
}

/// A resolved model selection: the provider to call and how.
#[derive(Debug, Clone, PartialEq, Eq)]
pub struct ResolvedModel {
    pub provider_type: ProviderType,
    pub provider_name: String,
    pub base_url: String,
    pub api_key: Option<String>,
    pub model: String,
}

/// What a Chat Completions provider is constructed from.
#[derive(Debug, Clone, PartialEq, Eq)]
pub struct OpenAiProviderSpec {
    pub name: String,
    pub base_url: String,
    pub api_key: Option<String>,
}

/// The provider a resolved selection builds: a Chat Completions provider
/// for that type (with the selection's name, URL and key); nothing for a
/// type this build does not wire.
pub fn build(resolved: &ResolvedModel) -> (r: Option<OpenAiProviderSpec>)
    ensures
        resolved.provider_type is OpenaiChat ==> r == Some(
            OpenAiProviderSpec {
                name: resolved.provider_name,
                base_url: resolved.base_url,
                api_key: resolved.api_key,
            },
        ),
        !(resolved.provider_type is OpenaiChat) ==> r is None,
{
    match resolved.provider_type {
        ProviderType::OpenaiChat => Some(
            OpenAiProviderSpec {
                name: resolved.provider_name.clone(),
                base_url: resolved.base_url.clone(),
                api_key: crate::permission::clone_opt(&resolved.api_key),
            },
        ),
        ProviderType::Other(_) => None,
    }
}

} // verus!
