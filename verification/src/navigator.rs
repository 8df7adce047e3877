//! The history navigator: its modes, and which mode a bound key leads to.
use vstd::prelude::*;
use crate::text::{chars_of, string_from_chars, text_is};

verus! {

/// Commands of the history, of one session or of all.
#[derive(Debug, Clone)]
pub struct CmdHistoryMode {
    pub session: Option<String>,
}

/// Entries of a directory, with a query to start with.
#[derive(Debug, Clone)]
pub struct PathMode {
    pub path: String,
    pub query: String,
}

/// Directories of the history.
#[derive(Debug, Clone)]
pub struct PathHistoryMode {}

impl CmdHistoryMode {
    pub fn new(session: Option<String>) -> (r: Self)
        ensures
            r.session == session,
    {
        CmdHistoryMode { session }
    }
}

impl PathMode {
    pub fn new(path: String, query: String) -> (r: Self)
        ensures
            r.path == path,
            r.query == query,
    {
        PathMode { path, query }
    }
}

impl PathHistoryMode {
    pub fn new() -> (r: Self) {
        PathHistoryMode {  }
    }
}

/// The mode the navigator is in.
#[derive(Debug, Clone)]
pub enum NavigatorMode {
    CmdHistory(CmdHistoryMode),
    Path(PathMode),
    PathHistory(PathHistoryMode),
}

/// What is known of the item under the cursor.
#[derive(Debug, Clone)]
pub enum CurrentItem {
    Nothing,
    History { session: String, cwd: String },
    Path { path: String, is_dir: bool },
}

/// What a bound key leads to.
#[derive(Debug, Clone)]
pub enum NavigatorStep {
    /// stay in the current mode
    Stay,
    /// leave the current mode for this one
    Enter(NavigatorMode),
    /// complete: follow the query or the directory under the cursor
    Complete,
}

pub open spec fn tag_cmd_mode() -> Seq<char> {
    "chronicler.mode.cmd"@
}

pub open spec fn tag_path_mode() -> Seq<char> {
    "chronicler.mode.path"@
}

pub open spec fn tag_complete() -> Seq<char> {
    "chronicler.complete"@
}

pub open spec fn tag_goto_parent() -> Seq<char> {
    "chronicler.goto.parent"@
}

pub open spec fn tag_goto_session() -> Seq<char> {
    "chronicler.goto.session"@
}

pub open spec fn tag_goto_directory() -> Seq<char> {
    "chronicler.goto.directory"@
}

/// The step for a bound key with the given tag: the two history views can be reached from
/// every mode; the command history goes to the session or the directory of the command
/// under the cursor; the directory view completes or goes to the parent directory (given
/// as `parent`, when there is one); the directory history completes.
pub fn on_bind(mode: &NavigatorMode, tag: &str, current: &CurrentItem, parent: Option<String>) -> (r: NavigatorStep)
    ensures
        tag@ == tag_cmd_mode() ==> (r matches NavigatorStep::Enter(NavigatorMode::CmdHistory(m))
            && m.session is None),
        tag@ == tag_path_mode() ==> (r matches NavigatorStep::Enter(NavigatorMode::PathHistory(_))),
        tag@ != tag_cmd_mode() && tag@ != tag_path_mode() ==> match *mode {
            NavigatorMode::CmdHistory(_) => match *current {
                CurrentItem::History { session, cwd } => if tag@ == tag_goto_session() {
                    r matches NavigatorStep::Enter(NavigatorMode::CmdHistory(m)) && m.session
                        matches Some(s) && s@ == session@
                } else if tag@ == tag_goto_directory() {
                    r matches NavigatorStep::Enter(NavigatorMode::Path(p)) && p.path@ == cwd@
                        && p.query@.len() == 0
                } else {
                    r is Stay
                },
                _ => r is Stay,
            },
            NavigatorMode::Path(m) => if tag@ == tag_complete() {
                r is Complete
            } else if tag@ == tag_goto_parent() {
                match parent {
                    Some(p) => if p@ != m.path@ {
                        r matches NavigatorStep::Enter(NavigatorMode::Path(n)) && n.path@ == p@
                            && n.query@.len() == 0
                    } else {
                        r is Stay
                    },
                    None => r is Stay,
                }
            } else {
                r is Stay
            },
            NavigatorMode::PathHistory(_) => if tag@ == tag_complete() {
                r is Complete
            } else {
                r is Stay
            },
        },
{
    if text_is(tag, "chronicler.mode.cmd") {
        proof {
            reveal_strlit("chronicler.mode.cmd");
            reveal_strlit("chronicler.mode.path");
            assert(tag_cmd_mode()[16] != tag_path_mode()[16]);
        }
        return NavigatorStep::Enter(NavigatorMode::CmdHistory(CmdHistoryMode::new(None)));
    }
    if text_is(tag, "chronicler.mode.path") {
        return NavigatorStep::Enter(NavigatorMode::PathHistory(PathHistoryMode::new()));
    }
    match mode {
        NavigatorMode::CmdHistory(_) => match current {
            CurrentItem::History { session, cwd } => {
                if text_is(tag, "chronicler.goto.session") {
                    NavigatorStep::Enter(
                        NavigatorMode::CmdHistory(CmdHistoryMode::new(Some(session.clone()))),
                    )
                } else if text_is(tag, "chronicler.goto.directory") {
                    NavigatorStep::Enter(
                        NavigatorMode::Path(PathMode::new(cwd.clone(), String::new())),
                    )
                } else {
                    NavigatorStep::Stay
                }
            },
            _ => NavigatorStep::Stay,
        },
        NavigatorMode::Path(m) => {
            if text_is(tag, "chronicler.complete") {
                NavigatorStep::Complete
            } else if text_is(tag, "chronicler.goto.parent") {
                match parent {
                    Some(p) => {
                        if !text_is(p.as_str(), m.path.as_str()) {
                            NavigatorStep::Enter(NavigatorMode::Path(PathMode::new(p, String::new())))
                        } else {
                            NavigatorStep::Stay
                        }
                    },
                    None => NavigatorStep::Stay,
                }
            } else {
                NavigatorStep::Stay
            }
        },
        NavigatorMode::PathHistory(_) => {
            if text_is(tag, "chronicler.complete") {
                NavigatorStep::Complete
            } else {
                NavigatorStep::Stay
            }
        },
    }
}

/// What completing does.
#[derive(Debug, Clone)]
pub enum Completion {
    /// the query names a path (it starts with `~` or `/`): follow it
    FollowQuery,
    /// go into the directory under the cursor
    Enter(PathMode),
    /// nothing to complete
    Nothing,
}

/// Completion follows a query that starts with `~` or `/`, else enters the directory under
/// the cursor.
pub fn complete(query: &str, current: &CurrentItem) -> (r: Completion)
    ensures
        (query@.len() > 0 && (query@[0] == '~' || query@[0] == '/')) ==> r is FollowQuery,
        !(query@.len() > 0 && (query@[0] == '~' || query@[0] == '/')) ==> match *current {
            CurrentItem::Path { path, is_dir } => if is_dir {
                r matches Completion::Enter(m) && m.path@ == path@ && m.query@.len() == 0
            } else {
                r is Nothing
            },
            _ => r is Nothing,
        },
{
    let q = chars_of(query);
    if q.len() > 0 && (q[0] == '~' || q[0] == '/') {
        return Completion::FollowQuery;
    }
    match current {
        CurrentItem::Path { path, is_dir } => {
            if *is_dir {
                Completion::Enter(PathMode::new(path.clone(), String::new()))
            } else {
                Completion::Nothing
            }
        },
        _ => Completion::Nothing,
    }
}

/// A long path shortened for the prompt: the first component, `…`, and the last four;
/// a relative path gets a `/` after its first component. Paths of at most five components
/// are kept as they are.
pub open spec fn collapse_spec(text: Seq<char>, parts: Seq<Seq<char>>, has_root: bool) -> Seq<char> {
    if parts.len() <= 5 {
        text
    } else {
        parts[0] + (if has_root {
            seq![]
        } else {
            seq!['/']
        }) + seq!['\u{2026}'] + seq!['/'] + parts[parts.len() - 4] + seq!['/'] + parts[parts.len()
            - 3] + seq!['/'] + parts[parts.len() - 2] + seq!['/'] + parts[parts.len() - 1]
    }
}

/// Shorten a path given as its text, its components and whether it starts at the root.
pub fn collapse_path(text: &str, parts: &[String], has_root: bool) -> (r: String)
    ensures
        r@ == collapse_spec(text@, parts@.map_values(|p: String| p@), has_root),
{
    let ghost ps = parts@.map_values(|p: String| p@);
    if parts.len() <= 5 {
        return text.to_owned();
    }
    let n = parts.len();
    let mut out = chars_of(parts[0].as_str());
    if !has_root {
        out.push('/');
    }
    out.push('\u{2026}');
    let mut k: usize = n - 4;
    let ghost head = out@;
    while k < n
        invariant
            n == parts@.len(),
            n > 5,
            ps == parts@.map_values(|p: String| p@),
            n - 4 <= k <= n,
            out@ == head + (if k >= n - 3 { seq!['/'] + ps[n - 4] } else { seq![] }) + (if k
                >= n - 2 {
                seq!['/'] + ps[n - 3]
            } else {
                seq![]
            }) + (if k >= n - 1 {
                seq!['/'] + ps[n - 2]
            } else {
                seq![]
            }) + (if k >= n {
                seq!['/'] + ps[n - 1]
            } else {
                seq![]
            }),
        decreases n - k,
    {
        let ghost before = out@;
        out.push('/');
        let mut part = chars_of(parts[k].as_str());
        out.append(&mut part);
        assert(out@ =~= before + seq!['/'] + ps[k as int]);
        k = k + 1;
        proof {
            assert(out@ =~= head + (if k >= n - 3 { seq!['/'] + ps[n - 4] } else { seq![] }) + (
            if k >= n - 2 {
                seq!['/'] + ps[n - 3]
            } else {
                seq![]
            }) + (if k >= n - 1 {
                seq!['/'] + ps[n - 2]
            } else {
                seq![]
            }) + (if k >= n {
                seq!['/'] + ps[n - 1]
            } else {
                seq![]
            }));
        }
    }
    assert(out@ =~= collapse_spec(text@, ps, has_root));
    string_from_chars(out.as_slice())
}

} // verus!
