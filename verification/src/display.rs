//! tmux displays: session names, panes, and the tmux invocations that build
//! a display.
use vstd::prelude::*;
use vstd::string::*;

use crate::cli::RunArgs;
use crate::config::{
    first_unknown, joined, repo_index, lemma_repo_index, selection, Config, DisplayDef, PaneDef, Repo,
};
use crate::error::{Error, ErrorView};
use crate::git::opt_view;
use crate::text::{chars_of, first_where, lemma_first_where, string_of, views_of};

verus! {

/// A pane resolved to a concrete working directory and its commands. Each
/// command is sent to the pane on its own line.
#[derive(Debug)]
pub struct ResolvedPane {
    pub title: String,
    pub dir: String,
    pub commands: Vec<String>,
}

impl ResolvedPane {
    /// Title, directory and commands.
    pub open spec fn parts(&self) -> (Seq<char>, Seq<char>, Seq<Seq<char>>) {
        (self.title@, self.dir@, views_of(self.commands@))
    }
}

/// The parts of a list of panes.
pub open spec fn panes_view(v: Seq<ResolvedPane>) -> Seq<(Seq<char>, Seq<char>, Seq<Seq<char>>)> {
    v.map_values(|p: ResolvedPane| p.parts())
}

/// Summary of one display for `basis status`.
#[derive(Debug)]
pub struct DisplayStatus {
    pub name: String,
    pub panes: usize,
    pub layout: String,
    pub session: String,
    pub running: bool,
}

/// `s` with `.`, `:` and spaces turned into `-` (tmux session names may not
/// contain them).
pub open spec fn sanitized(s: Seq<char>) -> Seq<char> {
    s.map_values(|c: char| if c == '.' || c == ':' || c == ' ' { '-' } else { c })
}

/// tmux session names may not contain '.', ':' or spaces: they become '-'.
pub fn sanitize(name: &str) -> (r: String)
    ensures
        r@ == sanitized(name@),
{
    let cs = chars_of(name);
    let mut out: Vec<char> = Vec::new();
    let mut i: usize = 0;
    while i < cs.len()
        invariant
            cs@ == name@,
            i <= cs@.len(),
            out@ == sanitized(cs@.take(i as int)),
        decreases cs@.len() - i,
    {
        let c = cs[i];
        out.push(if c == '.' || c == ':' || c == ' ' { '-' } else { c });
        assert(sanitized(cs@.take(i + 1)) =~= sanitized(cs@.take(i as int)).push(
            if c == '.' || c == ':' || c == ' ' { '-' } else { c }));
        i += 1;
    }
    assert(cs@.take(cs@.len() as int) == cs@);
    string_of(out.as_slice())
}

/// A sanitised name holds no `.`, `:` or space, and sanitising it again
/// leaves it unchanged.
pub proof fn lemma_sanitized_is_clean(s: Seq<char>)
    ensures
        forall|i: int| 0 <= i < sanitized(s).len() ==> {
            let c = #[trigger] sanitized(s)[i];
            c != '.' && c != ':' && c != ' '
        },
        sanitized(sanitized(s)) == sanitized(s),
{
    assert(sanitized(sanitized(s)) =~= sanitized(s));
}

/// The session of a display: its `session:` setting, else
/// `<constellation>-<name>`, sanitised.
pub open spec fn session_of(constellation: Seq<char>, name: Seq<char>, session: Option<Seq<char>>) -> Seq<char> {
    sanitized(match session {
        Some(s) => s,
        None => constellation + "-"@ + name,
    })
}

/// The tmux session name of the display `name`.
pub fn session_name(cfg: &Config, name: &str, display: &DisplayDef) -> (r: String)
    ensures
        r@ == session_of(cfg.manifest.constellation@, name@, opt_view(display.session)),
{
    let raw = match &display.session {
        Some(s) => s.clone(),
        None => cfg.manifest.constellation.clone().concat("-").concat(name),
    };
    sanitize(raw.as_str())
}

/// `cmd` with every `'` written as `'\''`, so that it can stand inside single quotes.
pub open spec fn escaped(cmd: Seq<char>) -> Seq<char>
    decreases cmd.len(),
{
    if cmd.len() == 0 {
        Seq::empty()
    } else {
        escaped(cmd.drop_last()) + if cmd.last() == '\'' { "'\\''"@ } else { seq![cmd.last()] }
    }
}

/// The text that `sh` reads from the shell word `w`: inside single quotes
/// every character stands for itself up to the closing quote; outside them
/// a quote opens a quoted part and a backslash stands for the character
/// after it.
pub open spec fn sh_word(w: Seq<char>, quoted: bool) -> Seq<char>
    decreases w.len(),
{
    if w.len() == 0 {
        Seq::empty()
    } else if quoted {
        if w[0] == '\'' { sh_word(w.skip(1), false) } else { seq![w[0]] + sh_word(w.skip(1), true) }
    } else if w[0] == '\'' {
        sh_word(w.skip(1), true)
    } else if w[0] == '\\' && w.len() > 1 {
        seq![w[1]] + sh_word(w.skip(2), false)
    } else {
        seq![w[0]] + sh_word(w.skip(1), false)
    }
}

/// Escaping distributes over concatenation.
proof fn lemma_escaped_concat(a: Seq<char>, b: Seq<char>)
    ensures
        escaped(a + b) == escaped(a) + escaped(b),
    decreases b.len(),
{
    if b.len() == 0 {
        assert(a + b =~= a);
        assert(escaped(a) + escaped(b) =~= escaped(a));
    } else {
        lemma_escaped_concat(a, b.drop_last());
        assert((a + b).drop_last() =~= a + b.drop_last());
        assert((a + b).last() == b.last());
    }
}

/// Inside single quotes, the escaped command reads back as the command,
/// followed by what comes after the closing quote.
proof fn lemma_escaped_reads_back(cmd: Seq<char>, tail: Seq<char>)
    ensures
        sh_word(escaped(cmd) + "'"@ + tail, true) == cmd + sh_word(tail, false),
    decreases cmd.len(),
{
    reveal_strlit("'");
    reveal_strlit("'\\''");
    if cmd.len() == 0 {
        assert(escaped(cmd) + "'"@ + tail =~= seq!['\''] + tail);
        assert((seq!['\''] + tail).skip(1) =~= tail);
        assert(cmd + sh_word(tail, false) =~= sh_word(tail, false));
    } else {
        let c = cmd[0];
        let rest = cmd.drop_first();
        assert(cmd =~= seq![c] + rest);
        lemma_escaped_concat(seq![c], rest);
        assert(escaped(seq![c]) =~= escaped(Seq::<char>::empty()) + if c == '\'' { "'\\''"@ } else { seq![c] }) by {
            assert(seq![c].drop_last() =~= Seq::<char>::empty());
        }
        lemma_escaped_reads_back(rest, tail);
        let after = escaped(rest) + "'"@ + tail;
        if c == '\'' {
            let w = escaped(cmd) + "'"@ + tail;
            assert(w =~= seq!['\'', '\\', '\'', '\''] + after);
            assert(w.skip(1) =~= seq!['\\', '\'', '\''] + after);
            assert(w.skip(1).skip(2) =~= seq!['\''] + after);
            assert(w.skip(1).skip(2).skip(1) =~= after);
            assert(sh_word(w, true) == sh_word(w.skip(1), false));
            assert(sh_word(w.skip(1), false) == seq!['\''] + sh_word(w.skip(1).skip(2), false));
            assert(sh_word(w.skip(1).skip(2), false) == sh_word(after, true));
            assert(seq!['\''] + (rest + sh_word(tail, false)) =~= cmd + sh_word(tail, false));
        } else {
            let w = escaped(cmd) + "'"@ + tail;
            assert(w =~= seq![c] + after);
            assert(w.skip(1) =~= after);
            assert(seq![c] + (rest + sh_word(tail, false)) =~= cmd + sh_word(tail, false));
        }
    }
}

/// `sh` reads the wrapped command back exactly: the word after `sh -c ` in
/// `sh_wrap(cmd)` stands for `cmd`, whatever quotes it holds.
pub proof fn lemma_sh_wrap_reads_back(cmd: Seq<char>)
    ensures
        sh_word("'"@ + escaped(cmd) + "'"@, false) == cmd,
{
    reveal_strlit("'");
    lemma_escaped_reads_back(cmd, Seq::empty());
    let w = "'"@ + escaped(cmd) + "'"@;
    assert(w.skip(1) =~= escaped(cmd) + "'"@ + Seq::<char>::empty());
    assert(cmd + sh_word(Seq::<char>::empty(), false) =~= cmd);
}

/// Wraps a command so a pane runs it via `sh -c`, independent of the user's
/// interactive shell: `sh -c '<cmd>'` with single quotes escaped.
pub fn sh_wrap(cmd: &str) -> (r: String)
    ensures
        r@ == "sh -c '"@ + escaped(cmd@) + "'"@,
{
    let cs = chars_of(cmd);
    let mut out = String::from_str("sh -c '");
    let ghost head = out@;
    let mut i: usize = 0;
    while i < cs.len()
        invariant
            cs@ == cmd@,
            i <= cs@.len(),
            out@ == head + escaped(cs@.take(i as int)),
        decreases cs@.len() - i,
    {
        assert(cs@.take(i + 1).drop_last() == cs@.take(i as int));
        if cs[i] == '\'' {
            out.append("'\\''");
        } else {
            crate::text::push_char(&mut out, cs[i]);
        }
        i += 1;
    }
    assert(cs@.take(cs@.len() as int) == cs@);
    out.append("'");
    out
}

/// The display (tmux session) for running `action`, or `None` to run it
/// inline: `--no-tmux` forces inline; the task's `display:` wins next;
/// `--tmux` forces a display named `<constellation>-<action>`. Names are
/// sanitised.
pub open spec fn session_for(no_tmux: bool, tmux: bool, task_display: Option<Seq<char>>, constellation: Seq<char>, action: Seq<char>) -> Option<Seq<char>> {
    if no_tmux {
        None
    } else {
        match task_display {
            Some(d) => Some(sanitized(d)),
            None => if tmux { Some(sanitized(constellation + "-"@ + action)) } else { None },
        }
    }
}

/// Resolves the display (tmux session) name for `action`, or `None` to run it inline.
pub fn resolve_session(cfg: &Config, action: &str, args: &RunArgs) -> (r: Option<String>)
    ensures
        opt_view(r) == session_for(args.no_tmux, args.tmux,
            match cfg.task_index(action@) { Some(i) => opt_view(cfg.manifest.tasks@[i].display), None => None },
            cfg.manifest.constellation@, action@),
{
    if args.no_tmux {
        return None;
    }
    if let Some(name) = cfg.task_display(action) {
        return Some(sanitize(name.as_str()));
    }
    if args.tmux {
        let raw = cfg.manifest.constellation.clone().concat("-").concat(action);
        return Some(sanitize(raw.as_str()));
    }
    None
}

/// Summarises every configured display; `running[i]` says whether the
/// session of the `i`-th display is up.
pub fn statuses(cfg: &Config, running: &Vec<bool>) -> (r: Vec<DisplayStatus>)
    requires
        running@.len() == cfg.manifest.displays@.len(),
    ensures
        r@.len() == cfg.manifest.displays@.len(),
        forall|i: int| 0 <= i < r@.len() ==> {
            let d = cfg.manifest.displays@[i];
            &&& (#[trigger] r@[i]).name@ == d.name@
            &&& r@[i].panes == d.panes@.len()
            &&& r@[i].layout@ == d.layout@
            &&& r@[i].session@ == session_of(cfg.manifest.constellation@, d.name@, opt_view(d.session))
            &&& r@[i].running == running@[i]
        },
{
    let mut out: Vec<DisplayStatus> = Vec::new();
    let mut i: usize = 0;
    while i < cfg.manifest.displays.len()
        invariant
            running@.len() == cfg.manifest.displays@.len(),
            i <= cfg.manifest.displays@.len(),
            out@.len() == i,
            forall|k: int| 0 <= k < i ==> {
                let d = cfg.manifest.displays@[k];
                &&& (#[trigger] out@[k]).name@ == d.name@
                &&& out@[k].panes == d.panes@.len()
                &&& out@[k].layout@ == d.layout@
                &&& out@[k].session@ == session_of(cfg.manifest.constellation@, d.name@, opt_view(d.session))
                &&& out@[k].running == running@[k]
            },
        decreases cfg.manifest.displays@.len() - i,
    {
        let d = &cfg.manifest.displays[i];
        let session = session_name(cfg, d.name.as_str(), d);
        out.push(DisplayStatus {
            name: d.name.clone(),
            panes: d.panes.len(),
            layout: d.layout.clone(),
            session,
            running: running[i],
        });
        i += 1;
    }
    out
}

/// The working directory of a pane: its `cwd` (against the manifest
/// directory), else its repository's directory, else the manifest directory.
pub open spec fn pane_dir(cfg: Config, pane: PaneDef) -> Result<Seq<char>, ErrorView> {
    match pane.cwd {
        Some(c) => Ok(joined(cfg.base_dir@, c@)),
        None => match pane.repo {
            Some(r) => match repo_index(cfg.manifest.repos@, r@) {
                Some(i) => Ok(joined(cfg.base_dir@, cfg.manifest.repos@[i].path@)),
                None => Err(ErrorView::UnknownRepo(r@)),
            },
            None => Ok(cfg.base_dir@),
        },
    }
}

/// The commands of a pane: its `command`, else the named action of its
/// repository (which it must name), else none (a plain shell).
pub open spec fn pane_commands(cfg: Config, pane: PaneDef) -> Result<Seq<Seq<char>>, ErrorView> {
    match pane.command {
        Some(c) => Ok(seq![c@]),
        None => match pane.action {
            Some(a) => match pane.repo {
                None => Err(ErrorView::PaneActionWithoutRepo(a@)),
                Some(r) => match repo_index(cfg.manifest.repos@, r@) {
                    None => Err(ErrorView::UnknownRepo(r@)),
                    Some(i) => match cfg.manifest.repos@[i].action_commands(a@) {
                        Some(cs) => Ok(cs),
                        None => Err(ErrorView::MissingAction { repo: r@, action: a@ }),
                    },
                },
            },
            None => Ok(Seq::empty()),
        },
    }
}

/// The title of a pane: its name, else its repository, else its action, else `shell`.
pub open spec fn pane_title(pane: PaneDef) -> Seq<char> {
    match pane.name {
        Some(n) => n@,
        None => match pane.repo {
            Some(r) => r@,
            None => match pane.action {
                Some(a) => a@,
                None => "shell"@,
            },
        },
    }
}

/// A named pane is titled by its name; an unnamed pane that names a
/// repository by that repository, whether or not it also names an action;
/// an unnamed pane without a repository by its action, or else `shell`.
pub proof fn lemma_pane_title_precedence(pane: PaneDef)
    ensures
        pane.name matches Some(n) ==> pane_title(pane) == n@,
        (pane.name is None && pane.repo is Some) ==> pane_title(pane) == pane.repo->Some_0@,
        (pane.name is None && pane.repo is None && pane.action is Some) ==> pane_title(pane) == pane.action->Some_0@,
        (pane.name is None && pane.repo is None && pane.action is None) ==> pane_title(pane) == "shell"@,
{
}

/// The title that a pane definition gives: whether it holds `title`.
pub open spec fn titled_as(pane: PaneDef, title: Seq<char>) -> bool {
    &&& pane.name matches Some(n) ==> title == n@
    &&& (pane.name is None && pane.repo is Some) ==> title == pane.repo->Some_0@
    &&& (pane.name is None && pane.repo is None && pane.action is Some) ==> title == pane.action->Some_0@
}

/// A pane resolved: title, directory and commands (the directory's error first).
pub open spec fn pane_resolved(cfg: Config, pane: PaneDef) -> Result<(Seq<char>, Seq<char>, Seq<Seq<char>>), ErrorView> {
    match pane_dir(cfg, pane) {
        Err(e) => Err(e),
        Ok(d) => match pane_commands(cfg, pane) {
            Err(e) => Err(e),
            Ok(cs) => Ok((pane_title(pane), d, cs)),
        },
    }
}

/// The first `n` panes resolved, or the error of the first that fails.
pub open spec fn panes_resolved(cfg: Config, panes: Seq<PaneDef>, n: int) -> Result<Seq<(Seq<char>, Seq<char>, Seq<Seq<char>>)>, ErrorView>
    decreases n,
{
    if n <= 0 {
        Ok(Seq::empty())
    } else {
        match panes_resolved(cfg, panes, n - 1) {
            Err(e) => Err(e),
            Ok(prev) => match pane_resolved(cfg, panes[n - 1]) {
                Err(e) => Err(e),
                Ok(p) => Ok(prev.push(p)),
            },
        }
    }
}

/// An earlier failure stands.
pub proof fn lemma_panes_error_sticks(cfg: Config, panes: Seq<PaneDef>, m: int, n: int)
    requires
        0 < m <= n,
        panes_resolved(cfg, panes, m) is Err,
    ensures
        panes_resolved(cfg, panes, n) == panes_resolved(cfg, panes, m),
    decreases n - m,
{
    if n > m {
        lemma_panes_error_sticks(cfg, panes, m, n - 1);
    }
}

fn clone_strings(v: &Vec<String>) -> (r: Vec<String>)
    ensures
        views_of(r@) == views_of(v@),
{
    let mut out: Vec<String> = Vec::new();
    let mut i: usize = 0;
    while i < v.len()
        invariant
            i <= v@.len(),
            views_of(out@) == views_of(v@).take(i as int),
        decreases v@.len() - i,
    {
        let ghost before = views_of(out@);
        out.push(v[i].clone());
        assert(views_of(out@) =~= before.push(v@[i as int]@));
        assert(views_of(v@).take(i + 1) =~= views_of(v@).take(i as int).push(v@[i as int]@));
        i += 1;
    }
    assert(views_of(v@).take(v@.len() as int) == views_of(v@));
    out
}

fn resolve_pane(cfg: &Config, pane: &PaneDef) -> (r: Result<ResolvedPane, Error>)
    ensures
        match r {
            Ok(p) => pane_resolved(*cfg, *pane) == Ok::<(Seq<char>, Seq<char>, Seq<Seq<char>>), ErrorView>(p.parts()),
            Err(e) => pane_resolved(*cfg, *pane) == Err::<(Seq<char>, Seq<char>, Seq<Seq<char>>), ErrorView>(e@),
        },
        r matches Ok(p) ==> titled_as(*pane, p.title@),
{
    proof {
        lemma_pane_title_precedence(*pane);
        if pane.repo is Some {
            lemma_repo_index(cfg.manifest.repos@, pane.repo->Some_0@);
        }
    }
    let dir = match &pane.cwd {
        Some(cwd) => crate::config::join_path(cfg.base_dir.as_str(), cwd.as_str()),
        None => match &pane.repo {
            Some(r) => match cfg.find_repo(r.as_str()) {
                Ok(repo) => cfg.repo_dir(repo),
                Err(e) => return Err(e),
            },
            None => cfg.base_dir.clone(),
        },
    };
    let commands = match &pane.command {
        Some(c) => {
            let mut v: Vec<String> = Vec::new();
            v.push(c.clone());
            assert(views_of(v@) =~= seq![c@]);
            v
        },
        None => match &pane.action {
            Some(a) => match &pane.repo {
                None => return Err(Error::PaneActionWithoutRepo(a.clone())),
                Some(r) => match cfg.find_repo(r.as_str()) {
                    Err(e) => return Err(e),
                    Ok(repo) => match repo.action(a.as_str()) {
                        Some(cs) => clone_strings(cs),
                        None => return Err(Error::MissingAction { repo: r.clone(), action: a.clone() }),
                    },
                },
            },
            None => {
                let v: Vec<String> = Vec::new();
                assert(views_of(v@) =~= Seq::<Seq<char>>::empty());
                v
            },
        },
    };
    let title = match &pane.name {
        Some(n) => n.clone(),
        None => match &pane.repo {
            Some(r) => r.clone(),
            None => match &pane.action {
                Some(a) => a.clone(),
                None => String::from_str("shell"),
            },
        },
    };
    assert(pane_dir(*cfg, *pane) == Ok::<Seq<char>, ErrorView>(dir@));
    assert(pane_commands(*cfg, *pane) == Ok::<Seq<Seq<char>>, ErrorView>(views_of(commands@)));
    assert(pane_title(*pane) == title@);
    Ok(ResolvedPane { title, dir, commands })
}

/// Resolves every pane's working directory, commands and title, in order;
/// the first pane that cannot be resolved gives the error.
pub fn resolve_panes(cfg: &Config, display: &DisplayDef) -> (r: Result<Vec<ResolvedPane>, Error>)
    ensures
        match r {
            Ok(v) => panes_resolved(*cfg, display.panes@, display.panes@.len() as int)
                == Ok::<Seq<(Seq<char>, Seq<char>, Seq<Seq<char>>)>, ErrorView>(panes_view(v@)),
            Err(e) => panes_resolved(*cfg, display.panes@, display.panes@.len() as int)
                == Err::<Seq<(Seq<char>, Seq<char>, Seq<Seq<char>>)>, ErrorView>(e@),
        },
        r matches Ok(v) ==> v@.len() == display.panes@.len()
            && forall|i: int| 0 <= i < v@.len() ==> titled_as(display.panes@[i], (#[trigger] v@[i]).title@),
{
    let mut out: Vec<ResolvedPane> = Vec::new();
    let mut i: usize = 0;
    assert(panes_view(out@) =~= Seq::<(Seq<char>, Seq<char>, Seq<Seq<char>>)>::empty());
    while i < display.panes.len()
        invariant
            i <= display.panes@.len(),
            out@.len() == i,
            forall|k: int| 0 <= k < i ==> titled_as(display.panes@[k], (#[trigger] out@[k]).title@),
            panes_resolved(*cfg, display.panes@, i as int)
                == Ok::<Seq<(Seq<char>, Seq<char>, Seq<Seq<char>>)>, ErrorView>(panes_view(out@)),
        decreases display.panes@.len() - i,
    {
        match resolve_pane(cfg, &display.panes[i]) {
            Ok(p) => {
                let ghost before = panes_view(out@);
                out.push(p);
                assert(panes_view(out@) =~= before.push(out@[i as int].parts()));
            },
            Err(e) => {
                proof { lemma_panes_error_sticks(*cfg, display.panes@, i + 1, display.panes@.len() as int); }
                return Err(e);
            },
        }
        i += 1;
    }
    Ok(out)
}

/// The index of the display called `name`.
pub open spec fn display_index(displays: Seq<DisplayDef>, name: Seq<char>) -> Option<int> {
    first_where(displays, |d: DisplayDef| d.name@ == name)
}

fn find_display(cfg: &Config, name: &str) -> (r: Option<usize>)
    ensures
        match r {
            Some(i) => i < cfg.manifest.displays@.len() && display_index(cfg.manifest.displays@, name@) == Some(i as int),
            None => display_index(cfg.manifest.displays@, name@).is_none(),
        },
{
    let target = String::from_str(name);
    let ghost p = |d: DisplayDef| d.name@ == name@;
    let mut i: usize = 0;
    while i < cfg.manifest.displays.len()
        invariant
            i <= cfg.manifest.displays@.len(),
            target@ == name@,
            p == (|d: DisplayDef| d.name@ == name@),
            forall|k: int| 0 <= k < i ==> !p(#[trigger] cfg.manifest.displays@[k]),
        decreases cfg.manifest.displays@.len() - i,
    {
        if cfg.manifest.displays[i].name == target {
            proof { lemma_first_where(cfg.manifest.displays@, p); }
            return Some(i);
        }
        i += 1;
    }
    proof { lemma_first_where(cfg.manifest.displays@, p); }
    None
}

/// What `basis display` does.
#[derive(Debug)]
pub enum DisplayAction {
    /// List the configured displays.
    List,
    /// Kill this tmux session.
    Kill { session: String },
    /// Create the session (if it is not up) with these panes, then attach
    /// when `attach`.
    Up { session: String, window: String, panes: Vec<ResolvedPane>, layout: String, attach: bool },
}

/// Decides what `basis display [name] [--kill]` does, given whether tmux is
/// available: without a name, list the displays; an unknown display is
/// refused; without tmux nothing more can be done; `--kill` kills the
/// display's session; otherwise the display's panes are resolved (a display
/// without panes is refused) and its session is brought up.
pub fn run(cfg: &Config, name: Option<String>, kill: bool, detached: bool, tmux_available: bool) -> (r: Result<DisplayAction, Error>)
    ensures
        match name {
            None => r matches Ok(DisplayAction::List),
            Some(n) => match display_index(cfg.manifest.displays@, n@) {
                None => r matches Err(e) && e@ == ErrorView::UnknownDisplay(n@),
                Some(i) => {
                    let d = cfg.manifest.displays@[i];
                    let session = session_of(cfg.manifest.constellation@, n@, opt_view(d.session));
                    if !tmux_available {
                        r matches Err(e) && e@ == ErrorView::TmuxMissing
                    } else if kill {
                        r matches Ok(DisplayAction::Kill { session: s }) && s@ == session
                    } else {
                        match panes_resolved(*cfg, d.panes@, d.panes@.len() as int) {
                            Err(e) => r matches Err(x) && x@ == e,
                            Ok(ps) => if ps.len() == 0 {
                                r matches Err(e) && e@ == ErrorView::NoPanes(n@)
                            } else {
                                r matches Ok(DisplayAction::Up { session: s, window: w, panes, layout, attach })
                                    && attach == !detached
                                    && s@ == session && w@ == n@ && panes_view(panes@) == ps && layout@ == d.layout@
                            },
                        }
                    }
                },
            },
        },
{
    let name = match name {
        None => return Ok(DisplayAction::List),
        Some(n) => n,
    };
    let i = match find_display(cfg, name.as_str()) {
        None => return Err(Error::UnknownDisplay(name)),
        Some(i) => i,
    };
    let display = &cfg.manifest.displays[i];
    let session = session_name(cfg, name.as_str(), display);
    if !tmux_available {
        return Err(Error::TmuxMissing);
    }
    if kill {
        return Ok(DisplayAction::Kill { session });
    }
    let panes = match resolve_panes(cfg, display) {
        Err(e) => return Err(e),
        Ok(p) => p,
    };
    if panes.len() == 0 {
        return Err(Error::NoPanes(name));
    }
    Ok(DisplayAction::Up { session, window: name, panes, layout: display.layout.clone(), attach: !detached })
}

/// One pane per repository among `sel` that defines `action`: the
/// repository's name, directory and the action's commands.
pub open spec fn task_panes(base: Seq<char>, sel: Seq<Repo>, action: Seq<char>) -> Seq<(Seq<char>, Seq<char>, Seq<Seq<char>>)>
    decreases sel.len(),
{
    if sel.len() == 0 {
        Seq::empty()
    } else {
        let prev = task_panes(base, sel.drop_last(), action);
        match sel.last().action_commands(action) {
            Some(cs) => prev.push((sel.last().name@, joined(base, sel.last().path@), cs)),
            None => prev,
        }
    }
}

/// A task display to bring up: its window (named after the action), its
/// panes and layout, and whether to attach to it afterwards.
#[derive(Debug)]
pub struct TaskLaunch {
    pub window: String,
    pub panes: Vec<ResolvedPane>,
    pub layout: String,
    pub attach: bool,
}

/// Plans a tmux display for a task, given whether tmux is available: one
/// pane per selected repository that defines `action` (in parallel), with
/// `--layout`, else the task's layout, else `tiled`. Refuses an unknown
/// repository, and a selection in which no repository defines the action.
pub fn launch_task(cfg: &Config, action: &str, args: &RunArgs, tmux_available: bool) -> (r: Result<TaskLaunch, Error>)
    ensures
        !tmux_available ==> (r matches Err(e) && e@ == ErrorView::TmuxMissing),
        tmux_available ==> match first_unknown(cfg.manifest.repos@, args.repos@) {
            Some(k) => r matches Err(e) && e@ == ErrorView::UnknownRepo(args.repos@[k]@),
            None => {
                let ps = task_panes(cfg.base_dir@, selection(cfg.manifest.repos@, args.repos@), action@);
                if ps.len() == 0 {
                    r matches Err(e) && e@ == ErrorView::NoActionDefined(action@)
                } else {
                    r matches Ok(t) && panes_view(t.panes@) == ps
                        && t.window@ == action@
                        && t.attach == !args.detached
                        && t.layout@ == match args.layout {
                            Some(l) => l@,
                            None => match cfg.task_index(action@) {
                                Some(i) => match cfg.manifest.tasks@[i].layout {
                                    Some(l) => l@,
                                    None => "tiled"@,
                                },
                                None => "tiled"@,
                            },
                        }
                }
            },
        },
{
    if !tmux_available {
        return Err(Error::TmuxMissing);
    }
    let sel = match cfg.select(args.repos.as_slice()) {
        Err(e) => return Err(e),
        Ok(s) => s,
    };
    let ghost sv = sel@.map_values(|r: &Repo| *r);
    assert(sv =~= selection(cfg.manifest.repos@, args.repos@));
    let mut panes: Vec<ResolvedPane> = Vec::new();
    let mut i: usize = 0;
    while i < sel.len()
        invariant
            i <= sel@.len(),
            sv == sel@.map_values(|r: &Repo| *r),
            panes_view(panes@) == task_panes(cfg.base_dir@, sv.take(i as int), action@),
        decreases sel@.len() - i,
    {
        let repo = sel[i];
        assert(sv.take(i + 1).drop_last() == sv.take(i as int));
        assert(sv.take(i + 1).last() == *repo);
        match repo.action(action) {
            Some(cmds) => {
                let ghost before = panes_view(panes@);
                let p = ResolvedPane { title: repo.name.clone(), dir: cfg.repo_dir(repo), commands: clone_strings(cmds) };
                panes.push(p);
                assert(panes_view(panes@) =~= before.push(panes@[panes@.len() - 1].parts()));
            },
            None => {},
        }
        i += 1;
    }
    assert(sv.take(sel@.len() as int) == sv);
    if panes.len() == 0 {
        return Err(Error::NoActionDefined(String::from_str(action)));
    }
    let layout = match &args.layout {
        Some(l) => l.clone(),
        None => match cfg.task_layout(action) {
            Some(l) => l,
            None => String::from_str("tiled"),
        },
    };
    Ok(TaskLaunch { window: String::from_str(action), panes, layout, attach: !args.detached })
}

/// What bringing a session up does.
#[derive(Debug)]
pub struct UpStep {
    /// Create the session and its panes (it is not running yet).
    pub build: bool,
    /// Attach to it afterwards.
    pub attach: bool,
}

/// Bringing a session up is idempotent: a running session is reused (not
/// rebuilt, no pane added); it is attached to unless `--detached`.
pub fn up_step(session_exists: bool, detached: bool) -> (r: UpStep)
    ensures
        r.build == !session_exists,
        r.attach == !detached,
{
    UpStep { build: !session_exists, attach: !detached }
}

/// Killing a display kills its session only when it is running.
pub fn kill_step(session_exists: bool) -> (r: bool)
    ensures
        r == session_exists,
{
    session_exists
}

/// The tmux target of a display's window: `<session>:<window>`.
pub fn window_target(session: &str, window: &str) -> (r: String)
    ensures
        r@ == session@ + ":"@ + window@,
{
    String::from_str(session).concat(":").concat(window)
}

/// `tmux new-session` arguments for the first pane: detached, printing the
/// pane id, with the session, window and starting directory.
pub fn new_session_args(session: &str, window: &str, dir: &str) -> (r: Vec<String>)
    ensures
        views_of(r@) == seq!["new-session"@, "-d"@, "-P"@, "-F"@, "#{pane_id}"@, "-s"@, session@, "-n"@, window@, "-c"@, dir@],
{
    let r = vec![
        String::from_str("new-session"), String::from_str("-d"), String::from_str("-P"), String::from_str("-F"),
        String::from_str("#{pane_id}"), String::from_str("-s"), String::from_str(session), String::from_str("-n"),
        String::from_str(window), String::from_str("-c"), String::from_str(dir),
    ];
    assert(views_of(r@) =~= seq!["new-session"@, "-d"@, "-P"@, "-F"@, "#{pane_id}"@, "-s"@, session@, "-n"@, window@, "-c"@, dir@]);
    r
}

/// `tmux split-window` arguments for a further pane in `target`.
pub fn split_window_args(target: &str, dir: &str) -> (r: Vec<String>)
    ensures
        views_of(r@) == seq!["split-window"@, "-P"@, "-F"@, "#{pane_id}"@, "-t"@, target@, "-c"@, dir@],
{
    let r = vec![
        String::from_str("split-window"), String::from_str("-P"), String::from_str("-F"),
        String::from_str("#{pane_id}"), String::from_str("-t"), String::from_str(target),
        String::from_str("-c"), String::from_str(dir),
    ];
    assert(views_of(r@) =~= seq!["split-window"@, "-P"@, "-F"@, "#{pane_id}"@, "-t"@, target@, "-c"@, dir@]);
    r
}

/// `tmux select-layout` arguments.
pub fn layout_args(target: &str, layout: &str) -> (r: Vec<String>)
    ensures
        views_of(r@) == seq!["select-layout"@, "-t"@, target@, layout@],
{
    let r = vec![String::from_str("select-layout"), String::from_str("-t"), String::from_str(target), String::from_str(layout)];
    assert(views_of(r@) =~= seq!["select-layout"@, "-t"@, target@, layout@]);
    r
}

/// `tmux select-pane` arguments that set a pane's title.
pub fn title_args(pane_id: &str, title: &str) -> (r: Vec<String>)
    ensures
        views_of(r@) == seq!["select-pane"@, "-t"@, pane_id@, "-T"@, title@],
{
    let r = vec![String::from_str("select-pane"), String::from_str("-t"), String::from_str(pane_id), String::from_str("-T"), String::from_str(title)];
    assert(views_of(r@) =~= seq!["select-pane"@, "-t"@, pane_id@, "-T"@, title@]);
    r
}

/// `tmux send-keys` arguments that run one command in a pane via `sh -c`.
pub fn send_args(pane_id: &str, command: &str) -> (r: Vec<String>)
    ensures
        views_of(r@) == seq!["send-keys"@, "-t"@, pane_id@, "sh -c '"@ + escaped(command@) + "'"@, "Enter"@],
{
    let r = vec![String::from_str("send-keys"), String::from_str("-t"), String::from_str(pane_id), sh_wrap(command), String::from_str("Enter")];
    assert(views_of(r@) =~= seq!["send-keys"@, "-t"@, pane_id@, "sh -c '"@ + escaped(command@) + "'"@, "Enter"@]);
    r
}

} // verus!
