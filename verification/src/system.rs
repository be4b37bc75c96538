//! System commands: power actions, the colour picker, a Gemini shortcut,
//! the current time, and killing processes by name, port or PID. What the
//! system reports (time, processes, ports) is handed in as plain values.
use vstd::prelude::*;
use vstd::utf8::encode_utf8;
use crate::plugin::{ResultView, SearchResult, append_results, lemma_views_push, make_result, views};
use crate::text::{
    append_chars, append_str, chars_of, contains, contains_chars, decimal, decimal_chars, eq_str,
    join_colon, join_colon_from, parse_u32, parse_u32_chars, split_char, split_chars, split_colon,
    split_colon_chars,
    starts_with, starts_with_chars, starts_with_str, string_of, sub_vec, to_lowercase, trim,
    trim_chars, lowercase,
};

verus! {

/// A fixed system command.
pub struct SystemCommand {
    pub id: &'static str,
    pub name: &'static str,
    pub description: &'static str,
    pub icon: &'static str,
    pub argv: Vec<&'static str>,
}

/// The mathematical content of a [`SystemCommand`].
pub struct CommandView {
    pub id: Seq<char>,
    pub name: Seq<char>,
    pub description: Seq<char>,
    pub icon: Seq<char>,
    pub argv: Seq<Seq<char>>,
}

impl View for SystemCommand {
    type V = CommandView;

    open spec fn view(&self) -> CommandView {
        CommandView {
            id: self.id@,
            name: self.name@,
            description: self.description@,
            icon: self.icon@,
            argv: self.argv@.map_values(|a: &'static str| a@),
        }
    }
}

/// The commands a new plugin offers.
pub open spec fn default_commands() -> Seq<CommandView> {
    seq![
        CommandView {
            id: "sys:lock"@,
            name: "Lock Screen"@,
            description: "Lock the current session via loginctl"@,
            icon: "system-lock-screen"@,
            argv: seq!["loginctl"@, "lock-session"@],
        },
        CommandView {
            id: "sys:picker"@,
            name: "Color Picker"@,
            description: "Pick a color from the screen using XDG Portal"@,
            icon: "color-picker"@,
            argv: seq![],
        },
        CommandView {
            id: "sys:suspend"@,
            name: "Suspend"@,
            description: "Suspend the system to RAM"@,
            icon: "system-suspend"@,
            argv: seq!["systemctl"@, "suspend"@],
        },
        CommandView {
            id: "sys:reboot"@,
            name: "Reboot"@,
            description: "Restart the system"@,
            icon: "system-reboot"@,
            argv: seq!["systemctl"@, "reboot"@],
        },
        CommandView {
            id: "sys:shutdown"@,
            name: "Shutdown"@,
            description: "Power off the system"@,
            icon: "system-shutdown"@,
            argv: seq!["systemctl"@, "poweroff"@],
        },
    ]
}

/// What the system reports for a query: the current time and date, and
/// the processes that match a kill target.
pub struct SystemFacts {
    /// The local time, as the title of the time result.
    pub time: String,
    /// The local date, as its description.
    pub date: String,
    /// The PIDs listening on the port that the target names, each with its
    /// process name if it is known (`None` when nothing listens).
    pub port_pids: Option<Vec<(u32, Option<String>)>>,
    /// The name of the process whose PID the target is, if there is one.
    pub pid_name: Option<String>,
    /// The processes whose names contain the target, ordered by PID.
    pub name_matches: Vec<(u32, String)>,
}

/// The mathematical content of [`SystemFacts`].
pub struct FactsView {
    pub time: Seq<char>,
    pub date: Seq<char>,
    pub port_pids: Option<Seq<(u32, Option<Seq<char>>)>>,
    pub pid_name: Option<Seq<char>>,
    pub name_matches: Seq<(u32, Seq<char>)>,
}

pub open spec fn port_entry_view(e: (u32, Option<String>)) -> (u32, Option<Seq<char>>) {
    (e.0, crate::plugin::opt_text(e.1))
}

impl View for SystemFacts {
    type V = FactsView;

    open spec fn view(&self) -> FactsView {
        FactsView {
            time: self.time@,
            date: self.date@,
            port_pids: match self.port_pids {
                Some(v) => Some(v@.map_values(|e: (u32, Option<String>)| port_entry_view(e))),
                None => None,
            },
            pid_name: crate::plugin::opt_text(self.pid_name),
            name_matches: self.name_matches@.map_values(|e: (u32, String)| (e.0, e.1@)),
        }
    }
}

/// The query as the plugin compares it: trimmed and lowercased.
pub open spec fn normalized(query: Seq<char>) -> Seq<char> {
    lowercase(trim(query))
}

/// `q` is the start of `word` and at least three bytes long.
pub open spec fn abbreviates(word: Seq<char>, q: Seq<char>) -> bool {
    starts_with(word, q) && encode_utf8(q).len() >= 3
}

pub open spec fn is_time_word(q: Seq<char>) -> bool {
    abbreviates("time"@, q) || abbreviates("zeit"@, q) || abbreviates("date"@, q) || abbreviates(
        "datum"@,
        q,
    )
}

pub open spec fn command_matches(c: CommandView, q: Seq<char>) -> bool {
    contains(lowercase(c.name), q) || contains(lowercase(c.id), q)
}

pub open spec fn sys_accepts(cmds: Seq<CommandView>, query: Seq<char>) -> bool {
    let q = normalized(query);
    &&& q.len() > 0
    &&& (starts_with(q, "kill"@) || abbreviates("gemini"@, q) || is_time_word(q) || exists|i: int|
        0 <= i < cmds.len() && command_matches(#[trigger] cmds[i], q))
}

pub open spec fn stop_result(id: Seq<char>, title: Seq<char>, desc: Seq<char>, score: i32) -> ResultView {
    ResultView {
        id: id,
        title: title,
        description: Some(desc),
        icon: Some("process-stop"@),
        score: score,
        last_used: None,
    }
}

pub open spec fn kill_title(comm: Seq<char>, pid: u32) -> Seq<char> {
    "Kill '"@ + comm + "' (PID "@ + decimal(pid as nat) + ")"@
}

/// Results for the PIDs listening on port `num`.
pub open spec fn port_results(num: u32, pids: Seq<(u32, Option<Seq<char>>)>) -> Seq<ResultView> {
    pids.map_values(
        |e: (u32, Option<Seq<char>>)|
            stop_result(
                "sys:kill:port:"@ + decimal(num as nat) + ":"@ + decimal(e.0 as nat),
                kill_title(
                    match e.1 {
                        Some(n) => n,
                        None => "unknown"@,
                    },
                    e.0,
                ),
                "Listening on port "@ + decimal(num as nat),
                100,
            ),
    )
}

/// The id of some result already names this PID.
pub open spec fn names_pid(acc: Seq<ResultView>, pid: u32) -> bool {
    exists|i: int|
        0 <= i < acc.len() && (acc[i].id == "sys:kill:pid:"@ + decimal(pid as nat) || ends_with(
            acc[i].id,
            ":"@ + decimal(pid as nat),
        ))
}

pub open spec fn ends_with(s: Seq<char>, p: Seq<char>) -> bool {
    p.len() <= s.len() && s.skip(s.len() - p.len()) == p
}

/// Appends a result for each matching process whose PID no earlier result names.
pub open spec fn add_name_results(acc: Seq<ResultView>, ms: Seq<(u32, Seq<char>)>) -> Seq<
    ResultView,
>
    decreases ms.len(),
{
    if ms.len() == 0 {
        acc
    } else {
        let (pid, comm) = ms[0];
        let next = if names_pid(acc, pid) {
            acc
        } else {
            acc.push(
                stop_result(
                    "sys:kill:name:"@ + comm + ":"@ + decimal(pid as nat),
                    kill_title(comm, pid),
                    "Process ID "@ + decimal(pid as nat),
                    88,
                ),
            )
        };
        add_name_results(next, ms.drop_first())
    }
}

/// The suggestions for a numeric target: the processes on that port, then
/// the process with that PID.
pub open spec fn numeric_kill_results(target: Seq<char>, f: FactsView) -> Seq<ResultView> {
    match parse_u32(target) {
        Some(num) => {
            let by_port = match f.port_pids {
                Some(p) => port_results(num, p),
                None => Seq::empty(),
            };
            let by_pid = match f.pid_name {
                Some(comm) => seq![
                    stop_result(
                        "sys:kill:pid:"@ + decimal(num as nat),
                        kill_title(comm, num),
                        "Process ID "@ + decimal(num as nat),
                        95,
                    ),
                ],
                None => Seq::empty(),
            };
            by_port + by_pid
        },
        None => Seq::empty(),
    }
}

pub open spec fn kill_all_result(target: Seq<char>) -> ResultView {
    stop_result(
        "sys:kill:all:"@ + target,
        "Kill all '"@ + target + "' processes"@,
        "Terminate all processes with names containing '"@ + target + "'"@,
        92,
    )
}

/// The kill suggestions for `target`.
pub open spec fn kill_results(target: Seq<char>, f: FactsView) -> Seq<ResultView> {
    let numeric = numeric_kill_results(target, f);
    if f.name_matches.len() == 0 {
        numeric
    } else {
        let with_all = numeric.push(kill_all_result(target));
        let first = if f.name_matches.len() > 10 {
            f.name_matches.take(10)
        } else {
            f.name_matches
        };
        add_name_results(with_all, first)
    }
}

/// The target of a `kill <target>` query, if there is a non-empty one.
pub open spec fn kill_target_of(query: Seq<char>) -> Option<Seq<char>> {
    let q = normalized(query);
    if q != "kill"@ && starts_with(q, "kill "@) {
        let rest = if query.len() >= 5 {
            query.skip(5)
        } else {
            Seq::empty()
        };
        if trim(rest).len() > 0 {
            Some(trim(rest))
        } else {
            None
        }
    } else {
        None
    }
}

pub open spec fn gemini_result() -> ResultView {
    ResultView {
        id: "sys:gemini"@,
        title: "Open Gemini"@,
        description: Some("Open https://gemini.google.com/app?hl=de"@),
        icon: Some("google"@),
        score: 1000,
        last_used: None,
    }
}

pub open spec fn kill_help_result() -> ResultView {
    ResultView {
        id: "sys:kill_help"@,
        title: "Kill a process"@,
        description: Some("Type 'kill <name>', 'kill <port>', or 'kill <PID>'"@),
        icon: Some("process-stop"@),
        score: 95,
        last_used: None,
    }
}

pub open spec fn time_result(f: FactsView) -> ResultView {
    ResultView {
        id: "sys:time:"@ + f.time,
        title: f.time,
        description: Some(f.date),
        icon: Some("preferences-system-time"@),
        score: 1000,
        last_used: None,
    }
}

pub open spec fn command_result(c: CommandView) -> ResultView {
    ResultView {
        id: c.id,
        title: c.name,
        description: Some(c.description),
        icon: Some(c.icon),
        score: 80,
        last_used: None,
    }
}

/// The results for the matching commands, in command order.
pub open spec fn command_results(cmds: Seq<CommandView>, q: Seq<char>) -> Seq<ResultView>
    decreases cmds.len(),
{
    if cmds.len() == 0 {
        Seq::empty()
    } else {
        let rest = command_results(cmds.drop_last(), q);
        if command_matches(cmds.last(), q) {
            rest.push(command_result(cmds.last()))
        } else {
            rest
        }
    }
}

/// The results of a query: the Gemini shortcut, the kill help or kill
/// suggestions, the current time, then the matching commands.
pub open spec fn sys_query(cmds: Seq<CommandView>, query: Seq<char>, f: FactsView) -> Seq<
    ResultView,
> {
    let q = normalized(query);
    if q.len() == 0 {
        Seq::empty()
    } else {
        let gemini = if abbreviates("gemini"@, q) {
            seq![gemini_result()]
        } else {
            Seq::empty()
        };
        let kill = if q == "kill"@ {
            seq![kill_help_result()]
        } else {
            match kill_target_of(query) {
                Some(t) => kill_results(t, f),
                None => Seq::empty(),
            }
        };
        let time = if is_time_word(q) {
            seq![time_result(f)]
        } else {
            Seq::empty()
        };
        gemini + kill + time + command_results(cmds, q)
    }
}

/// What executing a system result amounts to.
pub enum SystemAction {
    /// Close the launcher (the colour picker takes over).
    Close,
    /// Stay open.
    KeepOpen,
    /// Open this URL in the default browser.
    OpenUrl(String),
    /// Copy this text to the clipboard, then close.
    Copy(String),
    /// Kill every process whose command line contains this text.
    KillAll(String),
    /// Kill the process with this PID.
    KillPid(u32),
    /// Run this program with these arguments.
    Run(Vec<String>),
    /// The result cannot be executed, for this reason.
    Error(String),
}

/// The mathematical content of a [`SystemAction`].
pub enum SystemActionView {
    Close,
    KeepOpen,
    OpenUrl(Seq<char>),
    Copy(Seq<char>),
    KillAll(Seq<char>),
    KillPid(u32),
    Run(Seq<Seq<char>>),
    Error(Seq<char>),
}

impl View for SystemAction {
    type V = SystemActionView;

    open spec fn view(&self) -> SystemActionView {
        match self {
            SystemAction::Close => SystemActionView::Close,
            SystemAction::KeepOpen => SystemActionView::KeepOpen,
            SystemAction::OpenUrl(u) => SystemActionView::OpenUrl(u@),
            SystemAction::Copy(t) => SystemActionView::Copy(t@),
            SystemAction::KillAll(t) => SystemActionView::KillAll(t@),
            SystemAction::KillPid(p) => SystemActionView::KillPid(*p),
            SystemAction::Run(a) => SystemActionView::Run(a@.map_values(|s: String| s@)),
            SystemAction::Error(m) => SystemActionView::Error(m@),
        }
    }
}

/// Index of the command whose id is `id`.
pub open spec fn command_with_id(cmds: Seq<CommandView>, id: Seq<char>, from: int) -> Option<int>
    decreases cmds.len() - from,
{
    if from < 0 || from >= cmds.len() {
        None
    } else if cmds[from].id == id {
        Some(from)
    } else {
        command_with_id(cmds, id, from + 1)
    }
}

/// The action for a `sys:kill:` id, split at `:` into `parts`.
pub open spec fn kill_action(parts: Seq<Seq<char>>) -> SystemActionView {
    if parts.len() >= 4 && parts[2] == "all"@ {
        SystemActionView::KillAll(join_colon(parts.skip(3)))
    } else if parts.len() >= 4 {
        match parse_u32(parts.last()) {
            Some(pid) => SystemActionView::KillPid(pid),
            None => SystemActionView::Error("Invalid kill command format"@),
        }
    } else if parts.len() == 3 {
        match parse_u32(parts[2]) {
            Some(pid) => SystemActionView::KillPid(pid),
            None => SystemActionView::Error("Invalid kill command format"@),
        }
    } else {
        SystemActionView::Error("Invalid kill command format"@)
    }
}

pub open spec fn sys_action(cmds: Seq<CommandView>, id: Seq<char>) -> SystemActionView {
    if id == "sys:picker"@ {
        SystemActionView::Close
    } else if id == "sys:gemini"@ {
        SystemActionView::OpenUrl("https://gemini.google.com/app?hl=de"@)
    } else if starts_with(id, "sys:time:"@) {
        SystemActionView::Copy(id.skip(9))
    } else if id == "sys:kill_help"@ {
        SystemActionView::KeepOpen
    } else if starts_with(id, "sys:kill:"@) {
        kill_action(split_colon(id))
    } else {
        match command_with_id(cmds, id, 0) {
            Some(k) => if cmds[k].argv.len() == 0 {
                SystemActionView::Error("No execute arguments provided"@)
            } else {
                SystemActionView::Run(cmds[k].argv)
            },
            None => SystemActionView::Error("Invalid system command ID"@),
        }
    }
}

/// An id of the form `sys:kill:<rest>` is resolved by its `:`-separated parts.
proof fn lemma_kill_id(cmds: Seq<CommandView>, rest: Seq<char>)
    ensures
        sys_action(cmds, "sys:kill:"@ + rest) == kill_action(seq!["sys"@, "kill"@] + split_colon(rest)),
{
    reveal_strlit("sys:kill:");
    reveal_strlit("sys");
    reveal_strlit("kill");
    reveal_strlit("sys:picker");
    reveal_strlit("sys:gemini");
    reveal_strlit("sys:time:");
    reveal_strlit("sys:kill_help");
    let id = "sys:kill:"@ + rest;
    assert(id[4] == 'k');
    assert(id != "sys:picker"@) by {
        assert("sys:picker"@[4] == 'p');
    }
    assert(id != "sys:gemini"@) by {
        assert("sys:gemini"@[4] == 'g');
    }
    assert(!starts_with(id, "sys:time:"@)) by {
        assert(id.len() >= 9);
        assert(id.subrange(0, 9)[4] != "sys:time:"@[4]);
    }
    assert(id[8] == ':');
    assert(id != "sys:kill_help"@) by {
        assert("sys:kill_help"@[8] == '_');
    }
    assert(starts_with(id, "sys:kill:"@)) by {
        assert(id.subrange(0, 9) =~= "sys:kill:"@);
    }
    assert(crate::text::lacks("sys"@, ':'));
    assert(crate::text::lacks("kill"@, ':'));
    assert(id =~= "sys"@ + seq![':'] + ("kill"@ + seq![':'] + rest));
    crate::text::lemma_split_front("sys"@, "kill"@ + seq![':'] + rest, ':');
    crate::text::lemma_split_front("kill"@, rest, ':');
    assert(seq!["sys"@] + (seq!["kill"@] + split_colon(rest)) =~= seq!["sys"@, "kill"@]
        + split_colon(rest));
}

/// A word such as `pid`, `port`, `name` or `all` heads the rest of a kill id.
proof fn lemma_kill_parts(word: Seq<char>, tail: Seq<char>)
    requires
        crate::text::lacks(word, ':'),
    ensures
        seq!["sys"@, "kill"@] + split_colon(word + seq![':'] + tail) == seq!["sys"@, "kill"@, word]
            + split_colon(tail),
        (seq!["sys"@, "kill"@] + split_colon(word + seq![':'] + tail)).len() >= 4,
        (seq!["sys"@, "kill"@] + split_colon(word + seq![':'] + tail))[2] == word,
{
    crate::text::lemma_split_front(word, tail, ':');
    crate::text::lemma_split_nonempty(tail, ':');
    assert(seq!["sys"@, "kill"@] + (seq![word] + split_colon(tail)) =~= seq!["sys"@, "kill"@, word]
        + split_colon(tail));
}

/// The suggestion kills what it shows: either every process matching the
/// target, or the process whose PID its title names.
pub open spec fn kills_shown(cmds: Seq<CommandView>, r: ResultView, target: Seq<char>) -> bool {
    ||| (r.id == "sys:kill:all:"@ + target && sys_action(cmds, r.id) == SystemActionView::KillAll(
        target,
    ))
    ||| exists|comm: Seq<char>, p: u32|
        r.title == kill_title(comm, p) && sys_action(cmds, r.id) == SystemActionView::KillPid(p)
}

proof fn lemma_kill_pid_id(cmds: Seq<CommandView>, num: u32)
    ensures
        sys_action(cmds, "sys:kill:pid:"@ + decimal(num as nat)) == SystemActionView::KillPid(num),
{
    reveal_strlit("pid");
    reveal_strlit("sys:kill:pid:");
    reveal_strlit("sys:kill:");
    let d = decimal(num as nat);
    assert("sys:kill:pid:"@ + d =~= "sys:kill:"@ + ("pid"@ + seq![':'] + d));
    lemma_kill_id(cmds, "pid"@ + seq![':'] + d);
    assert(crate::text::lacks("pid"@, ':'));
    lemma_kill_parts("pid"@, d);
    crate::text::lemma_decimal_lacks_colon(num as nat);
    crate::text::lemma_split_whole(d, ':');
    crate::text::lemma_parse_decimal(num as nat);
    reveal_strlit("all");
    assert("pid"@ != "all"@) by {
        assert("pid"@[0] != "all"@[0]);
    }
    let parts = seq!["sys"@, "kill"@, "pid"@] + split_colon(d);
    assert(parts.last() == d);
}

proof fn lemma_kill_last_pid(
    cmds: Seq<CommandView>,
    word: Seq<char>,
    middle: Seq<char>,
    pid: u32,
)
    requires
        crate::text::lacks(word, ':'),
        word != "all"@,
    ensures
        sys_action(cmds, "sys:kill:"@ + (word + seq![':'] + middle + seq![':'] + decimal(pid as nat)))
            == SystemActionView::KillPid(pid),
{
    let d = decimal(pid as nat);
    let rest = word + seq![':'] + (middle + seq![':'] + d);
    assert(word + seq![':'] + middle + seq![':'] + d =~= rest);
    lemma_kill_id(cmds, rest);
    lemma_kill_parts(word, middle + seq![':'] + d);
    crate::text::lemma_decimal_lacks_colon(pid as nat);
    crate::text::lemma_split_last(middle, d, ':');
    crate::text::lemma_parse_decimal(pid as nat);
    let parts = seq!["sys"@, "kill"@, word] + split_colon(middle + seq![':'] + d);
    assert(parts.last() == split_colon(middle + seq![':'] + d).last());
}

proof fn lemma_kill_all_id(cmds: Seq<CommandView>, target: Seq<char>)
    ensures
        sys_action(cmds, "sys:kill:all:"@ + target) == SystemActionView::KillAll(target),
{
    reveal_strlit("all");
    reveal_strlit("sys:kill:all:");
    reveal_strlit("sys:kill:");
    assert("sys:kill:all:"@ + target =~= "sys:kill:"@ + ("all"@ + seq![':'] + target));
    lemma_kill_id(cmds, "all"@ + seq![':'] + target);
    assert(crate::text::lacks("all"@, ':'));
    lemma_kill_parts("all"@, target);
    let parts = seq!["sys"@, "kill"@, "all"@] + split_colon(target);
    assert(parts.skip(3) =~= split_colon(target));
    crate::text::lemma_join_split(target);
}

proof fn lemma_add_name_results_kill(
    cmds: Seq<CommandView>,
    acc: Seq<ResultView>,
    ms: Seq<(u32, Seq<char>)>,
    target: Seq<char>,
)
    requires
        forall|i: int| 0 <= i < acc.len() ==> kills_shown(cmds, #[trigger] acc[i], target),
    ensures
        forall|i: int|
            0 <= i < add_name_results(acc, ms).len() ==> kills_shown(
                cmds,
                #[trigger] add_name_results(acc, ms)[i],
                target,
            ),
    decreases ms.len(),
{
    if ms.len() > 0 {
        let (pid, comm) = ms[0];
        if !names_pid(acc, pid) {
            let r = stop_result(
                "sys:kill:name:"@ + comm + ":"@ + decimal(pid as nat),
                kill_title(comm, pid),
                "Process ID "@ + decimal(pid as nat),
                88,
            );
            reveal_strlit("sys:kill:name:");
            reveal_strlit("sys:kill:");
            reveal_strlit("name");
            reveal_strlit(":");
            reveal_strlit("all");
            assert(crate::text::lacks("name"@, ':'));
            assert("name"@ != "all"@) by {
                assert("name"@.len() != "all"@.len());
            }
            assert(r.id =~= "sys:kill:"@ + ("name"@ + seq![':'] + comm + seq![':'] + decimal(
                pid as nat,
            )));
            lemma_kill_last_pid(cmds, "name"@, comm, pid);
            assert(kills_shown(cmds, r, target));
            let next = acc.push(r);
            assert forall|i: int| 0 <= i < next.len() implies kills_shown(cmds, #[trigger] next[i], target) by {
                if i < acc.len() {
                    assert(next[i] == acc[i]);
                }
            }
            lemma_add_name_results_kill(cmds, next, ms.drop_first(), target);
            assert(add_name_results(acc, ms) == add_name_results(next, ms.drop_first()));
        } else {
            lemma_add_name_results_kill(cmds, acc, ms.drop_first(), target);
            assert(add_name_results(acc, ms) == add_name_results(acc, ms.drop_first()));
        }
    }
}

/// Each kill suggestion kills what it shows: the suggestion for all
/// processes matching the target kills them all, and every other suggestion
/// kills the process whose PID its title names.
pub proof fn lemma_kill_roundtrip(cmds: Seq<CommandView>, target: Seq<char>, f: FactsView, i: int)
    requires
        0 <= i < kill_results(target, f).len(),
    ensures
        kills_shown(cmds, kill_results(target, f)[i], target),
{
    let numeric = numeric_kill_results(target, f);
    assert forall|j: int| 0 <= j < numeric.len() implies kills_shown(cmds, #[trigger] numeric[j], target) by {
        match parse_u32(target) {
            Some(num) => {
                let by_port = match f.port_pids {
                    Some(p) => port_results(num, p),
                    None => Seq::empty(),
                };
                if j < by_port.len() {
                    let p = f.port_pids.unwrap();
                    let e = p[j];
                    let comm = match e.1 {
                        Some(n) => n,
                        None => "unknown"@,
                    };
                    assert(numeric[j] == by_port[j]);
                    reveal_strlit("sys:kill:port:");
                    reveal_strlit("sys:kill:");
                    reveal_strlit("port");
                    reveal_strlit(":");
                    reveal_strlit("all");
                    assert(crate::text::lacks("port"@, ':'));
                    assert("port"@ != "all"@) by {
                        assert("port"@.len() != "all"@.len());
                    }
                    assert(by_port[j].id =~= "sys:kill:"@ + ("port"@ + seq![':'] + decimal(num as nat)
                        + seq![':'] + decimal(e.0 as nat)));
                    lemma_kill_last_pid(cmds, "port"@, decimal(num as nat), e.0);
                    assert(by_port[j].title == kill_title(comm, e.0));
                } else {
                    let comm = f.pid_name.unwrap();
                    assert(numeric[j] == stop_result(
                        "sys:kill:pid:"@ + decimal(num as nat),
                        kill_title(comm, num),
                        "Process ID "@ + decimal(num as nat),
                        95,
                    ));
                    lemma_kill_pid_id(cmds, num);
                }
            },
            None => {},
        }
    }
    if f.name_matches.len() > 0 {
        lemma_kill_all_id(cmds, target);
        let with_all = numeric.push(kill_all_result(target));
        assert forall|j: int| 0 <= j < with_all.len() implies kills_shown(cmds, #[trigger] with_all[j], target) by {
            if j < numeric.len() {
                assert(with_all[j] == numeric[j]);
            }
        }
        let first = if f.name_matches.len() > 10 {
            f.name_matches.take(10)
        } else {
            f.name_matches
        };
        lemma_add_name_results_kill(cmds, with_all, first, target);
    }
}

/// Activating the time result copies the time it shows.
pub proof fn lemma_time_roundtrip(cmds: Seq<CommandView>, f: FactsView)
    ensures
        sys_action(cmds, time_result(f).id) == SystemActionView::Copy(f.time),
{
    reveal_strlit("sys:time:");
    reveal_strlit("sys:picker");
    reveal_strlit("sys:gemini");
    let id = time_result(f).id;
    assert(id[4] == 't');
    assert(id != "sys:picker"@) by {
        assert("sys:picker"@[4] == 'p');
    }
    assert(id != "sys:gemini"@) by {
        assert("sys:gemini"@[4] == 'g');
    }
    assert(starts_with(id, "sys:time:"@)) by {
        assert(id.subrange(0, 9) =~= "sys:time:"@);
    }
    assert(id.skip(9) =~= f.time);
}

proof fn lemma_command_with_id_first(cmds: Seq<CommandView>, id: Seq<char>, k: int, from: int)
    requires
        0 <= from <= k < cmds.len(),
        cmds[k].id == id,
        forall|j: int| 0 <= j < k ==> #[trigger] cmds[j].id != id,
    ensures
        command_with_id(cmds, id, from) == Some(k),
    decreases k - from,
{
    if from < k {
        lemma_command_with_id_first(cmds, id, k, from + 1);
    }
}

/// Activating a listed command does what it offers: the colour picker
/// closes the launcher for the picker, every other command runs its program.
pub proof fn lemma_command_roundtrip(k: int)
    requires
        0 <= k < default_commands().len(),
    ensures
        sys_action(default_commands(), default_commands()[k].id) == if default_commands()[k].id
            == "sys:picker"@ {
            SystemActionView::Close
        } else {
            SystemActionView::Run(default_commands()[k].argv)
        },
{
    let cmds = default_commands();
    let id = cmds[k].id;
    reveal_strlit("sys:lock");
    reveal_strlit("sys:picker");
    reveal_strlit("sys:suspend");
    reveal_strlit("sys:reboot");
    reveal_strlit("sys:shutdown");
    reveal_strlit("sys:gemini");
    reveal_strlit("sys:time:");
    reveal_strlit("sys:kill_help");
    reveal_strlit("sys:kill:");
    reveal_strlit("loginctl");
    reveal_strlit("lock-session");
    reveal_strlit("systemctl");
    assert(id.len() >= 8 && id[4] != 'g' && id[4] != 't' && id[4] != 'k');
    assert(id != "sys:gemini"@) by {
        assert("sys:gemini"@[4] == 'g');
    }
    assert(!starts_with(id, "sys:time:"@)) by {
        if id.len() >= 9 {
            assert(id.subrange(0, 9)[4] != "sys:time:"@[4]);
        }
    }
    assert(id != "sys:kill_help"@) by {
        assert("sys:kill_help"@[4] == 'k');
    }
    assert(!starts_with(id, "sys:kill:"@)) by {
        if id.len() >= 9 {
            assert(id.subrange(0, 9)[4] != "sys:kill:"@[4]);
        }
    }
    assert(forall|j: int| 0 <= j < k ==> #[trigger] cmds[j].id != id) by {
        assert forall|j: int| 0 <= j < k implies #[trigger] cmds[j].id != id by {
            assert(cmds[j].id[5] != id[5] || cmds[j].id.len() != id.len());
        }
    }
    lemma_command_with_id_first(cmds, id, k, 0);
}

/// Each built-in command runs the program its title names: locking asks
/// `loginctl` to lock the session, and suspend, reboot and shutdown ask
/// `systemctl` to suspend, reboot and power off; no two commands run the
/// same program.
pub proof fn lemma_power_commands()
    ensures
        sys_action(default_commands(), "sys:lock"@) == SystemActionView::Run(
            seq!["loginctl"@, "lock-session"@],
        ),
        sys_action(default_commands(), "sys:suspend"@) == SystemActionView::Run(
            seq!["systemctl"@, "suspend"@],
        ),
        sys_action(default_commands(), "sys:reboot"@) == SystemActionView::Run(
            seq!["systemctl"@, "reboot"@],
        ),
        sys_action(default_commands(), "sys:shutdown"@) == SystemActionView::Run(
            seq!["systemctl"@, "poweroff"@],
        ),
        forall|i: int, j: int|
            0 <= i < j < default_commands().len() && default_commands()[i].argv.len() > 0
                ==> #[trigger] default_commands()[i].argv != #[trigger] default_commands()[j].argv,
{
    let cmds = default_commands();
    lemma_command_roundtrip(0);
    lemma_command_roundtrip(2);
    lemma_command_roundtrip(3);
    lemma_command_roundtrip(4);
    reveal_strlit("sys:lock");
    reveal_strlit("sys:picker");
    reveal_strlit("sys:suspend");
    reveal_strlit("sys:reboot");
    reveal_strlit("sys:shutdown");
    reveal_strlit("loginctl");
    reveal_strlit("systemctl");
    reveal_strlit("suspend");
    reveal_strlit("reboot");
    reveal_strlit("poweroff");
    assert(cmds[0].id != "sys:picker"@ && cmds[2].id != "sys:picker"@ && cmds[3].id != "sys:picker"@
        && cmds[4].id != "sys:picker"@) by {
        assert(cmds[0].id.len() != 10);
        assert(cmds[2].id[4] != 'p');
        assert(cmds[3].id[4] != 'p');
        assert(cmds[4].id[4] != 'p');
    }
    assert forall|i: int, j: int|
        0 <= i < j < cmds.len() && cmds[i].argv.len() > 0 implies #[trigger] cmds[i].argv
        != #[trigger] cmds[j].argv by {
        reveal_strlit("lock-session");
        assert(cmds[1].argv.len() == 0);
        assert(cmds[0].argv.len() == 2 && cmds[0].argv[1].len() == 12);
        assert(cmds[2].argv.len() == 2 && cmds[2].argv[1].len() == 7);
        assert(cmds[3].argv.len() == 2 && cmds[3].argv[1].len() == 6);
        assert(cmds[4].argv.len() == 2 && cmds[4].argv[1].len() == 8);
        if cmds[i].argv == cmds[j].argv {
            assert(cmds[i].argv.len() == cmds[j].argv.len());
            assert(cmds[i].argv[1].len() == cmds[j].argv[1].len());
        }
    }
}

/// The system plugin with its fixed commands.
pub struct SystemPlugin {
    commands: Vec<SystemCommand>,
}

} // verus!

verus! {

fn normalized_exec(query: &str) -> (r: Vec<char>)
    ensures
        r@ == normalized(query@),
{
    let v = chars_of(query);
    let t = trim_chars(&v);
    let ts = string_of(t.as_slice());
    let lower = to_lowercase(ts.as_str());
    chars_of(lower.as_str())
}

fn abbreviates_exec(word: &str, q: &Vec<char>) -> (r: bool)
    ensures
        r == abbreviates(word@, q@),
{
    let w = chars_of(word);
    if !starts_with_chars(&w, q) {
        return false;
    }
    let qs = string_of(q.as_slice());
    qs.as_str().as_bytes().len() >= 3
}

fn is_time_word_exec(q: &Vec<char>) -> (r: bool)
    ensures
        r == is_time_word(q@),
{
    abbreviates_exec("time", q) || abbreviates_exec("zeit", q) || abbreviates_exec("date", q)
        || abbreviates_exec("datum", q)
}

fn lowercase_chars(s: &str) -> (r: Vec<char>)
    ensures
        r@ == lowercase(s@),
{
    let l = to_lowercase(s);
    chars_of(l.as_str())
}

fn command_matches_exec(c: &SystemCommand, q: &Vec<char>) -> (r: bool)
    ensures
        r == command_matches(c@, q@),
{
    let name = lowercase_chars(c.name);
    if contains_chars(&name, q) {
        return true;
    }
    let id = lowercase_chars(c.id);
    contains_chars(&id, q)
}

fn stop_result_exec(id: &Vec<char>, title: &Vec<char>, desc: &Vec<char>, score: i32) -> (r:
    SearchResult)
    ensures
        r@ == stop_result(id@, title@, desc@, score),
{
    let icon = chars_of("process-stop");
    make_result(id, title, Some(desc), Some(&icon), score)
}

fn kill_title_exec(comm: &Vec<char>, pid: u32) -> (r: Vec<char>)
    ensures
        r@ == kill_title(comm@, pid),
{
    let mut t = chars_of("Kill '");
    append_chars(&mut t, comm);
    append_str(&mut t, "' (PID ");
    append_chars(&mut t, &decimal_chars(pid as u64));
    append_str(&mut t, ")");
    t
}

fn ends_with_chars(s: &Vec<char>, p: &Vec<char>) -> (r: bool)
    ensures
        r == ends_with(s@, p@),
{
    if p.len() > s.len() {
        return false;
    }
    let tail = sub_vec(s, s.len() - p.len(), s.len());
    assert(tail@ =~= s@.skip(s.len() - p.len()));
    crate::text::eq_chars(&tail, p)
}

fn names_pid_exec(acc: &Vec<SearchResult>, pid: u32) -> (r: bool)
    ensures
        r == names_pid(views(acc@), pid),
{
    let mut pid_id = chars_of("sys:kill:pid:");
    append_chars(&mut pid_id, &decimal_chars(pid as u64));
    let mut suffix = chars_of(":");
    append_chars(&mut suffix, &decimal_chars(pid as u64));
    let ghost v = views(acc@);
    let mut i: usize = 0;
    while i < acc.len()
        invariant
            i <= acc.len(),
            v == views(acc@),
            pid_id@ == "sys:kill:pid:"@ + decimal(pid as nat),
            suffix@ == ":"@ + decimal(pid as nat),
            forall|j: int|
                0 <= j < i ==> !(v[j].id == "sys:kill:pid:"@ + decimal(pid as nat) || ends_with(
                    v[j].id,
                    ":"@ + decimal(pid as nat),
                )),
        decreases acc.len() - i,
    {
        let id = chars_of(acc[i].id.as_str());
        if crate::text::eq_chars(&id, &pid_id) || ends_with_chars(&id, &suffix) {
            assert(v[i as int].id == id@);
            return true;
        }
        i = i + 1;
    }
    false
}

impl SystemPlugin {
    pub closed spec fn commands(&self) -> Seq<CommandView> {
        self.commands@.map_values(|c: SystemCommand| c@)
    }

    /// A plugin with the built-in commands.
    pub fn new() -> (r: Self)
        ensures
            r.commands() == default_commands(),
    {
        let mut commands = Vec::new();
        let mut a = Vec::new();
        a.push("loginctl");
        a.push("lock-session");
        commands.push(
            SystemCommand {
                id: "sys:lock",
                name: "Lock Screen",
                description: "Lock the current session via loginctl",
                icon: "system-lock-screen",
                argv: a,
            },
        );
        commands.push(
            SystemCommand {
                id: "sys:picker",
                name: "Color Picker",
                description: "Pick a color from the screen using XDG Portal",
                icon: "color-picker",
                argv: Vec::new(),
            },
        );
        let mut b = Vec::new();
        b.push("systemctl");
        b.push("suspend");
        commands.push(
            SystemCommand {
                id: "sys:suspend",
                name: "Suspend",
                description: "Suspend the system to RAM",
                icon: "system-suspend",
                argv: b,
            },
        );
        let mut c = Vec::new();
        c.push("systemctl");
        c.push("reboot");
        commands.push(
            SystemCommand {
                id: "sys:reboot",
                name: "Reboot",
                description: "Restart the system",
                icon: "system-reboot",
                argv: c,
            },
        );
        let mut d = Vec::new();
        d.push("systemctl");
        d.push("poweroff");
        commands.push(
            SystemCommand {
                id: "sys:shutdown",
                name: "Shutdown",
                description: "Power off the system",
                icon: "system-shutdown",
                argv: d,
            },
        );
        let r = SystemPlugin { commands };
        assert(r.commands()[0].argv =~= seq!["loginctl"@, "lock-session"@]);
        assert(r.commands()[1].argv =~= Seq::<Seq<char>>::empty());
        assert(r.commands()[2].argv =~= seq!["systemctl"@, "suspend"@]);
        assert(r.commands()[3].argv =~= seq!["systemctl"@, "reboot"@]);
        assert(r.commands()[4].argv =~= seq!["systemctl"@, "poweroff"@]);
        assert(r.commands() =~= default_commands());
        r
    }

    /// The identifier under which the router knows this plugin.
    pub fn id(&self) -> (r: &'static str)
        ensures
            r@ == "system"@,
    {
        "system"
    }

    fn any_command_matches(&self, q: &Vec<char>) -> (r: bool)
        ensures
            r == exists|i: int|
                0 <= i < self.commands().len() && command_matches(#[trigger] self.commands()[i], q@),
    {
        let mut i: usize = 0;
        while i < self.commands.len()
            invariant
                i <= self.commands.len(),
                forall|j: int| 0 <= j < i ==> !command_matches(#[trigger] self.commands()[j], q@),
            decreases self.commands.len() - i,
        {
            assert(self.commands()[i as int] == self.commands@[i as int]@);
            if command_matches_exec(&self.commands[i], q) {
                return true;
            }
            i = i + 1;
        }
        false
    }

    /// Whether the (trimmed, lowercased) query asks for a kill, the Gemini
    /// shortcut, the time, or names a command.
    pub fn accepts(&self, query: &str) -> (r: bool)
        ensures
            r == sys_accepts(self.commands(), query@),
    {
        let q = normalized_exec(query);
        if q.len() == 0 {
            return false;
        }
        if starts_with_str(&q, "kill") {
            return true;
        }
        if abbreviates_exec("gemini", &q) {
            return true;
        }
        if is_time_word_exec(&q) {
            return true;
        }
        self.any_command_matches(&q)
    }

    /// Whether the query asks for the current time (and so needs it).
    pub fn is_time_query(&self, query: &str) -> (r: bool)
        ensures
            r == (normalized(query@).len() > 0 && is_time_word(normalized(query@))),
    {
        let q = normalized_exec(query);
        q.len() > 0 && is_time_word_exec(&q)
    }

    /// The target of a `kill <target>` query, for which the system is asked
    /// about ports and processes.
    pub fn kill_target(&self, query: &str) -> (r: Option<String>)
        ensures
            match r {
                Some(t) => kill_target_of(query@) == Some(t@),
                None => kill_target_of(query@) is None,
            },
    {
        let q = normalized_exec(query);
        if eq_str(&q, "kill") || !starts_with_str(&q, "kill ") {
            return None;
        }
        let v = chars_of(query);
        let rest = if v.len() >= 5 {
            sub_vec(&v, 5, v.len())
        } else {
            Vec::new()
        };
        assert(v@.len() >= 5 ==> rest@ =~= v@.skip(5));
        let t = trim_chars(&rest);
        if t.len() > 0 {
            Some(string_of(t.as_slice()))
        } else {
            None
        }
    }

    fn command_results_exec(&self, q: &Vec<char>) -> (r: Vec<SearchResult>)
        ensures
            views(r@) == command_results(self.commands(), q@),
    {
        let mut r: Vec<SearchResult> = Vec::new();
        let mut i: usize = 0;
        assert(self.commands().take(0) =~= Seq::<CommandView>::empty());
        while i < self.commands.len()
            invariant
                i <= self.commands.len(),
                views(r@) == command_results(self.commands().take(i as int), q@),
            decreases self.commands.len() - i,
        {
            let c = &self.commands[i];
            assert(self.commands()[i as int] == c@);
            assert(self.commands().take(i + 1).drop_last() =~= self.commands().take(i as int));
            if command_matches_exec(c, q) {
                let id = chars_of(c.id);
                let name = chars_of(c.name);
                let desc = chars_of(c.description);
                let icon = chars_of(c.icon);
                let ghost before = views(r@);
                r.push(make_result(&id, &name, Some(&desc), Some(&icon), 80));
                assert(views(r@) =~= before.push(command_result(c@)));
            } else {
                assert(views(r@) =~= command_results(self.commands().take(i + 1), q@));
            }
            i = i + 1;
        }
        assert(self.commands().take(i as int) =~= self.commands());
        r
    }

    /// The results of a query, given what the system reports.
    pub fn query_with(&self, query: &str, facts: &SystemFacts) -> (r: Vec<SearchResult>)
        ensures
            views(r@) == sys_query(self.commands(), query@, facts@),
    {
        let q = normalized_exec(query);
        let mut r: Vec<SearchResult> = Vec::new();
        if q.len() == 0 {
            assert(views(r@) =~= Seq::<ResultView>::empty());
            return r;
        }
        if abbreviates_exec("gemini", &q) {
            let id = chars_of("sys:gemini");
            let title = chars_of("Open Gemini");
            let desc = chars_of("Open https://gemini.google.com/app?hl=de");
            let icon = chars_of("google");
            r.push(make_result(&id, &title, Some(&desc), Some(&icon), 1000));
        }
        let ghost g = views(r@);
        if eq_str(&q, "kill") {
            let id = chars_of("sys:kill_help");
            let title = chars_of("Kill a process");
            let desc = chars_of("Type 'kill <name>', 'kill <port>', or 'kill <PID>'");
            let icon = chars_of("process-stop");
            r.push(make_result(&id, &title, Some(&desc), Some(&icon), 95));
            assert(views(r@) =~= g + seq![kill_help_result()]);
        } else {
            match self.kill_target(query) {
                Some(t) => {
                    let k = kill_results_exec(&t, facts);
                    append_results(&mut r, &k);
                },
                None => {
                    assert(views(r@) =~= g + Seq::<ResultView>::empty());
                },
            }
        }
        let ghost gk = views(r@);
        if is_time_word_exec(&q) {
            let mut id = chars_of("sys:time:");
            let time = chars_of(facts.time.as_str());
            append_chars(&mut id, &time);
            let date = chars_of(facts.date.as_str());
            let icon = chars_of("preferences-system-time");
            r.push(make_result(&id, &time, Some(&date), Some(&icon), 1000));
            assert(views(r@) =~= gk + seq![time_result(facts@)]);
        } else {
            assert(views(r@) =~= gk + Seq::<ResultView>::empty());
        }
        let ghost gkt = views(r@);
        let cmds = self.command_results_exec(&q);
        append_results(&mut r, &cmds);
        assert(views(r@) =~= sys_query(self.commands(), query@, facts@));
        r
    }

    fn command_index(&self, id: &Vec<char>) -> (r: Option<usize>)
        ensures
            match r {
                Some(k) => k < self.commands.len() && command_with_id(self.commands(), id@, 0)
                    == Some(k as int),
                None => command_with_id(self.commands(), id@, 0) is None,
            },
    {
        let mut i: usize = 0;
        while i < self.commands.len()
            invariant
                i <= self.commands.len(),
                command_with_id(self.commands(), id@, 0) == command_with_id(
                    self.commands(),
                    id@,
                    i as int,
                ),
            decreases self.commands.len() - i,
        {
            assert(self.commands()[i as int] == self.commands@[i as int]@);
            if eq_str(id, self.commands[i].id) {
                return Some(i);
            }
            i = i + 1;
        }
        None
    }

    /// What executing the result `result_id` does.
    pub fn resolve(&self, result_id: &str) -> (a: SystemAction)
        ensures
            a@ == sys_action(self.commands(), result_id@),
    {
        let id = chars_of(result_id);
        if eq_str(&id, "sys:picker") {
            return SystemAction::Close;
        }
        if eq_str(&id, "sys:gemini") {
            return SystemAction::OpenUrl(String::from_str("https://gemini.google.com/app?hl=de"));
        }
        if starts_with_str(&id, "sys:time:") {
            proof {
                reveal_strlit("sys:time:");
            }
            let rest = sub_vec(&id, 9, id.len());
            assert(rest@ =~= id@.skip(9));
            return SystemAction::Copy(string_of(rest.as_slice()));
        }
        if eq_str(&id, "sys:kill_help") {
            return SystemAction::KeepOpen;
        }
        if starts_with_str(&id, "sys:kill:") {
            let parts = split_colon_chars(&id);
            let ghost ps = parts@.map_values(|p: Vec<char>| p@);
            if parts.len() >= 4 && eq_str(&parts[2], "all") {
                return SystemAction::KillAll(string_of(join_colon_from(&parts, 3).as_slice()));
            } else if parts.len() >= 4 {
                assert(ps.last() == parts@[parts.len() - 1]@);
                return match parse_u32_chars(&parts[parts.len() - 1]) {
                    Some(pid) => SystemAction::KillPid(pid),
                    None => SystemAction::Error(String::from_str("Invalid kill command format")),
                };
            } else if parts.len() == 3 {
                return match parse_u32_chars(&parts[2]) {
                    Some(pid) => SystemAction::KillPid(pid),
                    None => SystemAction::Error(String::from_str("Invalid kill command format")),
                };
            }
            return SystemAction::Error(String::from_str("Invalid kill command format"));
        }
        match self.command_index(&id) {
            Some(k) => {
                let cmd = &self.commands[k];
                assert(self.commands()[k as int] == cmd@);
                if cmd.argv.len() == 0 {
                    SystemAction::Error(String::from_str("No execute arguments provided"))
                } else {
                    let mut args: Vec<String> = Vec::new();
                    let mut j: usize = 0;
                    while j < cmd.argv.len()
                        invariant
                            j <= cmd.argv.len(),
                            args@.map_values(|s: String| s@) == cmd@.argv.take(j as int),
                        decreases cmd.argv.len() - j,
                    {
                        let a = String::from_str(cmd.argv[j]);
                        let ghost before = args@;
                        args.push(a);
                        assert(args@ == before.push(a));
                        assert(args@.map_values(|s: String| s@) =~= before.map_values(
                            |s: String| s@,
                        ).push(a@));
                        assert(cmd@.argv[j as int] == cmd.argv@[j as int]@);
                        assert(args@.map_values(|s: String| s@) =~= cmd@.argv.take(j + 1));
                        j = j + 1;
                    }
                    assert(cmd@.argv.take(j as int) =~= cmd@.argv);
                    SystemAction::Run(args)
                }
            },
            None => SystemAction::Error(String::from_str("Invalid system command ID")),
        }
    }
}

fn port_results_exec(num: u32, pids: &Vec<(u32, Option<String>)>) -> (r: Vec<SearchResult>)
    ensures
        views(r@) == port_results(
            num,
            pids@.map_values(|e: (u32, Option<String>)| port_entry_view(e)),
        ),
{
    let ghost pv = pids@.map_values(|e: (u32, Option<String>)| port_entry_view(e));
    let mut r: Vec<SearchResult> = Vec::new();
    let mut i: usize = 0;
    while i < pids.len()
        invariant
            i <= pids.len(),
            pv == pids@.map_values(|e: (u32, Option<String>)| port_entry_view(e)),
            views(r@) == port_results(num, pv.take(i as int)),
        decreases pids.len() - i,
    {
        let (pid, name) = (pids[i].0, &pids[i].1);
        let comm = match name {
            Some(n) => chars_of(n.as_str()),
            None => chars_of("unknown"),
        };
        let mut id = chars_of("sys:kill:port:");
        append_chars(&mut id, &decimal_chars(num as u64));
        append_str(&mut id, ":");
        append_chars(&mut id, &decimal_chars(pid as u64));
        let title = kill_title_exec(&comm, pid);
        let mut desc = chars_of("Listening on port ");
        append_chars(&mut desc, &decimal_chars(num as u64));
        let x = stop_result_exec(&id, &title, &desc, 100);
        assert(pv[i as int] == (pid, crate::plugin::opt_text(pids@[i as int].1)));
        assert(comm@ == match pv[i as int].1 {
            Some(n) => n,
            None => "unknown"@,
        });
        proof {
            lemma_views_push(r@, x);
        }
        r.push(x);
        assert(port_results(num, pv.take(i + 1)) =~= port_results(num, pv.take(i as int)).push(
            x@,
        ));
        i = i + 1;
    }
    assert(pv.take(i as int) =~= pv);
    r
}

fn kill_results_exec(target: &String, facts: &SystemFacts) -> (r: Vec<SearchResult>)
    ensures
        views(r@) == kill_results(target@, facts@),
{
    let t = chars_of(target.as_str());
    let mut r: Vec<SearchResult> = Vec::new();
    match parse_u32_chars(&t) {
        Some(num) => {
            match &facts.port_pids {
                Some(p) => {
                    r = port_results_exec(num, p);
                },
                None => {},
            }
            let ghost bp = views(r@);
            match &facts.pid_name {
                Some(comm) => {
                    let mut id = chars_of("sys:kill:pid:");
                    append_chars(&mut id, &decimal_chars(num as u64));
                    let title = kill_title_exec(&chars_of(comm.as_str()), num);
                    let mut desc = chars_of("Process ID ");
                    append_chars(&mut desc, &decimal_chars(num as u64));
                    let x = stop_result_exec(&id, &title, &desc, 95);
                    proof {
                        lemma_views_push(r@, x);
                    }
                    r.push(x);
                    assert(views(r@) =~= bp + seq![x@]);
                },
                None => {
                    assert(views(r@) =~= bp + Seq::<ResultView>::empty());
                },
            }
        },
        None => {
            assert(views(r@) =~= Seq::<ResultView>::empty());
        },
    }
    assert(views(r@) == numeric_kill_results(target@, facts@));
    if facts.name_matches.len() == 0 {
        return r;
    }
    let mut id = chars_of("sys:kill:all:");
    append_chars(&mut id, &t);
    let mut title = chars_of("Kill all '");
    append_chars(&mut title, &t);
    append_str(&mut title, "' processes");
    let mut desc = chars_of("Terminate all processes with names containing '");
    append_chars(&mut desc, &t);
    append_str(&mut desc, "'");
    let x = stop_result_exec(&id, &title, &desc, 92);
    proof {
        lemma_views_push(r@, x);
    }
    r.push(x);
    assert(views(r@) == numeric_kill_results(target@, facts@).push(kill_all_result(target@)));
    let ghost ms = facts@.name_matches;
    let ghost first = if ms.len() > 10 {
        ms.take(10)
    } else {
        ms
    };
    let n: usize = if facts.name_matches.len() > 10 {
        10
    } else {
        facts.name_matches.len()
    };
    let mut i: usize = 0;
    assert(first.skip(0) =~= first);
    while i < n
        invariant
            i <= n <= facts.name_matches.len(),
            ms == facts@.name_matches,
            first.len() == n,
            forall|k: int| 0 <= k < n ==> #[trigger] first[k] == ms[k],
            add_name_results(views(r@), first.skip(i as int)) == kill_results(target@, facts@),
        decreases n - i,
    {
        let pid = facts.name_matches[i].0;
        let comm = chars_of(facts.name_matches[i].1.as_str());
        assert(first.skip(i as int)[0] == (pid, comm@));
        assert(first.skip(i as int).drop_first() =~= first.skip(i + 1));
        if !names_pid_exec(&r, pid) {
            let mut id = chars_of("sys:kill:name:");
            append_chars(&mut id, &comm);
            append_str(&mut id, ":");
            append_chars(&mut id, &decimal_chars(pid as u64));
            let title = kill_title_exec(&comm, pid);
            let mut desc = chars_of("Process ID ");
            append_chars(&mut desc, &decimal_chars(pid as u64));
            let x = stop_result_exec(&id, &title, &desc, 88);
            proof {
                lemma_views_push(r@, x);
            }
            r.push(x);
        }
        i = i + 1;
    }
    assert(first.skip(i as int) =~= Seq::<(u32, Seq<char>)>::empty());
    r
}

} // verus!

verus! {

/// The process ids that `lsof -t` printed: each line (split at `\n`; a `\r`
/// before it is whitespace) trimmed and read as a `u32`, in order, skipping
/// lines that are no such number.
pub open spec fn parsed_pids(lines: Seq<Seq<char>>) -> Seq<u32>
    decreases lines.len(),
{
    if lines.len() == 0 {
        Seq::empty()
    } else {
        parsed_pids(lines.drop_last()) + match parse_u32(trim(lines.last())) {
            Some(p) => seq![p],
            None => Seq::empty(),
        }
    }
}

/// The processes listening on a port, from `lsof -t` output: the ids it
/// lists, or `None` when it lists none.
pub open spec fn port_pids_of(out: Seq<char>) -> Option<Seq<u32>> {
    let p = parsed_pids(split_char(out, '\n'));
    if p.len() > 0 {
        Some(p)
    } else {
        None
    }
}

/// Reads the process ids out of `lsof -t` output (see `port_pids_of`).
pub fn port_pids(stdout: &str) -> (r: Option<Vec<u32>>)
    ensures
        match r {
            Some(v) => port_pids_of(stdout@) == Some(v@),
            None => port_pids_of(stdout@) is None,
        },
{
    let v = chars_of(stdout);
    let lines = split_chars(&v, '\n');
    let ghost ls = lines@.map_values(|p: Vec<char>| p@);
    let mut pids: Vec<u32> = Vec::new();
    let mut i: usize = 0;
    while i < lines.len()
        invariant
            i <= lines.len(),
            ls == lines@.map_values(|p: Vec<char>| p@),
            ls == split_char(v@, '\n'),
            v@ == stdout@,
            pids@ == parsed_pids(ls.take(i as int)),
        decreases lines.len() - i,
    {
        let t = trim_chars(&lines[i]);
        assert(ls.take(i + 1).drop_last() =~= ls.take(i as int));
        assert(ls.take(i + 1).last() == lines@[i as int]@);
        match parse_u32_chars(&t) {
            Some(p) => {
                pids.push(p);
                assert(pids@ =~= parsed_pids(ls.take(i + 1)));
            },
            None => {
                assert(pids@ =~= parsed_pids(ls.take(i + 1)));
            },
        }
        i = i + 1;
    }
    assert(ls.take(i as int) =~= ls);
    if pids.len() > 0 {
        Some(pids)
    } else {
        None
    }
}

/// The process entries as ids with name texts.
pub open spec fn proc_views(v: Seq<(u32, String)>) -> Seq<(u32, Seq<char>)> {
    v.map_values(|e: (u32, String)| (e.0, e.1@))
}

/// A process other than the launcher itself whose lowercase name contains
/// the lowercase query.
pub open spec fn name_match(own_pid: u32, query: Seq<char>, e: (u32, Seq<char>)) -> bool {
    e.0 != own_pid && contains(lowercase(e.1), lowercase(query))
}

/// The entries that match, in their order.
pub open spec fn kept_procs(ps: Seq<(u32, Seq<char>)>, own_pid: u32, query: Seq<char>) -> Seq<(u32, Seq<char>)>
    decreases ps.len(),
{
    if ps.len() == 0 {
        ps
    } else {
        let rest = kept_procs(ps.drop_last(), own_pid, query);
        if name_match(own_pid, query, ps.last()) {
            rest.push(ps.last())
        } else {
            rest
        }
    }
}

/// Number of leading entries whose id is at most `pid`.
pub open spec fn leading_pid_at_most(s: Seq<(u32, Seq<char>)>, pid: u32) -> nat
    decreases s.len(),
{
    if s.len() > 0 && s[0].0 <= pid {
        1 + leading_pid_at_most(s.drop_first(), pid)
    } else {
        0
    }
}

/// Stable sort by ascending id (`sort_by_key` on the id).
pub open spec fn sort_by_pid(s: Seq<(u32, Seq<char>)>) -> Seq<(u32, Seq<char>)>
    decreases s.len(),
{
    if s.len() == 0 {
        s
    } else {
        let sorted = sort_by_pid(s.drop_last());
        let k = leading_pid_at_most(sorted, s.last().0) as int;
        sorted.take(k).push(s.last()) + sorted.skip(k)
    }
}

/// The processes that a kill by name offers: those that match, by ascending id.
pub open spec fn matching_procs(ps: Seq<(u32, Seq<char>)>, own_pid: u32, query: Seq<char>) -> Seq<(u32, Seq<char>)> {
    sort_by_pid(kept_procs(ps, own_pid, query))
}

/// Position at which an entry with id `pid` goes into `sorted`.
fn pid_insert_position(sorted: &Vec<(u32, String)>, pid: u32) -> (k: usize)
    ensures
        k as nat == leading_pid_at_most(proc_views(sorted@), pid),
        k <= sorted.len(),
{
    let ghost v = proc_views(sorted@);
    let mut k: usize = 0;
    assert(v.skip(0) =~= v);
    while k < sorted.len() && sorted[k].0 <= pid
        invariant
            k <= sorted.len(),
            v == proc_views(sorted@),
            leading_pid_at_most(v, pid) == k + leading_pid_at_most(v.skip(k as int), pid),
        decreases sorted.len() - k,
    {
        assert(v.skip(k as int).drop_first() =~= v.skip(k + 1));
        k = k + 1;
    }
    proof {
        if k < sorted.len() {
            assert(v.skip(k as int)[0].0 > pid);
        } else {
            assert(v.skip(k as int).len() == 0);
        }
    }
    k
}

/// The processes to offer for killing by name: every entry but the
/// launcher's own whose lowercase name contains the lowercase query, by
/// ascending id (see `matching_procs`).
pub fn name_matches(procs: &Vec<(u32, String)>, own_pid: u32, query: &str) -> (r: Vec<(u32, String)>)
    ensures
        proc_views(r@) == matching_procs(proc_views(procs@), own_pid, query@),
{
    let ghost ps = proc_views(procs@);
    let lq = chars_of(to_lowercase(query).as_str());
    let mut sorted: Vec<(u32, String)> = Vec::new();
    let mut i: usize = 0;
    assert(ps.take(0) =~= Seq::<(u32, Seq<char>)>::empty());
    while i < procs.len()
        invariant
            i <= procs.len(),
            ps == proc_views(procs@),
            lq@ == lowercase(query@),
            proc_views(sorted@) == sort_by_pid(kept_procs(ps.take(i as int), own_pid, query@)),
        decreases procs.len() - i,
    {
        let pid = procs[i].0;
        let ln = chars_of(to_lowercase(procs[i].1.as_str()).as_str());
        assert(ps.take(i + 1).drop_last() =~= ps.take(i as int));
        assert(ps.take(i + 1).last() == ps[i as int]);
        if pid != own_pid && contains_chars(&ln, &lq) {
            let ghost kept = kept_procs(ps.take(i as int), own_pid, query@);
            assert(kept_procs(ps.take(i + 1), own_pid, query@) == kept.push(ps[i as int]));
            assert(kept.push(ps[i as int]).drop_last() =~= kept);
            let k = pid_insert_position(&sorted, pid);
            let ghost before = proc_views(sorted@);
            sorted.insert(k, (pid, procs[i].1.clone()));
            assert(proc_views(sorted@) =~= before.take(k as int).push(ps[i as int]) + before.skip(k as int));
        }
        i = i + 1;
    }
    assert(ps.take(i as int) =~= ps);
    sorted
}

/// Ids never decrease along the sequence.
pub open spec fn ascending_pids(s: Seq<(u32, Seq<char>)>) -> bool {
    forall|i: int, j: int| 0 <= i < j < s.len() ==> s[i].0 <= s[j].0
}

proof fn lemma_leading_pid(s: Seq<(u32, Seq<char>)>, pid: u32)
    requires
        ascending_pids(s),
    ensures
        leading_pid_at_most(s, pid) <= s.len(),
        forall|i: int| 0 <= i < leading_pid_at_most(s, pid) ==> s[i].0 <= pid,
        forall|i: int| leading_pid_at_most(s, pid) <= i < s.len() ==> s[i].0 > pid,
    decreases s.len(),
{
    if s.len() > 0 {
        let t = s.drop_first();
        assert(ascending_pids(t)) by {
            assert forall|i: int, j: int| 0 <= i < j < t.len() implies t[i].0 <= t[j].0 by {
                assert(t[i] == s[i + 1] && t[j] == s[j + 1]);
            }
        }
        lemma_leading_pid(t, pid);
        if s[0].0 <= pid {
            assert forall|i: int| 0 <= i < leading_pid_at_most(s, pid) implies s[i].0 <= pid by {
                if i > 0 {
                    assert(s[i] == t[i - 1]);
                }
            }
            assert forall|i: int| leading_pid_at_most(s, pid) <= i < s.len() implies s[i].0 > pid by {
                assert(s[i] == t[i - 1]);
            }
        } else {
            assert forall|i: int| 0 <= i < s.len() implies s[i].0 > pid by {
                assert(s[0].0 <= s[i].0 || i == 0);
            }
        }
    }
}

proof fn lemma_sort_by_pid(s: Seq<(u32, Seq<char>)>)
    ensures
        ascending_pids(sort_by_pid(s)),
        sort_by_pid(s).to_multiset() == s.to_multiset(),
    decreases s.len(),
{
    if s.len() > 0 {
        let t = sort_by_pid(s.drop_last());
        let x = s.last();
        lemma_sort_by_pid(s.drop_last());
        lemma_leading_pid(t, x.0);
        let k = leading_pid_at_most(t, x.0) as int;
        let r = sort_by_pid(s);
        assert(r =~= t.insert(k, x));
        assert forall|i: int, j: int| 0 <= i < j < r.len() implies r[i].0 <= r[j].0 by {
            if i < k {
                if j > k {
                    assert(r[j] == t[j - 1]);
                }
            } else if i == k {
                assert(r[j] == t[j - 1]);
            } else {
                assert(r[i] == t[i - 1]);
                assert(r[j] == t[j - 1]);
            }
        }
        vstd::seq_lib::to_multiset_insert(t, k, x);
        assert(s =~= s.drop_last().push(x));
        vstd::seq_lib::to_multiset_build(s.drop_last(), x);
    }
}

proof fn lemma_kept_match(ps: Seq<(u32, Seq<char>)>, own_pid: u32, query: Seq<char>)
    ensures
        forall|i: int| 0 <= i < kept_procs(ps, own_pid, query).len() ==> name_match(
            own_pid,
            query,
            #[trigger] kept_procs(ps, own_pid, query)[i],
        ),
    decreases ps.len(),
{
    if ps.len() > 0 {
        lemma_kept_match(ps.drop_last(), own_pid, query);
        let rest = kept_procs(ps.drop_last(), own_pid, query);
        let k = kept_procs(ps, own_pid, query);
        assert forall|i: int| 0 <= i < k.len() implies name_match(own_pid, query, #[trigger] k[i]) by {
            if i < rest.len() {
                assert(k[i] == rest[i]);
            }
        }
    }
}

/// A kill by name offers exactly the matching processes, each once per
/// entry, by ascending id: every one offered is not the launcher and its
/// lowercase name contains the lowercase query.
pub proof fn lemma_matching_procs(ps: Seq<(u32, Seq<char>)>, own_pid: u32, query: Seq<char>)
    ensures
        ascending_pids(matching_procs(ps, own_pid, query)),
        matching_procs(ps, own_pid, query).to_multiset() == kept_procs(ps, own_pid, query).to_multiset(),
        forall|i: int| 0 <= i < matching_procs(ps, own_pid, query).len() ==> name_match(
            own_pid,
            query,
            #[trigger] matching_procs(ps, own_pid, query)[i],
        ),
        forall|e: (u32, Seq<char>)| ps.contains(e) && name_match(own_pid, query, e)
            ==> matching_procs(ps, own_pid, query).contains(e),
{
    let kept = kept_procs(ps, own_pid, query);
    let m = matching_procs(ps, own_pid, query);
    lemma_sort_by_pid(kept);
    lemma_kept_match(ps, own_pid, query);
    assert forall|i: int| 0 <= i < m.len() implies name_match(own_pid, query, #[trigger] m[i]) by {
        m.to_multiset_ensures();
        kept.to_multiset_ensures();
        assert(m.contains(m[i]));
        assert(m.to_multiset().count(m[i]) > 0);
        assert(kept.contains(m[i]));
        let j = choose|j: int| 0 <= j < kept.len() && kept[j] == m[i];
        assert(name_match(own_pid, query, kept[j]));
    }
    assert forall|e: (u32, Seq<char>)| ps.contains(e) && name_match(own_pid, query, e)
        implies m.contains(e) by {
        lemma_kept_contains(ps, own_pid, query, e);
        m.to_multiset_ensures();
        kept.to_multiset_ensures();
        assert(kept.to_multiset().count(e) > 0);
    }
}

proof fn lemma_kept_contains(ps: Seq<(u32, Seq<char>)>, own_pid: u32, query: Seq<char>, e: (u32, Seq<char>))
    requires
        ps.contains(e),
        name_match(own_pid, query, e),
    ensures
        kept_procs(ps, own_pid, query).contains(e),
    decreases ps.len(),
{
    if ps.last() == e {
        assert(kept_procs(ps, own_pid, query).last() == e);
    } else {
        let j = choose|j: int| 0 <= j < ps.len() && ps[j] == e;
        assert(ps.drop_last()[j] == e);
        lemma_kept_contains(ps.drop_last(), own_pid, query, e);
        let k = kept_procs(ps.drop_last(), own_pid, query);
        let i = choose|i: int| 0 <= i < k.len() && k[i] == e;
        if name_match(own_pid, query, ps.last()) {
            assert(kept_procs(ps, own_pid, query)[i] == e);
        }
    }
}

} // verus!
