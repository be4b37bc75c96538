//! Switching to an open window: matching the compositor's client list
//! against a query and deciding how to bring the chosen window forward.
use vstd::prelude::*;
use crate::fuzzy::{fuzzy_score, skim_score};
use crate::plugin::{ResultView, SearchResult, lemma_views_push, opt_text, views};
use crate::router::{sort_by_score, sort_results};
use crate::text::{
    append_chars, append_str, chars_of, eq_str, starts_with, starts_with_str, string_of, sub_vec,
    to_lowercase, trim, trim_chars, lowercase,
};

verus! {

/// A workspace as the compositor reports it.
pub struct Workspace {
    pub id: i32,
    pub name: String,
}

/// A client window as the compositor reports it.
pub struct WindowInfo {
    pub address: Option<String>,
    pub class: Option<String>,
    pub title: Option<String>,
    pub workspace: Option<Workspace>,
}

/// The mathematical content of a [`WindowInfo`].
pub struct WindowView {
    pub address: Option<Seq<char>>,
    pub class: Option<Seq<char>>,
    pub title: Option<Seq<char>>,
    pub workspace: Option<(i32, Seq<char>)>,
}

impl View for WindowInfo {
    type V = WindowView;

    open spec fn view(&self) -> WindowView {
        WindowView {
            address: opt_text(self.address),
            class: opt_text(self.class),
            title: opt_text(self.title),
            workspace: match self.workspace {
                Some(w) => Some((w.id, w.name@)),
                None => None,
            },
        }
    }
}

pub open spec fn window_views(w: Seq<WindowInfo>) -> Seq<WindowView> {
    w.map_values(|x: WindowInfo| x@)
}

pub open spec fn or_empty(o: Option<Seq<char>>) -> Seq<char> {
    match o {
        Some(s) => s,
        None => Seq::empty(),
    }
}

pub open spec fn window_accepts(query: Seq<char>) -> bool {
    starts_with(trim(query), "w:"@) || trim(query).len() == 0
}

/// The search term: the trimmed query without a `w:` prefix, trimmed again.
pub open spec fn window_term(query: Seq<char>) -> Seq<char> {
    let q = trim(query);
    if starts_with(q, "w:"@) {
        trim(q.skip(2))
    } else {
        q
    }
}

/// A window's score: 50 for an empty term, else the fuzzy score of
/// `"<class> <title>"`; `None` when the term does not match.
pub open spec fn window_score(w: WindowView, term: Seq<char>) -> Option<i32> {
    if term.len() == 0 {
        Some(50)
    } else {
        match skim_score(or_empty(w.class) + " "@ + or_empty(w.title), term) {
            Some(s) => Some(s as i32),
            None => None,
        }
    }
}

pub open spec fn window_result(w: WindowView, score: i32) -> ResultView {
    ResultView {
        id: "win:"@ + or_empty(w.address),
        title: or_empty(w.title),
        description: None,
        icon: Some(lowercase(or_empty(w.class))),
        score: score,
        last_used: None,
    }
}

pub open spec fn window_results(wins: Seq<WindowView>, term: Seq<char>) -> Seq<ResultView>
    decreases wins.len(),
{
    if wins.len() == 0 {
        Seq::empty()
    } else {
        let r = window_results(wins.drop_last(), term);
        match window_score(wins.last(), term) {
            Some(s) => r.push(window_result(wins.last(), s)),
            None => r,
        }
    }
}

pub open spec fn window_query(wins: Seq<WindowView>, query: Seq<char>) -> Seq<ResultView> {
    sort_by_score(window_results(wins, window_term(query)))
}

proof fn lemma_window_results_all(wins: Seq<WindowView>, term: Seq<char>)
    requires
        term.len() == 0,
    ensures
        window_results(wins, term).len() == wins.len(),
    decreases wins.len(),
{
    if wins.len() > 0 {
        lemma_window_results_all(wins.drop_last(), term);
    }
}

/// The window list is ranked by descending score, and a query without a
/// search term (such as the empty query or `w:`) lists every window.
pub proof fn lemma_window_query(wins: Seq<WindowView>, query: Seq<char>)
    ensures
        crate::router::descending(window_query(wins, query)),
        window_term(query).len() == 0 ==> window_query(wins, query).len() == wins.len(),
{
    crate::router::lemma_sort_by_score(window_results(wins, window_term(query)));
    if window_term(query).len() == 0 {
        lemma_window_results_all(wins, window_term(query));
    }
}

/// The result shows some window of the list.
pub open spec fn shown_window(r: ResultView, wins: Seq<WindowView>) -> bool {
    exists|k: int| shows_window(r, wins, k)
}

/// The result shows window `k` and names it by its address.
pub open spec fn shows_window(r: ResultView, wins: Seq<WindowView>, k: int) -> bool {
    &&& 0 <= k < wins.len()
    &&& r.id == "win:"@ + or_empty(wins[k].address)
    &&& r.title == or_empty(wins[k].title)
}

proof fn lemma_window_results_show(wins: Seq<WindowView>, term: Seq<char>)
    ensures
        forall|j: int|
            0 <= j < window_results(wins, term).len() ==> #[trigger] shown_window(
                window_results(wins, term)[j],
                wins,
            ),
    decreases wins.len(),
{
    if wins.len() > 0 {
        let d = wins.drop_last();
        lemma_window_results_show(d, term);
        let prev = window_results(d, term);
        let r = window_results(wins, term);
        let last = wins.len() - 1;
        assert(r == prev || (r.len() == prev.len() + 1 && r.drop_last() == prev && shows_window(
            r.last(),
            wins,
            last,
        ))) by {
            match window_score(wins.last(), term) {
                Some(sc) => {
                    assert(r.drop_last() =~= prev);
                    assert(wins[last] == wins.last());
                },
                None => {},
            }
        }
        assert forall|j: int| 0 <= j < r.len() implies #[trigger] shown_window(r[j], wins) by {
            if j < prev.len() {
                if r != prev {
                    assert(r[j] == r.drop_last()[j]);
                }
                assert(r[j] == prev[j]);
                assert(shown_window(prev[j], d));
                let k = choose|k: int| shows_window(prev[j], d, k);
                assert(wins[k] == d[k]);
                assert(shows_window(r[j], wins, k));
            } else {
                assert(r[j] == r.last());
                assert(shows_window(r[j], wins, last));
            }
        }
    } else {
        assert(window_results(wins, term).len() == 0);
    }
}

/// Every window result is owned by the window switcher: the router sends
/// its execution back to the plugin with this plugin's identifier.
pub proof fn lemma_window_results_owned(wins: Seq<WindowView>, query: Seq<char>, i: int)
    requires
        0 <= i < window_query(wins, query).len(),
    ensures
        crate::router::owner_of(window_query(wins, query)[i].id) == Some("window_switcher"@),
{
    let xs = window_results(wins, window_term(query));
    crate::router::lemma_sort_by_score(xs);
    let r = window_query(wins, query)[i];
    assert(xs.to_multiset().count(r) > 0) by {
        window_query(wins, query).to_multiset_ensures();
        assert(window_query(wins, query).contains(r));
        xs.to_multiset_ensures();
    }
    xs.to_multiset_ensures();
    let j = choose|j: int| 0 <= j < xs.len() && xs[j] == r;
    lemma_window_results_show(wins, window_term(query));
    assert(shown_window(xs[j], wins));
    let k = choose|k: int| shows_window(xs[j], wins, k);
    crate::router::lemma_result_owners(or_empty(wins[k].address));
}

/// Activating a listed window brings that window forward: each result is
/// titled after some window and resolves to focusing its address (a
/// stand-in window only closes the launcher).
pub proof fn lemma_window_roundtrip(wins: Seq<WindowView>, query: Seq<char>, i: int)
    requires
        0 <= i < window_query(wins, query).len(),
    ensures
        exists|k: int|
            0 <= k < wins.len() && window_query(wins, query)[i].title == or_empty(wins[k].title)
                && window_action(window_query(wins, query)[i].id) == (if starts_with(
                or_empty(wins[k].address),
                "0xmock"@,
            ) {
                WindowActionView::Close
            } else {
                WindowActionView::Focus(or_empty(wins[k].address))
            }),
{
    let xs = window_results(wins, window_term(query));
    crate::router::lemma_sort_by_score(xs);
    let r = window_query(wins, query)[i];
    assert(xs.to_multiset().count(r) > 0) by {
        window_query(wins, query).to_multiset_ensures();
        assert(window_query(wins, query).contains(r));
        xs.to_multiset_ensures();
    }
    xs.to_multiset_ensures();
    let j = choose|j: int| 0 <= j < xs.len() && xs[j] == r;
    lemma_window_results_show(wins, window_term(query));
    assert(shown_window(xs[j], wins));
    let k = choose|k: int| shows_window(xs[j], wins, k);
    reveal_strlit("win:");
    assert(r.id.skip(4) =~= or_empty(wins[k].address));
    assert(starts_with(r.id, "win:"@)) by {
        assert(r.id.subrange(0, 4) =~= "win:"@);
    }
}

/// What activating a window result does.
pub enum WindowAction {
    /// A stand-in window: nothing to focus; close the launcher.
    Close,
    /// Focus the window with this address.
    Focus(String),
    /// The result cannot be used, for this reason.
    Error(String),
}

/// The mathematical content of a [`WindowAction`].
pub enum WindowActionView {
    Close,
    Focus(Seq<char>),
    Error(Seq<char>),
}

impl View for WindowAction {
    type V = WindowActionView;

    open spec fn view(&self) -> WindowActionView {
        match self {
            WindowAction::Close => WindowActionView::Close,
            WindowAction::Focus(a) => WindowActionView::Focus(a@),
            WindowAction::Error(m) => WindowActionView::Error(m@),
        }
    }
}

pub open spec fn window_action(result_id: Seq<char>) -> WindowActionView {
    if starts_with(result_id, "win:"@) {
        let address = result_id.skip(4);
        if starts_with(address, "0xmock"@) {
            WindowActionView::Close
        } else {
            WindowActionView::Focus(address)
        }
    } else {
        WindowActionView::Error("Invalid window action ID"@)
    }
}

/// The workspace of the first window with this address, if it has one.
pub open spec fn workspace_of(wins: Seq<WindowView>, address: Seq<char>, from: int) -> Option<i32>
    decreases wins.len() - from,
{
    if from < 0 || from >= wins.len() {
        None
    } else if wins[from].address == Some(address) {
        match wins[from].workspace {
            Some(w) => Some(w.0),
            None => None,
        }
    } else {
        workspace_of(wins, address, from + 1)
    }
}

/// The stand-in windows shown where no compositor answers.
pub open spec fn mock_window_views() -> Seq<WindowView> {
    seq![
        WindowView {
            address: Some("0xmock1"@),
            class: Some("firefox"@),
            title: Some("Mozilla Firefox (Mock)"@),
            workspace: Some((1i32, "1"@)),
        },
        WindowView {
            address: Some("0xmock2"@),
            class: Some("kitty"@),
            title: Some("Terminal - Cargo Watch (Mock)"@),
            workspace: Some((2i32, "2"@)),
        },
        WindowView {
            address: Some("0xmock3"@),
            class: Some("codium"@),
            title: Some("Visual Studio Code - launcher (Mock)"@),
            workspace: Some((3i32, "3"@)),
        },
    ]
}

fn mock_window(address: &str, class: &str, title: &str, ws: i32, ws_name: &str) -> (w: WindowInfo)
    ensures
        w@ == (WindowView {
            address: Some(address@),
            class: Some(class@),
            title: Some(title@),
            workspace: Some((ws, ws_name@)),
        }),
{
    WindowInfo {
        address: Some(String::from_str(address)),
        class: Some(String::from_str(class)),
        title: Some(String::from_str(title)),
        workspace: Some(Workspace { id: ws, name: String::from_str(ws_name) }),
    }
}

fn text_or_empty(o: &Option<String>) -> (r: Vec<char>)
    ensures
        r@ == or_empty(opt_text(*o)),
{
    match o {
        Some(s) => chars_of(s.as_str()),
        None => Vec::new(),
    }
}

/// The workspace to switch to before focusing a window: the window's own,
/// when it is known and differs from the active one.
pub fn workspace_switch(target: Option<i32>, active: Option<i32>) -> (r: Option<i32>)
    ensures
        r == match (target, active) {
            (Some(t), Some(a)) => if a != t {
                Some(t)
            } else {
                None
            },
            _ => None,
        },
{
    match (target, active) {
        (Some(t), Some(a)) => if a != t {
            Some(t)
        } else {
            None
        },
        _ => None,
    }
}

/// The workspace of the first window with this address, if it has one.
pub fn target_workspace(windows: &Vec<WindowInfo>, address: &str) -> (r: Option<i32>)
    ensures
        r == workspace_of(window_views(windows@), address@, 0),
{
    let ghost wv = window_views(windows@);
    let mut i: usize = 0;
    while i < windows.len()
        invariant
            i <= windows.len(),
            wv == window_views(windows@),
            workspace_of(wv, address@, 0) == workspace_of(wv, address@, i as int),
        decreases windows.len() - i,
    {
        assert(wv[i as int] == windows@[i as int]@);
        match &windows[i].address {
            Some(a) => {
                if eq_str(&chars_of(a.as_str()), address) {
                    return match &windows[i].workspace {
                        Some(w) => Some(w.id),
                        None => None,
                    };
                }
            },
            None => {},
        }
        i = i + 1;
    }
    None
}

/// The window switcher plugin.
pub struct WindowSwitcherPlugin {}

impl WindowSwitcherPlugin {
    pub fn new() -> (r: Self) {
        WindowSwitcherPlugin {}
    }

    /// The identifier under which the router knows this plugin.
    pub fn id(&self) -> (r: &'static str)
        ensures
            r@ == "window_switcher"@,
    {
        "window_switcher"
    }

    /// Queries that start with `w:`, and the empty query.
    pub fn accepts(&self, query: &str) -> (r: bool)
        ensures
            r == window_accepts(query@),
    {
        let t = trim_chars(&chars_of(query));
        starts_with_str(&t, "w:") || t.len() == 0
    }

    /// The stand-in windows shown where no compositor answers.
    pub fn mock_windows() -> (r: Vec<WindowInfo>)
        ensures
            window_views(r@) == mock_window_views(),
    {
        let mut r = Vec::new();
        r.push(mock_window("0xmock1", "firefox", "Mozilla Firefox (Mock)", 1, "1"));
        r.push(mock_window("0xmock2", "kitty", "Terminal - Cargo Watch (Mock)", 2, "2"));
        r.push(mock_window("0xmock3", "codium", "Visual Studio Code - launcher (Mock)", 3, "3"));
        assert(window_views(r@) =~= mock_window_views());
        r
    }

    /// The windows that match the query, by descending score.
    pub fn query_with(&self, query: &str, windows: &Vec<WindowInfo>) -> (r: Vec<SearchResult>)
        ensures
            views(r@) == window_query(window_views(windows@), query@),
    {
        let q = trim_chars(&chars_of(query));
        let term_chars = if starts_with_str(&q, "w:") {
            proof {
                reveal_strlit("w:");
            }
            let rest = sub_vec(&q, 2, q.len());
            assert(rest@ =~= q@.skip(2));
            trim_chars(&rest)
        } else {
            q.clone()
        };
        let term = string_of(term_chars.as_slice());
        assert(term@ == window_term(query@));
        let ghost wv = window_views(windows@);
        let mut results: Vec<SearchResult> = Vec::new();
        let mut i: usize = 0;
        assert(wv.take(0) =~= Seq::<WindowView>::empty());
        while i < windows.len()
            invariant
                i <= windows.len(),
                wv == window_views(windows@),
                views(results@) == window_results(wv.take(i as int), term@),
            decreases windows.len() - i,
        {
            let w = &windows[i];
            assert(wv[i as int] == w@);
            assert(wv.take(i + 1).drop_last() =~= wv.take(i as int));
            assert(wv.take(i + 1).last() == w@);
            let class = text_or_empty(&w.class);
            let title = text_or_empty(&w.title);
            let score: Option<i32> = if term.as_str().is_empty() {
                Some(50)
            } else {
                let mut text = class.clone();
                append_str(&mut text, " ");
                append_chars(&mut text, &title);
                match fuzzy_score(string_of(text.as_slice()).as_str(), term.as_str()) {
                    Some(s) => Some(s as i32),
                    None => None,
                }
            };
            match score {
                Some(score) => {
                    let mut id = chars_of("win:");
                    append_chars(&mut id, &text_or_empty(&w.address));
                    let x = SearchResult {
                        id: string_of(id.as_slice()),
                        title: string_of(title.as_slice()),
                        description: None,
                        icon: Some(to_lowercase(string_of(class.as_slice()).as_str())),
                        score,
                        last_used: None,
                    };
                    proof {
                        lemma_views_push(results@, x);
                    }
                    results.push(x);
                },
                None => {},
            }
            i = i + 1;
        }
        assert(wv.take(i as int) =~= wv);
        sort_results(&results)
    }

    /// What activating the result `result_id` does.
    pub fn resolve(&self, result_id: &str) -> (a: WindowAction)
        ensures
            a@ == window_action(result_id@),
    {
        let id = chars_of(result_id);
        if !starts_with_str(&id, "win:") {
            return WindowAction::Error(String::from_str("Invalid window action ID"));
        }
        proof {
            reveal_strlit("win:");
        }
        let address = sub_vec(&id, 4, id.len());
        assert(address@ =~= id@.skip(4));
        if starts_with_str(&address, "0xmock") {
            WindowAction::Close
        } else {
            WindowAction::Focus(string_of(address.as_slice()))
        }
    }
}

} // verus!
