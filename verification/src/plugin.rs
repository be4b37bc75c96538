//! The result and action types shared by the router and the plugins, and the
//! interface every plugin provides.
use vstd::prelude::*;

verus! {

/// One entry of the result list.
#[derive(Debug)]
pub struct SearchResult {
    pub id: String,
    pub title: String,
    pub description: Option<String>,
    pub icon: Option<String>,
    pub score: i32,
    pub last_used: Option<u64>,
}

/// The mathematical content of a [`SearchResult`].
pub struct ResultView {
    pub id: Seq<char>,
    pub title: Seq<char>,
    pub description: Option<Seq<char>>,
    pub icon: Option<Seq<char>>,
    pub score: i32,
    pub last_used: Option<u64>,
}

pub open spec fn opt_text(o: Option<String>) -> Option<Seq<char>> {
    match o {
        Some(s) => Some(s@),
        None => None,
    }
}

impl View for SearchResult {
    type V = ResultView;

    open spec fn view(&self) -> ResultView {
        ResultView {
            id: self.id@,
            title: self.title@,
            description: opt_text(self.description),
            icon: opt_text(self.icon),
            score: self.score,
            last_used: self.last_used,
        }
    }
}

/// The views of a list of results.
pub open spec fn views(v: Seq<SearchResult>) -> Seq<ResultView> {
    v.map_values(|r: SearchResult| r@)
}

/// A copy of an optional text.
pub fn clone_opt_string(o: &Option<String>) -> (r: Option<String>)
    ensures
        opt_text(r) == opt_text(*o),
{
    match o {
        Some(s) => Some(s.clone()),
        None => None,
    }
}

impl Clone for SearchResult {
    fn clone(&self) -> (r: Self)
        ensures
            r@ == self@,
    {
        SearchResult {
            id: self.id.clone(),
            title: self.title.clone(),
            description: clone_opt_string(&self.description),
            icon: clone_opt_string(&self.icon),
            score: self.score,
            last_used: self.last_used,
        }
    }
}

/// Pushing a result appends its view.
pub proof fn lemma_views_push(v: Seq<SearchResult>, x: SearchResult)
    ensures
        views(v.push(x)) == views(v).push(x@),
{
    assert(views(v.push(x)) =~= views(v).push(x@));
}

/// Appends copies of the results of `more` to `r`.
pub fn append_results(r: &mut Vec<SearchResult>, more: &Vec<SearchResult>)
    ensures
        views(final(r)@) == views(old(r)@) + views(more@),
{
    let ghost start = views(r@);
    let mut j: usize = 0;
    while j < more.len()
        invariant
            j <= more.len(),
            views(r@) == start + views(more@).take(j as int),
        decreases more.len() - j,
    {
        let x = more[j].clone();
        proof {
            lemma_views_push(r@, x);
        }
        r.push(x);
        assert(views(more@).take(j + 1) =~= views(more@).take(j as int).push(more@[j as int]@));
        assert(views(r@) =~= start + views(more@).take(j + 1));
        j = j + 1;
    }
    assert(views(more@).take(j as int) =~= views(more@));
}

/// A result built from character sequences.
pub fn make_result(
    id: &Vec<char>,
    title: &Vec<char>,
    description: Option<&Vec<char>>,
    icon: Option<&Vec<char>>,
    score: i32,
) -> (r: SearchResult)
    ensures
        r@ == (ResultView {
            id: id@,
            title: title@,
            description: match description {
                Some(d) => Some(d@),
                None => None,
            },
            icon: match icon {
                Some(i) => Some(i@),
                None => None,
            },
            score: score,
            last_used: None,
        }),
{
    let description = match description {
        Some(d) => Some(crate::text::string_of(d.as_slice())),
        None => None,
    };
    let icon = match icon {
        Some(i) => Some(crate::text::string_of(i.as_slice())),
        None => None,
    };
    SearchResult {
        id: crate::text::string_of(id.as_slice()),
        title: crate::text::string_of(title.as_slice()),
        description,
        icon,
        score,
        last_used: None,
    }
}

/// What the user interface does after an item was executed.
#[derive(Debug, PartialEq, Eq)]
pub enum ExecutionResult {
    CloseLauncher,
    KeepOpen,
    Error(String),
}

/// The interface of a plugin: its identifier, whether it handles a query,
/// the results it offers for it, and the execution of one of its results.
/// Each spec function below says which answers of the method beside it are
/// possible; every method promises an answer within it. The defaults admit
/// every answer, so an implementation that states nothing promises nothing,
/// and one that narrows them says exactly what it does.
pub trait LauncherPlugin {
    /// `id` is an identifier that `id` may give.
    closed spec fn has_id(&self, id: Seq<char>) -> bool {
        true
    }

    /// `r` is an answer that `accepts` may give for `query`.
    closed spec fn accepted(&self, query: Seq<char>, r: bool) -> bool {
        true
    }

    /// `results` is an answer that `query` may give for `query`.
    closed spec fn answers(&self, query: Seq<char>, results: Seq<ResultView>) -> bool {
        true
    }

    /// `r` is an outcome that `execute` may give for `result_id`.
    closed spec fn executed(&self, result_id: Seq<char>, shift_pressed: bool, r: ExecutionResult) -> bool {
        true
    }

    fn id(&self) -> (r: &str)
        ensures
            self.has_id(r@),
    ;

    fn accepts(&self, query: &str) -> (r: bool)
        ensures
            self.accepted(query@, r),
    ;

    fn query(&self, query: &str) -> (r: Vec<SearchResult>)
        ensures
            self.answers(query@, views(r@)),
    ;

    fn execute(&self, result_id: &str, shift_pressed: bool) -> (r: ExecutionResult)
        ensures
            self.executed(result_id@, shift_pressed, r),
    ;
}

} // verus!
