//! The router: asks the plugins that may handle a query, boosts their results
//! by frecency, falls back to a web search, ranks by score and keeps the top
//! results; and dispatches the execution of a result to the plugin that owns it.
use vstd::prelude::*;
use crate::frecency::{FrecencyStore, after_launch};
use crate::plugin::{ExecutionResult, LauncherPlugin, ResultView, SearchResult, make_result, views};
use crate::text::{
    append_chars, append_str, chars_of, eq_str, starts_with, starts_with_str, string_of, trim,
    trim_chars,
};

verus! {

/// The most results a query returns.
pub const MAX_RESULTS: usize = 15;

/// Number of leading elements whose score is at least `score`.
pub open spec fn leading_at_least(s: Seq<ResultView>, score: i32) -> nat
    decreases s.len(),
{
    if s.len() > 0 && s[0].score >= score {
        1 + leading_at_least(s.drop_first(), score)
    } else {
        0
    }
}

/// `x` inserted after every element whose score is at least its own.
pub open spec fn insert_by_score(s: Seq<ResultView>, x: ResultView) -> Seq<ResultView> {
    let k = leading_at_least(s, x.score) as int;
    s.take(k).push(x) + s.skip(k)
}

/// Stable sort by descending score: higher scores first, equal scores in
/// the order in which they came.
pub open spec fn sort_by_score(s: Seq<ResultView>) -> Seq<ResultView>
    decreases s.len(),
{
    if s.len() == 0 {
        s
    } else {
        insert_by_score(sort_by_score(s.drop_last()), s.last())
    }
}

/// Scores never increase along the sequence.
pub open spec fn descending(s: Seq<ResultView>) -> bool {
    forall|i: int, j: int| 0 <= i < j < s.len() ==> s[i].score >= s[j].score
}

/// The web search offered when no plugin matched a non-empty query.
pub open spec fn fallback_result(q: Seq<char>) -> ResultView {
    ResultView {
        id: "web:Google:"@ + q,
        title: "Search Google for '"@ + q + "'"@,
        description: Some("No local matches found. Search the web instead."@),
        icon: Some("google"@),
        score: 100,
        last_used: None,
    }
}

/// The results with the fallback added when there are none and the query is not empty.
pub open spec fn with_fallback(q: Seq<char>, merged: Seq<ResultView>) -> Seq<ResultView> {
    if merged.len() == 0 && q.len() > 0 {
        seq![fallback_result(q)]
    } else {
        merged
    }
}

/// The final list for the trimmed query `q` and the boosted plugin results `merged`.
pub open spec fn rank(q: Seq<char>, merged: Seq<ResultView>) -> Seq<ResultView> {
    let sorted = sort_by_score(with_fallback(q, merged));
    if sorted.len() > MAX_RESULTS {
        sorted.take(MAX_RESULTS as int)
    } else {
        sorted
    }
}

/// `ids` are identifiers that the first plugins of `ps` may give, in order,
/// and none but possibly the last is `o`.
pub open spec fn asked_ids<P: LauncherPlugin>(ps: Seq<P>, ids: Seq<Seq<char>>, o: Seq<char>) -> bool {
    &&& ids.len() <= ps.len()
    &&& forall|j: int| 0 <= j < ids.len() ==> #[trigger] ps[j].has_id(ids[j])
    &&& forall|j: int| 0 <= j < ids.len() - 1 ==> #[trigger] ids[j] != o
}

/// The error given when no plugin has the owner's identifier.
pub open spec fn not_found_message(o: Seq<char>) -> Seq<char> {
    "Executor plugin '"@ + o + "' not found"@
}

proof fn lemma_not_prefix(p: Seq<char>, a: Seq<char>, q: Seq<char>, i: int)
    requires
        0 <= i < q.len(),
        i < p.len(),
        q[i] != p[i],
    ensures
        !starts_with(p + a, q),
{
    if starts_with(p + a, q) {
        assert((p + a).subrange(0, q.len() as int)[i] == q[i]);
        assert((p + a).subrange(0, q.len() as int)[i] == p[i]);
    }
}

/// Each result-id prefix belongs to the plugin that makes such ids:
/// `app:` to the applications, `calc:` to the calculator, `sys:` to the
/// system commands, `clip:` to the clipboard, `win:` to the window switcher,
/// `web:` to the web search and `tr:` to the translator, whatever follows.
pub proof fn lemma_result_owners(a: Seq<char>)
    ensures
        owner_of("app:"@ + a) == Some("applications"@),
        owner_of("calc:"@ + a) == Some("calculator"@),
        owner_of("sys:"@ + a) == Some("system"@),
        owner_of("clip:"@ + a) == Some("clipboard"@),
        owner_of("win:"@ + a) == Some("window_switcher"@),
        owner_of("web:"@ + a) == Some("web_search"@),
        owner_of("tr:"@ + a) == Some("translator"@),
{
    reveal_strlit("app:");
    reveal_strlit("calc:");
    reveal_strlit("sys:");
    reveal_strlit("clip:");
    reveal_strlit("win:");
    reveal_strlit("web:");
    reveal_strlit("tr:");
    let ps = seq!["app:"@, "calc:"@, "sys:"@, "clip:"@, "win:"@, "web:"@, "tr:"@];
    assert forall|k: int| 0 <= k < 7 implies starts_with(#[trigger] ps[k] + a, ps[k]) by {
        assert((ps[k] + a).subrange(0, ps[k].len() as int) =~= ps[k]);
    }
    assert(starts_with(ps[0] + a, ps[0]) && starts_with(ps[1] + a, ps[1]) && starts_with(ps[2] + a, ps[2])
        && starts_with(ps[3] + a, ps[3]) && starts_with(ps[4] + a, ps[4]) && starts_with(ps[5] + a, ps[5])
        && starts_with(ps[6] + a, ps[6]));
    lemma_not_prefix("calc:"@, a, "app:"@, 0);
    lemma_not_prefix("sys:"@, a, "app:"@, 0);
    lemma_not_prefix("sys:"@, a, "calc:"@, 0);
    lemma_not_prefix("clip:"@, a, "app:"@, 0);
    lemma_not_prefix("clip:"@, a, "calc:"@, 1);
    lemma_not_prefix("clip:"@, a, "sys:"@, 0);
    lemma_not_prefix("win:"@, a, "app:"@, 0);
    lemma_not_prefix("win:"@, a, "calc:"@, 0);
    lemma_not_prefix("win:"@, a, "sys:"@, 0);
    lemma_not_prefix("win:"@, a, "clip:"@, 0);
    lemma_not_prefix("web:"@, a, "app:"@, 0);
    lemma_not_prefix("web:"@, a, "calc:"@, 0);
    lemma_not_prefix("web:"@, a, "sys:"@, 0);
    lemma_not_prefix("web:"@, a, "clip:"@, 0);
    lemma_not_prefix("web:"@, a, "win:"@, 1);
    lemma_not_prefix("tr:"@, a, "app:"@, 0);
    lemma_not_prefix("tr:"@, a, "calc:"@, 0);
    lemma_not_prefix("tr:"@, a, "sys:"@, 0);
    lemma_not_prefix("tr:"@, a, "clip:"@, 0);
    lemma_not_prefix("tr:"@, a, "win:"@, 0);
    lemma_not_prefix("tr:"@, a, "web:"@, 0);
}

/// The trimmed query starts with `!` or `?`: then only the web search plugin is asked.
pub open spec fn gated(t: Seq<char>) -> bool {
    starts_with(t, "!"@) || starts_with(t, "?"@)
}

/// `boost` may answer `b` for the result id `id`.
pub open spec fn boost_gives<F: Fn(&str) -> i32>(boost: F, id: Seq<char>, b: i32) -> bool {
    exists|s: &str| s@ == id && boost.ensures((s,), b)
}

/// `rs` with each score raised by the boost beside it, wrapping on overflow.
pub open spec fn boosted(rs: Seq<ResultView>, bs: Seq<i32>) -> Seq<ResultView> {
    Seq::new(rs.len(), |i: int| ResultView { score: rs[i].score.wrapping_add(bs[i]), ..rs[i] })
}

/// `out` is what plugin `p` contributes to the trimmed query `t`: nothing when
/// the query is gated and `p` is not the web search plugin, nothing when `p`
/// declines the query, and otherwise the results it gives, boosted.
pub open spec fn contribution<P: LauncherPlugin, F: Fn(&str) -> i32>(
    p: P,
    t: Seq<char>,
    boost: F,
    out: Seq<ResultView>,
) -> bool {
    let asked = !gated(t) || p.has_id("web_search"@);
    ||| gated(t) && (exists|id: Seq<char>| p.has_id(id) && id != "web_search"@) && out.len() == 0
    ||| asked && p.accepted(t, false) && out.len() == 0
    ||| asked && p.accepted(t, true) && exists|rs: Seq<ResultView>, bs: Seq<i32>|
        {
            &&& p.answers(t, rs)
            &&& bs.len() == rs.len()
            &&& forall|i: int| 0 <= i < rs.len() ==> boost_gives(boost, rs[i].id, #[trigger] bs[i])
            &&& out == boosted(rs, bs)
        }
}

/// A query that starts with `!` or `?` is for the web search alone: any
/// other plugin contributes nothing to it, whatever it would answer.
pub proof fn lemma_gated_to_web<P: LauncherPlugin, F: Fn(&str) -> i32>(
    p: P,
    t: Seq<char>,
    boost: F,
    out: Seq<ResultView>,
)
    requires
        contribution(p, t, boost, out),
        t.len() > 0 && (t[0] == '!' || t[0] == '?'),
        out.len() > 0,
    ensures
        p.has_id("web_search"@),
{
    reveal_strlit("!");
    reveal_strlit("?");
    if t[0] == '!' {
        assert(t.subrange(0, 1) =~= "!"@);
    } else {
        assert(t.subrange(0, 1) =~= "?"@);
    }
    assert(gated(t));
}

/// The id of the plugin that owns a result id, by the result id's prefix.
pub open spec fn owner_of(result_id: Seq<char>) -> Option<Seq<char>> {
    if starts_with(result_id, "app:"@) {
        Some("applications"@)
    } else if starts_with(result_id, "calc:"@) {
        Some("calculator"@)
    } else if starts_with(result_id, "sys:"@) {
        Some("system"@)
    } else if starts_with(result_id, "clip:"@) {
        Some("clipboard"@)
    } else if starts_with(result_id, "win:"@) {
        Some("window_switcher"@)
    } else if starts_with(result_id, "web:"@) {
        Some("web_search"@)
    } else if starts_with(result_id, "tr:"@) {
        Some("translator"@)
    } else {
        None
    }
}

/// The leading run lies within the sequence and has scores of at least `score`.
pub proof fn lemma_leading_bound(s: Seq<ResultView>, score: i32)
    ensures
        leading_at_least(s, score) <= s.len(),
        forall|i: int| 0 <= i < leading_at_least(s, score) ==> s[i].score >= score,
    decreases s.len(),
{
    if s.len() > 0 && s[0].score >= score {
        lemma_leading_bound(s.drop_first(), score);
        assert forall|i: int| 0 <= i < leading_at_least(s, score) implies s[i].score >= score by {
            if i > 0 {
                assert(s[i] == s.drop_first()[i - 1]);
            }
        }
    }
}

/// In a descending sequence everything after the leading run scores below `score`.
pub proof fn lemma_leading_desc(s: Seq<ResultView>, score: i32)
    requires
        descending(s),
    ensures
        forall|i: int| leading_at_least(s, score) <= i < s.len() ==> s[i].score < score,
    decreases s.len(),
{
    if s.len() > 0 {
        if s[0].score >= score {
            let t = s.drop_first();
            assert(descending(t));
            lemma_leading_desc(t, score);
            assert forall|i: int| leading_at_least(s, score) <= i < s.len() implies s[i].score
                < score by {
                assert(s[i] == t[i - 1]);
            }
        }
    }
}

/// Inserting by score keeps a descending sequence descending.
pub proof fn lemma_insert_desc(s: Seq<ResultView>, x: ResultView)
    requires
        descending(s),
    ensures
        descending(insert_by_score(s, x)),
        insert_by_score(s, x).len() == s.len() + 1,
        insert_by_score(s, x).to_multiset() == s.to_multiset().insert(x),
{
    lemma_leading_bound(s, x.score);
    lemma_leading_desc(s, x.score);
    let k = leading_at_least(s, x.score) as int;
    let r = insert_by_score(s, x);
    assert forall|i: int, j: int| 0 <= i < j < r.len() implies r[i].score >= r[j].score by {
        if i < k {
            if j < k {
            } else if j == k {
            } else {
                assert(r[j] == s[j - 1]);
            }
        } else if i == k {
            assert(r[j] == s[j - 1]);
        } else {
            assert(r[i] == s[i - 1]);
            assert(r[j] == s[j - 1]);
        }
    }
    assert(r =~= s.insert(k, x));
    vstd::seq_lib::to_multiset_insert(s, k, x);
}

/// The sort yields a descending permutation of its input.
pub proof fn lemma_sort_by_score(s: Seq<ResultView>)
    ensures
        descending(sort_by_score(s)),
        sort_by_score(s).len() == s.len(),
        sort_by_score(s).to_multiset() == s.to_multiset(),
    decreases s.len(),
{
    if s.len() > 0 {
        lemma_sort_by_score(s.drop_last());
        lemma_insert_desc(sort_by_score(s.drop_last()), s.last());
        assert(s =~= s.drop_last().push(s.last()));
        vstd::seq_lib::to_multiset_build(s.drop_last(), s.last());
    }
}

/// Every query answer is ordered by descending score, holds at most
/// `MAX_RESULTS` results, each of them a plugin result (or the fallback), holds
/// every one of them when there are no more than `MAX_RESULTS`, and is exactly
/// the web fallback when no plugin matched a non-empty query.
pub proof fn lemma_rank_shape(q: Seq<char>, merged: Seq<ResultView>)
    ensures
        descending(rank(q, merged)),
        rank(q, merged).len() <= MAX_RESULTS,
        rank(q, merged).len() == if with_fallback(q, merged).len() > MAX_RESULTS {
            MAX_RESULTS as int
        } else {
            with_fallback(q, merged).len() as int
        },
        forall|i: int|
            0 <= i < rank(q, merged).len() ==> with_fallback(q, merged).contains(
                #[trigger] rank(q, merged)[i],
            ),
        merged.len() == 0 && q.len() > 0 ==> rank(q, merged) == seq![fallback_result(q)],
        merged.len() == 0 && q.len() == 0 ==> rank(q, merged).len() == 0,
        with_fallback(q, merged).len() <= MAX_RESULTS ==> rank(q, merged).to_multiset()
            == with_fallback(q, merged).to_multiset(),
{
    let w = with_fallback(q, merged);
    lemma_sort_by_score(w);
    let sorted = sort_by_score(w);
    assert forall|i: int| 0 <= i < rank(q, merged).len() implies w.contains(
        #[trigger] rank(q, merged)[i],
    ) by {
        let x = sorted[i];
        assert(sorted.to_multiset().count(x) > 0) by {
            sorted.to_multiset_ensures();
            assert(sorted.contains(x));
        }
        w.to_multiset_ensures();
    }
    if merged.len() == 0 && q.len() > 0 {
        reveal_with_fuel(sort_by_score, 2);
        assert(sort_by_score(w.drop_last()) =~= Seq::<ResultView>::empty());
        assert(insert_by_score(Seq::<ResultView>::empty(), w.last()) =~= w);
    }
}

/// Contributions that are all empty concatenate to nothing.
pub proof fn lemma_flatten_empty(out: Seq<Seq<ResultView>>)
    requires
        forall|j: int| 0 <= j < out.len() ==> (#[trigger] out[j]).len() == 0,
    ensures
        out.flatten() == Seq::<ResultView>::empty(),
    decreases out.len(),
{
    if out.len() > 0 {
        lemma_flatten_empty(out.drop_last());
        out.drop_last().lemma_flatten_push(out.last());
        assert(out.drop_last().push(out.last()) =~= out);
        assert(out.drop_last().flatten() + out.last() =~= Seq::<ResultView>::empty());
    }
}

/// When no plugin contributes a result, a query answers the web fallback for
/// a non-empty trimmed query and nothing for an empty one.
pub proof fn lemma_no_contribution(q: Seq<char>, out: Seq<Seq<ResultView>>)
    requires
        forall|j: int| 0 <= j < out.len() ==> (#[trigger] out[j]).len() == 0,
    ensures
        q.len() > 0 ==> rank(q, out.flatten()) == seq![fallback_result(q)],
        q.len() == 0 ==> rank(q, out.flatten()) == Seq::<ResultView>::empty(),
{
    lemma_flatten_empty(out);
    lemma_rank_shape(q, out.flatten());
    if q.len() == 0 {
        assert(rank(q, out.flatten()) =~= Seq::<ResultView>::empty());
    }
}

/// The elements of `s` whose score is `v`, in their order.
pub open spec fn scored(s: Seq<ResultView>, v: i32) -> Seq<ResultView>
    decreases s.len(),
{
    if s.len() == 0 {
        s
    } else {
        let r = scored(s.drop_last(), v);
        if s.last().score == v {
            r.push(s.last())
        } else {
            r
        }
    }
}

proof fn lemma_scored_add(a: Seq<ResultView>, b: Seq<ResultView>, v: i32)
    ensures
        scored(a + b, v) == scored(a, v) + scored(b, v),
    decreases b.len(),
{
    if b.len() == 0 {
        assert(a + b =~= a);
        assert(scored(a, v) + scored(b, v) =~= scored(a, v));
    } else {
        lemma_scored_add(a, b.drop_last(), v);
        assert((a + b).drop_last() =~= a + b.drop_last());
        assert((a + b).last() == b.last());
        if b.last().score == v {
            assert(scored(a, v) + scored(b.drop_last(), v).push(b.last()) =~= (scored(a, v)
                + scored(b.drop_last(), v)).push(b.last()));
        }
    }
}

proof fn lemma_scored_none(s: Seq<ResultView>, v: i32)
    requires
        forall|i: int| 0 <= i < s.len() ==> #[trigger] s[i].score != v,
    ensures
        scored(s, v) == Seq::<ResultView>::empty(),
    decreases s.len(),
{
    if s.len() > 0 {
        lemma_scored_none(s.drop_last(), v);
    }
}

proof fn lemma_scored_insert(t: Seq<ResultView>, x: ResultView, v: i32)
    requires
        descending(t),
    ensures
        scored(insert_by_score(t, x), v) == if x.score == v {
            scored(t, v).push(x)
        } else {
            scored(t, v)
        },
{
    lemma_leading_bound(t, x.score);
    lemma_leading_desc(t, x.score);
    let k = leading_at_least(t, x.score) as int;
    let a = t.take(k);
    let b = t.skip(k);
    assert(t =~= a + b);
    lemma_scored_add(a, b, v);
    lemma_scored_add(a.push(x), b, v);
    assert(a.push(x).drop_last() =~= a);
    if x.score == v {
        assert forall|i: int| 0 <= i < b.len() implies #[trigger] b[i].score != v by {
            assert(b[i] == t[k + i]);
        }
        lemma_scored_none(b, v);
        assert(scored(a, v) + scored(b, v) =~= scored(a, v));
        assert(scored(a.push(x), v) + scored(b, v) =~= scored(a.push(x), v));
    }
}

proof fn lemma_scored_sort(s: Seq<ResultView>, v: i32)
    ensures
        scored(sort_by_score(s), v) == scored(s, v),
    decreases s.len(),
{
    if s.len() > 0 {
        lemma_scored_sort(s.drop_last(), v);
        lemma_sort_by_score(s.drop_last());
        lemma_scored_insert(sort_by_score(s.drop_last()), s.last(), v);
    }
}

/// Results of equal score keep the order in which the plugins gave them
/// (the fallback included), and those kept are the first of them.
pub proof fn lemma_rank_stable(q: Seq<char>, merged: Seq<ResultView>, v: i32)
    ensures
        scored(rank(q, merged), v).len() <= scored(with_fallback(q, merged), v).len(),
        scored(with_fallback(q, merged), v).take(scored(rank(q, merged), v).len() as int)
            == scored(rank(q, merged), v),
{
    let w = with_fallback(q, merged);
    let sorted = sort_by_score(w);
    lemma_scored_sort(w, v);
    lemma_sort_by_score(w);
    let r = rank(q, merged);
    let rest = sorted.skip(r.len() as int);
    assert(sorted =~= r + rest);
    lemma_scored_add(r, rest, v);
    assert(scored(w, v).take(scored(r, v).len() as int) =~= scored(r, v));
}

/// A result left out of the answer scores no higher than the last one kept.
pub proof fn lemma_rank_selection(q: Seq<char>, merged: Seq<ResultView>, x: ResultView)
    requires
        with_fallback(q, merged).to_multiset().count(x) > rank(q, merged).to_multiset().count(x),
    ensures
        rank(q, merged).len() == MAX_RESULTS,
        x.score <= rank(q, merged).last().score,
{
    let w = with_fallback(q, merged);
    let sorted = sort_by_score(w);
    lemma_sort_by_score(w);
    let r = rank(q, merged);
    let rest = sorted.skip(r.len() as int);
    assert(sorted =~= r + rest);
    vstd::seq_lib::lemma_multiset_commutative(r, rest);
    if r.len() != MAX_RESULTS {
        assert(r == sorted);
        assert(rest.len() == 0);
        assert(rest.to_multiset() =~= vstd::multiset::Multiset::<ResultView>::empty());
        assert(false);
    }
    assert(rest.to_multiset().count(x) > 0);
    rest.to_multiset_ensures();
    let i = choose|i: int| 0 <= i < rest.len() && rest[i] == x;
    assert(sorted[r.len() + i] == x);
    assert(sorted[r.len() - 1] == r.last());
}

/// Position at which `x` is inserted into the descending `sorted`.
fn insert_position(sorted: &Vec<SearchResult>, score: i32) -> (k: usize)
    ensures
        k as nat == leading_at_least(views(sorted@), score),
{
    let ghost v = views(sorted@);
    let mut k: usize = 0;
    assert(v.skip(0) =~= v);
    while k < sorted.len() && sorted[k].score >= score
        invariant
            k <= sorted.len(),
            v == views(sorted@),
            leading_at_least(v, score) == k + leading_at_least(v.skip(k as int), score),
        decreases sorted.len() - k,
    {
        assert(v.skip(k as int).drop_first() =~= v.skip(k + 1));
        k = k + 1;
    }
    proof {
        if k < sorted.len() {
            assert(v.skip(k as int)[0].score < score);
        } else {
            assert(v.skip(k as int).len() == 0);
        }
    }
    k
}

/// Orders the (boosted) plugin results of the trimmed query `trimmed` by
/// descending score, adds the web fallback if there are none and the query
/// is not empty, and keeps the first `MAX_RESULTS`.
pub fn rank_results(trimmed: &str, merged: Vec<SearchResult>) -> (r: Vec<SearchResult>)
    ensures
        views(r@) == rank(trimmed@, views(merged@)),
{
    let mut all = merged;
    let q = chars_of(trimmed);
    if all.len() == 0 && q.len() > 0 {
        let mut id = Vec::new();
        append_str(&mut id, "web:Google:");
        append_chars(&mut id, &q);
        let mut title = Vec::new();
        append_str(&mut title, "Search Google for '");
        append_chars(&mut title, &q);
        append_str(&mut title, "'");
        let desc = chars_of("No local matches found. Search the web instead.");
        let icon = chars_of("google");
        all.push(make_result(&id, &title, Some(&desc), Some(&icon), 100));
        assert(views(all@) =~= seq![fallback_result(trimmed@)]);
    }
    assert(views(all@) == with_fallback(trimmed@, views(merged@))) by {
        if merged@.len() == 0 && trimmed@.len() > 0 {
        } else {
            assert(views(merged@) =~= views(all@));
        }
    }
    let mut sorted = sort_results(&all);
    sorted.truncate(MAX_RESULTS);
    assert(views(sorted@) =~= rank(trimmed@, views(merged@)));
    sorted
}

/// The results in a stable order of descending score (`sort_by` on the
/// reversed score comparison).
pub fn sort_results(all: &Vec<SearchResult>) -> (sorted: Vec<SearchResult>)
    ensures
        views(sorted@) == sort_by_score(views(all@)),
{
    let ghost w = views(all@);
    let mut sorted: Vec<SearchResult> = Vec::new();
    let mut i: usize = 0;
    assert(w.take(0) =~= Seq::<ResultView>::empty());
    while i < all.len()
        invariant
            i <= all.len(),
            w == views(all@),
            views(sorted@) == sort_by_score(w.take(i as int)),
        decreases all.len() - i,
    {
        let x = all[i].clone();
        let k = insert_position(&sorted, x.score);
        proof {
            lemma_leading_bound(views(sorted@), x.score);
        }
        let ghost before = views(sorted@);
        sorted.insert(k, x);
        assert(w.take(i + 1).drop_last() =~= w.take(i as int));
        assert(views(sorted@) =~= insert_by_score(before, w[i as int]));
        i = i + 1;
    }
    assert(w.take(i as int) =~= w);
    sorted
}

/// Routes queries to plugins and executions to the plugin that owns a result.
pub struct SearchRouter<P> {
    plugins: Vec<P>,
    frecency: FrecencyStore,
}

impl<P: LauncherPlugin> SearchRouter<P> {
    /// A router over `plugins` (asked in this order) with the launch history `frecency`.
    pub fn new(frecency: FrecencyStore, plugins: Vec<P>) -> (r: Self)
        ensures
            r.history() == frecency.history(),
            r.plugins() == plugins@,
    {
        SearchRouter { plugins, frecency }
    }

    pub closed spec fn history(&self) -> Map<Seq<char>, Seq<u64>> {
        self.frecency.history()
    }

    pub closed spec fn plugins(&self) -> Seq<P> {
        self.plugins@
    }

    /// The launch history.
    pub fn frecency(&self) -> (r: &FrecencyStore)
        ensures
            r.history() == self.history(),
    {
        &self.frecency
    }

    /// Asks every plugin that may handle the trimmed query and accepts it for
    /// its results, adds `boost(id)` to each result's score (wrapping), and
    /// ranks them: `out[j]` is what the `j`-th plugin contributed, and the
    /// answer is the ranking of their concatenation in plugin order.
    pub fn query<F: Fn(&str) -> i32>(&self, query: &str, boost: F) -> (r: Vec<SearchResult>)
        requires
            forall|s: &str| boost.requires((s,)),
        ensures
            exists|out: Seq<Seq<ResultView>>|
                {
                    &&& out.len() == self.plugins().len()
                    &&& forall|j: int|
                        0 <= j < out.len() ==> contribution(
                            #[trigger] self.plugins()[j],
                            trim(query@),
                            boost,
                            out[j],
                        )
                    &&& views(r@) == rank(trim(query@), out.flatten())
                },
    {
        let qv = chars_of(query);
        let t = trim_chars(&qv);
        let trimmed = string_of(t.as_slice());
        let prefixed = starts_with_str(&t, "!") || starts_with_str(&t, "?");
        let mut merged: Vec<SearchResult> = Vec::new();
        let ghost tq = trim(query@);
        let ghost mut outs: Seq<Seq<ResultView>> = Seq::empty();
        let mut i: usize = 0;
        while i < self.plugins.len()
            invariant
                i <= self.plugins.len(),
                forall|s: &str| boost.requires((s,)),
                trimmed@ == tq,
                tq == trim(query@),
                prefixed == gated(tq),
                outs.len() == i,
                forall|j: int|
                    0 <= j < i ==> contribution(#[trigger] self.plugins@[j], tq, boost, outs[j]),
                views(merged@) == outs.flatten(),
            decreases self.plugins.len() - i,
        {
            let plugin = &self.plugins[i];
            let mut asked = true;
            if prefixed {
                let pid = chars_of(plugin.id());
                asked = eq_str(&pid, "web_search");
                proof {
                    if !asked {
                        assert(plugin.has_id(pid@) && pid@ != "web_search"@);
                        assert(contribution(*plugin, tq, boost, Seq::<ResultView>::empty()));
                    }
                }
            }
            let ghost mut out: Seq<ResultView> = Seq::empty();
            if asked {
                if plugin.accepts(trimmed.as_str()) {
                    let results = plugin.query(trimmed.as_str());
                    let ghost rs = views(results@);
                    let ghost mut bs: Seq<i32> = Seq::empty();
                    let ghost base = views(merged@);
                    let mut j: usize = 0;
                    while j < results.len()
                        invariant
                            j <= results.len(),
                            i < self.plugins.len(),
                            forall|s: &str| boost.requires((s,)),
                            rs == views(results@),
                            bs.len() == j,
                            forall|k: int|
                                0 <= k < j ==> boost_gives(boost, rs[k].id, #[trigger] bs[k]),
                            views(merged@) == base + boosted(rs.take(j as int), bs),
                        decreases results.len() - j,
                    {
                        let mut res = results[j].clone();
                        let s = res.id.as_str();
                        let extra = boost(s);
                        proof {
                            assert(boost_gives(boost, rs[j as int].id, extra));
                            bs = bs.push(extra);
                        }
                        res.score = res.score.wrapping_add(extra);
                        let ghost before = views(merged@);
                        merged.push(res);
                        assert(views(merged@) =~= before.push(res@));
                        assert(boosted(rs.take(j + 1), bs) =~= boosted(rs.take(j as int), bs.drop_last()).push(res@));
                        assert(bs.drop_last() =~= bs.take(j as int));
                        j = j + 1;
                    }
                    proof {
                        assert(rs.take(j as int) =~= rs);
                        out = boosted(rs, bs);
                        assert(contribution(*plugin, tq, boost, out));
                    }
                } else {
                    assert(contribution(*plugin, tq, boost, out));
                }
            }
            proof {
                outs.lemma_flatten_push(out);
                outs = outs.push(out);
            }
            i = i + 1;
        }
        rank_results(trimmed.as_str(), merged)
    }

    /// Executes `result_id` with the plugin that owns its prefix and records a
    /// launch of it when the plugin asks to close the launcher. `ids` are the
    /// identifiers that the plugins gave, in order, up to the first that is the
    /// owner: that plugin's outcome is returned unchanged; when none is, the
    /// answer is an error that names the owner.
    pub fn execute(&mut self, result_id: &str, shift_pressed: bool) -> (r: ExecutionResult)
        ensures
            owner_of(result_id@) is None ==> (r matches ExecutionResult::Error(m) && m@
                == "Unknown execution action prefix"@),
            owner_of(result_id@) is None ==> final(self).history() == old(self).history(),
            owner_of(result_id@) matches Some(o) ==> exists|ids: Seq<Seq<char>>|
                {
                    &&& asked_ids(old(self).plugins(), ids, o)
                    &&& if ids.len() > 0 && ids.last() == o {
                        old(self).plugins()[ids.len() - 1].executed(result_id@, shift_pressed, r)
                    } else {
                        &&& ids.len() == old(self).plugins().len()
                        &&& r matches ExecutionResult::Error(m) && m@ == not_found_message(o)
                        &&& final(self).history() == old(self).history()
                    }
                },
            r is CloseLauncher ==> exists|now: u64|
                final(self).history() == after_launch(old(self).history(), result_id@, now),
            !(r is CloseLauncher) ==> final(self).history() == old(self).history(),
            final(self).plugins() == old(self).plugins(),
    {
        let id = chars_of(result_id);
        let owner: &str = if starts_with_str(&id, "app:") {
            "applications"
        } else if starts_with_str(&id, "calc:") {
            "calculator"
        } else if starts_with_str(&id, "sys:") {
            "system"
        } else if starts_with_str(&id, "clip:") {
            "clipboard"
        } else if starts_with_str(&id, "win:") {
            "window_switcher"
        } else if starts_with_str(&id, "web:") {
            "web_search"
        } else if starts_with_str(&id, "tr:") {
            "translator"
        } else {
            return ExecutionResult::Error(String::from_str("Unknown execution action prefix"));
        };
        assert(owner_of(result_id@) == Some(owner@));
        let ghost mut ids: Seq<Seq<char>> = Seq::empty();
        let mut i: usize = 0;
        let mut found: Option<usize> = None;
        while i < self.plugins.len()
            invariant_except_break
                found is None,
                ids.len() == i,
                i == 0 || ids.last() != owner@,
            invariant
                i <= self.plugins.len(),
                asked_ids(self.plugins@, ids, owner@),
            ensures
                found is None ==> ids.len() == self.plugins.len() && (ids.len() == 0 || ids.last()
                    != owner@),
                found matches Some(k) ==> (k < self.plugins.len() && ids.len() == k + 1
                    && ids.last() == owner@),
            decreases self.plugins.len() - i,
        {
            let pid = chars_of(self.plugins[i].id());
            proof {
                let ghost prev = ids;
                ids = ids.push(pid@);
                assert(self.plugins@[i as int].has_id(ids[i as int]));
                assert forall|j: int| 0 <= j < ids.len() - 1 implies #[trigger] ids[j] != owner@ by {
                    if j < i - 1 {
                        assert(prev[j] == ids[j]);
                    } else {
                        assert(prev.last() == ids[j]);
                    }
                }
                assert forall|j: int| 0 <= j < ids.len() implies #[trigger] self.plugins@[j].has_id(ids[j]) by {
                    if j < i {
                        assert(prev[j] == ids[j]);
                    }
                }
            }
            if eq_str(&pid, owner) {
                found = Some(i);
                break;
            }
            i = i + 1;
        }
        let k = match found {
            Some(k) => k,
            None => {
                let mut msg = Vec::new();
                append_str(&mut msg, "Executor plugin '");
                append_str(&mut msg, owner);
                append_str(&mut msg, "' not found");
                return ExecutionResult::Error(string_of(msg.as_slice()));
            },
        };
        let result = self.plugins[k].execute(result_id, shift_pressed);
        if matches!(result, ExecutionResult::CloseLauncher) {
            let ghost h0 = self.frecency.history();
            assert(h0 == old(self).history());
            self.frecency.register_use(result_id);
            proof {
                let now = choose|now: u64|
                    self.frecency.history() == after_launch(h0, result_id@, now);
                assert(self.history() == after_launch(h0, result_id@, now));
            }
        }
        result
    }
}

} // verus!
