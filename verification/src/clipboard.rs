//! Clipboard history: remembering copied texts, listing them newest first,
//! and picking one to copy again.
use vstd::prelude::*;
use vstd::utf8::{decode_utf8, encode_utf8, is_char_boundary};
use crate::fuzzy::{fuzzy_score, skim_score};
use crate::plugin::{ResultView, SearchResult, lemma_views_push, views};
use crate::router::{sort_by_score, sort_results};
use crate::text::{
    append_chars, append_str, chars_of, decimal, decimal_chars, eq_str, parse_usize,
    parse_usize_chars, starts_with, starts_with_str, string_of, sub_vec, trim, trim_chars,
};

verus! {

/// The most texts the history keeps.
pub const HISTORY_LIMIT: usize = 100;

/// The texts of a list of strings.
pub open spec fn texts(v: Seq<String>) -> Seq<Seq<char>> {
    v.map_values(|s: String| s@)
}

/// The search term of a clipboard query: the trimmed query without its
/// `clip:` or `c:` prefix, trimmed again.
pub open spec fn clip_term(query: Seq<char>) -> Seq<char> {
    let q = trim(query);
    if starts_with(q, "clip:"@) {
        trim(q.skip(5))
    } else if starts_with(q, "c:"@) {
        trim(q.skip(2))
    } else {
        q
    }
}

pub open spec fn clip_accepts(query: Seq<char>) -> bool {
    starts_with(trim(query), "c:"@) || starts_with(trim(query), "clip:"@)
}

/// The title of a history entry: entries longer than 50 bytes are cut to
/// their first 47 bytes and marked with `...`.
pub open spec fn clip_title(item: Seq<char>) -> Seq<char> {
    let b = encode_utf8(item);
    if b.len() > 50 {
        decode_utf8(b.take(47)) + "..."@
    } else {
        item
    }
}

/// The cut of an entry's title falls between two characters.
pub open spec fn title_cut_ok(item: Seq<char>) -> bool {
    encode_utf8(item).len() > 50 ==> is_char_boundary(encode_utf8(item), 47)
}

pub open spec fn clip_result(item: Seq<char>, idx: nat, score: i32) -> ResultView {
    ResultView {
        id: "clip:"@ + decimal(idx),
        title: clip_title(item),
        description: Some("Clipboard: "@ + decimal(encode_utf8(item).len()) + " chars"@),
        icon: Some("edit-copy"@),
        score: score,
        last_used: None,
    }
}

/// Results for the entries newest first; entry `idx` (0 is the newest)
/// scores `100 - idx` for an empty term, else its fuzzy score, and is left
/// out when the term does not match it.
pub open spec fn clip_results(newest_first: Seq<Seq<char>>, term: Seq<char>) -> Seq<ResultView>
    decreases newest_first.len(),
{
    if newest_first.len() == 0 {
        Seq::empty()
    } else {
        let r = clip_results(newest_first.drop_last(), term);
        let idx = (newest_first.len() - 1) as nat;
        let item = newest_first.last();
        if term.len() == 0 {
            r.push(clip_result(item, idx, (100 - idx) as i32))
        } else {
            match skim_score(item, term) {
                Some(s) => r.push(clip_result(item, idx, s as i32)),
                None => r,
            }
        }
    }
}

pub open spec fn clip_query(history: Seq<Seq<char>>, query: Seq<char>) -> Seq<ResultView> {
    sort_by_score(clip_results(history.reverse(), clip_term(query)))
}

proof fn lemma_clip_results_all(newest_first: Seq<Seq<char>>, term: Seq<char>)
    requires
        term.len() == 0,
    ensures
        clip_results(newest_first, term).len() == newest_first.len(),
    decreases newest_first.len(),
{
    if newest_first.len() > 0 {
        lemma_clip_results_all(newest_first.drop_last(), term);
    }
}

/// The clipboard list is ranked by descending score, and a query without a
/// search term (such as `c:`) lists every entry.
pub proof fn lemma_clip_query(history: Seq<Seq<char>>, query: Seq<char>)
    ensures
        crate::router::descending(clip_query(history, query)),
        clip_term(query).len() == 0 ==> clip_query(history, query).len() == history.len(),
{
    crate::router::lemma_sort_by_score(clip_results(history.reverse(), clip_term(query)));
    if clip_term(query).len() == 0 {
        lemma_clip_results_all(history.reverse(), clip_term(query));
    }
}

/// The result shows entry `idx` (0 is the newest) and names it in its id.
pub open spec fn shows_entry(r: ResultView, newest_first: Seq<Seq<char>>, idx: int) -> bool {
    &&& 0 <= idx < newest_first.len()
    &&& r.id == "clip:"@ + decimal(idx as nat)
    &&& r.title == clip_title(newest_first[idx])
}

proof fn lemma_clip_results_show(newest_first: Seq<Seq<char>>, term: Seq<char>)
    ensures
        forall|k: int|
            0 <= k < clip_results(newest_first, term).len() ==> exists|idx: int|
                shows_entry(#[trigger] clip_results(newest_first, term)[k], newest_first, idx),
    decreases newest_first.len(),
{
    if newest_first.len() > 0 {
        let d = newest_first.drop_last();
        lemma_clip_results_show(d, term);
        let prev = clip_results(d, term);
        let r = clip_results(newest_first, term);
        let last = newest_first.len() - 1;
        assert(r == prev || (r.len() == prev.len() + 1 && r.drop_last() == prev && r.last().id
            == "clip:"@ + decimal(last as nat) && r.last().title == clip_title(newest_first.last()))) by {
            if term.len() == 0 {
                assert(r.drop_last() =~= prev);
            } else {
                match skim_score(newest_first.last(), term) {
                    Some(sc) => {
                        assert(r.drop_last() =~= prev);
                    },
                    None => {},
                }
            }
        }
        assert forall|k: int| 0 <= k < r.len() implies exists|idx: int|
            shows_entry(#[trigger] r[k], newest_first, idx) by {
            if k < prev.len() {
                if r != prev {
                    assert(r[k] == r.drop_last()[k]);
                }
                assert(r[k] == prev[k]);
                let idx = choose|idx: int| shows_entry(prev[k], d, idx);
                assert(newest_first[idx] == d[idx]);
                assert(shows_entry(r[k], newest_first, idx));
            } else {
                assert(r[k] == r.last());
                assert(newest_first.last() == newest_first[last]);
                assert(shows_entry(r[k], newest_first, last));
            }
        }
    }
}

/// Activating a listed entry copies the entry that it shows: each result of
/// a query is titled after some history entry and resolves to copying it.
pub proof fn lemma_clip_roundtrip(history: Seq<Seq<char>>, query: Seq<char>, i: int)
    requires
        history.len() <= usize::MAX,
        0 <= i < clip_query(history, query).len(),
    ensures
        exists|k: int|
            0 <= k < history.len() && clip_query(history, query)[i].title == clip_title(history[k])
                && clip_action(history, clip_query(history, query)[i].id)
                == ClipActionView::Copy(history[k]),
{
    let newest = history.reverse();
    let xs = clip_results(newest, clip_term(query));
    crate::router::lemma_sort_by_score(xs);
    let r = clip_query(history, query)[i];
    assert(xs.to_multiset().count(r) > 0) by {
        clip_query(history, query).to_multiset_ensures();
        assert(clip_query(history, query).contains(r));
        xs.to_multiset_ensures();
    }
    xs.to_multiset_ensures();
    let k0 = choose|k: int| 0 <= k < xs.len() && xs[k] == r;
    lemma_clip_results_show(newest, clip_term(query));
    let idx = choose|idx: int| shows_entry(xs[k0], newest, idx);
    let k = history.len() - 1 - idx;
    assert(newest[idx] == history[k]);
    crate::text::lemma_parse_decimal(idx as nat);
    reveal_strlit("clip:");
    assert(r.id.skip(5) =~= decimal(idx as nat));
    assert(starts_with(r.id, "clip:"@)) by {
        assert(r.id.subrange(0, 5) =~= "clip:"@);
    }
}

/// What activating a clipboard result does.
pub enum ClipAction {
    /// Put this text on the clipboard, then close.
    Copy(String),
    /// The result cannot be used, for this reason.
    Error(String),
}

/// The mathematical content of a [`ClipAction`].
pub enum ClipActionView {
    Copy(Seq<char>),
    Error(Seq<char>),
}

impl View for ClipAction {
    type V = ClipActionView;

    open spec fn view(&self) -> ClipActionView {
        match self {
            ClipAction::Copy(t) => ClipActionView::Copy(t@),
            ClipAction::Error(m) => ClipActionView::Error(m@),
        }
    }
}

/// The entry that `clip:<i>` names: the `i`-th newest.
pub open spec fn clip_action(history: Seq<Seq<char>>, result_id: Seq<char>) -> ClipActionView {
    if starts_with(result_id, "clip:"@) {
        match parse_usize(result_id.skip(5)) {
            None => ClipActionView::Error("Invalid clipboard index"@),
            Some(i) => if i < history.len() {
                ClipActionView::Copy(history[history.len() - 1 - i])
            } else {
                ClipActionView::Error("Clipboard history item not found"@)
            },
        }
    } else {
        ClipActionView::Error("Invalid clipboard action ID"@)
    }
}

/// `h` without the entries equal to `t`.
pub open spec fn without(h: Seq<Seq<char>>, t: Seq<char>) -> Seq<Seq<char>>
    decreases h.len(),
{
    if h.len() == 0 {
        h
    } else if h.last() == t {
        without(h.drop_last(), t)
    } else {
        without(h.drop_last(), t).push(h.last())
    }
}

/// The history after `t` was copied: unchanged when `t` is blank or already
/// the newest entry; else `t` moves (or is added) to the end, and the oldest
/// entry goes when there are more than `HISTORY_LIMIT`.
pub open spec fn remembered(h: Seq<Seq<char>>, t: Seq<char>) -> Seq<Seq<char>> {
    if trim(t).len() == 0 || (h.len() > 0 && h.last() == t) {
        h
    } else {
        let moved = without(h, t).push(t);
        if moved.len() > HISTORY_LIMIT {
            moved.drop_first()
        } else {
            moved
        }
    }
}

/// No text occurs twice.
pub open spec fn no_repeats(h: Seq<Seq<char>>) -> bool {
    forall|i: int, j: int| 0 <= i < j < h.len() ==> h[i] != h[j]
}

proof fn lemma_without(h: Seq<Seq<char>>, t: Seq<char>)
    ensures
        without(h, t).len() <= h.len(),
        forall|i: int|
            0 <= i < without(h, t).len() ==> #[trigger] without(h, t)[i] != t && exists|j: int|
                0 <= j < h.len() && h[j] == without(h, t)[i],
        no_repeats(h) ==> no_repeats(without(h, t)),
    decreases h.len(),
{
    if h.len() > 0 {
        let d = h.drop_last();
        lemma_without(d, t);
        let w = without(h, t);
        let wd = without(d, t);
        assert forall|i: int| 0 <= i < w.len() implies #[trigger] w[i] != t && exists|j: int|
            0 <= j < h.len() && h[j] == w[i] by {
            if i < wd.len() {
                assert(w[i] == wd[i]);
                let j = choose|j: int| 0 <= j < d.len() && d[j] == wd[i];
                assert(h[j] == w[i]);
            } else {
                assert(w[i] == h.last());
                assert(h[h.len() - 1] == w[i]);
            }
        }
        if no_repeats(h) {
            assert(no_repeats(d)) by {
                assert forall|i: int, j: int| 0 <= i < j < d.len() implies d[i] != d[j] by {
                    assert(d[i] == h[i] && d[j] == h[j]);
                }
            }
            if h.last() != t {
                assert forall|i: int, j: int| 0 <= i < j < w.len() implies w[i] != w[j] by {
                    if j == w.len() - 1 {
                        assert(w[i] == wd[i]);
                        let k = choose|k: int| 0 <= k < d.len() && d[k] == wd[i];
                        assert(h[k] == w[i] && w[j] == h[h.len() - 1]);
                    } else {
                        assert(w[i] == wd[i] && w[j] == wd[j]);
                    }
                }
            }
        }
    }
}

/// The history's laws: remembering a non-blank text leaves it as the newest
/// entry; a history within `HISTORY_LIMIT` stays within it; and a history
/// without repeated texts stays without them.
pub proof fn lemma_remembered(h: Seq<Seq<char>>, t: Seq<char>)
    ensures
        trim(t).len() > 0 ==> remembered(h, t).len() > 0 && remembered(h, t).last() == t,
        h.len() <= HISTORY_LIMIT ==> remembered(h, t).len() <= HISTORY_LIMIT,
        no_repeats(h) ==> no_repeats(remembered(h, t)),
{
    lemma_without(h, t);
    let w = without(h, t);
    let moved = w.push(t);
    if no_repeats(h) {
        assert forall|i: int, j: int| 0 <= i < j < moved.len() implies moved[i] != moved[j] by {
            if j == moved.len() - 1 {
                assert(moved[i] == w[i]);
            } else {
                assert(moved[i] == w[i] && moved[j] == w[j]);
            }
        }
        if moved.len() > HISTORY_LIMIT {
            let r = moved.drop_first();
            assert forall|i: int, j: int| 0 <= i < j < r.len() implies r[i] != r[j] by {
                assert(r[i] == moved[i + 1] && r[j] == moved[j + 1]);
            }
        }
    }
}

/// The title of a history entry.
fn title_of(item: &String) -> (r: Vec<char>)
    requires
        title_cut_ok(item@),
    ensures
        r@ == clip_title(item@),
{
    let s = item.as_str();
    if s.as_bytes().len() > 50 {
        assert(s@ == item@);
        let (head, _rest) = s.split_at(47);
        proof {
            vstd::utf8::encode_utf8_decode_utf8(head@);
            assert(encode_utf8(head@) =~= encode_utf8(item@).take(47));
            assert(decode_utf8(encode_utf8(item@).take(47)) == head@);
        }
        let mut t = chars_of(head);
        append_str(&mut t, "...");
        assert(t@ == head@ + "..."@);
        t
    } else {
        chars_of(s)
    }
}

/// The clipboard plugin; the history itself is kept by the caller.
pub struct ClipboardPlugin {}

impl ClipboardPlugin {
    pub fn new() -> (r: Self) {
        ClipboardPlugin {}
    }

    /// The identifier under which the router knows this plugin.
    pub fn id(&self) -> (r: &'static str)
        ensures
            r@ == "clipboard"@,
    {
        "clipboard"
    }

    /// Only queries that start with `c:` or `clip:` are for the clipboard.
    pub fn accepts(&self, query: &str) -> (r: bool)
        ensures
            r == clip_accepts(query@),
    {
        let t = trim_chars(&chars_of(query));
        starts_with_str(&t, "c:") || starts_with_str(&t, "clip:")
    }

    /// The history entries (oldest first in `history`) that match the query,
    /// by descending score.
    pub fn query(&self, query: &str, history: &Vec<String>) -> (r: Vec<SearchResult>)
        requires
            history.len() <= i32::MAX,
            forall|i: int| 0 <= i < history.len() ==> title_cut_ok(#[trigger] history@[i]@),
        ensures
            views(r@) == clip_query(texts(history@), query@),
    {
        let q = trim_chars(&chars_of(query));
        proof {
            reveal_strlit("clip:");
            reveal_strlit("c:");
        }
        let term_chars = if starts_with_str(&q, "clip:") {
            let rest = sub_vec(&q, 5, q.len());
            assert(rest@ =~= q@.skip(5));
            trim_chars(&rest)
        } else if starts_with_str(&q, "c:") {
            let rest = sub_vec(&q, 2, q.len());
            assert(rest@ =~= q@.skip(2));
            trim_chars(&rest)
        } else {
            q.clone()
        };
        assert(term_chars@ == clip_term(query@));
        let term = string_of(term_chars.as_slice());
        let ghost newest = texts(history@).reverse();
        let mut results: Vec<SearchResult> = Vec::new();
        let n = history.len();
        let mut idx: usize = 0;
        assert(newest.take(0) =~= Seq::<Seq<char>>::empty());
        while idx < n
            invariant
                n == history.len(),
                n <= i32::MAX,
                idx <= n,
                newest == texts(history@).reverse(),
                term@ == clip_term(query@),
                forall|i: int| 0 <= i < history.len() ==> title_cut_ok(#[trigger] history@[i]@),
                views(results@) == clip_results(newest.take(idx as int), term@),
            decreases n - idx,
        {
            let item = &history[n - 1 - idx];
            assert(newest[idx as int] == item@);
            assert(newest.take(idx + 1).drop_last() =~= newest.take(idx as int));
            assert(newest.take(idx + 1).last() == item@);
            let score: Option<i32> = if term.as_str().is_empty() {
                let k = idx as i32;
                assert(k == idx);
                assert((100 - idx) as i32 == 100 - k);
                Some(100 - k)
            } else {
                match fuzzy_score(item.as_str(), term.as_str()) {
                    Some(s) => Some(s as i32),
                    None => None,
                }
            };
            match score {
                Some(score) => {
                    let mut id = chars_of("clip:");
                    append_chars(&mut id, &decimal_chars(idx as u64));
                    let mut desc = chars_of("Clipboard: ");
                    append_chars(&mut desc, &decimal_chars(item.as_str().as_bytes().len() as u64));
                    append_str(&mut desc, " chars");
                    let x = SearchResult {
                        id: string_of(id.as_slice()),
                        title: string_of(title_of(item).as_slice()),
                        description: Some(string_of(desc.as_slice())),
                        icon: Some(String::from_str("edit-copy")),
                        score,
                        last_used: None,
                    };
                    assert(x@ == clip_result(item@, idx as nat, score));
                    proof {
                        lemma_views_push(results@, x);
                    }
                    results.push(x);
                },
                None => {},
            }
            idx = idx + 1;
        }
        assert(newest.take(idx as int) =~= newest);
        sort_results(&results)
    }

    /// What activating the result `result_id` does, for this history.
    pub fn resolve(&self, result_id: &str, history: &Vec<String>) -> (a: ClipAction)
        ensures
            a@ == clip_action(texts(history@), result_id@),
    {
        let id = chars_of(result_id);
        if !starts_with_str(&id, "clip:") {
            return ClipAction::Error(String::from_str("Invalid clipboard action ID"));
        }
        proof {
            reveal_strlit("clip:");
        }
        let rest = sub_vec(&id, 5, id.len());
        assert(rest@ =~= id@.skip(5));
        match parse_usize_chars(&rest) {
            None => ClipAction::Error(String::from_str("Invalid clipboard index")),
            Some(i) => if i < history.len() {
                ClipAction::Copy(history[history.len() - 1 - i].clone())
            } else {
                ClipAction::Error(String::from_str("Clipboard history item not found"))
            },
        }
    }
}

/// Records that `text` was copied (see `remembered`); returns whether the
/// history changed and so needs saving.
pub fn remember_clip(history: &mut Vec<String>, text: String) -> (changed: bool)
    ensures
        texts(final(history)@) == remembered(texts(old(history)@), text@),
        changed == (texts(final(history)@) != texts(old(history)@)),
{
    if trim_chars(&chars_of(text.as_str())).len() == 0 {
        return false;
    }
    let n = history.len();
    if n > 0 && eq_str(&chars_of(history[n - 1].as_str()), text.as_str()) {
        assert(texts(history@).last() == history@[n - 1]@);
        return false;
    }
    let ghost h = texts(history@);
    let mut kept: Vec<String> = Vec::new();
    let mut i: usize = 0;
    assert(h.take(0) =~= Seq::<Seq<char>>::empty());
    while i < history.len()
        invariant
            i <= history.len(),
            h == texts(history@),
            texts(kept@) == without(h.take(i as int), text@),
        decreases history.len() - i,
    {
        assert(h.take(i + 1).drop_last() =~= h.take(i as int));
        assert(h.take(i + 1).last() == history@[i as int]@);
        if !eq_str(&chars_of(history[i].as_str()), text.as_str()) {
            let x = history[i].clone();
            let ghost before = texts(kept@);
            kept.push(x);
            assert(texts(kept@) =~= before.push(x@));
        }
        i = i + 1;
    }
    assert(h.take(i as int) =~= h);
    let ghost before = texts(kept@);
    kept.push(text);
    assert(texts(kept@) =~= before.push(text@));
    if kept.len() > HISTORY_LIMIT {
        let ghost full = texts(kept@);
        kept.remove(0);
        assert(texts(kept@) =~= full.drop_first());
    }
    proof {
        let r = texts(kept@);
        assert(r.last() == text@);
        if r == h {
            assert(h.len() > 0 && h.last() == text@);
        }
    }
    *history = kept;
    true
}

} // verus!
