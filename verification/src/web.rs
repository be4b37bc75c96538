//! Web search shortcuts: `!g`, `!ddg`, `!w`, `!gh` and `?` followed by a term
//! open the matching search engine with the term percent-encoded.
use vstd::prelude::*;
use vstd::utf8::encode_utf8;
use crate::plugin::{ResultView, SearchResult, make_result, views};
use crate::text::{
    append_chars, append_str, chars_of, digit_char, digit_to_char, eq_chars, eq_str, replace_all,
    replace_all_chars, starts_with, starts_with_chars, starts_with_str, string_of, sub_vec, trim,
    trim_chars, trim_start, trim_start_chars, is_ws,
};

verus! {

/// A search engine reachable through a query prefix.
pub struct SearchEngine {
    pub prefix: &'static str,
    pub name: &'static str,
    pub url_template: &'static str,
    pub icon: &'static str,
}

/// The mathematical content of a [`SearchEngine`].
pub struct EngineView {
    pub prefix: Seq<char>,
    pub name: Seq<char>,
    pub url_template: Seq<char>,
    pub icon: Seq<char>,
}

impl View for SearchEngine {
    type V = EngineView;

    open spec fn view(&self) -> EngineView {
        EngineView {
            prefix: self.prefix@,
            name: self.name@,
            url_template: self.url_template@,
            icon: self.icon@,
        }
    }
}

/// The web search plugin with its engines.
pub struct WebSearchPlugin {
    engines: Vec<SearchEngine>,
}

/// The engines a new plugin knows, in the order in which they are tried.
pub open spec fn default_engines() -> Seq<EngineView> {
    seq![
        EngineView {
            prefix: "!g"@,
            name: "Google"@,
            url_template: "https://www.google.com/search?q={}"@,
            icon: "google"@,
        },
        EngineView {
            prefix: "!ddg"@,
            name: "DuckDuckGo"@,
            url_template: "https://duckduckgo.com/?q={}"@,
            icon: "duckduckgo"@,
        },
        EngineView {
            prefix: "!w"@,
            name: "Wikipedia"@,
            url_template: "https://en.wikipedia.org/wiki/Special:Search?search={}"@,
            icon: "wikipedia"@,
        },
        EngineView {
            prefix: "!gh"@,
            name: "GitHub"@,
            url_template: "https://github.com/search?q={}"@,
            icon: "github"@,
        },
        EngineView {
            prefix: "?"@,
            name: "DuckDuckGo Search"@,
            url_template: "https://duckduckgo.com/?q={}"@,
            icon: "web-browser"@,
        },
    ]
}

/// The query (already stripped of leading whitespace) selects the engine with
/// this prefix: it is the prefix itself, or the prefix followed by a space.
pub open spec fn selects(q: Seq<char>, prefix: Seq<char>) -> bool {
    q == prefix || starts_with(q, prefix.push(' '))
}

/// Index of the first engine at or after `from` that the query selects.
pub open spec fn first_engine(engines: Seq<EngineView>, q: Seq<char>, from: int) -> Option<int>
    decreases engines.len() - from,
{
    if from < 0 || from >= engines.len() {
        None
    } else if selects(q, engines[from].prefix) {
        Some(from)
    } else {
        first_engine(engines, q, from + 1)
    }
}

/// The search term that follows the engine prefix.
pub open spec fn search_term(q: Seq<char>, prefix: Seq<char>) -> Seq<char> {
    if q == prefix {
        Seq::empty()
    } else {
        q.skip(prefix.len() + 1int)
    }
}

pub open spec fn web_accepts(engines: Seq<EngineView>, query: Seq<char>) -> bool {
    exists|i: int| 0 <= i < engines.len() && selects(trim_start(query), engines[i].prefix)
}

pub open spec fn web_query(engines: Seq<EngineView>, query: Seq<char>) -> Seq<ResultView> {
    let q = trim_start(query);
    match first_engine(engines, q, 0) {
        None => Seq::empty(),
        Some(k) => {
            let e = engines[k];
            let term = search_term(q, e.prefix);
            if trim(term).len() == 0 {
                seq![
                    ResultView {
                        id: "web:"@ + e.name + ":"@,
                        title: "Search on "@ + e.name,
                        description: Some("Type query to search on "@ + e.name),
                        icon: Some(e.icon),
                        score: 900,
                        last_used: None,
                    },
                ]
            } else {
                seq![
                    ResultView {
                        id: "web:"@ + e.name + ":"@ + term,
                        title: "Search "@ + e.name + " for '"@ + trim(term) + "'"@,
                        description: Some("Opens default browser at "@ + e.name),
                        icon: Some(e.icon),
                        score: 900,
                        last_used: None,
                    },
                ]
            }
        },
    }
}

proof fn lemma_first_engine_at(engines: Seq<EngineView>, q: Seq<char>, from: int, k: int)
    requires
        0 <= from <= k < engines.len(),
        selects(q, engines[k].prefix),
        forall|i: int| from <= i < k ==> !selects(q, #[trigger] engines[i].prefix),
    ensures
        first_engine(engines, q, from) == Some(k),
    decreases k - from,
{
    if from < k {
        lemma_first_engine_at(engines, q, from + 1, k);
    }
}

/// The built-in engines are chosen by their prefixes alone: a query is
/// accepted exactly when, without leading whitespace, it is one of `!g`,
/// `!ddg`, `!w`, `!gh` and `?`, or starts with one of them and a space; and
/// a prefix, a space and a term address that prefix's engine with that term.
pub proof fn lemma_web_prefixes(query: Seq<char>, k: int, term: Seq<char>)
    requires
        0 <= k < default_engines().len(),
    ensures
        web_accepts(default_engines(), query) <==> {
            let q = trim_start(query);
            ||| selects(q, "!g"@)
            ||| selects(q, "!ddg"@)
            ||| selects(q, "!w"@)
            ||| selects(q, "!gh"@)
            ||| selects(q, "?"@)
        },
        ({
            let e = default_engines()[k];
            let q = e.prefix + " "@ + term;
            &&& web_accepts(default_engines(), q)
            &&& first_engine(default_engines(), trim_start(q), 0) == Some(k)
            &&& trim(term).len() > 0 ==> web_query(default_engines(), q)[0].id == "web:"@ + e.name
                + ":"@ + term
        }),
{
    let es = default_engines();
    reveal_strlit("!g");
    reveal_strlit("!ddg");
    reveal_strlit("!w");
    reveal_strlit("!gh");
    reveal_strlit("?");
    reveal_strlit(" ");
    let q0 = trim_start(query);
    if selects(q0, "!g"@) || selects(q0, "!ddg"@) || selects(q0, "!w"@) || selects(q0, "!gh"@)
        || selects(q0, "?"@) {
        if selects(q0, "!g"@) {
            assert(selects(q0, es[0].prefix));
        } else if selects(q0, "!ddg"@) {
            assert(selects(q0, es[1].prefix));
        } else if selects(q0, "!w"@) {
            assert(selects(q0, es[2].prefix));
        } else if selects(q0, "!gh"@) {
            assert(selects(q0, es[3].prefix));
        } else {
            assert(selects(q0, es[4].prefix));
        }
    }
    let e = es[k];
    let q = e.prefix + " "@ + term;
    assert(q.len() > 0 && !is_ws(q[0]));
    assert(trim_start(q) == q);
    assert(starts_with(q, e.prefix.push(' '))) by {
        assert(q.subrange(0, e.prefix.len() + 1int) =~= e.prefix.push(' '));
    }
    assert(selects(q, e.prefix));
    assert forall|j: int| 0 <= j < k implies !selects(q, #[trigger] es[j].prefix) by {
        let p = es[j].prefix;
        assert(q != p) by {
            assert(q.len() > p.len() || q[1] != p[1] || q[q.len() - 1] != p[q.len() - 1]);
        }
        assert(!starts_with(q, p.push(' '))) by {
            if starts_with(q, p.push(' ')) {
                assert(q.subrange(0, p.len() + 1int)[1] == p.push(' ')[1]);
                assert(q.subrange(0, p.len() + 1int)[p.len() as int] == ' ');
            }
        }
    }
    lemma_first_engine_at(es, q, 0, k);
    assert(search_term(q, e.prefix) =~= term);
}

/// Each prefix addresses its own engine: `!g` Google, `!ddg` DuckDuckGo,
/// `!w` Wikipedia, `!gh` GitHub and `?` the DuckDuckGo search; the prefix,
/// a space and any term that is not blank give one result for that engine
/// and term.
pub proof fn lemma_prefix_engines(t: Seq<char>)
    requires
        trim(t).len() > 0,
    ensures
        web_query(default_engines(), "!g "@ + t)[0].id == "web:Google:"@ + t,
        web_query(default_engines(), "!ddg "@ + t)[0].id == "web:DuckDuckGo:"@ + t,
        web_query(default_engines(), "!w "@ + t)[0].id == "web:Wikipedia:"@ + t,
        web_query(default_engines(), "!gh "@ + t)[0].id == "web:GitHub:"@ + t,
        web_query(default_engines(), "? "@ + t)[0].id == "web:DuckDuckGo Search:"@ + t,
{
    let es = default_engines();
    let query = t;
    reveal_strlit(" ");
    reveal_strlit("web:");
    reveal_strlit(":");
    reveal_strlit("!g");
    reveal_strlit("!g ");
    reveal_strlit("Google");
    reveal_strlit("web:Google:");
    reveal_strlit("!ddg");
    reveal_strlit("!ddg ");
    reveal_strlit("DuckDuckGo");
    reveal_strlit("web:DuckDuckGo:");
    reveal_strlit("!w");
    reveal_strlit("!w ");
    reveal_strlit("Wikipedia");
    reveal_strlit("web:Wikipedia:");
    reveal_strlit("!gh");
    reveal_strlit("!gh ");
    reveal_strlit("GitHub");
    reveal_strlit("web:GitHub:");
    reveal_strlit("?");
    reveal_strlit("? ");
    reveal_strlit("DuckDuckGo Search");
    reveal_strlit("web:DuckDuckGo Search:");
    lemma_web_prefixes(query, 0, t);
    assert(es[0].prefix + " "@ + t =~= "!g "@ + t);
    assert("web:"@ + es[0].name + ":"@ + t =~= "web:Google:"@ + t);
    lemma_web_prefixes(query, 1, t);
    assert(es[1].prefix + " "@ + t =~= "!ddg "@ + t);
    assert("web:"@ + es[1].name + ":"@ + t =~= "web:DuckDuckGo:"@ + t);
    lemma_web_prefixes(query, 2, t);
    assert(es[2].prefix + " "@ + t =~= "!w "@ + t);
    assert("web:"@ + es[2].name + ":"@ + t =~= "web:Wikipedia:"@ + t);
    lemma_web_prefixes(query, 3, t);
    assert(es[3].prefix + " "@ + t =~= "!gh "@ + t);
    assert("web:"@ + es[3].name + ":"@ + t =~= "web:GitHub:"@ + t);
    lemma_web_prefixes(query, 4, t);
    assert(es[4].prefix + " "@ + t =~= "? "@ + t);
    assert("web:"@ + es[4].name + ":"@ + t =~= "web:DuckDuckGo Search:"@ + t);
}

/// Uppercase hexadecimal digit./// Uppercase hexadecimal digit.
pub open spec fn hex_digit_upper(d: nat) -> char {
    if d < 10 {
        digit_char(d)
    } else if d == 10 {
        'A'
    } else if d == 11 {
        'B'
    } else if d == 12 {
        'C'
    } else if d == 13 {
        'D'
    } else if d == 14 {
        'E'
    } else {
        'F'
    }
}

pub open spec fn is_unreserved_byte(b: u8) -> bool {
    (48 <= b <= 57) || (65 <= b <= 90) || (97 <= b <= 122) || b == 45 || b == 95 || b == 46 || b
        == 126
}

/// How one byte of the term appears in the URL: unreserved bytes as they are,
/// a space as `+`, anything else as `%` and two uppercase hex digits.
pub open spec fn encode_byte(b: u8) -> Seq<char> {
    if is_unreserved_byte(b) {
        seq![b as char]
    } else if b == 32 {
        seq!['+']
    } else {
        seq!['%', hex_digit_upper((b / 16) as nat), hex_digit_upper((b % 16) as nat)]
    }
}

/// Percent-encoding of a byte string, byte by byte.
pub open spec fn percent_encode(bytes: Seq<u8>) -> Seq<char>
    decreases bytes.len(),
{
    if bytes.len() == 0 {
        Seq::empty()
    } else {
        percent_encode(bytes.drop_last()) + encode_byte(bytes.last())
    }
}

/// A character that may stand in an encoded search term: an unreserved
/// character, `+`, `%`, or an uppercase hexadecimal digit.
pub open spec fn url_safe(c: char) -> bool {
    ('0' <= c <= '9') || ('A' <= c <= 'Z') || ('a' <= c <= 'z') || c == '-' || c == '_' || c
        == '.' || c == '~' || c == '+' || c == '%'
}

/// Percent-encoding leaves only URL-safe characters.
pub proof fn lemma_percent_encode_safe(bytes: Seq<u8>)
    ensures
        forall|i: int| 0 <= i < percent_encode(bytes).len() ==> url_safe(#[trigger] percent_encode(bytes)[i]),
    decreases bytes.len(),
{
    if bytes.len() > 0 {
        lemma_percent_encode_safe(bytes.drop_last());
        let prev = percent_encode(bytes.drop_last());
        let e = encode_byte(bytes.last());
        let b = bytes.last();
        assert forall|j: int| 0 <= j < e.len() implies url_safe(#[trigger] e[j]) by {
            if is_unreserved_byte(b) {
                assert(e[j] == b as char);
            } else if b != 32 && j > 0 {
                let d = if j == 1 { (b / 16) as nat } else { (b % 16) as nat };
                assert(e[j] == hex_digit_upper(d));
                assert(d < 16);
            }
        }
        assert forall|i: int| 0 <= i < percent_encode(bytes).len() implies url_safe(#[trigger] percent_encode(bytes)[i]) by {
            if i < prev.len() {
                assert(percent_encode(bytes)[i] == prev[i]);
            } else {
                assert(percent_encode(bytes)[i] == e[i - prev.len()]);
            }
        }
    }
}

/// What executing a web result amounts to.
pub enum WebAction {
    /// Nothing to open: the launcher stays open.
    KeepOpen,
    /// Open this URL in the default browser.
    Open(String),
    /// The result cannot be executed, for this reason.
    Error(String),
}

/// The mathematical content of a [`WebAction`].
pub enum WebActionView {
    KeepOpen,
    Open(Seq<char>),
    Error(Seq<char>),
}

impl View for WebAction {
    type V = WebActionView;

    open spec fn view(&self) -> WebActionView {
        match self {
            WebAction::KeepOpen => WebActionView::KeepOpen,
            WebAction::Open(u) => WebActionView::Open(u@),
            WebAction::Error(m) => WebActionView::Error(m@),
        }
    }
}

/// Index of the first engine named `name`.
pub open spec fn engine_named(engines: Seq<EngineView>, name: Seq<char>, from: int) -> Option<int>
    decreases engines.len() - from,
{
    if from < 0 || from >= engines.len() {
        None
    } else if engines[from].name == name {
        Some(from)
    } else {
        engine_named(engines, name, from + 1)
    }
}

/// Position of the first `:` in `s` at or after `from`.
pub open spec fn first_colon(s: Seq<char>, from: int) -> Option<int>
    decreases s.len() - from,
{
    if from < 0 || from >= s.len() {
        None
    } else if s[from] == ':' {
        Some(from)
    } else {
        first_colon(s, from + 1)
    }
}

/// The action for a result id: `web:<engine>:<term>` opens the engine's URL
/// with the encoded term in place of `{}`.
pub open spec fn web_action(engines: Seq<EngineView>, id: Seq<char>) -> WebActionView {
    if !starts_with(id, "web:"@) {
        WebActionView::Error("Invalid web search action ID"@)
    } else {
        let rest = id.skip(4);
        match first_colon(rest, 0) {
            None => WebActionView::KeepOpen,
            Some(c) => {
                let name = rest.take(c);
                let term = rest.skip(c + 1);
                if trim(term).len() == 0 {
                    WebActionView::KeepOpen
                } else {
                    match engine_named(engines, name, 0) {
                        None => WebActionView::Error("Unknown search engine: "@ + name),
                        Some(k) => WebActionView::Open(
                            replace_all(
                                engines[k].url_template,
                                "{}"@,
                                percent_encode(encode_utf8(term)),
                            ),
                        ),
                    }
                }
            },
        }
    }
}

proof fn lemma_first_colon_after(name: Seq<char>, term: Seq<char>, from: int)
    requires
        crate::text::lacks(name, ':'),
        0 <= from <= name.len(),
    ensures
        first_colon(name + seq![':'] + term, from) == Some(name.len() as int),
    decreases name.len() - from,
{
    let s = name + seq![':'] + term;
    if from < name.len() {
        assert(s[from] == name[from]);
        lemma_first_colon_after(name, term, from + 1);
    } else {
        assert(s[from] == ':');
    }
}

proof fn lemma_engine_named_first(engines: Seq<EngineView>, k: int, from: int)
    requires
        0 <= from <= k < engines.len(),
        forall|j: int| 0 <= j < k ==> #[trigger] engines[j].name != engines[k].name,
    ensures
        engine_named(engines, engines[k].name, from) == Some(k),
    decreases k - from,
{
    if from < k {
        lemma_engine_named_first(engines, k, from + 1);
    }
}

/// Activating a web search result searches the engine that the query
/// chose for the query's term (an empty term only keeps the launcher open).
pub proof fn lemma_web_roundtrip(query: Seq<char>)
    requires
        web_query(default_engines(), query).len() > 0,
    ensures
        ({
            let engines = default_engines();
            let q = trim_start(query);
            let k = first_engine(engines, q, 0).unwrap();
            let term = search_term(q, engines[k].prefix);
            web_action(engines, web_query(engines, query)[0].id) == if trim(term).len() == 0 {
                WebActionView::KeepOpen
            } else {
                WebActionView::Open(
                    replace_all(engines[k].url_template, "{}"@, percent_encode(encode_utf8(term))),
                )
            }
        }),
{
    let engines = default_engines();
    let q = trim_start(query);
    let k = first_engine(engines, q, 0).unwrap();
    lemma_first_engine_bounds(engines, q, 0);
    let e = engines[k];
    let term = search_term(q, e.prefix);
    reveal_strlit("Google");
    reveal_strlit("DuckDuckGo");
    reveal_strlit("Wikipedia");
    reveal_strlit("GitHub");
    reveal_strlit("DuckDuckGo Search");
    reveal_strlit("web:");
    reveal_strlit(":");
    assert(crate::text::lacks(e.name, ':'));
    assert forall|j: int| 0 <= j < k implies #[trigger] engines[j].name != e.name by {
        assert(engines[j].name.len() != e.name.len() || engines[j].name[1] != e.name[1]);
    }
    lemma_engine_named_first(engines, k, 0);
    let shown_term = if trim(term).len() == 0 {
        Seq::empty()
    } else {
        term
    };
    let id = web_query(engines, query)[0].id;
    assert(id == "web:"@ + e.name + ":"@ + shown_term);
    assert(starts_with(id, "web:"@)) by {
        assert(id.subrange(0, 4) =~= "web:"@);
    }
    let rest = id.skip(4);
    assert(rest =~= e.name + seq![':'] + shown_term);
    lemma_first_colon_after(e.name, shown_term, 0);
    assert(rest.take(e.name.len() as int) =~= e.name);
    assert(rest.skip(e.name.len() + 1int) =~= shown_term);
    if trim(term).len() == 0 {
        assert(trim(Seq::<char>::empty()) =~= Seq::<char>::empty());
    }
}

proof fn lemma_engine_action(k: int, t: Seq<char>)
    requires
        0 <= k < default_engines().len(),
        trim(t).len() > 0,
    ensures
        web_action(default_engines(), "web:"@ + default_engines()[k].name + ":"@ + t)
            == WebActionView::Open(
            replace_all(default_engines()[k].url_template, "{}"@, percent_encode(encode_utf8(t))),
        ),
{
    let engines = default_engines();
    let e = engines[k];
    reveal_strlit("Google");
    reveal_strlit("DuckDuckGo");
    reveal_strlit("Wikipedia");
    reveal_strlit("GitHub");
    reveal_strlit("DuckDuckGo Search");
    reveal_strlit("web:");
    reveal_strlit(":");
    assert(crate::text::lacks(e.name, ':'));
    assert forall|j: int| 0 <= j < k implies #[trigger] engines[j].name != e.name by {
        assert(engines[j].name.len() != e.name.len() || engines[j].name[1] != e.name[1]);
    }
    lemma_engine_named_first(engines, k, 0);
    let id = "web:"@ + e.name + ":"@ + t;
    assert(starts_with(id, "web:"@)) by {
        assert(id.subrange(0, 4) =~= "web:"@);
    }
    let rest = id.skip(4);
    assert(rest =~= e.name + seq![':'] + t);
    lemma_first_colon_after(e.name, t, 0);
    assert(rest.take(e.name.len() as int) =~= e.name);
    assert(rest.skip(e.name.len() + 1int) =~= t);
}

proof fn lemma_template_url(prefix: Seq<char>, template: Seq<char>, term: Seq<char>)
    requires
        template == prefix + "{}"@,
        crate::text::lacks(prefix, '{'),
    ensures
        replace_all(template, "{}"@, term) == prefix + term,
{
    reveal_strlit("{}");
    crate::text::lemma_replace_after(prefix, "{}"@, term, Seq::empty());
    assert(prefix + "{}"@ + Seq::<char>::empty() =~= template);
    assert(prefix + term + replace_all(Seq::<char>::empty(), "{}"@, term) =~= prefix + term);
}

/// Each engine's results open that engine's search page: for every term
/// that is not blank, the id `web:<engine>:<term>` opens the engine's search
/// URL with the percent-encoded term appended.
pub proof fn lemma_engine_urls(t: Seq<char>)
    requires
        trim(t).len() > 0,
    ensures
        web_action(default_engines(), "web:Google:"@ + t) == WebActionView::Open(
            "https://www.google.com/search?q="@ + percent_encode(encode_utf8(t)),
        ),
        web_action(default_engines(), "web:DuckDuckGo:"@ + t) == WebActionView::Open(
            "https://duckduckgo.com/?q="@ + percent_encode(encode_utf8(t)),
        ),
        web_action(default_engines(), "web:Wikipedia:"@ + t) == WebActionView::Open(
            "https://en.wikipedia.org/wiki/Special:Search?search="@ + percent_encode(encode_utf8(t)),
        ),
        web_action(default_engines(), "web:GitHub:"@ + t) == WebActionView::Open(
            "https://github.com/search?q="@ + percent_encode(encode_utf8(t)),
        ),
        web_action(default_engines(), "web:DuckDuckGo Search:"@ + t) == WebActionView::Open(
            "https://duckduckgo.com/?q="@ + percent_encode(encode_utf8(t)),
        ),
{
    let es = default_engines();
    let enc = percent_encode(encode_utf8(t));
    reveal_strlit("Google");
    reveal_strlit("DuckDuckGo");
    reveal_strlit("Wikipedia");
    reveal_strlit("GitHub");
    reveal_strlit("DuckDuckGo Search");
    reveal_strlit("web:");
    reveal_strlit(":");
    reveal_strlit("web:Google:");
    reveal_strlit("web:DuckDuckGo:");
    reveal_strlit("web:Wikipedia:");
    reveal_strlit("web:GitHub:");
    reveal_strlit("web:DuckDuckGo Search:");
    reveal_strlit("{}");
    reveal_strlit("https://www.google.com/search?q={}");
    reveal_strlit("https://www.google.com/search?q=");
    reveal_strlit("https://duckduckgo.com/?q={}");
    reveal_strlit("https://duckduckgo.com/?q=");
    reveal_strlit("https://en.wikipedia.org/wiki/Special:Search?search={}");
    reveal_strlit("https://en.wikipedia.org/wiki/Special:Search?search=");
    reveal_strlit("https://github.com/search?q={}");
    reveal_strlit("https://github.com/search?q=");
    lemma_engine_action(0, t);
    lemma_engine_action(1, t);
    lemma_engine_action(2, t);
    lemma_engine_action(3, t);
    lemma_engine_action(4, t);
    assert("web:"@ + es[0].name + ":"@ + t =~= "web:Google:"@ + t);
    assert("web:"@ + es[1].name + ":"@ + t =~= "web:DuckDuckGo:"@ + t);
    assert("web:"@ + es[2].name + ":"@ + t =~= "web:Wikipedia:"@ + t);
    assert("web:"@ + es[3].name + ":"@ + t =~= "web:GitHub:"@ + t);
    assert("web:"@ + es[4].name + ":"@ + t =~= "web:DuckDuckGo Search:"@ + t);
    assert(es[0].url_template =~= "https://www.google.com/search?q="@ + "{}"@);
    assert(es[1].url_template =~= "https://duckduckgo.com/?q="@ + "{}"@);
    assert(es[2].url_template =~= "https://en.wikipedia.org/wiki/Special:Search?search="@ + "{}"@);
    assert(es[3].url_template =~= "https://github.com/search?q="@ + "{}"@);
    assert(es[4].url_template =~= "https://duckduckgo.com/?q="@ + "{}"@);
    lemma_template_url("https://www.google.com/search?q="@, es[0].url_template, enc);
    lemma_template_url("https://duckduckgo.com/?q="@, es[1].url_template, enc);
    lemma_template_url("https://en.wikipedia.org/wiki/Special:Search?search="@, es[2].url_template, enc);
    lemma_template_url("https://github.com/search?q="@, es[3].url_template, enc);
    lemma_template_url("https://duckduckgo.com/?q="@, es[4].url_template, enc);
}

/// The engine that a query selects is one of the engines.
proof fn lemma_first_engine_bounds(engines: Seq<EngineView>, q: Seq<char>, from: int)
    requires
        0 <= from,
    ensures
        first_engine(engines, q, from) matches Some(k) ==> from <= k < engines.len(),
    decreases engines.len() - from,
{
    if from < engines.len() && !selects(q, engines[from].prefix) {
        lemma_first_engine_bounds(engines, q, from + 1);
    }
}

/// The uppercase hexadecimal digit of `d`.
pub fn hex_upper_char(d: u8) -> (c: char)
    requires
        d < 16,
    ensures
        c == hex_digit_upper(d as nat),
{
    if d < 10 {
        digit_to_char(d as u64)
    } else if d == 10 {
        'A'
    } else if d == 11 {
        'B'
    } else if d == 12 {
        'C'
    } else if d == 13 {
        'D'
    } else if d == 14 {
        'E'
    } else {
        'F'
    }
}

/// Percent-encoding of the bytes.
pub fn percent_encode_bytes(bytes: &[u8]) -> (r: Vec<char>)
    ensures
        r@ == percent_encode(bytes@),
{
    let mut r: Vec<char> = Vec::new();
    let mut i: usize = 0;
    assert(bytes@.take(0) =~= Seq::<u8>::empty());
    while i < bytes.len()
        invariant
            i <= bytes.len(),
            r@ == percent_encode(bytes@.take(i as int)),
        decreases bytes.len() - i,
    {
        let b = bytes[i];
        assert(bytes@.take(i + 1).drop_last() =~= bytes@.take(i as int));
        if (48 <= b && b <= 57) || (65 <= b && b <= 90) || (97 <= b && b <= 122) || b == 45 || b
            == 95 || b == 46 || b == 126 {
            r.push(b as char);
        } else if b == 32 {
            r.push('+');
        } else {
            r.push('%');
            r.push(hex_upper_char(b / 16));
            r.push(hex_upper_char(b % 16));
        }
        i = i + 1;
    }
    assert(bytes@.take(i as int) =~= bytes@);
    r
}

impl WebSearchPlugin {
    pub closed spec fn engines(&self) -> Seq<EngineView> {
        self.engines@.map_values(|e: SearchEngine| e@)
    }

    /// A plugin with the built-in engines.
    pub fn new() -> (r: Self)
        ensures
            r.engines() == default_engines(),
    {
        let mut engines = Vec::new();
        engines.push(
            SearchEngine {
                prefix: "!g",
                name: "Google",
                url_template: "https://www.google.com/search?q={}",
                icon: "google",
            },
        );
        engines.push(
            SearchEngine {
                prefix: "!ddg",
                name: "DuckDuckGo",
                url_template: "https://duckduckgo.com/?q={}",
                icon: "duckduckgo",
            },
        );
        engines.push(
            SearchEngine {
                prefix: "!w",
                name: "Wikipedia",
                url_template: "https://en.wikipedia.org/wiki/Special:Search?search={}",
                icon: "wikipedia",
            },
        );
        engines.push(
            SearchEngine {
                prefix: "!gh",
                name: "GitHub",
                url_template: "https://github.com/search?q={}",
                icon: "github",
            },
        );
        engines.push(
            SearchEngine {
                prefix: "?",
                name: "DuckDuckGo Search",
                url_template: "https://duckduckgo.com/?q={}",
                icon: "web-browser",
            },
        );
        let r = WebSearchPlugin { engines };
        assert(r.engines() =~= default_engines());
        r
    }

    /// The identifier under which the router knows this plugin.
    pub fn id(&self) -> (r: &'static str)
        ensures
            r@ == "web_search"@,
    {
        "web_search"
    }

    fn selects_exec(q: &Vec<char>, prefix: &str) -> (r: bool)
        ensures
            r == selects(q@, prefix@),
    {
        if eq_str(q, prefix) {
            return true;
        }
        let mut p = chars_of(prefix);
        p.push(' ');
        starts_with_chars(q, &p)
    }

    fn find_engine(&self, q: &Vec<char>) -> (r: Option<usize>)
        ensures
            r matches Some(k) ==> k < self.engines.len() && selects(
                q@,
                self.engines()[k as int].prefix,
            ),
            match r {
                Some(k) => first_engine(self.engines(), q@, 0) == Some(k as int),
                None => first_engine(self.engines(), q@, 0) == None::<int>,
            },
    {
        let mut i: usize = 0;
        while i < self.engines.len()
            invariant
                i <= self.engines.len(),
                first_engine(self.engines(), q@, 0) == first_engine(self.engines(), q@, i as int),
            decreases self.engines.len() - i,
        {
            if Self::selects_exec(q, self.engines[i].prefix) {
                return Some(i);
            }
            i = i + 1;
        }
        None
    }

    proof fn lemma_first_engine_some(engines: Seq<EngineView>, q: Seq<char>, from: int)
        requires
            0 <= from,
        ensures
            first_engine(engines, q, from) is Some <==> exists|i: int|
                from <= i < engines.len() && selects(q, engines[i].prefix),
        decreases engines.len() - from,
    {
        if from < engines.len() {
            Self::lemma_first_engine_some(engines, q, from + 1);
            if !selects(q, engines[from].prefix) {
                assert forall|i: int|
                    from <= i < engines.len() && selects(q, engines[i].prefix) implies from + 1
                    <= i by {}
            }
        }
    }

    /// Whether the query starts (after leading whitespace) with an engine
    /// prefix that stands alone or is followed by a space.
    pub fn accepts(&self, query: &str) -> (r: bool)
        ensures
            r == web_accepts(self.engines(), query@),
    {
        let qv = chars_of(query);
        let q = trim_start_chars(&qv);
        let found = self.find_engine(&q);
        proof {
            Self::lemma_first_engine_some(self.engines(), q@, 0);
        }
        found.is_some()
    }

    /// The single result for a query addressed to an engine, or none.
    pub fn query(&self, query: &str) -> (r: Vec<SearchResult>)
        ensures
            views(r@) == web_query(self.engines(), query@),
    {
        let qv = chars_of(query);
        let q = trim_start_chars(&qv);
        let k = match self.find_engine(&q) {
            Some(k) => k,
            None => {
                let r: Vec<SearchResult> = Vec::new();
                assert(views(r@) =~= Seq::<ResultView>::empty());
                return r;
            },
        };
        let engine = &self.engines[k];
        assert(self.engines()[k as int] == engine@);
        let prefix = chars_of(engine.prefix);
        let term = if eq_chars(&q, &prefix) {
            Vec::new()
        } else {
            assert(starts_with(q@, prefix@.push(' ')));
            assert(prefix@.push(' ').len() == prefix.len() + 1);
            assert(prefix.len() + 1 <= q.len());
            sub_vec(&q, prefix.len() + 1, q.len())
        };
        assert(term@ =~= search_term(q@, engine.prefix@));
        let trimmed = trim_chars(&term);
        let icon = chars_of(engine.icon);
        let mut r: Vec<SearchResult> = Vec::new();
        if trimmed.len() == 0 {
            let mut id = Vec::new();
            append_str(&mut id, "web:");
            append_str(&mut id, engine.name);
            append_str(&mut id, ":");
            let mut title = Vec::new();
            append_str(&mut title, "Search on ");
            append_str(&mut title, engine.name);
            let mut desc = Vec::new();
            append_str(&mut desc, "Type query to search on ");
            append_str(&mut desc, engine.name);
            r.push(make_result(&id, &title, Some(&desc), Some(&icon), 900));
        } else {
            let mut id = Vec::new();
            append_str(&mut id, "web:");
            append_str(&mut id, engine.name);
            append_str(&mut id, ":");
            append_chars(&mut id, &term);
            let mut title = Vec::new();
            append_str(&mut title, "Search ");
            append_str(&mut title, engine.name);
            append_str(&mut title, " for '");
            append_chars(&mut title, &trimmed);
            append_str(&mut title, "'");
            let mut desc = Vec::new();
            append_str(&mut desc, "Opens default browser at ");
            append_str(&mut desc, engine.name);
            r.push(make_result(&id, &title, Some(&desc), Some(&icon), 900));
        }
        assert(views(r@) =~= web_query(self.engines(), query@));
        r
    }

    fn find_named(&self, name: &Vec<char>) -> (r: Option<usize>)
        ensures
            r matches Some(k) ==> k < self.engines.len(),
            match r {
                Some(k) => engine_named(self.engines(), name@, 0) == Some(k as int),
                None => engine_named(self.engines(), name@, 0) == None::<int>,
            },
    {
        let mut i: usize = 0;
        while i < self.engines.len()
            invariant
                i <= self.engines.len(),
                engine_named(self.engines(), name@, 0) == engine_named(
                    self.engines(),
                    name@,
                    i as int,
                ),
            decreases self.engines.len() - i,
        {
            if eq_str(name, self.engines[i].name) {
                return Some(i);
            }
            i = i + 1;
        }
        None
    }

    /// What executing the result `result_id` does: open a URL, stay open, or
    /// report an error.
    pub fn resolve(&self, result_id: &str) -> (a: WebAction)
        ensures
            a@ == web_action(self.engines(), result_id@),
    {
        let id = chars_of(result_id);
        if !starts_with_str(&id, "web:") {
            return WebAction::Error(String::from_str("Invalid web search action ID"));
        }
        proof {
            reveal_strlit("web:");
            reveal_strlit("{}");
        }
        let rest = sub_vec(&id, 4, id.len());
        let c = match find_colon(&rest, 0) {
            Some(c) => c,
            None => return WebAction::KeepOpen,
        };
        let name = sub_vec(&rest, 0, c);
        let term = sub_vec(&rest, c + 1, rest.len());
        let trimmed = trim_chars(&term);
        if trimmed.len() == 0 {
            return WebAction::KeepOpen;
        }
        match self.find_named(&name) {
            None => {
                let mut msg = Vec::new();
                append_str(&mut msg, "Unknown search engine: ");
                append_chars(&mut msg, &name);
                WebAction::Error(string_of(msg.as_slice()))
            },
            Some(k) => {
                let term_text = string_of(term.as_slice());
                let encoded = percent_encode_bytes(term_text.as_str().as_bytes());
                let template = chars_of(self.engines[k].url_template);
                let url = replace_all_chars(&template, &chars_of("{}"), &encoded);
                WebAction::Open(string_of(url.as_slice()))
            },
        }
    }
}

/// Position of the first `:` in `s` at or after `from`.
fn find_colon(s: &Vec<char>, from: usize) -> (r: Option<usize>)
    ensures
        match r {
            Some(k) => first_colon(s@, from as int) == Some(k as int) && k < s.len(),
            None => first_colon(s@, from as int) == None::<int>,
        },
{
    let mut i = from;
    if i > s.len() {
        return None;
    }
    while i < s.len()
        invariant
            from <= i <= s.len(),
            first_colon(s@, from as int) == first_colon(s@, i as int),
        decreases s.len() - i,
    {
        if s[i] == ':' {
            return Some(i);
        }
        i = i + 1;
    }
    None
}

} // verus!
