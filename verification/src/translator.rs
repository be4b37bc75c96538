//! Translation between German and English: recognising translation queries,
//! the request sent to the translation service, and reading its reply.
use vstd::prelude::*;
use crate::plugin::{ResultView, SearchResult, make_result, views};
use crate::text::{
    append_chars, append_str, chars_of, eq_str, starts_with, starts_with_str, string_of, sub_vec,
    trim, trim_chars,
};
use crate::web::{percent_encode, percent_encode_bytes};

verus! {

/// The text of a translation query: what follows `t:`, `tr ` or
/// `translate ` in the trimmed query, trimmed.
pub open spec fn tr_text(query: Seq<char>) -> Option<Seq<char>> {
    let t = trim(query);
    if starts_with(t, "t:"@) {
        Some(trim(t.skip(2)))
    } else if starts_with(t, "tr "@) {
        Some(trim(t.skip(3)))
    } else if starts_with(t, "translate "@) {
        Some(trim(t.skip(10)))
    } else {
        None
    }
}

pub open spec fn tr_help_result() -> ResultView {
    ResultView {
        id: "tr:help"@,
        title: "Translate text"@,
        description: Some("Type 't:<text>' to translate between German and English"@),
        icon: Some("accessories-dictionary"@),
        score: 95,
        last_used: None,
    }
}

pub open spec fn tr_target_result(text: Seq<char>, to_english: bool) -> ResultView {
    ResultView {
        id: (if to_english { "tr:en:"@ } else { "tr:de:"@ }) + text,
        title: "Translate '"@ + text + (if to_english { "' to English"@ } else { "' to German"@ }),
        description: Some(
            if to_english {
                "Translate German text to English"@
            } else {
                "Translate English text to German"@
            },
        ),
        icon: Some("accessories-dictionary"@),
        score: if to_english { 95 } else { 90 },
        last_used: None,
    }
}

/// The help entry for an empty text; else a translation into English and
/// one into German.
pub open spec fn tr_query(query: Seq<char>) -> Seq<ResultView> {
    match tr_text(query) {
        None => Seq::empty(),
        Some(text) => if text.len() == 0 {
            seq![tr_help_result()]
        } else {
            seq![tr_target_result(text, true), tr_target_result(text, false)]
        },
    }
}

/// What activating a translation result does.
pub enum TranslateAction {
    /// The help entry: stay open.
    KeepOpen,
    /// Translate `text` (into English when `to_english`, else into German)
    /// and show the result.
    Show { text: String, to_english: bool },
    /// The result cannot be used, for this reason.
    Error(String),
}

/// The mathematical content of a [`TranslateAction`].
pub enum TranslateActionView {
    KeepOpen,
    Show { text: Seq<char>, to_english: bool },
    Error(Seq<char>),
}

impl View for TranslateAction {
    type V = TranslateActionView;

    open spec fn view(&self) -> TranslateActionView {
        match self {
            TranslateAction::KeepOpen => TranslateActionView::KeepOpen,
            TranslateAction::Show { text, to_english } => TranslateActionView::Show {
                text: text@,
                to_english: *to_english,
            },
            TranslateAction::Error(m) => TranslateActionView::Error(m@),
        }
    }
}

pub open spec fn tr_action(result_id: Seq<char>) -> TranslateActionView {
    if result_id == "tr:help"@ {
        TranslateActionView::KeepOpen
    } else if starts_with(result_id, "tr:en:"@) || starts_with(result_id, "tr:de:"@) {
        TranslateActionView::Show {
            text: result_id.skip(6),
            to_english: starts_with(result_id, "tr:en:"@),
        }
    } else {
        TranslateActionView::Error("Invalid translation command"@)
    }
}

/// Activating a translation result does what it offers: the help entry
/// keeps the launcher open, and the two targets translate the query's text
/// into English and into German.
pub proof fn lemma_tr_roundtrip(query: Seq<char>)
    ensures
        match tr_text(query) {
            Some(text) => if text.len() == 0 {
                tr_action(tr_query(query)[0].id) == TranslateActionView::KeepOpen
            } else {
                &&& tr_action(tr_query(query)[0].id) == (TranslateActionView::Show {
                    text: text,
                    to_english: true,
                })
                &&& tr_action(tr_query(query)[1].id) == (TranslateActionView::Show {
                    text: text,
                    to_english: false,
                })
            },
            None => tr_query(query).len() == 0,
        },
{
    reveal_strlit("tr:help");
    reveal_strlit("tr:en:");
    reveal_strlit("tr:de:");
    match tr_text(query) {
        Some(text) => {
            if text.len() > 0 {
                let en = "tr:en:"@ + text;
                let de = "tr:de:"@ + text;
                assert(en[3] != "tr:help"@[3]);
                assert(de[3] != "tr:help"@[3]);
                assert(en.subrange(0, 6) =~= "tr:en:"@);
                assert(de.subrange(0, 6) =~= "tr:de:"@);
                assert(de.subrange(0, 6) != "tr:en:"@) by {
                    assert(de.subrange(0, 6)[3] != "tr:en:"@[3]);
                }
                assert(en.skip(6) =~= text);
                assert(de.skip(6) =~= text);
            }
        },
        None => {},
    }
}

/// The request URL for translating `text` (German to English when
/// `to_english`, else English to German).
pub open spec fn translate_request(text: Seq<char>, to_english: bool) -> Seq<char> {
    let from = if to_english { "de"@ } else { "en"@ };
    let to = if to_english { "en"@ } else { "de"@ };
    "https://translate.googleapis.com/translate_a/single?client=gtx&sl="@ + from + "&tl="@ + to
        + "&dt=t&q="@ + percent_encode(vstd::utf8::encode_utf8(text))
}

/// The concatenation of the sentence translations that are present.
pub open spec fn joined_sentences(parts: Seq<Option<Seq<char>>>) -> Seq<char>
    decreases parts.len(),
{
    if parts.len() == 0 {
        Seq::empty()
    } else {
        joined_sentences(parts.drop_last()) + match parts.last() {
            Some(s) => s,
            None => Seq::empty(),
        }
    }
}

pub open spec fn translation_error() -> Seq<char> {
    "Translation empty or parse error"@
}

/// The translation in a reply whose first element lists the sentences
/// (`None` when it does not): their translations joined, or an error when
/// that is empty.
pub open spec fn reply_translation(sentences: Option<Seq<Option<Seq<char>>>>) -> Result<
    Seq<char>,
    Seq<char>,
> {
    let joined = match sentences {
        Some(p) => joined_sentences(p),
        None => Seq::empty(),
    };
    if joined.len() == 0 {
        Err(translation_error())
    } else {
        Ok(joined)
    }
}

pub open spec fn sentence_views(v: Seq<Option<String>>) -> Seq<Option<Seq<char>>> {
    v.map_values(|s: Option<String>| crate::plugin::opt_text(s))
}

/// The request URL for translating `text` (see `translate_request`).
pub fn translate_url(text: &str, to_english: bool) -> (r: String)
    ensures
        r@ == translate_request(text@, to_english),
{
    let mut url = chars_of("https://translate.googleapis.com/translate_a/single?client=gtx&sl=");
    append_str(&mut url, if to_english { "de" } else { "en" });
    append_str(&mut url, "&tl=");
    append_str(&mut url, if to_english { "en" } else { "de" });
    append_str(&mut url, "&dt=t&q=");
    append_chars(&mut url, &percent_encode_bytes(text.as_bytes()));
    string_of(url.as_slice())
}

/// The translation in the service's reply (see `reply_translation`).
pub fn collect_translation(sentences: &Option<Vec<Option<String>>>) -> (r: Result<String, String>)
    ensures
        match r {
            Ok(t) => reply_translation(
                match sentences {
                    Some(v) => Some(sentence_views(v@)),
                    None => None,
                },
            ) == Ok::<Seq<char>, Seq<char>>(t@),
            Err(e) => reply_translation(
                match sentences {
                    Some(v) => Some(sentence_views(v@)),
                    None => None,
                },
            ) == Err::<Seq<char>, Seq<char>>(e@),
        },
{
    let mut joined: Vec<char> = Vec::new();
    match sentences {
        Some(v) => {
            let ghost sv = sentence_views(v@);
            let mut i: usize = 0;
            assert(sv.take(0) =~= Seq::<Option<Seq<char>>>::empty());
            while i < v.len()
                invariant
                    i <= v.len(),
                    sv == sentence_views(v@),
                    joined@ == joined_sentences(sv.take(i as int)),
                decreases v.len() - i,
            {
                assert(sv.take(i + 1).drop_last() =~= sv.take(i as int));
                assert(sv.take(i + 1).last() == crate::plugin::opt_text(v@[i as int]));
                match &v[i] {
                    Some(s) => {
                        append_chars(&mut joined, &chars_of(s.as_str()));
                    },
                    None => {
                        assert(joined@ =~= joined@ + Seq::<char>::empty());
                    },
                }
                i = i + 1;
            }
            assert(sv.take(i as int) =~= sv);
        },
        None => {},
    }
    if joined.len() == 0 {
        Err(String::from_str("Translation empty or parse error"))
    } else {
        Ok(string_of(joined.as_slice()))
    }
}

fn target_result(text: &Vec<char>, to_english: bool) -> (r: SearchResult)
    ensures
        r@ == tr_target_result(text@, to_english),
{
    let mut id = chars_of(if to_english { "tr:en:" } else { "tr:de:" });
    append_chars(&mut id, text);
    let mut title = chars_of("Translate '");
    append_chars(&mut title, text);
    append_str(&mut title, if to_english { "' to English" } else { "' to German" });
    let desc = chars_of(
        if to_english {
            "Translate German text to English"
        } else {
            "Translate English text to German"
        },
    );
    let icon = chars_of("accessories-dictionary");
    make_result(&id, &title, Some(&desc), Some(&icon), if to_english { 95 } else { 90 })
}

/// The translator plugin; the translation itself runs outside the library.
pub struct TranslatorPlugin {}

impl TranslatorPlugin {
    pub fn new() -> (r: Self) {
        TranslatorPlugin {}
    }

    /// The identifier under which the router knows this plugin.
    pub fn id(&self) -> (r: &'static str)
        ensures
            r@ == "translator"@,
    {
        "translator"
    }

    fn text_of(query: &str) -> (r: Option<Vec<char>>)
        ensures
            match r {
                Some(t) => tr_text(query@) == Some(t@),
                None => tr_text(query@) is None,
            },
    {
        let t = trim_chars(&chars_of(query));
        proof {
            reveal_strlit("t:");
            reveal_strlit("tr ");
            reveal_strlit("translate ");
        }
        let skip: usize = if starts_with_str(&t, "t:") {
            2
        } else if starts_with_str(&t, "tr ") {
            3
        } else if starts_with_str(&t, "translate ") {
            10
        } else {
            return None;
        };
        let rest = sub_vec(&t, skip, t.len());
        assert(rest@ =~= t@.skip(skip as int));
        Some(trim_chars(&rest))
    }

    /// Queries that start with `t:`, `tr ` or `translate `.
    pub fn accepts(&self, query: &str) -> (r: bool)
        ensures
            r == (tr_text(query@) is Some),
    {
        Self::text_of(query).is_some()
    }

    /// The help entry, or the two translation targets for the query's text.
    pub fn query(&self, query: &str) -> (r: Vec<SearchResult>)
        ensures
            views(r@) == tr_query(query@),
    {
        let mut r: Vec<SearchResult> = Vec::new();
        match Self::text_of(query) {
            None => {
                assert(views(r@) =~= Seq::<ResultView>::empty());
            },
            Some(text) => {
                if text.len() == 0 {
                    let id = chars_of("tr:help");
                    let title = chars_of("Translate text");
                    let desc = chars_of("Type 't:<text>' to translate between German and English");
                    let icon = chars_of("accessories-dictionary");
                    r.push(make_result(&id, &title, Some(&desc), Some(&icon), 95));
                    assert(views(r@) =~= seq![tr_help_result()]);
                } else {
                    r.push(target_result(&text, true));
                    r.push(target_result(&text, false));
                    assert(views(r@) =~= seq![
                        tr_target_result(text@, true),
                        tr_target_result(text@, false),
                    ]);
                }
            },
        }
        r
    }

    /// What activating the result `result_id` does.
    pub fn resolve(&self, result_id: &str) -> (a: TranslateAction)
        ensures
            a@ == tr_action(result_id@),
    {
        let id = chars_of(result_id);
        if eq_str(&id, "tr:help") {
            return TranslateAction::KeepOpen;
        }
        let en = starts_with_str(&id, "tr:en:");
        if en || starts_with_str(&id, "tr:de:") {
            proof {
                reveal_strlit("tr:en:");
                reveal_strlit("tr:de:");
            }
            let text = sub_vec(&id, 6, id.len());
            assert(text@ =~= id@.skip(6));
            return TranslateAction::Show { text: string_of(text.as_slice()), to_english: en };
        }
        TranslateAction::Error(String::from_str("Invalid translation command"))
    }
}

} // verus!
