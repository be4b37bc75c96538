//! Installed applications: parsing desktop entries, ordering them by id,
//! matching them against a query, and the command line that launches one.
use vstd::prelude::*;
use crate::fuzzy::{fuzzy_score, skim_score};
use crate::plugin::{ResultView, SearchResult, lemma_views_push, views};
use crate::router::{sort_by_score, sort_results};
use crate::text::{
    append_chars, contains_str, chars_of, contains, eq_str, first_index_of, index_of_char, join_with,
    split_char, split_chars, split_whitespace_chars, starts_with, starts_with_str, string_of, words_from,
    sub_vec, to_lowercase, trim, trim_chars, lowercase, words,
};

verus! {

/// An application found in a desktop entry.
pub struct DesktopApp {
    /// The desktop file's name, such as `firefox.desktop`.
    pub id: String,
    pub name: String,
    pub command: String,
    pub icon: Option<String>,
}

/// The mathematical content of a [`DesktopApp`].
pub struct AppView {
    pub id: Seq<char>,
    pub name: Seq<char>,
    pub command: Seq<char>,
    pub icon: Option<Seq<char>>,
}

impl View for DesktopApp {
    type V = AppView;

    open spec fn view(&self) -> AppView {
        AppView {
            id: self.id@,
            name: self.name@,
            command: self.command@,
            icon: crate::plugin::opt_text(self.icon),
        }
    }
}

impl Clone for DesktopApp {
    fn clone(&self) -> (r: Self)
        ensures
            r@ == self@,
    {
        DesktopApp {
            id: self.id.clone(),
            name: self.name.clone(),
            command: self.command.clone(),
            icon: crate::plugin::clone_opt_string(&self.icon),
        }
    }
}

/// What has been read of a desktop file so far.
pub struct EntryState {
    pub name: Seq<char>,
    pub command: Seq<char>,
    pub icon: Option<Seq<char>>,
    pub no_display: bool,
    pub in_entry: bool,
}

pub open spec fn initial_entry_state() -> EntryState {
    EntryState {
        name: Seq::empty(),
        command: Seq::empty(),
        icon: None,
        no_display: false,
        in_entry: false,
    }
}

/// The trimmed key and value of a `key=value` line (split at the first `=`).
pub open spec fn key_value(t: Seq<char>) -> Option<(Seq<char>, Seq<char>)> {
    match first_index_of(t, '=', 0) {
        Some(p) => Some((trim(t.take(p)), trim(t.skip(p + 1)))),
        None => None,
    }
}

/// The state after one line: a `[...]` header opens or closes the
/// `[Desktop Entry]` section; inside it, the first `Name`, the last `Exec`
/// and `Icon`, and a `NoDisplay` of `true` (in any case) are kept.
pub open spec fn read_line(st: EntryState, line: Seq<char>) -> EntryState {
    let t = trim(line);
    let in_entry = if starts_with(t, "["@) {
        t == "[Desktop Entry]"@
    } else {
        st.in_entry
    };
    let s1 = EntryState {
        name: st.name,
        command: st.command,
        icon: st.icon,
        no_display: st.no_display,
        in_entry: in_entry,
    };
    if !in_entry {
        s1
    } else {
        match key_value(t) {
            None => s1,
            Some(kv) => {
                let (k, v) = kv;
                if k == "Name"@ && s1.name.len() == 0 {
                    EntryState { name: v, command: s1.command, icon: s1.icon, no_display: s1.no_display, in_entry: true }
                } else if k == "Exec"@ {
                    EntryState { name: s1.name, command: v, icon: s1.icon, no_display: s1.no_display, in_entry: true }
                } else if k == "Icon"@ {
                    EntryState { name: s1.name, command: s1.command, icon: Some(v), no_display: s1.no_display, in_entry: true }
                } else if k == "NoDisplay"@ && lowercase(v) == "true"@ {
                    EntryState { name: s1.name, command: s1.command, icon: s1.icon, no_display: true, in_entry: true }
                } else {
                    s1
                }
            },
        }
    }
}

pub open spec fn read_lines(st: EntryState, lines: Seq<Seq<char>>) -> EntryState
    decreases lines.len(),
{
    if lines.len() == 0 {
        st
    } else {
        read_lines(read_line(st, lines[0]), lines.drop_first())
    }
}

pub open spec fn entry_error() -> Seq<char> {
    "Incomplete or hidden desktop entry"@
}

/// The application that a desktop file named `file_name` with this content
/// describes. The content is read line by line; a line's trailing `\r` and
/// the empty piece after a final newline are removed by the trimming or are
/// inert.
pub open spec fn desktop_entry(file_name: Seq<char>, content: Seq<char>) -> Result<AppView, Seq<char>> {
    let st = read_lines(initial_entry_state(), split_char(content, '\n'));
    if st.name.len() == 0 || st.command.len() == 0 || st.no_display {
        Err(entry_error())
    } else {
        Ok(AppView { id: file_name, name: st.name, command: st.command, icon: st.icon })
    }
}

/// Line `k` lies in the `[Desktop Entry]` section and is `NoDisplay=true`
/// (the value in any case).
pub open spec fn hidden_at(lines: Seq<Seq<char>>, k: int) -> bool {
    let t = trim(lines[k]);
    &&& 0 <= k < lines.len()
    &&& read_lines(initial_entry_state(), lines.take(k)).in_entry
    &&& !starts_with(t, "["@)
    &&& key_value(t) matches Some(kv) && kv.0 == "NoDisplay"@ && lowercase(kv.1)
        == "true"@
}

proof fn lemma_hidden_sticks(st: EntryState, ls: Seq<Seq<char>>)
    requires
        st.no_display,
    ensures
        read_lines(st, ls).no_display,
    decreases ls.len(),
{
    if ls.len() > 0 {
        lemma_hidden_sticks(read_line(st, ls[0]), ls.drop_first());
    }
}

proof fn lemma_read_lines_split(st: EntryState, ls: Seq<Seq<char>>, k: int)
    requires
        0 <= k <= ls.len(),
    ensures
        read_lines(st, ls) == read_lines(read_lines(st, ls.take(k)), ls.skip(k)),
    decreases k,
{
    if k > 0 {
        lemma_read_lines_split(read_line(st, ls[0]), ls.drop_first(), k - 1);
        assert(ls.take(k).drop_first() =~= ls.drop_first().take(k - 1));
        assert(ls.drop_first().skip(k - 1) =~= ls.skip(k));
        assert(ls.take(k)[0] == ls[0]);
    } else {
        assert(ls.take(0) =~= Seq::<Seq<char>>::empty());
        assert(ls.skip(0) =~= ls);
    }
}

/// Entries flagged `NoDisplay=true` are refused: one such line in the
/// `[Desktop Entry]` section means the file gives no application.
pub proof fn lemma_hidden_refused(file_name: Seq<char>, content: Seq<char>, k: int)
    requires
        hidden_at(split_char(content, '\n'), k),
    ensures
        desktop_entry(file_name, content) == Err::<AppView, Seq<char>>(entry_error()),
{
    let ls = split_char(content, '\n');
    let before = read_lines(initial_entry_state(), ls.take(k));
    lemma_read_lines_split(initial_entry_state(), ls, k);
    let after = read_line(before, ls[k]);
    reveal_strlit("NoDisplay");
    reveal_strlit("Name");
    reveal_strlit("Exec");
    reveal_strlit("Icon");
    let t = trim(ls[k]);
    let kv = key_value(t).unwrap();
    assert(kv.0 == "NoDisplay"@);
    assert("NoDisplay"@.len() == 9 && "Name"@.len() == 4 && "Exec"@.len() == 4 && "Icon"@.len()
        == 4);
    assert(after.no_display);
    assert(ls.skip(k)[0] == ls[k]);
    assert(ls.skip(k).drop_first() =~= ls.skip(k + 1));
    lemma_hidden_sticks(after, ls.skip(k + 1));
}

/// The trimmed key/value pairs of the lines that lie in a `[Desktop Entry]`
/// section, in order; `in_entry` says whether the first line starts inside one.
pub open spec fn entry_pairs(in_entry: bool, lines: Seq<Seq<char>>) -> Seq<(Seq<char>, Seq<char>)>
    decreases lines.len(),
{
    if lines.len() == 0 {
        Seq::empty()
    } else {
        let t = trim(lines[0]);
        let inside = if starts_with(t, "["@) {
            t == "[Desktop Entry]"@
        } else {
            in_entry
        };
        let rest = entry_pairs(inside, lines.drop_first());
        match key_value(t) {
            Some(kv) => if inside {
                seq![kv] + rest
            } else {
                rest
            },
            None => rest,
        }
    }
}

/// The first non-empty value of a `Name` pair, or the empty text.
pub open spec fn first_name(ps: Seq<(Seq<char>, Seq<char>)>) -> Seq<char>
    decreases ps.len(),
{
    if ps.len() == 0 {
        Seq::empty()
    } else if ps[0].0 == "Name"@ && ps[0].1.len() > 0 {
        ps[0].1
    } else {
        first_name(ps.drop_first())
    }
}

/// The value of the last pair with this key.
pub open spec fn last_value(ps: Seq<(Seq<char>, Seq<char>)>, key: Seq<char>) -> Option<Seq<char>>
    decreases ps.len(),
{
    if ps.len() == 0 {
        None
    } else {
        match last_value(ps.drop_first(), key) {
            Some(v) => Some(v),
            None => if ps[0].0 == key {
                Some(ps[0].1)
            } else {
                None
            },
        }
    }
}

/// Some `NoDisplay` pair has the value `true`, in any case.
pub open spec fn any_hidden(ps: Seq<(Seq<char>, Seq<char>)>) -> bool {
    exists|i: int| 0 <= i < ps.len() && ps[i].0 == "NoDisplay"@ && lowercase(#[trigger] ps[i].1) == "true"@
}

proof fn lemma_read_lines_pairs(st: EntryState, ls: Seq<Seq<char>>)
    ensures
        ({
            let ps = entry_pairs(st.in_entry, ls);
            let r = read_lines(st, ls);
            &&& r.name == if st.name.len() > 0 {
                st.name
            } else {
                first_name(ps)
            }
            &&& r.command == match last_value(ps, "Exec"@) {
                Some(v) => v,
                None => st.command,
            }
            &&& r.icon == match last_value(ps, "Icon"@) {
                Some(v) => Some(v),
                None => st.icon,
            }
            &&& r.no_display == (st.no_display || any_hidden(ps))
        }),
    decreases ls.len(),
{
    reveal_strlit("NoDisplay");
    reveal_strlit("Name");
    reveal_strlit("Exec");
    reveal_strlit("Icon");
    assert("NoDisplay"@.len() == 9 && "Name"@.len() == 4 && "Exec"@.len() == 4 && "Icon"@.len()
        == 4);
    assert("Name"@ != "Exec"@ && "Name"@ != "Icon"@ && "Exec"@ != "Icon"@) by {
        assert("Name"@[0] != "Exec"@[0]);
        assert("Name"@[0] != "Icon"@[0]);
        assert("Exec"@[0] != "Icon"@[0]);
    }
    if ls.len() > 0 {
        let s1 = read_line(st, ls[0]);
        let rest = ls.drop_first();
        lemma_read_lines_pairs(s1, rest);
        let ps = entry_pairs(st.in_entry, ls);
        let pr = entry_pairs(s1.in_entry, rest);
        let t = trim(ls[0]);
        if s1.in_entry && key_value(t) is Some {
            let kv = key_value(t).unwrap();
            assert(ps == seq![kv] + pr);
            assert(ps.drop_first() =~= pr);
            assert(ps[0] == kv);
            assert(any_hidden(ps) == (any_hidden(pr) || (kv.0 == "NoDisplay"@ && lowercase(kv.1)
                == "true"@))) by {
                if any_hidden(pr) {
                    let i = choose|i: int|
                        0 <= i < pr.len() && pr[i].0 == "NoDisplay"@ && lowercase(#[trigger] pr[i].1)
                            == "true"@;
                    assert(ps[i + 1] == pr[i]);
                }
                if any_hidden(ps) {
                    let i = choose|i: int|
                        0 <= i < ps.len() && ps[i].0 == "NoDisplay"@ && lowercase(#[trigger] ps[i].1)
                            == "true"@;
                    if i > 0 {
                        assert(pr[i - 1] == ps[i]);
                    }
                }
            }
        } else {
            assert(ps == pr);
        }
    }
}

/// A desktop file gives an application exactly when, among the key/value
/// lines of its `[Desktop Entry]` sections, some `Name` is non-empty, the
/// last `Exec` is non-empty and no `NoDisplay` is `true` (in any case); the
/// application then has the file's name as id, the first non-empty `Name`,
/// the last `Exec` and the last `Icon`, if any.
pub proof fn lemma_desktop_entry_fields(file_name: Seq<char>, content: Seq<char>)
    ensures
        ({
            let ps = entry_pairs(false, split_char(content, '\n'));
            let name = first_name(ps);
            let exec = last_value(ps, "Exec"@);
            desktop_entry(file_name, content) == if name.len() == 0 || exec is None || exec.unwrap().len()
                == 0 || any_hidden(ps) {
                Err::<AppView, Seq<char>>(entry_error())
            } else {
                Ok(
                    AppView {
                        id: file_name,
                        name: name,
                        command: exec.unwrap(),
                        icon: last_value(ps, "Icon"@),
                    },
                )
            }
        }),
{
    lemma_read_lines_pairs(initial_entry_state(), split_char(content, '\n'));
}

struct LineReader {
    name: Vec<char>,
    command: Vec<char>,
    icon: Option<Vec<char>>,
    no_display: bool,
    in_entry: bool,
}

impl View for LineReader {
    type V = EntryState;

    closed spec fn view(&self) -> EntryState {
        EntryState {
            name: self.name@,
            command: self.command@,
            icon: match self.icon {
                Some(i) => Some(i@),
                None => None,
            },
            no_display: self.no_display,
            in_entry: self.in_entry,
        }
    }
}

fn read_line_exec(st: &mut LineReader, line: &Vec<char>)
    ensures
        final(st)@ == read_line(old(st)@, line@),
{
    let t = trim_chars(line);
    if starts_with_str(&t, "[") {
        st.in_entry = eq_str(&t, "[Desktop Entry]");
    }
    if !st.in_entry {
        return;
    }
    match index_of_char(&t, '=', 0) {
        None => {},
        Some(p) => {
            let k = trim_chars(&sub_vec(&t, 0, p));
            let v = trim_chars(&sub_vec(&t, p + 1, t.len()));
            assert(t@.take(p as int) =~= t@.subrange(0, p as int));
            assert(t@.skip(p + 1) =~= t@.subrange(p + 1, t@.len() as int));
            if eq_str(&k, "Name") && st.name.len() == 0 {
                st.name = v;
            } else if eq_str(&k, "Exec") {
                st.command = v;
            } else if eq_str(&k, "Icon") {
                st.icon = Some(v);
            } else if eq_str(&k, "NoDisplay") {
                let lower = to_lowercase(string_of(v.as_slice()).as_str());
                if eq_str(&chars_of(lower.as_str()), "true") {
                    st.no_display = true;
                }
            }
        },
    }
}

/// Reads a desktop file named `file_name` whose text is `content`.
pub fn parse_desktop_file(file_name: &str, content: &str) -> (r: Result<DesktopApp, String>)
    ensures
        match r {
            Ok(app) => desktop_entry(file_name@, content@) == Ok::<AppView, Seq<char>>(app@),
            Err(e) => desktop_entry(file_name@, content@) == Err::<AppView, Seq<char>>(e@),
        },
{
    let text = chars_of(content);
    let lines = split_chars(&text, '\n');
    let ghost ls = lines@.map_values(|l: Vec<char>| l@);
    let mut st = LineReader {
        name: Vec::new(),
        command: Vec::new(),
        icon: None,
        no_display: false,
        in_entry: false,
    };
    let mut i: usize = 0;
    assert(st@ == initial_entry_state());
    assert(ls.skip(0) =~= ls);
    while i < lines.len()
        invariant
            i <= lines.len(),
            ls == lines@.map_values(|l: Vec<char>| l@),
            read_lines(initial_entry_state(), ls) == read_lines(st@, ls.skip(i as int)),
        decreases lines.len() - i,
    {
        assert(ls.skip(i as int)[0] == lines@[i as int]@);
        assert(ls.skip(i as int).drop_first() =~= ls.skip(i + 1));
        read_line_exec(&mut st, &lines[i]);
        i = i + 1;
    }
    assert(ls.skip(i as int) =~= Seq::<Seq<char>>::empty());
    if st.name.len() == 0 || st.command.len() == 0 || st.no_display {
        return Err(String::from_str("Incomplete or hidden desktop entry"));
    }
    Ok(
        DesktopApp {
            id: String::from_str(file_name),
            name: string_of(st.name.as_slice()),
            command: string_of(st.command.as_slice()),
            icon: match &st.icon {
                Some(i) => Some(string_of(i.as_slice())),
                None => None,
            },
        },
    )
}

/// The words of a command line without the field codes (`%u`, `%F`, ...).
pub open spec fn kept_words(ws: Seq<Seq<char>>) -> Seq<Seq<char>>
    decreases ws.len(),
{
    if ws.len() == 0 {
        ws
    } else if starts_with(ws.last(), "%"@) {
        kept_words(ws.drop_last())
    } else {
        kept_words(ws.drop_last()).push(ws.last())
    }
}

/// A desktop entry's command line with its field codes removed and its
/// words separated by single spaces.
pub open spec fn clean_exec(command: Seq<char>) -> Seq<char> {
    join_with(kept_words(words(command)), ' ')
}

/// A word: non-empty, without whitespace.
pub open spec fn is_word(w: Seq<char>) -> bool {
    w.len() > 0 && forall|i: int| 0 <= i < w.len() ==> !crate::text::is_ws(#[trigger] w[i])
}

/// Every piece that `words_from` gives is a word.
pub proof fn lemma_words_are_words(s: Seq<char>, from: int)
    requires
        0 <= from,
    ensures
        forall|i: int| 0 <= i < words_from(s, from).len() ==> is_word(#[trigger] words_from(s, from)[i]),
    decreases s.len() - from,
{
    if from < s.len() {
        if crate::text::is_ws(s[from]) {
            lemma_words_are_words(s, from + 1);
            assert(words_from(s, from) == words_from(s, from + 1));
        } else {
            let k = crate::text::word_end(s, from + 1);
            crate::text::lemma_word_end(s, from + 1);
            lemma_words_are_words(s, k);
            let rest = words_from(s, k);
            let all = words_from(s, from);
            let w = s.subrange(from, k);
            assert(all == seq![w] + rest);
            assert forall|j: int| 0 <= j < w.len() implies !crate::text::is_ws(#[trigger] w[j]) by {
                assert(w[j] == s[from + j]);
            }
            assert forall|i: int| 0 <= i < all.len() implies is_word(#[trigger] all[i]) by {
                if i > 0 {
                    assert(all[i] == rest[i - 1]);
                } else {
                    assert(all[i] == w);
                }
            }
        }
    }
}

proof fn lemma_kept_words(ws: Seq<Seq<char>>)
    requires
        forall|i: int| 0 <= i < ws.len() ==> is_word(#[trigger] ws[i]),
    ensures
        forall|i: int| 0 <= i < kept_words(ws).len() ==> is_word(#[trigger] kept_words(ws)[i]),
    decreases ws.len(),
{
    if ws.len() > 0 {
        let d = ws.drop_last();
        assert forall|i: int| 0 <= i < d.len() implies is_word(#[trigger] d[i]) by {
            assert(d[i] == ws[i]);
        }
        lemma_kept_words(d);
        assert(ws.last() == ws[ws.len() - 1]);
        let prev = kept_words(d);
        let k = kept_words(ws);
        assert forall|i: int| 0 <= i < k.len() implies is_word(#[trigger] k[i]) by {
            if i < prev.len() {
                assert(k[i] == prev[i]);
            }
        }
    }
}

/// Past a whitespace-free stretch, the end of a word is the same in `x`
/// and in `x` followed by a space and more.
proof fn lemma_word_end_prefix(x: Seq<char>, tail: Seq<char>, j: int)
    requires
        0 <= j <= x.len(),
    ensures
        crate::text::word_end(x.push(' ') + tail, j) == crate::text::word_end(x, j),
    decreases x.len() - j,
{
    let s = x.push(' ') + tail;
    if j < x.len() {
        assert(s[j] == x[j]);
        if !crate::text::is_ws(x[j]) {
            lemma_word_end_prefix(x, tail, j + 1);
        }
    } else {
        assert(s[j] == ' ');
    }
}

/// A word runs to the end of the text.
proof fn lemma_word_end_of_word(w: Seq<char>, j: int)
    requires
        is_word(w),
        0 <= j <= w.len(),
    ensures
        crate::text::word_end(w, j) == w.len(),
    decreases w.len() - j,
{
    if j < w.len() {
        lemma_word_end_of_word(w, j + 1);
    }
}

proof fn lemma_words_from_append(x: Seq<char>, w: Seq<char>, i: int)
    requires
        is_word(w),
        0 <= i <= x.len(),
    ensures
        words_from(x.push(' ') + w, i) == words_from(x, i) + seq![w],
    decreases x.len() - i,
{
    let s = x.push(' ') + w;
    if i == x.len() {
        assert(s[i] == ' ');
        assert(crate::text::is_ws(' '));
        assert(words_from(s, i) == words_from(s, i + 1));
        assert forall|j: int| i + 1 <= j <= s.len() implies crate::text::word_end(s, j) == s.len() by {
            lemma_word_end_all(s, i + 1, j);
        }
        assert(s[i + 1] == w[0]);
        assert(s.subrange(i + 1, s.len() as int) =~= w);
        assert(words_from(s, s.len() as int) == Seq::<Seq<char>>::empty());
        assert(words_from(s, i + 1) == seq![w] + Seq::<Seq<char>>::empty());
        assert(words_from(x, i) == Seq::<Seq<char>>::empty());
        assert(seq![w] + Seq::<Seq<char>>::empty() =~= Seq::<Seq<char>>::empty() + seq![w]);
    } else {
        assert(s[i] == x[i]);
        if crate::text::is_ws(x[i]) {
            lemma_words_from_append(x, w, i + 1);
        } else {
            lemma_word_end_prefix(x, w, i + 1);
            let k = crate::text::word_end(x, i + 1);
            crate::text::lemma_word_end(x, i + 1);
            lemma_words_from_append(x, w, k);
            assert(s.subrange(i, k) =~= x.subrange(i, k));
            assert(seq![x.subrange(i, k)] + (words_from(x, k) + seq![w]) =~= (seq![x.subrange(i, k)]
                + words_from(x, k)) + seq![w]);
        }
    }
}

/// Where no whitespace follows `start`, every word from there on ends at the end.
proof fn lemma_word_end_all(s: Seq<char>, start: int, j: int)
    requires
        0 <= start <= j <= s.len(),
        forall|k: int| start <= k < s.len() ==> !crate::text::is_ws(#[trigger] s[k]),
    ensures
        crate::text::word_end(s, j) == s.len(),
    decreases s.len() - j,
{
    if j < s.len() {
        lemma_word_end_all(s, start, j + 1);
    }
}

/// Joining words with single spaces and splitting again gives the words back.
pub proof fn lemma_words_of_joined(ws: Seq<Seq<char>>)
    requires
        forall|i: int| 0 <= i < ws.len() ==> is_word(#[trigger] ws[i]),
    ensures
        words(join_with(ws, ' ')) == ws,
    decreases ws.len(),
{
    if ws.len() == 0 {
        assert(words(Seq::<char>::empty()) =~= Seq::<Seq<char>>::empty());
    } else if ws.len() == 1 {
        let w = ws[0];
        assert(is_word(w));
        lemma_word_end_of_word(w, 1);
        assert(w.subrange(0, w.len() as int) =~= w);
        assert(words_from(w, w.len() as int) == Seq::<Seq<char>>::empty());
        assert(words(w) =~= seq![w]);
        assert(ws =~= seq![w]);
    } else {
        let d = ws.drop_last();
        assert forall|i: int| 0 <= i < d.len() implies is_word(#[trigger] d[i]) by {
            assert(d[i] == ws[i]);
        }
        lemma_words_of_joined(d);
        assert(is_word(ws[ws.len() - 1]));
        lemma_words_from_append(join_with(d, ' '), ws.last(), 0);
        assert(ws =~= d + seq![ws.last()]);
    }
}

/// Splitting a cleaned command line gives exactly its words other than the
/// field codes, which is what a launch runs.
pub proof fn lemma_clean_exec_words(command: Seq<char>)
    ensures
        words(clean_exec(command)) == kept_words(words(command)),
{
    lemma_words_are_words(command, 0);
    lemma_kept_words(words(command));
    lemma_words_of_joined(kept_words(words(command)));
}

/// The command line of `command` without field codes (`%u`, `%F`, ...).
pub fn clean_exec_command(command: &str) -> (r: String)
    ensures
        r@ == clean_exec(command@),
{
    let ws = split_whitespace_chars(&chars_of(command));
    let ghost wv = ws@.map_values(|w: Vec<char>| w@);
    proof {
        lemma_words_are_words(command@, 0);
        assert forall|i: int| 0 <= i < wv.len() implies #[trigger] wv[i].len() > 0 by {
            assert(wv[i] == crate::text::words_from(command@, 0)[i]);
            assert(is_word(crate::text::words_from(command@, 0)[i]));
        }
    }
    let mut cleaned: Vec<char> = Vec::new();
    let mut i: usize = 0;
    assert(wv.take(0) =~= Seq::<Seq<char>>::empty());
    while i < ws.len()
        invariant
            i <= ws.len(),
            wv == ws@.map_values(|w: Vec<char>| w@),
            forall|j: int| 0 <= j < wv.len() ==> #[trigger] wv[j].len() > 0,
            cleaned@ == join_with(kept_words(wv.take(i as int)), ' '),
            (cleaned@.len() == 0) == (kept_words(wv.take(i as int)).len() == 0),
        decreases ws.len() - i,
    {
        let ghost before = kept_words(wv.take(i as int));
        assert(wv.take(i + 1).drop_last() =~= wv.take(i as int));
        assert(wv.take(i + 1).last() == ws@[i as int]@);
        if !starts_with_str(&ws[i], "%") {
            if cleaned.len() > 0 {
                cleaned.push(' ');
            }
            append_chars(&mut cleaned, &ws[i]);
            proof {
                let after = before.push(ws@[i as int]@);
                assert(kept_words(wv.take(i + 1)) == after);
                if before.len() > 0 {
                    assert(after.drop_last() =~= before);
                } else {
                    assert(after =~= seq![ws@[i as int]@]);
                }
                assert(ws@[i as int]@ == wv[i as int]);
            }
        }
        i = i + 1;
    }
    assert(wv.take(i as int) =~= wv);
    assert(wv == words(command@));
    string_of(cleaned.as_slice())
}

/// What activating an application result does.
pub enum AppAction {
    /// Start this program with these arguments (the first word is the program).
    Launch(Vec<String>),
    /// The result cannot be launched, for this reason.
    Error(String),
}

/// The mathematical content of an [`AppAction`].
pub enum AppActionView {
    Launch(Seq<Seq<char>>),
    Error(Seq<char>),
}

impl View for AppAction {
    type V = AppActionView;

    open spec fn view(&self) -> AppActionView {
        match self {
            AppAction::Launch(a) => AppActionView::Launch(a@.map_values(|s: String| s@)),
            AppAction::Error(m) => AppActionView::Error(m@),
        }
    }
}

/// Index of the first application with this id, from `from` on.
pub open spec fn app_with_id(apps: Seq<AppView>, id: Seq<char>, from: int) -> Option<int>
    decreases apps.len() - from,
{
    if from < 0 || from >= apps.len() {
        None
    } else if apps[from].id == id {
        Some(from)
    } else {
        app_with_id(apps, id, from + 1)
    }
}

/// Launching an application: the words of its cleaned command line.
pub open spec fn launch_of(a: AppView) -> AppActionView {
    let parts = words(clean_exec(a.command));
    if parts.len() == 0 {
        AppActionView::Error("Empty exec command after cleaning"@)
    } else {
        AppActionView::Launch(parts)
    }
}

/// What activating `app:<id>` does: launch the first application with that id.
pub open spec fn app_action(apps: Seq<AppView>, result_id: Seq<char>) -> AppActionView {
    if starts_with(result_id, "app:"@) {
        match app_with_id(apps, result_id.skip(4), 0) {
            Some(k) => launch_of(apps[k]),
            None => AppActionView::Error("Application ID not found in cache"@),
        }
    } else {
        AppActionView::Error("Invalid application action ID"@)
    }
}

/// Lexicographic order of texts by code point, which is the order of
/// `str`'s comparison (UTF-8 preserves code point order).
pub open spec fn text_less(a: Seq<char>, b: Seq<char>) -> bool
    decreases a.len(),
{
    if a.len() == 0 {
        b.len() > 0
    } else if b.len() == 0 {
        false
    } else if a[0] == b[0] {
        text_less(a.drop_first(), b.drop_first())
    } else {
        a[0] < b[0]
    }
}

/// Some application in `s` has this id.
pub open spec fn has_id(s: Seq<AppView>, id: Seq<char>) -> bool {
    exists|i: int| 0 <= i < s.len() && s[i].id == id
}

/// Number of leading applications whose id comes before `id`.
pub open spec fn leading_less(s: Seq<AppView>, id: Seq<char>) -> nat
    decreases s.len(),
{
    if s.len() > 0 && text_less(s[0].id, id) {
        1 + leading_less(s.drop_first(), id)
    } else {
        0
    }
}

/// The insertion point lies within the sequence.
pub proof fn lemma_leading_less_bound(s: Seq<AppView>, id: Seq<char>)
    ensures
        leading_less(s, id) <= s.len(),
    decreases s.len(),
{
    if s.len() > 0 && text_less(s[0].id, id) {
        lemma_leading_less_bound(s.drop_first(), id);
    }
}

/// `a` put in its place by id, unless an application with its id is there.
pub open spec fn insert_app(s: Seq<AppView>, a: AppView) -> Seq<AppView> {
    if has_id(s, a.id) {
        s
    } else {
        let k = leading_less(s, a.id) as int;
        s.take(k).push(a) + s.skip(k)
    }
}

/// The applications ordered by id, keeping the first of each id (a stable
/// sort by id followed by removing adjacent duplicates).
pub open spec fn unique_by_id(apps: Seq<AppView>) -> Seq<AppView>
    decreases apps.len(),
{
    if apps.len() == 0 {
        apps
    } else {
        insert_app(unique_by_id(apps.drop_last()), apps.last())
    }
}

proof fn lemma_text_less_asym(a: Seq<char>, b: Seq<char>)
    ensures
        !(text_less(a, b) && text_less(b, a)),
    decreases a.len(),
{
    if a.len() > 0 && b.len() > 0 && a[0] == b[0] {
        lemma_text_less_asym(a.drop_first(), b.drop_first());
    }
}

proof fn lemma_text_less_total(a: Seq<char>, b: Seq<char>)
    ensures
        a == b || text_less(a, b) || text_less(b, a),
    decreases a.len(),
{
    if a.len() == 0 && b.len() == 0 {
        assert(a =~= b);
    } else if a.len() > 0 && b.len() > 0 && a[0] == b[0] {
        lemma_text_less_total(a.drop_first(), b.drop_first());
        if a.drop_first() == b.drop_first() {
            assert(a =~= seq![a[0]] + a.drop_first());
            assert(b =~= seq![b[0]] + b.drop_first());
        }
    }
}

proof fn lemma_text_less_trans(a: Seq<char>, b: Seq<char>, c: Seq<char>)
    requires
        text_less(a, b),
        text_less(b, c),
    ensures
        text_less(a, c),
    decreases a.len(),
{
    if a.len() > 0 && b.len() > 0 && c.len() > 0 && a[0] == b[0] && b[0] == c[0] {
        lemma_text_less_trans(a.drop_first(), b.drop_first(), c.drop_first());
    }
}

/// Ids strictly increase along the sequence.
pub open spec fn ascending_ids(s: Seq<AppView>) -> bool {
    forall|i: int, j: int| 0 <= i < j < s.len() ==> text_less(s[i].id, s[j].id)
}

/// `x` is the first application of `apps` with its id.
pub open spec fn first_with_id(apps: Seq<AppView>, x: AppView) -> bool {
    exists|j: int|
        0 <= j < apps.len() && apps[j] == x && forall|k: int| 0 <= k < j ==> apps[k].id != x.id
}

proof fn lemma_leading_less(s: Seq<AppView>, id: Seq<char>)
    requires
        ascending_ids(s),
    ensures
        leading_less(s, id) <= s.len(),
        forall|i: int| 0 <= i < leading_less(s, id) ==> text_less(#[trigger] s[i].id, id),
        forall|i: int| leading_less(s, id) <= i < s.len() ==> !text_less(#[trigger] s[i].id, id),
    decreases s.len(),
{
    if s.len() > 0 && text_less(s[0].id, id) {
        let d = s.drop_first();
        assert(ascending_ids(d)) by {
            assert forall|i: int, j: int| 0 <= i < j < d.len() implies text_less(d[i].id, d[j].id) by {
                assert(d[i] == s[i + 1] && d[j] == s[j + 1]);
            }
        }
        lemma_leading_less(d, id);
        assert forall|i: int| 0 <= i < leading_less(s, id) implies text_less(#[trigger] s[i].id, id) by {
            if i > 0 {
                assert(s[i] == d[i - 1]);
            }
        }
        assert forall|i: int| leading_less(s, id) <= i < s.len() implies !text_less(#[trigger] s[i].id, id) by {
            assert(s[i] == d[i - 1]);
        }
    } else if s.len() > 0 {
        assert forall|i: int| 0 <= i < s.len() implies !text_less(#[trigger] s[i].id, id) by {
            if i > 0 && text_less(s[i].id, id) {
                assert(text_less(s[0].id, s[i].id));
                lemma_text_less_trans(s[0].id, s[i].id, id);
            }
        }
    }
}

proof fn lemma_insert_app(s: Seq<AppView>, a: AppView)
    requires
        ascending_ids(s),
    ensures
        ascending_ids(insert_app(s, a)),
        forall|x: Seq<char>| has_id(insert_app(s, a), x) <==> (has_id(s, x) || x == a.id),
        forall|i: int|
            0 <= i < insert_app(s, a).len() ==> (#[trigger] insert_app(s, a)[i] == a && !has_id(s, a.id))
                || exists|j: int| 0 <= j < s.len() && s[j] == insert_app(s, a)[i],
{
    if !has_id(s, a.id) {
        lemma_leading_less(s, a.id);
        let k = leading_less(s, a.id) as int;
        let r = insert_app(s, a);
        assert(r.len() == s.len() + 1);
        assert forall|i: int| 0 <= i < r.len() implies #[trigger] r[i] == (if i < k {
            s[i]
        } else if i == k {
            a
        } else {
            s[i - 1]
        }) by {}
        assert forall|i: int| k <= i < s.len() implies text_less(a.id, #[trigger] s[i].id) by {
            lemma_text_less_total(a.id, s[i].id);
            assert(s[i].id != a.id);
        }
        assert forall|i: int, j: int| 0 <= i < j < r.len() implies text_less(r[i].id, r[j].id) by {
            if i < k && j == k {
            } else if i < k && j > k {
                lemma_text_less_trans(s[i].id, a.id, s[j - 1].id);
            } else if i == k {
            } else if i < k {
            } else {
            }
        }
        assert forall|x: Seq<char>| has_id(r, x) <==> (has_id(s, x) || x == a.id) by {
            if has_id(s, x) {
                let j = choose|j: int| 0 <= j < s.len() && s[j].id == x;
                if j < k {
                    assert(r[j] == s[j]);
                } else {
                    assert(r[j + 1] == s[j]);
                }
            }
            if x == a.id {
                assert(r[k] == a);
            }
            if has_id(r, x) {
                let i = choose|i: int| 0 <= i < r.len() && r[i].id == x;
                if i < k {
                    assert(s[i].id == x);
                } else if i > k {
                    assert(s[i - 1].id == x);
                }
            }
        }
        assert forall|i: int| 0 <= i < r.len() implies (#[trigger] r[i] == a && !has_id(s, a.id))
            || exists|j: int| 0 <= j < s.len() && s[j] == r[i] by {
            if i < k {
                assert(s[i] == r[i]);
            } else if i > k {
                assert(s[i - 1] == r[i]);
            }
        }
    }
}

proof fn lemma_has_id_push(d: Seq<AppView>, l: AppView, x: Seq<char>)
    ensures
        has_id(d.push(l), x) <==> (has_id(d, x) || x == l.id),
{
    let a = d.push(l);
    if has_id(d, x) {
        let j = choose|j: int| 0 <= j < d.len() && d[j].id == x;
        assert(a[j] == d[j]);
    }
    if x == l.id {
        assert(a[d.len() as int] == l);
    }
    if has_id(a, x) {
        let j = choose|j: int| 0 <= j < a.len() && a[j].id == x;
        if j < d.len() {
            assert(d[j] == a[j]);
        }
    }
}

proof fn lemma_first_with_id_push(d: Seq<AppView>, l: AppView, y: AppView)
    requires
        first_with_id(d, y) || (y == l && !has_id(d, l.id)),
    ensures
        first_with_id(d.push(l), y),
{
    let a = d.push(l);
    if first_with_id(d, y) {
        let j = choose|j: int|
            0 <= j < d.len() && d[j] == y && forall|k: int| 0 <= k < j ==> d[k].id != y.id;
        assert(a[j] == d[j]);
        assert forall|k: int| 0 <= k < j implies a[k].id != y.id by {
            assert(a[k] == d[k]);
        }
    } else {
        let j = d.len() as int;
        assert(a[j] == l);
        assert forall|k: int| 0 <= k < j implies a[k].id != y.id by {
            assert(a[k] == d[k]);
        }
    }
}

/// The application list's law: it is ordered by strictly increasing id,
/// holds exactly the ids that were given, and for each id the first
/// application given with it.
pub proof fn lemma_unique_by_id(apps: Seq<AppView>)
    ensures
        ascending_ids(unique_by_id(apps)),
        forall|x: Seq<char>| has_id(unique_by_id(apps), x) <==> has_id(apps, x),
        forall|i: int|
            0 <= i < unique_by_id(apps).len() ==> first_with_id(apps, #[trigger] unique_by_id(apps)[i]),
    decreases apps.len(),
{
    if apps.len() > 0 {
        let d = apps.drop_last();
        let l = apps.last();
        assert(apps =~= d.push(l));
        lemma_unique_by_id(d);
        let u = unique_by_id(d);
        lemma_insert_app(u, l);
        let r = unique_by_id(apps);
        assert forall|x: Seq<char>| has_id(r, x) <==> has_id(apps, x) by {
            lemma_has_id_push(d, l, x);
        }
        assert forall|i: int| 0 <= i < r.len() implies first_with_id(apps, #[trigger] r[i]) by {
            if r[i] == l && !has_id(u, l.id) {
                lemma_first_with_id_push(d, l, r[i]);
            } else {
                let j0 = choose|j: int| 0 <= j < u.len() && u[j] == r[i];
                assert(first_with_id(d, u[j0]));
                lemma_first_with_id_push(d, l, r[i]);
            }
        }
    }
}

/// Query prefixes that belong to other plugins.
pub open spec fn foreign_prefix(l: Seq<char>) -> bool {
    starts_with(l, "sys:"@) || starts_with(l, "c:"@) || starts_with(l, "clip:"@) || starts_with(
        l,
        "g:"@,
    ) || starts_with(l, "google:"@) || starts_with(l, "web:"@) || starts_with(l, "win:"@)
}

/// Queries that ask for an equation solver.
pub open spec fn mentions_solver(l: Seq<char>) -> bool {
    contains(l, "mitternacht"@) || contains(l, "quadratic"@) || contains(l, "abc-"@) || contains(
        l,
        "pq-"@,
    ) || starts_with(l, "pq"@)
}

/// An arithmetic character; `-` only counts in a query longer than one byte.
pub open spec fn arith_char(c: char, long: bool) -> bool {
    c == '+' || c == '*' || c == '/' || c == '^' || c == '%' || c == '(' || (c == '-' && long)
}

pub open spec fn has_arith(t: Seq<char>) -> bool {
    exists|i: int| 0 <= i < t.len() && arith_char(#[trigger] t[i], vstd::utf8::encode_utf8(t).len() > 1)
}

pub open spec fn app_matches(a: AppView, t: Seq<char>) -> bool {
    skim_score(a.name, t) is Some || skim_score(a.id, t) is Some
}

/// Whether the applications plugin handles a query: not another plugin's
/// prefix, no solver or arithmetic, and either empty or matching an application.
pub open spec fn app_accepts(apps: Seq<AppView>, query: Seq<char>) -> bool {
    let t = trim(query);
    let l = lowercase(t);
    &&& !foreign_prefix(l)
    &&& !mentions_solver(l)
    &&& !has_arith(t)
    &&& (t.len() == 0 || exists|i: int| 0 <= i < apps.len() && app_matches(#[trigger] apps[i], t))
}

pub open spec fn score_or_zero(s: Option<i64>) -> i32 {
    match s {
        Some(v) => v as i32,
        None => 0,
    }
}

/// An application's score for the trimmed query `t`: 50 for the empty query,
/// else the better fuzzy score of its name and its id (0 when neither matches).
pub open spec fn app_score(a: AppView, t: Seq<char>) -> i32 {
    if t.len() == 0 {
        50
    } else {
        let n = score_or_zero(skim_score(a.name, t));
        let i = score_or_zero(skim_score(a.id, t));
        if n >= i {
            n
        } else {
            i
        }
    }
}

pub open spec fn app_result(a: AppView, score: i32) -> ResultView {
    ResultView {
        id: "app:"@ + a.id,
        title: a.name,
        description: None,
        icon: a.icon,
        score: score,
        last_used: None,
    }
}

/// The results of the applications with a non-zero score, in application order.
pub open spec fn app_results(apps: Seq<AppView>, t: Seq<char>) -> Seq<ResultView>
    decreases apps.len(),
{
    if apps.len() == 0 {
        Seq::empty()
    } else {
        let r = app_results(apps.drop_last(), t);
        let score = app_score(apps.last(), t);
        if score == 0 {
            r
        } else {
            r.push(app_result(apps.last(), score))
        }
    }
}

pub open spec fn app_query(apps: Seq<AppView>, query: Seq<char>) -> Seq<ResultView> {
    let t = trim(query);
    if app_accepts(apps, t) {
        sort_by_score(app_results(apps, t))
    } else {
        Seq::empty()
    }
}

/// The application list is ranked by descending score.
pub proof fn lemma_app_query_ranked(apps: Seq<AppView>, query: Seq<char>)
    ensures
        crate::router::descending(app_query(apps, query)),
{
    crate::router::lemma_sort_by_score(app_results(apps, trim(query)));
}

proof fn lemma_app_results_contain(apps: Seq<AppView>, t: Seq<char>, k: int)
    requires
        0 <= k < apps.len(),
        app_score(apps[k], t) != 0,
    ensures
        app_results(apps, t).contains(app_result(apps[k], app_score(apps[k], t))),
    decreases apps.len(),
{
    let r = app_results(apps, t);
    let x = app_result(apps[k], app_score(apps[k], t));
    if k == apps.len() - 1 {
        assert(apps.last() == apps[k]);
        assert(r.last() == x);
    } else {
        assert(apps.drop_last()[k] == apps[k]);
        lemma_app_results_contain(apps.drop_last(), t, k);
        let prev = app_results(apps.drop_last(), t);
        let j = choose|j: int| 0 <= j < prev.len() && prev[j] == x;
        assert(r[j] == x);
    }
}

/// For a non-empty query every application whose name or id matches it
/// (with a positive fuzzy score) is listed, under its id and name, and its
/// score is the better of the two fuzzy scores.
pub proof fn lemma_app_listed(apps: Seq<AppView>, query: Seq<char>, k: int)
    requires
        0 <= k < apps.len(),
        trim(query).len() > 0,
        app_accepts(apps, trim(query)),
        score_or_zero(skim_score(apps[k].name, trim(query))) > 0 || score_or_zero(
            skim_score(apps[k].id, trim(query)),
        ) > 0,
    ensures
        exists|i: int|
            0 <= i < app_query(apps, query).len() && {
                let r = #[trigger] app_query(apps, query)[i];
                let n = score_or_zero(skim_score(apps[k].name, trim(query)));
                let m = score_or_zero(skim_score(apps[k].id, trim(query)));
                &&& r.id == "app:"@ + apps[k].id
                &&& r.title == apps[k].name
                &&& r.score >= n && r.score >= m
                &&& (r.score == n || r.score == m)
            },
{
    let t = trim(query);
    let sc = app_score(apps[k], t);
    lemma_app_results_contain(apps, t, k);
    let xs = app_results(apps, t);
    let x = app_result(apps[k], sc);
    crate::router::lemma_sort_by_score(xs);
    let q = app_query(apps, query);
    assert(q == crate::router::sort_by_score(xs));
    xs.to_multiset_ensures();
    q.to_multiset_ensures();
    assert(xs.to_multiset().count(x) > 0);
    assert(q.contains(x));
    let i = choose|i: int| 0 <= i < q.len() && q[i] == x;
    assert(q[i] == x);
}

/// The result shows application `k` and names it by its id.
pub open spec fn shows_app(r: ResultView, apps: Seq<AppView>, k: int) -> bool {
    &&& 0 <= k < apps.len()
    &&& r.id == "app:"@ + apps[k].id
    &&& r.title == apps[k].name
}

/// The result shows some application of the list.
pub open spec fn shown_app(r: ResultView, apps: Seq<AppView>) -> bool {
    exists|k: int| shows_app(r, apps, k)
}

proof fn lemma_app_results_show(apps: Seq<AppView>, t: Seq<char>)
    ensures
        forall|j: int|
            0 <= j < app_results(apps, t).len() ==> #[trigger] shown_app(app_results(apps, t)[j], apps),
    decreases apps.len(),
{
    if apps.len() > 0 {
        let d = apps.drop_last();
        lemma_app_results_show(d, t);
        let prev = app_results(d, t);
        let r = app_results(apps, t);
        let last = apps.len() - 1;
        assert(r == prev || (r.len() == prev.len() + 1 && r.drop_last() == prev && shows_app(
            r.last(),
            apps,
            last,
        ))) by {
            if app_score(apps.last(), t) != 0 {
                assert(r.drop_last() =~= prev);
                assert(apps[last] == apps.last());
            }
        }
        assert forall|j: int| 0 <= j < r.len() implies #[trigger] shown_app(r[j], apps) by {
            if j < prev.len() {
                if r != prev {
                    assert(r[j] == r.drop_last()[j]);
                }
                assert(r[j] == prev[j]);
                assert(shown_app(prev[j], d));
                let k = choose|k: int| shows_app(prev[j], d, k);
                assert(apps[k] == d[k]);
                assert(shows_app(r[j], apps, k));
            } else {
                assert(r[j] == r.last());
                assert(shows_app(r[j], apps, last));
            }
        }
    }
}

proof fn lemma_app_with_id_unique(apps: Seq<AppView>, k: int, from: int)
    requires
        ascending_ids(apps),
        0 <= from <= k < apps.len(),
    ensures
        app_with_id(apps, apps[k].id, from) == Some(k),
    decreases k - from,
{
    if from < k {
        assert(text_less(apps[from].id, apps[k].id));
        lemma_text_less_asym(apps[k].id, apps[k].id);
        lemma_app_with_id_unique(apps, k, from + 1);
    }
}

/// Every application result is owned by the applications plugin: the
/// router sends its execution back to the plugin with this identifier.
pub proof fn lemma_app_results_owned(apps: Seq<AppView>, query: Seq<char>, i: int)
    requires
        0 <= i < app_query(apps, query).len(),
    ensures
        crate::router::owner_of(app_query(apps, query)[i].id) == Some("applications"@),
{
    let xs = app_results(apps, trim(query));
    crate::router::lemma_sort_by_score(xs);
    let r = app_query(apps, query)[i];
    assert(xs.to_multiset().count(r) > 0) by {
        app_query(apps, query).to_multiset_ensures();
        assert(app_query(apps, query).contains(r));
        xs.to_multiset_ensures();
    }
    xs.to_multiset_ensures();
    let j = choose|j: int| 0 <= j < xs.len() && xs[j] == r;
    lemma_app_results_show(apps, trim(query));
    assert(shown_app(xs[j], apps));
    let k = choose|k: int| shows_app(xs[j], apps, k);
    crate::router::lemma_result_owners(apps[k].id);
}

/// Activating a listed application launches that application: each result
/// is titled after some application of the (id-ordered) list and resolves
/// to its cleaned command line.
pub proof fn lemma_app_roundtrip(apps: Seq<AppView>, query: Seq<char>, i: int)
    requires
        ascending_ids(apps),
        0 <= i < app_query(apps, query).len(),
    ensures
        exists|k: int|
            0 <= k < apps.len() && app_query(apps, query)[i].title == apps[k].name && app_action(
                apps,
                app_query(apps, query)[i].id,
            ) == launch_of(apps[k]),
{
    let xs = app_results(apps, trim(query));
    crate::router::lemma_sort_by_score(xs);
    let r = app_query(apps, query)[i];
    assert(xs.to_multiset().count(r) > 0) by {
        app_query(apps, query).to_multiset_ensures();
        assert(app_query(apps, query).contains(r));
        xs.to_multiset_ensures();
    }
    xs.to_multiset_ensures();
    let j = choose|j: int| 0 <= j < xs.len() && xs[j] == r;
    lemma_app_results_show(apps, trim(query));
    assert(shown_app(xs[j], apps));
    let k = choose|k: int| shows_app(xs[j], apps, k);
    lemma_app_with_id_unique(apps, k, 0);
    reveal_strlit("app:");
    assert(r.id.skip(4) =~= apps[k].id);
    assert(starts_with(r.id, "app:"@)) by {
        assert(r.id.subrange(0, 4) =~= "app:"@);
    }
}

pub open spec fn app_views(apps: Seq<DesktopApp>) -> Seq<AppView> {
    apps.map_values(|a: DesktopApp| a@)
}

/// Whether `a` comes before `b`.
fn text_less_chars(a: &Vec<char>, b: &Vec<char>) -> (r: bool)
    ensures
        r == text_less(a@, b@),
{
    let mut i: usize = 0;
    assert(a@.skip(0) =~= a@);
    assert(b@.skip(0) =~= b@);
    while i < a.len() && i < b.len() && a[i] == b[i]
        invariant
            i <= a.len(),
            i <= b.len(),
            text_less(a@, b@) == text_less(a@.skip(i as int), b@.skip(i as int)),
        decreases a.len() - i,
    {
        assert(a@.skip(i as int).drop_first() =~= a@.skip(i + 1));
        assert(b@.skip(i as int).drop_first() =~= b@.skip(i + 1));
        i = i + 1;
    }
    if i == a.len() {
        i < b.len()
    } else if i == b.len() {
        false
    } else {
        a[i] < b[i]
    }
}

/// The applications plugin over a list of installed applications.
pub struct ApplicationsPlugin {
    apps: Vec<DesktopApp>,
}

impl ApplicationsPlugin {
    /// The applications, in the order in which they are matched.
    pub closed spec fn apps(&self) -> Seq<AppView> {
        app_views(self.apps@)
    }

    fn id_position(sorted: &Vec<DesktopApp>, id: &Vec<char>) -> (r: (bool, usize))
        ensures
            r.0 == has_id(app_views(sorted@), id@),
            !r.0 ==> r.1 as nat == leading_less(app_views(sorted@), id@),
    {
        let ghost v = app_views(sorted@);
        let mut i: usize = 0;
        while i < sorted.len()
            invariant
                i <= sorted.len(),
                v == app_views(sorted@),
                forall|j: int| 0 <= j < i ==> v[j].id != id@,
            decreases sorted.len() - i,
        {
            if eq_chars_str(id, &sorted[i].id) {
                assert(v[i as int].id == id@);
                return (true, 0);
            }
            i = i + 1;
        }
        let mut k: usize = 0;
        assert(v.skip(0) =~= v);
        while k < sorted.len() && text_less_chars(&chars_of(sorted[k].id.as_str()), id)
            invariant
                k <= sorted.len(),
                v == app_views(sorted@),
                leading_less(v, id@) == k + leading_less(v.skip(k as int), id@),
            decreases sorted.len() - k,
        {
            assert(v.skip(k as int).drop_first() =~= v.skip(k + 1));
            assert(v.skip(k as int)[0] == v[k as int]);
            k = k + 1;
        }
        proof {
            if k < sorted.len() {
                assert(v.skip(k as int)[0] == v[k as int]);
                assert(!text_less(v.skip(k as int)[0].id, id@));
            } else {
                assert(v.skip(k as int).len() == 0);
            }
        }
        (false, k)
    }

    /// A plugin over these applications, ordered by id with one application
    /// per id (the first one given).
    pub fn from_apps(apps: Vec<DesktopApp>) -> (r: Self)
        ensures
            r.apps() == unique_by_id(app_views(apps@)),
    {
        let ghost w = app_views(apps@);
        let mut sorted: Vec<DesktopApp> = Vec::new();
        let mut i: usize = 0;
        assert(w.take(0) =~= Seq::<AppView>::empty());
        while i < apps.len()
            invariant
                i <= apps.len(),
                w == app_views(apps@),
                app_views(sorted@) == unique_by_id(w.take(i as int)),
            decreases apps.len() - i,
        {
            let a = apps[i].clone();
            let ghost before = app_views(sorted@);
            let (present, k) = Self::id_position(&sorted, &chars_of(a.id.as_str()));
            assert(w.take(i + 1).drop_last() =~= w.take(i as int));
            assert(w.take(i + 1).last() == a@);
            if !present {
                proof {
                    lemma_leading_less_bound(before, a@.id);
                }
                sorted.insert(k, a);
                assert(app_views(sorted@) =~= before.take(k as int).push(a@) + before.skip(k as int));
            }
            i = i + 1;
        }
        assert(w.take(i as int) =~= w);
        ApplicationsPlugin { apps: sorted }
    }
}

impl ApplicationsPlugin {
    /// The identifier under which the router knows this plugin.
    pub fn id(&self) -> (r: &'static str)
        ensures
            r@ == "applications"@,
    {
        "applications"
    }

    fn matches_any(&self, t: &String) -> (r: bool)
        ensures
            r == exists|i: int| 0 <= i < self.apps().len() && app_matches(#[trigger] self.apps()[i], t@),
    {
        let mut i: usize = 0;
        while i < self.apps.len()
            invariant
                i <= self.apps.len(),
                forall|j: int| 0 <= j < i ==> !app_matches(#[trigger] self.apps()[j], t@),
            decreases self.apps.len() - i,
        {
            assert(self.apps()[i as int] == self.apps@[i as int]@);
            if fuzzy_score(self.apps[i].name.as_str(), t.as_str()).is_some() || fuzzy_score(
                self.apps[i].id.as_str(),
                t.as_str(),
            ).is_some() {
                return true;
            }
            i = i + 1;
        }
        false
    }

    /// Whether the query is for this plugin (see `app_accepts`).
    pub fn accepts(&self, query: &str) -> (r: bool)
        ensures
            r == app_accepts(self.apps(), query@),
    {
        let tv = trim_chars(&chars_of(query));
        let t = string_of(tv.as_slice());
        let l = chars_of(to_lowercase(t.as_str()).as_str());
        if starts_with_str(&l, "sys:") || starts_with_str(&l, "c:") || starts_with_str(&l, "clip:")
            || starts_with_str(&l, "g:") || starts_with_str(&l, "google:") || starts_with_str(
            &l,
            "web:",
        ) || starts_with_str(&l, "win:") {
            return false;
        }
        if contains_str(&l, "mitternacht") || contains_str(&l, "quadratic") || contains_str(
            &l,
            "abc-",
        ) || contains_str(&l, "pq-") || starts_with_str(&l, "pq") {
            return false;
        }
        let long = t.as_str().as_bytes().len() > 1;
        let mut i: usize = 0;
        while i < tv.len()
            invariant
                i <= tv.len(),
                tv@ == t@,
                t@ == trim(query@),
                long == (vstd::utf8::encode_utf8(t@).len() > 1),
                forall|j: int| 0 <= j < i ==> !arith_char(#[trigger] tv@[j], long),
            decreases tv.len() - i,
        {
            let c = tv[i];
            if c == '+' || c == '*' || c == '/' || c == '^' || c == '%' || c == '(' || (c == '-'
                && long) {
                assert(arith_char(t@[i as int], long));
                assert(has_arith(t@));
                return false;
            }
            i = i + 1;
        }
        if tv.len() == 0 {
            return true;
        }
        self.matches_any(&t)
    }

    fn score_of(a: &DesktopApp, t: &String) -> (r: i32)
        ensures
            r == app_score(a@, t@),
    {
        if t.as_str().is_empty() {
            return 50;
        }
        let n: i32 = match fuzzy_score(a.name.as_str(), t.as_str()) {
            Some(v) => v as i32,
            None => 0,
        };
        let i: i32 = match fuzzy_score(a.id.as_str(), t.as_str()) {
            Some(v) => v as i32,
            None => 0,
        };
        if n >= i {
            n
        } else {
            i
        }
    }

    /// The matching applications by descending score (all of them, scored 50,
    /// for an empty query).
    pub fn query(&self, query: &str) -> (r: Vec<SearchResult>)
        ensures
            views(r@) == app_query(self.apps(), query@),
    {
        let tv = trim_chars(&chars_of(query));
        let t = string_of(tv.as_slice());
        if !self.accepts(t.as_str()) {
            return Vec::new();
        }
        let ghost apps = self.apps();
        let mut results: Vec<SearchResult> = Vec::new();
        let mut i: usize = 0;
        assert(apps.take(0) =~= Seq::<AppView>::empty());
        while i < self.apps.len()
            invariant
                i <= self.apps.len(),
                apps == self.apps(),
                t@ == trim(query@),
                views(results@) == app_results(apps.take(i as int), t@),
            decreases self.apps.len() - i,
        {
            let a = &self.apps[i];
            assert(apps[i as int] == a@);
            assert(apps.take(i + 1).drop_last() =~= apps.take(i as int));
            assert(apps.take(i + 1).last() == a@);
            let score = Self::score_of(a, &t);
            if score != 0 {
                let x = SearchResult {
                    id: string_of(crate::text::concat(&chars_of("app:"), &chars_of(a.id.as_str())).as_slice()),
                    title: a.name.clone(),
                    description: None,
                    icon: crate::plugin::clone_opt_string(&a.icon),
                    score,
                    last_used: None,
                };
                proof {
                    lemma_views_push(results@, x);
                }
                results.push(x);
            }
            i = i + 1;
        }
        assert(apps.take(i as int) =~= apps);
        sort_results(&results)
    }

    /// What activating the result `result_id` does.
    pub fn resolve(&self, result_id: &str) -> (a: AppAction)
        ensures
            a@ == app_action(self.apps(), result_id@),
    {
        let id = chars_of(result_id);
        if !starts_with_str(&id, "app:") {
            return AppAction::Error(String::from_str("Invalid application action ID"));
        }
        proof {
            reveal_strlit("app:");
        }
        let wanted = sub_vec(&id, 4, id.len());
        assert(wanted@ =~= id@.skip(4));
        let ghost apps = self.apps();
        let mut k: usize = 0;
        while k < self.apps.len()
            invariant
                k <= self.apps.len(),
                apps == self.apps(),
                wanted@ == result_id@.skip(4),
                starts_with(result_id@, "app:"@),
                app_with_id(apps, wanted@, 0) == app_with_id(apps, wanted@, k as int),
            decreases self.apps.len() - k,
        {
            assert(apps[k as int] == self.apps@[k as int]@);
            if eq_str(&wanted, self.apps[k].id.as_str()) {
                assert(app_with_id(apps, wanted@, k as int) == Some(k as int));
                assert(apps[k as int].command == self.apps@[k as int].command@);
                let cleaned = clean_exec_command(self.apps[k].command.as_str());
                let parts = split_whitespace_chars(&chars_of(cleaned.as_str()));
                if parts.len() == 0 {
                    return AppAction::Error(String::from_str("Empty exec command after cleaning"));
                }
                let ghost pv = parts@.map_values(|w: Vec<char>| w@);
                let mut args: Vec<String> = Vec::new();
                let mut j: usize = 0;
                while j < parts.len()
                    invariant
                        j <= parts.len(),
                        pv == parts@.map_values(|w: Vec<char>| w@),
                        args@.map_values(|s: String| s@) == pv.take(j as int),
                    decreases parts.len() - j,
                {
                    let a = string_of(parts[j].as_slice());
                    let ghost before = args@;
                    args.push(a);
                    assert(args@.map_values(|s: String| s@) =~= before.map_values(|s: String| s@).push(a@));
                    assert(pv.take(j + 1) =~= pv.take(j as int).push(pv[j as int]));
                    j = j + 1;
                }
                assert(pv.take(j as int) =~= pv);
                return AppAction::Launch(args);
            }
            k = k + 1;
        }
        AppAction::Error(String::from_str("Application ID not found in cache"))
    }
}

fn eq_chars_str(a: &Vec<char>, b: &String) -> (r: bool)
    ensures
        r == (a@ == b@),
{
    eq_str(a, b.as_str())
}

} // verus!
