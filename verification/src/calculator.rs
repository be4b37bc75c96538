//! The calculator's text processing: recognising the coefficients of the
//! quadratic (`abc`) and `pq` formulas, normalising German and English words
//! into operators, and forcing float division. The arithmetic itself is
//! done on floating-point numbers outside this library.
use vstd::prelude::*;
use crate::text::{
    append_chars, chars_of, count_char, has_char, is_ascii_digit, is_whitespace, is_ws,
    replace_all, replace_all_chars, starts_with, starts_with_str, string_of, sub_vec, to_lowercase,
    lowercase, contains, contains_str, all_ascii, all_ascii_chars, occurs_at, is_ascii_alpha, lacks,
    lemma_replace_after, lemma_replace_absent, ascii_lower,
};

verus! {

/// The words that name an equation solver; they are blanked out before the
/// coefficients are read.
pub open spec fn solver_keywords() -> Seq<Seq<char>> {
    seq![
        "mitternachtsformel"@,
        "mitternachts formel"@,
        "quadratic formula"@,
        "abc-formel"@,
        "abc formel"@,
        "pq-formel"@,
        "pq formel"@,
        "mitternacht"@,
        "quadratic"@,
        "abc"@,
        "pq"@,
    ]
}

/// `s` with each pattern (in order) replaced by `rep`.
pub open spec fn replace_each(s: Seq<char>, pats: Seq<Seq<char>>, rep: Seq<char>) -> Seq<char>
    decreases pats.len(),
{
    if pats.len() == 0 {
        s
    } else {
        replace_each(replace_all(s, pats[0], rep), pats.drop_first(), rep)
    }
}

/// The lowercased query with every solver keyword replaced by a space.
pub open spec fn stripped(query: Seq<char>) -> Seq<char> {
    replace_each(lowercase(query), solver_keywords(), " "@)
}

fn replace_each_exec(s: Vec<char>, pats: &Vec<&str>, rep: &str) -> (r: Vec<char>)
    requires
        forall|i: int| 0 <= i < pats.len() ==> (#[trigger] pats@[i])@.len() > 0,
    ensures
        r@ == replace_each(s@, pats@.map_values(|p: &str| p@), rep@),
{
    let ghost ps = pats@.map_values(|p: &str| p@);
    let mut cur = s;
    let mut i: usize = 0;
    assert(ps.skip(0) =~= ps);
    while i < pats.len()
        invariant
            i <= pats.len(),
            ps == pats@.map_values(|p: &str| p@),
            forall|k: int| 0 <= k < pats.len() ==> (#[trigger] pats@[k])@.len() > 0,
            replace_each(s@, ps, rep@) == replace_each(cur@, ps.skip(i as int), rep@),
        decreases pats.len() - i,
    {
        let pat = chars_of(pats[i]);
        let rv = chars_of(rep);
        assert(ps.skip(i as int)[0] == pats@[i as int]@);
        assert(ps.skip(i as int).drop_first() =~= ps.skip(i + 1));
        cur = replace_all_chars(&cur, &pat, &rv);
        i = i + 1;
    }
    assert(ps.skip(i as int) =~= Seq::<Seq<char>>::empty());
    cur
}

/// The query lowercased, with the names of the equation solvers blanked out.
pub fn strip_keywords(query: &str) -> (r: String)
    ensures
        r@ == stripped(query@),
{
    let lower = to_lowercase(query);
    let s = chars_of(lower.as_str());
    let mut pats: Vec<&str> = Vec::new();
    pats.push("mitternachtsformel");
    pats.push("mitternachts formel");
    pats.push("quadratic formula");
    pats.push("abc-formel");
    pats.push("abc formel");
    pats.push("pq-formel");
    pats.push("pq formel");
    pats.push("mitternacht");
    pats.push("quadratic");
    pats.push("abc");
    pats.push("pq");
    proof {
        reveal_strlit("mitternachtsformel");
        reveal_strlit("mitternachts formel");
        reveal_strlit("quadratic formula");
        reveal_strlit("abc-formel");
        reveal_strlit("abc formel");
        reveal_strlit("pq-formel");
        reveal_strlit("pq formel");
        reveal_strlit("mitternacht");
        reveal_strlit("quadratic");
        reveal_strlit("abc");
        reveal_strlit("pq");
        assert(pats@.map_values(|p: &str| p@) =~= solver_keywords());
    }
    let r = replace_each_exec(s, &pats, " ");
    string_of(r.as_slice())
}

/// A character of a number literal: a digit or a decimal point.
pub open spec fn is_num_char(c: char) -> bool {
    is_ascii_digit(c) || c == '.'
}

/// May stand between a coefficient's letter and its value: `=`, `:` or whitespace.
pub open spec fn is_sep(c: char) -> bool {
    c == '=' || c == ':' || is_ws(c)
}

/// First position at or after `i` whose character is not a separator.
pub open spec fn skip_sep(s: Seq<char>, i: int) -> int
    decreases s.len() - i,
{
    if 0 <= i < s.len() && is_sep(s[i]) {
        skip_sep(s, i + 1)
    } else {
        i
    }
}

/// First position at or after `i` whose character is not whitespace.
pub open spec fn skip_ws(s: Seq<char>, i: int) -> int
    decreases s.len() - i,
{
    if 0 <= i < s.len() && is_ws(s[i]) {
        skip_ws(s, i + 1)
    } else {
        i
    }
}

/// First position at or after `i` whose character is not part of a number.
pub open spec fn skip_num(s: Seq<char>, i: int) -> int
    decreases s.len() - i,
{
    if 0 <= i < s.len() && is_num_char(s[i]) {
        skip_num(s, i + 1)
    } else {
        i
    }
}

/// The digits of a number: at least one digit and at most one decimal point
/// (the forms that `f64`'s `FromStr` accepts among digit/point strings).
pub open spec fn valid_decimal(d: Seq<char>) -> bool {
    &&& count_char(d, '.') <= 1
    &&& exists|k: int| 0 <= k < d.len() && is_ascii_digit(d[k])
}

/// Where the digits of the value after a coefficient letter start: after the
/// separators, and after a sign and the whitespace that follows it.
pub open spec fn digits_start(s: Seq<char>, scan: int) -> int {
    if 0 <= scan < s.len() && (s[scan] == '-' || s[scan] == '+') {
        skip_ws(s, scan + 1)
    } else {
        scan
    }
}

/// The value written after the coefficient letter at position `i`, as the
/// text of a number (with `-` in front when the sign was `-`), if there is a
/// well-formed one.
pub open spec fn literal_at(s: Seq<char>, i: int) -> Option<Seq<char>> {
    let scan = skip_sep(s, i + 1);
    let start = digits_start(s, scan);
    let end = skip_num(s, start);
    let digits = s.subrange(start, end);
    if end > start && valid_decimal(digits) {
        if 0 <= scan < s.len() && s[scan] == '-' {
            Some(seq!['-'] + digits)
        } else {
            Some(digits)
        }
    } else {
        None
    }
}

/// The value of the last occurrence of `letter` before position `k` that is
/// followed by a well-formed number.
pub open spec fn last_coefficient(s: Seq<char>, letter: char, k: int) -> Option<Seq<char>>
    decreases k,
{
    if k <= 0 || k > s.len() {
        None
    } else if s[k - 1] == letter && literal_at(s, k - 1) is Some {
        literal_at(s, k - 1)
    } else {
        last_coefficient(s, letter, k - 1)
    }
}

/// The value given for the coefficient `letter` (the last one given wins).
pub open spec fn coefficient(s: Seq<char>, letter: char) -> Option<Seq<char>> {
    last_coefficient(s, letter, s.len() as int)
}

/// The coefficients `a`, `b`, `c` of the quadratic formula, if all three are given.
pub open spec fn abc_of(query: Seq<char>) -> Option<(Seq<char>, Seq<char>, Seq<char>)> {
    let s = stripped(query);
    match (coefficient(s, 'a'), coefficient(s, 'b'), coefficient(s, 'c')) {
        (Some(a), Some(b), Some(c)) => Some((a, b, c)),
        _ => None,
    }
}

/// The coefficients `p`, `q` of the pq-formula, if both are given.
pub open spec fn pq_of(query: Seq<char>) -> Option<(Seq<char>, Seq<char>)> {
    let s = stripped(query);
    match (coefficient(s, 'p'), coefficient(s, 'q')) {
        (Some(p), Some(q)) => Some((p, q)),
        _ => None,
    }
}

fn skip_sep_exec(s: &Vec<char>, i: usize) -> (r: usize)
    requires
        i <= s.len(),
    ensures
        r as int == skip_sep(s@, i as int),
        i <= r <= s.len(),
{
    let mut j = i;
    while j < s.len() && (s[j] == '=' || s[j] == ':' || is_whitespace(s[j]))
        invariant
            i <= j <= s.len(),
            skip_sep(s@, i as int) == skip_sep(s@, j as int),
        decreases s.len() - j,
    {
        j = j + 1;
    }
    j
}

fn skip_ws_exec(s: &Vec<char>, i: usize) -> (r: usize)
    requires
        i <= s.len(),
    ensures
        r as int == skip_ws(s@, i as int),
        i <= r <= s.len(),
{
    let mut j = i;
    while j < s.len() && is_whitespace(s[j])
        invariant
            i <= j <= s.len(),
            skip_ws(s@, i as int) == skip_ws(s@, j as int),
        decreases s.len() - j,
    {
        j = j + 1;
    }
    j
}

fn skip_num_exec(s: &Vec<char>, i: usize) -> (r: usize)
    requires
        i <= s.len(),
    ensures
        r as int == skip_num(s@, i as int),
        i <= r <= s.len(),
{
    let mut j = i;
    while j < s.len() && (('0' <= s[j] && s[j] <= '9') || s[j] == '.')
        invariant
            i <= j <= s.len(),
            skip_num(s@, i as int) == skip_num(s@, j as int),
        decreases s.len() - j,
    {
        j = j + 1;
    }
    j
}

/// Whether `d` has at most one decimal point and at least one digit.
fn valid_decimal_exec(d: &Vec<char>) -> (r: bool)
    ensures
        r == valid_decimal(d@),
{
    let mut dots: usize = 0;
    let mut digit = false;
    let mut i: usize = 0;
    assert(d@.take(0) =~= Seq::<char>::empty());
    while i < d.len()
        invariant
            i <= d.len(),
            dots as nat == count_char(d@.take(i as int), '.'),
            dots <= i,
            digit == exists|k: int| 0 <= k < i && is_ascii_digit(d@[k]),
        decreases d.len() - i,
    {
        assert(d@.take(i + 1).drop_last() =~= d@.take(i as int));
        if d[i] == '.' {
            dots = dots + 1;
        }
        if '0' <= d[i] && d[i] <= '9' {
            digit = true;
        }
        i = i + 1;
    }
    assert(d@.take(i as int) =~= d@);
    dots <= 1 && digit
}

fn literal_at_exec(s: &Vec<char>, i: usize) -> (r: Option<Vec<char>>)
    requires
        i < s.len(),
    ensures
        match r {
            Some(v) => literal_at(s@, i as int) == Some(v@),
            None => literal_at(s@, i as int) is None,
        },
{
    let scan = skip_sep_exec(s, i + 1);
    let start = if scan < s.len() && (s[scan] == '-' || s[scan] == '+') {
        skip_ws_exec(s, scan + 1)
    } else {
        scan
    };
    let end = skip_num_exec(s, start);
    let digits = sub_vec(s, start, end);
    if end > start && valid_decimal_exec(&digits) {
        if scan < s.len() && s[scan] == '-' {
            let mut v = Vec::new();
            v.push('-');
            append_chars(&mut v, &digits);
            Some(v)
        } else {
            Some(digits)
        }
    } else {
        None
    }
}

/// The value given for the coefficient `letter` in `s` (the last one given wins).
pub fn find_coefficient(s: &Vec<char>, letter: char) -> (r: Option<Vec<char>>)
    ensures
        match r {
            Some(v) => coefficient(s@, letter) == Some(v@),
            None => coefficient(s@, letter) is None,
        },
{
    let mut k = s.len();
    while k > 0
        invariant
            k <= s.len(),
            coefficient(s@, letter) == last_coefficient(s@, letter, k as int),
        decreases k,
    {
        if s[k - 1] == letter {
            match literal_at_exec(s, k - 1) {
                Some(v) => {
                    return Some(v);
                },
                None => {},
            }
        }
        k = k - 1;
    }
    None
}

/// The coefficients of the quadratic formula written in the query, as number
/// texts, if `a`, `b` and `c` are all given.
pub fn parse_abc(query: &str) -> (r: Option<(String, String, String)>)
    ensures
        match r {
            Some((a, b, c)) => abc_of(query@) == Some((a@, b@, c@)),
            None => abc_of(query@) is None,
        },
{
    let clean = strip_keywords(query);
    let s = chars_of(clean.as_str());
    let a = find_coefficient(&s, 'a');
    let b = find_coefficient(&s, 'b');
    let c = find_coefficient(&s, 'c');
    match (a, b, c) {
        (Some(a), Some(b), Some(c)) => Some(
            (string_of(a.as_slice()), string_of(b.as_slice()), string_of(c.as_slice())),
        ),
        _ => None,
    }
}

/// The coefficients of the pq-formula written in the query, as number texts,
/// if `p` and `q` are both given.
pub fn parse_pq(query: &str) -> (r: Option<(String, String)>)
    ensures
        match r {
            Some((p, q)) => pq_of(query@) == Some((p@, q@)),
            None => pq_of(query@) is None,
        },
{
    let clean = strip_keywords(query);
    let s = chars_of(clean.as_str());
    let p = find_coefficient(&s, 'p');
    let q = find_coefficient(&s, 'q');
    match (p, q) {
        (Some(p), Some(q)) => Some((string_of(p.as_slice()), string_of(q.as_slice()))),
        _ => None,
    }
}

/// A number written as digits (and points): without a point it gets `.0`.
pub open spec fn as_float_literal(run: Seq<char>) -> Seq<char> {
    if run.len() == 0 || run.contains('.') {
        run
    } else {
        run + ".0"@
    }
}

/// The rest of the text after the number characters `pending` have been read:
/// every maximal run of digits and points is written as a float literal,
/// every other character is kept.
pub open spec fn floats_from(pending: Seq<char>, rest: Seq<char>) -> Seq<char>
    decreases rest.len(),
{
    if rest.len() == 0 {
        as_float_literal(pending)
    } else if is_num_char(rest[0]) {
        floats_from(pending.push(rest[0]), rest.drop_first())
    } else {
        as_float_literal(pending) + seq![rest[0]] + floats_from(Seq::empty(), rest.drop_first())
    }
}

/// The expression with every integer written as a float (`3/2` becomes `3.0/2.0`).
pub open spec fn with_float_literals(expr: Seq<char>) -> Seq<char> {
    floats_from(Seq::empty(), expr)
}

fn flush_number(result: &mut Vec<char>, current: &Vec<char>)
    ensures
        final(result)@ == old(result)@ + as_float_literal(current@),
{
    if current.len() > 0 {
        let mut run = current.clone();
        if !has_char(&run, '.') {
            run.push('.');
            run.push('0');
            proof {
                reveal_strlit(".0");
            }
            assert(run@ =~= current@ + ".0"@);
        }
        append_chars(result, &run);
    } else {
        assert(result@ + current@ =~= result@);
    }
}

/// Appends `.0` to every integer in the expression so that division is done
/// on floats.
pub fn convert_integers_to_floats(expr: &str) -> (r: String)
    ensures
        r@ == with_float_literals(expr@),
{
    let s = chars_of(expr);
    let mut result: Vec<char> = Vec::new();
    let mut current: Vec<char> = Vec::new();
    let mut i: usize = 0;
    assert(s@.skip(0) =~= s@);
    while i < s.len()
        invariant
            i <= s.len(),
            with_float_literals(s@) == result@ + floats_from(current@, s@.skip(i as int)),
        decreases s.len() - i,
    {
        let c = s[i];
        assert(s@.skip(i as int)[0] == c);
        assert(s@.skip(i as int).drop_first() =~= s@.skip(i + 1));
        if ('0' <= c && c <= '9') || c == '.' {
            current.push(c);
        } else {
            let ghost before = result@;
            let ghost pend = current@;
            flush_number(&mut result, &current);
            result.push(c);
            current = Vec::new();
            assert(result@ + floats_from(current@, s@.skip(i + 1)) =~= before + (as_float_literal(
                pend,
            ) + seq![c] + floats_from(Seq::empty(), s@.skip(i + 1))));
        }
        i = i + 1;
    }
    assert(s@.skip(i as int) =~= Seq::<char>::empty());
    flush_number(&mut result, &current);
    string_of(result.as_slice())
}

} // verus!

verus! {

/// The words and constants that are turned into math syntax, in the order
/// in which they are replaced (a longer word before a word it contains, such
/// as `cosinus` before `sinus`).
pub open spec fn math_words() -> Seq<(Seq<char>, Seq<char>)> {
    seq![
        ("kreiszahl"@, "3.141592653589793"@),
        ("pi"@, "3.141592653589793"@),
        ("eulersche zahl"@, "2.718281828459045"@),
        ("euler"@, "2.718281828459045"@),
        ("quadratwurzel"@, "sqrt"@),
        ("wurzel"@, "sqrt"@),
        ("square root"@, "sqrt"@),
        ("cosinus"@, "cos"@),
        ("sinus"@, "sin"@),
        ("tangens"@, "tan"@),
        ("geteilt durch"@, "/"@),
        ("durch"@, "/"@),
        ("div"@, "/"@),
        ("mal"@, "*"@),
        ("plus"@, "+"@),
        ("und"@, "+"@),
        ("minus"@, "-"@),
        ("weniger"@, "-"@),
        ("hoch"@, "^"@),
        ("power"@, "^"@),
    ]
}

/// The functions whose calls are written with the `math::` prefix, in the
/// order in which they are processed.
pub open spec fn math_functions() -> Seq<Seq<char>> {
    seq!["sqrt"@, "sin"@, "cos"@, "tan"@, "ln"@, "log"@]
}

/// `s` with each pair's pattern (in order) replaced by its replacement.
pub open spec fn replace_pairs(s: Seq<char>, pairs: Seq<(Seq<char>, Seq<char>)>) -> Seq<char>
    decreases pairs.len(),
{
    if pairs.len() == 0 {
        s
    } else {
        replace_pairs(replace_all(s, pairs[0].0, pairs[0].1), pairs.drop_first())
    }
}

/// The lowercased expression with math words and constants replaced.
pub open spec fn normalize_words(expr: Seq<char>) -> Seq<char> {
    replace_pairs(lowercase(expr), math_words())
}

/// First occurrence of `p` in `s` at or after `from`.
pub open spec fn find_from(s: Seq<char>, p: Seq<char>, from: int) -> Option<int>
    decreases s.len() - from,
{
    if from < 0 || from + p.len() > s.len() {
        None
    } else if p.len() == 0 || crate::text::occurs_at(s, p, from) {
        Some(from)
    } else {
        find_from(s, p, from + 1)
    }
}

/// Whitespace as the byte scan sees it: ASCII tab, newlines, vertical tab,
/// form feed, carriage return and space.
pub open spec fn is_byte_ws(c: char) -> bool {
    (9 <= c as u32 <= 13) || c == ' '
}

/// A character of an unparenthesised argument: ASCII letter, digit or point.
pub open spec fn is_arg_char(c: char) -> bool {
    crate::text::is_ascii_alnum(c) || c == '.'
}

pub open spec fn skip_byte_ws(s: Seq<char>, i: int) -> int
    decreases s.len() - i,
{
    if 0 <= i < s.len() && is_byte_ws(s[i]) {
        skip_byte_ws(s, i + 1)
    } else {
        i
    }
}

pub open spec fn skip_arg(s: Seq<char>, i: int) -> int
    decreases s.len() - i,
{
    if 0 <= i < s.len() && is_arg_char(s[i]) {
        skip_arg(s, i + 1)
    } else {
        i
    }
}

/// Walks from `end` with `depth` open parentheses until they are all closed
/// or the text ends; the position reached and the depth left.
pub open spec fn match_paren(s: Seq<char>, end: int, depth: int) -> (int, int)
    decreases s.len() - end,
{
    if end < 0 || end >= s.len() || depth <= 0 {
        (end, depth)
    } else if s[end] == '(' {
        match_paren(s, end + 1, depth + 1)
    } else if s[end] == ')' {
        match_paren(s, end + 1, depth - 1)
    } else {
        match_paren(s, end + 1, depth)
    }
}

/// The translation of an expression, allowing at most `fuel` nested levels
/// of function arguments (`None` when they run out): lowercase, replace
/// words and constants, then rewrite the calls of each math function.
pub open spec fn translate_fuel(expr: Seq<char>, fuel: nat) -> Option<Seq<char>>
    decreases fuel, 3int, 0int,
{
    if fuel == 0 {
        None
    } else {
        wrap_all(normalize_words(expr), 0, fuel)
    }
}

/// Rewrites the calls of the math functions from index `k` on.
pub open spec fn wrap_all(s: Seq<char>, k: int, fuel: nat) -> Option<Seq<char>>
    decreases fuel, 2int, 6 - k,
{
    if k < 0 || k >= 6 || fuel == 0 {
        Some(s)
    } else {
        match wrap_calls(s, math_functions()[k], 0, fuel) {
            None => None,
            Some(s2) => wrap_all(s2, k + 1, fuel),
        }
    }
}

/// `s` with the call whose name spans `idx..` and whose argument spans
/// `arg_start..arg_end` (the call ending at `end`) written as
/// `math::<func>(<translated argument>)`.
pub open spec fn splice_call(
    s: Seq<char>,
    func: Seq<char>,
    idx: int,
    end: int,
    translated: Seq<char>,
) -> Seq<char> {
    s.subrange(0, idx) + call_text(func, translated) + s.skip(end)
}

pub open spec fn call_text(func: Seq<char>, arg: Seq<char>) -> Seq<char> {
    "math::"@ + func + "("@ + arg + ")"@
}

/// Rewrites, from position `search` on, every call of `func` that is not part
/// of a longer word (not preceded by a letter or `:`) and has an argument: a
/// parenthesised one, or a run of letters, digits and points after optional
/// whitespace. The argument is translated itself.
pub open spec fn wrap_calls(s: Seq<char>, func: Seq<char>, search: int, fuel: nat) -> Option<
    Seq<char>,
>
    decreases fuel, 1int, s.len() - search,
{
    if fuel == 0 || func.len() == 0 || search < 0 || search > s.len() {
        Some(s)
    } else {
        match find_from(s, func, search) {
            None => Some(s),
            Some(idx) => {
                let next = idx + func.len();
                if idx <= search - 1 || next > s.len() {
                    Some(s)
                } else if idx > 0 && (crate::text::is_ascii_alpha(s[idx - 1]) || s[idx - 1]
                    == ':') {
                    wrap_calls(s, func, next, fuel)
                } else {
                    let scan = skip_byte_ws(s, next);
                    if scan < next || scan >= s.len() {
                        wrap_calls(s, func, next, fuel)
                    } else if s[scan] == '(' {
                        let (end, depth) = match_paren(s, scan + 1, 1);
                        if depth == 0 && scan + 2 <= end <= s.len() {
                            match translate_fuel(s.subrange(scan + 1, end - 1), (fuel - 1) as nat) {
                                None => None,
                                Some(t) => {
                                    let rep = call_text(func, t);
                                    wrap_calls(
                                        splice_call(s, func, idx, end, t),
                                        func,
                                        idx + rep.len(),
                                        fuel,
                                    )
                                },
                            }
                        } else {
                            wrap_calls(s, func, next, fuel)
                        }
                    } else {
                        let end = skip_arg(s, scan);
                        if scan < end <= s.len() {
                            match translate_fuel(s.subrange(scan, end), (fuel - 1) as nat) {
                                None => None,
                                Some(t) => {
                                    let rep = call_text(func, t);
                                    wrap_calls(
                                        splice_call(s, func, idx, end, t),
                                        func,
                                        idx + rep.len(),
                                        fuel,
                                    )
                                },
                            }
                        } else {
                            wrap_calls(s, func, next, fuel)
                        }
                    }
                }
            },
        }
    }
}

} // verus!

verus! {

/// A found occurrence lies at or after `from`, within the text.
pub proof fn lemma_find_from(s: Seq<char>, p: Seq<char>, from: int)
    ensures
        find_from(s, p, from) matches Some(i) ==> from <= i && i + p.len() <= s.len() && (
        p.len() == 0 || crate::text::occurs_at(s, p, i)),
    decreases s.len() - from,
{
    if from >= 0 && from + p.len() <= s.len() && !(p.len() == 0 || crate::text::occurs_at(
        s,
        p,
        from,
    )) {
        lemma_find_from(s, p, from + 1);
    }
}

/// The closing position lies within the text, past the opening when balanced.
pub proof fn lemma_match_paren(s: Seq<char>, e: int, d: int)
    requires
        0 <= e <= s.len(),
        d >= 1,
    ensures
        e <= match_paren(s, e, d).0 <= s.len(),
        match_paren(s, e, d).1 == 0 ==> match_paren(s, e, d).0 >= e + 1,
        match_paren(s, e, d).1 >= 0,
    decreases s.len() - e,
{
    if e < s.len() {
        if s[e] == '(' {
            lemma_match_paren(s, e + 1, d + 1);
        } else if s[e] == ')' {
            if d - 1 >= 1 {
                lemma_match_paren(s, e + 1, d - 1);
            } else {
                assert(match_paren(s, e + 1, d - 1) == (e + 1, d - 1));
            }
        } else {
            lemma_match_paren(s, e + 1, d);
        }
    }
}

fn find_from_exec(s: &Vec<char>, p: &Vec<char>, from: usize) -> (r: Option<usize>)
    requires
        p.len() > 0,
    ensures
        match r {
            Some(i) => find_from(s@, p@, from as int) == Some(i as int),
            None => find_from(s@, p@, from as int) is None,
        },
{
    if from > s.len() || p.len() > s.len() - from {
        return None;
    }
    let mut i = from;
    while i <= s.len() - p.len()
        invariant
            p.len() > 0,
            p.len() <= s.len(),
            from <= i <= s.len() - p.len() + 1,
            find_from(s@, p@, from as int) == find_from(s@, p@, i as int),
        decreases s.len() - p.len() + 1 - i,
    {
        if crate::text::occurs_at_chars(s, p, i) {
            return Some(i);
        }
        i = i + 1;
    }
    None
}

fn skip_byte_ws_exec(s: &Vec<char>, i: usize) -> (r: usize)
    requires
        i <= s.len(),
    ensures
        r as int == skip_byte_ws(s@, i as int),
        i <= r <= s.len(),
{
    let mut j = i;
    while j < s.len() && ((9 <= s[j] as u32 && s[j] as u32 <= 13) || s[j] == ' ')
        invariant
            i <= j <= s.len(),
            skip_byte_ws(s@, i as int) == skip_byte_ws(s@, j as int),
        decreases s.len() - j,
    {
        j = j + 1;
    }
    j
}

fn skip_arg_exec(s: &Vec<char>, i: usize) -> (r: usize)
    requires
        i <= s.len(),
    ensures
        r as int == skip_arg(s@, i as int),
        i <= r <= s.len(),
{
    let mut j = i;
    while j < s.len() && (('a' <= s[j] && s[j] <= 'z') || ('A' <= s[j] && s[j] <= 'Z') || ('0'
        <= s[j] && s[j] <= '9') || s[j] == '.')
        invariant
            i <= j <= s.len(),
            skip_arg(s@, i as int) == skip_arg(s@, j as int),
        decreases s.len() - j,
    {
        j = j + 1;
    }
    j
}

fn match_paren_exec(s: &Vec<char>, start: usize) -> (r: (usize, usize))
    requires
        1 <= start <= s.len(),
    ensures
        (r.0 as int, r.1 as int) == match_paren(s@, start as int, 1),
{
    let mut end = start;
    let mut depth: usize = 1;
    while end < s.len() && depth > 0
        invariant
            1 <= start <= end <= s.len(),
            depth <= end - start + 1,
            match_paren(s@, start as int, 1) == match_paren(s@, end as int, depth as int),
        decreases s.len() - end,
    {
        if s[end] == '(' {
            depth = depth + 1;
        } else if s[end] == ')' {
            depth = depth - 1;
        }
        end = end + 1;
    }
    (end, depth)
}

fn call_text_exec(func: &Vec<char>, arg: &Vec<char>) -> (r: Vec<char>)
    ensures
        r@ == call_text(func@, arg@),
{
    let mut r = chars_of("math::");
    append_chars(&mut r, func);
    r.push('(');
    append_chars(&mut r, arg);
    r.push(')');
    proof {
        reveal_strlit("(");
        reveal_strlit(")");
    }
    assert(r@ =~= call_text(func@, arg@));
    r
}

fn splice_exec(s: &Vec<char>, idx: usize, end: usize, rep: &Vec<char>) -> (r: Vec<char>)
    requires
        idx <= end <= s.len(),
    ensures
        r@ == s@.subrange(0, idx as int) + rep@ + s@.skip(end as int),
{
    let mut r = sub_vec(s, 0, idx);
    append_chars(&mut r, rep);
    let tail = sub_vec(s, end, s.len());
    append_chars(&mut r, &tail);
    assert(s@.subrange(end as int, s.len() as int) =~= s@.skip(end as int));
    r
}

fn wrap_calls_exec(s0: Vec<char>, func: &Vec<char>, fuel: u64) -> (r: Option<Vec<char>>)
    requires
        fuel > 0,
        func.len() > 0,
    ensures
        match r {
            Some(v) => wrap_calls(s0@, func@, 0, fuel as nat) == Some(v@),
            None => wrap_calls(s0@, func@, 0, fuel as nat) is None,
        },
    decreases fuel, 1int,
{
    let mut s = s0;
    let mut search: usize = 0;
    loop
        invariant
            fuel > 0,
            func.len() > 0,
            search <= s.len(),
            wrap_calls(s0@, func@, 0, fuel as nat) == wrap_calls(
                s@,
                func@,
                search as int,
                fuel as nat,
            ),
        decreases s.len() - search,
    {
        let idx = match find_from_exec(&s, func, search) {
            None => {
                return Some(s);
            },
            Some(idx) => idx,
        };
        proof {
            lemma_find_from(s@, func@, search as int);
        }
        let next = idx + func.len();
        if idx > 0 && (('a' <= s[idx - 1] && s[idx - 1] <= 'z') || ('A' <= s[idx - 1] && s[idx
            - 1] <= 'Z') || s[idx - 1] == ':') {
            search = next;
            continue ;
        }
        let scan = skip_byte_ws_exec(&s, next);
        if scan >= s.len() {
            search = next;
            continue ;
        }
        let (start, end) = if s[scan] == '(' {
            let (end, depth) = match_paren_exec(&s, scan + 1);
            proof {
                lemma_match_paren(s@, scan + 1, 1);
            }
            if depth != 0 {
                search = next;
                continue ;
            }
            (scan + 1, end - 1)
        } else {
            let end = skip_arg_exec(&s, scan);
            if end <= scan {
                search = next;
                continue ;
            }
            (scan, end)
        };
        let inner = sub_vec(&s, start, end);
        let translated = match translate_exec(&inner, fuel - 1) {
            None => {
                return None;
            },
            Some(t) => t,
        };
        let rep = call_text_exec(func, &translated);
        let call_end = if s[scan] == '(' {
            end + 1
        } else {
            end
        };
        let s2 = splice_exec(&s, idx, call_end, &rep);
        assert(s2@ == splice_call(s@, func@, idx as int, call_end as int, translated@));
        assert(s2@.len() == idx + rep@.len() + (s@.len() - call_end));
        assert(idx + rep.len() <= s2.len());
        s = s2;
        search = idx + rep.len();
    }
}

fn wrap_all_exec(s0: Vec<char>, fuel: u64) -> (r: Option<Vec<char>>)
    requires
        fuel > 0,
    ensures
        match r {
            Some(v) => wrap_all(s0@, 0, fuel as nat) == Some(v@),
            None => wrap_all(s0@, 0, fuel as nat) is None,
        },
    decreases fuel, 2int,
{
    let mut funcs: Vec<&str> = Vec::new();
    funcs.push("sqrt");
    funcs.push("sin");
    funcs.push("cos");
    funcs.push("tan");
    funcs.push("ln");
    funcs.push("log");
    proof {
        reveal_strlit("sqrt");
        reveal_strlit("sin");
        reveal_strlit("cos");
        reveal_strlit("tan");
        reveal_strlit("ln");
        reveal_strlit("log");
    }
    assert(funcs@.map_values(|f: &str| f@) =~= math_functions());
    assert(forall|j: int| 0 <= j < 6 ==> (#[trigger] math_functions()[j]).len() > 0) by {
        assert(math_functions()[0].len() > 0);
        assert(math_functions()[1].len() > 0);
        assert(math_functions()[2].len() > 0);
        assert(math_functions()[3].len() > 0);
        assert(math_functions()[4].len() > 0);
        assert(math_functions()[5].len() > 0);
    }
    let mut s = s0;
    let mut k: usize = 0;
    while k < 6
        invariant
            fuel > 0,
            k <= 6,
            funcs@.len() == 6,
            funcs@.map_values(|f: &str| f@) == math_functions(),
            forall|j: int| 0 <= j < 6 ==> (#[trigger] math_functions()[j]).len() > 0,
            wrap_all(s0@, 0, fuel as nat) == wrap_all(s@, k as int, fuel as nat),
        decreases 6 - k,
    {
        let f = chars_of(funcs[k]);
        assert(f@ == math_functions()[k as int]);
        match wrap_calls_exec(s, &f, fuel) {
            None => {
                return None;
            },
            Some(s2) => {
                s = s2;
            },
        }
        k = k + 1;
    }
    Some(s)
}

fn replace_pairs_exec(s: Vec<char>, pairs: &Vec<(&str, &str)>) -> (r: Vec<char>)
    requires
        forall|i: int| 0 <= i < pairs.len() ==> (#[trigger] pairs@[i]).0@.len() > 0,
    ensures
        r@ == replace_pairs(s@, pairs@.map_values(|p: (&str, &str)| (p.0@, p.1@))),
{
    let ghost ps = pairs@.map_values(|p: (&str, &str)| (p.0@, p.1@));
    let mut cur = s;
    let mut i: usize = 0;
    assert(ps.skip(0) =~= ps);
    while i < pairs.len()
        invariant
            i <= pairs.len(),
            ps == pairs@.map_values(|p: (&str, &str)| (p.0@, p.1@)),
            forall|k: int| 0 <= k < pairs.len() ==> (#[trigger] pairs@[k]).0@.len() > 0,
            replace_pairs(s@, ps) == replace_pairs(cur@, ps.skip(i as int)),
        decreases pairs.len() - i,
    {
        let pat = chars_of(pairs[i].0);
        let rep = chars_of(pairs[i].1);
        assert(ps.skip(i as int)[0] == (pairs@[i as int].0@, pairs@[i as int].1@));
        assert(ps.skip(i as int).drop_first() =~= ps.skip(i + 1));
        cur = replace_all_chars(&cur, &pat, &rep);
        i = i + 1;
    }
    assert(ps.skip(i as int) =~= Seq::<(Seq<char>, Seq<char>)>::empty());
    cur
}

/// The lowercased expression with math words and constants replaced.
pub fn normalize_math_words(expr: &str) -> (r: Vec<char>)
    ensures
        r@ == normalize_words(expr@),
{
    let lower = to_lowercase(expr);
    let s = chars_of(lower.as_str());
    let mut pairs: Vec<(&str, &str)> = Vec::new();
    pairs.push(("kreiszahl", "3.141592653589793"));
    pairs.push(("pi", "3.141592653589793"));
    pairs.push(("eulersche zahl", "2.718281828459045"));
    pairs.push(("euler", "2.718281828459045"));
    pairs.push(("quadratwurzel", "sqrt"));
    pairs.push(("wurzel", "sqrt"));
    pairs.push(("square root", "sqrt"));
    pairs.push(("cosinus", "cos"));
    pairs.push(("sinus", "sin"));
    pairs.push(("tangens", "tan"));
    pairs.push(("geteilt durch", "/"));
    pairs.push(("durch", "/"));
    pairs.push(("div", "/"));
    pairs.push(("mal", "*"));
    pairs.push(("plus", "+"));
    pairs.push(("und", "+"));
    pairs.push(("minus", "-"));
    pairs.push(("weniger", "-"));
    pairs.push(("hoch", "^"));
    pairs.push(("power", "^"));
    proof {
        reveal_strlit("kreiszahl");
        reveal_strlit("pi");
        reveal_strlit("eulersche zahl");
        reveal_strlit("euler");
        reveal_strlit("quadratwurzel");
        reveal_strlit("wurzel");
        reveal_strlit("square root");
        reveal_strlit("sinus");
        reveal_strlit("cosinus");
        reveal_strlit("tangens");
        reveal_strlit("geteilt durch");
        reveal_strlit("durch");
        reveal_strlit("div");
        reveal_strlit("mal");
        reveal_strlit("plus");
        reveal_strlit("und");
        reveal_strlit("minus");
        reveal_strlit("weniger");
        reveal_strlit("hoch");
        reveal_strlit("power");
    }
    assert(pairs@.map_values(|p: (&str, &str)| (p.0@, p.1@)) =~= math_words());
    replace_pairs_exec(s, &pairs)
}

fn translate_exec(expr: &Vec<char>, fuel: u64) -> (r: Option<Vec<char>>)
    ensures
        match r {
            Some(v) => translate_fuel(expr@, fuel as nat) == Some(v@),
            None => translate_fuel(expr@, fuel as nat) is None,
        },
    decreases fuel, 3int,
{
    if fuel == 0 {
        return None;
    }
    let text = string_of(expr.as_slice());
    let s = normalize_math_words(text.as_str());
    wrap_all_exec(s, fuel)
}

/// How deep function arguments may nest in a translated expression.
pub const MAX_NESTING: u64 = 0xffff_ffff_ffff_ffff;

/// The translation of an expression into evaluator syntax (the input itself
/// if its function arguments nest deeper than `MAX_NESTING`).
pub open spec fn translated(expr: Seq<char>) -> Seq<char> {
    match translate_fuel(expr, MAX_NESTING as nat) {
        Some(t) => t,
        None => expr,
    }
}

/// Translates German and English math words into operators and functions
/// (`10 mal 5 weniger 2` becomes `10 * 5 - 2`, `wurzel 16` becomes
/// `math::sqrt(16)`).
pub fn translate_math_expression(expr: &str) -> (r: String)
    ensures
        r@ == translated(expr@),
{
    let e = chars_of(expr);
    match translate_exec(&e, MAX_NESTING) {
        Some(t) => string_of(t.as_slice()),
        None => String::from_str(expr),
    }
}

} // verus!

verus! {

/// Whether `evalexpr::eval` evaluates the expression without error. The
/// evaluation starts from an empty context each time, so this is a function
/// of the text.
pub uninterp spec fn evaluates(expr: Seq<char>) -> bool;

/// Texts on which the evaluator may panic rather than answer. Its
/// `str::substring` slices the string at byte offsets without checking that
/// they fall between characters; the text only holds a multi-byte character
/// where it holds a non-ASCII one, since its string literals know no escapes
/// but `\"` and `\\`. Its `math::abs`, `shl` and `shr` use integer
/// operations that panic on overflow where overflow is checked.
pub open spec fn eval_hazard(e: Seq<char>) -> bool {
    ||| contains(e, "str::substring"@) && !all_ascii(e)
    ||| contains(e, "math::abs"@)
    ||| contains(e, "shl"@)
    ||| contains(e, "shr"@)
}

fn eval_hazard_exec(e: &String) -> (r: bool)
    ensures
        r == eval_hazard(e@),
{
    let v = chars_of(e.as_str());
    (contains_str(&v, "str::substring") && !all_ascii_chars(&v)) || contains_str(&v, "math::abs")
        || contains_str(&v, "shl") || contains_str(&v, "shr")
}

/// Whether `evalexpr::eval` accepts the expression (returns `Ok`); the
/// texts on which it may panic are left out.
#[verifier::external_body]
fn eval_succeeds(expr: &str) -> (r: bool)
    requires
        !eval_hazard(expr@),
    ensures
        r == evaluates(expr@),
{
    evalexpr::eval(expr).is_ok()
}

/// The expression contains an operator or a parenthesis; a minus counts when
/// the expression is longer than one byte.
pub open spec fn has_operator(e: Seq<char>) -> bool {
    exists|i: int|
        0 <= i < e.len() && is_operator(#[trigger] e[i], vstd::utf8::encode_utf8(e).len() > 1)
}

/// An operator character; `-` only counts in an expression longer than one byte.
pub open spec fn is_operator(c: char, long: bool) -> bool {
    c == '+' || c == '*' || c == '/' || c == '^' || c == '%' || c == '<' || c == '>' || c == '='
        || c == '(' || (c == '-' && long)
}

/// The expression that is handed to the evaluator for a (trimmed) query.
pub open spec fn evaluator_input(t: Seq<char>) -> Seq<char> {
    with_float_literals(translated(t))
}

/// Whether the calculator handles a query: an equation with all its
/// coefficients, or an expression with an operator that evaluates; an
/// expression on which the evaluator may panic (`eval_hazard`) is declined.
pub open spec fn calc_accepts(query: Seq<char>) -> bool {
    let t = crate::text::trim(query);
    &&& t.len() > 0
    &&& (abc_of(t) is Some || pq_of(t) is Some || (has_operator(evaluator_input(t))
        && !eval_hazard(evaluator_input(t)) && evaluates(evaluator_input(t))))
}

fn has_operator_exec(e: &String) -> (r: bool)
    ensures
        r == has_operator(e@),
{
    let v = chars_of(e.as_str());
    let long = e.as_str().as_bytes().len() > 1;
    let mut i: usize = 0;
    while i < v.len()
        invariant
            i <= v.len(),
            v@ == e@,
            long == (vstd::utf8::encode_utf8(e@).len() > 1),
            forall|j: int| 0 <= j < i ==> !is_operator(#[trigger] v@[j], long),
        decreases v.len() - i,
    {
        let c = v[i];
        if c == '+' || c == '*' || c == '/' || c == '^' || c == '%' || c == '<' || c == '>' || c
            == '=' || c == '(' || (c == '-' && long) {
            return true;
        }
        i = i + 1;
    }
    false
}

/// What a calculator query asks for.
pub enum CalcRequest {
    /// Solve `a x² + b x + c = 0`; the coefficients as number texts.
    Quadratic(String, String, String),
    /// Solve `x² + p x + q = 0`; the coefficients as number texts.
    PqFormula(String, String),
    /// Evaluate this expression (already in evaluator syntax).
    Expression(String),
    /// The calculator has nothing to offer.
    Nothing,
}

/// The mathematical content of a [`CalcRequest`].
pub enum CalcRequestView {
    Quadratic(Seq<char>, Seq<char>, Seq<char>),
    PqFormula(Seq<char>, Seq<char>),
    Expression(Seq<char>),
    Nothing,
}

impl View for CalcRequest {
    type V = CalcRequestView;

    open spec fn view(&self) -> CalcRequestView {
        match self {
            CalcRequest::Quadratic(a, b, c) => CalcRequestView::Quadratic(a@, b@, c@),
            CalcRequest::PqFormula(p, q) => CalcRequestView::PqFormula(p@, q@),
            CalcRequest::Expression(e) => CalcRequestView::Expression(e@),
            CalcRequest::Nothing => CalcRequestView::Nothing,
        }
    }
}

/// The request a query makes: the quadratic formula first, then the
/// pq-formula, then an expression the calculator accepts.
pub open spec fn calc_request(query: Seq<char>) -> CalcRequestView {
    let t = crate::text::trim(query);
    match abc_of(t) {
        Some((a, b, c)) => CalcRequestView::Quadratic(a, b, c),
        None => match pq_of(t) {
            Some((p, q)) => CalcRequestView::PqFormula(p, q),
            None => if calc_accepts(t) {
                CalcRequestView::Expression(evaluator_input(t))
            } else {
                CalcRequestView::Nothing
            },
        },
    }
}

/// The calculator plugin.
pub struct CalculatorPlugin;

impl CalculatorPlugin {
    pub fn new() -> (r: Self) {
        CalculatorPlugin
    }

    /// The identifier under which the router knows this plugin.
    pub fn id(&self) -> (r: &'static str)
        ensures
            r@ == "calculator"@,
    {
        "calculator"
    }

    /// Whether the query is an equation with its coefficients, or an
    /// expression with an operator that the evaluator accepts.
    pub fn accepts(&self, query: &str) -> (r: bool)
        ensures
            r == calc_accepts(query@),
    {
        let q = chars_of(query);
        let t = crate::text::trim_chars(&q);
        if t.len() == 0 {
            return false;
        }
        let trimmed = string_of(t.as_slice());
        if parse_abc(trimmed.as_str()).is_some() {
            return true;
        }
        if parse_pq(trimmed.as_str()).is_some() {
            return true;
        }
        let tr = translate_math_expression(trimmed.as_str());
        let float_expr = convert_integers_to_floats(tr.as_str());
        if !has_operator_exec(&float_expr) {
            return false;
        }
        if eval_hazard_exec(&float_expr) {
            return false;
        }
        eval_succeeds(float_expr.as_str())
    }

    /// What the query asks the calculator for.
    pub fn request(&self, query: &str) -> (r: CalcRequest)
        ensures
            r@ == calc_request(query@),
    {
        let q = chars_of(query);
        let t = crate::text::trim_chars(&q);
        let trimmed = string_of(t.as_slice());
        if let Some((a, b, c)) = parse_abc(trimmed.as_str()) {
            return CalcRequest::Quadratic(a, b, c);
        }
        if let Some((p, q)) = parse_pq(trimmed.as_str()) {
            return CalcRequest::PqFormula(p, q);
        }
        if !self.accepts(trimmed.as_str()) {
            return CalcRequest::Nothing;
        }
        let tr = translate_math_expression(trimmed.as_str());
        CalcRequest::Expression(convert_integers_to_floats(tr.as_str()))
    }

    /// The text that executing `result_id` copies to the clipboard:
    /// what follows `calc:`, or `None` for an id of another kind.
    pub fn copied_text(&self, result_id: &str) -> (r: Option<String>)
        ensures
            match r {
                Some(t) => starts_with(result_id@, "calc:"@) && t@ == result_id@.skip(5),
                None => !starts_with(result_id@, "calc:"@),
            },
    {
        let id = chars_of(result_id);
        if starts_with_str(&id, "calc:") {
            proof {
                reveal_strlit("calc:");
            }
            let rest = sub_vec(&id, 5, id.len());
            Some(string_of(rest.as_slice()))
        } else {
            None
        }
    }
}

} // verus!

verus! {


spec fn digits_only(s: Seq<char>) -> bool {
    forall|i: int| 0 <= i < s.len() ==> is_ascii_digit(#[trigger] s[i])
}

spec fn letter_free(s: Seq<char>) -> bool {
    forall|i: int| 0 <= i < s.len() ==> !is_ascii_alpha(#[trigger] s[i])
}

/// A word that starts with a letter.
spec fn word_like(v: Seq<char>) -> bool {
    v.len() > 0 && is_ascii_alpha(v[0])
}

/// `v` cannot start at position `m` of `w` followed by a space.
spec fn clash(w: Seq<char>, v: Seq<char>, m: int) -> bool {
    let ws = w + " "@;
    ||| ws[m] != v[0]
    ||| (v.len() > 1 && m + 1 <= w.len() && ws[m + 1] != v[1])
    ||| (v.len() > 2 && m + 2 <= w.len() && ws[m + 2] != v[2])
    ||| (v.len() > w.len() - m && v[w.len() - m] != ' ')
}

spec fn never_inside(w: Seq<char>, v: Seq<char>) -> bool {
    forall|m: int| 0 <= m < w.len() ==> #[trigger] clash(w, v, m)
}

proof fn lemma_letter_free_absent(s: Seq<char>, v: Seq<char>)
    requires
        letter_free(s),
        word_like(v),
    ensures
        !contains(s, v),
{
    if contains(s, v) {
        let i = choose|i: int| occurs_at(s, v, i);
        assert(s.subrange(i, i + v.len())[0] == s[i]);
    }
}

proof fn lemma_word_absent(x: Seq<char>, w: Seq<char>, y: Seq<char>, v: Seq<char>)
    requires
        digits_only(x),
        digits_only(y),
        word_like(v),
        never_inside(w, v),
    ensures
        !contains(x + " "@ + w + " "@ + y, v),
{
    reveal_strlit(" ");
    let s = x + " "@ + w + " "@ + y;
    let a: int = x.len() + 1int;
    if contains(s, v) {
        let i = choose|i: int| occurs_at(s, v, i);
        let sub = s.subrange(i, i + v.len());
        assert(sub[0] == s[i]);
        if i < x.len() {
            assert(s[i] == x[i]);
        } else if i == x.len() {
            assert(s[i] == ' ');
        } else if i >= a + w.len() {
            if i == a + w.len() {
                assert(s[i] == ' ');
            } else {
                assert(s[i] == y[i - a - w.len() - 1]);
            }
        } else {
            let m = i - a;
            assert(clash(w, v, m));
            let ws = w + " "@;
            assert(s[i] == ws[m]);
            if v.len() > 1 && m + 1 <= w.len() {
                assert(sub[1] == s[i + 1]);
                assert(s[i + 1] == ws[m + 1]);
            }
            if v.len() > 2 && m + 2 <= w.len() {
                assert(sub[2] == s[i + 2]);
                assert(s[i + 2] == ws[m + 2]);
            }
            if v.len() > w.len() - m {
                assert(sub[w.len() - m] == s[a + w.len()]);
                assert(s[a + w.len()] == ' ');
            }
        }
    }
}

proof fn lemma_pairs_fixed(s: Seq<char>, pairs: Seq<(Seq<char>, Seq<char>)>)
    requires
        letter_free(s),
        forall|j: int| 0 <= j < pairs.len() ==> word_like(#[trigger] pairs[j].0),
    ensures
        replace_pairs(s, pairs) == s,
    decreases pairs.len(),
{
    if pairs.len() > 0 {
        assert(word_like(pairs[0].0));
        lemma_letter_free_absent(s, pairs[0].0);
        lemma_replace_absent(s, pairs[0].0, pairs[0].1);
        assert forall|j: int| 0 <= j < pairs.drop_first().len() implies word_like(
            #[trigger] pairs.drop_first()[j].0,
        ) by {
            assert(pairs.drop_first()[j] == pairs[j + 1]);
        }
        lemma_pairs_fixed(s, pairs.drop_first());
    }
}

/// Words that cannot occur around `op` leave it as it is.
proof fn lemma_pairs_clear(x: Seq<char>, op: Seq<char>, y: Seq<char>, pairs: Seq<(Seq<char>, Seq<char>)>)
    requires
        digits_only(x),
        digits_only(y),
        forall|j: int| 0 <= j < pairs.len() ==> word_like(#[trigger] pairs[j].0),
        forall|j: int| 0 <= j < pairs.len() ==> never_inside(op, #[trigger] pairs[j].0),
    ensures
        replace_pairs(x + " "@ + op + " "@ + y, pairs) == x + " "@ + op + " "@ + y,
    decreases pairs.len(),
{
    if pairs.len() > 0 {
        let t = x + " "@ + op + " "@ + y;
        let rest = pairs.drop_first();
        assert(word_like(pairs[0].0) && never_inside(op, pairs[0].0));
        lemma_word_absent(x, op, y, pairs[0].0);
        lemma_replace_absent(t, pairs[0].0, pairs[0].1);
        assert forall|j: int| 0 <= j < rest.len() implies word_like(#[trigger] rest[j].0)
            && never_inside(op, rest[j].0) by {
            assert(rest[j] == pairs[j + 1]);
        }
        lemma_pairs_clear(x, op, y, rest);
    }
}

/// No word that starts with a letter fits inside a text without letters.
proof fn lemma_letter_free_never_inside(op: Seq<char>, v: Seq<char>)
    requires
        letter_free(op),
        word_like(v),
    ensures
        never_inside(op, v),
{
    assert forall|m: int| 0 <= m < op.len() implies #[trigger] clash(op, v, m) by {
        assert((op + " "@)[m] == op[m]);
    }
}

proof fn lemma_pairs_word(
    x: Seq<char>,
    w: Seq<char>,
    y: Seq<char>,
    op: Seq<char>,
    pairs: Seq<(Seq<char>, Seq<char>)>,
    k: int,
)
    requires
        digits_only(x),
        digits_only(y),
        0 <= k < pairs.len(),
        pairs[k] == (w, op),
        forall|j: int| 0 <= j < pairs.len() ==> word_like(#[trigger] pairs[j].0),
        forall|j: int| 0 <= j < k ==> never_inside(w, #[trigger] pairs[j].0),
        forall|j: int| k < j < pairs.len() ==> never_inside(op, #[trigger] pairs[j].0),
    ensures
        replace_pairs(x + " "@ + w + " "@ + y, pairs) == x + " "@ + op + " "@ + y,
    decreases k,
{
    reveal_strlit(" ");
    let s = x + " "@ + w + " "@ + y;
    let rest = pairs.drop_first();
    assert forall|j: int| 0 <= j < rest.len() implies word_like(#[trigger] rest[j].0) by {
        assert(rest[j] == pairs[j + 1]);
    }
    if k == 0 {
        assert(word_like(pairs[0].0));
        let p = x + " "@;
        let q = " "@ + y;
        assert(lacks(p, w[0])) by {
            assert forall|i: int| 0 <= i < p.len() implies p[i] != w[0] by {
                if i < x.len() {
                    assert(p[i] == x[i]);
                }
            }
        }
        assert(s =~= p + w + q);
        lemma_replace_after(p, w, op, q);
        assert(letter_free(q)) by {
            assert forall|i: int| 0 <= i < q.len() implies !is_ascii_alpha(#[trigger] q[i]) by {
                if i > 0 {
                    assert(q[i] == y[i - 1]);
                }
            }
        }
        lemma_letter_free_absent(q, w);
        lemma_replace_absent(q, w, op);
        let t = x + " "@ + op + " "@ + y;
        assert(p + op + q =~= t);
        assert forall|j: int| 0 <= j < rest.len() implies never_inside(op, #[trigger] rest[j].0) by {
            assert(rest[j] == pairs[j + 1]);
        }
        lemma_pairs_clear(x, op, y, rest);
    } else {
        assert(word_like(pairs[0].0));
        assert(never_inside(w, pairs[0].0));
        lemma_word_absent(x, w, y, pairs[0].0);
        lemma_replace_absent(s, pairs[0].0, pairs[0].1);
        assert(rest[k - 1] == pairs[k]);
        assert forall|j: int| 0 <= j < k - 1 implies never_inside(w, #[trigger] rest[j].0) by {
            assert(rest[j] == pairs[j + 1]);
        }
        assert forall|j: int| k - 1 < j < rest.len() implies never_inside(op, #[trigger] rest[j].0) by {
            assert(rest[j] == pairs[j + 1]);
        }
        lemma_pairs_word(x, w, y, op, rest, k - 1);
    }
}


proof fn lemma_math_words_like()
    ensures
        forall|j: int| 0 <= j < math_words().len() ==> word_like(#[trigger] math_words()[j].0),
{
    reveal_strlit("kreiszahl");
    reveal_strlit("pi");
    reveal_strlit("eulersche zahl");
    reveal_strlit("euler");
    reveal_strlit("quadratwurzel");
    reveal_strlit("wurzel");
    reveal_strlit("square root");
    reveal_strlit("cosinus");
    reveal_strlit("sinus");
    reveal_strlit("tangens");
    reveal_strlit("geteilt durch");
    reveal_strlit("durch");
    reveal_strlit("div");
    reveal_strlit("mal");
    reveal_strlit("plus");
    reveal_strlit("und");
    reveal_strlit("minus");
    reveal_strlit("weniger");
    reveal_strlit("hoch");
    reveal_strlit("power");
    assert forall|j: int| 0 <= j < math_words().len() implies word_like(#[trigger] math_words()[j].0) by {
        if j == 0 {
            assert(word_like(math_words()[0].0));
        } else if j == 1 {
            assert(word_like(math_words()[1].0));
        } else if j == 2 {
            assert(word_like(math_words()[2].0));
        } else if j == 3 {
            assert(word_like(math_words()[3].0));
        } else if j == 4 {
            assert(word_like(math_words()[4].0));
        } else if j == 5 {
            assert(word_like(math_words()[5].0));
        } else if j == 6 {
            assert(word_like(math_words()[6].0));
        } else if j == 7 {
            assert(word_like(math_words()[7].0));
        } else if j == 8 {
            assert(word_like(math_words()[8].0));
        } else if j == 9 {
            assert(word_like(math_words()[9].0));
        } else if j == 10 {
            assert(word_like(math_words()[10].0));
        } else if j == 11 {
            assert(word_like(math_words()[11].0));
        } else if j == 12 {
            assert(word_like(math_words()[12].0));
        } else if j == 13 {
            assert(word_like(math_words()[13].0));
        } else if j == 14 {
            assert(word_like(math_words()[14].0));
        } else if j == 15 {
            assert(word_like(math_words()[15].0));
        } else if j == 16 {
            assert(word_like(math_words()[16].0));
        } else if j == 17 {
            assert(word_like(math_words()[17].0));
        } else if j == 18 {
            assert(word_like(math_words()[18].0));
        } else if j == 19 {
            assert(word_like(math_words()[19].0));
        }
    }
}

proof fn lemma_before_kreiszahl()
    ensures
        forall|j: int| 0 <= j < 0 ==> never_inside("kreiszahl"@, #[trigger] math_words()[j].0),
{
    reveal_strlit("kreiszahl");
    reveal_strlit("pi");
    reveal_strlit("eulersche zahl");
    reveal_strlit("euler");
    reveal_strlit("quadratwurzel");
    reveal_strlit("wurzel");
    reveal_strlit("square root");
    reveal_strlit("cosinus");
    reveal_strlit("sinus");
    reveal_strlit("tangens");
    reveal_strlit("geteilt durch");
    reveal_strlit("durch");
    reveal_strlit("div");
    reveal_strlit("mal");
    reveal_strlit("plus");
    reveal_strlit("und");
    reveal_strlit("minus");
    reveal_strlit("weniger");
    reveal_strlit("hoch");
    reveal_strlit("power");
}

proof fn lemma_before_pi()
    ensures
        forall|j: int| 0 <= j < 1 ==> never_inside("pi"@, #[trigger] math_words()[j].0),
{
    reveal_strlit("kreiszahl");
    reveal_strlit("pi");
    reveal_strlit("eulersche zahl");
    reveal_strlit("euler");
    reveal_strlit("quadratwurzel");
    reveal_strlit("wurzel");
    reveal_strlit("square root");
    reveal_strlit("cosinus");
    reveal_strlit("sinus");
    reveal_strlit("tangens");
    reveal_strlit("geteilt durch");
    reveal_strlit("durch");
    reveal_strlit("div");
    reveal_strlit("mal");
    reveal_strlit("plus");
    reveal_strlit("und");
    reveal_strlit("minus");
    reveal_strlit("weniger");
    reveal_strlit("hoch");
    reveal_strlit("power");
    assert forall|j: int| 0 <= j < 1 implies never_inside("pi"@, #[trigger] math_words()[j].0) by {
        if j == 0 {
            assert(never_inside("pi"@, math_words()[0].0));
        }
    }
}

proof fn lemma_before_eulersche_zahl()
    ensures
        forall|j: int| 0 <= j < 2 ==> never_inside("eulersche zahl"@, #[trigger] math_words()[j].0),
{
    reveal_strlit("kreiszahl");
    reveal_strlit("pi");
    reveal_strlit("eulersche zahl");
    reveal_strlit("euler");
    reveal_strlit("quadratwurzel");
    reveal_strlit("wurzel");
    reveal_strlit("square root");
    reveal_strlit("cosinus");
    reveal_strlit("sinus");
    reveal_strlit("tangens");
    reveal_strlit("geteilt durch");
    reveal_strlit("durch");
    reveal_strlit("div");
    reveal_strlit("mal");
    reveal_strlit("plus");
    reveal_strlit("und");
    reveal_strlit("minus");
    reveal_strlit("weniger");
    reveal_strlit("hoch");
    reveal_strlit("power");
    assert forall|j: int| 0 <= j < 2 implies never_inside("eulersche zahl"@, #[trigger] math_words()[j].0) by {
        if j == 0 {
            assert(never_inside("eulersche zahl"@, math_words()[0].0));
        } else if j == 1 {
            assert(never_inside("eulersche zahl"@, math_words()[1].0));
        }
    }
}

proof fn lemma_before_euler()
    ensures
        forall|j: int| 0 <= j < 3 ==> never_inside("euler"@, #[trigger] math_words()[j].0),
{
    reveal_strlit("kreiszahl");
    reveal_strlit("pi");
    reveal_strlit("eulersche zahl");
    reveal_strlit("euler");
    reveal_strlit("quadratwurzel");
    reveal_strlit("wurzel");
    reveal_strlit("square root");
    reveal_strlit("cosinus");
    reveal_strlit("sinus");
    reveal_strlit("tangens");
    reveal_strlit("geteilt durch");
    reveal_strlit("durch");
    reveal_strlit("div");
    reveal_strlit("mal");
    reveal_strlit("plus");
    reveal_strlit("und");
    reveal_strlit("minus");
    reveal_strlit("weniger");
    reveal_strlit("hoch");
    reveal_strlit("power");
    assert forall|j: int| 0 <= j < 3 implies never_inside("euler"@, #[trigger] math_words()[j].0) by {
        if j == 0 {
            assert(never_inside("euler"@, math_words()[0].0));
        } else if j == 1 {
            assert(never_inside("euler"@, math_words()[1].0));
        } else if j == 2 {
            assert(never_inside("euler"@, math_words()[2].0));
        }
    }
}

proof fn lemma_before_geteilt_durch()
    ensures
        forall|j: int| 0 <= j < 10 ==> never_inside("geteilt durch"@, #[trigger] math_words()[j].0),
{
    reveal_strlit("kreiszahl");
    reveal_strlit("pi");
    reveal_strlit("eulersche zahl");
    reveal_strlit("euler");
    reveal_strlit("quadratwurzel");
    reveal_strlit("wurzel");
    reveal_strlit("square root");
    reveal_strlit("cosinus");
    reveal_strlit("sinus");
    reveal_strlit("tangens");
    reveal_strlit("geteilt durch");
    reveal_strlit("durch");
    reveal_strlit("div");
    reveal_strlit("mal");
    reveal_strlit("plus");
    reveal_strlit("und");
    reveal_strlit("minus");
    reveal_strlit("weniger");
    reveal_strlit("hoch");
    reveal_strlit("power");
    assert forall|j: int| 0 <= j < 10 implies never_inside("geteilt durch"@, #[trigger] math_words()[j].0) by {
        if j == 0 {
            assert(never_inside("geteilt durch"@, math_words()[0].0));
        } else if j == 1 {
            assert(never_inside("geteilt durch"@, math_words()[1].0));
        } else if j == 2 {
            assert(never_inside("geteilt durch"@, math_words()[2].0));
        } else if j == 3 {
            assert(never_inside("geteilt durch"@, math_words()[3].0));
        } else if j == 4 {
            assert(never_inside("geteilt durch"@, math_words()[4].0));
        } else if j == 5 {
            assert(never_inside("geteilt durch"@, math_words()[5].0));
        } else if j == 6 {
            assert(never_inside("geteilt durch"@, math_words()[6].0));
        } else if j == 7 {
            assert(never_inside("geteilt durch"@, math_words()[7].0));
        } else if j == 8 {
            assert(never_inside("geteilt durch"@, math_words()[8].0));
        } else if j == 9 {
            assert(never_inside("geteilt durch"@, math_words()[9].0));
        }
    }
}

proof fn lemma_before_durch()
    ensures
        forall|j: int| 0 <= j < 11 ==> never_inside("durch"@, #[trigger] math_words()[j].0),
{
    reveal_strlit("kreiszahl");
    reveal_strlit("pi");
    reveal_strlit("eulersche zahl");
    reveal_strlit("euler");
    reveal_strlit("quadratwurzel");
    reveal_strlit("wurzel");
    reveal_strlit("square root");
    reveal_strlit("cosinus");
    reveal_strlit("sinus");
    reveal_strlit("tangens");
    reveal_strlit("geteilt durch");
    reveal_strlit("durch");
    reveal_strlit("div");
    reveal_strlit("mal");
    reveal_strlit("plus");
    reveal_strlit("und");
    reveal_strlit("minus");
    reveal_strlit("weniger");
    reveal_strlit("hoch");
    reveal_strlit("power");
    assert forall|j: int| 0 <= j < 11 implies never_inside("durch"@, #[trigger] math_words()[j].0) by {
        if j == 0 {
            assert(never_inside("durch"@, math_words()[0].0));
        } else if j == 1 {
            assert(never_inside("durch"@, math_words()[1].0));
        } else if j == 2 {
            assert(never_inside("durch"@, math_words()[2].0));
        } else if j == 3 {
            assert(never_inside("durch"@, math_words()[3].0));
        } else if j == 4 {
            assert(never_inside("durch"@, math_words()[4].0));
        } else if j == 5 {
            assert(never_inside("durch"@, math_words()[5].0));
        } else if j == 6 {
            assert(never_inside("durch"@, math_words()[6].0));
        } else if j == 7 {
            assert(never_inside("durch"@, math_words()[7].0));
        } else if j == 8 {
            assert(never_inside("durch"@, math_words()[8].0));
        } else if j == 9 {
            assert(never_inside("durch"@, math_words()[9].0));
        } else if j == 10 {
            assert(never_inside("durch"@, math_words()[10].0));
        }
    }
}

proof fn lemma_before_div()
    ensures
        forall|j: int| 0 <= j < 12 ==> never_inside("div"@, #[trigger] math_words()[j].0),
{
    reveal_strlit("kreiszahl");
    reveal_strlit("pi");
    reveal_strlit("eulersche zahl");
    reveal_strlit("euler");
    reveal_strlit("quadratwurzel");
    reveal_strlit("wurzel");
    reveal_strlit("square root");
    reveal_strlit("cosinus");
    reveal_strlit("sinus");
    reveal_strlit("tangens");
    reveal_strlit("geteilt durch");
    reveal_strlit("durch");
    reveal_strlit("div");
    reveal_strlit("mal");
    reveal_strlit("plus");
    reveal_strlit("und");
    reveal_strlit("minus");
    reveal_strlit("weniger");
    reveal_strlit("hoch");
    reveal_strlit("power");
    assert forall|j: int| 0 <= j < 12 implies never_inside("div"@, #[trigger] math_words()[j].0) by {
        if j == 0 {
            assert(never_inside("div"@, math_words()[0].0));
        } else if j == 1 {
            assert(never_inside("div"@, math_words()[1].0));
        } else if j == 2 {
            assert(never_inside("div"@, math_words()[2].0));
        } else if j == 3 {
            assert(never_inside("div"@, math_words()[3].0));
        } else if j == 4 {
            assert(never_inside("div"@, math_words()[4].0));
        } else if j == 5 {
            assert(never_inside("div"@, math_words()[5].0));
        } else if j == 6 {
            assert(never_inside("div"@, math_words()[6].0));
        } else if j == 7 {
            assert(never_inside("div"@, math_words()[7].0));
        } else if j == 8 {
            assert(never_inside("div"@, math_words()[8].0));
        } else if j == 9 {
            assert(never_inside("div"@, math_words()[9].0));
        } else if j == 10 {
            assert(never_inside("div"@, math_words()[10].0));
        } else if j == 11 {
            assert(never_inside("div"@, math_words()[11].0));
        }
    }
}

proof fn lemma_before_mal()
    ensures
        forall|j: int| 0 <= j < 13 ==> never_inside("mal"@, #[trigger] math_words()[j].0),
{
    reveal_strlit("kreiszahl");
    reveal_strlit("pi");
    reveal_strlit("eulersche zahl");
    reveal_strlit("euler");
    reveal_strlit("quadratwurzel");
    reveal_strlit("wurzel");
    reveal_strlit("square root");
    reveal_strlit("cosinus");
    reveal_strlit("sinus");
    reveal_strlit("tangens");
    reveal_strlit("geteilt durch");
    reveal_strlit("durch");
    reveal_strlit("div");
    reveal_strlit("mal");
    reveal_strlit("plus");
    reveal_strlit("und");
    reveal_strlit("minus");
    reveal_strlit("weniger");
    reveal_strlit("hoch");
    reveal_strlit("power");
    assert forall|j: int| 0 <= j < 13 implies never_inside("mal"@, #[trigger] math_words()[j].0) by {
        if j == 0 {
            assert(never_inside("mal"@, math_words()[0].0));
        } else if j == 1 {
            assert(never_inside("mal"@, math_words()[1].0));
        } else if j == 2 {
            assert(never_inside("mal"@, math_words()[2].0));
        } else if j == 3 {
            assert(never_inside("mal"@, math_words()[3].0));
        } else if j == 4 {
            assert(never_inside("mal"@, math_words()[4].0));
        } else if j == 5 {
            assert(never_inside("mal"@, math_words()[5].0));
        } else if j == 6 {
            assert(never_inside("mal"@, math_words()[6].0));
        } else if j == 7 {
            assert(never_inside("mal"@, math_words()[7].0));
        } else if j == 8 {
            assert(never_inside("mal"@, math_words()[8].0));
        } else if j == 9 {
            assert(never_inside("mal"@, math_words()[9].0));
        } else if j == 10 {
            assert(never_inside("mal"@, math_words()[10].0));
        } else if j == 11 {
            assert(never_inside("mal"@, math_words()[11].0));
        } else if j == 12 {
            assert(never_inside("mal"@, math_words()[12].0));
        }
    }
}

proof fn lemma_before_plus()
    ensures
        forall|j: int| 0 <= j < 14 ==> never_inside("plus"@, #[trigger] math_words()[j].0),
{
    reveal_strlit("kreiszahl");
    reveal_strlit("pi");
    reveal_strlit("eulersche zahl");
    reveal_strlit("euler");
    reveal_strlit("quadratwurzel");
    reveal_strlit("wurzel");
    reveal_strlit("square root");
    reveal_strlit("cosinus");
    reveal_strlit("sinus");
    reveal_strlit("tangens");
    reveal_strlit("geteilt durch");
    reveal_strlit("durch");
    reveal_strlit("div");
    reveal_strlit("mal");
    reveal_strlit("plus");
    reveal_strlit("und");
    reveal_strlit("minus");
    reveal_strlit("weniger");
    reveal_strlit("hoch");
    reveal_strlit("power");
    assert forall|j: int| 0 <= j < 14 implies never_inside("plus"@, #[trigger] math_words()[j].0) by {
        if j == 0 {
            assert(never_inside("plus"@, math_words()[0].0));
        } else if j == 1 {
            assert(never_inside("plus"@, math_words()[1].0));
        } else if j == 2 {
            assert(never_inside("plus"@, math_words()[2].0));
        } else if j == 3 {
            assert(never_inside("plus"@, math_words()[3].0));
        } else if j == 4 {
            assert(never_inside("plus"@, math_words()[4].0));
        } else if j == 5 {
            assert(never_inside("plus"@, math_words()[5].0));
        } else if j == 6 {
            assert(never_inside("plus"@, math_words()[6].0));
        } else if j == 7 {
            assert(never_inside("plus"@, math_words()[7].0));
        } else if j == 8 {
            assert(never_inside("plus"@, math_words()[8].0));
        } else if j == 9 {
            assert(never_inside("plus"@, math_words()[9].0));
        } else if j == 10 {
            assert(never_inside("plus"@, math_words()[10].0));
        } else if j == 11 {
            assert(never_inside("plus"@, math_words()[11].0));
        } else if j == 12 {
            assert(never_inside("plus"@, math_words()[12].0));
        } else if j == 13 {
            assert(never_inside("plus"@, math_words()[13].0));
        }
    }
}

proof fn lemma_before_und()
    ensures
        forall|j: int| 0 <= j < 15 ==> never_inside("und"@, #[trigger] math_words()[j].0),
{
    reveal_strlit("kreiszahl");
    reveal_strlit("pi");
    reveal_strlit("eulersche zahl");
    reveal_strlit("euler");
    reveal_strlit("quadratwurzel");
    reveal_strlit("wurzel");
    reveal_strlit("square root");
    reveal_strlit("cosinus");
    reveal_strlit("sinus");
    reveal_strlit("tangens");
    reveal_strlit("geteilt durch");
    reveal_strlit("durch");
    reveal_strlit("div");
    reveal_strlit("mal");
    reveal_strlit("plus");
    reveal_strlit("und");
    reveal_strlit("minus");
    reveal_strlit("weniger");
    reveal_strlit("hoch");
    reveal_strlit("power");
    assert forall|j: int| 0 <= j < 15 implies never_inside("und"@, #[trigger] math_words()[j].0) by {
        if j == 0 {
            assert(never_inside("und"@, math_words()[0].0));
        } else if j == 1 {
            assert(never_inside("und"@, math_words()[1].0));
        } else if j == 2 {
            assert(never_inside("und"@, math_words()[2].0));
        } else if j == 3 {
            assert(never_inside("und"@, math_words()[3].0));
        } else if j == 4 {
            assert(never_inside("und"@, math_words()[4].0));
        } else if j == 5 {
            assert(never_inside("und"@, math_words()[5].0));
        } else if j == 6 {
            assert(never_inside("und"@, math_words()[6].0));
        } else if j == 7 {
            assert(never_inside("und"@, math_words()[7].0));
        } else if j == 8 {
            assert(never_inside("und"@, math_words()[8].0));
        } else if j == 9 {
            assert(never_inside("und"@, math_words()[9].0));
        } else if j == 10 {
            assert(never_inside("und"@, math_words()[10].0));
        } else if j == 11 {
            assert(never_inside("und"@, math_words()[11].0));
        } else if j == 12 {
            assert(never_inside("und"@, math_words()[12].0));
        } else if j == 13 {
            assert(never_inside("und"@, math_words()[13].0));
        } else if j == 14 {
            assert(never_inside("und"@, math_words()[14].0));
        }
    }
}

proof fn lemma_before_minus()
    ensures
        forall|j: int| 0 <= j < 16 ==> never_inside("minus"@, #[trigger] math_words()[j].0),
{
    reveal_strlit("kreiszahl");
    reveal_strlit("pi");
    reveal_strlit("eulersche zahl");
    reveal_strlit("euler");
    reveal_strlit("quadratwurzel");
    reveal_strlit("wurzel");
    reveal_strlit("square root");
    reveal_strlit("cosinus");
    reveal_strlit("sinus");
    reveal_strlit("tangens");
    reveal_strlit("geteilt durch");
    reveal_strlit("durch");
    reveal_strlit("div");
    reveal_strlit("mal");
    reveal_strlit("plus");
    reveal_strlit("und");
    reveal_strlit("minus");
    reveal_strlit("weniger");
    reveal_strlit("hoch");
    reveal_strlit("power");
    assert forall|j: int| 0 <= j < 16 implies never_inside("minus"@, #[trigger] math_words()[j].0) by {
        if j == 0 {
            assert(never_inside("minus"@, math_words()[0].0));
        } else if j == 1 {
            assert(never_inside("minus"@, math_words()[1].0));
        } else if j == 2 {
            assert(never_inside("minus"@, math_words()[2].0));
        } else if j == 3 {
            assert(never_inside("minus"@, math_words()[3].0));
        } else if j == 4 {
            assert(never_inside("minus"@, math_words()[4].0));
        } else if j == 5 {
            assert(never_inside("minus"@, math_words()[5].0));
        } else if j == 6 {
            assert(never_inside("minus"@, math_words()[6].0));
        } else if j == 7 {
            assert(never_inside("minus"@, math_words()[7].0));
        } else if j == 8 {
            assert(never_inside("minus"@, math_words()[8].0));
        } else if j == 9 {
            assert(never_inside("minus"@, math_words()[9].0));
        } else if j == 10 {
            assert(never_inside("minus"@, math_words()[10].0));
        } else if j == 11 {
            assert(never_inside("minus"@, math_words()[11].0));
        } else if j == 12 {
            assert(never_inside("minus"@, math_words()[12].0));
        } else if j == 13 {
            assert(never_inside("minus"@, math_words()[13].0));
        } else if j == 14 {
            assert(never_inside("minus"@, math_words()[14].0));
        } else if j == 15 {
            assert(never_inside("minus"@, math_words()[15].0));
        }
    }
}

proof fn lemma_before_weniger()
    ensures
        forall|j: int| 0 <= j < 17 ==> never_inside("weniger"@, #[trigger] math_words()[j].0),
{
    reveal_strlit("kreiszahl");
    reveal_strlit("pi");
    reveal_strlit("eulersche zahl");
    reveal_strlit("euler");
    reveal_strlit("quadratwurzel");
    reveal_strlit("wurzel");
    reveal_strlit("square root");
    reveal_strlit("cosinus");
    reveal_strlit("sinus");
    reveal_strlit("tangens");
    reveal_strlit("geteilt durch");
    reveal_strlit("durch");
    reveal_strlit("div");
    reveal_strlit("mal");
    reveal_strlit("plus");
    reveal_strlit("und");
    reveal_strlit("minus");
    reveal_strlit("weniger");
    reveal_strlit("hoch");
    reveal_strlit("power");
    assert forall|j: int| 0 <= j < 17 implies never_inside("weniger"@, #[trigger] math_words()[j].0) by {
        if j == 0 {
            assert(never_inside("weniger"@, math_words()[0].0));
        } else if j == 1 {
            assert(never_inside("weniger"@, math_words()[1].0));
        } else if j == 2 {
            assert(never_inside("weniger"@, math_words()[2].0));
        } else if j == 3 {
            assert(never_inside("weniger"@, math_words()[3].0));
        } else if j == 4 {
            assert(never_inside("weniger"@, math_words()[4].0));
        } else if j == 5 {
            assert(never_inside("weniger"@, math_words()[5].0));
        } else if j == 6 {
            assert(never_inside("weniger"@, math_words()[6].0));
        } else if j == 7 {
            assert(never_inside("weniger"@, math_words()[7].0));
        } else if j == 8 {
            assert(never_inside("weniger"@, math_words()[8].0));
        } else if j == 9 {
            assert(never_inside("weniger"@, math_words()[9].0));
        } else if j == 10 {
            assert(never_inside("weniger"@, math_words()[10].0));
        } else if j == 11 {
            assert(never_inside("weniger"@, math_words()[11].0));
        } else if j == 12 {
            assert(never_inside("weniger"@, math_words()[12].0));
        } else if j == 13 {
            assert(never_inside("weniger"@, math_words()[13].0));
        } else if j == 14 {
            assert(never_inside("weniger"@, math_words()[14].0));
        } else if j == 15 {
            assert(never_inside("weniger"@, math_words()[15].0));
        } else if j == 16 {
            assert(never_inside("weniger"@, math_words()[16].0));
        }
    }
}

proof fn lemma_before_hoch()
    ensures
        forall|j: int| 0 <= j < 18 ==> never_inside("hoch"@, #[trigger] math_words()[j].0),
{
    reveal_strlit("kreiszahl");
    reveal_strlit("pi");
    reveal_strlit("eulersche zahl");
    reveal_strlit("euler");
    reveal_strlit("quadratwurzel");
    reveal_strlit("wurzel");
    reveal_strlit("square root");
    reveal_strlit("cosinus");
    reveal_strlit("sinus");
    reveal_strlit("tangens");
    reveal_strlit("geteilt durch");
    reveal_strlit("durch");
    reveal_strlit("div");
    reveal_strlit("mal");
    reveal_strlit("plus");
    reveal_strlit("und");
    reveal_strlit("minus");
    reveal_strlit("weniger");
    reveal_strlit("hoch");
    reveal_strlit("power");
    assert forall|j: int| 0 <= j < 18 implies never_inside("hoch"@, #[trigger] math_words()[j].0) by {
        if j == 0 {
            assert(never_inside("hoch"@, math_words()[0].0));
        } else if j == 1 {
            assert(never_inside("hoch"@, math_words()[1].0));
        } else if j == 2 {
            assert(never_inside("hoch"@, math_words()[2].0));
        } else if j == 3 {
            assert(never_inside("hoch"@, math_words()[3].0));
        } else if j == 4 {
            assert(never_inside("hoch"@, math_words()[4].0));
        } else if j == 5 {
            assert(never_inside("hoch"@, math_words()[5].0));
        } else if j == 6 {
            assert(never_inside("hoch"@, math_words()[6].0));
        } else if j == 7 {
            assert(never_inside("hoch"@, math_words()[7].0));
        } else if j == 8 {
            assert(never_inside("hoch"@, math_words()[8].0));
        } else if j == 9 {
            assert(never_inside("hoch"@, math_words()[9].0));
        } else if j == 10 {
            assert(never_inside("hoch"@, math_words()[10].0));
        } else if j == 11 {
            assert(never_inside("hoch"@, math_words()[11].0));
        } else if j == 12 {
            assert(never_inside("hoch"@, math_words()[12].0));
        } else if j == 13 {
            assert(never_inside("hoch"@, math_words()[13].0));
        } else if j == 14 {
            assert(never_inside("hoch"@, math_words()[14].0));
        } else if j == 15 {
            assert(never_inside("hoch"@, math_words()[15].0));
        } else if j == 16 {
            assert(never_inside("hoch"@, math_words()[16].0));
        } else if j == 17 {
            assert(never_inside("hoch"@, math_words()[17].0));
        }
    }
}

proof fn lemma_before_power()
    ensures
        forall|j: int| 0 <= j < 19 ==> never_inside("power"@, #[trigger] math_words()[j].0),
{
    reveal_strlit("kreiszahl");
    reveal_strlit("pi");
    reveal_strlit("eulersche zahl");
    reveal_strlit("euler");
    reveal_strlit("quadratwurzel");
    reveal_strlit("wurzel");
    reveal_strlit("square root");
    reveal_strlit("cosinus");
    reveal_strlit("sinus");
    reveal_strlit("tangens");
    reveal_strlit("geteilt durch");
    reveal_strlit("durch");
    reveal_strlit("div");
    reveal_strlit("mal");
    reveal_strlit("plus");
    reveal_strlit("und");
    reveal_strlit("minus");
    reveal_strlit("weniger");
    reveal_strlit("hoch");
    reveal_strlit("power");
    assert forall|j: int| 0 <= j < 19 implies never_inside("power"@, #[trigger] math_words()[j].0) by {
        if j == 0 {
            assert(never_inside("power"@, math_words()[0].0));
        } else if j == 1 {
            assert(never_inside("power"@, math_words()[1].0));
        } else if j == 2 {
            assert(never_inside("power"@, math_words()[2].0));
        } else if j == 3 {
            assert(never_inside("power"@, math_words()[3].0));
        } else if j == 4 {
            assert(never_inside("power"@, math_words()[4].0));
        } else if j == 5 {
            assert(never_inside("power"@, math_words()[5].0));
        } else if j == 6 {
            assert(never_inside("power"@, math_words()[6].0));
        } else if j == 7 {
            assert(never_inside("power"@, math_words()[7].0));
        } else if j == 8 {
            assert(never_inside("power"@, math_words()[8].0));
        } else if j == 9 {
            assert(never_inside("power"@, math_words()[9].0));
        } else if j == 10 {
            assert(never_inside("power"@, math_words()[10].0));
        } else if j == 11 {
            assert(never_inside("power"@, math_words()[11].0));
        } else if j == 12 {
            assert(never_inside("power"@, math_words()[12].0));
        } else if j == 13 {
            assert(never_inside("power"@, math_words()[13].0));
        } else if j == 14 {
            assert(never_inside("power"@, math_words()[14].0));
        } else if j == 15 {
            assert(never_inside("power"@, math_words()[15].0));
        } else if j == 16 {
            assert(never_inside("power"@, math_words()[16].0));
        } else if j == 17 {
            assert(never_inside("power"@, math_words()[17].0));
        } else if j == 18 {
            assert(never_inside("power"@, math_words()[18].0));
        }
    }
}


/// Every character is a lowercase ASCII letter or a space.
spec fn plain_lower(v: Seq<char>) -> bool {
    forall|i: int| 0 <= i < v.len() ==> ('a' <= #[trigger] v[i] <= 'z') || v[i] == ' '
}

proof fn lemma_lower_plain(x: Seq<char>, w: Seq<char>, y: Seq<char>)
    requires
        digits_only(x),
        digits_only(y),
        plain_lower(w),
    ensures
        lowercase(x + " "@ + w + " "@ + y) == x + " "@ + w + " "@ + y,
{
    reveal_strlit(" ");
    let s = x + " "@ + w + " "@ + y;
    let a: int = x.len() + 1int;
    assert forall|i: int| 0 <= i < s.len() implies (#[trigger] s[i] == ' ' || ('a' <= s[i] <= 'z')
        || ('0' <= s[i] <= '9')) by {
        if i < x.len() {
            assert(s[i] == x[i]);
        } else if a <= i < a + w.len() {
            assert(s[i] == w[i - a]);
        } else if i > a + w.len() {
            assert(s[i] == y[i - a - w.len() - 1]);
        }
    }
    assert(all_ascii(s));
    assert(s.map_values(|c: char| ascii_lower(c)) =~= s);
}

proof fn lemma_find_none(s: Seq<char>, p: Seq<char>, from: int)
    requires
        letter_free(s),
        word_like(p),
        0 <= from,
    ensures
        find_from(s, p, from) == None::<int>,
    decreases s.len() - from,
{
    if from + p.len() <= s.len() {
        assert(!occurs_at(s, p, from)) by {
            assert(s.subrange(from, from + p.len())[0] == s[from]);
        }
        lemma_find_none(s, p, from + 1);
    }
}

proof fn lemma_wrap_plain(s: Seq<char>, k: int, fuel: nat)
    requires
        letter_free(s),
        0 <= k <= 6,
    ensures
        wrap_all(s, k, fuel) == Some(s),
    decreases 6 - k,
{
    if k < 6 && fuel > 0 {
        reveal_strlit("sqrt");
        reveal_strlit("sin");
        reveal_strlit("cos");
        reveal_strlit("tan");
        reveal_strlit("ln");
        reveal_strlit("log");
        let f = math_functions()[k];
        assert(word_like(f)) by {
            if k == 0 {
            } else if k == 1 {
            } else if k == 2 {
            } else if k == 3 {
            } else if k == 4 {
            } else {
            }
        }
        lemma_find_none(s, f, 0);
        assert(wrap_calls(s, f, 0, fuel) == Some(s));
        lemma_wrap_plain(s, k + 1, fuel);
    }
}

proof fn lemma_one_word(x: Seq<char>, w: Seq<char>, y: Seq<char>, op: Seq<char>, k: int)
    requires
        digits_only(x),
        digits_only(y),
        plain_lower(w),
        letter_free(op),
        0 <= k < math_words().len(),
        math_words()[k] == (w, op),
        forall|j: int| 0 <= j < k ==> never_inside(w, #[trigger] math_words()[j].0),
    ensures
        translated(x + " "@ + w + " "@ + y) == x + " "@ + op + " "@ + y,
{
    reveal_strlit(" ");
    let s = x + " "@ + w + " "@ + y;
    let t = x + " "@ + op + " "@ + y;
    lemma_lower_plain(x, w, y);
    lemma_math_words_like();
    assert forall|j: int| k < j < math_words().len() implies never_inside(op, #[trigger] math_words()[j].0) by {
        lemma_letter_free_never_inside(op, math_words()[j].0);
    }
    lemma_pairs_word(x, w, y, op, math_words(), k);
    assert(normalize_words(s) == t);
    assert(letter_free(t)) by {
        assert forall|i: int| 0 <= i < t.len() implies !is_ascii_alpha(#[trigger] t[i]) by {
            if i < x.len() {
                assert(t[i] == x[i]);
            } else if i > x.len() && i < x.len() + 1 + op.len() {
                assert(t[i] == op[i - x.len() - 1]);
            } else if i > x.len() + 1 + op.len() {
                assert(t[i] == y[i - x.len() - 2 - op.len()]);
            }
        }
    }
    lemma_wrap_plain(t, 0, MAX_NESTING as nat);
}

proof fn lemma_word_plus(x: Seq<char>, y: Seq<char>)
    requires
        forall|i: int| 0 <= i < x.len() ==> is_ascii_digit(#[trigger] x[i]),
        forall|i: int| 0 <= i < y.len() ==> is_ascii_digit(#[trigger] y[i]),
    ensures
        translated(x + " plus "@ + y) == x + " + "@ + y,
{
    reveal_strlit(" ");
    reveal_strlit("plus");
    reveal_strlit("+");
    reveal_strlit(" plus ");
    reveal_strlit(" + ");
    lemma_before_plus();
    assert(letter_free("+"@));
    assert(plain_lower("plus"@));
    assert(math_words()[14] == ("plus"@, "+"@));
    lemma_one_word(x, "plus"@, y, "+"@, 14);
    assert(x + " plus "@ + y =~= x + " "@ + "plus"@ + " "@ + y);
    assert(x + " + "@ + y =~= x + " "@ + "+"@ + " "@ + y);
}

proof fn lemma_word_und(x: Seq<char>, y: Seq<char>)
    requires
        forall|i: int| 0 <= i < x.len() ==> is_ascii_digit(#[trigger] x[i]),
        forall|i: int| 0 <= i < y.len() ==> is_ascii_digit(#[trigger] y[i]),
    ensures
        translated(x + " und "@ + y) == x + " + "@ + y,
{
    reveal_strlit(" ");
    reveal_strlit("und");
    reveal_strlit("+");
    reveal_strlit(" und ");
    reveal_strlit(" + ");
    lemma_before_und();
    assert(letter_free("+"@));
    assert(plain_lower("und"@));
    assert(math_words()[15] == ("und"@, "+"@));
    lemma_one_word(x, "und"@, y, "+"@, 15);
    assert(x + " und "@ + y =~= x + " "@ + "und"@ + " "@ + y);
    assert(x + " + "@ + y =~= x + " "@ + "+"@ + " "@ + y);
}

proof fn lemma_word_minus(x: Seq<char>, y: Seq<char>)
    requires
        forall|i: int| 0 <= i < x.len() ==> is_ascii_digit(#[trigger] x[i]),
        forall|i: int| 0 <= i < y.len() ==> is_ascii_digit(#[trigger] y[i]),
    ensures
        translated(x + " minus "@ + y) == x + " - "@ + y,
{
    reveal_strlit(" ");
    reveal_strlit("minus");
    reveal_strlit("-");
    reveal_strlit(" minus ");
    reveal_strlit(" - ");
    lemma_before_minus();
    assert(letter_free("-"@));
    assert(plain_lower("minus"@));
    assert(math_words()[16] == ("minus"@, "-"@));
    lemma_one_word(x, "minus"@, y, "-"@, 16);
    assert(x + " minus "@ + y =~= x + " "@ + "minus"@ + " "@ + y);
    assert(x + " - "@ + y =~= x + " "@ + "-"@ + " "@ + y);
}

proof fn lemma_word_weniger(x: Seq<char>, y: Seq<char>)
    requires
        forall|i: int| 0 <= i < x.len() ==> is_ascii_digit(#[trigger] x[i]),
        forall|i: int| 0 <= i < y.len() ==> is_ascii_digit(#[trigger] y[i]),
    ensures
        translated(x + " weniger "@ + y) == x + " - "@ + y,
{
    reveal_strlit(" ");
    reveal_strlit("weniger");
    reveal_strlit("-");
    reveal_strlit(" weniger ");
    reveal_strlit(" - ");
    lemma_before_weniger();
    assert(letter_free("-"@));
    assert(plain_lower("weniger"@));
    assert(math_words()[17] == ("weniger"@, "-"@));
    lemma_one_word(x, "weniger"@, y, "-"@, 17);
    assert(x + " weniger "@ + y =~= x + " "@ + "weniger"@ + " "@ + y);
    assert(x + " - "@ + y =~= x + " "@ + "-"@ + " "@ + y);
}

proof fn lemma_word_mal(x: Seq<char>, y: Seq<char>)
    requires
        forall|i: int| 0 <= i < x.len() ==> is_ascii_digit(#[trigger] x[i]),
        forall|i: int| 0 <= i < y.len() ==> is_ascii_digit(#[trigger] y[i]),
    ensures
        translated(x + " mal "@ + y) == x + " * "@ + y,
{
    reveal_strlit(" ");
    reveal_strlit("mal");
    reveal_strlit("*");
    reveal_strlit(" mal ");
    reveal_strlit(" * ");
    lemma_before_mal();
    assert(letter_free("*"@));
    assert(plain_lower("mal"@));
    assert(math_words()[13] == ("mal"@, "*"@));
    lemma_one_word(x, "mal"@, y, "*"@, 13);
    assert(x + " mal "@ + y =~= x + " "@ + "mal"@ + " "@ + y);
    assert(x + " * "@ + y =~= x + " "@ + "*"@ + " "@ + y);
}

proof fn lemma_word_durch(x: Seq<char>, y: Seq<char>)
    requires
        forall|i: int| 0 <= i < x.len() ==> is_ascii_digit(#[trigger] x[i]),
        forall|i: int| 0 <= i < y.len() ==> is_ascii_digit(#[trigger] y[i]),
    ensures
        translated(x + " durch "@ + y) == x + " / "@ + y,
{
    reveal_strlit(" ");
    reveal_strlit("durch");
    reveal_strlit("/");
    reveal_strlit(" durch ");
    reveal_strlit(" / ");
    lemma_before_durch();
    assert(letter_free("/"@));
    assert(plain_lower("durch"@));
    assert(math_words()[11] == ("durch"@, "/"@));
    lemma_one_word(x, "durch"@, y, "/"@, 11);
    assert(x + " durch "@ + y =~= x + " "@ + "durch"@ + " "@ + y);
    assert(x + " / "@ + y =~= x + " "@ + "/"@ + " "@ + y);
}

proof fn lemma_word_geteilt_durch(x: Seq<char>, y: Seq<char>)
    requires
        forall|i: int| 0 <= i < x.len() ==> is_ascii_digit(#[trigger] x[i]),
        forall|i: int| 0 <= i < y.len() ==> is_ascii_digit(#[trigger] y[i]),
    ensures
        translated(x + " geteilt durch "@ + y) == x + " / "@ + y,
{
    reveal_strlit(" ");
    reveal_strlit("geteilt durch");
    reveal_strlit("/");
    reveal_strlit(" geteilt durch ");
    reveal_strlit(" / ");
    lemma_before_geteilt_durch();
    assert(letter_free("/"@));
    assert(plain_lower("geteilt durch"@));
    assert(math_words()[10] == ("geteilt durch"@, "/"@));
    lemma_one_word(x, "geteilt durch"@, y, "/"@, 10);
    assert(x + " geteilt durch "@ + y =~= x + " "@ + "geteilt durch"@ + " "@ + y);
    assert(x + " / "@ + y =~= x + " "@ + "/"@ + " "@ + y);
}

proof fn lemma_word_div(x: Seq<char>, y: Seq<char>)
    requires
        forall|i: int| 0 <= i < x.len() ==> is_ascii_digit(#[trigger] x[i]),
        forall|i: int| 0 <= i < y.len() ==> is_ascii_digit(#[trigger] y[i]),
    ensures
        translated(x + " div "@ + y) == x + " / "@ + y,
{
    reveal_strlit(" ");
    reveal_strlit("div");
    reveal_strlit("/");
    reveal_strlit(" div ");
    reveal_strlit(" / ");
    lemma_before_div();
    assert(letter_free("/"@));
    assert(plain_lower("div"@));
    assert(math_words()[12] == ("div"@, "/"@));
    lemma_one_word(x, "div"@, y, "/"@, 12);
    assert(x + " div "@ + y =~= x + " "@ + "div"@ + " "@ + y);
    assert(x + " / "@ + y =~= x + " "@ + "/"@ + " "@ + y);
}

proof fn lemma_word_hoch(x: Seq<char>, y: Seq<char>)
    requires
        forall|i: int| 0 <= i < x.len() ==> is_ascii_digit(#[trigger] x[i]),
        forall|i: int| 0 <= i < y.len() ==> is_ascii_digit(#[trigger] y[i]),
    ensures
        translated(x + " hoch "@ + y) == x + " ^ "@ + y,
{
    reveal_strlit(" ");
    reveal_strlit("hoch");
    reveal_strlit("^");
    reveal_strlit(" hoch ");
    reveal_strlit(" ^ ");
    lemma_before_hoch();
    assert(letter_free("^"@));
    assert(plain_lower("hoch"@));
    assert(math_words()[18] == ("hoch"@, "^"@));
    lemma_one_word(x, "hoch"@, y, "^"@, 18);
    assert(x + " hoch "@ + y =~= x + " "@ + "hoch"@ + " "@ + y);
    assert(x + " ^ "@ + y =~= x + " "@ + "^"@ + " "@ + y);
}

proof fn lemma_word_power(x: Seq<char>, y: Seq<char>)
    requires
        forall|i: int| 0 <= i < x.len() ==> is_ascii_digit(#[trigger] x[i]),
        forall|i: int| 0 <= i < y.len() ==> is_ascii_digit(#[trigger] y[i]),
    ensures
        translated(x + " power "@ + y) == x + " ^ "@ + y,
{
    reveal_strlit(" ");
    reveal_strlit("power");
    reveal_strlit("^");
    reveal_strlit(" power ");
    reveal_strlit(" ^ ");
    lemma_before_power();
    assert(letter_free("^"@));
    assert(plain_lower("power"@));
    assert(math_words()[19] == ("power"@, "^"@));
    lemma_one_word(x, "power"@, y, "^"@, 19);
    assert(x + " power "@ + y =~= x + " "@ + "power"@ + " "@ + y);
    assert(x + " ^ "@ + y =~= x + " "@ + "^"@ + " "@ + y);
}

proof fn lemma_word_kreiszahl(x: Seq<char>, y: Seq<char>)
    requires
        forall|i: int| 0 <= i < x.len() ==> is_ascii_digit(#[trigger] x[i]),
        forall|i: int| 0 <= i < y.len() ==> is_ascii_digit(#[trigger] y[i]),
    ensures
        translated(x + " kreiszahl "@ + y) == x + " 3.141592653589793 "@ + y,
{
    reveal_strlit(" ");
    reveal_strlit("kreiszahl");
    reveal_strlit("3.141592653589793");
    reveal_strlit(" kreiszahl ");
    reveal_strlit(" 3.141592653589793 ");
    lemma_before_kreiszahl();
    assert(letter_free("3.141592653589793"@));
    assert(plain_lower("kreiszahl"@));
    assert(math_words()[0] == ("kreiszahl"@, "3.141592653589793"@));
    lemma_one_word(x, "kreiszahl"@, y, "3.141592653589793"@, 0);
    assert(x + " kreiszahl "@ + y =~= x + " "@ + "kreiszahl"@ + " "@ + y);
    assert(x + " 3.141592653589793 "@ + y =~= x + " "@ + "3.141592653589793"@ + " "@ + y);
}

proof fn lemma_word_pi(x: Seq<char>, y: Seq<char>)
    requires
        forall|i: int| 0 <= i < x.len() ==> is_ascii_digit(#[trigger] x[i]),
        forall|i: int| 0 <= i < y.len() ==> is_ascii_digit(#[trigger] y[i]),
    ensures
        translated(x + " pi "@ + y) == x + " 3.141592653589793 "@ + y,
{
    reveal_strlit(" ");
    reveal_strlit("pi");
    reveal_strlit("3.141592653589793");
    reveal_strlit(" pi ");
    reveal_strlit(" 3.141592653589793 ");
    lemma_before_pi();
    assert(letter_free("3.141592653589793"@));
    assert(plain_lower("pi"@));
    assert(math_words()[1] == ("pi"@, "3.141592653589793"@));
    lemma_one_word(x, "pi"@, y, "3.141592653589793"@, 1);
    assert(x + " pi "@ + y =~= x + " "@ + "pi"@ + " "@ + y);
    assert(x + " 3.141592653589793 "@ + y =~= x + " "@ + "3.141592653589793"@ + " "@ + y);
}

proof fn lemma_word_eulersche_zahl(x: Seq<char>, y: Seq<char>)
    requires
        forall|i: int| 0 <= i < x.len() ==> is_ascii_digit(#[trigger] x[i]),
        forall|i: int| 0 <= i < y.len() ==> is_ascii_digit(#[trigger] y[i]),
    ensures
        translated(x + " eulersche zahl "@ + y) == x + " 2.718281828459045 "@ + y,
{
    reveal_strlit(" ");
    reveal_strlit("eulersche zahl");
    reveal_strlit("2.718281828459045");
    reveal_strlit(" eulersche zahl ");
    reveal_strlit(" 2.718281828459045 ");
    lemma_before_eulersche_zahl();
    assert(letter_free("2.718281828459045"@));
    assert(plain_lower("eulersche zahl"@));
    assert(math_words()[2] == ("eulersche zahl"@, "2.718281828459045"@));
    lemma_one_word(x, "eulersche zahl"@, y, "2.718281828459045"@, 2);
    assert(x + " eulersche zahl "@ + y =~= x + " "@ + "eulersche zahl"@ + " "@ + y);
    assert(x + " 2.718281828459045 "@ + y =~= x + " "@ + "2.718281828459045"@ + " "@ + y);
}

proof fn lemma_word_euler(x: Seq<char>, y: Seq<char>)
    requires
        forall|i: int| 0 <= i < x.len() ==> is_ascii_digit(#[trigger] x[i]),
        forall|i: int| 0 <= i < y.len() ==> is_ascii_digit(#[trigger] y[i]),
    ensures
        translated(x + " euler "@ + y) == x + " 2.718281828459045 "@ + y,
{
    reveal_strlit(" ");
    reveal_strlit("euler");
    reveal_strlit("2.718281828459045");
    reveal_strlit(" euler ");
    reveal_strlit(" 2.718281828459045 ");
    lemma_before_euler();
    assert(letter_free("2.718281828459045"@));
    assert(plain_lower("euler"@));
    assert(math_words()[3] == ("euler"@, "2.718281828459045"@));
    lemma_one_word(x, "euler"@, y, "2.718281828459045"@, 3);
    assert(x + " euler "@ + y =~= x + " "@ + "euler"@ + " "@ + y);
    assert(x + " 2.718281828459045 "@ + y =~= x + " "@ + "2.718281828459045"@ + " "@ + y);
}

/// The arithmetic words of a typed expression become operators and the
/// constant names become their values: between two numbers, `plus` and
/// `und` give `+`, `minus` and `weniger` give `-`, `mal` gives `*`, `durch`,
/// `geteilt durch` and `div` give `/`, `hoch` and `power` give `^`,
/// `kreiszahl` and `pi` give pi, and `eulersche zahl` and `euler` give e.
pub proof fn lemma_math_word_operators(x: Seq<char>, y: Seq<char>)
    requires
        forall|i: int| 0 <= i < x.len() ==> is_ascii_digit(#[trigger] x[i]),
        forall|i: int| 0 <= i < y.len() ==> is_ascii_digit(#[trigger] y[i]),
    ensures
        translated(x + " plus "@ + y) == x + " + "@ + y,
        translated(x + " und "@ + y) == x + " + "@ + y,
        translated(x + " minus "@ + y) == x + " - "@ + y,
        translated(x + " weniger "@ + y) == x + " - "@ + y,
        translated(x + " mal "@ + y) == x + " * "@ + y,
        translated(x + " durch "@ + y) == x + " / "@ + y,
        translated(x + " geteilt durch "@ + y) == x + " / "@ + y,
        translated(x + " div "@ + y) == x + " / "@ + y,
        translated(x + " hoch "@ + y) == x + " ^ "@ + y,
        translated(x + " power "@ + y) == x + " ^ "@ + y,
        translated(x + " kreiszahl "@ + y) == x + " 3.141592653589793 "@ + y,
        translated(x + " pi "@ + y) == x + " 3.141592653589793 "@ + y,
        translated(x + " eulersche zahl "@ + y) == x + " 2.718281828459045 "@ + y,
        translated(x + " euler "@ + y) == x + " 2.718281828459045 "@ + y,
{
    lemma_word_plus(x, y);
    lemma_word_und(x, y);
    lemma_word_minus(x, y);
    lemma_word_weniger(x, y);
    lemma_word_mal(x, y);
    lemma_word_durch(x, y);
    lemma_word_geteilt_durch(x, y);
    lemma_word_div(x, y);
    lemma_word_hoch(x, y);
    lemma_word_power(x, y);
    lemma_word_kreiszahl(x, y);
    lemma_word_pi(x, y);
    lemma_word_eulersche_zahl(x, y);
    lemma_word_euler(x, y);
}


proof fn lemma_before_quadratwurzel()
    ensures
        forall|j: int| 0 <= j < 4 ==> never_inside("quadratwurzel"@, #[trigger] math_words()[j].0),
{
    reveal_strlit("kreiszahl");
    reveal_strlit("pi");
    reveal_strlit("eulersche zahl");
    reveal_strlit("euler");
    reveal_strlit("quadratwurzel");
    reveal_strlit("wurzel");
    reveal_strlit("square root");
    reveal_strlit("cosinus");
    reveal_strlit("sinus");
    reveal_strlit("tangens");
    reveal_strlit("geteilt durch");
    reveal_strlit("durch");
    reveal_strlit("div");
    reveal_strlit("mal");
    reveal_strlit("plus");
    reveal_strlit("und");
    reveal_strlit("minus");
    reveal_strlit("weniger");
    reveal_strlit("hoch");
    reveal_strlit("power");
    assert forall|j: int| 0 <= j < 4 implies never_inside("quadratwurzel"@, #[trigger] math_words()[j].0) by {
        if j == 0 {
            assert(never_inside("quadratwurzel"@, math_words()[0].0));
        } else if j == 1 {
            assert(never_inside("quadratwurzel"@, math_words()[1].0));
        } else if j == 2 {
            assert(never_inside("quadratwurzel"@, math_words()[2].0));
        } else if j == 3 {
            assert(never_inside("quadratwurzel"@, math_words()[3].0));
        }
    }
}

proof fn lemma_after_quadratwurzel()
    ensures
        forall|j: int| 4 < j < 20 ==> never_inside("sqrt"@, #[trigger] math_words()[j].0),
{
    reveal_strlit("kreiszahl");
    reveal_strlit("pi");
    reveal_strlit("eulersche zahl");
    reveal_strlit("euler");
    reveal_strlit("quadratwurzel");
    reveal_strlit("wurzel");
    reveal_strlit("square root");
    reveal_strlit("cosinus");
    reveal_strlit("sinus");
    reveal_strlit("tangens");
    reveal_strlit("geteilt durch");
    reveal_strlit("durch");
    reveal_strlit("div");
    reveal_strlit("mal");
    reveal_strlit("plus");
    reveal_strlit("und");
    reveal_strlit("minus");
    reveal_strlit("weniger");
    reveal_strlit("hoch");
    reveal_strlit("power");
    reveal_strlit("sqrt");
    assert forall|j: int| 4 < j < 20 implies never_inside("sqrt"@, #[trigger] math_words()[j].0) by {
        if j == 5 {
            assert(never_inside("sqrt"@, math_words()[5].0));
        } else if j == 6 {
            assert(never_inside("sqrt"@, math_words()[6].0));
        } else if j == 7 {
            assert(never_inside("sqrt"@, math_words()[7].0));
        } else if j == 8 {
            assert(never_inside("sqrt"@, math_words()[8].0));
        } else if j == 9 {
            assert(never_inside("sqrt"@, math_words()[9].0));
        } else if j == 10 {
            assert(never_inside("sqrt"@, math_words()[10].0));
        } else if j == 11 {
            assert(never_inside("sqrt"@, math_words()[11].0));
        } else if j == 12 {
            assert(never_inside("sqrt"@, math_words()[12].0));
        } else if j == 13 {
            assert(never_inside("sqrt"@, math_words()[13].0));
        } else if j == 14 {
            assert(never_inside("sqrt"@, math_words()[14].0));
        } else if j == 15 {
            assert(never_inside("sqrt"@, math_words()[15].0));
        } else if j == 16 {
            assert(never_inside("sqrt"@, math_words()[16].0));
        } else if j == 17 {
            assert(never_inside("sqrt"@, math_words()[17].0));
        } else if j == 18 {
            assert(never_inside("sqrt"@, math_words()[18].0));
        } else if j == 19 {
            assert(never_inside("sqrt"@, math_words()[19].0));
        }
    }
}

proof fn lemma_fword_quadratwurzel(x: Seq<char>, y: Seq<char>)
    requires
        forall|i: int| 0 <= i < x.len() ==> is_ascii_digit(#[trigger] x[i]),
        forall|i: int| 0 <= i < y.len() ==> is_ascii_digit(#[trigger] y[i]),
    ensures
        normalize_words(x + " quadratwurzel "@ + y) == x + " sqrt "@ + y,
{
    reveal_strlit(" ");
    reveal_strlit("quadratwurzel");
    reveal_strlit("sqrt");
    reveal_strlit(" quadratwurzel ");
    reveal_strlit(" sqrt ");
    lemma_before_quadratwurzel();
    lemma_after_quadratwurzel();
    lemma_math_words_like();
    assert(plain_lower("quadratwurzel"@));
    assert(math_words()[4] == ("quadratwurzel"@, "sqrt"@));
    assert(x + " quadratwurzel "@ + y =~= x + " "@ + "quadratwurzel"@ + " "@ + y);
    assert(x + " sqrt "@ + y =~= x + " "@ + "sqrt"@ + " "@ + y);
    lemma_lower_plain(x, "quadratwurzel"@, y);
    lemma_pairs_word(x, "quadratwurzel"@, y, "sqrt"@, math_words(), 4);
}

proof fn lemma_before_wurzel()
    ensures
        forall|j: int| 0 <= j < 5 ==> never_inside("wurzel"@, #[trigger] math_words()[j].0),
{
    reveal_strlit("kreiszahl");
    reveal_strlit("pi");
    reveal_strlit("eulersche zahl");
    reveal_strlit("euler");
    reveal_strlit("quadratwurzel");
    reveal_strlit("wurzel");
    reveal_strlit("square root");
    reveal_strlit("cosinus");
    reveal_strlit("sinus");
    reveal_strlit("tangens");
    reveal_strlit("geteilt durch");
    reveal_strlit("durch");
    reveal_strlit("div");
    reveal_strlit("mal");
    reveal_strlit("plus");
    reveal_strlit("und");
    reveal_strlit("minus");
    reveal_strlit("weniger");
    reveal_strlit("hoch");
    reveal_strlit("power");
    assert forall|j: int| 0 <= j < 5 implies never_inside("wurzel"@, #[trigger] math_words()[j].0) by {
        if j == 0 {
            assert(never_inside("wurzel"@, math_words()[0].0));
        } else if j == 1 {
            assert(never_inside("wurzel"@, math_words()[1].0));
        } else if j == 2 {
            assert(never_inside("wurzel"@, math_words()[2].0));
        } else if j == 3 {
            assert(never_inside("wurzel"@, math_words()[3].0));
        } else if j == 4 {
            assert(never_inside("wurzel"@, math_words()[4].0));
        }
    }
}

proof fn lemma_after_wurzel()
    ensures
        forall|j: int| 5 < j < 20 ==> never_inside("sqrt"@, #[trigger] math_words()[j].0),
{
    reveal_strlit("kreiszahl");
    reveal_strlit("pi");
    reveal_strlit("eulersche zahl");
    reveal_strlit("euler");
    reveal_strlit("quadratwurzel");
    reveal_strlit("wurzel");
    reveal_strlit("square root");
    reveal_strlit("cosinus");
    reveal_strlit("sinus");
    reveal_strlit("tangens");
    reveal_strlit("geteilt durch");
    reveal_strlit("durch");
    reveal_strlit("div");
    reveal_strlit("mal");
    reveal_strlit("plus");
    reveal_strlit("und");
    reveal_strlit("minus");
    reveal_strlit("weniger");
    reveal_strlit("hoch");
    reveal_strlit("power");
    reveal_strlit("sqrt");
    assert forall|j: int| 5 < j < 20 implies never_inside("sqrt"@, #[trigger] math_words()[j].0) by {
        if j == 6 {
            assert(never_inside("sqrt"@, math_words()[6].0));
        } else if j == 7 {
            assert(never_inside("sqrt"@, math_words()[7].0));
        } else if j == 8 {
            assert(never_inside("sqrt"@, math_words()[8].0));
        } else if j == 9 {
            assert(never_inside("sqrt"@, math_words()[9].0));
        } else if j == 10 {
            assert(never_inside("sqrt"@, math_words()[10].0));
        } else if j == 11 {
            assert(never_inside("sqrt"@, math_words()[11].0));
        } else if j == 12 {
            assert(never_inside("sqrt"@, math_words()[12].0));
        } else if j == 13 {
            assert(never_inside("sqrt"@, math_words()[13].0));
        } else if j == 14 {
            assert(never_inside("sqrt"@, math_words()[14].0));
        } else if j == 15 {
            assert(never_inside("sqrt"@, math_words()[15].0));
        } else if j == 16 {
            assert(never_inside("sqrt"@, math_words()[16].0));
        } else if j == 17 {
            assert(never_inside("sqrt"@, math_words()[17].0));
        } else if j == 18 {
            assert(never_inside("sqrt"@, math_words()[18].0));
        } else if j == 19 {
            assert(never_inside("sqrt"@, math_words()[19].0));
        }
    }
}

proof fn lemma_fword_wurzel(x: Seq<char>, y: Seq<char>)
    requires
        forall|i: int| 0 <= i < x.len() ==> is_ascii_digit(#[trigger] x[i]),
        forall|i: int| 0 <= i < y.len() ==> is_ascii_digit(#[trigger] y[i]),
    ensures
        normalize_words(x + " wurzel "@ + y) == x + " sqrt "@ + y,
{
    reveal_strlit(" ");
    reveal_strlit("wurzel");
    reveal_strlit("sqrt");
    reveal_strlit(" wurzel ");
    reveal_strlit(" sqrt ");
    lemma_before_wurzel();
    lemma_after_wurzel();
    lemma_math_words_like();
    assert(plain_lower("wurzel"@));
    assert(math_words()[5] == ("wurzel"@, "sqrt"@));
    assert(x + " wurzel "@ + y =~= x + " "@ + "wurzel"@ + " "@ + y);
    assert(x + " sqrt "@ + y =~= x + " "@ + "sqrt"@ + " "@ + y);
    lemma_lower_plain(x, "wurzel"@, y);
    lemma_pairs_word(x, "wurzel"@, y, "sqrt"@, math_words(), 5);
}

proof fn lemma_before_square_root()
    ensures
        forall|j: int| 0 <= j < 6 ==> never_inside("square root"@, #[trigger] math_words()[j].0),
{
    reveal_strlit("kreiszahl");
    reveal_strlit("pi");
    reveal_strlit("eulersche zahl");
    reveal_strlit("euler");
    reveal_strlit("quadratwurzel");
    reveal_strlit("wurzel");
    reveal_strlit("square root");
    reveal_strlit("cosinus");
    reveal_strlit("sinus");
    reveal_strlit("tangens");
    reveal_strlit("geteilt durch");
    reveal_strlit("durch");
    reveal_strlit("div");
    reveal_strlit("mal");
    reveal_strlit("plus");
    reveal_strlit("und");
    reveal_strlit("minus");
    reveal_strlit("weniger");
    reveal_strlit("hoch");
    reveal_strlit("power");
    assert forall|j: int| 0 <= j < 6 implies never_inside("square root"@, #[trigger] math_words()[j].0) by {
        if j == 0 {
            assert(never_inside("square root"@, math_words()[0].0));
        } else if j == 1 {
            assert(never_inside("square root"@, math_words()[1].0));
        } else if j == 2 {
            assert(never_inside("square root"@, math_words()[2].0));
        } else if j == 3 {
            assert(never_inside("square root"@, math_words()[3].0));
        } else if j == 4 {
            assert(never_inside("square root"@, math_words()[4].0));
        } else if j == 5 {
            assert(never_inside("square root"@, math_words()[5].0));
        }
    }
}

proof fn lemma_after_square_root()
    ensures
        forall|j: int| 6 < j < 20 ==> never_inside("sqrt"@, #[trigger] math_words()[j].0),
{
    reveal_strlit("kreiszahl");
    reveal_strlit("pi");
    reveal_strlit("eulersche zahl");
    reveal_strlit("euler");
    reveal_strlit("quadratwurzel");
    reveal_strlit("wurzel");
    reveal_strlit("square root");
    reveal_strlit("cosinus");
    reveal_strlit("sinus");
    reveal_strlit("tangens");
    reveal_strlit("geteilt durch");
    reveal_strlit("durch");
    reveal_strlit("div");
    reveal_strlit("mal");
    reveal_strlit("plus");
    reveal_strlit("und");
    reveal_strlit("minus");
    reveal_strlit("weniger");
    reveal_strlit("hoch");
    reveal_strlit("power");
    reveal_strlit("sqrt");
    assert forall|j: int| 6 < j < 20 implies never_inside("sqrt"@, #[trigger] math_words()[j].0) by {
        if j == 7 {
            assert(never_inside("sqrt"@, math_words()[7].0));
        } else if j == 8 {
            assert(never_inside("sqrt"@, math_words()[8].0));
        } else if j == 9 {
            assert(never_inside("sqrt"@, math_words()[9].0));
        } else if j == 10 {
            assert(never_inside("sqrt"@, math_words()[10].0));
        } else if j == 11 {
            assert(never_inside("sqrt"@, math_words()[11].0));
        } else if j == 12 {
            assert(never_inside("sqrt"@, math_words()[12].0));
        } else if j == 13 {
            assert(never_inside("sqrt"@, math_words()[13].0));
        } else if j == 14 {
            assert(never_inside("sqrt"@, math_words()[14].0));
        } else if j == 15 {
            assert(never_inside("sqrt"@, math_words()[15].0));
        } else if j == 16 {
            assert(never_inside("sqrt"@, math_words()[16].0));
        } else if j == 17 {
            assert(never_inside("sqrt"@, math_words()[17].0));
        } else if j == 18 {
            assert(never_inside("sqrt"@, math_words()[18].0));
        } else if j == 19 {
            assert(never_inside("sqrt"@, math_words()[19].0));
        }
    }
}

proof fn lemma_fword_square_root(x: Seq<char>, y: Seq<char>)
    requires
        forall|i: int| 0 <= i < x.len() ==> is_ascii_digit(#[trigger] x[i]),
        forall|i: int| 0 <= i < y.len() ==> is_ascii_digit(#[trigger] y[i]),
    ensures
        normalize_words(x + " square root "@ + y) == x + " sqrt "@ + y,
{
    reveal_strlit(" ");
    reveal_strlit("square root");
    reveal_strlit("sqrt");
    reveal_strlit(" square root ");
    reveal_strlit(" sqrt ");
    lemma_before_square_root();
    lemma_after_square_root();
    lemma_math_words_like();
    assert(plain_lower("square root"@));
    assert(math_words()[6] == ("square root"@, "sqrt"@));
    assert(x + " square root "@ + y =~= x + " "@ + "square root"@ + " "@ + y);
    assert(x + " sqrt "@ + y =~= x + " "@ + "sqrt"@ + " "@ + y);
    lemma_lower_plain(x, "square root"@, y);
    lemma_pairs_word(x, "square root"@, y, "sqrt"@, math_words(), 6);
}

proof fn lemma_before_cosinus()
    ensures
        forall|j: int| 0 <= j < 7 ==> never_inside("cosinus"@, #[trigger] math_words()[j].0),
{
    reveal_strlit("kreiszahl");
    reveal_strlit("pi");
    reveal_strlit("eulersche zahl");
    reveal_strlit("euler");
    reveal_strlit("quadratwurzel");
    reveal_strlit("wurzel");
    reveal_strlit("square root");
    reveal_strlit("cosinus");
    reveal_strlit("sinus");
    reveal_strlit("tangens");
    reveal_strlit("geteilt durch");
    reveal_strlit("durch");
    reveal_strlit("div");
    reveal_strlit("mal");
    reveal_strlit("plus");
    reveal_strlit("und");
    reveal_strlit("minus");
    reveal_strlit("weniger");
    reveal_strlit("hoch");
    reveal_strlit("power");
    assert forall|j: int| 0 <= j < 7 implies never_inside("cosinus"@, #[trigger] math_words()[j].0) by {
        if j == 0 {
            assert(never_inside("cosinus"@, math_words()[0].0));
        } else if j == 1 {
            assert(never_inside("cosinus"@, math_words()[1].0));
        } else if j == 2 {
            assert(never_inside("cosinus"@, math_words()[2].0));
        } else if j == 3 {
            assert(never_inside("cosinus"@, math_words()[3].0));
        } else if j == 4 {
            assert(never_inside("cosinus"@, math_words()[4].0));
        } else if j == 5 {
            assert(never_inside("cosinus"@, math_words()[5].0));
        } else if j == 6 {
            assert(never_inside("cosinus"@, math_words()[6].0));
        }
    }
}

proof fn lemma_after_cosinus()
    ensures
        forall|j: int| 7 < j < 20 ==> never_inside("cos"@, #[trigger] math_words()[j].0),
{
    reveal_strlit("kreiszahl");
    reveal_strlit("pi");
    reveal_strlit("eulersche zahl");
    reveal_strlit("euler");
    reveal_strlit("quadratwurzel");
    reveal_strlit("wurzel");
    reveal_strlit("square root");
    reveal_strlit("cosinus");
    reveal_strlit("sinus");
    reveal_strlit("tangens");
    reveal_strlit("geteilt durch");
    reveal_strlit("durch");
    reveal_strlit("div");
    reveal_strlit("mal");
    reveal_strlit("plus");
    reveal_strlit("und");
    reveal_strlit("minus");
    reveal_strlit("weniger");
    reveal_strlit("hoch");
    reveal_strlit("power");
    reveal_strlit("cos");
    assert forall|j: int| 7 < j < 20 implies never_inside("cos"@, #[trigger] math_words()[j].0) by {
        if j == 8 {
            assert(never_inside("cos"@, math_words()[8].0));
        } else if j == 9 {
            assert(never_inside("cos"@, math_words()[9].0));
        } else if j == 10 {
            assert(never_inside("cos"@, math_words()[10].0));
        } else if j == 11 {
            assert(never_inside("cos"@, math_words()[11].0));
        } else if j == 12 {
            assert(never_inside("cos"@, math_words()[12].0));
        } else if j == 13 {
            assert(never_inside("cos"@, math_words()[13].0));
        } else if j == 14 {
            assert(never_inside("cos"@, math_words()[14].0));
        } else if j == 15 {
            assert(never_inside("cos"@, math_words()[15].0));
        } else if j == 16 {
            assert(never_inside("cos"@, math_words()[16].0));
        } else if j == 17 {
            assert(never_inside("cos"@, math_words()[17].0));
        } else if j == 18 {
            assert(never_inside("cos"@, math_words()[18].0));
        } else if j == 19 {
            assert(never_inside("cos"@, math_words()[19].0));
        }
    }
}

proof fn lemma_fword_cosinus(x: Seq<char>, y: Seq<char>)
    requires
        forall|i: int| 0 <= i < x.len() ==> is_ascii_digit(#[trigger] x[i]),
        forall|i: int| 0 <= i < y.len() ==> is_ascii_digit(#[trigger] y[i]),
    ensures
        normalize_words(x + " cosinus "@ + y) == x + " cos "@ + y,
{
    reveal_strlit(" ");
    reveal_strlit("cosinus");
    reveal_strlit("cos");
    reveal_strlit(" cosinus ");
    reveal_strlit(" cos ");
    lemma_before_cosinus();
    lemma_after_cosinus();
    lemma_math_words_like();
    assert(plain_lower("cosinus"@));
    assert(math_words()[7] == ("cosinus"@, "cos"@));
    assert(x + " cosinus "@ + y =~= x + " "@ + "cosinus"@ + " "@ + y);
    assert(x + " cos "@ + y =~= x + " "@ + "cos"@ + " "@ + y);
    lemma_lower_plain(x, "cosinus"@, y);
    lemma_pairs_word(x, "cosinus"@, y, "cos"@, math_words(), 7);
}

proof fn lemma_before_sinus()
    ensures
        forall|j: int| 0 <= j < 8 ==> never_inside("sinus"@, #[trigger] math_words()[j].0),
{
    reveal_strlit("kreiszahl");
    reveal_strlit("pi");
    reveal_strlit("eulersche zahl");
    reveal_strlit("euler");
    reveal_strlit("quadratwurzel");
    reveal_strlit("wurzel");
    reveal_strlit("square root");
    reveal_strlit("cosinus");
    reveal_strlit("sinus");
    reveal_strlit("tangens");
    reveal_strlit("geteilt durch");
    reveal_strlit("durch");
    reveal_strlit("div");
    reveal_strlit("mal");
    reveal_strlit("plus");
    reveal_strlit("und");
    reveal_strlit("minus");
    reveal_strlit("weniger");
    reveal_strlit("hoch");
    reveal_strlit("power");
    assert forall|j: int| 0 <= j < 8 implies never_inside("sinus"@, #[trigger] math_words()[j].0) by {
        if j == 0 {
            assert(never_inside("sinus"@, math_words()[0].0));
        } else if j == 1 {
            assert(never_inside("sinus"@, math_words()[1].0));
        } else if j == 2 {
            assert(never_inside("sinus"@, math_words()[2].0));
        } else if j == 3 {
            assert(never_inside("sinus"@, math_words()[3].0));
        } else if j == 4 {
            assert(never_inside("sinus"@, math_words()[4].0));
        } else if j == 5 {
            assert(never_inside("sinus"@, math_words()[5].0));
        } else if j == 6 {
            assert(never_inside("sinus"@, math_words()[6].0));
        } else if j == 7 {
            assert(never_inside("sinus"@, math_words()[7].0));
        }
    }
}

proof fn lemma_after_sinus()
    ensures
        forall|j: int| 8 < j < 20 ==> never_inside("sin"@, #[trigger] math_words()[j].0),
{
    reveal_strlit("kreiszahl");
    reveal_strlit("pi");
    reveal_strlit("eulersche zahl");
    reveal_strlit("euler");
    reveal_strlit("quadratwurzel");
    reveal_strlit("wurzel");
    reveal_strlit("square root");
    reveal_strlit("cosinus");
    reveal_strlit("sinus");
    reveal_strlit("tangens");
    reveal_strlit("geteilt durch");
    reveal_strlit("durch");
    reveal_strlit("div");
    reveal_strlit("mal");
    reveal_strlit("plus");
    reveal_strlit("und");
    reveal_strlit("minus");
    reveal_strlit("weniger");
    reveal_strlit("hoch");
    reveal_strlit("power");
    reveal_strlit("sin");
    assert forall|j: int| 8 < j < 20 implies never_inside("sin"@, #[trigger] math_words()[j].0) by {
        if j == 9 {
            assert(never_inside("sin"@, math_words()[9].0));
        } else if j == 10 {
            assert(never_inside("sin"@, math_words()[10].0));
        } else if j == 11 {
            assert(never_inside("sin"@, math_words()[11].0));
        } else if j == 12 {
            assert(never_inside("sin"@, math_words()[12].0));
        } else if j == 13 {
            assert(never_inside("sin"@, math_words()[13].0));
        } else if j == 14 {
            assert(never_inside("sin"@, math_words()[14].0));
        } else if j == 15 {
            assert(never_inside("sin"@, math_words()[15].0));
        } else if j == 16 {
            assert(never_inside("sin"@, math_words()[16].0));
        } else if j == 17 {
            assert(never_inside("sin"@, math_words()[17].0));
        } else if j == 18 {
            assert(never_inside("sin"@, math_words()[18].0));
        } else if j == 19 {
            assert(never_inside("sin"@, math_words()[19].0));
        }
    }
}

proof fn lemma_fword_sinus(x: Seq<char>, y: Seq<char>)
    requires
        forall|i: int| 0 <= i < x.len() ==> is_ascii_digit(#[trigger] x[i]),
        forall|i: int| 0 <= i < y.len() ==> is_ascii_digit(#[trigger] y[i]),
    ensures
        normalize_words(x + " sinus "@ + y) == x + " sin "@ + y,
{
    reveal_strlit(" ");
    reveal_strlit("sinus");
    reveal_strlit("sin");
    reveal_strlit(" sinus ");
    reveal_strlit(" sin ");
    lemma_before_sinus();
    lemma_after_sinus();
    lemma_math_words_like();
    assert(plain_lower("sinus"@));
    assert(math_words()[8] == ("sinus"@, "sin"@));
    assert(x + " sinus "@ + y =~= x + " "@ + "sinus"@ + " "@ + y);
    assert(x + " sin "@ + y =~= x + " "@ + "sin"@ + " "@ + y);
    lemma_lower_plain(x, "sinus"@, y);
    lemma_pairs_word(x, "sinus"@, y, "sin"@, math_words(), 8);
}

proof fn lemma_before_tangens()
    ensures
        forall|j: int| 0 <= j < 9 ==> never_inside("tangens"@, #[trigger] math_words()[j].0),
{
    reveal_strlit("kreiszahl");
    reveal_strlit("pi");
    reveal_strlit("eulersche zahl");
    reveal_strlit("euler");
    reveal_strlit("quadratwurzel");
    reveal_strlit("wurzel");
    reveal_strlit("square root");
    reveal_strlit("cosinus");
    reveal_strlit("sinus");
    reveal_strlit("tangens");
    reveal_strlit("geteilt durch");
    reveal_strlit("durch");
    reveal_strlit("div");
    reveal_strlit("mal");
    reveal_strlit("plus");
    reveal_strlit("und");
    reveal_strlit("minus");
    reveal_strlit("weniger");
    reveal_strlit("hoch");
    reveal_strlit("power");
    assert forall|j: int| 0 <= j < 9 implies never_inside("tangens"@, #[trigger] math_words()[j].0) by {
        if j == 0 {
            assert(never_inside("tangens"@, math_words()[0].0));
        } else if j == 1 {
            assert(never_inside("tangens"@, math_words()[1].0));
        } else if j == 2 {
            assert(never_inside("tangens"@, math_words()[2].0));
        } else if j == 3 {
            assert(never_inside("tangens"@, math_words()[3].0));
        } else if j == 4 {
            assert(never_inside("tangens"@, math_words()[4].0));
        } else if j == 5 {
            assert(never_inside("tangens"@, math_words()[5].0));
        } else if j == 6 {
            assert(never_inside("tangens"@, math_words()[6].0));
        } else if j == 7 {
            assert(never_inside("tangens"@, math_words()[7].0));
        } else if j == 8 {
            assert(never_inside("tangens"@, math_words()[8].0));
        }
    }
}

proof fn lemma_after_tangens()
    ensures
        forall|j: int| 9 < j < 20 ==> never_inside("tan"@, #[trigger] math_words()[j].0),
{
    reveal_strlit("kreiszahl");
    reveal_strlit("pi");
    reveal_strlit("eulersche zahl");
    reveal_strlit("euler");
    reveal_strlit("quadratwurzel");
    reveal_strlit("wurzel");
    reveal_strlit("square root");
    reveal_strlit("cosinus");
    reveal_strlit("sinus");
    reveal_strlit("tangens");
    reveal_strlit("geteilt durch");
    reveal_strlit("durch");
    reveal_strlit("div");
    reveal_strlit("mal");
    reveal_strlit("plus");
    reveal_strlit("und");
    reveal_strlit("minus");
    reveal_strlit("weniger");
    reveal_strlit("hoch");
    reveal_strlit("power");
    reveal_strlit("tan");
    assert forall|j: int| 9 < j < 20 implies never_inside("tan"@, #[trigger] math_words()[j].0) by {
        if j == 10 {
            assert(never_inside("tan"@, math_words()[10].0));
        } else if j == 11 {
            assert(never_inside("tan"@, math_words()[11].0));
        } else if j == 12 {
            assert(never_inside("tan"@, math_words()[12].0));
        } else if j == 13 {
            assert(never_inside("tan"@, math_words()[13].0));
        } else if j == 14 {
            assert(never_inside("tan"@, math_words()[14].0));
        } else if j == 15 {
            assert(never_inside("tan"@, math_words()[15].0));
        } else if j == 16 {
            assert(never_inside("tan"@, math_words()[16].0));
        } else if j == 17 {
            assert(never_inside("tan"@, math_words()[17].0));
        } else if j == 18 {
            assert(never_inside("tan"@, math_words()[18].0));
        } else if j == 19 {
            assert(never_inside("tan"@, math_words()[19].0));
        }
    }
}

proof fn lemma_fword_tangens(x: Seq<char>, y: Seq<char>)
    requires
        forall|i: int| 0 <= i < x.len() ==> is_ascii_digit(#[trigger] x[i]),
        forall|i: int| 0 <= i < y.len() ==> is_ascii_digit(#[trigger] y[i]),
    ensures
        normalize_words(x + " tangens "@ + y) == x + " tan "@ + y,
{
    reveal_strlit(" ");
    reveal_strlit("tangens");
    reveal_strlit("tan");
    reveal_strlit(" tangens ");
    reveal_strlit(" tan ");
    lemma_before_tangens();
    lemma_after_tangens();
    lemma_math_words_like();
    assert(plain_lower("tangens"@));
    assert(math_words()[9] == ("tangens"@, "tan"@));
    assert(x + " tangens "@ + y =~= x + " "@ + "tangens"@ + " "@ + y);
    assert(x + " tan "@ + y =~= x + " "@ + "tan"@ + " "@ + y);
    lemma_lower_plain(x, "tangens"@, y);
    lemma_pairs_word(x, "tangens"@, y, "tan"@, math_words(), 9);
}

/// The function words of a typed expression become the functions' names
/// before the calls are rewritten: `quadratwurzel`, `wurzel` and `square
/// root` give `sqrt`, `cosinus` gives `cos`, `sinus` gives `sin` and
/// `tangens` gives `tan`.
pub proof fn lemma_math_word_functions(x: Seq<char>, y: Seq<char>)
    requires
        forall|i: int| 0 <= i < x.len() ==> is_ascii_digit(#[trigger] x[i]),
        forall|i: int| 0 <= i < y.len() ==> is_ascii_digit(#[trigger] y[i]),
    ensures
        normalize_words(x + " quadratwurzel "@ + y) == x + " sqrt "@ + y,
        normalize_words(x + " wurzel "@ + y) == x + " sqrt "@ + y,
        normalize_words(x + " square root "@ + y) == x + " sqrt "@ + y,
        normalize_words(x + " cosinus "@ + y) == x + " cos "@ + y,
        normalize_words(x + " sinus "@ + y) == x + " sin "@ + y,
        normalize_words(x + " tangens "@ + y) == x + " tan "@ + y,
{
    lemma_fword_quadratwurzel(x, y);
    lemma_fword_wurzel(x, y);
    lemma_fword_square_root(x, y);
    lemma_fword_cosinus(x, y);
    lemma_fword_sinus(x, y);
    lemma_fword_tangens(x, y);
}

} // verus!
