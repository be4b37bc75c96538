//! Character-sequence helpers with exact specifications: whitespace,
//! trimming, prefixes, replacement and decimal/hex rendering.
use vstd::prelude::*;
use vstd::std_specs::iter::IteratorSpec;

verus! {

/// The Unicode `White_Space` property, which is what `char::is_whitespace` tests.
pub open spec fn is_ws(c: char) -> bool {
    let v = c as u32;
    (9 <= v <= 13) || v == 32 || v == 0x85 || v == 0xa0 || v == 0x1680 || (0x2000 <= v
        <= 0x200a) || v == 0x2028 || v == 0x2029 || v == 0x202f || v == 0x205f || v == 0x3000
}

/// Whether `c` has the Unicode `White_Space` property.
pub fn is_whitespace(c: char) -> (r: bool)
    ensures
        r == is_ws(c),
{
    let v = c as u32;
    (9 <= v && v <= 13) || v == 32 || v == 0x85 || v == 0xa0 || v == 0x1680 || (0x2000 <= v && v
        <= 0x200a) || v == 0x2028 || v == 0x2029 || v == 0x202f || v == 0x205f || v == 0x3000
}

pub open spec fn is_ascii_digit(c: char) -> bool {
    '0' <= c <= '9'
}

pub open spec fn is_ascii_alpha(c: char) -> bool {
    ('a' <= c <= 'z') || ('A' <= c <= 'Z')
}

pub open spec fn is_ascii_alnum(c: char) -> bool {
    is_ascii_digit(c) || is_ascii_alpha(c)
}

pub open spec fn is_ascii_hex(c: char) -> bool {
    is_ascii_digit(c) || ('a' <= c <= 'f') || ('A' <= c <= 'F')
}

/// The text with leading whitespace removed (`str::trim_start`).
pub open spec fn trim_start(s: Seq<char>) -> Seq<char>
    decreases s.len(),
{
    if s.len() > 0 && is_ws(s[0]) {
        trim_start(s.drop_first())
    } else {
        s
    }
}

/// The text with trailing whitespace removed (`str::trim_end`).
pub open spec fn trim_end(s: Seq<char>) -> Seq<char>
    decreases s.len(),
{
    if s.len() > 0 && is_ws(s.last()) {
        trim_end(s.drop_last())
    } else {
        s
    }
}

/// The text with leading and trailing whitespace removed (`str::trim`).
pub open spec fn trim(s: Seq<char>) -> Seq<char> {
    trim_end(trim_start(s))
}

/// `p` is a prefix of `s`.
pub open spec fn starts_with(s: Seq<char>, p: Seq<char>) -> bool {
    p.len() <= s.len() && s.subrange(0, p.len() as int) == p
}

/// `p` occurs in `s` at position `i`.
pub open spec fn occurs_at(s: Seq<char>, p: Seq<char>, i: int) -> bool {
    0 <= i && i + p.len() <= s.len() && s.subrange(i, i + p.len()) == p
}

/// `p` occurs somewhere in `s`.
pub open spec fn contains(s: Seq<char>, p: Seq<char>) -> bool {
    exists|i: int| occurs_at(s, p, i)
}

/// Every non-overlapping occurrence of `pat` in `s`, scanned from the left,
/// replaced by `rep` (`str::replace` with a non-empty pattern).
pub open spec fn replace_all(s: Seq<char>, pat: Seq<char>, rep: Seq<char>) -> Seq<char>
    decreases s.len(),
{
    if pat.len() == 0 || s.len() < pat.len() {
        s
    } else if s.subrange(0, pat.len() as int) == pat {
        rep + replace_all(s.skip(pat.len() as int), pat, rep)
    } else {
        seq![s[0]] + replace_all(s.drop_first(), pat, rep)
    }
}

/// Decimal digits of a natural number, most significant first, no leading zeros.
pub open spec fn decimal(n: nat) -> Seq<char>
    decreases n,
{
    if n < 10 {
        seq![digit_char(n)]
    } else {
        decimal(n / 10).push(digit_char(n % 10))
    }
}

pub open spec fn digit_char(d: nat) -> char {
    if d == 0 { '0' }
    else if d == 1 { '1' }
    else if d == 2 { '2' }
    else if d == 3 { '3' }
    else if d == 4 { '4' }
    else if d == 5 { '5' }
    else if d == 6 { '6' }
    else if d == 7 { '7' }
    else if d == 8 { '8' }
    else { '9' }
}

/// The characters of `s`.
pub(crate) fn chars_of(s: &str) -> (r: Vec<char>)
    ensures
        r@ == s@,
{
    broadcast use vstd::string::axiom_spec_iter, vstd::string::next_postcondition;

    let mut it = s.chars();
    let mut r: Vec<char> = Vec::new();
    loop
        invariant
            r@ + it.remaining() == s@,
            it.decrease() is Some,
        ensures
            r@ == s@,
        decreases it.decrease()->0,
    {
        let ghost before = it.remaining();
        match it.next() {
            Some(c) => {
                r.push(c);
                assert(r@ + it.remaining() =~= s@) by {
                    assert(before =~= seq![c] + it.remaining());
                }
            },
            None => {
                assert(r@ =~= s@) by {
                    assert(it.remaining().len() == 0);
                }
                break;
            },
        }
    }
    r
}

/// A `String` holding exactly the characters `v`.
#[verifier::external_body]
pub(crate) fn string_of(v: &[char]) -> (r: String)
    ensures
        r@ == v@,
{
    v.iter().collect()
}

/// A copy of `v[from..to]`.
pub fn sub_vec(v: &Vec<char>, from: usize, to: usize) -> (r: Vec<char>)
    requires
        from <= to <= v.len(),
    ensures
        r@ == v@.subrange(from as int, to as int),
{
    let mut r: Vec<char> = Vec::new();
    let mut i = from;
    while i < to
        invariant
            from <= i <= to <= v.len(),
            r@ == v@.subrange(from as int, i as int),
        decreases to - i,
    {
        r.push(v[i]);
        i = i + 1;
    }
    r
}

/// `a` followed by `b`.
pub fn concat(a: &Vec<char>, b: &Vec<char>) -> (r: Vec<char>)
    ensures
        r@ == a@ + b@,
{
    let mut r = a.clone();
    let mut i: usize = 0;
    while i < b.len()
        invariant
            i <= b.len(),
            r@ == a@ + b@.subrange(0, i as int),
        decreases b.len() - i,
    {
        r.push(b[i]);
        i = i + 1;
    }
    r
}

/// Appends `b` to `a`.
pub fn append_chars(a: &mut Vec<char>, b: &Vec<char>)
    ensures
        final(a)@ == old(a)@ + b@,
{
    let mut i: usize = 0;
    while i < b.len()
        invariant
            i <= b.len(),
            a@ == old(a)@ + b@.subrange(0, i as int),
        decreases b.len() - i,
    {
        a.push(b[i]);
        i = i + 1;
    }
}

/// Appends the characters of `s` to `a`.
pub fn append_str(a: &mut Vec<char>, s: &str)
    ensures
        final(a)@ == old(a)@ + s@,
{
    let b = chars_of(s);
    append_chars(a, &b);
}

/// Position of the first character that is not whitespace (`v.len()` if none).
pub fn trim_start_index(v: &Vec<char>) -> (i: usize)
    ensures
        i <= v.len(),
        trim_start(v@) == v@.skip(i as int),
{
    let mut i: usize = 0;
    assert(v@.skip(0) =~= v@);
    while i < v.len() && is_whitespace(v[i])
        invariant
            i <= v.len(),
            trim_start(v@) == trim_start(v@.skip(i as int)),
        decreases v.len() - i,
    {
        assert(v@.skip(i as int).drop_first() =~= v@.skip(i + 1));
        i = i + 1;
    }
    assert(v@.skip(i as int).len() == 0 || !is_ws(v@.skip(i as int)[0]));
    i
}

/// One past the last character that is not whitespace, looking only at `v[..to]`.
pub fn trim_end_index(v: &Vec<char>, to: usize) -> (j: usize)
    requires
        to <= v.len(),
    ensures
        j <= to,
        trim_end(v@.subrange(0, to as int)) == v@.subrange(0, j as int),
{
    let mut j = to;
    while j > 0 && is_whitespace(v[j - 1])
        invariant
            j <= to <= v.len(),
            trim_end(v@.subrange(0, to as int)) == trim_end(v@.subrange(0, j as int)),
        decreases j,
    {
        assert(v@.subrange(0, j as int).drop_last() =~= v@.subrange(0, j - 1));
        j = j - 1;
    }
    j
}

/// `v` without leading whitespace.
pub fn trim_start_chars(v: &Vec<char>) -> (r: Vec<char>)
    ensures
        r@ == trim_start(v@),
{
    let i = trim_start_index(v);
    sub_vec(v, i, v.len())
}

/// `v` without leading or trailing whitespace.
pub fn trim_chars(v: &Vec<char>) -> (r: Vec<char>)
    ensures
        r@ == trim(v@),
{
    let t = trim_start_chars(v);
    let j = trim_end_index(&t, t.len());
    assert(t@.subrange(0, t.len() as int) =~= t@);
    sub_vec(&t, 0, j)
}

/// Whether `p` is a prefix of `s`.
pub fn starts_with_chars(s: &Vec<char>, p: &Vec<char>) -> (r: bool)
    ensures
        r == starts_with(s@, p@),
{
    if p.len() > s.len() {
        return false;
    }
    let mut i: usize = 0;
    while i < p.len()
        invariant
            p.len() <= s.len(),
            i <= p.len(),
            s@.subrange(0, i as int) == p@.subrange(0, i as int),
        decreases p.len() - i,
    {
        if s[i] != p[i] {
            assert(s@.subrange(0, p.len() as int)[i as int] != p@[i as int]);
            return false;
        }
        assert(s@.subrange(0, i + 1) =~= s@.subrange(0, i as int).push(s@[i as int]));
        assert(p@.subrange(0, i + 1) =~= p@.subrange(0, i as int).push(p@[i as int]));
        i = i + 1;
    }
    assert(p@.subrange(0, p.len() as int) =~= p@);
    true
}

/// Whether the literal `p` is a prefix of `s`.
pub fn starts_with_str(s: &Vec<char>, p: &str) -> (r: bool)
    ensures
        r == starts_with(s@, p@),
{
    let pv = chars_of(p);
    starts_with_chars(s, &pv)
}

/// Whether `s` equals the literal `p`.
pub fn eq_str(s: &Vec<char>, p: &str) -> (r: bool)
    ensures
        r == (s@ == p@),
{
    let pv = chars_of(p);
    eq_chars(s, &pv)
}

/// Whether the two sequences are equal.
pub fn eq_chars(a: &Vec<char>, b: &Vec<char>) -> (r: bool)
    ensures
        r == (a@ == b@),
{
    if a.len() != b.len() {
        return false;
    }
    let r = starts_with_chars(a, b);
    proof {
        if r {
            assert(a@ =~= a@.subrange(0, b.len() as int));
        } else {
            assert(a@.subrange(0, b.len() as int) =~= a@);
        }
    }
    r
}

/// Whether `p` occurs in `s` at position `i`.
pub fn occurs_at_chars(s: &Vec<char>, p: &Vec<char>, i: usize) -> (r: bool)
    requires
        i <= s.len(),
    ensures
        r == occurs_at(s@, p@, i as int),
{
    if p.len() > s.len() - i {
        return false;
    }
    let mut k: usize = 0;
    while k < p.len()
        invariant
            i + p.len() <= s.len(),
            k <= p.len(),
            s@.subrange(i as int, i + k) == p@.subrange(0, k as int),
        decreases p.len() - k,
    {
        if s[i + k] != p[k] {
            assert(s@.subrange(i as int, i + p.len())[k as int] != p@[k as int]);
            return false;
        }
        assert(s@.subrange(i as int, i + k + 1) =~= s@.subrange(i as int, i + k).push(
            s@[i + k],
        ));
        assert(p@.subrange(0, k + 1) =~= p@.subrange(0, k as int).push(p@[k as int]));
        k = k + 1;
    }
    assert(p@.subrange(0, p.len() as int) =~= p@);
    true
}

/// Whether `p` occurs anywhere in `s`.
pub fn contains_chars(s: &Vec<char>, p: &Vec<char>) -> (r: bool)
    ensures
        r == contains(s@, p@),
{
    if p.len() > s.len() {
        return false;
    }
    if p.len() == 0 {
        assert(s@.subrange(0, 0) =~= p@);
        assert(occurs_at(s@, p@, 0));
        return true;
    }
    let last = s.len() - p.len();
    let mut i: usize = 0;
    while i <= last
        invariant
            last == s.len() - p.len(),
            p.len() > 0,
            i <= last + 1,
            forall|j: int| 0 <= j < i ==> !occurs_at(s@, p@, j),
        decreases last + 1 - i,
    {
        if occurs_at_chars(s, p, i) {
            return true;
        }
        i = i + 1;
    }
    assert forall|j: int| !occurs_at(s@, p@, j) by {
        if 0 <= j && j + p@.len() <= s@.len() {
            assert(j < i);
        }
    }
    false
}

/// Whether the literal `p` occurs anywhere in `s`.
pub fn contains_str(s: &Vec<char>, p: &str) -> (r: bool)
    ensures
        r == contains(s@, p@),
{
    let pv = chars_of(p);
    contains_chars(s, &pv)
}

/// Whether every character of `v` is ASCII.
pub fn all_ascii_chars(v: &Vec<char>) -> (r: bool)
    ensures
        r == all_ascii(v@),
{
    let mut i: usize = 0;
    while i < v.len()
        invariant
            i <= v.len(),
            forall|j: int| 0 <= j < i ==> is_ascii(#[trigger] v@[j]),
        decreases v.len() - i,
    {
        if (v[i] as u32) >= 128 {
            return false;
        }
        i = i + 1;
    }
    true
}

/// A prefix without the pattern's first character is kept, and the pattern
/// right after it is replaced.
pub proof fn lemma_replace_after(p: Seq<char>, pat: Seq<char>, rep: Seq<char>, q: Seq<char>)
    requires
        pat.len() > 0,
        lacks(p, pat[0]),
    ensures
        replace_all(p + pat + q, pat, rep) == p + rep + replace_all(q, pat, rep),
    decreases p.len(),
{
    let s = p + pat + q;
    if p.len() == 0 {
        assert(s =~= pat + q);
        assert(s.subrange(0, pat.len() as int) =~= pat);
        assert(s.skip(pat.len() as int) =~= q);
        assert(p + rep + replace_all(q, pat, rep) =~= rep + replace_all(q, pat, rep));
    } else {
        assert(s.subrange(0, pat.len() as int)[0] == p[0]);
        assert(s.subrange(0, pat.len() as int) != pat);
        assert(lacks(p.drop_first(), pat[0])) by {
            assert forall|i: int| 0 <= i < p.drop_first().len() implies p.drop_first()[i] != pat[0] by {
                assert(p.drop_first()[i] == p[i + 1]);
            }
        }
        lemma_replace_after(p.drop_first(), pat, rep, q);
        assert(s.drop_first() =~= p.drop_first() + pat + q);
        assert(seq![s[0]] + (p.drop_first() + rep + replace_all(q, pat, rep)) =~= p + rep
            + replace_all(q, pat, rep));
    }
}

/// Where the pattern does not occur at all, replacement changes nothing.
pub proof fn lemma_replace_absent(s: Seq<char>, pat: Seq<char>, rep: Seq<char>)
    requires
        pat.len() > 0,
        !contains(s, pat),
    ensures
        replace_all(s, pat, rep) == s,
    decreases s.len(),
{
    if s.len() >= pat.len() {
        assert(!occurs_at(s, pat, 0));
        assert(s.subrange(0, pat.len() as int) != pat);
        let t = s.drop_first();
        assert(!contains(t, pat)) by {
            if contains(t, pat) {
                let i = choose|i: int| occurs_at(t, pat, i);
                assert(s.subrange(i + 1, i + 1 + pat.len()) =~= t.subrange(i, i + pat.len()));
                assert(occurs_at(s, pat, i + 1));
            }
        }
        lemma_replace_absent(t, pat, rep);
        assert(seq![s[0]] + t =~= s);
    }
}

/// Where the pattern does not occur, replacement keeps the character.
pub proof fn lemma_replace_all_nonmatch(s: Seq<char>, pat: Seq<char>, rep: Seq<char>, i: int)
    requires
        pat.len() > 0,
        0 <= i < s.len(),
        !occurs_at(s, pat, i),
    ensures
        replace_all(s.skip(i), pat, rep) == seq![s[i]] + replace_all(s.skip(i + 1), pat, rep),
{
    let t = s.skip(i);
    assert(t.drop_first() =~= s.skip(i + 1));
    if t.len() >= pat.len() {
        assert(t.subrange(0, pat.len() as int) =~= s.subrange(i, i + pat.len()));
    }
}

/// `s` with every non-overlapping occurrence of `pat` replaced by `rep`.
pub fn replace_all_chars(s: &Vec<char>, pat: &Vec<char>, rep: &Vec<char>) -> (r: Vec<char>)
    requires
        pat.len() > 0,
    ensures
        r@ == replace_all(s@, pat@, rep@),
{
    let mut r: Vec<char> = Vec::new();
    let mut i: usize = 0;
    assert(s@.skip(0) =~= s@);
    assert(r@ + replace_all(s@, pat@, rep@) =~= replace_all(s@, pat@, rep@));
    while i < s.len()
        invariant
            pat.len() > 0,
            i <= s.len(),
            replace_all(s@, pat@, rep@) == r@ + replace_all(s@.skip(i as int), pat@, rep@),
        decreases s.len() - i,
    {
        if occurs_at_chars(s, pat, i) {
            proof {
                let t = s@.skip(i as int);
                assert(t.subrange(0, pat.len() as int) =~= s@.subrange(i as int, i + pat.len()));
                assert(t.skip(pat.len() as int) =~= s@.skip(i + pat.len()));
            }
            append_chars(&mut r, rep);
            i = i + pat.len();
        } else {
            proof {
                lemma_replace_all_nonmatch(s@, pat@, rep@, i as int);
            }
            r.push(s[i]);
            i = i + 1;
        }
    }
    assert(s@.skip(i as int) =~= Seq::<char>::empty());
    r
}

/// `s` with every occurrence of the literal `pat` replaced by the literal `rep`.
pub fn replace_str(s: &Vec<char>, pat: &str, rep: &str) -> (r: Vec<char>)
    requires
        pat@.len() > 0,
    ensures
        r@ == replace_all(s@, pat@, rep@),
{
    let pv = chars_of(pat);
    let rv = chars_of(rep);
    replace_all_chars(s, &pv, &rv)
}

/// The decimal digit character of `d`.
pub fn digit_to_char(d: u64) -> (c: char)
    requires
        d < 10,
    ensures
        c == digit_char(d as nat),
{
    if d == 0 { '0' }
    else if d == 1 { '1' }
    else if d == 2 { '2' }
    else if d == 3 { '3' }
    else if d == 4 { '4' }
    else if d == 5 { '5' }
    else if d == 6 { '6' }
    else if d == 7 { '7' }
    else if d == 8 { '8' }
    else { '9' }
}

/// Decimal digits of `n`.
pub fn decimal_chars(n: u64) -> (r: Vec<char>)
    ensures
        r@ == decimal(n as nat),
    decreases n,
{
    if n < 10 {
        let mut r = Vec::new();
        r.push(digit_to_char(n));
        r
    } else {
        let mut r = decimal_chars(n / 10);
        r.push(digit_to_char(n % 10));
        r
    }
}

} // verus!

verus! {

/// What `str::to_lowercase` returns for a text: its Unicode lowercase mapping.
pub uninterp spec fn unicode_lowercase(s: Seq<char>) -> Seq<char>;

/// `c` is an ASCII character.
pub open spec fn is_ascii(c: char) -> bool {
    (c as u32) < 128
}

/// The ASCII lowercase of `c`: `A`..`Z` become `a`..`z`, anything else stays.
pub open spec fn ascii_lower(c: char) -> char {
    if 'A' <= c && c <= 'Z' {
        "abcdefghijklmnopqrstuvwxyz"@[(c as int) - ('A' as int)]
    } else {
        c
    }
}

/// The text is made only of ASCII characters.
pub open spec fn all_ascii(s: Seq<char>) -> bool {
    forall|i: int| 0 <= i < s.len() ==> is_ascii(#[trigger] s[i])
}

/// The lowercase form of a text: on ASCII text the ASCII mapping, character
/// by character; otherwise the Unicode mapping.
pub open spec fn lowercase(s: Seq<char>) -> Seq<char> {
    if all_ascii(s) {
        s.map_values(|c: char| ascii_lower(c))
    } else {
        unicode_lowercase(s)
    }
}

/// The Unicode lowercase form of `s` (`str::to_lowercase`). Its result is
/// named; the one fact stated of it is that on a text made only of ASCII
/// characters the Unicode mapping is the ASCII one, character by character
/// (`A`..`Z` to `a`..`z`, the rest unchanged).
#[verifier::external_body]
pub(crate) fn to_lowercase(s: &str) -> (r: String)
    ensures
        r@ == unicode_lowercase(s@),
        r@ == lowercase(s@),
{
    s.to_lowercase()
}

/// Number of occurrences of `c` in `s`.
pub open spec fn count_char(s: Seq<char>, c: char) -> nat
    decreases s.len(),
{
    if s.len() == 0 {
        0
    } else {
        count_char(s.drop_last(), c) + if s.last() == c {
            1nat
        } else {
            0nat
        }
    }
}

/// Whether `c` occurs in `v`.
pub fn has_char(v: &Vec<char>, c: char) -> (r: bool)
    ensures
        r == v@.contains(c),
{
    let mut i: usize = 0;
    while i < v.len()
        invariant
            i <= v.len(),
            forall|j: int| 0 <= j < i ==> v@[j] != c,
        decreases v.len() - i,
    {
        if v[i] == c {
            return true;
        }
        i = i + 1;
    }
    false
}

} // verus!

verus! {

/// Value of a string of ASCII digits.
pub open spec fn digits_value(s: Seq<char>) -> nat
    decreases s.len(),
{
    if s.len() == 0 {
        0
    } else {
        digits_value(s.drop_last()) * 10 + ((s.last() as u32) - ('0' as u32)) as nat
    }
}

pub open spec fn all_digits(s: Seq<char>) -> bool {
    forall|i: int| 0 <= i < s.len() ==> is_ascii_digit(#[trigger] s[i])
}

/// What `u32::from_str` gives: an optional `+` and at least one ASCII digit,
/// with a value that fits.
/// The digits of an unsigned number: the text without a leading `+`.
pub open spec fn unsigned_digits(s: Seq<char>) -> Seq<char> {
    if s.len() > 0 && s[0] == '+' {
        s.drop_first()
    } else {
        s
    }
}

pub open spec fn parse_u32(s: Seq<char>) -> Option<u32> {
    let d = unsigned_digits(s);
    if d.len() > 0 && all_digits(d) && digits_value(d) <= u32::MAX {
        Some(digits_value(d) as u32)
    } else {
        None
    }
}

/// Parses a decimal `u32` as `u32::from_str` does.
pub fn parse_u32_chars(s: &Vec<char>) -> (r: Option<u32>)
    ensures
        r == parse_u32(s@),
{
    let start: usize = if s.len() > 0 && s[0] == '+' {
        1
    } else {
        0
    };
    let ghost d = unsigned_digits(s@);
    assert(d =~= s@.skip(start as int));
    if start >= s.len() {
        return None;
    }
    let mut value: u64 = 0;
    let mut i = start;
    assert(s@.subrange(start as int, start as int) =~= Seq::<char>::empty());
    while i < s.len()
        invariant
            start <= i <= s.len(),
            d == unsigned_digits(s@),
            d =~= s@.skip(start as int),
            forall|k: int| start <= k < i ==> is_ascii_digit(#[trigger] s@[k]),
            value as nat == digits_value(s@.subrange(start as int, i as int)),
            value <= u32::MAX,
        decreases s.len() - i,
    {
        let c = s[i];
        if !('0' <= c && c <= '9') {
            assert(d[i - start] == c);
            assert(!all_digits(d));
            return None;
        }
        assert(s@.subrange(start as int, i + 1).drop_last() =~= s@.subrange(start as int, i as int));
        let dv = (c as u32 - '0' as u32) as u64;
        value = value * 10 + dv;
        if value > 4294967295 {
            proof {
                assert(d.subrange(0, i + 1 - start) =~= s@.subrange(start as int, i + 1));
                if all_digits(d) {
                    lemma_digits_value_mono(d, (i + 1 - start) as int);
                }
            }
            return None;
        }
        i = i + 1;
    }
    assert(s@.subrange(start as int, s.len() as int) =~= d);
    Some(value as u32)
}

/// A longer digit string never has a smaller value.
pub proof fn lemma_digits_value_mono(d: Seq<char>, k: int)
    requires
        0 <= k <= d.len(),
        all_digits(d),
    ensures
        digits_value(d.subrange(0, k)) <= digits_value(d),
    decreases d.len() - k,
{
    if k < d.len() {
        lemma_digits_value_mono(d, k + 1);
        let t = d.subrange(0, k + 1);
        assert(t.drop_last() =~= d.subrange(0, k));
        assert(is_ascii_digit(t.last()));
        assert(digits_value(t) == digits_value(d.subrange(0, k)) * 10 + ((t.last() as u32) - (
        '0' as u32)) as nat);
    } else {
        assert(d.subrange(0, k) =~= d);
    }
}

/// `s` split at every `c` (`str::split(c)`).
pub open spec fn split_char(s: Seq<char>, c: char) -> Seq<Seq<char>>
    decreases s.len(),
{
    match first_index_of(s, c, 0) {
        None => seq![s],
        Some(i) => {
            proof {
                lemma_first_index_of(s, c, 0);
            }
            seq![s.take(i)] + split_char(s.skip(i + 1), c)
        },
    }
}

/// `s` split at every `:`.
pub open spec fn split_colon(s: Seq<char>) -> Seq<Seq<char>> {
    split_char(s, ':')
}

/// First position of `c` in `s` at or after `from`.
pub open spec fn first_index_of(s: Seq<char>, c: char, from: int) -> Option<int>
    decreases s.len() - from,
{
    if from < 0 || from >= s.len() {
        None
    } else if s[from] == c {
        Some(from)
    } else {
        first_index_of(s, c, from + 1)
    }
}

/// The parts joined with `:` between them.
pub open spec fn join_colon(parts: Seq<Seq<char>>) -> Seq<char>
    decreases parts.len(),
{
    if parts.len() == 0 {
        Seq::empty()
    } else if parts.len() == 1 {
        parts[0]
    } else {
        parts[0] + seq![':'] + join_colon(parts.drop_first())
    }
}

/// A found position holds the character and lies at or after `from`.
pub proof fn lemma_first_index_of(s: Seq<char>, c: char, from: int)
    requires
        0 <= from,
    ensures
        first_index_of(s, c, from) matches Some(i) ==> from <= i < s.len() && s[i] == c,
    decreases s.len() - from,
{
    if from < s.len() && s[from] != c {
        lemma_first_index_of(s, c, from + 1);
    }
}

/// Position of the first `c` in `v` at or after `from`.
pub fn index_of_char(v: &Vec<char>, c: char, from: usize) -> (r: Option<usize>)
    ensures
        match r {
            Some(i) => first_index_of(v@, c, from as int) == Some(i as int) && from <= i < v.len()
                && v@[i as int] == c,
            None => first_index_of(v@, c, from as int) is None,
        },
{
    if from >= v.len() {
        return None;
    }
    let mut i = from;
    while i < v.len()
        invariant
            from <= i <= v.len(),
            first_index_of(v@, c, from as int) == first_index_of(v@, c, i as int),
        decreases v.len() - i,
    {
        if v[i] == c {
            return Some(i);
        }
        i = i + 1;
    }
    None
}

/// `v` split at every `:`.
pub fn split_colon_chars(v: &Vec<char>) -> (r: Vec<Vec<char>>)
    ensures
        r@.map_values(|p: Vec<char>| p@) == split_colon(v@),
        r@.len() >= 1,
{
    split_chars(v, ':')
}

/// `v` split at every `c`.
pub fn split_chars(v: &Vec<char>, c: char) -> (r: Vec<Vec<char>>)
    ensures
        r@.map_values(|p: Vec<char>| p@) == split_char(v@, c),
        r@.len() >= 1,
{
    let mut parts: Vec<Vec<char>> = Vec::new();
    let mut start: usize = 0;
    assert(v@.skip(0) =~= v@);
    loop
        invariant
            start <= v.len(),
            split_char(v@, c) == parts@.map_values(|p: Vec<char>| p@) + split_char(v@.skip(start as int), c),
        decreases v.len() - start,
    {
        let rest = sub_vec(v, start, v.len());
        assert(rest@ =~= v@.skip(start as int));
        match index_of_char(&rest, c, 0) {
            None => {
                let ghost old_parts = parts@.map_values(|p: Vec<char>| p@);
                parts.push(rest);
                assert(parts@.map_values(|p: Vec<char>| p@) =~= old_parts + split_char(v@.skip(start as int), c));
                return parts;
            },
            Some(i) => {
                let ghost old_parts = parts@.map_values(|p: Vec<char>| p@);
                let piece = sub_vec(&rest, 0, i);
                parts.push(piece);
                assert(rest@.skip(i + 1) =~= v@.skip(start + i + 1));
                assert(rest@.take(i as int) =~= piece@);
                assert(parts@.map_values(|p: Vec<char>| p@) =~= old_parts + seq![piece@]);
                start = start + i + 1;
            },
        }
    }
}

/// The parts from index `from` on, joined with `:`.
pub fn join_colon_from(parts: &Vec<Vec<char>>, from: usize) -> (r: Vec<char>)
    requires
        from <= parts.len(),
    ensures
        r@ == join_colon(parts@.map_values(|p: Vec<char>| p@).skip(from as int)),
{
    let ghost ps = parts@.map_values(|p: Vec<char>| p@);
    if from == parts.len() {
        assert(ps.skip(from as int) =~= Seq::<Seq<char>>::empty());
        return Vec::new();
    }
    let mut k = parts.len() - 1;
    let mut r = parts[k].clone();
    assert(ps.skip(k as int) =~= seq![ps[k as int]]);
    while k > from
        invariant
            from <= k < parts.len(),
            ps == parts@.map_values(|p: Vec<char>| p@),
            r@ == join_colon(ps.skip(k as int)),
        decreases k,
    {
        let mut acc = parts[k - 1].clone();
        acc.push(':');
        append_chars(&mut acc, &r);
        assert(ps.skip(k - 1).drop_first() =~= ps.skip(k as int));
        assert(ps.skip(k - 1)[0] == ps[k - 1]);
        r = acc;
        k = k - 1;
    }
    r
}

} // verus!

verus! {

/// What `usize::from_str` gives: an optional `+` and at least one ASCII
/// digit, with a value that fits.
pub open spec fn parse_usize(s: Seq<char>) -> Option<usize> {
    let d = unsigned_digits(s);
    if d.len() > 0 && all_digits(d) && digits_value(d) <= usize::MAX {
        Some(digits_value(d) as usize)
    } else {
        None
    }
}

/// Parses a decimal `usize` as `usize::from_str` does.
pub fn parse_usize_chars(s: &Vec<char>) -> (r: Option<usize>)
    ensures
        r == parse_usize(s@),
{
    let start: usize = if s.len() > 0 && s[0] == '+' {
        1
    } else {
        0
    };
    let ghost d = unsigned_digits(s@);
    assert(d =~= s@.skip(start as int));
    if start >= s.len() {
        return None;
    }
    let mut value: usize = 0;
    let mut i = start;
    assert(s@.subrange(start as int, start as int) =~= Seq::<char>::empty());
    while i < s.len()
        invariant
            start <= i <= s.len(),
            d == unsigned_digits(s@),
            d =~= s@.skip(start as int),
            forall|k: int| start <= k < i ==> is_ascii_digit(#[trigger] s@[k]),
            value as nat == digits_value(s@.subrange(start as int, i as int)),
        decreases s.len() - i,
    {
        let c = s[i];
        if !('0' <= c && c <= '9') {
            assert(d[i - start] == c);
            assert(!all_digits(d));
            return None;
        }
        assert(s@.subrange(start as int, i + 1).drop_last() =~= s@.subrange(start as int, i as int));
        let dv = (c as u32 - '0' as u32) as usize;
        let ghost next = value * 10 + dv;
        match value.checked_mul(10) {
            Some(m) => match m.checked_add(dv) {
                Some(n) => {
                    value = n;
                },
                None => {
                    proof {
                        assert(d.subrange(0, i + 1 - start) =~= s@.subrange(start as int, i + 1));
                        if all_digits(d) {
                            lemma_digits_value_mono(d, (i + 1 - start) as int);
                        }
                    }
                    return None;
                },
            },
            None => {
                proof {
                    assert(d.subrange(0, i + 1 - start) =~= s@.subrange(start as int, i + 1));
                    if all_digits(d) {
                        lemma_digits_value_mono(d, (i + 1 - start) as int);
                    }
                }
                return None;
            },
        }
        i = i + 1;
    }
    assert(s@.subrange(start as int, s.len() as int) =~= d);
    Some(value)
}

/// End of the word that starts at `from`: the first whitespace position at or
/// after it, or the length.
pub open spec fn word_end(s: Seq<char>, from: int) -> int
    decreases s.len() - from,
{
    if from < 0 || from >= s.len() {
        s.len() as int
    } else if is_ws(s[from]) {
        from
    } else {
        word_end(s, from + 1)
    }
}

/// A word end lies between `from` and the length, with no whitespace before it.
pub proof fn lemma_word_end(s: Seq<char>, from: int)
    requires
        0 <= from <= s.len(),
    ensures
        from <= word_end(s, from) <= s.len(),
        forall|k: int| from <= k < word_end(s, from) ==> !is_ws(#[trigger] s[k]),
        word_end(s, from) < s.len() ==> is_ws(s[word_end(s, from)]),
    decreases s.len() - from,
{
    if from < s.len() && !is_ws(s[from]) {
        lemma_word_end(s, from + 1);
    }
}

/// The whitespace-separated words of `s[from..]` (`str::split_whitespace`).
pub open spec fn words_from(s: Seq<char>, from: int) -> Seq<Seq<char>>
    decreases s.len() - from,
{
    if from < 0 || from >= s.len() {
        Seq::empty()
    } else if is_ws(s[from]) {
        words_from(s, from + 1)
    } else {
        let k = word_end(s, from + 1);
        proof {
            lemma_word_end(s, from + 1);
        }
        seq![s.subrange(from, k)] + words_from(s, k)
    }
}

/// The whitespace-separated words of `s`.
pub open spec fn words(s: Seq<char>) -> Seq<Seq<char>> {
    words_from(s, 0)
}

/// The parts with `sep` between consecutive ones.
pub open spec fn join_with(parts: Seq<Seq<char>>, sep: char) -> Seq<char>
    decreases parts.len(),
{
    if parts.len() == 0 {
        Seq::empty()
    } else if parts.len() == 1 {
        parts[0]
    } else {
        join_with(parts.drop_last(), sep).push(sep) + parts.last()
    }
}

/// The words of `v`.
pub fn split_whitespace_chars(v: &Vec<char>) -> (r: Vec<Vec<char>>)
    ensures
        r@.map_values(|w: Vec<char>| w@) == words(v@),
{
    let mut r: Vec<Vec<char>> = Vec::new();
    let mut i: usize = 0;
    while i < v.len()
        invariant
            i <= v.len(),
            words(v@) == r@.map_values(|w: Vec<char>| w@) + words_from(v@, i as int),
        decreases v.len() - i,
    {
        if is_whitespace(v[i]) {
            i = i + 1;
        } else {
            let mut k = i + 1;
            while k < v.len() && !is_whitespace(v[k])
                invariant
                    i < k <= v.len(),
                    word_end(v@, i + 1) == word_end(v@, k as int),
                decreases v.len() - k,
            {
                k = k + 1;
            }
            let w = sub_vec(v, i, k);
            let ghost before = r@.map_values(|w: Vec<char>| w@);
            r.push(w);
            assert(r@.map_values(|w: Vec<char>| w@) =~= before.push(w@));
            assert(words_from(v@, i as int) == seq![w@] + words_from(v@, k as int));
            assert(before + (seq![w@] + words_from(v@, k as int)) =~= before.push(w@)
                + words_from(v@, k as int));
            i = k;
        }
    }
    assert(words_from(v@, i as int) =~= Seq::<Seq<char>>::empty());
    assert(r@.map_values(|w: Vec<char>| w@) + Seq::<Seq<char>>::empty() =~= r@.map_values(
        |w: Vec<char>| w@,
    ));
    r
}

} // verus!

verus! {

proof fn lemma_digit_char(k: nat)
    requires
        k < 10,
    ensures
        is_ascii_digit(digit_char(k)),
        (digit_char(k) as u32) - ('0' as u32) == k,
{
}

/// The decimal rendering of a number consists of digits whose value is the number.
pub proof fn lemma_decimal_digits(n: nat)
    ensures
        decimal(n).len() > 0,
        all_digits(decimal(n)),
        digits_value(decimal(n)) == n,
    decreases n,
{
    if n < 10 {
        lemma_digit_char(n);
        let d = decimal(n);
        assert(d.drop_last() =~= Seq::<char>::empty());
        assert(digits_value(d) == digits_value(d.drop_last()) * 10 + ((d.last() as u32) - ('0' as u32)) as nat);
    } else {
        lemma_digit_char(n % 10);
        lemma_decimal_digits(n / 10);
        let d = decimal(n);
        let prev = decimal(n / 10);
        assert(d.drop_last() =~= prev);
        assert(d.last() == digit_char(n % 10));
        assert(digits_value(d) == digits_value(prev) * 10 + ((d.last() as u32) - ('0' as u32)) as nat);
        assert((n / 10) * 10 + n % 10 == n);
        assert forall|i: int| 0 <= i < d.len() implies is_ascii_digit(#[trigger] d[i]) by {
            if i < prev.len() {
                assert(d[i] == prev[i]);
            }
        }
    }
}

/// Parsing a decimal rendering gives the number back.
pub proof fn lemma_parse_decimal(n: nat)
    requires
        n <= usize::MAX,
    ensures
        parse_usize(decimal(n)) == Some(n as usize),
        n <= u32::MAX ==> parse_u32(decimal(n)) == Some(n as u32),
{
    lemma_decimal_digits(n);
    let d = decimal(n);
    assert(is_ascii_digit(d[0]));
    assert(unsigned_digits(d) == d);
}

} // verus!

verus! {

/// The text holds no `c`.
pub open spec fn lacks(s: Seq<char>, c: char) -> bool {
    forall|i: int| 0 <= i < s.len() ==> s[i] != c
}

proof fn lemma_first_index_before(a: Seq<char>, b: Seq<char>, c: char, from: int)
    requires
        lacks(a, c),
        0 <= from <= a.len(),
    ensures
        first_index_of(a + seq![c] + b, c, from) == Some(a.len() as int),
    decreases a.len() - from,
{
    let s = a + seq![c] + b;
    if from < a.len() {
        assert(s[from] == a[from]);
        lemma_first_index_before(a, b, c, from + 1);
    } else {
        assert(s[from] == c);
    }
}

proof fn lemma_first_index_none(s: Seq<char>, c: char, from: int)
    requires
        lacks(s, c),
        0 <= from,
    ensures
        first_index_of(s, c, from) is None,
    decreases s.len() - from,
{
    if from < s.len() {
        lemma_first_index_none(s, c, from + 1);
    }
}

/// Splitting at `c` a text that starts with a piece without `c`.
pub proof fn lemma_split_front(a: Seq<char>, b: Seq<char>, c: char)
    requires
        lacks(a, c),
    ensures
        split_char(a + seq![c] + b, c) == seq![a] + split_char(b, c),
{
    let s = a + seq![c] + b;
    lemma_first_index_before(a, b, c, 0);
    assert(s.take(a.len() as int) =~= a);
    assert(s.skip(a.len() + 1int) =~= b);
}

/// A text without `c` splits into itself.
pub proof fn lemma_split_whole(s: Seq<char>, c: char)
    requires
        lacks(s, c),
    ensures
        split_char(s, c) == seq![s],
{
    lemma_first_index_none(s, c, 0);
}

/// Splitting gives at least one piece.
pub proof fn lemma_split_nonempty(s: Seq<char>, c: char)
    ensures
        split_char(s, c).len() >= 1,
    decreases s.len(),
{
    match first_index_of(s, c, 0) {
        None => {},
        Some(i) => {
            lemma_first_index_of(s, c, 0);
            lemma_split_nonempty(s.skip(i + 1), c);
        },
    }
}

/// Joining the pieces at `:` gives the text back.
pub proof fn lemma_join_split(s: Seq<char>)
    ensures
        join_colon(split_colon(s)) == s,
    decreases s.len(),
{
    match first_index_of(s, ':', 0) {
        None => {},
        Some(i) => {
            lemma_first_index_of(s, ':', 0);
            let rest = s.skip(i + 1);
            lemma_join_split(rest);
            lemma_split_nonempty(rest, ':');
            let parts = split_colon(s);
            assert(parts == seq![s.take(i)] + split_colon(rest));
            assert(parts.drop_first() =~= split_colon(rest));
            assert(parts[0] == s.take(i));
            assert(s =~= s.take(i) + seq![':'] + rest);
        },
    }
}

/// The last piece of a text that ends with `c` and a piece without `c`.
pub proof fn lemma_split_last(x: Seq<char>, y: Seq<char>, c: char)
    requires
        lacks(y, c),
    ensures
        split_char(x + seq![c] + y, c).last() == y,
        split_char(x + seq![c] + y, c).len() >= 2,
    decreases x.len(),
{
    let s = x + seq![c] + y;
    match first_index_of(x, c, 0) {
        None => {
            assert(lacks(x, c)) by {
                assert forall|i: int| 0 <= i < x.len() implies x[i] != c by {
                    if x[i] == c {
                        lemma_first_index_some(x, c, 0, i);
                    }
                }
            }
            lemma_split_front(x, y, c);
            lemma_split_whole(y, c);
        },
        Some(i) => {
            lemma_first_index_of(x, c, 0);
            let x1 = x.take(i);
            let x2 = x.skip(i + 1);
            assert(lacks(x1, c)) by {
                assert forall|j: int| 0 <= j < x1.len() implies x1[j] != c by {
                    if x1[j] == c {
                        lemma_first_index_some(x, c, 0, j);
                    }
                }
            }
            assert(s =~= x1 + seq![c] + (x2 + seq![c] + y));
            lemma_split_front(x1, x2 + seq![c] + y, c);
            lemma_split_last(x2, y, c);
        },
    }
}

/// When `c` occurs at `j` (at or after `from`), a first position is found, no later than `j`.
proof fn lemma_first_index_some(s: Seq<char>, c: char, from: int, j: int)
    requires
        0 <= from <= j < s.len(),
        s[j] == c,
    ensures
        first_index_of(s, c, from) matches Some(k) && k <= j,
    decreases j - from,
{
    if s[from] != c {
        lemma_first_index_some(s, c, from + 1, j);
    }
}

/// Decimal renderings hold no `:`.
pub proof fn lemma_decimal_lacks_colon(n: nat)
    ensures
        lacks(decimal(n), ':'),
{
    lemma_decimal_digits(n);
    assert forall|i: int| 0 <= i < decimal(n).len() implies decimal(n)[i] != ':' by {
        assert(is_ascii_digit(decimal(n)[i]));
    }
}

} // verus!
