use vstd::prelude::*;
use vstd::string::*;

verus! {

/// Membership of a character in the Unicode word class `\w`.
pub uninterp spec fn word_char(c: char) -> bool;

/// Relies on regex_syntax::is_word_character: whether `c` is in the Unicode
/// word class, the class that a regex word boundary `\b` tests.
#[verifier::external_body]
fn is_word_character(c: char) -> (r: bool)
    ensures
        r == word_char(c),
{
    regex_syntax::is_word_character(c)
}

/// Relies on String's FromIterator<char>: the characters in order.
#[verifier::external_body]
fn string_of(v: &Vec<char>) -> (r: String)
    ensures
        r@ == v@,
{
    v.iter().collect()
}

pub open spec fn is_upper(c: char) -> bool {
    'A' <= c && c <= 'Z'
}

pub open spec fn is_digit(c: char) -> bool {
    '0' <= c && c <= '9'
}

pub open spec fn is_prefix_char(c: char) -> bool {
    is_upper(c) || is_digit(c)
}

/// `n` characters from `a` on are uppercase ASCII letters.
pub open spec fn upper_run(s: Seq<char>, a: int, n: int) -> bool {
    forall|k: int| a <= k < a + n ==> is_upper(#[trigger] s[k])
}

/// `n` characters from `a` on are uppercase ASCII letters or digits.
pub open spec fn prefix_run(s: Seq<char>, a: int, n: int) -> bool {
    forall|k: int| a <= k < a + n ==> is_prefix_char(#[trigger] s[k])
}

/// A word boundary lies before position `i` (a callsign starts with a word character).
pub open spec fn boundary_before(s: Seq<char>, i: int) -> bool {
    i == 0 || !word_char(s[i - 1])
}

/// A word boundary lies at position `j` (a callsign ends with a word character).
pub open spec fn boundary_after(s: Seq<char>, j: int) -> bool {
    j == s.len() || !word_char(s[j])
}

/// At `i` stands a prefix of `p` letters or digits, one digit, a suffix of `q`
/// uppercase letters, and a word boundary after them.
pub open spec fn shape_at(s: Seq<char>, i: int, p: int, q: int) -> bool {
    &&& 0 <= i
    &&& i + p + 1 + q <= s.len()
    &&& prefix_run(s, i, p)
    &&& is_digit(s[i + p])
    &&& upper_run(s, i + p + 1, q)
    &&& boundary_after(s, i + p + 1 + q)
}

/// The length of the callsign token that starts at `i`, or 0 when none does.
/// The shapes are tried as the pattern `\b[A-Z0-9]{1,2}[0-9][A-Z]{1,3}\b`
/// tries them: longer prefix first, then longer suffix first.
pub open spec fn token_len_at(s: Seq<char>, i: int) -> int {
    if !(0 <= i < s.len()) || !boundary_before(s, i) {
        0
    } else if shape_at(s, i, 2, 3) {
        6
    } else if shape_at(s, i, 2, 2) {
        5
    } else if shape_at(s, i, 2, 1) {
        4
    } else if shape_at(s, i, 1, 3) {
        5
    } else if shape_at(s, i, 1, 2) {
        4
    } else if shape_at(s, i, 1, 1) {
        3
    } else {
        0
    }
}

pub open spec fn has_token_at(s: Seq<char>, i: int) -> bool {
    token_len_at(s, i) > 0
}

/// Some callsign token occurs in `s`.
pub open spec fn contains_callsign(s: Seq<char>) -> bool {
    exists|i: int| has_token_at(s, i)
}

/// `i` is where the leftmost callsign token of `s` starts.
pub open spec fn first_token(s: Seq<char>, i: int) -> bool {
    &&& has_token_at(s, i)
    &&& forall|k: int| 0 <= k < i ==> !has_token_at(s, k)
}

/// The callsign token that starts at `i`.
pub open spec fn token_text(s: Seq<char>, i: int) -> Seq<char> {
    s.subrange(i, i + token_len_at(s, i))
}


/// Every non-overlapping occurrence of `pat`, left to right, replaced by `rep`.
pub open spec fn replace_all(s: Seq<char>, pat: Seq<char>, rep: Seq<char>) -> Seq<char>
    decreases s.len(),
{
    if s.len() == 0 {
        s
    } else if 0 < pat.len() <= s.len() && s.subrange(0, pat.len() as int) == pat {
        rep + replace_all(s.subrange(pat.len() as int, s.len() as int), pat, rep)
    } else {
        seq![s[0]] + replace_all(s.drop_first(), pat, rep)
    }
}

/// The characters that `char::is_whitespace` accepts: Unicode `White_Space`.
pub open spec fn is_white_space(c: char) -> bool {
    ||| '\u{9}' <= c && c <= '\u{d}'
    ||| c == ' '
    ||| c == '\u{85}'
    ||| c == '\u{a0}'
    ||| c == '\u{1680}'
    ||| '\u{2000}' <= c && c <= '\u{200a}'
    ||| c == '\u{2028}'
    ||| c == '\u{2029}'
    ||| c == '\u{202f}'
    ||| c == '\u{205f}'
    ||| c == '\u{3000}'
}

pub open spec fn trim_start(s: Seq<char>) -> Seq<char>
    decreases s.len(),
{
    if s.len() > 0 && is_white_space(s[0]) {
        trim_start(s.drop_first())
    } else {
        s
    }
}

pub open spec fn trim_end(s: Seq<char>) -> Seq<char>
    decreases s.len(),
{
    if s.len() > 0 && is_white_space(s.last()) {
        trim_end(s.drop_last())
    } else {
        s
    }
}

/// `s` without leading and trailing white space.
pub open spec fn trim(s: Seq<char>) -> Seq<char> {
    trim_end(trim_start(s))
}

/// The separators taken out of a name: `" - "` becomes one space, `" -"`,
/// `"- "`, `(` and `)` go, in that order.
pub open spec fn strip_separators(s: Seq<char>) -> Seq<char> {
    let a = replace_all(s, seq![' ', '-', ' '], seq![' ']);
    let b = replace_all(a, seq![' ', '-'], seq![]);
    let c = replace_all(b, seq!['-', ' '], seq![]);
    let d = replace_all(c, seq!['('], seq![]);
    replace_all(d, seq![')'], seq![])
}

/// The name left in `s` once the callsign token at `i` is cut out: the rest,
/// without separators, trimmed; the callsign itself when nothing is left.
pub open spec fn derived_name(s: Seq<char>, i: int) -> Seq<char> {
    let rest = s.subrange(0, i) + s.subrange(i + token_len_at(s, i), s.len() as int);
    let name = trim(strip_separators(rest));
    if name.len() == 0 {
        token_text(s, i)
    } else {
        name
    }
}

/// What parsing `s` gives: the leftmost callsign and the name around it.
pub open spec fn parse_spec(s: Seq<char>) -> Option<(Seq<char>, Seq<char>)> {
    if contains_callsign(s) {
        let i = choose|i: int| first_token(s, i);
        Some((token_text(s, i), derived_name(s, i)))
    } else {
        None
    }
}

/// A text that holds a callsign has a leftmost one, and only one.
pub proof fn lemma_first_token(s: Seq<char>, j: int)
    requires
        has_token_at(s, j),
    ensures
        exists|i: int| first_token(s, i),
        forall|a: int, b: int| first_token(s, a) && first_token(s, b) ==> a == b,
    decreases j,
{
    if exists|k: int| 0 <= k < j && has_token_at(s, k) {
        let k = choose|k: int| 0 <= k < j && has_token_at(s, k);
        lemma_first_token(s, k);
    } else {
        assert(first_token(s, j));
    }
    assert forall|a: int, b: int| first_token(s, a) && first_token(s, b) implies a == b by {
        if a < b {
            assert(!has_token_at(s, a));
        } else if b < a {
            assert(!has_token_at(s, b));
        }
    }
}

fn upper(c: char) -> (r: bool)
    ensures
        r == is_upper(c),
{
    'A' <= c && c <= 'Z'
}

fn digit(c: char) -> (r: bool)
    ensures
        r == is_digit(c),
{
    '0' <= c && c <= '9'
}

/// The characters of `s`, in order.
pub fn chars_of(s: &str) -> (r: Vec<char>)
    ensures
        r@ == s@,
{
    let n = s.unicode_len();
    let mut v: Vec<char> = Vec::new();
    let mut i: usize = 0;
    while i < n
        invariant
            n == s@.len(),
            i <= n,
            v@ == s@.subrange(0, i as int),
        decreases n - i,
    {
        v.push(s.get_char(i));
        i += 1;
        assert(v@ =~= s@.subrange(0, i as int));
    }
    assert(v@ =~= s@);
    v
}

fn shape_at_exec(s: &Vec<char>, i: usize, p: usize, q: usize) -> (r: bool)
    requires
        p <= 2,
        q <= 3,
        i < s.len(),
    ensures
        r == shape_at(s@, i as int, p as int, q as int),
{
    if p + 1 + q > s.len() - i {
        return false;
    }
    let mut k: usize = 0;
    while k < p
        invariant
            i + p + 1 + q <= s.len(),
            k <= p,
            prefix_run(s@, i as int, k as int),
        decreases p - k,
    {
        if !(upper(s[i + k]) || digit(s[i + k])) {
            return false;
        }
        k += 1;
    }
    if !digit(s[i + p]) {
        return false;
    }
    let mut k: usize = 0;
    while k < q
        invariant
            i + p + 1 + q <= s.len(),
            k <= q,
            prefix_run(s@, i as int, p as int),
            upper_run(s@, i + p + 1, k as int),
        decreases q - k,
    {
        if !upper(s[i + p + 1 + k]) {
            return false;
        }
        k += 1;
    }
    let j = i + p + 1 + q;
    j == s.len() || !is_word_character(s[j])
}

fn token_len_exec(s: &Vec<char>, i: usize) -> (r: usize)
    requires
        i < s.len(),
    ensures
        r as int == token_len_at(s@, i as int),
{
    if i > 0 && is_word_character(s[i - 1]) {
        0
    } else if shape_at_exec(s, i, 2, 3) {
        6
    } else if shape_at_exec(s, i, 2, 2) {
        5
    } else if shape_at_exec(s, i, 2, 1) {
        4
    } else if shape_at_exec(s, i, 1, 3) {
        5
    } else if shape_at_exec(s, i, 1, 2) {
        4
    } else if shape_at_exec(s, i, 1, 1) {
        3
    } else {
        0
    }
}

/// The start and length of the leftmost callsign token, if any.
fn find_token(s: &Vec<char>) -> (r: Option<(usize, usize)>)
    ensures
        r is None ==> !contains_callsign(s@),
        r matches Some((i, n)) ==> first_token(s@, i as int) && n as int == token_len_at(s@, i as int),
{
    let mut i: usize = 0;
    while i < s.len()
        invariant
            i <= s.len(),
            forall|k: int| 0 <= k < i ==> !has_token_at(s@, k),
        decreases s.len() - i,
    {
        let n = token_len_exec(s, i);
        if n > 0 {
            return Some((i, n));
        }
        i += 1;
    }
    assert forall|k: int| !has_token_at(s@, k) by {
        if 0 <= k < i {
        }
    }
    None
}


fn white_space(c: char) -> (r: bool)
    ensures
        r == is_white_space(c),
{
    ('\u{9}' <= c && c <= '\u{d}') || c == ' ' || c == '\u{85}' || c == '\u{a0}' || c == '\u{1680}'
        || ('\u{2000}' <= c && c <= '\u{200a}') || c == '\u{2028}' || c == '\u{2029}' || c
        == '\u{202f}' || c == '\u{205f}' || c == '\u{3000}'
}

/// The characters of `s` from `a` up to `b`.
fn slice_of(s: &Vec<char>, a: usize, b: usize) -> (r: Vec<char>)
    requires
        a <= b <= s.len(),
    ensures
        r@ == s@.subrange(a as int, b as int),
{
    let mut v: Vec<char> = Vec::new();
    let mut k: usize = a;
    while k < b
        invariant
            a <= k <= b <= s.len(),
            v@ == s@.subrange(a as int, k as int),
        decreases b - k,
    {
        v.push(s[k]);
        k += 1;
        assert(v@ =~= s@.subrange(a as int, k as int));
    }
    v
}

fn starts_with_at(s: &Vec<char>, i: usize, pat: &Vec<char>) -> (r: bool)
    requires
        i <= s.len(),
    ensures
        r == (pat.len() <= s.len() - i && s@.subrange(i as int, i + pat.len()) == pat@),
{
    if pat.len() > s.len() - i {
        return false;
    }
    let mut k: usize = 0;
    while k < pat.len()
        invariant
            pat.len() <= s.len() - i,
            k <= pat.len(),
            forall|j: int| 0 <= j < k ==> s@[i + j] == pat@[j],
        decreases pat.len() - k,
    {
        if s[i + k] != pat[k] {
            assert(s@.subrange(i as int, i + pat.len())[k as int] != pat@[k as int]);
            return false;
        }
        k += 1;
    }
    assert(s@.subrange(i as int, i + pat.len()) =~= pat@);
    true
}

fn replace_all_exec(s: &Vec<char>, pat: &Vec<char>, rep: &Vec<char>) -> (r: Vec<char>)
    requires
        pat.len() > 0,
    ensures
        r@ == replace_all(s@, pat@, rep@),
{
    let n = s.len();
    let mut out: Vec<char> = Vec::new();
    let mut i: usize = 0;
    assert(out@ + replace_all(s@.subrange(0, n as int), pat@, rep@) =~= replace_all(s@, pat@, rep@))
        by {
        assert(s@.subrange(0, n as int) =~= s@);
    }
    while i < n
        invariant
            n == s.len(),
            i <= n,
            pat.len() > 0,
            out@ + replace_all(s@.subrange(i as int, n as int), pat@, rep@) == replace_all(
                s@,
                pat@,
                rep@,
            ),
        decreases n - i,
    {
        let t = Ghost(s@.subrange(i as int, n as int));
        if starts_with_at(s, i, pat) {
            assert(t@.subrange(0, pat@.len() as int) =~= s@.subrange(i as int, i + pat.len()));
            assert(t@.subrange(pat@.len() as int, t@.len() as int) =~= s@.subrange(
                i + pat.len(),
                n as int,
            ));
            let mut k: usize = 0;
            let ghost before = out@;
            while k < rep.len()
                invariant
                    k <= rep.len(),
                    out@ == before + rep@.subrange(0, k as int),
                decreases rep.len() - k,
            {
                out.push(rep[k]);
                k += 1;
                assert(out@ =~= before + rep@.subrange(0, k as int));
            }
            assert(rep@.subrange(0, rep@.len() as int) =~= rep@);
            assert(out@ + replace_all(s@.subrange(i + pat.len(), n as int), pat@, rep@) =~= before
                + replace_all(t@, pat@, rep@));
            i = i + pat.len();
        } else {
            assert(0 < pat@.len() <= t@.len() ==> t@.subrange(0, pat@.len() as int)
                =~= s@.subrange(i as int, i + pat.len()));
            assert(t@.drop_first() =~= s@.subrange(i + 1, n as int));
            let ghost before = out@;
            out.push(s[i]);
            assert(out@ + replace_all(s@.subrange(i + 1, n as int), pat@, rep@) =~= before
                + replace_all(t@, pat@, rep@));
            i = i + 1;
        }
    }
    assert(out@ + replace_all(s@.subrange(n as int, n as int), pat@, rep@) =~= out@);
    out
}

fn trim_exec(s: &Vec<char>) -> (r: Vec<char>)
    ensures
        r@ == trim(s@),
{
    let n = s.len();
    let mut a: usize = 0;
    assert(s@.subrange(0, n as int) =~= s@);
    while a < n && white_space(s[a])
        invariant
            n == s.len(),
            a <= n,
            trim_start(s@.subrange(a as int, n as int)) == trim_start(s@),
        decreases n - a,
    {
        assert(s@.subrange(a as int, n as int).drop_first() =~= s@.subrange(a + 1, n as int));
        a += 1;
    }
    assert(trim_start(s@) == s@.subrange(a as int, n as int));
    let mut b: usize = n;
    while b > a && white_space(s[b - 1])
        invariant
            n == s.len(),
            a <= b <= n,
            trim_end(s@.subrange(a as int, b as int)) == trim(s@),
        decreases b - a,
    {
        assert(s@.subrange(a as int, b as int).drop_last() =~= s@.subrange(a as int, b - 1));
        b -= 1;
    }
    slice_of(s, a, b)
}

fn strip_separators_exec(s: &Vec<char>) -> (r: Vec<char>)
    ensures
        r@ == strip_separators(s@),
{
    let dash = vec![' ', '-', ' '];
    let space = vec![' '];
    let dash_end = vec![' ', '-'];
    let dash_start = vec!['-', ' '];
    let open = vec!['('];
    let close = vec![')'];
    let none: Vec<char> = Vec::new();
    assert(dash@ =~= seq![' ', '-', ' ']);
    assert(space@ =~= seq![' ']);
    assert(dash_end@ =~= seq![' ', '-']);
    assert(dash_start@ =~= seq!['-', ' ']);
    assert(open@ =~= seq!['(']);
    assert(close@ =~= seq![')']);
    assert(none@ =~= Seq::<char>::empty());
    let a = replace_all_exec(s, &dash, &space);
    let b = replace_all_exec(&a, &dash_end, &none);
    let c = replace_all_exec(&b, &dash_start, &none);
    let d = replace_all_exec(&c, &open, &none);
    replace_all_exec(&d, &close, &none)
}


/// A callsign and the name found beside it.
#[derive(Debug, Clone)]
pub struct MemberInfo {
    pub callsign: String,
    pub name: String,
}

pub open spec fn info_view(m: Option<MemberInfo>) -> Option<(Seq<char>, Seq<char>)> {
    match m {
        Some(m) => Some((m.callsign@, m.name@)),
        None => None,
    }
}

/// Finds amateur-radio callsigns (`[A-Z0-9]{1,2}[0-9][A-Z]{1,3}` between word
/// boundaries, uppercase only) in display names.
pub struct CallsignParser {}

impl CallsignParser {
    pub fn new() -> (r: Self) {
        CallsignParser {  }
    }

    /// The leftmost callsign of `display_name` and the name around it: the
    /// rest of the text without separators and trimmed, or the callsign when
    /// nothing else is there. `None` when no callsign occurs.
    pub fn parse(&self, display_name: &str) -> (r: Option<MemberInfo>)
        ensures
            r is None <==> !contains_callsign(display_name@),
            info_view(r) == parse_spec(display_name@),
    {
        let s = chars_of(display_name);
        match find_token(&s) {
            None => None,
            Some((i, n)) => {
                proof {
                    lemma_first_token(s@, i as int);
                }
                let callsign_chars = slice_of(&s, i, i + n);
                let mut rest = slice_of(&s, 0, i);
                let mut after = slice_of(&s, i + n, s.len());
                rest.append(&mut after);
                let name_chars = trim_exec(&strip_separators_exec(&rest));
                let callsign = string_of(&callsign_chars);
                let name = if name_chars.len() == 0 {
                    string_of(&callsign_chars)
                } else {
                    string_of(&name_chars)
                };
                Some(MemberInfo { callsign, name })
            },
        }
    }

    /// Whether a callsign occurs anywhere in `text`.
    pub fn is_callsign(&self, text: &str) -> (r: bool)
        ensures
            r == contains_callsign(text@),
    {
        find_token(&chars_of(text)).is_some()
    }
}

} // verus!
