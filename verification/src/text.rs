//! Character-level text primitives: specifications of the `str` operations the
//! parsers rely on, and verified implementations of them over `Vec<char>`.
use vstd::prelude::*;

verus! {

/// `char::is_whitespace`: the Unicode `White_Space` property.
pub open spec fn is_whitespace(c: char) -> bool {
    let u = c as u32;
    ||| 0x09 <= u <= 0x0D
    ||| u == 0x20
    ||| u == 0x85
    ||| u == 0xA0
    ||| u == 0x1680
    ||| 0x2000 <= u <= 0x200A
    ||| u == 0x2028
    ||| u == 0x2029
    ||| u == 0x202F
    ||| u == 0x205F
    ||| u == 0x3000
}

/// A set of characters that a trim removes.
#[derive(Clone, Copy, PartialEq, Eq, Debug)]
pub enum TrimSet {
    /// `char::is_whitespace`
    Whitespace,
    /// `'('` and `')'`
    Parens,
    /// `'0'`
    Zero,
}

pub open spec fn in_trim_set(set: TrimSet, c: char) -> bool {
    match set {
        TrimSet::Whitespace => is_whitespace(c),
        TrimSet::Parens => c == '(' || c == ')',
        TrimSet::Zero => c == '0',
    }
}

/// Whether `c` belongs to `set`.
pub fn trim_set_contains(set: TrimSet, c: char) -> (r: bool)
    ensures
        r == in_trim_set(set, c),
{
    match set {
        TrimSet::Whitespace => {
            let u = c as u32;
            (0x09 <= u && u <= 0x0D) || u == 0x20 || u == 0x85 || u == 0xA0 || u == 0x1680 || (
            0x2000 <= u && u <= 0x200A) || u == 0x2028 || u == 0x2029 || u == 0x202F || u == 0x205F
                || u == 0x3000
        },
        TrimSet::Parens => c == '(' || c == ')',
        TrimSet::Zero => c == '0',
    }
}

/// `s` without its leading characters of `set`.
pub open spec fn trim_start(s: Seq<char>, set: TrimSet) -> Seq<char>
    decreases s.len(),
{
    if s.len() > 0 && in_trim_set(set, s[0]) {
        trim_start(s.drop_first(), set)
    } else {
        s
    }
}

/// `s` without its trailing characters of `set`.
pub open spec fn trim_end(s: Seq<char>, set: TrimSet) -> Seq<char>
    decreases s.len(),
{
    if s.len() > 0 && in_trim_set(set, s.last()) {
        trim_end(s.drop_last(), set)
    } else {
        s
    }
}

/// `s` without leading and trailing characters of `set` (`str::trim`,
/// `str::trim_matches`).
pub open spec fn trim(s: Seq<char>, set: TrimSet) -> Seq<char> {
    trim_end(trim_start(s, set), set)
}

/// The first position of `c` in `s`.
pub open spec fn find_char(s: Seq<char>, c: char) -> Option<int>
    decreases s.len(),
{
    if s.len() == 0 {
        None
    } else if s[0] == c {
        Some(0)
    } else {
        match find_char(s.drop_first(), c) {
            Some(i) => Some(i + 1),
            None => None,
        }
    }
}

/// The last position of `c` in `s`.
pub open spec fn rfind_char(s: Seq<char>, c: char) -> Option<int>
    decreases s.len(),
{
    if s.len() == 0 {
        None
    } else if s.last() == c {
        Some(s.len() - 1)
    } else {
        rfind_char(s.drop_last(), c)
    }
}

/// Whether `p` is a prefix of `s`.
pub open spec fn starts_with(s: Seq<char>, p: Seq<char>) -> bool {
    p.len() <= s.len() && s.take(p.len() as int) == p
}

/// The first position at which `p` occurs in `s`.
pub open spec fn find_seq(s: Seq<char>, p: Seq<char>) -> Option<int>
    decreases s.len(),
{
    if starts_with(s, p) {
        Some(0)
    } else if s.len() == 0 {
        None
    } else {
        match find_seq(s.drop_first(), p) {
            Some(i) => Some(i + 1),
            None => None,
        }
    }
}

/// `str::contains` with a string pattern.
pub open spec fn contains_seq(s: Seq<char>, p: Seq<char>) -> bool {
    find_seq(s, p) is Some
}

/// `str::strip_prefix`.
pub open spec fn strip_prefix(s: Seq<char>, p: Seq<char>) -> Option<Seq<char>> {
    if starts_with(s, p) {
        Some(s.skip(p.len() as int))
    } else {
        None
    }
}

/// `str::split_once` with a character pattern.
pub open spec fn split_once_char(s: Seq<char>, c: char) -> Option<(Seq<char>, Seq<char>)> {
    match find_char(s, c) {
        Some(i) => Some((s.take(i), s.skip(i + 1))),
        None => None,
    }
}

/// `str::rsplit_once` with a character pattern.
pub open spec fn rsplit_once_char(s: Seq<char>, c: char) -> Option<(Seq<char>, Seq<char>)> {
    match rfind_char(s, c) {
        Some(i) => Some((s.take(i), s.skip(i + 1))),
        None => None,
    }
}

/// `str::split_once` with a string pattern.
pub open spec fn split_once_seq(s: Seq<char>, p: Seq<char>) -> Option<(Seq<char>, Seq<char>)> {
    match find_seq(s, p) {
        Some(i) => Some((s.take(i), s.skip(i + p.len()))),
        None => None,
    }
}

/// `str::split` with a character pattern: the pieces between occurrences of `c`.
pub open spec fn split_char(s: Seq<char>, c: char) -> Seq<Seq<char>>
    decreases s.len(),
{
    proof {
        lemma_find_char(s, c);
    }
    match find_char(s, c) {
        Some(i) => seq![s.take(i)] + split_char(s.skip(i + 1), c),
        None => seq![s],
    }
}

/// A line without the `'\r'` of a `"\r\n"` ending.
pub open spec fn strip_cr(line: Seq<char>) -> Seq<char> {
    if line.len() > 0 && line.last() == '\r' {
        line.drop_last()
    } else {
        line
    }
}

/// `str::lines`: the lines of `s`, split at `"\n"` or `"\r\n"`; a final line
/// ending adds no empty line.
pub open spec fn lines(s: Seq<char>) -> Seq<Seq<char>>
    decreases s.len(),
{
    if s.len() == 0 {
        seq![]
    } else {
        proof {
            lemma_find_char(s, '\n');
        }
        match find_char(s, '\n') {
            Some(i) => seq![strip_cr(s.take(i))] + lines(s.skip(i + 1)),
            None => seq![s],
        }
    }
}

/// The decimal value of a string of ASCII digits.
pub open spec fn decimal_value(d: Seq<char>) -> nat
    decreases d.len(),
{
    if d.len() == 0 {
        0
    } else {
        decimal_value(d.drop_last()) * 10 + ((d.last() as u32) - ('0' as u32)) as nat
    }
}

pub open spec fn is_ascii_digit(c: char) -> bool {
    '0' as u32 <= c as u32 <= '9' as u32
}

pub open spec fn all_ascii_digits(d: Seq<char>) -> bool {
    forall|i: int| 0 <= i < d.len() ==> is_ascii_digit(#[trigger] d[i])
}

/// `u16::from_str`: an optional `'+'` and one or more ASCII digits whose value
/// fits in a `u16`.
pub open spec fn parse_u16(s: Seq<char>) -> Option<u16> {
    let d = if s.len() > 0 && s[0] == '+' {
        s.drop_first()
    } else {
        s
    };
    if d.len() > 0 && all_ascii_digits(d) && decimal_value(d) <= u16::MAX {
        Some(decimal_value(d) as u16)
    } else {
        None
    }
}

/// The decimal representation of `n` (`u16::to_string`).
pub open spec fn decimal_string(n: nat) -> Seq<char>
    decreases n,
{
    if n < 10 {
        seq![(('0' as u32) + n) as char]
    } else {
        decimal_string(n / 10) + seq![(('0' as u32) + n % 10) as char]
    }
}

/// Joins `parts` with `sep` between consecutive parts (`[String]::join`).
pub open spec fn join(parts: Seq<Seq<char>>, sep: Seq<char>) -> Seq<char>
    decreases parts.len(),
{
    if parts.len() == 0 {
        seq![]
    } else if parts.len() == 1 {
        parts[0]
    } else {
        join(parts.drop_last(), sep) + sep + parts.last()
    }
}

// ---------------------------------------------------------------------------
// Lemmas
// ---------------------------------------------------------------------------
pub proof fn lemma_find_char(s: Seq<char>, c: char)
    ensures
        match find_char(s, c) {
            Some(i) => 0 <= i < s.len() && s[i] == c && forall|j: int| 0 <= j < i ==> s[j] != c,
            None => forall|j: int| 0 <= j < s.len() ==> s[j] != c,
        },
    decreases s.len(),
{
    if s.len() > 0 && s[0] != c {
        lemma_find_char(s.drop_first(), c);
        match find_char(s.drop_first(), c) {
            Some(i) => {
                assert forall|j: int| 0 <= j < i + 1 implies s[j] != c by {
                    if j > 0 {
                        assert(s[j] == s.drop_first()[j - 1]);
                    }
                }
            },
            None => {
                assert forall|j: int| 0 <= j < s.len() implies s[j] != c by {
                    if j > 0 {
                        assert(s[j] == s.drop_first()[j - 1]);
                    }
                }
            },
        }
    }
}

pub proof fn lemma_rfind_char(s: Seq<char>, c: char)
    ensures
        match rfind_char(s, c) {
            Some(i) => 0 <= i < s.len() && s[i] == c && forall|j: int| i < j < s.len() ==> s[j]
                != c,
            None => forall|j: int| 0 <= j < s.len() ==> s[j] != c,
        },
    decreases s.len(),
{
    if s.len() > 0 && s.last() != c {
        lemma_rfind_char(s.drop_last(), c);
        assert forall|j: int| 0 <= j < s.len() - 1 implies s[j] == s.drop_last()[j] by {}
    }
}

pub proof fn lemma_find_seq(s: Seq<char>, p: Seq<char>)
    ensures
        match find_seq(s, p) {
            Some(i) => 0 <= i && i + p.len() <= s.len() && s.subrange(i, i + p.len()) == p
                && forall|j: int|
                0 <= j < i ==> !(#[trigger] starts_with(s.skip(j), p)),
            None => forall|j: int| 0 <= j <= s.len() ==> !(#[trigger] starts_with(s.skip(j), p)),
        },
    decreases s.len(),
{
    if starts_with(s, p) {
        assert(s.subrange(0, p.len() as int) == s.take(p.len() as int));
    } else {
        assert(s.skip(0) == s);
        if s.len() == 0 {
        } else {
            lemma_find_seq(s.drop_first(), p);
            assert forall|j: int| 1 <= j <= s.len() implies s.skip(j) == s.drop_first().skip(
                j - 1,
            ) by {
                assert(s.skip(j) =~= s.drop_first().skip(j - 1));
            }
            match find_seq(s.drop_first(), p) {
                Some(i) => {
                    assert(s.subrange(i + 1, i + 1 + p.len()) =~= s.drop_first().subrange(
                        i,
                        i + p.len(),
                    ));
                },
                None => {},
            }
        }
    }
}

/// Characters of a class are skipped by `trim_start` one at a time.
pub proof fn lemma_trim_start_skip(s: Seq<char>, set: TrimSet, i: int)
    requires
        0 <= i <= s.len(),
        forall|j: int| 0 <= j < i ==> in_trim_set(set, #[trigger] s[j]),
    ensures
        trim_start(s, set) == trim_start(s.skip(i), set),
    decreases i,
{
    if i > 0 {
        assert(s.skip(1) =~= s.drop_first());
        lemma_trim_start_skip(s.drop_first(), set, i - 1);
        assert(s.drop_first().skip(i - 1) =~= s.skip(i));
    } else {
        assert(s.skip(0) =~= s);
    }
}

/// Characters of a class are dropped by `trim_end` one at a time.
pub proof fn lemma_trim_end_take(s: Seq<char>, set: TrimSet, i: int)
    requires
        0 <= i <= s.len(),
        forall|j: int| i <= j < s.len() ==> in_trim_set(set, #[trigger] s[j]),
    ensures
        trim_end(s, set) == trim_end(s.take(i), set),
    decreases s.len() - i,
{
    if i < s.len() {
        assert(s.drop_last() =~= s.take(s.len() - 1));
        lemma_trim_end_take(s.drop_last(), set, i);
        assert(s.drop_last().take(i) =~= s.take(i));
    } else {
        assert(s.take(i) =~= s);
    }
}

// ---------------------------------------------------------------------------
// Executable helpers
// ---------------------------------------------------------------------------
/// Appends `c` to `s` (`String::push`).
#[verifier::external_body]
fn push_char(s: &mut String, c: char)
    ensures
        final(s)@ == old(s)@.push(c),
{
    s.push(c);
}

/// The characters of `s`, in order.
pub fn chars_of(s: &str) -> (v: Vec<char>)
    ensures
        v@ == s@,
{
    let mut v: Vec<char> = Vec::new();
    for c in it: s.chars()
        invariant
            v@ == it.seq().take(it.index() as int),
    {
        v.push(c);
    }
    v
}

/// The string made of the characters `v[lo..hi]`.
pub fn string_from(v: &Vec<char>, lo: usize, hi: usize) -> (s: String)
    requires
        lo <= hi <= v.len(),
    ensures
        s@ == v@.subrange(lo as int, hi as int),
{
    let mut s = String::new();
    let mut i = lo;
    while i < hi
        invariant
            lo <= i <= hi <= v.len(),
            s@ == v@.subrange(lo as int, i as int),
        decreases hi - i,
    {
        push_char(&mut s, v[i]);
        i += 1;
        assert(s@ =~= v@.subrange(lo as int, i as int));
    }
    s
}

/// The string made of all the characters of `v`.
pub fn string_of(v: &Vec<char>) -> (s: String)
    ensures
        s@ == v@,
{
    let s = string_from(v, 0, v.len());
    assert(v@.subrange(0, v@.len() as int) =~= v@);
    s
}

/// `a + b` as a new string.
pub fn concat(a: &str, b: &str) -> (s: String)
    ensures
        s@ == a@ + b@,
{
    let va = chars_of(a);
    let vb = chars_of(b);
    let mut s = string_of(&va);
    let mut i: usize = 0;
    while i < vb.len()
        invariant
            0 <= i <= vb.len(),
            vb@ == b@,
            s@ == a@ + vb@.take(i as int),
        decreases vb.len() - i,
    {
        push_char(&mut s, vb[i]);
        i += 1;
        assert(s@ =~= a@ + vb@.take(i as int));
    }
    assert(vb@.take(vb.len() as int) =~= vb@);
    s
}

/// `v[lo..hi]` as a new vector.
pub fn slice_chars(v: &Vec<char>, lo: usize, hi: usize) -> (r: Vec<char>)
    requires
        lo <= hi <= v.len(),
    ensures
        r@ == v@.subrange(lo as int, hi as int),
{
    let mut r: Vec<char> = Vec::new();
    let mut i = lo;
    while i < hi
        invariant
            lo <= i <= hi <= v.len(),
            r@ == v@.subrange(lo as int, i as int),
        decreases hi - i,
    {
        r.push(v[i]);
        i += 1;
        assert(r@ =~= v@.subrange(lo as int, i as int));
    }
    r
}

/// Whether `a` and `b` hold the same characters.
pub fn chars_eq(a: &Vec<char>, b: &Vec<char>) -> (r: bool)
    ensures
        r == (a@ == b@),
{
    if a.len() != b.len() {
        return false;
    }
    let mut i: usize = 0;
    while i < a.len()
        invariant
            0 <= i <= a.len(),
            a.len() == b.len(),
            forall|j: int| 0 <= j < i ==> a@[j] == b@[j],
        decreases a.len() - i,
    {
        if a[i] != b[i] {
            return false;
        }
        i += 1;
    }
    assert(a@ =~= b@);
    true
}

/// Whether the string `a` holds the characters of `b`.
pub fn str_eq(a: &str, b: &str) -> (r: bool)
    ensures
        r == (a@ == b@),
{
    let va = chars_of(a);
    let vb = chars_of(b);
    chars_eq(&va, &vb)
}

/// The first position of `c` in `v`.
pub fn find_char_exec(v: &Vec<char>, c: char) -> (r: Option<usize>)
    ensures
        r matches Some(i) ==> find_char(v@, c) == Some(i as int),
        r is None ==> find_char(v@, c) is None,
{
    let mut i: usize = 0;
    while i < v.len()
        invariant
            0 <= i <= v.len(),
            forall|j: int| 0 <= j < i ==> v@[j] != c,
        decreases v.len() - i,
    {
        if v[i] == c {
            proof {
                lemma_find_char(v@, c);
            }
            return Some(i);
        }
        i += 1;
    }
    proof {
        lemma_find_char(v@, c);
    }
    None
}

/// The last position of `c` in `v`.
pub fn rfind_char_exec(v: &Vec<char>, c: char) -> (r: Option<usize>)
    ensures
        r matches Some(i) ==> rfind_char(v@, c) == Some(i as int),
        r is None ==> rfind_char(v@, c) is None,
{
    let mut i: usize = v.len();
    while i > 0
        invariant
            0 <= i <= v.len(),
            forall|j: int| i <= j < v.len() ==> v@[j] != c,
        decreases i,
    {
        if v[i - 1] == c {
            proof {
                lemma_rfind_char(v@, c);
            }
            return Some(i - 1);
        }
        i -= 1;
    }
    proof {
        lemma_rfind_char(v@, c);
    }
    None
}

/// Whether `p` occurs in `v` at position `at`.
fn matches_at(v: &Vec<char>, at: usize, p: &Vec<char>) -> (r: bool)
    requires
        at <= v.len(),
    ensures
        r == starts_with(v@.skip(at as int), p@),
{
    if p.len() > v.len() - at {
        return false;
    }
    let mut k: usize = 0;
    while k < p.len()
        invariant
            0 <= k <= p.len(),
            at + p.len() <= v.len(),
            forall|j: int| 0 <= j < k ==> v@[at + j] == p@[j],
        decreases p.len() - k,
    {
        if v[at + k] != p[k] {
            assert(v@.skip(at as int).take(p.len() as int)[k as int] != p@[k as int]);
            return false;
        }
        k += 1;
    }
    assert(v@.skip(at as int).take(p.len() as int) =~= p@);
    true
}

/// Whether `p` is a prefix of `v`.
pub fn starts_with_exec(v: &Vec<char>, p: &Vec<char>) -> (r: bool)
    ensures
        r == starts_with(v@, p@),
{
    let r = matches_at(v, 0, p);
    assert(v@.skip(0) =~= v@);
    r
}

/// The first position at which `p` occurs in `v`.
pub fn find_seq_exec(v: &Vec<char>, p: &Vec<char>) -> (r: Option<usize>)
    ensures
        r matches Some(i) ==> find_seq(v@, p@) == Some(i as int),
        r is None ==> find_seq(v@, p@) is None,
{
    let mut i: usize = 0;
    while i < v.len()
        invariant
            0 <= i <= v.len(),
            forall|j: int| 0 <= j < i ==> !(#[trigger] starts_with(v@.skip(j), p@)),
        decreases v.len() - i,
    {
        if matches_at(v, i, p) {
            proof {
                lemma_find_seq(v@, p@);
                assert(v@.skip(i as int).take(p.len() as int) =~= v@.subrange(
                    i as int,
                    i + p.len(),
                ));
                match find_seq(v@, p@) {
                    Some(k) => {
                        if k > i {
                        } else if k < i {
                            assert(v@.subrange(k, k + p.len()) =~= v@.skip(k).take(
                                p.len() as int,
                            ));
                            assert(starts_with(v@.skip(k), p@));
                        }
                    },
                    None => {
                        assert(starts_with(v@.skip(i as int), p@));
                    },
                }
            }
            return Some(i);
        }
        i += 1;
    }
    if matches_at(v, v.len(), p) {
        proof {
            lemma_find_seq(v@, p@);
            assert(v@.skip(i as int).take(p.len() as int) =~= v@.subrange(i as int, i + p.len()));
            match find_seq(v@, p@) {
                Some(k) => {
                    if k < i {
                        assert(v@.subrange(k, k + p.len()) =~= v@.skip(k).take(p.len() as int));
                        assert(starts_with(v@.skip(k), p@));
                    }
                },
                None => {
                    assert(starts_with(v@.skip(i as int), p@));
                },
            }
        }
        return Some(i);
    }
    proof {
        lemma_find_seq(v@, p@);
        match find_seq(v@, p@) {
            Some(k) => {
                assert(v@.subrange(k, k + p.len()) =~= v@.skip(k).take(p.len() as int));
                assert(starts_with(v@.skip(k), p@));
            },
            None => {},
        }
    }
    None
}

/// `str::contains`.
pub fn contains_exec(v: &Vec<char>, p: &Vec<char>) -> (r: bool)
    ensures
        r == contains_seq(v@, p@),
{
    find_seq_exec(v, p).is_some()
}

/// `str::strip_prefix`.
pub fn strip_prefix_exec(v: &Vec<char>, p: &Vec<char>) -> (r: Option<Vec<char>>)
    ensures
        match r {
            Some(rest) => strip_prefix(v@, p@) == Some(rest@),
            None => strip_prefix(v@, p@) is None,
        },
{
    if starts_with_exec(v, p) {
        let rest = slice_chars(v, p.len(), v.len());
        assert(rest@ =~= v@.skip(p.len() as int));
        Some(rest)
    } else {
        None
    }
}

/// `str::split_once` with a character pattern.
pub fn split_once_char_exec(v: &Vec<char>, c: char) -> (r: Option<(Vec<char>, Vec<char>)>)
    ensures
        match r {
            Some((a, b)) => split_once_char(v@, c) == Some((a@, b@)),
            None => split_once_char(v@, c) is None,
        },
{
    match find_char_exec(v, c) {
        Some(i) => {
            proof {
                lemma_find_char(v@, c);
            }
            let a = slice_chars(v, 0, i);
            let b = slice_chars(v, i + 1, v.len());
            assert(a@ =~= v@.take(i as int));
            assert(b@ =~= v@.skip(i + 1));
            Some((a, b))
        },
        None => None,
    }
}

/// `str::rsplit_once` with a character pattern.
pub fn rsplit_once_char_exec(v: &Vec<char>, c: char) -> (r: Option<(Vec<char>, Vec<char>)>)
    ensures
        match r {
            Some((a, b)) => rsplit_once_char(v@, c) == Some((a@, b@)),
            None => rsplit_once_char(v@, c) is None,
        },
{
    match rfind_char_exec(v, c) {
        Some(i) => {
            proof {
                lemma_rfind_char(v@, c);
            }
            let a = slice_chars(v, 0, i);
            let b = slice_chars(v, i + 1, v.len());
            assert(a@ =~= v@.take(i as int));
            assert(b@ =~= v@.skip(i + 1));
            Some((a, b))
        },
        None => None,
    }
}

/// `str::split_once` with a string pattern.
pub fn split_once_seq_exec(v: &Vec<char>, p: &Vec<char>) -> (r: Option<(Vec<char>, Vec<char>)>)
    ensures
        match r {
            Some((a, b)) => split_once_seq(v@, p@) == Some((a@, b@)),
            None => split_once_seq(v@, p@) is None,
        },
{
    match find_seq_exec(v, p) {
        Some(i) => {
            proof {
                lemma_find_seq(v@, p@);
            }
            assert(i + p.len() <= v.len());
            let a = slice_chars(v, 0, i);
            let b = slice_chars(v, i + p.len(), v.len());
            assert(a@ =~= v@.take(i as int));
            assert(b@ =~= v@.skip(i + p.len()));
            Some((a, b))
        },
        None => None,
    }
}

/// Removes the characters of `set` from both ends of `v`.
pub fn trim_exec(v: &Vec<char>, set: TrimSet) -> (r: Vec<char>)
    ensures
        r@ == trim(v@, set),
{
    let mut lo: usize = 0;
    while lo < v.len() && trim_set_contains(set, v[lo])
        invariant
            0 <= lo <= v.len(),
            forall|j: int| 0 <= j < lo ==> in_trim_set(set, #[trigger] v@[j]),
        decreases v.len() - lo,
    {
        lo += 1;
    }
    proof {
        lemma_trim_start_skip(v@, set, lo as int);
        assert(trim_start(v@.skip(lo as int), set) == v@.skip(lo as int));
    }
    let ghost t = v@.skip(lo as int);
    let mut hi: usize = v.len();
    while hi > lo && trim_set_contains(set, v[hi - 1])
        invariant
            lo <= hi <= v.len(),
            t == v@.skip(lo as int),
            forall|j: int| hi <= j < v.len() ==> in_trim_set(set, #[trigger] v@[j]),
        decreases hi - lo,
    {
        hi -= 1;
    }
    proof {
        assert forall|j: int| hi - lo <= j < t.len() implies in_trim_set(set, #[trigger] t[j]) by {
            assert(t[j] == v@[j + lo]);
        }
        lemma_trim_end_take(t, set, hi - lo);
        assert(t.take(hi - lo) =~= v@.subrange(lo as int, hi as int));
    }
    slice_chars(v, lo, hi)
}

/// Removes the leading characters of `set` from `v` (`str::trim_start_matches`).
pub fn trim_start_exec(v: &Vec<char>, set: TrimSet) -> (r: Vec<char>)
    ensures
        r@ == trim_start(v@, set),
{
    let mut lo: usize = 0;
    while lo < v.len() && trim_set_contains(set, v[lo])
        invariant
            0 <= lo <= v.len(),
            forall|j: int| 0 <= j < lo ==> in_trim_set(set, #[trigger] v@[j]),
        decreases v.len() - lo,
    {
        lo += 1;
    }
    proof {
        lemma_trim_start_skip(v@, set, lo as int);
        assert(trim_start(v@.skip(lo as int), set) == v@.skip(lo as int));
        assert(v@.subrange(lo as int, v.len() as int) =~= v@.skip(lo as int));
    }
    slice_chars(v, lo, v.len())
}

/// `str::split` with a character pattern.
pub fn split_char_exec(v: &Vec<char>, c: char) -> (r: Vec<Vec<char>>)
    ensures
        r@.map_values(|x: Vec<char>| x@) == split_char(v@, c),
{
    let mut out: Vec<Vec<char>> = Vec::new();
    let mut rest = slice_chars(v, 0, v.len());
    assert(rest@ =~= v@);
    loop
        invariant
            out@.map_values(|x: Vec<char>| x@) + split_char(rest@, c) == split_char(v@, c),
        decreases rest@.len(),
    {
        match split_once_char_exec(&rest, c) {
            Some((a, b)) => {
                proof {
                    lemma_find_char(rest@, c);
                }
                let ghost old_out = out@;
                out.push(a);
                assert(out@.map_values(|x: Vec<char>| x@) =~= old_out.map_values(
                    |x: Vec<char>| x@,
                ).push(a@));
                assert(split_char(rest@, c) =~= seq![a@] + split_char(b@, c));
                rest = b;
            },
            None => {
                let ghost old_out = out@;
                let ghost r = rest@;
                assert(split_char(r, c) =~= seq![r]);
                out.push(rest);
                assert(out@.map_values(|x: Vec<char>| x@) =~= old_out.map_values(
                    |x: Vec<char>| x@,
                ).push(r));
                return out;
            },
        }
    }
}

/// `str::lines`.
pub fn lines_exec(v: &Vec<char>) -> (r: Vec<Vec<char>>)
    ensures
        r@.map_values(|x: Vec<char>| x@) == lines(v@),
{
    let mut out: Vec<Vec<char>> = Vec::new();
    let mut rest = slice_chars(v, 0, v.len());
    assert(rest@ =~= v@);
    loop
        invariant
            out@.map_values(|x: Vec<char>| x@) + lines(rest@) == lines(v@),
        decreases rest@.len(),
    {
        if rest.len() == 0 {
            assert(out@.map_values(|x: Vec<char>| x@) + lines(rest@) =~= out@.map_values(
                |x: Vec<char>| x@,
            ));
            return out;
        }
        let ghost old_out = out@;
        match split_once_char_exec(&rest, '\n') {
            Some((a, b)) => {
                proof {
                    lemma_find_char(rest@, '\n');
                }
                let line = if a.len() > 0 && a[a.len() - 1] == '\r' {
                    slice_chars(&a, 0, a.len() - 1)
                } else {
                    a
                };
                proof {
                    assert(line@ =~= strip_cr(a@));
                }
                out.push(line);
                assert(out@.map_values(|x: Vec<char>| x@) =~= old_out.map_values(
                    |x: Vec<char>| x@,
                ).push(line@));
                assert(lines(rest@) =~= seq![line@] + lines(b@));
                rest = b;
            },
            None => {
                let ghost r = rest@;
                out.push(rest);
                assert(out@.map_values(|x: Vec<char>| x@) =~= old_out.map_values(
                    |x: Vec<char>| x@,
                ).push(r));
                assert(lines(r) =~= seq![r]);
                return out;
            },
        }
    }
}

/// `u16::from_str`.
pub fn parse_u16_exec(s: &Vec<char>) -> (r: Option<u16>)
    ensures
        r == parse_u16(s@),
{
    let start: usize = if s.len() > 0 && s[0] == '+' {
        1
    } else {
        0
    };
    let ghost d = if s@.len() > 0 && s@[0] == '+' {
        s@.drop_first()
    } else {
        s@
    };
    assert(d =~= s@.skip(start as int));
    if start >= s.len() {
        return None;
    }
    let mut value: u32 = 0;
    let mut i = start;
    while i < s.len()
        invariant
            start <= i <= s.len(),
            d == s@.skip(start as int),
            d == (if s@.len() > 0 && s@[0] == '+' {
                s@.drop_first()
            } else {
                s@
            }),
            all_ascii_digits(d.take(i - start)),
            value as nat == decimal_value(d.take(i - start)),
            value <= u16::MAX,
        decreases s.len() - i,
    {
        let c = s[i];
        let u = c as u32;
        if !(48 <= u && u <= 57) {
            assert(d[i - start] == c);
            assert(!is_ascii_digit(d[i - start]));
            assert(!all_ascii_digits(d));
            return None;
        }
        let digit = u - 48;
        assert(d.take(i + 1 - start).drop_last() =~= d.take(i - start));
        assert(d.take(i + 1 - start).last() == c);
        let next = value * 10 + digit;
        if next > 65535 {
            proof {
                assert(decimal_value(d.take(i + 1 - start)) == value * 10 + digit);
                if all_ascii_digits(d) {
                    lemma_prefix_value_grows(d, i + 1 - start);
                    assert(decimal_value(d) > 65535);
                }
            }
            return None;
        }
        value = next;
        i += 1;
    }
    assert(d.take(i - start) =~= d);
    Some(value as u16)
}

/// The value of a digit string is at least the value of any of its prefixes.
proof fn lemma_prefix_value_grows(d: Seq<char>, k: int)
    requires
        0 <= k <= d.len(),
        all_ascii_digits(d),
    ensures
        decimal_value(d.take(k)) <= decimal_value(d),
    decreases d.len() - k,
{
    if k < d.len() {
        lemma_prefix_value_grows(d, k + 1);
        assert(d.take(k + 1).drop_last() =~= d.take(k));
        assert(is_ascii_digit(d[k]));
    } else {
        assert(d.take(k) =~= d);
    }
}

/// The decimal representation of `n` (`u16::to_string`).
pub fn u16_to_string(n: u16) -> (s: String)
    ensures
        s@ == decimal_string(n as nat),
{
    let mut digits: Vec<char> = Vec::new();
    let mut m: u16 = n;
    // digits holds the representation of n % 10^k reversed; m == n / 10^k
    loop
        invariant
            decimal_string(n as nat) == decimal_string(m as nat) + digits@,
            m <= n,
        decreases m,
    {
        let d = m % 10;
        let c = char_of_digit(d);
        proof {
            if m >= 10 {
                assert(decimal_string(m as nat) == decimal_string((m / 10) as nat) + seq![c]);
            } else {
                assert(decimal_string(m as nat) == seq![c]);
            }
        }
        let ghost old_digits = digits@;
        digits.insert(0, c);
        assert(digits@ =~= seq![c] + old_digits);
        if m < 10 {
            assert(decimal_string(n as nat) =~= digits@);
            return string_of(&digits);
        }
        m = m / 10;
        assert(decimal_string(n as nat) =~= decimal_string(m as nat) + digits@);
    }
}

fn char_of_digit(d: u16) -> (c: char)
    requires
        d < 10,
    ensures
        c == (('0' as u32) + d) as char,
{
    match d {
        0 => '0',
        1 => '1',
        2 => '2',
        3 => '3',
        4 => '4',
        5 => '5',
        6 => '6',
        7 => '7',
        8 => '8',
        _ => '9',
    }
}

// ---------------------------------------------------------------------------
// Laws
// ---------------------------------------------------------------------------
proof fn lemma_decimal_string_digits(n: nat)
    ensures
        decimal_string(n).len() > 0,
        all_ascii_digits(decimal_string(n)),
        decimal_value(decimal_string(n)) == n,
    decreases n,
{
    let d = (n % 10) as u32;
    let c = (('0' as u32) + d) as char;
    assert((c as u32) == ('0' as u32) + d);
    if n >= 10 {
        lemma_decimal_string_digits(n / 10);
        let s = decimal_string(n / 10);
        assert(decimal_string(n) == s + seq![c]);
        assert((s + seq![c]).drop_last() =~= s);
        assert((s + seq![c]).last() == c);
        assert(all_ascii_digits(s + seq![c])) by {
            assert forall|i: int| 0 <= i < (s + seq![c]).len() implies is_ascii_digit(
                #[trigger] (s + seq![c])[i],
            ) by {
                if i < s.len() {
                    assert((s + seq![c])[i] == s[i]);
                }
            }
        }
        assert(decimal_value(s + seq![c]) == decimal_value(s) * 10 + ((c as u32) - ('0'
            as u32)) as nat);
        assert(((c as u32) - ('0' as u32)) as nat == n % 10);
        assert((n / 10) * 10 + n % 10 == n) by (nonlinear_arith);
    } else {
        assert(decimal_string(n) == seq![c]);
        assert(seq![c].drop_last() =~= Seq::<char>::empty());
        assert(decimal_value(seq![c]) == decimal_value(Seq::<char>::empty()) * 10 + ((c as u32)
            - ('0' as u32)) as nat);
    }
}

/// Reading back the decimal text of a `u16` gives the number again
/// (`u16::to_string` followed by `u16::from_str`).
pub proof fn law_decimal_roundtrip(n: u16)
    ensures
        parse_u16(decimal_string(n as nat)) == Some(n),
{
    lemma_decimal_string_digits(n as nat);
    let s = decimal_string(n as nat);
    assert(is_ascii_digit(s[0]));
}

} // verus!
