//! Text as sequences of characters: the small vocabulary of string operations that the
//! rest of the crate is stated in.
use vstd::prelude::*;

verus! {

/// `String::push` appends one character at the end.
pub assume_specification[ String::push ](s: &mut String, c: char)
    ensures
        final(s)@ == old(s)@.push(c),
;

/// `==` on string slices compares their characters.
pub assume_specification[ <str as PartialEq>::eq ](a: &str, b: &str) -> (r: bool)
    ensures
        r == (a@ == b@),
;

/// A set of characters that text is trimmed by, split at or searched for.
pub enum Class {
    /// Unicode white space.
    White,
    /// One character.
    Only(char),
    /// What pads device-tree strings: NUL, space, tab and carriage return.
    Padding,
    /// Glob metacharacters: `*`, `?` and `[`.
    Glob,
}

/// The characters with the Unicode property `White_Space`.
pub open spec fn is_white(c: char) -> bool {
    ||| 0x9 <= c as u32 <= 0xd
    ||| c as u32 == 0x20
    ||| c as u32 == 0x85
    ||| c as u32 == 0xa0
    ||| c as u32 == 0x1680
    ||| 0x2000 <= c as u32 <= 0x200a
    ||| c as u32 == 0x2028
    ||| c as u32 == 0x2029
    ||| c as u32 == 0x202f
    ||| c as u32 == 0x205f
    ||| c as u32 == 0x3000
}

impl Class {
    /// Whether the class holds `c`.
    pub open spec fn holds(self, c: char) -> bool {
        match self {
            Class::White => is_white(c),
            Class::Only(d) => c == d,
            Class::Padding => c == '\0' || c == ' ' || c == '\t' || c == '\r',
            Class::Glob => c == '*' || c == '?' || c == '[',
        }
    }

    /// Whether the class holds `c`.
    pub fn has(&self, c: char) -> (r: bool)
        ensures
            r == self.holds(c),
    {
        match self {
            Class::White => {
                let n: u32 = c as u32;
                (0x9 <= n && n <= 0xd) || n == 0x20 || n == 0x85 || n == 0xa0 || n == 0x1680
                    || (0x2000 <= n && n <= 0x200a) || n == 0x2028 || n == 0x2029 || n == 0x202f
                    || n == 0x205f || n == 0x3000
            },
            Class::Only(d) => c == *d,
            Class::Padding => c == '\0' || c == ' ' || c == '\t' || c == '\r',
            Class::Glob => c == '*' || c == '?' || c == '[',
        }
    }
}

/// The characters of a string slice.
pub fn to_chars(s: &str) -> (out: Vec<char>)
    ensures
        out@ == s@,
{
    let mut out: Vec<char> = Vec::new();
    for c in it: s.chars()
        invariant
            out@ == it.seq().take(it.index()),
            it.seq() == s@,
    {
        out.push(c);
    }
    out
}

/// The string with the given characters.
pub fn from_chars(s: &[char]) -> (out: String)
    ensures
        out@ == s@,
{
    let mut out = String::new();
    let mut i: usize = 0;
    while i < s.len()
        invariant
            i <= s.len(),
            out@ == s@.take(i as int),
        decreases s.len() - i,
    {
        out.push(s[i]);
        i += 1;
    }
    out
}

/// Whether two string slices hold the same characters.
pub fn str_eq(a: &str, b: &str) -> (r: bool)
    ensures
        r == (a@ == b@),
{
    *a == *b
}

/// Whether two character slices are equal.
pub fn same(a: &[char], b: &[char]) -> (r: bool)
    ensures
        r == (a@ == b@),
{
    if a.len() != b.len() {
        return false;
    }
    let mut i: usize = 0;
    while i < a.len()
        invariant
            a.len() == b.len(),
            i <= a.len(),
            forall|k: int| 0 <= k < i ==> a@[k] == b@[k],
        decreases a.len() - i,
    {
        if a[i] != b[i] {
            return false;
        }
        i += 1;
    }
    assert(a@ =~= b@);
    true
}

/// Appends the characters of a slice to a vector.
pub fn extend(out: &mut Vec<char>, s: &[char])
    ensures
        final(out)@ == old(out)@ + s@,
{
    let mut i: usize = 0;
    while i < s.len()
        invariant
            i <= s.len(),
            out@ == old(out)@ + s@.take(i as int),
        decreases s.len() - i,
    {
        out.push(s[i]);
        assert(s@.take(i + 1) =~= s@.take(i as int).push(s@[i as int]));
        i += 1;
    }
    assert(s@.take(i as int) =~= s@);
}

/// Concatenation of two string slices.
pub fn cat(a: &str, b: &str) -> (out: String)
    ensures
        out@ == a@ + b@,
{
    let mut out = String::new();
    out.append(a);
    out.append(b);
    assert(out@ =~= a@ + b@);
    out
}

/// Concatenation of three string slices.
pub fn cat3(a: &str, b: &str, c: &str) -> (out: String)
    ensures
        out@ == a@ + b@ + c@,
{
    let mut out = cat(a, b);
    out.append(c);
    out
}

/// Concatenation of five string slices.
pub fn cat5(a: &str, b: &str, c: &str, d: &str, e: &str) -> (out: String)
    ensures
        out@ == a@ + b@ + c@ + d@ + e@,
{
    let mut out = cat3(a, b, c);
    out.append(d);
    out.append(e);
    out
}

// ---------------------------------------------------------------------------
// Order
// ---------------------------------------------------------------------------

/// Lexicographic order by code point, the order of `str`.
pub open spec fn lex_lt(a: Seq<char>, b: Seq<char>) -> bool
    decreases a.len(),
{
    if b.len() == 0 {
        false
    } else if a.len() == 0 {
        true
    } else if a[0] != b[0] {
        a[0] < b[0]
    } else {
        lex_lt(a.drop_first(), b.drop_first())
    }
}

/// The order is irreflexive.
pub proof fn lex_irreflexive(a: Seq<char>)
    ensures
        !lex_lt(a, a),
    decreases a.len(),
{
    if a.len() > 0 {
        lex_irreflexive(a.drop_first());
    }
}

/// The order is transitive.
pub proof fn lex_transitive(a: Seq<char>, b: Seq<char>, c: Seq<char>)
    requires
        lex_lt(a, b),
        lex_lt(b, c),
    ensures
        lex_lt(a, c),
    decreases a.len(),
{
    if a.len() > 0 && a[0] == b[0] && b[0] == c[0] {
        lex_transitive(a.drop_first(), b.drop_first(), c.drop_first());
    }
}

/// Of two different texts one comes first.
pub proof fn lex_total(a: Seq<char>, b: Seq<char>)
    ensures
        a == b || lex_lt(a, b) || lex_lt(b, a),
    decreases a.len(),
{
    if a.len() > 0 && b.len() > 0 && a[0] == b[0] {
        lex_total(a.drop_first(), b.drop_first());
        if a.drop_first() == b.drop_first() {
            assert(a =~= seq![a[0]] + a.drop_first());
            assert(b =~= seq![b[0]] + b.drop_first());
        }
    } else if a.len() == 0 && b.len() == 0 {
        assert(a =~= b);
    }
}

/// Whether `a` comes before `b`.
pub fn less(a: &[char], b: &[char]) -> (r: bool)
    ensures
        r == lex_lt(a@, b@),
{
    let mut i: usize = 0;
    assert(a@.skip(0) =~= a@ && b@.skip(0) =~= b@);
    while i < a.len() && i < b.len()
        invariant
            i <= a.len(),
            i <= b.len(),
            lex_lt(a@, b@) == lex_lt(a@.skip(i as int), b@.skip(i as int)),
        decreases a.len() - i,
    {
        if a[i] != b[i] {
            return a[i] < b[i];
        }
        assert(a@.skip(i as int).drop_first() =~= a@.skip(i + 1));
        assert(b@.skip(i as int).drop_first() =~= b@.skip(i + 1));
        i += 1;
    }
    i < b.len()
}

/// Whether `a` comes before `b`.
pub fn str_less(a: &str, b: &str) -> (r: bool)
    ensures
        r == lex_lt(a@, b@),
{
    less(&to_chars(a), &to_chars(b))
}

// ---------------------------------------------------------------------------
// Searching
// ---------------------------------------------------------------------------

/// Position of the first character of the class, or the length when there is none.
pub open spec fn find(s: Seq<char>, k: Class) -> int
    decreases s.len(),
{
    if s.len() == 0 || k.holds(s[0]) {
        0
    } else {
        1 + find(s.drop_first(), k)
    }
}

/// Position of the last character of the class, or -1 when there is none.
pub open spec fn find_last(s: Seq<char>, k: Class) -> int
    decreases s.len(),
{
    if s.len() == 0 {
        -1
    } else if k.holds(s.last()) {
        s.len() - 1
    } else {
        find_last(s.drop_last(), k)
    }
}

/// Whether some character of `s` is in the class.
pub open spec fn contains(s: Seq<char>, k: Class) -> bool {
    exists|i: int| 0 <= i < s.len() && k.holds(#[trigger] s[i])
}

/// `find` is the least position of the class.
pub proof fn find_is_first(s: Seq<char>, k: Class)
    ensures
        0 <= find(s, k) <= s.len(),
        forall|i: int| 0 <= i < find(s, k) ==> !k.holds(#[trigger] s[i]),
        find(s, k) < s.len() ==> k.holds(s[find(s, k)]),
        contains(s, k) == (find(s, k) < s.len()),
    decreases s.len(),
{
    if s.len() > 0 && !k.holds(s[0]) {
        find_is_first(s.drop_first(), k);
        assert forall|i: int| 0 <= i < find(s, k) implies !k.holds(#[trigger] s[i]) by {
            if i > 0 {
                assert(s[i] == s.drop_first()[i - 1]);
            }
        }
        assert(find(s, k) < s.len() ==> s[find(s, k)] == s.drop_first()[find(s, k) - 1]);
    }
    if contains(s, k) {
        let i = choose|i: int| 0 <= i < s.len() && k.holds(#[trigger] s[i]);
        assert(!(i < find(s, k)));
    }
}

/// A position before which the class does not occur, and at which it does or the text ends.
pub proof fn find_unique(s: Seq<char>, k: Class, p: int)
    requires
        0 <= p <= s.len(),
        forall|i: int| 0 <= i < p ==> !k.holds(#[trigger] s[i]),
        p < s.len() ==> k.holds(s[p]),
    ensures
        find(s, k) == p,
{
    find_is_first(s, k);
}

/// `find_last` is the greatest position of the class.
pub proof fn find_last_is_last(s: Seq<char>, k: Class)
    ensures
        -1 <= find_last(s, k) < s.len(),
        forall|i: int| find_last(s, k) < i < s.len() ==> !k.holds(#[trigger] s[i]),
        find_last(s, k) >= 0 ==> k.holds(s[find_last(s, k)]),
        contains(s, k) == (find_last(s, k) >= 0),
    decreases s.len(),
{
    if s.len() > 0 && !k.holds(s.last()) {
        find_last_is_last(s.drop_last(), k);
        assert forall|i: int| find_last(s, k) < i < s.len() implies !k.holds(#[trigger] s[i]) by {
            if i < s.len() - 1 {
                assert(s[i] == s.drop_last()[i]);
            }
        }
        assert(find_last(s, k) >= 0 ==> s[find_last(s, k)] == s.drop_last()[find_last(s, k)]);
    }
    if contains(s, k) {
        let i = choose|i: int| 0 <= i < s.len() && k.holds(#[trigger] s[i]);
        assert(!(find_last(s, k) < i));
    }
}

/// Position of the first character of the class, or the length.
pub fn find_in(s: &[char], k: &Class) -> (p: usize)
    ensures
        p == find(s@, *k),
        p <= s.len(),
{
    let mut i: usize = 0;
    while i < s.len()
        invariant
            i <= s.len(),
            forall|j: int| 0 <= j < i ==> !k.holds(#[trigger] s@[j]),
        decreases s.len() - i,
    {
        if k.has(s[i]) {
            proof {
                find_unique(s@, *k, i as int);
            }
            return i;
        }
        i += 1;
    }
    proof {
        find_unique(s@, *k, i as int);
    }
    i
}

/// Position of the last character of the class, if any.
pub fn find_last_in(s: &[char], k: &Class) -> (p: Option<usize>)
    ensures
        match p {
            Some(i) => i < s.len() && i == find_last(s@, *k),
            None => find_last(s@, *k) == -1,
        },
{
    let mut i: usize = s.len();
    proof {
        find_last_is_last(s@, *k);
    }
    while i > 0
        invariant
            i <= s.len(),
            forall|j: int| i <= j < s.len() ==> !k.holds(#[trigger] s@[j]),
            find_last(s@, *k) >= 0 ==> k.holds(s@[find_last(s@, *k)]),
            forall|j: int| find_last(s@, *k) < j < s.len() ==> !k.holds(#[trigger] s@[j]),
            -1 <= find_last(s@, *k) < s.len(),
        decreases i,
    {
        i -= 1;
        if k.has(s[i]) {
            return Some(i);
        }
    }
    None
}

/// Whether some character of `s` is in the class.
pub fn contains_in(s: &[char], k: &Class) -> (r: bool)
    ensures
        r == contains(s@, *k),
{
    proof {
        find_is_first(s@, *k);
    }
    find_in(s, k) < s.len()
}

/// Whether `s` begins with `p`.
pub open spec fn starts_with(s: Seq<char>, p: Seq<char>) -> bool {
    p.len() <= s.len() && s.take(p.len() as int) == p
}

/// Whether `s` ends with `p`.
pub open spec fn ends_with(s: Seq<char>, p: Seq<char>) -> bool {
    p.len() <= s.len() && s.skip(s.len() - p.len()) == p
}

/// Whether `s` begins with `p`.
pub fn begins(s: &[char], p: &[char]) -> (r: bool)
    ensures
        r == starts_with(s@, p@),
{
    if p.len() > s.len() {
        return false;
    }
    same(vstd::slice::slice_subrange(s, 0, p.len()), p)
}

/// Whether `s` ends with `p`.
pub fn finishes(s: &[char], p: &[char]) -> (r: bool)
    ensures
        r == ends_with(s@, p@),
{
    if p.len() > s.len() {
        return false;
    }
    same(vstd::slice::slice_subrange(s, s.len() - p.len(), s.len()), p)
}

/// The characters from position `i` on.
pub fn skip_chars(s: &[char], i: usize) -> (r: &[char])
    requires
        i <= s.len(),
    ensures
        r@ == s@.skip(i as int),
{
    vstd::slice::slice_subrange(s, i, s.len())
}

/// The first `i` characters.
pub fn take_chars(s: &[char], i: usize) -> (r: &[char])
    requires
        i <= s.len(),
    ensures
        r@ == s@.take(i as int),
{
    vstd::slice::slice_subrange(s, 0, i)
}

// ---------------------------------------------------------------------------
// Trimming
// ---------------------------------------------------------------------------

/// `s` without its leading characters of the class.
pub open spec fn trim_start(s: Seq<char>, k: Class) -> Seq<char>
    decreases s.len(),
{
    if s.len() > 0 && k.holds(s[0]) {
        trim_start(s.drop_first(), k)
    } else {
        s
    }
}

/// `s` without its trailing characters of the class.
pub open spec fn trim_end(s: Seq<char>, k: Class) -> Seq<char>
    decreases s.len(),
{
    if s.len() > 0 && k.holds(s.last()) {
        trim_end(s.drop_last(), k)
    } else {
        s
    }
}

/// `s` without its leading and trailing characters of the class.
pub open spec fn trim(s: Seq<char>, k: Class) -> Seq<char> {
    trim_end(trim_start(s, k), k)
}

/// `s` without its leading characters of the class.
pub fn trim_start_in<'a>(s: &'a [char], k: &Class) -> (r: &'a [char])
    ensures
        r@ == trim_start(s@, *k),
{
    let mut i: usize = 0;
    assert(s@.skip(0) =~= s@);
    while i < s.len() && k.has(s[i])
        invariant
            i <= s.len(),
            trim_start(s@, *k) == trim_start(s@.skip(i as int), *k),
        decreases s.len() - i,
    {
        assert(s@.skip(i as int).drop_first() =~= s@.skip(i + 1));
        i += 1;
    }
    skip_chars(s, i)
}

/// `s` without its trailing characters of the class.
pub fn trim_end_in<'a>(s: &'a [char], k: &Class) -> (r: &'a [char])
    ensures
        r@ == trim_end(s@, *k),
{
    let mut i: usize = s.len();
    assert(s@.take(i as int) =~= s@);
    while i > 0 && k.has(s[i - 1])
        invariant
            i <= s.len(),
            trim_end(s@, *k) == trim_end(s@.take(i as int), *k),
        decreases i,
    {
        assert(s@.take(i as int).drop_last() =~= s@.take(i - 1));
        i -= 1;
    }
    take_chars(s, i)
}

/// `s` without its leading and trailing characters of the class.
pub fn trim_in<'a>(s: &'a [char], k: &Class) -> (r: &'a [char])
    ensures
        r@ == trim(s@, *k),
{
    trim_end_in(trim_start_in(s, k), k)
}

// ---------------------------------------------------------------------------
// Splitting and joining
// ---------------------------------------------------------------------------

/// What the pieces of text in a vector hold.
pub open spec fn pieces(v: Seq<Vec<char>>) -> Seq<Seq<char>> {
    Seq::new(v.len(), |i: int| v[i]@)
}

/// The pieces of `s` between characters of the class; a text without any is one piece.
pub open spec fn split(s: Seq<char>, k: Class) -> Seq<Seq<char>>
    decreases s.len(),
    via split_shrinks
{
    let i = find(s, k);
    if i < s.len() {
        seq![s.take(i)] + split(s.skip(i + 1), k)
    } else {
        seq![s]
    }
}

#[via_fn]
proof fn split_shrinks(s: Seq<char>, k: Class) {
    find_is_first(s, k);
}

/// The pieces of `s` between characters of the class.
pub fn split_in(s: &[char], k: &Class) -> (out: Vec<Vec<char>>)
    ensures
        pieces(out@) == split(s@, *k),
        out.len() >= 1,
{
    let mut out: Vec<Vec<char>> = Vec::new();
    let mut start: usize = 0;
    assert(s@.skip(0) =~= s@);
    assert(pieces(out@) + split(s@, *k) =~= split(s@, *k));
    loop
        invariant
            start <= s.len(),
            pieces(out@) + split(s@.skip(start as int), *k) == split(s@, *k),
        decreases s.len() - start,
    {
        let rest = skip_chars(s, start);
        let p = find_in(rest, k);
        let ghost before = pieces(out@);
        if p < rest.len() {
            out.push(vstd::slice::slice_to_vec(take_chars(rest, p)));
            proof {
                assert(rest@.skip(p + 1) =~= s@.skip(start + p + 1));
                assert(pieces(out@) =~= before.push(rest@.take(p as int)));
                assert(pieces(out@) + split(s@.skip(start + p + 1), *k) =~= before + split(
                    rest@,
                    *k,
                ));
            }
            start = start + p + 1;
        } else {
            out.push(vstd::slice::slice_to_vec(rest));
            proof {
                assert(pieces(out@) =~= before + split(rest@, *k));
            }
            return out;
        }
    }
}

/// `s` cut at the first character of the class, which is dropped.
pub open spec fn split_once(s: Seq<char>, k: Class) -> Option<(Seq<char>, Seq<char>)> {
    let i = find(s, k);
    if i < s.len() {
        Some((s.take(i), s.skip(i + 1)))
    } else {
        None
    }
}

/// `s` cut at the last character of the class, which is dropped.
pub open spec fn rsplit_once(s: Seq<char>, k: Class) -> Option<(Seq<char>, Seq<char>)> {
    let i = find_last(s, k);
    if i >= 0 {
        Some((s.take(i), s.skip(i + 1)))
    } else {
        None
    }
}

/// `s` cut at the first character of the class, which is dropped.
pub fn split_once_in<'a>(s: &'a [char], k: &Class) -> (r: Option<(&'a [char], &'a [char])>)
    ensures
        match r {
            Some((a, b)) => split_once(s@, *k) == Some((a@, b@)),
            None => split_once(s@, *k) is None,
        },
{
    let p = find_in(s, k);
    if p < s.len() {
        Some((take_chars(s, p), skip_chars(s, p + 1)))
    } else {
        None
    }
}

/// `s` cut at the last character of the class, which is dropped.
pub fn rsplit_once_in<'a>(s: &'a [char], k: &Class) -> (r: Option<(&'a [char], &'a [char])>)
    ensures
        match r {
            Some((a, b)) => rsplit_once(s@, *k) == Some((a@, b@)),
            None => rsplit_once(s@, *k) is None,
        },
{
    match find_last_in(s, k) {
        Some(p) => Some((take_chars(s, p), skip_chars(s, p + 1))),
        None => None,
    }
}

/// `s` without one trailing carriage return.
pub open spec fn strip_cr(s: Seq<char>) -> Seq<char> {
    if s.len() > 0 && s.last() == '\r' {
        s.drop_last()
    } else {
        s
    }
}

/// The lines of `s`: pieces ended by a newline, each without the newline and one carriage
/// return before it, and the rest of the text unless it is empty.
pub open spec fn lines(s: Seq<char>) -> Seq<Seq<char>>
    decreases s.len(),
    via lines_shrink
{
    let i = find(s, Class::Only('\n'));
    if s.len() == 0 {
        Seq::empty()
    } else if i < s.len() {
        seq![strip_cr(s.take(i))] + lines(s.skip(i + 1))
    } else {
        seq![s]
    }
}

#[via_fn]
proof fn lines_shrink(s: Seq<char>) {
    find_is_first(s, Class::Only('\n'));
}

/// The lines of `s`.
pub fn lines_in(s: &[char]) -> (out: Vec<Vec<char>>)
    ensures
        pieces(out@) == lines(s@),
{
    let mut out: Vec<Vec<char>> = Vec::new();
    let mut start: usize = 0;
    let newline = Class::Only('\n');
    assert(s@.skip(0) =~= s@);
    assert(pieces(out@) + lines(s@) =~= lines(s@));
    while start < s.len()
        invariant
            start <= s.len(),
            newline == Class::Only('\n'),
            pieces(out@) + lines(s@.skip(start as int)) == lines(s@),
        decreases s.len() - start,
    {
        let rest = skip_chars(s, start);
        let p = find_in(rest, &newline);
        let ghost before = pieces(out@);
        if p < rest.len() {
            let mut q: usize = p;
            if q > 0 && rest[q - 1] == '\r' {
                q -= 1;
            }
            out.push(vstd::slice::slice_to_vec(take_chars(rest, q)));
            proof {
                assert(strip_cr(rest@.take(p as int)) =~= rest@.take(q as int));
                assert(rest@.skip(p + 1) =~= s@.skip(start + p + 1));
                assert(pieces(out@) =~= before.push(rest@.take(q as int)));
                assert(pieces(out@) + lines(s@.skip(start + p + 1)) =~= before + lines(rest@));
            }
            start = start + p + 1;
        } else {
            out.push(vstd::slice::slice_to_vec(rest));
            proof {
                assert(pieces(out@) =~= before + lines(rest@));
                assert(s@.skip(s@.len() as int).len() == 0);
                assert(lines(s@.skip(s@.len() as int)) =~= Seq::empty());
                assert(pieces(out@) + lines(s@.skip(s@.len() as int)) =~= pieces(out@));
            }
            start = s.len();
        }
    }
    proof {
        assert(lines(s@.skip(start as int)) =~= Seq::empty());
        assert(pieces(out@) + Seq::<Seq<char>>::empty() =~= pieces(out@));
    }
    out
}

/// The pieces joined with `sep` between them.
pub open spec fn join(parts: Seq<Seq<char>>, sep: Seq<char>) -> Seq<char>
    decreases parts.len(),
{
    if parts.len() == 0 {
        Seq::empty()
    } else if parts.len() == 1 {
        parts[0]
    } else {
        join(parts.drop_last(), sep) + sep + parts.last()
    }
}

/// The pieces joined with `sep` between them.
pub fn join_in(parts: &Vec<Vec<char>>, sep: &[char]) -> (out: Vec<char>)
    ensures
        out@ == join(pieces(parts@), sep@),
{
    let mut out: Vec<char> = Vec::new();
    let mut i: usize = 0;
    while i < parts.len()
        invariant
            i <= parts.len(),
            out@ == join(pieces(parts@).take(i as int), sep@),
        decreases parts.len() - i,
    {
        if i > 0 {
            extend(&mut out, sep);
        }
        extend(&mut out, &parts[i]);
        proof {
            let t = pieces(parts@).take(i + 1);
            assert(t.drop_last() =~= pieces(parts@).take(i as int));
            assert(t.last() == parts@[i as int]@);
            if i == 0 {
                assert(out@ =~= parts@[0]@);
            }
        }
        i += 1;
    }
    assert(pieces(parts@).take(i as int) =~= pieces(parts@));
    out
}

/// `x` put into the ascending `s`, which stays as it is where `x` is there already.
pub open spec fn insert_text(s: Seq<Seq<char>>, x: Seq<char>) -> Seq<Seq<char>>
    decreases s.len(),
{
    if s.len() == 0 {
        seq![x]
    } else if x == s.last() {
        s
    } else if lex_lt(x, s.last()) {
        insert_text(s.drop_last(), x).push(s.last())
    } else {
        s.push(x)
    }
}

/// The texts of `s`, each once, in ascending order.
pub open spec fn sort_dedup(s: Seq<Seq<char>>) -> Seq<Seq<char>>
    decreases s.len(),
{
    if s.len() == 0 {
        Seq::empty()
    } else {
        insert_text(sort_dedup(s.drop_last()), s.last())
    }
}

/// Whether the texts are in strictly ascending order.
pub open spec fn ascending(s: Seq<Seq<char>>) -> bool {
    forall|i: int, j: int| 0 <= i < j < s.len() ==> lex_lt(#[trigger] s[i], #[trigger] s[j])
}

proof fn insert_text_at(s: Seq<Seq<char>>, x: Seq<char>, at: int)
    requires
        0 <= at <= s.len(),
        forall|j: int| at <= j < s.len() ==> lex_lt(x, #[trigger] s[j]),
        at > 0 ==> !lex_lt(x, s[at - 1]),
    ensures
        insert_text(s, x) == if at > 0 && s[at - 1] == x {
            s
        } else {
            s.insert(at, x)
        },
    decreases s.len(),
{
    if at < s.len() {
        assert(lex_lt(x, s[s.len() - 1]));
        lex_irreflexive(x);
        insert_text_at(s.drop_last(), x, at);
        if at > 0 && s[at - 1] == x {
            assert(s.drop_last().push(s.last()) =~= s);
        } else {
            assert(s.insert(at, x) =~= s.drop_last().insert(at, x).push(s.last()));
        }
    } else if s.len() == 0 {
        assert(s.insert(at, x) =~= seq![x]);
    } else {
        assert(s.insert(at, x) =~= s.push(x));
    }
}

proof fn insert_text_keeps(s: Seq<Seq<char>>, x: Seq<char>)
    requires
        ascending(s),
    ensures
        ascending(insert_text(s, x)),
        forall|y: Seq<char>| #[trigger]
            insert_text(s, x).contains(y) <==> (y == x || s.contains(y)),
    decreases s.len(),
{
    let r = insert_text(s, x);
    if s.len() == 0 {
        assert(r[0] == x);
    } else if x == s.last() {
        assert(s[s.len() - 1] == x);
    } else if lex_lt(x, s.last()) {
        let t = insert_text(s.drop_last(), x);
        insert_text_keeps(s.drop_last(), x);
        assert(r == t.push(s.last()));
        assert forall|i: int, j: int| 0 <= i < j < r.len() implies lex_lt(
            #[trigger] r[i],
            #[trigger] r[j],
        ) by {
            if j == t.len() {
                assert(t.contains(t[i]));
                if t[i] != x {
                    let k = choose|k: int| 0 <= k < s.drop_last().len() && s.drop_last()[k] == t[i];
                    assert(s[k] == t[i]);
                    assert(lex_lt(s[k], s[s.len() - 1]));
                }
            }
        }
        assert forall|y: Seq<char>| #[trigger] r.contains(y) <==> (y == x || s.contains(y)) by {
            if r.contains(y) {
                let i = choose|i: int| 0 <= i < r.len() && r[i] == y;
                if i < t.len() {
                    assert(t.contains(y));
                    if y != x {
                        let k = choose|k: int| 0 <= k < s.drop_last().len() && s.drop_last()[k] == y;
                        assert(s[k] == y);
                    }
                } else {
                    assert(s[s.len() - 1] == y);
                }
            }
            if y == x || s.contains(y) {
                if y != x {
                    let k = choose|k: int| 0 <= k < s.len() && s[k] == y;
                    if k < s.len() - 1 {
                        assert(s.drop_last()[k] == y);
                        assert(t.contains(y));
                    } else {
                        assert(r[t.len() as int] == y);
                    }
                }
                if t.contains(y) {
                    let k = choose|k: int| 0 <= k < t.len() && t[k] == y;
                    assert(r[k] == y);
                }
            }
        }
    } else {
        lex_total(x, s.last());
        assert(r == s.push(x));
        assert(r[s.len() as int] == x);
        assert forall|i: int, j: int| 0 <= i < j < r.len() implies lex_lt(
            #[trigger] r[i],
            #[trigger] r[j],
        ) by {
            if j == s.len() && i < s.len() - 1 {
                assert(lex_lt(s[i], s[s.len() - 1]));
                lex_transitive(s[i], s.last(), x);
            }
        }
        assert forall|y: Seq<char>| #[trigger] r.contains(y) <==> (y == x || s.contains(y)) by {
            if s.contains(y) {
                let k = choose|k: int| 0 <= k < s.len() && s[k] == y;
                assert(r[k] == y);
            }
        }
    }
}

/// Sorting without duplicates gives an ascending list of exactly the given texts.
pub proof fn sort_dedup_is_ascending(s: Seq<Seq<char>>)
    ensures
        ascending(sort_dedup(s)),
        forall|y: Seq<char>| #[trigger] sort_dedup(s).contains(y) <==> s.contains(y),
    decreases s.len(),
{
    if s.len() > 0 {
        let rest = s.drop_last();
        sort_dedup_is_ascending(rest);
        insert_text_keeps(sort_dedup(rest), s.last());
        assert forall|y: Seq<char>| #[trigger] sort_dedup(s).contains(y) <==> s.contains(y) by {
            if s.contains(y) {
                let k = choose|k: int| 0 <= k < s.len() && s[k] == y;
                if k < s.len() - 1 {
                    assert(rest[k] == y);
                }
            }
            if rest.contains(y) {
                let k = choose|k: int| 0 <= k < rest.len() && rest[k] == y;
                assert(s[k] == y);
            }
            assert(s[s.len() - 1] == s.last());
        }
    }
}

/// Puts `x` into the ascending `v`, unless it is there already.
pub fn insert_text_in(v: &mut Vec<String>, x: &str)
    ensures
        final(v).deep_view() == insert_text(old(v).deep_view(), x@),
{
    let ghost s = v.deep_view();
    let mut at: usize = v.len();
    while at > 0 && str_less(x, v[at - 1].as_str())
        invariant
            at <= v.len(),
            s == v.deep_view(),
            forall|j: int| at <= j < s.len() ==> lex_lt(x@, #[trigger] s[j]),
        decreases at,
    {
        at -= 1;
    }
    proof {
        insert_text_at(s, x@, at as int);
    }
    if at > 0 && str_eq(v[at - 1].as_str(), x) {
        return ;
    }
    v.insert(at, x.to_owned());
    assert(v.deep_view() =~= s.insert(at as int, x@));
}

} // verus!
