//! How texts are trimmed, cut and split: each law takes a text by the parts it was made of.
use vstd::prelude::*;
use crate::status::{full_lines, trimmed_by, words};
use crate::text::{
    ends_with, find, find_is_first, find_last, find_last_is_last, find_unique, join, lex_lt, lines,
    rsplit_once, split, split_once, starts_with, strip_cr, trim, trim_end, trim_start, Class,
};

verus! {

/// Whether every character of a text is of the class.
pub open spec fn is_all(s: Seq<char>, k: Class) -> bool {
    forall|i: int| 0 <= i < s.len() ==> k.holds(#[trigger] s[i])
}

/// Whether no character of a text is of the class.
pub open spec fn is_free_of(s: Seq<char>, k: Class) -> bool {
    forall|i: int| 0 <= i < s.len() ==> !k.holds(#[trigger] s[i])
}

/// Trimming the start takes away all of the class that stands there, and nothing else.
pub proof fn starts_are_trimmed(edge: Seq<char>, s: Seq<char>, k: Class)
    requires
        is_all(edge, k),
        s.len() > 0 ==> !k.holds(s[0]),
    ensures
        trim_start(edge + s, k) == s,
    decreases edge.len(),
{
    let t = edge + s;
    if edge.len() > 0 {
        assert(k.holds(edge[0]));
        assert(t[0] == edge[0]);
        assert(t.drop_first() =~= edge.drop_first() + s);
        assert(is_all(edge.drop_first(), k)) by {
            assert forall|i: int| 0 <= i < edge.drop_first().len() implies k.holds(
                #[trigger] edge.drop_first()[i],
            ) by {
                assert(k.holds(edge[i + 1]));
            }
        }
        starts_are_trimmed(edge.drop_first(), s, k);
    } else {
        assert(t =~= s);
    }
}

/// Trimming the end takes away all of the class that stands there, and nothing else.
pub proof fn ends_are_trimmed(s: Seq<char>, edge: Seq<char>, k: Class)
    requires
        is_all(edge, k),
        s.len() > 0 ==> !k.holds(s.last()),
    ensures
        trim_end(s + edge, k) == s,
    decreases edge.len(),
{
    let t = s + edge;
    if edge.len() > 0 {
        assert(k.holds(edge[edge.len() - 1]));
        assert(t.last() == edge.last());
        assert(t.drop_last() =~= s + edge.drop_last());
        assert(is_all(edge.drop_last(), k)) by {
            assert forall|i: int| 0 <= i < edge.drop_last().len() implies k.holds(
                #[trigger] edge.drop_last()[i],
            ) by {
                assert(k.holds(edge[i]));
            }
        }
        ends_are_trimmed(s, edge.drop_last(), k);
    } else {
        assert(t =~= s);
    }
}

/// Trimming takes away all of the class at both ends, and nothing of what stands between; a text of
/// nothing else becomes empty.
pub proof fn edges_are_trimmed(front: Seq<char>, s: Seq<char>, back: Seq<char>, k: Class)
    requires
        is_all(front, k),
        is_all(back, k),
        s.len() > 0 ==> !k.holds(s[0]) && !k.holds(s.last()),
    ensures
        trim(front + s + back, k) == s,
{
    if s.len() > 0 {
        assert(front + s + back =~= front + (s + back));
        starts_are_trimmed(front, s + back, k);
        ends_are_trimmed(s, back, k);
    } else {
        let all = front + s + back;
        assert(all =~= (front + back) + s);
        assert(is_all(front + back, k)) by {
            assert forall|i: int| 0 <= i < (front + back).len() implies k.holds(
                #[trigger] (front + back)[i],
            ) by {
                if i < front.len() {
                    assert(k.holds(front[i]));
                } else {
                    assert(k.holds(back[i - front.len()]));
                }
            }
        }
        starts_are_trimmed(front + back, s, k);
    }
}

/// A text is cut at the first of the class, which belongs to neither part.
pub proof fn first_cuts(a: Seq<char>, c: char, b: Seq<char>, k: Class)
    requires
        is_free_of(a, k),
        k.holds(c),
    ensures
        split_once(a + seq![c] + b, k) == Some((a, b)),
        split_once(a, k) is None,
        split(a + seq![c] + b, k) == seq![a] + split(b, k),
        split(a, k) == seq![a],
{
    let s = a + seq![c] + b;
    assert forall|i: int| 0 <= i < a.len() implies !k.holds(#[trigger] s[i]) by {
        assert(s[i] == a[i]);
    }
    assert(s[a.len() as int] == c);
    find_unique(s, k, a.len() as int);
    assert(s.take(a.len() as int) =~= a);
    assert(s.skip(a.len() as int + 1) =~= b);
    find_is_first(a, k);
    if find(a, k) < a.len() {
        assert(k.holds(a[find(a, k)]));
    }
}

/// A text can be cut at the last of the class too, which belongs to neither part.
pub proof fn last_cuts(a: Seq<char>, c: char, b: Seq<char>, k: Class)
    requires
        is_free_of(b, k),
        k.holds(c),
    ensures
        rsplit_once(a + seq![c] + b, k) == Some((a, b)),
        rsplit_once(b, k) is None,
{
    let s = a + seq![c] + b;
    find_last_is_last(s, k);
    find_last_is_last(b, k);
    let at = find_last(s, k);
    assert(s[a.len() as int] == c);
    if at > a.len() {
        assert(s[at] == b[at - a.len() - 1]);
    }
    assert(s.take(a.len() as int) =~= a);
    assert(s.skip(a.len() as int + 1) =~= b);
}

/// A line ends before its newline, and before one carriage return in front of that; the rest of a text
/// without a newline is a line as it is, unless it is empty.
pub proof fn newlines_end_lines(line: Seq<char>, rest: Seq<char>)
    requires
        !line.contains('\n'),
    ensures
        lines(line + seq!['\n'] + rest) == seq![
            if line.len() > 0 && line.last() == '\r' {
                line.drop_last()
            } else {
                line
            },
        ] + lines(rest),
        line.len() > 0 ==> lines(line) == seq![line],
        lines(Seq::empty()) == Seq::<Seq<char>>::empty(),
{
    let k = Class::Only('\n');
    let s = line + seq!['\n'] + rest;
    assert forall|i: int| 0 <= i < line.len() implies !k.holds(#[trigger] line[i]) by {
        assert(line.contains(line[i]));
    }
    assert forall|i: int| 0 <= i < line.len() implies !k.holds(#[trigger] s[i]) by {
        assert(s[i] == line[i]);
    }
    assert(s[line.len() as int] == '\n');
    find_unique(s, k, line.len() as int);
    assert(s.take(line.len() as int) =~= line);
    assert(s.skip(line.len() as int + 1) =~= rest);
    find_is_first(line, k);
    if find(line, k) < line.len() {
        assert(k.holds(line[find(line, k)]));
    }
}

proof fn trimmed_from_the_front(first: Seq<char>, rest: Seq<Seq<char>>, n: nat, k: Class)
    requires
        n <= rest.len(),
    ensures
        trimmed_by(seq![first] + rest, n + 1, k) == if trim(first, k).len() == 0 {
            trimmed_by(rest, n, k)
        } else {
            seq![trim(first, k)] + trimmed_by(rest, n, k)
        },
    decreases n,
{
    let all = seq![first] + rest;
    if n == 0 {
        assert(trimmed_by(all, 0, k) =~= Seq::empty());
        assert(all[0] == first);
        assert(trimmed_by(rest, 0, k) =~= Seq::empty());
        assert(trimmed_by(all, 1, k) =~= if trim(first, k).len() == 0 {
            Seq::empty()
        } else {
            seq![trim(first, k)]
        });
    } else {
        trimmed_from_the_front(first, rest, (n - 1) as nat, k);
        assert(all[n as int] == rest[n - 1]);
        assert(trimmed_by(all, n + 1, k) =~= if trim(first, k).len() == 0 {
            trimmed_by(rest, n, k)
        } else {
            seq![trim(first, k)] + trimmed_by(rest, n, k)
        });
    }
}

proof fn words_lose_white_at_the_front(gap: Seq<char>, rest: Seq<char>)
    requires
        is_all(gap, Class::White),
    ensures
        words(gap + rest) == words(rest),
    decreases gap.len(),
{
    let k = Class::White;
    if gap.len() == 0 {
        assert(gap + rest =~= rest);
    } else {
        let none = Seq::<char>::empty();
        let more = gap.drop_first() + rest;
        assert(k.holds(gap[0]));
        assert(gap + rest =~= none + seq![gap[0]] + more);
        first_cuts(none, gap[0], more, k);
        trimmed_from_the_front(none, split(more, k), split(more, k).len(), k);
        assert(trim(none, k) =~= none);
        assert(is_all(gap.drop_first(), k)) by {
            assert forall|i: int| 0 <= i < gap.drop_first().len() implies k.holds(
                #[trigger] gap.drop_first()[i],
            ) by {
                assert(k.holds(gap[i + 1]));
            }
        }
        words_lose_white_at_the_front(gap.drop_first(), rest);
    }
}

/// Words stand between white space of any length, which may stand before the first of them too.
pub proof fn words_stand_between_white_space(
    front: Seq<char>,
    word: Seq<char>,
    c: char,
    rest: Seq<char>,
)
    requires
        is_all(front, Class::White),
        word.len() > 0,
        is_free_of(word, Class::White),
        Class::White.holds(c),
    ensures
        words(front + word + seq![c] + rest) == seq![word] + words(rest),
        words(front + word) == seq![word],
        words(front) == Seq::<Seq<char>>::empty(),
{
    let k = Class::White;
    let none = Seq::<char>::empty();
    let tail = word + seq![c] + rest;
    assert(front + word + seq![c] + rest =~= front + tail);
    words_lose_white_at_the_front(front, tail);
    words_lose_white_at_the_front(front, word);
    words_lose_white_at_the_front(front, none);
    assert(front + none =~= front);
    first_cuts(word, c, rest, k);
    first_cuts(none, c, rest, k);
    assert(!k.holds(word[0]) && !k.holds(word[word.len() - 1]));
    edges_are_trimmed(none, word, none, k);
    assert(none + word + none =~= word);
    trimmed_from_the_front(word, split(rest, k), split(rest, k).len(), k);
    let nothing = Seq::<Seq<char>>::empty();
    trimmed_from_the_front(word, nothing, 0, k);
    assert(seq![word] + nothing =~= seq![word]);
    trimmed_from_the_front(none, nothing, 0, k);
    assert(seq![none] + nothing =~= seq![none]);
    assert(trim(none, k) =~= none);
}

/// The lines of a body count trimmed, and not at all where nothing is left of them.
pub proof fn lines_count_trimmed(
    front: Seq<char>,
    line: Seq<char>,
    back: Seq<char>,
    rest: Seq<char>,
    k: Class,
)
    requires
        k == Class::White || k == Class::Padding,
        is_all(front, k),
        is_all(back, k),
        line.len() > 0 ==> !k.holds(line[0]) && !k.holds(line.last()),
        !front.contains('\n'),
        !line.contains('\n'),
        !back.contains('\n'),
    ensures
        full_lines(front + line + back + seq!['\n'] + rest, k) == if line.len() > 0 {
            seq![line] + full_lines(rest, k)
        } else {
            full_lines(rest, k)
        },
{
    let s = front + line + back;
    assert(!s.contains('\n')) by {
        if s.contains('\n') {
            let i = choose|i: int| 0 <= i < s.len() && s[i] == '\n';
            if i < front.len() {
                assert(front[i] == '\n');
            } else if i < front.len() + line.len() {
                assert(line[i - front.len()] == '\n');
            } else {
                assert(back[i - front.len() - line.len()] == '\n');
            }
        }
    }
    newlines_end_lines(s, rest);
    edges_are_trimmed(front, line, back, k);
    let shown = strip_cr(s);
    if s.len() > 0 && s.last() == '\r' {
        assert(k.holds('\r'));
        if back.len() > 0 {
            let less = back.drop_last();
            assert(shown =~= front + line + less);
            assert(is_all(less, k)) by {
                assert forall|i: int| 0 <= i < less.len() implies k.holds(#[trigger] less[i]) by {
                    assert(k.holds(back[i]));
                }
            }
            edges_are_trimmed(front, line, less, k);
        } else if line.len() > 0 {
            assert(s.last() == line.last());
        } else {
            let less = front.drop_last();
            assert(shown =~= less + line + back);
            assert(is_all(less, k)) by {
                assert forall|i: int| 0 <= i < less.len() implies k.holds(#[trigger] less[i]) by {
                    assert(k.holds(front[i]));
                }
            }
            edges_are_trimmed(less, line, back, k);
        }
    }
    trimmed_from_the_front(shown, lines(rest), lines(rest).len(), k);
}

/// Texts are ordered by the first character in which they differ, and one that another begins with
/// comes before it.
pub proof fn first_difference_orders(
    same: Seq<char>,
    c: char,
    d: char,
    a: Seq<char>,
    b: Seq<char>,
)
    ensures
        c < d ==> lex_lt(same + seq![c] + a, same + seq![d] + b),
        c < d ==> !lex_lt(same + seq![d] + b, same + seq![c] + a),
        lex_lt(same, same + seq![c] + a),
        !lex_lt(same + seq![c] + a, same),
    decreases same.len(),
{
    let x = same + seq![c] + a;
    let y = same + seq![d] + b;
    if same.len() > 0 {
        let rest = same.drop_first();
        first_difference_orders(rest, c, d, a, b);
        assert(x[0] == same[0] && y[0] == same[0]);
        assert(x.drop_first() =~= rest + seq![c] + a);
        assert(y.drop_first() =~= rest + seq![d] + b);
    } else {
        assert(x[0] == c && y[0] == d);
    }
}

/// Pieces are joined with the separator between them, and nowhere else.
pub proof fn joints_stand_between(parts: Seq<Seq<char>>, more: Seq<char>, sep: Seq<char>)
    ensures
        join(Seq::empty(), sep) == Seq::<char>::empty(),
        join(seq![more], sep) == more,
        parts.len() > 0 ==> join(parts.push(more), sep) == join(parts, sep) + sep + more,
{
    assert(parts.push(more).drop_last() =~= parts);
}

/// White space is what Unicode calls so, device strings are padded by zeros, spaces, tabs and carriage
/// returns, and patterns are known by three characters.
pub proof fn classes_hold_their_characters(c: char, d: char)
    ensures
        Class::White.holds(c) <==> c == '\t' || c == '\n' || c == '\u{b}' || c == '\u{c}' || c == '\r'
            || c == ' ' || c == '\u{85}' || c == '\u{a0}' || c == '\u{1680}' || '\u{2000}' <= c
            <= '\u{200a}' || c == '\u{2028}' || c == '\u{2029}' || c == '\u{202f}' || c
            == '\u{205f}' || c == '\u{3000}',
        Class::Padding.holds(c) <==> c == '\0' || c == ' ' || c == '\t' || c == '\r',
        Class::Glob.holds(c) <==> c == '*' || c == '?' || c == '[',
        Class::Only(d).holds(c) <==> c == d,
{
    let n = c as u32;
}

/// A text begins or ends with another where it is that one and something more.
pub proof fn texts_begin_and_end_with_their_parts(a: Seq<char>, b: Seq<char>, p: Seq<char>)
    ensures
        starts_with(a + b, a),
        ends_with(a + b, b),
        starts_with(a, p) ==> a == p + a.skip(p.len() as int),
        ends_with(a, p) ==> a == a.take(a.len() - p.len()) + p,
{
    assert((a + b).take(a.len() as int) =~= a);
    assert((a + b).skip((a + b).len() - b.len()) =~= b);
    if starts_with(a, p) {
        assert(a =~= a.take(p.len() as int) + a.skip(p.len() as int));
    }
    if ends_with(a, p) {
        assert(a =~= a.take(a.len() - p.len()) + a.skip(a.len() - p.len()));
    }
}

} // verus!
