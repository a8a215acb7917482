//! Glob patterns over logical paths.
use vstd::prelude::*;
use vstd::slice::slice_subrange;
use crate::error::{agrees, Error, ErrorView};
use crate::resolve::{
    path_segments, resolve_item_ref, resolved, resolved_items_are_listed, segments,
};
use crate::text::{contains, contains_in, pieces, skip_chars, to_chars, Class};
use crate::tree::{children, children_map, children_membership, ChildrenMap};
use crate::walk::{does_walk_end, ends, ends_prefix, walk_ends, Walk};
use crate::xochitl::{Item, ItemView};

verus! {

/// Whether a reference contains glob metacharacters (`*`, `?`, `[`).
pub fn is_glob(reference: &str) -> (r: bool)
    ensures
        r == contains(reference@, Class::Glob),
{
    contains_in(&to_chars(reference), &Class::Glob)
}

/// The members of a character class from position `i` on, as ranges, and the position behind the
/// closing bracket; a bracket in first place is a member. `None` when the class is not closed.
pub open spec fn class_from(p: Seq<char>, i: int, first: bool) -> Option<(int, Seq<(char, char)>)>
    decreases p.len() - i,
{
    if i < 0 || i >= p.len() {
        None
    } else if p[i] == ']' && !first {
        Some((i + 1, Seq::empty()))
    } else if i + 2 < p.len() && p[i + 1] == '-' && p[i + 2] != ']' {
        match class_from(p, i + 3, false) {
            Some((end, more)) => Some((end, seq![(p[i], p[i + 2])] + more)),
            None => None,
        }
    } else {
        match class_from(p, i + 1, false) {
            Some((end, more)) => Some((end, seq![(p[i], p[i])] + more)),
            None => None,
        }
    }
}

/// A closed class ends within the pattern.
pub proof fn class_from_bounds(p: Seq<char>, i: int, first: bool)
    ensures
        class_from(p, i, first) matches Some((end, _)) ==> 0 < end <= p.len(),
    decreases p.len() - i,
{
    if 0 <= i < p.len() {
        class_from_bounds(p, i + 1, false);
        if i + 2 < p.len() {
            class_from_bounds(p, i + 3, false);
        }
    }
}

/// Whether the class that `p` begins with is negated.
pub open spec fn is_negated(p: Seq<char>) -> bool {
    p.len() > 0 && p[0] == '!'
}

/// The character class that `p` begins with: the position behind it and its ranges.
pub open spec fn class_of(p: Seq<char>) -> Option<(int, Seq<(char, char)>)> {
    class_from(
        p,
        if is_negated(p) {
            1
        } else {
            0
        },
        true,
    )
}

/// Whether some range holds `c`.
pub open spec fn in_ranges(ranges: Seq<(char, char)>, c: char) -> bool {
    exists|i: int| 0 <= i < ranges.len() && (#[trigger] ranges[i]).0 <= c <= ranges[i].1
}

/// Whether one pattern segment matches one path segment.
pub open spec fn segment_matches(p: Seq<char>, t: Seq<char>) -> bool
    decreases p.len(), t.len(),
{
    if p.len() == 0 {
        t.len() == 0
    } else {
        let rest = p.drop_first();
        if p[0] == '*' {
            segment_matches(rest, t) || (t.len() > 0 && segment_matches(p, t.drop_first()))
        } else if p[0] == '?' {
            t.len() > 0 && segment_matches(rest, t.drop_first())
        } else if p[0] == '[' {
            proof {
                class_from_bounds(
                    rest,
                    if is_negated(rest) {
                        1
                    } else {
                        0
                    },
                    true,
                );
            }
            match class_of(rest) {
                Some((end, ranges)) => t.len() > 0 && in_ranges(ranges, t[0]) != is_negated(rest)
                    && segment_matches(rest.skip(end), t.drop_first()),
                None => t.len() > 0 && t[0] == '[' && segment_matches(rest, t.drop_first()),
            }
        } else {
            t.len() > 0 && t[0] == p[0] && segment_matches(rest, t.drop_first())
        }
    }
}

/// Parses the class that `p` begins with.
fn parse_class(p: &[char]) -> (r: Option<(usize, bool, Vec<(char, char)>)>)
    ensures
        match r {
            Some((end, negated, ranges)) => class_of(p@) == Some((end as int, ranges@)) && negated
                == is_negated(p@) && end <= p.len(),
            None => class_of(p@) is None,
        },
{
    let negated = p.len() > 0 && p[0] == '!';
    let mut i: usize = if negated {
        1
    } else {
        0
    };
    let ghost start = i as int;
    let mut ranges: Vec<(char, char)> = Vec::new();
    let mut first = true;
    proof {
        match class_from(p@, start, true) {
            Some((end, more)) => {
                assert(ranges@ + more =~= more);
            },
            None => {},
        }
    }
    while i < p.len()
        invariant
            i <= p.len(),
            class_of(p@) == class_from(p@, start, true),
            class_from(p@, start, true) == match class_from(p@, i as int, first) {
                Some((end, more)) => Some((end, ranges@ + more)),
                None => None,
            },
            negated == is_negated(p@),
        decreases p.len() - i,
    {
        let c = p[i];
        let ghost before = ranges@;
        if c == ']' && !first {
            assert(ranges@ + Seq::<(char, char)>::empty() =~= ranges@);
            return Some((i + 1, negated, ranges));
        }
        proof {
            let here = if i + 2 < p.len() && p[i + 1] == '-' && p[i + 2] != ']' {
                (c, p@[i + 2])
            } else {
                (c, c)
            };
            let next = if i + 2 < p.len() && p[i + 1] == '-' && p[i + 2] != ']' {
                i + 3
            } else {
                i + 1
            };
            match class_from(p@, next, false) {
                Some((end, more)) => {
                    assert(before + (seq![here] + more) =~= before.push(here) + more);
                },
                None => {},
            }
        }
        first = false;
        if p.len() - i > 2 && p[i + 1] == '-' && p[i + 2] != ']' {
            ranges.push((c, p[i + 2]));
            i += 3;
        } else {
            ranges.push((c, c));
            i += 1;
        }
    }
    None
}

fn has_member(ranges: &Vec<(char, char)>, c: char) -> (r: bool)
    ensures
        r == in_ranges(ranges@, c),
{
    let mut i: usize = 0;
    while i < ranges.len()
        invariant
            i <= ranges.len(),
            forall|k: int|
                0 <= k < i ==> !((#[trigger] ranges@[k]).0 <= c <= ranges@[k].1),
        decreases ranges.len() - i,
    {
        if ranges[i].0 <= c && c <= ranges[i].1 {
            assert(ranges@[i as int].0 <= c <= ranges@[i as int].1);
            return true;
        }
        i += 1;
    }
    false
}

/// Matches one glob segment (no `/`) against one path segment. Supports `*`, `?`, and character
/// classes `[...]` and `[!...]` with ranges; an unterminated `[` matches a literal `[`.
pub fn segment_match(pattern: &[char], text: &[char]) -> (r: bool)
    ensures
        r == segment_matches(pattern@, text@),
    decreases pattern.len(), text.len(),
{
    if pattern.len() == 0 {
        return text.len() == 0;
    }
    let rest = skip_chars(pattern, 1);
    assert(rest@ =~= pattern@.drop_first());
    if pattern[0] == '*' {
        if segment_match(rest, text) {
            return true;
        }
        if text.len() == 0 {
            return false;
        }
        let text_rest = skip_chars(text, 1);
        assert(text_rest@ =~= text@.drop_first());
        return segment_match(pattern, text_rest);
    }
    if pattern[0] == '[' {
        match parse_class(rest) {
            Some((end, negated, ranges)) => {
                if text.len() == 0 {
                    return false;
                }
                let behind = skip_chars(rest, end);
                let text_rest = skip_chars(text, 1);
                assert(text_rest@ =~= text@.drop_first());
                return has_member(&ranges, text[0]) != negated && segment_match(behind, text_rest);
            },
            None => {},
        }
    }
    if text.len() == 0 {
        return false;
    }
    let text_rest = skip_chars(text, 1);
    assert(text_rest@ =~= text@.drop_first());
    (pattern[0] == '?' || text[0] == pattern[0]) && segment_match(rest, text_rest)
}

/// Whether pattern segments match path segments. A bare `**` stands for any number of segments;
/// at the end of the pattern, for at least one.
pub open spec fn path_matches(pattern: Seq<Seq<char>>, path: Seq<Seq<char>>) -> bool
    decreases pattern.len(), path.len(),
{
    if pattern.len() == 0 {
        path.len() == 0
    } else {
        let rest = pattern.drop_first();
        if pattern[0] == seq!['*', '*'] {
            if pattern.len() == 1 {
                path.len() > 0
            } else {
                path_matches(rest, path) || (path.len() > 0 && path_matches(
                    pattern,
                    path.drop_first(),
                ))
            }
        } else {
            path.len() > 0 && segment_matches(pattern[0], path[0]) && path_matches(
                rest,
                path.drop_first(),
            )
        }
    }
}

fn tail(s: &[Vec<char>], i: usize) -> (r: &[Vec<char>])
    requires
        i <= s.len(),
    ensures
        r@ == s@.skip(i as int),
        pieces(r@) == pieces(s@).skip(i as int),
{
    let r = slice_subrange(s, i, s.len());
    assert(r@ =~= s@.skip(i as int));
    assert(pieces(r@) =~= pieces(s@).skip(i as int));
    r
}

/// Matches glob pattern segments against path segments. `*`, `?` and classes never cross a `/`.
/// A bare `**` segment in the middle matches any number of segments, including none; a trailing
/// `**` matches everything inside a folder but not the folder itself.
pub fn match_segments(pattern: &[Vec<char>], path: &[Vec<char>]) -> (r: bool)
    ensures
        r == path_matches(pieces(pattern@), pieces(path@)),
    decreases pattern.len(), path.len(),
{
    if pattern.len() == 0 {
        return path.len() == 0;
    }
    let rest = tail(pattern, 1);
    let first = &pattern[0];
    proof {
        assert(pieces(pattern@)[0] == first@);
        assert(pieces(rest@) =~= pieces(pattern@).drop_first());
        assert((first.len() == 2 && first[0] == '*' && first[1] == '*') == (first@ =~= seq![
            '*',
            '*',
        ]));
    }
    if first.len() == 2 && first[0] == '*' && first[1] == '*' {
        if pattern.len() == 1 {
            return path.len() > 0;
        }
        if match_segments(rest, path) {
            return true;
        }
        if path.len() == 0 {
            return false;
        }
        let path_rest = tail(path, 1);
        assert(pieces(path_rest@) =~= pieces(path@).drop_first());
        return match_segments(pattern, path_rest);
    }
    if path.len() == 0 {
        return false;
    }
    let path_rest = tail(path, 1);
    proof {
        assert(pieces(path@)[0] == path[0]@);
        assert(pieces(path_rest@) =~= pieces(path@).drop_first());
    }
    segment_match(first, &path[0]) && match_segments(rest, path_rest)
}

/// A `*` in front matches any number of characters.
pub proof fn star_matches_any_run(rest: Seq<char>, t: Seq<char>)
    ensures
        segment_matches(seq!['*'] + rest, t) <==> exists|k: int|
            0 <= k <= t.len() && #[trigger] segment_matches(rest, t.skip(k)),
    decreases t.len(),
{
    let p = seq!['*'] + rest;
    assert(p.drop_first() =~= rest);
    assert(t.skip(0) =~= t);
    if segment_matches(rest, t) {
        assert(segment_matches(rest, t.skip(0)));
    }
    if t.len() > 0 {
        let u = t.drop_first();
        star_matches_any_run(rest, u);
        if segment_matches(p, u) {
            let k = choose|k: int| 0 <= k <= u.len() && #[trigger] segment_matches(rest, u.skip(k));
            assert(u.skip(k) =~= t.skip(k + 1));
            assert(segment_matches(rest, t.skip(k + 1)));
        }
        if exists|k: int| 0 <= k <= t.len() && #[trigger] segment_matches(rest, t.skip(k)) {
            let k = choose|k: int| 0 <= k <= t.len() && #[trigger] segment_matches(rest, t.skip(k));
            if k > 0 {
                assert(u.skip(k - 1) =~= t.skip(k));
                assert(segment_matches(rest, u.skip(k - 1)));
            }
        }
    }
}

/// A segment without metacharacters matches itself and nothing else.
pub proof fn literal_segment_matches_itself(p: Seq<char>, t: Seq<char>)
    requires
        !contains(p, Class::Glob),
    ensures
        segment_matches(p, t) <==> p == t,
    decreases p.len(),
{
    if p.len() > 0 {
        assert(!Class::Glob.holds(p[0]));
        assert forall|i: int| 0 <= i < p.drop_first().len() implies !Class::Glob.holds(
            #[trigger] p.drop_first()[i],
        ) by {
            assert(!Class::Glob.holds(p[i + 1]));
        }
        if t.len() > 0 {
            literal_segment_matches_itself(p.drop_first(), t.drop_first());
            if p.drop_first() == t.drop_first() && p[0] == t[0] {
                assert forall|i: int| 0 <= i < p.len() implies p[i] == t[i] by {
                    if i > 0 {
                        assert(p.drop_first()[i - 1] == t.drop_first()[i - 1]);
                    }
                }
                assert(p.len() == p.drop_first().len() + 1);
                assert(t.len() == t.drop_first().len() + 1);
                assert(p =~= t);
            }
        }
    } else {
        assert(p == t <==> t.len() == 0) by {
            if t.len() == 0 {
                assert(p =~= t);
            }
        }
    }
}

/// A folder path followed by `**` matches everything inside the folder, at any depth, and not
/// the folder itself.
pub proof fn trailing_double_star_matches_inside_only(folder: Seq<Seq<char>>, path: Seq<Seq<char>>)
    requires
        forall|i: int| 0 <= i < folder.len() ==> !contains(#[trigger] folder[i], Class::Glob),
    ensures
        path_matches(folder.push(seq!['*', '*']), path) <==> path.len() > folder.len()
            && path.take(folder.len() as int) == folder,
    decreases folder.len(),
{
    let pattern = folder.push(seq!['*', '*']);
    if folder.len() == 0 {
        assert(path.take(0) =~= folder);
    } else {
        let f = folder.drop_first();
        assert forall|i: int| 0 <= i < f.len() implies !contains(#[trigger] f[i], Class::Glob) by {
            assert(!contains(folder[i + 1], Class::Glob));
        }
        assert(!contains(folder[0], Class::Glob));
        assert(pattern.drop_first() =~= f.push(seq!['*', '*']));
        assert(pattern[0] != seq!['*', '*']) by {
            if pattern[0] == seq!['*', '*'] {
                assert(Class::Glob.holds(folder[0][0]));
            }
        }
        if path.len() > 0 {
            let rest = path.drop_first();
            literal_segment_matches_itself(folder[0], path[0]);
            trailing_double_star_matches_inside_only(f, rest);
            if path.len() > folder.len() {
                if path.take(folder.len() as int) == folder {
                    assert(path.take(folder.len() as int)[0] == folder[0]);
                    assert(rest.take(f.len() as int) =~= path.take(
                        folder.len() as int,
                    ).drop_first());
                }
                if rest.take(f.len() as int) == f && path[0] == folder[0] {
                    assert(path.take(folder.len() as int) =~= seq![path[0]] + rest.take(
                        f.len() as int,
                    ));
                    assert(folder =~= seq![folder[0]] + f);
                }
            }
        }
    }
}

/// Without a bare `**` a pattern matches only paths with as many segments: no other
/// metacharacter crosses a slash.
pub proof fn stars_do_not_cross_slashes(pattern: Seq<Seq<char>>, path: Seq<Seq<char>>)
    requires
        forall|i: int| 0 <= i < pattern.len() ==> #[trigger] pattern[i] != seq!['*', '*'],
        path_matches(pattern, path),
    ensures
        path.len() == pattern.len(),
        forall|i: int|
            0 <= i < pattern.len() ==> segment_matches(#[trigger] pattern[i], path[i]),
    decreases pattern.len(),
{
    if pattern.len() > 0 {
        let rest = pattern.drop_first();
        assert(pattern[0] != seq!['*', '*']);
        assert forall|i: int| 0 <= i < rest.len() implies #[trigger] rest[i] != seq!['*', '*'] by {
            assert(rest[i] == pattern[i + 1]);
        }
        stars_do_not_cross_slashes(rest, path.drop_first());
        assert forall|i: int| 0 <= i < pattern.len() implies segment_matches(
            #[trigger] pattern[i],
            path[i],
        ) by {
            if i > 0 {
                assert(rest[i - 1] == pattern[i]);
                assert(path.drop_first()[i - 1] == path[i]);
            }
        }
    }
}

/// The items among the first `n` siblings and below them whose path matches the pattern;
/// `prefix` is the path of their parent.
pub open spec fn matching_below(
    items: Seq<ItemView>,
    pattern: Seq<Seq<char>>,
    prefix: Seq<Seq<char>>,
    kids: Seq<ItemView>,
    n: nat,
    fuel: nat,
) -> Seq<ItemView>
    decreases fuel, n,
{
    if n == 0 {
        Seq::empty()
    } else {
        let kid = kids[n - 1];
        let path = prefix.push(kid.visible_name);
        let sub = children(items, kid.uuid, false);
        let before = matching_below(items, pattern, prefix, kids, (n - 1) as nat, fuel);
        let here = if path_matches(pattern, path) {
            before.push(kid)
        } else {
            before
        };
        if kid.is_folder() && fuel > 0 {
            here + matching_below(items, pattern, path, sub, sub.len(), (fuel - 1) as nat)
        } else {
            here
        }
    }
}

/// The items reachable from the root whose logical path matches the pattern, in tree order.
pub open spec fn matching(items: Seq<ItemView>, pattern: Seq<Seq<char>>) -> Seq<ItemView> {
    let kids = children(items, Seq::empty(), false);
    matching_below(items, pattern, Seq::empty(), kids, kids.len(), items.len())
}

/// What a glob pattern resolves to.
pub open spec fn globbed(items: Seq<ItemView>, pattern: Seq<char>) -> Result<
    Seq<ItemView>,
    ErrorView,
> {
    if segments(pattern).len() == 0 {
        Err(ErrorView::RootTarget)
    } else if matching(items, segments(pattern)).len() == 0 {
        Err(ErrorView::PathNotFound(pattern))
    } else {
        Ok(matching(items, segments(pattern)))
    }
}

fn collect_matching<'a>(
    map: &ChildrenMap<'a>,
    kids: &Vec<&'a Item>,
    prefix: &mut Vec<Vec<char>>,
    pattern: &[Vec<char>],
    matched: &mut Vec<&'a Item>,
    Ghost(fuel): Ghost<nat>,
)
    requires
        map.wf(),
        !map.only_folders(),
        ends(map.items(), false, Walk::Folders, kids.deep_view(), kids.len() as nat, fuel),
    ensures
        final(prefix)@ == old(prefix)@,
        final(matched).deep_view() == old(matched).deep_view() + matching_below(
            map.items(),
            pieces(pattern@),
            pieces(old(prefix)@),
            kids.deep_view(),
            kids.len() as nat,
            fuel,
        ),
    decreases fuel,
{
    let ghost views = kids.deep_view();
    let ghost items = map.items();
    let ghost start = matched.deep_view();
    let ghost base = prefix@;
    let ghost pat = pieces(pattern@);
    let mut i: usize = 0;
    assert(matched.deep_view() =~= start + matching_below(
        items,
        pat,
        pieces(base),
        views,
        0,
        fuel,
    ));
    while i < kids.len()
        invariant
            i <= kids.len(),
            map.wf(),
            !map.only_folders(),
            items == map.items(),
            views == kids.deep_view(),
            pat == pieces(pattern@),
            prefix@ == base,
            ends(items, false, Walk::Folders, views, kids.len() as nat, fuel),
            matched.deep_view() == start + matching_below(
                items,
                pat,
                pieces(base),
                views,
                i as nat,
                fuel,
            ),
        decreases kids.len() - i,
    {
        let kid = kids[i];
        proof {
            assert(views[i as int] == kid.deep_view());
            ends_prefix(
                items,
                false,
                Walk::Folders,
                views,
                (i + 1) as nat,
                kids.len() as nat,
                fuel,
            );
        }
        let ghost path = pieces(base).push(kid.visible_name@);
        let ghost sub = children(items, kid.uuid@, false);
        prefix.push(to_chars(kid.visible_name.as_str()));
        assert(pieces(prefix@) =~= path);
        if match_segments(pattern, prefix) {
            let ghost before = matched.deep_view();
            matched.push(kid);
            assert(matched.deep_view() =~= before.push(kid.deep_view()));
        }
        let ghost here = matched.deep_view();
        if kid.is_folder() {
            match map.get(kid.uuid.as_str()) {
                Some(sub_kids) => {
                    collect_matching(
                        map,
                        sub_kids,
                        prefix,
                        pattern,
                        matched,
                        Ghost((fuel - 1) as nat),
                    );
                },
                None => {
                    assert(sub.len() == 0 ==> matching_below(
                        items,
                        pat,
                        path,
                        sub,
                        sub.len(),
                        (fuel - 1) as nat,
                    ).len() == 0);
                },
            }
        }
        prefix.pop();
        assert(prefix@ =~= base);
        assert(matched.deep_view() =~= start + matching_below(
            items,
            pat,
            pieces(base),
            views,
            (i + 1) as nat,
            fuel,
        ));
        i += 1;
    }
}

/// All items reachable from the root whose logical path matches the glob pattern. Siblings of the
/// same name that both match are both returned: a pattern means everything that matches. Errs
/// when nothing does.
pub fn resolve_glob<'a>(items: &'a [Item], pattern: &str) -> (r: Result<Vec<&'a Item>, Error>)
    requires
        segments(pattern@).len() > 0 ==> walk_ends(
            items.deep_view(),
            false,
            Walk::Folders,
            Seq::empty(),
        ),
    ensures
        agrees(r, globbed(items.deep_view(), pattern@)),
{
    let ghost all = items.deep_view();
    let pattern_segments = path_segments(pattern);
    assert(segments(pattern@).len() == pattern_segments.len());
    if pattern_segments.len() == 0 {
        return Err(Error::RootTarget);
    }
    let map = children_map(items, false);
    let mut matched: Vec<&'a Item> = Vec::new();
    let mut prefix: Vec<Vec<char>> = Vec::new();
    proof {
        reveal_strlit("");
        assert(""@ =~= Seq::empty());
        assert(matched.deep_view() =~= Seq::empty());
        assert(pieces(prefix@) =~= Seq::empty());
    }
    match map.get("") {
        Some(kids) => {
            collect_matching(
                &map,
                kids,
                &mut prefix,
                &pattern_segments,
                &mut matched,
                Ghost(all.len()),
            );
        },
        None => {},
    }
    assert(matched.deep_view() =~= matching(all, segments(pattern@)));
    assert(matched.deep_view().len() == matched.len());
    if matched.len() == 0 {
        return Err(Error::PathNotFound(pattern.to_owned()));
    }
    Ok(matched)
}

/// The UUIDs of the items.
pub open spec fn uuids(items: Seq<ItemView>) -> Seq<Seq<char>> {
    Seq::new(items.len(), |i: int| items[i].uuid)
}

/// Whether a reference is expanded as a pattern: it has metacharacters and resolves to no item.
pub open spec fn is_expanded(items: Seq<ItemView>, reference: Seq<char>) -> bool {
    resolved(items, reference) is Err && contains(reference, Class::Glob)
}

/// The UUIDs that the first `n` references stand for.
pub open spec fn expanded(items: Seq<ItemView>, refs: Seq<Seq<char>>, n: nat) -> Result<
    Seq<Seq<char>>,
    ErrorView,
>
    decreases n,
{
    if n == 0 {
        Ok(Seq::empty())
    } else {
        match expanded(items, refs, (n - 1) as nat) {
            Err(e) => Err(e),
            Ok(before) => match resolved(items, refs[n - 1]) {
                Ok(item) => Ok(before.push(item.uuid)),
                Err(e) => if contains(refs[n - 1], Class::Glob) {
                    match globbed(items, refs[n - 1]) {
                        Ok(found) => Ok(before + uuids(found)),
                        Err(g) => Err(g),
                    }
                } else {
                    Err(e)
                },
            },
        }
    }
}

proof fn expanded_stops(items: Seq<ItemView>, refs: Seq<Seq<char>>, n: nat, m: nat)
    requires
        n <= m,
        expanded(items, refs, n) is Err,
    ensures
        expanded(items, refs, m) == expanded(items, refs, n),
    decreases m,
{
    if n < m {
        expanded_stops(items, refs, n, (m - 1) as nat);
    }
}

/// Whether references can be expanded: no pattern among them, as far as they are looked at, starts
/// a walk that meets a cycle of parents.
pub open spec fn can_expand(items: Seq<ItemView>, refs: Seq<Seq<char>>) -> bool {
    forall|i: int|
        0 <= i < refs.len() && expanded(items, refs, i as nat) is Ok && is_expanded(
            items,
            #[trigger] refs[i],
        ) && segments(refs[i]).len() > 0 ==> walk_ends(items, false, Walk::Folders, Seq::empty())
}

/// Whether references can be expanded, that is no pattern starts a walk that meets a cycle of
/// parents.
pub fn is_expandable(items: &[Item], item_refs: &[&str]) -> (r: bool)
    ensures
        r == can_expand(items.deep_view(), item_refs.deep_view()),
{
    let ghost all = items.deep_view();
    let ghost refs = item_refs.deep_view();
    assert(""@ =~= Seq::<char>::empty()) by {
        reveal_strlit("");
    }
    if does_walk_end(items, false, Walk::Folders, "") {
        return true;
    }
    let mut i: usize = 0;
    while i < item_refs.len()
        invariant
            i <= item_refs.len(),
            all == items.deep_view(),
            refs == item_refs.deep_view(),
            !walk_ends(all, false, Walk::Folders, Seq::empty()),
            expanded(all, refs, i as nat) is Ok,
            forall|k: int|
                0 <= k < i && expanded(all, refs, k as nat) is Ok && is_expanded(
                    all,
                    #[trigger] refs[k],
                ) ==> segments(refs[k]).len() == 0,
        decreases item_refs.len() - i,
    {
        let reference = item_refs[i];
        assert(refs[i as int] == reference@);
        let mut failed = false;
        if resolve_item_ref(items, reference).is_err() {
            if !is_glob(reference) {
                failed = true;
            } else {
                let parts = path_segments(reference);
                assert(segments(reference@).len() == parts.len());
                if parts.len() > 0 {
                    assert(!can_expand(all, refs));
                    return false;
                }
                failed = resolve_glob(items, reference).is_err();
            }
        }
        if failed {
            proof {
                assert(expanded(all, refs, (i + 1) as nat) is Err);
                assert forall|k: int|
                    0 <= k < refs.len() && expanded(all, refs, k as nat) is Ok && is_expanded(
                        all,
                        #[trigger] refs[k],
                    ) && segments(refs[k]).len() > 0 implies walk_ends(
                    all,
                    false,
                    Walk::Folders,
                    Seq::empty(),
                ) by {
                    if k > i {
                        expanded_stops(all, refs, (i + 1) as nat, k as nat);
                    }
                }
            }
            return true;
        }
        i += 1;
    }
    true
}

/// Expands a mixed list of exact references and glob patterns into UUIDs. Exact resolution is
/// tried first, so an item whose name contains metacharacters stays addressable.
pub fn expand_refs(items: &[Item], item_refs: &[&str]) -> (r: Result<Vec<String>, Error>)
    requires
        can_expand(items.deep_view(), item_refs.deep_view()),
    ensures
        agrees(
            r,
            expanded(items.deep_view(), item_refs.deep_view(), item_refs.len() as nat),
        ),
{
    let ghost all = items.deep_view();
    let ghost refs = item_refs.deep_view();
    let mut out: Vec<String> = Vec::new();
    let mut i: usize = 0;
    assert(out.deep_view() =~= Seq::empty());
    while i < item_refs.len()
        invariant
            i <= item_refs.len(),
            all == items.deep_view(),
            refs == item_refs.deep_view(),
            can_expand(all, refs),
            expanded(all, refs, i as nat) == Ok::<Seq<Seq<char>>, ErrorView>(out.deep_view()),
        decreases item_refs.len() - i,
    {
        let reference = item_refs[i];
        let ghost before = out.deep_view();
        proof {
            assert(refs[i as int] == reference@);
            if expanded(all, refs, (i + 1) as nat) is Err {
                expanded_stops(all, refs, (i + 1) as nat, item_refs.len() as nat);
            }
        }
        match resolve_item_ref(items, reference) {
            Ok(item) => {
                out.push(item.uuid.clone());
                assert(out.deep_view() =~= before.push(item.uuid@));
            },
            Err(exact_err) => {
                if !is_glob(reference) {
                    return Err(exact_err);
                }
                match resolve_glob(items, reference) {
                    Err(e) => {
                        return Err(e);
                    },
                    Ok(found) => {
                        let ghost hits = found.deep_view();
                        let mut k: usize = 0;
                        assert(out.deep_view() =~= before + uuids(hits).take(0));
                        while k < found.len()
                            invariant
                                k <= found.len(),
                                hits == found.deep_view(),
                                out.deep_view() == before + uuids(hits).take(k as int),
                            decreases found.len() - k,
                        {
                            let ghost so_far = out.deep_view();
                            out.push(found[k].uuid.clone());
                            proof {
                                assert(hits[k as int] == found[k as int].deep_view());
                                assert(out.deep_view() =~= so_far.push(found[k as int].uuid@));
                                assert(out.deep_view() =~= before + uuids(hits).take(k + 1));
                            }
                            k += 1;
                        }
                        assert(uuids(hits).take(k as int) =~= uuids(hits));
                    },
                }
            },
        }
        i += 1;
    }
    Ok(out)
}

/// A reference that resolves to an item means that item, whatever metacharacters it has.
pub proof fn exact_matches_win(items: Seq<ItemView>, reference: Seq<char>)
    requires
        resolved(items, reference) is Ok,
    ensures
        expanded(items, seq![reference], 1) == Ok::<Seq<Seq<char>>, ErrorView>(
            seq![resolved(items, reference)->Ok_0.uuid],
        ),
{
    assert(expanded(items, seq![reference], 0) == Ok::<Seq<Seq<char>>, ErrorView>(Seq::empty()));
    assert(Seq::<Seq<char>>::empty().push(resolved(items, reference)->Ok_0.uuid) =~= seq![
        resolved(items, reference)->Ok_0.uuid,
    ]);
}

/// A pattern that matches nothing is an error, never an empty list.
pub proof fn patterns_match_something(items: Seq<ItemView>, reference: Seq<char>)
    requires
        is_expanded(items, reference),
        expanded(items, seq![reference], 1) is Ok,
    ensures
        expanded(items, seq![reference], 1)->Ok_0.len() > 0,
{
    assert(expanded(items, seq![reference], 0) == Ok::<Seq<Seq<char>>, ErrorView>(Seq::empty()));
}

/// Whether the pattern matches a beginning of the path, but not the whole path.
pub open spec fn matches_outside(pattern: Seq<Seq<char>>, path: Seq<Seq<char>>) -> bool {
    exists|k: int| 0 <= k < path.len() && #[trigger] path_matches(pattern, path.take(k))
}

/// A trailing `**` matches everything inside what the pattern before it matches, and nothing else:
/// some folder on the way to the item has to match, and the item itself does not count.
pub proof fn trailing_stars_match_what_is_inside(folder: Seq<Seq<char>>, path: Seq<Seq<char>>)
    requires
        folder.len() > 0 ==> folder.last() != seq!['*', '*'],
    ensures
        path_matches(folder.push(seq!['*', '*']), path) <==> matches_outside(folder, path),
    decreases folder.len(), path.len(),
{
    let stars = seq!['*', '*'];
    let pattern = folder.push(stars);
    if folder.len() == 0 {
        assert(pattern[0] == stars);
        if path.len() > 0 {
            assert(path.take(0).len() == 0);
            assert(path_matches(folder, path.take(0)));
        }
    } else {
        let rest = folder.drop_first();
        assert(pattern[0] == folder[0]);
        assert(pattern.drop_first() =~= rest.push(stars));
        if folder[0] == stars {
            assert(folder.len() > 1);
            trailing_stars_match_what_is_inside(rest, path);
        }
        if path.len() > 0 {
            let tail = path.drop_first();
            if folder[0] == stars {
                trailing_stars_match_what_is_inside(folder, tail);
            } else {
                trailing_stars_match_what_is_inside(rest, tail);
            }
            assert forall|k: int| 0 < k < path.len() implies #[trigger] path.take(k).drop_first()
                == tail.take(k - 1) by {
                assert(path.take(k).drop_first() =~= tail.take(k - 1));
            }
            if matches_outside(folder, path) {
                let k = choose|k: int|
                    0 <= k < path.len() && #[trigger] path_matches(folder, path.take(k));
                if folder[0] == stars {
                    if path_matches(rest, path.take(k)) {
                        assert(matches_outside(rest, path));
                    } else {
                        assert(path.take(k).drop_first() == tail.take(k - 1));
                        assert(path_matches(folder, tail.take(k - 1)));
                        assert(matches_outside(folder, tail));
                    }
                } else {
                    assert(path.take(k)[0] == path[0]);
                    assert(path.take(k).drop_first() == tail.take(k - 1));
                    assert(path_matches(rest, tail.take(k - 1)));
                }
            }
            if path_matches(pattern, path) {
                if folder[0] == stars {
                    if path_matches(rest.push(stars), path) {
                        let k = choose|k: int|
                            0 <= k < path.len() && #[trigger] path_matches(rest, path.take(k));
                        assert(path_matches(folder, path.take(k)));
                    } else {
                        let k = choose|k: int|
                            0 <= k < tail.len() && #[trigger] path_matches(folder, tail.take(k));
                        assert(path.take(k + 1).drop_first() == tail.take(k));
                        assert(path_matches(folder, path.take(k + 1)));
                    }
                } else {
                    let k = choose|k: int|
                        0 <= k < tail.len() && #[trigger] path_matches(rest, tail.take(k));
                    assert(path.take(k + 1)[0] == path[0]);
                    assert(path.take(k + 1).drop_first() == tail.take(k));
                    assert(path_matches(folder, path.take(k + 1)));
                }
            }
        }
    }
}

/// A pattern without anything in it matches the empty name only.
pub proof fn empty_patterns_match_empty_names(t: Seq<char>)
    ensures
        segment_matches(Seq::empty(), t) <==> t.len() == 0,
{
}

/// A `?` stands for one character, whatever it is.
pub proof fn question_marks_match_one_character(rest: Seq<char>, t: Seq<char>)
    ensures
        segment_matches(seq!['?'] + rest, t) <==> t.len() > 0 && segment_matches(
            rest,
            t.drop_first(),
        ),
{
    assert((seq!['?'] + rest).drop_first() =~= rest);
}

/// A character that is no metacharacter stands for itself.
pub proof fn literal_characters_match_themselves(c: char, rest: Seq<char>, t: Seq<char>)
    requires
        c != '*' && c != '?' && c != '[',
    ensures
        segment_matches(seq![c] + rest, t) <==> t.len() > 0 && t[0] == c && segment_matches(
            rest,
            t.drop_first(),
        ),
{
    assert((seq![c] + rest).drop_first() =~= rest);
}

/// How the members of a class are written: single characters, and ranges with a dash.
pub open spec fn written(members: Seq<(char, char)>) -> Seq<char>
    decreases members.len(),
{
    if members.len() == 0 {
        Seq::empty()
    } else {
        let (low, high) = members[0];
        (if low == high {
            seq![low]
        } else {
            seq![low, '-', high]
        }) + written(members.drop_first())
    }
}

/// Whether members can be written as they are: none is a bracket or a dash.
pub open spec fn are_plain_members(members: Seq<(char, char)>) -> bool {
    forall|i: int|
        0 <= i < members.len() ==> (#[trigger] members[i]).0 != ']' && members[i].0 != '-'
            && members[i].1 != ']' && members[i].1 != '-'
}

proof fn written_classes_are_read(
    p: Seq<char>,
    at: int,
    members: Seq<(char, char)>,
    rest: Seq<char>,
    first: bool,
)
    requires
        0 <= at <= p.len(),
        p.skip(at) == written(members) + seq![']'] + rest,
        are_plain_members(members),
        first ==> members.len() > 0,
    ensures
        class_from(p, at, first) == Some((at + written(members).len() + 1, members)),
    decreases members.len(),
{
    let tail = p.skip(at);
    assert(tail.len() == p.len() - at);
    assert(forall|i: int| 0 <= i < tail.len() ==> tail[i] == p[at + i]);
    if members.len() == 0 {
        assert(tail[0] == ']');
        assert(members =~= Seq::empty());
    } else {
        let more = members.drop_first();
        let (low, high) = members[0];
        let step: int = if low == high {
            1
        } else {
            3
        };
        assert(members[0].0 != ']');
        assert(tail[0] == low);
        assert forall|i: int| 0 <= i < more.len() implies (#[trigger] more[i]).0 != ']' && more[i].0
            != '-' && more[i].1 != ']' && more[i].1 != '-' by {
            assert(members[i + 1].0 != ']');
        }
        assert(p.skip(at + step) =~= written(more) + seq![']'] + rest) by {
            assert(tail.skip(step) =~= written(more) + seq![']'] + rest);
            assert(tail.skip(step) =~= p.skip(at + step));
        }
        written_classes_are_read(p, at + step, more, rest, false);
        if low == high {
            assert(tail[1] != '-') by {
                if more.len() > 0 {
                    assert(tail[1] == more[0].0);
                } else {
                    assert(tail[1] == ']');
                }
            }
        } else {
            assert(tail[1] == '-' && tail[2] == high);
        }
        assert(seq![members[0]] + more =~= members);
    }
}

/// A class matches one character: one that is among the members that are written between the
/// brackets, or in one of the ranges. With a `!` in front it matches one that is none of them.
pub proof fn classes_match_their_members(
    members: Seq<(char, char)>,
    negated: bool,
    rest: Seq<char>,
    t: Seq<char>,
)
    requires
        members.len() > 0,
        are_plain_members(members),
        !negated ==> members[0].0 != '!',
    ensures
        ({
            let mark = if negated {
                seq!['[', '!']
            } else {
                seq!['[']
            };
            segment_matches(mark + written(members) + seq![']'] + rest, t) <==> {
                &&& t.len() > 0
                &&& negated != exists|i: int|
                    0 <= i < members.len() && (#[trigger] members[i]).0 <= t[0] <= members[i].1
                &&& segment_matches(rest, t.drop_first())
            }
        }),
{
    let mark = if negated {
        seq!['[', '!']
    } else {
        seq!['[']
    };
    let p = mark + written(members) + seq![']'] + rest;
    let body = p.drop_first();
    let at: int = if negated {
        1
    } else {
        0
    };
    assert(p[0] == '[');
    assert(body.skip(at) =~= written(members) + seq![']'] + rest);
    written_classes_are_read(body, at, members, rest, true);
    assert(body[at] == members[0].0);
    assert(is_negated(body) == negated);
    let end = at + written(members).len() + 1;
    assert(body.skip(end) =~= rest);
}

proof fn unclosed_classes_are_none(p: Seq<char>, i: int, first: bool)
    requires
        0 <= i,
        !p.contains(']'),
    ensures
        class_from(p, i, first) is None,
    decreases p.len() - i,
{
    if i < p.len() {
        if p[i] == ']' {
            assert(p.contains(p[i]));
        }
        unclosed_classes_are_none(p, i + 1, false);
        if i + 3 <= p.len() {
            unclosed_classes_are_none(p, i + 3, false);
        }
    }
}

/// A bracket that is never closed stands for itself.
pub proof fn unclosed_brackets_match_themselves(rest: Seq<char>, t: Seq<char>)
    requires
        !rest.contains(']'),
    ensures
        segment_matches(seq!['['] + rest, t) <==> t.len() > 0 && t[0] == '[' && segment_matches(
            rest,
            t.drop_first(),
        ),
{
    assert((seq!['['] + rest).drop_first() =~= rest);
    unclosed_classes_are_none(rest, 0, true);
    unclosed_classes_are_none(rest, 1, true);
}

/// A closing bracket in the first place of a class is a member of it, and so is a dash in the last.
pub proof fn brackets_and_dashes_can_be_members(c: char, rest: Seq<char>, t: Seq<char>)
    requires
        c != ']' && c != '-' && c != '!',
    ensures
        segment_matches(seq!['[', ']', c, ']'] + rest, t) <==> t.len() > 0 && (t[0] == ']' || t[0]
            == c) && segment_matches(rest, t.drop_first()),
        segment_matches(seq!['[', c, '-', ']'] + rest, t) <==> t.len() > 0 && (t[0] == c || t[0]
            == '-') && segment_matches(rest, t.drop_first()),
{
    reveal_with_fuel(class_from, 4);
    let p = (seq!['[', ']', c, ']'] + rest).drop_first();
    assert(p =~= seq![']', c, ']'] + rest);
    assert(p[0] == ']' && p[1] == c && p[2] == ']');
    assert(p.skip(3) =~= rest);
    let two = seq![(']', ']'), (c, c)];
    assert(class_from(p, 2, false) == Some((3int, Seq::<(char, char)>::empty())));
    assert(seq![(c, c)] + Seq::<(char, char)>::empty() =~= seq![(c, c)]);
    assert(class_from(p, 1, false) == Some((3int, seq![(c, c)])));
    assert(seq![(']', ']')] + seq![(c, c)] =~= two);
    assert(class_of(p) == Some((3int, two)));
    if t.len() > 0 {
        assert(in_ranges(two, t[0]) <==> (t[0] == ']' || t[0] == c)) by {
            assert(two[0] == (']', ']') && two[1] == (c, c));
        }
    }
    let q = (seq!['[', c, '-', ']'] + rest).drop_first();
    assert(q =~= seq![c, '-', ']'] + rest);
    assert(q[0] == c && q[1] == '-' && q[2] == ']');
    assert(q.skip(3) =~= rest);
    let pair = seq![(c, c), ('-', '-')];
    assert(class_from(q, 2, false) == Some((3int, Seq::<(char, char)>::empty())));
    assert(seq![('-', '-')] + Seq::<(char, char)>::empty() =~= seq![('-', '-')]);
    assert(class_from(q, 1, false) == Some((3int, seq![('-', '-')])));
    assert(seq![(c, c)] + seq![('-', '-')] =~= pair);
    assert(class_of(q) == Some((3int, pair)));
    if t.len() > 0 {
        assert(in_ranges(pair, t[0]) <==> (t[0] == c || t[0] == '-')) by {
            assert(pair[0] == (c, c) && pair[1] == ('-', '-'));
        }
    }
}

/// A pattern segment other than `**` stands for one segment of the path.
pub proof fn segments_match_one_by_one(
    segment: Seq<char>,
    rest: Seq<Seq<char>>,
    path: Seq<Seq<char>>,
)
    requires
        segment != seq!['*', '*'],
    ensures
        path_matches(seq![segment] + rest, path) <==> path.len() > 0 && segment_matches(
            segment,
            path[0],
        ) && path_matches(rest, path.drop_first()),
        path_matches(Seq::empty(), path) <==> path.len() == 0,
{
    assert((seq![segment] + rest).drop_first() =~= rest);
}

/// A `**` before other segments stands for any number of segments, also for none.
pub proof fn double_stars_cross_slashes(rest: Seq<Seq<char>>, path: Seq<Seq<char>>)
    requires
        rest.len() > 0,
    ensures
        path_matches(seq![seq!['*', '*']] + rest, path) <==> exists|k: int|
            0 <= k <= path.len() && #[trigger] path_matches(rest, path.skip(k)),
    decreases path.len(),
{
    let pattern = seq![seq!['*', '*']] + rest;
    assert(pattern[0] == seq!['*', '*']);
    assert(pattern.drop_first() =~= rest);
    assert(path.skip(0) =~= path);
    assert(path_matches(rest, path) == path_matches(rest, path.skip(0)));
    if path.len() > 0 {
        let tail = path.drop_first();
        double_stars_cross_slashes(rest, tail);
        if path_matches(pattern, tail) {
            let k = choose|k: int|
                0 <= k <= tail.len() && #[trigger] path_matches(rest, tail.skip(k));
            assert(tail.skip(k) =~= path.skip(k + 1));
            assert(path_matches(rest, path.skip(k + 1)));
        }
        if exists|k: int| 0 <= k <= path.len() && #[trigger] path_matches(rest, path.skip(k)) {
            let k = choose|k: int|
                0 <= k <= path.len() && #[trigger] path_matches(rest, path.skip(k));
            if k > 0 {
                assert(tail.skip(k - 1) =~= path.skip(k));
                assert(path_matches(rest, tail.skip(k - 1)));
            }
        }
    } else {
        if exists|k: int| 0 <= k <= path.len() && #[trigger] path_matches(rest, path.skip(k)) {
            let k = choose|k: int|
                0 <= k <= path.len() && #[trigger] path_matches(rest, path.skip(k));
            assert(k == 0);
        }
    }
}

/// Whether the items lead down from the root: each is listed, the first has no parent, every other is
/// in the one before it, and all but the last are folders.
pub open spec fn leads_down(items: Seq<ItemView>, way: Seq<ItemView>) -> bool {
    &&& way.len() > 0
    &&& way[0].parent.len() == 0
    &&& forall|i: int| 0 <= i < way.len() ==> items.contains(#[trigger] way[i])
    &&& forall|i: int| 0 <= i < way.len() - 1 ==> #[trigger] is_step(way, i)
}

/// Whether the item at `i` is a folder and the next one is in it.
pub open spec fn is_step(way: Seq<ItemView>, i: int) -> bool {
    way[i].is_folder() && way[i + 1].parent == way[i].uuid
}

/// The names on the way down.
pub open spec fn names_of(way: Seq<ItemView>) -> Seq<Seq<char>> {
    Seq::new(way.len(), |i: int| way[i].visible_name)
}

spec fn is_linked(items: Seq<ItemView>, kids: Seq<ItemView>, n: int, way: Seq<ItemView>) -> bool {
    &&& way.len() > 0
    &&& exists|m: int| 0 <= m < n && #[trigger] kids[m] == way[0]
    &&& forall|i: int| 0 <= i < way.len() - 1 ==> #[trigger] is_link(items, way, i)
}

spec fn is_link(items: Seq<ItemView>, way: Seq<ItemView>, i: int) -> bool {
    way[i].is_folder() && children(items, way[i].uuid, false).contains(way[i + 1])
}

proof fn matches_below_are_on_the_way(
    items: Seq<ItemView>,
    pattern: Seq<Seq<char>>,
    prefix: Seq<Seq<char>>,
    kids: Seq<ItemView>,
    n: nat,
    fuel: nat,
    x: ItemView,
) -> (way: Seq<ItemView>)
    requires
        n <= kids.len(),
        matching_below(items, pattern, prefix, kids, n, fuel).contains(x),
    ensures
        is_linked(items, kids, n as int, way),
        way.last() == x,
        path_matches(pattern, prefix + names_of(way)),
    decreases fuel, n,
{
    let all = matching_below(items, pattern, prefix, kids, n, fuel);
    let at = choose|at: int| 0 <= at < all.len() && all[at] == x;
    let kid = kids[n - 1];
    let path = prefix.push(kid.visible_name);
    let sub = children(items, kid.uuid, false);
    let before = matching_below(items, pattern, prefix, kids, (n - 1) as nat, fuel);
    if at < before.len() {
        assert(before[at] == x);
        matches_below_are_on_the_way(items, pattern, prefix, kids, (n - 1) as nat, fuel, x)
    } else if at == before.len() && path_matches(pattern, path) {
        let way = seq![kid];
        assert(kids[n - 1] == way[0]);
        assert(prefix + names_of(way) =~= path);
        way
    } else {
        let here = if path_matches(pattern, path) {
            before.push(kid)
        } else {
            before
        };
        let below = matching_below(items, pattern, path, sub, sub.len(), (fuel - 1) as nat);
        assert(below[at - here.len()] == x);
        assert(below.contains(x));
        let rest = matches_below_are_on_the_way(
            items,
            pattern,
            path,
            sub,
            sub.len(),
            (fuel - 1) as nat,
            x,
        );
        let way = seq![kid] + rest;
        assert(prefix + names_of(way) =~= path + names_of(rest));
        assert(way.last() == rest.last());
        let m = choose|m: int| 0 <= m < sub.len() && #[trigger] sub[m] == rest[0];
        assert forall|i: int| 0 <= i < way.len() - 1 implies #[trigger] is_link(items, way, i) by {
            if i > 0 {
                assert(is_link(items, rest, i - 1));
                assert(way[i] == rest[i - 1] && way[i + 1] == rest[i]);
            } else {
                assert(sub.contains(sub[m]));
            }
        }
        assert(kids[n - 1] == way[0]);
        way
    }
}

proof fn matches_on_the_way_are_below(
    items: Seq<ItemView>,
    pattern: Seq<Seq<char>>,
    prefix: Seq<Seq<char>>,
    kids: Seq<ItemView>,
    n: nat,
    fuel: nat,
    way: Seq<ItemView>,
)
    requires
        n <= kids.len(),
        is_linked(items, kids, n as int, way),
        ends(items, false, Walk::Folders, kids, n, fuel),
        path_matches(pattern, prefix + names_of(way)),
    ensures
        matching_below(items, pattern, prefix, kids, n, fuel).contains(way.last()),
    decreases fuel, n,
{
    let x = way.last();
    let all = matching_below(items, pattern, prefix, kids, n, fuel);
    let kid = kids[n - 1];
    let path = prefix.push(kid.visible_name);
    let sub = children(items, kid.uuid, false);
    let before = matching_below(items, pattern, prefix, kids, (n - 1) as nat, fuel);
    let here = if path_matches(pattern, path) {
        before.push(kid)
    } else {
        before
    };
    let m = choose|m: int| 0 <= m < n && #[trigger] kids[m] == way[0];
    if m < n - 1 {
        matches_on_the_way_are_below(items, pattern, prefix, kids, (n - 1) as nat, fuel, way);
        let k = choose|k: int| 0 <= k < before.len() && before[k] == x;
        assert(here[k] == x);
        assert(all[k] == x);
    } else if way.len() == 1 {
        assert(prefix + names_of(way) =~= path);
        assert(here[before.len() as int] == x);
        assert(all[before.len() as int] == x);
    } else {
        let rest = way.drop_first();
        assert(is_link(items, way, 0));
        let first = choose|first: int| 0 <= first < sub.len() && sub[first] == way[1];
        assert(sub[first] == rest[0]);
        assert(prefix + names_of(way) =~= path + names_of(rest));
        assert forall|i: int| 0 <= i < rest.len() - 1 implies #[trigger] is_link(
            items,
            rest,
            i,
        ) by {
            assert(is_link(items, way, i + 1));
            assert(rest[i] == way[i + 1] && rest[i + 1] == way[i + 2]);
        }
        matches_on_the_way_are_below(
            items,
            pattern,
            path,
            sub,
            sub.len(),
            (fuel - 1) as nat,
            rest,
        );
        let below = matching_below(items, pattern, path, sub, sub.len(), (fuel - 1) as nat);
        assert(rest.last() == x);
        let k = choose|k: int| 0 <= k < below.len() && below[k] == x;
        assert(all[here.len() + k] == x);
    }
}

proof fn linked_ways_lead_down(items: Seq<ItemView>, way: Seq<ItemView>)
    requires
        is_linked(
            items,
            children(items, Seq::empty(), false),
            children(items, Seq::empty(), false).len() as int,
            way,
        ),
    ensures
        leads_down(items, way),
{
    let kids = children(items, Seq::empty(), false);
    let m = choose|m: int| 0 <= m < kids.len() && #[trigger] kids[m] == way[0];
    assert(kids.contains(kids[m]));
    children_membership(items, Seq::empty(), false, way[0]);
    assert forall|i: int| 0 <= i < way.len() - 1 implies #[trigger] is_step(way, i) by {
        assert(is_link(items, way, i));
        children_membership(items, way[i].uuid, false, way[i + 1]);
    }
    assert forall|i: int| 0 <= i < way.len() implies items.contains(#[trigger] way[i]) by {
        if i > 0 {
            assert(is_link(items, way, i - 1));
            children_membership(items, way[i - 1].uuid, false, way[i]);
        }
    }
}

proof fn ways_down_are_linked(items: Seq<ItemView>, way: Seq<ItemView>)
    requires
        leads_down(items, way),
    ensures
        is_linked(
            items,
            children(items, Seq::empty(), false),
            children(items, Seq::empty(), false).len() as int,
            way,
        ),
{
    let kids = children(items, Seq::empty(), false);
    assert(way[0].parent =~= Seq::empty());
    children_membership(items, Seq::empty(), false, way[0]);
    let m = choose|m: int| 0 <= m < kids.len() && kids[m] == way[0];
    assert(kids[m] == way[0]);
    assert forall|i: int| 0 <= i < way.len() - 1 implies #[trigger] is_link(items, way, i) by {
        assert(is_step(way, i));
        children_membership(items, way[i].uuid, false, way[i + 1]);
    }
}

/// Whether the way leads down to the item and the pattern matches its names.
pub open spec fn is_matched_way(
    items: Seq<ItemView>,
    pattern: Seq<Seq<char>>,
    x: ItemView,
    way: Seq<ItemView>,
) -> bool {
    leads_down(items, way) && way.last() == x && path_matches(pattern, names_of(way))
}

/// A pattern takes exactly the items to which a way leads down from the root whose names it matches;
/// where there are none, that is an error.
pub proof fn patterns_take_what_they_match(items: Seq<ItemView>, pattern: Seq<char>, x: ItemView)
    requires
        segments(pattern).len() > 0,
        walk_ends(items, false, Walk::Folders, Seq::empty()),
    ensures
        globbed(items, pattern) matches Ok(found) ==> (found.contains(x) <==> exists|
            way: Seq<ItemView>,
        |
            is_matched_way(items, segments(pattern), x, way)),
        globbed(items, pattern) is Err ==> !exists|way: Seq<ItemView>|
            is_matched_way(items, segments(pattern), x, way),
{
    let segs = segments(pattern);
    let kids = children(items, Seq::empty(), false);
    let none = Seq::<Seq<char>>::empty();
    let found = matching(items, segs);
    if found.contains(x) {
        let way = matches_below_are_on_the_way(
            items,
            segs,
            none,
            kids,
            kids.len(),
            items.len(),
            x,
        );
        assert(none + names_of(way) =~= names_of(way));
        linked_ways_lead_down(items, way);
        assert(is_matched_way(items, segs, x, way));
    }
    if exists|way: Seq<ItemView>| is_matched_way(items, segs, x, way) {
        let way = choose|way: Seq<ItemView>| is_matched_way(items, segs, x, way);
        ways_down_are_linked(items, way);
        assert(none + names_of(way) =~= names_of(way));
        matches_on_the_way_are_below(items, segs, none, kids, kids.len(), items.len(), way);
        assert(found.contains(x));
    }
}

/// Several references stand for what each of them stands for, one after the other, and the first
/// that stands for nothing is the error of all.
pub proof fn references_expand_one_by_one(
    items: Seq<ItemView>,
    refs: Seq<Seq<char>>,
    more: Seq<char>,
)
    ensures
        ({
            let before = expanded(items, refs, refs.len());
            let one = expanded(items, seq![more], 1);
            let both = expanded(items, refs.push(more), refs.len() + 1);
            match before {
                Err(e) => both == before,
                Ok(first) => match one {
                    Err(e) => both == one,
                    Ok(second) => both == Ok::<Seq<Seq<char>>, ErrorView>(first + second),
                },
            }
        }),
{
    expansion_of_a_prefix(items, refs, more, refs.len());
    assert(expanded(items, seq![more], 0) == Ok::<Seq<Seq<char>>, ErrorView>(Seq::empty()));
    assert(refs.push(more)[refs.len() as int] == more);
    if expanded(items, refs, refs.len()) is Ok && expanded(items, seq![more], 1) is Ok {
        let first = expanded(items, refs, refs.len())->Ok_0;
        let second = expanded(items, seq![more], 1)->Ok_0;
        let both = expanded(items, refs.push(more), refs.len() + 1)->Ok_0;
        assert(both =~= first + second);
    }
}

proof fn expansion_of_a_prefix(
    items: Seq<ItemView>,
    refs: Seq<Seq<char>>,
    more: Seq<char>,
    n: nat,
)
    requires
        n <= refs.len(),
    ensures
        expanded(items, refs.push(more), n) == expanded(items, refs, n),
    decreases n,
{
    if n > 0 {
        expansion_of_a_prefix(items, refs, more, (n - 1) as nat);
        assert(refs.push(more)[n - 1] == refs[n - 1]);
    }
}

/// A pattern that is no exact reference stands for the UUIDs of what it matches, in order; a
/// reference that is neither is the error of the exact reference.
pub proof fn patterns_stand_for_their_matches(items: Seq<ItemView>, reference: Seq<char>)
    requires
        resolved(items, reference) is Err,
    ensures
        ({
            let is_pattern = reference.contains('*') || reference.contains('?')
                || reference.contains('[');
            match expanded(items, seq![reference], 1) {
                Ok(found) => is_pattern && (globbed(items, reference) matches Ok(hits)
                    && found.len() == hits.len() && forall|i: int|
                    0 <= i < hits.len() ==> #[trigger] found[i] == hits[i].uuid),
                Err(e) => if is_pattern {
                    globbed(items, reference) == Err::<Seq<ItemView>, ErrorView>(e)
                } else {
                    resolved(items, reference) == Err::<ItemView, ErrorView>(e)
                },
            }
        }),
{
    assert(expanded(items, seq![reference], 0) == Ok::<Seq<Seq<char>>, ErrorView>(Seq::empty()));
    let is_pattern = reference.contains('*') || reference.contains('?') || reference.contains('[');
    if contains(reference, Class::Glob) {
        let i = choose|i: int| 0 <= i < reference.len() && Class::Glob.holds(#[trigger] reference[i]);
        assert(reference.contains(reference[i]));
    }
    if is_pattern {
        let c = if reference.contains('*') {
            '*'
        } else if reference.contains('?') {
            '?'
        } else {
            '['
        };
        let i = choose|i: int| 0 <= i < reference.len() && reference[i] == c;
        assert(Class::Glob.holds(reference[i]));
    }
    if contains(reference, Class::Glob) && globbed(items, reference) is Ok {
        let hits = globbed(items, reference)->Ok_0;
        let found = expanded(items, seq![reference], 1)->Ok_0;
        assert(found =~= uuids(hits));
    }
}

/// Whatever references stand for is listed.
pub proof fn expansions_are_listed(items: Seq<ItemView>, refs: Seq<Seq<char>>, n: nat)
    requires
        n <= refs.len(),
    ensures
        expanded(items, refs, n) matches Ok(found) ==> forall|k: int|
            0 <= k < found.len() ==> exists|i: int|
                0 <= i < items.len() && (#[trigger] items[i]).uuid == #[trigger] found[k],
    decreases n,
{
    if n > 0 && expanded(items, refs, n) is Ok {
        expansions_are_listed(items, refs, (n - 1) as nat);
        let before = expanded(items, refs, (n - 1) as nat)->Ok_0;
        let found = expanded(items, refs, n)->Ok_0;
        let reference = refs[n - 1];
        assert forall|k: int| 0 <= k < found.len() implies exists|i: int|
            0 <= i < items.len() && (#[trigger] items[i]).uuid == #[trigger] found[k] by {
            if k < before.len() {
                assert(found[k] == before[k]);
            } else if let Ok(item) = resolved(items, reference) {
                resolved_items_are_listed(items, reference);
                let i = choose|i: int| 0 <= i < items.len() && items[i] == item;
                assert(items[i].uuid == found[k]);
            } else {
                let hits = globbed(items, reference)->Ok_0;
                let x = hits[k - before.len()];
                assert(found[k] == x.uuid);
                assert(hits.contains(x));
                let kids = children(items, Seq::empty(), false);
                let way = matches_below_are_on_the_way(
                    items,
                    segments(reference),
                    Seq::empty(),
                    kids,
                    kids.len(),
                    items.len(),
                    x,
                );
                linked_ways_lead_down(items, way);
                assert(items.contains(way[way.len() - 1]));
                let i = choose|i: int| 0 <= i < items.len() && items[i] == x;
                assert(items[i].uuid == found[k]);
            }
        }
    }
}

} // verus!
