//! Output of a device script, cut into marked sections: a line of the marker, a space and a name
//! begins a section, whose body is the lines up to the next.
use vstd::prelude::*;
use crate::text::{
    begins,
    extend,
    lines,
    lines_in,
    pieces,
    same,
    skip_chars,
    starts_with,
    to_chars,
    trim,
    trim_in,
    Class,
};
use crate::text_laws::edges_are_trimmed;

verus! {

/// The section that a line of output begins.
pub open spec fn section_name(marker: Seq<char>, line: Seq<char>) -> Option<Seq<char>> {
    if starts_with(line, marker.push(' ')) {
        Some(trim(line.skip(marker.len() as int + 1), Class::White))
    } else {
        None
    }
}

/// The sections of the first `n` lines of output, each with its name and its body. Lines before the
/// first section are dropped.
pub open spec fn sections(marker: Seq<char>, output: Seq<Seq<char>>, n: nat) -> Seq<
    (Seq<char>, Seq<char>),
>
    decreases n,
{
    if n == 0 {
        Seq::empty()
    } else {
        let before = sections(marker, output, (n - 1) as nat);
        match section_name(marker, output[n - 1]) {
            Some(name) => before.push((name, Seq::empty())),
            None => if before.len() == 0 {
                before
            } else {
                before.drop_last().push(
                    (before.last().0, before.last().1 + output[n - 1] + seq!['\n']),
                )
            },
        }
    }
}

/// The body of the first section from `i` on with the given name.
pub open spec fn section_from(
    found: Seq<(Seq<char>, Seq<char>)>,
    i: int,
    name: Seq<char>,
) -> Option<Seq<char>>
    decreases found.len() - i,
{
    if i < 0 || i >= found.len() {
        None
    } else if found[i].0 == name {
        Some(found[i].1)
    } else {
        section_from(found, i + 1, name)
    }
}

/// What a list of sections holds.
pub open spec fn section_views(found: Seq<(Vec<char>, Vec<char>)>) -> Seq<(Seq<char>, Seq<char>)> {
    Seq::new(found.len(), |i: int| (found[i].0@, found[i].1@))
}

/// Cuts the output of a script into its sections.
pub fn split_sections(marker: &str, output: &str) -> (out: Vec<(Vec<char>, Vec<char>)>)
    ensures
        section_views(out@) == sections(marker@, lines(output@), lines(output@).len()),
{
    let all = lines_in(&to_chars(output));
    let ghost ls = lines(output@);
    let mut prefix = to_chars(marker);
    prefix.push(' ');
    let mut out: Vec<(Vec<char>, Vec<char>)> = Vec::new();
    let mut i: usize = 0;
    assert(section_views(out@) =~= sections(marker@, ls, 0));
    while i < all.len()
        invariant
            i <= all.len(),
            ls == pieces(all@),
            prefix@ == marker@.push(' '),
            section_views(out@) == sections(marker@, ls, i as nat),
        decreases all.len() - i,
    {
        let line = &all[i];
        assert(ls[i as int] == line@);
        let ghost before = out@;
        if begins(line, &prefix) {
            let name = vstd::slice::slice_to_vec(
                trim_in(skip_chars(line, prefix.len()), &Class::White),
            );
            out.push((name, Vec::new()));
            assert(section_views(out@) =~= section_views(before).push((name@, Seq::empty())));
        } else {
            match out.pop() {
                Some((name, body)) => {
                    let mut body = body;
                    let ghost was = body@;
                    extend(&mut body, line);
                    body.push('\n');
                    assert(body@ =~= was + line@ + seq!['\n']);
                    out.push((name, body));
                    assert(section_views(before).last() == (name@, was));
                    assert(section_views(out@) =~= section_views(before).drop_last().push(
                        (name@, body@),
                    ));
                },
                None => {},
            }
        }
        i += 1;
    }
    out
}

/// The body of the first section with the given name.
pub fn find_section<'a>(found: &'a Vec<(Vec<char>, Vec<char>)>, name: &str) -> (r: Option<&'a [char]>)
    ensures
        match r {
            Some(body) => section_from(section_views(found@), 0, name@) == Some(body@),
            None => section_from(section_views(found@), 0, name@) is None,
        },
{
    let wanted = to_chars(name);
    let ghost views = section_views(found@);
    let mut i: usize = 0;
    while i < found.len()
        invariant
            i <= found.len(),
            wanted@ == name@,
            views == section_views(found@),
            section_from(views, 0, name@) == section_from(views, i as int, name@),
        decreases found.len() - i,
    {
        assert(views[i as int] == (found[i as int].0@, found[i as int].1@));
        if same(&found[i].0, &wanted) {
            return Some(found[i].1.as_slice());
        }
        i += 1;
    }
    None
}

/// A line with the marker and a name starts a section of that name; any other line belongs to the
/// last section, and to none before the first.
pub proof fn markers_start_sections(
    marker: Seq<char>,
    output: Seq<Seq<char>>,
    name: Seq<char>,
    line: Seq<char>,
)
    requires
        name.len() > 0 ==> !Class::White.holds(name[0]) && !Class::White.holds(name.last()),
        !(line.len() > marker.len() && line.take(marker.len() as int) == marker && line[marker.len() as int]
            == ' '),
    ensures
        ({
            let n = output.len();
            let before = sections(marker, output, n);
            let started = sections(marker, output.push(marker + seq![' '] + name), n + 1);
            let more = sections(marker, output.push(line), n + 1);
            &&& started == before.push((name, Seq::empty()))
            &&& before.len() == 0 ==> more == before
            &&& before.len() > 0 ==> more.len() == before.len() && more.drop_last()
                == before.drop_last() && more.last() == (
                before.last().0,
                before.last().1 + line + seq!['\n'],
            )
        }),
{
    let n = output.len();
    let head = marker + seq![' '] + name;
    sections_of_a_prefix(marker, output, head, n);
    sections_of_a_prefix(marker, output, line, n);
    assert(output.push(head)[n as int] == head);
    assert(output.push(line)[n as int] == line);
    assert(head.take(marker.len() as int + 1) =~= marker.push(' '));
    let none = Seq::<char>::empty();
    assert(head.skip(marker.len() as int + 1) =~= none + name + none);
    edges_are_trimmed(none, name, none, Class::White);
    if section_name(marker, line) is Some {
        assert(line.take(marker.len() as int + 1) == marker.push(' '));
        assert(line.take(marker.len() as int) =~= marker.push(' ').take(marker.len() as int));
        assert(line[marker.len() as int] == line.take(marker.len() as int + 1)[marker.len() as int]);
        assert(marker.push(' ').take(marker.len() as int) =~= marker);
    }
}

proof fn sections_of_a_prefix(
    marker: Seq<char>,
    output: Seq<Seq<char>>,
    line: Seq<char>,
    n: nat,
)
    requires
        n <= output.len(),
    ensures
        sections(marker, output.push(line), n) == sections(marker, output, n),
    decreases n,
{
    if n > 0 {
        sections_of_a_prefix(marker, output, line, (n - 1) as nat);
        assert(output.push(line)[n - 1] == output[n - 1]);
    }
}

/// A section is found by its name; of several, the first one counts.
pub proof fn sections_are_found_by_name(
    found: Seq<(Seq<char>, Seq<char>)>,
    name: Seq<char>,
    k: int,
)
    requires
        0 <= k < found.len(),
        found[k].0 == name,
        forall|i: int| 0 <= i < k ==> (#[trigger] found[i]).0 != name,
    ensures
        section_from(found, 0, name) == Some(found[k].1),
{
    section_is_at(found, 0, name, k);
}

proof fn section_is_at(found: Seq<(Seq<char>, Seq<char>)>, i: int, name: Seq<char>, k: int)
    requires
        0 <= i <= k < found.len(),
        found[k].0 == name,
        forall|j: int| i <= j < k ==> (#[trigger] found[j]).0 != name,
    ensures
        section_from(found, i, name) == Some(found[k].1),
    decreases k - i,
{
    if i < k {
        assert(found[i].0 != name);
        section_is_at(found, i + 1, name, k);
    }
}

} // verus!
