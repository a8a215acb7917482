//! Fresh identifiers.
use vstd::prelude::*;
use crate::text::{cat, cat3, from_chars, take_chars, to_chars};

verus! {

/// Whether `c` is a lowercase hexadecimal digit.
pub open spec fn is_hex(c: char) -> bool {
    '0' <= c <= '9' || 'a' <= c <= 'f'
}

/// Whether a position of a UUID holds a hyphen.
pub open spec fn is_hyphen_place(i: int) -> bool {
    i == 8 || i == 13 || i == 18 || i == 23
}

/// Whether a text is a random UUID in its hyphenated form.
pub open spec fn is_uuid(s: Seq<char>) -> bool {
    &&& s.len() == 36
    &&& forall|i: int|
        0 <= i < 36 ==> if is_hyphen_place(i) {
            #[trigger] s[i] == '-'
        } else {
            is_hex(s[i])
        }
    &&& s[14] == '4'
    &&& s[19] == '8' || s[19] == '9' || s[19] == 'a' || s[19] == 'b'
}

/// `uuid::Uuid::new_v4` in its hyphenated lowercase form. Which UUID it is is left to chance.
#[verifier::external_body]
pub(crate) fn fresh_uuid() -> (r: String)
    ensures
        is_uuid(r@),
{
    uuid::Uuid::new_v4().to_string()
}

/// The first `n` characters without hyphens.
pub open spec fn without_hyphens(s: Seq<char>, n: nat) -> Seq<char>
    decreases n,
{
    if n == 0 {
        Seq::empty()
    } else if s[n - 1] == '-' {
        without_hyphens(s, (n - 1) as nat)
    } else {
        without_hyphens(s, (n - 1) as nat).push(s[n - 1])
    }
}

fn simple_form(uuid: &str) -> (r: Vec<char>)
    ensures
        r@ == without_hyphens(uuid@, uuid@.len()),
{
    let chars = to_chars(uuid);
    let mut simple: Vec<char> = Vec::new();
    let mut i: usize = 0;
    while i < chars.len()
        invariant
            i <= chars.len(),
            chars@ == uuid@,
            simple@ == without_hyphens(uuid@, i as nat),
        decreases chars.len() - i,
    {
        if chars[i] != '-' {
            simple.push(chars[i]);
        }
        i += 1;
    }
    simple
}

/// The marker that separates the sections of a device reply, made of a UUID.
pub open spec fn marker_of(uuid: Seq<char>) -> Seq<char> {
    "===RMU:"@ + without_hyphens(uuid, uuid.len()) + "==="@
}

/// The marker that separates the sections of a device reply, made of a UUID.
pub fn marker_from(uuid: &str) -> (r: String)
    ensures
        r@ == marker_of(uuid@),
{
    let text = from_chars(&simple_form(uuid));
    cat3("===RMU:", text.as_str(), "===")
}

/// A fresh UUID for a new item.
pub fn new_uuid() -> (r: String)
    ensures
        is_uuid(r@),
{
    fresh_uuid()
}

/// A fresh marker for one device reply.
pub fn new_marker() -> (r: String)
    ensures
        exists|uuid: Seq<char>| #[trigger] is_uuid(uuid) && r@ == marker_of(uuid),
{
    let uuid = fresh_uuid();
    marker_from(uuid.as_str())
}

/// The directory for a multiplexing socket, made of a UUID. It is short, since the paths of sockets
/// are limited.
pub open spec fn control_dir_of(uuid: Seq<char>) -> Seq<char> {
    "/tmp/rmu-"@ + without_hyphens(uuid, uuid.len()).take(8)
}

proof fn simple_form_is_long(s: Seq<char>, n: nat)
    requires
        is_uuid(s),
        n <= 8,
    ensures
        without_hyphens(s, n).len() == n,
    decreases n,
{
    if n > 0 {
        simple_form_is_long(s, (n - 1) as nat);
        assert(!is_hyphen_place(n - 1));
        assert(is_hex(s[n - 1]));
    }
}

proof fn simple_form_grows(s: Seq<char>, n: nat, m: nat)
    requires
        n <= m,
    ensures
        without_hyphens(s, n).len() <= without_hyphens(s, m).len(),
    decreases m,
{
    if n < m {
        simple_form_grows(s, n, (m - 1) as nat);
    }
}

/// A fresh directory for a multiplexing socket.
pub fn new_control_dir() -> (r: String)
    ensures
        exists|uuid: Seq<char>| #[trigger] is_uuid(uuid) && r@ == control_dir_of(uuid),
{
    let uuid = fresh_uuid();
    let simple = simple_form(uuid.as_str());
    proof {
        simple_form_is_long(uuid@, 8);
        simple_form_grows(uuid@, 8, uuid@.len());
    }
    let id = from_chars(take_chars(&simple, 8));
    cat("/tmp/rmu-", id.as_str())
}

/// A marker is the UUID that it was made of, without its hyphens, between fixed marks; every other
/// character of the UUID is kept, in order.
pub proof fn markers_keep_their_uuid(uuid: Seq<char>, c: char)
    ensures
        marker_of(uuid) == "===RMU:"@ + without_hyphens(uuid, uuid.len()) + "==="@,
        without_hyphens(Seq::<char>::empty(), 0) == Seq::<char>::empty(),
        without_hyphens(uuid.push(c), uuid.len() + 1) == if c == '-' {
            without_hyphens(uuid, uuid.len())
        } else {
            without_hyphens(uuid, uuid.len()).push(c)
        },
{
    hyphens_of_a_prefix(uuid, c, uuid.len());
}

proof fn hyphens_of_a_prefix(s: Seq<char>, c: char, n: nat)
    requires
        n <= s.len(),
    ensures
        without_hyphens(s.push(c), n) == without_hyphens(s, n),
    decreases n,
{
    if n > 0 {
        hyphens_of_a_prefix(s, c, (n - 1) as nat);
        assert(s.push(c)[n - 1] == s[n - 1]);
    }
}

/// The directory of a socket is named by the first eight characters of a UUID without its hyphens.
pub proof fn control_dirs_are_short(uuid: Seq<char>)
    requires
        is_uuid(uuid),
    ensures
        control_dir_of(uuid) == "/tmp/rmu-"@ + uuid.take(8),
{
    hyphenless_starts_are_kept(uuid, 8);
    starts_stay(uuid, 8, uuid.len());
    assert(without_hyphens(uuid, uuid.len()).take(8) =~= uuid.take(8));
}

proof fn starts_stay(s: Seq<char>, n: nat, m: nat)
    requires
        n <= m <= s.len(),
    ensures
        without_hyphens(s, n).len() <= without_hyphens(s, m).len(),
        forall|i: int|
            0 <= i < without_hyphens(s, n).len() ==> without_hyphens(s, m)[i]
                == #[trigger] without_hyphens(s, n)[i],
    decreases m,
{
    if n < m {
        starts_stay(s, n, (m - 1) as nat);
    }
}

proof fn hyphenless_starts_are_kept(s: Seq<char>, n: nat)
    requires
        is_uuid(s),
        n <= 8,
    ensures
        without_hyphens(s, n) == s.take(n as int),
    decreases n,
{
    if n > 0 {
        hyphenless_starts_are_kept(s, (n - 1) as nat);
        assert(!is_hyphen_place(n - 1));
        assert(is_hex(s[n - 1]));
        assert(s.take(n as int) =~= s.take(n - 1).push(s[n - 1]));
    } else {
        assert(s.take(0) =~= Seq::empty());
    }
}

} // verus!
