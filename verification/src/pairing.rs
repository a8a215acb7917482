//! The two sides of a sync: what each endpoint is, and which side plays which part.
use vstd::prelude::*;
use crate::cli::{direction, identity_of, policy_for, tablet_identity, ConflictArg};
use crate::sync::{Endpoint, EndpointView, Mode};
use crate::text::{lex_irreflexive, lex_lt, lex_total, lex_transitive, str_less};

verus! {

/// What a remote endpoint is said to be.
#[derive(Debug, Clone, Copy, PartialEq, Eq, Structural)]
pub enum RemoteKind {
    /// A reMarkable tablet.
    Remarkable,
    /// A host with plain files.
    Fs,
}

/// Whether a remote endpoint is a tablet, where that was said; otherwise it has to be probed.
pub fn said_to_be_tablet(kind: Option<RemoteKind>) -> (r: Option<bool>)
    ensures
        r == match kind {
            Some(k) => Some(k == RemoteKind::Remarkable),
            None => None,
        },
{
    match kind {
        Some(RemoteKind::Remarkable) => Some(true),
        Some(RemoteKind::Fs) => Some(false),
        None => None,
    }
}

/// One side of a sync.
#[derive(Debug)]
pub enum Side {
    /// A file tree, here or on a host with plain files.
    Files { path: String, is_local: bool, identity: String },
    /// A folder of a tablet.
    Tablet { destination: String, path: String },
}

/// What a [`Side`] holds.
pub enum SideView {
    Files { path: Seq<char>, is_local: bool, identity: Seq<char> },
    Tablet { destination: Seq<char>, path: Seq<char> },
}

impl DeepView for Side {
    type V = SideView;

    open spec fn deep_view(&self) -> SideView {
        match *self {
            Side::Files { path, is_local, identity } => SideView::Files {
                path: path@,
                is_local,
                identity: identity@,
            },
            Side::Tablet { destination, path } => SideView::Tablet {
                destination: destination@,
                path: path@,
            },
        }
    }
}

/// The side that an endpoint is. A local path is known by its canonical form, where it has one, so
/// that all ways to write it mean the same side.
pub open spec fn side_of(
    endpoint: EndpointView,
    canonical: Option<Seq<char>>,
    is_tablet: bool,
) -> SideView {
    match endpoint {
        EndpointView::Local(path) => SideView::Files {
            path,
            is_local: true,
            identity: match canonical {
                Some(c) => c,
                None => path,
            },
        },
        EndpointView::Remote { destination, path } => if is_tablet {
            SideView::Tablet { destination, path }
        } else {
            SideView::Files { path, is_local: false, identity: identity_of(destination, path) }
        },
    }
}

/// The side that an endpoint is; `is_tablet` counts for remote endpoints, `canonical` for local ones.
pub fn build_side(endpoint: Endpoint, canonical: Option<String>, is_tablet: bool) -> (r: Side)
    ensures
        r.deep_view() == side_of(endpoint.deep_view(), canonical.deep_view(), is_tablet),
{
    match endpoint {
        Endpoint::Local(path) => {
            let identity = match canonical {
                Some(c) => c,
                None => path.clone(),
            };
            Side::Files { path, is_local: true, identity }
        },
        Endpoint::Remote { destination, path } => {
            if is_tablet {
                Side::Tablet { destination, path }
            } else {
                let identity = tablet_identity(destination.as_str(), path.as_str());
                Side::Files { path, is_local: false, identity }
            }
        },
    }
}

/// What kind of sync two sides make. Side A is the one that the options call local.
#[derive(Debug, Clone, Copy, PartialEq, Eq, Structural)]
pub enum Pairing {
    /// A file tree, which is side A, and a tablet.
    Device { a_is_src: bool },
    /// Two file trees.
    Files { a_is_src: bool },
    /// Two tablets.
    Documents { a_is_src: bool },
}

/// What kind of sync two sides make. Of two file trees side A is the local one, if there is just
/// one, else the first argument; of two tablets it is the one whose identity comes first, so that
/// the order of the arguments does not matter.
pub open spec fn pairing_of(src: SideView, dst: SideView) -> Pairing {
    match (src, dst) {
        (SideView::Files { .. }, SideView::Tablet { .. }) => Pairing::Device { a_is_src: true },
        (SideView::Tablet { .. }, SideView::Files { .. }) => Pairing::Device { a_is_src: false },
        (
            SideView::Files { is_local: src_local, .. },
            SideView::Files { is_local: dst_local, .. },
        ) => Pairing::Files { a_is_src: src_local || !dst_local },
        (
            SideView::Tablet { destination: src_host, path: src_path },
            SideView::Tablet { destination: dst_host, path: dst_path },
        ) => Pairing::Documents {
            a_is_src: !lex_lt(identity_of(dst_host, dst_path), identity_of(src_host, src_path)),
        },
    }
}

/// What kind of sync two sides make.
pub fn pair_sides(src: &Side, dst: &Side) -> (r: Pairing)
    ensures
        r == pairing_of(src.deep_view(), dst.deep_view()),
{
    match (src, dst) {
        (Side::Files { .. }, Side::Tablet { .. }) => Pairing::Device { a_is_src: true },
        (Side::Tablet { .. }, Side::Files { .. }) => Pairing::Device { a_is_src: false },
        (Side::Files { is_local: src_local, .. }, Side::Files { is_local: dst_local, .. }) =>
            Pairing::Files { a_is_src: *src_local || !*dst_local },
        (
            Side::Tablet { destination: src_host, path: src_path },
            Side::Tablet { destination: dst_host, path: dst_path },
        ) => {
            let src_id = tablet_identity(src_host.as_str(), src_path.as_str());
            let dst_id = tablet_identity(dst_host.as_str(), dst_path.as_str());
            Pairing::Documents { a_is_src: !str_less(dst_id.as_str(), src_id.as_str()) }
        },
    }
}

/// What a side is known by: a file tree by its canonical path or its host and path, a folder of a
/// tablet by its host and path.
pub open spec fn known_by(side: SideView) -> Seq<char> {
    match side {
        SideView::Files { identity, .. } => identity,
        SideView::Tablet { destination, path } => identity_of(destination, path),
    }
}

/// The pair of identities under which the state of a sync is kept. A file tree comes before a
/// tablet; of two trees or two tablets the one whose identity is the smaller comes first.
pub open spec fn state_key_of(src: SideView, dst: SideView) -> (Seq<char>, Seq<char>) {
    let in_order = match pairing_of(src, dst) {
        Pairing::Device { a_is_src } => a_is_src,
        Pairing::Documents { a_is_src } => a_is_src,
        Pairing::Files { .. } => !lex_lt(known_by(dst), known_by(src)),
    };
    if in_order {
        (known_by(src), known_by(dst))
    } else {
        (known_by(dst), known_by(src))
    }
}

fn name_side(side: &Side) -> (r: String)
    ensures
        r@ == known_by(side.deep_view()),
{
    match side {
        Side::Files { identity, .. } => identity.clone(),
        Side::Tablet { destination, path } => tablet_identity(destination.as_str(), path.as_str()),
    }
}

/// The pair of identities under which the state of a sync is kept.
pub fn state_key(src: &Side, dst: &Side) -> (r: (String, String))
    ensures
        (r.0@, r.1@) == state_key_of(src.deep_view(), dst.deep_view()),
{
    let src_name = name_side(src);
    let dst_name = name_side(dst);
    let in_order = match pair_sides(src, dst) {
        Pairing::Device { a_is_src } => a_is_src,
        Pairing::Documents { a_is_src } => a_is_src,
        Pairing::Files { .. } => !str_less(dst_name.as_str(), src_name.as_str()),
    };
    if in_order {
        (src_name, dst_name)
    } else {
        (dst_name, src_name)
    }
}

/// Whether the first argument is side A.
pub open spec fn a_is_first(pairing: Pairing) -> bool {
    match pairing {
        Pairing::Device { a_is_src } => a_is_src,
        Pairing::Files { a_is_src } => a_is_src,
        Pairing::Documents { a_is_src } => a_is_src,
    }
}

/// Whether two sides are told apart by more than the order of the arguments.
pub open spec fn are_told_apart(a: SideView, b: SideView) -> bool {
    match (a, b) {
        (SideView::Files { is_local: one, .. }, SideView::Files { is_local: other, .. }) => one
            != other,
        (
            SideView::Tablet { destination: one, path: one_path },
            SideView::Tablet { destination: other, path: other_path },
        ) => identity_of(one, one_path) != identity_of(other, other_path),
        _ => true,
    }
}

/// The order of the arguments does not choose the sides: where the two can be told apart, the same
/// one is side A either way. So a two-way sync means the same with its arguments swapped, as long as
/// the side that wins is swapped with them.
pub proof fn order_does_not_choose_sides(one: SideView, other: SideView)
    requires
        are_told_apart(one, other),
    ensures
        ({
            let forth = a_is_first(pairing_of(one, other));
            let back = a_is_first(pairing_of(other, one));
            &&& forth != back
            &&& direction(true, forth) == direction(true, back)
            &&& policy_for(ConflictArg::Src, forth) == policy_for(ConflictArg::Dst, back)
            &&& policy_for(ConflictArg::Dst, forth) == policy_for(ConflictArg::Src, back)
            &&& policy_for(ConflictArg::Newest, forth) == policy_for(ConflictArg::Newest, back)
            &&& policy_for(ConflictArg::Skip, forth) == policy_for(ConflictArg::Skip, back)
        }),
{
    match (one, other) {
        (
            SideView::Tablet { destination: a, path: a_path },
            SideView::Tablet { destination: b, path: b_path },
        ) => {
            let a_id = identity_of(a, a_path);
            let b_id = identity_of(b, b_path);
            lex_total(a_id, b_id);
            if lex_lt(a_id, b_id) && lex_lt(b_id, a_id) {
                lex_transitive(a_id, b_id, a_id);
                lex_irreflexive(a_id);
            }
        },
        _ => {},
    }
}

/// A file tree and a tablet: one-way syncs go from the first argument to the second, whichever is
/// the tree, and the state is kept under the tree's identity and then the tablet's either way.
pub proof fn trees_and_tablets_share_one_state(
    path: Seq<char>,
    is_local: bool,
    identity: Seq<char>,
    destination: Seq<char>,
    folder: Seq<char>,
)
    ensures
        ({
            let tree = SideView::Files { path, is_local, identity };
            let tablet = SideView::Tablet { destination, path: folder };
            &&& direction(false, a_is_first(pairing_of(tree, tablet))) == Mode::Push
            &&& direction(false, a_is_first(pairing_of(tablet, tree))) == Mode::Pull
            &&& direction(true, a_is_first(pairing_of(tree, tablet))) == Mode::TwoWay
            &&& direction(true, a_is_first(pairing_of(tablet, tree))) == Mode::TwoWay
            &&& state_key_of(tree, tablet) == (identity, identity_of(destination, folder))
            &&& state_key_of(tablet, tree) == (identity, identity_of(destination, folder))
        }),
{
}

/// Two tablets: side A is the one whose identity comes first, and the state is kept under the two
/// identities in that order; one-way syncs still go from the first argument to the second.
pub proof fn tablets_are_ordered_by_identity(
    host: Seq<char>,
    path: Seq<char>,
    other_host: Seq<char>,
    other_path: Seq<char>,
)
    requires
        lex_lt(identity_of(host, path), identity_of(other_host, other_path)),
    ensures
        ({
            let one = SideView::Tablet { destination: host, path };
            let other = SideView::Tablet { destination: other_host, path: other_path };
            let key = (identity_of(host, path), identity_of(other_host, other_path));
            &&& direction(false, a_is_first(pairing_of(one, other))) == Mode::Push
            &&& direction(false, a_is_first(pairing_of(other, one))) == Mode::Pull
            &&& direction(true, a_is_first(pairing_of(one, other))) == Mode::TwoWay
            &&& direction(true, a_is_first(pairing_of(other, one))) == Mode::TwoWay
            &&& state_key_of(one, other) == key
            &&& state_key_of(other, one) == key
        }),
{
    let one = SideView::Tablet { destination: host, path };
    let other = SideView::Tablet { destination: other_host, path: other_path };
    order_does_not_choose_state(one, other);
    lex_irreflexive(known_by(one));
    if lex_lt(known_by(other), known_by(one)) {
        lex_transitive(known_by(one), known_by(other), known_by(one));
    }
}

/// A sync with its arguments swapped finds the same state.
pub proof fn order_does_not_choose_state(one: SideView, other: SideView)
    ensures
        state_key_of(one, other) == state_key_of(other, one),
{
    let a = known_by(one);
    let b = known_by(other);
    lex_total(a, b);
    if lex_lt(a, b) && lex_lt(b, a) {
        lex_transitive(a, b, a);
        lex_irreflexive(a);
    }
}

/// A local path is a file tree that is known by its canonical form where it has one. A path on a host is
/// a folder of a tablet where the host is one, and otherwise a file tree known by its host and path.
pub proof fn endpoints_are_the_sides_they_name(
    path: Seq<char>,
    destination: Seq<char>,
    canonical: Seq<char>,
    is_tablet: bool,
)
    ensures
        side_of(EndpointView::Local(path), Some(canonical), is_tablet) == (SideView::Files {
            path,
            is_local: true,
            identity: canonical,
        }),
        side_of(EndpointView::Local(path), None, is_tablet) == (SideView::Files {
            path,
            is_local: true,
            identity: path,
        }),
        side_of(EndpointView::Remote { destination, path }, Some(canonical), true)
            == (SideView::Tablet { destination, path }),
        side_of(EndpointView::Remote { destination, path }, None, false) == (SideView::Files {
            path,
            is_local: false,
            identity: identity_of(destination, path),
        }),
{
}

/// Two file trees: side A is the local one where there is just one, and otherwise the first argument.
/// Two tablets, and a tree and a tablet, make other kinds of syncs.
pub proof fn local_trees_come_first(
    path: Seq<char>,
    other: Seq<char>,
    identity: Seq<char>,
    other_identity: Seq<char>,
    is_local: bool,
    other_is_local: bool,
    host: Seq<char>,
    other_host: Seq<char>,
)
    ensures
        ({
            let tree = SideView::Files { path, is_local, identity };
            let second = SideView::Files {
                path: other,
                is_local: other_is_local,
                identity: other_identity,
            };
            let tablet = SideView::Tablet { destination: host, path };
            let last = SideView::Tablet { destination: other_host, path: other };
            &&& pairing_of(tree, second) == Pairing::Files { a_is_src: !other_is_local || is_local }
            &&& pairing_of(tree, tablet) == Pairing::Device { a_is_src: true }
            &&& pairing_of(tablet, tree) == Pairing::Device { a_is_src: false }
            &&& pairing_of(tablet, last) is Documents
            &&& state_key_of(tree, second) == (identity, other_identity) || state_key_of(
                tree,
                second,
            ) == (other_identity, identity)
        }),
{
}

} // verus!
