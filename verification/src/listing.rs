//! The document listing: one script prints every metadata and content file and the payload sizes,
//! and the items are built from its output.
use vstd::prelude::*;
use vstd::utf8::encode_utf8;
use crate::json::{json_of, Json, JsonView};
use crate::metadata::{item_from_metadata, item_of};
use crate::number::{parse_nat, parse_u64};
use crate::pathmap::{keys, put, value_of, PathMap};
use crate::sections::{section_views, sections, split_sections};
use crate::ssh::{quoted, shell_quote};
use crate::text::{
    ascending,
    cat3,
    cat5,
    ends_with,
    finishes,
    from_chars,
    lex_lt,
    lines,
    lines_in,
    pieces,
    same,
    split_once,
    split_once_in,
    take_chars,
    to_chars,
    trim,
    trim_in,
    Class,
};
use crate::xochitl::{Item, ItemView};

verus! {

/// The listing script for a data directory; `marker` starts each section of its output.
pub open spec fn list_command(dir: Seq<char>, marker: Seq<char>) -> Seq<char> {
    "cd "@ + quoted(dir)
        + " || exit 9\nfor f in *.metadata *.content; do\n[ -f \"$f\" ] || continue\nprintf '\\n%s %s\\n' "@
        + quoted(marker) + " \"$f\"\ncat \"$f\"\ndone\nprintf '\\n%s __sizes__\\n' "@ + quoted(
        marker,
    )
        + "\nfor f in *.pdf *.epub; do\n[ -f \"$f\" ] || continue\nprintf '%s %s\\n' \"$(wc -c < \"$f\")\" \"$f\"\ndone\n"@
}

/// The script that prints every metadata and content file and the payload sizes, in one round trip.
pub fn list_script(dir: &str, marker: &str) -> (r: String)
    ensures
        r@ == list_command(dir@, marker@),
{
    let dir = shell_quote(dir);
    let marker = shell_quote(marker);
    let head = cat5(
        "cd ",
        dir.as_str(),
        " || exit 9\nfor f in *.metadata *.content; do\n[ -f \"$f\" ] || continue\nprintf '\\n%s %s\\n' ",
        marker.as_str(),
        " \"$f\"\ncat \"$f\"\ndone\nprintf '\\n%s __sizes__\\n' ",
    );
    cat3(
        head.as_str(),
        marker.as_str(),
        "\nfor f in *.pdf *.epub; do\n[ -f \"$f\" ] || continue\nprintf '%s %s\\n' \"$(wc -c < \"$f\")\" \"$f\"\ndone\n",
    )
}

/// The output of the listing script: metadata and content by UUID, sizes by payload file name.
#[derive(Debug)]
pub struct Listing {
    pub metadata: PathMap<String>,
    pub content: PathMap<String>,
    pub sizes: PathMap<u64>,
}

/// What a [`Listing`] holds.
pub struct ListingView {
    pub metadata: Seq<(Seq<char>, Seq<char>)>,
    pub content: Seq<(Seq<char>, Seq<char>)>,
    pub sizes: Seq<(Seq<char>, u64)>,
}

impl DeepView for Listing {
    type V = ListingView;

    open spec fn deep_view(&self) -> ListingView {
        ListingView {
            metadata: self.metadata.pairs(),
            content: self.content.pairs(),
            sizes: self.sizes.pairs(),
        }
    }
}

impl Listing {
    pub open spec fn wf(&self) -> bool {
        self.metadata.wf() && self.content.wf() && self.sizes.wf()
    }
}

/// A payload file name and its size, from a line such as `2048 aaa.pdf`.
pub open spec fn size_of_line(line: Seq<char>) -> Option<(Seq<char>, u64)> {
    match split_once(line, Class::Only(' ')) {
        Some((size, name)) => match parse_nat(trim(size, Class::White), u64::MAX as nat) {
            Some(n) => Some((name, n as u64)),
            None => None,
        },
        None => None,
    }
}

/// Sizes with those of the first `n` lines set.
pub open spec fn sized(
    sizes: Seq<(Seq<char>, u64)>,
    ls: Seq<Seq<char>>,
    n: nat,
) -> Seq<(Seq<char>, u64)>
    decreases n,
{
    if n == 0 {
        sizes
    } else {
        let before = sized(sizes, ls, (n - 1) as nat);
        match size_of_line(ls[n - 1]) {
            Some((name, size)) => put(before, name, size),
            None => before,
        }
    }
}

/// A name without a suffix that it ends with.
pub open spec fn without_suffix(name: Seq<char>, suffix: Seq<char>) -> Option<Seq<char>> {
    if ends_with(name, suffix) {
        Some(name.take(name.len() - suffix.len()))
    } else {
        None
    }
}

/// The listing of the first `n` sections.
pub open spec fn listed(found: Seq<(Seq<char>, Seq<char>)>, n: nat) -> ListingView
    decreases n,
{
    if n == 0 {
        ListingView { metadata: Seq::empty(), content: Seq::empty(), sizes: Seq::empty() }
    } else {
        let before = listed(found, (n - 1) as nat);
        let (name, body) = found[n - 1];
        if name == "__sizes__"@ {
            ListingView { sizes: sized(before.sizes, lines(body), lines(body).len()), ..before }
        } else {
            match without_suffix(name, ".metadata"@) {
                Some(uuid) => ListingView { metadata: put(before.metadata, uuid, body), ..before },
                None => match without_suffix(name, ".content"@) {
                    Some(uuid) => ListingView { content: put(before.content, uuid, body), ..before },
                    None => before,
                },
            }
        }
    }
}

/// The listing that the output of the listing script holds.
pub open spec fn listing_of(marker: Seq<char>, output: Seq<char>) -> ListingView {
    let found = sections(marker, lines(output), lines(output).len());
    listed(found, found.len())
}

fn strip_suffix(name: &[char], suffix: &str) -> (r: Option<String>)
    ensures
        match r {
            Some(s) => without_suffix(name@, suffix@) == Some(s@),
            None => without_suffix(name@, suffix@) is None,
        },
{
    let end = to_chars(suffix);
    if finishes(name, &end) {
        Some(from_chars(take_chars(name, name.len() - end.len())))
    } else {
        None
    }
}

fn read_sizes(sizes: &mut PathMap<u64>, body: &[char])
    requires
        old(sizes).wf(),
    ensures
        final(sizes).wf(),
        final(sizes).pairs() == sized(old(sizes).pairs(), lines(body@), lines(body@).len()),
{
    let ghost start = sizes.pairs();
    let ghost ls = lines(body@);
    let all = lines_in(body);
    let mut i: usize = 0;
    while i < all.len()
        invariant
            i <= all.len(),
            ls == pieces(all@),
            sizes.wf(),
            sizes.pairs() == sized(start, ls, i as nat),
        decreases all.len() - i,
    {
        assert(ls[i as int] == all[i as int]@);
        if let Some((size, name)) = split_once_in(&all[i], &Class::Only(' ')) {
            if let Some(n) = parse_u64(trim_in(size, &Class::White), u64::MAX) {
                sizes.insert(from_chars(name), n);
            }
        }
        i += 1;
    }
}

/// Parses the output of the listing script.
pub fn parse_listing(marker: &str, output: &str) -> (r: Listing)
    ensures
        r.wf(),
        r.deep_view() == listing_of(marker@, output@),
{
    let found = split_sections(marker, output);
    let ghost views = section_views(found@);
    let sizes_name = to_chars("__sizes__");
    let mut metadata: PathMap<String> = PathMap::new();
    let mut content: PathMap<String> = PathMap::new();
    let mut sizes: PathMap<u64> = PathMap::new();
    let mut i: usize = 0;
    while i < found.len()
        invariant
            i <= found.len(),
            views == section_views(found@),
            sizes_name@ == "__sizes__"@,
            metadata.wf(),
            content.wf(),
            sizes.wf(),
            metadata.pairs() == listed(views, i as nat).metadata,
            content.pairs() == listed(views, i as nat).content,
            sizes.pairs() == listed(views, i as nat).sizes,
        decreases found.len() - i,
    {
        let (name, body) = &found[i];
        assert(views[i as int] == (name@, body@));
        if same(name, &sizes_name) {
            read_sizes(&mut sizes, body);
        } else {
            match strip_suffix(name, ".metadata") {
                Some(uuid) => {
                    metadata.insert(uuid, from_chars(body));
                },
                None => match strip_suffix(name, ".content") {
                    Some(uuid) => {
                        content.insert(uuid, from_chars(body));
                    },
                    None => {},
                },
            }
        }
        i += 1;
    }
    Listing { metadata, content, sizes }
}

/// The size of a document's payload, by the file type that its content declares.
pub open spec fn payload_size(
    uuid: Seq<char>,
    content: Option<JsonView>,
    sizes: Seq<(Seq<char>, u64)>,
) -> Option<u64> {
    match content {
        Some(json) => match json.some_text("fileType"@) {
            Some(file_type) => value_of(sizes, uuid + "."@ + file_type),
            None => None,
        },
        None => None,
    }
}

/// The item that a metadata file and a content file describe.
pub open spec fn described(
    uuid: Seq<char>,
    metadata: JsonView,
    content: Option<JsonView>,
    sizes: Seq<(Seq<char>, u64)>,
) -> Option<ItemView> {
    item_of(uuid, metadata, content, payload_size(uuid, content, sizes))
}

/// The item that a metadata file and a content file describe.
pub fn describe_item(
    uuid: &str,
    metadata: &Json,
    content: Option<&Json>,
    sizes: &PathMap<u64>,
) -> (r: Option<Item>)
    ensures
        r.deep_view() == described(
            uuid@,
            metadata.deep_view(),
            content.deep_view(),
            sizes.pairs(),
        ),
{
    let mut size: Option<u64> = None;
    if let Some(json) = content {
        if let Some(file_type) = json.some_text("fileType") {
            let name = cat3(uuid, ".", file_type);
            if let Some(n) = sizes.get(name.as_str()) {
                size = Some(*n);
            }
        }
    }
    item_from_metadata(uuid, metadata, content, size)
}

/// The document that a file holds; a file that is no JSON counts as absent.
pub open spec fn read_file(files: Seq<(Seq<char>, Seq<char>)>, uuid: Seq<char>) -> Option<JsonView> {
    match value_of(files, uuid) {
        Some(body) => match json_of(encode_utf8(body)) {
            Ok(json) => Some(json),
            Err(_) => None,
        },
        None => None,
    }
}

fn read_json(files: &PathMap<String>, uuid: &str) -> (r: Option<Json>)
    ensures
        r.deep_view() == read_file(files.pairs(), uuid@),
{
    match files.get(uuid) {
        Some(body) => match Json::parse(body.as_str().as_bytes()) {
            Ok(json) => Some(json),
            Err(_) => None,
        },
        None => None,
    }
}

/// The item of a UUID. Metadata that is no JSON describes none.
pub open spec fn listed_item(listing: ListingView, uuid: Seq<char>) -> Option<ItemView> {
    match read_file(listing.metadata, uuid) {
        Some(metadata) => described(
            uuid,
            metadata,
            read_file(listing.content, uuid),
            listing.sizes,
        ),
        None => None,
    }
}

/// The items of the first `n` metadata files, in ascending order of their UUIDs.
pub open spec fn items_of(listing: ListingView, n: nat) -> Seq<ItemView>
    decreases n,
{
    if n == 0 {
        Seq::empty()
    } else {
        let before = items_of(listing, (n - 1) as nat);
        match listed_item(listing, listing.metadata[n - 1].0) {
            Some(item) => before.push(item),
            None => before,
        }
    }
}

/// Builds the items of a listing, in ascending order of their UUIDs. Metadata that cannot be parsed
/// (partial writes, corruption) is skipped rather than failing the whole listing.
pub fn build_items(listing: &Listing) -> (r: Vec<Item>)
    requires
        listing.wf(),
    ensures
        r.deep_view() == items_of(listing.deep_view(), listing.deep_view().metadata.len()),
{
    let ghost view = listing.deep_view();
    let mut out: Vec<Item> = Vec::new();
    let n = listing.metadata.len();
    let mut i: usize = 0;
    assert(out.deep_view() =~= Seq::empty());
    while i < n
        invariant
            i <= n,
            n == listing.metadata.pairs().len(),
            view == listing.deep_view(),
            out.deep_view() == items_of(view, i as nat),
        decreases n - i,
    {
        let ghost before = out.deep_view();
        let uuid = listing.metadata.key_at(i);
        if let Some(metadata) = read_json(&listing.metadata, uuid) {
            let content = read_json(&listing.content, uuid);
            let content: Option<&Json> = match &content {
                Some(json) => Some(json),
                None => None,
            };
            if let Some(item) = describe_item(uuid, &metadata, content, &listing.sizes) {
                let ghost shown = item.deep_view();
                out.push(item);
                assert(out.deep_view() =~= before.push(shown));
            }
        }
        i += 1;
    }
    out
}

/// Items are listed once each, in ascending order of their UUIDs, and each has a metadata file.
pub proof fn listed_items_are_distinct(listing: ListingView, n: nat)
    requires
        ascending(keys(listing.metadata)),
        n <= listing.metadata.len(),
    ensures
        forall|i: int, j: int|
            0 <= i < j < items_of(listing, n).len() ==> lex_lt(
                (#[trigger] items_of(listing, n)[i]).uuid,
                (#[trigger] items_of(listing, n)[j]).uuid,
            ),
        forall|i: int|
            0 <= i < items_of(listing, n).len() ==> exists|k: int|
                0 <= k < n && (#[trigger] listing.metadata[k]).0 == (#[trigger] items_of(
                    listing,
                    n,
                )[i]).uuid,
    decreases n,
{
    if n > 0 {
        let m = (n - 1) as nat;
        listed_items_are_distinct(listing, m);
        let before = items_of(listing, m);
        let all = items_of(listing, n);
        let here = listing.metadata[n - 1].0;
        assert forall|i: int| 0 <= i < all.len() implies exists|k: int|
            0 <= k < n && (#[trigger] listing.metadata[k]).0 == (#[trigger] all[i]).uuid by {
            if i < before.len() {
                assert(all[i] == before[i]);
                let k = choose|k: int|
                    0 <= k < m && (#[trigger] listing.metadata[k]).0 == before[i].uuid;
                assert(listing.metadata[k].0 == all[i].uuid);
            } else {
                assert(listing.metadata[n - 1].0 == all[i].uuid);
            }
        }
        assert forall|i: int, j: int| 0 <= i < j < all.len() implies lex_lt(
            (#[trigger] all[i]).uuid,
            (#[trigger] all[j]).uuid,
        ) by {
            assert(all[i] == before[i]);
            if j < before.len() {
                assert(all[j] == before[j]);
            } else {
                let k = choose|k: int|
                    0 <= k < m && (#[trigger] listing.metadata[k]).0 == before[i].uuid;
                assert(keys(listing.metadata)[k] == before[i].uuid);
                assert(keys(listing.metadata)[n - 1] == here);
            }
        }
    }
}

} // verus!
