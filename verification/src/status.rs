//! Device system status: model, firmware, CPU, memory, disks, battery.
//!
//! All facts are gathered in one round trip by a script whose output is cut into marked sections.
//! Every field is optional: the models expose different subsets, and a missing file means an
//! omitted row, never an error.
use vstd::prelude::*;
use crate::number::{all_digits, decimal, is_digit, parse_nat, parse_u64, show_u64};
use crate::sections::{find_section, section_from, section_views, sections, split_sections};
use crate::snapshot::{ascii_lowercase, to_ascii_lower};
use crate::ssh::{quoted, shell_quote};
use crate::text::{
    cat,
    cat3,
    cat5,
    from_chars,
    join,
    join_in,
    lines,
    lines_in,
    pieces,
    same,
    skip_chars,
    split,
    split_in,
    split_once,
    split_once_in,
    str_eq,
    to_chars,
    trim,
    trim_in,
    Class,
};
use crate::units::{duration_text, format_duration, format_kib, size_text};
use crate::walk::{ancestors, is_descendant};
use crate::xochitl::{text_of, Item, ItemView, TRASH_PARENT};

verus! {

/// One mounted filesystem's usage (from `df -kP`).
#[derive(Debug, PartialEq, Eq)]
pub struct DiskUsage {
    pub mount: String,
    pub total_kib: u64,
    pub used_kib: u64,
    pub available_kib: u64,
}

/// What a [`DiskUsage`] holds.
pub struct DiskView {
    pub mount: Seq<char>,
    pub total_kib: u64,
    pub used_kib: u64,
    pub available_kib: u64,
}

impl DeepView for DiskUsage {
    type V = DiskView;

    open spec fn deep_view(&self) -> DiskView {
        DiskView {
            mount: self.mount@,
            total_kib: self.total_kib,
            used_kib: self.used_kib,
            available_kib: self.available_kib,
        }
    }
}

/// Battery state (from `/sys/class/power_supply`).
#[derive(Debug, PartialEq, Eq)]
pub struct Battery {
    pub percent: u8,
    /// What the kernel reports, e.g. `Charging`, `Discharging` or `Full`.
    pub status: Option<String>,
}

/// What a [`Battery`] holds.
pub struct BatteryView {
    pub percent: u8,
    pub status: Option<Seq<char>>,
}

impl DeepView for Battery {
    type V = BatteryView;

    open spec fn deep_view(&self) -> BatteryView {
        BatteryView { percent: self.percent, status: text_of(self.status) }
    }
}

/// Logical document counts from the listing.
#[derive(Debug, Clone, Copy, PartialEq, Eq, Structural)]
pub struct DocumentCounts {
    pub documents: usize,
    pub folders: usize,
    pub trashed: usize,
}

impl Default for DocumentCounts {
    fn default() -> (r: Self)
        ensures
            r == (DocumentCounts { documents: 0, folders: 0, trashed: 0 }),
    {
        DocumentCounts { documents: 0, folders: 0, trashed: 0 }
    }
}

/// A best-effort snapshot of the tablet's system state. Fractional numbers are kept as the device
/// prints them.
#[derive(Debug)]
pub struct SystemStatus {
    pub model: Option<String>,
    pub serial: Option<String>,
    /// Software version (update.conf or os-release).
    pub os_version: Option<String>,
    /// Build identifier (`/etc/version`).
    pub os_build: Option<String>,
    pub kernel: Option<String>,
    pub arch: Option<String>,
    pub uptime_secs: Option<String>,
    pub load_average: Option<(String, String, String)>,
    pub cpu_count: Option<u32>,
    pub mem_total_kib: Option<u64>,
    pub mem_available_kib: Option<u64>,
    pub disks: Vec<DiskUsage>,
    pub battery: Option<Battery>,
    /// What `systemctl is-active xochitl` prints (`active`, `inactive`, ...).
    pub xochitl: Option<String>,
    /// Filled in from the document listing, not the status script.
    pub documents: Option<DocumentCounts>,
}

/// What a [`SystemStatus`] holds.
pub struct StatusView {
    pub model: Option<Seq<char>>,
    pub serial: Option<Seq<char>>,
    pub os_version: Option<Seq<char>>,
    pub os_build: Option<Seq<char>>,
    pub kernel: Option<Seq<char>>,
    pub arch: Option<Seq<char>>,
    pub uptime_secs: Option<Seq<char>>,
    pub load_average: Option<(Seq<char>, Seq<char>, Seq<char>)>,
    pub cpu_count: Option<u32>,
    pub mem_total_kib: Option<u64>,
    pub mem_available_kib: Option<u64>,
    pub disks: Seq<DiskView>,
    pub battery: Option<BatteryView>,
    pub xochitl: Option<Seq<char>>,
    pub documents: Option<DocumentCounts>,
}

/// The characters of three strings.
pub open spec fn texts_of(s: Option<(String, String, String)>) -> Option<
    (Seq<char>, Seq<char>, Seq<char>),
> {
    match s {
        Some((a, b, c)) => Some((a@, b@, c@)),
        None => None,
    }
}

impl DeepView for SystemStatus {
    type V = StatusView;

    open spec fn deep_view(&self) -> StatusView {
        StatusView {
            model: text_of(self.model),
            serial: text_of(self.serial),
            os_version: text_of(self.os_version),
            os_build: text_of(self.os_build),
            kernel: text_of(self.kernel),
            arch: text_of(self.arch),
            uptime_secs: text_of(self.uptime_secs),
            load_average: texts_of(self.load_average),
            cpu_count: self.cpu_count,
            mem_total_kib: self.mem_total_kib,
            mem_available_kib: self.mem_available_kib,
            disks: self.disks.deep_view(),
            battery: match self.battery {
                Some(b) => Some(b.deep_view()),
                None => None,
            },
            xochitl: text_of(self.xochitl),
            documents: self.documents,
        }
    }
}

/// The status of a device that told nothing.
pub open spec fn unknown_status() -> StatusView {
    StatusView {
        model: None,
        serial: None,
        os_version: None,
        os_build: None,
        kernel: None,
        arch: None,
        uptime_secs: None,
        load_average: None,
        cpu_count: None,
        mem_total_kib: None,
        mem_available_kib: None,
        disks: Seq::empty(),
        battery: None,
        xochitl: None,
        documents: None,
    }
}

impl Default for SystemStatus {
    fn default() -> (r: Self)
        ensures
            r.deep_view() == unknown_status(),
    {
        let disks: Vec<DiskUsage> = Vec::new();
        assert(disks.deep_view() =~= Seq::empty());
        SystemStatus {
            model: None,
            serial: None,
            os_version: None,
            os_build: None,
            kernel: None,
            arch: None,
            uptime_secs: None,
            load_average: None,
            cpu_count: None,
            mem_total_kib: None,
            mem_available_kib: None,
            disks,
            battery: None,
            xochitl: None,
            documents: None,
        }
    }
}

/// The script that gathers the status, up to the marker.
pub const SCRIPT_HEAD: &'static str = "sec() { printf '\\n%s %s\\n' ";

/// The rest of the script. Every read is best-effort, and the script always succeeds.
pub const SCRIPT_TAIL: &'static str = " \"$1\"; }\n\
sec model; cat /sys/devices/soc0/machine /proc/device-tree/model 2>/dev/null\n\
sec serial; cat /proc/device-tree/serial-number 2>/dev/null\n\
sec update-conf; cat /usr/share/remarkable/update.conf 2>/dev/null\n\
sec os-release; cat /etc/os-release 2>/dev/null\n\
sec build; cat /etc/version 2>/dev/null\n\
sec kernel; uname -r 2>/dev/null; uname -m 2>/dev/null\n\
sec uptime; cat /proc/uptime 2>/dev/null\n\
sec loadavg; cat /proc/loadavg 2>/dev/null\n\
sec cpus; grep -c ^processor /proc/cpuinfo 2>/dev/null\n\
sec meminfo; cat /proc/meminfo 2>/dev/null\n\
sec df; df -kP /home / 2>/dev/null\n\
sec battery; for d in /sys/class/power_supply/*; do\n\
[ -e \"$d/capacity\" ] || continue\n\
printf '%s %s\\n' \"$(cat \"$d/capacity\" 2>/dev/null)\" \"$(cat \"$d/status\" 2>/dev/null)\"\n\
done\n\
sec xochitl; systemctl is-active xochitl 2>/dev/null\n\
true\n";

/// The script that gathers the status; `marker` starts each section of its output.
pub fn status_script(marker: &str) -> (r: String)
    ensures
        r@ == SCRIPT_HEAD@ + quoted(marker@) + SCRIPT_TAIL@,
{
    let marker = shell_quote(marker);
    cat3(SCRIPT_HEAD, marker.as_str(), SCRIPT_TAIL)
}

// ---------------------------------------------------------------------------
// Fields
// ---------------------------------------------------------------------------

/// The first `n` pieces trimmed, without those that are empty then.
pub open spec fn trimmed_by(parts: Seq<Seq<char>>, n: nat, k: Class) -> Seq<Seq<char>>
    decreases n,
{
    if n == 0 {
        Seq::empty()
    } else {
        let rest = trimmed_by(parts, (n - 1) as nat, k);
        let part = trim(parts[n - 1], k);
        if part.len() == 0 {
            rest
        } else {
            rest.push(part)
        }
    }
}

/// The lines of a body, trimmed, without those that are empty then.
pub open spec fn full_lines(body: Seq<char>, k: Class) -> Seq<Seq<char>> {
    trimmed_by(lines(body), lines(body).len(), k)
}

/// The words of a text: what stands between white space.
pub open spec fn words(s: Seq<char>) -> Seq<Seq<char>> {
    let parts = split(s, Class::White);
    trimmed_by(parts, parts.len(), Class::White)
}

fn trimmed_all(parts: &Vec<Vec<char>>, k: &Class) -> (out: Vec<Vec<char>>)
    ensures
        pieces(out@) == trimmed_by(pieces(parts@), parts.len() as nat, *k),
{
    let mut out: Vec<Vec<char>> = Vec::new();
    let mut i: usize = 0;
    assert(pieces(out@) =~= Seq::empty());
    while i < parts.len()
        invariant
            i <= parts.len(),
            pieces(out@) == trimmed_by(pieces(parts@), i as nat, *k),
        decreases parts.len() - i,
    {
        let ghost before = pieces(out@);
        let part = trim_in(&parts[i], k);
        assert(pieces(parts@)[i as int] == parts[i as int]@);
        if part.len() > 0 {
            out.push(vstd::slice::slice_to_vec(part));
            assert(pieces(out@) =~= before.push(part@));
        }
        i += 1;
    }
    out
}

fn words_in(s: &[char]) -> (out: Vec<Vec<char>>)
    ensures
        pieces(out@) == words(s@),
{
    let parts = split_in(s, &Class::White);
    trimmed_all(&parts, &Class::White)
}

fn full_lines_in(body: &[char], k: &Class) -> (out: Vec<Vec<char>>)
    ensures
        pieces(out@) == full_lines(body@, *k),
{
    let parts = lines_in(body);
    trimmed_all(&parts, k)
}

/// The text at position `i`, if there is one.
pub open spec fn at(texts: Seq<Seq<char>>, i: int) -> Option<Seq<char>> {
    if 0 <= i < texts.len() {
        Some(texts[i])
    } else {
        None
    }
}

fn text_at(texts: &Vec<Vec<char>>, i: usize) -> (r: Option<String>)
    ensures
        text_of(r) == at(pieces(texts@), i as int),
{
    if i < texts.len() {
        Some(from_chars(&texts[i]))
    } else {
        None
    }
}

/// The value behind the first `sep` of the first line from `i` on whose text before it, trimmed, is
/// `key`.
pub open spec fn keyed_from(
    ls: Seq<Seq<char>>,
    i: int,
    sep: char,
    key: Seq<char>,
) -> Option<Seq<char>>
    decreases ls.len() - i,
{
    if i < 0 || i >= ls.len() {
        None
    } else {
        match split_once(ls[i], Class::Only(sep)) {
            Some((k, v)) => if trim(k, Class::White) == key {
                Some(v)
            } else {
                keyed_from(ls, i + 1, sep, key)
            },
            None => keyed_from(ls, i + 1, sep, key),
        }
    }
}

fn find_keyed(body: &[char], sep: char, key: &str) -> (r: Option<Vec<char>>)
    ensures
        match r {
            Some(v) => keyed_from(lines(body@), 0, sep, key@) == Some(v@),
            None => keyed_from(lines(body@), 0, sep, key@) is None,
        },
{
    let all = lines_in(body);
    let ghost ls = lines(body@);
    let wanted = to_chars(key);
    let class = Class::Only(sep);
    let mut i: usize = 0;
    while i < all.len()
        invariant
            i <= all.len(),
            ls == pieces(all@),
            ls == lines(body@),
            wanted@ == key@,
            class == Class::Only(sep),
            keyed_from(ls, 0, sep, key@) == keyed_from(ls, i as int, sep, key@),
        decreases all.len() - i,
    {
        assert(ls[i as int] == all[i as int]@);
        if let Some((k, v)) = split_once_in(&all[i], &class) {
            if same(trim_in(k, &Class::White), &wanted) {
                return Some(vstd::slice::slice_to_vec(v));
            }
        }
        i += 1;
    }
    None
}

/// The value of a `KEY=value` line, without quotes; an empty one counts as absent.
pub open spec fn value_for(body: Seq<char>, key: Seq<char>) -> Option<Seq<char>> {
    match keyed_from(lines(body), 0, '=', key) {
        Some(v) => {
            let bare = trim(trim(v, Class::White), Class::Only('"'));
            if bare.len() == 0 {
                None
            } else {
                Some(bare)
            }
        },
        None => None,
    }
}

fn key_value(body: &[char], key: &str) -> (r: Option<String>)
    ensures
        text_of(r) == value_for(body@, key@),
{
    match find_keyed(body, '=', key) {
        Some(v) => {
            let bare = trim_in(trim_in(&v, &Class::White), &Class::Only('"'));
            if bare.len() == 0 {
                None
            } else {
                Some(from_chars(bare))
            }
        },
        None => None,
    }
}

/// A number of at most 64 bits.
pub open spec fn number_of(s: Option<Seq<char>>) -> Option<u64> {
    match s {
        Some(t) => match parse_nat(t, u64::MAX as nat) {
            Some(n) => Some(n as u64),
            None => None,
        },
        None => None,
    }
}

/// The number of a `MemTotal:        1892456 kB` line.
pub open spec fn memory_of(body: Seq<char>, field: Seq<char>) -> Option<u64> {
    match keyed_from(lines(body), 0, ':', field) {
        Some(v) => number_of(at(words(v), 0)),
        None => None,
    }
}

fn meminfo_field(body: &[char], field: &str) -> (r: Option<u64>)
    ensures
        r == memory_of(body@, field@),
{
    match find_keyed(body, ':', field) {
        Some(v) => {
            let found = words_in(&v);
            assert(found.len() == words(v@).len());
            if found.len() > 0 {
                assert(words(v@)[0] == found[0]@);
                parse_u64(&found[0], u64::MAX)
            } else {
                None
            }
        },
        None => None,
    }
}

// ---------------------------------------------------------------------------
// Disks and battery
// ---------------------------------------------------------------------------

/// The mount point of a line of `df` output: all fields from the sixth on.
pub open spec fn mount_of(line: Seq<char>) -> Option<Seq<char>> {
    let fields = words(line);
    if fields.len() < 5 {
        None
    } else {
        let mount = join(fields.skip(5), seq![' ']);
        if mount.len() == 0 {
            None
        } else {
            Some(mount)
        }
    }
}

/// The usage in a line of `df` output.
pub open spec fn disk_of(line: Seq<char>) -> Option<DiskView> {
    let fields = words(line);
    match (
        mount_of(line),
        number_of(at(fields, 1)),
        number_of(at(fields, 2)),
        number_of(at(fields, 3)),
    ) {
        (Some(mount), Some(total_kib), Some(used_kib), Some(available_kib)) => Some(
            DiskView { mount, total_kib, used_kib, available_kib },
        ),
        _ => None,
    }
}

/// Whether a line before `n`, but for the heading, is about the mount point.
pub open spec fn is_mounted(ls: Seq<Seq<char>>, n: int, mount: Seq<char>) -> bool {
    exists|i: int| 1 <= i < n && #[trigger] mount_of(ls[i]) == Some(mount)
}

/// The usages in the first `n` lines of `df` output. The first line is a heading, and only the first
/// line about a mount point counts.
pub open spec fn disks_of(ls: Seq<Seq<char>>, n: nat) -> Seq<DiskView>
    decreases n,
{
    if n <= 1 {
        Seq::empty()
    } else {
        let before = disks_of(ls, (n - 1) as nat);
        match disk_of(ls[n - 1]) {
            Some(disk) => if is_mounted(ls, n - 1, disk.mount) {
                before
            } else {
                before.push(disk)
            },
            None => before,
        }
    }
}

/// The mount point and the usage in a line of `df` output.
fn parse_disk(line: &[char]) -> (r: (Option<String>, Option<DiskUsage>))
    ensures
        text_of(r.0) == mount_of(line@),
        match r.1 {
            Some(disk) => disk_of(line@) == Some(disk.deep_view()),
            None => disk_of(line@) is None,
        },
{
    let fields = words_in(line);
    let ghost fs = words(line@);
    assert(fs.len() == fields.len());
    if fields.len() < 5 {
        return (None, None);
    }
    let mut rest: Vec<Vec<char>> = Vec::new();
    let mut i: usize = 5;
    assert(pieces(rest@) =~= fs.subrange(5, 5));
    while i < fields.len()
        invariant
            5 <= i <= fields.len(),
            fs == pieces(fields@),
            pieces(rest@) == fs.subrange(5, i as int),
        decreases fields.len() - i,
    {
        let ghost before = pieces(rest@);
        rest.push(vstd::slice::slice_to_vec(&fields[i]));
        assert(pieces(rest@) =~= before.push(fields[i as int]@));
        assert(fs.subrange(5, i + 1) =~= before.push(fs[i as int]));
        i += 1;
    }
    assert(fs.subrange(5, i as int) =~= fs.skip(5));
    let space: [char; 1] = [' '];
    assert(space@ =~= seq![' ']);
    let mount = join_in(&rest, &space);
    if mount.len() == 0 {
        return (None, None);
    }
    assert(fs[1] == fields[1]@ && fs[2] == fields[2]@ && fs[3] == fields[3]@);
    let total = parse_u64(&fields[1], u64::MAX);
    let used = parse_u64(&fields[2], u64::MAX);
    let available = parse_u64(&fields[3], u64::MAX);
    let name = Some(from_chars(&mount));
    match (total, used, available) {
        (Some(total_kib), Some(used_kib), Some(available_kib)) => (
            name,
            Some(DiskUsage { mount: from_chars(&mount), total_kib, used_kib, available_kib }),
        ),
        _ => (name, None),
    }
}

fn holds_text(texts: &Vec<String>, text: &str) -> (r: bool)
    ensures
        r == texts.deep_view().contains(text@),
{
    let ghost views = texts.deep_view();
    let mut i: usize = 0;
    while i < texts.len()
        invariant
            i <= texts.len(),
            views == texts.deep_view(),
            forall|k: int| 0 <= k < i ==> #[trigger] views[k] != text@,
        decreases texts.len() - i,
    {
        assert(views[i as int] == texts[i as int]@);
        if str_eq(texts[i].as_str(), text) {
            return true;
        }
        i += 1;
    }
    false
}

/// Parses `df -kP` output: a heading and one line per filesystem, each mount point once (`df /home
/// /` reports one filesystem twice when they share a device).
pub fn parse_df(body: &str) -> (out: Vec<DiskUsage>)
    ensures
        out.deep_view() == disks_of(lines(body@), lines(body@).len()),
{
    parse_disks(&to_chars(body))
}

fn parse_disks(body: &[char]) -> (out: Vec<DiskUsage>)
    ensures
        out.deep_view() == disks_of(lines(body@), lines(body@).len()),
{
    let all = lines_in(body);
    let ghost ls = lines(body@);
    let mut out: Vec<DiskUsage> = Vec::new();
    assert(out.deep_view() =~= Seq::empty());
    if all.len() == 0 {
        return out;
    }
    let mut seen: Vec<String> = Vec::new();
    let mut i: usize = 1;
    while i < all.len()
        invariant
            1 <= i <= all.len(),
            ls == pieces(all@),
            out.deep_view() == disks_of(ls, i as nat),
            forall|m: Seq<char>| #[trigger]
                seen.deep_view().contains(m) <==> is_mounted(ls, i as int, m),
        decreases all.len() - i,
    {
        assert(ls[i as int] == all[i as int]@);
        let ghost before = out.deep_view();
        let ghost had = seen.deep_view();
        let (mount, disk) = parse_disk(&all[i]);
        if let Some(mount) = mount {
            let ghost m = mount@;
            let known = holds_text(&seen, mount.as_str());
            if !known {
                if let Some(disk) = disk {
                    out.push(disk);
                    assert(out.deep_view() =~= before.push(disk.deep_view()));
                }
            }
            seen.push(mount);
            proof {
                assert(seen.deep_view() =~= had.push(m));
                assert forall|x: Seq<char>| #[trigger]
                    seen.deep_view().contains(x) <==> is_mounted(ls, i + 1, x) by {
                    if seen.deep_view().contains(x) {
                        let k = choose|k: int|
                            0 <= k < seen.deep_view().len() && seen.deep_view()[k] == x;
                        if k < had.len() {
                            assert(had[k] == x);
                            assert(had.contains(x));
                            let j = choose|j: int|
                                1 <= j < i && #[trigger] mount_of(ls[j]) == Some(x);
                            assert(mount_of(ls[j]) == Some(x));
                        } else {
                            assert(mount_of(ls[i as int]) == Some(x));
                        }
                    }
                    if is_mounted(ls, i + 1, x) {
                        let j = choose|j: int|
                            1 <= j < i + 1 && #[trigger] mount_of(ls[j]) == Some(x);
                        if j < i {
                            assert(is_mounted(ls, i as int, x));
                            assert(had.contains(x));
                            let k = choose|k: int| 0 <= k < had.len() && had[k] == x;
                            assert(seen.deep_view()[k] == x);
                        } else {
                            assert(seen.deep_view()[had.len() as int] == x);
                        }
                    }
                }
            }
        } else {
            proof {
                assert forall|x: Seq<char>| #[trigger]
                    seen.deep_view().contains(x) <==> is_mounted(ls, i + 1, x) by {
                    if is_mounted(ls, i as int, x) {
                        let j = choose|j: int|
                            1 <= j < i && #[trigger] mount_of(ls[j]) == Some(x);
                        assert(mount_of(ls[j]) == Some(x));
                    }
                    if is_mounted(ls, i + 1, x) {
                        let j = choose|j: int|
                            1 <= j < i + 1 && #[trigger] mount_of(ls[j]) == Some(x);
                        assert(j < i);
                        assert(is_mounted(ls, i as int, x));
                    }
                }
            }
        }
        i += 1;
    }
    out
}

/// The battery that a line such as `86 Discharging` tells of.
pub open spec fn battery_of(line: Seq<char>) -> Option<BatteryView> {
    let parts = words(line);
    match at(parts, 0) {
        Some(first) => match parse_nat(first, u8::MAX as nat) {
            Some(n) => if n <= 100 {
                Some(BatteryView { percent: n as u8, status: at(parts, 1) })
            } else {
                None
            },
            None => None,
        },
        None => None,
    }
}

/// The first battery that a line from `i` on tells of.
pub open spec fn battery_from(ls: Seq<Seq<char>>, i: int) -> Option<BatteryView>
    decreases ls.len() - i,
{
    if i < 0 || i >= ls.len() {
        None
    } else {
        match battery_of(ls[i]) {
            Some(battery) => Some(battery),
            None => battery_from(ls, i + 1),
        }
    }
}

fn parse_battery(body: &[char]) -> (r: Option<Battery>)
    ensures
        match r {
            Some(battery) => battery_from(lines(body@), 0) == Some(battery.deep_view()),
            None => battery_from(lines(body@), 0) is None,
        },
{
    let all = lines_in(body);
    let ghost ls = lines(body@);
    let mut i: usize = 0;
    while i < all.len()
        invariant
            i <= all.len(),
            ls == pieces(all@),
            ls == lines(body@),
            battery_from(ls, 0) == battery_from(ls, i as int),
        decreases all.len() - i,
    {
        assert(ls[i as int] == all[i as int]@);
        let parts = words_in(&all[i]);
        assert(parts.len() == words(ls[i as int]).len());
        if parts.len() > 0 {
            assert(words(ls[i as int])[0] == parts[0]@);
            if let Some(percent) = parse_u64(&parts[0], u8::MAX as u64) {
                if percent <= 100 {
                    let status = text_at(&parts, 1);
                    return Some(Battery { percent: percent as u8, status });
                }
            }
        }
        i += 1;
    }
    None
}

// ---------------------------------------------------------------------------
// Fractional numbers
// ---------------------------------------------------------------------------

/// Whether every character is a decimal digit.
pub open spec fn only_digits(s: Seq<char>) -> bool {
    s.len() == 0 || all_digits(s)
}

/// A text without one leading sign.
pub open spec fn unsigned(s: Seq<char>) -> Seq<char> {
    if s.len() > 0 && (s[0] == '+' || s[0] == '-') {
        s.drop_first()
    } else {
        s
    }
}

/// Whether a text is digits with at most one decimal point, and at least one digit.
pub open spec fn is_mantissa(s: Seq<char>) -> bool {
    match split_once(s, Class::Only('.')) {
        Some((whole, rest)) => only_digits(whole) && only_digits(rest) && (whole.len() > 0
            || rest.len() > 0),
        None => all_digits(s),
    }
}

/// Whether a text denotes a fractional number: an optional sign, and then `inf`, `infinity` or `nan`
/// in any case, or digits with an optional decimal point and an optional exponent.
pub open spec fn is_fraction(s: Seq<char>) -> bool {
    let t = ascii_lowercase(unsigned(s));
    ||| t == "inf"@
    ||| t == "infinity"@
    ||| t == "nan"@
    ||| match split_once(t, Class::Only('e')) {
        Some((mantissa, exponent)) => is_mantissa(mantissa) && all_digits(unsigned(exponent)),
        None => is_mantissa(t),
    }
}

fn has_only_digits(s: &[char]) -> (r: bool)
    ensures
        r == only_digits(s@),
{
    let mut i: usize = 0;
    while i < s.len()
        invariant
            i <= s.len(),
            forall|k: int| 0 <= k < i ==> is_digit(#[trigger] s@[k]),
        decreases s.len() - i,
    {
        let c = s[i];
        if !('0' <= c && c <= '9') {
            assert(!is_digit(s@[i as int]));
            return false;
        }
        i += 1;
    }
    true
}

fn without_sign(s: &[char]) -> (r: &[char])
    ensures
        r@ == unsigned(s@),
{
    if s.len() > 0 && (s[0] == '+' || s[0] == '-') {
        assert(s@.skip(1) =~= s@.drop_first());
        skip_chars(s, 1)
    } else {
        s
    }
}

fn denotes_mantissa(s: &[char]) -> (r: bool)
    ensures
        r == is_mantissa(s@),
{
    match split_once_in(s, &Class::Only('.')) {
        Some((whole, rest)) => has_only_digits(whole) && has_only_digits(rest) && (whole.len() > 0
            || rest.len() > 0),
        None => s.len() > 0 && has_only_digits(s),
    }
}

fn denotes_fraction(s: &[char]) -> (r: bool)
    ensures
        r == is_fraction(s@),
{
    let t = to_ascii_lower(without_sign(s));
    if same(&t, &to_chars("inf")) || same(&t, &to_chars("infinity")) || same(&t, &to_chars("nan")) {
        return true;
    }
    match split_once_in(&t, &Class::Only('e')) {
        Some((mantissa, exponent)) => {
            let exponent = without_sign(exponent);
            denotes_mantissa(mantissa) && exponent.len() > 0 && has_only_digits(exponent)
        },
        None => denotes_mantissa(&t),
    }
}

/// Those of the first `n` words that denote fractional numbers.
pub open spec fn fractions(ws: Seq<Seq<char>>, n: nat) -> Seq<Seq<char>>
    decreases n,
{
    if n == 0 {
        Seq::empty()
    } else {
        let before = fractions(ws, (n - 1) as nat);
        if is_fraction(ws[n - 1]) {
            before.push(ws[n - 1])
        } else {
            before
        }
    }
}

/// The uptime: the first word, if it denotes a number.
pub open spec fn uptime_of(body: Seq<char>) -> Option<Seq<char>> {
    match at(words(body), 0) {
        Some(first) => if is_fraction(first) {
            Some(first)
        } else {
            None
        },
        None => None,
    }
}

fn parse_uptime(body: &[char]) -> (r: Option<String>)
    ensures
        text_of(r) == uptime_of(body@),
{
    let found = words_in(body);
    assert(found.len() == words(body@).len());
    if found.len() > 0 {
        assert(words(body@)[0] == found[0]@);
        if denotes_fraction(&found[0]) {
            return Some(from_chars(&found[0]));
        }
    }
    None
}

/// The load averages: the first three words that denote numbers.
pub open spec fn load_of(body: Seq<char>) -> Option<(Seq<char>, Seq<char>, Seq<char>)> {
    let found = fractions(words(body), words(body).len());
    if found.len() >= 3 {
        Some((found[0], found[1], found[2]))
    } else {
        None
    }
}

fn parse_load(body: &[char]) -> (r: Option<(String, String, String)>)
    ensures
        texts_of(r) == load_of(body@),
{
    let all = words_in(body);
    let ghost ws = words(body@);
    let mut found: Vec<Vec<char>> = Vec::new();
    let mut i: usize = 0;
    assert(pieces(found@) =~= Seq::empty());
    while i < all.len()
        invariant
            i <= all.len(),
            ws == pieces(all@),
            pieces(found@) == fractions(ws, i as nat),
        decreases all.len() - i,
    {
        let ghost before = pieces(found@);
        assert(ws[i as int] == all[i as int]@);
        if denotes_fraction(&all[i]) {
            found.push(vstd::slice::slice_to_vec(&all[i]));
            assert(pieces(found@) =~= before.push(all[i as int]@));
        }
        i += 1;
    }
    if found.len() >= 3 {
        Some((from_chars(&found[0]), from_chars(&found[1]), from_chars(&found[2])))
    } else {
        None
    }
}

/// The number of processors.
pub open spec fn cpus_of(body: Seq<char>) -> Option<u32> {
    match parse_nat(trim(body, Class::White), u32::MAX as nat) {
        Some(n) => Some(n as u32),
        None => None,
    }
}

fn parse_cpus(body: &[char]) -> (r: Option<u32>)
    ensures
        r == cpus_of(body@),
{
    match parse_u64(trim_in(body, &Class::White), u32::MAX as u64) {
        Some(n) => Some(n as u32),
        None => None,
    }
}

// ---------------------------------------------------------------------------
// The status
// ---------------------------------------------------------------------------

/// The status that the sections of the output tell.
pub open spec fn status_of(found: Seq<(Seq<char>, Seq<char>)>) -> StatusView {
    let kernel = match section_from(found, 0, "kernel"@) {
        Some(body) => full_lines(body, Class::White),
        None => Seq::empty(),
    };
    StatusView {
        model: match section_from(found, 0, "model"@) {
            Some(body) => at(full_lines(body, Class::Padding), 0),
            None => None,
        },
        serial: match section_from(found, 0, "serial"@) {
            Some(body) => at(full_lines(body, Class::Padding), 0),
            None => None,
        },
        os_version: match release_of(section_from(found, 0, "update-conf"@)) {
            Some(version) => Some(version),
            None => match section_from(found, 0, "os-release"@) {
                Some(body) => value_for(body, "VERSION_ID"@),
                None => None,
            },
        },
        os_build: match section_from(found, 0, "build"@) {
            Some(body) => at(full_lines(body, Class::White), 0),
            None => None,
        },
        kernel: at(kernel, 0),
        arch: at(kernel, 1),
        uptime_secs: match section_from(found, 0, "uptime"@) {
            Some(body) => uptime_of(body),
            None => None,
        },
        load_average: match section_from(found, 0, "loadavg"@) {
            Some(body) => load_of(body),
            None => None,
        },
        cpu_count: match section_from(found, 0, "cpus"@) {
            Some(body) => cpus_of(body),
            None => None,
        },
        mem_total_kib: match section_from(found, 0, "meminfo"@) {
            Some(body) => memory_of(body, "MemTotal"@),
            None => None,
        },
        mem_available_kib: match section_from(found, 0, "meminfo"@) {
            Some(body) => memory_of(body, "MemAvailable"@),
            None => None,
        },
        disks: match section_from(found, 0, "df"@) {
            Some(body) => disks_of(lines(body), lines(body).len()),
            None => Seq::empty(),
        },
        battery: match section_from(found, 0, "battery"@) {
            Some(body) => battery_from(lines(body), 0),
            None => None,
        },
        xochitl: match section_from(found, 0, "xochitl"@) {
            Some(body) => at(full_lines(body, Class::White), 0),
            None => None,
        },
        documents: None,
    }
}

/// The release version in update.conf.
pub open spec fn release_of(body: Option<Seq<char>>) -> Option<Seq<char>> {
    match body {
        Some(body) => value_for(body, "REMARKABLE_RELEASE_VERSION"@),
        None => None,
    }
}

fn first_line(body: Option<&[char]>, k: &Class) -> (r: Option<String>)
    ensures
        text_of(r) == match body {
            Some(b) => at(full_lines(b@, *k), 0),
            None => None,
        },
{
    match body {
        Some(b) => text_at(&full_lines_in(b, k), 0),
        None => None,
    }
}

/// Parses the output of the status script.
pub fn parse_status(marker: &str, output: &str) -> (r: SystemStatus)
    ensures
        r.deep_view() == status_of(sections(marker@, lines(output@), lines(output@).len())),
{
    let found = split_sections(marker, output);
    let (kernel, arch) = match find_section(&found, "kernel") {
        Some(body) => {
            let parts = full_lines_in(body, &Class::White);
            (text_at(&parts, 0), text_at(&parts, 1))
        },
        None => (None, None),
    };
    let release = match find_section(&found, "update-conf") {
        Some(body) => key_value(body, "REMARKABLE_RELEASE_VERSION"),
        None => None,
    };
    let os_version = match release {
        Some(version) => Some(version),
        None => match find_section(&found, "os-release") {
            Some(body) => key_value(body, "VERSION_ID"),
            None => None,
        },
    };
    let disks = match find_section(&found, "df") {
        Some(body) => parse_disks(body),
        None => Vec::new(),
    };
    proof {
        if section_from(section_views(found@), 0, "df"@) is None {
            assert(disks.deep_view() =~= Seq::empty());
        }
    }
    let uptime_secs = match find_section(&found, "uptime") {
        Some(body) => parse_uptime(body),
        None => None,
    };
    let load_average = match find_section(&found, "loadavg") {
        Some(body) => parse_load(body),
        None => None,
    };
    let cpu_count = match find_section(&found, "cpus") {
        Some(body) => parse_cpus(body),
        None => None,
    };
    let (mem_total_kib, mem_available_kib) = match find_section(&found, "meminfo") {
        Some(body) => (meminfo_field(body, "MemTotal"), meminfo_field(body, "MemAvailable")),
        None => (None, None),
    };
    let battery = match find_section(&found, "battery") {
        Some(body) => parse_battery(body),
        None => None,
    };
    SystemStatus {
        model: first_line(find_section(&found, "model"), &Class::Padding),
        serial: first_line(find_section(&found, "serial"), &Class::Padding),
        os_version,
        os_build: first_line(find_section(&found, "build"), &Class::White),
        kernel,
        arch,
        uptime_secs,
        load_average,
        cpu_count,
        mem_total_kib,
        mem_available_kib,
        disks,
        battery,
        xochitl: first_line(find_section(&found, "xochitl"), &Class::White),
        documents: None,
    }
}

// ---------------------------------------------------------------------------
// Documents
// ---------------------------------------------------------------------------

/// Whether an item is in the trash, directly or in a trashed folder.
pub open spec fn is_trashed(items: Seq<ItemView>, item: ItemView) -> bool {
    ancestors(items, item.uuid).contains(TRASH_PARENT@)
}

/// How many of the first `n` items are trashed.
pub open spec fn trashed_count(items: Seq<ItemView>, n: nat) -> nat
    decreases n,
{
    if n == 0 {
        0
    } else {
        trashed_count(items, (n - 1) as nat) + if is_trashed(items, items[n - 1]) {
            1nat
        } else {
            0nat
        }
    }
}

/// How many of the first `n` items are folders (or documents) outside the trash.
pub open spec fn live_count(items: Seq<ItemView>, n: nat, folders: bool) -> nat
    decreases n,
{
    if n == 0 {
        0
    } else {
        let item = items[n - 1];
        live_count(items, (n - 1) as nat, folders) + if !is_trashed(items, item)
            && item.is_folder() == folders {
            1nat
        } else {
            0nat
        }
    }
}

/// Counts documents and folders outside the trash, and trashed items.
pub fn document_counts(items: &[Item]) -> (r: DocumentCounts)
    ensures
        r.documents == live_count(items.deep_view(), items.len() as nat, false),
        r.folders == live_count(items.deep_view(), items.len() as nat, true),
        r.trashed == trashed_count(items.deep_view(), items.len() as nat),
        r.documents + r.folders + r.trashed == items.len(),
{
    let ghost all = items.deep_view();
    let mut counts = DocumentCounts { documents: 0, folders: 0, trashed: 0 };
    let mut i: usize = 0;
    while i < items.len()
        invariant
            i <= items.len(),
            all == items.deep_view(),
            counts.documents == live_count(all, i as nat, false),
            counts.folders == live_count(all, i as nat, true),
            counts.trashed == trashed_count(all, i as nat),
            counts.documents + counts.folders + counts.trashed == i,
        decreases items.len() - i,
    {
        assert(all[i as int] == items[i as int].deep_view());
        if is_descendant(items, items[i].uuid.as_str(), TRASH_PARENT) {
            counts.trashed = counts.trashed + 1;
        } else if items[i].is_folder() {
            counts.folders = counts.folders + 1;
        } else {
            counts.documents = counts.documents + 1;
        }
        i += 1;
    }
    counts
}

// ---------------------------------------------------------------------------
// The report
// ---------------------------------------------------------------------------

/// The fractional numbers of a status as they are shown.
#[derive(Debug)]
pub struct Readings {
    /// Whole minutes of uptime.
    pub uptime_minutes: Option<u64>,
    /// Load averages, with two decimals.
    pub load: Option<(String, String, String)>,
}

/// A labelled value, if there is one.
pub open spec fn labelled(label: Seq<char>, value: Option<Seq<char>>) -> Seq<Seq<char>> {
    match value {
        Some(v) => seq![label + v],
        None => Seq::empty(),
    }
}

/// The software version and build.
pub open spec fn os_text(version: Option<Seq<char>>, build: Option<Seq<char>>) -> Option<Seq<char>> {
    match (version, build) {
        (Some(version), Some(build)) => Some(version + " (build "@ + build + ")"@),
        (Some(version), None) => Some(version),
        (None, Some(build)) => Some("build "@ + build),
        (None, None) => None,
    }
}

/// The kernel, and the architecture if it is known.
pub open spec fn kernel_text(kernel: Option<Seq<char>>, arch: Option<Seq<char>>) -> Option<
    Seq<char>,
> {
    match (kernel, arch) {
        (Some(kernel), Some(arch)) => Some(kernel + " ("@ + arch + ")"@),
        (Some(kernel), None) => Some(kernel),
        (None, _) => None,
    }
}

/// The load averages.
pub open spec fn load_text(load: (Seq<char>, Seq<char>, Seq<char>)) -> Seq<char> {
    "load "@ + load.0 + " "@ + load.1 + " "@ + load.2
}

/// The processors and the load.
pub open spec fn cpu_text(
    cpus: Option<u32>,
    load: Option<(Seq<char>, Seq<char>, Seq<char>)>,
) -> Option<Seq<char>> {
    match (cpus, load) {
        (Some(cpus), Some(load)) => Some(decimal(cpus as nat) + " core(s), "@ + load_text(load)),
        (Some(cpus), None) => Some(decimal(cpus as nat) + " core(s)"@),
        (None, Some(load)) => Some(load_text(load)),
        (None, None) => None,
    }
}

/// Used and total memory; what is used is what is not available.
pub open spec fn memory_text(total: Option<u64>, available: Option<u64>) -> Option<Seq<char>> {
    match (total, available) {
        (Some(total), Some(available)) => {
            let used = if available < total {
                (total - available) as nat
            } else {
                0
            };
            Some(size_text(used) + " used / "@ + size_text(total as nat) + " total"@)
        },
        _ => None,
    }
}

/// How much of a disk is used, in percent, rounded down; of an empty one, nothing.
pub open spec fn used_percent(disk: DiskView) -> nat {
    if disk.total_kib == 0 {
        0
    } else {
        (disk.used_kib as nat * 100) / disk.total_kib as nat
    }
}

/// The row of a disk.
pub open spec fn disk_row(disk: DiskView) -> Seq<char> {
    "Storage:   "@ + disk.mount + " "@ + size_text(disk.used_kib as nat) + " used / "@ + size_text(
        disk.total_kib as nat,
    ) + " ("@ + decimal(used_percent(disk)) + "%)"@
}

/// The state of a battery.
pub open spec fn battery_text(battery: Option<BatteryView>) -> Option<Seq<char>> {
    match battery {
        Some(b) => Some(
            decimal(b.percent as nat) + "%"@ + match b.status {
                Some(status) => " ("@ + status + ")"@,
                None => Seq::empty(),
            },
        ),
        None => None,
    }
}

/// The document counts.
pub open spec fn counts_text(counts: Option<DocumentCounts>) -> Option<Seq<char>> {
    match counts {
        Some(c) => Some(
            decimal(c.documents as nat) + " document(s), "@ + decimal(c.folders as nat)
                + " folder(s), "@ + decimal(c.trashed as nat) + " in trash"@,
        ),
        None => None,
    }
}

/// The uptime.
pub open spec fn uptime_text(minutes: Option<u64>) -> Option<Seq<char>> {
    match minutes {
        Some(m) => Some(duration_text(m as nat)),
        None => None,
    }
}

/// The rows above the disks.
pub open spec fn system_rows(
    status: StatusView,
    uptime_minutes: Option<u64>,
    load: Option<(Seq<char>, Seq<char>, Seq<char>)>,
) -> Seq<Seq<char>> {
    labelled("Model:     "@, status.model) + labelled("Serial:    "@, status.serial) + labelled(
        "OS:        "@,
        os_text(status.os_version, status.os_build),
    ) + labelled("Kernel:    "@, kernel_text(status.kernel, status.arch)) + labelled(
        "Uptime:    "@,
        uptime_text(uptime_minutes),
    ) + labelled("CPU:       "@, cpu_text(status.cpu_count, load)) + labelled(
        "Memory:    "@,
        memory_text(status.mem_total_kib, status.mem_available_kib),
    )
}

/// The report on a status: a row for each thing that is known.
pub open spec fn report(
    status: StatusView,
    uptime_minutes: Option<u64>,
    load: Option<(Seq<char>, Seq<char>, Seq<char>)>,
) -> Seq<Seq<char>> {
    system_rows(status, uptime_minutes, load) + Seq::new(
        status.disks.len(),
        |i: int| disk_row(status.disks[i]),
    ) + labelled("Battery:   "@, battery_text(status.battery)) + labelled(
        "xochitl:   "@,
        status.xochitl,
    ) + labelled("Documents: "@, counts_text(status.documents))
}

/// Whether the percentages of the disks can be computed in 64 bits.
pub open spec fn percents_fit(disks: Seq<DiskView>) -> bool {
    forall|i: int| 0 <= i < disks.len() ==> (#[trigger] disks[i]).used_kib * 100 <= u64::MAX
}

/// Whether the percentages of the disks can be computed in 64 bits.
pub fn do_percents_fit(disks: &Vec<DiskUsage>) -> (r: bool)
    ensures
        r == percents_fit(disks.deep_view()),
{
    let ghost views = disks.deep_view();
    let mut i: usize = 0;
    while i < disks.len()
        invariant
            i <= disks.len(),
            views == disks.deep_view(),
            forall|k: int| 0 <= k < i ==> (#[trigger] views[k]).used_kib * 100 <= u64::MAX,
        decreases disks.len() - i,
    {
        assert(views[i as int] == disks[i as int].deep_view());
        if disks[i].used_kib > u64::MAX / 100 {
            return false;
        }
        i += 1;
    }
    true
}

fn add_row(rows: &mut Vec<String>, label: &str, value: Option<String>)
    ensures
        final(rows).deep_view() == old(rows).deep_view() + labelled(label@, text_of(value)),
{
    let ghost before = rows.deep_view();
    if let Some(v) = value {
        rows.push(cat(label, v.as_str()));
        assert(rows.deep_view() =~= before + seq![label@ + v@]);
    } else {
        assert(rows.deep_view() =~= before + labelled(label@, None));
    }
}

fn copy_of(text: &Option<String>) -> (r: Option<String>)
    ensures
        text_of(r) == text_of(*text),
{
    match text {
        Some(t) => Some(t.clone()),
        None => None,
    }
}

fn show_os(version: &Option<String>, build: &Option<String>) -> (r: Option<String>)
    ensures
        text_of(r) == os_text(text_of(*version), text_of(*build)),
{
    match version {
        Some(version) => match build {
            Some(build) => {
                let head = cat3(version.as_str(), " (build ", build.as_str());
                Some(cat(head.as_str(), ")"))
            },
            None => Some(version.clone()),
        },
        None => match build {
            Some(build) => Some(cat("build ", build.as_str())),
            None => None,
        },
    }
}

fn show_kernel(kernel: &Option<String>, arch: &Option<String>) -> (r: Option<String>)
    ensures
        text_of(r) == kernel_text(text_of(*kernel), text_of(*arch)),
{
    match kernel {
        Some(kernel) => match arch {
            Some(arch) => {
                let head = cat3(kernel.as_str(), " (", arch.as_str());
                Some(cat(head.as_str(), ")"))
            },
            None => Some(kernel.clone()),
        },
        None => None,
    }
}

fn show_load(load: &(String, String, String)) -> (r: String)
    ensures
        r@ == load_text((load.0@, load.1@, load.2@)),
{
    let head = cat5("load ", load.0.as_str(), " ", load.1.as_str(), " ");
    cat(head.as_str(), load.2.as_str())
}

fn show_cpu(cpus: Option<u32>, load: &Option<(String, String, String)>) -> (r: Option<String>)
    ensures
        text_of(r) == cpu_text(cpus, texts_of(*load)),
{
    match cpus {
        Some(n) => {
            let count = show_u64(n as u64);
            match load {
                Some(load) => {
                    let shown = show_load(load);
                    Some(cat3(count.as_str(), " core(s), ", shown.as_str()))
                },
                None => Some(cat(count.as_str(), " core(s)")),
            }
        },
        None => match load {
            Some(load) => Some(show_load(load)),
            None => None,
        },
    }
}

fn show_memory(total: Option<u64>, available: Option<u64>) -> (r: Option<String>)
    ensures
        text_of(r) == memory_text(total, available),
{
    match (total, available) {
        (Some(total), Some(available)) => {
            let used: u64 = if available < total {
                total - available
            } else {
                0
            };
            let used = format_kib(used);
            let total = format_kib(total);
            let head = cat3(used.as_str(), " used / ", total.as_str());
            Some(cat(head.as_str(), " total"))
        },
        _ => None,
    }
}

fn show_disk(disk: &DiskUsage) -> (r: String)
    requires
        disk.used_kib * 100 <= u64::MAX,
    ensures
        r@ == disk_row(disk.deep_view()),
{
    let percent: u64 = if disk.total_kib == 0 {
        0
    } else {
        (disk.used_kib * 100) / disk.total_kib
    };
    let used = format_kib(disk.used_kib);
    let total = format_kib(disk.total_kib);
    let shown = show_u64(percent);
    let head = cat5("Storage:   ", disk.mount.as_str(), " ", used.as_str(), " used / ");
    cat5(head.as_str(), total.as_str(), " (", shown.as_str(), "%)")
}

fn show_battery(battery: &Option<Battery>) -> (r: Option<String>)
    ensures
        text_of(r) == battery_text(
            match *battery {
                Some(b) => Some(b.deep_view()),
                None => None,
            },
        ),
{
    match battery {
        Some(b) => {
            let percent = show_u64(b.percent as u64);
            let head = cat(percent.as_str(), "%");
            match &b.status {
                Some(status) => {
                    let tail = cat3(" (", status.as_str(), ")");
                    Some(cat(head.as_str(), tail.as_str()))
                },
                None => {
                    assert(head@ + Seq::<char>::empty() =~= head@);
                    Some(head)
                },
            }
        },
        None => None,
    }
}

fn show_counts(counts: &Option<DocumentCounts>) -> (r: Option<String>)
    ensures
        text_of(r) == counts_text(*counts),
{
    match counts {
        Some(c) => {
            let documents = show_u64(c.documents as u64);
            let folders = show_u64(c.folders as u64);
            let trashed = show_u64(c.trashed as u64);
            let head = cat3(documents.as_str(), " document(s), ", folders.as_str());
            let tail = cat3(head.as_str(), " folder(s), ", trashed.as_str());
            Some(cat(tail.as_str(), " in trash"))
        },
        None => None,
    }
}

fn show_uptime(minutes: Option<u64>) -> (r: Option<String>)
    ensures
        text_of(r) == uptime_text(minutes),
{
    match minutes {
        Some(m) => Some(format_duration(m)),
        None => None,
    }
}

fn render_system(status: &SystemStatus, readings: &Readings) -> (rows: Vec<String>)
    ensures
        rows.deep_view() == system_rows(
            status.deep_view(),
            readings.uptime_minutes,
            texts_of(readings.load),
        ),
{
    let mut rows: Vec<String> = Vec::new();
    assert(rows.deep_view() =~= Seq::empty());
    add_row(&mut rows, "Model:     ", copy_of(&status.model));
    assert(rows.deep_view() =~= labelled("Model:     "@, text_of(status.model)));
    add_row(&mut rows, "Serial:    ", copy_of(&status.serial));
    add_row(&mut rows, "OS:        ", show_os(&status.os_version, &status.os_build));
    add_row(&mut rows, "Kernel:    ", show_kernel(&status.kernel, &status.arch));
    add_row(&mut rows, "Uptime:    ", show_uptime(readings.uptime_minutes));
    add_row(&mut rows, "CPU:       ", show_cpu(status.cpu_count, &readings.load));
    add_row(
        &mut rows,
        "Memory:    ",
        show_memory(status.mem_total_kib, status.mem_available_kib),
    );
    rows
}

/// Renders a report for people to read; rows with no data are omitted.
pub fn render(status: &SystemStatus, readings: &Readings) -> (rows: Vec<String>)
    requires
        percents_fit(status.disks.deep_view()),
    ensures
        rows.deep_view() == report(
            status.deep_view(),
            readings.uptime_minutes,
            texts_of(readings.load),
        ),
{
    let mut rows = render_system(status, readings);
    let ghost head = rows.deep_view();
    let ghost disks = status.disks.deep_view();
    let ghost disk_rows = Seq::new(disks.len(), |i: int| disk_row(disks[i]));
    let mut i: usize = 0;
    assert(rows.deep_view() =~= head + disk_rows.take(0));
    while i < status.disks.len()
        invariant
            i <= status.disks.len(),
            disks == status.disks.deep_view(),
            percents_fit(disks),
            disk_rows == Seq::new(disks.len(), |i: int| disk_row(disks[i])),
            rows.deep_view() == head + disk_rows.take(i as int),
        decreases status.disks.len() - i,
    {
        let ghost before = rows.deep_view();
        assert(disks[i as int] == status.disks[i as int].deep_view());
        let row = show_disk(&status.disks[i]);
        let ghost shown = row@;
        rows.push(row);
        assert(rows.deep_view() =~= before.push(shown));
        assert(disk_rows.take(i + 1) =~= disk_rows.take(i as int).push(disk_rows[i as int]));
        assert(rows.deep_view() =~= head + disk_rows.take(i + 1));
        i += 1;
    }
    assert(disk_rows.take(i as int) =~= disk_rows);
    add_row(&mut rows, "Battery:   ", show_battery(&status.battery));
    add_row(&mut rows, "xochitl:   ", copy_of(&status.xochitl));
    add_row(&mut rows, "Documents: ", show_counts(&status.documents));
    rows
}

/// One for each thing that is known.
pub open spec fn known<T>(value: Option<T>) -> nat {
    if value is Some {
        1
    } else {
        0
    }
}

proof fn labelled_rows(label: Seq<char>, value: Option<Seq<char>>)
    ensures
        labelled(label, value).len() == known(value),
{
}

proof fn joined_rows(a: Seq<Seq<char>>, b: Seq<Seq<char>>)
    ensures
        (a + b).len() == a.len() + b.len(),
{
}

proof fn system_rows_are_what_is_known(
    status: StatusView,
    uptime_minutes: Option<u64>,
    load: Option<(Seq<char>, Seq<char>, Seq<char>)>,
)
    ensures
        system_rows(status, uptime_minutes, load).len() == known(status.model) + known(
            status.serial,
        ) + known(os_text(status.os_version, status.os_build)) + known(
            kernel_text(status.kernel, status.arch),
        ) + known(uptime_text(uptime_minutes)) + known(cpu_text(status.cpu_count, load)) + known(
            memory_text(status.mem_total_kib, status.mem_available_kib),
        ),
{
    let model = labelled("Model:     "@, status.model);
    let serial = labelled("Serial:    "@, status.serial);
    let os = labelled("OS:        "@, os_text(status.os_version, status.os_build));
    let kernel = labelled("Kernel:    "@, kernel_text(status.kernel, status.arch));
    let uptime = labelled("Uptime:    "@, uptime_text(uptime_minutes));
    let cpu = labelled("CPU:       "@, cpu_text(status.cpu_count, load));
    let memory = labelled(
        "Memory:    "@,
        memory_text(status.mem_total_kib, status.mem_available_kib),
    );
    labelled_rows("Model:     "@, status.model);
    labelled_rows("Serial:    "@, status.serial);
    labelled_rows("OS:        "@, os_text(status.os_version, status.os_build));
    labelled_rows("Kernel:    "@, kernel_text(status.kernel, status.arch));
    labelled_rows("Uptime:    "@, uptime_text(uptime_minutes));
    labelled_rows("CPU:       "@, cpu_text(status.cpu_count, load));
    labelled_rows("Memory:    "@, memory_text(status.mem_total_kib, status.mem_available_kib));
    joined_rows(model, serial);
    joined_rows(model + serial, os);
    joined_rows(model + serial + os, kernel);
    joined_rows(model + serial + os + kernel, uptime);
    joined_rows(model + serial + os + kernel + uptime, cpu);
    joined_rows(model + serial + os + kernel + uptime + cpu, memory);
}

/// The report has one row for each thing that is known, and none for what is not: in particular, a
/// status that tells nothing gives an empty report.
pub proof fn rows_are_what_is_known(
    status: StatusView,
    uptime_minutes: Option<u64>,
    load: Option<(Seq<char>, Seq<char>, Seq<char>)>,
)
    ensures
        report(status, uptime_minutes, load).len() == known(status.model) + known(status.serial)
            + known(os_text(status.os_version, status.os_build)) + known(status.kernel) + known(
            uptime_minutes,
        ) + known(cpu_text(status.cpu_count, load)) + known(
            memory_text(status.mem_total_kib, status.mem_available_kib),
        ) + status.disks.len() + known(status.battery) + known(status.xochitl) + known(
            status.documents,
        ),
{
    system_rows_are_what_is_known(status, uptime_minutes, load);
    assert(known(kernel_text(status.kernel, status.arch)) == known(status.kernel));
    assert(known(uptime_text(uptime_minutes)) == known(uptime_minutes));
    assert(known(battery_text(status.battery)) == known(status.battery));
    assert(known(counts_text(status.documents)) == known(status.documents));
    let system = system_rows(status, uptime_minutes, load);
    let disks = Seq::new(status.disks.len(), |i: int| disk_row(status.disks[i]));
    let battery = labelled("Battery:   "@, battery_text(status.battery));
    let xochitl = labelled("xochitl:   "@, status.xochitl);
    let documents = labelled("Documents: "@, counts_text(status.documents));
    labelled_rows("Battery:   "@, battery_text(status.battery));
    labelled_rows("xochitl:   "@, status.xochitl);
    labelled_rows("Documents: "@, counts_text(status.documents));
    joined_rows(system, disks);
    joined_rows(system + disks, battery);
    joined_rows(system + disks + battery, xochitl);
    joined_rows(system + disks + battery + xochitl, documents);
}

/// What a missing section would tell is unknown, and nothing else is lost with it: a field depends
/// on its own section alone.
pub proof fn fields_depend_on_their_sections(
    a: Seq<(Seq<char>, Seq<char>)>,
    b: Seq<(Seq<char>, Seq<char>)>,
)
    ensures
        section_from(a, 0, "model"@) == section_from(b, 0, "model"@) ==> status_of(a).model
            == status_of(b).model,
        section_from(a, 0, "serial"@) == section_from(b, 0, "serial"@) ==> status_of(a).serial
            == status_of(b).serial,
        section_from(a, 0, "df"@) == section_from(b, 0, "df"@) ==> status_of(a).disks == status_of(
            b,
        ).disks,
        section_from(a, 0, "battery"@) == section_from(b, 0, "battery"@) ==> status_of(a).battery
            == status_of(b).battery,
        section_from(a, 0, "kernel"@) == section_from(b, 0, "kernel"@) ==> status_of(a).kernel
            == status_of(b).kernel && status_of(a).arch == status_of(b).arch,
        section_from(a, 0, "model"@) is None ==> status_of(a).model is None,
        section_from(a, 0, "serial"@) is None ==> status_of(a).serial is None,
        section_from(a, 0, "update-conf"@) is None && section_from(a, 0, "os-release"@) is None
            ==> status_of(a).os_version is None,
        section_from(a, 0, "build"@) is None ==> status_of(a).os_build is None,
        section_from(a, 0, "kernel"@) is None ==> status_of(a).kernel is None && status_of(
            a,
        ).arch is None,
        section_from(a, 0, "uptime"@) is None ==> status_of(a).uptime_secs is None,
        section_from(a, 0, "loadavg"@) is None ==> status_of(a).load_average is None,
        section_from(a, 0, "cpus"@) is None ==> status_of(a).cpu_count is None,
        section_from(a, 0, "meminfo"@) is None ==> status_of(a).mem_total_kib is None && status_of(
            a,
        ).mem_available_kib is None,
        section_from(a, 0, "df"@) is None ==> status_of(a).disks == Seq::<DiskView>::empty(),
        section_from(a, 0, "battery"@) is None ==> status_of(a).battery is None,
        section_from(a, 0, "xochitl"@) is None ==> status_of(a).xochitl is None,
{
}

/// No mount point is listed twice.
pub proof fn mounts_are_listed_once(ls: Seq<Seq<char>>, n: nat)
    requires
        n <= ls.len(),
    ensures
        forall|i: int, j: int|
            0 <= i < j < disks_of(ls, n).len() ==> (#[trigger] disks_of(ls, n)[i]).mount != (
            #[trigger] disks_of(ls, n)[j]).mount,
        forall|i: int|
            0 <= i < disks_of(ls, n).len() ==> is_mounted(
                ls,
                n as int,
                (#[trigger] disks_of(ls, n)[i]).mount,
            ),
    decreases n,
{
    if n > 1 {
        let m = (n - 1) as nat;
        mounts_are_listed_once(ls, m);
        let before = disks_of(ls, m);
        let all = disks_of(ls, n);
        assert forall|i: int| 0 <= i < all.len() implies is_mounted(
            ls,
            n as int,
            (#[trigger] all[i]).mount,
        ) by {
            if i < before.len() {
                assert(all[i] == before[i]);
                assert(is_mounted(ls, m as int, before[i].mount));
                let k = choose|k: int|
                    1 <= k < m && #[trigger] mount_of(ls[k]) == Some(before[i].mount);
                assert(mount_of(ls[k]) == Some(all[i].mount));
            } else {
                assert(mount_of(ls[n - 1]) == Some(all[i].mount));
            }
        }
        assert forall|i: int, j: int| 0 <= i < j < all.len() implies (#[trigger] all[i]).mount != (
        #[trigger] all[j]).mount by {
            if j < before.len() {
                assert(all[i] == before[i] && all[j] == before[j]);
            } else {
                assert(all[i] == before[i]);
                assert(is_mounted(ls, m as int, before[i].mount));
            }
        }
    }
}

} // verus!
