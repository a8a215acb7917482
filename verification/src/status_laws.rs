//! What the report on a device shows, row by row, and how its figures are read.
use vstd::prelude::*;
use crate::number::{all_digits, decimal, is_digit, parse_nat};
use crate::status::{
    battery_from,
    battery_of,
    battery_text,
    counts_text,
    cpu_text,
    disk_of,
    disk_row,
    disks_of,
    fractions,
    full_lines,
    is_fraction,
    is_mantissa,
    is_mounted,
    kernel_text,
    keyed_from,
    labelled,
    live_count,
    load_of,
    memory_of,
    memory_text,
    mount_of,
    os_text,
    report,
    status_of,
    system_rows,
    trashed_count,
    unknown_status,
    unsigned,
    uptime_of,
    uptime_text,
    value_for,
    words,
    BatteryView,
    DiskView,
    StatusView,
};
use crate::sections::section_from;
use crate::snapshot::ascii_lowercase;
use crate::text::{join, lines, trim, Class};
use crate::text_laws::{
    edges_are_trimmed,
    first_cuts,
    is_all,
    is_free_of,
    newlines_end_lines,
    words_stand_between_white_space,
};
use crate::units::{duration_text, size_text};
use crate::walk::ancestors;
use crate::xochitl::ItemView;

verus! {

/// One for a row that is there.
pub open spec fn one_if(is_there: bool) -> int {
    if is_there {
        1
    } else {
        0
    }
}

/// How many rows stand above that of the memory.
pub open spec fn rows_above_memory(
    status: StatusView,
    uptime_minutes: Option<u64>,
    load: Option<(Seq<char>, Seq<char>, Seq<char>)>,
) -> int {
    one_if(status.model is Some) + one_if(status.serial is Some) + one_if(
        status.os_version is Some || status.os_build is Some,
    ) + one_if(status.kernel is Some) + one_if(uptime_minutes is Some) + one_if(
        status.cpu_count is Some || load is Some,
    )
}

/// How many rows stand above those of the disks.
pub open spec fn rows_above_disks(
    status: StatusView,
    uptime_minutes: Option<u64>,
    load: Option<(Seq<char>, Seq<char>, Seq<char>)>,
) -> int {
    rows_above_memory(status, uptime_minutes, load) + one_if(
        status.mem_total_kib is Some && status.mem_available_kib is Some,
    )
}

proof fn joined(a: Seq<Seq<char>>, label: Seq<char>, value: Option<Seq<char>>)
    ensures
        (a + labelled(label, value)).len() == a.len() + one_if(value is Some),
        forall|i: int| 0 <= i < a.len() ==> (a + labelled(label, value))[i] == #[trigger] a[i],
        value matches Some(v) ==> (a + labelled(label, value))[a.len() as int] == label + v,
{
}

proof fn system_rows_in_order(
    status: StatusView,
    uptime_minutes: Option<u64>,
    load: Option<(Seq<char>, Seq<char>, Seq<char>)>,
)
    ensures
        ({
            let rows = system_rows(status, uptime_minutes, load);
            let serial_at = one_if(status.model is Some);
            let os_at = serial_at + one_if(status.serial is Some);
            let kernel_at = os_at + one_if(
                os_text(status.os_version, status.os_build) is Some,
            );
            let uptime_at = kernel_at + one_if(kernel_text(status.kernel, status.arch) is Some);
            let cpu_at = uptime_at + one_if(uptime_text(uptime_minutes) is Some);
            let memory_at = cpu_at + one_if(cpu_text(status.cpu_count, load) is Some);
            let memory = memory_text(status.mem_total_kib, status.mem_available_kib);
            &&& rows.len() == memory_at + one_if(memory is Some)
            &&& status.model matches Some(v) ==> rows[0] == "Model:     "@ + v
            &&& status.serial matches Some(v) ==> rows[serial_at] == "Serial:    "@ + v
            &&& os_text(status.os_version, status.os_build) matches Some(v) ==> rows[os_at]
                == "OS:        "@ + v
            &&& kernel_text(status.kernel, status.arch) matches Some(v) ==> rows[kernel_at]
                == "Kernel:    "@ + v
            &&& uptime_text(uptime_minutes) matches Some(v) ==> rows[uptime_at] == "Uptime:    "@
                + v
            &&& cpu_text(status.cpu_count, load) matches Some(v) ==> rows[cpu_at] == "CPU:       "@
                + v
            &&& memory matches Some(v) ==> rows[memory_at] == "Memory:    "@ + v
        }),
{
    let none = Seq::<Seq<char>>::empty();
    let os = os_text(status.os_version, status.os_build);
    let kernel = kernel_text(status.kernel, status.arch);
    let uptime = uptime_text(uptime_minutes);
    let cpu = cpu_text(status.cpu_count, load);
    let memory = memory_text(status.mem_total_kib, status.mem_available_kib);
    let a = labelled("Model:     "@, status.model);
    let b = a + labelled("Serial:    "@, status.serial);
    let c = b + labelled("OS:        "@, os);
    let d = c + labelled("Kernel:    "@, kernel);
    let e = d + labelled("Uptime:    "@, uptime);
    let f = e + labelled("CPU:       "@, cpu);
    let g = f + labelled("Memory:    "@, memory);
    assert(a =~= none + a);
    joined(none, "Model:     "@, status.model);
    joined(a, "Serial:    "@, status.serial);
    joined(b, "OS:        "@, os);
    joined(c, "Kernel:    "@, kernel);
    joined(d, "Uptime:    "@, uptime);
    joined(e, "CPU:       "@, cpu);
    joined(f, "Memory:    "@, memory);
    assert(g == system_rows(status, uptime_minutes, load));
    assert(status.model matches Some(v) ==> a[0] == "Model:     "@ + v);
    assert(status.serial matches Some(v) ==> b[a.len() as int] == "Serial:    "@ + v);
    assert(os matches Some(v) ==> c[b.len() as int] == "OS:        "@ + v);
    assert(kernel matches Some(v) ==> d[c.len() as int] == "Kernel:    "@ + v);
    assert(uptime matches Some(v) ==> e[d.len() as int] == "Uptime:    "@ + v);
    assert(cpu matches Some(v) ==> f[e.len() as int] == "CPU:       "@ + v);
    assert(forall|i: int| 0 <= i < a.len() ==> g[i] == #[trigger] a[i]);
    assert(forall|i: int| 0 <= i < b.len() ==> g[i] == #[trigger] b[i]);
    assert(forall|i: int| 0 <= i < c.len() ==> g[i] == #[trigger] c[i]);
    assert(forall|i: int| 0 <= i < d.len() ==> g[i] == #[trigger] d[i]);
    assert(forall|i: int| 0 <= i < e.len() ==> g[i] == #[trigger] e[i]);
}

proof fn report_is_in_order(
    status: StatusView,
    uptime_minutes: Option<u64>,
    load: Option<(Seq<char>, Seq<char>, Seq<char>)>,
)
    ensures
        ({
            let rows = report(status, uptime_minutes, load);
            let system = system_rows(status, uptime_minutes, load);
            let battery_at: int = system.len() as int + status.disks.len();
            let xochitl_at = battery_at + one_if(status.battery is Some);
            let documents_at = xochitl_at + one_if(status.xochitl is Some);
            &&& rows.len() == documents_at + one_if(status.documents is Some)
            &&& forall|i: int| 0 <= i < system.len() ==> rows[i] == #[trigger] system[i]
            &&& forall|i: int|
                0 <= i < status.disks.len() ==> rows[system.len() + i] == disk_row(
                    #[trigger] status.disks[i],
                )
            &&& battery_text(status.battery) matches Some(v) ==> rows[battery_at]
                == "Battery:   "@ + v
            &&& status.xochitl matches Some(v) ==> rows[xochitl_at] == "xochitl:   "@ + v
            &&& counts_text(status.documents) matches Some(v) ==> rows[documents_at]
                == "Documents: "@ + v
        }),
{
    let system = system_rows(status, uptime_minutes, load);
    let disks = Seq::new(status.disks.len(), |i: int| disk_row(status.disks[i]));
    let battery = battery_text(status.battery);
    let counts = counts_text(status.documents);
    let a = system + disks;
    let b = a + labelled("Battery:   "@, battery);
    let c = b + labelled("xochitl:   "@, status.xochitl);
    let d = c + labelled("Documents: "@, counts);
    joined(a, "Battery:   "@, battery);
    joined(b, "xochitl:   "@, status.xochitl);
    joined(c, "Documents: "@, counts);
    assert(d == report(status, uptime_minutes, load));
    assert(forall|i: int| 0 <= i < system.len() ==> a[i] == #[trigger] system[i]);
    assert forall|i: int| 0 <= i < status.disks.len() implies d[system.len() + i] == disk_row(
        #[trigger] status.disks[i],
    ) by {
        assert(a[system.len() + i] == disks[i]);
        assert(b[system.len() + i] == a[system.len() + i]);
        assert(c[system.len() + i] == b[system.len() + i]);
    }
    assert forall|i: int| 0 <= i < system.len() implies d[i] == #[trigger] system[i] by {
        assert(b[i] == a[i]);
        assert(c[i] == b[i]);
    }
    assert(battery matches Some(v) ==> b[a.len() as int] == "Battery:   "@ + v);
    assert(forall|i: int| 0 <= i < b.len() ==> d[i] == #[trigger] b[i]);
    assert(status.xochitl matches Some(v) ==> c[b.len() as int] == "xochitl:   "@ + v);
}

/// The memory row shows what is used, which together with what is available makes up the total, and
/// the total behind it; where more is available than there is, nothing is used. It is there exactly
/// where both figures are known.
pub proof fn used_and_available_memory_make_the_total(
    status: StatusView,
    uptime_minutes: Option<u64>,
    load: Option<(Seq<char>, Seq<char>, Seq<char>)>,
) -> (used: nat)
    ensures
        ({
            let rows = report(status, uptime_minutes, load);
            let at = rows_above_memory(status, uptime_minutes, load);
            match (status.mem_total_kib, status.mem_available_kib) {
                (Some(total), Some(available)) => {
                    &&& at < rows.len()
                    &&& rows[at] == "Memory:    "@ + (size_text(used) + " used / "@ + size_text(
                        total as nat,
                    ) + " total"@)
                    &&& available <= total ==> used + available == total
                    &&& available > total ==> used == 0
                },
                _ => rows_above_disks(status, uptime_minutes, load) == at,
            }
        }),
{
    system_rows_in_order(status, uptime_minutes, load);
    report_is_in_order(status, uptime_minutes, load);
    let system = system_rows(status, uptime_minutes, load);
    let rows = report(status, uptime_minutes, load);
    let at = rows_above_memory(status, uptime_minutes, load);
    match (status.mem_total_kib, status.mem_available_kib) {
        (Some(total), Some(available)) => {
            assert(rows[at] == system[at]);
            if available <= total {
                (total - available) as nat
            } else {
                0
            }
        },
        _ => 0,
    }
}

/// A row above the disks stands for each thing that is known, in a fixed order, and says what it
/// is: the parts of a version, a kernel or a load are all shown, each where it is known.
pub proof fn system_rows_show_what_is_known(
    status: StatusView,
    uptime_minutes: Option<u64>,
    load: Option<(Seq<char>, Seq<char>, Seq<char>)>,
)
    ensures
        ({
            let rows = report(status, uptime_minutes, load);
            let serial_at = one_if(status.model is Some);
            let os_at = serial_at + one_if(status.serial is Some);
            let kernel_at = os_at + one_if(status.os_version is Some || status.os_build is Some);
            let uptime_at = kernel_at + one_if(status.kernel is Some);
            let cpu_at = uptime_at + one_if(uptime_minutes is Some);
            &&& status.model matches Some(v) ==> rows[0] == "Model:     "@ + v
            &&& status.serial matches Some(v) ==> rows[serial_at] == "Serial:    "@ + v
            &&& match (status.os_version, status.os_build) {
                (Some(version), Some(build)) => rows[os_at] == "OS:        "@ + (version
                    + " (build "@ + build + ")"@),
                (Some(version), None) => rows[os_at] == "OS:        "@ + version,
                (None, Some(build)) => rows[os_at] == "OS:        "@ + ("build "@ + build),
                (None, None) => true,
            }
            &&& match (status.kernel, status.arch) {
                (Some(kernel), Some(arch)) => rows[kernel_at] == "Kernel:    "@ + (kernel + " ("@
                    + arch + ")"@),
                (Some(kernel), None) => rows[kernel_at] == "Kernel:    "@ + kernel,
                (None, _) => true,
            }
            &&& uptime_minutes matches Some(m) ==> rows[uptime_at] == "Uptime:    "@
                + duration_text(m as nat)
            &&& match (status.cpu_count, load) {
                (Some(n), Some((one, five, fifteen))) => rows[cpu_at] == "CPU:       "@ + (decimal(
                    n as nat,
                ) + " core(s), "@ + ("load "@ + one + " "@ + five + " "@ + fifteen)),
                (Some(n), None) => rows[cpu_at] == "CPU:       "@ + (decimal(n as nat)
                    + " core(s)"@),
                (None, Some((one, five, fifteen))) => rows[cpu_at] == "CPU:       "@ + ("load "@
                    + one + " "@ + five + " "@ + fifteen),
                (None, None) => true,
            }
        }),
{
    system_rows_in_order(status, uptime_minutes, load);
    report_is_in_order(status, uptime_minutes, load);
    let system = system_rows(status, uptime_minutes, load);
    let rows = report(status, uptime_minutes, load);
    let serial_at = one_if(status.model is Some);
    let os_at = serial_at + one_if(status.serial is Some);
    let kernel_at = os_at + one_if(status.os_version is Some || status.os_build is Some);
    let uptime_at = kernel_at + one_if(status.kernel is Some);
    let cpu_at = uptime_at + one_if(uptime_minutes is Some);
    assert(status.model is Some ==> rows[0] == system[0]);
    assert(status.serial is Some ==> rows[serial_at] == system[serial_at]);
    assert(status.os_version is Some || status.os_build is Some ==> rows[os_at] == system[os_at]);
    assert(status.kernel is Some ==> rows[kernel_at] == system[kernel_at]);
    assert(uptime_minutes is Some ==> rows[uptime_at] == system[uptime_at]);
    assert(status.cpu_count is Some || load is Some ==> rows[cpu_at] == system[cpu_at]);
}

/// Each disk has its row, in order, which shows what is used of it and how large it is, and how full
/// that makes it: the percentage is the largest whole one that is not more than what is used.
pub proof fn disks_show_how_full_they_are(
    status: StatusView,
    uptime_minutes: Option<u64>,
    load: Option<(Seq<char>, Seq<char>, Seq<char>)>,
    i: int,
) -> (percent: nat)
    requires
        0 <= i < status.disks.len(),
    ensures
        ({
            let disk = status.disks[i];
            &&& report(status, uptime_minutes, load)[rows_above_disks(status, uptime_minutes, load)
                + i] == "Storage:   "@ + disk.mount + " "@ + size_text(disk.used_kib as nat)
                + " used / "@ + size_text(disk.total_kib as nat) + " ("@ + decimal(percent) + "%)"@
            &&& disk.total_kib > 0 ==> percent * disk.total_kib <= disk.used_kib * 100 < (percent
                + 1) * disk.total_kib
            &&& disk.total_kib == 0 ==> percent == 0
        }),
{
    system_rows_in_order(status, uptime_minutes, load);
    report_is_in_order(status, uptime_minutes, load);
    let disk = status.disks[i];
    if disk.total_kib == 0 {
        0
    } else {
        let used = disk.used_kib as nat * 100;
        let total = disk.total_kib as nat;
        let percent = used / total;
        assert(percent * total <= used < (percent + 1) * total) by (nonlinear_arith)
            requires
                total > 0,
                percent == used / total,
        ;
        percent
    }
}

/// Below the disks stand the battery with its charge and, where it is known, its state, the state of
/// the interface and the counts, each where it is known, and nothing else.
pub proof fn last_rows_show_what_is_known(
    status: StatusView,
    uptime_minutes: Option<u64>,
    load: Option<(Seq<char>, Seq<char>, Seq<char>)>,
)
    ensures
        ({
            let rows = report(status, uptime_minutes, load);
            let battery_at = rows_above_disks(status, uptime_minutes, load) + status.disks.len();
            let xochitl_at = battery_at + one_if(status.battery is Some);
            let documents_at = xochitl_at + one_if(status.xochitl is Some);
            &&& rows.len() == documents_at + one_if(status.documents is Some)
            &&& status.battery matches Some(b) ==> rows[battery_at] == "Battery:   "@ + match b.status {
                Some(state) => decimal(b.percent as nat) + "%"@ + (" ("@ + state + ")"@),
                None => decimal(b.percent as nat) + "%"@,
            }
            &&& status.xochitl matches Some(v) ==> rows[xochitl_at] == "xochitl:   "@ + v
            &&& status.documents matches Some(c) ==> rows[documents_at] == "Documents: "@ + (
            decimal(c.documents as nat) + " document(s), "@ + decimal(c.folders as nat)
                + " folder(s), "@ + decimal(c.trashed as nat) + " in trash"@)
        }),
{
    system_rows_in_order(status, uptime_minutes, load);
    report_is_in_order(status, uptime_minutes, load);
    if let Some(b) = status.battery {
        let head = decimal(b.percent as nat) + "%"@;
        assert(head + Seq::empty() =~= head);
    }
}

proof fn trash_is_counted(items: Seq<ItemView>, n: nat) -> (at: Seq<int>)
    requires
        n <= items.len(),
    ensures
        at.len() == trashed_count(items, n),
        forall|j: int, k: int| 0 <= j < k < at.len() ==> #[trigger] at[j] < #[trigger] at[k],
        forall|i: int|
            #![trigger items[i]]
            at.contains(i) <==> 0 <= i < n && ancestors(items, items[i].uuid).contains("trash"@),
    decreases n,
{
    if n == 0 {
        Seq::empty()
    } else {
        let before = trash_is_counted(items, (n - 1) as nat);
        let is_in = ancestors(items, items[n - 1].uuid).contains("trash"@);
        let at = if is_in {
            before.push(n - 1)
        } else {
            before
        };
        counted_one_more(before, n - 1, is_in);
        assert forall|k: int| 0 <= k < before.len() implies 0 <= #[trigger] before[k] < n - 1 by {
            assert(before.contains(before[k]));
            let item = items[before[k]];
        }
        at
    }
}

proof fn counted_one_more(before: Seq<int>, n: int, is_in: bool)
    ensures
        forall|i: int|
            (if is_in {
                before.push(n)
            } else {
                before
            }).contains(i) <==> before.contains(i) || is_in && i == n,
{
    let at = before.push(n);
    assert forall|i: int| at.contains(i) <==> before.contains(i) || i == n by {
        if at.contains(i) {
            let k = choose|k: int| 0 <= k < at.len() && at[k] == i;
            if k < before.len() {
                assert(before[k] == i);
            }
        }
        if before.contains(i) {
            let k = choose|k: int| 0 <= k < before.len() && before[k] == i;
            assert(at[k] == i);
        }
        if i == n {
            assert(at[before.len() as int] == i);
        }
    }
}

proof fn live_items_are_counted(items: Seq<ItemView>, n: nat, folders: bool) -> (at: Seq<int>)
    requires
        n <= items.len(),
    ensures
        at.len() == live_count(items, n, folders),
        forall|j: int, k: int| 0 <= j < k < at.len() ==> #[trigger] at[j] < #[trigger] at[k],
        forall|i: int|
            #![trigger items[i]]
            at.contains(i) <==> 0 <= i < n && !ancestors(items, items[i].uuid).contains("trash"@)
                && items[i].is_folder() == folders,
    decreases n,
{
    if n == 0 {
        Seq::empty()
    } else {
        let before = live_items_are_counted(items, (n - 1) as nat, folders);
        let item = items[n - 1];
        let is_in = !ancestors(items, item.uuid).contains("trash"@) && item.is_folder() == folders;
        let at = if is_in {
            before.push(n - 1)
        } else {
            before
        };
        counted_one_more(before, n - 1, is_in);
        assert forall|k: int| 0 <= k < before.len() implies 0 <= #[trigger] before[k] < n - 1 by {
            assert(before.contains(before[k]));
            let item = items[before[k]];
        }
        at
    }
}

/// The counts are of positions in the listing, each taken once: `trashed` are those of the items
/// somewhere under the trash, and `folders` and `documents` those of the others, by their kind.
pub proof fn counts_are_of_items(items: Seq<ItemView>) -> (at: (Seq<int>, Seq<int>, Seq<int>))
    ensures
        ({
            let (documents, folders, trashed) = at;
            &&& documents.len() == live_count(items, items.len(), false)
            &&& folders.len() == live_count(items, items.len(), true)
            &&& trashed.len() == trashed_count(items, items.len())
            &&& forall|j: int, k: int|
                0 <= j < k < documents.len() ==> #[trigger] documents[j] < #[trigger] documents[k]
            &&& forall|j: int, k: int|
                0 <= j < k < folders.len() ==> #[trigger] folders[j] < #[trigger] folders[k]
            &&& forall|j: int, k: int|
                0 <= j < k < trashed.len() ==> #[trigger] trashed[j] < #[trigger] trashed[k]
            &&& forall|i: int|
                #![trigger items[i]]
                0 <= i < items.len() ==> {
                    let is_trashed = ancestors(items, items[i].uuid).contains("trash"@);
                    &&& documents.contains(i) <==> !is_trashed && !items[i].is_folder()
                    &&& folders.contains(i) <==> !is_trashed && items[i].is_folder()
                    &&& trashed.contains(i) <==> is_trashed
                }
        }),
{
    (
        live_items_are_counted(items, items.len(), false),
        live_items_are_counted(items, items.len(), true),
        trash_is_counted(items, items.len()),
    )
}

proof fn keys_are_looked_up_in_order(
    first: Seq<char>,
    ls: Seq<Seq<char>>,
    i: int,
    sep: char,
    key: Seq<char>,
)
    requires
        0 <= i,
    ensures
        keyed_from(seq![first] + ls, i + 1, sep, key) == keyed_from(ls, i, sep, key),
    decreases ls.len() - i,
{
    let all = seq![first] + ls;
    if i < ls.len() {
        assert(all[i + 1] == ls[i]);
        keys_are_looked_up_in_order(first, ls, i + 1, sep, key);
    }
}

/// A figure about the memory is the number behind the name of its line; lines about anything else are
/// passed over.
pub proof fn memory_figures_stand_in_their_lines(
    name: Seq<char>,
    gap: Seq<char>,
    number: Seq<char>,
    unit: Seq<char>,
    rest: Seq<char>,
    field: Seq<char>,
)
    requires
        name.len() > 0,
        is_free_of(name, Class::White),
        is_free_of(name, Class::Only(':')),
        is_all(gap, Class::White),
        !gap.contains('\n'),
        number.len() > 0,
        is_free_of(number, Class::White),
        is_free_of(unit, Class::White),
        unit.len() > 0,
    ensures
        memory_of(name + seq![':'] + gap + number + seq![' '] + unit + seq!['\n'] + rest, field)
            == if name == field {
            match parse_nat(number, u64::MAX as nat) {
                Some(n) => Some(n as u64),
                None => None,
            }
        } else {
            memory_of(rest, field)
        },
{
    let none = Seq::<char>::empty();
    let value = gap + number + seq![' '] + unit;
    let line = name + seq![':'] + value;
    let body = name + seq![':'] + gap + number + seq![' '] + unit + seq!['\n'] + rest;
    assert(body =~= line + seq!['\n'] + rest);
    assert(!line.contains('\n')) by {
        if line.contains('\n') {
            let i = choose|i: int| 0 <= i < line.len() && line[i] == '\n';
            let a = name.len() as int + 1;
            let b = a + gap.len();
            let c = b + number.len();
            if i < name.len() {
                assert(!Class::White.holds(name[i]));
            } else if a <= i < b {
                assert(gap[i - a] == '\n');
            } else if b <= i < c {
                assert(!Class::White.holds(number[i - b]));
            } else if c < i {
                assert(!Class::White.holds(unit[i - c - 1]));
            }
        }
    }
    newlines_end_lines(line, rest);
    assert(line.last() == unit[unit.len() - 1]);
    assert(!Class::White.holds(unit[unit.len() - 1]));
    let ls = lines(body);
    assert(ls == seq![line] + lines(rest));
    assert(ls[0] == line);
    first_cuts(name, ':', value, Class::Only(':'));
    assert(!Class::White.holds(name[0]) && !Class::White.holds(name[name.len() - 1]));
    edges_are_trimmed(none, name, none, Class::White);
    assert(none + name + none =~= name);
    words_stand_between_white_space(gap, number, ' ', unit);
    assert(words(value)[0] == number);
    keys_are_looked_up_in_order(line, lines(rest), 0, ':', field);
}

/// Whether a text is a word: it holds no white space, and is not empty.
pub open spec fn is_word(s: Seq<char>) -> bool {
    s.len() > 0 && is_free_of(s, Class::White)
}

/// A line about a disk is its device, its size, what is used and what is available of it in KiB, a
/// percentage and where it is mounted.
pub proof fn disks_are_read_by_column(
    device: Seq<char>,
    total: Seq<char>,
    used: Seq<char>,
    available: Seq<char>,
    percent: Seq<char>,
    mount: Seq<char>,
)
    requires
        is_word(device) && is_word(total) && is_word(used) && is_word(available) && is_word(percent)
            && is_word(mount),
    ensures
        disk_of(
            device + seq![' '] + (total + seq![' '] + (used + seq![' '] + (available + seq![' '] + (
            percent + seq![' '] + mount)))),
        ) == match (
            parse_nat(total, u64::MAX as nat),
            parse_nat(used, u64::MAX as nat),
            parse_nat(available, u64::MAX as nat),
        ) {
            (Some(t), Some(u), Some(a)) => Some(
                DiskView {
                    mount,
                    total_kib: t as u64,
                    used_kib: u as u64,
                    available_kib: a as u64,
                },
            ),
            _ => None,
        },
{
    let none = Seq::<char>::empty();
    let columns = seq![device, total, used, available, percent, mount];
    let e = percent + seq![' '] + mount;
    let d = available + seq![' '] + e;
    let c = used + seq![' '] + d;
    let b = total + seq![' '] + c;
    let a = device + seq![' '] + b;
    one_word_more(mount, ' ', none);
    one_word_more(percent, ' ', mount);
    one_word_more(available, ' ', e);
    one_word_more(used, ' ', d);
    one_word_more(total, ' ', c);
    one_word_more(device, ' ', b);
    let fields = words(a);
    assert(fields =~= columns);
    assert(fields.skip(5) =~= seq![mount]);
    assert(join(seq![mount], seq![' ']) =~= mount) by {
        assert(seq![mount].drop_last() =~= Seq::<Seq<char>>::empty());
    }
}

proof fn one_word_more(word: Seq<char>, c: char, rest: Seq<char>)
    requires
        word.len() > 0,
        is_free_of(word, Class::White),
        Class::White.holds(c),
    ensures
        words(word + seq![c] + rest) == seq![word] + words(rest),
        words(word) == seq![word],
{
    let none = Seq::<char>::empty();
    words_stand_between_white_space(none, word, c, rest);
    assert(none + word + seq![c] + rest =~= word + seq![c] + rest);
    assert(none + word =~= word);
}

/// Exactly those disks are listed that a line below the heading tells of, where no line before it,
/// readable or not, is about the same mount point.
pub proof fn disks_come_from_their_first_lines(ls: Seq<Seq<char>>, n: nat, disk: DiskView)
    requires
        n <= ls.len(),
    ensures
        disks_of(ls, n).contains(disk) <==> exists|k: int|
            1 <= k < n && #[trigger] disk_of(ls[k]) == Some(disk) && forall|j: int|
                1 <= j < k ==> #[trigger] mount_of(ls[j]) != Some(disk.mount),
    decreases n,
{
    if n > 1 {
        let m = (n - 1) as nat;
        disks_come_from_their_first_lines(ls, m, disk);
        let before = disks_of(ls, m);
        let all = disks_of(ls, n);
        if before.contains(disk) {
            let i = choose|i: int| 0 <= i < before.len() && before[i] == disk;
            assert(all[i] == disk);
            let k = choose|k: int|
                1 <= k < m && #[trigger] disk_of(ls[k]) == Some(disk) && forall|j: int|
                    1 <= j < k ==> #[trigger] mount_of(ls[j]) != Some(disk.mount);
            assert(disk_of(ls[k]) == Some(disk));
        } else {
            if all.contains(disk) {
                let i = choose|i: int| 0 <= i < all.len() && all[i] == disk;
                if i < before.len() {
                    assert(before[i] == disk);
                }
                assert(disk_of(ls[n - 1]) == Some(disk));
                assert forall|j: int| 1 <= j < n - 1 implies #[trigger] mount_of(ls[j]) != Some(
                    disk.mount,
                ) by {
                    if mount_of(ls[j]) == Some(disk.mount) {
                        assert(is_mounted(ls, n - 1, disk.mount));
                    }
                }
            }
            if disk_of(ls[n - 1]) == Some(disk) && forall|j: int|
                1 <= j < n - 1 ==> #[trigger] mount_of(ls[j]) != Some(disk.mount) {
                assert(all.last() == disk);
                assert(all.contains(all[all.len() - 1]));
            }
            if exists|k: int|
                1 <= k < n && #[trigger] disk_of(ls[k]) == Some(disk) && forall|j: int|
                    1 <= j < k ==> #[trigger] mount_of(ls[j]) != Some(disk.mount) {
                let k = choose|k: int|
                    1 <= k < n && #[trigger] disk_of(ls[k]) == Some(disk) && forall|j: int|
                        1 <= j < k ==> #[trigger] mount_of(ls[j]) != Some(disk.mount);
                assert(k == n - 1);
            }
        }
    }
}

/// A battery is a percentage of at most a hundred and, behind it, its state where there is one.
pub proof fn batteries_are_a_percentage_and_a_state(percent: Seq<char>, state: Seq<char>)
    requires
        percent.len() > 0,
        is_free_of(percent, Class::White),
        state.len() > 0,
        is_free_of(state, Class::White),
    ensures
        match parse_nat(percent, u8::MAX as nat) {
            Some(n) => if n <= 100 {
                &&& battery_of(percent + seq![' '] + state) == Some(
                    BatteryView { percent: n as u8, status: Some(state) },
                )
                &&& battery_of(percent) == Some(BatteryView { percent: n as u8, status: None })
            } else {
                battery_of(percent) is None
            },
            None => battery_of(percent) is None,
        },
{
    one_word_more(percent, ' ', state);
    one_word_more(state, ' ', Seq::empty());
    let both = words(percent + seq![' '] + state);
    assert(both[0] == percent && both[1] == state && both.len() == 2);
}

/// The uptime is the first word, and the load the first three, of texts that hold numbers there.
pub proof fn readings_are_the_first_numbers(
    one: Seq<char>,
    five: Seq<char>,
    fifteen: Seq<char>,
    rest: Seq<char>,
)
    requires
        one.len() > 0 && is_free_of(one, Class::White) && is_fraction(one),
        five.len() > 0 && is_free_of(five, Class::White) && is_fraction(five),
        fifteen.len() > 0 && is_free_of(fifteen, Class::White) && is_fraction(fifteen),
    ensures
        ({
            let body = one + seq![' '] + (five + seq![' '] + (fifteen + seq![' '] + rest));
            &&& uptime_of(body) == Some(one)
            &&& load_of(body) == Some((one, five, fifteen))
        }),
{
    let c = fifteen + seq![' '] + rest;
    let b = five + seq![' '] + c;
    let a = one + seq![' '] + b;
    one_word_more(fifteen, ' ', rest);
    one_word_more(five, ' ', c);
    one_word_more(one, ' ', b);
    let ws = words(a);
    assert(ws[0] == one && ws[1] == five && ws[2] == fifteen);
    assert(fractions(ws, 0) == Seq::<Seq<char>>::empty());
    assert(fractions(ws, 1) =~= seq![one]);
    assert(fractions(ws, 2) =~= seq![one, five]);
    assert(fractions(ws, 3) =~= seq![one, five, fifteen]);
    fractions_grow(ws, 3, ws.len());
}

proof fn fractions_grow(ws: Seq<Seq<char>>, n: nat, m: nat)
    requires
        n <= m <= ws.len(),
    ensures
        fractions(ws, m).len() >= fractions(ws, n).len(),
        forall|i: int|
            0 <= i < fractions(ws, n).len() ==> fractions(ws, m)[i] == #[trigger] fractions(
                ws,
                n,
            )[i],
    decreases m,
{
    if n < m {
        fractions_grow(ws, n, (m - 1) as nat);
    }
}

/// The value of a key is what stands behind its equals sign, without quotes around it; an empty one
/// counts as absent, and lines about other keys are passed over.
pub proof fn values_stand_behind_their_keys(
    name: Seq<char>,
    value: Seq<char>,
    rest: Seq<char>,
    key: Seq<char>,
)
    requires
        is_word(name),
        is_free_of(name, Class::Only('=')),
        value.len() > 0 ==> !Class::White.holds(value[0]) && !Class::White.holds(value.last()),
        value.len() > 0 ==> value[0] != '"' && value.last() != '"',
        !value.contains('\n'),
    ensures
        ({
            let found = if value.len() > 0 {
                Some(value)
            } else {
                None
            };
            &&& name == key ==> value_for(name + seq!['='] + value + seq!['\n'] + rest, key) == found
            &&& name == key ==> value_for(
                name + seq!['='] + (seq!['"'] + value + seq!['"']) + seq!['\n'] + rest,
                key,
            ) == found
            &&& name != key ==> value_for(name + seq!['='] + value + seq!['\n'] + rest, key)
                == value_for(rest, key)
        }),
{
    let quoted = seq!['"'] + value + seq!['"'];
    assert(quoted[0] == '"' && quoted.last() == '"');
    assert(!quoted.contains('\n')) by {
        if quoted.contains('\n') {
            let i = choose|i: int| 0 <= i < quoted.len() && quoted[i] == '\n';
            assert(value[i - 1] == '\n');
        }
    }
    let none = Seq::<char>::empty();
    edges_are_trimmed(none, value, none, Class::White);
    edges_are_trimmed(none, value, none, Class::Only('"'));
    assert(none + value + none =~= value);
    edges_are_trimmed(none, quoted, none, Class::White);
    assert(none + quoted + none =~= quoted);
    edges_are_trimmed(seq!['"'], value, seq!['"'], Class::Only('"'));
    keyed_line(name, value, rest, key);
    keyed_line(name, quoted, rest, key);
}

proof fn keyed_line(name: Seq<char>, value: Seq<char>, rest: Seq<char>, key: Seq<char>)
    requires
        is_word(name),
        is_free_of(name, Class::Only('=')),
        value.len() > 0 ==> !Class::White.holds(value.last()),
        !value.contains('\n'),
    ensures
        keyed_from(lines(name + seq!['='] + value + seq!['\n'] + rest), 0, '=', key) == if name
            == key {
            Some(value)
        } else {
            keyed_from(lines(rest), 0, '=', key)
        },
{
    let none = Seq::<char>::empty();
    let line = name + seq!['='] + value;
    let body = name + seq!['='] + value + seq!['\n'] + rest;
    assert(!line.contains('\n')) by {
        if line.contains('\n') {
            let i = choose|i: int| 0 <= i < line.len() && line[i] == '\n';
            if i < name.len() {
                assert(!Class::White.holds(name[i]));
            } else if i > name.len() {
                assert(value[i - name.len() - 1] == '\n');
            }
        }
    }
    newlines_end_lines(line, rest);
    if value.len() > 0 {
        assert(line.last() == value.last());
    } else {
        assert(line.last() == '=');
    }
    assert(lines(body)[0] == line);
    first_cuts(name, '=', value, Class::Only('='));
    assert(!Class::White.holds(name[0]) && !Class::White.holds(name[name.len() - 1]));
    edges_are_trimmed(none, name, none, Class::White);
    assert(none + name + none =~= name);
    keys_are_looked_up_in_order(line, lines(rest), 0, '=', key);
}

/// The first of some lines, where there is one.
pub open spec fn first_of(ls: Seq<Seq<char>>) -> Option<Seq<char>> {
    if ls.len() > 0 {
        Some(ls[0])
    } else {
        None
    }
}

/// Every field is read from the section of its name: the total and the available memory from their own
/// lines, the release from the update configuration before that of the system, the architecture from
/// the line behind the kernel.
pub proof fn fields_are_read_from_their_sections(found: Seq<(Seq<char>, Seq<char>)>)
    ensures
        section_from(found, 0, "meminfo"@) matches Some(body) ==> status_of(found).mem_total_kib
            == memory_of(body, "MemTotal"@) && status_of(found).mem_available_kib == memory_of(
            body,
            "MemAvailable"@,
        ),
        section_from(found, 0, "model"@) matches Some(body) ==> status_of(found).model == first_of(
            full_lines(body, Class::Padding),
        ),
        section_from(found, 0, "serial"@) matches Some(body) ==> status_of(found).serial
            == first_of(full_lines(body, Class::Padding)),
        section_from(found, 0, "build"@) matches Some(body) ==> status_of(found).os_build
            == first_of(full_lines(body, Class::White)),
        section_from(found, 0, "xochitl"@) matches Some(body) ==> status_of(found).xochitl
            == first_of(full_lines(body, Class::White)),
        section_from(found, 0, "kernel"@) matches Some(body) ==> status_of(found).kernel
            == first_of(full_lines(body, Class::White)) && (full_lines(body, Class::White).len() > 1
            ==> status_of(found).arch == Some(full_lines(body, Class::White)[1])),
        section_from(found, 0, "uptime"@) matches Some(body) ==> status_of(found).uptime_secs
            == uptime_of(body),
        section_from(found, 0, "loadavg"@) matches Some(body) ==> status_of(found).load_average
            == load_of(body),
        section_from(found, 0, "cpus"@) matches Some(body) ==> status_of(found).cpu_count
            == match parse_nat(trim(body, Class::White), u32::MAX as nat) {
            Some(n) => Some(n as u32),
            None => None,
        },
        section_from(found, 0, "df"@) matches Some(body) ==> status_of(found).disks == disks_of(
            lines(body),
            lines(body).len(),
        ),
        section_from(found, 0, "update-conf"@) matches Some(body) ==> (value_for(
            body,
            "REMARKABLE_RELEASE_VERSION"@,
        ) matches Some(version) ==> status_of(found).os_version == Some(version)),
        section_from(found, 0, "update-conf"@) is None || value_for(
            section_from(found, 0, "update-conf"@)->Some_0,
            "REMARKABLE_RELEASE_VERSION"@,
        ) is None ==> (section_from(found, 0, "os-release"@) matches Some(body) ==> status_of(
            found,
        ).os_version == value_for(body, "VERSION_ID"@)),
{
}

/// The battery is the first one that a line tells of.
pub proof fn batteries_are_found_by_line(found: Seq<(Seq<char>, Seq<char>)>, body: Seq<char>, k: int)
    requires
        section_from(found, 0, "battery"@) == Some(body),
        0 <= k < lines(body).len(),
        battery_of(lines(body)[k]) is Some,
        forall|i: int| 0 <= i < k ==> battery_of(#[trigger] lines(body)[i]) is None,
    ensures
        status_of(found).battery == battery_of(lines(body)[k]),
{
    battery_is_at(lines(body), 0, k);
}

proof fn battery_is_at(ls: Seq<Seq<char>>, i: int, k: int)
    requires
        0 <= i <= k < ls.len(),
        battery_of(ls[k]) is Some,
        forall|j: int| i <= j < k ==> battery_of(#[trigger] ls[j]) is None,
    ensures
        battery_from(ls, i) == battery_of(ls[k]),
    decreases k - i,
{
    if i < k {
        assert(battery_of(ls[i]) is None);
        battery_is_at(ls, i + 1, k);
    }
}

/// Whether every character of a text is a decimal digit.
pub open spec fn holds_only_digits(s: Seq<char>) -> bool {
    forall|i: int| 0 <= i < s.len() ==> '0' <= #[trigger] s[i] <= '9'
}

proof fn small_texts_stay(s: Seq<char>)
    requires
        forall|i: int| 0 <= i < s.len() ==> !('A' <= #[trigger] s[i] <= 'Z'),
    ensures
        ascii_lowercase(s) == s,
{
    assert forall|i: int| 0 <= i < s.len() implies ascii_lowercase(s)[i] == s[i] by {
        let c = s[i];
    }
    assert(ascii_lowercase(s) =~= s);
}

proof fn mantissas_are_numbers(s: Seq<char>, sign: Seq<char>)
    requires
        is_mantissa(s),
        forall|i: int| 0 <= i < s.len() ==> ('0' <= #[trigger] s[i] <= '9' || s[i] == '.'),
        sign.len() == 0 || sign == seq!['+'] || sign == seq!['-'],
        s.len() > 0,
    ensures
        is_fraction(sign + s),
{
    let all = sign + s;
    let first = s[0];
    assert(unsigned(all) =~= s) by {
        if sign.len() == 0 {
            assert(all =~= s);
        } else {
            assert(all[0] == sign[0]);
            assert(all.drop_first() =~= s);
        }
    }
    assert forall|i: int| 0 <= i < s.len() implies !('A' <= #[trigger] s[i] <= 'Z') by {
        assert('0' <= s[i] <= '9' || s[i] == '.');
    }
    small_texts_stay(s);
    let e = Class::Only('e');
    assert(is_free_of(s, e)) by {
        assert forall|i: int| 0 <= i < s.len() implies !e.holds(#[trigger] s[i]) by {
            assert('0' <= s[i] <= '9' || s[i] == '.');
        }
    }
    first_cuts(s, 'e', s, e);
}

/// Digits are a number, with a point anywhere among or around them and a sign before them; a point or a
/// sign alone is none, and neither is nothing.
pub proof fn digits_with_a_point_are_numbers(
    whole: Seq<char>,
    rest: Seq<char>,
    sign: Seq<char>,
)
    requires
        holds_only_digits(whole),
        holds_only_digits(rest),
        sign.len() == 0 || sign == seq!['+'] || sign == seq!['-'],
    ensures
        whole.len() > 0 ==> is_fraction(sign + whole),
        whole.len() > 0 || rest.len() > 0 ==> is_fraction(sign + (whole + seq!['.'] + rest)),
        !is_fraction(sign),
        !is_fraction(sign + seq!['.']),
{
    let point = Class::Only('.');
    let none = Seq::<char>::empty();
    let s = whole + seq!['.'] + rest;
    assert(is_free_of(whole, point)) by {
        assert forall|i: int| 0 <= i < whole.len() implies !point.holds(#[trigger] whole[i]) by {
            assert('0' <= whole[i] <= '9');
        }
    }
    assert(whole.len() > 0 ==> all_digits(whole)) by {
        assert forall|i: int| 0 <= i < whole.len() implies is_digit(#[trigger] whole[i]) by {
            assert('0' <= whole[i] <= '9');
        }
    }
    assert(rest.len() > 0 ==> all_digits(rest)) by {
        assert forall|i: int| 0 <= i < rest.len() implies is_digit(#[trigger] rest[i]) by {
            assert('0' <= rest[i] <= '9');
        }
    }
    first_cuts(whole, '.', rest, point);
    assert forall|i: int| 0 <= i < s.len() implies ('0' <= #[trigger] s[i] <= '9' || s[i] == '.') by {
        if i < whole.len() {
            assert('0' <= whole[i] <= '9');
        } else if i > whole.len() {
            assert('0' <= rest[i - whole.len() - 1] <= '9');
        }
    }
    if whole.len() > 0 {
        assert forall|i: int| 0 <= i < whole.len() implies ('0' <= #[trigger] whole[i] <= '9'
            || whole[i] == '.') by {}
        mantissas_are_numbers(whole, sign);
    }
    if whole.len() > 0 || rest.len() > 0 {
        mantissas_are_numbers(s, sign);
    }
    reveal_strlit("inf");
    reveal_strlit("infinity");
    reveal_strlit("nan");
    assert("inf"@.len() == 3 && "infinity"@.len() == 8 && "nan"@.len() == 3);
    let dot = seq!['.'];
    assert(unsigned(sign) =~= none);
    assert(unsigned(sign + dot) =~= dot) by {
        if sign.len() == 0 {
            assert(sign + dot =~= dot);
        } else {
            assert((sign + dot)[0] == sign[0]);
            assert((sign + dot).drop_first() =~= dot);
        }
    }
    small_texts_stay(none);
    small_texts_stay(dot);
    first_cuts(none, 'e', none, Class::Only('e'));
    first_cuts(dot, 'e', none, Class::Only('e'));
    first_cuts(none, '.', none, point);
    assert(none + seq!['.'] + none =~= dot);
}

/// Nothing is known of a device before it is asked.
pub proof fn nothing_is_known_at_first()
    ensures
        ({
            let s = unknown_status();
            &&& s.model is None && s.serial is None && s.os_version is None && s.os_build is None
            &&& s.kernel is None && s.arch is None && s.uptime_secs is None
            &&& s.load_average is None && s.cpu_count is None && s.mem_total_kib is None
            &&& s.mem_available_kib is None && s.disks.len() == 0 && s.battery is None
            &&& s.xochitl is None && s.documents is None
        }),
{
}

} // verus!
