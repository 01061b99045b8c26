//! What people and programs can read off the texts that are shown and logged.
use crate::access_log::{escaped, json_value, law_escaped, log_line, AccessView};
use crate::client::{
    daemon_arguments, done_text, tags_fault, trying_text, found_text, list_text, pid_in, rows_text,
    sweep_lines_text, sweep_shown_text, top_lines_text, trial_lines_text, trials_text,
};
use crate::client_texts::{
    best_line_text, downloaded_text, downloading_text, error_line_text, long_row_text,
    search_error_line_text, short_name, short_row_text, status_text, stored_text, sweep_line_text,
    top_line_text, trial_line_text, uploading_text, wrote_text,
};
use crate::config::{level_named, CliArgs};
use crate::error::ErrorView;
use crate::ipc::{
    unconnected_text, unheard_text, CacheBenchmarkEntry, CacheSweepRow, StatusReport, Unconnected,
    Unheard,
};
use crate::metadata::ObjectInfoView;
use crate::policies::algorithm_named;
use crate::search_laws::stands_in;
use crate::sizes::{kilo, lemma_float_exact, rounded, scale, scaled_text, size_text, uptime_text};
use crate::text::{decimal, digit};
use crate::transfer::target;
use crate::word_laws::{blank, law_decimal, law_number_read, law_trimmed};
use crate::words::{is_digit, padded, repeated};
use vstd::prelude::*;
use vstd::string::*;
use vstd::utf8::*;

verus! {

/// Whether `x` can be read somewhere in the text.
#[verifier::opaque]
pub open spec fn reads(t: Seq<char>, x: Seq<char>) -> bool {
    stands_in(t, x)
}

/// What can be read in a part of a text can be read in the text.
pub broadcast proof fn lemma_reads_part(a: Seq<char>, b: Seq<char>, x: Seq<char>)
    ensures
        reads(a, x) || reads(b, x) ==> #[trigger] reads(a + b, x),
{
    reveal(reads);
    if reads(a, x) {
        let (p, s) = choose|p: Seq<char>, s: Seq<char>| a == #[trigger] (p + x + s);
        assert(a + b =~= p + x + (s + b));
    } else if reads(b, x) {
        let (p, s) = choose|p: Seq<char>, s: Seq<char>| b == #[trigger] (p + x + s);
        assert(a + b =~= (a + p) + x + s);
    }
}

/// Every text can be read in itself.
pub broadcast proof fn lemma_reads_all(x: Seq<char>)
    ensures
        #[trigger] reads(x, x),
{
    reveal(reads);
    assert(x =~= Seq::<char>::empty() + x + Seq::<char>::empty());
}

/// Two parts that follow each other can be read together.
pub broadcast proof fn lemma_reads_two(a: Seq<char>, b: Seq<char>, c: Seq<char>)
    ensures
        #[trigger] reads(a + b + c, b + c),
{
    reveal(reads);
    assert(a + b + c =~= a + (b + c) + Seq::<char>::empty());
}

/// Three parts that follow each other can be read together.
pub broadcast proof fn lemma_reads_three(a: Seq<char>, b: Seq<char>, c: Seq<char>, d: Seq<char>)
    ensures
        #[trigger] reads(a + b + c + d, b + c + d),
{
    reveal(reads);
    assert(a + b + c + d =~= a + (b + c + d) + Seq::<char>::empty());
}

/// What stands in a column can be read there.
pub broadcast proof fn lemma_reads_padded(x: Seq<char>, width: nat)
    ensures
        #[trigger] reads(padded(x, width), x),
{
    lemma_reads_all(x);
    if x.len() < width {
        lemma_reads_part(x, repeated(' ', (width - x.len()) as nat), x);
    }
}

pub broadcast group group_reads {
    lemma_reads_part,
    lemma_reads_all,
    lemma_reads_two,
    lemma_reads_three,
    lemma_reads_padded,
}

/// What is read in what is read is read.
pub proof fn lemma_reads_through(a: Seq<char>, b: Seq<char>, x: Seq<char>)
    requires
        reads(a, b),
        reads(b, x),
    ensures
        reads(a, x),
{
    let (p, s) = choose|p: Seq<char>, s: Seq<char>| a == #[trigger] (p + b + s);
    assert(a == p + b + s) by {
        reveal(reads);
    }
    lemma_reads_part(p, b, x);
    lemma_reads_part(p + b, s, x);
}

/// The line of the log tells all of the access: each field under its name, and the texts
/// such that a reader of JSON gets them back.
pub proof fn law_log_line(now: Seq<char>, a: AccessView)
    ensures
        ({
            let line = log_line(now, a);
            &&& reads(line, "{\"ts\":\""@ + now + "\",\"op\":\""@)
            &&& reads(line, "\",\"op\":\""@ + a.op + "\",\"name\":\""@)
            &&& exists|e: Seq<char>|
                json_value(e) == Some(a.name) && #[trigger] reads(
                    line,
                    "\",\"name\":\""@ + e + "\",\"uuid\":\""@,
                )
            &&& reads(line, "\",\"uuid\":\""@ + a.uuid + "\",\"size\":"@)
            &&& reads(line, "\",\"size\":"@ + decimal(a.size as nat) + ",\"type\":\""@)
            &&& exists|e: Seq<char>|
                json_value(e) == Some(a.content_type) && #[trigger] reads(
                    line,
                    ",\"type\":\""@ + e + "\",\"tags\":"@,
                )
            &&& reads(line, "\",\"tags\":"@ + a.tags + "}"@)
        }),
{
    broadcast use group_reads;

    law_escaped(a.name);
    law_escaped(a.content_type);
    let line = log_line(now, a);
    assert(reads(line, "\",\"name\":\""@ + escaped(a.name) + "\",\"uuid\":\""@));
    assert(reads(line, ",\"type\":\""@ + escaped(a.content_type) + "\",\"tags\":"@));
}

/// Whether a row of a list tells of the object: its identifier, its name as far as the
/// column goes, and its size.
pub open spec fn row_tells(row: Seq<char>, o: ObjectInfoView) -> bool {
    &&& reads(row, o.uuid)
    &&& encode_utf8(o.name).len() <= 23 ==> reads(row, o.name)
    &&& encode_utf8(o.name).len() > 23 ==> reads(
        row,
        decode_utf8(encode_utf8(o.name).take(20)) + "..."@,
    )
    &&& reads(row, size_text(o.size as nat))
}

proof fn lemma_rows_tell(infos: Seq<ObjectInfoView>, long: bool, n: int, i: int)
    requires
        0 <= i < n <= infos.len(),
    ensures
        exists|row: Seq<char>| #[trigger]
            reads(rows_text(infos, long, n), row) && row_tells(row, infos[i]) && (long ==> reads(
                row,
                infos[i].created_at,
            ) && reads(row, infos[i].content_type)),
    decreases n,
{
    broadcast use group_reads;

    let row = if long {
        long_row_text(infos[i])
    } else {
        short_row_text(infos[i])
    };
    lemma_row(infos[i]);
    if i == n - 1 {
        assert(reads(rows_text(infos, long, n), row));
    } else {
        lemma_rows_tell(infos, long, n - 1, i);
        let r = choose|r: Seq<char>| #[trigger]
            reads(rows_text(infos, long, n - 1), r) && row_tells(r, infos[i]) && (long ==> reads(
                r,
                infos[i].created_at,
            ) && reads(r, infos[i].content_type));
        assert(reads(rows_text(infos, long, n), r));
    }
}

proof fn lemma_row(o: ObjectInfoView)
    ensures
        row_tells(long_row_text(o), o),
        reads(long_row_text(o), o.created_at),
        reads(long_row_text(o), o.content_type),
        row_tells(short_row_text(o), o),
{
    broadcast use group_reads;

    assert(reads(padded(short_name(o.name), 24), short_name(o.name)));
}

/// A list tells how many objects there are, and of each one in a row of its own. A long
/// list tells also when each was created and of what type it is.
pub proof fn law_list_shown(infos: Seq<ObjectInfoView>, long: bool, i: int)
    requires
        0 <= i < infos.len(),
    ensures
        reads(list_text(infos, long), "Objects: "@ + decimal(infos.len()) + "\n\n"@),
        exists|row: Seq<char>| #[trigger]
            reads(list_text(infos, long), row) && row_tells(row, infos[i]) && (long ==> reads(
                row,
                infos[i].created_at,
            ) && reads(row, infos[i].content_type)),
{
    broadcast use group_reads;

    lemma_rows_tell(infos, long, infos.len() as int, i);
    let n = infos.len() as int;
    let row = choose|row: Seq<char>| #[trigger]
        reads(rows_text(infos, long, n), row) && row_tells(row, infos[i]) && (long ==> reads(
            row,
            infos[i].created_at,
        ) && reads(row, infos[i].content_type));
    assert(reads(list_text(infos, long), row));
}

/// What a search found is told in the same way.
pub proof fn law_found_shown(infos: Seq<ObjectInfoView>, i: int)
    requires
        0 <= i < infos.len(),
    ensures
        reads(found_text(infos), "找到 "@ + decimal(infos.len()) + " 个对象:\n\n"@),
        exists|row: Seq<char>| #[trigger]
            reads(found_text(infos), row) && row_tells(row, infos[i]) && reads(
                row,
                infos[i].created_at,
            ) && reads(row, infos[i].content_type),
{
    broadcast use group_reads;

    lemma_rows_tell(infos, true, infos.len() as int, i);
    let n = infos.len() as int;
    let row = choose|row: Seq<char>| #[trigger]
        reads(rows_text(infos, true, n), row) && row_tells(row, infos[i]) && (true ==> reads(
            row,
            infos[i].created_at,
        ) && reads(row, infos[i].content_type));
    assert(reads(found_text(infos), row));
}

/// What is shown of a stored object: all that is known of it.
pub proof fn law_stored_shown(o: ObjectInfoView)
    ensures
        reads(stored_text(o), o.uuid + "\n  Name:        "@ + o.name),
        reads(stored_text(o), "\n  Size:        "@ + decimal(o.size as nat) + " ("@),
        reads(stored_text(o), ")\n  Type:        "@ + o.content_type),
        reads(stored_text(o), "\n  Created:     "@ + o.created_at),
        reads(stored_text(o), "\n  Tags:        "@ + o.tags),
        reads(stored_text(o), "\n  Data blocks: "@ + decimal(o.block_count as nat) + "\n"@),
{
    broadcast use group_reads;

}

/// What is shown of the figures of a server: each under its name.
pub proof fn law_status_shown(t: StatusReport, rate: Seq<char>)
    ensures
        ({
            let s = status_text(t, rate);
            &&& reads(s, decimal((t.uptime_seconds / 60) as nat) + "m "@)
            &&& reads(s, "m "@ + decimal((t.uptime_seconds % 60) as nat))
            &&& reads(
                s,
                "s\n\n  --- Storage ---\n  Objects:          "@ + decimal(t.object_count as nat)
                    + " / "@,
            )
            &&& reads(s, " / "@ + decimal(t.max_objects as nat) + "\n  Capacity:         "@)
            &&& reads(s, "\n  Capacity:         "@ + size_text(t.used_capacity as nat) + " / "@)
            &&& reads(s, " / "@ + size_text(t.total_capacity as nat) + " ("@)
            &&& reads(
                s,
                " ("@ + size_text(t.free_capacity as nat) + " free)\n  Data blocks:      "@,
            )
            &&& reads(
                s,
                " free)\n  Data blocks:      "@ + decimal(t.used_blocks as nat) + " used / "@,
            )
            &&& reads(s, " used / "@ + decimal(t.free_blocks as nat) + " free / "@)
            &&& reads(s, " free / "@ + decimal(t.total_blocks as nat) + " total ("@)
            &&& reads(s, " total ("@ + size_text(t.block_size as nat))
            &&& reads(
                s,
                " each)\n\n  --- Cache ---\n  Algorithm:        "@ + t.cache_algorithm@,
            )
            &&& reads(s, "\n  Entries:          "@ + decimal(t.cache_size as nat) + " / "@)
            &&& reads(s, " / "@ + decimal(t.cache_capacity as nat) + "\n  Hits:             "@)
            &&& reads(
                s,
                "\n  Hits:             "@ + decimal(t.cache_hits as nat)
                    + "\n  Misses:           "@,
            )
            &&& reads(
                s,
                "\n  Misses:           "@ + decimal(t.cache_misses as nat)
                    + "\n  Evictions:        "@,
            )
            &&& reads(
                s,
                "\n  Evictions:        "@ + decimal(t.cache_evictions as nat)
                    + "\n  Hit rate:         "@,
            )
            &&& reads(s, "\n  Hit rate:         "@ + rate)
            &&& reads(
                s,
                "%\n\n  --- Shared Memory ---\n  Pages:            "@ + decimal(
                    t.shm_pages_free as nat,
                ) + " free / "@,
            )
            &&& reads(s, " free / "@ + decimal(t.shm_pages_total as nat) + " total\n"@)
        }),
{
    broadcast use group_reads;

}

/// Whether a row of a trial tells of the policy: its place, its name, its hits and
/// misses, and its rate.
pub open spec fn trial_told(row: Seq<char>, place: Seq<char>, b: CacheBenchmarkEntry, rate: Seq<char>) -> bool {
    &&& reads(row, place)
    &&& reads(row, b.algorithm@)
    &&& reads(row, decimal(b.hits as nat))
    &&& reads(row, decimal(b.misses as nat))
    &&& reads(row, rate + "%\n"@)
}

/// The place of a policy among others.
pub open spec fn place_text(i: int) -> Seq<char> {
    if i == 0 {
        "1st"@
    } else if i == 1 {
        "2nd"@
    } else if i == 2 {
        "3rd"@
    } else {
        decimal((i + 1) as nat) + "."@
    }
}

proof fn lemma_trial_rows(list: Seq<CacheBenchmarkEntry>, rates: Seq<Seq<char>>, n: int, i: int)
    requires
        0 <= i < n <= list.len(),
    ensures
        exists|row: Seq<char>| #[trigger]
            reads(trial_lines_text(list, rates, n), row) && trial_told(
                row,
                place_text(i),
                list[i],
                rates[i],
            ),
    decreases n,
{
    broadcast use group_reads;

    let row = trial_line_text(place_text(i), list[i], rates[i]);
    assert(place_text(i) == crate::client::rank_text(i));
    assert(reads(row, padded(place_text(i), 6)));
    lemma_reads_through(row, padded(place_text(i), 6), place_text(i));
    assert(trial_told(row, place_text(i), list[i], rates[i]));
    if i == n - 1 {
        assert(reads(trial_lines_text(list, rates, n), row));
    } else {
        lemma_trial_rows(list, rates, n - 1, i);
        let r = choose|r: Seq<char>| #[trigger]
            reads(trial_lines_text(list, rates, n - 1), r) && trial_told(
                r,
                place_text(i),
                list[i],
                rates[i],
            );
        assert(reads(trial_lines_text(list, rates, n), r));
    }
}

/// What is shown of a trial: how many objects and how many requests it is about, every
/// policy with its place, and the first of them as the best.
pub proof fn law_trials_shown(
    list: Seq<CacheBenchmarkEntry>,
    rates: Seq<Seq<char>>,
    keys: nat,
    iterations: nat,
    i: int,
)
    requires
        0 <= i < list.len(),
    ensures
        ({
            let s = trials_text(list, rates, keys, iterations);
            &&& reads(s, "  Workload:  "@ + decimal(keys) + " unique objects, "@)
            &&& reads(s, " unique objects, "@ + decimal(iterations) + " iterations\n\n"@)
            &&& exists|row: Seq<char>| #[trigger]
                reads(s, row) && trial_told(row, place_text(i), list[i], rates[i])
            &&& reads(s, "  Best algorithm: "@ + list[0].algorithm@ + " ("@)
            &&& reads(s, " ("@ + rates[0] + "% hit rate)\n"@)
        }),
{
    broadcast use group_reads;

    lemma_trial_rows(list, rates, list.len() as int, i);
    let n = list.len() as int;
    let row = choose|row: Seq<char>| #[trigger]
        reads(trial_lines_text(list, rates, n), row) && trial_told(
            row,
            place_text(i),
            list[i],
            rates[i],
        );
    let s = trials_text(list, rates, keys, iterations);
    assert(reads(s, row));
    let best = best_line_text(list[0], rates[0]);
    assert(reads(s, best));
    lemma_reads_through(s, best, "  Best algorithm: "@ + list[0].algorithm@ + " ("@);
    lemma_reads_through(s, best, " ("@ + rates[0] + "% hit rate)\n"@);
    let work = crate::client_texts::workload_line_text(keys, iterations);
    assert(reads(s, work));
    lemma_reads_through(s, work, "  Workload:  "@ + decimal(keys) + " unique objects, "@);
    lemma_reads_through(s, work, " unique objects, "@ + decimal(iterations) + " iterations\n\n"@);
}

/// Whether a row of a sweep tells of the policy and its capacity.
pub open spec fn sweep_told(row: Seq<char>, r: CacheSweepRow, rate: Seq<char>) -> bool {
    &&& reads(row, decimal(r.capacity as nat))
    &&& reads(row, r.algorithm@)
    &&& reads(row, decimal(r.hits as nat))
    &&& reads(row, decimal(r.misses as nat))
    &&& reads(row, rate + "%\n"@)
}

proof fn lemma_sweep_rows(list: Seq<CacheSweepRow>, rates: Seq<Seq<char>>, n: int, i: int)
    requires
        0 <= i < n <= list.len(),
    ensures
        exists|row: Seq<char>| #[trigger]
            reads(sweep_lines_text(list, rates, n), row) && sweep_told(row, list[i], rates[i]),
        reads(
            top_lines_text(list, rates, n),
            "    "@ + decimal((i + 1) as nat) + ". "@ + list[i].algorithm@ + " @ cap="@ + decimal(
                list[i].capacity as nat,
            ) + " → "@ + rates[i] + "% hit rate\n"@,
        ),
    decreases n,
{
    broadcast use group_reads;

    let row = sweep_line_text(list[i], rates[i]);
    assert(sweep_told(row, list[i], rates[i]));
    let top = top_line_text((i + 1) as nat, list[i], rates[i]);
    if i == n - 1 {
        assert(reads(sweep_lines_text(list, rates, n), row));
        assert(reads(top_lines_text(list, rates, n), top));
    } else {
        lemma_sweep_rows(list, rates, n - 1, i);
        let r = choose|r: Seq<char>| #[trigger]
            reads(sweep_lines_text(list, rates, n - 1), r) && sweep_told(r, list[i], rates[i]);
        assert(reads(sweep_lines_text(list, rates, n), r));
        assert(reads(top_lines_text(list, rates, n), top));
    }
}

/// What is shown of a sweep: every policy with its capacity, and the first three of them
/// again as the best.
pub proof fn law_sweep_shown(
    list: Seq<CacheSweepRow>,
    rates: Seq<Seq<char>>,
    keys: nat,
    iterations: nat,
    i: int,
)
    requires
        0 <= i < list.len(),
    ensures
        ({
            let s = sweep_shown_text(list, rates, keys, iterations);
            &&& reads(s, "  Workload:  "@ + decimal(keys) + " unique objects, "@)
            &&& reads(s, " unique objects, "@ + decimal(iterations) + " iterations\n\n"@)
            &&& exists|row: Seq<char>| #[trigger]
                reads(s, row) && sweep_told(row, list[i], rates[i])
            &&& i < 3 ==> reads(
                s,
                "    "@ + decimal((i + 1) as nat) + ". "@ + list[i].algorithm@ + " @ cap="@
                    + decimal(list[i].capacity as nat) + " → "@ + rates[i] + "% hit rate\n"@,
            )
        }),
{
    broadcast use group_reads;

    let n = list.len() as int;
    lemma_sweep_rows(list, rates, n, i);
    let row = choose|row: Seq<char>| #[trigger]
        reads(sweep_lines_text(list, rates, n), row) && sweep_told(row, list[i], rates[i]);
    let s = sweep_shown_text(list, rates, keys, iterations);
    assert(reads(s, row));
    if i < 3 {
        lemma_sweep_rows(list, rates, crate::client::top_len(list.len()), i);
    }
    let work = crate::client_texts::workload_line_text(keys, iterations);
    assert(reads(s, work));
    lemma_reads_through(s, work, "  Workload:  "@ + decimal(keys) + " unique objects, "@);
    lemma_reads_through(s, work, " unique objects, "@ + decimal(iterations) + " iterations\n\n"@);
}

/// The lines on the way of an object tell what they are about.
pub proof fn law_transfers_shown(
    file: Seq<char>,
    name: Seq<char>,
    key: Seq<char>,
    size: nat,
    kind: Seq<char>,
    start: nat,
    count: nat,
    code: Seq<char>,
    message: Seq<char>,
)
    requires
        count > 0,
    ensures
        reads(uploading_text(file, size, kind, name), "Uploading '"@ + file + "' ("@),
        reads(uploading_text(file, size, kind, name), "' ("@ + decimal(size) + " bytes, type="@),
        reads(uploading_text(file, size, kind, name), " bytes, type="@ + kind + ") as '"@),
        reads(uploading_text(file, size, kind, name), ") as '"@ + name + "'...\n"@),
        reads(wrote_text(size, start, count), "  Wrote "@ + decimal(size)),
        reads(wrote_text(size, start, count), decimal(start) + "-"@ + decimal(
            (start + count - 1) as nat,
        )),
        reads(downloading_text(key), "Downloading '"@ + key + "'...\n"@),
        reads(downloaded_text(key, file, size, kind), "✓ Downloaded '"@ + key + "' -> '"@),
        reads(downloaded_text(key, file, size, kind), "' -> '"@ + file + "' ("@),
        reads(downloaded_text(key, file, size, kind), "' ("@ + decimal(size) + " bytes, type="@),
        reads(downloaded_text(key, file, size, kind), " bytes, type="@ + kind + ")\n"@),
        reads(error_line_text(code, message), "Error ["@ + code + "]: "@),
        reads(error_line_text(code, message), "]: "@ + message + "\n"@),
        reads(search_error_line_text(code, message), "错误 ["@ + code + "]: "@),
        reads(search_error_line_text(code, message), "]: "@ + message + "\n"@),
{
    broadcast use group_reads;

}

/// A duration is told in hours and minutes, in minutes and seconds, or in seconds: in the
/// first two that are not zero.
pub proof fn law_uptime(h: nat, m: nat, s: nat)
    requires
        m < 60,
        s < 60,
    ensures
        ({
            let t = uptime_text(3600 * h + 60 * m + s);
            &&& h > 0 ==> t == decimal(h) + " 时 "@ + decimal(m) + " 分"@
            &&& h == 0 && m > 0 ==> t == decimal(m) + " 分 "@ + decimal(s) + " 秒"@
            &&& h == 0 && m == 0 ==> t == decimal(s) + " 秒"@
        }),
{
}

/// The units of sizes.
pub open spec fn unit_of(k: int) -> (nat, Seq<char>) {
    if k == 1 {
        (1024, "KB"@)
    } else if k == 2 {
        (1048576, "MB"@)
    } else if k == 3 {
        (1073741824, "GB"@)
    } else {
        (1099511627776, "TB"@)
    }
}

/// A size is told in bytes below 1024, and else with two decimals in the largest unit
/// that is not larger than it, off by at most half a hundredth of the unit. Sizes of 2 to
/// the 53 and more are rounded before that.
pub proof fn law_size(bytes: nat, k: int)
    requires
        bytes < 0x20_0000_0000_0000,
        1 <= k <= 4,
    ensures
        bytes < 1024 ==> size_text(bytes) == decimal(bytes) + " B"@,
        unit_of(k).0 <= bytes && (k == 4 || bytes < unit_of(k + 1).0) ==> exists|h: nat|
            {
                &&& -(unit_of(k).0 as int) <= 2 * (h * unit_of(k).0 - 100 * bytes)
                    <= unit_of(k).0 as int
                &&& size_text(bytes) == #[trigger] decimal(h / 100) + seq![
                    '.',
                    digit(h / 10 % 10),
                    digit(h % 10),
                ] + " "@ + unit_of(k).1
            },
{
    lemma_float_exact(bytes);
    if bytes < 1024 {
        reveal_strlit(" B");
        reveal_strlit(" ");
        reveal_strlit("B");
        assert(" "@ + "B"@ =~= " B"@);
        assert(decimal(bytes) + " "@ + "B"@ =~= decimal(bytes) + " B"@);
    }
    reveal_with_fuel(scale, 6);
    reveal_with_fuel(kilo, 6);
    let (unit, name) = unit_of(k);
    if unit <= bytes && (k == 4 || bytes < unit_of(k + 1).0) {
        assert(scale(bytes, 4) == k);
        assert(kilo(k as nat) == unit);
        let h = rounded(100 * bytes, unit);
        let num = 100 * bytes;
        vstd::arithmetic::div_mod::lemma_fundamental_div_mod(num as int, unit as int);
        let q = num / unit;
        let r = num % unit;
        assert(unit * (q + 1) == unit * q + unit) by (nonlinear_arith);
        assert(h * unit == unit * h) by (nonlinear_arith);
        assert(size_text(bytes) == decimal(h / 100) + seq!['.', digit(h / 10 % 10), digit(h % 10)]
            + " "@ + name);
    }
}

/// Which policy a name stands for: anything but the other two stands for LRU.
pub proof fn law_algorithm_named(lower: Seq<char>)
    ensures
        algorithm_named(lower) is Fifo <==> lower == "fifo"@,
        algorithm_named(lower) is Lfu <==> lower == "lfu"@,
        lower == "lru"@ ==> algorithm_named(lower) is Lru,
        algorithm_named("lru"@) is Lru,
{
    reveal_strlit("fifo");
    reveal_strlit("lfu");
    reveal_strlit("lru");
    assert("fifo"@.len() == 4 && "lfu"@.len() == 3 && "lru"@.len() == 3);
    assert("lfu"@[1] == 'f' && "lru"@[1] == 'r');
}

/// Which level a name stands for: anything but the other four stands for information.
pub proof fn law_level_named(name: Seq<char>)
    ensures
        level_named(name) is Trace <==> name == "trace"@,
        level_named(name) is Debug <==> name == "debug"@,
        level_named(name) is Warn <==> name == "warn"@,
        level_named(name) is Error <==> name == "error"@,
{
    reveal_strlit("trace");
    reveal_strlit("debug");
    reveal_strlit("warn");
    reveal_strlit("error");
    assert("trace"@[0] == 't' && "debug"@[0] == 'd' && "warn"@[0] == 'w' && "error"@[0] == 'e');
}

/// The number of a process is read from its file, whatever white space stands around it.
pub proof fn law_pid(before: Seq<char>, n: nat, after: Seq<char>)
    requires
        blank(before),
        blank(after),
        n <= u32::MAX,
    ensures
        pid_in(before + decimal(n) + after) == Some(n),
{
    law_decimal(n);
    let d = decimal(n);
    assert(is_digit(d[0]) && is_digit(d.last()));
    law_trimmed(before, d, after);
    law_number_read(n, u32::MAX as nat);
}

/// Whether an option stands in the arguments with its value behind it.
pub open spec fn passes(args: Seq<Seq<char>>, option: Seq<char>, value: Seq<char>) -> bool {
    exists|i: int| 0 <= i < args.len() - 1 && #[trigger] args[i] == option && args[i + 1] == value
}

/// A server in the background gets the settings of the client that starts it.
pub proof fn law_daemon_arguments(c: CliArgs)
    ensures
        ({
            let a = daemon_arguments(c);
            &&& a[0] == "--server"@
            &&& passes(a, "--socket-path"@, c.socket_path@)
            &&& passes(a, "--shm-name"@, c.shm_name@)
            &&& passes(a, "--shm-size"@, decimal(c.shm_size as nat))
            &&& passes(a, "--page-size"@, decimal(c.page_size as nat))
            &&& passes(a, "--store-path"@, c.store_path@)
            &&& passes(a, "--block-size"@, decimal(c.block_size as nat))
            &&& passes(a, "--total-blocks"@, decimal(c.total_blocks as nat))
            &&& passes(a, "--max-objects"@, decimal(c.max_objects as nat))
            &&& passes(a, "--cache-capacity"@, decimal(c.cache_capacity as nat))
            &&& passes(a, "--cache-warmup"@, decimal(c.cache_warmup as nat))
            &&& passes(a, "--log-level"@, c.log_level@)
        }),
{
    let a = daemon_arguments(c);
    assert(a[1] == "--socket-path"@);
    assert(a[3] == "--shm-name"@);
    assert(a[5] == "--shm-size"@);
    assert(a[7] == "--page-size"@);
    assert(a[9] == "--store-path"@);
    assert(a[11] == "--block-size"@);
    assert(a[13] == "--total-blocks"@);
    assert(a[15] == "--max-objects"@);
    assert(a[17] == "--cache-capacity"@);
    assert(a[19] == "--cache-warmup"@);
    assert(a[21] == "--log-level"@);
}

/// What is shown when something is done: the text that came, or else the one that stands
/// for it.
pub proof fn law_done_shown(message: Option<Seq<char>>, default: Seq<char>)
    ensures
        message matches Some(t) ==> reads(done_text(message, default), "✓ "@ + t + "\n"@),
        message is None ==> reads(done_text(message, default), "✓ "@ + default + "\n"@),
{
    broadcast use group_reads;

}

/// What is shown before a trial: how many requests it is about, and of which kind it is.
pub proof fn law_trying_shown(iterations: nat, sweep: bool)
    ensures
        reads(trying_text(iterations, sweep), "Running cache benchmark ("@ + decimal(iterations)),
        sweep ==> reads(trying_text(iterations, sweep), " iterations, "@ + "sweep"@),
        !sweep ==> reads(trying_text(iterations, sweep), " iterations, "@ + "standard"@),
{
    broadcast use group_reads;

}

/// Tags are taken where they are JSON; those that say nothing always.
pub proof fn law_tags(tags: Seq<char>, fault: Option<Seq<char>>)
    ensures
        tags_fault("{}"@, fault) is None,
        tags != "{}"@ ==> (tags_fault(tags, fault) is None <==> fault is None),
        tags != "{}"@ && fault is Some ==> tags_fault(tags, fault) == Some(
            ErrorView::InvalidArgument("Invalid tags JSON: "@ + fault->0),
        ),
{
}

/// What is said of a connection that there is not names the socket, and the cause where
/// there is one.
pub proof fn law_unconnected(path: Seq<char>, cause: String)
    ensures
        reads(unconnected_text(path, Unconnected::Missing), path),
        reads(unconnected_text(path, Unconnected::Refused(cause)), path + ": "@ + cause@),
        reads(unconnected_text(path, Unconnected::Late), path),
        reads(unconnected_text(path, Unconnected::Lost), path),
        reads(unheard_text(path, Unheard::Leftover(cause)), path + ": "@ + cause@),
        reads(unheard_text(path, Unheard::Directory(cause)), cause@),
        reads(unheard_text(path, Unheard::Bind(cause)), path + ": "@ + cause@),
        reads(unheard_text(path, Unheard::Share(cause)), cause@),
{
    broadcast use group_reads;

}

/// The web interface tells a size with two decimals in bytes, kilobytes, megabytes or
/// gigabytes: in the largest unit that is not larger than it, off by at most half a
/// hundredth of the unit.
pub proof fn law_scaled(bytes: nat, k: int)
    requires
        bytes < 0x20_0000_0000_0000,
        1 <= k <= 3,
    ensures
        bytes < 1024 ==> scaled_text(bytes, 3) == decimal(bytes) + seq!['.', '0', '0'] + " "@
            + "B"@,
        unit_of(k).0 <= bytes && (k == 3 || bytes < unit_of(k + 1).0) ==> exists|h: nat|
            {
                &&& -(unit_of(k).0 as int) <= 2 * (h * unit_of(k).0 - 100 * bytes)
                    <= unit_of(k).0 as int
                &&& scaled_text(bytes, 3) == #[trigger] decimal(h / 100) + seq![
                    '.',
                    digit(h / 10 % 10),
                    digit(h % 10),
                ] + " "@ + unit_of(k).1
            },
{
    lemma_float_exact(bytes);
    reveal_with_fuel(scale, 6);
    reveal_with_fuel(kilo, 6);
    if bytes < 1024 {
        assert(rounded(100 * bytes, 1) == 100 * bytes);
        assert(digit(0) == '0');
    }
    let (unit, name) = unit_of(k);
    if unit <= bytes && (k == 3 || bytes < unit_of(k + 1).0) {
        assert(scale(bytes, 3) == k);
        assert(kilo(k as nat) == unit);
        let h = rounded(100 * bytes, unit);
        let num = 100 * bytes;
        vstd::arithmetic::div_mod::lemma_fundamental_div_mod(num as int, unit as int);
        let q = num / unit;
        assert(unit * (q + 1) == unit * q + unit) by (nonlinear_arith);
        assert(h * unit == unit * h) by (nonlinear_arith);
        assert(scaled_text(bytes, 3) == decimal(h / 100) + seq![
            '.',
            digit(h / 10 % 10),
            digit(h % 10),
        ] + " "@ + name);
    }
}

/// What is fetched goes to the path that was given, or else to a file of its name.
pub proof fn law_target(path: String, name: Seq<char>)
    ensures
        target(Some(path), name) == path@,
        target(None, name) == name,
{
}

} // verus!
