//! What the client shows.
use crate::ipc::{CacheBenchmarkEntry, CacheSweepRow, StatusReport};
use crate::metadata::{ObjectInfo, ObjectInfoView};
use crate::sizes::{human_readable_size, size_text};
use crate::text::{decimal, push_decimal};
use crate::words::{padded, push_padded};
use vstd::prelude::*;
use vstd::string::*;
use vstd::utf8::*;

verus! {

/// The decimal notation of a number.
pub fn number(n: u64) -> (r: String)
    ensures
        r@ == decimal(n as nat),
{
    let mut out = String::new();
    push_decimal(&mut out, n);
    assert(out@ =~= decimal(n as nat));
    out
}

/// Whether a name can be shown in a column: if it is long, its first 20 bytes are
/// whole characters.
pub open spec fn nameable(name: Seq<char>) -> bool {
    encode_utf8(name).len() > 23 ==> is_char_boundary(encode_utf8(name), 20)
}

/// A name as it stands in a column: a long one is cut, with three dots behind it.
pub open spec fn short_name(name: Seq<char>) -> Seq<char> {
    if encode_utf8(name).len() > 23 {
        decode_utf8(encode_utf8(name).take(20)) + "..."@
    } else {
        name
    }
}

/// Whether a name can be shown in a column.
pub fn is_nameable(name: &str) -> (r: bool)
    ensures
        r == nameable(name@),
{
    name.as_bytes().len() <= 23 || name.is_char_boundary(20)
}

fn name_column(name: &str) -> (r: String)
    requires
        nameable(name@),
    ensures
        r@ == short_name(name@),
{
    if name.as_bytes().len() > 23 {
        let (front, _) = name.split_at(20);
        proof {
            encode_utf8_decode_utf8(front@);
            assert(encode_utf8(name@).subrange(0, 20) =~= encode_utf8(name@).take(20));
        }
        let mut out = front.to_owned();
        out.append("...");
        out
    } else {
        name.to_owned()
    }
}

/// What is shown of a refusal.
pub open spec fn error_line_text(code: Seq<char>, message: Seq<char>) -> Seq<char> {
    "Error ["@ + code + "]: "@ + message + "\n"@
}

/// What is shown of a refusal.
pub fn error_line(code: &str, message: &str) -> (r: String)
    ensures
        r@ == error_line_text(code@, message@),
{
    let mut out = "Error [".to_owned();
    out.append(code);
    out.append("]: ");
    out.append(message);
    out.append("\n");
    out
}

/// What is shown of a refused search.
pub open spec fn search_error_line_text(code: Seq<char>, message: Seq<char>) -> Seq<char> {
    "错误 ["@ + code + "]: "@ + message + "\n"@
}

/// What is shown of a refused search.
pub fn search_error_line(code: &str, message: &str) -> (r: String)
    ensures
        r@ == search_error_line_text(code@, message@),
{
    let mut out = "错误 [".to_owned();
    out.append(code);
    out.append("]: ");
    out.append(message);
    out.append("\n");
    out
}

/// What is shown before an upload.
pub open spec fn uploading_text(file: Seq<char>, size: nat, content_type: Seq<char>, name: Seq<char>) -> Seq<char> {
    "Uploading '"@ + file + "' ("@ + decimal(size) + " bytes, type="@ + content_type
        + ") as '"@ + name + "'...\n"@
}

/// What is shown before an upload.
pub fn uploading(file: &str, size: u64, content_type: &str, name: &str) -> (r: String)
    ensures
        r@ == uploading_text(file@, size as nat, content_type@, name@),
{
    let mut out = "Uploading '".to_owned();
    out.append(file);
    out.append("' (");
    push_decimal(&mut out, size);
    out.append(" bytes, type=");
    out.append(content_type);
    out.append(") as '");
    out.append(name);
    out.append("'...\n");
    out
}

/// What is shown when the data stands in the shared pages.
pub open spec fn wrote_text(size: nat, start: nat, count: nat) -> Seq<char> {
    "  Wrote "@ + decimal(size) + " bytes to shared memory (pages "@ + decimal(start)
        + "-"@ + decimal((start + count - 1) as nat) + ")\n"@
}

/// What is shown when the data stands in the shared pages.
pub fn wrote(size: u64, start: u32, count: u32) -> (r: String)
    requires
        start + count >= 1,
    ensures
        r@ == wrote_text(size as nat, start as nat, count as nat),
{
    let mut out = "  Wrote ".to_owned();
    push_decimal(&mut out, size);
    out.append(" bytes to shared memory (pages ");
    push_decimal(&mut out, start as u64);
    out.append("-");
    push_decimal(&mut out, start as u64 + count as u64 - 1);
    out.append(")\n");
    out
}

/// What is shown of an object that was stored.
pub open spec fn stored_text(info: ObjectInfoView) -> Seq<char> {
    "\n✓ Object stored successfully!\n  UUID:        "@ + info.uuid + "\n  Name:        "@
        + info.name + "\n  Size:        "@ + decimal(info.size as nat) + " ("@
        + size_text(info.size as nat) + ")\n  Type:        "@ + info.content_type
        + "\n  Created:     "@ + info.created_at + "\n  Tags:        "@ + info.tags
        + "\n  Data blocks: "@ + decimal(info.block_count as nat) + "\n"@
}

/// What is shown of an object that was stored.
pub fn stored(info: &ObjectInfo) -> (r: String)
    ensures
        r@ == stored_text(info@),
{
    let mut out = "\n✓ Object stored successfully!\n  UUID:        ".to_owned();
    out.append(info.uuid.as_str());
    out.append("\n  Name:        ");
    out.append(info.name.as_str());
    out.append("\n  Size:        ");
    push_decimal(&mut out, info.size);
    out.append(" (");
    out.append(human_readable_size(info.size).as_str());
    out.append(")\n  Type:        ");
    out.append(info.content_type.as_str());
    out.append("\n  Created:     ");
    out.append(info.created_at.as_str());
    out.append("\n  Tags:        ");
    out.append(info.tags.as_str());
    out.append("\n  Data blocks: ");
    push_decimal(&mut out, info.block_count as u64);
    out.append("\n");
    out
}

/// What is shown before a download.
pub open spec fn downloading_text(key: Seq<char>) -> Seq<char> {
    "Downloading '"@ + key + "'...\n"@
}

/// What is shown before a download.
pub fn downloading(key: &str) -> (r: String)
    ensures
        r@ == downloading_text(key@),
{
    let mut out = "Downloading '".to_owned();
    out.append(key);
    out.append("'...\n");
    out
}

/// What is shown after a download.
pub open spec fn downloaded_text(key: Seq<char>, path: Seq<char>, size: nat, content_type: Seq<char>) -> Seq<char> {
    "✓ Downloaded '"@ + key + "' -> '"@ + path + "' ("@ + decimal(size) + " bytes, type="@
        + content_type + ")\n"@
}

/// What is shown after a download.
pub fn downloaded(key: &str, path: &str, size: u64, content_type: &str) -> (r: String)
    ensures
        r@ == downloaded_text(key@, path@, size as nat, content_type@),
{
    let mut out = "✓ Downloaded '".to_owned();
    out.append(key);
    out.append("' -> '");
    out.append(path);
    out.append("' (");
    push_decimal(&mut out, size);
    out.append(" bytes, type=");
    out.append(content_type);
    out.append(")\n");
    out
}

/// The row of an object in a long list.
pub open spec fn long_row_text(info: ObjectInfoView) -> Seq<char> {
    padded(info.uuid, 38) + " "@ + padded(short_name(info.name), 24) + " "@
        + padded(size_text(info.size as nat), 12) + " "@ + padded(info.created_at, 20) + " "@
        + padded(info.content_type, 16) + "\n"@
}

/// The row of an object in a long list.
pub fn long_row(info: &ObjectInfo) -> (r: String)
    requires
        nameable(info@.name),
    ensures
        r@ == long_row_text(info@),
{
    let mut out = String::new();
    push_padded(&mut out, info.uuid.as_str(), 38);
    out.append(" ");
    push_padded(&mut out, name_column(info.name.as_str()).as_str(), 24);
    out.append(" ");
    push_padded(&mut out, human_readable_size(info.size).as_str(), 12);
    out.append(" ");
    push_padded(&mut out, info.created_at.as_str(), 20);
    out.append(" ");
    push_padded(&mut out, info.content_type.as_str(), 16);
    out.append("\n");
    assert(out@ =~= long_row_text(info@));
    out
}

/// The row of an object in a short list.
pub open spec fn short_row_text(info: ObjectInfoView) -> Seq<char> {
    padded(info.uuid, 38) + " "@ + padded(short_name(info.name), 24) + " "@
        + padded(size_text(info.size as nat), 12) + "\n"@
}

/// The row of an object in a short list.
pub fn short_row(info: &ObjectInfo) -> (r: String)
    requires
        nameable(info@.name),
    ensures
        r@ == short_row_text(info@),
{
    let mut out = String::new();
    push_padded(&mut out, info.uuid.as_str(), 38);
    out.append(" ");
    push_padded(&mut out, name_column(info.name.as_str()).as_str(), 24);
    out.append(" ");
    push_padded(&mut out, human_readable_size(info.size).as_str(), 12);
    out.append("\n");
    assert(out@ =~= short_row_text(info@));
    out
}

/// The headings of a long list.
pub open spec fn long_head_text() -> Seq<char> {
    padded("UUID"@, 38) + " "@ + padded("Name"@, 24) + " "@ + padded("Size"@, 12) + " "@
        + padded("Created"@, 20) + " "@ + padded("Type"@, 16) + "\n"@
}

pub fn long_head() -> (r: String)
    ensures
        r@ == long_head_text(),
{
    let mut out = String::new();
    push_padded(&mut out, "UUID", 38);
    out.append(" ");
    push_padded(&mut out, "Name", 24);
    out.append(" ");
    push_padded(&mut out, "Size", 12);
    out.append(" ");
    push_padded(&mut out, "Created", 20);
    out.append(" ");
    push_padded(&mut out, "Type", 16);
    out.append("\n");
    assert(out@ =~= long_head_text());
    out
}

/// The headings of a short list.
pub open spec fn short_head_text() -> Seq<char> {
    padded("UUID"@, 38) + " "@ + padded("Name"@, 24) + " "@ + padded("Size"@, 12) + "\n"@
}

pub fn short_head() -> (r: String)
    ensures
        r@ == short_head_text(),
{
    let mut out = String::new();
    push_padded(&mut out, "UUID", 38);
    out.append(" ");
    push_padded(&mut out, "Name", 24);
    out.append(" ");
    push_padded(&mut out, "Size", 12);
    out.append("\n");
    assert(out@ =~= short_head_text());
    out
}

/// The headings of what a search found.
pub open spec fn search_head_text() -> Seq<char> {
    padded("UUID"@, 38) + " "@ + padded("名称"@, 24) + " "@ + padded("大小"@, 12) + " "@
        + padded("创建时间"@, 20) + " "@ + padded("类型"@, 16) + "\n"@
}

pub fn search_head() -> (r: String)
    ensures
        r@ == search_head_text(),
{
    let mut out = String::new();
    push_padded(&mut out, "UUID", 38);
    out.append(" ");
    push_padded(&mut out, "名称", 24);
    out.append(" ");
    push_padded(&mut out, "大小", 12);
    out.append(" ");
    push_padded(&mut out, "创建时间", 20);
    out.append(" ");
    push_padded(&mut out, "类型", 16);
    out.append("\n");
    assert(out@ =~= search_head_text());
    out
}

/// What is shown of the figures of the server. `rate` is the hit rate in percent.
pub open spec fn status_text(t: StatusReport, rate: Seq<char>) -> Seq<char> {
    "=== MiniOS Server Status ===\n\n  Uptime:           "@
        + decimal((t.uptime_seconds / 60) as nat) + "m "@
        + decimal((t.uptime_seconds % 60) as nat)
        + "s\n\n  --- Storage ---\n  Objects:          "@ + decimal(t.object_count as nat)
        + " / "@ + decimal(t.max_objects as nat) + "\n  Capacity:         "@
        + size_text(t.used_capacity as nat) + " / "@ + size_text(t.total_capacity as nat)
        + " ("@ + size_text(t.free_capacity as nat) + " free)\n  Data blocks:      "@
        + decimal(t.used_blocks as nat) + " used / "@ + decimal(t.free_blocks as nat)
        + " free / "@ + decimal(t.total_blocks as nat) + " total ("@
        + size_text(t.block_size as nat) + " each)\n\n  --- Cache ---\n  Algorithm:        "@
        + t.cache_algorithm@ + "\n  Entries:          "@ + decimal(t.cache_size as nat)
        + " / "@ + decimal(t.cache_capacity as nat) + "\n  Hits:             "@
        + decimal(t.cache_hits as nat) + "\n  Misses:           "@
        + decimal(t.cache_misses as nat) + "\n  Evictions:        "@
        + decimal(t.cache_evictions as nat) + "\n  Hit rate:         "@ + rate
        + "%\n\n  --- Shared Memory ---\n  Pages:            "@
        + decimal(t.shm_pages_free as nat) + " free / "@ + decimal(t.shm_pages_total as nat)
        + " total\n"@
}

/// What is shown of the figures of the server. `rate` is the hit rate in percent.
pub fn status(t: &StatusReport, rate: &str) -> (r: String)
    ensures
        r@ == status_text(*t, rate@),
{
    let mut out = "=== MiniOS Server Status ===\n\n  Uptime:           ".to_owned();
    push_decimal(&mut out, t.uptime_seconds / 60);
    out.append("m ");
    push_decimal(&mut out, t.uptime_seconds % 60);
    out.append("s\n\n  --- Storage ---\n  Objects:          ");
    push_decimal(&mut out, t.object_count);
    out.append(" / ");
    push_decimal(&mut out, t.max_objects);
    out.append("\n  Capacity:         ");
    out.append(human_readable_size(t.used_capacity).as_str());
    out.append(" / ");
    out.append(human_readable_size(t.total_capacity).as_str());
    out.append(" (");
    out.append(human_readable_size(t.free_capacity).as_str());
    out.append(" free)\n  Data blocks:      ");
    push_decimal(&mut out, t.used_blocks);
    out.append(" used / ");
    push_decimal(&mut out, t.free_blocks);
    out.append(" free / ");
    push_decimal(&mut out, t.total_blocks);
    out.append(" total (");
    out.append(human_readable_size(t.block_size as u64).as_str());
    out.append(" each)\n\n  --- Cache ---\n  Algorithm:        ");
    out.append(t.cache_algorithm.as_str());
    out.append("\n  Entries:          ");
    push_decimal(&mut out, t.cache_size as u64);
    out.append(" / ");
    push_decimal(&mut out, t.cache_capacity as u64);
    out.append("\n  Hits:             ");
    push_decimal(&mut out, t.cache_hits);
    out.append("\n  Misses:           ");
    push_decimal(&mut out, t.cache_misses);
    out.append("\n  Evictions:        ");
    push_decimal(&mut out, t.cache_evictions);
    out.append("\n  Hit rate:         ");
    out.append(rate);
    out.append("%\n\n  --- Shared Memory ---\n  Pages:            ");
    push_decimal(&mut out, t.shm_pages_free as u64);
    out.append(" free / ");
    push_decimal(&mut out, t.shm_pages_total as u64);
    out.append(" total\n");
    out
}

/// What is shown of the terms of a trial.
pub open spec fn workload_line_text(keys: nat, iterations: nat) -> Seq<char> {
    "  Workload:  "@ + decimal(keys) + " unique objects, "@ + decimal(iterations)
        + " iterations\n\n"@
}

/// What is shown of the terms of a trial.
pub fn workload_line(keys: usize, iterations: usize) -> (r: String)
    ensures
        r@ == workload_line_text(keys as nat, iterations as nat),
{
    let mut out = "  Workload:  ".to_owned();
    push_decimal(&mut out, keys as u64);
    out.append(" unique objects, ");
    push_decimal(&mut out, iterations as u64);
    out.append(" iterations\n\n");
    out
}

/// The row of a policy in a trial.
pub open spec fn trial_line_text(rank: Seq<char>, b: CacheBenchmarkEntry, rate: Seq<char>) -> Seq<char> {
    "  "@ + padded(rank, 6) + " "@ + padded(b.algorithm@, 12) + " "@
        + padded(decimal(b.hits as nat), 12) + " "@ + padded(decimal(b.misses as nat), 12)
        + " "@ + rate + "%\n"@
}

/// The row of a policy in a trial.
pub fn trial_line(rank: &str, b: &CacheBenchmarkEntry, rate: &str) -> (r: String)
    ensures
        r@ == trial_line_text(rank@, *b, rate@),
{
    let mut out = "  ".to_owned();
    push_padded(&mut out, rank, 6);
    out.append(" ");
    push_padded(&mut out, b.algorithm.as_str(), 12);
    out.append(" ");
    push_padded(&mut out, number(b.hits).as_str(), 12);
    out.append(" ");
    push_padded(&mut out, number(b.misses).as_str(), 12);
    out.append(" ");
    out.append(rate);
    out.append("%\n");
    out
}

/// What is shown of the best policy.
pub open spec fn best_line_text(b: CacheBenchmarkEntry, rate: Seq<char>) -> Seq<char> {
    "  Best algorithm: "@ + b.algorithm@ + " ("@ + rate + "% hit rate)\n"@
}

/// What is shown of the best policy.
pub fn best_line(b: &CacheBenchmarkEntry, rate: &str) -> (r: String)
    ensures
        r@ == best_line_text(*b, rate@),
{
    let mut out = "  Best algorithm: ".to_owned();
    out.append(b.algorithm.as_str());
    out.append(" (");
    out.append(rate);
    out.append("% hit rate)\n");
    out
}

/// The row of a policy with one capacity.
pub open spec fn sweep_line_text(row: CacheSweepRow, rate: Seq<char>) -> Seq<char> {
    "  "@ + padded(decimal(row.capacity as nat), 8) + " "@ + padded(row.algorithm@, 8)
        + " "@ + padded(decimal(row.hits as nat), 10) + " "@
        + padded(decimal(row.misses as nat), 10) + " "@ + rate + "%\n"@
}

/// The row of a policy with one capacity.
pub fn sweep_line(row: &CacheSweepRow, rate: &str) -> (r: String)
    ensures
        r@ == sweep_line_text(*row, rate@),
{
    let mut out = "  ".to_owned();
    push_padded(&mut out, number(row.capacity as u64).as_str(), 8);
    out.append(" ");
    push_padded(&mut out, row.algorithm.as_str(), 8);
    out.append(" ");
    push_padded(&mut out, number(row.hits).as_str(), 10);
    out.append(" ");
    push_padded(&mut out, number(row.misses).as_str(), 10);
    out.append(" ");
    out.append(rate);
    out.append("%\n");
    out
}

/// One of the best policies with their capacities.
pub open spec fn top_line_text(place: nat, row: CacheSweepRow, rate: Seq<char>) -> Seq<char> {
    "    "@ + decimal(place) + ". "@ + row.algorithm@ + " @ cap="@
        + decimal(row.capacity as nat) + " → "@ + rate + "% hit rate\n"@
}

/// One of the best policies with their capacities.
pub fn top_line(place: usize, row: &CacheSweepRow, rate: &str) -> (r: String)
    ensures
        r@ == top_line_text(place as nat, *row, rate@),
{
    let mut out = "    ".to_owned();
    push_decimal(&mut out, place as u64);
    out.append(". ");
    out.append(row.algorithm.as_str());
    out.append(" @ cap=");
    push_decimal(&mut out, row.capacity as u64);
    out.append(" → ");
    out.append(rate);
    out.append("% hit rate\n");
    out
}

} // verus!
