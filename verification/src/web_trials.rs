//! Trying the policies through the web interface.
use crate::cache::{accesses_of, texts_of, CacheView, ObjectCache};
use crate::metadata::{ObjectInfo, ObjectInfoView};
use crate::pages::{page, page_text};
use crate::policies::algorithm_name;
use crate::rates::{exact_percent_text, show_exact_percent};
use crate::server::{can_try, is_triable, uuids_from, uuids_of};
use crate::storage::{infos_of, ObjectStorage, StoreView};
use crate::text::{chars_of, decimal, push_decimal, string_of};
use crate::trials::{run_trials, trials, TrialRow};
use crate::web::{list_all, listed, respond_ok, shows, WebReply};
use crate::words::part;
use crate::workload::{generate_weighted_workload, law_workload, workload};
use vstd::hash_map::*;
use vstd::prelude::*;
use vstd::slice::*;
use vstd::string::*;
use vstd::utf8::*;

verus! {

/// How many accesses a trial of the web interface makes.
pub const WEB_ITERATIONS: usize = 200;

pub const TRIAL_TABLE: &'static str = "<h2>缓存算法对比</h2>
        <table><tr><th>算法</th><th>命中</th><th>未命中</th><th>命中率</th></tr>";

pub const TRIAL_BEST: &'static str = "</table>
        <p style='margin-top:1em'><strong>最优算法：";

pub const TRIAL_TERMS: &'static str = "% 命中率）</p>
        <p style='color:#8590a6;font-size:.85em'>
        测试条件：";

pub const TRIAL_USES: &'static str = "，冷启动（无预加载）<br>
        下载记录：";

pub const TRIAL_END: &'static str = "<br>
        说明：权重 = 实际下载次数 + 1，你越常下载的文件在测试中被访问的次数就越多
        </p>
        <a class='btn-back' href='/manage'>返回</a>";

pub const NO_TRIAL: &'static str = "<div class='empty'>暂无对象，请先上传一些文件后再进行测试</div><a class='btn-back' href='/manage'>返回</a>";

/// How often an object was asked for, and the front of its identifier.
pub open spec fn uses_of(uuids: Seq<Seq<char>>, accesses: Map<Seq<char>, u64>) -> Seq<
    (u64, Seq<char>),
> {
    Seq::new(uuids.len(), |i: int| (accesses_of(accesses, uuids[i]), front_of(uuids[i])))
}

/// The first eight characters, or all where there are fewer.
pub open spec fn front_of(uuid: Seq<char>) -> Seq<char> {
    if uuid.len() < 8 {
        uuid
    } else {
        uuid.take(8)
    }
}

/// The first place from `i` on whose object was asked for less often than `x`.
pub open spec fn uses_from(list: Seq<(u64, Seq<char>)>, x: (u64, Seq<char>), i: int) -> int
    decreases list.len() - i,
{
    if i >= list.len() || list[i].0 < x.0 {
        i
    } else {
        uses_from(list, x, i + 1)
    }
}

/// The objects by how often they were asked for, most first. Objects with the same
/// number keep their order.
pub open spec fn most_used(list: Seq<(u64, Seq<char>)>) -> Seq<(u64, Seq<char>)>
    decreases list.len(),
{
    if list.len() == 0 {
        list
    } else {
        let front = most_used(list.drop_last());
        front.insert(uses_from(front, list.last(), 0), list.last())
    }
}

/// The first `n` objects with how often they were asked for, as a text.
pub open spec fn uses_text(list: Seq<(u64, Seq<char>)>, n: int) -> Seq<char>
    decreases n,
{
    if n <= 0 {
        Seq::empty()
    } else {
        let front = uses_text(list, n - 1);
        let gap = if n > 1 {
            front + ", "@
        } else {
            front
        };
        gap + list[n - 1].1 + "...(下载 "@ + decimal(list[n - 1].0 as nat) + " 次)"@
    }
}

/// The list, with texts as sequences.
pub open spec fn uses_view(list: Seq<(u64, String)>) -> Seq<(u64, Seq<char>)> {
    Seq::new(list.len(), |i: int| (list[i].0, list[i].1@))
}

fn count_uses(uuids: &Vec<String>, accesses: &StringHashMap<u64>) -> (r: Vec<(u64, String)>)
    ensures
        uses_view(r@) == most_used(uses_of(texts_of(uuids@), accesses@)),
{
    let ghost all = uses_of(texts_of(uuids@), accesses@);
    let mut out: Vec<(u64, String)> = Vec::new();
    assert(uses_view(out@) =~= Seq::empty());
    assert(all.take(0) =~= Seq::empty());
    let mut i: usize = 0;
    while i < uuids.len()
        invariant
            i <= uuids@.len(),
            all == uses_of(texts_of(uuids@), accesses@),
            all.len() == uuids@.len(),
            uses_view(out@) == most_used(all.take(i as int)),
        decreases uuids@.len() - i,
    {
        let n: u64 = match accesses.get(uuids[i].as_str()) {
            Some(n) => *n,
            None => 0,
        };
        let chars = chars_of(uuids[i].as_str());
        let len = if chars.len() < 8 {
            chars.len()
        } else {
            8
        };
        let front = part(chars.as_slice(), 0, len);
        assert(front@ =~= front_of(uuids@[i as int]@));
        let short = string_of(front.as_slice());
        let ghost x = (n, short@);
        let ghost sorted = uses_view(out@);
        proof {
            assert(all[i as int] == x);
            assert(all.take(i + 1).drop_last() =~= all.take(i as int));
            assert(all.take(i + 1).last() == x);
        }
        let mut k: usize = 0;
        while k < out.len() && out[k].0 >= n
            invariant
                k <= out@.len(),
                sorted == uses_view(out@),
                x.0 == n,
                uses_from(sorted, x, 0) == uses_from(sorted, x, k as int),
            decreases out@.len() - k,
        {
            assert(sorted[k as int].0 == out@[k as int].0);
            k += 1;
        }
        assert(k < out@.len() ==> sorted[k as int].0 == out@[k as int].0);
        assert(uses_from(sorted, x, 0) == k);
        out.insert(k, (n, short));
        assert(uses_view(out@) =~= sorted.insert(k as int, x));
        i += 1;
    }
    assert(all.take(i as int) =~= all);
    out
}

fn show_uses(list: &Vec<(u64, String)>) -> (r: String)
    ensures
        r@ == uses_text(uses_view(list@), list@.len() as int),
{
    let ghost all = uses_view(list@);
    let mut out = String::new();
    let mut i: usize = 0;
    while i < list.len()
        invariant
            i <= list@.len(),
            all == uses_view(list@),
            out@ == uses_text(all, i as int),
        decreases list@.len() - i,
    {
        assert(all[i as int] == (list@[i as int].0, list@[i as int].1@));
        if i > 0 {
            out.append(", ");
        }
        out.append(list[i].1.as_str());
        out.append("...(下载 ");
        push_decimal(&mut out, list[i].0);
        out.append(" 次)");
        i += 1;
    }
    out
}

/// How many of a policy's accesses were hits, in percent.
pub open spec fn row_percent(row: TrialRow) -> Seq<char> {
    exact_percent_text(row.hits as nat, (row.hits + row.misses) as nat)
}

fn row_rate(row: &TrialRow) -> (r: String)
    ensures
        r@ == row_percent(*row),
{
    show_exact_percent(row.hits, row.hits as u128 + row.misses as u128)
}

/// The row of a policy.
pub open spec fn trial_row_text(row: TrialRow) -> Seq<char> {
    "<tr><td><strong>"@ + algorithm_name(row.algorithm) + "</strong></td><td>"@
        + decimal(row.hits as nat) + "</td><td>"@ + decimal(row.misses as nat) + "</td><td>"@
        + row_percent(row) + "%</td></tr>"@
}

fn trial_row(row: &TrialRow) -> (r: String)
    ensures
        r@ == trial_row_text(*row),
{
    let mut out = "<tr><td><strong>".to_owned();
    out.append(row.algorithm.as_str());
    out.append("</strong></td><td>");
    push_decimal(&mut out, row.hits);
    out.append("</td><td>");
    push_decimal(&mut out, row.misses);
    out.append("</td><td>");
    out.append(row_rate(row).as_str());
    out.append("%</td></tr>");
    out
}

/// The rows of the first `n` policies.
pub open spec fn trial_rows_text(rows: Seq<TrialRow>, n: int) -> Seq<char>
    decreases n,
{
    if n <= 0 {
        Seq::empty()
    } else {
        trial_rows_text(rows, n - 1) + trial_row_text(rows[n - 1])
    }
}

/// Which of the first `n` policies did best; the first of several; none where there
/// was no hit.
pub open spec fn best_of(rows: Seq<TrialRow>, n: int) -> Option<int>
    decreases n,
{
    if n <= 0 {
        None
    } else {
        let best = best_of(rows, n - 1);
        let most = match best {
            Some(j) => rows[j].hits as int,
            None => 0,
        };
        if rows[n - 1].hits > most {
            Some(n - 1)
        } else {
            best
        }
    }
}

/// How the policies did.
pub open spec fn trial_text(
    rows: Seq<TrialRow>,
    objects: nat,
    iterations: nat,
    capacity: nat,
    uses: Seq<char>,
) -> Seq<char> {
    let rows_text = trial_rows_text(rows, rows.len() as int);
    let best = best_of(rows, rows.len() as int);
    let best_name = match best {
        Some(j) => algorithm_name(rows[j].algorithm),
        None => ""@,
    };
    let best_rate = match best {
        Some(j) => row_percent(rows[j]),
        None => "0.00"@,
    };
    TRIAL_TABLE@ + rows_text + TRIAL_BEST@ + best_name + "</strong>（"@ + best_rate
        + TRIAL_TERMS@ + decimal(objects) + " 个对象，"@ + decimal(iterations) + " 次迭代，缓存容量 "@
        + decimal(capacity) + TRIAL_USES@ + uses + TRIAL_END@
}

/// Shows how the policies did.
pub fn trial_body(
    rows: &Vec<TrialRow>,
    objects: usize,
    iterations: usize,
    capacity: usize,
    uses: &str,
) -> (r: String)
    ensures
        r@ == trial_text(rows@, objects as nat, iterations as nat, capacity as nat, uses@),
{
    let mut rows_text = String::new();
    let mut best: Option<usize> = None;
    let mut most: u64 = 0;
    let mut i: usize = 0;
    while i < rows.len()
        invariant
            i <= rows@.len(),
            rows_text@ == trial_rows_text(rows@, i as int),
            match best {
                Some(j) => j < i && best_of(rows@, i as int) == Some(j as int) && most
                    == rows@[j as int].hits,
                None => best_of(rows@, i as int) is None && most == 0,
            },
        decreases rows@.len() - i,
    {
        let line = trial_row(&rows[i]);
        rows_text.append(line.as_str());
        if rows[i].hits > most {
            best = Some(i);
            most = rows[i].hits;
        }
        i += 1;
    }
    let best_name = match best {
        Some(j) => rows[j].algorithm.as_str(),
        None => "",
    };
    let best_rate = match best {
        Some(j) => row_rate(&rows[j]),
        None => "0.00".to_owned(),
    };
    let mut out = TRIAL_TABLE.to_owned();
    out.append(rows_text.as_str());
    out.append(TRIAL_BEST);
    out.append(best_name);
    out.append("</strong>（");
    out.append(best_rate.as_str());
    out.append(TRIAL_TERMS);
    push_decimal(&mut out, objects as u64);
    out.append(" 个对象，");
    push_decimal(&mut out, iterations as u64);
    out.append(" 次迭代，缓存容量 ");
    push_decimal(&mut out, capacity as u64);
    out.append(TRIAL_USES);
    out.append(uses);
    out.append(TRIAL_END);
    out
}

/// The page for a trial without any objects.
pub open spec fn no_trial_page(version: Seq<char>) -> Seq<char> {
    page_text("性能测试"@, NO_TRIAL@, false, ""@, version)
}

/// What the web interface tries: the policies with the capacity of the cache, on the
/// stored objects; nothing where there are none.
pub open spec fn web_trials(infos: Seq<ObjectInfoView>, c: CacheView) -> Option<Seq<TrialRow>> {
    if infos.len() == 0 {
        None
    } else {
        Some(
            trials(
                c.contents.capacity as usize,
                workload(uuids_of(infos), WEB_ITERATIONS as nat, c.accesses),
            ),
        )
    }
}

/// Whether the trials stay within the limits of the machine's numbers.
pub open spec fn can_try_web(infos: Seq<ObjectInfoView>, c: CacheView) -> bool {
    &&& can_try(WEB_ITERATIONS as int, infos.len() as int)
    &&& c.contents.capacity <= usize::MAX / 128
}

/// Whether the trials stay within the limits of the machine's numbers.
pub fn is_web_triable(store: &ObjectStorage, file: &[u8], cache: &ObjectCache) -> (r: bool)
    requires
        store@.sound(file@),
    ensures
        r == can_try_web(listed(store@, file@), cache@),
{
    let objects = list_all(store, file);
    is_triable(WEB_ITERATIONS, objects.len()) && cache.capacity() <= usize::MAX / 128
}

/// Tries the policies on the accesses that the objects have had.
pub fn run_web_trials(objects: &Vec<ObjectInfo>, cache: &ObjectCache) -> (r: Option<Vec<TrialRow>>)
    requires
        cache.wf(),
        can_try_web(infos_of(objects@), cache@),
    ensures
        match r {
            Some(rows) => web_trials(infos_of(objects@), cache@) == Some(rows@),
            None => web_trials(infos_of(objects@), cache@) is None,
        },
{
    assert(infos_of(objects@).len() == objects@.len());
    if objects.len() == 0 {
        return None;
    }
    let uuids = uuids_from(objects);
    let keys = generate_weighted_workload(&uuids, WEB_ITERATIONS, cache.get_access_frequencies());
    proof {
        assert(texts_of(keys@).len() == keys@.len());
        law_workload(texts_of(uuids@), WEB_ITERATIONS as nat, cache@.accesses);
    }
    Some(run_trials(cache.capacity(), &keys))
}

/// What the web interface shows of a trial of the policies.
pub open spec fn trial_page(s: StoreView, file: Seq<u8>, c: CacheView, version: Seq<char>) -> Seq<
    char,
> {
    match web_trials(listed(s, file), c) {
        None => no_trial_page(version),
        Some(rows) => {
            let uses = most_used(uses_of(uuids_of(listed(s, file)), c.accesses));
            page_text(
                "性能测试结果"@,
                trial_text(
                    rows,
                    listed(s, file).len(),
                    WEB_ITERATIONS as nat,
                    c.contents.capacity,
                    uses_text(uses, uses.len() as int),
                ),
                false,
                ""@,
                version,
            )
        },
    }
}

/// Tries the policies on the accesses that the stored objects have had, and shows how
/// they did.
pub fn web_benchmark(store: &ObjectStorage, file: &[u8], cache: &ObjectCache, version: &str) -> (r:
    WebReply)
    requires
        store@.sound(file@),
        cache.wf(),
        can_try_web(listed(store@, file@), cache@),
    ensures
        shows(r, trial_page(store@, file@, cache@, version@)),
{
    let objects = list_all(store, file);
    match run_web_trials(&objects, cache) {
        None => respond_ok(page("性能测试", NO_TRIAL, version).as_str()),
        Some(list) => {
            let uuids = uuids_from(&objects);
            let uses = count_uses(&uuids, cache.get_access_frequencies());
            assert(uses_view(uses@).len() == uses@.len());
            let body = trial_body(
                &list,
                objects.len(),
                WEB_ITERATIONS,
                cache.capacity(),
                show_uses(&uses).as_str(),
            );
            respond_ok(page("性能测试结果", body.as_str(), version).as_str())
        },
    }
}

} // verus!
