//! What the pages of the web interface tell.
use crate::cache::CacheView;
use crate::cache_model::CacheAlgorithmType;
use crate::error::{error_text, ErrorView};
use crate::metadata::ObjectInfoView;
use crate::pages::{
    dashboard_text, delete_row_text, delete_rows_text, delete_text, deleted_text, download_row_text,
    download_rows_text, download_text, exact_hit_percent, hit_percent, manage_text, object_row_text,
    object_rows_text, page_text, resized_text, used_percent,
};
use crate::policies::algorithm_name;
use crate::shm::ShmHeader;
use crate::shown_laws::{group_reads, lemma_reads_through, reads};
use crate::sizes::{scaled_text, uptime_text};
use crate::storage::StoreView;
use crate::text::decimal;
use crate::trials::TrialRow;
use crate::web::{
    delete_failed_page, deleted_page, deletions_page, downloads_page, failed_page, sends,
    stored_page, unknown_page, unreadable_page, WebReply,
};
use crate::web_laws::told;
use crate::web_trials::{
    best_of, most_used, row_percent, trial_row_text, trial_rows_text, trial_text, uses_from,
    uses_of, uses_text,
};
use vstd::prelude::*;
use vstd::string::*;
use vstd::utf8::*;

verus! {

/// A reply tells its status, its type and the length of what follows.
pub proof fn law_reply(r: WebReply, status: Seq<char>, kind: Seq<char>, text: Seq<char>)
    requires
        sends(r, status, kind, text),
    ensures
        r.body@ == encode_utf8(text),
        reads(r.head@, "HTTP/1.1 "@ + status + "\r\nContent-Type: "@),
        reads(r.head@, "\r\nContent-Type: "@ + kind + "\r\nContent-Length: "@),
        reads(
            r.head@,
            "\r\nContent-Length: "@ + decimal(r.body@.len()) + "\r\nConnection: close\r\n\r\n"@,
        ),
        r.access is None,
{
    broadcast use group_reads;

    assert(reads("HTTP/1.1 "@ + status + "\r\nContent-Type: "@, "HTTP/1.1 "@ + status + "\r\nContent-Type: "@));
}

/// A page shows its title, its body and the version, and marks the tab that it belongs
/// to.
pub proof fn law_page(
    title: Seq<char>,
    body: Seq<char>,
    auto_refresh: bool,
    active_tab: Seq<char>,
    version: Seq<char>,
)
    ensures
        ({
            let p = page_text(title, body, auto_refresh, active_tab, version);
            &&& reads(p, "<title>MiniOS - "@ + title)
            &&& reads(p, title + "</h2>"@ + body)
            &&& reads(p, body)
            &&& reads(p, version)
            &&& auto_refresh ==> reads(p, "<meta http-equiv=\"refresh\" content=\"5\">"@)
            &&& active_tab == "manage"@ ==> reads(
                p,
                ">总览</a><a href=\"/manage\""@ + " class='active'"@,
            )
            &&& active_tab == "download"@ ==> reads(
                p,
                ">管理</a><a href=\"/api/get\""@ + " class='active'"@,
            )
            &&& active_tab == "delete"@ ==> reads(
                p,
                ">下载</a><a href=\"/api/delete\""@ + " class='active'"@,
            )
        }),
{
    broadcast use group_reads;

    if auto_refresh {
        reveal_strlit("<meta http-equiv=\"refresh\" content=\"5\">");
        let p = page_text(title, body, auto_refresh, active_tab, version);
        assert(reads(p, crate::pages::REFRESH@));
    }
}

/// Whether a row of a page tells of the object.
pub open spec fn row_shows(row: Seq<char>, o: ObjectInfoView) -> bool {
    &&& reads(row, o.name)
    &&& reads(row, o.uuid)
    &&& reads(row, decimal(o.size as nat))
}

proof fn lemma_rows_show(infos: Seq<ObjectInfoView>, n: int, i: int)
    requires
        0 <= i < n <= infos.len(),
    ensures
        reads(object_rows_text(infos, n), object_row_text(infos[i])),
        reads(download_rows_text(infos, n), download_row_text(infos[i])),
        reads(delete_rows_text(infos, n), delete_row_text(infos[i])),
    decreases n,
{
    broadcast use group_reads;

    if i < n - 1 {
        lemma_rows_show(infos, n - 1, i);
    }
}

proof fn lemma_row_shows(o: ObjectInfoView)
    ensures
        row_shows(object_row_text(o), o),
        reads(object_row_text(o), decimal(o.size as nat) + " 字节</td><td>"@ + o.content_type),
        reads(object_row_text(o), "</td><td>"@ + o.created_at + "</td></tr>"@),
        row_shows(download_row_text(o), o),
        reads(
            download_row_text(o),
            "<tr><td><a class='obj-link' href='/api/get?key="@ + o.uuid + "'>"@,
        ),
        reads(download_row_text(o), "'>"@ + o.name),
        reads(download_row_text(o), o.created_at),
        row_shows(delete_row_text(o), o),
        reads(
            delete_row_text(o),
            " 字节</td><td><a class='btn-delete' href='/api/delete?key="@ + o.uuid,
        ),
{
    broadcast use group_reads;

}

/// Every object that can be fetched is listed with a link by its identifier.
pub proof fn law_downloads(infos: Seq<ObjectInfoView>, version: Seq<char>, i: int)
    requires
        0 <= i < infos.len(),
    ensures
        exists|row: Seq<char>| #[trigger]
            reads(downloads_page(infos, version), row) && row_shows(row, infos[i]) && reads(
                row,
                infos[i].created_at,
            ) && reads(row, "'>"@ + infos[i].name) && reads(
                row,
                "<tr><td><a class='obj-link' href='/api/get?key="@ + infos[i].uuid + "'>"@,
            ),
{
    broadcast use group_reads;

    lemma_rows_show(infos, infos.len() as int, i);
    lemma_row_shows(infos[i]);
    let row = download_row_text(infos[i]);
    let rows = download_rows_text(infos, infos.len() as int);
    assert(reads(download_text(infos), row));
    law_page("下载对象"@, download_text(infos), false, "download"@, version);
    lemma_reads_through(downloads_page(infos, version), download_text(infos), row);
}

/// Every object that can be deleted is listed with a link by its identifier.
pub proof fn law_deletions(infos: Seq<ObjectInfoView>, version: Seq<char>, i: int)
    requires
        0 <= i < infos.len(),
    ensures
        exists|row: Seq<char>| #[trigger]
            reads(deletions_page(infos, version), row) && row_shows(row, infos[i]) && reads(
                row,
                " 字节</td><td><a class='btn-delete' href='/api/delete?key="@ + infos[i].uuid,
            ),
{
    broadcast use group_reads;

    lemma_rows_show(infos, infos.len() as int, i);
    lemma_row_shows(infos[i]);
    let row = delete_row_text(infos[i]);
    assert(reads(delete_text(infos), row));
    law_page("删除对象"@, delete_text(infos), false, "delete"@, version);
    lemma_reads_through(deletions_page(infos, version), delete_text(infos), row);
}

/// The page to manage the objects lists every one, and tells how many there are, how
/// much room is used, and how large the cache is.
pub proof fn law_manage(s: StoreView, c: CacheView, infos: Seq<ObjectInfoView>, i: int)
    requires
        0 <= i < infos.len(),
        s.sb.free_blocks <= s.sb.total_blocks,
    ensures
        ({
            let p = manage_text(s, c, infos);
            &&& exists|row: Seq<char>| #[trigger]
                reads(p, row) && row_shows(row, infos[i]) && reads(row, infos[i].content_type)
                    && reads(row, infos[i].created_at)
            &&& reads(p, decimal(s.sb.object_count as nat) + crate::pages::MANAGE_USED@)
            &&& reads(p, crate::pages::MANAGE_USED@ + used_percent(s))
            &&& reads(p, crate::pages::MANAGE_CAPACITY@ + decimal(c.contents.capacity))
            &&& reads(p, crate::pages::MANAGE_HITS@ + hit_percent(c))
            &&& reads(
                p,
                crate::pages::MANAGE_USE@ + decimal(
                    (s.sb.total_blocks - s.sb.free_blocks) as nat,
                ) + " / "@,
            )
            &&& reads(p, " / "@ + decimal(s.sb.total_blocks as nat) + " 块（"@)
        }),
{
    broadcast use group_reads;

    lemma_rows_show(infos, infos.len() as int, i);
    lemma_row_shows(infos[i]);
    let row = object_row_text(infos[i]);
    let p = manage_text(s, c, infos);
    assert(reads(p, row));
    lemma_reads_through(
        row,
        decimal(infos[i].size as nat) + " 字节</td><td>"@ + infos[i].content_type,
        infos[i].content_type,
    );
    lemma_reads_through(
        row,
        "</td><td>"@ + infos[i].created_at + "</td></tr>"@,
        infos[i].created_at,
    );
}

/// The overview tells the figures of the store, the cache and the shared memory.
pub proof fn law_dashboard(
    s: StoreView,
    c: CacheView,
    algorithm: CacheAlgorithmType,
    h: ShmHeader,
    uptime: u64,
)
    requires
        s.sb.free_blocks <= s.sb.total_blocks,
    ensures
        ({
            let p = dashboard_text(s, c, algorithm, h, uptime);
            let used = (s.sb.total_blocks - s.sb.free_blocks) as nat;
            &&& reads(p, uptime_text(uptime as nat))
            &&& reads(p, crate::pages::DASH_OBJECTS@ + decimal(s.sb.object_count as nat))
            &&& reads(p, crate::pages::DASH_HITS@ + hit_percent(c))
            &&& reads(p, crate::pages::DASH_ALGORITHM@ + told(algorithm))
            &&& reads(
                p,
                crate::pages::DASH_STORAGE@ + scaled_text((used * s.sb.block_size) as nat, 3)
                    + " / "@,
            )
            &&& reads(
                p,
                " / "@ + scaled_text((s.sb.total_blocks * s.sb.block_size) as nat, 3) + "（"@,
            )
            &&& reads(p, crate::pages::DASH_BLOCKS@ + decimal(used) + " 已用 / "@)
            &&& reads(p, " 已用 / "@ + decimal(s.sb.total_blocks as nat) + " 总计（"@)
            &&& reads(
                p,
                crate::pages::DASH_ENTRIES@ + decimal(c.contents.items.len()) + " / "@,
            )
            &&& reads(p, " / "@ + decimal(c.contents.capacity) + crate::pages::DASH_HIT_COUNTS@)
            &&& reads(p, crate::pages::DASH_HIT_COUNTS@ + decimal(c.hits as nat) + " / "@)
            &&& reads(p, " / "@ + decimal(c.misses as nat) + crate::pages::DASH_EVICTIONS@)
            &&& reads(p, crate::pages::DASH_EVICTIONS@ + decimal(c.evictions as nat))
            &&& reads(p, crate::pages::DASH_RATE@ + exact_hit_percent(c))
            &&& reads(p, crate::pages::DASH_PAGES@ + decimal(h.free_pages as nat) + " / "@)
            &&& reads(p, " / "@ + decimal(h.num_pages as nat) + crate::pages::DASH_END@)
        }),
{
    broadcast use group_reads;

    assert(told(algorithm) == algorithm_name(algorithm));
}

/// The pages that answer an upload, a fetch and a deletion tell what became of it.
pub proof fn law_answers(o: ObjectInfoView, e: ErrorView, key: Seq<char>, version: Seq<char>)
    ensures
        reads(stored_page(o, version), o.name),
        reads(stored_page(o, version), o.uuid),
        reads(stored_page(o, version), decimal(o.size as nat)),
        reads(stored_page(o, version), o.content_type),
        reads(failed_page(e, version), error_text(e)),
        reads(unknown_page(e, version), error_text(e)),
        reads(unreadable_page(e, version), error_text(e)),
        reads(deleted_page(key, version), "<div class='success'>对象「"@ + key),
        reads(delete_failed_page(e, version), error_text(e)),
{
    broadcast use group_reads;

    assert(reads(deleted_text(key), "<div class='success'>对象「"@ + key));
}

/// The page that answers another capacity tells both.
pub proof fn law_resized(before: nat, wanted: nat, size: nat, capacity: nat, rate: Seq<char>)
    ensures
        ({
            let p = resized_text(before, wanted, size, capacity, rate);
            &&& reads(p, "<div class='success'>缓存容量已从 "@ + decimal(before) + " 调整到 "@)
            &&& reads(p, " 调整到 "@ + decimal(wanted))
            &&& reads(p, decimal(size) + " / "@ + decimal(capacity))
            &&& reads(p, rate)
        }),
{
    broadcast use group_reads;

}

/// The best of the policies is the first with the most hits; there is none without a hit.
pub proof fn law_best(rows: Seq<TrialRow>, n: int, i: int)
    requires
        0 <= i < n <= rows.len(),
    ensures
        match best_of(rows, n) {
            Some(j) => {
                &&& 0 <= j < n
                &&& rows[j].hits > 0
                &&& rows[i].hits <= rows[j].hits
                &&& i < j ==> rows[i].hits < rows[j].hits
            },
            None => rows[i].hits == 0,
        },
    decreases n,
{
    if i < n - 1 {
        law_best(rows, n - 1, i);
    }
    if n > 1 {
        law_best(rows, n - 1, 0);
    }
}

proof fn lemma_trial_rows(rows: Seq<TrialRow>, n: int, i: int)
    requires
        0 <= i < n <= rows.len(),
    ensures
        reads(trial_rows_text(rows, n), trial_row_text(rows[i])),
    decreases n,
{
    broadcast use group_reads;

    if i < n - 1 {
        lemma_trial_rows(rows, n - 1, i);
    }
}

/// The page of a trial shows every policy with its hits, its misses and its rate, and
/// what was tried: how many objects, how many requests, and with what capacity.
pub proof fn law_trial_page(
    rows: Seq<TrialRow>,
    objects: nat,
    iterations: nat,
    capacity: nat,
    uses: Seq<char>,
    i: int,
)
    requires
        0 <= i < rows.len(),
    ensures
        ({
            let p = trial_text(rows, objects, iterations, capacity, uses);
            &&& exists|row: Seq<char>| #[trigger]
                reads(p, row) && reads(
                    row,
                    "<tr><td><strong>"@ + told(rows[i].algorithm) + "</strong></td><td>"@,
                ) && reads(row, "</strong></td><td>"@ + decimal(rows[i].hits as nat)) && reads(
                    row,
                    "</td><td>"@ + decimal(rows[i].misses as nat),
                ) && reads(row, "</td><td>"@ + row_percent(rows[i]) + "%</td></tr>"@)
            &&& reads(p, decimal(objects) + " 个对象，"@)
            &&& reads(p, " 个对象，"@ + decimal(iterations) + " 次迭代，缓存容量 "@)
            &&& reads(p, " 次迭代，缓存容量 "@ + decimal(capacity))
            &&& reads(p, uses)
            &&& best_of(rows, rows.len() as int) matches Some(j) ==> reads(
                p,
                crate::web_trials::TRIAL_BEST@ + told(rows[j].algorithm) + "</strong>（"@,
            ) && reads(p, "</strong>（"@ + row_percent(rows[j]))
        }),
{
    broadcast use group_reads;

    lemma_trial_rows(rows, rows.len() as int, i);
    let row = trial_row_text(rows[i]);
    assert(told(rows[i].algorithm) == algorithm_name(rows[i].algorithm));
    assert(reads(
        row,
        "<tr><td><strong>"@ + told(rows[i].algorithm) + "</strong></td><td>"@,
    ));
    let p = trial_text(rows, objects, iterations, capacity, uses);
    assert(reads(p, row));
    if let Some(j) = best_of(rows, rows.len() as int) {
        assert(told(rows[j].algorithm) == algorithm_name(rows[j].algorithm));
    }
}

proof fn lemma_uses_from(list: Seq<(u64, Seq<char>)>, x: (u64, Seq<char>), i: int)
    requires
        0 <= i <= list.len(),
    ensures
        i <= uses_from(list, x, i) <= list.len(),
        uses_from(list, x, i) < list.len() ==> list[uses_from(list, x, i)].0 < x.0,
        forall|j: int| i <= j < uses_from(list, x, i) ==> (#[trigger] list[j]).0 >= x.0,
    decreases list.len() - i,
{
    if i < list.len() && list[i].0 >= x.0 {
        lemma_uses_from(list, x, i + 1);
    }
}

/// What was asked for most often comes first, and nothing is lost.
pub proof fn law_most_used(list: Seq<(u64, Seq<char>)>)
    ensures
        most_used(list).len() == list.len(),
        forall|i: int, j: int|
            0 <= i <= j < list.len() ==> (#[trigger] most_used(list)[i]).0 >= (
            #[trigger] most_used(list)[j]).0,
        most_used(list).to_multiset() == list.to_multiset(),
    decreases list.len(),
{
    if list.len() > 0 {
        law_most_used(list.drop_last());
        let front = most_used(list.drop_last());
        let x = list.last();
        lemma_uses_from(front, x, 0);
        let k = uses_from(front, x, 0);
        let r = most_used(list);
        assert forall|i: int, j: int| 0 <= i <= j < list.len() implies (#[trigger] r[i]).0 >= (
        #[trigger] r[j]).0 by {
            if i < k && j > k {
                assert(front[i].0 >= front[j - 1].0);
            } else if i == k && j > k {
                assert(front[k].0 >= front[j - 1].0);
            } else if i > k {
                assert(front[i - 1].0 >= front[j - 1].0);
            } else if j < k {
                assert(front[i].0 >= front[j].0);
            }
        }
        broadcast use vstd::seq_lib::group_to_multiset_ensures;

        assert(list =~= list.drop_last().push(x));
        assert(r.remove(k) =~= front);
        assert(r[k] == x && r.contains(x));
        assert(r.to_multiset() =~= front.to_multiset().insert(x));
    }
}

/// The text on the accesses tells of every object how often it was asked for, behind the
/// first eight characters of its identifier.
pub proof fn law_uses_text(list: Seq<(u64, Seq<char>)>, n: int, i: int)
    requires
        0 <= i < n <= list.len(),
    ensures
        reads(uses_text(list, n), list[i].1 + "...(下载 "@ + decimal(list[i].0 as nat)),
        reads(uses_text(list, n), "...(下载 "@ + decimal(list[i].0 as nat) + " 次)"@),
    decreases n,
{
    broadcast use group_reads;

    if i < n - 1 {
        law_uses_text(list, n - 1, i);
    }
}

/// What is told of an object's accesses.
pub proof fn law_uses_of(uuids: Seq<Seq<char>>, accesses: Map<Seq<char>, u64>, i: int)
    requires
        0 <= i < uuids.len(),
    ensures
        uses_of(uuids, accesses).len() == uuids.len(),
        accesses.contains_key(uuids[i]) ==> uses_of(uuids, accesses)[i].0 == accesses[uuids[i]],
        !accesses.contains_key(uuids[i]) ==> uses_of(uuids, accesses)[i].0 == 0,
        uuids[i].len() >= 8 ==> uses_of(uuids, accesses)[i].1 == uuids[i].take(8),
        uuids[i].len() < 8 ==> uses_of(uuids, accesses)[i].1 == uuids[i],
{
}

/// Where each object stands after sorting: in front of
/// those that were asked for less often, and among equals in the order of the list.
pub proof fn law_used_places(list: Seq<(u64, Seq<char>)>) -> (places: Seq<int>)
    ensures
        places.len() == list.len(),
        forall|i: int|
            0 <= i < list.len() ==> 0 <= #[trigger] places[i] < list.len() && most_used(
                list,
            )[places[i]] == list[i],
        forall|i: int, j: int|
            0 <= i < j < list.len() ==> (#[trigger] places[i] < #[trigger] places[j] <==> list[i].0
                >= list[j].0),
        forall|i: int, j: int| 0 <= i < j < list.len() ==> places[i] != places[j],
    decreases list.len(),
{
    if list.len() == 0 {
        Seq::empty()
    } else {
        let front = list.drop_last();
        let before = law_used_places(front);
        let x = list.last();
        let k = uses_from(most_used(front), x, 0);
        law_most_used(front);
        lemma_uses_from(most_used(front), x, 0);
        let sorted = most_used(list);
        let places = Seq::new(
            list.len(),
            |i: int|
                if i == front.len() {
                    k
                } else if before[i] < k {
                    before[i]
                } else {
                    before[i] + 1
                },
        );
        assert forall|i: int| 0 <= i < list.len() implies 0 <= #[trigger] places[i] < list.len()
            && sorted[places[i]] == list[i] by {
            if i < front.len() {
                assert(0 <= before[i] < front.len());
                assert(most_used(front)[before[i]] == front[i]);
            }
        }
        assert forall|i: int, j: int| 0 <= i < j < list.len() implies (#[trigger] places[i]
            < #[trigger] places[j] <==> list[i].0
                >= list[j].0) && places[i] != places[j] by {
            if j < front.len() {
                assert(before[i] < before[j] <==> front[i].0 >= front[j].0);
                assert(before[i] != before[j]);
            } else {
                let f = most_used(front);
                assert(f[before[i]] == front[i]);
                if before[i] >= k {
                    assert(f[k].0 >= f[before[i]].0);
                }
            }
        }
        places
    }
}

} // verus!
