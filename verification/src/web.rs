//! What the web interface answers.
use crate::access_log::{AccessRecord, AccessView};
use crate::cache::{accesses_of, CacheView, ObjectCache};
use crate::cache_model::{lemma_slot, CacheAlgorithmType};
use crate::error::{error_text, ErrorView, MiniOsError};
use crate::forms::{Upload, UploadView};
use crate::http::{get_form_field_urlencoded, value_from, Lookup, LookupView};
use crate::ids::is_issued_id;
use crate::metadata::{ObjectInfo, ObjectInfoView};
use crate::pages::{
    dashboard_body, dashboard_text, delete_body, delete_failed_body, delete_failed_text,
    delete_text, deleted_body, deleted_text, download_body, download_text, exact_hit_percent,
    manage_body, manage_text, not_deleted_body, not_deleted_text, page, page_tab, page_text,
    page_with_refresh, resized_body, resized_text, stored_body, stored_text, unknown_body,
    unknown_text, unreadable_body, unreadable_text, upload_failed_body, upload_failed_text,
};
use crate::policies::algorithm_name;
use crate::server::{
    access_of, access_view, cache_read, cached_of, cached_view, data_read, deletion_of,
    deletion_view, read_cached,
};
use crate::shm::{SharedMemory, ShmHeader, SHM_HEADER_SIZE};
use crate::storage::{
    infos_of, lemma_block_fits, lemma_sound_lookup, ops_of, FileOp, FileOpView, ObjectStorage,
    StoreView,
};
use crate::text::{chars_of, decimal, lossy, push_decimal};
use crate::words::{parse_unsigned, pieces, unsigned_value};
use vstd::hash_map::*;
use vstd::prelude::*;
use vstd::slice::*;
use vstd::string::*;
use vstd::utf8::*;

verus! {

/// The web interface: its port, and whether it listens.
#[derive(Debug)]
pub struct MetricsServer {
    /// The port; 0 for no web interface.
    pub port: u16,
    pub running: bool,
}

impl MetricsServer {
    /// Makes a web interface that is to listen at `port`.
    pub fn new(port: u16) -> (r: MetricsServer)
        ensures
            r == (MetricsServer { port, running: false }),
    {
        MetricsServer { port, running: false }
    }

    /// Notes that the web interface listens, unless it has no port, and returns
    /// whether it does.
    pub fn start(&mut self) -> (r: bool)
        ensures
            r == (old(self).port != 0),
            *final(self) == (MetricsServer { running: old(self).running || r, ..*old(self) }),
    {
        if self.port == 0 {
            return false;
        }
        self.running = true;
        true
    }

    /// Notes that the web interface no longer listens.
    pub fn stop(&mut self)
        ensures
            *final(self) == (MetricsServer { running: false, ..*old(self) }),
    {
        self.running = false;
    }
}

/// A reply: its head, the bytes behind it, and what is to be logged.
#[derive(Debug)]
pub struct WebReply {
    pub head: String,
    pub body: Vec<u8>,
    pub access: Option<AccessRecord>,
}

/// The head of a reply.
pub open spec fn response_head(status: Seq<char>, kind: Seq<char>, len: nat) -> Seq<char> {
    "HTTP/1.1 "@ + status + "\r\nContent-Type: "@ + kind + "\r\nContent-Length: "@ + decimal(len)
        + "\r\nConnection: close\r\n\r\n"@
}

/// Whether the reply is this text, with nothing to log.
pub open spec fn sends(r: WebReply, status: Seq<char>, kind: Seq<char>, text: Seq<char>) -> bool {
    &&& r.body@ == encode_utf8(text)
    &&& r.head@ == response_head(status, kind, encode_utf8(text).len())
    &&& r.access is None
}

/// Whether the reply is this page, with nothing to log.
pub open spec fn shows(r: WebReply, html: Seq<char>) -> bool {
    sends(r, "200 OK"@, "text/html; charset=utf-8"@, html)
}

/// Whether the reply is this page, and the access is to be logged.
pub open spec fn shows_logged(
    r: WebReply,
    html: Seq<char>,
    access: AccessView,
) -> bool {
    &&& shows(WebReply { access: None, ..r }, html)
    &&& r.access matches Some(a) && a@ == access
}

/// Makes a reply of a text.
pub fn respond(status: &str, kind: &str, text: &str) -> (r: WebReply)
    ensures
        sends(r, status@, kind@, text@),
{
    let body = slice_to_vec(text.as_bytes());
    let mut head = "HTTP/1.1 ".to_owned();
    head.append(status);
    head.append("\r\nContent-Type: ");
    head.append(kind);
    head.append("\r\nContent-Length: ");
    push_decimal(&mut head, body.len() as u64);
    head.append("\r\nConnection: close\r\n\r\n");
    WebReply { head, body, access: None }
}

/// Makes a reply of a page.
pub fn respond_ok(html: &str) -> (r: WebReply)
    ensures
        shows(r, html@),
{
    respond("200 OK", "text/html; charset=utf-8", html)
}

/// The reply to a request for what there is not.
pub fn not_found() -> (r: WebReply)
    ensures
        sends(r, "404 Not Found"@, "text/plain"@, "404\n"@),
{
    respond("404 Not Found", "text/plain", "404\n")
}

/// What a request may change: the store, the cache, and what is to be written.
pub struct Holdings {
    pub store: StoreView,
    pub cache: CacheView,
    pub writes: Seq<FileOpView>,
}

/// What a request may change.
pub open spec fn holdings(
    store: ObjectStorage,
    cache: ObjectCache,
    writes: Seq<FileOp>,
) -> Holdings {
    Holdings { store: store@, cache: cache@, writes: ops_of(writes) }
}

/// The objects of the store; none where they cannot be listed.
pub open spec fn listed(s: StoreView, file: Seq<u8>) -> Seq<ObjectInfoView> {
    match s.list_result(file) {
        Ok(infos) => infos,
        Err(_) => Seq::empty(),
    }
}

/// The objects of the store; none where they cannot be listed.
pub fn list_all(store: &ObjectStorage, file: &[u8]) -> (r: Vec<ObjectInfo>)
    requires
        store@.sound(file@),
    ensures
        infos_of(r@) == listed(store@, file@),
        infos_of(r@).len() == r@.len(),
{
    proof {
        lemma_sound_lookup(store@, file@, Seq::empty());
    }
    match store.list(file) {
        Ok(objects) => objects,
        Err(_) => {
            let none: Vec<ObjectInfo> = Vec::new();
            assert(infos_of(none@) =~= Seq::empty());
            none
        },
    }
}

// Figures for a monitor.

/// A figure, with what it is and how it behaves.
pub open spec fn metric(
    name: Seq<char>,
    help: Seq<char>,
    kind: Seq<char>,
    label: Seq<char>,
    value: Seq<char>,
) -> Seq<char> {
    "# HELP "@ + name + " "@ + help + "\n# TYPE "@ + name + " "@ + kind + "\n"@ + name + label
        + " "@ + value + "\n"@
}

/// A figure that is a number.
pub open spec fn count_metric(name: Seq<char>, help: Seq<char>, kind: Seq<char>, n: nat) -> Seq<
    char,
> {
    metric(name, help, kind, ""@, decimal(n))
}

fn metric_line(name: &str, help: &str, kind: &str, label: &str, value: &str) -> (r: String)
    ensures
        r@ == metric(name@, help@, kind@, label@, value@),
{
    let mut out = "# HELP ".to_owned();
    out.append(name);
    out.append(" ");
    out.append(help);
    out.append("\n# TYPE ");
    out.append(name);
    out.append(" ");
    out.append(kind);
    out.append("\n");
    out.append(name);
    out.append(label);
    out.append(" ");
    out.append(value);
    out.append("\n");
    out
}

fn count_line(name: &str, help: &str, kind: &str, n: u64) -> (r: String)
    ensures
        r@ == count_metric(name@, help@, kind@, n as nat),
{
    let mut value = String::new();
    push_decimal(&mut value, n);
    assert(value@ =~= decimal(n as nat));
    metric_line(name, help, kind, "", value.as_str())
}

/// The figures for a monitor.
pub open spec fn metrics_text(
    s: StoreView,
    c: CacheView,
    algorithm: CacheAlgorithmType,
    h: ShmHeader,
    uptime: u64,
) -> Seq<char> {
    let used_blocks = s.sb.total_blocks - s.sb.free_blocks;
    count_metric("minios_uptime_seconds"@, "Server uptime"@, "gauge"@, uptime as nat)
        + count_metric("minios_objects_total"@, "Stored objects"@, "gauge"@, s.sb.object_count as nat)
        + count_metric("minios_storage_blocks_total"@, "Total data blocks"@, "gauge"@, s.sb.total_blocks as nat)
        + count_metric("minios_storage_blocks_used"@, "Used data blocks"@, "gauge"@, used_blocks as nat)
        + count_metric("minios_storage_blocks_free"@, "Free data blocks"@, "gauge"@, s.sb.free_blocks as nat)
        + count_metric("minios_storage_bytes_total"@, "Total capacity"@, "gauge"@, (s.sb.total_blocks * s.sb.block_size) as nat)
        + count_metric("minios_storage_bytes_used"@, "Used capacity"@, "gauge"@, (used_blocks * s.sb.block_size) as nat)
        + count_metric("minios_cache_hits_total"@, "Cache hits"@, "counter"@, c.hits as nat)
        + count_metric("minios_cache_misses_total"@, "Cache misses"@, "counter"@, c.misses as nat)
        + count_metric("minios_cache_evictions_total"@, "Cache evictions"@, "counter"@, c.evictions as nat)
        + count_metric("minios_cache_size"@, "Current cached entries"@, "gauge"@, c.contents.items.len())
        + count_metric("minios_cache_capacity"@, "Max cache capacity"@, "gauge"@, c.contents.capacity)
        + metric("minios_cache_hit_rate_percent"@, "Hit rate"@, "gauge"@, ""@, exact_hit_percent(c))
        + metric(
        "minios_cache_algorithm_info"@,
        "Cache algorithm"@,
        "gauge"@,
        "{algorithm=\""@ + algorithm_name(algorithm) + "\"}"@,
        "1"@,
    )
        + count_metric("minios_shm_pages_total"@, "SHM total pages"@, "gauge"@, h.num_pages as nat)
        + count_metric("minios_shm_pages_free"@, "SHM free pages"@, "gauge"@, h.free_pages as nat)
}

/// Makes the figures for a monitor.
pub fn build_metrics(
    store: &ObjectStorage,
    cache: &ObjectCache,
    region: &[u8],
    uptime: u64,
) -> (r: String)
    requires
        store@.operable(),
        store@.sb.free_blocks <= store@.sb.total_blocks,
        region@.len() >= SHM_HEADER_SIZE,
    ensures
        r@ == metrics_text(
            store@,
            cache@,
            cache.algorithm,
            ShmHeader::decode(region@),
            uptime,
        ),
{
    proof {
        lemma_block_fits(store@, store@.sb.total_blocks as int);
    }
    let status = store.status();
    let stats = cache.stats();
    let mut out = count_line("minios_uptime_seconds", "Server uptime", "gauge", uptime);
    let m = count_line("minios_objects_total", "Stored objects", "gauge", status.object_count);
    out.append(m.as_str());
    let m = count_line("minios_storage_blocks_total", "Total data blocks", "gauge", status.total_blocks);
    out.append(m.as_str());
    let m = count_line("minios_storage_blocks_used", "Used data blocks", "gauge", status.used_blocks);
    out.append(m.as_str());
    let m = count_line("minios_storage_blocks_free", "Free data blocks", "gauge", status.free_blocks);
    out.append(m.as_str());
    let m = count_line("minios_storage_bytes_total", "Total capacity", "gauge", status.total_capacity);
    out.append(m.as_str());
    let m = count_line("minios_storage_bytes_used", "Used capacity", "gauge", status.used_capacity);
    out.append(m.as_str());
    let m = count_line("minios_cache_hits_total", "Cache hits", "counter", stats.hits);
    out.append(m.as_str());
    let m = count_line("minios_cache_misses_total", "Cache misses", "counter", stats.misses);
    out.append(m.as_str());
    let m = count_line("minios_cache_evictions_total", "Cache evictions", "counter", stats.evictions);
    out.append(m.as_str());
    let m = count_line("minios_cache_size", "Current cached entries", "gauge", stats.size as u64);
    out.append(m.as_str());
    let m = count_line("minios_cache_capacity", "Max cache capacity", "gauge", stats.capacity as u64);
    out.append(m.as_str());
    let rate = stats.hit_rate();
    let m = metric_line("minios_cache_hit_rate_percent", "Hit rate", "gauge", "", rate.as_str());
    out.append(m.as_str());
    let mut label = "{algorithm=\"".to_owned();
    label.append(stats.algorithm.as_str());
    label.append("\"}");
    let m = metric_line(
        "minios_cache_algorithm_info",
        "Cache algorithm",
        "gauge",
        label.as_str(),
        "1",
    );
    out.append(m.as_str());
    let m = count_line("minios_shm_pages_total", "SHM total pages", "gauge", SharedMemory::num_pages(region) as u64);
    out.append(m.as_str());
    let m = count_line("minios_shm_pages_free", "SHM free pages", "gauge", SharedMemory::free_page_count(region) as u64);
    out.append(m.as_str());
    out
}

/// The reply with the figures for a monitor.
pub fn web_metrics(
    store: &ObjectStorage,
    cache: &ObjectCache,
    region: &[u8],
    uptime: u64,
) -> (r: WebReply)
    requires
        store@.operable(),
        store@.sb.free_blocks <= store@.sb.total_blocks,
        region@.len() >= SHM_HEADER_SIZE,
    ensures
        sends(
            r,
            "200 OK"@,
            "text/plain; version=0.0.4; charset=utf-8"@,
            metrics_text(
                store@,
                cache@,
                cache.algorithm,
                ShmHeader::decode(region@),
                uptime,
            ),
        ),
{
    let text = build_metrics(store, cache, region, uptime);
    respond("200 OK", "text/plain; version=0.0.4; charset=utf-8", text.as_str())
}

// Pages that only show.

/// The overview, as a page that renews itself.
pub open spec fn dashboard_page(
    s: StoreView,
    c: CacheView,
    algorithm: CacheAlgorithmType,
    header: ShmHeader,
    uptime: u64,
    version: Seq<char>,
) -> Seq<char> {
    page_text(
        "系统总览"@,
        dashboard_text(s, c, algorithm, header, uptime),
        true,
        "overview"@,
        version,
    )
}

/// The page from which the objects are managed.
pub open spec fn manage_page(
    s: StoreView,
    file: Seq<u8>,
    c: CacheView,
    version: Seq<char>,
) -> Seq<char> {
    page_text(
        "对象管理"@,
        manage_text(s, c, listed(s, file)),
        false,
        "manage"@,
        version,
    )
}

/// The overview.
pub fn build_dashboard(
    store: &ObjectStorage,
    cache: &ObjectCache,
    region: &[u8],
    uptime: u64,
    version: &str,
) -> (r: WebReply)
    requires
        store@.operable(),
        store@.sb.free_blocks <= store@.sb.total_blocks,
        region@.len() >= SHM_HEADER_SIZE,
    ensures
        shows(
            r,
            dashboard_page(
                store@,
                cache@,
                cache.algorithm,
                ShmHeader::decode(region@),
                uptime,
                version@,
            ),
        ),
{
    let body = dashboard_body(store, cache, region, uptime);
    respond_ok(
        page_with_refresh("系统总览", body.as_str(), true, "overview", version).as_str(),
    )
}

/// The page to manage the objects.
pub fn build_manage_page(
    store: &ObjectStorage,
    file: &[u8],
    cache: &ObjectCache,
    version: &str,
) -> (r: WebReply)
    requires
        store@.sound(file@),
    ensures
        shows(r, manage_page(store@, file@, cache@, version@)),
{
    let objects = list_all(store, file);
    let body = manage_body(store, cache, &objects);
    respond_ok(page_tab("对象管理", body.as_str(), "manage", version).as_str())
}

// Storing an object.

/// The page for an upload that lacks a name or data.
pub open spec fn empty_upload_text(version: Seq<char>) -> Seq<char> {
    page_text(
        "上传失败"@,
        "<p class='error'>对象名称和内容不能为空</p><a class='btn-back' href='/manage'>返回</a>"@,
        false,
        ""@,
        version,
    )
}

/// What the web interface shows of an object that was stored.
pub open spec fn stored_page(info: ObjectInfoView, version: Seq<char>) -> Seq<char> {
    page_text("上传成功"@, stored_text(info), false, ""@, version)
}

/// What the web interface shows of an object that could not be stored.
pub open spec fn failed_page(e: ErrorView, version: Seq<char>) -> Seq<char> {
    page_text("上传失败"@, upload_failed_text(error_text(e)), false, ""@, version)
}

/// Answers by what storing the object came to. A stored object is cached.
pub fn web_stored(
    result: Result<ObjectInfo, MiniOsError>,
    data: Vec<u8>,
    cache: &mut ObjectCache,
    version: &str,
) -> (r: WebReply)
    requires
        old(cache).wf(),
        old(cache)@.contents.usable(),
    ensures
        final(cache).wf(),
        final(cache).algorithm == old(cache).algorithm,
        match result {
            Ok(info) => {
                &&& final(cache)@ == old(cache)@.put(info.uuid@, cached_view(info@, data@))
                &&& shows_logged(r, stored_page(info@, version@), access_view("PUT"@, info@))
            },
            Err(e) => {
                &&& final(cache)@ == old(cache)@
                &&& shows(r, failed_page(e@, version@))
            },
        },
{
    match result {
        Err(e) => {
            let body = upload_failed_body(e.message().as_str());
            respond_ok(page("上传失败", body.as_str(), version).as_str())
        },
        Ok(info) => {
            proof {
                lemma_slot(cache@.contents.items, info.uuid@, 0);
            }
            let _ = cache.put(info.uuid.as_str(), cached_of(&info, data));
            let body = stored_body(&info);
            let reply = respond_ok(page("上传成功", body.as_str(), version).as_str());
            WebReply { access: Some(access_of("PUT", &info)), ..reply }
        },
    }
}

/// Whether there is something to store: an object has a name and data.
pub open spec fn storable(u: UploadView) -> bool {
    u.name.len() > 0 && u.content.len() > 0
}

/// Whether `r` answers the upload, and the object was stored and cached.
pub open spec fn put_shown(
    before: Holdings,
    after: Holdings,
    file: Seq<u8>,
    upload: UploadView,
    version: Seq<char>,
    r: WebReply,
) -> bool {
    if storable(upload) {
        exists|uuid: Seq<u8>, now: i64|
            {
                let step = #[trigger] before.store.put_step(
                    file,
                    upload.name,
                    upload.content,
                    upload.content_type,
                    upload.tags,
                    uuid,
                    now,
                );
                &&& uuid.len() == 16
                &&& step.result is Ok ==> is_issued_id(uuid)
                &&& after.store == step.store
                &&& after.writes == before.writes + step.writes
                &&& match step.result {
                    Ok(info) => {
                        &&& after.cache == before.cache.put(
                            info.uuid,
                            cached_view(info, upload.content),
                        )
                        &&& shows_logged(r, stored_page(info, version), access_view("PUT"@, info))
                    },
                    Err(e) => {
                        &&& after.cache == before.cache
                        &&& shows(r, failed_page(e, version))
                    },
                }
            }
    } else {
        &&& after == before
        &&& shows(r, empty_upload_text(version))
    }
}

/// Stores the object of an upload, and caches it.
pub fn web_put(
    store: &mut ObjectStorage,
    file: &[u8],
    cache: &mut ObjectCache,
    upload: Upload,
    writes: &mut Vec<FileOp>,
    version: &str,
) -> (r: WebReply)
    requires
        storable(upload@) ==> {
            &&& old(store)@.sound(file@)
            &&& old(store)@.reserve_step(file@, upload@.name, upload@.content).result is Ok
                ==> old(store)@.can_record(
                upload@.name,
                upload@.content.len(),
                upload@.content_type,
                upload@.tags,
            )
            &&& old(cache)@.contents.usable()
        },
        old(cache).wf(),
    ensures
        final(cache).wf(),
        final(cache).algorithm == old(cache).algorithm,
        put_shown(
            holdings(*old(store), *old(cache), old(writes)@),
            holdings(*final(store), *final(cache), final(writes)@),
            file@,
            upload@,
            version@,
            r,
        ),
{
    if upload.name.as_str().is_empty() || upload.content.len() == 0 {
        return respond_ok(
            page(
                "上传失败",
                "<p class='error'>对象名称和内容不能为空</p><a class='btn-back' href='/manage'>返回</a>",
                version,
            ).as_str(),
        );
    }
    let result = store.put(
        file,
        upload.name.as_str(),
        upload.content.as_slice(),
        upload.content_type.as_str(),
        upload.tags.as_str(),
        writes,
    );
    let ghost (uuid, now) = choose|uuid: Seq<u8>, now: i64|
        {
            let step = #[trigger] old(store)@.put_step(
                file@,
                upload@.name,
                upload@.content,
                upload@.content_type,
                upload@.tags,
                uuid,
                now,
            );
            &&& uuid.len() == 16
            &&& result is Ok ==> is_issued_id(uuid)
            &&& store@ == step.store
            &&& ops_of(writes@) == ops_of(old(writes)@) + step.writes
            &&& match result {
                Ok(info) => step.result == Ok::<_, ErrorView>(info@),
                Err(e) => step.result == Err::<ObjectInfoView, _>(e@),
            }
        };
    let ghost step = old(store)@.put_step(
        file@,
        upload@.name,
        upload@.content,
        upload@.content_type,
        upload@.tags,
        uuid,
        now,
    );
    assert(store@ == step.store);
    web_stored(result, upload.content, cache, version)
}

// Fetching an object.

/// What the web interface shows of an object that there is not.
pub open spec fn unknown_page(e: ErrorView, version: Seq<char>) -> Seq<char> {
    page_text("未找到"@, unknown_text(error_text(e)), false, ""@, version)
}

/// What the web interface shows of an object whose data cannot be read.
pub open spec fn unreadable_page(e: ErrorView, version: Seq<char>) -> Seq<char> {
    page_text("未找到"@, unreadable_text(error_text(e)), false, ""@, version)
}

/// What is known of the object that `key` denotes, or the page that says that there
/// is none.
pub fn web_find(store: &ObjectStorage, file: &[u8], key: &str, version: &str) -> (r: Result<
    ObjectInfo,
    WebReply,
>)
    requires
        store@.sound(file@),
    ensures
        match r {
            Ok(info) => store@.info_result(file@, key@) == Ok::<_, ErrorView>(info@),
            Err(m) => store@.info_result(file@, key@) matches Err(e) && shows(
                m,
                unknown_page(e, version@),
            ),
        },
{
    proof {
        lemma_sound_lookup(store@, file@, key@);
    }
    match store.find_info(file, key) {
        Ok(info) => Ok(info),
        Err(e) => {
            let body = unknown_body(e.message().as_str());
            Err(respond_ok(page("未找到", body.as_str(), version).as_str()))
        },
    }
}

/// The head of a reply that is a file.
pub open spec fn file_head(info: ObjectInfoView, len: nat) -> Seq<char> {
    "HTTP/1.1 200 OK\r\nContent-Type: "@ + info.content_type
        + "\r\nContent-Disposition: attachment; filename=\""@ + info.name
        + "\"\r\nContent-Length: "@ + decimal(len) + "\r\nConnection: close\r\n\r\n"@
}

/// Whether `r` is the file with the data of the object `info`, which `key` denotes.
pub open spec fn fetch_shown(
    c: CacheView,
    s: StoreView,
    file: Seq<u8>,
    key: Seq<char>,
    info: ObjectInfoView,
    version: Seq<char>,
    r: WebReply,
) -> bool {
    match data_read(c, s, file, key, info) {
        Ok(data) => {
            &&& r.body@ == data
            &&& r.head@ == file_head(info, data.len())
            &&& r.access matches Some(a) && a@ == access_view("GET"@, info)
        },
        Err(e) => shows(r, unreadable_page(e, version)),
    }
}

/// Fetches the data of the object `info`, which `key` denotes, through the cache.
pub fn web_fetch(
    store: &ObjectStorage,
    file: &[u8],
    cache: &mut ObjectCache,
    key: &str,
    info: &ObjectInfo,
    version: &str,
) -> (r: WebReply)
    requires
        store@.sound(file@),
        old(cache).wf(),
        old(cache)@.contents.usable(),
        accesses_of(old(cache)@.accesses, info.uuid@) < u64::MAX,
    ensures
        final(cache).wf(),
        final(cache).algorithm == old(cache).algorithm,
        final(cache)@ == cache_read(old(cache)@, store@, file@, key@, info@),
        fetch_shown(old(cache)@, store@, file@, key@, info@, version@, r),
{
    match read_cached(store, file, cache, key, info) {
        Err(e) => {
            let body = unreadable_body(e.message().as_str());
            respond_ok(page("未找到", body.as_str(), version).as_str())
        },
        Ok(data) => {
            let mut head = "HTTP/1.1 200 OK\r\nContent-Type: ".to_owned();
            head.append(info.content_type.as_str());
            head.append("\r\nContent-Disposition: attachment; filename=\"");
            head.append(info.name.as_str());
            head.append("\"\r\nContent-Length: ");
            push_decimal(&mut head, data.len() as u64);
            head.append("\r\nConnection: close\r\n\r\n");
            WebReply { head, body: data, access: Some(access_of("GET", info)) }
        },
    }
}

/// What the web interface shows of the objects that can be fetched.
pub open spec fn downloads_page(infos: Seq<ObjectInfoView>, version: Seq<char>) -> Seq<char> {
    page_text("下载对象"@, download_text(infos), false, "download"@, version)
}

/// Lists the objects that can be fetched.
pub fn web_downloads(store: &ObjectStorage, file: &[u8], version: &str) -> (r: WebReply)
    requires
        store@.sound(file@),
    ensures
        shows(r, downloads_page(listed(store@, file@), version@)),
{
    let objects = list_all(store, file);
    let body = download_body(&objects);
    respond_ok(page_tab("下载对象", body.as_str(), "download", version).as_str())
}

// Deleting an object.

/// What the web interface shows of a deletion of what there is not.
pub open spec fn not_deleted_page(e: ErrorView, version: Seq<char>) -> Seq<char> {
    page_text("未找到"@, not_deleted_text(error_text(e)), false, ""@, version)
}

/// What the web interface shows of a deletion that failed.
pub open spec fn delete_failed_page(e: ErrorView, version: Seq<char>) -> Seq<char> {
    page_text("删除失败"@, delete_failed_text(error_text(e)), false, ""@, version)
}

/// What the web interface shows of an object that was deleted.
pub open spec fn deleted_page(key: Seq<char>, version: Seq<char>) -> Seq<char> {
    page_text("删除成功"@, deleted_text(key), false, ""@, version)
}

/// Whether `r` answers the request to delete, and the object that `key` denotes was
/// deleted, also from the cache.
pub open spec fn delete_shown(
    before: Holdings,
    after: Holdings,
    file: Seq<u8>,
    key: Seq<char>,
    version: Seq<char>,
    r: WebReply,
) -> bool {
    let step = before.store.delete_step(file, key);
    match before.store.info_result(file, key) {
        Err(e) => {
            &&& after == before
            &&& shows(r, not_deleted_page(e, version))
        },
        Ok(info) => {
            &&& after.store == step.store
            &&& after.writes == before.writes + step.writes
            &&& match step.result {
                Ok(_) => {
                    &&& after.cache == (CacheView {
                        contents: before.cache.contents.without(info.uuid),
                        ..before.cache
                    })
                    &&& shows_logged(
                        r,
                        deleted_page(key, version),
                        deletion_view(key, info.uuid),
                    )
                },
                Err(e) => {
                    &&& after.cache == before.cache
                    &&& shows(r, delete_failed_page(e, version))
                },
            }
        },
    }
}

/// Deletes an object, also from the cache.
pub fn web_delete(
    store: &mut ObjectStorage,
    file: &[u8],
    cache: &mut ObjectCache,
    key: &str,
    writes: &mut Vec<FileOp>,
    version: &str,
) -> (r: WebReply)
    requires
        old(store)@.sound(file@),
        old(cache).wf(),
    ensures
        final(cache).wf(),
        final(cache).algorithm == old(cache).algorithm,
        delete_shown(
            holdings(*old(store), *old(cache), old(writes)@),
            holdings(*final(store), *final(cache), final(writes)@),
            file@,
            key@,
            version@,
            r,
        ),
{
    proof {
        lemma_sound_lookup(store@, file@, key@);
    }
    let info = match store.find_info(file, key) {
        Err(e) => {
            let body = not_deleted_body(e.message().as_str());
            return respond_ok(page("未找到", body.as_str(), version).as_str());
        },
        Ok(info) => info,
    };
    match store.delete(file, key, writes) {
        Err(e) => {
            let body = delete_failed_body(e.message().as_str());
            respond_ok(page("删除失败", body.as_str(), version).as_str())
        },
        Ok(_) => {
            let _ = cache.remove(info.uuid.as_str());
            let body = deleted_body(key);
            let reply = respond_ok(page("删除成功", body.as_str(), version).as_str());
            WebReply { access: Some(deletion_of(key, info.uuid.as_str())), ..reply }
        },
    }
}

/// What the web interface shows of the objects that can be deleted.
pub open spec fn deletions_page(infos: Seq<ObjectInfoView>, version: Seq<char>) -> Seq<char> {
    page_text("删除对象"@, delete_text(infos), false, "delete"@, version)
}

/// Lists the objects that can be deleted.
pub fn web_deletions(store: &ObjectStorage, file: &[u8], version: &str) -> (r: WebReply)
    requires
        store@.sound(file@),
    ensures
        shows(r, deletions_page(listed(store@, file@), version@)),
{
    let objects = list_all(store, file);
    let body = delete_body(&objects);
    respond_ok(page_tab("删除对象", body.as_str(), "delete", version).as_str())
}

// The capacity of the cache.

/// The capacity that a form asks for, if it is a number above zero.
pub open spec fn wanted_capacity(text: Seq<char>) -> Option<nat> {
    match unsigned_value(text, usize::MAX as nat) {
        Some(n) => if n > 0 {
            Some(n)
        } else {
            None
        },
        None => None,
    }
}

/// The page that answers a form that asks for another capacity.
pub open spec fn resize_page(
    wanted: Option<nat>,
    before: nat,
    after: CacheView,
    version: Seq<char>,
) -> Seq<char> {
    match wanted {
        Some(n) => page_text(
            "缓存调整成功"@,
            resized_text(
                before,
                n,
                after.contents.items.len(),
                after.contents.capacity,
                exact_hit_percent(after),
            ),
            false,
            ""@,
            version,
        ),
        None => page_text(
            "参数错误"@,
            "<p class='error'>无效的容量值</p><a class='btn-back' href='/manage'>返回</a>"@,
            false,
            ""@,
            version,
        ),
    }
}

/// Gives the cache the capacity that a text asks for.
pub fn resize_to(cache: &mut ObjectCache, text: &str, version: &str) -> (r: WebReply)
    requires
        old(cache).wf(),
    ensures
        final(cache).wf(),
        final(cache).algorithm == old(cache).algorithm,
        final(cache)@ == (match wanted_capacity(text@) {
            Some(n) => CacheView { contents: old(cache)@.contents.resized(n), ..old(cache)@ },
            None => old(cache)@,
        }),
        shows(
            r,
            resize_page(
                wanted_capacity(text@),
                old(cache)@.contents.capacity,
                final(cache)@,
                version@,
            ),
        ),
{
    let chars = chars_of(text);
    if let Some(n) = parse_unsigned(chars.as_slice(), usize::MAX as u64) {
        if n > 0 {
            let wanted = n as usize;
            let before = cache.capacity();
            cache.resize(wanted);
            let stats = cache.stats();
            let rate = stats.hit_rate();
            let body = resized_body(before, wanted, stats.size, stats.capacity, rate.as_str());
            return respond_ok(page("缓存调整成功", body.as_str(), version).as_str());
        }
    }
    respond_ok(
        page(
            "参数错误",
            "<p class='error'>无效的容量值</p><a class='btn-back' href='/manage'>返回</a>",
            version,
        ).as_str(),
    )
}

/// Whether `r` answers the request to change the capacity that the form in `body`
/// asks for, and the cache has it.
pub open spec fn resize_shown(
    before: CacheView,
    after: CacheView,
    body: Seq<u8>,
    version: Seq<char>,
    r: Option<WebReply>,
) -> bool {
    let value = value_from(pieces(lossy(body), '&'), "capacity"@, false, 0);
    let wanted = match value {
        LookupView::Found(t) => wanted_capacity(t),
        _ => wanted_capacity(""@),
    };
    if value is Broken {
        r is None && after == before
    } else {
        &&& r matches Some(m) && shows(
            m,
            resize_page(wanted, before.contents.capacity, after, version),
        )
        &&& after == (match wanted {
            Some(n) => CacheView { contents: before.contents.resized(n), ..before },
            None => before,
        })
    }
}

/// Gives the cache the capacity that a form asks for. There is no reply to a form
/// whose value is not readable.
pub fn web_resize(cache: &mut ObjectCache, body: &[u8], version: &str) -> (r: Option<
    WebReply,
>)
    requires
        old(cache).wf(),
    ensures
        final(cache).wf(),
        final(cache).algorithm == old(cache).algorithm,
        resize_shown(old(cache)@, final(cache)@, body@, version@, r),
{
    match get_form_field_urlencoded(body, "capacity") {
        Lookup::Broken => None,
        Lookup::Missing => Some(resize_to(cache, "", version)),
        Lookup::Found(text) => Some(resize_to(cache, text.as_str(), version)),
    }
}

} // verus!
