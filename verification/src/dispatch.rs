//! What the web interface does with a request.
use crate::cache::{accesses_of, CacheView, ObjectCache};
use crate::cache_model::CacheAlgorithmType;
use crate::forms::{read_upload, upload_of};
use crate::http::{
    asked, first_line, get_query_param, query_part, request_line, route, route_of, value_from,
    Lookup, LookupView, Request, Route,
};
use crate::server::cache_read;
use crate::shm::{ShmHeader, SHM_HEADER_SIZE};
use crate::storage::{lemma_sound_lookup, FileOp, ObjectStorage, StoreView};
use crate::web::{
    build_dashboard, build_manage_page, dashboard_page, delete_shown, deletions_page,
    downloads_page, fetch_shown, holdings, listed, manage_page, metrics_text, not_found, put_shown,
    resize_shown, sends, shows, storable, unknown_page, web_delete, web_deletions, web_downloads,
    web_fetch, web_find, web_metrics, web_put, web_resize, Holdings, WebReply,
};
use crate::web_search::{conditions_in, read_conditions, search_shown, web_search};
use crate::web_trials::{can_try_web, is_web_triable, trial_page, web_benchmark};
use crate::words::{before, pieces};
use vstd::prelude::*;

verus! {

/// The value under `key` in the target of a first line.
pub open spec fn param(line: Seq<char>, key: Seq<char>) -> LookupView {
    value_from(pieces(query_part(line), '&'), key, true, 0)
}

// Storing an object.

/// Whether the object in a request can be stored within the limits of the machine's
/// numbers.
pub open spec fn takes_put(
    s: StoreView,
    file: Seq<u8>,
    c: CacheView,
    head: Seq<char>,
    body: Seq<u8>,
) -> bool {
    upload_of(head, body) matches Some(u) ==> storable(u) ==> {
        &&& s.sound(file)
        &&& s.can_record(u.name, u.content.len(), u.content_type, u.tags)
        &&& c.contents.usable()
    }
}

/// Stores the object in a request.
pub fn handle_web_put(
    store: &mut ObjectStorage,
    file: &[u8],
    cache: &mut ObjectCache,
    request: &Request,
    writes: &mut Vec<FileOp>,
    version: &str,
) -> (r: Option<WebReply>)
    requires
        old(cache).wf(),
        takes_put(old(store)@, file@, old(cache)@, request.head@, request.body@),
    ensures
        final(cache).wf(),
        final(cache).algorithm == old(cache).algorithm,
        ({
            let h0 = holdings(*old(store), *old(cache), old(writes)@);
            let h1 = holdings(*final(store), *final(cache), final(writes)@);
            match upload_of(request.head@, request.body@) {
                Some(u) => r matches Some(m) && put_shown(h0, h1, file@, u, version@, m),
                None => r is None && h1 == h0,
            }
        }),
{
    match read_upload(request) {
        None => None,
        Some(upload) => Some(web_put(store, file, cache, upload, writes, version)),
    }
}

// Fetching an object.

/// Whether the object that a first line asks for can be fetched within the limits of
/// the machine's numbers.
pub open spec fn takes_get(s: StoreView, file: Seq<u8>, c: CacheView, line: Seq<char>) -> bool {
    &&& s.sound(file)
    &&& param(line, "key"@) matches LookupView::Found(key) ==> s.info_result(
        file,
        key,
    ) matches Ok(info) ==> {
        &&& c.contents.usable()
        &&& accesses_of(c.accesses, info.uuid) < u64::MAX
    }
}

/// Whether `r` answers the request to fetch.
pub open spec fn get_shown(
    s: StoreView,
    file: Seq<u8>,
    c0: CacheView,
    c1: CacheView,
    line: Seq<char>,
    version: Seq<char>,
    r: Option<WebReply>,
) -> bool {
    match param(line, "key"@) {
        LookupView::Broken => r is None && c1 == c0,
        LookupView::Missing => {
            &&& r matches Some(m) && shows(m, downloads_page(listed(s, file), version))
            &&& c1 == c0
        },
        LookupView::Found(key) => match s.info_result(file, key) {
            Err(e) => {
                &&& r matches Some(m) && shows(m, unknown_page(e, version))
                &&& c1 == c0
            },
            Ok(info) => {
                &&& r matches Some(m) && fetch_shown(c0, s, file, key, info, version, m)
                &&& c1 == cache_read(c0, s, file, key, info)
            },
        },
    }
}

/// Fetches the object that a first line asks for; where it names none, lists those
/// that there are.
pub fn handle_web_get(
    store: &ObjectStorage,
    file: &[u8],
    cache: &mut ObjectCache,
    line: &str,
    version: &str,
) -> (r: Option<WebReply>)
    requires
        old(cache).wf(),
        takes_get(store@, file@, old(cache)@, line@),
    ensures
        final(cache).wf(),
        final(cache).algorithm == old(cache).algorithm,
        get_shown(store@, file@, old(cache)@, final(cache)@, line@, version@, r),
{
    match get_query_param(line, "key") {
        Lookup::Broken => None,
        Lookup::Missing => Some(web_downloads(store, file, version)),
        Lookup::Found(key) => match web_find(store, file, key.as_str(), version) {
            Err(reply) => Some(reply),
            Ok(info) => Some(web_fetch(store, file, cache, key.as_str(), &info, version)),
        },
    }
}

// Deleting an object.

/// Whether `r` answers the request to delete.
pub open spec fn removal_shown(
    h0: Holdings,
    h1: Holdings,
    file: Seq<u8>,
    line: Seq<char>,
    version: Seq<char>,
    r: Option<WebReply>,
) -> bool {
    match param(line, "key"@) {
        LookupView::Broken => r is None && h1 == h0,
        LookupView::Missing => {
            &&& r matches Some(m) && shows(m, deletions_page(listed(h0.store, file), version))
            &&& h1 == h0
        },
        LookupView::Found(key) => r matches Some(m) && delete_shown(h0, h1, file, key, version, m),
    }
}

/// Deletes the object that a first line asks for; where it names none, lists those
/// that there are.
pub fn handle_web_delete(
    store: &mut ObjectStorage,
    file: &[u8],
    cache: &mut ObjectCache,
    line: &str,
    writes: &mut Vec<FileOp>,
    version: &str,
) -> (r: Option<WebReply>)
    requires
        old(store)@.sound(file@),
        old(cache).wf(),
    ensures
        final(cache).wf(),
        final(cache).algorithm == old(cache).algorithm,
        removal_shown(
            holdings(*old(store), *old(cache), old(writes)@),
            holdings(*final(store), *final(cache), final(writes)@),
            file@,
            line@,
            version@,
            r,
        ),
{
    match get_query_param(line, "key") {
        Lookup::Broken => None,
        Lookup::Missing => Some(web_deletions(store, file, version)),
        Lookup::Found(key) => {
            Some(web_delete(store, file, cache, key.as_str(), writes, version))
        },
    }
}

// Searching.

/// Shows the objects that meet the conditions in a first line.
pub fn handle_web_search(store: &ObjectStorage, file: &[u8], line: &str, version: &str) -> (r:
    Option<WebReply>)
    requires
        store@.sound(file@),
    ensures
        match conditions_in(line@) {
            Some(q) => search_shown(listed(store@, file@), q, version@, r),
            None => r is None,
        },
{
    match read_conditions(line) {
        None => None,
        Some(q) => web_search(store, file, &q, version),
    }
}

// Any request.

/// What a request asks for.
pub open spec fn route_in(head: Seq<char>) -> Route {
    let (method, target) = asked(first_line(head));
    route_of(method, before(target, '?'))
}

/// Whether the request can be served within the limits of the machine's numbers.
pub open spec fn serves(
    s: StoreView,
    file: Seq<u8>,
    c: CacheView,
    region: Seq<u8>,
    head: Seq<char>,
    body: Seq<u8>,
) -> bool {
    match route_in(head) {
        Route::Metrics | Route::Dashboard => {
            &&& s.operable()
            &&& s.sb.free_blocks <= s.sb.total_blocks
            &&& region.len() >= SHM_HEADER_SIZE
        },
        Route::Manage | Route::Delete | Route::Search => s.sound(file),
        Route::Put => takes_put(s, file, c, head, body),
        Route::Get => takes_get(s, file, c, first_line(head)),
        Route::Benchmark => s.sound(file) && can_try_web(listed(s, file), c),
        Route::Resize | Route::Unknown => true,
    }
}

/// Whether the request can be served within the limits of the machine's numbers.
pub fn can_serve(
    store: &ObjectStorage,
    file: &[u8],
    cache: &ObjectCache,
    region: &[u8],
    request: &Request,
) -> (r: bool)
    requires
        cache.wf(),
    ensures
        r == serves(store@, file@, cache@, region@, request.head@, request.body@),
{
    let line = request_line(request.head.as_str());
    match route(line.as_str()) {
        Route::Metrics | Route::Dashboard => {
            store.is_operable() && store.super_block.free_blocks <= store.super_block.total_blocks
                && region.len() as u64 >= SHM_HEADER_SIZE
        },
        Route::Manage | Route::Delete | Route::Search => store.is_sound(file),
        Route::Put => match read_upload(request) {
            None => true,
            Some(u) => {
                if u.name.as_str().is_empty() || u.content.len() == 0 {
                    return true;
                }
                store.is_sound(file) && cache.is_usable() && store.is_recordable(
                    u.name.as_str(),
                    u.content.len() as u64,
                    u.content_type.as_str(),
                    u.tags.as_str(),
                )
            },
        },
        Route::Get => {
            if !store.is_sound(file) {
                return false;
            }
            match get_query_param(line.as_str(), "key") {
                Lookup::Found(key) => {
                    proof {
                        lemma_sound_lookup(store@, file@, key@);
                    }
                    match store.find_info(file, key.as_str()) {
                        Err(_) => true,
                        Ok(info) => cache.is_usable() && cache.can_count(info.uuid.as_str()),
                    }
                },
                _ => true,
            }
        },
        Route::Benchmark => store.is_sound(file) && is_web_triable(store, file, cache),
        Route::Resize | Route::Unknown => true,
    }
}

/// Whether `r` is what came of the request, and nothing changed but what it asked
/// for. There is no reply to a request whose values are not readable.
pub open spec fn served(
    h0: Holdings,
    h1: Holdings,
    file: Seq<u8>,
    algorithm: CacheAlgorithmType,
    region: Seq<u8>,
    uptime: u64,
    head: Seq<char>,
    body: Seq<u8>,
    version: Seq<char>,
    r: Option<WebReply>,
) -> bool {
    let line = first_line(head);
    let header = ShmHeader::decode(region);
    match route_in(head) {
        Route::Metrics => {
            &&& h1 == h0
            &&& r matches Some(m) && sends(
                m,
                "200 OK"@,
                "text/plain; version=0.0.4; charset=utf-8"@,
                metrics_text(h0.store, h0.cache, algorithm, header, uptime),
            )
        },
        Route::Dashboard => {
            &&& h1 == h0
            &&& r matches Some(m) && shows(
                m,
                dashboard_page(h0.store, h0.cache, algorithm, header, uptime, version),
            )
        },
        Route::Manage => {
            &&& h1 == h0
            &&& r matches Some(m) && shows(m, manage_page(h0.store, file, h0.cache, version))
        },
        Route::Put => match upload_of(head, body) {
            Some(u) => r matches Some(m) && put_shown(h0, h1, file, u, version, m),
            None => r is None && h1 == h0,
        },
        Route::Get => {
            &&& h1 == (Holdings { cache: h1.cache, ..h0 })
            &&& get_shown(h0.store, file, h0.cache, h1.cache, line, version, r)
        },
        Route::Delete => removal_shown(h0, h1, file, line, version, r),
        Route::Resize => {
            &&& h1 == (Holdings { cache: h1.cache, ..h0 })
            &&& resize_shown(h0.cache, h1.cache, body, version, r)
        },
        Route::Benchmark => {
            &&& h1 == h0
            &&& r matches Some(m) && shows(m, trial_page(h0.store, file, h0.cache, version))
        },
        Route::Search => {
            &&& h1 == h0
            &&& match conditions_in(line) {
                Some(q) => search_shown(listed(h0.store, file), q, version, r),
                None => r is None,
            }
        },
        Route::Unknown => {
            &&& h1 == h0
            &&& r matches Some(m) && sends(m, "404 Not Found"@, "text/plain"@, "404\n"@)
        },
    }
}

/// Serves a request. `uptime` is how long the server has run, in seconds.
pub fn dispatch(
    store: &mut ObjectStorage,
    file: &[u8],
    cache: &mut ObjectCache,
    region: &[u8],
    uptime: u64,
    request: &Request,
    version: &str,
    writes: &mut Vec<FileOp>,
) -> (r: Option<WebReply>)
    requires
        old(cache).wf(),
        serves(old(store)@, file@, old(cache)@, region@, request.head@, request.body@),
    ensures
        final(cache).wf(),
        final(cache).algorithm == old(cache).algorithm,
        served(
            holdings(*old(store), *old(cache), old(writes)@),
            holdings(*final(store), *final(cache), final(writes)@),
            file@,
            old(cache).algorithm,
            region@,
            uptime,
            request.head@,
            request.body@,
            version@,
            r,
        ),
{
    let line = request_line(request.head.as_str());
    match route(line.as_str()) {
        Route::Metrics => Some(web_metrics(store, cache, region, uptime)),
        Route::Dashboard => Some(build_dashboard(store, cache, region, uptime, version)),
        Route::Manage => Some(build_manage_page(store, file, cache, version)),
        Route::Put => handle_web_put(store, file, cache, request, writes, version),
        Route::Get => handle_web_get(store, file, cache, line.as_str(), version),
        Route::Delete => handle_web_delete(store, file, cache, line.as_str(), writes, version),
        Route::Resize => web_resize(cache, request.body.as_slice(), version),
        Route::Benchmark => Some(web_benchmark(store, file, cache, version)),
        Route::Search => handle_web_search(store, file, line.as_str(), version),
        Route::Unknown => Some(not_found()),
    }
}

} // verus!
