//! What holds of the web interface across requests, and what its pages tell.
use crate::cache::CacheView;
use crate::cache_model::{law_insert, CacheAlgorithmType};
use crate::coherence::law_put_read;
use crate::dispatch::{param, route_in, served};
use crate::error::ErrorView;
use crate::forms::{upload_of, UploadView};
use crate::http::{asked, first_line, route_of};
use crate::http_laws::{first_value, law_pairs, law_param, line_with, query_text, writable};
use crate::ids::parsed_uuid;
use crate::ipc::StatusReport;
use crate::metadata::ObjectInfoView;
use crate::pages::{
    delete_rows_text, download_rows_text, object_row_text, object_rows_text, search_text,
};
use crate::policies::algorithm_name;
use crate::search_laws::stands_in;
use crate::server::{access_view, cached_view, data_read, reports};
use crate::shm::ShmHeader;
use crate::shown_laws::{group_reads, lemma_reads_through, reads};
use crate::storage::{apply, StoreView};
use crate::storage_laws::{
    consistent, law_delete_consistent, law_delete_gone, law_list_apart, law_put_list, short_texts,
    stored,
};
use crate::storage_promises::{law_put_succeeds, least_blocks, lists_name};
use crate::text::{decimal, lossy};
use crate::web::{
    count_metric, empty_upload_text, file_head, listed, metric, metrics_text, put_shown, shows,
    unknown_page, Holdings, WebReply,
};
use crate::word_laws::{is_word, law_cut, law_decimal, law_number_read};
use crate::words::is_digit;
use vstd::prelude::*;
use vstd::string::*;
use vstd::utf8::*;

verus! {

proof fn lemma_in_left(a: Seq<char>, b: Seq<char>, x: Seq<char>)
    requires
        stands_in(a, x),
    ensures
        stands_in(a + b, x),
{
    let (p, s) = choose|p: Seq<char>, s: Seq<char>| a == #[trigger] (p + x + s);
    assert(a + b =~= p + x + (s + b));
}

proof fn lemma_in_right(a: Seq<char>, b: Seq<char>, x: Seq<char>)
    requires
        stands_in(b, x),
    ensures
        stands_in(a + b, x),
{
    let (p, s) = choose|p: Seq<char>, s: Seq<char>| b == #[trigger] (p + x + s);
    assert(a + b =~= (a + p) + x + s);
}

proof fn lemma_in_self(a: Seq<char>, x: Seq<char>, b: Seq<char>)
    ensures
        stands_in(a + x + b, x),
        stands_in(a + x, x),
{
    assert(a + x =~= a + x + Seq::<char>::empty());
}

/// What a request changes. Only an upload and a deletion change the store and its file;
/// only those, a fetch and a resize change the cache.
pub proof fn law_web_changes(
    h0: Holdings,
    h1: Holdings,
    file: Seq<u8>,
    algorithm: CacheAlgorithmType,
    region: Seq<u8>,
    uptime: u64,
    head: Seq<char>,
    body: Seq<u8>,
    version: Seq<char>,
    r: Option<WebReply>,
)
    requires
        served(h0, h1, file, algorithm, region, uptime, head, body, version, r),
    ensures
        !(route_in(head) is Put) && !(route_in(head) is Delete) ==> {
            &&& h1.store == h0.store
            &&& h1.writes == h0.writes
        },
        route_in(head) is Metrics || route_in(head) is Dashboard || route_in(head) is Manage
            || route_in(head) is Benchmark || route_in(head) is Search || route_in(head)
            is Unknown ==> h1.cache == h0.cache,
{
}

/// What the changes make of the file.
pub open spec fn file_after(h0: Holdings, h1: Holdings, file: Seq<u8>) -> Seq<u8> {
    apply(file, h1.writes.skip(h0.writes.len() as int))
}

/// The method and the path that a head asks for, with nothing behind the path.
pub open spec fn asks_for(head: Seq<char>, method: Seq<char>, path: Seq<char>) -> bool {
    asked(first_line(head)) == (method, path)
}

proof fn lemma_put_route(head: Seq<char>)
    requires
        asks_for(head, "POST"@, "/api/put"@),
    ensures
        route_in(head) is Put,
{
    reveal_strlit("/api/put");
    reveal_strlit("POST");
    reveal_strlit("GET");
    let p = "/api/put"@;
    assert("POST"@.len() != "GET"@.len());
    assert(!p.contains('?')) by {
        if p.contains('?') {
            let i = choose|i: int| 0 <= i < p.len() && p[i] == '?';
            assert(i == 0 || i == 1 || i == 2 || i == 3 || i == 4 || i == 5 || i == 6 || i == 7);
        }
    }
    law_cut(p, '?', Seq::empty());
}

proof fn lemma_routes_apart()
    ensures
        "GET"@ != "POST"@,
        is_word("GET"@),
        is_word("/api/get"@),
        is_word("/api/delete"@),
        !"/api/get"@.contains('?'),
        !"/api/delete"@.contains('?'),
        route_of("GET"@, "/api/get"@) is Get,
        route_of("GET"@, "/api/delete"@) is Delete,
{
    reveal_strlit("GET");
    reveal_strlit("POST");
    reveal_strlit("/api/get");
    reveal_strlit("/api/delete");
    reveal_strlit("/metrics");
    reveal_strlit("/");
    reveal_strlit("/manage");
    assert("GET"@.len() != "POST"@.len());
    let g = "/api/get"@;
    let d = "/api/delete"@;
    assert(g.len() == 8 && d.len() == 11);
    assert(g[1] == 'a' && d[1] == 'a');
    assert("/metrics"@[1] == 'm' && "/manage"@[1] == 'm' && "/"@.len() == 1);
    assert forall|i: int| 0 <= i < 8 implies g[i] != '?' && !crate::words::white_space(
        #[trigger] g[i],
    ) by {
        assert(i == 0 || i == 1 || i == 2 || i == 3 || i == 4 || i == 5 || i == 6 || i == 7);
    }
    assert forall|i: int| 0 <= i < 11 implies d[i] != '?' && !crate::words::white_space(
        #[trigger] d[i],
    ) by {
        assert(i == 0 || i == 1 || i == 2 || i == 3 || i == 4 || i == 5 || i == 6 || i == 7 || i
            == 8 || i == 9 || i == 10);
    }
    let w = "GET"@;
    assert forall|i: int| 0 <= i < 3 implies !crate::words::white_space(#[trigger] w[i]) by {
        assert(i == 0 || i == 1 || i == 2);
    }
}

/// The pair that names an object.
pub open spec fn key_pair() -> Seq<Seq<char>> {
    seq!["key"@]
}

proof fn lemma_key_writable(value: Seq<char>)
    requires
        is_ascii_chars(value),
    ensures
        writable(key_pair(), seq![value]),
        first_value(key_pair(), seq![value], "key"@, true) == Some(value),
{
    reveal_strlit("key");
    let k = "key"@;
    assert(k.len() == 3);
    assert forall|i: int| 0 <= i < 3 implies k[i] != '&' && k[i] != '=' && k[i] != '?'
        && !crate::words::white_space(#[trigger] k[i]) by {
        assert(i == 0 || i == 1 || i == 2);
    }
    assert(key_pair()[0] == k);
}

/// The first line of a request that fetches the object under the key.
pub open spec fn fetch_line(key: Seq<char>, version: Seq<char>) -> Seq<char> {
    line_with("GET"@, "/api/get"@, query_text(key_pair(), seq![key]), version)
}

/// The first line of a request that deletes the object under the key.
pub open spec fn delete_line(key: Seq<char>, version: Seq<char>) -> Seq<char> {
    line_with("GET"@, "/api/delete"@, query_text(key_pair(), seq![key]), version)
}

proof fn lemma_same_line(head: Seq<char>, line: Seq<char>)
    requires
        first_line(head) == line,
        first_line(line) == line,
    ensures
        route_in(head) == route_in(line),
        param(first_line(head), "key"@) == param(line, "key"@),
{
}

/// What an upload for which there is room leaves behind, and what it is recorded as.
proof fn lemma_put_stage(
    h0: Holdings,
    h1: Holdings,
    file: Seq<u8>,
    u: UploadView,
    version: Seq<char>,
    m: WebReply,
    n: int,
) -> (info: ObjectInfoView)
    requires
        consistent(h0.store, file),
        h0.cache.contents.valid(),
        put_shown(h0, h1, file, u, version, m),
        fits(h0.store, file, u, n),
    ensures
        h1.store.list_result(file_after(h0, h1, file)) == Ok::<_, ErrorView>(
            h0.store.list_result(file)->Ok_0.push(info),
        ),
        info.name == u.name,
        info.size == u.content.len(),
        info.content_type == u.content_type,
        info.tags == u.tags,
        h1.store.info_result(file_after(h0, h1, file), u.name) == Ok::<_, ErrorView>(info),
        data_read(h1.cache, h1.store, file_after(h0, h1, file), u.name, info) == Ok::<
            _,
            ErrorView,
        >(u.content),
        h1.cache.contents.at(info.uuid) matches Some(o) && o.data == u.content,
        m.access matches Some(a) && a.op@ == "PUT"@ && a.name@ == info.name && a.uuid@ == info.uuid
            && a.size == info.size,
{
    let s = h0.store;
    let (uuid, now) = choose|uuid: Seq<u8>, now: i64|
        {
            let step = #[trigger] s.put_step(
                file,
                u.name,
                u.content,
                u.content_type,
                u.tags,
                uuid,
                now,
            );
            &&& uuid.len() == 16
            &&& h1.store == step.store
            &&& h1.writes == h0.writes + step.writes
            &&& match step.result {
                Ok(info) => {
                    &&& h1.cache == h0.cache.put(info.uuid, cached_view(info, u.content))
                    &&& m.access matches Some(a) && a@ == access_view("PUT"@, info)
                },
                Err(_) => h1.cache == h0.cache,
            }
        };
    let step = s.put_step(file, u.name, u.content, u.content_type, u.tags, uuid, now);
    law_put_succeeds(s, file, u.name, u.content, u.content_type, u.tags, uuid, now, n);
    law_put_list(s, file, u.name, u.content, u.content_type, u.tags, uuid, now);
    assert(h1.writes.skip(h0.writes.len() as int) =~= step.writes);
    law_put_read(
        h0.cache,
        s,
        file,
        u.name,
        u.content,
        u.content_type,
        u.tags,
        uuid,
        now,
        u.name,
    );
    let info = step.result->Ok_0;
    law_insert(h0.cache.contents, info.uuid, cached_view(info, u.content), info.uuid);
    info
}

/// How a request for an object that there is is answered.
proof fn lemma_get_stage(
    h1: Holdings,
    h2: Holdings,
    g: Seq<u8>,
    algorithm: CacheAlgorithmType,
    region: Seq<u8>,
    uptime: u64,
    version: Seq<char>,
    head: Seq<char>,
    body: Seq<u8>,
    r: Option<WebReply>,
    protocol: Seq<char>,
    key: Seq<char>,
    info: ObjectInfoView,
    data: Seq<u8>,
)
    requires
        is_word(protocol),
        is_ascii_chars(key),
        first_line(head) == fetch_line(key, protocol),
        first_line(first_line(head)) == first_line(head),
        served(h1, h2, g, algorithm, region, uptime, head, body, version, r),
        h1.store.info_result(g, key) == Ok::<_, ErrorView>(info),
        data_read(h1.cache, h1.store, g, key, info) == Ok::<_, ErrorView>(data),
    ensures
        r is Some,
        r->0.body@ == data,
        r->0.head@ == file_head(info, data.len()),
        r->0.access matches Some(a) && a.op@ == "GET"@ && a.name@ == info.name && a.uuid@
            == info.uuid && a.size == info.size,
{
    lemma_routes_apart();
    lemma_key_writable(key);
    law_param("GET"@, "/api/get"@, key_pair(), seq![key], protocol, "key"@);
    lemma_same_line(head, fetch_line(key, protocol));
}

/// Whether an upload is complete, its name is free and no identifier, and there is room
/// for it; `n` is the least number of blocks that hold its data.
pub open spec fn fits(s: StoreView, file: Seq<u8>, u: UploadView, n: int) -> bool {
    &&& u.name.len() > 0
    &&& u.content.len() > 0
    &&& u.content.len() <= u64::MAX
    &&& is_ascii_chars(u.name)
    &&& parsed_uuid(u.name) is None
    &&& short_texts(u.name, u.content_type, u.tags)
    &&& s.can_record(u.name, u.content.len(), u.content_type, u.tags)
    &&& !lists_name(s.list_result(file)->Ok_0, u.name)
    &&& least_blocks(n, u.content.len() as int, s.sb.block_size as int)
    &&& n <= s.sb.free_blocks
    &&& s.sb.metadata_area_size + 47 + encode_utf8(u.name).len() + encode_utf8(
        u.content_type,
    ).len() + encode_utf8(u.tags).len() + 8 * n <= s.sb.max_metadata_area_size
}

/// What is uploaded through the web interface is fetched through it. Let a form describe
/// an object with a name that is not taken and with data, for which there is room. Then
/// the form is answered, the object is on the list with the name, the size, the type and
/// the tags of the form and cached, and a request for its name is answered with the very
/// bytes, as a file of that name and type. Both are logged. The name must be no identifier.
pub proof fn law_web_upload_fetch(
    h0: Holdings,
    h1: Holdings,
    h2: Holdings,
    file: Seq<u8>,
    algorithm: CacheAlgorithmType,
    region: Seq<u8>,
    uptime: u64,
    version: Seq<char>,
    head1: Seq<char>,
    body1: Seq<u8>,
    r1: Option<WebReply>,
    head2: Seq<char>,
    body2: Seq<u8>,
    r2: Option<WebReply>,
    protocol: Seq<char>,
    n: int,
)
    requires
        consistent(h0.store, file),
        h0.cache.contents.valid(),
        asks_for(head1, "POST"@, "/api/put"@),
        served(h0, h1, file, algorithm, region, uptime, head1, body1, version, r1),
        is_word(protocol),
        first_line(head2) == fetch_line(upload_of(head1, body1)->0.name, protocol),
        first_line(first_line(head2)) == first_line(head2),
        served(
            h1,
            h2,
            file_after(h0, h1, file),
            algorithm,
            region,
            uptime,
            head2,
            body2,
            version,
            r2,
        ),
        upload_of(head1, body1) is Some,
        fits(h0.store, file, upload_of(head1, body1)->0, n),
    ensures
        ({
            let u = upload_of(head1, body1)->0;
            let list = h1.store.list_result(file_after(h0, h1, file));
            &&& r1 is Some
            &&& list is Ok
            &&& list->Ok_0.len() == h0.store.list_result(file)->Ok_0.len() + 1
            &&& list->Ok_0.last().name == u.name
            &&& list->Ok_0.last().size == u.content.len()
            &&& list->Ok_0.last().content_type == u.content_type
            &&& list->Ok_0.last().tags == u.tags
            &&& h1.cache.contents.at(list->Ok_0.last().uuid) matches Some(o) && o.data == u.content
            &&& r1->0.access matches Some(a) && a.op@ == "PUT"@ && a.name@ == u.name
            &&& r2 is Some
            &&& r2->0.access matches Some(a) && a.op@ == "GET"@ && a.name@ == u.name
            &&& r2->0.body@ == u.content
            &&& stands_in(r2->0.head@, "Content-Type: "@ + u.content_type + "\r\n"@)
            &&& stands_in(r2->0.head@, "filename=\""@ + u.name + "\""@)
            &&& stands_in(
                r2->0.head@,
                "Content-Length: "@ + decimal(u.content.len()) + "\r\n"@,
            )
        }),
{
    let u = upload_of(head1, body1)->0;
    lemma_put_route(head1);
    let info = lemma_put_stage(h0, h1, file, u, version, r1->0, n);
    lemma_get_stage(
        h1,
        h2,
        file_after(h0, h1, file),
        algorithm,
        region,
        uptime,
        version,
        head2,
        body2,
        r2,
        protocol,
        u.name,
        info,
        u.content,
    );
    lemma_file_head(info, u.content.len());
}

proof fn lemma_file_head(info: ObjectInfoView, len: nat)
    ensures
        ({
            let h = file_head(info, len);
            &&& stands_in(h, "Content-Type: "@ + info.content_type + "\r\n"@)
            &&& stands_in(h, "filename=\""@ + info.name + "\""@)
            &&& stands_in(h, "Content-Length: "@ + decimal(len) + "\r\n"@)
        }),
{
    reveal_strlit("HTTP/1.1 200 OK\r\nContent-Type: ");
    reveal_strlit("\r\nContent-Disposition: attachment; filename=\"");
    reveal_strlit("\"\r\nContent-Length: ");
    reveal_strlit("\r\nConnection: close\r\n\r\n");
    reveal_strlit("Content-Type: ");
    reveal_strlit("filename=\"");
    reveal_strlit("Content-Length: ");
    reveal_strlit("\r\n");
    reveal_strlit("\"");
    let a = "HTTP/1.1 200 OK\r\nContent-Type: "@;
    let b = "\r\nContent-Disposition: attachment; filename=\""@;
    let c = "\"\r\nContent-Length: "@;
    let d = "\r\nConnection: close\r\n\r\n"@;
    let t = info.content_type;
    let n = info.name;
    let l = decimal(len);
    let h = file_head(info, len);
    assert(h =~= a + t + b + n + c + l + d);
    let x = "Content-Type: "@ + t + "\r\n"@;
    assert(a =~= a.take(17) + "Content-Type: "@);
    assert(b =~= "\r\n"@ + b.skip(2));
    assert(h =~= a.take(17) + x + (b.skip(2) + n + c + l + d));
    let y = "filename=\""@ + n + "\""@;
    assert(b =~= b.take(b.len() - 10) + "filename=\""@);
    assert(c =~= "\""@ + c.skip(1));
    assert(h =~= (a + t + b.take(b.len() - 10)) + y + (c.skip(1) + l + d));
    let z = "Content-Length: "@ + l + "\r\n"@;
    assert(c =~= c.take(3) + "Content-Length: "@);
    assert(d =~= "\r\n"@ + d.skip(2));
    assert(h =~= (a + t + b + n + c.take(3)) + z + d.skip(2));
}

/// What is deleted through the web interface is gone from it: a request for the key is
/// answered as one for what there is not, and the object is off the list. The deletion is
/// logged. The key must
/// denote one object.
pub proof fn law_web_delete_fetch(
    h0: Holdings,
    h1: Holdings,
    h2: Holdings,
    file: Seq<u8>,
    algorithm: CacheAlgorithmType,
    region: Seq<u8>,
    uptime: u64,
    version: Seq<char>,
    key: Seq<char>,
    head1: Seq<char>,
    body1: Seq<u8>,
    r1: Option<WebReply>,
    head2: Seq<char>,
    body2: Seq<u8>,
    r2: Option<WebReply>,
    protocol: Seq<char>,
)
    requires
        consistent(h0.store, file),
        is_word(protocol),
        is_ascii_chars(key),
        first_line(head1) == delete_line(key, protocol),
        first_line(first_line(head1)) == first_line(head1),
        first_line(head2) == fetch_line(key, protocol),
        first_line(first_line(head2)) == first_line(head2),
        served(h0, h1, file, algorithm, region, uptime, head1, body1, version, r1),
        served(
            h1,
            h2,
            file_after(h0, h1, file),
            algorithm,
            region,
            uptime,
            head2,
            body2,
            version,
            r2,
        ),
        h0.store.info_result(file, key) is Ok,
        forall|i: int, j: int|
            0 <= i < j < stored(h0.store, file).len() ==> !(crate::storage::answers(
                #[trigger] stored(h0.store, file)[i],
                key,
            ) && crate::storage::answers(#[trigger] stored(h0.store, file)[j], key)),
    ensures
        ({
            let g = file_after(h0, h1, file);
            &&& h1.store.list_result(g) is Ok
            &&& h1.store.list_result(g)->Ok_0.len() == h0.store.list_result(file)->Ok_0.len() - 1
            &&& !lists_name(h1.store.list_result(g)->Ok_0, key)
            &&& !h1.cache.contents.has(h0.store.info_result(file, key)->Ok_0.uuid)
                || !h0.cache.contents.valid()
            &&& r1 is Some
            &&& r1->0.access matches Some(a) && a.op@ == "DELETE"@ && a.name@ == key
            &&& r2 matches Some(m) && shows(m, unknown_page(ErrorView::NotFound(key), version))
        }),
{
    let s = h0.store;
    lemma_routes_apart();
    lemma_key_writable(key);
    law_param("GET"@, "/api/delete"@, key_pair(), seq![key], protocol, "key"@);
    lemma_same_line(head1, delete_line(key, protocol));
    law_param("GET"@, "/api/get"@, key_pair(), seq![key], protocol, "key"@);
    lemma_same_line(head2, fetch_line(key, protocol));
    let step = s.delete_step(file, key);
    if step.result is Err {
        crate::storage_laws::law_delete_refused(s, file, key);
    }
    law_delete_consistent(s, file, key);
    law_delete_gone(s, file, key);
    assert(h1.writes.skip(h0.writes.len() as int) =~= step.writes);
    let g = file_after(h0, h1, file);
    crate::coherence::law_deleted_unknown(s, file, key);
    crate::storage_laws::law_delete_list(s, file, key);
    law_list_apart(h1.store, g);
    crate::storage_promises::law_found(h1.store, g, key);
    if lists_name(h1.store.list_result(g)->Ok_0, key) {
        lemma_not_listed(h1.store, g, key);
    }
    if h0.cache.contents.valid() {
        let uuid = s.info_result(file, key)->Ok_0.uuid;
        crate::cache_model::law_remove(h0.cache.contents, uuid, uuid);
    }
}

/// A key under which nothing is found is the name of nothing on the list.
proof fn lemma_not_listed(s: StoreView, file: Seq<u8>, key: Seq<char>)
    requires
        consistent(s, file),
        s.info_result(file, key) is Err,
    ensures
        !lists_name(s.list_result(file)->Ok_0, key),
{
    let entries = stored(s, file);
    crate::storage_laws::lemma_stored(s, file, entries);
    crate::storage_laws::lemma_lookup(s, file, entries, key);
    let list = s.list_result(file)->Ok_0;
    let a = s.scanned(file)->Ok_0;
    assert forall|p: int| 0 <= p < list.len() implies (#[trigger] list[p]).name != key by {
        let i = crate::storage_laws::lemma_live_from(a, p);
        assert(a[i].0 == entries[i]);
        assert(!crate::storage::answers(entries[i], key));
    }
}

proof fn lemma_rows(infos: Seq<ObjectInfoView>, n: int, i: int)
    requires
        0 <= i < n <= infos.len(),
    ensures
        stands_in(object_rows_text(infos, n), object_row_text(infos[i])),
        stands_in(download_rows_text(infos, n), crate::pages::download_row_text(infos[i])),
        stands_in(delete_rows_text(infos, n), crate::pages::delete_row_text(infos[i])),
    decreases n,
{
    if i == n - 1 {
        lemma_in_self(object_rows_text(infos, n - 1), object_row_text(infos[i]), Seq::empty());
        lemma_in_self(
            download_rows_text(infos, n - 1),
            crate::pages::download_row_text(infos[i]),
            Seq::empty(),
        );
        lemma_in_self(
            delete_rows_text(infos, n - 1),
            crate::pages::delete_row_text(infos[i]),
            Seq::empty(),
        );
    } else {
        lemma_rows(infos, n - 1, i);
        lemma_in_left(
            object_rows_text(infos, n - 1),
            object_row_text(infos[n - 1]),
            object_row_text(infos[i]),
        );
        lemma_in_left(
            download_rows_text(infos, n - 1),
            crate::pages::download_row_text(infos[n - 1]),
            crate::pages::download_row_text(infos[i]),
        );
        lemma_in_left(
            delete_rows_text(infos, n - 1),
            crate::pages::delete_row_text(infos[n - 1]),
            crate::pages::delete_row_text(infos[i]),
        );
    }
}

/// A page with the results of a search tells how many objects were found, and shows of
/// each its name, its identifier, its size, its type and its creation time.
pub proof fn law_search_page(
    name: Option<Seq<char>>,
    tag: Option<Seq<char>>,
    kind: Option<Seq<char>>,
    infos: Seq<ObjectInfoView>,
    i: int,
)
    requires
        0 <= i < infos.len(),
    ensures
        ({
            let page = search_text(name, tag, kind, infos);
            &&& stands_in(page, "找到 "@ + decimal(infos.len()))
            &&& stands_in(page, infos[i].name)
            &&& stands_in(page, infos[i].uuid)
            &&& stands_in(page, decimal(infos[i].size as nat) + " 字节"@)
            &&& stands_in(page, infos[i].content_type)
            &&& stands_in(page, infos[i].created_at)
        }),
{
    let rows = object_rows_text(infos, infos.len() as int);
    let row = object_row_text(infos[i]);
    lemma_rows(infos, infos.len() as int, i);
    lemma_row(infos[i]);
    lemma_through(rows, row, infos[i].name);
    lemma_through(rows, row, infos[i].uuid);
    lemma_through(rows, row, decimal(infos[i].size as nat) + " 字节"@);
    lemma_through(rows, row, infos[i].content_type);
    lemma_through(rows, row, infos[i].created_at);
    let page = search_text(name, tag, kind, infos);
    let start = crate::pages::SEARCH_NAME@ + crate::pages::given(name, ""@)
        + crate::pages::SEARCH_TAG@ + crate::pages::given(tag, ""@) + crate::pages::SEARCH_TYPE@
        + crate::pages::given(kind, ""@) + crate::pages::SEARCH_QUERY@ + crate::pages::query_text(
        name,
        tag,
        kind,
    );
    let count = start + " | 找到 "@ + decimal(infos.len());
    let before = count + crate::pages::SEARCH_TABLE@;
    assert(page == before + rows + crate::pages::SEARCH_END@);
    assert(stands_in(page, rows));
    reveal_strlit(" | 找到 ");
    reveal_strlit("找到 ");
    let x = "找到 "@ + decimal(infos.len());
    assert(count =~= (start + " | 找到 "@.take(3)) + x + Seq::<char>::empty());
    assert(stands_in(count, x));
    lemma_in_left(count, crate::pages::SEARCH_TABLE@, x);
    lemma_in_left(before, rows, x);
    lemma_in_left(before + rows, crate::pages::SEARCH_END@, x);
    lemma_through(page, rows, infos[i].name);
    lemma_through(page, rows, infos[i].uuid);
    lemma_through(page, rows, decimal(infos[i].size as nat) + " 字节"@);
    lemma_through(page, rows, infos[i].content_type);
    lemma_through(page, rows, infos[i].created_at);
}

proof fn lemma_through(a: Seq<char>, b: Seq<char>, x: Seq<char>)
    requires
        stands_in(a, b),
        stands_in(b, x),
    ensures
        stands_in(a, x),
{
    let (p, s) = choose|p: Seq<char>, s: Seq<char>| a == #[trigger] (p + b + s);
    lemma_in_right(p, b, x);
    lemma_in_left(p + b, s, x);
}

proof fn lemma_row(o: ObjectInfoView)
    ensures
        stands_in(object_row_text(o), o.name),
        stands_in(object_row_text(o), o.uuid),
        stands_in(object_row_text(o), decimal(o.size as nat) + " 字节"@),
        stands_in(object_row_text(o), o.content_type),
        stands_in(object_row_text(o), o.created_at),
{
    let a = "<tr><td><strong>"@;
    let b = crate::pages::OBJECT_UUID@;
    let c = "</td><td>"@;
    let d = " 字节</td><td>"@;
    let e = "</td></tr>"@;
    let n = decimal(o.size as nat);
    let row = object_row_text(o);
    reveal_strlit(" 字节</td><td>");
    reveal_strlit(" 字节");
    assert(row =~= a + o.name + (b + o.uuid + c + n + d + o.content_type + c + o.created_at + e));
    assert(row =~= (a + o.name + b) + o.uuid + (c + n + d + o.content_type + c + o.created_at + e));
    assert(d =~= " 字节"@ + d.skip(3));
    assert(row =~= (a + o.name + b + o.uuid + c) + (n + " 字节"@) + (d.skip(3) + o.content_type + c
        + o.created_at + e));
    assert(row =~= (a + o.name + b + o.uuid + c + n + d) + o.content_type + (c + o.created_at + e));
    assert(row =~= (a + o.name + b + o.uuid + c + n + d + o.content_type + c) + o.created_at + e);
}

/// A form that asks for a capacity sets it: the number that it was written for, if that
/// is above zero.
pub proof fn law_web_resize(
    before: CacheView,
    after: CacheView,
    body: Seq<u8>,
    version: Seq<char>,
    r: Option<WebReply>,
    n: nat,
)
    requires
        crate::web::resize_shown(before, after, body, version, r),
        lossy(body) == query_text(seq!["capacity"@], seq![decimal(n)]),
        n <= usize::MAX,
        before.contents.valid(),
    ensures
        r is Some,
        n > 0 ==> after.contents.capacity == n,
        n > 0 && before.contents.items.len() <= n ==> after.contents.items == before.contents.items,
        n > 0 && before.contents.items.len() > n ==> after.contents.items.len() == n,
        n == 0 ==> after == before,
        after.hits == before.hits && after.misses == before.misses && after.evictions
            == before.evictions,
{
    let keys = seq!["capacity"@];
    let values = seq![decimal(n)];
    law_decimal(n);
    reveal_strlit("capacity");
    let k = "capacity"@;
    assert forall|i: int| 0 <= i < 8 implies k[i] != '&' && k[i] != '=' && k[i] != '?'
        && !crate::words::white_space(#[trigger] k[i]) by {
        assert(i == 0 || i == 1 || i == 2 || i == 3 || i == 4 || i == 5 || i == 6 || i == 7);
    }
    assert(keys[0] == k);
    let d = decimal(n);
    assert(is_ascii_chars(d)) by {
        assert forall|i: int| 0 <= i < d.len() implies '\0' <= #[trigger] d[i] <= '\u{7f}' by {
            assert(is_digit(d[i]));
        }
    }
    assert(writable(keys, values));
    law_pairs(keys, values, "capacity"@, false);
    assert(first_value(keys, values, "capacity"@, false) == Some(d));
    law_number_read(n, usize::MAX as nat);
    crate::cache_model::law_resize(before.contents, n);
}

/// The lines of a figure for a monitor: its kind, and what it is.
pub open spec fn figure(name: Seq<char>, kind: Seq<char>, n: nat) -> Seq<char> {
    "\n# TYPE "@ + name + " "@ + kind + "\n"@ + name + " "@ + decimal(n) + "\n"@
}

proof fn lemma_figure(name: Seq<char>, help: Seq<char>, kind: Seq<char>, n: nat)
    ensures
        reads(metric(name, help, kind, ""@, decimal(n)), figure(name, kind, n)),
{
    reveal(reads);
    reveal_strlit("");
    let a = "# HELP "@ + name + " "@ + help;
    let m = metric(name, help, kind, ""@, decimal(n));
    assert(m =~= a + figure(name, kind, n) + Seq::<char>::empty());
}

/// What an algorithm is called.
pub open spec fn told(algorithm: CacheAlgorithmType) -> Seq<char> {
    match algorithm {
        CacheAlgorithmType::Lru => "LRU"@,
        CacheAlgorithmType::Fifo => "FIFO"@,
        CacheAlgorithmType::Lfu => "LFU"@,
    }
}

/// The first `n` texts, one behind the other.
spec fn joined(parts: Seq<Seq<char>>, n: int) -> Seq<char>
    decreases n,
{
    if n <= 1 {
        parts[0]
    } else {
        joined(parts, n - 1) + parts[n - 1]
    }
}

proof fn lemma_joined(parts: Seq<Seq<char>>, n: int, k: int, x: Seq<char>)
    requires
        0 <= k < n <= parts.len(),
        reads(parts[k], x),
    ensures
        reads(joined(parts, n), x),
    decreases n,
{
    reveal(reads);
    if n > 1 {
        if k == n - 1 {
            lemma_in_right(joined(parts, n - 1), parts[n - 1], x);
        } else {
            lemma_joined(parts, n - 1, k, x);
            lemma_in_left(joined(parts, n - 1), parts[n - 1], x);
        }
    }
}

/// The figures that a monitor reads, in order.
#[verifier::opaque]
spec fn metric_parts(
    s: StoreView,
    c: CacheView,
    algorithm: CacheAlgorithmType,
    h: ShmHeader,
    uptime: u64,
) -> Seq<Seq<char>> {
    let used = (s.sb.total_blocks - s.sb.free_blocks) as nat;
    seq![
        count_metric("minios_uptime_seconds"@, "Server uptime"@, "gauge"@, uptime as nat),
        count_metric("minios_objects_total"@, "Stored objects"@, "gauge"@, s.sb.object_count as nat),
        count_metric("minios_storage_blocks_total"@, "Total data blocks"@, "gauge"@, s.sb.total_blocks as nat),
        count_metric("minios_storage_blocks_used"@, "Used data blocks"@, "gauge"@, used),
        count_metric("minios_storage_blocks_free"@, "Free data blocks"@, "gauge"@, s.sb.free_blocks as nat),
        count_metric("minios_storage_bytes_total"@, "Total capacity"@, "gauge"@, (s.sb.total_blocks * s.sb.block_size) as nat),
        count_metric("minios_storage_bytes_used"@, "Used capacity"@, "gauge"@, (used * s.sb.block_size) as nat),
        count_metric("minios_cache_hits_total"@, "Cache hits"@, "counter"@, c.hits as nat),
        count_metric("minios_cache_misses_total"@, "Cache misses"@, "counter"@, c.misses as nat),
        count_metric("minios_cache_evictions_total"@, "Cache evictions"@, "counter"@, c.evictions as nat),
        count_metric("minios_cache_size"@, "Current cached entries"@, "gauge"@, c.contents.items.len()),
        count_metric("minios_cache_capacity"@, "Max cache capacity"@, "gauge"@, c.contents.capacity),
        metric("minios_cache_hit_rate_percent"@, "Hit rate"@, "gauge"@, ""@, crate::pages::exact_hit_percent(c)),
        metric("minios_cache_algorithm_info"@, "Cache algorithm"@, "gauge"@, "{algorithm=\""@ + algorithm_name(algorithm) + "\"}"@, "1"@),
        count_metric("minios_shm_pages_total"@, "SHM total pages"@, "gauge"@, h.num_pages as nat),
        count_metric("minios_shm_pages_free"@, "SHM free pages"@, "gauge"@, h.free_pages as nat),
    ]
}

proof fn lemma_metric_parts(
    s: StoreView,
    c: CacheView,
    algorithm: CacheAlgorithmType,
    h: ShmHeader,
    uptime: u64,
)
    ensures
        ({
            let p = metric_parts(s, c, algorithm, h, uptime);
            let used = (s.sb.total_blocks - s.sb.free_blocks) as nat;
            &&& p.len() == 16
            &&& p[0] == metric("minios_uptime_seconds"@, "Server uptime"@, "gauge"@, ""@, decimal(uptime as nat))
            &&& p[1] == metric("minios_objects_total"@, "Stored objects"@, "gauge"@, ""@, decimal(s.sb.object_count as nat))
            &&& p[2] == metric("minios_storage_blocks_total"@, "Total data blocks"@, "gauge"@, ""@, decimal(s.sb.total_blocks as nat))
            &&& p[3] == metric("minios_storage_blocks_used"@, "Used data blocks"@, "gauge"@, ""@, decimal(used))
            &&& p[4] == metric("minios_storage_blocks_free"@, "Free data blocks"@, "gauge"@, ""@, decimal(s.sb.free_blocks as nat))
            &&& p[5] == metric("minios_storage_bytes_total"@, "Total capacity"@, "gauge"@, ""@, decimal((s.sb.total_blocks * s.sb.block_size) as nat))
            &&& p[6] == metric("minios_storage_bytes_used"@, "Used capacity"@, "gauge"@, ""@, decimal((used * s.sb.block_size) as nat))
            &&& p[7] == metric("minios_cache_hits_total"@, "Cache hits"@, "counter"@, ""@, decimal(c.hits as nat))
            &&& p[8] == metric("minios_cache_misses_total"@, "Cache misses"@, "counter"@, ""@, decimal(c.misses as nat))
            &&& p[9] == metric("minios_cache_evictions_total"@, "Cache evictions"@, "counter"@, ""@, decimal(c.evictions as nat))
            &&& p[10] == metric("minios_cache_size"@, "Current cached entries"@, "gauge"@, ""@, decimal(c.contents.items.len()))
            &&& p[11] == metric("minios_cache_capacity"@, "Max cache capacity"@, "gauge"@, ""@, decimal(c.contents.capacity))
            &&& p[12] == metric(
                "minios_cache_hit_rate_percent"@,
                "Hit rate"@,
                "gauge"@,
                ""@,
                crate::pages::exact_hit_percent(c),
            )
            &&& p[13] == metric("minios_cache_algorithm_info"@, "Cache algorithm"@, "gauge"@, "{algorithm=\""@ + algorithm_name(algorithm) + "\"}"@, "1"@)
            &&& p[14] == metric("minios_shm_pages_total"@, "SHM total pages"@, "gauge"@, ""@, decimal(h.num_pages as nat))
            &&& p[15] == metric("minios_shm_pages_free"@, "SHM free pages"@, "gauge"@, ""@, decimal(h.free_pages as nat))
        }),
{
    reveal(metric_parts);
}

proof fn lemma_all_joined(parts: Seq<Seq<char>>)
    requires
        parts.len() == 16,
    ensures
        joined(parts, 16) == parts[0] + parts[1] + parts[2] + parts[3] + parts[4] + parts[5] + parts[6] + parts[7] + parts[8] + parts[9] + parts[10] + parts[11] + parts[12] + parts[13] + parts[14] + parts[15],
{
    reveal_with_fuel(joined, 17);
}

proof fn lemma_reads(
    parts: Seq<Seq<char>>,
    k: int,
    name: Seq<char>,
    help: Seq<char>,
    kind: Seq<char>,
    n: nat,
)
    requires
        0 <= k < 16,
        parts.len() == 16,
        parts[k] == metric(name, help, kind, ""@, decimal(n)),
    ensures
        reads(joined(parts, 16), figure(name, kind, n)),
{
    lemma_figure(name, help, kind, n);
    lemma_joined(parts, 16, k, figure(name, kind, n));
}

proof fn lemma_reads_algorithm(
    parts: Seq<Seq<char>>,
    algorithm: CacheAlgorithmType,
)
    requires
        parts.len() == 16,
        parts[13] == metric(
            "minios_cache_algorithm_info"@,
            "Cache algorithm"@,
            "gauge"@,
            "{algorithm=\""@ + algorithm_name(algorithm) + "\"}"@,
            "1"@,
        ),
    ensures
        reads(
            joined(parts, 16),
            "\nminios_cache_algorithm_info{algorithm=\""@ + told(algorithm) + "\"} 1\n"@,
        ),
{
    let info = "\nminios_cache_algorithm_info{algorithm=\""@ + told(algorithm) + "\"} 1\n"@;
    let name = "minios_cache_algorithm_info"@;
    let front = "# HELP "@ + name + " "@ + "Cache algorithm"@ + "\n# TYPE "@ + name + " "@
        + "gauge"@;
    reveal_strlit("\nminios_cache_algorithm_info{algorithm=\"");
    reveal_strlit("minios_cache_algorithm_info");
    reveal_strlit("{algorithm=\"");
    reveal_strlit("\"} 1\n");
    reveal_strlit("\"}");
    reveal_strlit(" ");
    reveal_strlit("1");
    reveal_strlit("\n");
    assert(reads(parts[13], info)) by {
        reveal(reads);
        assert(parts[13] =~= front + info + Seq::<char>::empty());
    }
    lemma_joined(parts, 16, 13, info);
}

/// What a monitor reads: every figure stands on a line of its own, behind its name. The
/// blocks in use are those that are not free, and the bytes are as many as the blocks
/// hold.
pub proof fn law_metrics(
    s: StoreView,
    c: CacheView,
    algorithm: CacheAlgorithmType,
    h: ShmHeader,
    uptime: u64,
)
    requires
        s.sb.free_blocks <= s.sb.total_blocks,
    ensures
        ({
            let t = metrics_text(s, c, algorithm, h, uptime);
            let used = (s.sb.total_blocks - s.sb.free_blocks) as nat;
            &&& reads(t, figure("minios_uptime_seconds"@, "gauge"@, uptime as nat))
            &&& reads(t, figure("minios_objects_total"@, "gauge"@, s.sb.object_count as nat))
            &&& reads(t, figure("minios_storage_blocks_total"@, "gauge"@, s.sb.total_blocks as nat))
            &&& reads(t, figure("minios_storage_blocks_used"@, "gauge"@, used))
            &&& reads(t, figure("minios_storage_blocks_free"@, "gauge"@, s.sb.free_blocks as nat))
            &&& reads(
                t,
                figure(
                    "minios_storage_bytes_total"@, "gauge"@,
                    (s.sb.total_blocks * s.sb.block_size) as nat,
                ),
            )
            &&& reads(
                t,
                figure("minios_storage_bytes_used"@, "gauge"@, (used * s.sb.block_size) as nat),
            )
            &&& reads(t, figure("minios_cache_hits_total"@, "counter"@, c.hits as nat))
            &&& reads(t, figure("minios_cache_misses_total"@, "counter"@, c.misses as nat))
            &&& reads(t, figure("minios_cache_evictions_total"@, "counter"@, c.evictions as nat))
            &&& reads(t, figure("minios_cache_size"@, "gauge"@, c.contents.items.len()))
            &&& reads(t, figure("minios_cache_capacity"@, "gauge"@, c.contents.capacity))
            &&& reads(
                t,
                "\nminios_cache_algorithm_info{algorithm=\""@ + told(algorithm) + "\"} 1\n"@,
            )
            &&& reads(t, figure("minios_shm_pages_total"@, "gauge"@, h.num_pages as nat))
            &&& reads(t, figure("minios_shm_pages_free"@, "gauge"@, h.free_pages as nat))
        }),
{
    let used = (s.sb.total_blocks - s.sb.free_blocks) as nat;
    let parts = metric_parts(s, c, algorithm, h, uptime);
    lemma_metric_parts(s, c, algorithm, h, uptime);
    lemma_all_joined(parts);
    lemma_reads(parts, 0, "minios_uptime_seconds"@, "Server uptime"@, "gauge"@, uptime as nat);
    lemma_reads(parts, 1, "minios_objects_total"@, "Stored objects"@, "gauge"@, s.sb.object_count as nat);
    lemma_reads(parts, 2, "minios_storage_blocks_total"@, "Total data blocks"@, "gauge"@, s.sb.total_blocks as nat);
    lemma_reads(parts, 3, "minios_storage_blocks_used"@, "Used data blocks"@, "gauge"@, used);
    lemma_reads(parts, 4, "minios_storage_blocks_free"@, "Free data blocks"@, "gauge"@, s.sb.free_blocks as nat);
    lemma_reads(parts, 5, "minios_storage_bytes_total"@, "Total capacity"@, "gauge"@, (s.sb.total_blocks * s.sb.block_size) as nat);
    lemma_reads(parts, 6, "minios_storage_bytes_used"@, "Used capacity"@, "gauge"@, (used * s.sb.block_size) as nat);
    lemma_reads(parts, 7, "minios_cache_hits_total"@, "Cache hits"@, "counter"@, c.hits as nat);
    lemma_reads(parts, 8, "minios_cache_misses_total"@, "Cache misses"@, "counter"@, c.misses as nat);
    lemma_reads(parts, 9, "minios_cache_evictions_total"@, "Cache evictions"@, "counter"@, c.evictions as nat);
    lemma_reads(parts, 10, "minios_cache_size"@, "Current cached entries"@, "gauge"@, c.contents.items.len());
    lemma_reads(parts, 11, "minios_cache_capacity"@, "Max cache capacity"@, "gauge"@, c.contents.capacity);
    lemma_reads(parts, 14, "minios_shm_pages_total"@, "SHM total pages"@, "gauge"@, h.num_pages as nat);
    lemma_reads(parts, 15, "minios_shm_pages_free"@, "SHM free pages"@, "gauge"@, h.free_pages as nat);
    lemma_reads_algorithm(parts, algorithm);
}

/// What the status of a server tells. The blocks in use and the free ones are all; so are
/// the bytes of both, which are those of their blocks. There are as many objects as the
/// list holds, and as many blocks free as the bitmap says. The figures of the cache are
/// its counts.
pub proof fn law_status(
    t: StatusReport,
    s: StoreView,
    file: Seq<u8>,
    c: CacheView,
    algorithm: CacheAlgorithmType,
    region: Seq<u8>,
    uptime: u64,
)
    requires
        reports(t, s, c, algorithm, region, uptime),
        consistent(s, file),
    ensures
        t.used_blocks + t.free_blocks == t.total_blocks,
        t.total_blocks == s.sb.total_blocks,
        t.free_blocks == crate::bitmap::free_slots(s.bitmap, s.sb.total_blocks as nat).len(),
        t.used_capacity + t.free_capacity == t.total_capacity,
        t.total_capacity == t.total_blocks * t.block_size,
        t.free_capacity == t.free_blocks * t.block_size,
        t.object_count == s.list_result(file)->Ok_0.len(),
        t.max_objects * 256 <= s.sb.max_metadata_area_size < (t.max_objects + 1) * 256,
        t.cache_hits == c.hits && t.cache_misses == c.misses && t.cache_evictions == c.evictions,
        t.cache_size == c.contents.items.len(),
        t.cache_capacity == c.contents.capacity,
        t.shm_pages_total == ShmHeader::decode(region).num_pages,
        t.shm_pages_free == ShmHeader::decode(region).free_pages,
        t.uptime_seconds == uptime,
        t.cache_algorithm@ == told(algorithm),
{
    law_list_apart(s, file);
    let a = (t.total_blocks - t.free_blocks) as int;
    let b = t.free_blocks as int;
    let k = t.block_size as int;
    assert(a * k + b * k == (a + b) * k) by (nonlinear_arith);
}

/// An upload without a name or without data changes nothing, and its answer says so.
pub proof fn law_web_empty_upload(
    h0: Holdings,
    h1: Holdings,
    file: Seq<u8>,
    u: UploadView,
    version: Seq<char>,
    r: WebReply,
)
    requires
        put_shown(h0, h1, file, u, version, r),
        u.name.len() == 0 || u.content.len() == 0,
    ensures
        h1 == h0,
        r.body@ == encode_utf8(empty_upload_text(version)),
        reads(empty_upload_text(version), "对象名称和内容不能为空"@),
{
    broadcast use group_reads;

    let body = "<p class='error'>对象名称和内容不能为空</p><a class='btn-back' href='/manage'>返回</a>"@;
    reveal_strlit("<p class='error'>对象名称和内容不能为空</p><a class='btn-back' href='/manage'>返回</a>");
    reveal_strlit("对象名称和内容不能为空");
    assert(reads(body, "对象名称和内容不能为空"@)) by {
        reveal(reads);
        assert(body =~= body.take(17) + "对象名称和内容不能为空"@ + body.skip(28));
    }
    assert(reads(empty_upload_text(version), body));
    lemma_reads_through(empty_upload_text(version), body, "对象名称和内容不能为空"@);
}

/// The web interface shows the objects of the list; none where there is no list.
pub proof fn law_listed(s: StoreView, file: Seq<u8>)
    ensures
        s.list_result(file) is Ok ==> listed(s, file) == s.list_result(file)->Ok_0,
        s.list_result(file) is Err ==> listed(s, file).len() == 0,
{
}

} // verus!
