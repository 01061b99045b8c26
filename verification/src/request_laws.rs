//! What holds of the requests that a server reads, and of those that it can take.
use crate::bytes::has_at;
use crate::cache::{accesses_of, CacheView};
use crate::dispatch::{route_in, serves};
use crate::form_laws::{blank_line, lemma_bytes_is};
use crate::http::{content_length, head_mark, line_from, missing_bytes, route_of};
use crate::ipc::{too_long, ClientMessage};
use crate::error::ErrorView;
use crate::pages::{exact_hit_percent, hit_percent, used_percent};
use crate::policies::algorithm_name;
use crate::rates::law_percent;
use crate::server::{returnable, switch_text};
use crate::service::{takes, Server};
use crate::shm::{counted, object_name_of, ShmHeader};
use crate::shown_laws::{group_reads, reads};
use crate::storage::StoreView;
use crate::storage_laws::{consistent, law_consistent_sound};
use crate::storage_promises::{least_blocks, lemma_least_blocks};
use crate::forms::upload_of;
use crate::text::{decimal, digit, lossy, lowercase};
use crate::web::listed;
use crate::web_laws::told;
use crate::word_laws::{blank, law_cut, law_decimal, law_number_read, law_trimmed};
use crate::words::{begins_with, is_digit, lines_of, white_space};
use vstd::prelude::*;
use vstd::string::*;
use vstd::utf8::*;

verus! {

/// What a method and a path ask for, each of them and nothing else.
pub proof fn law_routes(method: Seq<char>, path: Seq<char>)
    ensures
        ({
            let get = method == "GET"@;
            let post = method == "POST"@;
            let r = route_of(method, path);
            &&& r is Metrics <==> get && path == "/metrics"@
            &&& r is Dashboard <==> get && path == "/"@
            &&& r is Manage <==> get && path == "/manage"@
            &&& r is Put <==> post && path == "/api/put"@
            &&& r is Get <==> get && path == "/api/get"@
            &&& r is Delete <==> get && path == "/api/delete"@
            &&& r is Resize <==> post && path == "/api/resize"@
            &&& r is Benchmark <==> get && path == "/api/benchmark"@
            &&& r is Search <==> get && path == "/api/search"@
        }),
{
    reveal_strlit("GET");
    reveal_strlit("POST");
    reveal_strlit("/metrics");
    reveal_strlit("/");
    reveal_strlit("/manage");
    reveal_strlit("/api/put");
    reveal_strlit("/api/get");
    reveal_strlit("/api/delete");
    reveal_strlit("/api/resize");
    reveal_strlit("/api/benchmark");
    reveal_strlit("/api/search");
    assert("GET"@.len() == 3 && "POST"@.len() == 4);
    assert("/"@.len() == 1 && "/manage"@.len() == 7 && "/metrics"@.len() == 8);
    assert("/api/get"@.len() == 8 && "/api/delete"@.len() == 11 && "/api/search"@.len() == 11);
    assert("/api/benchmark"@.len() == 14);
    assert("/api/put"@.len() == 8 && "/api/resize"@.len() == 11);
    assert("/metrics"@[1] == 'm' && "/api/get"@[1] == 'a');
    assert("/api/delete"@[5] == 'd' && "/api/search"@[5] == 's');
}

proof fn lemma_line_found(lines: Seq<Seq<char>>, name: Seq<char>, from: int, i: int)
    requires
        0 <= from <= i < lines.len(),
        begins_with(lowercase(lines[i]), name),
        forall|j: int| 0 <= j < i ==> !begins_with(lowercase(#[trigger] lines[j]), name),
    ensures
        line_from(lines, name, from) == Some(lines[i]),
    decreases i - from,
{
    if from < i {
        lemma_line_found(lines, name, from + 1, i);
    }
}

proof fn lemma_no_line(lines: Seq<Seq<char>>, name: Seq<char>, from: int)
    requires
        0 <= from,
        forall|j: int| 0 <= j < lines.len() ==> !begins_with(lowercase(#[trigger] lines[j]), name),
    ensures
        line_from(lines, name, from) is None,
    decreases lines.len() - from,
{
    if from < lines.len() {
        lemma_no_line(lines, name, from + 1);
    }
}

/// The length that a head announces is the number on its first line of that name, in
/// upper or lower case, with white space around it; none is announced without one.
pub proof fn law_announced(
    head: Seq<char>,
    i: int,
    name: Seq<char>,
    a: Seq<char>,
    n: nat,
    b: Seq<char>,
)
    requires
        !name.contains(':'),
        blank(a),
        blank(b),
        n <= usize::MAX,
    ensures
        0 <= i < lines_of(head).len() && lines_of(head)[i] == name + seq![':'] + (a + decimal(n) + b)
            && begins_with(lowercase(lines_of(head)[i]), "content-length:"@) && (forall|j: int|
            0 <= j < i ==> !begins_with(
                lowercase(#[trigger] lines_of(head)[j]),
                "content-length:"@,
            )) ==> content_length(head) == n,
        (forall|j: int|
            0 <= j < lines_of(head).len() ==> !begins_with(
                lowercase(#[trigger] lines_of(head)[j]),
                "content-length:"@,
            )) ==> content_length(head) == 0,
{
    let mark = "content-length:"@;
    let lines = lines_of(head);
    if forall|j: int|
        0 <= j < lines.len() ==> !begins_with(lowercase(#[trigger] lines[j]), mark) {
        lemma_no_line(lines, mark, 0);
    }
    if 0 <= i < lines.len() && lines[i] == name + seq![':'] + (a + decimal(n) + b) && begins_with(
        lowercase(lines[i]),
        mark,
    ) && (forall|j: int| 0 <= j < i ==> !begins_with(lowercase(#[trigger] lines[j]), mark)) {
        lemma_line_found(lines, mark, 0, i);
        let d = decimal(n);
        let value = a + d + b;
        law_decimal(n);
        assert(is_digit(d[0]) && is_digit(d.last()));
        assert(!value.contains(':')) by {
            if value.contains(':') {
                let k = choose|k: int| 0 <= k < value.len() && value[k] == ':';
                if k < a.len() {
                    assert(white_space(a[k]));
                } else if k < a.len() + d.len() {
                    assert(is_digit(d[k - a.len()]));
                } else {
                    assert(white_space(b[k - a.len() - d.len()]));
                }
            }
        }
        law_cut(name, ':', value);
        law_cut(value, ':', Seq::empty());
        law_trimmed(a, d, b);
        law_number_read(n, usize::MAX as nat);
    }
}

/// How much of a request is still to be read: a byte while its head has not ended, and
/// then what is left of the body that the head announces.
pub proof fn law_missing(head: Seq<u8>, body: Seq<u8>)
    requires
        forall|i: int| 0 <= i < head.len() ==> !#[trigger] has_at(
            head + blank_line() + body,
            blank_line(),
            i,
        ),
    ensures
        ({
            let data = head + blank_line() + body;
            let n = content_length(lossy(head)) as int;
            &&& n >= body.len() ==> missing_bytes(data) == n - body.len()
            &&& n < body.len() ==> missing_bytes(data) == 0
        }),
{
    assert(head_mark() =~= blank_line());
    let data = head + head_mark() + body;
    let i = head.len() as int;
    assert(data.subrange(i, i + 4) =~= head_mark());
    assert(has_at(data, head_mark(), i));
    lemma_bytes_is(data, head_mark(), 0, i);
    assert(data.take(i) =~= head);
}

/// A request whose head has not ended is read on byte by byte.
pub proof fn law_head_open(data: Seq<u8>)
    requires
        forall|i: int| 0 <= i ==> !#[trigger] has_at(data, blank_line(), i),
    ensures
        missing_bytes(data) == 1,
{
    assert(head_mark() =~= blank_line());
    lemma_open(data, 0);
}

proof fn lemma_open(data: Seq<u8>, from: int)
    requires
        0 <= from,
        forall|i: int| 0 <= i ==> !#[trigger] has_at(data, head_mark(), i),
    ensures
        crate::bytes::bytes_from(data, head_mark(), from) is None,
    decreases data.len() + 1 - from,
{
    if from + 4 <= data.len() {
        assert(!has_at(data, head_mark(), from));
        lemma_open(data, from + 1);
    }
}

/// Whether no count of the cache is about to run over.
pub open spec fn countable(c: CacheView, n: int) -> bool {
    &&& forall|i: int|
        0 <= i < c.contents.items.len() ==> (#[trigger] c.contents.items[i]).uses + n <= u64::MAX
    &&& forall|k: Seq<char>| accesses_of(c.accesses, k) + n <= u64::MAX
}

/// An object can be recorded, however many there are, if the length of its entry is a
/// number of 32 bits; `n` is the least number of blocks that hold its data.
pub proof fn law_recordable(
    s: StoreView,
    name: Seq<char>,
    len: nat,
    content_type: Seq<char>,
    tags: Seq<char>,
    n: int,
)
    requires
        s.sb.object_count < u64::MAX,
        s.sb.block_size > 0,
        least_blocks(n, len as int, s.sb.block_size as int),
    ensures
        s.can_record(name, len, content_type, tags) <==> 47 + encode_utf8(name).len()
            + encode_utf8(content_type).len() + encode_utf8(tags).len() + 8 * n <= u32::MAX,
{
    lemma_least_blocks(n, len as int, s.sb.block_size as int);
}

/// The web interface serves whatever is asked of a store in order, as long as no count
/// runs over; what is uploaded must be recordable, and for a trial there must be room.
pub proof fn law_serves(
    s: StoreView,
    file: Seq<u8>,
    c: CacheView,
    region: Seq<u8>,
    head: Seq<char>,
    body: Seq<u8>,
)
    requires
        consistent(s, file),
        region.len() >= 64,
        countable(c, 1),
        route_in(head) is Put ==> (upload_of(head, body) matches Some(u) ==> s.can_record(
            u.name,
            u.content.len(),
            u.content_type,
            u.tags,
        )),
        route_in(head) is Benchmark ==> {
            &&& 200 * listed(s, file).len() + 12345 <= u64::MAX
            &&& listed(s, file).len() <= usize::MAX / 128
            &&& c.contents.capacity <= usize::MAX / 128
        },
    ensures
        serves(s, file, c, region, head, body),
{
    law_consistent_sound(s, file);
}

/// A server takes whatever is asked of a store in order; for a trial there must be room.
pub proof fn law_takes(server: Server, file: Seq<u8>, region: Seq<u8>, request: ClientMessage)
    requires
        consistent(server.storage@, file),
        server.cache.wf(),
        region.len() >= 64,
        request matches ClientMessage::CacheBenchmark { iterations, .. } ==> {
            let n = server.storage@.list_result(file)->Ok_0.len();
            &&& iterations * n + 12345 <= u64::MAX
            &&& n <= usize::MAX / 128
        },
    ensures
        takes(server, file, region, request),
{
    law_consistent_sound(server.storage@, file);
}

/// A server with a store in order can start, as long as no count of its cache runs over.
pub proof fn law_startable(server: Server, file: Seq<u8>)
    requires
        consistent(server.storage@, file),
        countable(server.cache@, server.config.cache_warmup as int),
    ensures
        server.startable(file),
{
    law_consistent_sound(server.storage@, file);
}

/// Pages that were given out can be taken back.
pub proof fn law_returnable(region: Seq<u8>, start: u32, count: u32)
    requires
        counted(region),
        start + count <= ShmHeader::decode(region).num_pages,
        ShmHeader::decode(region).num_pages <= 0x7fff_ffff,
    ensures
        returnable(region, start, count),
{
    crate::bitmap::lemma_free_bound(
        crate::shm::page_bits(region),
        ShmHeader::decode(region).num_pages as nat,
    );
}

/// The rates that are shown: the hits among all accesses, and the used among all blocks.
pub proof fn law_rates(c: CacheView, s: StoreView)
    requires
        0 < c.hits + c.misses < 0x20_0000_0000_0000,
        s.sb.free_blocks <= s.sb.total_blocks,
        0 < s.sb.total_blocks * s.sb.block_size < 0x20_0000_0000_0000,
    ensures
        ({
            let all = c.hits + c.misses;
            let room = s.sb.total_blocks * s.sb.block_size;
            let used = (s.sb.total_blocks - s.sb.free_blocks) * s.sb.block_size;
            &&& exists|h: nat|
                {
                    &&& -all < h * all - 10000 * c.hits < all
                    &&& exact_hit_percent(c) == #[trigger] decimal(h / 100) + seq![
                        '.',
                        digit(h / 10 % 10),
                        digit(h % 10),
                    ]
                }
            &&& exists|h: nat|
                {
                    &&& -all < h * all - 1000 * c.hits < all
                    &&& hit_percent(c) == #[trigger] decimal(h / 10) + seq!['.', digit(h % 10)]
                }
            &&& exists|h: nat|
                {
                    &&& -room < h * room - 1000 * used < room
                    &&& used_percent(s) == #[trigger] decimal(h / 10) + seq!['.', digit(h % 10)]
                }
        }),
{
    law_percent(c.hits as nat, (c.hits + c.misses) as nat);
    let room = s.sb.total_blocks * s.sb.block_size;
    let used = (s.sb.total_blocks - s.sb.free_blocks) * s.sb.block_size;
    assert(0 <= used <= room) by (nonlinear_arith)
        requires
            used == (s.sb.total_blocks - s.sb.free_blocks) * s.sb.block_size,
            room == s.sb.total_blocks * s.sb.block_size,
            0 <= s.sb.free_blocks <= s.sb.total_blocks,
            s.sb.block_size >= 0,
    ;
    law_percent(used as nat, room as nat);
}

/// To ask for another policy is answered with the one that stays, and with how to get the
/// other; to ask for the same one, with that it is there.
pub proof fn law_switch(
    from: crate::cache_model::CacheAlgorithmType,
    to: crate::cache_model::CacheAlgorithmType,
)
    ensures
        from == to ==> switch_text(from, to) == "缓存算法已经是 "@ + told(to),
        from != to ==> {
            &&& reads(switch_text(from, to), "从 "@ + told(from) + " 切换到 "@)
            &&& reads(switch_text(from, to), " 切换到 "@ + told(to))
            &&& reads(switch_text(from, to), " 需要重启服务器。当前算法仍为 "@ + told(from))
            &&& reads(
                switch_text(from, to),
                "。请使用以下参数重启服务器: --cache-algorithm "@ + told(to),
            )
        },
{
    broadcast use group_reads;

    assert(told(from) == algorithm_name(from));
    assert(told(to) == algorithm_name(to));
}

/// The name of a shared memory has a slash in front, once.
pub proof fn law_object_name(name: Seq<char>)
    requires
        name.len() == 0 || name[0] != '/',
    ensures
        object_name_of(name) == seq!['/'] + name,
        object_name_of(seq!['/'] + name) == seq!['/'] + name,
{
    reveal_strlit("/");
    assert("/"@ =~= seq!['/']);
    assert((seq!['/'] + name)[0] == '/');
}

/// A message that is too long is refused with its length and with the greatest one.
pub proof fn law_too_long(kind: Seq<char>, len: nat)
    ensures
        too_long(kind, len) matches ErrorView::Ipc(m) && reads(m, kind + "过大："@) && reads(
            m,
            "过大："@ + decimal(len) + " 字节（最大允许 "@,
        ) && reads(m, " 字节（最大允许 "@ + decimal(65536) + " 字节）"@),
{
    broadcast use group_reads;

}

} // verus!
