//! What the server does with each request.
//!
//! A request that is answered at once has one function. Storing and reading an
//! object exchange several messages: each has one function for every turn, and
//! who runs the exchange sends the replies and waits for the client.
use crate::access_log::{AccessRecord, AccessView};
use crate::bitmap::first_run;
use crate::bytes::put_bytes;
use crate::bitmap::{lemma_flips_bound, slots_from};
use crate::cache::{accesses_of, texts_of, CacheView, ObjectCache};
use crate::cache_model::{lemma_slot, CacheAlgorithmType, CachedView};
use crate::error::{error_text, ErrorView, MiniOsError};
use crate::ids::{hyphenated, is_issued_id, random_uuid, uuid_text};
use crate::ipc::{
    error_message, ok_message, says_error, says_info, says_list, says_ok, says_ready, ClientMessage,
    ServerMessage, StatusReport,
};
use crate::metadata::{ObjectInfo, ObjectInfoView};
use crate::policies::{algorithm_name, algorithm_named, CachedObject};
use crate::search::{found, search, Query};
use crate::shm::{mapped, page_bits, page_start, paged, SharedMemory, ShmHeader, SHM_HEADER_SIZE};
use crate::storage::{
    infos_of, lemma_block_fits, lemma_sound_lookup, ops_of, FileOp, ObjectStorage, StoreView,
};
use crate::text::{decimal, lowercase, push_decimal};
use crate::trials::{
    entries_from, entry_is, rank, ranked, row_is, run_sweep, run_trials, sweep, sweep_rows_from,
    trials,
};
use crate::workload::{generate_weighted_workload, law_workload, workload};
use vstd::prelude::*;
use vstd::slice::*;
use vstd::string::*;

verus! {

/// `head` followed by the description of an error.
pub open spec fn with_cause(head: Seq<char>, e: ErrorView) -> Seq<char> {
    head + error_text(e)
}

fn cause(head: &str, e: &MiniOsError) -> (r: String)
    ensures
        r@ == with_cause(head@, e@),
{
    let mut s = head.to_owned();
    let text = e.message();
    s.append(text.as_str());
    s
}

/// The reply to what is no request.
pub fn parse_failure(e: &MiniOsError) -> (r: ServerMessage)
    ensures
        says_error(r, "PARSE_ERROR"@, with_cause("无法解析请求: "@, e@)),
{
    error_message("PARSE_ERROR", cause("无法解析请求: ", e))
}

/// The cached form of an object.
pub open spec fn cached_view(info: ObjectInfoView, data: Seq<u8>) -> CachedView {
    CachedView {
        uuid: info.uuid,
        data,
        name: info.name,
        content_type: info.content_type,
        size: info.size,
        tags: info.tags,
    }
}

/// The cached form of an object.
pub fn cached_of(info: &ObjectInfo, data: Vec<u8>) -> (r: CachedObject)
    ensures
        r@ == cached_view(info@, data@),
{
    CachedObject {
        uuid: info.uuid.clone(),
        data,
        name: info.name.clone(),
        content_type: info.content_type.clone(),
        size: info.size,
        tags: info.tags.clone(),
    }
}

/// What is logged of an access to an object.
pub open spec fn access_view(op: Seq<char>, info: ObjectInfoView) -> AccessView {
    AccessView {
        op,
        name: info.name,
        uuid: info.uuid,
        size: info.size,
        content_type: info.content_type,
        tags: info.tags,
    }
}

/// What is logged of an access to an object.
pub fn access_of(op: &str, info: &ObjectInfo) -> (r: AccessRecord)
    ensures
        r@ == access_view(op@, info@),
{
    AccessRecord {
        op: op.to_owned(),
        name: info.name.clone(),
        uuid: info.uuid.clone(),
        size: info.size,
        content_type: info.content_type.clone(),
        tags: info.tags.clone(),
    }
}

/// What is logged of a deletion.
pub open spec fn deletion_view(key: Seq<char>, uuid: Seq<char>) -> AccessView {
    AccessView {
        op: "DELETE"@,
        name: key,
        uuid,
        size: 0,
        content_type: Seq::empty(),
        tags: "{}"@,
    }
}

pub fn deletion_of(key: &str, uuid: &str) -> (r: AccessRecord)
    ensures
        r@ == deletion_view(key@, uuid@),
{
    AccessRecord {
        op: "DELETE".to_owned(),
        name: key.to_owned(),
        uuid: uuid.to_owned(),
        size: 0,
        content_type: String::new(),
        tags: "{}".to_owned(),
    }
}

// Storing an object.

/// The refusal of a name that is taken.
pub fn put_check(store: &ObjectStorage, file: &[u8], name: &str) -> (r: Option<ServerMessage>)
    requires
        store@.sound(file@),
    ensures
        match r {
            Some(m) => store@.name_taken(file@, name@) && says_error(
                m,
                "ALREADY_EXISTS"@,
                "名为 '"@ + name@ + "' 的对象已存在"@,
            ),
            None => !store@.name_taken(file@, name@),
        },
{
    proof {
        lemma_sound_lookup(store@, file@, name@);
    }
    if store.find_by_name(file, name).is_some() {
        let mut m = "名为 '".to_owned();
        m.append(name);
        m.append("' 的对象已存在");
        Some(error_message("ALREADY_EXISTS", m))
    } else {
        None
    }
}

/// How many pages `size` bytes take, as a number of 32 bits. No data takes one.
pub open spec fn pages_of(size: int, page_size: int) -> int {
    if size == 0 {
        1
    } else {
        ((size + page_size - 1) / page_size) % 0x1_0000_0000
    }
}

/// How many pages `size` bytes take.
pub fn pages_for(size: u64, page_size: u32) -> (r: u32)
    requires
        page_size > 0,
        size + page_size <= u64::MAX,
    ensures
        r == pages_of(size as int, page_size as int),
{
    if size == 0 {
        1
    } else {
        ((size + page_size as u64 - 1) / page_size as u64 % 0x1_0000_0000) as u32
    }
}

/// What came of asking for pages.
pub enum Paging {
    /// There are none at present: wait, and ask again.
    Wait,
    /// The request is answered.
    Refused(ServerMessage),
    /// These pages were given out.
    Given { start: u32, count: u32 },
    /// The exchange ends with an error.
    Failed(MiniOsError),
}

/// What is refused of `count` pages of a region.
pub open spec fn page_refusal(h: ShmHeader, count: int) -> Option<ErrorView> {
    if count == 0 {
        Some(ErrorView::Shm("Cannot allocate 0 pages"@))
    } else if count > h.num_pages {
        Some(
            ErrorView::Shm(
                "Requested "@ + decimal(count as nat) + " pages but only "@ + decimal(
                    h.num_pages as nat,
                ) + " exist"@,
            ),
        )
    } else {
        None
    }
}

/// The pages that are given out for `count`, unless that many are refused.
pub open spec fn page_run(region: Seq<u8>, count: int) -> Option<int> {
    let h = ShmHeader::decode(region);
    if h.free_pages < count {
        None
    } else {
        first_run(page_bits(region), h.num_pages as int, count)
    }
}

/// Whether `r` is what asking for the pages of `size` bytes yields, and `after`
/// the region then.
pub open spec fn paging_is(r: Paging, region: Seq<u8>, after: Seq<u8>, size: int) -> bool {
    let h = ShmHeader::decode(region);
    let count = pages_of(size, h.page_size as int);
    match page_refusal(h, count) {
        Some(e) => {
            &&& r matches Paging::Refused(m) && says_error(
                m,
                "NO_SHM_SPACE"@,
                with_cause("无法分配共享内存页面: "@, e),
            )
            &&& after == region
        },
        None => match page_run(region, count) {
            None => r is Wait && after == region,
            Some(s) => {
                &&& r matches Paging::Given { start, count: n } && start == s && n == count
                &&& after == paged(region, s, count as nat, true)
            },
        },
    }
}

/// Asks for the pages that `size` bytes take.
pub fn take_pages(region: &mut [u8], size: u64) -> (r: Paging)
    requires
        mapped(old(region)@),
        ShmHeader::decode(old(region)@).page_size > 0,
        size + ShmHeader::decode(old(region)@).page_size <= u64::MAX,
    ensures
        paging_is(r, old(region)@, final(region)@, size as int),
{
    let page_size = SharedMemory::page_size(region);
    let count = pages_for(size, page_size);
    match SharedMemory::alloc_pages(region, count) {
        Err(e) => Paging::Refused(
            error_message("NO_SHM_SPACE", cause("无法分配共享内存页面: ", &e)),
        ),
        Ok(None) => Paging::Wait,
        Ok(Some(start)) => Paging::Given { start, count },
    }
}

/// The message that hands out pages.
pub fn ready_message(uuid: &str, region: &[u8], start: u32, count: u32, size: u64) -> (r:
    ServerMessage)
    requires
        region@.len() >= SHM_HEADER_SIZE,
    ensures
        says_ready(
            r,
            uuid@,
            start as int,
            count as int,
            ShmHeader::decode(region@).page_size as int,
            size as int,
        ),
{
    ServerMessage::DataReady {
        uuid: uuid.to_owned(),
        start_page: start,
        page_count: count,
        page_size: SharedMemory::page_size(region),
        data_size: size,
    }
}

/// The message that hands out the pages for the data of a new object, under an
/// identifier that is made up for the exchange.
pub fn put_ready(region: &[u8], start: u32, count: u32, size: u64) -> (r: ServerMessage)
    requires
        region@.len() >= SHM_HEADER_SIZE,
    ensures
        exists|id: Seq<u8>|
            is_issued_id(id) && #[trigger] says_ready(
                r,
                hyphenated(id),
                start as int,
                count as int,
                ShmHeader::decode(region@).page_size as int,
                size as int,
            ),
{
    let id = random_uuid();
    let text = uuid_text(id);
    let r = ready_message(text.as_str(), region, start, count, size);
    assert(is_issued_id(id@));
    r
}

/// What came of the client's word that the data is in the pages.
pub enum Received {
    /// The data.
    Data(Vec<u8>),
    /// The request is answered.
    Reply(ServerMessage),
    /// The exchange ends with an error.
    Failed(MiniOsError),
}

/// Whether `count` pages from `start` on can be taken back.
pub open spec fn returnable(region: Seq<u8>, start: u32, count: u32) -> bool {
    &&& mapped(region)
    &&& start + count <= ShmHeader::decode(region).num_pages
    &&& ShmHeader::decode(region).free_pages + count <= u32::MAX
}

/// Takes the data of a new object out of the pages, and the pages back.
pub fn put_received(region: &mut [u8], start: u32, count: u32, size: u64, word: &ClientMessage) -> (r:
    Received)
    requires
        returnable(old(region)@, start, count),
        word is DataDone ==> page_start(old(region)@, start) + count * ShmHeader::decode(
            old(region)@,
        ).page_size <= old(region)@.len(),
    ensures
        final(region)@ == paged(old(region)@, start as int, count as nat, false),
        match *word {
            ClientMessage::DataDone { .. } => {
                let at = page_start(old(region)@, start);
                let len = count * ShmHeader::decode(old(region)@).page_size;
                r matches Received::Data(data) && data@ == old(region)@.subrange(
                    at,
                    at + if size < len {
                        size as int
                    } else {
                        len
                    },
                )
            },
            ClientMessage::DataError { error, .. } => r matches Received::Reply(m) && says_error(
                m,
                "DATA_ERROR"@,
                error@,
            ),
            _ => r matches Received::Reply(m) && says_error(
                m,
                "PROTOCOL_ERROR"@,
                "在 DataReady 之后期望收到 DataDone"@,
            ),
        },
{
    proof {
        lemma_flips_bound(page_bits(region@), slots_from(start as int, count as nat), false);
    }
    match word {
        ClientMessage::DataDone { .. } => {
            let data = SharedMemory::read_pages(region, start, count, size);
            let _ = SharedMemory::free_pages(region, start, count);
            Received::Data(data)
        },
        ClientMessage::DataError { uuid: _, error } => {
            match SharedMemory::free_pages(region, start, count) {
                Err(e) => Received::Failed(e),
                Ok(_) => Received::Reply(error_message("DATA_ERROR", error.clone())),
            }
        },
        _ => match SharedMemory::free_pages(region, start, count) {
            Err(e) => Received::Failed(e),
            Ok(_) => Received::Reply(
                error_message(
                    "PROTOCOL_ERROR",
                    "在 DataReady 之后期望收到 DataDone".to_owned(),
                ),
            ),
        },
    }
}

/// A reply, with what is to be logged.
pub struct Answer {
    pub reply: ServerMessage,
    pub access: Option<AccessRecord>,
}

/// Whether the answer is this error, with nothing to log.
pub open spec fn answers_error(a: Answer, code: Seq<char>, text: Seq<char>) -> bool {
    says_error(a.reply, code, text) && a.access is None
}

/// Whether what is to be logged is this.
pub open spec fn logs(a: Answer, access: AccessView) -> bool {
    a.access matches Some(x) && x@ == access
}

/// Answers by what storing the object came to. A stored object is cached.
pub fn stored_answer(
    result: Result<ObjectInfo, MiniOsError>,
    data: Vec<u8>,
    cache: &mut ObjectCache,
) -> (r: Answer)
    requires
        old(cache).wf(),
        old(cache)@.contents.usable(),
    ensures
        final(cache).wf(),
        final(cache).algorithm == old(cache).algorithm,
        match result {
            Ok(info) => {
                &&& final(cache)@ == old(cache)@.put(info.uuid@, cached_view(info@, data@))
                &&& says_info(r.reply, info@)
                &&& logs(r, access_view("PUT"@, info@))
            },
            Err(e) => {
                &&& final(cache)@ == old(cache)@
                &&& answers_error(r, "STORAGE_ERROR"@, with_cause("存储对象失败: "@, e@))
            },
        },
{
    match result {
        Err(e) => Answer {
            reply: error_message("STORAGE_ERROR", cause("存储对象失败: ", &e)),
            access: None,
        },
        Ok(info) => {
            proof {
                lemma_slot(cache@.contents.items, info.uuid@, 0);
            }
            let _ = cache.put(info.uuid.as_str(), cached_of(&info, data));
            let access = access_of("PUT", &info);
            Answer { reply: ServerMessage::ObjectInfo(info), access: Some(access) }
        },
    }
}

/// Stores a new object, and caches it.
pub fn put_stored(
    store: &mut ObjectStorage,
    file: &[u8],
    cache: &mut ObjectCache,
    name: &str,
    data: Vec<u8>,
    content_type: &str,
    tags: &str,
    writes: &mut Vec<FileOp>,
) -> (r: Answer)
    requires
        old(store)@.sound(file@),
        old(store)@.reserve_step(file@, name@, data@).result is Ok ==> old(store)@.can_record(
            name@,
            data@.len(),
            content_type@,
            tags@,
        ),
        old(cache).wf(),
        old(cache)@.contents.usable(),
    ensures
        final(cache).wf(),
        final(cache).algorithm == old(cache).algorithm,
        final(store)@.operable(),
        exists|uuid: Seq<u8>, now: i64|
            {
                let step = #[trigger] old(store)@.put_step(
                    file@,
                    name@,
                    data@,
                    content_type@,
                    tags@,
                    uuid,
                    now,
                );
                &&& uuid.len() == 16
                &&& step.result is Ok ==> is_issued_id(uuid)
                &&& final(store)@ == step.store
                &&& ops_of(final(writes)@) == ops_of(old(writes)@) + step.writes
                &&& match step.result {
                    Ok(info) => {
                        &&& final(cache)@ == old(cache)@.put(info.uuid, cached_view(info, data@))
                        &&& says_info(r.reply, info)
                        &&& logs(r, access_view("PUT"@, info))
                    },
                    Err(e) => {
                        &&& final(cache)@ == old(cache)@
                        &&& answers_error(r, "STORAGE_ERROR"@, with_cause("存储对象失败: "@, e))
                    },
                }
            },
{
    let result = store.put(file, name, data.as_slice(), content_type, tags, writes);
    stored_answer(result, data, cache)
}

// Reading an object.

/// What is known of the object that `key` denotes, or the refusal.
pub fn get_info(store: &ObjectStorage, file: &[u8], key: &str) -> (r: Result<
    ObjectInfo,
    ServerMessage,
>)
    requires
        store@.sound(file@),
    ensures
        match r {
            Ok(info) => store@.info_result(file@, key@) == Ok::<_, ErrorView>(info@),
            Err(m) => store@.info_result(file@, key@) matches Err(e) && says_error(
                m,
                "NOT_FOUND"@,
                error_text(e),
            ),
        },
{
    proof {
        lemma_sound_lookup(store@, file@, key@);
    }
    match store.find_info(file, key) {
        Ok(info) => Ok(info),
        Err(e) => Err(error_message("NOT_FOUND", e.message())),
    }
}

/// The cache after the object `info`, which `key` denotes, was read through it.
pub open spec fn cache_read(
    c: CacheView,
    s: StoreView,
    file: Seq<u8>,
    key: Seq<char>,
    info: ObjectInfoView,
) -> CacheView {
    let after = c.got(info.uuid);
    if c.contents.has(info.uuid) {
        after
    } else {
        match s.get_result(file, key) {
            Ok((_, data)) => after.put(info.uuid, cached_view(info, data)),
            Err(_) => after,
        }
    }
}

/// The data of the object `info`, which `key` denotes: the cached data, where
/// there is any; else what the store holds, which thereby is cached.
pub open spec fn data_read(
    c: CacheView,
    s: StoreView,
    file: Seq<u8>,
    key: Seq<char>,
    info: ObjectInfoView,
) -> Result<Seq<u8>, ErrorView> {
    if c.contents.has(info.uuid) {
        Ok(c.contents.at(info.uuid)->0.data)
    } else {
        match s.get_result(file, key) {
            Ok((_, data)) => Ok(data),
            Err(e) => Err(e),
        }
    }
}

/// Reads the data of the object `info`, which `key` denotes, through the cache.
pub fn read_cached(
    store: &ObjectStorage,
    file: &[u8],
    cache: &mut ObjectCache,
    key: &str,
    info: &ObjectInfo,
) -> (r: Result<Vec<u8>, MiniOsError>)
    requires
        store@.sound(file@),
        old(cache).wf(),
        old(cache)@.contents.usable(),
        accesses_of(old(cache)@.accesses, info.uuid@) < u64::MAX,
    ensures
        final(cache).wf(),
        final(cache).algorithm == old(cache).algorithm,
        final(cache)@ == cache_read(old(cache)@, store@, file@, key@, info@),
        match r {
            Ok(data) => data_read(old(cache)@, store@, file@, key@, info@) == Ok::<_, ErrorView>(
                data@,
            ),
            Err(e) => data_read(old(cache)@, store@, file@, key@, info@) == Err::<Seq<u8>, _>(e@),
        },
{
    proof {
        lemma_sound_lookup(store@, file@, key@);
        lemma_slot(cache@.contents.items, info.uuid@, 0);
    }
    if let Some(cached) = cache.get(info.uuid.as_str()) {
        return Ok(cached.data);
    }
    match store.get(file, key) {
        Err(e) => Err(e),
        Ok((_, data)) => {
            let copy = data.clone();
            assert(copy@ =~= data@);
            let _ = cache.put(info.uuid.as_str(), cached_of(info, copy));
            Ok(data)
        },
    }
}

/// The refusal of an object whose data cannot be read.
pub fn get_failure(e: &MiniOsError) -> (r: ServerMessage)
    ensures
        says_error(r, "NOT_FOUND"@, error_text(e@)),
{
    error_message("NOT_FOUND", e.message())
}

/// Asks for the pages of the data, and puts the data into them.
pub fn get_pages(region: &mut [u8], data: &Vec<u8>) -> (r: Paging)
    requires
        mapped(old(region)@),
        ShmHeader::decode(old(region)@).page_size > 0,
        data@.len() + ShmHeader::decode(old(region)@).page_size <= u64::MAX,
    ensures
        ({
            let before = old(region)@;
            let h = ShmHeader::decode(before);
            let count = pages_of(data@.len() as int, h.page_size as int);
            match page_refusal(h, count) {
                Some(e) => {
                    &&& r matches Paging::Refused(m) && says_error(
                        m,
                        "NO_SHM_SPACE"@,
                        with_cause("无法分配共享内存页面: "@, e),
                    )
                    &&& final(region)@ == before
                },
                None => match page_run(before, count) {
                    None => r is Wait && final(region)@ == before,
                    Some(s) => {
                        let taken = paged(before, s, count as nat, true);
                        let at = page_start(taken, s as u32);
                        if at + data@.len() > before.len() {
                            &&& r matches Paging::Failed(e) && e@ == ErrorView::Shm(
                                "Data size "@ + decimal(data@.len())
                                    + " exceeds available space from page "@ + decimal(s as nat),
                            )
                            &&& final(region)@ == taken
                        } else {
                            &&& r matches Paging::Given { start, count: n } && start == s && n
                                == count
                            &&& final(region)@ == put_bytes(taken, at, data@)
                        }
                    },
                },
            }
        }),
{
    match take_pages(region, data.len() as u64) {
        Paging::Given { start, count } => {
            match SharedMemory::write_pages(region, start, data.as_slice()) {
                Err(e) => Paging::Failed(e),
                Ok(_) => Paging::Given { start, count },
            }
        },
        other => other,
    }
}

/// The two messages that go with the data of an object: the pages that hold it, and
/// what is known of the object.
pub fn get_replies(region: &[u8], start: u32, count: u32, info: &ObjectInfo) -> (r: (
    ServerMessage,
    ServerMessage,
))
    requires
        region@.len() >= SHM_HEADER_SIZE,
    ensures
        says_ready(
            r.0,
            info@.uuid,
            start as int,
            count as int,
            ShmHeader::decode(region@).page_size as int,
            info@.size as int,
        ),
        says_info(r.1, info@),
{
    (
        ready_message(info.uuid.as_str(), region, start, count, info.size),
        ServerMessage::ObjectInfo(info.clone()),
    )
}

/// Takes the pages back after the client has read them, or has not. Only a client
/// that says that it has is told of an error.
pub fn get_finish(region: &mut [u8], start: u32, count: u32, word: &ClientMessage) -> (r: Result<
    (),
    MiniOsError,
>)
    requires
        returnable(old(region)@, start, count),
    ensures
        r is Ok,
        final(region)@ == paged(old(region)@, start as int, count as nat, false),
{
    proof {
        lemma_flips_bound(page_bits(region@), slots_from(start as int, count as nat), false);
    }
    let freed = SharedMemory::free_pages(region, start, count);
    match word {
        ClientMessage::DataDone { .. } => freed,
        _ => Ok(()),
    }
}

// Requests that are answered at once.

/// Deletes an object, also from the cache.
pub fn handle_delete(
    store: &mut ObjectStorage,
    file: &[u8],
    cache: &mut ObjectCache,
    key: &str,
    writes: &mut Vec<FileOp>,
) -> (r: Answer)
    requires
        old(store)@.sound(file@),
        old(cache).wf(),
    ensures
        final(cache).wf(),
        final(cache).algorithm == old(cache).algorithm,
        final(store)@.operable(),
        ({
            let s = old(store)@;
            let step = s.delete_step(file@, key@);
            match s.get_result(file@, key@) {
                Err(e) => {
                    &&& answers_error(r, "NOT_FOUND"@, with_cause("对象未找到: "@, e))
                    &&& final(store)@ == s
                    &&& final(cache)@ == old(cache)@
                    &&& final(writes)@ == old(writes)@
                },
                Ok((info, _)) => {
                    &&& final(store)@ == step.store
                    &&& ops_of(final(writes)@) == ops_of(old(writes)@) + step.writes
                    &&& match step.result {
                        Err(e) => {
                            &&& answers_error(
                                r,
                                "DELETE_ERROR"@,
                                with_cause("删除对象失败: "@, e),
                            )
                            &&& final(cache)@ == old(cache)@
                        },
                        Ok(_) => {
                            &&& says_ok(r.reply, "对象 '"@ + key@ + "' 已删除"@)
                            &&& logs(r, deletion_view(key@, info.uuid))
                            &&& final(cache)@ == (CacheView {
                                contents: old(cache)@.contents.without(info.uuid),
                                ..old(cache)@
                            })
                        },
                    }
                },
            }
        }),
{
    proof {
        lemma_sound_lookup(store@, file@, key@);
    }
    let info = match store.get(file, key) {
        Err(e) => {
            return Answer {
                reply: error_message("NOT_FOUND", cause("对象未找到: ", &e)),
                access: None,
            };
        },
        Ok((info, _)) => info,
    };
    if let Err(e) = store.delete(file, key, writes) {
        return Answer {
            reply: error_message("DELETE_ERROR", cause("删除对象失败: ", &e)),
            access: None,
        };
    }
    let _ = cache.remove(info.uuid.as_str());
    let mut m = "对象 '".to_owned();
    m.append(key);
    m.append("' 已删除");
    Answer { reply: ok_message(m), access: Some(deletion_of(key, info.uuid.as_str())) }
}

/// Lists all objects.
pub fn handle_list(store: &ObjectStorage, file: &[u8]) -> (r: Result<ServerMessage, MiniOsError>)
    requires
        store@.sound(file@),
    ensures
        match r {
            Ok(m) => store@.list_result(file@) matches Ok(infos) && says_list(m, infos),
            Err(e) => store@.list_result(file@) == Err::<Seq<ObjectInfoView>, _>(e@),
        },
{
    proof {
        lemma_sound_lookup(store@, file@, Seq::empty());
    }
    match store.list(file) {
        Err(e) => Err(e),
        Ok(objects) => {
            proof {
                let infos = infos_of(objects@);
                assert forall|i: int| 0 <= i < infos.len() implies #[trigger] objects@[i]@
                    == infos[i] by {
                }
            }
            Ok(ServerMessage::ObjectList { objects })
        },
    }
}

/// Lists the objects that meet the conditions.
pub fn handle_search(store: &ObjectStorage, file: &[u8], query: &Query) -> (r: Result<
    ServerMessage,
    MiniOsError,
>)
    requires
        store@.sound(file@),
    ensures
        match r {
            Ok(m) => store@.list_result(file@) matches Ok(infos) && says_list(
                m,
                found(infos, query@, infos.len() as int),
            ),
            Err(e) => store@.list_result(file@) == Err::<Seq<ObjectInfoView>, _>(e@),
        },
{
    proof {
        lemma_sound_lookup(store@, file@, Seq::empty());
    }
    match store.list(file) {
        Err(e) => Err(e),
        Ok(all) => {
            let objects = search(&all, query);
            proof {
                let infos = infos_of(objects@);
                assert forall|i: int| 0 <= i < infos.len() implies #[trigger] objects@[i]@
                    == infos[i] by {
                }
            }
            Ok(ServerMessage::ObjectList { objects })
        },
    }
}

/// Whether the report holds the figures of the store, the cache and the region.
pub open spec fn reports(
    t: StatusReport,
    s: StoreView,
    c: CacheView,
    algorithm: CacheAlgorithmType,
    region: Seq<u8>,
    uptime: u64,
) -> bool {
    let h = ShmHeader::decode(region);
    &&& t.total_blocks == s.sb.total_blocks
    &&& t.free_blocks == s.sb.free_blocks
    &&& t.used_blocks == s.sb.total_blocks - s.sb.free_blocks
    &&& t.block_size == s.sb.block_size
    &&& t.object_count == s.sb.object_count
    &&& t.max_objects == s.sb.max_metadata_area_size / 256
    &&& t.total_capacity == s.sb.total_blocks * s.sb.block_size
    &&& t.used_capacity == (s.sb.total_blocks - s.sb.free_blocks) * s.sb.block_size
    &&& t.free_capacity == s.sb.free_blocks * s.sb.block_size
    &&& t.cache_hits == c.hits
    &&& t.cache_misses == c.misses
    &&& t.cache_evictions == c.evictions
    &&& t.cache_size == c.contents.items.len()
    &&& t.cache_capacity == c.contents.capacity
    &&& t.cache_algorithm@ == algorithm_name(algorithm)
    &&& t.shm_pages_total == h.num_pages
    &&& t.shm_pages_free == h.free_pages
    &&& t.uptime_seconds == uptime
}

/// The figures of the server.
pub fn handle_status(store: &ObjectStorage, cache: &ObjectCache, region: &[u8], uptime: u64) -> (r:
    StatusReport)
    requires
        store@.operable(),
        store@.sb.free_blocks <= store@.sb.total_blocks,
        region@.len() >= SHM_HEADER_SIZE,
    ensures
        reports(r, store@, cache@, cache.algorithm, region@, uptime),
{
    proof {
        lemma_block_fits(store@, store@.sb.total_blocks as int);
    }
    let status = store.status();
    let stats = cache.stats();
    StatusReport {
        total_blocks: status.total_blocks,
        free_blocks: status.free_blocks,
        used_blocks: status.used_blocks,
        block_size: status.block_size,
        object_count: status.object_count,
        max_objects: status.max_objects,
        total_capacity: status.total_capacity,
        used_capacity: status.used_capacity,
        free_capacity: status.free_capacity,
        cache_hits: stats.hits,
        cache_misses: stats.misses,
        cache_evictions: stats.evictions,
        cache_size: stats.size,
        cache_capacity: stats.capacity,
        cache_algorithm: stats.algorithm,
        shm_pages_total: SharedMemory::num_pages(region),
        shm_pages_free: SharedMemory::free_page_count(region),
        uptime_seconds: uptime,
    }
}

/// Gives the cache another capacity.
pub fn handle_cache_resize(cache: &mut ObjectCache, capacity: usize) -> (r: ServerMessage)
    requires
        old(cache).wf(),
    ensures
        final(cache).wf(),
        final(cache).algorithm == old(cache).algorithm,
        final(cache)@ == (CacheView {
            contents: old(cache)@.contents.resized(capacity as nat),
            ..old(cache)@
        }),
        says_ok(
            r,
            "缓存容量已从 "@ + decimal(old(cache)@.contents.capacity) + " 调整为 "@ + decimal(
                final(cache)@.contents.capacity,
            ),
        ),
{
    let before = cache.capacity();
    cache.resize(capacity);
    let mut m = "缓存容量已从 ".to_owned();
    push_decimal(&mut m, before as u64);
    m.append(" 调整为 ");
    push_decimal(&mut m, cache.capacity() as u64);
    ok_message(m)
}

/// What is said of a switch from one policy to another: it takes a restart.
pub open spec fn switch_text(from: CacheAlgorithmType, to: CacheAlgorithmType) -> Seq<char> {
    if from == to {
        "缓存算法已经是 "@ + algorithm_name(to)
    } else {
        "从 "@ + algorithm_name(from) + " 切换到 "@ + algorithm_name(to)
            + " 需要重启服务器。当前算法仍为 "@ + algorithm_name(from)
            + "。请使用以下参数重启服务器: --cache-algorithm "@ + algorithm_name(to)
    }
}

/// Says what a switch to another policy takes. The policy stays as it is.
pub fn handle_cache_switch(cache: &ObjectCache, algorithm: &str) -> (r: ServerMessage)
    ensures
        says_ok(r, switch_text(cache.algorithm, algorithm_named(lowercase(algorithm@)))),
{
    switch_reply(cache.algorithm(), CacheAlgorithmType::from_str(algorithm))
}

/// Says what a switch from one policy to another takes.
pub fn switch_reply(from: CacheAlgorithmType, to: CacheAlgorithmType) -> (r: ServerMessage)
    ensures
        says_ok(r, switch_text(from, to)),
{
    if from == to {
        let mut m = "缓存算法已经是 ".to_owned();
        m.append(to.as_str());
        return ok_message(m);
    }
    let mut m = "从 ".to_owned();
    m.append(from.as_str());
    m.append(" 切换到 ");
    m.append(to.as_str());
    m.append(" 需要重启服务器。当前算法仍为 ");
    m.append(from.as_str());
    m.append("。请使用以下参数重启服务器: --cache-algorithm ");
    m.append(to.as_str());
    ok_message(m)
}

/// The identifiers of the objects.
pub open spec fn uuids_of(infos: Seq<ObjectInfoView>) -> Seq<Seq<char>> {
    Seq::new(infos.len(), |i: int| infos[i].uuid)
}

/// The identifiers of the objects.
pub fn uuids_from(objects: &Vec<ObjectInfo>) -> (r: Vec<String>)
    ensures
        texts_of(r@) == uuids_of(infos_of(objects@)),
        r@.len() == objects@.len(),
{
    let mut out: Vec<String> = Vec::new();
    let mut i: usize = 0;
    while i < objects.len()
        invariant
            i <= objects@.len(),
            out@.len() == i,
            forall|j: int| 0 <= j < i ==> #[trigger] out@[j]@ == objects@[j].uuid@,
        decreases objects@.len() - i,
    {
        out.push(objects[i].uuid.clone());
        i += 1;
    }
    assert(texts_of(out@) =~= uuids_of(infos_of(objects@)));
    out
}

/// Whether a trial of `iterations` accesses to `n` objects stays within the
/// limits of the machine's numbers.
pub open spec fn can_try(iterations: int, n: int) -> bool {
    &&& iterations * n + 12345 <= u64::MAX
    &&& n <= usize::MAX / 128
}

/// Whether a trial stays within the limits of the machine's numbers.
pub fn is_triable(iterations: usize, n: usize) -> (r: bool)
    ensures
        r == can_try(iterations as int, n as int),
{
    assert(iterations * n <= 0xffff_ffff_ffff_ffff * 0xffff_ffff_ffff_ffff) by (nonlinear_arith)
        requires
            iterations <= 0xffff_ffff_ffff_ffff,
            n <= 0xffff_ffff_ffff_ffff,
    ;
    let product = iterations as u128 * n as u128;
    product + 12345 <= 0xffff_ffff_ffff_ffffu128 && n <= usize::MAX / 128
}

/// The smaller of two numbers.
pub open spec fn smaller(a: int, b: int) -> int {
    if a < b {
        a
    } else {
        b
    }
}

/// What a trial of the policies is answered with.
pub open spec fn tries(
    m: ServerMessage,
    s: StoreView,
    file: Seq<u8>,
    c: CacheView,
    iterations: usize,
) -> bool {
    match s.list_result(file) {
        Err(e) => says_error(m, "BENCHMARK_ERROR"@, with_cause("无法列出对象: "@, e)),
        Ok(infos) => if infos.len() == 0 {
            says_error(
                m,
                "NO_OBJECTS"@,
                "没有已存储的对象。请先上传一些对象以获得有意义的基准测试结果。"@,
            )
        } else {
            let keys = workload(uuids_of(infos), iterations as nat, c.accesses);
            let cap = smaller(c.contents.capacity as int, infos.len() as int) as usize;
            let rows = ranked(trials(cap, keys));
            &&& m matches ServerMessage::CacheBenchmarkResult {
                benchmarks,
                workload_keys,
                iterations: n,
            }
            &&& workload_keys == infos.len()
            &&& n == iterations
            &&& benchmarks@.len() == rows.len()
            &&& forall|i: int| 0 <= i < rows.len() ==> entry_is(#[trigger] benchmarks@[i], rows[i])
        },
    }
}

/// What a sweep over several capacities is answered with.
pub open spec fn sweeps(
    m: ServerMessage,
    s: StoreView,
    file: Seq<u8>,
    c: CacheView,
    iterations: usize,
) -> bool {
    match s.list_result(file) {
        Err(e) => says_error(m, "BENCHMARK_ERROR"@, with_cause("无法列出对象: "@, e)),
        Ok(infos) => if infos.len() == 0 {
            says_error(m, "NO_OBJECTS"@, "没有已存储的对象。请先上传一些对象。"@)
        } else {
            let keys = workload(uuids_of(infos), iterations as nat, c.accesses);
            let ranks = ranked(sweep(keys, 9));
            &&& m matches ServerMessage::CacheBenchmarkSweep { rows, workload_keys, iterations: n }
            &&& workload_keys == infos.len()
            &&& n == iterations
            &&& rows@.len() == ranks.len()
            &&& forall|i: int| 0 <= i < ranks.len() ==> row_is(#[trigger] rows@[i], ranks[i])
        },
    }
}

/// Tries the policies on the stored objects, and ranks them.
pub fn handle_cache_benchmark(
    store: &ObjectStorage,
    file: &[u8],
    cache: &ObjectCache,
    iterations: usize,
) -> (r: ServerMessage)
    requires
        store@.sound(file@),
        cache.wf(),
        store@.list_result(file@) matches Ok(infos) ==> can_try(
            iterations as int,
            infos.len() as int,
        ),
    ensures
        tries(r, store@, file@, cache@, iterations),
{
    proof {
        lemma_sound_lookup(store@, file@, Seq::empty());
    }
    let objects = match store.list(file) {
        Err(e) => {
            return error_message("BENCHMARK_ERROR", cause("无法列出对象: ", &e));
        },
        Ok(objects) => objects,
    };
    let uuids = uuids_from(&objects);
    let n = uuids.len();
    if n == 0 {
        return error_message(
            "NO_OBJECTS",
            "没有已存储的对象。请先上传一些对象以获得有意义的基准测试结果。".to_owned(),
        );
    }
    let capacity = cache.capacity();
    let cap = if capacity < n {
        capacity
    } else {
        n
    };
    let keys = generate_weighted_workload(&uuids, iterations, cache.get_access_frequencies());
    proof {
        assert(texts_of(keys@).len() == keys@.len());
        law_workload(texts_of(uuids@), iterations as nat, cache@.accesses);
    }
    let rows = rank(&run_trials(cap, &keys));
    let benchmarks = entries_from(&rows);
    ServerMessage::CacheBenchmarkResult { benchmarks, workload_keys: n, iterations }
}

/// Tries the policies on the stored objects with several capacities, and ranks
/// them.
pub fn handle_cache_sweep(
    store: &ObjectStorage,
    file: &[u8],
    cache: &ObjectCache,
    iterations: usize,
) -> (r: ServerMessage)
    requires
        store@.sound(file@),
        store@.list_result(file@) matches Ok(infos) ==> can_try(
            iterations as int,
            infos.len() as int,
        ),
    ensures
        sweeps(r, store@, file@, cache@, iterations),
{
    proof {
        lemma_sound_lookup(store@, file@, Seq::empty());
    }
    let objects = match store.list(file) {
        Err(e) => {
            return error_message("BENCHMARK_ERROR", cause("无法列出对象: ", &e));
        },
        Ok(objects) => objects,
    };
    let uuids = uuids_from(&objects);
    let n = uuids.len();
    if n == 0 {
        return error_message(
            "NO_OBJECTS",
            "没有已存储的对象。请先上传一些对象。".to_owned(),
        );
    }
    let keys = generate_weighted_workload(&uuids, iterations, cache.get_access_frequencies());
    proof {
        assert(texts_of(keys@).len() == keys@.len());
        law_workload(texts_of(uuids@), iterations as nat, cache@.accesses);
    }
    let ranks = rank(&run_sweep(&keys));
    let rows = sweep_rows_from(&ranks);
    ServerMessage::CacheBenchmarkSweep { rows, workload_keys: n, iterations }
}

/// Stops the server, if it runs.
pub fn handle_stop(running: &mut bool) -> (r: ServerMessage)
    ensures
        !*final(running),
        if *old(running) {
            says_ok(r, "服务器正在停止..."@)
        } else {
            says_error(r, "NOT_RUNNING"@, "服务器未在运行"@)
        },
{
    if *running {
        *running = false;
        ok_message("服务器正在停止...".to_owned())
    } else {
        error_message("NOT_RUNNING", "服务器未在运行".to_owned())
    }
}

/// The reply to a client that is done with pages outside an exchange.
pub fn handle_data_done() -> (r: ServerMessage)
    ensures
        says_ok(r, "数据传输已确认"@),
{
    ok_message("数据传输已确认".to_owned())
}

/// The reply to a client that reports an error outside an exchange.
pub fn handle_data_error(error: &str) -> (r: ServerMessage)
    ensures
        says_error(r, "DATA_ERROR"@, error@),
{
    error_message("DATA_ERROR", error.to_owned())
}

} // verus!
