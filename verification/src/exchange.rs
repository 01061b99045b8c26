//! The exchanges that store and read an object, move by move.
//!
//! Who runs an exchange makes a move, does what it says, and makes the next one.
use crate::access_log::AccessRecord;
use crate::cache::{accesses_of, ObjectCache};
use crate::error::{error_text, ErrorView, MiniOsError};
use crate::ids::{hyphenated, is_issued_id};
use crate::ipc::{says_error, says_info, says_ready, ClientMessage, ServerMessage};
use crate::bytes::put_bytes;
use crate::metadata::ObjectInfo;
use crate::server::{
    access_of, access_view, cache_read, cached_view, data_read, get_failure, get_finish, get_info,
    get_pages, get_replies, page_refusal, page_run, pages_of, put_check, put_ready, put_received,
    put_stored, read_cached, returnable, take_pages, with_cause, Paging, Received,
};
use crate::shm::{
    law_alloc, law_alloc_free, law_write_read, mapped, page_start, paged, SharedMemory, ShmHeader,
    SHM_HEADER_SIZE,
};
use crate::storage::{ops_of, FileOp, ObjectStorage};
use crate::text::decimal;
use vstd::prelude::*;
use vstd::string::*;

verus! {

/// What is to be done next in an exchange.
pub enum Action {
    /// Make the next move.
    Again,
    /// Wait a little, and make the next move.
    Wait,
    /// Send the messages, receive one, and make the next move with it.
    Send(Vec<ServerMessage>),
    /// Send the message. The exchange is over, also where that fails.
    Refuse(ServerMessage),
    /// Send the message. The exchange is over; where that fails, with an error.
    Finish(ServerMessage),
    /// The exchange is over.
    Close,
    /// The exchange is over, with an error.
    Fail(MiniOsError),
}

/// A move: what is to be done next, and what is to be logged.
pub struct Move {
    pub action: Action,
    pub access: Option<AccessRecord>,
}

/// A move with nothing to log.
fn quiet(action: Action) -> (r: Move)
    ensures
        r == (Move { action, access: None }),
{
    Move { action, access: None }
}

/// Whether the move refuses the request with this error.
pub open spec fn refuses(m: Move, code: Seq<char>, text: Seq<char>) -> bool {
    &&& m.access is None
    &&& m.action matches Action::Refuse(r) && says_error(r, code, text)
}

/// Whether the pages of `size` bytes can be counted in the region.
pub open spec fn pageable(region: Seq<u8>, size: int) -> bool {
    &&& mapped(region)
    &&& ShmHeader::decode(region).page_size > 0
    &&& size + ShmHeader::decode(region).page_size <= u64::MAX
}

/// Whether the pages of `size` bytes can be counted in the region.
pub fn is_pageable(region: &[u8], size: u64) -> (r: bool)
    ensures
        r == pageable(region@, size as int),
{
    if !SharedMemory::is_mapped(region) {
        return false;
    }
    let page_size = SharedMemory::page_size(region);
    page_size > 0 && size <= u64::MAX - page_size as u64
}

/// Whether `count` pages from `start` on can be taken back.
pub fn is_returnable(region: &[u8], start: u32, count: u32) -> (r: bool)
    ensures
        r == returnable(region@, start, count),
{
    if !SharedMemory::is_mapped(region) {
        return false;
    }
    let end = start as u64 + count as u64;
    end <= SharedMemory::num_pages(region) as u64 && SharedMemory::free_page_count(region) as u64
        + count as u64 <= u32::MAX as u64
}

/// Whether `count` pages from `start` on lie within the region.
pub open spec fn inside(region: Seq<u8>, start: u32, count: u32) -> bool {
    page_start(region, start) + count * ShmHeader::decode(region).page_size <= region.len()
}

/// Whether `count` pages from `start` on lie within the region.
pub fn is_inside(region: &[u8], start: u32, count: u32) -> (r: bool)
    requires
        mapped(region@),
    ensures
        r == inside(region@, start, count),
{
    let page_size = SharedMemory::page_size(region);
    assert(count * page_size <= 0xffff_ffff * 0xffff_ffff) by (nonlinear_arith)
        requires
            count <= 0xffff_ffff,
            page_size <= 0xffff_ffff,
    ;
    let len = count as u64 * page_size as u64;
    SharedMemory::page_offset(region, start, len).is_some()
}

// Storing an object.

/// How far the exchange that stores an object is.
pub enum PutStage {
    /// Nothing has happened yet.
    Begin,
    /// The name is free, and pages are asked for.
    Pages,
    /// The client has these pages.
    Word { start: u32, count: u32 },
    /// The exchange is over.
    Over,
}

/// The exchange that stores an object.
pub struct PutExchange {
    pub name: String,
    pub size: u64,
    pub content_type: String,
    pub tags: String,
    pub stage: PutStage,
}

/// Whether the exchange is the same, but at this stage.
pub open spec fn put_moved(a: PutExchange, b: PutExchange, stage: PutStage) -> bool {
    b == (PutExchange { stage, ..a })
}

impl PutExchange {
    /// Begins the exchange that stores an object.
    pub fn new(name: String, size: u64, content_type: String, tags: String) -> (r: PutExchange)
        ensures
            r == (PutExchange { name, size, content_type, tags, stage: PutStage::Begin }),
    {
        PutExchange { name, size, content_type, tags, stage: PutStage::Begin }
    }

    /// The first move: an object whose name is taken is refused.
    pub fn begin(&mut self, store: &ObjectStorage, file: &[u8]) -> (r: Move)
        requires
            old(self).stage is Begin,
            store@.sound(file@),
        ensures
            if store@.name_taken(file@, old(self).name@) {
                &&& refuses(
                    r,
                    "ALREADY_EXISTS"@,
                    "名为 '"@ + old(self).name@ + "' 的对象已存在"@,
                )
                &&& put_moved(*old(self), *final(self), PutStage::Over)
            } else {
                &&& r.action is Again
                &&& r.access is None
                &&& put_moved(*old(self), *final(self), PutStage::Pages)
            },
    {
        match put_check(store, file, self.name.as_str()) {
            Some(m) => {
                self.stage = PutStage::Over;
                quiet(Action::Refuse(m))
            },
            None => {
                self.stage = PutStage::Pages;
                quiet(Action::Again)
            },
        }
    }

    /// The next move: the client gets pages for the data.
    pub fn take(&mut self, region: &mut [u8]) -> (r: Move)
        requires
            old(self).stage is Pages,
            pageable(old(region)@, old(self).size as int),
        ensures
            r.access is None,
            ({
                let h = ShmHeader::decode(old(region)@);
                let count = pages_of(old(self).size as int, h.page_size as int);
                match page_refusal(h, count) {
                    Some(e) => {
                        &&& refuses(
                            r,
                            "NO_SHM_SPACE"@,
                            with_cause("无法分配共享内存页面: "@, e),
                        )
                        &&& put_moved(*old(self), *final(self), PutStage::Over)
                        &&& final(region)@ == old(region)@
                    },
                    None => match page_run(old(region)@, count) {
                        None => {
                            &&& r.action is Wait
                            &&& *final(self) == *old(self)
                            &&& final(region)@ == old(region)@
                        },
                        Some(s) => {
                            &&& final(region)@ == paged(old(region)@, s, count as nat, true)
                            &&& put_moved(
                                *old(self),
                                *final(self),
                                PutStage::Word { start: s as u32, count: count as u32 },
                            )
                            &&& r.action matches Action::Send(list)
                            &&& list@.len() == 1
                            &&& exists|id: Seq<u8>|
                                is_issued_id(id) && #[trigger] says_ready(
                                    list@[0],
                                    hyphenated(id),
                                    s,
                                    count,
                                    ShmHeader::decode(final(region)@).page_size as int,
                                    old(self).size as int,
                                )
                        },
                    },
                }
            }),
    {
        match take_pages(region, self.size) {
            Paging::Wait => quiet(Action::Wait),
            Paging::Refused(m) => {
                self.stage = PutStage::Over;
                quiet(Action::Refuse(m))
            },
            Paging::Failed(e) => {
                self.stage = PutStage::Over;
                quiet(Action::Fail(e))
            },
            Paging::Given { start, count } => {
                let ready = put_ready(region, start, count, self.size);
                self.stage = PutStage::Word { start, count };
                let ghost m = ready;
                let mut list: Vec<ServerMessage> = Vec::new();
                list.push(ready);
                assert(list@[0] == m);
                quiet(Action::Send(list))
            },
        }
    }

    /// Whether the last move can be made with this word of the client.
    pub open spec fn endable(
        self,
        store: ObjectStorage,
        file: Seq<u8>,
        cache: ObjectCache,
        region: Seq<u8>,
        word: ClientMessage,
    ) -> bool {
        &&& self.stage matches PutStage::Word { start, count } && returnable(region, start, count)
            && (word is DataDone ==> inside(region, start, count))
        &&& word is DataDone ==> {
            &&& store@.sound(file)
            &&& cache.wf()
            &&& cache@.contents.usable()
        }
    }

    /// The data that the client has put into the pages.
    pub open spec fn sent(self, region: Seq<u8>) -> Seq<u8> {
        match self.stage {
            PutStage::Word { start, count } => {
                let at = page_start(region, start);
                let len = count * ShmHeader::decode(region).page_size;
                region.subrange(
                    at,
                    at + if self.size < len {
                        self.size as int
                    } else {
                        len
                    },
                )
            },
            _ => Seq::empty(),
        }
    }

    /// Whether the last move can be made with this word of the client, and what the
    /// client has sent can be recorded.
    pub fn is_endable(
        &self,
        store: &ObjectStorage,
        file: &[u8],
        cache: &ObjectCache,
        region: &[u8],
        word: &ClientMessage,
    ) -> (r: bool)
        requires
            cache.wf(),
        ensures
            r == {
                &&& self.endable(*store, file@, *cache, region@, *word)
                &&& word is DataDone ==> store@.can_record(
                    self.name@,
                    self.sent(region@).len(),
                    self.content_type@,
                    self.tags@,
                )
            },
    {
        let (start, count): (u32, u32) = match &self.stage {
            PutStage::Word { start, count } => (*start, *count),
            _ => {
                return false;
            },
        };
        if !is_returnable(region, start, count) {
            return false;
        }
        match word {
            ClientMessage::DataDone { .. } => {
                if !is_inside(region, start, count) || !store.is_sound(file) || !cache.is_usable() {
                    return false;
                }
                let page_size = SharedMemory::page_size(region);
                assert(0 <= count * page_size <= 0xffff_ffff * 0xffff_ffff) by (nonlinear_arith)
                    requires
                        0 <= count <= 0xffff_ffff,
                        0 <= page_size <= 0xffff_ffff,
                ;
                assert(0 <= start * page_size) by (nonlinear_arith);
                let len = count as u64 * page_size as u64;
                let sent = if self.size < len {
                    self.size
                } else {
                    len
                };
                store.is_recordable(
                    self.name.as_str(),
                    sent,
                    self.content_type.as_str(),
                    self.tags.as_str(),
                )
            },
            _ => true,
        }
    }

    /// The last move: the object is stored and cached, unless the client says that
    /// something went wrong. Either way the pages are taken back.
    pub fn end(
        &mut self,
        store: &mut ObjectStorage,
        file: &[u8],
        cache: &mut ObjectCache,
        region: &mut [u8],
        word: &ClientMessage,
        writes: &mut Vec<FileOp>,
    ) -> (r: Move)
        requires
            old(self).endable(*old(store), file@, *old(cache), old(region)@, *word),
            word is DataDone && old(store)@.reserve_step(
                file@,
                old(self).name@,
                old(self).sent(old(region)@),
            ).result is Ok ==> old(store)@.can_record(
                old(self).name@,
                old(self).sent(old(region)@).len(),
                old(self).content_type@,
                old(self).tags@,
            ),
        ensures
            put_moved(*old(self), *final(self), PutStage::Over),
            final(region)@ == paged(
                old(region)@,
                old(self).stage->start as int,
                old(self).stage->count as nat,
                false,
            ),
            match *word {
                ClientMessage::DataDone { .. } => {
                    let data = old(self).sent(old(region)@);
                    &&& final(cache).wf()
                    &&& final(cache).algorithm == old(cache).algorithm
                    &&& final(store)@.operable()
                    &&& exists|uuid: Seq<u8>, now: i64|
                        {
                            let step = #[trigger] old(store)@.put_step(
                                file@,
                                old(self).name@,
                                data,
                                old(self).content_type@,
                                old(self).tags@,
                                uuid,
                                now,
                            );
                            &&& uuid.len() == 16
                            &&& step.result is Ok ==> is_issued_id(uuid)
                            &&& final(store)@ == step.store
                            &&& ops_of(final(writes)@) == ops_of(old(writes)@) + step.writes
                            &&& match step.result {
                                Ok(info) => {
                                    &&& final(cache)@ == old(cache)@.put(
                                        info.uuid,
                                        cached_view(info, data),
                                    )
                                    &&& r.action matches Action::Finish(m) && says_info(m, info)
                                    &&& r.access matches Some(a) && a@ == access_view("PUT"@, info)
                                },
                                Err(e) => {
                                    &&& final(cache)@ == old(cache)@
                                    &&& refuses(
                                        r,
                                        "STORAGE_ERROR"@,
                                        with_cause("存储对象失败: "@, e),
                                    )
                                },
                            }
                        }
                },
                ClientMessage::DataError { error, .. } => {
                    &&& refuses(r, "DATA_ERROR"@, error@)
                    &&& *final(store) == *old(store)
                    &&& *final(cache) == *old(cache)
                    &&& final(writes)@ == old(writes)@
                },
                _ => {
                    &&& refuses(
                        r,
                        "PROTOCOL_ERROR"@,
                        "在 DataReady 之后期望收到 DataDone"@,
                    )
                    &&& *final(store) == *old(store)
                    &&& *final(cache) == *old(cache)
                    &&& final(writes)@ == old(writes)@
                },
            },
    {
        let (start, count): (u32, u32) = match &self.stage {
            PutStage::Word { start, count } => (*start, *count),
            _ => (0, 0),
        };
        let received = put_received(region, start, count, self.size, word);
        self.stage = PutStage::Over;
        match received {
            Received::Failed(e) => quiet(Action::Fail(e)),
            Received::Reply(m) => quiet(Action::Refuse(m)),
            Received::Data(data) => {
                let answer = put_stored(
                    store,
                    file,
                    cache,
                    self.name.as_str(),
                    data,
                    self.content_type.as_str(),
                    self.tags.as_str(),
                    writes,
                );
                let action = match answer.access {
                    Some(_) => Action::Finish(answer.reply),
                    None => Action::Refuse(answer.reply),
                };
                Move { action, access: answer.access }
            },
        }
    }
}

/// Storing an object leaves no page behind: the pages that are given out for it and
/// taken back are as they were before.
pub proof fn law_put_pages(region: Seq<u8>, size: int)
    requires
        pageable(region, size),
        size >= 0,
        page_refusal(
            ShmHeader::decode(region),
            pages_of(size, ShmHeader::decode(region).page_size as int),
        ) is None,
        page_run(region, pages_of(size, ShmHeader::decode(region).page_size as int)) is Some,
    ensures
        ({
            let count = pages_of(size, ShmHeader::decode(region).page_size as int) as nat;
            let start = page_run(region, count as int)->0;
            paged(paged(region, start, count, true), start, count, false) == region
        }),
{
    let count = pages_of(size, ShmHeader::decode(region).page_size as int);
    assert(1 <= count <= u32::MAX);
    law_alloc_free(region, count as u32);
}

// Reading an object.

/// How far the exchange that reads an object is.
pub enum GetStage {
    /// Nothing has happened yet.
    Begin,
    /// There is such an object.
    Found { info: ObjectInfo },
    /// Its data is at hand, and pages are asked for.
    Pages { info: ObjectInfo, data: Vec<u8> },
    /// The client has these pages.
    Word { info: ObjectInfo, start: u32, count: u32 },
    /// The exchange is over.
    Over,
}

/// The exchange that reads an object.
pub struct GetExchange {
    pub key: String,
    pub stage: GetStage,
}

impl GetExchange {
    /// Begins the exchange that reads an object.
    pub fn new(key: String) -> (r: GetExchange)
        ensures
            r == (GetExchange { key, stage: GetStage::Begin }),
    {
        GetExchange { key, stage: GetStage::Begin }
    }

    /// The first move: the object is looked for.
    pub fn find(&mut self, store: &ObjectStorage, file: &[u8]) -> (r: Move)
        requires
            old(self).stage is Begin,
            store@.sound(file@),
        ensures
            final(self).key == old(self).key,
            match store@.info_result(file@, old(self).key@) {
                Ok(i) => {
                    &&& r.action is Again
                    &&& r.access is None
                    &&& final(self).stage matches GetStage::Found { info } && info@ == i
                },
                Err(e) => {
                    &&& refuses(r, "NOT_FOUND"@, error_text(e))
                    &&& final(self).stage is Over
                },
            },
    {
        match get_info(store, file, self.key.as_str()) {
            Ok(info) => {
                self.stage = GetStage::Found { info };
                quiet(Action::Again)
            },
            Err(m) => {
                self.stage = GetStage::Over;
                quiet(Action::Refuse(m))
            },
        }
    }

    /// Whether the data of the object that was found can be read and counted.
    pub open spec fn loadable(self, cache: ObjectCache) -> bool {
        &&& cache.wf()
        &&& cache@.contents.usable()
        &&& self.stage matches GetStage::Found { info } && accesses_of(
            cache@.accesses,
            info.uuid@,
        ) < u64::MAX
    }

    /// Whether the data of the object that was found can be read and counted.
    pub fn is_loadable(&self, cache: &ObjectCache) -> (r: bool)
        requires
            cache.wf(),
        ensures
            r == self.loadable(*cache),
    {
        match &self.stage {
            GetStage::Found { info } => {
                cache.is_usable() && cache.can_count(info.uuid.as_str())
            },
            _ => false,
        }
    }

    /// The next move: the data is read through the cache.
    pub fn load(&mut self, store: &ObjectStorage, file: &[u8], cache: &mut ObjectCache) -> (r: Move)
        requires
            store@.sound(file@),
            old(self).loadable(*old(cache)),
        ensures
            final(self).key == old(self).key,
            final(cache).wf(),
            final(cache).algorithm == old(cache).algorithm,
            ({
                let key = old(self).key@;
                let info = old(self).stage->Found_info@;
                &&& final(cache)@ == cache_read(old(cache)@, store@, file@, key, info)
                &&& match data_read(old(cache)@, store@, file@, key, info) {
                    Ok(d) => {
                        &&& r.action is Again
                        &&& r.access is None
                        &&& final(self).stage matches GetStage::Pages { info: i, data }
                        &&& i@ == info
                        &&& data@ == d
                    },
                    Err(e) => {
                        &&& refuses(r, "NOT_FOUND"@, error_text(e))
                        &&& final(self).stage is Over
                    },
                }
            }),
    {
        let info = match &self.stage {
            GetStage::Found { info } => info.clone(),
            _ => {
                return quiet(Action::Close);
            },
        };
        match read_cached(store, file, cache, self.key.as_str(), &info) {
            Ok(data) => {
                self.stage = GetStage::Pages { info, data };
                quiet(Action::Again)
            },
            Err(e) => {
                self.stage = GetStage::Over;
                quiet(Action::Refuse(get_failure(&e)))
            },
        }
    }

    /// The next move: the client gets pages with the data.
    pub fn take(&mut self, region: &mut [u8]) -> (r: Move)
        requires
            old(self).stage matches GetStage::Pages { info: _, data } && pageable(
                old(region)@,
                data@.len() as int,
            ),
        ensures
            final(self).key == old(self).key,
            r.access is None,
            ({
                let before = old(region)@;
                let info = old(self).stage->Pages_info@;
                let data = old(self).stage->data@;
                let h = ShmHeader::decode(before);
                let n = pages_of(data.len() as int, h.page_size as int);
                match page_refusal(h, n) {
                    Some(e) => {
                        &&& refuses(
                            r,
                            "NO_SHM_SPACE"@,
                            with_cause("无法分配共享内存页面: "@, e),
                        )
                        &&& final(self).stage is Over
                        &&& final(region)@ == before
                    },
                    None => match page_run(before, n) {
                        None => {
                            &&& r.action is Wait
                            &&& *final(self) == *old(self)
                            &&& final(region)@ == before
                        },
                        Some(s) => {
                            let taken = paged(before, s, n as nat, true);
                            let at = page_start(taken, s as u32);
                            if at + data.len() > before.len() {
                                &&& r.action matches Action::Fail(e) && e@ == ErrorView::Shm(
                                    "Data size "@ + decimal(data.len())
                                        + " exceeds available space from page "@ + decimal(
                                        s as nat,
                                    ),
                                )
                                &&& final(self).stage is Over
                                &&& final(region)@ == taken
                            } else {
                                &&& final(region)@ == put_bytes(taken, at, data)
                                &&& final(self).stage matches GetStage::Word {
                                    info: i,
                                    start,
                                    count,
                                }
                                &&& i@ == info
                                &&& start == s
                                &&& count == n
                                &&& r.action matches Action::Send(list)
                                &&& list@.len() == 2
                                &&& says_ready(
                                    list@[0],
                                    info.uuid,
                                    s,
                                    n,
                                    ShmHeader::decode(final(region)@).page_size as int,
                                    info.size as int,
                                )
                                &&& says_info(list@[1], info)
                            }
                        },
                    },
                }
            }),
    {
        let paging = match &self.stage {
            GetStage::Pages { info: _, data } => get_pages(region, data),
            _ => Paging::Wait,
        };
        match paging {
            Paging::Wait => quiet(Action::Wait),
            Paging::Refused(m) => {
                self.stage = GetStage::Over;
                quiet(Action::Refuse(m))
            },
            Paging::Failed(e) => {
                self.stage = GetStage::Over;
                quiet(Action::Fail(e))
            },
            Paging::Given { start, count } => {
                let info = match &self.stage {
                    GetStage::Pages { info, data: _ } => info.clone(),
                    _ => {
                        return quiet(Action::Close);
                    },
                };
                let (ready, about) = get_replies(region, start, count, &info);
                self.stage = GetStage::Word { info, start, count };
                let ghost m = (ready, about);
                let mut list: Vec<ServerMessage> = Vec::new();
                list.push(ready);
                list.push(about);
                assert(list@[0] == m.0 && list@[1] == m.1);
                quiet(Action::Send(list))
            },
        }
    }

    /// The last move: the pages are taken back, whatever the client says, and the
    /// access is logged.
    pub fn end(&mut self, region: &mut [u8], word: &ClientMessage) -> (r: Move)
        requires
            old(self).stage matches GetStage::Word { info: _, start, count } && returnable(
                old(region)@,
                start,
                count,
            ),
        ensures
            final(self).key == old(self).key,
            final(self).stage is Over,
            r.action is Close,
            r.access matches Some(a) && a@ == access_view("GET"@, old(self).stage->Word_info@),
            final(region)@ == paged(
                old(region)@,
                old(self).stage->start as int,
                old(self).stage->count as nat,
                false,
            ),
    {
        let (info, start, count): (ObjectInfo, u32, u32) = match &self.stage {
            GetStage::Word { info, start, count } => (info.clone(), *start, *count),
            _ => {
                return quiet(Action::Close);
            },
        };
        self.stage = GetStage::Over;
        match get_finish(region, start, count, word) {
            Err(e) => quiet(Action::Fail(e)),
            Ok(_) => Move { action: Action::Close, access: Some(access_of("GET", &info)) },
        }
    }
}

/// The pages that a client gets with an object hold its data: what stands at the
/// first of them is the data, byte by byte.
pub proof fn law_get_pages(region: Seq<u8>, data: Seq<u8>)
    requires
        pageable(region, data.len() as int),
        page_refusal(
            ShmHeader::decode(region),
            pages_of(data.len() as int, ShmHeader::decode(region).page_size as int),
        ) is None,
        page_run(
            region,
            pages_of(data.len() as int, ShmHeader::decode(region).page_size as int),
        ) is Some,
        ShmHeader::decode(region).data_offset >= SHM_HEADER_SIZE,
        data.len() <= pages_of(data.len() as int, ShmHeader::decode(region).page_size as int)
            * ShmHeader::decode(region).page_size,
    ensures
        ({
            let n = pages_of(data.len() as int, ShmHeader::decode(region).page_size as int);
            let s = page_run(region, n)->0;
            let taken = paged(region, s, n as nat, true);
            let at = page_start(taken, s as u32);
            let after = put_bytes(taken, at, data);
            inside(taken, s as u32, n as u32) ==> {
                &&& inside(after, s as u32, n as u32)
                &&& page_start(after, s as u32) == at
                &&& after.subrange(at, at + data.len()) == data
            }
        }),
{
    let h = ShmHeader::decode(region);
    let n = pages_of(data.len() as int, h.page_size as int);
    assert(1 <= n <= u32::MAX);
    let s = page_run(region, n)->0;
    law_alloc(region, n as u32, 0);
    let taken = paged(region, s, n as nat, true);
    if inside(taken, s as u32, n as u32) {
        law_write_read(taken, s as u32, n as u32, data);
    }
}

} // verus!
