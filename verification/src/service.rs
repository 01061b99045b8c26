//! The server as a whole: how it starts and stops, and which handler a request
//! goes to.
use crate::access_log::AccessLog;
use crate::cache::{pairs_of, CacheView, ObjectCache};
use crate::cache_model::{CacheAlgorithmType, CachedView, Contents};
use crate::config::CliArgs;
use crate::error::{ErrorView, MiniOsError};
use crate::ipc::{says_error, says_list, says_ok, ClientMessage, IpcServer, ServerMessage};
use crate::metadata::{ObjectInfo, ObjectInfoView};
use crate::policies::{algorithm_named, CachedObject};
use crate::search::{found, option_view, Query, QueryView};
use crate::server::{
    answers_error, cached_of, cached_view, can_try, deletion_view, handle_cache_benchmark,
    handle_cache_resize, handle_cache_sweep, handle_cache_switch, handle_data_done,
    handle_data_error, handle_delete, handle_list, handle_search, handle_status, handle_stop,
    is_triable, logs, reports, smaller, sweeps, switch_text, tries, with_cause, Answer,
};
use crate::shm::SHM_HEADER_SIZE;
use crate::storage::{infos_of, lemma_sound_lookup, ops_of, FileOp, ObjectStorage, StoreView};
use crate::text::{chars_of, decimal, lowercase};
use crate::words::{less, text_less};
use vstd::prelude::*;
use vstd::slice::*;
use vstd::string::*;

verus! {

// Filling the cache at the start.

/// The first place from `i` on whose object is older than `x`.
pub open spec fn age_from(infos: Seq<ObjectInfoView>, x: ObjectInfoView, i: int) -> int
    decreases infos.len() - i,
{
    if i >= infos.len() || text_less(infos[i].created_at, x.created_at) {
        i
    } else {
        age_from(infos, x, i + 1)
    }
}

/// The objects by when they were created, newest first. Objects of the same time
/// keep their order.
pub open spec fn newest_first(infos: Seq<ObjectInfoView>) -> Seq<ObjectInfoView>
    decreases infos.len(),
{
    if infos.len() == 0 {
        infos
    } else {
        let front = newest_first(infos.drop_last());
        front.insert(age_from(front, infos.last(), 0), infos.last())
    }
}

/// Sorts the objects by when they were created, newest first.
pub fn sort_newest(objects: &Vec<ObjectInfo>) -> (r: Vec<ObjectInfo>)
    ensures
        infos_of(r@) == newest_first(infos_of(objects@)),
        r@.len() == objects@.len(),
{
    let mut out: Vec<ObjectInfo> = Vec::new();
    let ghost infos = infos_of(objects@);
    let mut i: usize = 0;
    assert(infos.take(0) =~= Seq::empty());
    assert(infos_of(out@) =~= Seq::empty());
    while i < objects.len()
        invariant
            i <= objects@.len(),
            infos == infos_of(objects@),
            infos_of(out@) == newest_first(infos.take(i as int)),
            out@.len() == i,
        decreases objects@.len() - i,
    {
        let x = objects[i].clone();
        let created = chars_of(x.created_at.as_str());
        let ghost sorted = infos_of(out@);
        proof {
            assert(infos.take(i + 1).drop_last() =~= infos.take(i as int));
            assert(infos.take(i + 1).last() == x@);
        }
        let mut k: usize = 0;
        loop
            invariant
                k <= out@.len(),
                sorted == infos_of(out@),
                created@ == x@.created_at,
                age_from(sorted, x@, 0) == age_from(sorted, x@, k as int),
            ensures
                k <= out@.len(),
                age_from(sorted, x@, 0) == k,
            decreases out@.len() - k,
        {
            if k >= out.len() {
                break;
            }
            let other = chars_of(out[k].created_at.as_str());
            assert(sorted[k as int] == out@[k as int]@);
            if less(other.as_slice(), created.as_slice()) {
                break;
            }
            k += 1;
        }
        let ghost v = x@;
        let ghost before = out@;
        out.insert(k, x);
        assert(infos_of(out@) =~= sorted.insert(k as int, v));
        i += 1;
    }
    assert(infos.take(i as int) =~= infos);
    out
}

proof fn lemma_text_order(a: Seq<char>, b: Seq<char>, c: Seq<char>)
    requires
        text_less(a, b),
        text_less(b, c),
    ensures
        text_less(a, c),
    decreases a.len(),
{
    if a.len() > 0 && b.len() > 0 && c.len() > 0 && a[0] == b[0] && b[0] == c[0] {
        lemma_text_order(a.skip(1), b.skip(1), c.skip(1));
    }
}

proof fn lemma_age_from(infos: Seq<ObjectInfoView>, x: ObjectInfoView, i: int)
    requires
        0 <= i <= infos.len(),
    ensures
        i <= age_from(infos, x, i) <= infos.len(),
        age_from(infos, x, i) < infos.len() ==> text_less(
            infos[age_from(infos, x, i)].created_at,
            x.created_at,
        ),
        forall|j: int|
            i <= j < age_from(infos, x, i) ==> !text_less(
                (#[trigger] infos[j]).created_at,
                x.created_at,
            ),
    decreases infos.len() - i,
{
    if i < infos.len() && !text_less(infos[i].created_at, x.created_at) {
        lemma_age_from(infos, x, i + 1);
    }
}

/// Sorting by age puts no object behind an older one, and loses nothing.
pub proof fn law_newest_first(infos: Seq<ObjectInfoView>)
    ensures
        newest_first(infos).len() == infos.len(),
        forall|i: int, j: int|
            0 <= i <= j < infos.len() ==> !text_less(
                (#[trigger] newest_first(infos)[i]).created_at,
                (#[trigger] newest_first(infos)[j]).created_at,
            ),
        newest_first(infos).to_multiset() == infos.to_multiset(),
    decreases infos.len(),
{
    if infos.len() > 0 {
        law_newest_first(infos.drop_last());
        let front = newest_first(infos.drop_last());
        let x = infos.last();
        lemma_age_from(front, x, 0);
        let k = age_from(front, x, 0);
        let r = newest_first(infos);
        assert forall|i: int, j: int| 0 <= i <= j < infos.len() implies !text_less(
            (#[trigger] r[i]).created_at,
            (#[trigger] r[j]).created_at,
        ) by {
            if i == j {
                lemma_text_irreflexive(r[i].created_at);
            } else if i < k && j > k {
                assert(!text_less(front[i].created_at, front[j - 1].created_at));
            } else if i == k {
                assert(!text_less(front[k].created_at, front[j - 1].created_at));
                if text_less(x.created_at, front[j - 1].created_at) {
                    lemma_text_order(
                        front[k].created_at,
                        x.created_at,
                        front[j - 1].created_at,
                    );
                }
            } else if i > k {
                assert(!text_less(front[i - 1].created_at, front[j - 1].created_at));
            } else if j < k {
                assert(!text_less(front[i].created_at, front[j].created_at));
            }
        }
        broadcast use vstd::seq_lib::group_to_multiset_ensures;

        assert(infos =~= infos.drop_last().push(x));
        assert(r.remove(k) =~= front);
        assert(r[k] == x && r.contains(x));
        assert(r.to_multiset() =~= front.to_multiset().insert(x));
    }
}

proof fn lemma_text_irreflexive(a: Seq<char>)
    ensures
        !text_less(a, a),
    decreases a.len(),
{
    if a.len() > 0 {
        lemma_text_irreflexive(a.skip(1));
    }
}

/// What is cached of the first `n` of the objects: those that can be read.
pub open spec fn loaded(s: StoreView, file: Seq<u8>, infos: Seq<ObjectInfoView>, n: int) -> Seq<
    (Seq<char>, CachedView),
>
    decreases n,
{
    if n <= 0 {
        Seq::empty()
    } else {
        let front = loaded(s, file, infos, n - 1);
        let info = infos[n - 1];
        match s.get_result(file, info.uuid) {
            Ok((_, data)) => front.push((info.uuid, cached_view(info, data))),
            Err(_) => front,
        }
    }
}

/// What a cache is filled with at the start: at most `n` objects, the newest. A
/// store whose objects cannot be listed gives none.
pub open spec fn warm_objects(s: StoreView, file: Seq<u8>, n: int) -> Seq<
    (Seq<char>, CachedView),
> {
    match s.list_result(file) {
        Ok(infos) => loaded(s, file, newest_first(infos), smaller(n, infos.len() as int)),
        Err(_) => Seq::empty(),
    }
}

/// How many objects a cache is filled with at most.
pub open spec fn warm_count(s: StoreView, file: Seq<u8>, n: int) -> int {
    match s.list_result(file) {
        Ok(infos) => smaller(n, infos.len() as int),
        Err(_) => 0,
    }
}

/// Reads what a cache is filled with at the start.
pub fn load_newest(store: &ObjectStorage, file: &[u8], n: usize) -> (r: Vec<
    (String, CachedObject),
>)
    requires
        store@.sound(file@),
    ensures
        pairs_of(r@) == warm_objects(store@, file@, n as int),
        r@.len() <= warm_count(store@, file@, n as int),
{
    proof {
        lemma_sound_lookup(store@, file@, Seq::empty());
    }
    let mut out: Vec<(String, CachedObject)> = Vec::new();
    assert(pairs_of(out@) =~= Seq::empty());
    let objects = match store.list(file) {
        Err(_) => {
            return out;
        },
        Ok(objects) => sort_newest(&objects),
    };
    let ghost infos = infos_of(objects@);
    let mut i: usize = 0;
    while i < objects.len() && i < n
        invariant
            i <= objects@.len(),
            i <= n,
            infos == infos_of(objects@),
            store@.sound(file@),
            pairs_of(out@) == loaded(store@, file@, infos, i as int),
            out@.len() <= i,
        decreases objects@.len() - i,
    {
        let info = &objects[i];
        proof {
            lemma_sound_lookup(store@, file@, info.uuid@);
            assert(infos[i as int] == info@);
        }
        let ghost before = out@;
        if let Ok((_, data)) = store.get(file, info.uuid.as_str()) {
            let ghost d = data@;
            let cached = cached_of(info, data);
            let ghost c = cached@;
            out.push((info.uuid.clone(), cached));
            assert(pairs_of(out@) =~= pairs_of(before).push((info@.uuid, c)));
        }
        i += 1;
    }
    out
}

// The server.

/// A server: its settings, its store, its cache, its log, its end of the
/// connection, and whether it runs.
pub struct Server {
    pub config: CliArgs,
    pub storage: ObjectStorage,
    pub cache: ObjectCache,
    pub access_log: AccessLog,
    pub ipc: IpcServer,
    pub running: bool,
}

impl Server {
    /// Whether the server is one that was just made: its cache is empty, and it
    /// does not run.
    pub open spec fn is_new(&self, config: CliArgs, storage: ObjectStorage, log_opened: bool) -> bool {
        &&& self.config == config
        &&& self.storage == storage
        &&& self.cache.wf()
        &&& self.cache.algorithm == algorithm_named(lowercase(config.cache_algorithm@))
        &&& self.cache@ == (CacheView {
            contents: Contents {
                algorithm: self.cache.algorithm,
                capacity: if config.cache_capacity == 0 {
                    1
                } else {
                    config.cache_capacity as nat
                },
                items: Seq::empty(),
            },
            hits: 0,
            misses: 0,
            evictions: 0,
            accesses: Map::empty(),
        })
        &&& forall|n: int| n <= u64::MAX ==> #[trigger] self.cache@.headroom(n)
        &&& self.access_log.enabled == (config.access_log@.len() > 0 && log_opened)
        &&& self.ipc.socket_path@ == config.socket_path@
        &&& !self.ipc.running
        &&& !self.running
    }

    /// Makes a server around an opened store. `log_opened` says whether the file
    /// of the access log could be opened.
    pub fn new(config: CliArgs, storage: ObjectStorage, log_opened: bool) -> (r: Server)
        requires
            algorithm_named(lowercase(config.cache_algorithm@)) is Lru ==> config.cache_capacity
                <= usize::MAX / 128,
        ensures
            r.is_new(config, storage, log_opened),
    {
        let algorithm = CacheAlgorithmType::from_str(config.cache_algorithm.as_str());
        let cache = ObjectCache::new(algorithm, config.cache_capacity);
        let access_log = AccessLog::new(config.access_log.as_str(), log_opened);
        let ipc = IpcServer::new(config.socket_path.as_str());
        Server { config, storage, cache, access_log, ipc, running: false }
    }

    /// Whether the cache has room for `capacity` objects under this policy.
    pub fn has_room(algorithm: &str, capacity: usize) -> (r: bool)
        ensures
            r == (algorithm_named(lowercase(algorithm@)) is Lru ==> capacity <= usize::MAX / 128),
    {
        match CacheAlgorithmType::from_str(algorithm) {
            CacheAlgorithmType::Lru => capacity <= usize::MAX / 128,
            _ => true,
        }
    }

    /// Makes a server, unless its cache has no room.
    pub fn try_new(config: CliArgs, storage: ObjectStorage, log_opened: bool) -> (r: Option<Server>)
        ensures
            r is Some <==> (algorithm_named(lowercase(config.cache_algorithm@)) is Lru
                ==> config.cache_capacity <= usize::MAX / 128),
            r matches Some(server) ==> server.is_new(config, storage, log_opened),
    {
        if Server::has_room(config.cache_algorithm.as_str(), config.cache_capacity) {
            Some(Server::new(config, storage, log_opened))
        } else {
            None
        }
    }

    /// Whether the server can start: what its cache is filled with can be read and
    /// counted. One that runs or fills no cache can always be told to.
    pub open spec fn startable(&self, file: Seq<u8>) -> bool {
        !self.running && self.config.cache_warmup > 0 ==> {
            &&& self.storage@.sound(file)
            &&& self.cache@.contents.usable_for(
                warm_count(self.storage@, file, self.config.cache_warmup as int),
            )
        }
    }

    /// Whether the server can start.
    pub fn can_start(&self, file: &[u8]) -> (r: bool)
        requires
            self.cache.wf(),
        ensures
            r == self.startable(file@),
    {
        if self.running || self.config.cache_warmup == 0 {
            return true;
        }
        if !self.storage.is_sound(file) {
            return false;
        }
        proof {
            lemma_sound_lookup(self.storage@, file@, Seq::empty());
        }
        let wanted = self.config.cache_warmup;
        let count = match self.storage.list(file) {
            Err(_) => 0,
            Ok(objects) => {
                assert(infos_of(objects@).len() == objects@.len());
                if wanted < objects.len() {
                    wanted
                } else {
                    objects.len()
                }
            },
        };
        self.cache.is_usable_for(count as u64)
    }

    /// Starts the server, if it does not run: fills the cache, and returns how many
    /// workers serve the connections.
    pub fn start(&mut self, file: &[u8]) -> (r: Result<usize, MiniOsError>)
        requires
            old(self).cache.wf(),
            old(self).startable(file@),
        ensures
            final(self).config == old(self).config,
            final(self).storage == old(self).storage,
            final(self).access_log == old(self).access_log,
            final(self).cache.wf(),
            final(self).cache.algorithm == old(self).cache.algorithm,
            final(self).running,
            match r {
                Err(e) => {
                    &&& old(self).running
                    &&& e@ == ErrorView::Server("服务器已在运行中"@)
                    &&& final(self).cache == old(self).cache
                    &&& final(self).ipc == old(self).ipc
                },
                Ok(workers) => {
                    &&& !old(self).running
                    &&& final(self).ipc == (IpcServer { running: true, ..old(self).ipc })
                    &&& workers == (if old(self).config.worker_threads == 0 {
                        1
                    } else {
                        old(self).config.worker_threads
                    })
                    &&& final(self).cache@ == (if old(self).config.cache_warmup == 0 {
                        old(self).cache@
                    } else {
                        let objects = warm_objects(
                            old(self).storage@,
                            file@,
                            old(self).config.cache_warmup as int,
                        );
                        old(self).cache@.put_all(objects, objects.len() as int)
                    })
                },
            },
    {
        if self.running {
            return Err(MiniOsError::Server("服务器已在运行中".to_owned()));
        }
        self.running = true;
        if self.config.cache_warmup > 0 {
            let objects = load_newest(&self.storage, file, self.config.cache_warmup);
            assert(pairs_of(objects@).len() == objects@.len());
            self.cache.warm_up(objects);
        }
        let workers = self.ipc.start(self.config.worker_threads);
        Ok(workers)
    }

    /// Stops the server. What the store has to write goes to `writes`.
    pub fn stop(&mut self, writes: &mut Vec<FileOp>)
        ensures
            final(self).config == old(self).config,
            final(self).cache == old(self).cache,
            final(self).access_log == old(self).access_log,
            final(self).storage@ == old(self).storage@.flushed(),
            final(self).ipc == (IpcServer { running: false, ..old(self).ipc }),
            !final(self).running,
            ops_of(final(writes)@) == ops_of(old(writes)@) + old(self).storage@.flush_writes(),
    {
        self.running = false;
        self.storage.flush(writes);
        self.ipc.stop();
    }

    /// Whether the server runs.
    pub fn is_running(&self) -> (r: bool)
        ensures
            r == self.running,
    {
        self.running
    }
}

// Requests.

/// What comes next for a request.
pub enum Turn {
    /// The client is answered, and what is to be logged is logged.
    Reply(Answer),
    /// The connection ends with this error.
    Fail(MiniOsError),
    /// An object is to be stored, in an exchange.
    Store { name: String, size: u64, content_type: String, tags: String },
    /// An object is to be read, in an exchange.
    Read { key: String },
}

/// Whether the server can take the request as it stands.
pub open spec fn takes(server: Server, file: Seq<u8>, region: Seq<u8>, request: ClientMessage) -> bool {
    let s = server.storage@;
    match request {
        ClientMessage::Delete { .. } => s.sound(file) && server.cache.wf(),
        ClientMessage::List => s.sound(file),
        ClientMessage::Search { .. } => s.sound(file),
        ClientMessage::Status => {
            &&& s.operable()
            &&& s.sb.free_blocks <= s.sb.total_blocks
            &&& region.len() >= SHM_HEADER_SIZE
        },
        ClientMessage::CacheResize { .. } => server.cache.wf(),
        ClientMessage::CacheBenchmark { iterations, .. } => {
            &&& s.sound(file)
            &&& server.cache.wf()
            &&& s.list_result(file) matches Ok(infos) ==> can_try(
                iterations as int,
                infos.len() as int,
            )
        },
        _ => true,
    }
}

/// The conditions of a request for a search.
pub open spec fn query_of(request: ClientMessage) -> QueryView {
    match request {
        ClientMessage::Search { name, tag, content_type, after, before } => QueryView {
            name: option_view(name),
            tag: option_view(tag),
            content_type: option_view(content_type),
            after: option_view(after),
            before: option_view(before),
        },
        _ => QueryView { name: None, tag: None, content_type: None, after: None, before: None },
    }
}

/// Whether the turn is this reply, with nothing to log.
pub open spec fn replies(t: Turn, m: spec_fn(ServerMessage) -> bool) -> bool {
    t matches Turn::Reply(a) && m(a.reply) && a.access is None
}

/// What a list of objects is answered with.
pub open spec fn lists(t: Turn, infos: Result<Seq<ObjectInfoView>, ErrorView>) -> bool {
    match infos {
        Ok(v) => replies(t, |m: ServerMessage| says_list(m, v)),
        Err(e) => t matches Turn::Fail(x) && x@ == e,
    }
}

impl Server {
    /// Whether the server can take the request as it stands.
    pub fn can_take(&self, file: &[u8], region: &[u8], request: &ClientMessage) -> (r: bool)
        requires
            self.cache.wf(),
        ensures
            r == takes(*self, file@, region@, *request),
    {
        match request {
            ClientMessage::Delete { .. } | ClientMessage::List | ClientMessage::Search { .. } =>
                self.storage.is_sound(file),
            ClientMessage::Status => {
                self.storage.is_operable() && self.storage.super_block.free_blocks
                    <= self.storage.super_block.total_blocks && region.len() as u64 >= SHM_HEADER_SIZE
            },
            ClientMessage::CacheBenchmark { iterations, .. } => {
                if !self.storage.is_sound(file) {
                    return false;
                }
                proof {
                    lemma_sound_lookup(self.storage@, file@, Seq::empty());
                }
                match self.storage.list(file) {
                    Err(_) => true,
                    Ok(objects) => {
                        assert(infos_of(objects@).len() == objects@.len());
                        is_triable(*iterations, objects.len())
                    },
                }
            },
            _ => true,
        }
    }

    /// Takes a request. `uptime` is how long the server has run, in seconds. What
    /// the store has to write goes to `writes`.
    pub fn handle_client(
        &mut self,
        file: &[u8],
        region: &[u8],
        uptime: u64,
        request: ClientMessage,
        writes: &mut Vec<FileOp>,
    ) -> (r: Turn)
        requires
            takes(*old(self), file@, region@, request),
        ensures
            final(self).config == old(self).config,
            final(self).access_log == old(self).access_log,
            final(self).ipc == old(self).ipc,
            old(self).cache.wf() ==> final(self).cache.wf(),
            final(self).cache.algorithm == old(self).cache.algorithm,
            request !is Delete ==> {
                &&& final(self).storage == old(self).storage
                &&& final(writes)@ == old(writes)@
            },
            request !is Delete && request !is CacheResize ==> final(self).cache == old(self).cache,
            final(self).running == (old(self).running && request !is Stop),
            match request {
                ClientMessage::Put { name, size, content_type, tags } => {
                    &&& r matches Turn::Store { name: n, size: z, content_type: c, tags: t }
                    &&& n@ == name@
                    &&& z == size
                    &&& c@ == content_type@
                    &&& t@ == tags@
                },
                ClientMessage::Get { key } => r matches Turn::Read { key: k } && k@ == key@,
                ClientMessage::Delete { key } => {
                    &&& r matches Turn::Reply(a)
                    &&& ({
                        let s = old(self).storage@;
                        let step = s.delete_step(file@, key@);
                        match s.get_result(file@, key@) {
                            Err(e) => {
                                &&& answers_error(
                                    a,
                                    "NOT_FOUND"@,
                                    with_cause("对象未找到: "@, e),
                                )
                                &&& final(self).storage@ == s
                                &&& final(self).cache@ == old(self).cache@
                                &&& final(writes)@ == old(writes)@
                            },
                            Ok((info, _)) => {
                                &&& final(self).storage@ == step.store
                                &&& ops_of(final(writes)@) == ops_of(old(writes)@) + step.writes
                                &&& match step.result {
                                    Err(e) => {
                                        &&& answers_error(
                                            a,
                                            "DELETE_ERROR"@,
                                            with_cause("删除对象失败: "@, e),
                                        )
                                        &&& final(self).cache@ == old(self).cache@
                                    },
                                    Ok(_) => {
                                        &&& says_ok(
                                            a.reply,
                                            "对象 '"@ + key@ + "' 已删除"@,
                                        )
                                        &&& logs(a, deletion_view(key@, info.uuid))
                                        &&& final(self).cache@ == (CacheView {
                                            contents: old(self).cache@.contents.without(info.uuid),
                                            ..old(self).cache@
                                        })
                                    },
                                }
                            },
                        }
                    })
                },
                ClientMessage::List => lists(r, old(self).storage@.list_result(file@)),
                ClientMessage::Search { .. } => lists(
                    r,
                    match old(self).storage@.list_result(file@) {
                        Ok(infos) => Ok(found(infos, query_of(request), infos.len() as int)),
                        Err(e) => Err(e),
                    },
                ),
                ClientMessage::Status => replies(
                    r,
                    |m: ServerMessage|
                        m matches ServerMessage::Status(t) && reports(
                            t,
                            old(self).storage@,
                            old(self).cache@,
                            old(self).cache.algorithm,
                            region@,
                            uptime,
                        ),
                ),
                ClientMessage::CacheResize { capacity } => {
                    &&& final(self).cache@ == (CacheView {
                        contents: old(self).cache@.contents.resized(capacity as nat),
                        ..old(self).cache@
                    })
                    &&& replies(
                        r,
                        |m: ServerMessage|
                            says_ok(
                                m,
                                "缓存容量已从 "@ + decimal(old(self).cache@.contents.capacity)
                                    + " 调整为 "@ + decimal(
                                    final(self).cache@.contents.capacity,
                                ),
                            ),
                    )
                },
                ClientMessage::CacheSwitch { algorithm } => replies(
                    r,
                    |m: ServerMessage|
                        says_ok(
                            m,
                            switch_text(
                                old(self).cache.algorithm,
                                algorithm_named(lowercase(algorithm@)),
                            ),
                        ),
                ),
                ClientMessage::CacheBenchmark { iterations, sweep } => replies(
                    r,
                    |m: ServerMessage|
                        if sweep {
                            sweeps(
                                m,
                                old(self).storage@,
                                file@,
                                old(self).cache@,
                                iterations,
                            )
                        } else {
                            tries(m, old(self).storage@, file@, old(self).cache@, iterations)
                        },
                ),
                ClientMessage::Stop => replies(
                    r,
                    |m: ServerMessage|
                        if old(self).running {
                            says_ok(m, "服务器正在停止..."@)
                        } else {
                            says_error(m, "NOT_RUNNING"@, "服务器未在运行"@)
                        },
                ),
                ClientMessage::DataDone { .. } => replies(
                    r,
                    |m: ServerMessage| says_ok(m, "数据传输已确认"@),
                ),
                ClientMessage::DataError { uuid: _, error } => replies(
                    r,
                    |m: ServerMessage| says_error(m, "DATA_ERROR"@, error@),
                ),
            },
    {
        match request {
            ClientMessage::Put { name, size, content_type, tags } => Turn::Store {
                name,
                size,
                content_type,
                tags,
            },
            ClientMessage::Get { key } => Turn::Read { key },
            ClientMessage::Delete { key } => Turn::Reply(
                handle_delete(&mut self.storage, file, &mut self.cache, key.as_str(), writes),
            ),
            ClientMessage::List => match handle_list(&self.storage, file) {
                Ok(reply) => Turn::Reply(Answer { reply, access: None }),
                Err(e) => Turn::Fail(e),
            },
            ClientMessage::Search { name, tag, content_type, after, before } => {
                let query = Query { name, tag, content_type, after, before };
                match handle_search(&self.storage, file, &query) {
                    Ok(reply) => Turn::Reply(Answer { reply, access: None }),
                    Err(e) => Turn::Fail(e),
                }
            },
            ClientMessage::Status => {
                let report = handle_status(&self.storage, &self.cache, region, uptime);
                Turn::Reply(Answer { reply: ServerMessage::Status(report), access: None })
            },
            ClientMessage::CacheResize { capacity } => {
                let reply = handle_cache_resize(&mut self.cache, capacity);
                Turn::Reply(Answer { reply, access: None })
            },
            ClientMessage::CacheSwitch { algorithm } => {
                let reply = handle_cache_switch(&self.cache, algorithm.as_str());
                Turn::Reply(Answer { reply, access: None })
            },
            ClientMessage::CacheBenchmark { iterations, sweep } => {
                let reply = if sweep {
                    handle_cache_sweep(&self.storage, file, &self.cache, iterations)
                } else {
                    handle_cache_benchmark(&self.storage, file, &self.cache, iterations)
                };
                Turn::Reply(Answer { reply, access: None })
            },
            ClientMessage::Stop => {
                let reply = handle_stop(&mut self.running);
                Turn::Reply(Answer { reply, access: None })
            },
            ClientMessage::DataDone { .. } => Turn::Reply(
                Answer { reply: handle_data_done(), access: None },
            ),
            ClientMessage::DataError { uuid: _, error } => Turn::Reply(
                Answer { reply: handle_data_error(error.as_str()), access: None },
            ),
        }
    }
}

proof fn lemma_text_either(a: Seq<char>, b: Seq<char>)
    ensures
        text_less(a, b) || text_less(b, a) || a == b,
    decreases a.len(),
{
    if a.len() > 0 && b.len() > 0 && a[0] == b[0] {
        lemma_text_either(a.skip(1), b.skip(1));
        if a.skip(1) == b.skip(1) {
            assert(a =~= seq![a[0]] + a.skip(1));
            assert(b =~= seq![b[0]] + b.skip(1));
        }
    } else if a.len() == 0 && b.len() == 0 {
        assert(a =~= b);
    }
}

proof fn lemma_text_below(a: Seq<char>, b: Seq<char>, c: Seq<char>)
    requires
        text_less(a, c),
        !text_less(a, b),
    ensures
        text_less(b, c),
{
    lemma_text_either(a, b);
    if text_less(b, a) {
        lemma_text_order(b, a, c);
    }
}

/// Where each object stands after sorting: in front of
/// those that are older, and among equals in the order of the list.
pub proof fn law_age_places(list: Seq<ObjectInfoView>) -> (places: Seq<int>)
    ensures
        places.len() == list.len(),
        forall|i: int|
            0 <= i < list.len() ==> 0 <= #[trigger] places[i] < list.len() && newest_first(
                list,
            )[places[i]] == list[i],
        forall|i: int, j: int|
            0 <= i < j < list.len() ==> (#[trigger] places[i] < #[trigger] places[j] <==> !text_less(
                list[i].created_at,
                list[j].created_at,
            )),
        forall|i: int, j: int| 0 <= i < j < list.len() ==> places[i] != places[j],
    decreases list.len(),
{
    if list.len() == 0 {
        Seq::empty()
    } else {
        let front = list.drop_last();
        let before = law_age_places(front);
        let x = list.last();
        let k = age_from(newest_first(front), x, 0);
        law_newest_first(front);
        lemma_age_from(newest_first(front), x, 0);
        let sorted = newest_first(list);
        let places = Seq::new(
            list.len(),
            |i: int|
                if i == front.len() {
                    k
                } else if before[i] < k {
                    before[i]
                } else {
                    before[i] + 1
                },
        );
        assert forall|i: int| 0 <= i < list.len() implies 0 <= #[trigger] places[i] < list.len()
            && sorted[places[i]] == list[i] by {
            if i < front.len() {
                assert(0 <= before[i] < front.len());
                assert(newest_first(front)[before[i]] == front[i]);
            }
        }
        assert forall|i: int, j: int| 0 <= i < j < list.len() implies (#[trigger] places[i]
            < #[trigger] places[j] <==> !text_less(
                list[i].created_at,
                list[j].created_at,
            )) && places[i] != places[j] by {
            if j < front.len() {
                assert(before[i] < before[j] <==> !text_less(front[i].created_at, front[j].created_at));
                assert(before[i] != before[j]);
            } else {
                let f = newest_first(front);
                assert(f[before[i]] == front[i]);
                if before[i] >= k {
                    assert(!text_less(f[k].created_at, f[before[i]].created_at));
                    lemma_text_below(f[k].created_at, f[before[i]].created_at, x.created_at);
                }
            }
        }
        places
    }
}

} // verus!
