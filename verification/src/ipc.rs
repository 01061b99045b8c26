//! The messages between client and server, and the frames they travel in.
use crate::bytes::{be_bytes, be_bytes_u32, be_value, be_value_u32, lemma_be_round_trip, push_bytes};
use crate::error::{ErrorView, MiniOsError};
use crate::metadata::{ObjectInfo, ObjectInfoView};
use crate::text::{decimal, push_decimal};
use vstd::prelude::*;
use vstd::slice::*;
use vstd::string::*;

verus! {

/// How one policy did in a trial.
#[derive(Debug)]
pub struct CacheBenchmarkEntry {
    /// The name of the policy.
    pub algorithm: String,
    pub hits: u64,
    pub misses: u64,
    pub evictions: u64,
}

/// How one policy did in a trial with one capacity.
#[derive(Debug)]
pub struct CacheSweepRow {
    /// The name of the policy.
    pub algorithm: String,
    pub capacity: usize,
    pub hits: u64,
    pub misses: u64,
}

/// The length that a message may have, in bytes.
pub const MAX_MSG_SIZE: usize = 65536;

/// What a client sends.
#[allow(inconsistent_fields)]
#[derive(Debug)]
pub enum ClientMessage {
    /// An object is to be stored. Its data follows through the shared pages.
    Put { name: String, size: u64, content_type: String, tags: String },
    /// The object under an identifier or a name is to be read.
    Get { key: String },
    /// The object under an identifier or a name is to be deleted.
    Delete { key: String },
    /// All objects are to be listed.
    List,
    /// The figures of the server are asked for.
    Status,
    /// The server is to stop.
    Stop,
    /// The client is done with the shared pages.
    DataDone { uuid: String, pages_used: u32 },
    /// The client could not write or read the shared pages.
    DataError { uuid: String, error: String },
    /// The cache is to have another capacity.
    CacheResize { capacity: usize },
    /// The cache is to have another policy.
    CacheSwitch { algorithm: String },
    /// The objects are to be listed that meet the conditions.
    Search {
        name: Option<String>,
        tag: Option<String>,
        content_type: Option<String>,
        after: Option<String>,
        before: Option<String>,
    },
    /// The cache policies are to be tried.
    CacheBenchmark { iterations: usize, sweep: bool },
}

/// The figures of a server.
#[derive(Debug)]
pub struct StatusReport {
    pub total_blocks: u64,
    pub free_blocks: u64,
    pub used_blocks: u64,
    pub block_size: u32,
    pub object_count: u64,
    pub max_objects: u64,
    pub total_capacity: u64,
    pub used_capacity: u64,
    pub free_capacity: u64,
    pub cache_hits: u64,
    pub cache_misses: u64,
    pub cache_evictions: u64,
    pub cache_size: usize,
    pub cache_capacity: usize,
    pub cache_algorithm: String,
    pub shm_pages_total: u32,
    pub shm_pages_free: u32,
    pub uptime_seconds: u64,
}

/// What a server sends.
#[allow(inconsistent_fields)]
#[derive(Debug)]
pub enum ServerMessage {
    /// What was asked for is done.
    Done { message: Option<String> },
    /// What was asked for was refused.
    Error { code: String, message: String },
    /// What is known of an object.
    ObjectInfo(ObjectInfo),
    /// What is known of several objects.
    ObjectList { objects: Vec<ObjectInfo> },
    /// The figures of the server.
    Status(StatusReport),
    /// How the policies did, best first.
    CacheBenchmarkResult {
        benchmarks: Vec<CacheBenchmarkEntry>,
        workload_keys: usize,
        iterations: usize,
    },
    /// How the policies did with several capacities, best first.
    CacheBenchmarkSweep { rows: Vec<CacheSweepRow>, workload_keys: usize, iterations: usize },
    /// The shared pages that hold the data, or that the data goes to.
    DataReady { uuid: String, start_page: u32, page_count: u32, page_size: u32, data_size: u64 },
}

/// Whether the message says that all is done, with this text.
pub open spec fn says_ok(m: ServerMessage, text: Seq<char>) -> bool {
    m matches ServerMessage::Done { message: Some(t) } && t@ == text
}

/// Whether the message is this error.
pub open spec fn says_error(m: ServerMessage, code: Seq<char>, text: Seq<char>) -> bool {
    m matches ServerMessage::Error { code: c, message: t } && c@ == code && t@ == text
}

/// Whether the message tells of this object.
pub open spec fn says_info(m: ServerMessage, info: ObjectInfoView) -> bool {
    m matches ServerMessage::ObjectInfo(i) && i@ == info
}

/// Whether the message tells of these objects.
pub open spec fn says_list(m: ServerMessage, infos: Seq<ObjectInfoView>) -> bool {
    &&& m matches ServerMessage::ObjectList { objects }
    &&& objects@.len() == infos.len()
    &&& forall|i: int| 0 <= i < infos.len() ==> #[trigger] objects@[i]@ == infos[i]
}

/// Whether the message hands out these pages.
pub open spec fn says_ready(
    m: ServerMessage,
    uuid: Seq<char>,
    start: int,
    count: int,
    page_size: int,
    size: int,
) -> bool {
    m matches ServerMessage::DataReady { uuid: u, start_page, page_count, page_size: p, data_size }
        && u@ == uuid && start_page == start && page_count == count && p == page_size && data_size
        == size
}

/// The message that says that all is done.
pub fn ok_message(text: String) -> (r: ServerMessage)
    ensures
        says_ok(r, text@),
{
    ServerMessage::Done { message: Some(text) }
}

/// The message that says what was wrong.
pub fn error_message(code: &str, text: String) -> (r: ServerMessage)
    ensures
        says_error(r, code@, text@),
{
    ServerMessage::Error { code: code.to_owned(), message: text }
}

/// What is reported of a message that is too long. `kind` says what it is: a
/// message, a request or a response.
pub open spec fn too_long(kind: Seq<char>, len: nat) -> ErrorView {
    ErrorView::Ipc(
        kind + "过大："@ + decimal(len) + " 字节（最大允许 "@ + decimal(MAX_MSG_SIZE as nat)
            + " 字节）"@,
    )
}

fn too_long_error(kind: &str, len: u64) -> (e: MiniOsError)
    ensures
        e@ == too_long(kind@, len as nat),
{
    let mut m = kind.to_owned();
    m.append("过大：");
    push_decimal(&mut m, len);
    m.append(" 字节（最大允许 ");
    push_decimal(&mut m, MAX_MSG_SIZE as u64);
    m.append(" 字节）");
    MiniOsError::Ipc(m)
}

/// A message on the wire: its length in four bytes, highest first, and the
/// message.
pub open spec fn framed(payload: Seq<u8>) -> Seq<u8> {
    be_bytes(payload.len(), 4) + payload
}

/// Puts a message into a frame. `kind` says what it is.
fn frame(kind: &str, payload: &[u8]) -> (r: Result<Vec<u8>, MiniOsError>)
    ensures
        match r {
            Ok(bytes) => payload@.len() <= MAX_MSG_SIZE && bytes@ == framed(payload@),
            Err(e) => payload@.len() > MAX_MSG_SIZE && e@ == too_long(kind@, payload@.len()),
        },
{
    if payload.len() > MAX_MSG_SIZE {
        return Err(too_long_error(kind, payload.len() as u64));
    }
    let mut out = be_bytes_u32(payload.len() as u32);
    push_bytes(&mut out, payload);
    Ok(out)
}

/// The length that the front of a frame announces. `kind` says what it carries.
fn announced(kind: &str, head: &[u8]) -> (r: Result<usize, MiniOsError>)
    requires
        head@.len() == 4,
    ensures
        match r {
            Ok(n) => be_value(head@) <= MAX_MSG_SIZE && n == be_value(head@),
            Err(e) => be_value(head@) > MAX_MSG_SIZE && e@ == too_long(kind@, be_value(head@)),
        },
{
    let n = be_value_u32(head);
    if n as u64 > MAX_MSG_SIZE as u64 {
        return Err(too_long_error(kind, n as u64));
    }
    Ok(n as usize)
}

/// Puts a client's message into a frame.
pub fn frame_message(payload: &[u8]) -> (r: Result<Vec<u8>, MiniOsError>)
    ensures
        match r {
            Ok(bytes) => payload@.len() <= MAX_MSG_SIZE && bytes@ == framed(payload@),
            Err(e) => payload@.len() > MAX_MSG_SIZE && e@ == too_long("消息"@, payload@.len()),
        },
{
    frame("消息", payload)
}

/// Puts a server's message into a frame.
pub fn frame_response(payload: &[u8]) -> (r: Result<Vec<u8>, MiniOsError>)
    ensures
        match r {
            Ok(bytes) => payload@.len() <= MAX_MSG_SIZE && bytes@ == framed(payload@),
            Err(e) => payload@.len() > MAX_MSG_SIZE && e@ == too_long("响应"@, payload@.len()),
        },
{
    frame("响应", payload)
}

/// The length of the message that a client receives.
pub fn message_len(head: &[u8]) -> (r: Result<usize, MiniOsError>)
    requires
        head@.len() == 4,
    ensures
        match r {
            Ok(n) => be_value(head@) <= MAX_MSG_SIZE && n == be_value(head@),
            Err(e) => be_value(head@) > MAX_MSG_SIZE && e@ == too_long("消息"@, be_value(head@)),
        },
{
    announced("消息", head)
}

/// The length of the request that a server receives.
pub fn request_len(head: &[u8]) -> (r: Result<usize, MiniOsError>)
    requires
        head@.len() == 4,
    ensures
        match r {
            Ok(n) => be_value(head@) <= MAX_MSG_SIZE && n == be_value(head@),
            Err(e) => be_value(head@) > MAX_MSG_SIZE && e@ == too_long("请求"@, be_value(head@)),
        },
{
    announced("请求", head)
}

/// What is put into a frame comes out of it: its front announces the length of
/// the rest, and the rest is the message.
pub proof fn law_frame(payload: Seq<u8>)
    requires
        payload.len() <= MAX_MSG_SIZE,
    ensures
        framed(payload).len() == 4 + payload.len(),
        be_value(framed(payload).take(4)) == payload.len(),
        framed(payload).skip(4) == payload,
{
    lemma_be_round_trip(payload.len());
    assert(framed(payload).take(4) =~= be_bytes(payload.len(), 4));
    assert(framed(payload).skip(4) =~= payload);
}

/// A client's end of the connection: where the server listens.
#[derive(Debug)]
pub struct IpcClient {
    pub socket_path: String,
}

/// Why there is no connection to the server.
pub enum Unconnected {
    /// Nothing is there to connect to.
    Missing,
    /// The connection could not be made.
    Refused(String),
    /// The connection was not made in time.
    Late,
    /// It never came out whether the connection was made.
    Lost,
}

/// What is said of a connection that there is not.
pub open spec fn unconnected_text(path: Seq<char>, why: Unconnected) -> Seq<char> {
    match why {
        Unconnected::Missing => "在 "@ + path + " 处未找到服务端套接字。服务端是否正在运行？"@,
        Unconnected::Refused(cause) => "无法连接到服务端 "@ + path + ": "@ + cause@
            + "。服务端是否正在运行？"@,
        Unconnected::Late => "连接到服务端 "@ + path
            + " 超时（5 秒后）。服务端是否正在运行？"@,
        Unconnected::Lost => "连接到服务端 "@ + path + " 失败（内部错误）。"@,
    }
}

impl IpcClient {
    /// Makes a client for the server that listens at `socket_path`.
    pub fn new(socket_path: &str) -> (r: IpcClient)
        ensures
            r.socket_path@ == socket_path@,
    {
        IpcClient { socket_path: socket_path.to_owned() }
    }

    /// The error of a connection that there is not.
    pub fn unconnected(&self, why: &Unconnected) -> (r: MiniOsError)
        ensures
            r@ == ErrorView::Ipc(unconnected_text(self.socket_path@, *why)),
    {
        let path = self.socket_path.as_str();
        let text = match why {
            Unconnected::Missing => {
                let mut s = "在 ".to_owned();
                s.append(path);
                s.append(" 处未找到服务端套接字。服务端是否正在运行？");
                s
            },
            Unconnected::Refused(cause) => {
                let mut s = "无法连接到服务端 ".to_owned();
                s.append(path);
                s.append(": ");
                s.append(cause.as_str());
                s.append("。服务端是否正在运行？");
                s
            },
            Unconnected::Late => {
                let mut s = "连接到服务端 ".to_owned();
                s.append(path);
                s.append(" 超时（5 秒后）。服务端是否正在运行？");
                s
            },
            Unconnected::Lost => {
                let mut s = "连接到服务端 ".to_owned();
                s.append(path);
                s.append(" 失败（内部错误）。");
                s
            },
        };
        MiniOsError::Ipc(text)
    }
}

/// What keeps a server from listening.
pub enum Unheard {
    /// What is left of an earlier socket cannot be removed.
    Leftover(String),
    /// The directory of the socket cannot be made.
    Directory(String),
    /// The socket cannot be bound.
    Bind(String),
    /// The socket cannot be shared with the thread that accepts.
    Share(String),
}

/// What is said of a server that cannot listen.
pub open spec fn unheard_text(path: Seq<char>, why: Unheard) -> Seq<char> {
    match why {
        Unheard::Leftover(cause) => "无法删除已存在的套接字文件 "@ + path + ": "@ + cause@,
        Unheard::Directory(cause) => "无法创建套接字目录: "@ + cause@,
        Unheard::Bind(cause) => "无法绑定到 "@ + path + ": "@ + cause@,
        Unheard::Share(cause) => "无法克隆监听器: "@ + cause@,
    }
}

/// What a worker does after it has looked into the queue.
pub enum WorkerStep {
    /// Serve the connection that it found.
    Serve,
    /// Look again.
    Look,
    /// Leave.
    Leave,
}

/// What a worker does next. `found` says whether there was a connection in the queue,
/// `running` whether the server still listens: what is in the queue is served first.
pub fn worker_step(found: bool, running: bool) -> (r: WorkerStep)
    ensures
        r == (if found {
            WorkerStep::Serve
        } else if running {
            WorkerStep::Look
        } else {
            WorkerStep::Leave
        }),
{
    if found {
        WorkerStep::Serve
    } else if running {
        WorkerStep::Look
    } else {
        WorkerStep::Leave
    }
}

/// What the thread that accepts connections does after one has come, or failed.
pub enum AcceptStep {
    /// Put the connection into the queue.
    Queue,
    /// Report the failure, and leave.
    Report,
    /// Leave.
    Leave,
}

/// What the thread that accepts connections does next. `came` says whether a
/// connection has come, `running` whether the server still listens.
pub fn accept_step(came: bool, running: bool) -> (r: AcceptStep)
    ensures
        r == (if !running {
            AcceptStep::Leave
        } else if came {
            AcceptStep::Queue
        } else {
            AcceptStep::Report
        }),
{
    if !running {
        AcceptStep::Leave
    } else if came {
        AcceptStep::Queue
    } else {
        AcceptStep::Report
    }
}

/// A server's end of the connection: where it listens, and whether it does.
#[derive(Debug)]
pub struct IpcServer {
    pub socket_path: String,
    pub running: bool,
}

impl IpcServer {
    /// Makes a server that is to listen at `socket_path`.
    pub fn new(socket_path: &str) -> (r: IpcServer)
        ensures
            r.socket_path@ == socket_path@,
            !r.running,
    {
        IpcServer { socket_path: socket_path.to_owned(), running: false }
    }

    /// Where the server listens.
    pub fn socket_path(&self) -> (r: &str)
        ensures
            r@ == self.socket_path@,
    {
        self.socket_path.as_str()
    }

    /// Whether the server listens.
    pub fn is_running(&self) -> (r: bool)
        ensures
            r == self.running,
    {
        self.running
    }

    /// Notes that the server listens, and returns how many workers serve it: what
    /// was asked for, but at least one.
    pub fn start(&mut self, num_workers: usize) -> (r: usize)
        ensures
            *final(self) == (IpcServer { running: true, ..*old(self) }),
            r == (if num_workers == 0 {
                1
            } else {
                num_workers
            }),
    {
        self.running = true;
        if num_workers == 0 {
            1
        } else {
            num_workers
        }
    }

    /// How many connections can wait for `workers` workers: two for each of them.
    pub fn queue_depth(workers: usize) -> (r: usize)
        requires
            workers * 2 <= usize::MAX,
        ensures
            r == workers * 2,
    {
        workers * 2
    }

    /// The error of a server that cannot listen.
    pub fn unheard(&self, why: &Unheard) -> (r: MiniOsError)
        ensures
            r@ == ErrorView::Ipc(unheard_text(self.socket_path@, *why)),
    {
        let path = self.socket_path.as_str();
        let text = match why {
            Unheard::Leftover(cause) => {
                let mut s = "无法删除已存在的套接字文件 ".to_owned();
                s.append(path);
                s.append(": ");
                s.append(cause.as_str());
                s
            },
            Unheard::Directory(cause) => {
                let mut s = "无法创建套接字目录: ".to_owned();
                s.append(cause.as_str());
                s
            },
            Unheard::Bind(cause) => {
                let mut s = "无法绑定到 ".to_owned();
                s.append(path);
                s.append(": ");
                s.append(cause.as_str());
                s
            },
            Unheard::Share(cause) => {
                let mut s = "无法克隆监听器: ".to_owned();
                s.append(cause.as_str());
                s
            },
        };
        MiniOsError::Ipc(text)
    }

    /// Notes that the server no longer listens.
    pub fn stop(&mut self)
        ensures
            *final(self) == (IpcServer { running: false, ..*old(self) }),
    {
        self.running = false;
    }
}

} // verus!
