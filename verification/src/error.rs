//! The errors of every part of the store.
use vstd::prelude::*;
use vstd::string::*;

verus! {

/// What went wrong. The variants that stem from outside carry the outside
/// error's own description.
#[derive(Debug, Clone)]
pub enum MiniOsError {
    /// A file or socket could not be read or written.
    Io(String),
    /// A message is not the JSON text that it should be.
    Json(String),
    /// The storage engine refused, or the store file is damaged.
    Storage(String),
    /// The shared page region refused.
    Shm(String),
    /// A message could not be exchanged.
    Ipc(String),
    /// The cache refused.
    Cache(String),
    /// The server refused.
    Server(String),
    /// The client could not do its part.
    Client(String),
    /// There is no such object.
    NotFound(String),
    /// There is already an object of that name.
    AlreadyExists(String),
    /// There are not enough free blocks.
    NoSpace,
    /// An argument is not acceptable.
    InvalidArgument(String),
    /// Bytes that should be text are not UTF-8.
    Utf8(String),
    /// A byte vector that should be text is not UTF-8.
    FromUtf8(String),
}

/// An error, with its text as a sequence of characters.
pub enum ErrorView {
    Io(Seq<char>),
    Json(Seq<char>),
    Storage(Seq<char>),
    Shm(Seq<char>),
    Ipc(Seq<char>),
    Cache(Seq<char>),
    Server(Seq<char>),
    Client(Seq<char>),
    NotFound(Seq<char>),
    AlreadyExists(Seq<char>),
    NoSpace,
    InvalidArgument(Seq<char>),
    Utf8(Seq<char>),
    FromUtf8(Seq<char>),
}

impl View for MiniOsError {
    type V = ErrorView;

    open spec fn view(&self) -> ErrorView {
        match *self {
            MiniOsError::Io(m) => ErrorView::Io(m@),
            MiniOsError::Json(m) => ErrorView::Json(m@),
            MiniOsError::Storage(m) => ErrorView::Storage(m@),
            MiniOsError::Shm(m) => ErrorView::Shm(m@),
            MiniOsError::Ipc(m) => ErrorView::Ipc(m@),
            MiniOsError::Cache(m) => ErrorView::Cache(m@),
            MiniOsError::Server(m) => ErrorView::Server(m@),
            MiniOsError::Client(m) => ErrorView::Client(m@),
            MiniOsError::NotFound(m) => ErrorView::NotFound(m@),
            MiniOsError::AlreadyExists(m) => ErrorView::AlreadyExists(m@),
            MiniOsError::NoSpace => ErrorView::NoSpace,
            MiniOsError::InvalidArgument(m) => ErrorView::InvalidArgument(m@),
            MiniOsError::Utf8(m) => ErrorView::Utf8(m@),
            MiniOsError::FromUtf8(m) => ErrorView::FromUtf8(m@),
        }
    }
}

/// The sentence that describes an error to a person.
pub open spec fn error_text(e: ErrorView) -> Seq<char> {
    match e {
        ErrorView::Io(m) => "I/O 错误: "@ + m,
        ErrorView::Json(m) => "JSON 序列化错误: "@ + m,
        ErrorView::Storage(m) => "存储错误: "@ + m,
        ErrorView::Shm(m) => "共享内存错误: "@ + m,
        ErrorView::Ipc(m) => "IPC 错误: "@ + m,
        ErrorView::Cache(m) => "缓存错误: "@ + m,
        ErrorView::Server(m) => "服务器错误: "@ + m,
        ErrorView::Client(m) => "客户端错误: "@ + m,
        ErrorView::NotFound(m) => "对象未找到: "@ + m,
        ErrorView::AlreadyExists(m) => "对象已存在: "@ + m,
        ErrorView::NoSpace => "存储空间不足"@,
        ErrorView::InvalidArgument(m) => "非法参数: "@ + m,
        ErrorView::Utf8(m) => "UTF-8 转换错误: "@ + m,
        ErrorView::FromUtf8(m) => "字符串 UTF-8 错误: "@ + m,
    }
}

/// `head` followed by `tail`.
fn joined(head: &str, tail: &str) -> (r: String)
    ensures
        r@ == head@ + tail@,
{
    let mut out = head.to_owned();
    out.append(tail);
    out
}

impl MiniOsError {
    /// The sentence that describes the error to a person.
    pub fn message(&self) -> (r: String)
        ensures
            r@ == error_text(self@),
    {
        match self {
            MiniOsError::Io(m) => joined("I/O 错误: ", m.as_str()),
            MiniOsError::Json(m) => joined("JSON 序列化错误: ", m.as_str()),
            MiniOsError::Storage(m) => joined("存储错误: ", m.as_str()),
            MiniOsError::Shm(m) => joined("共享内存错误: ", m.as_str()),
            MiniOsError::Ipc(m) => joined("IPC 错误: ", m.as_str()),
            MiniOsError::Cache(m) => joined("缓存错误: ", m.as_str()),
            MiniOsError::Server(m) => joined("服务器错误: ", m.as_str()),
            MiniOsError::Client(m) => joined("客户端错误: ", m.as_str()),
            MiniOsError::NotFound(m) => joined("对象未找到: ", m.as_str()),
            MiniOsError::AlreadyExists(m) => joined("对象已存在: ", m.as_str()),
            MiniOsError::NoSpace => "存储空间不足".to_owned(),
            MiniOsError::InvalidArgument(m) => joined("非法参数: ", m.as_str()),
            MiniOsError::Utf8(m) => joined("UTF-8 转换错误: ", m.as_str()),
            MiniOsError::FromUtf8(m) => joined("字符串 UTF-8 错误: ", m.as_str()),
        }
    }
}

} // verus!
