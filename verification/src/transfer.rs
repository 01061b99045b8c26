//! The client's side of the exchanges that store and fetch an object, move by move.
use crate::bytes::put_bytes;
use crate::client::{
    done_message, fetched_reply, get_message, is_stdout, output_path, prints, put_message,
    ready_reply, refused, stored_reply, Outcome, Transfer,
};
use crate::client_texts::{
    downloaded, downloaded_text, downloading, downloading_text, stored_text, uploading,
    uploading_text, wrote, wrote_text,
};
use crate::error::{ErrorView, MiniOsError};
use crate::exchange::{inside, PutExchange, PutStage};
use crate::ipc::{ClientMessage, ServerMessage};
use crate::metadata::ObjectInfo;
use crate::search::option_view;
use crate::shm::{law_write_read, mapped, page_start, SharedMemory, ShmHeader, SHM_HEADER_SIZE};
use crate::text::decimal;
use vstd::prelude::*;
use vstd::slice::*;
use vstd::string::*;

verus! {

/// What the client does next.
pub enum Deed {
    /// Show the notice, send the message, receive a reply, and make the next move with
    /// it.
    Send { notice: String, message: ClientMessage },
    /// Receive another reply, and make the next move with it.
    Receive,
    /// Map the shared pages, and make the next move with them.
    Open,
    /// Show what came of it. The exchange is over.
    Show(Outcome),
    /// Show what came of it, and send the message. The exchange is over, also where
    /// that fails.
    Excuse { outcome: Outcome, message: ClientMessage },
    /// Send the message, write the data to the path or, where there is none, to the
    /// standard output, and make the next move.
    Deliver { message: ClientMessage, path: Option<String>, data: Vec<u8> },
    /// The exchange is over.
    Close,
    /// The exchange is over, with an error.
    Fail(MiniOsError),
}

/// Whether the message asks for an object to be stored.
pub open spec fn asks_put(
    m: ClientMessage,
    name: Seq<char>,
    size: int,
    content_type: Seq<char>,
    tags: Seq<char>,
) -> bool {
    m matches ClientMessage::Put { name: n, size: z, content_type: c, tags: t } && n@ == name && z
        == size && c@ == content_type && t@ == tags
}

/// Whether the message ends the use of the pages.
pub open spec fn says_done(m: ClientMessage, uuid: Seq<char>, count: u32) -> bool {
    m matches ClientMessage::DataDone { uuid: u, pages_used } && u@ == uuid && pages_used == count
}

// Storing an object.

/// How far an upload is.
pub enum UploadStage {
    /// Nothing has happened yet.
    Begin,
    /// The request was sent.
    Ready,
    /// The server has given out these pages.
    Pages { uuid: String, start: u32, count: u32 },
    /// The data is in the pages.
    Stored,
    /// The exchange is over.
    Over,
}

/// An upload.
pub struct Uploading {
    pub name: String,
    pub content_type: String,
    pub tags: String,
    pub data: Vec<u8>,
    pub stage: UploadStage,
}

/// Whether the upload is the same, but for its stage.
pub open spec fn same_upload(a: Uploading, b: Uploading) -> bool {
    b == (Uploading { stage: b.stage, ..a })
}

impl Uploading {
    /// Begins an upload.
    pub fn new(name: String, content_type: String, tags: String, data: Vec<u8>) -> (r: Uploading)
        ensures
            r == (Uploading { name, content_type, tags, data, stage: UploadStage::Begin }),
    {
        Uploading { name, content_type, tags, data, stage: UploadStage::Begin }
    }

    /// The first move: the server is asked. `file` is where the data comes from.
    pub fn begin(&mut self, file: &str) -> (r: Deed)
        requires
            old(self).stage is Begin,
        ensures
            same_upload(*old(self), *final(self)),
            final(self).stage is Ready,
            r matches Deed::Send { notice, message } && notice@ == uploading_text(
                file@,
                old(self).data@.len(),
                old(self).content_type@,
                old(self).name@,
            ) && asks_put(
                message,
                old(self).name@,
                old(self).data@.len() as int,
                old(self).content_type@,
                old(self).tags@,
            ),
    {
        let size = self.data.len() as u64;
        let notice = uploading(file, size, self.content_type.as_str(), self.name.as_str());
        let message = put_message(
            self.name.as_str(),
            size,
            self.content_type.as_str(),
            self.tags.as_str(),
        );
        self.stage = UploadStage::Ready;
        Deed::Send { notice, message }
    }

    /// The next move: the server has given out pages, or not.
    pub fn ready(&mut self, reply: &ServerMessage) -> (r: Deed)
        requires
            old(self).stage is Ready,
        ensures
            same_upload(*old(self), *final(self)),
            match *reply {
                ServerMessage::DataReady { uuid, start_page, page_count, .. } => {
                    &&& r is Open
                    &&& final(self).stage matches UploadStage::Pages { uuid: u, start, count }
                    &&& u@ == uuid@
                    &&& start == start_page
                    &&& count == page_count
                },
                _ => {
                    &&& r matches Deed::Show(o) && refused(o, *reply)
                    &&& final(self).stage is Over
                },
            },
    {
        match ready_reply(reply) {
            Transfer::Pages { uuid, start, count, size: _ } => {
                self.stage = UploadStage::Pages { uuid, start, count };
                Deed::Open
            },
            Transfer::Over(outcome) => {
                self.stage = UploadStage::Over;
                Deed::Show(outcome)
            },
        }
    }

    /// Whether the data can be put into the pages.
    pub open spec fn writable(self, region: Seq<u8>) -> bool {
        &&& region.len() >= SHM_HEADER_SIZE
        &&& self.stage matches UploadStage::Pages { uuid: _, start, count } && start + count >= 1
    }

    /// Whether the data can be put into the pages.
    pub fn is_writable(&self, region: &[u8]) -> (r: bool)
        ensures
            r == self.writable(region@),
    {
        match &self.stage {
            UploadStage::Pages { uuid: _, start, count } => {
                region.len() as u64 >= SHM_HEADER_SIZE && (*start > 0 || *count > 0)
            },
            _ => false,
        }
    }

    /// The next move: the data is put into the pages.
    pub fn write(&mut self, region: &mut [u8]) -> (r: Deed)
        requires
            old(self).writable(old(region)@),
        ensures
            same_upload(*old(self), *final(self)),
            ({
                let data = old(self).data@;
                let start = old(self).stage->start;
                let at = page_start(old(region)@, start);
                if at + data.len() > old(region)@.len() {
                    &&& r matches Deed::Fail(e) && e@ == ErrorView::Shm(
                        "Data size "@ + decimal(data.len())
                            + " exceeds available space from page "@ + decimal(start as nat),
                    )
                    &&& final(region)@ == old(region)@
                    &&& final(self).stage is Over
                } else {
                    &&& r matches Deed::Send { notice, message }
                    &&& notice@ == wrote_text(
                        data.len(),
                        start as nat,
                        old(self).stage->count as nat,
                    )
                    &&& says_done(message, old(self).stage->uuid@, old(self).stage->count)
                    &&& final(region)@ == put_bytes(old(region)@, at, data)
                    &&& final(self).stage is Stored
                }
            }),
    {
        let (uuid, start, count): (String, u32, u32) = match &self.stage {
            UploadStage::Pages { uuid, start, count } => (uuid.clone(), *start, *count),
            _ => {
                return Deed::Close;
            },
        };
        match SharedMemory::write_pages(region, start, self.data.as_slice()) {
            Err(e) => {
                self.stage = UploadStage::Over;
                Deed::Fail(e)
            },
            Ok(_) => {
                self.stage = UploadStage::Stored;
                Deed::Send {
                    notice: wrote(self.data.len() as u64, start, count),
                    message: done_message(uuid.as_str(), count),
                }
            },
        }
    }

    /// The last move: what the server says of the object is shown.
    pub fn end(&mut self, reply: &ServerMessage) -> (r: Deed)
        requires
            old(self).stage is Stored,
        ensures
            same_upload(*old(self), *final(self)),
            final(self).stage is Over,
            r matches Deed::Show(o) && match *reply {
                ServerMessage::ObjectInfo(info) => prints(o, stored_text(info@)),
                _ => refused(o, *reply),
            },
    {
        self.stage = UploadStage::Over;
        Deed::Show(stored_reply(reply))
    }
}

// Fetching an object.

/// How far a download is.
pub enum DownloadStage {
    /// Nothing has happened yet.
    Begin,
    /// The request was sent.
    Ready,
    /// The server has put the data into these pages, and tells of the object next.
    About { uuid: String, start: u32, count: u32, size: u64 },
    /// The object is known, and its data is in these pages.
    Pages { uuid: String, start: u32, count: u32, size: u64, info: ObjectInfo },
    /// The data is on its way to the path.
    Written { info: ObjectInfo, path: String },
    /// The exchange is over.
    Over,
}

/// A download.
pub struct Downloading {
    pub key: String,
    pub output: Option<String>,
    pub stage: DownloadStage,
}

/// Whether the download is the same, but for its stage.
pub open spec fn same_download(a: Downloading, b: Downloading) -> bool {
    b == (Downloading { stage: b.stage, ..a })
}

/// Where the data goes: to the given path, or else to a file with the object's name.
pub open spec fn target(output: Option<String>, name: Seq<char>) -> Seq<char> {
    match option_view(output) {
        Some(path) => path,
        None => name,
    }
}

impl Downloading {
    /// Begins a download.
    pub fn new(key: String, output: Option<String>) -> (r: Downloading)
        ensures
            r == (Downloading { key, output, stage: DownloadStage::Begin }),
    {
        Downloading { key, output, stage: DownloadStage::Begin }
    }

    /// The first move: the server is asked.
    pub fn begin(&mut self) -> (r: Deed)
        requires
            old(self).stage is Begin,
        ensures
            same_download(*old(self), *final(self)),
            final(self).stage is Ready,
            r matches Deed::Send { notice, message } && notice@ == downloading_text(old(self).key@)
                && (message matches ClientMessage::Get { key } && key@ == old(self).key@),
    {
        self.stage = DownloadStage::Ready;
        Deed::Send {
            notice: downloading(self.key.as_str()),
            message: get_message(self.key.as_str()),
        }
    }

    /// The next move: the server has put the data into pages, or not.
    pub fn ready(&mut self, reply: &ServerMessage) -> (r: Deed)
        requires
            old(self).stage is Ready,
        ensures
            same_download(*old(self), *final(self)),
            match *reply {
                ServerMessage::DataReady {
                    uuid,
                    start_page,
                    page_count,
                    page_size: _,
                    data_size,
                } => {
                    &&& r is Receive
                    &&& final(self).stage matches DownloadStage::About {
                        uuid: u,
                        start,
                        count,
                        size,
                    }
                    &&& u@ == uuid@
                    &&& start == start_page
                    &&& count == page_count
                    &&& size == data_size
                },
                _ => {
                    &&& r matches Deed::Show(o) && refused(o, *reply)
                    &&& final(self).stage is Over
                },
            },
    {
        match ready_reply(reply) {
            Transfer::Pages { uuid, start, count, size } => {
                self.stage = DownloadStage::About { uuid, start, count, size };
                Deed::Receive
            },
            Transfer::Over(outcome) => {
                self.stage = DownloadStage::Over;
                Deed::Show(outcome)
            },
        }
    }

    /// The next move: the server tells of the object, or not. Either way it learns that
    /// the pages are no longer used.
    pub fn about(&mut self, reply: &ServerMessage) -> (r: Deed)
        requires
            old(self).stage is About,
        ensures
            same_download(*old(self), *final(self)),
            match *reply {
                ServerMessage::ObjectInfo(info) => {
                    &&& r is Open
                    &&& final(self).stage matches DownloadStage::Pages {
                        uuid,
                        start,
                        count,
                        size,
                        info: i,
                    }
                    &&& uuid@ == old(self).stage->About_uuid@
                    &&& start == old(self).stage->About_start
                    &&& count == old(self).stage->About_count
                    &&& size == old(self).stage->About_size
                    &&& i@ == info@
                },
                _ => {
                    &&& r matches Deed::Excuse { outcome, message }
                    &&& refused(outcome, *reply)
                    &&& says_done(
                        message,
                        old(self).stage->About_uuid@,
                        old(self).stage->About_count,
                    )
                    &&& final(self).stage is Over
                },
            },
    {
        let (uuid, start, count, size): (String, u32, u32, u64) = match &self.stage {
            DownloadStage::About { uuid, start, count, size } => {
                (uuid.clone(), *start, *count, *size)
            },
            _ => {
                return Deed::Close;
            },
        };
        match fetched_reply(reply) {
            Ok(info) => {
                self.stage = DownloadStage::Pages { uuid, start, count, size, info };
                Deed::Open
            },
            Err(outcome) => {
                self.stage = DownloadStage::Over;
                Deed::Excuse { outcome, message: done_message(uuid.as_str(), count) }
            },
        }
    }

    /// Whether the data can be read from the pages.
    pub open spec fn readable(self, region: Seq<u8>) -> bool {
        &&& region.len() >= SHM_HEADER_SIZE
        &&& self.stage matches DownloadStage::Pages { start, count, .. } && inside(
            region,
            start,
            count,
        )
    }

    /// Whether the data can be read from the pages.
    pub fn is_readable(&self, region: &[u8]) -> (r: bool)
        ensures
            r == self.readable(region@),
    {
        match &self.stage {
            DownloadStage::Pages { start, count, .. } => {
                if (region.len() as u64) < SHM_HEADER_SIZE {
                    return false;
                }
                let page_size = SharedMemory::page_size(region);
                let n = *count;
                assert(n * page_size <= 0xffff_ffff * 0xffff_ffff) by (nonlinear_arith)
                    requires
                        n <= 0xffff_ffff,
                        page_size <= 0xffff_ffff,
                ;
                SharedMemory::page_offset(region, *start, n as u64 * page_size as u64).is_some()
            },
            _ => false,
        }
    }

    /// The data in the pages.
    pub open spec fn held(self, region: Seq<u8>) -> Seq<u8> {
        let at = page_start(region, self.stage->Pages_start);
        let len = self.stage->Pages_count * ShmHeader::decode(region).page_size;
        let size = self.stage->Pages_size;
        region.subrange(
            at,
            at + if size < len {
                size as int
            } else {
                len
            },
        )
    }

    /// The next move: the data is read from the pages, and written where it goes.
    pub fn read(&mut self, region: &[u8]) -> (r: Deed)
        requires
            old(self).readable(region@),
        ensures
            same_download(*old(self), *final(self)),
            ({
                let name = old(self).stage->Pages_info@.name;
                let to = target(old(self).output, name);
                &&& r matches Deed::Deliver { message, path, data }
                &&& says_done(message, old(self).stage->Pages_uuid@, old(self).stage->Pages_count)
                &&& data@ == old(self).held(region@)
                &&& option_view(path) == (if to == "-"@ {
                    None::<Seq<char>>
                } else {
                    Some(to)
                })
                &&& final(self).stage matches DownloadStage::Written { info, path: p }
                &&& info@ == old(self).stage->Pages_info@
                &&& p@ == to
            }),
    {
        let (uuid, start, count, size, info): (String, u32, u32, u64, ObjectInfo) =
            match &self.stage {
            DownloadStage::Pages { uuid, start, count, size, info } => {
                (uuid.clone(), *start, *count, *size, info.clone())
            },
            _ => {
                return Deed::Close;
            },
        };
        let data = SharedMemory::read_pages(region, start, count, size);
        let to = output_path(&self.output, info.name.as_str());
        let path = if is_stdout(to.as_str()) {
            None
        } else {
            Some(to.clone())
        };
        self.stage = DownloadStage::Written { info, path: to };
        Deed::Deliver { message: done_message(uuid.as_str(), count), path, data }
    }

    /// The last move: what was written is shown, unless it went to the standard output.
    pub fn end(&mut self) -> (r: Deed)
        requires
            old(self).stage is Written,
        ensures
            same_download(*old(self), *final(self)),
            final(self).stage is Over,
            ({
                let info = old(self).stage->Written_info@;
                let path = old(self).stage->path@;
                if path == "-"@ {
                    r is Close
                } else {
                    r matches Deed::Show(o) && prints(
                        o,
                        downloaded_text(
                            old(self).key@,
                            path,
                            info.size as nat,
                            info.content_type,
                        ),
                    )
                }
            }),
    {
        let (info, path): (ObjectInfo, String) = match &self.stage {
            DownloadStage::Written { info, path } => (info.clone(), path.clone()),
            _ => {
                return Deed::Close;
            },
        };
        self.stage = DownloadStage::Over;
        if is_stdout(path.as_str()) {
            Deed::Close
        } else {
            Deed::Show(
                Outcome::Print(
                    downloaded(
                        self.key.as_str(),
                        path.as_str(),
                        info.size,
                        info.content_type.as_str(),
                    ),
                ),
            )
        }
    }
}

// What goes through the pages.

/// What a client puts into the pages that a server has given out for it is what the
/// server takes out of them.
pub proof fn law_uploaded(u: Uploading, p: PutExchange, region: Seq<u8>)
    requires
        mapped(region),
        ShmHeader::decode(region).data_offset >= SHM_HEADER_SIZE,
        u.writable(region),
        p.stage == (PutStage::Word { start: u.stage->start, count: u.stage->count }),
        p.size == u.data@.len(),
        p.size <= u.stage->count * ShmHeader::decode(region).page_size,
        inside(region, u.stage->start, u.stage->count),
    ensures
        p.sent(put_bytes(region, page_start(region, u.stage->start), u.data@)) == u.data@,
{
    law_write_read(region, u.stage->start, u.stage->count, u.data@);
}

/// What a server puts into pages is what the client that is told of them takes out of
/// them.
pub proof fn law_downloaded(d: Downloading, region: Seq<u8>, data: Seq<u8>)
    requires
        mapped(region),
        ShmHeader::decode(region).data_offset >= SHM_HEADER_SIZE,
        d.readable(region),
        d.stage->Pages_size == data.len(),
        data.len() <= d.stage->Pages_count * ShmHeader::decode(region).page_size,
    ensures
        ({
            let after = put_bytes(region, page_start(region, d.stage->Pages_start), data);
            d.readable(after) && d.held(after) == data
        }),
{
    law_write_read(region, d.stage->Pages_start, d.stage->Pages_count, data);
}

} // verus!
