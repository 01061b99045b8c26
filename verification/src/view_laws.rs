//! What the contracts say of a value is said of its fields, and of a list of its items.
use crate::access_log::{AccessRecord, AccessView};
use crate::client::{complains, prints, Outcome};
use crate::exchange::{refuses, Move};
use crate::cache::{pairs_of, texts_of, ObjectCache};
use crate::error::{ErrorView, MiniOsError};
use crate::forms::{fields_of, MultipartField, Upload};
use crate::http::{Lookup, LookupView};
use crate::metadata::{MetadataEntry, ObjectInfo, ObjectInfoView};
use crate::policies::CachedObject;
use crate::search::{option_view, Query};
use crate::server::{access_view, answers_error, cached_view, deletion_view, logs, Answer};
use crate::service::query_of;
use crate::ipc::{
    says_error, says_info, says_list, says_ok, says_ready, ClientMessage, ServerMessage,
};
use crate::storage::{infos_of, ops_of, FileOp, FileOpView, ObjectStorage};
use crate::transfer::{asks_put, says_done};
use crate::web::holdings;
use crate::words::seqs;
use vstd::prelude::*;
use vstd::string::*;

verus! {

/// What is known of an object is what its fields say.
pub proof fn law_object_view(o: ObjectInfo, e: MetadataEntry, c: CachedObject)
    ensures
        o@.uuid == o.uuid@,
        o@.name == o.name@,
        o@.size == o.size,
        o@.content_type == o.content_type@,
        o@.created_at == o.created_at@,
        o@.tags == o.tags@,
        o@.block_count == o.block_count,
        e@.uuid == e.uuid@,
        e@.flags == e.flags,
        e@.name == e.name@,
        e@.size == e.size,
        e@.content_type == e.content_type@,
        e@.created_at == e.created_at,
        e@.tags == e.tags@,
        e@.block_pointers == e.block_pointers@,
        e@.entry_size == e.entry_size,
        c@.uuid == c.uuid@,
        c@.data == c.data@,
        c@.name == c.name@,
        c@.content_type == c.content_type@,
        c@.size == c.size,
        c@.tags == c.tags@,
{
}

/// What is said of a store and of a cache is said of what they hold.
pub proof fn law_holder_view(s: ObjectStorage, c: ObjectCache, writes: Seq<FileOp>)
    ensures
        s@.sb == s.super_block,
        s@.bitmap == s.bitmap@,
        s@.dirty == s.dirty,
        c@.contents == c.inner@,
        c@.hits == c.hits,
        c@.misses == c.misses,
        c@.evictions == c.evictions,
        c@.accesses == c.access_counts@,
        holdings(s, c, writes).store == s@,
        holdings(s, c, writes).cache == c@,
        holdings(s, c, writes).writes == ops_of(writes),
{
}

/// What is said of a record of the log, of an upload, of a part of a form and of a search
/// is said of its fields.
pub proof fn law_record_view(a: AccessRecord, u: Upload, f: MultipartField, q: Query)
    ensures
        a@.op == a.op@,
        a@.name == a.name@,
        a@.uuid == a.uuid@,
        a@.size == a.size,
        a@.content_type == a.content_type@,
        a@.tags == a.tags@,
        u@.name == u.name@,
        u@.content == u.content@,
        u@.content_type == u.content_type@,
        u@.tags == u.tags@,
        f@.name == f.name@,
        f@.data == f.data@,
        q@.name == option_view(q.name),
        q@.tag == option_view(q.tag),
        q@.content_type == option_view(q.content_type),
        q@.after == option_view(q.after),
        q@.before == option_view(q.before),
{
}

/// A text that may be missing is there as it is.
pub proof fn law_option_view(t: String)
    ensures
        option_view(Some(t)) == Some(t@),
        option_view(None) is None,
        Lookup::Found(t)@ == LookupView::Found(t@),
        Lookup::Missing@ == LookupView::Missing,
        Lookup::Broken@ == LookupView::Broken,
{
}

/// A list is spoken of item by item, in order.
pub proof fn law_lists(
    infos: Seq<ObjectInfo>,
    ops: Seq<FileOp>,
    texts: Seq<String>,
    pairs: Seq<(String, CachedObject)>,
    fields: Seq<MultipartField>,
    words: Seq<Vec<char>>,
    i: int,
)
    ensures
        infos_of(infos).len() == infos.len(),
        0 <= i < infos.len() ==> infos_of(infos)[i] == infos[i]@,
        ops_of(ops).len() == ops.len(),
        0 <= i < ops.len() ==> ops_of(ops)[i] == ops[i]@,
        texts_of(texts).len() == texts.len(),
        0 <= i < texts.len() ==> texts_of(texts)[i] == texts[i]@,
        pairs_of(pairs).len() == pairs.len(),
        0 <= i < pairs.len() ==> pairs_of(pairs)[i] == (pairs[i].0@, pairs[i].1@),
        fields_of(fields).len() == fields.len(),
        0 <= i < fields.len() ==> fields_of(fields)[i] == fields[i]@,
        seqs(words).len() == words.len(),
        0 <= i < words.len() ==> seqs(words)[i] == words[i]@,
{
}

/// A change to the file says where it is made and what is written there.
pub proof fn law_change_view(n: u64, offset: u64, data: Vec<u8>)
    ensures
        FileOp::SetLen(n)@ == FileOpView::SetLen(n),
        (FileOp::Write { offset, data })@ == (FileOpView::Write { offset, data: data@ }),
{
}

/// An error is of the kind that it was made as, with its text.
pub proof fn law_error_view(t: String)
    ensures
        MiniOsError::Storage(t)@ == ErrorView::Storage(t@),
        MiniOsError::Shm(t)@ == ErrorView::Shm(t@),
        MiniOsError::Ipc(t)@ == ErrorView::Ipc(t@),
        MiniOsError::Server(t)@ == ErrorView::Server(t@),
        MiniOsError::Client(t)@ == ErrorView::Client(t@),
        MiniOsError::NotFound(t)@ == ErrorView::NotFound(t@),
        MiniOsError::AlreadyExists(t)@ == ErrorView::AlreadyExists(t@),
        MiniOsError::InvalidArgument(t)@ == ErrorView::InvalidArgument(t@),
        MiniOsError::Io(t)@ == ErrorView::Io(t@),
        MiniOsError::Utf8(t)@ == ErrorView::Utf8(t@),
        MiniOsError::NoSpace@ == ErrorView::NoSpace,
{
}

/// What is cached and what is logged of an object is what is known of it; what is logged
/// of a deletion is the key and the identifier.
pub proof fn law_told_of(o: ObjectInfoView, data: Seq<u8>, op: Seq<char>, key: Seq<char>)
    ensures
        cached_view(o, data).data == data,
        cached_view(o, data).uuid == o.uuid,
        cached_view(o, data).name == o.name,
        cached_view(o, data).size == o.size,
        cached_view(o, data).content_type == o.content_type,
        cached_view(o, data).tags == o.tags,
        access_view(op, o).op == op,
        access_view(op, o).name == o.name,
        access_view(op, o).uuid == o.uuid,
        access_view(op, o).size == o.size,
        access_view(op, o).content_type == o.content_type,
        access_view(op, o).tags == o.tags,
        deletion_view(key, o.uuid).op == "DELETE"@,
        deletion_view(key, o.uuid).name == key,
        deletion_view(key, o.uuid).uuid == o.uuid,
        deletion_view(key, o.uuid).size == 0,
        deletion_view(key, o.uuid).content_type.len() == 0,
        deletion_view(key, o.uuid).tags == "{}"@,
{
}

/// The conditions of a search are those that were asked for.
pub proof fn law_query_of(
    name: Option<String>,
    tag: Option<String>,
    content_type: Option<String>,
    after: Option<String>,
    before: Option<String>,
)
    ensures
        ({
            let q = query_of(ClientMessage::Search { name, tag, content_type, after, before });
            &&& q.name == option_view(name)
            &&& q.tag == option_view(tag)
            &&& q.content_type == option_view(content_type)
            &&& q.after == option_view(after)
            &&& q.before == option_view(before)
        }),
{
}

/// What it means that a message says something: which one it is, and what it carries.
pub proof fn law_says(
    m: ServerMessage,
    c: ClientMessage,
    text: Seq<char>,
    code: Seq<char>,
    start: int,
    count: int,
    page_size: int,
    size: int,
    o: ObjectInfoView,
    infos: Seq<ObjectInfoView>,
    pages: u32,
    kind: Seq<char>,
    tags: Seq<char>,
)
    ensures
        says_ok(m, text) ==> m is Done && option_view(m->Done_message) == Some(text),
        says_error(m, code, text) ==> m is Error && m->code@ == code && m->Error_message@ == text,
        says_info(m, o) ==> m is ObjectInfo && m->ObjectInfo_0@ == o,
        says_list(m, infos) ==> m is ObjectList && infos_of(m->objects@) == infos,
        says_ready(m, text, start, count, page_size, size) ==> m is DataReady && m->uuid@ == text
            && m->start_page == start && m->page_count == count && m->page_size == page_size
            && m->data_size == size,
        says_done(c, text, pages) ==> c is DataDone && c->DataDone_uuid@ == text && c->pages_used
            == pages,
        asks_put(c, text, size, kind, tags) ==> c is Put && c->Put_name@ == text && c->size == size
            && c->Put_content_type@ == kind && c->tags@ == tags,
{
    if says_list(m, infos) {
        assert(infos_of(m->objects@) =~= infos);
    }
}

/// What it means that something is refused, logged, shown or complained of.
pub proof fn law_answered(
    m: Move,
    a: Answer,
    o: Outcome,
    code: Seq<char>,
    text: Seq<char>,
    access: AccessView,
)
    ensures
        refuses(m, code, text) ==> m.access is None && m.action is Refuse && says_error(
            m.action->Refuse_0,
            code,
            text,
        ),
        answers_error(a, code, text) ==> a.access is None && says_error(a.reply, code, text),
        logs(a, access) ==> a.access is Some && a.access->0@ == access,
        prints(o, text) ==> o is Print && o->Print_0@ == text,
        complains(o, text) ==> o is Complain && o->Complain_0@ == text,
{
}

} // verus!
