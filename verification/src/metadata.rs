//! Metadata entries: the records of the metadata area, one for each object
//! that was ever stored.
use crate::bytes::{
    bits_of_signed, byte_range, le_bytes, lemma_byte_ranges, lemma_le_bytes_len,
    lemma_le_round_trip, lemma_signed_round_trip, push_bytes, push_le, read_le, signed_bits,
    signed_of_bits, signed_value,
};
use crate::clock::{format_utc, unix_now, utc_text, DATETIME_FORMAT};
use crate::error::{ErrorView, MiniOsError};
use crate::ids::{hyphenated, is_random_id, parsed_uuid, random_uuid, uuid_text};
use crate::superblock::num_at;
use crate::text::{decode_text, utf8_error_text};
use vstd::prelude::*;
use vstd::slice::*;
use vstd::string::*;
use vstd::utf8::*;

verus! {

/// The flag of an entry whose object was deleted.
pub const META_FLAG_DELETED: u8 = 1;

/// What callers learn of a stored object.
#[derive(Debug)]
pub struct ObjectInfo {
    /// The identifier, as a hyphenated UUID.
    pub uuid: String,
    pub name: String,
    /// Length of the data in bytes.
    pub size: u64,
    pub content_type: String,
    /// Creation time, in UTC.
    pub created_at: String,
    pub tags: String,
    /// Number of data blocks.
    pub block_count: u32,
}

/// An [`ObjectInfo`], with texts as sequences of characters.
pub struct ObjectInfoView {
    pub uuid: Seq<char>,
    pub name: Seq<char>,
    pub size: u64,
    pub content_type: Seq<char>,
    pub created_at: Seq<char>,
    pub tags: Seq<char>,
    pub block_count: u32,
}

impl View for ObjectInfo {
    type V = ObjectInfoView;

    open spec fn view(&self) -> ObjectInfoView {
        ObjectInfoView {
            uuid: self.uuid@,
            name: self.name@,
            size: self.size,
            content_type: self.content_type@,
            created_at: self.created_at@,
            tags: self.tags@,
            block_count: self.block_count,
        }
    }
}

impl Clone for ObjectInfo {
    fn clone(&self) -> (r: Self)
        ensures
            r@ == self@,
    {
        ObjectInfo {
            uuid: self.uuid.clone(),
            name: self.name.clone(),
            size: self.size,
            content_type: self.content_type.clone(),
            created_at: self.created_at.clone(),
            tags: self.tags.clone(),
            block_count: self.block_count,
        }
    }
}

/// One entry of the metadata area.
#[derive(Debug)]
pub struct MetadataEntry {
    pub uuid: [u8; 16],
    pub flags: u8,
    pub name: String,
    /// Length of the object's data in bytes.
    pub size: u64,
    pub content_type: String,
    /// Seconds since the Unix epoch.
    pub created_at: i64,
    pub tags: String,
    /// The numbers of the blocks that hold the data, in order.
    pub block_pointers: Vec<u64>,
    /// Length of the entry in bytes, as it was read; 0 in an entry that was
    /// not read.
    pub entry_size: u32,
}

/// A [`MetadataEntry`], with texts and lists as sequences.
pub struct EntryView {
    pub uuid: Seq<u8>,
    pub flags: u8,
    pub name: Seq<char>,
    pub size: u64,
    pub content_type: Seq<char>,
    pub created_at: i64,
    pub tags: Seq<char>,
    pub block_pointers: Seq<u64>,
    pub entry_size: u32,
}

impl View for MetadataEntry {
    type V = EntryView;

    open spec fn view(&self) -> EntryView {
        EntryView {
            uuid: self.uuid@,
            flags: self.flags,
            name: self.name@,
            size: self.size,
            content_type: self.content_type@,
            created_at: self.created_at,
            tags: self.tags@,
            block_pointers: self.block_pointers@,
            entry_size: self.entry_size,
        }
    }
}

/// The notation of a creation time.
pub open spec fn created_text(secs: i64) -> Seq<char> {
    match utc_text(secs, DATETIME_FORMAT@) {
        Some(t) => t,
        None => "unknown"@,
    }
}

/// The bytes of the block pointers, eight each.
pub open spec fn pointer_bytes(pointers: Seq<u64>) -> Seq<u8>
    decreases pointers.len(),
{
    if pointers.len() == 0 {
        Seq::empty()
    } else {
        pointer_bytes(pointers.drop_last()) + le_bytes(pointers.last() as nat, 8)
    }
}

/// The `n` block pointers that stand in `d` from `at` on.
pub open spec fn pointers_at(d: Seq<u8>, at: int, n: nat) -> Seq<u64> {
    Seq::new(n, |i: int| num_at(d, at + 8 * i, 8) as u64)
}

/// The outcome of reading an entry: the entry, an error, or neither, where the
/// bytes end in the middle of a fixed-width field.
pub enum EntryParse {
    Entry(EntryView),
    Refused(ErrorView),
    Fault,
}

/// The least length of an entry in bytes.
pub const MIN_ENTRY_SIZE: usize = 47;

impl EntryView {
    /// Whether the object was deleted.
    pub open spec fn deleted(self) -> bool {
        self.flags & META_FLAG_DELETED != 0
    }

    /// The length of the entry in bytes.
    pub open spec fn encoded_len(self) -> int {
        MIN_ENTRY_SIZE + encode_utf8(self.name).len() + encode_utf8(self.content_type).len()
            + encode_utf8(self.tags).len() + 8 * self.block_pointers.len()
    }

    /// The entry as it stands in the metadata area. The length of each text is
    /// held in two bytes.
    #[verifier::opaque]
    pub open spec fn encode(self) -> Seq<u8> {
        self.uuid + seq![self.flags] + le_bytes(encode_utf8(self.name).len(), 2) + encode_utf8(
            self.name,
        ) + le_bytes(self.size as nat, 8) + le_bytes(encode_utf8(self.content_type).len(), 2)
            + encode_utf8(self.content_type) + le_bytes(signed_bits(self.created_at), 8) + le_bytes(
            encode_utf8(self.tags).len(),
            2,
        ) + encode_utf8(self.tags) + le_bytes(self.block_pointers.len(), 4) + pointer_bytes(
            self.block_pointers,
        ) + le_bytes(self.encoded_len() as nat, 4)
    }

    /// Whether every length in the entry fits in the bytes that hold it.
    pub open spec fn fits(self) -> bool {
        &&& self.uuid.len() == 16
        &&& encode_utf8(self.name).len() <= u16::MAX
        &&& encode_utf8(self.content_type).len() <= u16::MAX
        &&& encode_utf8(self.tags).len() <= u16::MAX
        &&& self.encoded_len() <= u32::MAX
    }

    /// What callers learn of the object.
    pub open spec fn info(self) -> ObjectInfoView {
        ObjectInfoView {
            uuid: hyphenated(self.uuid),
            name: self.name,
            size: self.size,
            content_type: self.content_type,
            created_at: created_text(self.created_at),
            tags: self.tags,
            block_count: self.block_pointers.len() as u32,
        }
    }
}

/// What reading an entry from the front of `d` yields.
#[verifier::opaque]
pub open spec fn parse_entry(d: Seq<u8>) -> EntryParse {
    if d.len() < MIN_ENTRY_SIZE {
        EntryParse::Refused(ErrorView::Storage("元数据条目太短"@))
    } else {
        let at: int = 19;
        let end = at + num_at(d, 17, 2);
        if end > d.len() {
            EntryParse::Refused(ErrorView::Storage("损坏的元数据：名称字段"@))
        } else if !valid_utf8(d.subrange(at, end)) {
            EntryParse::Refused(ErrorView::Utf8(utf8_error_text(d.subrange(at, end))))
        } else {
            parse_from_size(d, decode_utf8(d.subrange(at, end)), end)
        }
    }
}

/// The reading of an entry goes on at its size field.
pub open spec fn parse_from_size(d: Seq<u8>, name: Seq<char>, size_at: int) -> EntryParse {
    let at = size_at + 10;
    let end = at + num_at(d, size_at + 8, 2);
    if at > d.len() {
        EntryParse::Fault
    } else if end > d.len() {
        EntryParse::Refused(ErrorView::Storage("损坏的元数据：内容类型字段"@))
    } else if !valid_utf8(d.subrange(at, end)) {
        EntryParse::Refused(ErrorView::Utf8(utf8_error_text(d.subrange(at, end))))
    } else {
        parse_from_time(d, name, size_at, decode_utf8(d.subrange(at, end)), end)
    }
}

/// The reading of an entry goes on at its creation time.
pub open spec fn parse_from_time(
    d: Seq<u8>,
    name: Seq<char>,
    size_at: int,
    content_type: Seq<char>,
    time_at: int,
) -> EntryParse {
    let at = time_at + 10;
    let end = at + num_at(d, time_at + 8, 2);
    if at > d.len() {
        EntryParse::Fault
    } else if end > d.len() {
        EntryParse::Refused(ErrorView::Storage("损坏的元数据：标签字段"@))
    } else if !valid_utf8(d.subrange(at, end)) {
        EntryParse::Refused(ErrorView::Utf8(utf8_error_text(d.subrange(at, end))))
    } else {
        parse_from_count(
            d,
            name,
            size_at,
            content_type,
            time_at,
            decode_utf8(d.subrange(at, end)),
            end,
        )
    }
}

/// The reading of an entry ends with its block pointers and its length.
pub open spec fn parse_from_count(
    d: Seq<u8>,
    name: Seq<char>,
    size_at: int,
    content_type: Seq<char>,
    time_at: int,
    tags: Seq<char>,
    count_at: int,
) -> EntryParse {
    let count = num_at(d, count_at, 4);
    let last_at = count_at + 4 + 8 * count;
    if count_at + 4 > d.len() {
        EntryParse::Fault
    } else if last_at > d.len() {
        EntryParse::Refused(ErrorView::Storage("损坏的元数据：块指针列表字段"@))
    } else if last_at + 4 > d.len() {
        EntryParse::Fault
    } else {
        EntryParse::Entry(
            EntryView {
                uuid: d.subrange(0, 16),
                flags: d[16],
                name,
                size: num_at(d, size_at, 8) as u64,
                content_type,
                created_at: signed_value(num_at(d, time_at, 8)),
                tags,
                block_pointers: pointers_at(d, count_at + 4, count),
                entry_size: num_at(d, last_at, 4) as u32,
            },
        )
    }
}

/// The error that reports damage to the field `what`.
fn damaged(what: &str) -> (e: MiniOsError)
    ensures
        e@ == ErrorView::Storage(what@),
{
    MiniOsError::Storage(what.to_owned())
}

/// The 16 bytes at the front of `data`.
fn first_sixteen(data: &[u8]) -> (r: [u8; 16])
    requires
        data@.len() >= 16,
    ensures
        r@ == data@.subrange(0, 16),
{
    let r = [
        data[0],
        data[1],
        data[2],
        data[3],
        data[4],
        data[5],
        data[6],
        data[7],
        data[8],
        data[9],
        data[10],
        data[11],
        data[12],
        data[13],
        data[14],
        data[15],
    ];
    assert(r@ =~= data@.subrange(0, 16));
    r
}

impl MetadataEntry {
    /// Makes the entry of an object that is stored now, under a new identifier.
    pub fn new(
        name: &str,
        size: u64,
        content_type: &str,
        tags: &str,
        block_pointers: Vec<u64>,
    ) -> (r: MetadataEntry)
        ensures
            r@ == (EntryView {
                uuid: r.uuid@,
                flags: 0,
                name: name@,
                size,
                content_type: content_type@,
                created_at: r.created_at,
                tags: tags@,
                block_pointers: block_pointers@,
                entry_size: 0,
            }),
            is_random_id(r.uuid@),
    {
        MetadataEntry::identified(
            random_uuid(),
            unix_now(),
            name,
            size,
            content_type,
            tags,
            block_pointers,
        )
    }

    /// Makes the entry of an object that was stored at `created_at` under the
    /// identifier `uuid`.
    pub fn identified(
        uuid: [u8; 16],
        created_at: i64,
        name: &str,
        size: u64,
        content_type: &str,
        tags: &str,
        block_pointers: Vec<u64>,
    ) -> (r: MetadataEntry)
        ensures
            r@ == (EntryView {
                uuid: uuid@,
                flags: 0,
                name: name@,
                size,
                content_type: content_type@,
                created_at,
                tags: tags@,
                block_pointers: block_pointers@,
                entry_size: 0,
            }),
    {
        MetadataEntry {
            uuid,
            flags: 0,
            name: name.to_owned(),
            size,
            content_type: content_type.to_owned(),
            created_at,
            tags: tags.to_owned(),
            block_pointers,
            entry_size: 0,
        }
    }

    /// The length of the entry in bytes.
    pub fn calculate_entry_size(&self) -> (r: u32)
        requires
            self@.encoded_len() <= u32::MAX,
        ensures
            r == self@.encoded_len(),
    {
        let name_len = self.name.as_str().as_bytes().len() as u32;
        let type_len = self.content_type.as_str().as_bytes().len() as u32;
        let tags_len = self.tags.as_str().as_bytes().len() as u32;
        let pointers = self.block_pointers.len() as u32;
        47 + name_len + type_len + tags_len + 8 * pointers
    }

    /// Writes the entry as bytes.
    pub fn to_bytes(&self) -> (r: Vec<u8>)
        requires
            self@.encoded_len() <= u32::MAX,
        ensures
            r@ == self@.encode(),
            r@.len() == self@.encoded_len(),
    {
        let entry_size = self.calculate_entry_size();
        let name = self.name.as_str().as_bytes();
        let content_type = self.content_type.as_str().as_bytes();
        let tags = self.tags.as_str().as_bytes();
        let mut out: Vec<u8> = Vec::new();
        push_bytes(&mut out, self.uuid.as_slice());
        assert(out@ =~= self.uuid@);
        out.push(self.flags);
        assert(out@ =~= self.uuid@ + seq![self.flags]);
        push_le(&mut out, name.len() as u64, 2);
        push_bytes(&mut out, name);
        push_le(&mut out, self.size, 8);
        push_le(&mut out, content_type.len() as u64, 2);
        push_bytes(&mut out, content_type);
        push_le(&mut out, bits_of_signed(self.created_at), 8);
        push_le(&mut out, tags.len() as u64, 2);
        push_bytes(&mut out, tags);
        push_le(&mut out, self.block_pointers.len() as u64, 4);
        let ghost head = out@;
        let mut i: usize = 0;
        while i < self.block_pointers.len()
            invariant
                i <= self.block_pointers@.len(),
                out@ == head + pointer_bytes(self.block_pointers@.take(i as int)),
            decreases self.block_pointers@.len() - i,
        {
            push_le(&mut out, self.block_pointers[i], 8);
            i += 1;
            proof {
                let upto = self.block_pointers@.take(i as int);
                assert(upto.drop_last() =~= self.block_pointers@.take(i as int - 1));
                assert(out@ =~= head + pointer_bytes(upto));
            }
        }
        assert(self.block_pointers@.take(i as int) =~= self.block_pointers@);
        push_le(&mut out, entry_size as u64, 4);
        proof {
            reveal(EntryView::encode);
            lemma_encode_len(self@);
        }
        out
    }

    /// Reads an entry from the front of `data`, with the number of bytes that
    /// it takes up there.
    pub fn from_bytes(data: &[u8]) -> (r: Result<(MetadataEntry, usize), MiniOsError>)
        requires
            !(parse_entry(data@) is Fault),
        ensures
            match r {
                Ok((e, n)) => {
                    &&& parse_entry(data@) == EntryParse::Entry(e@)
                    &&& n == e@.encoded_len()
                    &&& n <= data@.len()
                },
                Err(e) => parse_entry(data@) == EntryParse::Refused(e@),
            },
    {
        proof {
            lemma_byte_ranges();
            reveal(parse_entry);
        }
        assert(data@.len() == data.len());
        if data.len() < MIN_ENTRY_SIZE {
            return Err(damaged("元数据条目太短"));
        }
        let uuid = first_sixteen(data);
        let flags = data[16];
        let name_len = read_le(data, 17, 2) as usize;
        if name_len > data.len() - 19 {
            return Err(damaged("损坏的元数据：名称字段"));
        }
        let size_at = 19 + name_len;
        let name = match decode_text(slice_subrange(data, 19, size_at)) {
            Ok(s) => s,
            Err(m) => {
                return Err(MiniOsError::Utf8(m));
            },
        };
        assert(parse_entry(data@) == parse_from_size(data@, name@, size_at as int));
        let size = read_le(data, size_at, 8);
        let type_len = read_le(data, size_at + 8, 2) as usize;
        let type_at = size_at + 10;
        if type_len > data.len() - type_at {
            return Err(damaged("损坏的元数据：内容类型字段"));
        }
        let time_at = type_at + type_len;
        let content_type = match decode_text(slice_subrange(data, type_at, time_at)) {
            Ok(s) => s,
            Err(m) => {
                return Err(MiniOsError::Utf8(m));
            },
        };
        assert(parse_entry(data@) == parse_from_time(
            data@,
            name@,
            size_at as int,
            content_type@,
            time_at as int,
        ));
        let created_at = signed_of_bits(read_le(data, time_at, 8));
        let tags_len = read_le(data, time_at + 8, 2) as usize;
        let tags_at = time_at + 10;
        if tags_len > data.len() - tags_at {
            return Err(damaged("损坏的元数据：标签字段"));
        }
        let count_at = tags_at + tags_len;
        let tags = match decode_text(slice_subrange(data, tags_at, count_at)) {
            Ok(s) => s,
            Err(m) => {
                return Err(MiniOsError::Utf8(m));
            },
        };
        let block_count = read_le(data, count_at, 4) as usize;
        let mut at = count_at + 4;
        let mut block_pointers: Vec<u64> = Vec::new();
        let mut i: usize = 0;
        while i < block_count
            invariant
                data@.len() == data.len(),
                i <= block_count,
                block_count == num_at(data@, count_at as int, 4),
                at == count_at + 4 + 8 * i,
                at <= data@.len(),
                block_pointers@ == pointers_at(data@, count_at + 4, i as nat),
                parse_entry(data@) == parse_from_count(
                    data@,
                    name@,
                    size_at as int,
                    content_type@,
                    time_at as int,
                    tags@,
                    count_at as int,
                ),
            decreases block_count - i,
        {
            if data.len() - at < 8 {
                return Err(damaged("损坏的元数据：块指针列表字段"));
            }
            let pointer = read_le(data, at, 8);
            block_pointers.push(pointer);
            at += 8;
            i += 1;
            assert(block_pointers@ =~= pointers_at(data@, count_at + 4, i as nat));
        }
        let entry_size = read_le(data, at, 4) as u32;
        let entry = MetadataEntry {
            uuid,
            flags,
            name,
            size,
            content_type,
            created_at,
            tags,
            block_pointers,
            entry_size,
        };
        proof {
            decode_utf8_encode_utf8(data@.subrange(19, size_at as int));
            decode_utf8_encode_utf8(data@.subrange(type_at as int, time_at as int));
            decode_utf8_encode_utf8(data@.subrange(tags_at as int, count_at as int));
        }
        Ok((entry, at + 4))
    }

    /// Whether `data` ends in the middle of a fixed-width field.
    pub fn is_cut_off(data: &[u8]) -> (r: bool)
        ensures
            r == (parse_entry(data@) is Fault),
    {
        proof {
            lemma_byte_ranges();
            reveal(parse_entry);
        }
        assert(data@.len() == data.len());
        if data.len() < MIN_ENTRY_SIZE {
            return false;
        }
        let name_len = read_le(data, 17, 2) as usize;
        if name_len > data.len() - 19 {
            return false;
        }
        let size_at = 19 + name_len;
        if decode_text(slice_subrange(data, 19, size_at)).is_err() {
            return false;
        }
        if data.len() - size_at < 10 {
            return true;
        }
        let type_len = read_le(data, size_at + 8, 2) as usize;
        let type_at = size_at + 10;
        if type_len > data.len() - type_at {
            return false;
        }
        let time_at = type_at + type_len;
        if decode_text(slice_subrange(data, type_at, time_at)).is_err() {
            return false;
        }
        if data.len() - time_at < 10 {
            return true;
        }
        let tags_len = read_le(data, time_at + 8, 2) as usize;
        let tags_at = time_at + 10;
        if tags_len > data.len() - tags_at {
            return false;
        }
        let count_at = tags_at + tags_len;
        if decode_text(slice_subrange(data, tags_at, count_at)).is_err() {
            return false;
        }
        if data.len() - count_at < 4 {
            return true;
        }
        let count = read_le(data, count_at, 4);
        let left = (data.len() - count_at - 4) as u64;
        8 * count <= left && left - 8 * count < 4
    }

    /// What callers learn of the object.
    pub fn to_object_info(&self) -> (r: ObjectInfo)
        ensures
            r@ == self@.info(),
            parsed_uuid(r.uuid@) == Some(self.uuid@),
    {
        let created_at = match format_utc(self.created_at, DATETIME_FORMAT) {
            Some(t) => t,
            None => "unknown".to_owned(),
        };
        ObjectInfo {
            uuid: uuid_text(self.uuid),
            name: self.name.clone(),
            size: self.size,
            content_type: self.content_type.clone(),
            created_at,
            tags: self.tags.clone(),
            block_count: self.block_pointers.len() as u32,
        }
    }
}

proof fn lemma_pointer_bytes_len(pointers: Seq<u64>)
    ensures
        pointer_bytes(pointers).len() == 8 * pointers.len(),
    decreases pointers.len(),
{
    if pointers.len() > 0 {
        lemma_pointer_bytes_len(pointers.drop_last());
        lemma_le_bytes_len(pointers.last() as nat, 8);
    }
}

proof fn lemma_pointer_bytes_at(pointers: Seq<u64>, i: int)
    requires
        0 <= i < pointers.len(),
    ensures
        pointer_bytes(pointers).len() == 8 * pointers.len(),
        pointer_bytes(pointers).subrange(8 * i, 8 * i + 8) == le_bytes(pointers[i] as nat, 8),
    decreases pointers.len(),
{
    lemma_pointer_bytes_len(pointers);
    let front = pointers.drop_last();
    lemma_pointer_bytes_len(front);
    lemma_le_bytes_len(pointers.last() as nat, 8);
    if i < pointers.len() - 1 {
        lemma_pointer_bytes_at(front, i);
        assert(pointer_bytes(pointers).subrange(8 * i, 8 * i + 8) =~= pointer_bytes(front).subrange(
            8 * i,
            8 * i + 8,
        ));
        assert(front[i] == pointers[i]);
    } else {
        assert(pointer_bytes(pointers).subrange(8 * i, 8 * i + 8) =~= le_bytes(
            pointers.last() as nat,
            8,
        ));
    }
}

pub proof fn lemma_encode_len(e: EntryView)
    requires
        e.uuid.len() == 16,
    ensures
        e.encode().len() == e.encoded_len(),
{
    reveal(EntryView::encode);
    lemma_le_bytes_len(encode_utf8(e.name).len(), 2);
    lemma_le_bytes_len(e.size as nat, 8);
    lemma_le_bytes_len(encode_utf8(e.content_type).len(), 2);
    lemma_le_bytes_len(signed_bits(e.created_at), 8);
    lemma_le_bytes_len(encode_utf8(e.tags).len(), 2);
    lemma_le_bytes_len(e.block_pointers.len(), 4);
    lemma_pointer_bytes_len(e.block_pointers);
    lemma_le_bytes_len(e.encoded_len() as nat, 4);
}

proof fn lemma_num_at(d: Seq<u8>, at: int, n: nat, v: nat)
    requires
        d.subrange(at, at + n) == le_bytes(v, n),
        v < byte_range(n),
    ensures
        num_at(d, at, n as int) == v,
{
    lemma_le_round_trip(v, n);
}

/// Where each part of an entry stands in its bytes.
proof fn lemma_entry_parts(e: EntryView, rest: Seq<u8>, d: Seq<u8>, size_at: int, time_at: int, count_at: int, last_at: int)
    requires
        e.fits(),
        d == e.encode() + rest,
        size_at == 19 + encode_utf8(e.name).len(),
        time_at == size_at + 10 + encode_utf8(e.content_type).len(),
        count_at == time_at + 10 + encode_utf8(e.tags).len(),
        last_at == count_at + 4 + 8 * e.block_pointers.len(),
    ensures
        d.len() == last_at + 4 + rest.len(),
        d.subrange(0, 16) == e.uuid,
        d[16] == e.flags,
        d.subrange(17, 19) == le_bytes(encode_utf8(e.name).len(), 2),
        d.subrange(19, size_at) == encode_utf8(e.name),
        d.subrange(size_at, size_at + 8) == le_bytes(e.size as nat, 8),
        d.subrange(size_at + 8, size_at + 10) == le_bytes(encode_utf8(e.content_type).len(), 2),
        d.subrange(size_at + 10, time_at) == encode_utf8(e.content_type),
        d.subrange(time_at, time_at + 8) == le_bytes(signed_bits(e.created_at), 8),
        d.subrange(time_at + 8, time_at + 10) == le_bytes(encode_utf8(e.tags).len(), 2),
        d.subrange(time_at + 10, count_at) == encode_utf8(e.tags),
        d.subrange(count_at, count_at + 4) == le_bytes(e.block_pointers.len(), 4),
        d.subrange(count_at + 4, last_at) == pointer_bytes(e.block_pointers),
        d.subrange(last_at, last_at + 4) == le_bytes(e.encoded_len() as nat, 4),
{
    reveal(EntryView::encode);
    lemma_encode_len(e);
    lemma_le_bytes_len(encode_utf8(e.name).len(), 2);
    lemma_le_bytes_len(e.size as nat, 8);
    lemma_le_bytes_len(encode_utf8(e.content_type).len(), 2);
    lemma_le_bytes_len(signed_bits(e.created_at), 8);
    lemma_le_bytes_len(encode_utf8(e.tags).len(), 2);
    lemma_le_bytes_len(e.block_pointers.len(), 4);
    lemma_pointer_bytes_len(e.block_pointers);
    lemma_le_bytes_len(e.encoded_len() as nat, 4);
}

/// An entry whose lengths fit is read back from the bytes that it is written
/// as, whatever follows them.
pub proof fn law_entry_round_trip(e: EntryView, rest: Seq<u8>)
    requires
        e.fits(),
    ensures
        parse_entry(e.encode() + rest) == EntryParse::Entry(
            EntryView { entry_size: e.encoded_len() as u32, ..e },
        ),
{
    let d = e.encode() + rest;
    let size_at = 19 + encode_utf8(e.name).len() as int;
    let time_at = size_at + 10 + encode_utf8(e.content_type).len();
    let count_at = time_at + 10 + encode_utf8(e.tags).len();
    let last_at = count_at + 4 + 8 * e.block_pointers.len();
    lemma_entry_parts(e, rest, d, size_at, time_at, count_at, last_at);
    lemma_byte_ranges();
    encode_utf8_decode_utf8(e.name);
    encode_utf8_valid_utf8(e.name);
    encode_utf8_decode_utf8(e.content_type);
    encode_utf8_valid_utf8(e.content_type);
    encode_utf8_decode_utf8(e.tags);
    encode_utf8_valid_utf8(e.tags);
    lemma_signed_round_trip(e.created_at);
    lemma_num_at(d, 17, 2, encode_utf8(e.name).len());
    lemma_num_at(d, size_at, 8, e.size as nat);
    lemma_num_at(d, size_at + 8, 2, encode_utf8(e.content_type).len());
    lemma_num_at(d, time_at, 8, signed_bits(e.created_at));
    lemma_num_at(d, time_at + 8, 2, encode_utf8(e.tags).len());
    lemma_num_at(d, count_at, 4, e.block_pointers.len());
    lemma_num_at(d, last_at, 4, e.encoded_len() as nat);
    let found = pointers_at(d, count_at + 4, e.block_pointers.len());
    assert forall|i: int| 0 <= i < e.block_pointers.len() implies found[i]
        == e.block_pointers[i] by {
        lemma_pointer_bytes_at(e.block_pointers, i);
        let at = count_at + 4 + 8 * i;
        assert(d.subrange(at, at + 8) =~= d.subrange(count_at + 4, last_at).subrange(
            8 * i,
            8 * i + 8,
        ));
        lemma_num_at(d, at, 8, e.block_pointers[i] as nat);
    }
    assert(found =~= e.block_pointers);
    reveal(parse_entry);
    assert(parse_entry(d) == parse_from_size(d, e.name, size_at));
    assert(parse_entry(d) == parse_from_time(d, e.name, size_at, e.content_type, time_at));
}

/// The entries that stand in `meta` from `at` on, each with its position.
/// Each begins where the one before it ends. Reading ends at the first bytes
/// that are refused. There is no answer where the bytes end in the middle of a
/// fixed-width field.
pub open spec fn scan(meta: Seq<u8>, at: int) -> Option<Seq<(EntryView, int)>>
    decreases
            if at < meta.len() {
                meta.len() - at
            } else {
                0
            },
{
    if at >= meta.len() {
        Some(Seq::empty())
    } else {
        match parse_entry(meta.skip(at)) {
            EntryParse::Fault => None,
            EntryParse::Refused(_) => Some(Seq::empty()),
            EntryParse::Entry(e) => match scan(meta, at + e.encoded_len()) {
                None => None,
                Some(rest) => Some(seq![(e, at)] + rest),
            },
        }
    }
}

/// The bytes of the entries, one after the other.
pub open spec fn encode_all(entries: Seq<EntryView>) -> Seq<u8>
    decreases entries.len(),
{
    if entries.len() == 0 {
        Seq::empty()
    } else {
        encode_all(entries.drop_last()) + entries.last().encode()
    }
}

/// Whether the entry stands as it would be read: its lengths fit, and it states
/// its own length.
pub open spec fn sound_entry(e: EntryView) -> bool {
    e.fits() && e.entry_size == e.encoded_len()
}

/// The entries, each with its position in [`encode_all`].
pub open spec fn with_positions(entries: Seq<EntryView>) -> Seq<(EntryView, int)> {
    Seq::new(
        entries.len(),
        |i: int| (entries[i], encode_all(entries.take(i)).len() as int),
    )
}

/// The entries of `meta` from `at` on, without their positions.
pub open spec fn entries_of(found: Seq<(EntryView, int)>) -> Seq<EntryView> {
    Seq::new(found.len(), |i: int| found[i].0)
}

/// The bytes of the first `i` entries, then those of the others.
pub proof fn lemma_encode_all_split(entries: Seq<EntryView>, i: int)
    requires
        0 <= i <= entries.len(),
    ensures
        encode_all(entries) == encode_all(entries.take(i)) + encode_all(entries.skip(i)),
    decreases entries.len(),
{
    if i == entries.len() {
        assert(entries.take(i) =~= entries);
        assert(entries.skip(i) =~= Seq::empty());
        assert(encode_all(entries) =~= encode_all(entries.take(i)) + encode_all(entries.skip(i)));
    } else {
        let front = entries.drop_last();
        let tail = entries.skip(i);
        assert(front.take(i) =~= entries.take(i));
        assert(tail.drop_last() =~= front.skip(i));
        lemma_encode_all_split(front, i);
        assert(encode_all(entries) =~= encode_all(entries.take(i)) + encode_all(tail));
    }
}

/// The bytes of the first entry, then those of the others.
pub proof fn lemma_encode_all_first(entries: Seq<EntryView>)
    requires
        entries.len() > 0,
    ensures
        encode_all(entries) == entries[0].encode() + encode_all(entries.skip(1)),
{
    lemma_encode_all_split(entries, 1);
    let one = entries.take(1);
    assert(one.drop_last() =~= Seq::empty());
    reveal_with_fuel(encode_all, 2);
    assert(encode_all(one) =~= entries[0].encode());
}

proof fn lemma_scan_from(entries: Seq<EntryView>, i: int)
    requires
        forall|j: int| 0 <= j < entries.len() ==> sound_entry(#[trigger] entries[j]),
        0 <= i <= entries.len(),
    ensures
        scan(encode_all(entries), encode_all(entries.take(i)).len() as int) == Some(
            with_positions(entries).skip(i),
        ),
    decreases entries.len() - i,
{
    let meta = encode_all(entries);
    let at = encode_all(entries.take(i)).len() as int;
    lemma_encode_all_split(entries, i);
    if i == entries.len() {
        assert(entries.skip(i) =~= Seq::empty());
        assert(with_positions(entries).skip(i) =~= Seq::empty());
    } else {
        let e = entries[i];
        let tail = entries.skip(i);
        lemma_encode_all_first(tail);
        lemma_encode_len(e);
        assert(sound_entry(e));
        let rest = encode_all(tail.skip(1));
        assert(meta.skip(at) =~= e.encode() + rest);
        law_entry_round_trip(e, rest);
        assert((EntryView { entry_size: e.encoded_len() as u32, ..e }) == e);
        let more = entries.take(i + 1);
        assert(more.drop_last() =~= entries.take(i));
        assert(encode_all(more).len() == at + e.encoded_len());
        lemma_scan_from(entries, i + 1);
        assert(with_positions(entries).skip(i) =~= seq![(e, at)] + with_positions(entries).skip(
            i + 1,
        ));
    }
}

/// Sound entries are read back from the metadata area in order.
pub proof fn law_scan_round_trip(entries: Seq<EntryView>)
    requires
        forall|j: int| 0 <= j < entries.len() ==> sound_entry(#[trigger] entries[j]),
    ensures
        scan(encode_all(entries), 0) == Some(with_positions(entries)),
        entries_of(with_positions(entries)) == entries,
{
    lemma_scan_from(entries, 0);
    assert(entries.take(0) =~= Seq::empty());
    assert(with_positions(entries).skip(0) =~= with_positions(entries));
    assert(entries_of(with_positions(entries)) =~= entries);
}

} // verus!
