//! Keeping the image of the store file up to date.
use crate::storage::{apply, apply_op, byte_at, ops_of, FileOp, FileOpView};
use vstd::prelude::*;
use vstd::slice::*;

verus! {

/// Whether the length of the file after the change can be that of an image.
pub open spec fn op_fits(op: FileOpView) -> bool {
    match op {
        FileOpView::SetLen(n) => n <= usize::MAX,
        FileOpView::Write { offset, data } => offset + data.len() <= usize::MAX,
    }
}

/// Whether the length of the file after each of the changes can be that of an image.
pub open spec fn ops_fit(ops: Seq<FileOpView>) -> bool {
    forall|i: int| 0 <= i < ops.len() ==> op_fits(#[trigger] ops[i])
}

/// Whether the length of the file after each of the changes can be that of an image.
pub fn can_carry_out(ops: &Vec<FileOp>) -> (r: bool)
    ensures
        r == ops_fit(ops_of(ops@)),
{
    let ghost all = ops_of(ops@);
    let mut i: usize = 0;
    while i < ops.len()
        invariant
            i <= ops@.len(),
            all == ops_of(ops@),
            forall|j: int| 0 <= j < i ==> op_fits(#[trigger] all[j]),
        decreases ops@.len() - i,
    {
        assert(all[i as int] == ops@[i as int]@);
        let fits = match &ops[i] {
            FileOp::SetLen(n) => *n <= usize::MAX as u64,
            FileOp::Write { offset, data } => {
                *offset <= usize::MAX as u64 && data.len() <= usize::MAX - *offset as usize
            },
        };
        if !fits {
            return false;
        }
        i += 1;
    }
    true
}

fn set_len(image: &mut Vec<u8>, n: usize)
    ensures
        final(image)@ == apply_op(old(image)@, FileOpView::SetLen(n as u64)),
{
    if n <= image.len() {
        image.truncate(n);
    }
    let ghost before = old(image)@;
    while image.len() < n
        invariant
            image@.len() <= n,
            before.len() <= image@.len() || image@.len() == n,
            forall|i: int| 0 <= i < image@.len() ==> image@[i] == byte_at(before, i),
        decreases n - image@.len(),
    {
        image.push(0);
    }
    assert(image@ =~= apply_op(before, FileOpView::SetLen(n as u64)));
}

fn write_at(image: &mut Vec<u8>, offset: usize, data: &Vec<u8>)
    requires
        offset + data@.len() <= usize::MAX,
    ensures
        final(image)@ == apply_op(
            old(image)@,
            FileOpView::Write { offset: offset as u64, data: data@ },
        ),
{
    let ghost before = image@;
    let end = offset + data.len();
    if data.len() > 0 && image.len() < end {
        set_len(image, end);
    }
    let mut i: usize = 0;
    while i < data.len()
        invariant
            i <= data@.len(),
            end == offset + data@.len(),
            data@.len() > 0 ==> image@.len() >= end,
            image@.len() == (if data@.len() == 0 || end <= before.len() {
                before.len()
            } else {
                end as nat
            }),
            forall|j: int|
                0 <= j < image@.len() ==> #[trigger] image@[j] == (if offset <= j < offset + i {
                    data@[j - offset]
                } else {
                    byte_at(before, j)
                }),
        decreases data@.len() - i,
    {
        image.set(offset + i, data[i]);
        i += 1;
    }
    assert(image@ =~= apply_op(
        before,
        FileOpView::Write { offset: offset as u64, data: data@ },
    ));
}

/// Makes the changes to the image, one after the other.
pub fn carry_out(image: &mut Vec<u8>, ops: &Vec<FileOp>)
    requires
        ops_fit(ops_of(ops@)),
    ensures
        final(image)@ == apply(old(image)@, ops_of(ops@)),
{
    let ghost all = ops_of(ops@);
    let ghost before = image@;
    assert(all.take(0) =~= Seq::empty());
    let mut i: usize = 0;
    while i < ops.len()
        invariant
            i <= ops@.len(),
            all == ops_of(ops@),
            all.len() == ops@.len(),
            ops_fit(all),
            image@ == apply(before, all.take(i as int)),
        decreases ops@.len() - i,
    {
        assert(all[i as int] == ops@[i as int]@);
        assert(op_fits(all[i as int]));
        assert(all.take(i + 1).drop_last() =~= all.take(i as int));
        match &ops[i] {
            FileOp::SetLen(n) => set_len(image, *n as usize),
            FileOp::Write { offset, data } => write_at(image, *offset as usize, data),
        }
        i += 1;
    }
    assert(all.take(i as int) =~= all);
}

} // verus!
