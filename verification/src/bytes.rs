//! Writing into the bytes of a file held in memory.

use vstd::prelude::*;

verus! {

/// `count` zero bytes.
pub open spec fn zeros(count: int) -> Seq<u8> {
    Seq::new(count as nat, |i: int| 0u8)
}

/// `bytes` with `data` written over it from position `at` on.
pub open spec fn splice(bytes: Seq<u8>, at: int, data: Seq<u8>) -> Seq<u8> {
    Seq::new(
        bytes.len(),
        |i: int|
            if at <= i < at + data.len() {
                data[i - at]
            } else {
                bytes[i]
            },
    )
}

/// Writes `data` over the bytes of `file` from position `at` on. The file
/// keeps its length.
pub fn write_at(file: &mut Vec<u8>, at: usize, data: &[u8])
    requires
        at + data@.len() <= old(file).len(),
    ensures
        final(file)@ == splice(old(file)@, at as int, data@),
{
    let count: usize = data.len();
    let mut index: usize = 0;
    while index < count
        invariant
            count == data@.len(),
            index <= count,
            at + count <= file.len(),
            file@ == splice(old(file)@, at as int, data@.subrange(0, index as int)),
        decreases count - index,
    {
        file[at + index] = data[index];
        index += 1;
        assert(file@ =~= splice(old(file)@, at as int, data@.subrange(0, index as int)));
    }
    assert(data@.subrange(0, count as int) =~= data@);
}

/// Writes `count` zero bytes over the bytes of `file` from position `at` on.
pub fn write_zeros(file: &mut Vec<u8>, at: usize, count: usize)
    requires
        at + count <= old(file).len(),
    ensures
        final(file)@ == splice(old(file)@, at as int, zeros(count as int)),
{
    let mut index: usize = 0;
    while index < count
        invariant
            index <= count,
            at + count <= file.len(),
            file@ == splice(old(file)@, at as int, zeros(index as int)),
        decreases count - index,
    {
        file[at + index] = 0u8;
        index += 1;
        assert(file@ =~= splice(old(file)@, at as int, zeros(index as int)));
    }
}

/// Appends `count` zero bytes to `file`.
pub fn append_zeros(file: &mut Vec<u8>, count: usize)
    requires
        old(file).len() + count <= usize::MAX,
    ensures
        final(file)@ == old(file)@ + zeros(count as int),
{
    let ghost before = file@;
    let length: usize = file.len() + count;
    file.resize(length, 0u8);
    assert(file@ =~= before + zeros(count as int)) by {
        assert(file@.subrange(0, before.len() as int) == before);
        assert forall|i: int| 0 <= i < before.len() implies file@[i] == before[i] by {
            assert(file@.subrange(0, before.len() as int)[i] == file@[i]);
        }
    }
}

} // verus!
