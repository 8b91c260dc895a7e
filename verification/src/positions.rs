//! Where the records of an archive lie on the wire.

use crate::directory::DirectoryView;
use crate::layout::{central_offset_of, centrals_wire, locals_wire, offset_of};
use crate::table::Entries;
use vstd::prelude::*;

verus! {

/// Offsets depend on the entries before them alone.
pub proof fn lemma_offsets_of_front(es: Entries, n: int, i: int)
    requires
        0 <= i <= n <= es.len(),
    ensures
        offset_of(es.take(n), i) == offset_of(es, i),
        central_offset_of(es.take(n), i) == central_offset_of(es, i),
    decreases i,
{
    if i > 0 {
        lemma_offsets_of_front(es, n, i - 1);
        assert(es.take(n)[i - 1] == es[i - 1]);
    }
}

/// A local record takes on the wire the bytes that `local_size` gives, and
/// starts with the header.
pub proof fn lemma_local_len(e: DirectoryView)
    ensures
        e.local_wire().len() == e.local_size(),
        e.local_wire().subrange(0, (e.file.header_len() + e.data.len()) as int) == e.file.header_wire()
            + e.data,
        e.file.header_len() + e.data.len() <= e.local_size(),
{
    crate::zip_file::lemma_header_len(e.file);
    assert(e.local_wire().subrange(0, (e.file.header_len() + e.data.len()) as int)
        =~= e.file.header_wire() + e.data);
}

/// The local records take the bytes up to the offset behind the last, and
/// each lies at its offset.
pub proof fn lemma_locals(es: Entries, i: int)
    requires
        0 <= i < es.len(),
    ensures
        locals_wire(es).len() == offset_of(es, es.len() as int),
        offset_of(es, i) + es[i].1.local_size() == offset_of(es, i + 1),
        offset_of(es, i + 1) <= offset_of(es, es.len() as int),
        locals_wire(es).subrange(offset_of(es, i) as int, offset_of(es, i + 1) as int)
            == es[i].1.local_wire(),
    decreases es.len(),
{
    let n = es.len() as int;
    let front = es.drop_last();
    let last = es.last().1;
    lemma_local_len(last);
    lemma_locals_len(front);
    assert(front =~= es.take(n - 1));
    lemma_offsets_of_front(es, n - 1, n - 1);
    crate::layout::lemma_offsets_grow(es, i + 1, n);
    if i < n - 1 {
        lemma_locals(front, i);
        lemma_offsets_of_front(es, n - 1, i);
        lemma_offsets_of_front(es, n - 1, i + 1);
        assert(front[i] == es[i]);
        assert(locals_wire(es).subrange(offset_of(es, i) as int, offset_of(es, i + 1) as int)
            =~= locals_wire(front).subrange(
            offset_of(es, i) as int,
            offset_of(es, i + 1) as int,
        ));
    } else {
        assert(locals_wire(es).subrange(offset_of(es, i) as int, offset_of(es, i + 1) as int)
            =~= last.local_wire());
    }
}

/// The local records take the bytes up to the offset behind the last.
pub proof fn lemma_locals_len(es: Entries)
    ensures
        locals_wire(es).len() == offset_of(es, es.len() as int),
    decreases es.len(),
{
    if es.len() > 0 {
        let n = es.len() as int;
        lemma_locals_len(es.drop_last());
        lemma_local_len(es.last().1);
        assert(es.drop_last() =~= es.take(n - 1));
        lemma_offsets_of_front(es, n - 1, n - 1);
    }
}

/// The central directory takes the bytes up to the offset behind its last
/// entry.
pub proof fn lemma_centrals_len(es: Entries)
    ensures
        centrals_wire(es).len() == central_offset_of(es, es.len() as int),
    decreases es.len(),
{
    if es.len() > 0 {
        let n = es.len() as int;
        lemma_centrals_len(es.drop_last());
        crate::directory::lemma_wire_parts(es.last().1);
        assert(es.drop_last() =~= es.take(n - 1));
        lemma_offsets_of_front(es, n - 1, n - 1);
    }
}

/// Each entry of the central directory lies at its offset within it.
pub proof fn lemma_centrals(es: Entries, i: int)
    requires
        0 <= i < es.len(),
    ensures
        centrals_wire(es).len() == central_offset_of(es, es.len() as int),
        central_offset_of(es, i) + es[i].1.wire_len() == central_offset_of(es, i + 1),
        central_offset_of(es, i + 1) <= central_offset_of(es, es.len() as int),
        centrals_wire(es).subrange(
            central_offset_of(es, i) as int,
            central_offset_of(es, i + 1) as int,
        ) == es[i].1.wire(),
    decreases es.len(),
{
    let n = es.len() as int;
    let front = es.drop_last();
    let last = es.last().1;
    crate::directory::lemma_wire_parts(last);
    lemma_centrals_len(front);
    assert(front =~= es.take(n - 1));
    lemma_offsets_of_front(es, n - 1, n - 1);
    crate::layout::lemma_offsets_grow(es, i + 1, n);
    if i < n - 1 {
        lemma_centrals(front, i);
        lemma_offsets_of_front(es, n - 1, i);
        lemma_offsets_of_front(es, n - 1, i + 1);
        assert(front[i] == es[i]);
        assert(centrals_wire(es).subrange(
            central_offset_of(es, i) as int,
            central_offset_of(es, i + 1) as int,
        ) =~= centrals_wire(front).subrange(
            central_offset_of(es, i) as int,
            central_offset_of(es, i + 1) as int,
        ));
    } else {
        assert(centrals_wire(es).subrange(
            central_offset_of(es, i) as int,
            central_offset_of(es, i + 1) as int,
        ) =~= last.wire());
    }
}

} // verus!
