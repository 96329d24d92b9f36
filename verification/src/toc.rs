//! Table of contents: maps firmware IDs to the TFTP filename and metadata
//! of each image, as read from the boot configuration file.

use vstd::prelude::*;

verus! {

broadcast use {vstd::seq::group_seq_axioms, vstd::slice::group_slice_axioms, vstd::array::group_array_axioms};

/// Maximum number of firmware images in the TOC.
pub const MAX_TOC_ENTRIES: usize = 8;

/// Size of the filename field of an entry (the name is NUL-terminated
/// when shorter).
pub const MAX_FILENAME_LEN: usize = 64;

/// A single entry mapping a firmware ID to its TFTP filename and metadata.
#[derive(Debug, Clone, Copy)]
pub struct TocEntry {
    pub firmware_id: u8,
    pub filename: [u8; MAX_FILENAME_LEN],
    pub filename_len: usize,
    pub image_size: u32,
    pub image_checksum: u32,
}

impl TocEntry {
    /// An all-zero entry.
    pub fn empty() -> (r: Self)
        ensures
            r.firmware_id == 0,
            r.filename@ == Seq::new(64, |i: int| 0u8),
            r.filename_len == 0,
            r.image_size == 0,
            r.image_checksum == 0,
    {
        let r = TocEntry {
            firmware_id: 0,
            filename: [0u8; MAX_FILENAME_LEN],
            filename_len: 0,
            image_size: 0,
            image_checksum: 0,
        };
        assert(r.filename@ =~= Seq::new(64, |i: int| 0u8));
        r
    }
}

/// One image header of a TOC file, as decoded by the flash-image format.
#[derive(Debug, Clone, Copy)]
pub struct ImageRecord {
    pub identifier: u32,
    pub filename: [u8; MAX_FILENAME_LEN],
    pub size: u32,
    pub image_checksum: u32,
}

/// Length of a NUL-terminated name: the index of the first zero byte, or
/// the whole length when there is none.
pub open spec fn nul_len(s: Seq<u8>) -> int
    decreases s.len(),
{
    if s.len() == 0 {
        0
    } else if s[0] == 0 {
        0
    } else {
        1 + nul_len(s.drop_first())
    }
}

/// `nul_len` is a length, and it marks the first zero byte.
pub proof fn lemma_nul_len(s: Seq<u8>)
    ensures
        0 <= nul_len(s) <= s.len(),
        forall|i: int| 0 <= i < nul_len(s) ==> s[i] != 0,
        nul_len(s) < s.len() ==> s[nul_len(s)] == 0,
    decreases s.len(),
{
    if s.len() > 0 && s[0] != 0 {
        lemma_nul_len(s.drop_first());
        assert forall|i: int| 0 <= i < nul_len(s) implies s[i] != 0 by {
            if i > 0 {
                assert(s[i] == s.drop_first()[i - 1]);
            }
        }
    }
}

/// Position of the first zero byte of `name`, or its length when it has none.
pub fn nul_terminated_len(name: &[u8]) -> (n: usize)
    ensures
        n == nul_len(name@),
{
    let mut i: usize = 0;
    while i < name.len()
        invariant
            i <= name@.len(),
            forall|k: int| 0 <= k < i ==> name@[k] != 0,
        decreases name@.len() - i,
    {
        if name[i] == 0 {
            proof {
                lemma_nul_len_at(name@, i as int);
            }
            return i;
        }
        i = i + 1;
    }
    proof {
        lemma_nul_len_at(name@, i as int);
    }
    i
}

/// `nul_len` is the first index holding a zero (or the end).
proof fn lemma_nul_len_at(s: Seq<u8>, i: int)
    requires
        0 <= i <= s.len(),
        forall|k: int| 0 <= k < i ==> s[k] != 0,
        i == s.len() || s[i] == 0,
    ensures
        nul_len(s) == i,
    decreases i,
{
    if i > 0 {
        lemma_nul_len_at(s.drop_first(), i - 1);
    }
}

/// `e` is slot `prev` after a name of `name` (at most 63 bytes kept) and
/// the given metadata were written into it; the bytes after the
/// terminating zero keep their old values.
pub open spec fn entry_written(
    e: TocEntry,
    prev: TocEntry,
    firmware_id: u8,
    name: Seq<u8>,
    image_size: u32,
    image_checksum: u32,
) -> bool {
    let n = if name.len() < 63 { name.len() as int } else { 63 };
    &&& e.firmware_id == firmware_id
    &&& e.filename_len == n
    &&& e.filename@ == name.take(n) + seq![0u8] + prev.filename@.skip(n + 1)
    &&& e.image_size == image_size
    &&& e.image_checksum == image_checksum
}

/// `e` is slot `prev` after an image record was loaded into it: the name
/// runs up to the record's first zero byte (all 64 bytes when there is none).
pub open spec fn entry_loaded(e: TocEntry, prev: TocEntry, rec: ImageRecord) -> bool {
    let n = nul_len(rec.filename@);
    &&& e.firmware_id == rec.identifier as u8
    &&& e.filename_len == n
    &&& e.filename@ == (if n < 64 {
        rec.filename@.take(n) + seq![0u8] + prev.filename@.skip(n + 1)
    } else {
        rec.filename@
    })
    &&& e.image_size == rec.size
    &&& e.image_checksum == rec.image_checksum
}

/// The smaller of two integers.
pub open spec fn min_int(a: int, b: int) -> int {
    if a < b {
        a
    } else {
        b
    }
}

/// How many records, counted from the front and at most `cap`, are present
/// before the first missing one.
pub open spec fn leading_records(recs: Seq<Option<ImageRecord>>, cap: int) -> int
    decreases recs.len(),
{
    if cap <= 0 || recs.len() == 0 {
        0
    } else if recs[0] is None {
        0
    } else {
        1 + leading_records(recs.drop_first(), cap - 1)
    }
}

/// `leading_records` stops at the first missing record, at the end, or at `cap`.
proof fn lemma_leading_records_at(recs: Seq<Option<ImageRecord>>, cap: int, i: int)
    requires
        0 <= i <= recs.len(),
        i <= cap,
        forall|k: int| 0 <= k < i ==> recs[k] is Some,
        i == recs.len() || i == cap || recs[i] is None,
    ensures
        leading_records(recs, cap) == i,
    decreases i,
{
    if i > 0 {
        assert forall|k: int| 0 <= k < i - 1 implies recs.drop_first()[k] is Some by {
            assert(recs.drop_first()[k] == recs[k + 1]);
        }
        lemma_leading_records_at(recs.drop_first(), cap - 1, i - 1);
    }
}

/// The filename field holds the name's length, and a NUL follows the name
/// whenever the field has room for one.
pub open spec fn name_terminated(e: TocEntry) -> bool {
    &&& e.filename_len <= MAX_FILENAME_LEN
    &&& e.filename_len < MAX_FILENAME_LEN ==> e.filename@[e.filename_len as int] == 0
}

/// An entry added to a table is found again: after `add` succeeds with a
/// firmware ID, some used entry carries that ID.
pub proof fn lemma_added_entry_is_found(
    before: Toc,
    after: Toc,
    firmware_id: u8,
    filename: Seq<u8>,
    image_size: u32,
    image_checksum: u32,
)
    requires
        before.len() < MAX_TOC_ENTRIES,
        after.len() == before.len() + 1,
        entry_written(
            after.slots()[before.len() as int],
            before.slots()[before.len() as int],
            firmware_id,
            filename,
            image_size,
            image_checksum,
        ),
    ensures
        exists|i: int| 0 <= i < after.len() && after.slots()[i].firmware_id == firmware_id,
{
    assert(after.slots()[before.len() as int].firmware_id == firmware_id);
}

/// Fixed-capacity table of firmware image entries.
pub struct Toc {
    entries: [TocEntry; MAX_TOC_ENTRIES],
    count: usize,
}

/// The byte range of image header `i` of a TOC file whose image headers,
/// `size` bytes each, start at `base`, when it lies inside a file of
/// `len` bytes.
pub open spec fn header_range(base: int, size: int, len: int, i: int) -> Option<(usize, usize)> {
    let start = base + i * size;
    if start + size <= len {
        Some((start as usize, (start + size) as usize))
    } else {
        None
    }
}

/// Image headers are read back to back from the offset that the flash
/// header names: header `i` is read exactly when it ends within the file
/// (one that ends at the file's last byte included), its bytes run from
/// `base + i * size` for `size` bytes, and it starts where header `i - 1`
/// ends, which is then read too.
pub proof fn lemma_header_ranges_back_to_back(base: u32, size: usize, len: usize, i: int)
    requires
        0 <= i,
    ensures
        base + i * size + size <= len ==> (header_range(base as int, size as int, len as int, i) matches Some(
            (s, e),
        ) && s == base + i * size && e == s + size),
        base + i * size + size > len ==> header_range(base as int, size as int, len as int, i) is None,
        i > 0 && header_range(base as int, size as int, len as int, i) is Some ==> (header_range(
            base as int,
            size as int,
            len as int,
            i - 1,
        ) matches Some((s0, e0)) && e0 == header_range(base as int, size as int, len as int, i).unwrap().0),
{
    assert(base + (i - 1) * size + size == base + i * size) by (nonlinear_arith);
    assert(i * size >= 0) by (nonlinear_arith)
        requires
            i >= 0,
            size >= 0,
    ;
    if i > 0 {
        assert((i - 1) * size >= 0) by (nonlinear_arith)
            requires
                i >= 1,
                size >= 0,
        ;
    }
}

/// The byte ranges of the image headers that a table can take: one for
/// each of the first `image_count` headers, at most `MAX_TOC_ENTRIES`,
/// `None` for a header that does not lie inside the `data_len`-byte file.
pub fn image_header_ranges(image_count: u32, headers_offset: u32, header_size: usize, data_len: usize) -> (r: Vec<
    Option<(usize, usize)>,
>)
    ensures
        r@.len() == min_int(image_count as int, MAX_TOC_ENTRIES as int),
        forall|i: int|
            0 <= i < r@.len() ==> #[trigger] r@[i] == header_range(
                headers_offset as int,
                header_size as int,
                data_len as int,
                i,
            ),
{
    let n: usize = if (image_count as u64) < (MAX_TOC_ENTRIES as u64) {
        image_count as usize
    } else {
        MAX_TOC_ENTRIES
    };
    let mut r: Vec<Option<(usize, usize)>> = Vec::new();
    let mut i: usize = 0;
    while i < n
        invariant
            n == min_int(image_count as int, MAX_TOC_ENTRIES as int),
            i <= n,
            n <= MAX_TOC_ENTRIES,
            r@.len() == i,
            forall|k: int|
                0 <= k < i ==> #[trigger] r@[k] == header_range(
                    headers_offset as int,
                    header_size as int,
                    data_len as int,
                    k,
                ),
        decreases n - i,
    {
        let base = headers_offset as usize;
        let range = match i.checked_mul(header_size) {
            None => None,
            Some(span) => match base.checked_add(span) {
                None => None,
                Some(start) => match start.checked_add(header_size) {
                    Some(end) if end <= data_len => Some((start, end)),
                    _ => None,
                },
            },
        };
        assert(range == header_range(headers_offset as int, header_size as int, data_len as int, i as int));
        r.push(range);
        i = i + 1;
    }
    r
}

/// The table `t` after the records of a TOC file filled `prev`: the
/// leading records, up to the capacity, are loaded into the first slots in
/// order, and the other slots are kept.
pub open spec fn records_loaded(t: Toc, prev: Toc, recs: Seq<Option<ImageRecord>>) -> bool {
    let k = leading_records(recs, MAX_TOC_ENTRIES as int);
    &&& t.len() == k
    &&& t.slots().len() == prev.slots().len()
    &&& forall|i: int| 0 <= i < k ==> entry_loaded(#[trigger] t.slots()[i], prev.slots()[i], recs[i]->Some_0)
    &&& forall|i: int| k <= i < t.slots().len() ==> #[trigger] t.slots()[i] == prev.slots()[i]
}

impl Toc {
    #[verifier::type_invariant]
    closed spec fn inv(self) -> bool {
        &&& self.entries@.len() == MAX_TOC_ENTRIES
        &&& self.count <= MAX_TOC_ENTRIES
        &&& forall|i: int| 0 <= i < MAX_TOC_ENTRIES ==> name_terminated(#[trigger] self.entries@[i])
    }

    /// All slots of the table, used or not.
    pub closed spec fn slots(&self) -> Seq<TocEntry> {
        self.entries@
    }

    /// Number of used slots.
    pub closed spec fn len(&self) -> nat {
        self.count as nat
    }

    /// The entries in use, in insertion order.
    pub open spec fn view_entries(&self) -> Seq<TocEntry> {
        self.slots().take(self.len() as int)
    }

    pub fn new() -> (r: Self)
        ensures
            r.len() == 0,
            r.slots() == Seq::new(8, |i: int| TocEntry::empty_spec()),
    {
        let e = TocEntry::empty();
        assert(e == TocEntry::empty_spec()) by {
            assert(e.filename =~= TocEntry::empty_spec().filename);
        }
        let entries = [e, e, e, e, e, e, e, e];
        assert(entries@ =~= Seq::new(8, |i: int| TocEntry::empty_spec()));
        Toc { entries, count: 0 }
    }

    /// Adds an entry; returns `false`, changing nothing, when the table is
    /// full or the filename is empty. Names longer than 63 bytes are cut.
    pub fn add(&mut self, firmware_id: u8, filename: &[u8], image_size: u32, image_checksum: u32) -> (r: bool)
        ensures
            r == (old(self).len() < MAX_TOC_ENTRIES && filename@.len() > 0),
            r ==> final(self).len() == old(self).len() + 1,
            r ==> final(self).slots().len() == old(self).slots().len(),
            r ==> forall|i: int| 0 <= i < final(self).slots().len() && i != old(self).len()
                ==> final(self).slots()[i] == old(self).slots()[i],
            r ==> entry_written(
                final(self).slots()[old(self).len() as int],
                old(self).slots()[old(self).len() as int],
                firmware_id,
                filename@,
                image_size,
                image_checksum,
            ),
            !r ==> final(self).len() == old(self).len() && final(self).slots() == old(self).slots(),
    {
        proof {
            use_type_invariant(&*self);
        }
        if self.count >= MAX_TOC_ENTRIES || filename.len() == 0 {
            return false;
        }
        let fname_len = if filename.len() < MAX_FILENAME_LEN - 1 {
            filename.len()
        } else {
            MAX_FILENAME_LEN - 1
        };
        let mut entry = self.entries[self.count];
        let ghost prev = entry;
        let mut i: usize = 0;
        while i < fname_len
            invariant
                fname_len <= 63,
                fname_len <= filename@.len(),
                i <= fname_len,
                entry.filename@.len() == 64,
                forall|k: int| 0 <= k < i ==> entry.filename@[k] == filename@[k],
                forall|k: int| i <= k < 64 ==> entry.filename@[k] == prev.filename@[k],
            decreases fname_len - i,
        {
            entry.filename[i] = filename[i];
            i = i + 1;
        }
        entry.filename[fname_len] = 0;
        entry.firmware_id = firmware_id;
        entry.filename_len = fname_len;
        entry.image_size = image_size;
        entry.image_checksum = image_checksum;
        assert(entry.filename@ =~= filename@.take(fname_len as int) + seq![0u8]
            + prev.filename@.skip(fname_len + 1));
        let idx = self.count;
        self.entries[idx] = entry;
        self.count = idx + 1;
        true
    }

    /// The first entry in use with the given firmware ID.
    pub fn find(&self, firmware_id: u8) -> (r: Option<&TocEntry>)
        ensures
            match r {
                Some(e) => exists|i: int|
                    0 <= i < self.len() && *e == self.slots()[i] && self.slots()[i].firmware_id
                        == firmware_id && forall|j: int|
                        0 <= j < i ==> self.slots()[j].firmware_id != firmware_id,
                None => forall|i: int|
                    0 <= i < self.len() ==> self.slots()[i].firmware_id != firmware_id,
            },
            r matches Some(e) ==> name_terminated(*e),
    {
        proof {
            use_type_invariant(self);
        }
        let mut i: usize = 0;
        while i < self.count
            invariant
                self.count <= self.entries@.len(),
                i <= self.count,
                forall|j: int| 0 <= j < i ==> self.entries@[j].firmware_id != firmware_id,
                forall|j: int| 0 <= j < MAX_TOC_ENTRIES ==> name_terminated(#[trigger] self.entries@[j]),
                self.entries@.len() == MAX_TOC_ENTRIES,
            decreases self.count - i,
        {
            if self.entries[i].firmware_id == firmware_id {
                assert(self.slots()[i as int].firmware_id == firmware_id);
                assert(name_terminated(self.entries@[i as int]));
                return Some(&self.entries[i]);
            }
            i = i + 1;
        }
        None
    }

    /// Clears all entries; the slots keep their contents.
    pub fn clear(&mut self)
        ensures
            final(self).len() == 0,
            final(self).slots() == old(self).slots(),
    {
        proof {
            use_type_invariant(&*self);
        }
        self.count = 0;
    }

    /// Number of used slots; the table has `MAX_TOC_ENTRIES` slots and
    /// never uses more.
    pub fn count(&self) -> (n: usize)
        ensures
            n == self.len(),
            n <= MAX_TOC_ENTRIES,
            self.slots().len() == MAX_TOC_ENTRIES,
    {
        proof {
            use_type_invariant(self);
        }
        self.count
    }

    /// Fills the table from the image headers of a TOC file, in order. A
    /// `None` record is a header that lies outside the file or fails its
    /// check: parsing stops there with `false`, keeping the entries loaded
    /// before it. Records beyond the table's capacity are ignored.
    pub fn parse_records(&mut self, records: &[Option<ImageRecord>]) -> (r: bool)
        ensures
            r == (leading_records(records@, MAX_TOC_ENTRIES as int) == min_int(
                records@.len() as int,
                MAX_TOC_ENTRIES as int,
            )),
            records_loaded(*final(self), *old(self), records@),
    {
        proof {
            use_type_invariant(&*self);
        }
        let ghost old_slots = self.entries@;
        self.count = 0;
        let mut i: usize = 0;
        while i < records.len() && i < MAX_TOC_ENTRIES
            invariant
                self.entries@.len() == MAX_TOC_ENTRIES,
                old_slots.len() == MAX_TOC_ENTRIES,
                old_slots == old(self).slots(),
                self.count == i,
                i <= MAX_TOC_ENTRIES,
                i <= records@.len(),
                forall|j: int| 0 <= j < i ==> records@[j] is Some,
                forall|j: int| 0 <= j < i ==> entry_loaded(self.entries@[j], old_slots[j], records@[j]->Some_0),
                forall|j: int| i <= j < MAX_TOC_ENTRIES ==> self.entries@[j] == old_slots[j],
                forall|j: int| 0 <= j < MAX_TOC_ENTRIES ==> name_terminated(#[trigger] self.entries@[j]),
            decreases records@.len() - i,
        {
            let rec = match records[i] {
                Some(rec) => rec,
                None => {
                    proof {
                        lemma_leading_records_at(records@, MAX_TOC_ENTRIES as int, i as int);
                    }
                    return false;
                },
            };
            let mut entry = self.entries[i];
            let ghost prev = entry;
            let fname_len = nul_terminated_len(&rec.filename);
            proof {
                lemma_nul_len(rec.filename@);
            }
            let mut k: usize = 0;
            while k < fname_len
                invariant
                    fname_len <= 64,
                    k <= fname_len,
                    entry.filename@.len() == 64,
                    forall|t: int| 0 <= t < k ==> entry.filename@[t] == rec.filename@[t],
                    forall|t: int| k <= t < 64 ==> entry.filename@[t] == prev.filename@[t],
                decreases fname_len - k,
            {
                entry.filename[k] = rec.filename[k];
                k = k + 1;
            }
            if fname_len < MAX_FILENAME_LEN {
                entry.filename[fname_len] = 0;
                assert(entry.filename@ =~= rec.filename@.take(fname_len as int) + seq![0u8]
                    + prev.filename@.skip(fname_len + 1));
            } else {
                assert(entry.filename@ =~= rec.filename@);
            }
            entry.firmware_id = #[verifier::truncate] (rec.identifier as u8);
            entry.filename_len = fname_len;
            entry.image_size = rec.size;
            entry.image_checksum = rec.image_checksum;
            self.entries[i] = entry;
            self.count = i + 1;
            i = i + 1;
        }
        proof {
            lemma_leading_records_at(records@, MAX_TOC_ENTRIES as int, i as int);
        }
        true
    }
}

impl TocEntry {
    /// The all-zero entry.
    pub open spec fn empty_spec() -> TocEntry {
        TocEntry {
            firmware_id: 0,
            filename: vstd::array::spec_array_fill_for_copy_type::<u8, 64>(0u8),
            filename_len: 0,
            image_size: 0,
            image_checksum: 0,
        }
    }
}

} // verus!
