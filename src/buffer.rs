use vstd::prelude::*;
use vstd::bytes::{spec_u64_to_le_bytes, spec_u64_from_le_bytes, u64_to_le_bytes, lemma_auto_spec_u64_to_from_le_bytes};
use vstd::utf8::encode_utf8;

verus! {

/// Size in bytes of a pointer slot in the output region.
pub const PTR_SIZE: usize = 8;

/// Why a write into a `CBuffer` was refused.
#[derive(Debug, Clone, Copy, PartialEq, Eq, Structural)]
pub enum BufferError {
    /// Fewer bytes are left than the write needs.
    Range,
    /// The string holds a NUL byte and cannot be written as a C string.
    InteriorNul,
}

/// The bytes of a string as a C string holds them, without the terminator.
pub open spec fn c_bytes(s: Seq<char>) -> Seq<u8> {
    encode_utf8(s)
}

/// `s` can be written as a C string: none of its bytes is NUL.
pub open spec fn nul_free(s: Seq<char>) -> bool {
    forall|i: int| 0 <= i < c_bytes(s).len() ==> c_bytes(s)[i] != 0
}

/// Reading a C string at offset `at` of `bytes` gives `s`.
pub open spec fn holds_cstr(bytes: Seq<u8>, at: int, s: Seq<u8>) -> bool {
    &&& 0 <= at
    &&& at + s.len() < bytes.len()
    &&& bytes.subrange(at, at + s.len()) == s
    &&& bytes[at + s.len()] == 0
}

/// The pointer slot at offset `at` of `bytes` holds the address `v`.
pub open spec fn holds_ptr(bytes: Seq<u8>, at: int, v: u64) -> bool {
    &&& 0 <= at
    &&& at + PTR_SIZE <= bytes.len()
    &&& bytes.subrange(at, at + PTR_SIZE) == spec_u64_to_le_bytes(v)
}

/// The address that the pointer slot at offset `at` of `bytes` holds.
pub open spec fn read_ptr(bytes: Seq<u8>, at: int) -> u64 {
    spec_u64_from_le_bytes(bytes.subrange(at, at + PTR_SIZE))
}

/// `after` agrees with `before` outside the offsets `lo..hi`.
pub open spec fn unchanged_outside(before: Seq<u8>, after: Seq<u8>, lo: int, hi: int) -> bool {
    &&& after.len() == before.len()
    &&& forall|i: int| 0 <= i < before.len() && !(lo <= i < hi) ==> after[i] == before[i]
}

/// What `write_str` does: `before` and `after` are the buffer around the call, `r` its result.
pub open spec fn str_written(before: CBuffer, after: CBuffer, s: Seq<char>, r: Result<u64, BufferError>) -> bool {
    let b = c_bytes(s);
    if !nul_free(s) {
        r == Err::<u64, BufferError>(BufferError::InteriorNul) && after == before
    } else if before.free() < b.len() + 1 {
        r == Err::<u64, BufferError>(BufferError::Range) && after == before
    } else {
        &&& r == Ok::<u64, BufferError>((before.base() + before.pos()) as u64)
        &&& after.base() == before.base()
        &&& after.pos() == before.pos() + b.len() + 1
        &&& holds_cstr(after.bytes(), before.pos() as int, b)
        &&& unchanged_outside(before.bytes(), after.bytes(), before.pos() as int, after.pos() as int)
    }
}

/// A C string that a write outside it leaves in place is still there.
pub proof fn lemma_cstr_kept(before: Seq<u8>, after: Seq<u8>, lo: int, hi: int, at: int, s: Seq<u8>)
    requires
        holds_cstr(before, at, s),
        unchanged_outside(before, after, lo, hi),
        at + s.len() < lo || hi <= at,
    ensures
        holds_cstr(after, at, s),
{
    assert(after.subrange(at, at + s.len()) =~= before.subrange(at, at + s.len()));
}

/// A pointer slot that a write outside it leaves in place is still there.
pub proof fn lemma_ptr_kept(before: Seq<u8>, after: Seq<u8>, lo: int, hi: int, at: int, v: u64)
    requires
        holds_ptr(before, at, v),
        unchanged_outside(before, after, lo, hi),
        at + PTR_SIZE <= lo || hi <= at,
    ensures
        holds_ptr(after, at, v),
{
    assert(after.subrange(at, at + PTR_SIZE) =~= before.subrange(at, at + PTR_SIZE));
}

/// The views of a list of strings.
pub open spec fn views(ss: Seq<String>) -> Seq<Seq<char>> {
    ss.map_values(|s: String| s@)
}

/// Every string of `ss` can be written as a C string.
pub open spec fn all_nul_free(ss: Seq<Seq<char>>) -> bool {
    forall|i: int| 0 <= i < ss.len() ==> nul_free(#[trigger] ss[i])
}

/// Bytes that the strings of `ss` take as C strings, terminators included.
pub open spec fn strs_size(ss: Seq<Seq<char>>) -> nat
    decreases ss.len(),
{
    if ss.len() == 0 {
        0
    } else {
        strs_size(ss.drop_last()) + c_bytes(ss.last()).len() + 1
    }
}

/// Bytes of the null-terminated pointer array for `n` strings.
pub open spec fn ptr_array_size(n: nat) -> nat {
    (PTR_SIZE * (n + 1)) as nat
}

/// Bytes that `write_strs` takes for `ss`: the pointer array, then the strings.
pub open spec fn strs_needed(ss: Seq<Seq<char>>) -> nat {
    ptr_array_size(ss.len()) + strs_size(ss)
}

/// Offset of the `i`-th string when the strings of `ss` are laid out one after
/// another from offset `first`.
pub open spec fn str_offset(ss: Seq<Seq<char>>, first: int, i: int) -> int {
    first + strs_size(ss.take(i))
}

/// At offset `at` of `bytes` (a region at address `base`) stands a pointer array
/// whose `i`-th slot points to the `i`-th string of `ss`, the strings following
/// the array in order, and whose last slot is the null pointer.
pub open spec fn holds_strs(bytes: Seq<u8>, base: u64, at: int, ss: Seq<Seq<char>>) -> bool {
    let first = at + ptr_array_size(ss.len());
    &&& forall|i: int| 0 <= i < ss.len() ==> holds_ptr(bytes, #[trigger] (at + PTR_SIZE * i), (base + str_offset(ss, first, i)) as u64)
    &&& forall|i: int| 0 <= i < ss.len() ==> holds_cstr(bytes, #[trigger] str_offset(ss, first, i), c_bytes(ss[i]))
    &&& holds_ptr(bytes, at + PTR_SIZE * ss.len(), 0)
}

/// What `write_strs` does: `before` and `after` are the buffer around the call, `r` its result.
pub open spec fn strs_written(before: CBuffer, after: CBuffer, ss: Seq<Seq<char>>, r: Result<u64, BufferError>) -> bool {
    if !all_nul_free(ss) {
        r == Err::<u64, BufferError>(BufferError::InteriorNul) && after == before
    } else if before.free() < strs_needed(ss) {
        &&& r == Err::<u64, BufferError>(BufferError::Range)
        &&& after.base() == before.base()
        &&& after.pos() == before.pos()
        &&& unchanged_outside(before.bytes(), after.bytes(), before.pos() as int, before.capacity() as int)
    } else {
        &&& r == Ok::<u64, BufferError>((before.base() + before.pos()) as u64)
        &&& after.base() == before.base()
        &&& after.pos() == before.pos() + strs_needed(ss)
        &&& holds_strs(after.bytes(), before.base(), before.pos() as int, ss)
        &&& unchanged_outside(before.bytes(), after.bytes(), before.pos() as int, after.pos() as int)
    }
}

/// The strings of a prefix of `ss` take no more than all of them, and one more
/// string adds its own size.
pub proof fn lemma_strs_size_prefix(ss: Seq<Seq<char>>, i: int)
    requires
        0 <= i <= ss.len(),
    ensures
        strs_size(ss.take(i)) <= strs_size(ss),
        i < ss.len() ==> strs_size(ss.take(i + 1)) == strs_size(ss.take(i)) + c_bytes(ss[i]).len() + 1,
    decreases ss.len(),
{
    if i < ss.len() {
        assert(ss.take(i + 1).drop_last() =~= ss.take(i));
        assert(ss.take(i + 1).last() == ss[i]);
    }
    if i == ss.len() {
        assert(ss.take(i) =~= ss);
    } else {
        lemma_strs_size_prefix(ss.drop_last(), i);
        assert(ss.drop_last().take(i) =~= ss.take(i));
    }
}

/// Whether `s` can be written as a C string.
pub fn is_nul_free(s: &str) -> (r: bool)
    ensures
        r == nul_free(s@),
{
    let b = s.as_bytes();
    let n = b.len();
    let mut i: usize = 0;
    while i < n
        invariant
            i <= n,
            n == b@.len(),
            b@ == c_bytes(s@),
            forall|k: int| 0 <= k < i ==> b@[k] != 0,
        decreases n - i,
    {
        if b[i] == 0 {
            return false;
        }
        i = i + 1;
    }
    true
}

/// The views of a list of string slices.
pub open spec fn str_views(ss: Seq<&str>) -> Seq<Seq<char>> {
    ss.map_values(|s: &str| s@)
}

/// What `write_all` does: `before` and `after` are the buffer around the call, `r` its result.
pub open spec fn all_written(before: CBuffer, after: CBuffer, ss: Seq<Seq<char>>, r: Result<Vec<u64>, BufferError>) -> bool {
    if !all_nul_free(ss) {
        r == Err::<Vec<u64>, BufferError>(BufferError::InteriorNul) && after == before
    } else if before.free() < strs_size(ss) {
        &&& r == Err::<Vec<u64>, BufferError>(BufferError::Range)
        &&& after.base() == before.base()
        &&& after.pos() == before.pos()
        &&& unchanged_outside(before.bytes(), after.bytes(), before.pos() as int, before.capacity() as int)
    } else {
        &&& r is Ok
        &&& r->Ok_0@.len() == ss.len()
        &&& after.base() == before.base()
        &&& after.pos() == before.pos() + strs_size(ss)
        &&& forall|i: int| 0 <= i < ss.len() ==> r->Ok_0@[i] == (before.base() + #[trigger] str_offset(ss, before.pos() as int, i)) as u64
        &&& forall|i: int| 0 <= i < ss.len() ==> holds_cstr(after.bytes(), #[trigger] str_offset(ss, before.pos() as int, i), c_bytes(ss[i]))
        &&& unchanged_outside(before.bytes(), after.bytes(), before.pos() as int, after.pos() as int)
    }
}

/// Whether every string of `strings` can be written as a C string.
pub fn all_are_nul_free(strings: &[String]) -> (r: bool)
    ensures
        r == all_nul_free(views(strings@)),
{
    let ghost ss = views(strings@);
    let n = strings.len();
    let mut i: usize = 0;
    while i < n
        invariant
            i <= n,
            n == strings@.len(),
            ss == views(strings@),
            forall|k: int| 0 <= k < i ==> nul_free(#[trigger] ss[k]),
        decreases n - i,
    {
        if !is_nul_free(strings[i].as_str()) {
            assert(!nul_free(ss[i as int]));
            return false;
        }
        i = i + 1;
    }
    true
}

/// Offset of the `i`-th of the blocks of `width` bytes laid out from `first`.
pub open spec fn block_offset(first: int, width: nat, i: int) -> int {
    first + width * i
}

/// At offset `at` of `bytes` (a region at address `base`) stands a pointer array
/// whose `i`-th slot points to a copy of the `i`-th block of `blocks`, each
/// `width` bytes long, the blocks following the array in order, and whose last
/// slot is the null pointer.
pub open spec fn holds_blocks(bytes: Seq<u8>, base: u64, at: int, blocks: Seq<Seq<u8>>, width: nat) -> bool {
    let first = at + ptr_array_size(blocks.len());
    &&& forall|i: int| 0 <= i < blocks.len() ==> holds_ptr(bytes, #[trigger] (at + PTR_SIZE * i), (base + block_offset(first, width, i)) as u64)
    &&& forall|i: int| 0 <= i < blocks.len() ==> bytes.subrange(#[trigger] block_offset(first, width, i), block_offset(first, width, i) + width) == blocks[i]
    &&& holds_ptr(bytes, at + PTR_SIZE * blocks.len(), 0)
}

/// Bytes that `write_blocks` takes for `n` blocks of `width` bytes.
pub open spec fn blocks_needed(n: nat, width: nat) -> nat {
    ptr_array_size(n) + width * n
}

/// The views of a list of byte arrays.
pub open spec fn array_views<const N: usize>(items: Seq<[u8; N]>) -> Seq<Seq<u8>> {
    items.map_values(|a: [u8; N]| a@)
}

proof fn lemma_block_order(w: nat, j: int, i: int)
    requires
        0 <= j < i,
    ensures
        w * j + w <= w * i,
        w * (j + 1) == w * j + w,
{
    assert(w * j + w <= w * i) by (nonlinear_arith)
        requires
            0 <= j < i,
    ;
    assert(w * (j + 1) == w * j + w) by (nonlinear_arith);
}

/// A pointer array of strings that a write outside it leaves in place is still there.
pub proof fn lemma_strs_kept(before: Seq<u8>, after: Seq<u8>, lo: int, hi: int, base: u64, at: int, ss: Seq<Seq<char>>)
    requires
        holds_strs(before, base, at, ss),
        unchanged_outside(before, after, lo, hi),
        at + strs_needed(ss) <= lo,
    ensures
        holds_strs(after, base, at, ss),
{
    let first = at + ptr_array_size(ss.len());
    assert forall|i: int| 0 <= i < ss.len() implies holds_ptr(after, #[trigger] (at + PTR_SIZE * i), (base + str_offset(ss, first, i)) as u64) by {
        lemma_ptr_kept(before, after, lo, hi, at + PTR_SIZE * i, (base + str_offset(ss, first, i)) as u64);
    }
    assert forall|i: int| 0 <= i < ss.len() implies holds_cstr(after, #[trigger] str_offset(ss, first, i), c_bytes(ss[i])) by {
        lemma_strs_size_prefix(ss, i);
        lemma_strs_size_prefix(ss, i + 1);
        lemma_cstr_kept(before, after, lo, hi, str_offset(ss, first, i), c_bytes(ss[i]));
    }
    lemma_ptr_kept(before, after, lo, hi, at + PTR_SIZE * ss.len(), 0);
}

/// Round trip of `write_strs`: reading back the pointer array it wrote gives,
/// slot by slot, the address of a C string equal to each string of the list in
/// turn, then the null pointer; the array and the strings take exactly
/// `ptr_array_size(len) + strs_size(list)` bytes.
pub proof fn lemma_write_strs_round_trip(before: CBuffer, after: CBuffer, list: Seq<Seq<char>>, r: Result<u64, BufferError>)
    requires
        before.wf(),
        strs_written(before, after, list, r),
        r is Ok,
    ensures
        r->Ok_0 == before.base() + before.pos(),
        after.pos() - before.pos() == ptr_array_size(list.len()) + strs_size(list),
        forall|i: int| 0 <= i < list.len() ==> holds_cstr(
            after.bytes(),
            #[trigger] read_ptr(after.bytes(), before.pos() + PTR_SIZE * i) - after.base(),
            c_bytes(list[i]),
        ),
        read_ptr(after.bytes(), before.pos() + PTR_SIZE * list.len()) == 0,
{
    lemma_auto_spec_u64_to_from_le_bytes();
    let at = before.pos() as int;
    let first = at + ptr_array_size(list.len());
    assert forall|i: int| 0 <= i < list.len() implies holds_cstr(
        after.bytes(),
        #[trigger] read_ptr(after.bytes(), at + PTR_SIZE * i) - after.base(),
        c_bytes(list[i]),
    ) by {
        let v = (before.base() + str_offset(list, first, i)) as u64;
        assert(holds_ptr(after.bytes(), at + PTR_SIZE * i, v));
        assert(holds_cstr(after.bytes(), str_offset(list, first, i), c_bytes(list[i])));
        assert(read_ptr(after.bytes(), at + PTR_SIZE * i) == v);
    }
    assert(holds_ptr(after.bytes(), at + PTR_SIZE * list.len(), 0));
}

/// A bump allocator over a fixed region owned by the caller. The region lies at
/// address `base`; addresses handed out are `base` plus an offset into it.
pub struct CBuffer {
    base: u64,
    data: Vec<u8>,
    pos: usize,
}

impl CBuffer {
    /// Address of the first byte of the region.
    pub closed spec fn base(&self) -> u64 {
        self.base
    }

    /// Contents of the region.
    pub closed spec fn bytes(&self) -> Seq<u8> {
        self.data@
    }

    /// Offset of the next write.
    pub closed spec fn pos(&self) -> nat {
        self.pos as nat
    }

    pub open spec fn capacity(&self) -> nat {
        self.bytes().len()
    }

    /// Bytes left for writes.
    pub open spec fn free(&self) -> int {
        self.capacity() - self.pos()
    }

    pub open spec fn wf(&self) -> bool {
        &&& self.pos() <= self.capacity()
        &&& self.capacity() <= usize::MAX
        &&& self.base() + self.capacity() <= u64::MAX
    }

    /// A buffer over the `len` bytes at address `base`, all zero, with nothing written.
    pub fn new(base: u64, len: usize) -> (b: CBuffer)
        requires
            base + len <= u64::MAX,
        ensures
            b.wf(),
            b.base() == base,
            b.pos() == 0,
            b.bytes() == Seq::new(len as nat, |i: int| 0u8),
    {
        let mut data: Vec<u8> = Vec::new();
        let mut i: usize = 0;
        while i < len
            invariant
                i <= len,
                data@ == Seq::new(i as nat, |k: int| 0u8),
            decreases len - i,
        {
            data.push(0u8);
            i = i + 1;
        }
        CBuffer { base, data, pos: 0 }
    }

    /// The region's contents, in order.
    pub fn as_bytes(&self) -> (r: &[u8])
        ensures
            r@ == self.bytes(),
    {
        self.data.as_slice()
    }

    /// Offset of the next write.
    pub fn position(&self) -> (r: usize)
        ensures
            r == self.pos(),
    {
        self.pos
    }

    /// Fills the region with zero bytes; the write position stays.
    pub fn clear(&mut self)
        requires
            old(self).wf(),
        ensures
            final(self).wf(),
            final(self).base() == old(self).base(),
            final(self).pos() == old(self).pos(),
            final(self).bytes() == Seq::new(old(self).capacity(), |i: int| 0u8),
    {
        let n = self.data.len();
        let mut i: usize = 0;
        while i < n
            invariant
                i <= n,
                n == self.data@.len(),
                self.base == old(self).base,
                self.pos == old(self).pos,
                old(self).data@.len() == n,
                forall|k: int| 0 <= k < i ==> self.data@[k] == 0u8,
            decreases n - i,
        {
            self.data.set(i, 0u8);
            i = i + 1;
        }
        assert(self.data@ =~= Seq::new(n as nat, |k: int| 0u8));
    }

    /// Copies `s` and a terminating NUL byte to the write position and returns
    /// the address of the copy. On failure nothing changes.
    pub fn write_str(&mut self, s: &str) -> (r: Result<u64, BufferError>)
        requires
            old(self).wf(),
        ensures
            final(self).wf(),
            str_written(*old(self), *final(self), s@, r),
    {
        if !is_nul_free(s) {
            return Err(BufferError::InteriorNul);
        }
        let b = s.as_bytes();
        let n = b.len();
        if self.data.len() - self.pos <= n {
            return Err(BufferError::Range);
        }
        let start = self.pos;
        let cap = self.data.len();
        let ghost before = self.data@;
        let mut j: usize = 0;
        while j < n
            invariant
                j <= n,
                n == b@.len(),
                start + n < self.data@.len(),
                start == self.pos,
                self.base == old(self).base,
                self.base + self.data@.len() <= u64::MAX,
                self.data@.len() == before.len(),
                cap == before.len(),
                forall|k: int| 0 <= k < j ==> self.data@[start + k] == b@[k],
                forall|k: int| 0 <= k < before.len() && !(start <= k < start + j) ==> self.data@[k] == before[k],
            decreases n - j,
        {
            self.data.set(start + j, b[j]);
            j = j + 1;
        }
        self.data.set(start + n, 0u8);
        self.pos = start + n + 1;
        assert(self.data@.subrange(start as int, start + n) =~= b@);
        Ok(self.base + start as u64)
    }

    /// Writes a null-terminated array of pointers to copies of `strings`: the
    /// array first, then the strings in order. Returns the array's address.
    /// On failure the write position stays where it was.
    pub fn write_strs(&mut self, strings: &[String]) -> (r: Result<u64, BufferError>)
        requires
            old(self).wf(),
        ensures
            final(self).wf(),
            strs_written(*old(self), *final(self), views(strings@), r),
    {
        let ghost ss = views(strings@);
        let n = strings.len();
        let mut i: usize = 0;
        while i < n
            invariant
                i <= n,
                n == strings@.len(),
                ss == views(strings@),
                forall|k: int| 0 <= k < i ==> nul_free(#[trigger] ss[k]),
                *self == *old(self),
                self.wf(),
            decreases n - i,
        {
            if !is_nul_free(strings[i].as_str()) {
                assert(!nul_free(ss[i as int]));
                return Err(BufferError::InteriorNul);
            }
            i = i + 1;
        }
        assert(all_nul_free(ss));
        let start = self.pos;
        let slot_len = match n.checked_add(1) {
            Some(m) => match m.checked_mul(PTR_SIZE) {
                Some(l) => l,
                None => return Err(BufferError::Range),
            },
            None => return Err(BufferError::Range),
        };
        assert(slot_len == ptr_array_size(n as nat));
        match self.reserve(slot_len) {
            Ok(_) => {},
            Err(e) => return Err(e),
        }
        let first = start + slot_len;
        let mut i: usize = 0;
        while i < n
            invariant
                i <= n,
                n == strings@.len(),
                ss == views(strings@),
                all_nul_free(ss),
                start == old(self).pos(),
                first == start + ptr_array_size(n as nat),
                self.wf(),
                self.base() == old(self).base(),
                self.pos() == first + strs_size(ss.take(i as int)),
                unchanged_outside(old(self).bytes(), self.bytes(), start as int, self.pos() as int),
                forall|j: int| 0 <= j < i ==> holds_ptr(self.bytes(), #[trigger] (start + PTR_SIZE * j), (self.base() + str_offset(ss, first as int, j)) as u64),
                forall|j: int| 0 <= j < i ==> holds_cstr(self.bytes(), #[trigger] str_offset(ss, first as int, j), c_bytes(ss[j])),
            decreases n - i,
        {
            let ghost prev = self.bytes();
            proof {
                lemma_strs_size_prefix(ss, i as int);
                lemma_strs_size_prefix(ss, n as int);
            }
            assert(ss[i as int] == strings@[i as int]@);
            let ghost pre = *self;
            match self.write_str(strings[i].as_str()) {
                Ok(addr) => {
                    let ghost mid = self.bytes();
                    assert forall|j: int| 0 <= j < i implies holds_ptr(mid, #[trigger] (start + PTR_SIZE * j), (self.base() + str_offset(ss, first as int, j)) as u64) by {
                        lemma_ptr_kept(prev, mid, str_offset(ss, first as int, i as int), self.pos() as int, start + PTR_SIZE * j, (self.base() + str_offset(ss, first as int, j)) as u64);
                    }
                    assert forall|j: int| 0 <= j < i implies holds_cstr(mid, #[trigger] str_offset(ss, first as int, j), c_bytes(ss[j])) by {
                        lemma_strs_size_prefix(ss.take(i as int), j + 1);
                        lemma_strs_size_prefix(ss, j);
                        assert(ss.take(i as int).take(j + 1) =~= ss.take(j + 1));
                        lemma_cstr_kept(prev, mid, str_offset(ss, first as int, i as int), self.pos() as int, str_offset(ss, first as int, j), c_bytes(ss[j]));
                    }
                    self.put_ptr(start + PTR_SIZE * i, addr);
                    let ghost fin = self.bytes();
                    assert forall|j: int| 0 <= j <= i implies holds_ptr(fin, #[trigger] (start + PTR_SIZE * j), (self.base() + str_offset(ss, first as int, j)) as u64) by {
                        if j < i {
                            lemma_ptr_kept(mid, fin, start + PTR_SIZE * i, start + PTR_SIZE * i + PTR_SIZE, start + PTR_SIZE * j, (self.base() + str_offset(ss, first as int, j)) as u64);
                        }
                    }
                    assert forall|j: int| 0 <= j <= i implies holds_cstr(fin, #[trigger] str_offset(ss, first as int, j), c_bytes(ss[j])) by {
                        lemma_cstr_kept(mid, fin, start + PTR_SIZE * i, start + PTR_SIZE * i + PTR_SIZE, str_offset(ss, first as int, j), c_bytes(ss[j]));
                    }
                },
                Err(e) => {
                    assert(nul_free(ss[i as int]));
                    assert(e == BufferError::Range);
                    assert(pre.free() < c_bytes(ss[i as int]).len() + 1);
                    assert(pre.capacity() == old(self).capacity());
                    assert(pre.pos() == start + ptr_array_size(n as nat) + strs_size(ss.take(i as int)));
                    proof {
                        lemma_strs_size_prefix(ss, i + 1);
                    }
                    assert(old(self).free() < strs_needed(ss));
                    self.rewind_to(start);
                    assert(unchanged_outside(old(self).bytes(), self.bytes(), start as int, old(self).capacity() as int));
                    return Err(e);
                },
            }
            i = i + 1;
        }
        proof {
            lemma_strs_size_prefix(ss, n as int);
        }
        let ghost mid = self.bytes();
        assert(ss.take(n as int) =~= ss);
        self.put_ptr(start + PTR_SIZE * n, 0);
        let ghost fin = self.bytes();
        assert forall|j: int| 0 <= j < n implies holds_ptr(fin, #[trigger] (start + PTR_SIZE * j), (self.base() + str_offset(ss, first as int, j)) as u64) by {
            lemma_ptr_kept(mid, fin, start + PTR_SIZE * n, start + PTR_SIZE * n + PTR_SIZE, start + PTR_SIZE * j, (self.base() + str_offset(ss, first as int, j)) as u64);
        }
        assert forall|j: int| 0 <= j < n implies holds_cstr(fin, #[trigger] str_offset(ss, first as int, j), c_bytes(ss[j])) by {
            lemma_cstr_kept(mid, fin, start + PTR_SIZE * n, start + PTR_SIZE * n + PTR_SIZE, str_offset(ss, first as int, j), c_bytes(ss[j]));
        }
        assert(holds_strs(fin, self.base(), start as int, ss));
        Ok(self.base + start as u64)
    }

    /// Writes the strings one after another, each as a C string, and returns
    /// their addresses. On failure the write position stays where it was.
    pub fn write_all(&mut self, strings: &[&str]) -> (r: Result<Vec<u64>, BufferError>)
        requires
            old(self).wf(),
        ensures
            final(self).wf(),
            all_written(*old(self), *final(self), str_views(strings@), r),
    {
        let ghost ss = str_views(strings@);
        let n = strings.len();
        let mut i: usize = 0;
        while i < n
            invariant
                i <= n,
                n == strings@.len(),
                ss == str_views(strings@),
                forall|k: int| 0 <= k < i ==> nul_free(#[trigger] ss[k]),
                *self == *old(self),
                self.wf(),
            decreases n - i,
        {
            if !is_nul_free(strings[i]) {
                assert(!nul_free(ss[i as int]));
                return Err(BufferError::InteriorNul);
            }
            i = i + 1;
        }
        assert(all_nul_free(ss));
        let start = self.pos;
        let mut addrs: Vec<u64> = Vec::new();
        let mut i: usize = 0;
        while i < n
            invariant
                i <= n,
                n == strings@.len(),
                ss == str_views(strings@),
                all_nul_free(ss),
                start == old(self).pos(),
                self.wf(),
                self.base() == old(self).base(),
                self.pos() == start + strs_size(ss.take(i as int)),
                addrs@.len() == i,
                unchanged_outside(old(self).bytes(), self.bytes(), start as int, self.pos() as int),
                forall|j: int| 0 <= j < i ==> addrs@[j] == (self.base() + #[trigger] str_offset(ss, start as int, j)) as u64,
                forall|j: int| 0 <= j < i ==> holds_cstr(self.bytes(), #[trigger] str_offset(ss, start as int, j), c_bytes(ss[j])),
            decreases n - i,
        {
            let ghost prev = self.bytes();
            proof {
                lemma_strs_size_prefix(ss, i as int);
                lemma_strs_size_prefix(ss, i + 1);
            }
            assert(ss[i as int] == strings@[i as int]@);
            let ghost pre = *self;
            match self.write_str(strings[i]) {
                Ok(addr) => {
                    let ghost mid = self.bytes();
                    assert forall|j: int| 0 <= j < i implies holds_cstr(mid, #[trigger] str_offset(ss, start as int, j), c_bytes(ss[j])) by {
                        lemma_strs_size_prefix(ss.take(i as int), j + 1);
                        lemma_strs_size_prefix(ss, j);
                        assert(ss.take(i as int).take(j + 1) =~= ss.take(j + 1));
                        lemma_cstr_kept(prev, mid, str_offset(ss, start as int, i as int), self.pos() as int, str_offset(ss, start as int, j), c_bytes(ss[j]));
                    }
                    addrs.push(addr);
                },
                Err(e) => {
                    assert(nul_free(ss[i as int]));
                    assert(e == BufferError::Range);
                    assert(pre.free() < c_bytes(ss[i as int]).len() + 1);
                    assert(old(self).free() < strs_size(ss));
                    self.rewind_to(start);
                    return Err(e);
                },
            }
            i = i + 1;
        }
        assert(ss.take(n as int) =~= ss);
        Ok(addrs)
    }

    /// Writes a null-terminated array of pointers to copies of `items`, each
    /// `N` bytes: the array first, then the items in order. Returns the array's
    /// address. On failure the write position stays where it was.
    pub fn write_blocks<const N: usize>(&mut self, items: &[[u8; N]]) -> (r: Result<u64, BufferError>)
        requires
            old(self).wf(),
        ensures
            final(self).wf(),
            final(self).base() == old(self).base(),
            old(self).free() < blocks_needed(items@.len(), N as nat) ==> r == Err::<u64, BufferError>(BufferError::Range)
                && final(self).pos() == old(self).pos()
                && unchanged_outside(old(self).bytes(), final(self).bytes(), old(self).pos() as int, old(self).capacity() as int),
            old(self).free() >= blocks_needed(items@.len(), N as nat) ==> r == Ok::<u64, BufferError>((old(self).base() + old(self).pos()) as u64)
                && final(self).pos() == old(self).pos() + blocks_needed(items@.len(), N as nat)
                && holds_blocks(final(self).bytes(), old(self).base(), old(self).pos() as int, array_views(items@), N as nat)
                && unchanged_outside(old(self).bytes(), final(self).bytes(), old(self).pos() as int, final(self).pos() as int),
    {
        let ghost bs = array_views(items@);
        let ghost w = N as nat;
        let n = items.len();
        let start = self.pos;
        let slot_len = match n.checked_add(1) {
            Some(m) => match m.checked_mul(PTR_SIZE) {
                Some(l) => l,
                None => return Err(BufferError::Range),
            },
            None => return Err(BufferError::Range),
        };
        assert(slot_len == ptr_array_size(n as nat));
        match self.reserve(slot_len) {
            Ok(_) => {},
            Err(e) => {
                assert(w * n >= 0) by (nonlinear_arith);
                return Err(e);
            },
        }
        let first = start + slot_len;
        let mut i: usize = 0;
        while i < n
            invariant
                i <= n,
                n == items@.len(),
                bs == array_views(items@),
                w == N,
                start == old(self).pos(),
                first == start + ptr_array_size(n as nat),
                self.wf(),
                self.base() == old(self).base(),
                self.pos() == first + w * i,
                unchanged_outside(old(self).bytes(), self.bytes(), start as int, self.pos() as int),
                forall|j: int| 0 <= j < i ==> holds_ptr(self.bytes(), #[trigger] (start + PTR_SIZE * j), (self.base() + block_offset(first as int, w, j)) as u64),
                forall|j: int| 0 <= j < i ==> self.bytes().subrange(#[trigger] block_offset(first as int, w, j), block_offset(first as int, w, j) + w) == bs[j],
            decreases n - i,
        {
            let ghost prev = self.bytes();
            proof {
                lemma_block_order(w, i as int, n as int);
            }
            let addr = match self.reserve(N) {
                Ok(a) => a,
                Err(e) => {
                    assert(old(self).free() < blocks_needed(n as nat, w));
                    self.rewind_to(start);
                    return Err(e);
                },
            };
            let at = self.pos - N;
            self.put_bytes(at, &items[i]);
            let ghost mid = self.bytes();
            assert(bs[i as int] == items@[i as int]@);
            assert forall|j: int| 0 <= j < i implies holds_ptr(mid, #[trigger] (start + PTR_SIZE * j), (self.base() + block_offset(first as int, w, j)) as u64) by {
                lemma_ptr_kept(prev, mid, at as int, at + N, start + PTR_SIZE * j, (self.base() + block_offset(first as int, w, j)) as u64);
            }
            assert forall|j: int| 0 <= j < i implies mid.subrange(#[trigger] block_offset(first as int, w, j), block_offset(first as int, w, j) + w) == bs[j] by {
                lemma_block_order(w, j, i as int);
                assert(mid.subrange(block_offset(first as int, w, j), block_offset(first as int, w, j) + w) =~= prev.subrange(block_offset(first as int, w, j), block_offset(first as int, w, j) + w));
            }
            self.put_ptr(start + PTR_SIZE * i, addr);
            let ghost fin = self.bytes();
            assert forall|j: int| 0 <= j <= i implies holds_ptr(fin, #[trigger] (start + PTR_SIZE * j), (self.base() + block_offset(first as int, w, j)) as u64) by {
                if j < i {
                    lemma_ptr_kept(mid, fin, start + PTR_SIZE * i, start + PTR_SIZE * i + PTR_SIZE, start + PTR_SIZE * j, (self.base() + block_offset(first as int, w, j)) as u64);
                }
            }
            assert forall|j: int| 0 <= j <= i implies fin.subrange(#[trigger] block_offset(first as int, w, j), block_offset(first as int, w, j) + w) == bs[j] by {
                if j < i {
                    lemma_block_order(w, j, i as int);
                }
                assert(fin.subrange(block_offset(first as int, w, j), block_offset(first as int, w, j) + w) =~= mid.subrange(block_offset(first as int, w, j), block_offset(first as int, w, j) + w));
            }
            i = i + 1;
        }
        let ghost mid = self.bytes();
        self.put_ptr(start + PTR_SIZE * n, 0);
        let ghost fin = self.bytes();
        assert forall|j: int| 0 <= j < n implies holds_ptr(fin, #[trigger] (start + PTR_SIZE * j), (self.base() + block_offset(first as int, w, j)) as u64) by {
            lemma_ptr_kept(mid, fin, start + PTR_SIZE * n, start + PTR_SIZE * n + PTR_SIZE, start + PTR_SIZE * j, (self.base() + block_offset(first as int, w, j)) as u64);
        }
        assert forall|j: int| 0 <= j < n implies fin.subrange(#[trigger] block_offset(first as int, w, j), block_offset(first as int, w, j) + w) == bs[j] by {
            assert(w * j >= 0) by (nonlinear_arith)
                requires
                    j >= 0,
            ;
            lemma_block_order(w, j, n as int);
            assert(fin.subrange(block_offset(first as int, w, j), block_offset(first as int, w, j) + w) =~= mid.subrange(block_offset(first as int, w, j), block_offset(first as int, w, j) + w));
        }
        Ok(self.base + start as u64)
    }

    /// Sets aside `len` bytes at the write position and returns their address.
    /// On failure nothing changes.
    pub fn reserve(&mut self, len: usize) -> (r: Result<u64, BufferError>)
        requires
            old(self).wf(),
        ensures
            final(self).wf(),
            final(self).base() == old(self).base(),
            final(self).bytes() == old(self).bytes(),
            old(self).free() < len ==> r == Err::<u64, BufferError>(BufferError::Range) && final(self).pos() == old(self).pos(),
            old(self).free() >= len ==> r == Ok::<u64, BufferError>((old(self).base() + old(self).pos()) as u64)
                && final(self).pos() == old(self).pos() + len,
    {
        if self.data.len() - self.pos < len {
            return Err(BufferError::Range);
        }
        let start = self.pos;
        self.pos = start + len;
        Ok(self.base + start as u64)
    }

    /// Stores the address `v` in the pointer slot at offset `at`, below the write position.
    pub(crate) fn put_ptr(&mut self, at: usize, v: u64)
        requires
            old(self).wf(),
            at + PTR_SIZE <= old(self).pos(),
        ensures
            final(self).wf(),
            final(self).base() == old(self).base(),
            final(self).pos() == old(self).pos(),
            holds_ptr(final(self).bytes(), at as int, v),
            unchanged_outside(old(self).bytes(), final(self).bytes(), at as int, at + PTR_SIZE),
    {
        let b = u64_to_le_bytes(v);
        let cap = self.data.len();
        let ghost before = self.data@;
        let mut j: usize = 0;
        while j < PTR_SIZE
            invariant
                j <= PTR_SIZE,
                b@.len() == PTR_SIZE,
                at + PTR_SIZE <= self.data@.len(),
                self.pos == old(self).pos,
                self.base == old(self).base,
                self.pos <= self.data@.len(),
                self.data@.len() == before.len(),
                cap == before.len(),
                forall|k: int| 0 <= k < j ==> self.data@[at + k] == b@[k],
                forall|k: int| 0 <= k < before.len() && !(at <= k < at + j) ==> self.data@[k] == before[k],
            decreases PTR_SIZE - j,
        {
            self.data.set(at + j, b[j]);
            j = j + 1;
        }
        assert(self.data@.subrange(at as int, at + PTR_SIZE) =~= b@);
    }

    /// Copies `src` to offset `at`, below the write position.
    pub(crate) fn put_bytes(&mut self, at: usize, src: &[u8])
        requires
            old(self).wf(),
            at + src@.len() <= old(self).pos(),
        ensures
            final(self).wf(),
            final(self).base() == old(self).base(),
            final(self).pos() == old(self).pos(),
            final(self).bytes().subrange(at as int, at + src@.len()) == src@,
            unchanged_outside(old(self).bytes(), final(self).bytes(), at as int, at + src@.len()),
    {
        let n = src.len();
        let cap = self.data.len();
        let ghost before = self.data@;
        let mut j: usize = 0;
        while j < n
            invariant
                j <= n,
                n == src@.len(),
                at + n <= self.data@.len(),
                self.pos == old(self).pos,
                self.base == old(self).base,
                self.pos <= self.data@.len(),
                self.data@.len() == before.len(),
                cap == before.len(),
                forall|k: int| 0 <= k < j ==> self.data@[at + k] == src@[k],
                forall|k: int| 0 <= k < before.len() && !(at <= k < at + j) ==> self.data@[k] == before[k],
            decreases n - j,
        {
            self.data.set(at + j, src[j]);
            j = j + 1;
        }
        assert(self.data@.subrange(at as int, at + n) =~= src@);
    }

    /// Moves the write position back to `p`; the bytes stay as they are.
    pub(crate) fn rewind_to(&mut self, p: usize)
        requires
            old(self).wf(),
            p <= old(self).pos(),
        ensures
            final(self).wf(),
            final(self).base() == old(self).base(),
            final(self).bytes() == old(self).bytes(),
            final(self).pos() == p,
    {
        self.pos = p;
    }
}

} // verus!
