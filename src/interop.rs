use vstd::prelude::*;
use vstd::utf8::{decode_utf8, valid_utf8};
use crate::buffer::{unchanged_outside, BufferError, CBuffer};

verus! {

/// Status codes of the name service switch provider interface.
#[derive(Debug, Clone, Copy, PartialEq, Eq, Structural)]
pub enum NssStatus {
    TryAgain,
    Unavail,
    NotFound,
    Success,
    Return,
}

/// Outcome of a backend lookup.
#[derive(Debug, Clone, Copy, PartialEq, Eq)]
pub enum Response<R> {
    TryAgain,
    Unavail,
    NotFound,
    Success(R),
    Return,
}

/// The status code that a response stands for: a function of its variant alone.
pub open spec fn status_of<R>(r: Response<R>) -> NssStatus {
    match r {
        Response::TryAgain => NssStatus::TryAgain,
        Response::Unavail => NssStatus::Unavail,
        Response::NotFound => NssStatus::NotFound,
        Response::Success(_) => NssStatus::Success,
        Response::Return => NssStatus::Return,
    }
}

impl<R> Response<R> {
    pub fn to_status(&self) -> (s: NssStatus)
        ensures
            s == status_of(*self),
    {
        match self {
            Response::Success(..) => NssStatus::Success,
            Response::TryAgain => NssStatus::TryAgain,
            Response::Unavail => NssStatus::Unavail,
            Response::NotFound => NssStatus::NotFound,
            Response::Return => NssStatus::Return,
        }
    }
}

/// The enumeration cursor: a materialized list of records, or none when closed,
/// and the position of the next record to hand out.
pub struct Iterator<T> {
    items: Option<Vec<T>>,
    index: usize,
}

/// What `next` hands out when the cursor holds `items` and stands at `index`.
pub open spec fn next_response<T>(items: Option<Seq<T>>, index: nat) -> Response<T> {
    match items {
        None => Response::Unavail,
        Some(s) => if index < s.len() {
            Response::Success(s[index as int])
        } else {
            Response::NotFound
        },
    }
}

/// Where the cursor stands after `next` from `index`: one further, never past the end.
pub open spec fn next_index<T>(items: Option<Seq<T>>, index: nat) -> nat {
    match items {
        None => 0,
        Some(s) => if index < s.len() {
            index + 1
        } else {
            index
        },
    }
}

/// `r` is what `next` may hand out when `expected` is the response it stands for:
/// the same variant, carrying a clone of the record.
pub open spec fn response_cloned<T: Clone>(expected: Response<T>, r: Response<T>) -> bool {
    match expected {
        Response::Success(e) => match r {
            Response::Success(v) => cloned(e, v),
            _ => false,
        },
        _ => r == expected,
    }
}

impl<T: Clone> Iterator<T> {
    /// The records held, if the cursor is open.
    pub closed spec fn items(&self) -> Option<Seq<T>> {
        match self.items {
            Some(v) => Some(v@),
            None => None,
        }
    }

    /// Position of the next record.
    pub closed spec fn index(&self) -> nat {
        self.index as nat
    }

    pub open spec fn wf(&self) -> bool {
        match self.items() {
            None => self.index() == 0,
            Some(s) => self.index() <= s.len(),
        }
    }

    /// A closed cursor.
    pub fn new() -> (it: Self)
        ensures
            it.wf(),
            it.items() == None::<Seq<T>>,
            it.index() == 0,
    {
        Iterator { items: None, index: 0 }
    }

    /// Opens the cursor on `items`, at the first record. Always succeeds.
    pub fn open(&mut self, items: Vec<T>) -> (s: NssStatus)
        ensures
            final(self).wf(),
            final(self).items() == Some(items@),
            final(self).index() == 0,
            s == NssStatus::Success,
    {
        self.items = Some(items);
        self.index = 0;
        NssStatus::Success
    }

    /// Hands out the record at the cursor and moves past it: `Unavail` when
    /// closed, `NotFound` once every record has been handed out.
    pub fn next(&mut self) -> (r: Response<T>)
        requires
            old(self).wf(),
        ensures
            final(self).wf(),
            final(self).items() == old(self).items(),
            final(self).index() == next_index(old(self).items(), old(self).index()),
            response_cloned(next_response(old(self).items(), old(self).index()), r),
    {
        match &self.items {
            Some(items) => {
                if self.index < items.len() {
                    let entity = items[self.index].clone();
                    self.index = self.index + 1;
                    Response::Success(entity)
                } else {
                    Response::NotFound
                }
            },
            None => Response::Unavail,
        }
    }

    /// Steps the cursor back by one record, not below the first.
    pub fn previous(&mut self)
        requires
            old(self).wf(),
        ensures
            final(self).wf(),
            final(self).items() == old(self).items(),
            old(self).index() > 0 ==> final(self).index() == old(self).index() - 1,
            old(self).index() == 0 ==> final(self).index() == 0,
    {
        if self.index > 0 {
            self.index = self.index - 1;
        }
    }

    /// Drops the records and closes the cursor. Always succeeds.
    pub fn close(&mut self) -> (s: NssStatus)
        ensures
            final(self).wf(),
            final(self).items() == None::<Seq<T>>,
            final(self).index() == 0,
            s == NssStatus::Success,
    {
        self.items = None;
        self.index = 0;
        NssStatus::Success
    }
}

/// The value that a call leaves in the caller's `errno`.
#[derive(Debug, Clone, Copy, PartialEq, Eq, Structural)]
pub enum Errno {
    /// Zero: no error.
    Clear,
    /// The result does not fit in the caller's buffer (`ERANGE`).
    Range,
    /// No such entry (`ENOENT`).
    NoEntry,
}

/// A record that can be packed into a caller's buffer as the C struct `C`.
pub trait ToC<C>: Sized {
    /// Every string of the record can be written as a C string.
    spec fn c_compatible(&self) -> bool;

    /// Bytes that the record's strings, lists and arrays take in the buffer.
    spec fn c_size(&self) -> nat;

    /// The C struct `c`, read against the region `bytes` at address `base`, holds this record.
    spec fn c_holds(&self, c: C, bytes: Seq<u8>, base: u64) -> bool;

    /// Packs the record at the write position. It fails if some string holds a
    /// NUL byte (nothing written) or if fewer than `c_size` bytes are left; on
    /// failure the write position stays where it was.
    fn to_c(&self, buffer: &mut CBuffer) -> (r: Result<C, BufferError>)
        requires
            old(buffer).wf(),
        ensures
            final(buffer).wf(),
            final(buffer).base() == old(buffer).base(),
            unchanged_outside(old(buffer).bytes(), final(buffer).bytes(), old(buffer).pos() as int, old(buffer).capacity() as int),
            !self.c_compatible() ==> r == Err::<C, BufferError>(BufferError::InteriorNul) && *final(buffer) == *old(buffer),
            self.c_compatible() && old(buffer).free() < self.c_size() ==> r == Err::<C, BufferError>(BufferError::Range)
                && final(buffer).pos() == old(buffer).pos(),
            self.c_compatible() && old(buffer).free() >= self.c_size() ==> r is Ok
                && final(buffer).pos() == old(buffer).pos() + self.c_size()
                && self.c_holds(r->Ok_0, final(buffer).bytes(), final(buffer).base()),
    ;
}

/// Status and `errno` of packing `e` into a buffer with `free` bytes left.
pub open spec fn pack_outcome<C, R: ToC<C>>(e: R, free: int) -> (NssStatus, Errno) {
    if !e.c_compatible() {
        (NssStatus::Unavail, Errno::NoEntry)
    } else if free < e.c_size() {
        (NssStatus::TryAgain, Errno::Range)
    } else {
        (NssStatus::Success, Errno::Clear)
    }
}

/// Status and `errno` that a response gives when handed to the caller with
/// `free` bytes left in its buffer.
pub open spec fn c_outcome<C, R: ToC<C>>(resp: Response<R>, free: int) -> (NssStatus, Errno) {
    match resp {
        Response::Success(e) => pack_outcome::<C, R>(e, free),
        _ => (status_of(resp), Errno::NoEntry),
    }
}

/// What handing `resp` to the caller did: `r` carries the status, the `errno`
/// and, on success, the packed struct; `before` and `after` are the buffer.
pub open spec fn handed_over<C, R: ToC<C>>(resp: Response<R>, before: CBuffer, after: CBuffer, r: (NssStatus, Errno, Option<C>)) -> bool {
    &&& (r.0, r.1) == c_outcome::<C, R>(resp, before.free())
    &&& after.base() == before.base()
    &&& (r.2 is Some <==> r.0 == NssStatus::Success)
    &&& match resp {
        Response::Success(e) => r.2 is Some ==> e.c_holds(r.2->Some_0, after.bytes(), after.base()),
        _ => after == before,
    }
}

/// Packs `e` into the cleared buffer and reports the outcome.
fn pack<C, R: ToC<C>>(e: &R, buffer: &mut CBuffer) -> (r: (NssStatus, Errno, Option<C>))
    requires
        old(buffer).wf(),
    ensures
        final(buffer).wf(),
        handed_over(Response::Success(*e), *old(buffer), *final(buffer), r),
{
    buffer.clear();
    match e.to_c(buffer) {
        Ok(c) => (NssStatus::Success, Errno::Clear, Some(c)),
        Err(BufferError::Range) => (NssStatus::TryAgain, Errno::Range, None),
        Err(BufferError::InteriorNul) => (NssStatus::Unavail, Errno::NoEntry, None),
    }
}

impl<R> Response<R> {
    /// Hands the response to the caller: a record is packed into the buffer
    /// (zero-filled first); when it does not fit the status becomes `TryAgain`
    /// with `errno` `ERANGE`, and any other failure `Unavail`. A response without a
    /// record leaves the buffer alone and sets `errno` to `ENOENT`.
    pub fn to_c<C>(&self, buffer: &mut CBuffer) -> (r: (NssStatus, Errno, Option<C>))
        where R: ToC<C>,
        requires
            old(buffer).wf(),
        ensures
            final(buffer).wf(),
            handed_over(*self, *old(buffer), *final(buffer), r),
    {
        match self {
            Response::Success(e) => pack(e, buffer),
            _ => (self.to_status(), Errno::NoEntry, None),
        }
    }
}

/// The status that opening the enumeration gives, from the backend's answer to
/// "list all": the cursor opens on the records, or stays as it was.
pub fn open_entries<T: Clone>(iter: &mut Iterator<T>, response: Response<Vec<T>>) -> (s: NssStatus)
    requires
        old(iter).wf(),
    ensures
        final(iter).wf(),
        s == status_of(response),
        match response {
            Response::Success(v) => final(iter).items() == Some(v@) && final(iter).index() == 0,
            _ => *final(iter) == *old(iter),
        },
{
    match response {
        Response::Success(entries) => iter.open(entries),
        other => other.to_status(),
    }
}

/// One step of the enumeration: hands the record at the cursor to the caller
/// and moves past it, unless it did not fit the buffer, in which case the
/// cursor stays so that a retry with a larger buffer gets the same record.
pub fn next_entry<C, T: Clone + ToC<C>>(iter: &mut Iterator<T>, buffer: &mut CBuffer) -> (r: (NssStatus, Errno, Option<C>))
    requires
        old(iter).wf(),
        old(buffer).wf(),
    ensures
        final(iter).wf(),
        final(buffer).wf(),
        final(iter).items() == old(iter).items(),
        handed_over(next_response(old(iter).items(), old(iter).index()), *old(buffer), *final(buffer), r),
        r.0 == NssStatus::TryAgain ==> final(iter).index() == old(iter).index(),
        r.0 != NssStatus::TryAgain ==> final(iter).index() == next_index(old(iter).items(), old(iter).index()),
{
    let r = match &iter.items {
        None => (NssStatus::Unavail, Errno::NoEntry, None),
        Some(items) => {
            if iter.index < items.len() {
                pack(&items[iter.index], buffer)
            } else {
                (NssStatus::NotFound, Errno::NoEntry, None)
            }
        },
    };
    if r.0 != NssStatus::TryAgain {
        if let Some(items) = &iter.items {
            if iter.index < items.len() {
                iter.index = iter.index + 1;
            }
        }
    }
    r
}

/// Relies on `std::str::from_utf8`: it accepts exactly the byte sequences that
/// are valid UTF-8, and the string it gives holds the characters they encode.
#[verifier::external_body]
fn utf8_str(b: &[u8]) -> (r: Option<&str>)
    ensures
        r is Some <==> valid_utf8(b@),
        r is Some ==> r->Some_0@ == decode_utf8(b@),
{
    std::str::from_utf8(b).ok()
}

/// The key of a lookup by name, from the bytes of the caller's C string; `None`
/// when they are not valid UTF-8.
pub fn decode_key(name: &[u8]) -> (r: Option<String>)
    ensures
        r is Some <==> valid_utf8(name@),
        r is Some ==> r->Some_0@ == decode_utf8(name@),
{
    match utf8_str(name) {
        Some(s) => Some(String::from_str(s)),
        None => None,
    }
}

/// Where the cursor stands after `k` calls of `next` from `index`.
pub open spec fn index_after<T>(items: Option<Seq<T>>, index: nat, k: nat) -> nat
    decreases k,
{
    if k == 0 {
        index
    } else {
        next_index(items, index_after(items, index, (k - 1) as nat))
    }
}

/// Enumeration order: once the cursor is opened on `s`, the call of `next` that
/// comes `k`-th (counting from zero, in the order the calls are serialized)
/// hands out the `k`-th record while there is one and not-found afterwards, so
/// every record is handed out exactly once; a closed cursor answers unavailable.
pub proof fn lemma_enumeration_order<T>(s: Seq<T>, k: nat)
    ensures
        index_after(Some(s), 0, k) == if k <= s.len() { k } else { s.len() },
        next_response(Some(s), index_after(Some(s), 0, k)) == if k < s.len() {
            Response::Success(s[k as int])
        } else {
            Response::<T>::NotFound
        },
        next_response(None::<Seq<T>>, 0) == Response::<T>::Unavail,
    decreases k,
{
    if k > 0 {
        lemma_enumeration_order(s, (k - 1) as nat);
    }
}

/// The records that the first `k` calls of `next` hand out, in the order the
/// calls are serialized, once the cursor is opened on `s`.
pub open spec fn handed_out<T>(s: Seq<T>, k: nat) -> Seq<T>
    decreases k,
{
    if k == 0 {
        seq![]
    } else {
        let before = handed_out(s, (k - 1) as nat);
        match next_response(Some(s), index_after(Some(s), 0, (k - 1) as nat)) {
            Response::Success(e) => before.push(e),
            _ => before,
        }
    }
}

/// Each record exactly once: however many callers take turns at a cursor
/// opened on `s`, the first `k` calls together receive the first `k` records,
/// and once there are at least as many calls as records they have received
/// every record exactly once, in order; the calls beyond answer not-found.
pub proof fn lemma_each_record_once<T>(s: Seq<T>, k: nat)
    ensures
        handed_out(s, k) == s.take(if k <= s.len() { k as int } else { s.len() as int }),
        k >= s.len() ==> handed_out(s, k) == s && handed_out(s, k).to_multiset() == s.to_multiset(),
    decreases k,
{
    if k > 0 {
        lemma_each_record_once(s, (k - 1) as nat);
        lemma_enumeration_order(s, (k - 1) as nat);
        if k - 1 < s.len() {
            assert(s.take(k as int) =~= s.take(k - 1).push(s[k - 1]));
        }
    } else {
        assert(s.take(0) =~= seq![]);
    }
    if k >= s.len() {
        assert(s.take(s.len() as int) =~= s);
    }
}

} // verus!
