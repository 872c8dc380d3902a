//! Line-oriented circular byte buffer used by the transport.
//!
//! The buffer keeps a fixed amount of memory: when it is full, the oldest bytes
//! are overwritten. Bytes that have been read but are not yet followed by a
//! newline are kept aside and prefixed to the next line.

use ringbuf::traits::{Consumer, RingBuffer};
use ringbuf::HeapRb;
use std::io;
use vstd::prelude::*;

verus! {

/// A `ringbuf::HeapRb<u8>` in a private field: what it holds is known only
/// through `ring_contents` and `ring_capacity`, which its three wrappers speak of.
#[verifier::external_body]
pub struct ByteRing {
    rb: HeapRb<u8>,
}

/// `std::io::Error`, carried opaquely in the `io::Result` that `read_line` returns.
#[verifier::external_type_specification]
#[verifier::external_body]
pub struct ExIoError(io::Error);

/// The bytes held by a heap ring buffer, oldest first.
pub uninterp spec fn ring_contents(rb: ByteRing) -> Seq<u8>;

/// The capacity a heap ring buffer was created with.
pub uninterp spec fn ring_capacity(rb: ByteRing) -> nat;

/// `ringbuf::HeapRb::new`: an empty buffer of the given capacity.
/// The crate panics on a zero capacity, which `requires` rules out; it also
/// panics when the allocation fails, which nothing here can rule out.
#[verifier::external_body]
fn ring_new(capacity: usize) -> (rb: ByteRing)
    requires
        capacity > 0,
    ensures
        ring_contents(rb) == Seq::<u8>::empty(),
        ring_capacity(rb) == capacity,
{
    ByteRing { rb: HeapRb::new(capacity) }
}

/// `RingBuffer::push_slice_overwrite`: appends `data`; when the buffer would
/// exceed its capacity, the oldest bytes are dropped so that exactly the last
/// `capacity` bytes of the old contents followed by `data` remain.
#[verifier::external_body]
fn ring_push_slice_overwrite(rb: &mut ByteRing, data: &[u8])
    ensures
        ring_capacity(*final(rb)) == ring_capacity(*old(rb)),
        ring_contents(*final(rb)) == overwrite_append(
            ring_contents(*old(rb)),
            data@,
            ring_capacity(*old(rb)),
        ),
{
    rb.rb.push_slice_overwrite(data)
}

/// `Consumer::try_pop`: removes and returns the oldest byte, or `None` when empty.
#[verifier::external_body]
fn ring_try_pop(rb: &mut ByteRing) -> (r: Option<u8>)
    ensures
        ring_capacity(*final(rb)) == ring_capacity(*old(rb)),
        ring_contents(*old(rb)).len() == 0 ==> r is None && ring_contents(*final(rb)) == ring_contents(
            *old(rb),
        ),
        ring_contents(*old(rb)).len() > 0 ==> r == Some(ring_contents(*old(rb))[0])
            && ring_contents(*final(rb)) == ring_contents(*old(rb)).drop_first(),
{
    rb.rb.try_pop()
}

/// The last `cap` bytes of `old + data` (all of them when they fit).
pub open spec fn overwrite_append(old: Seq<u8>, data: Seq<u8>, cap: nat) -> Seq<u8> {
    let all = old + data;
    if all.len() <= cap {
        all
    } else {
        all.skip(all.len() - cap)
    }
}

/// The newline byte.
pub open spec fn newline() -> u8 {
    10u8
}

/// Index of the first newline in `s`, if any.
pub open spec fn first_newline(s: Seq<u8>) -> Option<nat>
    decreases s.len(),
{
    if s.len() == 0 {
        None
    } else if s[0] == newline() {
        Some(0)
    } else {
        match first_newline(s.drop_first()) {
            Some(k) => Some(k + 1),
            None => None,
        }
    }
}

/// Appending a non-newline byte keeps a newline-free sequence newline-free.
proof fn lemma_first_newline_push(s: Seq<u8>, b: u8)
    requires
        first_newline(s) is None,
        b != newline(),
    ensures
        first_newline(s.push(b)) is None,
    decreases s.len(),
{
    if s.len() == 0 {
        assert(s.push(b).drop_first() =~= Seq::<u8>::empty());
    } else {
        assert(s.push(b).drop_first() =~= s.drop_first().push(b));
        lemma_first_newline_push(s.drop_first(), b);
    }
}

/// Concatenating two newline-free sequences gives a newline-free sequence.
proof fn lemma_first_newline_concat(a: Seq<u8>, b: Seq<u8>)
    requires
        first_newline(a) is None,
        first_newline(b) is None,
    ensures
        first_newline(a + b) is None,
    decreases a.len(),
{
    if a.len() == 0 {
        assert(a + b =~= b);
    } else {
        assert((a + b).drop_first() =~= a.drop_first() + b);
        lemma_first_newline_concat(a.drop_first(), b);
    }
}

/// Circular buffer of bytes with line reading.
///
/// Writing never fails: when the buffer is full, the oldest data is
/// overwritten, which keeps memory use stable in long-running sessions.
pub struct CircularBuffer {
    rb: ByteRing,
    partial: Vec<u8>,
}

impl CircularBuffer {
    /// Bytes waiting in the ring buffer, oldest first.
    pub closed spec fn contents(&self) -> Seq<u8> {
        ring_contents(self.rb)
    }

    /// Bytes already read from the ring that are not yet followed by a newline.
    pub closed spec fn partial(&self) -> Seq<u8> {
        self.partial@
    }

    /// Capacity of the ring buffer.
    pub closed spec fn capacity(&self) -> nat {
        ring_capacity(self.rb)
    }

    /// The unread byte stream: the saved partial line followed by the ring's contents.
    pub open spec fn pending(&self) -> Seq<u8> {
        self.partial() + self.contents()
    }

    /// Well-formedness: a positive capacity that bounds the contents, and a
    /// saved partial line that holds no newline.
    pub open spec fn wf(&self) -> bool {
        &&& self.capacity() > 0
        &&& self.contents().len() <= self.capacity()
        &&& first_newline(self.partial()) is None
    }

    /// Creates a circular buffer with the given capacity.
    pub fn new(capacity: usize) -> (r: Self)
        requires
            capacity > 0,
        ensures
            r.wf(),
            r.capacity() == capacity,
            r.contents() == Seq::<u8>::empty(),
            r.partial() == Seq::<u8>::empty(),
    {
        CircularBuffer { rb: ring_new(capacity), partial: Vec::new() }
    }

    /// Writes data to the buffer, overwriting the oldest data when full.
    ///
    /// Returns the number of bytes written, which is all of `data`.
    pub fn write(&mut self, data: &[u8]) -> (r: usize)
        requires
            old(self).wf(),
        ensures
            final(self).wf(),
            r == data@.len(),
            final(self).capacity() == old(self).capacity(),
            final(self).partial() == old(self).partial(),
            final(self).contents() == overwrite_append(
                old(self).contents(),
                data@,
                old(self).capacity(),
            ),
            old(self).contents().len() + data@.len() <= old(self).capacity()
                ==> final(self).pending() == old(self).pending() + data@,
    {
        ring_push_slice_overwrite(&mut self.rb, data);
        assert(old(self).contents().len() + data@.len() <= old(self).capacity() ==> self.partial()
            + self.contents() =~= old(self).pending() + data@);
        data.len()
    }

    /// Reads up to the next newline.
    ///
    /// Returns `Ok(Some(line))` (without the newline) when a complete line is
    /// available, and `Ok(None)` otherwise; bytes read without a newline are
    /// kept and prefixed to the next line.
    pub fn read_line(&mut self) -> (r: io::Result<Option<Vec<u8>>>)
        requires
            old(self).wf(),
        ensures
            final(self).wf(),
            final(self).capacity() == old(self).capacity(),
            r is Ok,
            match first_newline(old(self).contents()) {
                Some(k) => {
                    &&& r matches Ok(Some(line)) && line@ == old(self).partial() + old(
                        self,
                    ).contents().take(k as int)
                    &&& final(self).partial() == Seq::<u8>::empty()
                    &&& final(self).contents() == old(self).contents().skip(k + 1int)
                },
                None => {
                    &&& r matches Ok(None)
                    &&& final(self).partial() == old(self).pending()
                    &&& final(self).contents() == Seq::<u8>::empty()
                },
            },
            (r matches Ok(Some(_))) == (lines_of(old(self).pending()).len() > 0),
            r matches Ok(Some(line)) ==> {
                &&& line@ == lines_of(old(self).pending())[0]
                &&& lines_of(final(self).pending()) == lines_of(old(self).pending()).drop_first()
                &&& remainder_of(final(self).pending()) == remainder_of(old(self).pending())
            },
            r matches Ok(None) ==> final(self).pending() == old(self).pending(),
            match read_step(old(self).pending()) {
                Some((line, rest)) => (r matches Ok(Some(l)) && l@ == line) && final(self).pending()
                    == rest,
                None => r matches Ok(None) && final(self).pending() == old(self).pending(),
            },
    {
        let mut line: Vec<u8> = Vec::new();
        std::mem::swap(&mut line, &mut self.partial);
        let ghost p0 = line@;
        let ghost c0 = ring_contents(self.rb);
        let ghost cap = ring_capacity(self.rb);
        let ghost mut i: int = 0;
        assert(c0.skip(0) =~= c0);
        assert(c0.take(0) =~= Seq::<u8>::empty());
        assert(p0 + c0.take(0) =~= p0);
        proof {
            lemma_read_line_lines(p0, c0);
        }
        loop
            invariant
                read_line_lines(p0, c0),
                0 <= i <= c0.len(),
                cap == ring_capacity(self.rb),
                cap == old(self).capacity(),
                c0 == old(self).contents(),
                p0 == old(self).partial(),
                cap > 0,
                c0.len() <= cap,
                first_newline(p0) is None,
                self.partial@ == Seq::<u8>::empty(),
                ring_contents(self.rb) == c0.skip(i),
                line@ == p0 + c0.take(i),
                first_newline(c0.take(i)) is None,
                first_newline(c0) == match first_newline(c0.skip(i)) {
                    Some(k) => Some(k + i as nat),
                    None => None,
                },
            decreases c0.len() - i,
        {
            let ghost rest = c0.skip(i);
            match ring_try_pop(&mut self.rb) {
                Some(byte) => {
                    assert(rest.len() > 0);
                    assert(byte == c0[i]);
                    if byte == 10 {
                        assert(first_newline(rest) == Some(0nat));
                        assert(ring_contents(self.rb) =~= c0.skip(i + 1));
                        assert(self.partial() + self.contents() == Seq::<u8>::empty() + c0.skip(
                            i + 1,
                        ));
                        return Ok(Some(line));
                    }
                    assert(rest.drop_first() =~= c0.skip(i + 1));
                    assert(c0.take(i + 1) =~= c0.take(i).push(byte));
                    proof {
                        lemma_first_newline_push(c0.take(i), byte);
                    }
                    line.push(byte);
                    proof {
                        i = i + 1;
                    }
                    assert(line@ =~= p0 + c0.take(i));
                },
                None => {
                    assert(rest.len() == 0);
                    assert(c0.take(i) =~= c0);
                    proof {
                        lemma_first_newline_concat(p0, c0);
                    }
                    self.partial = line;
                    return Ok(None);
                },
            }
        }
    }
}

/// What `read_line` does, seen on the lines of the unread stream `p + c`
/// (saved partial line `p`, ring contents `c`).
pub open spec fn read_line_lines(p: Seq<u8>, c: Seq<u8>) -> bool {
    match first_newline(c) {
        Some(k) => {
            &&& lines_of(p + c).len() > 0
            &&& lines_of(p + c)[0] == p + c.take(k as int)
            &&& lines_of(Seq::<u8>::empty() + c.skip(k + 1int)) == lines_of(p + c).drop_first()
            &&& remainder_of(Seq::<u8>::empty() + c.skip(k + 1int)) == remainder_of(p + c)
            &&& read_step(p + c) == Some(
                (p + c.take(k as int), Seq::<u8>::empty() + c.skip(k + 1int)),
            )
        },
        None => {
            &&& lines_of(p + c).len() == 0
            &&& (p + c) + Seq::<u8>::empty() == p + c
            &&& read_step(p + c) is None
        },
    }
}

/// With a newline-free saved line, `read_line` takes the first line of the
/// unread stream, or nothing when the stream holds no complete line.
proof fn lemma_read_line_lines(p: Seq<u8>, c: Seq<u8>)
    requires
        first_newline(p) is None,
    ensures
        read_line_lines(p, c),
{
    lemma_read_line_on_stream(p, c);
    lemma_lines_of_step(p + c);
    if let Some(k) = first_newline(c) {
        assert(Seq::<u8>::empty() + c.skip(k + 1int) =~= c.skip(k + 1int));
        assert((p + c).skip((p.len() + k + 1) as int) =~= c.skip(k + 1int));
    }
    assert((p + c) + Seq::<u8>::empty() =~= p + c);
}

/// Writing a line and its newline into a buffer that holds no complete line,
/// without overflowing it, makes the next `read_line` return everything that
/// was pending followed by that line, and leaves nothing pending: the contents
/// after `write` hold their first newline right after the line, and the bytes
/// before it are the old contents followed by the line.
pub proof fn lemma_write_then_read_line(contents: Seq<u8>, line: Seq<u8>, cap: nat)
    requires
        first_newline(contents) is None,
        first_newline(line) is None,
        contents.len() + line.len() + 1 <= cap,
    ensures
        ({
            let after = overwrite_append(contents, line.push(newline()), cap);
            &&& first_newline(after) == Some((contents.len() + line.len()) as nat)
            &&& after.take((contents.len() + line.len()) as int) == contents + line
            &&& after.skip((contents.len() + line.len()) as int + 1) == Seq::<u8>::empty()
        }),
{
    let after = overwrite_append(contents, line.push(newline()), cap);
    assert(after =~= (contents + line).push(newline()));
    lemma_first_newline_concat(contents, line);
    lemma_first_newline_at_end(contents + line);
    assert(after.take((contents.len() + line.len()) as int) =~= contents + line);
    assert(after.skip((contents.len() + line.len()) as int + 1) =~= Seq::<u8>::empty());
}

/// A newline appended to a newline-free sequence is its first newline.
proof fn lemma_first_newline_at_end(s: Seq<u8>)
    requires
        first_newline(s) is None,
    ensures
        first_newline(s.push(newline())) == Some(s.len()),
    decreases s.len(),
{
    if s.len() == 0 {
    } else {
        assert(s.push(newline()).drop_first() =~= s.drop_first().push(newline()));
        lemma_first_newline_at_end(s.drop_first());
    }
}

/// The first newline of a sequence lies inside it and no newline comes
/// before it; without one, the sequence holds no newline.
proof fn lemma_first_newline_in_bounds(s: Seq<u8>)
    ensures
        first_newline(s) matches Some(k) ==> k < s.len() && s[k as int] == newline() && forall|
            j: int,
        |
            0 <= j < k ==> s[j] != newline(),
        first_newline(s) is None ==> forall|j: int| 0 <= j < s.len() ==> s[j] != newline(),
    decreases s.len(),
{
    if s.len() > 0 && s[0] != newline() {
        lemma_first_newline_in_bounds(s.drop_first());
        assert forall|j: int| 0 < j < s.len() implies s[j] == s.drop_first()[j - 1] by {}
    }
}

/// Seen on the unread stream (the saved partial line followed by the ring's
/// contents), `read_line` returns the stream up to its first newline and
/// consumes it together with the newline; without a newline it consumes nothing
/// and returns no line. This holds because the saved partial line never holds a
/// newline, so the stream's first newline is the contents' first newline.
pub proof fn lemma_read_line_on_stream(partial: Seq<u8>, contents: Seq<u8>)
    requires
        first_newline(partial) is None,
    ensures
        match first_newline(contents) {
            Some(k) => {
                &&& first_newline(partial + contents) == Some((partial.len() + k) as nat)
                &&& (partial + contents).take((partial.len() + k) as int) == partial + contents.take(
                    k as int,
                )
                &&& (partial + contents).skip((partial.len() + k + 1) as int) == contents.skip(
                    k + 1int,
                )
            },
            None => first_newline(partial + contents) is None,
        },
{
    lemma_first_newline_shift(partial, contents);
    lemma_first_newline_in_bounds(contents);
    if let Some(k) = first_newline(contents) {
        assert((partial + contents).take((partial.len() + k) as int) =~= partial + contents.take(
            k as int,
        ));
        assert((partial + contents).skip((partial.len() + k + 1) as int) =~= contents.skip(
            k + 1int,
        ));
    }
}

/// A newline-free prefix shifts the first newline by its length.
proof fn lemma_first_newline_shift(partial: Seq<u8>, contents: Seq<u8>)
    requires
        first_newline(partial) is None,
    ensures
        first_newline(partial + contents) == match first_newline(contents) {
            Some(k) => Some((partial.len() + k) as nat),
            None => None::<nat>,
        },
    decreases partial.len(),
{
    if partial.len() == 0 {
        assert(partial + contents =~= contents);
    } else {
        lemma_first_newline_shift(partial.drop_first(), contents);
        assert((partial + contents).drop_first() =~= partial.drop_first() + contents);
    }
}

/// The number of newlines in `s`.
pub open spec fn count_newlines(s: Seq<u8>) -> nat
    decreases s.len(),
{
    if s.len() == 0 {
        0
    } else {
        (if s[0] == newline() {
            1nat
        } else {
            0nat
        }) + count_newlines(s.drop_first())
    }
}

/// The complete lines of `s`, in order, each without its newline.
pub open spec fn lines_of(s: Seq<u8>) -> Seq<Seq<u8>>
    decreases s.len(),
{
    match first_newline(s) {
        Some(k) => if k < s.len() {
            seq![s.take(k as int)] + lines_of(s.skip(k + 1int))
        } else {
            Seq::empty()
        },
        None => Seq::empty(),
    }
}

/// What follows the last newline of `s`: the start of a line not yet complete.
pub open spec fn remainder_of(s: Seq<u8>) -> Seq<u8>
    decreases s.len(),
{
    match first_newline(s) {
        Some(k) => if k < s.len() {
            remainder_of(s.skip(k + 1int))
        } else {
            s
        },
        None => s,
    }
}

/// The lines joined back, each followed by its newline.
pub open spec fn join_lines(ls: Seq<Seq<u8>>) -> Seq<u8>
    decreases ls.len(),
{
    if ls.len() == 0 {
        Seq::empty()
    } else {
        ls[0].push(newline()) + join_lines(ls.drop_first())
    }
}

/// One step of `lines_of`: the first line is the stream up to its first
/// newline, and the other lines and the remainder are those of what follows it.
proof fn lemma_lines_of_step(s: Seq<u8>)
    ensures
        first_newline(s) matches Some(k) ==> {
            &&& lines_of(s).len() > 0
            &&& lines_of(s)[0] == s.take(k as int)
            &&& lines_of(s).drop_first() == lines_of(s.skip(k + 1int))
            &&& remainder_of(s) == remainder_of(s.skip(k + 1int))
        },
        first_newline(s) is None ==> lines_of(s).len() == 0 && remainder_of(s) == s,
{
    lemma_first_newline_in_bounds(s);
    if let Some(k) = first_newline(s) {
        let rest = lines_of(s.skip(k + 1int));
        assert((seq![s.take(k as int)] + rest).drop_first() =~= rest);
    }
}

/// A sequence without newlines has none to count and no first newline.
proof fn lemma_no_newline(s: Seq<u8>)
    requires
        forall|j: int| 0 <= j < s.len() ==> s[j] != newline(),
    ensures
        count_newlines(s) == 0,
        first_newline(s) is None,
    decreases s.len(),
{
    if s.len() > 0 {
        assert forall|j: int| 0 <= j < s.drop_first().len() implies s.drop_first()[j]
            != newline() by {
            assert(s.drop_first()[j] == s[j + 1]);
        }
        lemma_no_newline(s.drop_first());
    }
}

/// Counting newlines adds up over concatenation.
proof fn lemma_count_newlines_concat(a: Seq<u8>, b: Seq<u8>)
    ensures
        count_newlines(a + b) == count_newlines(a) + count_newlines(b),
    decreases a.len(),
{
    if a.len() == 0 {
        assert(a + b =~= b);
    } else {
        assert((a + b).drop_first() =~= a.drop_first() + b);
        lemma_count_newlines_concat(a.drop_first(), b);
    }
}

/// Reading a stream line by line: it holds as many complete lines as newlines,
/// no line holds a newline, the remainder holds none either, and the lines,
/// each followed by its newline, then the remainder, give the stream back.
pub proof fn lemma_lines_of(s: Seq<u8>)
    ensures
        lines_of(s).len() == count_newlines(s),
        forall|i: int| 0 <= i < lines_of(s).len() ==> first_newline(#[trigger] lines_of(s)[i]) is None,
        first_newline(remainder_of(s)) is None,
        join_lines(lines_of(s)) + remainder_of(s) == s,
    decreases s.len(),
{
    lemma_first_newline_in_bounds(s);
    lemma_lines_of_step(s);
    match first_newline(s) {
        Some(k) => {
            let head = s.take(k as int);
            let rest = s.skip(k + 1int);
            lemma_lines_of(rest);
            lemma_no_newline(head);
            assert(s =~= head + seq![newline()] + rest);
            lemma_count_newlines_concat(head, seq![newline()]);
            lemma_count_newlines_concat(head + seq![newline()], rest);
            assert(count_newlines(seq![newline()]) == 1) by {
                assert(seq![newline()].drop_first() =~= Seq::<u8>::empty());
                assert(count_newlines(Seq::<u8>::empty()) == 0);
                assert(seq![newline()][0] == newline());
            }
            let ls = lines_of(s);
            assert(ls =~= seq![head] + lines_of(rest));
            assert(ls.drop_first() =~= lines_of(rest));
            assert(join_lines(ls) == head.push(newline()) + join_lines(lines_of(rest)));
            assert(join_lines(ls) + remainder_of(s) =~= head.push(newline()) + (join_lines(
                lines_of(rest),
            ) + remainder_of(rest)));
            assert forall|i: int| 0 <= i < ls.len() implies first_newline(#[trigger] ls[i]) is None by {
                if i > 0 {
                    assert(ls[i] == lines_of(rest)[i - 1]);
                }
            }
        },
        None => {
            lemma_no_newline(s);
            assert(join_lines(lines_of(s)) =~= Seq::<u8>::empty());
            assert(join_lines(lines_of(s)) + remainder_of(s) =~= s);
        },
    }
}

/// One `read_line` on the unread stream `s`: the line up to the first newline
/// and what follows that newline, or `None` when `s` holds no newline.
pub open spec fn read_step(s: Seq<u8>) -> Option<(Seq<u8>, Seq<u8>)> {
    match first_newline(s) {
        Some(k) => Some((s.take(k as int), s.skip(k + 1int))),
        None => None,
    }
}

/// The bytes of several writes, in order.
pub open spec fn concat_writes(ws: Seq<Seq<u8>>) -> Seq<u8>
    decreases ws.len(),
{
    if ws.len() == 0 {
        Seq::empty()
    } else {
        concat_writes(ws.drop_last()) + ws.last()
    }
}

/// The contents of a buffer of capacity `cap` holding `c` after the writes `ws`.
pub open spec fn contents_after_writes(c: Seq<u8>, ws: Seq<Seq<u8>>, cap: nat) -> Seq<u8>
    decreases ws.len(),
{
    if ws.len() == 0 {
        c
    } else {
        overwrite_append(contents_after_writes(c, ws.drop_last(), cap), ws.last(), cap)
    }
}

/// Writes into an empty buffer that hold no more than its capacity in all
/// keep every byte, in order.
proof fn lemma_contents_after_writes(ws: Seq<Seq<u8>>, cap: nat)
    requires
        concat_writes(ws).len() <= cap,
    ensures
        contents_after_writes(Seq::empty(), ws, cap) == concat_writes(ws),
    decreases ws.len(),
{
    if ws.len() > 0 {
        lemma_contents_after_writes(ws.drop_last(), cap);
    }
}

/// The bytes of the first writes are no more than those of all the writes.
proof fn lemma_concat_writes_prefix(ws: Seq<Seq<u8>>, i: int)
    requires
        0 <= i <= ws.len(),
    ensures
        concat_writes(ws.take(i)).len() <= concat_writes(ws).len(),
    decreases ws.len(),
{
    if i < ws.len() {
        assert(ws.drop_last().take(i) =~= ws.take(i));
        lemma_concat_writes_prefix(ws.drop_last(), i);
    } else {
        assert(ws.take(i) =~= ws);
    }
}

/// `read_step` peels the first line off `lines_of`, and leaves the remainder.
pub proof fn lemma_read_step_lines(s: Seq<u8>)
    ensures
        match read_step(s) {
            Some((line, rest)) => {
                &&& lines_of(s) == seq![line] + lines_of(rest)
                &&& remainder_of(s) == remainder_of(rest)
            },
            None => lines_of(s).len() == 0 && remainder_of(s) == s,
        },
{
    lemma_lines_of_step(s);
    lemma_first_newline_in_bounds(s);
}

/// Writes then reads on a new buffer. Writes into a new buffer of capacity
/// `cap` that together hold at most `cap` bytes are each kept in full (each
/// fits when it is made), so the unread stream is their concatenation `s`.
/// Calling `read_line` until it returns `None` then gives `lines_of(s)`: by
/// `read_step`, each call returns the first of the lines left and keeps the
/// rest. These lines number the newlines in `s`, none holds a newline, and
/// joined with their newlines they are a prefix of `s`; the remainder that
/// follows them, free of newlines, stays to begin the next line.
pub proof fn lemma_writes_then_reads(ws: Seq<Seq<u8>>, cap: nat)
    requires
        concat_writes(ws).len() <= cap,
    ensures
        forall|i: int|
            0 <= i < ws.len() ==> #[trigger] contents_after_writes(Seq::empty(), ws.take(i), cap).len()
                + ws[i].len() <= cap,
        contents_after_writes(Seq::empty(), ws, cap) == concat_writes(ws),
        ({
            let s = concat_writes(ws);
            &&& lines_of(s).len() == count_newlines(s)
            &&& forall|i: int|
                0 <= i < lines_of(s).len() ==> first_newline(#[trigger] lines_of(s)[i]) is None
            &&& first_newline(remainder_of(s)) is None
            &&& join_lines(lines_of(s)) + remainder_of(s) == s
            &&& join_lines(lines_of(s)).is_prefix_of(s)
        }),
{
    lemma_contents_after_writes(ws, cap);
    assert forall|i: int| 0 <= i < ws.len() implies #[trigger] contents_after_writes(
        Seq::empty(),
        ws.take(i),
        cap,
    ).len() + ws[i].len() <= cap by {
        lemma_concat_writes_prefix(ws, i + 1);
        assert(ws.take(i + 1).drop_last() =~= ws.take(i));
        lemma_concat_writes_prefix(ws, i);
        lemma_contents_after_writes(ws.take(i), cap);
    }
    let s = concat_writes(ws);
    lemma_lines_of(s);
    let j = join_lines(lines_of(s));
    assert(j.is_prefix_of(s)) by {
        assert forall|k: int| 0 <= k < j.len() implies j[k] == s[k] by {
            assert((j + remainder_of(s))[k] == j[k]);
        }
    }
}

} // verus!
