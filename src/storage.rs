//! The byte-level format of a log: one record per line, `\n` terminated.

use vstd::prelude::*;

verus! {

/// A log record: the time it was appended (milliseconds since the Unix
/// epoch) and its payload, whose fields sit beside `ts` in the record.
pub struct LogEvent<T> {
    pub timestamp: u64,
    pub payload: T,
}

/// The line terminator of every log.
pub const NEWLINE: u8 = 10;

/// The segments of `s` between newlines, in file order. The last segment is
/// what follows the final newline (empty when `s` ends with one).
pub open spec fn split_lines(s: Seq<u8>) -> Seq<Seq<u8>>
    decreases s.len(),
{
    if s.len() == 0 {
        seq![Seq::empty()]
    } else {
        let prev = split_lines(s.drop_last());
        if s.last() == NEWLINE {
            prev.push(Seq::empty())
        } else {
            prev.update(prev.len() - 1, prev.last().push(s.last()))
        }
    }
}

/// The non-empty lines of `ls`, in order.
pub open spec fn non_empty(ls: Seq<Seq<u8>>) -> Seq<Seq<u8>>
    decreases ls.len(),
{
    if ls.len() == 0 {
        Seq::empty()
    } else {
        let prev = non_empty(ls.drop_last());
        if ls.last().len() > 0 {
            prev.push(ls.last())
        } else {
            prev
        }
    }
}

/// The contents of each buffer in `v`.
pub open spec fn byte_views(v: Seq<Vec<u8>>) -> Seq<Seq<u8>> {
    v.map_values(|x: Vec<u8>| x@)
}

/// The records of a log file's contents: its non-empty lines, oldest first.
/// A trailing line without a terminating newline counts as well.
pub open spec fn records(s: Seq<u8>) -> Seq<Seq<u8>> {
    non_empty(split_lines(s))
}

pub proof fn lemma_split_lines_len(s: Seq<u8>)
    ensures
        split_lines(s).len() >= 1,
    decreases s.len(),
{
    if s.len() > 0 {
        lemma_split_lines_len(s.drop_last());
    }
}

/// How the lines of a concatenation arise from the lines of its parts: the
/// last line of `a` and the first line of `b` join.
pub proof fn lemma_split_lines_concat(a: Seq<u8>, b: Seq<u8>)
    ensures
        split_lines(a + b) == split_lines(a).drop_last().push(
            split_lines(a).last() + split_lines(b)[0],
        ) + split_lines(b).drop_first(),
    decreases b.len(),
{
    lemma_split_lines_len(a);
    lemma_split_lines_len(b);
    let la = split_lines(a);
    if b.len() == 0 {
        assert(a + b =~= a);
        assert(la.drop_last().push(la.last() + Seq::<u8>::empty()) =~= la);
        assert(split_lines(b).drop_first() =~= Seq::<Seq<u8>>::empty());
    } else {
        let b0 = b.drop_last();
        let x = b.last();
        lemma_split_lines_concat(a, b0);
        lemma_split_lines_len(b0);
        assert((a + b).drop_last() =~= a + b0);
        assert((a + b).last() == x);
        let lb0 = split_lines(b0);
        let lb = split_lines(b);
        if x == NEWLINE {
            assert(lb =~= lb0.push(Seq::empty()));
            assert(lb.drop_first() =~= lb0.drop_first().push(Seq::empty()));
            assert(split_lines(a + b) =~= la.drop_last().push(la.last() + lb[0]) + lb.drop_first());
        } else {
            if lb0.len() == 1 {
                assert(lb[0] =~= lb0[0].push(x));
                assert(lb.drop_first() =~= Seq::<Seq<u8>>::empty());
                assert(lb0.drop_first() =~= Seq::<Seq<u8>>::empty());
                assert((la.last() + lb0[0]).push(x) =~= la.last() + lb0[0].push(x));
                assert(split_lines(a + b) =~= la.drop_last().push(la.last() + lb[0]) + lb.drop_first());
            } else {
                assert(lb[0] == lb0[0]);
                assert(lb.drop_first() =~= lb0.drop_first().update(
                    lb0.len() - 2,
                    lb0.last().push(x),
                ));
                assert(split_lines(a + b) =~= la.drop_last().push(la.last() + lb[0]) + lb.drop_first());
            }
        }
    }
}

/// Putting one byte in front of `s`: a newline starts a new first line, any
/// other byte joins the first line.
pub proof fn lemma_split_lines_prepend(x: u8, s: Seq<u8>)
    ensures
        x == NEWLINE ==> split_lines(seq![x] + s) == seq![Seq::<u8>::empty()] + split_lines(s),
        x != NEWLINE ==> split_lines(seq![x] + s) == split_lines(s).update(
            0,
            seq![x] + split_lines(s)[0],
        ),
{
    lemma_split_lines_concat(seq![x], s);
    lemma_split_lines_len(s);
    let one = seq![x];
    assert(one.drop_last() =~= Seq::<u8>::empty());
    assert(split_lines(Seq::<u8>::empty()) =~= seq![Seq::<u8>::empty()]);
    let ls = split_lines(s);
    if x == NEWLINE {
        assert(split_lines(one) =~= seq![Seq::<u8>::empty(), Seq::<u8>::empty()]);
        assert(Seq::<u8>::empty() + ls[0] =~= ls[0]);
        assert(split_lines(one + s) =~= seq![Seq::<u8>::empty()] + ls);
    } else {
        assert(split_lines(one) =~= seq![one]);
        assert(split_lines(one + s) =~= ls.update(0, one + ls[0]));
    }
}

pub proof fn lemma_non_empty_concat(a: Seq<Seq<u8>>, b: Seq<Seq<u8>>)
    ensures
        non_empty(a + b) == non_empty(a) + non_empty(b),
    decreases b.len(),
{
    if b.len() == 0 {
        assert(a + b =~= a);
        assert(non_empty(a) + non_empty(b) =~= non_empty(a));
    } else {
        lemma_non_empty_concat(a, b.drop_last());
        assert((a + b).drop_last() =~= a + b.drop_last());
        assert((a + b).last() == b.last());
        if b.last().len() > 0 {
            assert(non_empty(a + b) =~= non_empty(a) + non_empty(b));
        } else {
            assert(non_empty(a + b) =~= non_empty(a) + non_empty(b));
        }
    }
}

/// Splits the contents of a log into its records, oldest first; empty lines
/// are skipped and a partial trailing line counts as a record.
pub fn split_records(content: &[u8]) -> (out: Vec<Vec<u8>>)
    ensures
        byte_views(out@) == records(content@),
{
    let mut out: Vec<Vec<u8>> = Vec::new();
    let mut current: Vec<u8> = Vec::new();
    let n = content.len();
    let mut i: usize = 0;
    while i < n
        invariant
            i <= n,
            n == content@.len(),
            byte_views(out@) == non_empty(split_lines(content@.subrange(0, i as int)).drop_last()),
            current@ == split_lines(content@.subrange(0, i as int)).last(),
        decreases n - i,
    {
        let ghost prefix = content@.subrange(0, i as int);
        let ghost next = content@.subrange(0, i as int + 1);
        proof {
            lemma_split_lines_len(prefix);
            assert(next.drop_last() =~= prefix);
            assert(next.last() == content@[i as int]);
        }
        let b = content[i];
        if b == NEWLINE {
            let done = current;
            current = Vec::new();
            proof {
                assert(split_lines(next).drop_last() =~= split_lines(prefix));
                assert(split_lines(prefix) =~= split_lines(prefix).drop_last().push(done@));
            }
            proof {
                let ls = split_lines(prefix);
                assert(ls.last() == done@);
                assert(ls.len() > 0);
            }
            let ghost before = byte_views(out@);
            let ghost line = done@;
            if done.len() > 0 {
                out.push(done);
                proof {
                    assert(byte_views(out@) =~= before.push(line));
                }
            } else {
                proof {
                    let ls = split_lines(prefix);
                    assert(ls.last() == done@);
                    assert(ls.drop_last() == split_lines(prefix).drop_last());
                    assert(non_empty(ls) == non_empty(ls.drop_last()));
                }
            }
        } else {
            current.push(b);
            proof {
                assert(split_lines(next).drop_last() =~= split_lines(prefix).drop_last());
            }
        }
        i = i + 1;
    }
    proof {
        let all = content@.subrange(0, n as int);
        assert(all =~= content@);
        lemma_split_lines_len(all);
        assert(split_lines(all) =~= split_lines(all).drop_last().push(current@));
    }
    proof {
        let ls = split_lines(content@);
        assert(ls.last() == current@);
        assert(ls.len() > 0);
    }
    let ghost before = byte_views(out@);
    let ghost line = current@;
    if current.len() > 0 {
        out.push(current);
        proof {
            assert(byte_views(out@) =~= before.push(line));
        }
    }
    out
}

/// The non-empty lines of `ls`, last first: the order of a backward scan.
pub open spec fn newest_first(ls: Seq<Seq<u8>>) -> Seq<Seq<u8>>
    decreases ls.len(),
{
    if ls.len() == 0 {
        Seq::empty()
    } else {
        let rest = newest_first(ls.drop_first());
        if ls[0].len() > 0 {
            rest.push(ls[0])
        } else {
            rest
        }
    }
}

/// A backward scan meets exactly the records that a forward read returns,
/// in the opposite order.
pub proof fn lemma_newest_first_is_reversed_records(s: Seq<u8>)
    ensures
        newest_first(split_lines(s)) == records(s).reverse(),
{
    lemma_newest_first_reverses(split_lines(s));
}

pub proof fn lemma_newest_first_reverses(ls: Seq<Seq<u8>>)
    ensures
        newest_first(ls) == non_empty(ls).reverse(),
    decreases ls.len(),
{
    if ls.len() == 0 {
        assert(non_empty(ls).reverse() =~= Seq::<Seq<u8>>::empty());
    } else {
        let head = seq![ls[0]];
        let rest = ls.drop_first();
        lemma_newest_first_reverses(rest);
        assert(ls =~= head + rest);
        lemma_non_empty_concat(head, rest);
        assert(head.drop_last() =~= Seq::<Seq<u8>>::empty());
        assert(non_empty(Seq::<Seq<u8>>::empty()) =~= Seq::<Seq<u8>>::empty());
        if ls[0].len() > 0 {
            assert(non_empty(head) =~= head);
        } else {
            assert(non_empty(head) =~= Seq::<Seq<u8>>::empty());
        }
        assert(newest_first(ls) =~= non_empty(ls).reverse());
    }
}

/// Copies `src[from..to]` into a new buffer.
pub fn copy_range(src: &[u8], from: usize, to: usize) -> (r: Vec<u8>)
    requires
        from <= to <= src@.len(),
    ensures
        r@ == src@.subrange(from as int, to as int),
{
    let mut r: Vec<u8> = Vec::new();
    let mut i = from;
    while i < to
        invariant
            from <= i <= to <= src@.len(),
            r@ == src@.subrange(from as int, i as int),
        decreases to - i,
    {
        r.push(src[i]);
        i = i + 1;
    }
    r
}

/// Appends the bytes of `src` to `dst`.
pub fn append_bytes(dst: &mut Vec<u8>, src: &[u8])
    ensures
        final(dst)@ == old(dst)@ + src@,
{
    let n = src.len();
    let mut i: usize = 0;
    while i < n
        invariant
            i <= n == src@.len(),
            dst@ == old(dst)@ + src@.subrange(0, i as int),
        decreases n - i,
    {
        dst.push(src[i]);
        i = i + 1;
    }
    assert(src@.subrange(0, n as int) =~= src@);
}

/// Size of the chunks in which a log is read backwards.
pub const SCAN_CHUNK: usize = 64 * 1024;

/// Length of the chunk that ends at byte offset `pos`.
pub open spec fn chunk_len(pos: nat) -> nat {
    if pos < SCAN_CHUNK {
        pos
    } else {
        SCAN_CHUNK as nat
    }
}

/// A scan of a log file from its end towards its start, one chunk at a time.
///
/// The caller asks for the next chunk with `next_read`, reads those bytes
/// from the file and hands them to `feed`, which returns the complete lines
/// that the chunk closes, newest first. Once the start of the file is
/// reached, `finish` returns the file's first line. Over a whole file the
/// lines returned are its records in reverse order; a caller looking for the
/// newest record that satisfies some test stops at the first that does.
pub struct ReverseScan {
    file_pos: u64,
    carry: Vec<u8>,
    seen: Ghost<Seq<u8>>,
    yielded: Ghost<Seq<Seq<u8>>>,
}

impl ReverseScan {
    /// Offset of the first byte that has been fed.
    pub closed spec fn position(&self) -> nat {
        self.file_pos as nat
    }

    /// The bytes fed so far: the file from `position()` to its end.
    pub closed spec fn seen(&self) -> Seq<u8> {
        self.seen@
    }

    /// The lines returned so far, in the order they were returned.
    pub closed spec fn yielded(&self) -> Seq<Seq<u8>> {
        self.yielded@
    }

    pub closed spec fn wf(&self) -> bool {
        &&& self.carry@ == split_lines(self.seen@)[0]
        &&& self.yielded@ == newest_first(split_lines(self.seen@).drop_first())
    }

    /// Starts a scan of a file of `file_len` bytes.
    pub fn new(file_len: u64) -> (r: Self)
        ensures
            r.wf(),
            r.position() == file_len,
            r.seen() == Seq::<u8>::empty(),
            r.yielded() == Seq::<Seq<u8>>::empty(),
    {
        proof {
            assert(split_lines(Seq::<u8>::empty()).drop_first() =~= Seq::<Seq<u8>>::empty());
        }
        ReverseScan {
            file_pos: file_len,
            carry: Vec::new(),
            seen: Ghost(Seq::empty()),
            yielded: Ghost(Seq::empty()),
        }
    }

    /// The offset and length of the chunk to read next, or `None` once the
    /// whole file has been fed.
    pub fn next_read(&self) -> (r: Option<(u64, usize)>)
        ensures
            self.position() == 0 ==> r is None,
            self.position() > 0 ==> r == Some(
                (
                    (self.position() - chunk_len(self.position())) as u64,
                    chunk_len(self.position()) as usize,
                ),
            ),
    {
        if self.file_pos == 0 {
            None
        } else {
            let len: u64 = if self.file_pos < SCAN_CHUNK as u64 {
                self.file_pos
            } else {
                SCAN_CHUNK as u64
            };
            Some((self.file_pos - len, len as usize))
        }
    }

    /// Takes the chunk that ends where the previous one began and returns
    /// the non-empty lines that it completes, newest first.
    pub fn feed(&mut self, chunk: &[u8]) -> (lines: Vec<Vec<u8>>)
        requires
            old(self).wf(),
            old(self).position() > 0,
            chunk@.len() == chunk_len(old(self).position()),
        ensures
            final(self).wf(),
            final(self).position() == old(self).position() - chunk@.len(),
            final(self).seen() == chunk@ + old(self).seen(),
            final(self).yielded() == old(self).yielded() + byte_views(lines@),
    {
        let ghost old_seen = self.seen@;
        let ghost old_yielded = self.yielded@;
        let n = chunk.len();
        let mut out: Vec<Vec<u8>> = Vec::new();
        let mut end = n;
        let mut i = n;
        proof {
            assert(chunk@.subrange(n as int, n as int) + old_seen =~= old_seen);
            assert(chunk@.subrange(n as int, n as int) + self.carry@ =~= self.carry@);
            assert(old_yielded + byte_views(out@) =~= old_yielded);
        }
        while i > 0
            invariant
                i <= end <= n == chunk@.len(),
                self.seen@ == old_seen,
                self.yielded@ == old_yielded,
                self.file_pos == old(self).file_pos,
                chunk@.subrange(i as int, end as int) + self.carry@ == split_lines(
                    chunk@.subrange(i as int, n as int) + old_seen,
                )[0],
                old_yielded + byte_views(out@) == newest_first(
                    split_lines(chunk@.subrange(i as int, n as int) + old_seen).drop_first(),
                ),
            decreases i,
        {
            let ghost suffix = chunk@.subrange(i as int, n as int) + old_seen;
            let ghost pending = chunk@.subrange(i as int, end as int) + self.carry@;
            i = i - 1;
            let x = chunk[i];
            let ghost next = chunk@.subrange(i as int, n as int) + old_seen;
            proof {
                assert(next =~= seq![x] + suffix);
                lemma_split_lines_prepend(x, suffix);
                lemma_split_lines_len(suffix);
            }
            if x == NEWLINE {
                let mut line = copy_range(chunk, i + 1, end);
                append_bytes(&mut line, self.carry.as_slice());
                proof {
                    assert(chunk@.subrange(i + 1, end as int) =~= chunk@.subrange(
                        i as int + 1,
                        end as int,
                    ));
                    assert(line@ =~= pending);
                    assert(split_lines(next).drop_first() =~= split_lines(suffix));
                }
                let ghost before = byte_views(out@);
                if line.len() > 0 {
                    out.push(line);
                    proof {
                        assert(byte_views(out@) =~= before.push(pending));
                        assert(old_yielded + byte_views(out@) =~= (old_yielded + before).push(
                            pending,
                        ));
                    }
                }
                self.carry = Vec::new();
                end = i;
                proof {
                    assert(chunk@.subrange(i as int, end as int) + self.carry@
                        =~= Seq::<u8>::empty());
                }
            } else {
                proof {
                    assert(chunk@.subrange(i as int, end as int) + self.carry@ =~= seq![x]
                        + pending);
                    assert(split_lines(next).drop_first() =~= split_lines(suffix).drop_first());
                }
            }
        }
        let mut head = copy_range(chunk, 0, end);
        append_bytes(&mut head, self.carry.as_slice());
        proof {
            assert(chunk@.subrange(0, n as int) =~= chunk@);
        }
        self.carry = head;
        self.file_pos = self.file_pos - n as u64;
        self.seen = Ghost(chunk@ + old_seen);
        self.yielded = Ghost(old_yielded + byte_views(out@));
        out
    }

    /// Ends the scan: the line that begins the file, if it is not empty.
    /// With the lines returned by `feed`, these are the non-empty lines of
    /// everything fed, newest first.
    pub fn finish(self) -> (first: Option<Vec<u8>>)
        requires
            self.wf(),
        ensures
            first matches Some(l) ==> self.yielded().push(l@) == newest_first(
                split_lines(self.seen()),
            ),
            first is None ==> self.yielded() == newest_first(split_lines(self.seen())),
    {
        proof {
            lemma_split_lines_len(self.seen@);
        }
        if self.carry.len() > 0 {
            Some(self.carry)
        } else {
            None
        }
    }
}

/// Each record followed by a newline, all concatenated: what the writer puts
/// in the file for a sequence of appended records.
pub open spec fn framed(xs: Seq<Seq<u8>>) -> Seq<u8>
    decreases xs.len(),
{
    if xs.len() == 0 {
        Seq::empty()
    } else {
        framed(xs.drop_last()) + xs.last().push(NEWLINE)
    }
}

/// A record as a log can hold it: not empty and without a newline.
pub open spec fn is_record(x: Seq<u8>) -> bool {
    x.len() > 0 && !x.contains(NEWLINE)
}

pub proof fn lemma_split_lines_no_newline(x: Seq<u8>)
    requires
        !x.contains(NEWLINE),
    ensures
        split_lines(x) == seq![x],
    decreases x.len(),
{
    if x.len() > 0 {
        let p = x.drop_last();
        assert(!p.contains(NEWLINE)) by {
            if p.contains(NEWLINE) {
                let k = choose|k: int| 0 <= k < p.len() && p[k] == NEWLINE;
                assert(x[k] == NEWLINE);
            }
        }
        lemma_split_lines_no_newline(p);
        assert(x[x.len() - 1] == x.last());
        assert(x.last() != NEWLINE) by {
            if x.last() == NEWLINE {
                assert(x.contains(NEWLINE));
            }
        }
        assert(p.push(x.last()) =~= x);
        assert(split_lines(x) =~= seq![x]);
    } else {
        assert(x =~= Seq::<u8>::empty());
    }
}

pub proof fn lemma_split_lines_framed(xs: Seq<Seq<u8>>)
    requires
        forall|i: int| 0 <= i < xs.len() ==> !(#[trigger] xs[i]).contains(NEWLINE),
    ensures
        split_lines(framed(xs)) == xs.push(Seq::empty()),
    decreases xs.len(),
{
    if xs.len() == 0 {
        assert(split_lines(Seq::<u8>::empty()) =~= xs.push(Seq::empty()));
    } else {
        let init = xs.drop_last();
        let x = xs.last();
        assert forall|i: int| 0 <= i < init.len() implies !(#[trigger] init[i]).contains(NEWLINE) by {
            assert(init[i] == xs[i]);
        }
        lemma_split_lines_framed(init);
        assert(!xs[xs.len() - 1].contains(NEWLINE));
        let line = x.push(NEWLINE);
        lemma_split_lines_concat(framed(init), line);
        assert(line.drop_last() =~= x);
        lemma_split_lines_no_newline(x);
        assert(split_lines(line) =~= seq![x, Seq::<u8>::empty()]);
        assert(Seq::<u8>::empty() + x =~= x);
        assert(split_lines(framed(xs)) =~= xs.push(Seq::empty()));
    }
}

pub proof fn lemma_non_empty_all(xs: Seq<Seq<u8>>)
    requires
        forall|i: int| 0 <= i < xs.len() ==> (#[trigger] xs[i]).len() > 0,
    ensures
        non_empty(xs) == xs,
    decreases xs.len(),
{
    if xs.len() > 0 {
        let init = xs.drop_last();
        assert forall|i: int| 0 <= i < init.len() implies (#[trigger] init[i]).len() > 0 by {
            assert(init[i] == xs[i]);
        }
        lemma_non_empty_all(init);
        assert(xs[xs.len() - 1].len() > 0);
        assert(init.push(xs.last()) =~= xs);
    }
}

/// Reading back what was appended: when every appended record is non-empty
/// and holds no newline, the records of the written file are exactly the
/// appended ones, in the order of their appends.
pub proof fn lemma_read_back_appended(xs: Seq<Seq<u8>>)
    requires
        forall|i: int| 0 <= i < xs.len() ==> is_record(#[trigger] xs[i]),
    ensures
        records(framed(xs)) == xs,
{
    assert forall|i: int| 0 <= i < xs.len() implies !(#[trigger] xs[i]).contains(NEWLINE) by {
        assert(is_record(xs[i]));
    }
    lemma_split_lines_framed(xs);
    let ls = xs.push(Seq::<u8>::empty());
    assert(ls.drop_last() =~= xs);
    assert(ls.last().len() == 0);
    assert forall|i: int| 0 <= i < xs.len() implies (#[trigger] xs[i]).len() > 0 by {
        assert(is_record(xs[i]));
    }
    lemma_non_empty_all(xs);
}

pub proof fn lemma_framed_push(xs: Seq<Seq<u8>>, x: Seq<u8>)
    ensures
        framed(xs.push(x)) == framed(xs) + x.push(NEWLINE),
{
    assert(xs.push(x).drop_last() =~= xs);
}

/// Joins records into one write for a bulk append: the records separated by
/// newlines, without a trailing one (the writer adds it). Once the writer has
/// framed it, the file holds exactly what appending each record would give.
pub fn join_records(xs: &Vec<Vec<u8>>) -> (r: Vec<u8>)
    ensures
        xs@.len() == 0 ==> r@ == Seq::<u8>::empty(),
        xs@.len() > 0 ==> r@.push(NEWLINE) == framed(byte_views(xs@)),
{
    let mut r: Vec<u8> = Vec::new();
    let n = xs.len();
    let mut i: usize = 0;
    while i < n
        invariant
            i <= n == xs@.len(),
            i == 0 ==> r@ == Seq::<u8>::empty(),
            i > 0 ==> r@.push(NEWLINE) == framed(byte_views(xs@.subrange(0, i as int))),
        decreases n - i,
    {
        let ghost before = r@;
        if i > 0 {
            r.push(NEWLINE);
        }
        append_bytes(&mut r, xs[i].as_slice());
        proof {
            let done = byte_views(xs@.subrange(0, i as int));
            let next = byte_views(xs@.subrange(0, i as int + 1));
            assert(next =~= done.push(xs@[i as int]@));
            lemma_framed_push(done, xs@[i as int]@);
            if i == 0 {
                assert(done =~= Seq::<Seq<u8>>::empty());
                assert(r@.push(NEWLINE) =~= framed(next));
            } else {
                assert(r@.push(NEWLINE) =~= framed(next));
            }
        }
        i = i + 1;
    }
    proof {
        assert(xs@.subrange(0, n as int) =~= xs@);
    }
    r
}

/// Most writes that join the one that opened a batch.
pub const BATCH_MAX_JOINED: usize = 500;

/// Size from which a batch is written out without waiting for more writes.
pub const BATCH_MAX_BYTES: usize = 1024 * 1024;

/// What the log writer does after a command, as decided by [`WriterCore`].
pub enum WriterAction {
    /// Take the next command if one is already queued, without waiting.
    TryReceive,
    /// Write these bytes to the buffered file writer, then wait for a command.
    Write(Vec<u8>),
    /// Write these bytes, flush the file writer and answer the flush request,
    /// then wait for a command.
    WriteAndFlush(Vec<u8>),
    /// Flush the file writer and answer the flush request, then wait.
    Flush,
}

/// The decisions of a log writer: it frames each write with a newline and
/// gathers writes that are already queued into one batch, up to
/// [`BATCH_MAX_JOINED`] more writes or [`BATCH_MAX_BYTES`] bytes, so that a
/// burst reaches the file in one system call. A flush request writes out the
/// batch so far before flushing.
///
/// `accepted()` are the writes taken so far and `written()` the bytes handed
/// to the file so far. Those bytes plus the open batch are always the framed
/// writes in order, and at every flush the batch is empty: everything
/// appended before a flush request is in the file, in order, when it is
/// answered.
pub struct WriterCore {
    batch: Vec<u8>,
    joined: usize,
    batching: bool,
    accepted: Ghost<Seq<Seq<u8>>>,
    written: Ghost<Seq<u8>>,
}

/// The bytes that an action hands to the file.
pub open spec fn action_bytes(a: WriterAction) -> Seq<u8> {
    match a {
        WriterAction::Write(b) => b@,
        WriterAction::WriteAndFlush(b) => b@,
        _ => Seq::empty(),
    }
}

impl WriterCore {
    pub closed spec fn accepted(&self) -> Seq<Seq<u8>> {
        self.accepted@
    }

    pub closed spec fn written(&self) -> Seq<u8> {
        self.written@
    }

    /// The bytes of the open batch.
    pub closed spec fn pending(&self) -> Seq<u8> {
        self.batch@
    }

    /// Whether a batch is open (the writer is polling for more writes).
    pub closed spec fn is_batching(&self) -> bool {
        self.batching
    }

    /// How many writes joined the open batch after the one that opened it.
    pub closed spec fn joined(&self) -> nat {
        self.joined as nat
    }

    pub closed spec fn wf(&self) -> bool {
        &&& self.written@ + self.batch@ == framed(self.accepted@)
        &&& !self.batching ==> self.batch@.len() == 0 && self.joined == 0
        &&& self.joined <= BATCH_MAX_JOINED
    }

    pub fn new() -> (r: Self)
        ensures
            r.wf(),
            r.accepted() == Seq::<Seq<u8>>::empty(),
            r.written() == Seq::<u8>::empty(),
            !r.is_batching(),
    {
        WriterCore {
            batch: Vec::new(),
            joined: 0,
            batching: false,
            accepted: Ghost(Seq::empty()),
            written: Ghost(Seq::empty()),
        }
    }

    /// A write command: its bytes join the open batch, or open one. The
    /// batch stays open while it is under both limits.
    pub fn on_write(&mut self, bytes: &[u8]) -> (action: WriterAction)
        requires
            old(self).wf(),
        ensures
            final(self).wf(),
            final(self).accepted() == old(self).accepted().push(bytes@),
            final(self).written() == old(self).written() + action_bytes(action),
            ({
                let batch = old(self).pending() + bytes@.push(NEWLINE);
                let joined = if old(self).is_batching() { old(self).joined() + 1 } else { 0 };
                if joined < BATCH_MAX_JOINED && batch.len() < BATCH_MAX_BYTES {
                    &&& action is TryReceive
                    &&& final(self).is_batching()
                    &&& final(self).pending() == batch
                    &&& final(self).joined() == joined
                } else {
                    &&& action is Write
                    &&& action_bytes(action) == batch
                    &&& !final(self).is_batching()
                }
            }),
    {
        let ghost old_written = self.written@;
        let ghost accepted = self.accepted@;
        if self.batching {
            self.joined = self.joined + 1;
        } else {
            self.batching = true;
        }
        append_bytes(&mut self.batch, bytes);
        self.batch.push(NEWLINE);
        proof {
            lemma_framed_push(accepted, bytes@);
            assert(old_written + self.batch@ =~= framed(accepted.push(bytes@)));
        }
        self.accepted = Ghost(accepted.push(bytes@));
        if self.joined < BATCH_MAX_JOINED && self.batch.len() < BATCH_MAX_BYTES {
            WriterAction::TryReceive
        } else {
            let mut out: Vec<u8> = Vec::new();
            std::mem::swap(&mut out, &mut self.batch);
            self.joined = 0;
            self.batching = false;
            self.written = Ghost(old_written + out@);
            proof {
                assert(self.written@ + self.batch@ =~= old_written + out@);
            }
            WriterAction::Write(out)
        }
    }

    /// A flush request: the open batch, if any, is written before the flush.
    pub fn on_flush(&mut self) -> (action: WriterAction)
        requires
            old(self).wf(),
        ensures
            final(self).wf(),
            !final(self).is_batching(),
            final(self).accepted() == old(self).accepted(),
            final(self).written() == old(self).written() + old(self).pending(),
            final(self).written() == framed(final(self).accepted()),
            old(self).is_batching() ==> action is WriteAndFlush && action_bytes(action)
                == old(self).pending(),
            !old(self).is_batching() ==> action is Flush,
    {
        if self.batching {
            let out = self.close_batch();
            WriterAction::WriteAndFlush(out)
        } else {
            proof {
                assert(self.written@ =~= self.written@ + self.batch@);
            }
            WriterAction::Flush
        }
    }

    /// Nothing more is queued (or the queue has closed) while a batch is
    /// open: the batch is written out. Without an open batch nothing is
    /// written.
    pub fn on_queue_empty(&mut self) -> (action: WriterAction)
        requires
            old(self).wf(),
        ensures
            final(self).wf(),
            !final(self).is_batching(),
            final(self).accepted() == old(self).accepted(),
            action is Write,
            action_bytes(action) == old(self).pending(),
            final(self).written() == old(self).written() + old(self).pending(),
    {
        let out = self.close_batch();
        WriterAction::Write(out)
    }

    /// Appends followed by a flush read back exactly: once no batch is open
    /// (as after every flush), the records of the bytes handed to the file
    /// are the accepted writes, in order, provided each is a record.
    pub proof fn lemma_flushed_reads_back(&self)
        requires
            self.wf(),
            !self.is_batching(),
            forall|i: int| 0 <= i < self.accepted().len() ==> is_record(#[trigger] self.accepted()[i]),
        ensures
            records(self.written()) == self.accepted(),
    {
        assert(self.written@ + self.batch@ =~= self.written@);
        assert forall|i: int| 0 <= i < self.accepted@.len() implies is_record(#[trigger] self.accepted@[i]) by {
            assert(is_record(self.accepted()[i]));
        }
        lemma_read_back_appended(self.accepted@);
    }

    fn close_batch(&mut self) -> (out: Vec<u8>)
        requires
            old(self).wf(),
        ensures
            final(self).wf(),
            !final(self).is_batching(),
            out@ == old(self).pending(),
            final(self).accepted() == old(self).accepted(),
            final(self).written() == old(self).written() + old(self).pending(),
    {
        let mut out: Vec<u8> = Vec::new();
        std::mem::swap(&mut out, &mut self.batch);
        self.joined = 0;
        self.batching = false;
        self.written = Ghost(self.written@ + out@);
        proof {
            assert(self.written@ + self.batch@ =~= self.written@);
        }
        out
    }
}

} // verus!
