use crate::text::{line_scan, views};
use vstd::prelude::*;

verus! {

pub open spec fn has_no_newline(s: Seq<u8>) -> bool {
    forall|i: int| 0 <= i < s.len() ==> #[trigger] s[i] != 10u8
}

/// Each line followed by a line feed, concatenated: what an appender writes.
pub open spec fn joined_lines(lines: Seq<Seq<u8>>) -> Seq<u8>
    decreases lines.len(),
{
    if lines.len() == 0 {
        Seq::empty()
    } else {
        joined_lines(lines.drop_last()) + lines.last().push(10u8)
    }
}

/// What a read of the followed file gave.
pub enum ReadOutcome {
    /// Bytes newly appended to the file.
    Data(Vec<u8>),
    /// Nothing new since the last read.
    EndOfFile,
    /// The file can no longer be read.
    Failed,
}

/// What the tailing activity does next.
pub enum TailAction {
    /// Hand these complete lines, in order, to the consumer, and read again.
    Emit(Vec<Vec<u8>>),
    /// Wait this many milliseconds, then read again.
    Backoff(u64),
    /// Stop following the file.
    Stop,
}

/// Milliseconds to wait after finding no new data.
pub const BACKOFF_MS: u64 = 500;

/// Follows a growing file: cuts the bytes appended to it into complete
/// lines (without their line feed), holding back an unfinished last line
/// until its line feed arrives.
pub struct Tailer {
    pending: Vec<u8>,
}

impl Tailer {
    /// The bytes of the unfinished line held back.
    pub closed spec fn view(&self) -> Seq<u8> {
        self.pending@
    }

    pub open spec fn wf(&self) -> bool {
        has_no_newline(self@)
    }

    pub fn new() -> (r: Self)
        ensures
            r.wf(),
            r@ == Seq::<u8>::empty(),
    {
        Tailer { pending: Vec::new() }
    }

    /// Takes the bytes appended since the last read and returns the lines
    /// they complete, in order.
    pub fn feed(&mut self, chunk: &[u8]) -> (r: Vec<Vec<u8>>)
        requires
            old(self).wf(),
        ensures
            final(self).wf(),
            views(r@) == line_scan(old(self)@ + chunk@).0,
            final(self)@ == line_scan(old(self)@ + chunk@).1,
    {
        let ghost start = self@;
        proof {
            lemma_scan_without_newline(Seq::<u8>::empty(), start);
            assert(Seq::<u8>::empty() + start =~= start);
        }
        let mut done: Vec<Vec<u8>> = Vec::new();
        let mut i: usize = 0;
        while i < chunk.len()
            invariant
                i <= chunk@.len(),
                (views(done@), self.pending@) == line_scan(start + chunk@.subrange(0, i as int)),
            decreases chunk.len() - i,
        {
            let b = chunk[i];
            assert((start + chunk@.subrange(0, i + 1)).drop_last() =~= start + chunk@.subrange(
                0,
                i as int,
            ));
            if b == 10u8 {
                let mut line: Vec<u8> = Vec::new();
                std::mem::swap(&mut line, &mut self.pending);
                let ghost d = views(done@);
                done.push(line);
                assert(views(done@) =~= d.push(line@));
            } else {
                self.pending.push(b);
            }
            i = i + 1;
        }
        assert(chunk@.subrange(0, i as int) =~= chunk@);
        proof {
            lemma_scan_pending_has_no_newline(start + chunk@);
        }
        done
    }

    /// Decides the next step from what the last read gave.
    pub fn on_read(&mut self, outcome: ReadOutcome) -> (r: TailAction)
        requires
            old(self).wf(),
        ensures
            final(self).wf(),
            match outcome {
                ReadOutcome::Data(bytes) => match r {
                    TailAction::Emit(lines) => views(lines@) == line_scan(
                        old(self)@ + bytes@,
                    ).0 && final(self)@ == line_scan(old(self)@ + bytes@).1,
                    _ => false,
                },
                ReadOutcome::EndOfFile => r == TailAction::Backoff(BACKOFF_MS) && final(self)@
                    == old(self)@,
                ReadOutcome::Failed => r == TailAction::Stop && final(self)@ == old(self)@,
            },
    {
        match outcome {
            ReadOutcome::Data(bytes) => TailAction::Emit(self.feed(bytes.as_slice())),
            ReadOutcome::EndOfFile => TailAction::Backoff(BACKOFF_MS),
            ReadOutcome::Failed => TailAction::Stop,
        }
    }
}

proof fn lemma_scan_without_newline(s: Seq<u8>, t: Seq<u8>)
    requires
        has_no_newline(t),
    ensures
        line_scan(s + t) == (line_scan(s).0, line_scan(s).1 + t),
    decreases t.len(),
{
    if t.len() == 0 {
        assert(s + t =~= s);
        assert(line_scan(s).1 + t =~= line_scan(s).1);
    } else {
        let u = t.drop_last();
        assert(has_no_newline(u)) by {
            assert forall|i: int| 0 <= i < u.len() implies #[trigger] u[i] != 10u8 by {
                assert(u[i] == t[i]);
            }
        }
        lemma_scan_without_newline(s, u);
        assert((s + t).drop_last() =~= s + u);
        assert(t.last() != 10u8) by {
            assert(t[t.len() - 1] != 10u8);
        }
        assert((line_scan(s).1 + u).push(t.last()) =~= line_scan(s).1 + t);
    }
}

proof fn lemma_scan_pending_has_no_newline(s: Seq<u8>)
    ensures
        has_no_newline(line_scan(s).1),
    decreases s.len(),
{
    if s.len() > 0 {
        lemma_scan_pending_has_no_newline(s.drop_last());
        let c = line_scan(s.drop_last()).1;
        if s.last() != 10u8 {
            assert forall|i: int| 0 <= i < c.push(s.last()).len() implies #[trigger] c.push(
                s.last(),
            )[i] != 10u8 by {
                if i < c.len() {
                    assert(c.push(s.last())[i] == c[i]);
                }
            }
        }
    }
}

/// A file that has not grown gives no line, and the tailer's state stays
/// as it was.
pub proof fn lemma_no_growth_emits_nothing(pending: Seq<u8>)
    requires
        has_no_newline(pending),
    ensures
        line_scan(pending + Seq::<u8>::empty()).0 == Seq::<Seq<u8>>::empty(),
        line_scan(pending + Seq::<u8>::empty()).1 == pending,
{
    lemma_scan_without_newline(Seq::<u8>::empty(), pending);
    assert(Seq::<u8>::empty() + pending =~= pending);
    assert(pending + Seq::<u8>::empty() =~= pending);
}

/// Appending `k` complete lines to a file read up to a line boundary gives
/// exactly those `k` lines, in the order appended, and nothing held back.
pub proof fn lemma_appended_lines_emitted(lines: Seq<Seq<u8>>)
    requires
        forall|i: int| 0 <= i < lines.len() ==> has_no_newline(#[trigger] lines[i]),
    ensures
        line_scan(Seq::<u8>::empty() + joined_lines(lines)).0 == lines,
        line_scan(Seq::<u8>::empty() + joined_lines(lines)).1 == Seq::<u8>::empty(),
    decreases lines.len(),
{
    assert(Seq::<u8>::empty() + joined_lines(lines) =~= joined_lines(lines));
    if lines.len() > 0 {
        let init = lines.drop_last();
        let l = lines.last();
        assert forall|i: int| 0 <= i < init.len() implies has_no_newline(#[trigger] init[i]) by {
            assert(init[i] == lines[i]);
        }
        lemma_appended_lines_emitted(init);
        assert(Seq::<u8>::empty() + joined_lines(init) =~= joined_lines(init));
        assert(has_no_newline(lines[lines.len() - 1]));
        lemma_scan_without_newline(joined_lines(init), l);
        let s = joined_lines(init) + l;
        assert(joined_lines(lines) =~= s.push(10u8));
        assert(s.push(10u8).drop_last() =~= s);
        assert(Seq::<u8>::empty() + l =~= l);
        assert(init.push(l) =~= lines);
    } else {
        assert(line_scan(Seq::<u8>::empty()).0 =~= lines);
    }
}

} // verus!
