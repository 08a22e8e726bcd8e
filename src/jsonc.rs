//! JSON with `//` line comments: a filter that removes the comments so
//! that a standard JSON reader accepts the text. The filter keeps its state
//! from one chunk of input to the next.
use vstd::prelude::*;

verus! {

/// Where the filter stands in the text.
#[derive(Debug, PartialEq, Eq, Structural, Clone, Copy)]
pub enum State {
    /// In JSON text.
    Plain,
    /// Inside a `"`-delimited string.
    Quote,
    /// After one `/` in JSON text, not yet written out.
    Slash,
    /// Inside a comment, up to the end of the line.
    Comment,
}

/// A byte of JSON text: the next state and what is kept.
pub open spec fn plain_step(c: u8) -> (State, Seq<u8>) {
    if c == 0x2f {
        (State::Slash, Seq::empty())
    } else if c == 0x22 {
        (State::Quote, seq![c])
    } else {
        (State::Plain, seq![c])
    }
}

/// One byte through the filter: the next state and what is kept. A `/`
/// that a second `/` does not follow is kept.
pub open spec fn step(st: State, c: u8) -> (State, Seq<u8>) {
    match st {
        State::Plain => plain_step(c),
        State::Quote => if c == 0x22 {
            (State::Plain, seq![c])
        } else {
            (State::Quote, seq![c])
        },
        State::Slash => if c == 0x2f {
            (State::Comment, Seq::empty())
        } else {
            (plain_step(c).0, seq![0x2fu8] + plain_step(c).1)
        },
        State::Comment => if c == 0x0a {
            (State::Plain, seq![c])
        } else {
            (State::Comment, Seq::empty())
        },
    }
}

/// Bytes through the filter from state `st`: the state after them and what
/// is kept.
pub open spec fn run(st: State, s: Seq<u8>) -> (State, Seq<u8>)
    decreases s.len(),
{
    if s.len() == 0 {
        (st, Seq::empty())
    } else {
        let (next, out) = step(st, s[0]);
        let (last, rest) = run(next, s.subrange(1, s.len() as int));
        (last, out + rest)
    }
}

/// What is still held back at the end of the input: a pending `/`.
pub open spec fn flush(st: State) -> Seq<u8> {
    if st == State::Slash {
        seq![0x2fu8]
    } else {
        Seq::empty()
    }
}

/// What the filter keeps of a whole input.
pub open spec fn strip(s: Seq<u8>) -> Seq<u8> {
    run(State::Plain, s).1 + flush(run(State::Plain, s).0)
}

/// Filtering two pieces of input one after the other, the state carried
/// from the first to the second, keeps what filtering them at once keeps.
pub proof fn lemma_run_chunks(st: State, a: Seq<u8>, b: Seq<u8>)
    ensures
        run(st, a + b) == (run(run(st, a).0, b).0, run(st, a).1 + run(run(st, a).0, b).1),
    decreases a.len(),
{
    if a.len() == 0 {
        assert(a + b =~= b);
        assert(Seq::<u8>::empty() + run(st, b).1 =~= run(st, b).1);
    } else {
        let ab = a + b;
        assert(ab[0] == a[0]);
        assert(ab.subrange(1, ab.len() as int) =~= a.subrange(1, a.len() as int) + b);
        let (next, out) = step(st, a[0]);
        lemma_run_chunks(next, a.subrange(1, a.len() as int), b);
        let o1 = run(next, a.subrange(1, a.len() as int)).1;
        let o2 = run(run(next, a.subrange(1, a.len() as int)).0, b).1;
        assert(out + (o1 + o2) =~= (out + o1) + o2);
    }
}

proof fn lemma_run_quote_body(q: Seq<u8>)
    requires
        !q.contains(0x22),
    ensures
        run(State::Quote, q) == (State::Quote, q),
    decreases q.len(),
{
    if q.len() > 0 {
        let rest = q.subrange(1, q.len() as int);
        assert(!rest.contains(0x22)) by {
            if rest.contains(0x22) {
                let k = choose|k: int| 0 <= k < rest.len() && rest[k] == 0x22;
                assert(q[k + 1] == 0x22);
            }
        }
        assert(q[0] != 0x22) by {
            if q[0] == 0x22 {
                assert(q.contains(0x22));
            }
        }
        lemma_run_quote_body(rest);
        assert(seq![q[0]] + rest =~= q);
    }
}

proof fn lemma_run_comment_body(c: Seq<u8>)
    requires
        !c.contains(0x0a),
    ensures
        run(State::Comment, c) == (State::Comment, Seq::<u8>::empty()),
    decreases c.len(),
{
    if c.len() > 0 {
        let rest = c.subrange(1, c.len() as int);
        assert(!rest.contains(0x0a)) by {
            if rest.contains(0x0a) {
                let k = choose|k: int| 0 <= k < rest.len() && rest[k] == 0x0a;
                assert(c[k + 1] == 0x0a);
            }
        }
        assert(c[0] != 0x0a) by {
            if c[0] == 0x0a {
                assert(c.contains(0x0a));
            }
        }
        lemma_run_comment_body(rest);
        assert(Seq::<u8>::empty() + Seq::<u8>::empty() =~= Seq::<u8>::empty());
    }
}

/// In JSON text, a `"`-delimited string is kept byte for byte, a `//`
/// comment is dropped up to, not including, the end of its line, and a `/`
/// that starts no comment is kept; with the law on pieces above, this fixes
/// what the filter keeps of any input.
pub proof fn lemma_strings_kept_comments_dropped(q: Seq<u8>, c: Seq<u8>, x: u8)
    requires
        !q.contains(0x22),
        !c.contains(0x0a),
        x != 0x2f && x != 0x22,
    ensures
        run(State::Plain, seq![0x22u8] + q + seq![0x22u8]) == (
            State::Plain,
            seq![0x22u8] + q + seq![0x22u8],
        ),
        run(State::Plain, seq![0x2fu8, 0x2fu8] + c + seq![0x0au8]) == (State::Plain, seq![0x0au8]),
        run(State::Plain, seq![0x2fu8, x]) == (State::Plain, seq![0x2fu8, x]),
        strip(seq![0x2fu8]) == seq![0x2fu8],
{
    let quoted = seq![0x22u8] + q + seq![0x22u8];
    let closing = seq![0x22u8];
    lemma_run_quote_body(q);
    lemma_run_chunks(State::Quote, q, closing);
    assert(closing.subrange(1, 1) =~= Seq::<u8>::empty());
    assert(closing[0] == 0x22);
    assert(run(State::Plain, closing.subrange(1, 1)) == (State::Plain, Seq::<u8>::empty()));
    assert(run(State::Quote, closing) == (State::Plain, closing)) by {
        assert(closing + Seq::<u8>::empty() =~= closing);
    }
    assert(quoted.subrange(1, quoted.len() as int) =~= q + closing);
    assert(seq![0x22u8] + (q + closing) =~= quoted);

    let comment = seq![0x2fu8, 0x2fu8] + c + seq![0x0au8];
    let newline = seq![0x0au8];
    lemma_run_comment_body(c);
    lemma_run_chunks(State::Comment, c, newline);
    assert(newline.subrange(1, 1) =~= Seq::<u8>::empty());
    assert(run(State::Comment, newline) == (State::Plain, newline)) by {
        assert(newline + Seq::<u8>::empty() =~= newline);
    }
    let after_first = comment.subrange(1, comment.len() as int);
    assert(after_first =~= seq![0x2fu8] + c + newline);
    assert(after_first.subrange(1, after_first.len() as int) =~= c + newline);
    assert(Seq::<u8>::empty() + newline =~= newline);
    assert(run(State::Comment, c + newline) == (State::Plain, newline));
    assert(comment[0] == 0x2f);
    assert(after_first[0] == 0x2f);
    assert(run(State::Slash, after_first) == (State::Plain, newline));
    assert(run(State::Plain, comment) == (State::Plain, newline));

    let lone = seq![0x2fu8, x];
    let tail = lone.subrange(1, 2);
    assert(tail =~= seq![x]);
    assert(tail.subrange(1, 1) =~= Seq::<u8>::empty());
    assert(run(State::Slash, tail) == (State::Plain, seq![0x2fu8, x])) by {
        assert(seq![0x2fu8] + seq![x] + Seq::<u8>::empty() =~= seq![0x2fu8, x]);
    }
    assert(Seq::<u8>::empty() + seq![0x2fu8, x] =~= seq![0x2fu8, x]);

    let one = seq![0x2fu8];
    assert(one.subrange(1, 1) =~= Seq::<u8>::empty());
    assert(one[0] == 0x2f);
    assert(run(State::Slash, one.subrange(1, 1)) == (State::Slash, Seq::<u8>::empty()));
    assert(run(State::Plain, one) == (State::Slash, Seq::<u8>::empty())) by {
        assert(Seq::<u8>::empty() + Seq::<u8>::empty() =~= Seq::<u8>::empty());
    }
    assert(Seq::<u8>::empty() + one =~= one);
}

/// Removes `//` comments, up to the end of their line, from JSON text read
/// from `reader`.
pub struct Reader<R> {
    pub reader: R,
    state: State,
}

impl<R> Reader<R> {
    pub fn new(reader: R) -> (r: Self)
        ensures
            r.state() == State::Plain,
    {
        Reader { reader, state: State::Plain }
    }

    pub closed spec fn state(&self) -> State {
        self.state
    }

    /// Filters the next chunk of input: returns what is kept of it. A `/`
    /// at the end of the chunk is held back until the next byte shows
    /// whether it starts a comment.
    pub fn filter(&mut self, buf: &[u8]) -> (r: Vec<u8>)
        ensures
            run(old(self).state(), buf@) == (final(self).state(), r@),
    {
        let ghost start = self.state;
        let mut out: Vec<u8> = Vec::new();
        let mut i: usize = 0;
        assert(buf@.subrange(0, buf@.len() as int) =~= buf@);
        assert(out@ + run(start, buf@).1 =~= run(start, buf@).1);
        while i < buf.len()
            invariant
                i <= buf.len(),
                start == old(self).state(),
                run(start, buf@) == (
                    run(self.state, buf@.subrange(i as int, buf@.len() as int)).0,
                    out@ + run(self.state, buf@.subrange(i as int, buf@.len() as int)).1,
                ),
            decreases buf.len() - i,
        {
            let c = buf[i];
            let ghost rest = buf@.subrange(i as int, buf@.len() as int);
            assert(rest[0] == c);
            assert(rest.subrange(1, rest.len() as int) =~= buf@.subrange(i + 1, buf@.len() as int));
            let ghost before = out@;
            let ghost cur = self.state;
            if self.state == State::Slash && c != 0x2f {
                out.push(0x2f);
                self.state = State::Plain;
            }
            let next = match self.state {
                State::Plain => if c == 0x2f {
                    State::Slash
                } else {
                    out.push(c);
                    if c == 0x22 { State::Quote } else { State::Plain }
                },
                State::Quote => {
                    out.push(c);
                    if c == 0x22 { State::Plain } else { State::Quote }
                },
                State::Slash => State::Comment,
                State::Comment => if c == 0x0a {
                    out.push(c);
                    State::Plain
                } else {
                    State::Comment
                },
            };
            proof {
                let (n, o) = step(cur, c);
                assert(n == next);
                let later = run(next, buf@.subrange(i + 1, buf@.len() as int)).1;
                assert(before + (o + later) =~= out@ + later) by {
                    if o.len() == 0 {
                    }
                }
            }
            self.state = next;
            i = i + 1;
        }
        assert(buf@.subrange(i as int, buf@.len() as int) =~= Seq::<u8>::empty());
        assert(out@ + Seq::<u8>::empty() =~= out@);
        out
    }

    /// The end of the input: a `/` still held back is kept.
    pub fn finish(&mut self) -> (r: Vec<u8>)
        ensures
            r@ == flush(old(self).state()),
            final(self).state() == State::Plain,
    {
        let mut out: Vec<u8> = Vec::new();
        if self.state == State::Slash {
            out.push(0x2f);
            assert(out@ =~= seq![0x2fu8]);
        } else {
            assert(out@ =~= Seq::<u8>::empty());
        }
        self.state = State::Plain;
        out
    }
}

} // verus!
