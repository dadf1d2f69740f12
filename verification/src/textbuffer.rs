//! A bounded scrollback buffer that wraps long lines to a fixed width and
//! keeps only the newest rows, for display by the caller.
use vstd::prelude::*;

use std::collections::vec_deque::VecDeque;

verus! {

/// The chunks a line is cut into, each at most `x` characters, in order.
/// With a width of zero nothing fits, so nothing is produced.
pub open spec fn wrap_chunks(line: Seq<char>, x: nat) -> Seq<Seq<char>>
    decreases line.len(),
{
    if x == 0 || line.len() == 0 {
        Seq::empty()
    } else if line.len() <= x {
        seq![line]
    } else {
        seq![line.take(x as int)] + wrap_chunks(line.skip(x as int), x)
    }
}

/// What one stored line contributes to the display: lines that reach the
/// width are wrapped, shorter ones stand as they are.
pub open spec fn line_chunks(line: Seq<char>, x: nat) -> Seq<Seq<char>> {
    if line.len() >= x {
        wrap_chunks(line, x)
    } else {
        seq![line]
    }
}

/// The display rows, oldest first: lines are consumed newest first, each
/// contributing the last of its chunks first, until `budget` rows are
/// filled or the lines run out.
pub open spec fn newest_fill(lines: Seq<Seq<char>>, x: nat, budget: nat) -> Seq<Seq<char>>
    decreases lines.len(),
{
    if budget == 0 || lines.len() == 0 {
        Seq::empty()
    } else {
        let chunks = line_chunks(lines.last(), x);
        let k = if budget < chunks.len() {
            budget
        } else {
            chunks.len()
        };
        let taken = chunks.skip(chunks.len() - k);
        newest_fill(lines.drop_last(), x, (budget - k) as nat) + taken
    }
}

/// The rows joined by newlines.
pub open spec fn join_lines(lines: Seq<Seq<char>>) -> Seq<char>
    decreases lines.len(),
{
    if lines.len() == 0 {
        Seq::empty()
    } else if lines.len() == 1 {
        lines[0]
    } else {
        lines[0] + "\n"@ + join_lines(lines.drop_first())
    }
}

/// The stored lines after appending one more: the newest `y` are kept, the
/// rest fall off the front.
pub open spec fn appended_lines(lines: Seq<Seq<char>>, l: Seq<char>, y: nat) -> Seq<Seq<char>> {
    let all = lines.push(l);
    if all.len() <= y {
        all
    } else {
        all.skip(all.len() - y)
    }
}

/// The mathematical content of a `TextBuffer`: its width, its height, and
/// the stored lines, oldest first.
pub ghost struct TextBufferView {
    pub xsize: nat,
    pub ysize: nat,
    pub lines: Seq<Seq<char>>,
}

proof fn lemma_join_lines_push(s: Seq<Seq<char>>, l: Seq<char>)
    ensures
        join_lines(s.push(l)) == if s.len() == 0 {
            l
        } else {
            join_lines(s) + "\n"@ + l
        },
    decreases s.len(),
{
    if s.len() == 0 {
        assert(s.push(l)[0] == l);
        assert(join_lines(s.push(l)) == l);
    } else {
        assert(s.push(l).drop_first() =~= s.drop_first().push(l));
        lemma_join_lines_push(s.drop_first(), l);
        assert(s.push(l)[0] == s[0]);
        if s.len() == 1 {
            assert(join_lines(s) == s[0]);
            assert(join_lines(s.push(l)) =~= join_lines(s) + "\n"@ + l);
        } else {
            assert(join_lines(s) == s[0] + "\n"@ + join_lines(s.drop_first()));
            assert(join_lines(s.push(l)) =~= join_lines(s) + "\n"@ + l);
        }
    }
}

pub struct TextBuffer {
    xsize: usize,
    ysize: usize,
    raw_lines: VecDeque<String>,
}

impl View for TextBuffer {
    type V = TextBufferView;

    closed spec fn view(&self) -> TextBufferView {
        TextBufferView {
            xsize: self.xsize as nat,
            ysize: self.ysize as nat,
            lines: self.raw_lines.deep_view(),
        }
    }
}

impl TextBuffer {
    /// An empty buffer that will show at most `max_y_chars` rows of at most
    /// `max_x_chars` characters.
    pub fn new(max_x_chars: usize, max_y_chars: usize) -> (r: TextBuffer)
        ensures
            r@.xsize == max_x_chars,
            r@.ysize == max_y_chars,
            r@.lines == Seq::<Seq<char>>::empty(),
    {
        let r = TextBuffer { xsize: max_x_chars, ysize: max_y_chars, raw_lines: VecDeque::new() };
        proof {
            assert(r@.lines =~= Seq::<Seq<char>>::empty());
        }
        r
    }

    /// Stores one more line, dropping the oldest lines once more than
    /// `ysize` are held: the buffer never needs more than one screen.
    #[verifier::loop_isolation(false)]
    pub fn append(&mut self, new_line: &str)
        ensures
            final(self)@.xsize == old(self)@.xsize,
            final(self)@.ysize == old(self)@.ysize,
            final(self)@.lines == appended_lines(old(self)@.lines, new_line@, old(self)@.ysize),
    {
        let ghost all = old(self)@.lines.push(new_line@);
        self.raw_lines.push_back(new_line.to_owned());
        proof {
            assert(self.raw_lines.deep_view() =~= all);
        }
        let ghost mut dropped: int = 0;
        while self.raw_lines.len() > self.ysize
            invariant
                self.xsize == old(self)@.xsize,
                self.ysize == old(self)@.ysize,
                0 <= dropped <= all.len(),
                all.len() == self.raw_lines@.len() + dropped,
                self.raw_lines.deep_view() =~= all.skip(dropped),
                dropped == 0 || self.raw_lines@.len() >= self.ysize,
            decreases self.raw_lines@.len(),
        {
            let ghost pre_view = self.raw_lines@;
            let ghost pre_deep = self.raw_lines.deep_view();
            let popped = self.raw_lines.pop_front();
            proof {
                assert forall|k: int|
                    0 <= k < self.raw_lines@.len() implies self.raw_lines.deep_view()[k] == all.skip(
                    dropped + 1,
                )[k] by {
                    assert(self.raw_lines@[k] == pre_view[k + 1]);
                    assert(self.raw_lines.deep_view()[k] == self.raw_lines@[k].deep_view());
                    assert(pre_deep[k + 1] == pre_view[k + 1].deep_view());
                    assert(pre_deep[k + 1] == all.skip(dropped)[k + 1]);
                }
                assert(self.raw_lines.deep_view() =~= all.skip(dropped + 1));
                dropped = dropped + 1;
            }
        }
        proof {
            if dropped == 0 {
                assert(all.len() <= self.ysize);
            } else {
                assert(self.raw_lines.deep_view().len() == self.ysize);
                assert(dropped == all.len() - self.ysize);
            }
            assert(self@.lines =~= appended_lines(old(self)@.lines, new_line@, old(self)@.ysize));
        }
    }

    /// Forgets every stored line.
    pub fn clear(&mut self)
        ensures
            final(self)@.xsize == old(self)@.xsize,
            final(self)@.ysize == old(self)@.ysize,
            final(self)@.lines == Seq::<Seq<char>>::empty(),
    {
        self.raw_lines.clear();
        proof {
            assert(self@.lines =~= Seq::<Seq<char>>::empty());
        }
    }

    /// Cuts a line into chunks of at most `max_len` characters.
    #[verifier::loop_isolation(false)]
    pub fn split_into_sublines(&self, line: &String, max_len: usize) -> (r: Vec<String>)
        ensures
            r.deep_view() == wrap_chunks(line@, max_len as nat),
    {
        let mut ret: Vec<String> = Vec::new();
        if max_len == 0 {
            proof {
                assert(ret.deep_view() =~= wrap_chunks(line@, 0));
            }
            return ret;
        }
        let n = line.as_str().unicode_len();
        let mut pos: usize = 0;
        proof {
            assert(ret.deep_view() =~= Seq::<Seq<char>>::empty());
            assert(line@.skip(0) =~= line@);
            assert(wrap_chunks(line@, max_len as nat) =~= ret.deep_view() + wrap_chunks(
                line@.skip(0),
                max_len as nat,
            ));
        }
        while pos < n
            invariant
                pos <= n,
                n == line@.len(),
                wrap_chunks(line@, max_len as nat) == ret.deep_view() + wrap_chunks(
                    line@.skip(pos as int),
                    max_len as nat,
                ),
            decreases n - pos,
        {
            let remaining = n - pos;
            let end = if max_len < remaining {
                pos + max_len
            } else {
                n
            };
            let chunk = line.as_str().substring_char(pos, end);
            let ghost pre = ret.deep_view();
            ret.push(chunk.to_owned());
            proof {
                assert(ret.deep_view() =~= pre.push(chunk@));
                let tail = line@.skip(pos as int);
                assert(tail.len() == n - pos);
                if max_len < remaining {
                    assert(chunk@ =~= tail.take(max_len as int));
                    assert(tail.skip(max_len as int) =~= line@.skip(end as int));
                    assert(wrap_chunks(tail, max_len as nat) == seq![tail.take(max_len as int)]
                        + wrap_chunks(line@.skip(end as int), max_len as nat));
                } else {
                    assert(chunk@ =~= tail);
                    assert(wrap_chunks(tail, max_len as nat) == seq![tail]);
                    assert(line@.skip(end as int) =~= Seq::<char>::empty());
                    assert(wrap_chunks(line@.skip(end as int), max_len as nat)
                        =~= Seq::<Seq<char>>::empty());
                }
                assert(ret.deep_view() + wrap_chunks(line@.skip(end as int), max_len as nat) =~= pre
                    + wrap_chunks(line@.skip(pos as int), max_len as nat));
            }
            pos = end;
        }
        proof {
            assert(line@.skip(n as int) =~= Seq::<char>::empty());
            assert(wrap_chunks(line@.skip(n as int), max_len as nat) =~= Seq::<Seq<char>>::empty());
            assert(ret.deep_view() =~= wrap_chunks(line@, max_len as nat));
        }
        ret
    }

    /// The display rows, oldest first: the newest stored lines, wrapped to
    /// the width, filling at most `ysize` rows from the bottom up.
    #[verifier::loop_isolation(false)]
    pub fn get_newest(&self) -> (r: Vec<String>)
        ensures
            r.deep_view() == newest_fill(self@.lines, self@.xsize, self@.ysize),
    {
        let ghost full = self@.lines;
        let ghost x = self@.xsize;
        let ghost y = self@.ysize;
        let mut rev_rows: Vec<String> = Vec::new();
        let ghost mut done: Seq<Seq<char>> = Seq::empty();
        let mut i: usize = self.raw_lines.len();
        proof {
            assert(full.take(i as int) =~= full);
            assert(rev_rows.deep_view() =~= Seq::<Seq<char>>::empty());
            assert(rev_rows.deep_view().reverse() =~= done);
            assert(newest_fill(full, x, y) =~= newest_fill(full.take(i as int), x, y) + done);
        }
        while i > 0 && rev_rows.len() < self.ysize
            invariant
                i <= self.raw_lines@.len(),
                full == self@.lines,
                rev_rows@.len() <= y,
                rev_rows@.len() == done.len(),
                rev_rows.deep_view().reverse() == done,
                newest_fill(full, x, y) == newest_fill(
                    full.take(i as int),
                    x,
                    (y - rev_rows@.len()) as nat,
                ) + done,
            decreases i,
        {
            let j = i - 1;
            let ghost budget = (y - rev_rows@.len()) as nat;
            let ghost pre_done = done;
            let line = &self.raw_lines[j];
            proof {
                assert(line@ == full[j as int]);
                assert(full.take(i as int).last() == full[j as int]);
                assert(full.take(i as int).drop_last() =~= full.take(j as int));
            }
            let ghost chunks_spec = line_chunks(full[j as int], x);
            let ghost kk: nat = if budget < chunks_spec.len() {
                budget
            } else {
                chunks_spec.len()
            };
            let ghost taken = chunks_spec.skip(chunks_spec.len() - kk);
            proof {
                assert(newest_fill(full.take(i as int), x, budget) == newest_fill(
                    full.take(j as int),
                    x,
                    (budget - kk) as nat,
                ) + taken);
            }
            let line_len = line.as_str().unicode_len();
            if line_len >= self.xsize {
                let chunks = self.split_into_sublines(line, self.xsize);
                proof {
                    assert(chunks_spec == chunks.deep_view());
                }
                let cn = chunks.len();
                let mut k: usize = self.ysize - rev_rows.len();
                if k > cn {
                    k = cn;
                }
                proof {
                    assert(k == kk);
                    assert(chunks_spec.subrange(cn as int, cn as int)
                        =~= Seq::<Seq<char>>::empty());
                    assert(done =~= chunks_spec.subrange(cn as int, cn as int) + pre_done);
                }
                let mut t: usize = 0;
                while t < k
                    invariant
                        t <= k,
                        k <= cn,
                        cn == chunks@.len(),
                        chunks_spec == chunks.deep_view(),
                        rev_rows@.len() == done.len(),
                        rev_rows@.len() <= y,
                        rev_rows.deep_view().reverse() == done,
                        done == chunks_spec.subrange(cn - t, cn as int) + pre_done,
                    decreases k - t,
                {
                    let idx = cn - 1 - t;
                    let ghost pre_deep = rev_rows.deep_view();
                    rev_rows.push(chunks[idx].clone());
                    proof {
                        assert(rev_rows.deep_view() =~= pre_deep.push(chunks_spec[idx as int]));
                        assert(rev_rows.deep_view().reverse() =~= seq![chunks_spec[idx as int]]
                            + pre_deep.reverse());
                        done = seq![chunks_spec[idx as int]] + done;
                        assert(done =~= chunks_spec.subrange(cn - t - 1, cn as int) + pre_done);
                    }
                    t += 1;
                }
                proof {
                    assert(chunks_spec.subrange(cn - kk, cn as int) =~= taken);
                    assert(done =~= taken + pre_done);
                }
            } else {
                proof {
                    assert(chunks_spec == seq![full[j as int]]);
                    assert(kk == 1);
                    assert(taken =~= seq![full[j as int]]);
                }
                let ghost pre_deep = rev_rows.deep_view();
                rev_rows.push(line.clone());
                proof {
                    assert(rev_rows.deep_view() =~= pre_deep.push(full[j as int]));
                    assert(rev_rows.deep_view().reverse() =~= seq![full[j as int]]
                        + pre_deep.reverse());
                    done = seq![full[j as int]] + done;
                    assert(done =~= taken + pre_done);
                }
            }
            proof {
                assert((newest_fill(full.take(j as int), x, (budget - kk) as nat) + taken)
                    + pre_done =~= newest_fill(full.take(j as int), x, (budget - kk) as nat)
                    + done);
                assert(budget - kk == y - rev_rows@.len());
                assert(newest_fill(full, x, y) == newest_fill(
                    full.take(j as int),
                    x,
                    (y - rev_rows@.len()) as nat,
                ) + done);
            }
            i = j;
        }
        proof {
            if i == 0 {
                assert(full.take(0) =~= Seq::<Seq<char>>::empty());
                assert(newest_fill(full.take(0), x, (y - rev_rows@.len()) as nat)
                    =~= Seq::<Seq<char>>::empty());
            }
            assert(newest_fill(full, x, y) =~= done);
        }
        let mut out: Vec<String> = Vec::new();
        let mut m: usize = rev_rows.len();
        proof {
            assert(out.deep_view() =~= done.take(0));
        }
        while m > 0
            invariant
                m <= rev_rows@.len(),
                m + out@.len() == rev_rows@.len(),
                rev_rows@.len() == done.len(),
                rev_rows.deep_view().reverse() == done,
                out.deep_view() == done.take(out@.len() as int),
            decreases m,
        {
            let ghost pre = out.deep_view();
            out.push(rev_rows[m - 1].clone());
            proof {
                assert(out.deep_view() =~= pre.push(rev_rows.deep_view()[m - 1]));
                assert(rev_rows.deep_view()[m - 1] == done[rev_rows@.len() - m]);
                assert(out.deep_view() =~= done.take(out@.len() as int));
            }
            m -= 1;
        }
        proof {
            assert(out.deep_view() =~= done);
        }
        out
    }

    /// The display rows joined with newlines, ready for a label.
    #[verifier::loop_isolation(false)]
    pub fn get_newest_formatted(&self) -> (r: String)
        ensures
            r@ == join_lines(newest_fill(self@.lines, self@.xsize, self@.ysize)),
    {
        let rows = self.get_newest();
        let ghost rows_d = rows.deep_view();
        let mut out = String::new();
        let mut i: usize = 0;
        proof {
            assert(rows_d.take(0) =~= Seq::<Seq<char>>::empty());
            assert(join_lines(rows_d.take(0)) =~= out@);
        }
        while i < rows.len()
            invariant
                i <= rows@.len(),
                rows_d == rows.deep_view(),
                out@ == join_lines(rows_d.take(i as int)),
            decreases rows@.len() - i,
        {
            if i > 0 {
                out.append("\n");
            }
            out.append(rows[i].as_str());
            proof {
                assert(rows_d.take(i + 1) =~= rows_d.take(i as int).push(rows_d[i as int]));
                lemma_join_lines_push(rows_d.take(i as int), rows_d[i as int]);
                assert(rows_d[i as int] == rows@[i as int]@);
                assert(out@ =~= join_lines(rows_d.take(i + 1)));
            }
            i += 1;
        }
        proof {
            assert(rows_d.take(rows@.len() as int) =~= rows_d);
        }
        out
    }

    /// How many raw lines are currently held; bounded by the height once
    /// `append` has trimmed.
    pub fn get_raw_buffer_capacity(&self) -> (r: usize)
        ensures
            r == self@.lines.len(),
    {
        self.raw_lines.len()
    }
}

} // verus!
