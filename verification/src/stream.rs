//! Cutting the output of a running command into report lines as it
//! arrives: a line ends at `'\n'` or `'\r'`, is trimmed, and is reported
//! only when something is left.
use vstd::prelude::*;
use crate::text::{chars_of, opt_view, slice_of, string_of, trim, trim_range};

verus! {

/// Lines completed by `chunk` after the pending text `acc`, and the text
/// left pending.
pub open spec fn split_output(acc: Seq<char>, chunk: Seq<char>) -> (Seq<Seq<char>>, Seq<char>)
    decreases chunk.len(),
{
    if chunk.len() == 0 {
        (seq![], acc)
    } else {
        let prev = split_output(acc, chunk.drop_last());
        let c = chunk.last();
        if c == '\n' || c == '\r' {
            (
                if trim(prev.1).len() > 0 {
                    prev.0.push(trim(prev.1))
                } else {
                    prev.0
                },
                seq![],
            )
        } else {
            (prev.0, prev.1.push(c))
        }
    }
}

/// The last line once the output ended, if anything is left of it.
pub open spec fn final_line(acc: Seq<char>) -> Option<Seq<char>> {
    if trim(acc).len() > 0 {
        Some(trim(acc))
    } else {
        None
    }
}

/// Pending text of a command's output that has not reached a line end.
pub struct LineSplitter {
    acc: String,
}

impl View for LineSplitter {
    type V = Seq<char>;

    closed spec fn view(&self) -> Seq<char> {
        self.acc@
    }
}

/// The trimmed text of `s`, if any.
fn trimmed_nonempty(s: &String) -> (r: Option<String>)
    ensures
        match r {
            Some(t) => trim(s@).len() > 0 && t@ == trim(s@),
            None => trim(s@).len() == 0,
        },
{
    let cs = chars_of(s.as_str());
    let (x, y) = trim_range(&cs, 0, cs.len());
    proof {
        assert(cs@.subrange(0, cs.len() as int) =~= cs@);
    }
    if x < y {
        Some(string_of(slice_of(s.as_str(), x, y)))
    } else {
        None
    }
}

impl LineSplitter {
    pub fn new() -> (r: LineSplitter)
        ensures
            r@ == Seq::<char>::empty(),
    {
        LineSplitter { acc: String::new() }
    }

    /// Takes the next piece of output; gives the lines it completes.
    pub fn feed(&mut self, chunk: &str) -> (r: Vec<String>)
        ensures
            r.deep_view() == split_output(old(self)@, chunk@).0,
            final(self)@ == split_output(old(self)@, chunk@).1,
    {
        let ghost acc0 = self.acc@;
        let cs = chars_of(chunk);
        let mut out: Vec<String> = Vec::new();
        let mut seg: usize = 0;
        let mut i: usize = 0;
        proof {
            assert(chunk@.take(0) =~= Seq::<char>::empty());
            assert(out.deep_view() =~= Seq::<Seq<char>>::empty());
            assert(cs@.subrange(0, 0) =~= Seq::<char>::empty());
            assert(self.acc@ + Seq::<char>::empty() =~= self.acc@);
        }
        while i < cs.len()
            invariant
                cs@ == chunk@,
                seg <= i <= cs.len(),
                out.deep_view() == split_output(acc0, chunk@.take(i as int)).0,
                self.acc@ + cs@.subrange(seg as int, i as int) == split_output(
                    acc0,
                    chunk@.take(i as int),
                ).1,
            decreases cs.len() - i,
        {
            let c = cs[i];
            proof {
                assert(chunk@.take(i + 1).drop_last() =~= chunk@.take(i as int));
                assert(chunk@.take(i + 1).last() == c);
            }
            if c == '\n' || c == '\r' {
                self.acc.append(slice_of(chunk, seg, i));
                let t = trimmed_nonempty(&self.acc);
                match t {
                    Some(line) => {
                        let ghost before = out.deep_view();
                        out.push(line);
                        proof {
                            assert(out.deep_view() =~= before.push(trim(self.acc@)));
                        }
                    },
                    None => {},
                }
                self.acc = String::new();
                seg = i + 1;
                proof {
                    assert(self.acc@ + cs@.subrange(seg as int, i + 1) =~= Seq::<char>::empty());
                }
            } else {
                proof {
                    assert(cs@.subrange(seg as int, i + 1) =~= cs@.subrange(seg as int, i as int).push(
                        c,
                    ));
                    assert(self.acc@ + cs@.subrange(seg as int, i + 1) =~= (self.acc@ + cs@.subrange(
                        seg as int,
                        i as int,
                    )).push(c));
                }
            }
            i = i + 1;
        }
        self.acc.append(slice_of(chunk, seg, cs.len()));
        proof {
            assert(chunk@.take(cs.len() as int) =~= chunk@);
        }
        out
    }

    /// The output ended: gives the last line, if anything is left of it.
    pub fn finish(&self) -> (r: Option<String>)
        ensures
            opt_view(r) == final_line(self@),
    {
        trimmed_nonempty(&self.acc)
    }
}

/// Splitting does not depend on how the output is cut into pieces: feeding
/// `c1` then `c2` completes the same lines, and leaves the same text
/// pending, as feeding `c1 + c2` at once.
pub proof fn law_split_output_chunking(acc: Seq<char>, c1: Seq<char>, c2: Seq<char>)
    ensures
        split_output(acc, c1 + c2) == ({
            let r1 = split_output(acc, c1);
            let r2 = split_output(r1.1, c2);
            (r1.0 + r2.0, r2.1)
        }),
    decreases c2.len(),
{
    let r1 = split_output(acc, c1);
    if c2.len() == 0 {
        assert(c1 + c2 =~= c1);
        assert(r1.0 + Seq::<Seq<char>>::empty() =~= r1.0);
    } else {
        law_split_output_chunking(acc, c1, c2.drop_last());
        assert((c1 + c2).drop_last() =~= c1 + c2.drop_last());
        assert((c1 + c2).last() == c2.last());
        let r2p = split_output(r1.1, c2.drop_last());
        let c = c2.last();
        if c == '\n' || c == '\r' {
            if trim(r2p.1).len() > 0 {
                assert((r1.0 + r2p.0).push(trim(r2p.1)) =~= r1.0 + r2p.0.push(trim(r2p.1)));
            }
        }
    }
}

} // verus!
