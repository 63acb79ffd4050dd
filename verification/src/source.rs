//! The line source: standard input, or an ordered list of file paths read
//! as one logical stream.
//!
//! Reading bytes is I/O and lives outside the library.  What is verified
//! here is the schedule: which file is opened next.  The list is consumed
//! from its last element to its first — a deliberate contract of this
//! pipeline, not an accident — and every path is opened exactly once.

use vstd::prelude::*;

verus! {

/// A sequence reversed.
pub open spec fn rev(s: Seq<Seq<char>>) -> Seq<Seq<char>> {
    Seq::new(s.len(), |i: int| s[s.len() - 1 - i])
}

/// The verified schedule over a path list: which path to open next, and
/// the history of paths handed out.
pub struct FileSchedule {
    remaining: Vec<String>,
    opened: Ghost<Seq<Seq<char>>>,
    original: Ghost<Seq<Seq<char>>>,
}

impl FileSchedule {
    /// The paths not yet handed out, in list order.
    pub closed spec fn remaining_seq(self) -> Seq<Seq<char>> {
        self.remaining@.map_values(|p: String| p@)
    }

    /// The paths handed out so far, in the order they were handed out.
    pub closed spec fn opened_seq(self) -> Seq<Seq<char>> {
        self.opened@
    }

    /// The path list the schedule was built from.
    pub closed spec fn original_seq(self) -> Seq<Seq<char>> {
        self.original@
    }

    /// What was handed out, reversed, follows what remains: no path is
    /// dropped, duplicated, or reordered.
    pub open spec fn wf(self) -> bool {
        self.remaining_seq() + rev(self.opened_seq()) == self.original_seq()
    }

    pub fn new(paths: Vec<String>) -> (r: FileSchedule)
        ensures
            r.wf(),
            r.original_seq() == paths@.map_values(|p: String| p@),
            r.opened_seq() =~= Seq::<Seq<char>>::empty(),
            r.remaining_seq() == paths@.map_values(|p: String| p@),
    {
        let ghost view = paths@.map_values(|p: String| p@);
        let r = FileSchedule { remaining: paths, opened: Ghost(Seq::empty()), original: Ghost(view) };
        proof {
            assert(rev(r.opened_seq()) =~= Seq::<Seq<char>>::empty());
            assert(r.remaining_seq() + rev(r.opened_seq()) =~= r.remaining_seq());
        }
        r
    }

    /// Hands the next path out: the last of the remaining list, or `None`
    /// when every path has been consumed.
    pub fn next_path(&mut self) -> (r: Option<String>)
        requires
            old(self).wf(),
        ensures
            final(self).wf(),
            final(self).original_seq() == old(self).original_seq(),
            match r {
                None => old(self).remaining_seq().len() == 0 && final(self).remaining_seq()
                    == old(self).remaining_seq() && final(self).opened_seq() == old(
                    self,
                ).opened_seq(),
                Some(p) => old(self).remaining_seq().len() > 0 && p@ == old(
                    self,
                ).remaining_seq().last() && final(self).remaining_seq() == old(
                    self,
                ).remaining_seq().drop_last() && final(self).opened_seq() == old(
                    self,
                ).opened_seq().push(p@),
            },
    {
        let ghost pre = *self;
        match self.remaining.pop() {
            None => None,
            Some(p) => {
                proof {
                    self.opened@ = pre.opened_seq().push(p@);
                }
                proof {
                    assert(final(self).remaining_seq() =~= pre.remaining_seq().drop_last());
                    let a = final(self).remaining_seq();
                    let b = rev(final(self).opened_seq());
                    let n = pre.remaining_seq().len() as int;
                    assert(b[0] == p@);
                    assert forall|i: int| 0 <= i < (a + b).len() implies (a + b)[i]
                        == pre.original_seq()[i] by {
                        if i < a.len() {
                            assert((pre.remaining_seq() + rev(pre.opened_seq()))[i] == pre
                                .original_seq()[i]);
                        } else if i == a.len() {
                            assert((a + b)[i] == p@);
                            assert(pre.remaining_seq()[n - 1] == p@);
                            assert((pre.remaining_seq() + rev(pre.opened_seq()))[n - 1] == pre
                                .original_seq()[n - 1]);
                        } else {
                            assert((a + b)[i] == b[i - a.len()]);
                            assert(b[i - a.len()] == rev(pre.opened_seq())[i - a.len() - 1]);
                            assert((pre.remaining_seq() + rev(pre.opened_seq()))[i] == pre
                                .original_seq()[i]);
                        }
                    }
                    assert(final(self).wf()) by {
                        assert((a + b).len() == pre.original_seq().len());
                        assert(a + b =~= pre.original_seq());
                    }
                }
                Some(p)
            },
        }
    }

    /// Whether any path is still pending.
    pub fn is_done(&self) -> (r: bool)
        ensures
            r == (self.remaining_seq().len() == 0),
    {
        self.remaining.len() == 0
    }
}

/// The consumption order is last-to-first: at any point of a run, the
/// k-th path handed out is the k-th from the end of the original list; in
/// particular, when the schedule is exhausted, the paths were opened in
/// exactly the reverse of the list order.
pub proof fn lemma_open_order(s: FileSchedule)
    requires
        s.wf(),
    ensures
        forall|j: int| 0 <= j < s.opened_seq().len() ==> s.opened_seq()[j] == s.original_seq()[
            s.original_seq().len() - 1 - j
        ],
        s.remaining_seq().len() == 0 ==> s.opened_seq() =~= rev(s.original_seq()),
{
    let a = s.remaining_seq();
    let b = s.opened_seq();
    let o = s.original_seq();
    assert forall|j: int| 0 <= j < b.len() implies b[j] == o[o.len() - 1 - j] by {
        assert((a + rev(b))[a.len() + (b.len() - 1 - j)] == rev(b)[b.len() - 1 - j]);
        assert(rev(b)[b.len() - 1 - j] == b[j]);
    }
}

/// The line source of a run: the console, or a scheduled file sequence.
pub enum Input {
    /// Standard input, one line at a time until end of stream.
    Console,
    /// An ordered list of file paths, consumed last to first.
    FileSequence(FileSchedule),
}

impl Input {
    /// Builds the source the way the original path list selects it: an
    /// empty list means the console, a non-empty list a file sequence.
    pub fn from_paths(paths: Vec<String>) -> (r: Input)
        ensures
            paths@.len() == 0 ==> r is Console,
            paths@.len() > 0 ==> (r matches Input::FileSequence(s) && s.wf() && s.original_seq()
                == paths@.map_values(|p: String| p@) && s.opened_seq().len() == 0),
    {
        if paths.len() == 0 {
            Input::Console
        } else {
            Input::FileSequence(FileSchedule::new(paths))
        }
    }
}

} // verus!
