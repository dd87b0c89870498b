//! Files touched by the tool calls of an evicted history.

use vstd::prelude::*;
use crate::text::strs;
use crate::sanitize::contains_string;

verus! {

/// Paths read, written and edited, each listed once in first-seen order.
pub struct FileOps {
    pub read: Vec<String>,
    pub written: Vec<String>,
    pub edited: Vec<String>,
}

/// Mathematical view of [`FileOps`].
pub ghost struct FileOpsV {
    pub read: Seq<Seq<char>>,
    pub written: Seq<Seq<char>>,
    pub edited: Seq<Seq<char>>,
}

impl View for FileOps {
    type V = FileOpsV;

    open spec fn view(&self) -> FileOpsV {
        FileOpsV { read: strs(self.read@), written: strs(self.written@), edited: strs(self.edited@) }
    }
}

/// `s` with `x` added at the end unless already present (set insertion).
pub open spec fn ins(s: Seq<Seq<char>>, x: Seq<char>) -> Seq<Seq<char>> {
    if s.contains(x) {
        s
    } else {
        s.push(x)
    }
}

/// The empty record.
pub open spec fn no_ops() -> FileOpsV {
    FileOpsV { read: Seq::empty(), written: Seq::empty(), edited: Seq::empty() }
}

/// `a` followed by the entries of `b` that `a` lacks.
pub open spec fn union_seq(a: Seq<Seq<char>>, b: Seq<Seq<char>>) -> Seq<Seq<char>>
    decreases b.len(),
{
    if b.len() == 0 {
        a
    } else {
        ins(union_seq(a, b.drop_last()), b.last())
    }
}

/// The entries of `a` that `b` lacks, in order.
pub open spec fn minus_seq(a: Seq<Seq<char>>, b: Seq<Seq<char>>) -> Seq<Seq<char>>
    decreases a.len(),
{
    if a.len() == 0 {
        Seq::empty()
    } else if b.contains(a.last()) {
        minus_seq(a.drop_last(), b)
    } else {
        minus_seq(a.drop_last(), b).push(a.last())
    }
}

/// Adds `s` to `list` unless an equal string is already there.
pub fn insert_unique(list: &mut Vec<String>, s: String)
    ensures
        strs(final(list)@) == ins(strs(old(list)@), s@),
{
    if !contains_string(list, &s) {
        let ghost prev = list@;
        list.push(s);
        proof {
            assert(strs(list@) =~= strs(prev).push(s@));
        }
    }
}

pub fn copy_strings(v: &[String]) -> (r: Vec<String>)
    ensures
        strs(r@) == strs(v@),
{
    let mut r: Vec<String> = Vec::new();
    let mut i: usize = 0;
    while i < v.len()
        invariant
            i <= v@.len(),
            strs(r@) == strs(v@.take(i as int)),
        decreases v@.len() - i,
    {
        r.push(v[i].clone());
        proof {
            assert(strs(v@.take(i + 1)) =~= strs(v@.take(i as int)).push(v@[i as int]@));
        }
        i = i + 1;
    }
    proof {
        assert(v@.take(v@.len() as int) =~= v@);
    }
    r
}

impl FileOps {
    pub fn new() -> (r: FileOps)
        ensures
            r@ == no_ops(),
    {
        let r = FileOps { read: Vec::new(), written: Vec::new(), edited: Vec::new() };
        proof {
            assert(r@.read =~= Seq::<Seq<char>>::empty());
            assert(r@.written =~= Seq::<Seq<char>>::empty());
            assert(r@.edited =~= Seq::<Seq<char>>::empty());
        }
        r
    }

    pub fn copy(&self) -> (r: FileOps)
        ensures
            r@ == self@,
    {
        FileOps {
            read: copy_strings(&self.read),
            written: copy_strings(&self.written),
            edited: copy_strings(&self.edited),
        }
    }

    /// Paths edited or written: the edited ones first, then written ones not
    /// edited.
    pub fn modified(&self) -> (r: Vec<String>)
        ensures
            strs(r@) == union_seq(self@.edited, self@.written),
    {
        let mut r = copy_strings(&self.edited);
        let mut i: usize = 0;
        while i < self.written.len()
            invariant
                i <= self.written@.len(),
                strs(r@) == union_seq(self@.edited, strs(self.written@.take(i as int))),
            decreases self.written@.len() - i,
        {
            proof {
                assert(strs(self.written@.take(i + 1)).drop_last() =~= strs(self.written@.take(i as int)));
                assert(strs(self.written@.take(i + 1)).last() == self.written@[i as int]@);
            }
            insert_unique(&mut r, self.written[i].clone());
            i = i + 1;
        }
        proof {
            assert(self.written@.take(self.written@.len() as int) =~= self.written@);
        }
        r
    }

    /// Paths only read: read and neither edited nor written.
    pub fn read_only(&self) -> (r: Vec<String>)
        ensures
            strs(r@) == minus_seq(self@.read, union_seq(self@.edited, self@.written)),
    {
        let modified = self.modified();
        let mut r: Vec<String> = Vec::new();
        let mut i: usize = 0;
        while i < self.read.len()
            invariant
                i <= self.read@.len(),
                strs(r@) == minus_seq(strs(self.read@.take(i as int)), strs(modified@)),
            decreases self.read@.len() - i,
        {
            proof {
                assert(strs(self.read@.take(i + 1)).drop_last() =~= strs(self.read@.take(i as int)));
                assert(strs(self.read@.take(i + 1)).last() == self.read@[i as int]@);
            }
            if !contains_string(&modified, &self.read[i]) {
                let ghost prev = r@;
                r.push(self.read[i].clone());
                proof {
                    assert(strs(r@) =~= strs(prev).push(self.read@[i as int]@));
                }
            }
            i = i + 1;
        }
        proof {
            assert(self.read@.take(self.read@.len() as int) =~= self.read@);
        }
        r
    }
}

} // verus!
