//! Cutting a byte stream into lines.
use vstd::prelude::*;

verus! {

pub const NEWLINE: u8 = 10;

/// The bytes of `lines`, each followed by a line break.
pub open spec fn framed(lines: Seq<Seq<u8>>) -> Seq<u8>
    decreases lines.len(),
{
    if lines.len() == 0 {
        Seq::empty()
    } else {
        framed(lines.drop_last()) + lines.last() + seq![NEWLINE]
    }
}

pub open spec fn has_no_newline(b: Seq<u8>) -> bool {
    forall|i: int| 0 <= i < b.len() ==> b[i] != NEWLINE
}

/// The views of a list of byte lines.
pub open spec fn lines_view(lines: Seq<Vec<u8>>) -> Seq<Seq<u8>> {
    lines.map_values(|l: Vec<u8>| l@)
}

/// The text received so far that does not yet end in a line break.
pub struct LineBuffer {
    pending: Vec<u8>,
}

impl View for LineBuffer {
    type V = Seq<u8>;

    closed spec fn view(&self) -> Seq<u8> {
        self.pending@
    }
}

fn copy_range(v: &Vec<u8>, from: usize, to: usize) -> (r: Vec<u8>)
    requires
        from <= to <= v@.len(),
    ensures
        r@ == v@.subrange(from as int, to as int),
{
    let mut r: Vec<u8> = Vec::new();
    let mut i: usize = from;
    while i < to
        invariant
            from <= i <= to <= v@.len(),
            r@ == v@.subrange(from as int, i as int),
        decreases to - i,
    {
        r.push(v[i]);
        i = i + 1;
    }
    r
}

impl LineBuffer {
    pub open spec fn wf(&self) -> bool {
        has_no_newline(self@)
    }

    pub fn new() -> (r: LineBuffer)
        ensures
            r@ == Seq::<u8>::empty(),
            r.wf(),
    {
        LineBuffer { pending: Vec::new() }
    }

    /// Takes in the next chunk of the stream and hands out, in order, every
    /// line that it completes, without their line breaks. What follows the
    /// last line break stays for the next chunk.
    pub fn feed(&mut self, chunk: &[u8]) -> (r: Vec<Vec<u8>>)
        requires
            old(self).wf(),
        ensures
            final(self).wf(),
            framed(lines_view(r@)) + final(self)@ == old(self)@ + chunk@,
            forall|i: int| 0 <= i < r@.len() ==> has_no_newline(#[trigger] r@[i]@),
    {
        let mut all: Vec<u8> = Vec::new();
        all.append(&mut self.pending);
        let mut j: usize = 0;
        while j < chunk.len()
            invariant
                j <= chunk@.len(),
                all@ == old(self)@ + chunk@.subrange(0, j as int),
            decreases chunk@.len() - j,
        {
            all.push(chunk[j]);
            j = j + 1;
        }
        let mut lines: Vec<Vec<u8>> = Vec::new();
        let mut start: usize = 0;
        let mut i: usize = 0;
        while i < all.len()
            invariant
                start <= i <= all@.len(),
                framed(lines_view(lines@)) == all@.subrange(0, start as int),
                forall|x: int| 0 <= x < lines@.len() ==> has_no_newline(#[trigger] lines@[x]@),
                forall|x: int| start <= x < i ==> all@[x] != NEWLINE,
            decreases all@.len() - i,
        {
            if all[i] == NEWLINE {
                let line = copy_range(&all, start, i);
                let ghost before = lines@;
                lines.push(line);
                proof {
                    assert(lines_view(lines@).drop_last() =~= lines_view(before));
                    assert(all@.subrange(0, i + 1) =~= all@.subrange(0, start as int)
                        + all@.subrange(start as int, i as int) + seq![NEWLINE]);
                }
                start = i + 1;
            }
            i = i + 1;
        }
        self.pending = copy_range(&all, start, all.len());
        assert(all@ =~= all@.subrange(0, start as int) + self.pending@);
        lines
    }
}

/// Text cuts into complete lines and an unfinished rest in one way only:
/// the lines and the rest that `feed` hands out are the only ones that fit.
pub proof fn lemma_lines_unique(a: Seq<Seq<u8>>, ra: Seq<u8>, b: Seq<Seq<u8>>, rb: Seq<u8>)
    requires
        forall|i: int| 0 <= i < a.len() ==> has_no_newline(#[trigger] a[i]),
        forall|i: int| 0 <= i < b.len() ==> has_no_newline(#[trigger] b[i]),
        has_no_newline(ra),
        has_no_newline(rb),
        framed(a) + ra == framed(b) + rb,
    ensures
        a == b,
        ra == rb,
    decreases a.len() + b.len(),
{
    let s = framed(a) + ra;
    let fa = framed(a).len() as int;
    let fb = framed(b).len() as int;
    if a.len() > 0 {
        assert(framed(a)[fa - 1] == NEWLINE);
        assert(s[fa - 1] == NEWLINE);
    }
    if b.len() > 0 {
        assert(framed(b)[fb - 1] == NEWLINE);
        assert(s[fb - 1] == NEWLINE);
    }
    let t = framed(b) + rb;
    assert(s == t);
    assert(s.len() == fa + ra.len());
    assert(t.len() == fb + rb.len());
    if a.len() > 0 && fa > fb {
        assert(t[fa - 1] == rb[fa - 1 - fb]);
    }
    if b.len() > 0 && fb > fa {
        assert(t[fb - 1] == NEWLINE);
        assert(s[fb - 1] == ra[fb - 1 - fa]);
    }
    if a.len() == 0 && b.len() > 0 {
        assert(s[fb - 1] == ra[fb - 1]);
    }
    if b.len() == 0 && a.len() > 0 {
        assert(t[fa - 1] == rb[fa - 1]);
    }
    assert(fa == fb);
    assert(framed(a) =~= s.subrange(0, fa));
    assert(framed(b) =~= s.subrange(0, fb));
    assert(ra =~= s.subrange(fa, s.len() as int));
    assert(rb =~= s.subrange(fb, s.len() as int));
    if a.len() > 0 {
        let a1 = a.drop_last();
        let b1 = b.drop_last();
        assert(framed(a1) + a.last() =~= framed(a).drop_last());
        assert(framed(b1) + b.last() =~= framed(b).drop_last());
        assert(has_no_newline(a[a.len() - 1]));
        assert(has_no_newline(b[b.len() - 1]));
        lemma_lines_unique(a1, a.last(), b1, b.last());
        assert(a =~= a1.push(a.last()));
        assert(b =~= b1.push(b.last()));
    } else {
        assert(a =~= b);
    }
}

proof fn lemma_framed_concat(x: Seq<Seq<u8>>, y: Seq<Seq<u8>>)
    ensures
        framed(x + y) == framed(x) + framed(y),
    decreases y.len(),
{
    if y.len() == 0 {
        assert(x + y =~= x);
        assert(framed(x) + framed(y) =~= framed(x));
    } else {
        assert((x + y).drop_last() =~= x + y.drop_last());
        assert((x + y).last() == y.last());
        lemma_framed_concat(x, y.drop_last());
        assert(framed(x + y) =~= framed(x) + framed(y));
    }
}

/// Where a read ends makes no difference: the lines cut from `p + c1` and
/// then from what was left plus `c2` are the lines cut from `p + c1 + c2`,
/// with the same rest.
pub proof fn lemma_reads_join(
    p: Seq<u8>,
    c1: Seq<u8>,
    c2: Seq<u8>,
    l1: Seq<Seq<u8>>,
    r1: Seq<u8>,
    l2: Seq<Seq<u8>>,
    r2: Seq<u8>,
    l: Seq<Seq<u8>>,
    r: Seq<u8>,
)
    requires
        forall|i: int| 0 <= i < l1.len() ==> has_no_newline(#[trigger] l1[i]),
        forall|i: int| 0 <= i < l2.len() ==> has_no_newline(#[trigger] l2[i]),
        forall|i: int| 0 <= i < l.len() ==> has_no_newline(#[trigger] l[i]),
        has_no_newline(r1),
        has_no_newline(r2),
        has_no_newline(r),
        framed(l1) + r1 == p + c1,
        framed(l2) + r2 == r1 + c2,
        framed(l) + r == p + c1 + c2,
    ensures
        l == l1 + l2,
        r == r2,
{
    lemma_framed_concat(l1, l2);
    assert(framed(l1) + framed(l2) + r2 =~= framed(l1) + (framed(l2) + r2));
    assert(framed(l1) + (r1 + c2) =~= (framed(l1) + r1) + c2);
    assert(framed(l1 + l2) + r2 =~= p + c1 + c2);
    assert forall|i: int| 0 <= i < (l1 + l2).len() implies has_no_newline(#[trigger] (l1 + l2)[i]) by {
        if i >= l1.len() {
            assert((l1 + l2)[i] == l2[i - l1.len()]);
        }
    }
    lemma_lines_unique(l, r, l1 + l2, r2);
}

} // verus!
