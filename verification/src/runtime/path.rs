//! Paths of annotated items, such as `crate::module::function`.

use vstd::prelude::*;

use crate::text::{const_str_equal, join_with, path_sep};

verus! {

/// The views of a sequence of string slices.
pub open spec fn str_views(v: Seq<&'static str>) -> Seq<Seq<char>> {
    v.map_values(|s: &'static str| s@)
}

/// The pieces of `s` between the `::` separators, with `cur` in front of the
/// first, scanning from the left as `str::split("::")` does.
pub open spec fn split_from(s: Seq<char>, cur: Seq<char>) -> Seq<Seq<char>>
    decreases s.len(),
{
    if s.len() == 0 {
        seq![cur]
    } else if s.len() >= 2 && s[0] == ':' && s[1] == ':' {
        seq![cur] + split_from(s.skip(2), seq![])
    } else {
        split_from(s.skip(1), cur.push(s[0]))
    }
}

/// The pieces of `s` between the `::` separators, as `str::split("::")` gives them.
pub open spec fn split_path(s: Seq<char>) -> Seq<Seq<char>> {
    split_from(s, seq![])
}

/// The path of an annotated item: its segments, outermost first.
#[derive(Debug)]
pub struct Path(pub(crate) Vec<&'static str>);

impl View for Path {
    type V = Seq<Seq<char>>;

    closed spec fn view(&self) -> Seq<Seq<char>> {
        str_views(self.0@)
    }
}

impl Path {
    /// A path of the given segments.
    pub fn new(segments: Vec<&'static str>) -> (p: Self)
        ensures
            p@ == str_views(segments@),
    {
        Path(segments)
    }

    /// The segments, outermost first.
    pub fn segments(&self) -> (r: &[&'static str])
        ensures
            str_views(r@) == self@,
    {
        self.0.as_slice()
    }

    /// The number of segments.
    pub fn len(&self) -> (r: usize)
        ensures
            r == self@.len(),
    {
        self.0.len()
    }

    /// Whether the path has no segment.
    pub fn is_empty(&self) -> (r: bool)
        ensures
            r == (self@.len() == 0),
    {
        self.0.len() == 0
    }

    /// The outermost segment.
    pub fn root(&self) -> (r: &'static str)
        requires
            self@.len() > 0,
        ensures
            r@ == self@[0],
    {
        self.0[0]
    }

    /// The innermost segment, if there is one.
    pub fn last(&self) -> (r: Option<&'static str>)
        ensures
            self@.len() == 0 ==> r is None,
            self@.len() > 0 ==> (r matches Some(s) && s@ == self@.last()),
    {
        let len = self.0.len();
        if len == 0 {
            None
        } else {
            Some(self.0[len - 1])
        }
    }

    /// The path without its innermost segment; the empty path for the empty path.
    pub fn all_but_last(&self) -> (r: Self)
        ensures
            self@.len() == 0 ==> r@ == self@,
            self@.len() > 0 ==> r@ == self@.drop_last(),
    {
        let len = self.0.len();
        let mut v: Vec<&'static str> = Vec::new();
        if len == 0 {
            return Path(v);
        }
        let mut i: usize = 0;
        while i < len - 1
            invariant
                len == self.0@.len(),
                len > 0,
                i <= len - 1,
                v@ == self.0@.take(i as int),
            decreases len - 1 - i,
        {
            v.push(self.0[i]);
            assert(self.0@.take(i + 1) =~= self.0@.take(i as int).push(self.0@[i as int]));
            i = i + 1;
        }
        assert(str_views(v@) =~= self@.drop_last());
        Path(v)
    }

    /// The segments joined by `::`.
    pub fn to_text(&self) -> (r: String)
        ensures
            r@ == join_with(self@, path_sep()),
    {
        let mut r = String::new();
        let ghost vs = self@;
        let mut i: usize = 0;
        while i < self.0.len()
            invariant
                0 <= i <= self.0@.len(),
                vs == self@,
                vs == str_views(self.0@),
                r@ == join_with(vs.take(i as int), path_sep()),
            decreases self.0.len() - i,
        {
            let ghost before = r@;
            if i != 0 {
                r.append("::");
                proof {
                    reveal_strlit("::");
                }
            }
            r.append(self.0[i]);
            proof {
                let t = vs.take(i + 1);
                assert(t.drop_last() =~= vs.take(i as int));
                if i == 0 {
                    assert(before =~= seq![]);
                    assert(r@ =~= t[0]);
                } else {
                    assert("::"@ =~= path_sep());
                }
            }
            i = i + 1;
        }
        assert(vs.take(self.0.len() as int) =~= vs);
        r
    }

    /// Whether `other`, split at its `::` separators, gives this path's segments.
    pub fn eq_str(&self, other: &str) -> (r: bool)
        ensures
            r == (split_path(other@) == self@),
    {
        let n = other.unicode_len();
        let mut piece = String::new();
        let mut count: usize = 0;
        let mut i: usize = 0;
        let ghost segs = self@;
        assert(other@.skip(0) =~= other@);
        while i < n
            invariant
                n == other@.len(),
                i <= n,
                segs == self@,
                count <= segs.len(),
                split_path(other@) == segs.take(count as int) + split_from(other@.skip(i as int), piece@),
            decreases n - i,
        {
            let c = other.get_char(i);
            let ghost rest = other@.skip(i as int);
            if c == ':' && i + 1 < n && other.get_char(i + 1) == ':' {
                if count >= self.0.len() || !const_str_equal(piece.as_str(), self.0[count]) {
                    proof {
                        assert(split_from(rest, piece@) == seq![piece@] + split_from(rest.skip(2), seq![]));
                        let s = split_path(other@);
                        if s == segs {
                            assert(s[count as int] == piece@);
                        }
                    }
                    return false;
                }
                proof {
                    assert(rest.skip(2) =~= other@.skip(i + 2));
                    assert(split_from(rest, piece@) == seq![piece@] + split_from(rest.skip(2), seq![]));
                    assert(segs.take(count as int) + seq![piece@] =~= segs.take(count + 1));
                }
                piece = String::new();
                count = count + 1;
                i = i + 2;
            } else {
                proof {
                    assert(rest.skip(1) =~= other@.skip(i + 1));
                }
                crate::trusted::push_char(&mut piece, c);
                i = i + 1;
            }
        }
        proof {
            assert(other@.skip(n as int) =~= seq![]);
        }
        let r = count < self.0.len() && count == self.0.len() - 1 && const_str_equal(piece.as_str(), self.0[count]);
        proof {
            let s = split_path(other@);
            assert(s == segs.take(count as int) + seq![piece@]);
            if r {
                assert(s =~= segs);
            } else if s == segs {
                assert(s.len() == count + 1);
                assert(s[count as int] == piece@);
            }
        }
        r
    }

    /// Whether two paths have the same segments.
    pub fn equals(&self, other: &Path) -> (r: bool)
        ensures
            r == (self@ == other@),
    {
        if self.0.len() != other.0.len() {
            return false;
        }
        let mut i: usize = 0;
        while i < self.0.len()
            invariant
                i <= self.0@.len(),
                self.0@.len() == other.0@.len(),
                forall|j: int| 0 <= j < i ==> self.0@[j]@ == other.0@[j]@,
            decreases self.0.len() - i,
        {
            if !const_str_equal(self.0[i], other.0[i]) {
                assert(self@[i as int] == self.0@[i as int]@);
                assert(other@[i as int] == other.0@[i as int]@);
                assert(self@[i as int] != other@[i as int]);
                return false;
            }
            i = i + 1;
        }
        assert forall|j: int| 0 <= j < self@.len() implies self@[j] == other@[j] by {
            assert(self@[j] == self.0@[j]@);
            assert(other@[j] == other.0@[j]@);
        }
        assert(self@ =~= other@);
        true
    }

    /// A copy of this path.
    pub fn duplicate(&self) -> (r: Self)
        ensures
            r@ == self@,
    {
        let mut v: Vec<&'static str> = Vec::new();
        let mut i: usize = 0;
        while i < self.0.len()
            invariant
                i <= self.0@.len(),
                v@ == self.0@.take(i as int),
            decreases self.0.len() - i,
        {
            v.push(self.0[i]);
            assert(self.0@.take(i + 1) =~= self.0@.take(i as int).push(self.0@[i as int]));
            i = i + 1;
        }
        assert(self.0@.take(i as int) =~= self.0@);
        Path(v)
    }
}

impl PartialEq<str> for Path {
    fn eq(&self, other: &str) -> (r: bool) {
        self.eq_str(other)
    }
}

impl vstd::std_specs::cmp::PartialEqSpecImpl<str> for Path {
    open spec fn obeys_eq_spec() -> bool {
        true
    }

    open spec fn eq_spec(&self, other: &str) -> bool {
        split_path(other@) == self@
    }
}

impl PartialEq for Path {
    fn eq(&self, other: &Path) -> (r: bool) {
        self.equals(other)
    }
}

impl vstd::std_specs::cmp::PartialEqSpecImpl for Path {
    open spec fn obeys_eq_spec() -> bool {
        true
    }

    open spec fn eq_spec(&self, other: &Path) -> bool {
        self@ == other@
    }
}

/// Whether no segment holds a `:`, as no Rust identifier does.
pub open spec fn colon_free(segs: Seq<Seq<char>>) -> bool {
    forall|i: int, j: int| 0 <= i < segs.len() && 0 <= j < segs[i].len() ==> segs[i][j] != ':'
}

proof fn lemma_split_plain_prefix(x: Seq<char>, y: Seq<char>, cur: Seq<char>)
    requires
        forall|j: int| 0 <= j < x.len() ==> x[j] != ':',
    ensures
        split_from(x + y, cur) == split_from(y, cur + x),
    decreases x.len(),
{
    if x.len() == 0 {
        assert(x + y =~= y);
        assert(cur + x =~= cur);
    } else {
        assert((x + y)[0] == x[0]);
        assert((x + y).skip(1) =~= x.skip(1) + y);
        lemma_split_plain_prefix(x.skip(1), y, cur.push(x[0]));
        assert(cur.push(x[0]) + x.skip(1) =~= cur + x);
    }
}

proof fn lemma_join_front(segs: Seq<Seq<char>>)
    requires
        segs.len() >= 2,
    ensures
        join_with(segs, path_sep()) == segs[0] + path_sep() + join_with(segs.skip(1), path_sep()),
    decreases segs.len(),
{
    if segs.len() == 2 {
        assert(segs.drop_last() =~= seq![segs[0]]);
        assert(segs.skip(1) =~= seq![segs[1]]);
        assert(join_with(segs.drop_last(), path_sep()) == segs[0]);
        assert(join_with(segs.skip(1), path_sep()) == segs[1]);
        assert(segs.last() == segs[1]);
    } else {
        let sep = path_sep();
        lemma_join_front(segs.drop_last());
        assert(segs.drop_last().skip(1) =~= segs.skip(1).drop_last());
        assert(segs.drop_last()[0] == segs[0]);
        assert(segs.skip(1).last() == segs.last());
        let a = join_with(segs.skip(1).drop_last(), sep);
        assert(join_with(segs.skip(1), sep) == a + sep + segs.last());
        assert(join_with(segs, sep) == join_with(segs.drop_last(), sep) + sep + segs.last());
        assert(join_with(segs.drop_last(), sep) == segs[0] + sep + a);
        assert((segs[0] + sep + a) + sep + segs.last() =~= segs[0] + sep + (a + sep + segs.last()));
    }
}

/// Displaying a path and splitting the text at its `::` separators gives
/// the path back, for a non-empty path whose segments hold no `:`.
pub proof fn lemma_split_join(segs: Seq<Seq<char>>)
    requires
        segs.len() >= 1,
        colon_free(segs),
    ensures
        split_path(join_with(segs, path_sep())) == segs,
    decreases segs.len(),
{
    let e: Seq<char> = seq![];
    if segs.len() == 1 {
        lemma_split_plain_prefix(segs[0], e, e);
        assert(segs[0] + e =~= segs[0]);
        assert(e + segs[0] =~= segs[0]);
        assert(seq![segs[0]] =~= segs);
    } else {
        lemma_join_front(segs);
        let rest = join_with(segs.skip(1), path_sep());
        assert forall|i: int, j: int| 0 <= i < segs.skip(1).len() && 0 <= j < segs.skip(1)[i].len() implies segs.skip(1)[i][j] != ':' by {
            assert(segs.skip(1)[i] == segs[i + 1]);
        }
        lemma_split_join(segs.skip(1));
        assert(segs[0] + path_sep() + rest =~= segs[0] + (path_sep() + rest));
        lemma_split_plain_prefix(segs[0], path_sep() + rest, e);
        assert(e + segs[0] =~= segs[0]);
        let t = path_sep() + rest;
        assert(t.skip(2) =~= rest);
        assert(split_from(t, segs[0]) == seq![segs[0]] + split_from(rest, e));
        assert(seq![segs[0]] + segs.skip(1) =~= segs);
    }
}

} // verus!
