use vstd::prelude::*;

verus! {

/// A group of stencils drawn together, in order: later parts are drawn on top
/// of earlier ones.
#[derive(Debug)]
pub struct CombineStencil<P, T, X>(pub Vec<Stencil<P, T, X>>);

/// A drawing, as a tree. The leaves are outlines (`P`) and texts (`T`); the
/// inner nodes are groups and transformed copies (`X` is the transform, the flag
/// says whether the vertical axis is flipped). The geometry of leaves and
/// transforms is the caller's: this tree decides only how drawings are combined.
#[derive(Debug)]
pub enum Stencil<P, T, X> {
    Path(P),
    Text(T),
    Combine(CombineStencil<P, T, X>),
    TranslateScale(X, bool, Box<Stencil<P, T, X>>),
}

impl<P, T, X> Stencil<P, T, X> {
    /// The parts that this stencil contributes when it is combined with another:
    /// the members of a group, or the stencil itself.
    pub open spec fn parts(self) -> Seq<Stencil<P, T, X>> {
        match self {
            Stencil::Combine(c) => c.0@,
            _ => seq![self],
        }
    }

    /// The parts of `a.and(b)`, in drawing order. A group on the left keeps its
    /// members first; a single stencil on the left of a group is drawn after (on
    /// top of) the group's members.
    pub open spec fn and_parts(a: Self, b: Self) -> Seq<Stencil<P, T, X>> {
        if !(a is Combine) && b is Combine {
            b.parts().push(a)
        } else {
            a.parts() + b.parts()
        }
    }

    /// A group of the given stencils.
    pub fn combine(stencils: Vec<Self>) -> (res: Self)
        ensures
            res == Stencil::Combine(CombineStencil(stencils)),
    {
        Stencil::Combine(CombineStencil(stencils))
    }

    /// Draws `self` and `other` together. Groups are flattened by one level: the
    /// result is always a group, whose members are the parts of both operands.
    pub fn and(self, other: Self) -> (res: Self)
        ensures
            res is Combine,
            res.parts() == Self::and_parts(self, other),
            self is Combine && other is Combine ==> res.parts() == self.parts() + other.parts(),
            self is Combine && !(other is Combine) ==> res.parts() == self.parts().push(other),
            !(self is Combine) && other is Combine ==> res.parts() == other.parts().push(self),
            !(self is Combine) && !(other is Combine) ==> res.parts() == seq![self, other],
    {
        match self {
            Stencil::Combine(CombineStencil(mut mine)) => match other {
                Stencil::Combine(CombineStencil(mut theirs)) => {
                    mine.append(&mut theirs);
                    Stencil::Combine(CombineStencil(mine))
                },
                other => {
                    mine.push(other);
                    Stencil::Combine(CombineStencil(mine))
                },
            },
            me => match other {
                Stencil::Combine(CombineStencil(mut stencils)) => {
                    stencils.push(me);
                    Stencil::Combine(CombineStencil(stencils))
                },
                other => Stencil::Combine(CombineStencil(vec![me, other])),
            },
        }
    }
}

impl<P: Clone, T: Clone, X: Clone> Stencil<P, T, X> {
    /// `b` is a copy of `a`: the same tree, node for node, with the same flip
    /// flags and group sizes, and every leaf and transform a clone of the one in
    /// `a`.
    pub open spec fn copies(a: Self, b: Self) -> bool
        decreases a,
    {
        match a {
            Stencil::Path(p) => b matches Stencil::Path(q) && cloned(p, q),
            Stencil::Text(t) => b matches Stencil::Text(u) && cloned(t, u),
            Stencil::TranslateScale(x, f, c) => b matches Stencil::TranslateScale(y, g, d)
                && cloned(x, y) && f == g && Self::copies(*c, *d),
            Stencil::Combine(ca) => b matches Stencil::Combine(cb) && ca.0@.len() == cb.0@.len()
                && forall|i: int|
                0 <= i < ca.0@.len() ==> Self::copies(#[trigger] ca.0@[i], cb.0@[i]),
        }
    }
}

impl<P: Clone, T: Clone, X: Clone> Clone for Stencil<P, T, X> {
    /// A copy of the whole tree, cloning every leaf and transform.
    fn clone(&self) -> (res: Self)
        ensures
            Self::copies(*self, res),
            self is Path ==> res is Path,
            self is Text ==> res is Text,
            self is Combine ==> res is Combine && res.parts().len() == self.parts().len(),
            self matches Stencil::TranslateScale(x, f, c) ==> res matches Stencil::TranslateScale(
                y,
                g,
                d,
            ) && g == f && cloned(*x, y),
        decreases self,
    {
        match self {
            Stencil::Path(p) => Stencil::Path(p.clone()),
            Stencil::Text(t) => Stencil::Text(t.clone()),
            Stencil::Combine(CombineStencil(parts)) => {
                let mut copy: Vec<Self> = Vec::with_capacity(parts.len());
                let mut i: usize = 0;
                while i < parts.len()
                    invariant
                        i <= parts.len(),
                        *self == Stencil::Combine(CombineStencil(*parts)),
                        copy@.len() == i,
                        forall|j: int| 0 <= j < i ==> Self::copies(#[trigger] parts@[j], copy@[j]),
                    decreases parts.len() - i,
                {
                    proof {
                        let c = (*self)->Combine_0;
                        assert(decreases_to!(*self => (*self)->Combine_0));
                        assert(decreases_to!(c => c.0));
                        assert(decreases_to!(c.0 => c.0@));
                        assert(decreases_to!(c.0@ => c.0@[i as int]));
                    }
                    copy.push(parts[i].clone());
                    i = i + 1;
                }
                Stencil::Combine(CombineStencil(copy))
            },
            Stencil::TranslateScale(x, flip, child) => Stencil::TranslateScale(
                x.clone(),
                *flip,
                Box::new((**child).clone()),
            ),
        }
    }
}

impl<P: Clone, T: Clone, X: Clone> Clone for CombineStencil<P, T, X> {
    /// A copy of every member, in order.
    fn clone(&self) -> (res: Self)
        ensures
            res.0@.len() == self.0@.len(),
            forall|i: int|
                0 <= i < self.0@.len() ==> Stencil::copies(#[trigger] self.0@[i], res.0@[i]),
    {
        let mut copy: Vec<Stencil<P, T, X>> = Vec::with_capacity(self.0.len());
        let mut i: usize = 0;
        while i < self.0.len()
            invariant
                i <= self.0.len(),
                copy@.len() == i,
                forall|j: int| 0 <= j < i ==> Stencil::copies(#[trigger] self.0@[j], copy@[j]),
            decreases self.0.len() - i,
        {
            copy.push(self.0[i].clone());
            i = i + 1;
        }
        CombineStencil(copy)
    }
}

impl<P, T, X> Default for Stencil<P, T, X> {
    /// The empty drawing: a group with no members.
    fn default() -> (res: Self)
        ensures
            res is Combine,
            res.parts() == Seq::<Stencil<P, T, X>>::empty(),
    {
        Stencil::Combine(CombineStencil(Vec::new()))
    }
}

/// Combining never loses or duplicates a part: the parts of `a.and(b)` are,
/// counted with multiplicity, the parts of `a` together with the parts of `b`.
pub proof fn lemma_and_keeps_every_part<P, T, X>(a: Stencil<P, T, X>, b: Stencil<P, T, X>)
    ensures
        Stencil::and_parts(a, b).to_multiset() =~= a.parts().to_multiset().add(
            b.parts().to_multiset(),
        ),
        Stencil::and_parts(a, b).len() == a.parts().len() + b.parts().len(),
{
    broadcast use vstd::seq_lib::group_to_multiset_ensures;
    broadcast use vstd::multiset::group_multiset_axioms;

    vstd::seq_lib::lemma_multiset_commutative(a.parts(), b.parts());
    if !(a is Combine) && b is Combine {
        vstd::seq_lib::lemma_multiset_commutative(b.parts(), a.parts());
        assert(b.parts().push(a) =~= b.parts() + a.parts());
    }
}

/// The empty drawing is neutral for `and` on either side: combining with it
/// gives exactly the parts of the other operand, in their order.
pub proof fn lemma_empty_is_neutral<P, T, X>(e: Stencil<P, T, X>, s: Stencil<P, T, X>)
    requires
        e is Combine,
        e.parts().len() == 0,
    ensures
        Stencil::and_parts(e, s) == s.parts(),
        Stencil::and_parts(s, e) == s.parts(),
{
    assert(Stencil::and_parts(e, s) =~= s.parts());
    assert(Stencil::and_parts(s, e) =~= s.parts());
}

/// `and` is associative up to drawing order: `(a and b) and c` and
/// `a and (b and c)` hold the same parts, counted with multiplicity.
pub proof fn lemma_and_associative_parts<P, T, X>(
    a: Stencil<P, T, X>,
    b: Stencil<P, T, X>,
    c: Stencil<P, T, X>,
    ab: Stencil<P, T, X>,
    bc: Stencil<P, T, X>,
)
    requires
        ab is Combine,
        ab.parts() == Stencil::and_parts(a, b),
        bc is Combine,
        bc.parts() == Stencil::and_parts(b, c),
    ensures
        Stencil::and_parts(ab, c).to_multiset() =~= Stencil::and_parts(a, bc).to_multiset(),
{
    broadcast use vstd::multiset::group_multiset_axioms;

    lemma_and_keeps_every_part(a, b);
    lemma_and_keeps_every_part(b, c);
    lemma_and_keeps_every_part(ab, c);
    lemma_and_keeps_every_part(a, bc);
    let ma = a.parts().to_multiset();
    let mb = b.parts().to_multiset();
    let mc = c.parts().to_multiset();
    assert(ma.add(mb).add(mc) =~= ma.add(mb.add(mc)));
}

/// The tree holds no group: a leaf, or transforms around a leaf.
pub open spec fn holds_no_group<P, T, X>(s: Stencil<P, T, X>) -> bool
    decreases s,
{
    match s {
        Stencil::Combine(_) => false,
        Stencil::TranslateScale(_, _, c) => holds_no_group(*c),
        _ => true,
    }
}

/// When the leaves and transforms clone to equal values, a copy of a tree
/// without groups is that same tree: same leaves, same transforms, same flip
/// flags.
pub proof fn lemma_copy_of_plain_tree_is_equal<P: Clone, T: Clone, X: Clone>(
    a: Stencil<P, T, X>,
    b: Stencil<P, T, X>,
)
    requires
        forall|p: P, q: P| #[trigger] cloned(p, q) ==> p == q,
        forall|t: T, u: T| #[trigger] cloned(t, u) ==> t == u,
        forall|x: X, y: X| #[trigger] cloned(x, y) ==> x == y,
        holds_no_group(a),
        Stencil::copies(a, b),
    ensures
        a == b,
    decreases a,
{
    match a {
        Stencil::TranslateScale(x, f, c) => {
            let d = b->TranslateScale_2;
            lemma_copy_of_plain_tree_is_equal(*c, *d);
        },
        _ => {},
    }
}

/// What `and` draws, case by case, in drawing order: two groups give the
/// members of the left one, then those of the right one; a group and a single
/// stencil give the group's members, then the single stencil (whichever side it
/// was on); two single stencils give the left one, then the right one.
pub proof fn lemma_and_drawing_order<P, T, X>(a: Stencil<P, T, X>, b: Stencil<P, T, X>)
    ensures
        a is Combine && b is Combine ==> Stencil::and_parts(a, b) == a->Combine_0.0@ + b->Combine_0.0@,
        a is Combine && !(b is Combine) ==> Stencil::and_parts(a, b) == a->Combine_0.0@.push(b),
        !(a is Combine) && b is Combine ==> Stencil::and_parts(a, b) == b->Combine_0.0@.push(a),
        !(a is Combine) && !(b is Combine) ==> Stencil::and_parts(a, b) == seq![a, b],
        Stencil::and_parts(a, b).len() == a.parts().len() + b.parts().len(),
{
    if !(a is Combine) && !(b is Combine) {
        assert(seq![a] + seq![b] =~= seq![a, b]);
    }
    if a is Combine && !(b is Combine) {
        assert(a.parts() + seq![b] =~= a.parts().push(b));
    }
}

} // verus!
