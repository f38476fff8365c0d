use vstd::prelude::*;

verus! {

/// Creates a fresh owned string and moves it out to the caller.
pub fn gives_ownership() -> (s: String)
    ensures
        s@ == "from function"@,
{
    String::from_str("from function")
}

/// Takes ownership of `s` and moves it straight back to the caller.
pub fn takes_and_gives_back(s: String) -> (r: String)
    ensures
        r == s,
{
    s
}

/// A user record whose fields own their strings.
pub struct User {
    pub name: String,
    pub email: String,
}

impl User {
    /// Builds a new record with the given name, moving every other field out
    /// of `self` (struct update syntax); the old name is not moved into the
    /// new record and comes back to the caller alongside it.
    pub fn with_name(self, name: String) -> (r: (User, String))
        ensures
            r.0.name == name,
            r.0.email == self.email,
            r.1 == self.name,
    {
        let User { name: old_name, email } = self;
        (User { name, email }, old_name)
    }
}

/// A point whose coordinates are owned strings; one field can be moved out
/// while the other stays usable.
pub struct Point {
    pub x: String,
    pub y: String,
}

/// Two vectors of integers: `y` collects the squares of the elements of `x`.
#[derive(Debug)]
pub struct XY {
    pub x: Vec<i32>,
    pub y: Vec<i32>,
}

/// The element-wise squares of `x`.
pub open spec fn squares(x: Seq<i32>) -> Seq<int> {
    Seq::new(x.len(), |i: int| x[i] * x[i])
}

/// Each entry of `squares(x)` is the matching element of `x` times itself,
/// and so is never negative.
pub proof fn lemma_squares_are_squares(x: Seq<i32>)
    ensures
        squares(x).len() == x.len(),
        forall|i: int| 0 <= i < x.len() ==> #[trigger] squares(x)[i] == x[i] * x[i],
        forall|i: int| 0 <= i < x.len() ==> #[trigger] squares(x)[i] >= 0,
{
    assert forall|i: int| 0 <= i < x.len() implies #[trigger] squares(x)[i] >= 0 by {
        let e = x[i];
        assert(e * e >= 0) by (nonlinear_arith);
    }
}

impl XY {
    /// Appends to `y` the square of `x[i]`, leaving `x` as it was.
    pub fn push_square_of(&mut self, i: usize)
        requires
            i < old(self).x.len(),
            old(self).x[i as int] * old(self).x[i as int] <= i32::MAX,
        ensures
            final(self).x@ == old(self).x@,
            final(self).y@ == old(self).y@.push(
                (old(self).x[i as int] * old(self).x[i as int]) as i32,
            ),
    {
        let e = self.x[i];
        assert(e * e >= 0) by (nonlinear_arith);
        self.y.push(e * e);
    }

    /// Appends to `y` the square of each element of `x`, in order, while
    /// `x` itself is only read.
    pub fn push_squares(&mut self)
        requires
            forall|i: int| 0 <= i < old(self).x.len() ==> #[trigger] old(self).x[i] * old(self).x[i] <= i32::MAX,
        ensures
            final(self).x@ == old(self).x@,
            final(self).y@.len() == old(self).y@.len() + old(self).x@.len(),
            final(self).y@.subrange(0, old(self).y@.len() as int) == old(self).y@,
            forall|i: int| 0 <= i < old(self).x@.len() ==>
                #[trigger] final(self).y@[old(self).y@.len() + i] == squares(old(self).x@)[i],
            forall|i: int| 0 <= i < old(self).x@.len() ==>
                #[trigger] final(self).y@[old(self).y@.len() + i] == old(self).x@[i] * old(self).x@[i],
    {
        let n = self.x.len();
        let ghost y0 = self.y@;
        let ghost x0 = self.x@;
        for i in 0..n
            invariant
                n == x0.len(),
                self.x@ == x0,
                forall|j: int| 0 <= j < x0.len() ==> #[trigger] x0[j] * x0[j] <= i32::MAX,
                self.y@.len() == y0.len() + i,
                self.y@.subrange(0, y0.len() as int) == y0,
                forall|j: int| 0 <= j < i ==> #[trigger] self.y@[y0.len() + j] == squares(x0)[j],
        {
            let ghost e = x0[i as int];
            assert(e * e <= i32::MAX);
            assert(e * e >= 0) by (nonlinear_arith);
            self.push_square_of(i);
            assert(self.y@[y0.len() + i] == squares(x0)[i as int]);
        }
    }
}

/// Doubles its argument.
pub fn func(a: i32) -> (r: i32)
    requires
        i32::MIN <= 2 * a <= i32::MAX,
    ensures
        r == 2 * a,
{
    a * 2
}

/// Calls a shared-borrowing closure once on `x` and returns what it returns.
pub fn call_fn<F: Fn(i32) -> i32>(f: F, x: i32) -> (r: i32)
    requires
        f.requires((x,)),
    ensures
        f.ensures((x,), r),
{
    f(x)
}

/// Calls a mutably-borrowing closure once on `x` and returns what it returns.
pub fn call_fn_mut<F: FnMut(i32) -> i32>(mut f: F, x: i32) -> (r: i32)
    requires
        f.requires((x,)),
    ensures
        f.ensures((x,), r),
{
    f(x)
}

/// Consumes a closure by calling it once on `x`, and returns what it returns.
pub fn call_fn_once<F: FnOnce(i32) -> i32>(f: F, x: i32) -> (r: i32)
    requires
        f.requires((x,)),
    ensures
        f.ensures((x,), r),
{
    f(x)
}

} // verus!
