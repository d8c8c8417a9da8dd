use vstd::prelude::*;

verus! {

/// The pairs of an element of `a` and an element of `b`, in order: `a[0]` with each element
/// of `b`, then `a[1]`, and so on.
pub struct Permutation<'a, T> {
    a: &'a [T],
    b: &'a [T],
    a_pos: usize,
    b_pos: usize,
}

impl<'a, T> Permutation<'a, T> {
    pub closed spec fn firsts(&self) -> Seq<T> {
        self.a@
    }

    pub closed spec fn seconds(&self) -> Seq<T> {
        self.b@
    }

    /// How many pairs have been returned: the position in `a` and in `b` of the next pair,
    /// with `b`'s position at its end once a row is done.
    pub closed spec fn state(&self) -> (int, int) {
        (self.a_pos as int, self.b_pos as int)
    }

    pub open spec fn wf(&self) -> bool {
        &&& 0 <= self.state().0 <= self.firsts().len()
        &&& 0 <= self.state().1 <= self.seconds().len()
        &&& self.state().0 == self.firsts().len() ==> self.state().1 == 0
    }

    pub fn new(a: &'a [T], b: &'a [T]) -> (r: Self)
        ensures
            r.wf(),
            r.firsts() == a@,
            r.seconds() == b@,
            r.state() == (0int, 0int),
    {
        Self { a, b, a_pos: 0, b_pos: 0 }
    }

    /// The next pair, or `None` when every pair has been returned.
    pub fn next(&mut self) -> (r: Option<(&'a T, &'a T)>)
        requires
            old(self).wf(),
        ensures
            final(self).wf(),
            final(self).firsts() == old(self).firsts(),
            final(self).seconds() == old(self).seconds(),
            ({
                let (i, j) = if old(self).state().1 == old(self).seconds().len() {
                    (old(self).state().0 + 1, 0int)
                } else {
                    old(self).state()
                };
                if old(self).seconds().len() == 0 || i >= old(self).firsts().len() {
                    r is None
                } else {
                    r matches Some((x, y)) && *x == old(self).firsts()[i] && *y == old(
                        self,
                    ).seconds()[j] && final(self).state() == (i, j + 1)
                }
            }),
    {
        if self.b.len() == 0 {
            return None;
        }
        if self.b_pos == self.b.len() {
            if self.a_pos >= self.a.len() {
                return None;
            }
            self.a_pos = self.a_pos + 1;
            self.b_pos = 0;
        }
        if self.a_pos >= self.a.len() {
            return None;
        }
        self.b_pos = self.b_pos + 1;
        let a: &'a [T] = self.a;
        let b: &'a [T] = self.b;
        Some((&a[self.a_pos], &b[self.b_pos - 1]))
    }
}

} // verus!
