//! Converting every element of a vector at once.
use vstd::prelude::*;

verus! {

/// Converts each element of `v` with `D::from`, keeping the order.
pub fn convert_all<E, D: From<E>>(v: Vec<E>) -> (r: Vec<D>)
    ensures
        r@.len() == v@.len(),
        forall|i: int| 0 <= i < v@.len() ==> call_ensures(D::from, (v@[i],), #[trigger] r@[i]),
{
    let ghost orig = v@;
    let n = v.len();
    let mut src = v;
    let mut rev: Vec<D> = Vec::new();
    while src.len() > 0
        invariant
            orig.len() == n,
            src@.len() + rev@.len() == n,
            src@ == orig.take(src@.len() as int),
            forall|j: int|
                0 <= j < rev@.len() ==> call_ensures(D::from, (orig[n - 1 - j],), #[trigger] rev@[j]),
        decreases src@.len(),
    {
        let ghost k = src@.len();
        match src.pop() {
            Some(x) => {
                assert(x == orig[k - 1]);
                rev.push(D::from(x));
                assert(src@ =~= orig.take(src@.len() as int));
            },
            None => {},
        }
    }
    let mut out: Vec<D> = Vec::new();
    while rev.len() > 0
        invariant
            orig.len() == n,
            out@.len() + rev@.len() == n,
            forall|j: int|
                0 <= j < rev@.len() ==> call_ensures(D::from, (orig[n - 1 - j],), #[trigger] rev@[j]),
            forall|i: int| 0 <= i < out@.len() ==> call_ensures(D::from, (orig[i],), #[trigger] out@[i]),
        decreases rev@.len(),
    {
        let ghost k = rev@.len();
        let ghost before = rev@;
        match rev.pop() {
            Some(y) => {
                assert(y == before[k - 1]);
                assert(call_ensures(D::from, (orig[n - 1 - (k - 1)],), y));
                out.push(y);
                assert forall|j: int| 0 <= j < rev@.len() implies call_ensures(
                    D::from,
                    (orig[n - 1 - j],),
                    #[trigger] rev@[j],
                ) by {
                    assert(rev@[j] == before[j]);
                }
            },
            None => {},
        }
    }
    out
}

/// Conversion of a whole vector into a vector of another element type.
pub trait VecInto<D> {
    fn vec_into(self) -> Vec<D>;
}

impl<E, D: From<E>> VecInto<D> for Vec<E> {
    fn vec_into(self) -> Vec<D> {
        convert_all(self)
    }
}

} // verus!
