use vstd::prelude::*;
use crate::error::ErrorKind;

verus! {

/// Where `n` consecutive items starting at `pos` end, or the first error met;
/// `item` gives, for a start position, where one item ends.
pub open spec fn spec_items(pos: int, n: nat, item: spec_fn(int) -> Result<int, ErrorKind>) -> Result<int, ErrorKind>
    decreases n,
{
    if n == 0 {
        Ok(pos)
    } else {
        match item(pos) {
            Err(e) => Err(e),
            Ok(p) => spec_items(p, (n - 1) as nat, item),
        }
    }
}

/// `v` are the consecutive items from `pos`: each one satisfies `at` at its
/// start position, and the next starts where `item` says it ends.
pub open spec fn items_at<T>(
    v: Seq<T>,
    pos: int,
    item: spec_fn(int) -> Result<int, ErrorKind>,
    at: spec_fn(T, int) -> bool,
) -> bool
    decreases v.len(),
{
    if v.len() == 0 {
        true
    } else {
        &&& at(v[0], pos)
        &&& match item(pos) {
            Ok(p) => items_at(v.drop_first(), p, item, at),
            Err(_) => false,
        }
    }
}

/// The loop step of a list decoder: once the items `v` from `pos0` are
/// followed by `x` at `pos`, what follows `x` completes `v.push(x)`.
pub proof fn lemma_items_step<T>(
    v: Seq<T>,
    x: T,
    pos0: int,
    pos: int,
    p: int,
    item: spec_fn(int) -> Result<int, ErrorKind>,
    at: spec_fn(T, int) -> bool,
)
    requires
        forall|w: Seq<T>| items_at(w, pos, item, at) ==> #[trigger] items_at(v + w, pos0, item, at),
        at(x, pos),
        item(pos) == Ok::<int, ErrorKind>(p),
    ensures
        forall|w: Seq<T>| items_at(w, p, item, at) ==> #[trigger] items_at(v.push(x) + w, pos0, item, at),
{
    assert forall|w: Seq<T>| items_at(w, p, item, at) implies #[trigger] items_at(v.push(x) + w, pos0, item, at) by {
        let y = seq![x] + w;
        assert(y.drop_first() =~= w);
        assert(items_at(y, pos, item, at));
        assert(v + y =~= v.push(x) + w);
    }
}

/// The loop start of a list decoder.
pub proof fn lemma_items_start<T>(pos: int, item: spec_fn(int) -> Result<int, ErrorKind>, at: spec_fn(T, int) -> bool)
    ensures
        forall|w: Seq<T>| items_at(w, pos, item, at) ==> #[trigger] items_at(Seq::<T>::empty() + w, pos, item, at),
{
    assert forall|w: Seq<T>| items_at(w, pos, item, at) implies #[trigger] items_at(Seq::<T>::empty() + w, pos, item, at) by {
        assert(Seq::<T>::empty() + w =~= w);
    }
}

/// The loop end of a list decoder.
pub proof fn lemma_items_end<T>(v: Seq<T>, pos0: int, p: int, item: spec_fn(int) -> Result<int, ErrorKind>, at: spec_fn(T, int) -> bool)
    requires
        forall|w: Seq<T>| items_at(w, p, item, at) ==> #[trigger] items_at(v + w, pos0, item, at),
    ensures
        items_at(v, pos0, item, at),
{
    assert(items_at(Seq::<T>::empty(), p, item, at));
    assert(v + Seq::<T>::empty() =~= v);
}

} // verus!
