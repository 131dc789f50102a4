//! A sequence of values that grows at both ends.
use vstd::prelude::*;

verus! {

/// A value standing on its own, outside any list.
#[derive(Debug)]
pub struct Node<T> {
    pub data: T,
}

impl<T> Node<T> {
    pub fn new(data: T) -> (r: Self)
        ensures
            r.data == data,
    {
        Node { data }
    }
}

/// A sequence of values, first to last.
#[derive(Debug)]
pub struct List<T> {
    items: Vec<T>,
}

impl<T> View for List<T> {
    type V = Seq<T>;

    closed spec fn view(&self) -> Seq<T> {
        self.items@
    }
}

impl<T> List<T> {
    pub fn new() -> (r: Self)
        ensures
            r@ == Seq::<T>::empty(),
    {
        List { items: Vec::new() }
    }

    pub fn is_empty(&self) -> (r: bool)
        ensures
            r == (self@.len() == 0),
    {
        self.items.len() == 0
    }

    /// The number of values.
    pub fn size(&self) -> (r: usize)
        ensures
            r == self@.len(),
    {
        let mut size: usize = 0;
        while size < self.items.len()
            invariant
                size <= self.items@.len(),
            decreases self.items@.len() - size,
        {
            size += 1;
        }
        size
    }

    /// A copy of the first value, if there is one.
    pub fn first(&self) -> (r: Option<T>)
        where
            T: Clone,
        ensures
            r is None <==> self@.len() == 0,
            r matches Some(v) ==> cloned(self@[0], v),
    {
        if self.items.len() == 0 {
            None
        } else {
            Some(self.items[0].clone())
        }
    }

    /// A copy of the last value, if there is one.
    pub fn last(&self) -> (r: Option<T>)
        where
            T: Clone,
        ensures
            r is None <==> self@.len() == 0,
            r matches Some(v) ==> cloned(self@.last(), v),
    {
        let n = self.items.len();
        if n == 0 {
            None
        } else {
            Some(self.items[n - 1].clone())
        }
    }

    /// Adds a value after the last.
    pub fn append(&mut self, data: T)
        ensures
            final(self)@ == old(self)@.push(data),
    {
        self.items.push(data);
    }

    /// Adds a value before the first.
    pub fn prepend(&mut self, data: T)
        ensures
            final(self)@ == seq![data] + old(self)@,
    {
        self.items.insert(0, data);
        assert(self.items@ =~= seq![data] + old(self)@);
    }

    /// Takes out a node that stands on its own.  It has no neighbours, so the list
    /// is left with neither a first nor a last value: it is emptied.  The node's
    /// value comes back.
    pub fn remove(&mut self, node: Node<T>) -> (r: Option<T>)
        ensures
            r == Some(node.data),
            final(self)@ == Seq::<T>::empty(),
    {
        self.items.clear();
        Some(node.data)
    }

    /// Copies of the values, in order.
    pub fn to_vec(&self) -> (r: Vec<T>)
        where
            T: Clone,
        ensures
            r@.len() == self@.len(),
            forall|i: int| 0 <= i < self@.len() ==> cloned(self@[i], #[trigger] r@[i]),
    {
        let mut vec: Vec<T> = Vec::new();
        let mut i: usize = 0;
        while i < self.items.len()
            invariant
                i <= self.items@.len(),
                vec@.len() == i,
                forall|j: int| 0 <= j < i ==> cloned(self.items@[j], #[trigger] vec@[j]),
            decreases self.items@.len() - i,
        {
            vec.push(self.items[i].clone());
            i += 1;
        }
        vec
    }

    /// The list of the values of `vec`, in order.
    pub fn from_vec(vec: Vec<T>) -> (r: Self)
        ensures
            r@ == vec@,
    {
        let ghost all = vec@;
        let mut rest = vec;
        let mut list = List::new();
        while rest.len() > 0
            invariant
                rest@ == all.take(rest@.len() as int),
                list@ == all.skip(rest@.len() as int),
                rest@.len() <= all.len(),
            decreases rest@.len(),
        {
            let ghost before = rest@;
            let data = rest.pop().unwrap();
            proof {
                assert(before.len() > 0);
                assert(data == all[rest@.len() as int]);
                assert(rest@ =~= all.take(rest@.len() as int));
                assert(seq![data] + all.skip(before.len() as int) =~= all.skip(rest@.len() as int));
            }
            list.prepend(data);
        }
        assert(all.skip(0) =~= all);
        list
    }

    /// An iterator that hands the values out in order.
    pub fn into_iter(self) -> (r: ListIntoIterator<T>)
        ensures
            r@ == self@,
    {
        ListIntoIterator { list: self }
    }
}

/// A list made from a vector holds the vector's values in order.  Its size and
/// emptiness are the vector's; its first and last values, which `first` and
/// `last` clone, are the vector's first and last; and the values that `to_vec`
/// clones are the vector's, place by place.
pub proof fn from_vec_round_trip<T>(v: Seq<T>, list: List<T>)
    requires
        list@ == v,
    ensures
        list@.len() == v.len(),
        (list@.len() == 0) == (v.len() == 0),
        v.len() > 0 ==> list@[0] == v[0] && list@.last() == v.last(),
        forall|i: int| 0 <= i < v.len() ==> list@[i] == v[i],
{
}

/// The values of a list not yet handed out.
pub struct ListIntoIterator<T> {
    list: List<T>,
}

impl<T> View for ListIntoIterator<T> {
    type V = Seq<T>;

    closed spec fn view(&self) -> Seq<T> {
        self.list@
    }
}

impl<T> ListIntoIterator<T> {
    /// Hands out the first value left, if any.
    pub fn next(&mut self) -> (r: Option<T>)
        ensures
            old(self)@.len() == 0 ==> r is None && final(self)@ == old(self)@,
            old(self)@.len() > 0 ==> r == Some(old(self)@[0]) && final(self)@ == old(self)@.drop_first(),
    {
        if self.list.items.len() == 0 {
            None
        } else {
            let data = self.list.items.remove(0);
            assert(self.list.items@ =~= old(self)@.drop_first());
            Some(data)
        }
    }
}

} // verus!
