//! An iterator-like queue over a fixed item list that lets a consumer
//! push items back to be handed out again before the remaining input.

use vstd::prelude::*;

verus! {

/// Hands out the items of a list front to back; items pushed back line
/// up after earlier pushed-back items and before the remaining input.
pub struct PushBackIterator<T> {
    buffered: Vec<T>,
    rest: Vec<T>,
}

impl<T> View for PushBackIterator<T> {
    type V = Seq<T>;

    closed spec fn view(&self) -> Seq<T> {
        self.buffered@ + self.rest@
    }
}

impl<T> PushBackIterator<T> {
    /// How many pushed-back items wait in front of the remaining input.
    pub closed spec fn buffered_count(&self) -> nat {
        self.buffered@.len()
    }

    /// Starts handing out `items`, front to back.
    pub fn new(items: Vec<T>) -> (r: PushBackIterator<T>)
        ensures
            r@ == items@,
            r.buffered_count() == 0,
    {
        let r = PushBackIterator { buffered: Vec::new(), rest: items };
        proof {
            assert(r@ =~= r.rest@);
        }
        r
    }

    /// The next item: the oldest pushed-back item if any wait, else the
    /// next input item, else nothing.
    pub fn next(&mut self) -> (r: Option<T>)
        ensures
            match r {
                Some(t) => old(self)@.len() > 0 && t == old(self)@[0]
                    && final(self)@ == old(self)@.drop_first(),
                None => old(self)@.len() == 0 && final(self)@ == old(self)@,
            },
    {
        if self.buffered.len() > 0 {
            let t = self.buffered.remove(0);
            proof {
                assert(final(self)@ =~= old(self)@.drop_first());
            }
            Some(t)
        } else if self.rest.len() > 0 {
            let t = self.rest.remove(0);
            proof {
                assert(final(self)@ =~= old(self)@.drop_first());
            }
            Some(t)
        } else {
            proof {
                assert(final(self)@ =~= old(self)@);
            }
            None
        }
    }

    /// Returns an item to the iterator: it will come out again after
    /// the items already pushed back and before the remaining input.
    pub fn push_back(&mut self, t: T)
        ensures
            final(self)@ == old(self)@.insert(old(self).buffered_count() as int, t),
            final(self).buffered_count() == old(self).buffered_count() + 1,
    {
        self.buffered.push(t);
        proof {
            assert(final(self)@
                =~= old(self)@.insert(old(self).buffered_count() as int, t));
        }
    }
}

} // verus!
