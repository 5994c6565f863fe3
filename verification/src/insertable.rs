use vstd::prelude::*;

verus! {

/// A pushback element source: a finite source of items that supports
/// splicing a whole sequence in front of whatever is still pending, so
/// that the spliced items are consumed before the rest. The macro engine
/// uses it to re-feed expansion output as fresh input (rescanning).
///
/// The view of the stream is the sequence of items still to be consumed,
/// front first.
pub struct InsertableIterator<T> {
    elems: Vec<T>,
}

impl<T> View for InsertableIterator<T> {
    type V = Seq<T>;

    closed spec fn view(&self) -> Seq<T> {
        self.elems@
    }
}

impl<T> InsertableIterator<T> {
    /// Builds a stream that yields the items of `source` in order.
    pub fn new(source: Vec<T>) -> (s: InsertableIterator<T>)
        ensures
            s@ == source@,
    {
        InsertableIterator { elems: source }
    }

    /// Splices `input` in front of everything still pending; the relative
    /// order of the inserted items is preserved.
    pub fn insert_elements(&mut self, input: Vec<T>)
        ensures
            final(self)@ == input@ + old(self)@,
    {
        let mut combined = input;
        combined.append(&mut self.elems);
        self.elems = combined;
    }

    /// Returns the next item without consuming it; `None` at exhaustion.
    pub fn peek(&self) -> (r: Option<&T>)
        ensures
            match r {
                Some(t) => self@.len() > 0 && *t == self@[0],
                None => self@.len() == 0,
            },
    {
        if self.elems.len() > 0 {
            Some(&self.elems[0])
        } else {
            None
        }
    }

    /// Consumes and returns the next item; `None` at exhaustion.
    pub fn next(&mut self) -> (r: Option<T>)
        ensures
            old(self)@.len() == 0 ==> r is None && final(self)@ == old(self)@,
            old(self)@.len() > 0 ==> r == Some(old(self)@[0]) && final(self)@ == old(self)@.skip(
                1,
            ),
    {
        if self.elems.len() > 0 {
            let e = self.elems.remove(0);
            assert(old(self)@.remove(0) =~= old(self)@.skip(1));
            Some(e)
        } else {
            None
        }
    }
}

impl InsertableIterator<char> {
    /// A copy of everything still pending, for diagnostics.
    pub fn remaining(&self) -> (r: Vec<char>)
        ensures
            r@ == self@,
    {
        crate::text::copy_text(&self.elems)
    }
}

impl<T> From<Vec<T>> for InsertableIterator<T> {
    fn from(source: Vec<T>) -> (s: Self)
        ensures
            s@ == source@,
    {
        InsertableIterator { elems: source }
    }
}

impl<T> vstd::std_specs::convert::FromSpecImpl<Vec<T>> for InsertableIterator<T> {
    open spec fn obeys_from_spec() -> bool {
        true
    }

    closed spec fn from_spec(source: Vec<T>) -> Self {
        InsertableIterator { elems: source }
    }
}

} // verus!
