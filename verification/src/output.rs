use vstd::prelude::*;

verus! {

use crate::text::copy_text;
use crate::text::texts_equal;

/// One named output buffer.
pub struct OutputEntry {
    pub name: Vec<char>,
    pub text: Vec<char>,
}

/// The index of the entry named `name`, or `None`. Entries are searched
/// newest first; `Outputs` never creates a second entry for a name, so at
/// most one can match.
pub open spec fn out_lookup(es: Seq<OutputEntry>, name: Seq<char>) -> Option<int>
    decreases es.len(),
{
    if es.len() == 0 {
        None
    } else if es.last().name@ == name {
        Some(es.len() - 1)
    } else {
        out_lookup(es.drop_last(), name)
    }
}

/// Named output buffers, keyed by buffer name. A buffer that was never
/// written reads as empty; the first write to a name creates its entry.
pub struct Outputs {
    pub entries: Vec<OutputEntry>,
}

proof fn lemma_out_lookup_valid(es: Seq<OutputEntry>, name: Seq<char>)
    requires
        out_lookup(es, name) is Some,
    ensures
        0 <= out_lookup(es, name).unwrap() < es.len(),
        es[out_lookup(es, name).unwrap()].name@ == name,
    decreases es.len(),
{
    if es.len() > 0 && es.last().name@ != name {
        lemma_out_lookup_valid(es.drop_last(), name);
    }
}

/// Replacing the text (not the name) of one entry moves no name's
/// resolution.
proof fn lemma_out_lookup_same_names(a: Seq<OutputEntry>, b: Seq<OutputEntry>, n: Seq<char>)
    requires
        a.len() == b.len(),
        forall|j: int| 0 <= j < a.len() ==> a[j].name@ == #[trigger] b[j].name@,
    ensures
        out_lookup(a, n) == out_lookup(b, n),
    decreases a.len(),
{
    if a.len() > 0 {
        assert(forall|j: int|
            0 <= j < a.len() - 1 ==> a.drop_last()[j].name@ == #[trigger] b.drop_last()[j].name@);
        lemma_out_lookup_same_names(a.drop_last(), b.drop_last(), n);
    }
}

impl Outputs {
    /// The accumulated text of the buffer named `name` (empty when the
    /// buffer was never written).
    pub open spec fn spec_text(&self, name: Seq<char>) -> Seq<char> {
        match out_lookup(self.entries@, name) {
            Some(i) => self.entries@[i].text@,
            None => Seq::empty(),
        }
    }

    pub fn new() -> (o: Outputs)
        ensures
            o.entries@.len() == 0,
            forall|n: Seq<char>| #[trigger] o.spec_text(n) == Seq::<char>::empty(),
    {
        Outputs { entries: Vec::new() }
    }

    fn find_entry(&self, name: &Vec<char>) -> (r: Option<usize>)
        ensures
            match r {
                Some(i) => out_lookup(self.entries@, name@) == Some(i as int) && i
                    < self.entries@.len(),
                None => out_lookup(self.entries@, name@) is None,
            },
    {
        let mut i: usize = self.entries.len();
        assert(self.entries@.take(self.entries@.len() as int) =~= self.entries@);
        while i > 0
            invariant
                i <= self.entries@.len(),
                out_lookup(self.entries@, name@) == out_lookup(
                    self.entries@.take(i as int),
                    name@,
                ),
            decreases i,
        {
            if texts_equal(&self.entries[i - 1].name, name) {
                assert(self.entries@.take(i as int).last() == self.entries@[i - 1]);
                return Some(i - 1);
            }
            assert(self.entries@.take(i as int).drop_last() =~= self.entries@.take(i - 1));
            i -= 1;
        }
        assert(self.entries@.take(0) =~= Seq::<OutputEntry>::empty());
        None
    }

    /// Appends `t` to the buffer named `name`, creating it when absent.
    pub fn append_text(&mut self, name: &Vec<char>, t: &Vec<char>)
        ensures
            final(self).spec_text(name@) == old(self).spec_text(name@) + t@,
            forall|m: Seq<char>|
                m != name@ ==> #[trigger] final(self).spec_text(m) == old(self).spec_text(m),
    {
        match self.find_entry(name) {
            Some(i) => {
                proof {
                    lemma_out_lookup_valid(self.entries@, name@);
                }
                let e = vstd::std_specs::vec::vec_index_mut(&mut self.entries, i);
                crate::text::append_text(&mut e.text, t);
                proof {
                    assert forall|m: Seq<char>| #[trigger]
                        out_lookup(self.entries@, m) == out_lookup(old(self).entries@, m) by {
                        lemma_out_lookup_same_names(old(self).entries@, self.entries@, m);
                    }
                    assert forall|m: Seq<char>|
                        m != name@ implies #[trigger] self.spec_text(m) == old(self).spec_text(
                        m,
                    ) by {
                        if out_lookup(old(self).entries@, m) is Some {
                            let j = out_lookup(old(self).entries@, m).unwrap();
                            lemma_out_lookup_valid(old(self).entries@, m);
                            assert(j != i as int);
                        }
                    }
                }
            },
            None => {
                self.entries.push(OutputEntry { name: copy_text(name), text: copy_text(t) });
                proof {
                    assert(self.entries@.last().name@ == name@);
                    assert(out_lookup(self.entries@, name@) == Some(self.entries@.len() - 1));
                    assert(old(self).spec_text(name@) + t@ =~= t@);
                    assert forall|m: Seq<char>|
                        m != name@ implies #[trigger] self.spec_text(m) == old(self).spec_text(
                        m,
                    ) by {
                        assert(self.entries@.drop_last() =~= old(self).entries@);
                        if out_lookup(old(self).entries@, m) is Some {
                            lemma_out_lookup_valid(old(self).entries@, m);
                        }
                    }
                }
            },
        }
    }

    /// Appends one character to the buffer named `name`.
    pub fn append_char(&mut self, name: &Vec<char>, c: char)
        ensures
            final(self).spec_text(name@) == old(self).spec_text(name@).push(c),
            forall|m: Seq<char>|
                m != name@ ==> #[trigger] final(self).spec_text(m) == old(self).spec_text(m),
    {
        let mut t: Vec<char> = Vec::new();
        t.push(c);
        self.append_text(name, &t);
        proof {
            assert(old(self).spec_text(name@) + t@ =~= old(self).spec_text(name@).push(c));
        }
    }

    /// A copy of the text of the buffer named `name`.
    pub fn text_of(&self, name: &Vec<char>) -> (r: Vec<char>)
        ensures
            r@ == self.spec_text(name@),
    {
        match self.find_entry(name) {
            Some(i) => {
                proof {
                    lemma_out_lookup_valid(self.entries@, name@);
                }
                copy_text(&self.entries[i].text)
            },
            None => Vec::new(),
        }
    }
}

} // verus!
