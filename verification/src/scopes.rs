use vstd::prelude::*;

verus! {

use crate::text::copy_text;
use crate::text::texts_equal;

/// The stable tag of a host-implemented (native) macro. The engine holds
/// the tag in the binding store and dispatches on it when the macro is
/// invoked; the behaviour of each tag lives in `builtin`.
#[derive(Clone, Copy, PartialEq, Eq, Structural, Debug)]
pub enum BuiltinTag {
    Define,
    Dump,
    PushScope,
    PopScope,
    Skip,
    JsEval,
    LetVar,
    SetVar,
    GetVar,
    Shell,
    Import,
    ForLoop,
}

/// A macro value: literal body text, a native builtin, or an opaque
/// scripting-engine value named by the handle the bridge gave out for it.
pub enum Value {
    Plain(Vec<char>),
    Builtin(BuiltinTag),
    Script(u64),
}

/// The mathematical shape of a `Value`.
pub enum ValueView {
    Plain(Seq<char>),
    Builtin(BuiltinTag),
    Script(u64),
}

impl View for Value {
    type V = ValueView;

    open spec fn view(&self) -> ValueView {
        match self {
            Value::Plain(t) => ValueView::Plain(t@),
            Value::Builtin(b) => ValueView::Builtin(*b),
            Value::Script(h) => ValueView::Script(*h),
        }
    }
}

impl Clone for Value {
    fn clone(&self) -> (r: Self)
        ensures
            r@ == self@,
    {
        match self {
            Value::Plain(t) => Value::Plain(copy_text(t)),
            Value::Builtin(b) => Value::Builtin(*b),
            Value::Script(h) => Value::Script(*h),
        }
    }
}

/// One entry of a frame: a name and the handle of the slot it points to.
pub struct Binding {
    pub name: Vec<char>,
    pub slot: usize,
}

/// Popping the last (global) frame is a bracketing error in the input.
#[derive(Clone, Copy, PartialEq, Eq, Structural, Debug)]
pub enum ScopeError {
    Underflow,
}

/// The index of the innermost binding of `name` in one frame (entries are
/// searched newest first), or `None`.
pub open spec fn frame_lookup(es: Seq<Binding>, name: Seq<char>) -> Option<int>
    decreases es.len(),
{
    if es.len() == 0 {
        None
    } else if es.last().name@ == name {
        Some(es.len() - 1)
    } else {
        frame_lookup(es.drop_last(), name)
    }
}

/// The slot handle `name` resolves to, searching frames innermost first.
pub open spec fn frames_lookup(frames: Seq<Vec<Binding>>, name: Seq<char>) -> Option<int>
    decreases frames.len(),
{
    if frames.len() == 0 {
        None
    } else {
        match frame_lookup(frames.last()@, name) {
            Some(i) => Some(frames.last()@[i].slot as int),
            None => frames_lookup(frames.drop_last(), name),
        }
    }
}

/// A lexically scoped binding store: a stack of frames over an arena of
/// independently mutable slots. Each binding maps a name to a slot handle;
/// `let_variable` installs a fresh slot (true shadowing) while
/// `set_variable` writes through the nearest existing handle (assignment
/// visible to every holder of the slot).
pub struct Scopes {
    pub frames: Vec<Vec<Binding>>,
    pub slots: Vec<Value>,
}

proof fn lemma_frame_lookup_valid(es: Seq<Binding>, name: Seq<char>)
    requires
        frame_lookup(es, name) is Some,
    ensures
        0 <= frame_lookup(es, name).unwrap() < es.len(),
        es[frame_lookup(es, name).unwrap()].name@ == name,
    decreases es.len(),
{
    if es.len() > 0 && es.last().name@ != name {
        lemma_frame_lookup_valid(es.drop_last(), name);
    }
}

proof fn lemma_frames_lookup_bound(frames: Seq<Vec<Binding>>, name: Seq<char>, bound: int)
    requires
        forall|f: int, i: int|
            0 <= f < frames.len() && 0 <= i < frames[f]@.len() ==> (#[trigger] frames[f]@[i]).slot
                < bound,
        frames_lookup(frames, name) is Some,
    ensures
        0 <= frames_lookup(frames, name).unwrap() < bound,
    decreases frames.len(),
{
    if frames.len() > 0 {
        match frame_lookup(frames.last()@, name) {
            Some(i) => {
                lemma_frame_lookup_valid(frames.last()@, name);
                assert(frames.last() == frames[frames.len() - 1]);
            },
            None => {
                assert(forall|f: int, i: int|
                    0 <= f < frames.drop_last().len() && 0 <= i < frames.drop_last()[f]@.len()
                        ==> (#[trigger] frames.drop_last()[f]@[i]).slot < bound) by {
                    assert(forall|f: int|
                        0 <= f < frames.len() - 1 ==> #[trigger] frames.drop_last()[f]
                            == frames[f]);
                }
                lemma_frames_lookup_bound(frames.drop_last(), name, bound);
            },
        }
    }
}

impl Scopes {
    /// Every slot handle stored in a frame points into the arena.
    pub open spec fn wf(&self) -> bool {
        &&& self.frames@.len() >= 1
        &&& forall|f: int, i: int|
            0 <= f < self.frames@.len() && 0 <= i < self.frames@[f]@.len() ==> (
            #[trigger] self.frames@[f]@[i]).slot < self.slots@.len()
    }

    /// The slot handle `name` resolves to, innermost frame first.
    pub open spec fn lookup_handle(&self, name: Seq<char>) -> Option<int> {
        frames_lookup(self.frames@, name)
    }

    /// The value bound to `name`, innermost binding first.
    pub open spec fn spec_get(&self, name: Seq<char>) -> Option<ValueView> {
        match self.lookup_handle(name) {
            Some(h) => if 0 <= h < self.slots@.len() {
                Some(self.slots@[h]@)
            } else {
                None
            },
            None => None,
        }
    }

    pub proof fn lemma_lookup_in_range(&self, name: Seq<char>)
        requires
            self.wf(),
            self.lookup_handle(name) is Some,
        ensures
            0 <= self.lookup_handle(name).unwrap() < self.slots@.len(),
            self.spec_get(name) == Some(self.slots@[self.lookup_handle(name).unwrap()]@),
    {
        lemma_frames_lookup_bound(self.frames@, name, self.slots@.len() as int);
    }

    /// A store with one empty global frame and nothing bound.
    pub fn new() -> (s: Scopes)
        ensures
            s.wf(),
            s.frames@.len() == 1,
            s.slots@.len() == 0,
            forall|n: Seq<char>| #[trigger] s.spec_get(n) is None,
    {
        let mut frames: Vec<Vec<Binding>> = Vec::new();
        frames.push(Vec::new());
        let s = Scopes { frames, slots: Vec::new() };
        proof {
            assert forall|n: Seq<char>| #[trigger] s.spec_get(n) is None by {
                assert(frame_lookup(s.frames@.last()@, n) is None);
                assert(s.frames@.drop_last().len() == 0);
            }
        }
        s
    }

    /// Appends a fresh empty frame; no binding changes.
    pub fn push_scope(&mut self)
        requires
            old(self).wf(),
        ensures
            final(self).wf(),
            final(self).frames@.len() == old(self).frames@.len() + 1,
            final(self).frames@.drop_last() == old(self).frames@,
            final(self).frames@.last()@ == Seq::<Binding>::empty(),
            final(self).slots@ == old(self).slots@,
            forall|n: Seq<char>| #[trigger]
                final(self).spec_get(n) == old(self).spec_get(n),
    {
        self.frames.push(Vec::new());
        proof {
            assert(self.frames@.drop_last() =~= old(self).frames@);
            assert forall|n: Seq<char>| #[trigger]
                self.spec_get(n) == old(self).spec_get(n) by {
                assert(frame_lookup(self.frames@.last()@, n) is None);
            }
        }
    }

    /// Removes the innermost frame; fails (and changes nothing) when only
    /// the global frame remains.
    pub fn pop_scope(&mut self) -> (r: Result<(), ScopeError>)
        requires
            old(self).wf(),
        ensures
            final(self).wf(),
            old(self).frames@.len() > 1 ==> r is Ok && final(self).frames@ == old(
                self,
            ).frames@.drop_last() && final(self).slots@ == old(self).slots@,
            old(self).frames@.len() == 1 ==> r == Result::<(), ScopeError>::Err(
                ScopeError::Underflow,
            ) && final(self).frames@ == old(self).frames@ && final(self).slots@ == old(
                self,
            ).slots@,
    {
        if self.frames.len() > 1 {
            let _ = self.frames.pop();
            proof {
                assert(self.frames@ =~= old(self).frames@.drop_last());
            }
            Ok(())
        } else {
            Err(ScopeError::Underflow)
        }
    }

    /// The index of the innermost binding of `name` in `es`, searched
    /// newest first.
    fn find_in_frame(es: &Vec<Binding>, name: &Vec<char>) -> (r: Option<usize>)
        ensures
            match r {
                Some(i) => frame_lookup(es@, name@) == Some(i as int) && i < es@.len(),
                None => frame_lookup(es@, name@) is None,
            },
    {
        let mut i: usize = es.len();
        assert(es@.take(es@.len() as int) =~= es@);
        while i > 0
            invariant
                i <= es@.len(),
                frame_lookup(es@, name@) == frame_lookup(es@.take(i as int), name@),
            decreases i,
        {
            if texts_equal(&es[i - 1].name, name) {
                assert(es@.take(i as int).last() == es@[i - 1]);
                return Some(i - 1);
            }
            assert(es@.take(i as int).drop_last() =~= es@.take(i - 1));
            i -= 1;
        }
        assert(es@.take(0) =~= Seq::<Binding>::empty());
        None
    }

    /// The slot handle `name` resolves to, or `None` when unbound.
    pub fn lookup_slot(&self, name: &Vec<char>) -> (r: Option<usize>)
        ensures
            match r {
                Some(h) => self.lookup_handle(name@) == Some(h as int),
                None => self.lookup_handle(name@) is None,
            },
    {
        let mut f: usize = self.frames.len();
        assert(self.frames@.take(self.frames@.len() as int) =~= self.frames@);
        while f > 0
            invariant
                f <= self.frames@.len(),
                frames_lookup(self.frames@, name@) == frames_lookup(
                    self.frames@.take(f as int),
                    name@,
                ),
            decreases f,
        {
            let es = &self.frames[f - 1];
            assert(self.frames@.take(f as int).last() == self.frames@[f - 1]);
            match Self::find_in_frame(es, name) {
                Some(i) => {
                    return Some(es[i].slot);
                },
                None => {},
            }
            assert(self.frames@.take(f as int).drop_last() =~= self.frames@.take(f - 1));
            f -= 1;
        }
        assert(self.frames@.take(0) =~= Seq::<Vec<Binding>>::empty());
        None
    }

    /// A copy of the value in slot `h`.
    pub fn read_slot(&self, h: usize) -> (v: Value)
        requires
            h < self.slots@.len(),
        ensures
            v@ == self.slots@[h as int]@,
    {
        self.slots[h].clone()
    }

    /// Innermost-first lookup; `None` when `name` is unbound everywhere.
    pub fn get_variable(&self, name: &Vec<char>) -> (r: Option<Value>)
        requires
            self.wf(),
        ensures
            match r {
                Some(v) => self.spec_get(name@) == Some(v@),
                None => self.spec_get(name@) is None,
            },
    {
        match self.lookup_slot(name) {
            Some(h) => {
                proof {
                    self.lemma_lookup_in_range(name@);
                }
                Some(self.slots[h].clone())
            },
            None => None,
        }
    }

    /// Overwrites, in place, the contents of the nearest existing slot for
    /// `name`; reports `None` (and changes nothing) when `name` is unbound.
    pub fn set_variable(&mut self, name: &Vec<char>, value: Value) -> (r: Option<()>)
        requires
            old(self).wf(),
        ensures
            final(self).wf(),
            final(self).frames@ == old(self).frames@,
            match old(self).lookup_handle(name@) {
                Some(h) => r is Some && final(self).slots@ == old(self).slots@.update(h, value)
                    && final(self).slots@.len() == old(self).slots@.len() && final(self).spec_get(
                    name@,
                ) == Some(value@),
                None => r is None && final(self).slots@ == old(self).slots@,
            },
    {
        match self.lookup_slot(name) {
            Some(h) => {
                proof {
                    self.lemma_lookup_in_range(name@);
                }
                let slot = vstd::std_specs::vec::vec_index_mut(&mut self.slots, h);
                *slot = value;
                Some(())
            },
            None => None,
        }
    }

    /// Binds `name` to `value` in the innermost frame through a fresh
    /// slot, shadowing (not disturbing) any outer binding of the name.
    pub fn let_variable(&mut self, name: &Vec<char>, value: Value)
        requires
            old(self).wf(),
        ensures
            final(self).wf(),
            final(self).slots@ == old(self).slots@.push(value),
            final(self).frames@.len() == old(self).frames@.len(),
            final(self).frames@.drop_last() == old(self).frames@.drop_last(),
            final(self).lookup_handle(name@) == Some(old(self).slots@.len() as int),
            final(self).spec_get(name@) == Some(value@),
            forall|n: Seq<char>|
                n != name@ ==> #[trigger] final(self).spec_get(n) == old(self).spec_get(n),
    {
        let h = self.slots.len();
        self.slots.push(value);
        let top = self.frames.len() - 1;
        let ghost old_top = old(self).frames@.last()@;
        let es = vstd::std_specs::vec::vec_index_mut(&mut self.frames, top);
        match Self::find_in_frame(es, name) {
            Some(i) => {
                proof {
                    lemma_frame_lookup_valid(old_top, name@);
                }
                let b = vstd::std_specs::vec::vec_index_mut(es, i);
                b.slot = h;
            },
            None => {
                es.push(Binding { name: copy_text(name), slot: h });
            },
        }
        proof {
            assert(self.frames@.drop_last() =~= old(self).frames@.drop_last());
            let new_top = self.frames@.last()@;
            match frame_lookup(old_top, name@) {
                Some(i) => {
                    assert(new_top =~= old_top.update(i, new_top[i]));
                    assert(frame_updated(old_top, new_top, name@, h as int));
                },
                None => {
                    assert(new_top.drop_last() =~= old_top);
                    assert(frame_updated(old_top, new_top, name@, h as int));
                },
            }
            self.lemma_let_post(*old(self), name@, value, h as int);
        }
    }

    /// After `let_variable`'s structural updates, lookup behaves as its
    /// contract states.
    proof fn lemma_let_post(&self, pre: Scopes, name: Seq<char>, value: Value, h: int)
        requires
            pre.wf(),
            h == pre.slots@.len(),
            self.slots@ == pre.slots@.push(value),
            self.frames@.len() == pre.frames@.len(),
            self.frames@.drop_last() == pre.frames@.drop_last(),
            frame_updated(pre.frames@.last()@, self.frames@.last()@, name, h),
        ensures
            self.wf(),
            self.lookup_handle(name) == Some(h),
            self.spec_get(name) == Some(value@),
            forall|n: Seq<char>|
                n != name ==> #[trigger] self.spec_get(n) == pre.spec_get(n),
    {
        let old_top = pre.frames@.last()@;
        let new_top = self.frames@.last()@;
        lemma_frame_update_lookup(old_top, new_top, name, h);
        // well-formedness: every stored handle is either an old one or `h`
        assert forall|f: int, i: int|
            0 <= f < self.frames@.len() && 0 <= i < self.frames@[f]@.len() implies (
        #[trigger] self.frames@[f]@[i]).slot < self.slots@.len() by {
            if f < self.frames@.len() - 1 {
                assert(self.frames@[f] == self.frames@.drop_last()[f]);
                assert(pre.frames@[f] == pre.frames@.drop_last()[f]);
                assert(pre.frames@[f]@[i].slot < pre.slots@.len());
            } else {
                assert(self.frames@[f]@ == new_top);
                if frame_lookup(old_top, name) is Some {
                    let j = frame_lookup(old_top, name).unwrap();
                    lemma_frame_lookup_valid(old_top, name);
                    if i == j {
                        assert(new_top[i].slot == h);
                    } else {
                        assert(new_top[i] == old_top[i]);
                        assert(pre.frames@[f]@[i].slot < pre.slots@.len());
                    }
                } else {
                    if i < old_top.len() {
                        assert(new_top[i] == old_top[i]);
                        assert(pre.frames@[f]@[i].slot < pre.slots@.len());
                    } else {
                        assert(new_top[i].slot == h);
                    }
                }
            }
        }
        // lookup of `name` hits the new handle in the top frame
        assert(self.lookup_handle(name) == Some(h));
        // other names are untouched
        assert forall|n: Seq<char>|
            n != name implies #[trigger] self.spec_get(n) == pre.spec_get(n) by {
            lemma_frames_lookup_other(pre.frames@, self.frames@, old_top, new_top, name, h, n);
            if pre.lookup_handle(n) is Some {
                pre.lemma_lookup_in_range(n);
                assert(self.slots@[pre.lookup_handle(n).unwrap()]
                    == pre.slots@[pre.lookup_handle(n).unwrap()]);
            }
        }
    }
}

/// How `let_variable` rewrites the innermost frame: the innermost binding
/// of `name` repointed to the fresh handle, or a new binding appended.
pub open spec fn frame_updated(old_top: Seq<Binding>, new_top: Seq<Binding>, name: Seq<char>, h: int) -> bool {
    match frame_lookup(old_top, name) {
        Some(i) => {
            &&& new_top.len() == old_top.len()
            &&& 0 <= i < old_top.len()
            &&& new_top[i].name@ == name
            &&& new_top[i].slot == h
            &&& forall|j: int| 0 <= j < old_top.len() && j != i ==> new_top[j] == old_top[j]
        },
        None => {
            &&& new_top.len() == old_top.len() + 1
            &&& new_top.drop_last() == old_top
            &&& new_top.last().name@ == name
            &&& new_top.last().slot == h
        },
    }
}

/// Rewriting one frame as `frame_updated` says makes `name` resolve to the
/// fresh handle and leaves every other name's resolution in that frame
/// unchanged.
proof fn lemma_frame_update_lookup(old_top: Seq<Binding>, new_top: Seq<Binding>, name: Seq<char>, h: int)
    requires
        frame_updated(old_top, new_top, name, h),
    ensures
        frame_lookup(new_top, name) is Some,
        new_top[frame_lookup(new_top, name).unwrap()].slot == h,
        forall|n: Seq<char>|
            n != name ==> #[trigger] frame_lookup_slot(new_top, n) == frame_lookup_slot(
                old_top,
                n,
            ),
{
    match frame_lookup(old_top, name) {
        Some(i) => {
            lemma_frame_lookup_valid(old_top, name);
            lemma_frame_lookup_pointwise(old_top, new_top, name, i, h);
        },
        None => {
            assert(new_top.last().name@ == name);
            assert(frame_lookup(new_top, name) == Some(new_top.len() - 1));
            assert forall|n: Seq<char>|
                n != name implies #[trigger] frame_lookup_slot(new_top, n) == frame_lookup_slot(
                old_top,
                n,
            ) by {
                assert(new_top.drop_last() == old_top);
                if frame_lookup(old_top, n) is Some {
                    lemma_frame_lookup_valid(old_top, n);
                }
            }
        },
    }
}

/// The slot the innermost binding of `name` points to, or `None`.
pub open spec fn frame_lookup_slot(es: Seq<Binding>, name: Seq<char>) -> Option<int> {
    match frame_lookup(es, name) {
        Some(i) => Some(es[i].slot as int),
        None => None,
    }
}

/// Replacing the slot of the innermost binding of `name` (entry `i`)
/// changes no other name's resolution, and `name` resolves to entry `i`.
proof fn lemma_frame_lookup_pointwise(
    old_top: Seq<Binding>,
    new_top: Seq<Binding>,
    name: Seq<char>,
    i: int,
    h: int,
)
    requires
        new_top.len() == old_top.len(),
        0 <= i < old_top.len(),
        frame_lookup(old_top, name) == Some(i),
        old_top[i].name@ == name,
        new_top[i].name@ == name,
        new_top[i].slot == h,
        forall|j: int| 0 <= j < old_top.len() && j != i ==> new_top[j] == old_top[j],
    ensures
        frame_lookup(new_top, name) == Some(i),
        new_top[frame_lookup(new_top, name).unwrap()].slot == h,
        forall|n: Seq<char>|
            n != name ==> #[trigger] frame_lookup_slot(new_top, n) == frame_lookup_slot(
                old_top,
                n,
            ),
    decreases old_top.len(),
{
    assert forall|n: Seq<char>| #[trigger]
        frame_lookup(new_top, n) == frame_lookup(old_top, n) by {
        lemma_frame_lookup_same_names(old_top, new_top, n);
    }
    assert forall|n: Seq<char>|
        n != name implies #[trigger] frame_lookup_slot(new_top, n) == frame_lookup_slot(
        old_top,
        n,
    ) by {
        if frame_lookup(old_top, n) is Some {
            let j = frame_lookup(old_top, n).unwrap();
            lemma_frame_lookup_valid(old_top, n);
            assert(j != i);
        }
    }
}

/// `frame_lookup` only reads binding names, so two frames with pointwise
/// equal names resolve every name to the same entry index.
proof fn lemma_frame_lookup_same_names(a: Seq<Binding>, b: Seq<Binding>, n: Seq<char>)
    requires
        a.len() == b.len(),
        forall|j: int| 0 <= j < a.len() ==> a[j].name@ == #[trigger] b[j].name@,
    ensures
        frame_lookup(a, n) == frame_lookup(b, n),
    decreases a.len(),
{
    if a.len() > 0 {
        assert(a.last().name@ == b.last().name@);
        assert(forall|j: int|
            0 <= j < a.len() - 1 ==> a.drop_last()[j].name@ == #[trigger] b.drop_last()[j].name@);
        lemma_frame_lookup_same_names(a.drop_last(), b.drop_last(), n);
    }
}

/// Replacing only the innermost frame, in a way that leaves every name
/// other than `name` resolving to the same slot there, leaves every such
/// name's whole-stack resolution unchanged.
proof fn lemma_frames_lookup_other(
    old_frames: Seq<Vec<Binding>>,
    new_frames: Seq<Vec<Binding>>,
    old_top: Seq<Binding>,
    new_top: Seq<Binding>,
    name: Seq<char>,
    h: int,
    n: Seq<char>,
)
    requires
        old_frames.len() >= 1,
        new_frames.len() == old_frames.len(),
        new_frames.drop_last() == old_frames.drop_last(),
        old_top == old_frames.last()@,
        new_top == new_frames.last()@,
        forall|m: Seq<char>|
            m != name ==> #[trigger] frame_lookup_slot(new_top, m) == frame_lookup_slot(
                old_top,
                m,
            ),
        n != name,
    ensures
        frames_lookup(new_frames, n) == frames_lookup(old_frames, n),
{
    assert(frame_lookup_slot(new_top, n) == frame_lookup_slot(old_top, n));
    match frame_lookup(new_top, n) {
        Some(i) => {
            assert(frame_lookup(old_top, n) is Some);
        },
        None => {
            assert(frame_lookup(old_top, n) is None);
        },
    }
}

/// Law of scope isolation, shadowing half: `push_scope`, then
/// `let_variable(name, value)`, then `pop_scope` leaves every name —
/// including `name` itself — resolving exactly as before the push: a
/// binding made in a pushed scope dies with it, and the outer (or
/// absent) binding becomes visible again.
///
/// The premises are the structural postconditions of the three
/// operations, so the law applies to any such call sequence.
pub proof fn lemma_scope_isolation(s0: Scopes, s1: Scopes, s2: Scopes, s3: Scopes, value: Value)
    requires
        s0.wf(),
        // s1 is s0 after push_scope
        s1.frames@.len() == s0.frames@.len() + 1,
        s1.frames@.drop_last() == s0.frames@,
        s1.slots@ == s0.slots@,
        // s2 is s1 after let_variable of any name
        s2.slots@ == s1.slots@.push(value),
        s2.frames@.len() == s1.frames@.len(),
        s2.frames@.drop_last() == s1.frames@.drop_last(),
        // s3 is s2 after a successful pop_scope
        s3.frames@ == s2.frames@.drop_last(),
        s3.slots@ == s2.slots@,
    ensures
        forall|n: Seq<char>| #[trigger] s3.spec_get(n) == s0.spec_get(n),
{
    assert(s3.frames@ == s0.frames@);
    assert forall|n: Seq<char>| #[trigger] s3.spec_get(n) == s0.spec_get(n) by {
        match frames_lookup(s0.frames@, n) {
            Some(h) => {
                lemma_frames_lookup_bound(s0.frames@, n, s0.slots@.len() as int);
                assert(s3.slots@[h] == s0.slots@[h]);
            },
            None => {},
        }
    }
}

/// Law of scope isolation, mutation half: when `name` is bound outside,
/// `push_scope`, then a successful `set_variable(name, value)`, then
/// `pop_scope` leaves `name` bound to `value`: assignment writes through
/// the existing slot and survives the pop, while names resolving to
/// other slots are untouched.
pub proof fn lemma_set_mutates_through_scope(
    s0: Scopes,
    s1: Scopes,
    s2: Scopes,
    s3: Scopes,
    name: Seq<char>,
    value: Value,
)
    requires
        s0.wf(),
        s0.lookup_handle(name) is Some,
        // s1 is s0 after push_scope
        s1.frames@.len() == s0.frames@.len() + 1,
        s1.frames@.drop_last() == s0.frames@,
        s1.frames@.last()@ == Seq::<Binding>::empty(),
        s1.slots@ == s0.slots@,
        // s2 is s1 after a successful set_variable(name, value)
        s2.frames@ == s1.frames@,
        s2.slots@ == s1.slots@.update(s1.lookup_handle(name).unwrap(), value),
        // s3 is s2 after a successful pop_scope
        s3.frames@ == s2.frames@.drop_last(),
        s3.slots@ == s2.slots@,
    ensures
        s3.spec_get(name) == Some(value@),
        forall|n: Seq<char>|
            s0.lookup_handle(n) != s0.lookup_handle(name) ==> #[trigger] s3.spec_get(n)
                == s0.spec_get(n),
{
    assert(s3.frames@ == s0.frames@);
    assert(frame_lookup(s1.frames@.last()@, name) is None);
    assert(s1.lookup_handle(name) == s0.lookup_handle(name));
    let h = s0.lookup_handle(name).unwrap();
    lemma_frames_lookup_bound(s0.frames@, name, s0.slots@.len() as int);
    assert(s3.spec_get(name) == Some(s3.slots@[h]@));
    assert(s3.slots@[h] == value);
    assert forall|n: Seq<char>|
        s0.lookup_handle(n) != s0.lookup_handle(name) implies #[trigger] s3.spec_get(n)
        == s0.spec_get(n) by {
        match frames_lookup(s0.frames@, n) {
            Some(g) => {
                lemma_frames_lookup_bound(s0.frames@, n, s0.slots@.len() as int);
                assert(g != h);
                assert(s3.slots@[g] == s0.slots@[g]);
            },
            None => {},
        }
    }
}

} // verus!
