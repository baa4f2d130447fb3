//! Binding frames: name-to-value bindings in two namespaces, and the stack
//! of frames that scopes evaluation.

use vstd::prelude::*;

use crate::primitive::Type;

verus! {

/// One name bound to one value.
#[derive(Debug)]
pub struct Binding {
    pub name: String,
    pub value: Type,
}

/// The value bound to a name in a binding list: the most recent binding
/// wins.
pub open spec fn lookup(s: Seq<Binding>, name: Seq<char>) -> Option<Type>
    decreases s.len(),
{
    if s.len() == 0 {
        None
    } else if s.last().name@ == name {
        Some(s.last().value)
    } else {
        lookup(s.drop_last(), name)
    }
}

/// Two binding lists that agree name for name and value for value.
pub open spec fn bindings_like(a: Seq<Binding>, b: Seq<Binding>) -> bool {
    a.len() == b.len() && forall|i: int|
        0 <= i < a.len() ==> (#[trigger] a[i]).name@ == b[i].name@ && a[i].value@ == b[i].value@
}

/// Alike binding lists resolve every name alike.
pub proof fn lemma_lookup_like(a: Seq<Binding>, b: Seq<Binding>, name: Seq<char>)
    requires
        bindings_like(a, b),
    ensures
        match (lookup(a, name), lookup(b, name)) {
            (Some(x), Some(y)) => x@ == y@,
            (None, None) => true,
            _ => false,
        },
    decreases a.len(),
{
    if a.len() > 0 {
        assert(a[a.len() - 1].name@ == b[b.len() - 1].name@);
        if a.last().name@ != name {
            assert(bindings_like(a.drop_last(), b.drop_last())) by {
                assert(forall|i: int|
                    0 <= i < a.len() - 1 ==> (#[trigger] a.drop_last()[i]) == a[i]
                        && b.drop_last()[i] == b[i]);
            }
            lemma_lookup_like(a.drop_last(), b.drop_last(), name);
        }
    }
}

/// Every list is a prefix of itself.
pub proof fn lemma_prefix_refl<A>(a: Seq<A>)
    ensures
        a.is_prefix_of(a),
{
    assert(a =~= a.subrange(0, a.len() as int));
}

/// Prefixes chain: a prefix of a prefix is a prefix.
pub proof fn lemma_prefix_trans<A>(a: Seq<A>, b: Seq<A>, c: Seq<A>)
    requires
        a.is_prefix_of(b),
        b.is_prefix_of(c),
    ensures
        a.is_prefix_of(c),
{
    assert(a =~= c.subrange(0, a.len() as int));
}

/// A single scope: `def`-introduced bindings and function definitions in
/// `ilocals`, function-call parameter bindings in `locals`.
#[derive(Debug)]
pub struct Frame {
    pub ilocals: Vec<Binding>,
    pub locals: Vec<Binding>,
}

impl Frame {
    /// What a name resolves to in this frame: parameter bindings shadow the
    /// primary namespace.
    pub open spec fn spec_get(&self, name: Seq<char>) -> Option<Type> {
        match lookup(self.locals@, name) {
            Some(v) => Some(v),
            None => lookup(self.ilocals@, name),
        }
    }

    /// True when the name is bound in either namespace of this frame.
    pub open spec fn spec_has(&self, name: Seq<char>) -> bool {
        self.spec_get(name) is Some
    }

    /// An empty scope.
    pub fn new() -> (f: Frame)
        ensures
            f.ilocals@.len() == 0,
            f.locals@.len() == 0,
    {
        Frame { ilocals: Vec::new(), locals: Vec::new() }
    }

    /// Looks a name up, parameter bindings first.
    pub fn get(&self, name: &String) -> (r: Option<&Type>)
        ensures
            match r {
                Some(v) => self.spec_get(name@) == Some(*v),
                None => self.spec_get(name@) is None,
            },
    {
        match lookup_in(&self.locals, name) {
            Some(v) => Some(v),
            None => lookup_in(&self.ilocals, name),
        }
    }

    /// True when the name is bound in this frame.
    pub fn has(&self, name: &String) -> (r: bool)
        ensures
            r == self.spec_has(name@),
    {
        match self.get(name) {
            Some(_) => true,
            None => false,
        }
    }

    /// Binds a name in the primary namespace.
    pub fn insert(&mut self, name: String, value: Type)
        ensures
            final(self).ilocals@ == old(self).ilocals@.push(Binding { name, value }),
            final(self).locals@ == old(self).locals@,
    {
        self.ilocals.push(Binding { name, value });
    }

    /// Binds a parameter name.
    pub fn insert_param(&mut self, name: String, value: Type)
        ensures
            final(self).locals@ == old(self).locals@.push(Binding { name, value }),
            final(self).ilocals@ == old(self).ilocals@,
    {
        self.locals.push(Binding { name, value });
    }

    /// A copy of the frame: every binding keeps its name and its value.
    pub fn duplicate(&self) -> (r: Frame)
        ensures
            bindings_like(r.ilocals@, self.ilocals@),
            bindings_like(r.locals@, self.locals@),
    {
        Frame { ilocals: dup_bindings(&self.ilocals), locals: dup_bindings(&self.locals) }
    }
}

/// The most recent binding of a name in a binding vector.
fn lookup_in<'a>(bindings: &'a Vec<Binding>, name: &String) -> (r: Option<&'a Type>)
    ensures
        match r {
            Some(v) => lookup(bindings@, name@) == Some(*v),
            None => lookup(bindings@, name@) is None,
        },
{
    let n = bindings.len();
    let mut i: usize = n;
    proof {
        assert(bindings@.take(n as int) =~= bindings@);
    }
    while i > 0
        invariant
            i <= n,
            n == bindings@.len(),
            lookup(bindings@, name@) == lookup(bindings@.take(i as int), name@),
        decreases i,
    {
        i = i - 1;
        proof {
            assert(bindings@.take(i + 1).last() == bindings@[i as int]);
            assert(bindings@.take(i + 1).drop_last() =~= bindings@.take(i as int));
        }
        if bindings[i].name == *name {
            return Some(&bindings[i].value);
        }
    }
    proof {
        assert(bindings@.take(0) =~= Seq::<Binding>::empty());
    }
    None
}

/// A copy of a binding vector, binding for binding.
fn dup_bindings(bindings: &Vec<Binding>) -> (r: Vec<Binding>)
    ensures
        bindings_like(r@, bindings@),
{
    let n = bindings.len();
    let mut out: Vec<Binding> = Vec::new();
    let mut i: usize = 0;
    while i < n
        invariant
            i <= n,
            n == bindings@.len(),
            out@.len() == i as int,
            forall|j: int|
                0 <= j < i ==> (#[trigger] out@[j]).name@ == bindings@[j].name@
                    && out@[j].value@ == bindings@[j].value@,
        decreases n - i,
    {
        let b = Binding { name: bindings[i].name.clone(), value: bindings[i].value.duplicate() };
        out.push(b);
        i += 1;
    }
    out
}

/// The ordered stack of active frames; the last is the current scope.
#[derive(Debug)]
pub struct FrameStack {
    pub frames: Vec<Frame>,
}

impl FrameStack {
    /// The stack always holds at least the session's root frame.
    pub open spec fn wf(&self) -> bool {
        self.frames@.len() >= 1
    }

    /// A stack holding one empty root frame for the whole session.
    pub fn new() -> (s: FrameStack)
        ensures
            s.wf(),
            s.frames@.len() == 1,
            s.frames@[0].ilocals@.len() == 0,
            s.frames@[0].locals@.len() == 0,
    {
        let mut frames: Vec<Frame> = Vec::new();
        frames.push(Frame::new());
        FrameStack { frames }
    }

    /// The current scope: the top of the stack.
    pub fn current(&mut self) -> (r: &mut Frame)
        requires
            old(self).wf(),
        ensures
            *r == old(self).frames@.last(),
            final(self).frames@ == old(self).frames@.update(
                old(self).frames@.len() - 1,
                *final(r),
            ),
    {
        let n = self.frames.len();
        &mut self.frames[n - 1]
    }

    /// A read-only view of the current scope.
    pub fn top(&self) -> (r: &Frame)
        requires
            self.wf(),
        ensures
            *r == self.frames@.last(),
    {
        let n = self.frames.len();
        &self.frames[n - 1]
    }

    /// Enters a scope: the frame goes on top of the stack.
    pub fn push(&mut self, frame: Frame)
        ensures
            final(self).frames@ == old(self).frames@.push(frame),
            final(self).wf(),
    {
        self.frames.push(frame);
    }

    /// Leaves the innermost scope, discarding its frame; the root frame
    /// stays.
    pub fn pop(&mut self)
        requires
            old(self).frames@.len() >= 2,
        ensures
            final(self).frames@ == old(self).frames@.drop_last(),
            final(self).wf(),
    {
        let _ = self.frames.pop();
        proof {
            assert(old(self).frames@.subrange(0, old(self).frames@.len() - 1) =~= old(
                self,
            ).frames@.drop_last());
        }
    }
}

} // verus!
