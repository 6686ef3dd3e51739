//! Names of simulation objects, held in namespaces
use vstd::prelude::*;
use vstd::std_specs::convert::FromSpecImpl;

use crate::fmt::push_str;
use crate::index::Idx;
use crate::indexed_vec::{IndexKey, StringIndex, StringsWithIndex, VecWithIndex};

verus! {

/// The full name of an object within the namespaces of a simulation
#[derive(Debug, Clone, Copy, PartialEq, Eq, Structural, Hash, PartialOrd, Ord)]
pub struct SimNsName(pub usize);

impl Idx for SimNsName {
    open spec fn spec_index(self) -> usize {
        self.0
    }

    fn from_usize(n: usize) -> (r: SimNsName) {
        SimNsName(n)
    }

    fn index(self) -> (r: usize) {
        self.0
    }
}

impl Default for SimNsName {
    fn default() -> (r: SimNsName)
        ensures
            r.0 == 0,
    {
        SimNsName(0)
    }
}

impl SimNsName {
    /// True for the root namespace (index 0)
    pub fn is_root(&self) -> (r: bool)
        ensures
            r == (self.0 == 0),
    {
        self.0 == 0
    }
}

impl IndexKey for SimNsName {
    fn key_eq(&self, other: &Self) -> (r: bool) {
        self.0 == other.0
    }
}

/// The name of an object within its namespace
pub type Name = StringIndex;

/// A name within a namespace
#[derive(Debug, Clone, Copy, PartialEq, Eq, Structural, Hash, PartialOrd, Ord)]
pub struct NsName {
    pub namespace: SimNsName,
    pub name: Name,
}

impl NsName {
    /// The namespace
    pub open spec fn spec_namespace(self) -> SimNsName {
        self.namespace
    }

    /// The name within the namespace
    pub open spec fn spec_name(self) -> Name {
        self.name
    }

    /// True if the namespace is the root
    pub fn is_root(&self) -> (r: bool)
        ensures
            r == (self.namespace.0 == 0),
    {
        self.namespace.0 == 0
    }

    /// The name within the namespace
    pub fn name(&self) -> (r: Name)
        ensures
            r == self.name,
    {
        self.name
    }

    /// The namespace
    pub fn namespace(&self) -> (r: SimNsName)
        ensures
            r == self.namespace,
    {
        self.namespace
    }
}

impl Default for NsName {
    fn default() -> (r: NsName)
        ensures
            r.namespace.0 == 0 && r.name.0 == 0,
    {
        NsName { namespace: SimNsName(0), name: StringIndex(0) }
    }
}

impl From<(SimNsName, Name)> for NsName {
    fn from(p: (SimNsName, Name)) -> (r: NsName) {
        NsName { namespace: p.0, name: p.1 }
    }
}

impl FromSpecImpl<(SimNsName, Name)> for NsName {
    open spec fn obeys_from_spec() -> bool {
        true
    }

    open spec fn from_spec(p: (SimNsName, Name)) -> NsName {
        NsName { namespace: p.0, name: p.1 }
    }
}

impl IndexKey for NsName {
    fn key_eq(&self, other: &Self) -> (r: bool) {
        self.namespace.0 == other.namespace.0 && self.name.0 == other.name.0
    }
}

/// The full name itself, as the item that a full name is held as
fn same_name(k: &NsName) -> (r: NsName)
    ensures
        r == *k,
{
    *k
}

/// The text of the full name `n`: the names of its enclosing
/// namespaces up to (not including) the root, then its own name, joined
/// by `.`; followed through at most `fuel` namespaces
pub open spec fn full_name_text(full: Seq<NsName>, names: Seq<Seq<char>>, n: int, fuel: nat) -> Seq<
    char,
>
    decreases fuel,
{
    let e = full[n];
    if fuel == 0 || e.namespace.0 == 0 {
        names[e.name.0 as int]
    } else {
        full_name_text(full, names, e.namespace.0 as int, (fuel - 1) as nat) + seq!['.']
            + names[e.name.0 as int]
    }
}

/// The names of a simulation: strings, and full names (a name within a
/// namespace, which is itself a full name)
pub struct Names {
    names: StringsWithIndex,
    namespace_names: VecWithIndex<NsName, SimNsName, NsName>,
}

impl Names {
    /// The strings that are names
    pub closed spec fn spec_names(&self) -> Seq<Seq<char>> {
        self.names.spec_strings()
    }

    /// The full names, in the order they were added
    pub closed spec fn spec_full_names(&self) -> Seq<NsName> {
        self.namespace_names.spec_keys()
    }

    /// The index of the string `s` among the names
    pub closed spec fn name_index(&self, s: Seq<char>) -> usize {
        choose|i: usize| i < self.spec_names().len() && self.spec_names()[i as int] == s
    }

    /// Each full name is held as its own item, and names a string that
    /// is there
    pub closed spec fn wf(&self) -> bool {
        &&& self.namespace_names.wf()
        &&& self.namespace_names.spec_items() == self.namespace_names.spec_keys()
        &&& forall|i: int|
            0 <= i < self.spec_full_names().len() ==> (#[trigger] self.spec_full_names()[i]).name.0
                < self.spec_names().len()
    }

    /// Names with just the empty string, and no full names
    pub fn new() -> (r: Names)
        ensures
            r.wf(),
            r.spec_names() == seq![Seq::<char>::empty()],
            r.spec_full_names() == Seq::<NsName>::empty(),
    {
        let mut names = StringsWithIndex::new();
        proof {
            reveal_strlit("");
            assert(!names.spec_strings().contains(""@));
        }
        let _ = names.find_or_add("");
        proof {
            assert(""@ =~= Seq::<char>::empty());
            assert(names.spec_strings() == Seq::<Seq<char>>::empty().push(""@));
            assert(names.spec_strings() =~= seq![Seq::<char>::empty()]);
        }
        let namespace_names = VecWithIndex::new();
        Names { names, namespace_names }
    }

    /// The number of names
    pub fn name_count(&self) -> (r: usize)
        ensures
            r == self.spec_names().len(),
    {
        self.names.len()
    }

    /// The number of full names
    pub fn full_name_count(&self) -> (r: usize)
        requires
            self.wf(),
        ensures
            r == self.spec_full_names().len(),
    {
        proof {
            self.namespace_names.lemma_wf();
        }
        self.namespace_names.len()
    }

    /// The first full name that was added
    pub fn root_namespace(&self) -> (r: NsName)
        requires
            self.wf(),
            self.spec_full_names().len() > 0,
        ensures
            r == self.spec_full_names()[0],
    {
        *self.namespace_names.get(SimNsName(0))
    }

    /// The full name with an index
    pub fn ns_name(&self, n: SimNsName) -> (r: NsName)
        requires
            self.wf(),
            n.0 < self.spec_full_names().len(),
        ensures
            r == self.spec_full_names()[n.0 as int],
    {
        *self.namespace_names.get(n)
    }

    /// The string of a name
    pub fn name_str(&self, n: Name) -> (r: &str)
        requires
            n.0 < self.spec_names().len(),
        ensures
            r@ == self.spec_names()[n.0 as int],
    {
        self.names.get(n)
    }

    /// Add a name, if it is not there, and return its index
    pub fn add_name(&mut self, s: &str) -> (r: Name)
        requires
            old(self).wf(),
            old(self).spec_names().len() < usize::MAX,
        ensures
            final(self).wf(),
            final(self).spec_full_names() == old(self).spec_full_names(),
            old(self).spec_names().contains(s@) ==> final(self).spec_names() == old(self).spec_names(),
            !old(self).spec_names().contains(s@) ==> final(self).spec_names() == old(self).spec_names().push(s@),
            r.0 < final(self).spec_names().len(),
            final(self).spec_names()[r.0 as int] == s@,
            r.0 == final(self).name_index(s@),
    {
        let r = self.names.find_or_add(s).1;
        proof {
            assert(self.spec_names().len() >= old(self).spec_names().len());
            assert(self.spec_full_names() == old(self).spec_full_names());
            assert(self.spec_names()[r.0 as int] == s@);
            let i = self.name_index(s@);
            assert(i < self.spec_names().len() && self.spec_names()[i as int] == s@);
        }
        r
    }

    /// Find a name, returning its index if it is there
    pub fn find_name(&self, s: &str) -> (r: Option<Name>)
        ensures
            match r {
                Some(n) => n.0 < self.spec_names().len() && self.spec_names()[n.0 as int] == s@,
                None => !self.spec_names().contains(s@),
            },
    {
        self.names.find_string(s)
    }

    /// Add the full name `name` within `namespace`, unless it is there
    ///
    /// Returns the index of the new full name, or the index of the one
    /// that was there as an error; the name itself is added either way
    pub fn insert_full_name(&mut self, namespace: SimNsName, name: &str) -> (r: Result<
        SimNsName,
        SimNsName,
    >)
        requires
            old(self).wf(),
            old(self).spec_names().len() < usize::MAX,
            old(self).spec_full_names().len() < usize::MAX,
        ensures
            final(self).wf(),
            old(self).spec_names().contains(name@) ==> final(self).spec_names() == old(self).spec_names(),
            !old(self).spec_names().contains(name@) ==> final(self).spec_names() == old(self).spec_names().push(name@),
            ({
                let n = final(self).spec_names();
                let full = NsName { namespace, name: StringIndex(final(self).name_index(name@)) };
                &&& n.contains(name@)
                &&& r is Err == old(self).spec_full_names().contains(full)
                &&& match r {
                    Ok(i) => final(self).spec_full_names() == old(self).spec_full_names().push(full)
                        && i.0 == old(self).spec_full_names().len(),
                    Err(i) => final(self).spec_full_names() == old(self).spec_full_names() && i.0
                        < old(self).spec_full_names().len() && old(self).spec_full_names()[i.0 as int]
                        == full,
                }
            }),
    {
        let n = self.add_name(name);
        let full = NsName { namespace, name: n };
        proof {
            assert(self.spec_names()[n.0 as int] == name@);
        }
        let r = self.namespace_names.insert(full, same_name);
        proof {
            if r is Ok {
                assert(self.namespace_names.spec_items() =~= self.namespace_names.spec_keys());
            }
        }
        r
    }

    /// Append the text of the full name `n`: the names of its enclosing
    /// namespaces below the root (following at most `fuel` of them) and
    /// its own name, joined by `.`
    pub fn push_full_name_text(&self, s: &mut String, n: SimNsName, fuel: usize)
        requires
            self.wf(),
            n.0 < self.spec_full_names().len(),
            forall|i: int|
                0 <= i < self.spec_full_names().len() ==> (#[trigger] self.spec_full_names()[i]).namespace.0
                    == 0 || self.spec_full_names()[i].namespace.0 < self.spec_full_names().len(),
        ensures
            final(s)@ == old(s)@ + full_name_text(
                self.spec_full_names(),
                self.spec_names(),
                n.0 as int,
                fuel as nat,
            ),
        decreases fuel,
    {
        let e = *self.namespace_names.get(n);
        if fuel > 0 && e.namespace.0 != 0 {
            self.push_full_name_text(s, e.namespace, fuel - 1);
            push_str(s, ".");
            proof {
                reveal_strlit(".");
            }
        }
        push_str(s, self.names.get(e.name));
        proof {
            assert(s@ =~= old(s)@ + full_name_text(
                self.spec_full_names(),
                self.spec_names(),
                n.0 as int,
                fuel as nat,
            ));
        }
    }
}

impl Names {
    /// The text of the full name `n`: the names of its enclosing
    /// namespaces below the root and its own name, joined by `.`
    pub fn full_name_string(&self, n: SimNsName) -> (r: String)
        requires
            self.wf(),
            n.0 < self.spec_full_names().len(),
            forall|i: int|
                0 <= i < self.spec_full_names().len() ==> (#[trigger] self.spec_full_names()[i]).namespace.0
                    == 0 || self.spec_full_names()[i].namespace.0 < self.spec_full_names().len(),
        ensures
            r@ == full_name_text(
                self.spec_full_names(),
                self.spec_names(),
                n.0 as int,
                self.spec_full_names().len(),
            ),
    {
        let mut s = String::new();
        let count = self.full_name_count();
        self.push_full_name_text(&mut s, n, count);
        proof {
            assert(s@ =~= Seq::<char>::empty() + full_name_text(
                self.spec_full_names(),
                self.spec_names(),
                n.0 as int,
                count as nat,
            ));
        }
        s
    }
}

impl Default for Names {
    fn default() -> (r: Names)
        ensures
            r.wf(),
            r.spec_names() == seq![Seq::<char>::empty()],
            r.spec_full_names() == Seq::<NsName>::empty(),
    {
        Names::new()
    }
}

/// A stack of namespaces, below which the root namespace lies
pub struct NamespaceStack {
    stack: Vec<SimNsName>,
}

impl NamespaceStack {
    /// The namespaces pushed, oldest first
    pub closed spec fn view(&self) -> Seq<SimNsName> {
        self.stack@
    }

    /// An empty stack
    pub fn new() -> (r: NamespaceStack)
        ensures
            r@ == Seq::<SimNsName>::empty(),
    {
        NamespaceStack { stack: Vec::new() }
    }

    /// The namespace last pushed, or the root if there is none
    pub fn top(&self) -> (r: SimNsName)
        ensures
            r == if self@.len() == 0 {
                SimNsName(0)
            } else {
                self@.last()
            },
    {
        if self.stack.len() == 0 {
            SimNsName(0)
        } else {
            self.stack[self.stack.len() - 1]
        }
    }

    /// Push a namespace, which must not be the root
    pub fn push(&mut self, f: SimNsName)
        requires
            f.0 != 0,
        ensures
            final(self)@ == old(self)@.push(f),
    {
        self.stack.push(f);
    }

    /// Pop the namespace last pushed
    pub fn pop(&mut self) -> (r: SimNsName)
        requires
            old(self)@.len() > 0,
        ensures
            r == old(self)@.last(),
            final(self)@ == old(self)@.drop_last(),
    {
        self.stack.pop().unwrap()
    }
}

impl Default for NamespaceStack {
    fn default() -> (r: NamespaceStack)
        ensures
            r@ == Seq::<SimNsName>::empty(),
    {
        NamespaceStack::new()
    }
}

/// Each full name's namespace is the root or a full name added before it,
/// as it is when every name is made inside a namespace that is already
/// there
pub open spec fn namespaces_precede(full: Seq<NsName>) -> bool {
    forall|i: int|
        0 <= i < full.len() ==> (#[trigger] full[i]).namespace.0 == 0 || full[i].namespace.0 < i
}

/// Once it reaches every enclosing namespace, more fuel does not change
/// the text of a full name
proof fn lemma_full_name_text_fuel(full: Seq<NsName>, names: Seq<Seq<char>>, n: int, f1: nat, f2: nat)
    requires
        namespaces_precede(full),
        0 <= n < full.len(),
        f1 >= n,
        f2 >= n,
    ensures
        full_name_text(full, names, n, f1) == full_name_text(full, names, n, f2),
    decreases n,
{
    let p = full[n].namespace.0 as int;
    if p != 0 {
        lemma_full_name_text_fuel(full, names, p, (f1 - 1) as nat, (f2 - 1) as nat);
    }
}

/// The text of a full name (with the fuel that `Names::full_name_string`
/// gives) is its own name for a name in the root namespace, and
/// otherwise the whole text of its enclosing namespace, then `.`, then
/// its own name; so every enclosing namespace below the root is written,
/// outermost first
pub proof fn law_full_name_text(full: Seq<NsName>, names: Seq<Seq<char>>, n: int)
    requires
        namespaces_precede(full),
        0 <= n < full.len(),
    ensures
        full[n].namespace.0 == 0 ==> full_name_text(full, names, n, full.len()) == names[full[
            n
        ].name.0 as int],
        full[n].namespace.0 != 0 ==> full_name_text(full, names, n, full.len()) == full_name_text(
            full,
            names,
            full[n].namespace.0 as int,
            full.len(),
        ) + seq!['.'] + names[full[n].name.0 as int],
{
    let p = full[n].namespace.0 as int;
    if p != 0 {
        lemma_full_name_text_fuel(full, names, p, (full.len() - 1) as nat, full.len());
    }
}

} // verus!
