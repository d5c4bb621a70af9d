//! The capability probe: which capabilities are declared, and which types
//! satisfy them.
//!
//! Every probe answers `false` unless a rule says otherwise: a rule is a pair
//! of a type and a declared capability, and it overrides the default for that
//! pair alone.

use vstd::prelude::*;
use vstd::slice::slice_to_vec;
use crate::lexer::{is_reference, reference};

verus! {

/// What can go wrong while an expression is read.
#[derive(Clone, Copy, Debug, PartialEq, Eq, Structural)]
pub enum Error {
    /// The expression does not follow the grammar: a parenthesis without its
    /// partner, an operator without an operand, or a byte that starts no token.
    Malformed,
    /// A capability reference names nothing that was declared.
    UnknownCapability,
}

/// An opaque handle to a type. Two handles with the same `id` name the same
/// type.
#[derive(Clone, Copy, Debug, PartialEq, Eq, Structural)]
pub struct TypeRef {
    pub id: u64,
}

/// A handle to a declared capability: its position among the declarations of
/// the registry that resolved it.
#[derive(Clone, Copy, Debug, PartialEq, Eq, Structural)]
pub struct CapRef {
    pub index: usize,
}

/// One rule: the type `ty` satisfies the capability `cap`.
#[derive(Clone, Copy, Debug, PartialEq, Eq, Structural)]
pub struct Rule {
    pub ty: TypeRef,
    pub cap: CapRef,
}

/// The first position at or after `from` at which `names` holds `name`.
pub open spec fn position(names: Seq<Seq<u8>>, name: Seq<u8>, from: int) -> Option<int>
    decreases names.len() - from,
{
    if from < 0 || from >= names.len() {
        None
    } else if names[from] == name {
        Some(from)
    } else {
        position(names, name, from + 1)
    }
}

/// The capability that the text `name` refers to among the declarations
/// `names`, if any.
pub open spec fn resolve_in(names: Seq<Seq<u8>>, name: Seq<u8>) -> Option<CapRef> {
    match position(names, name, 0) {
        Some(i) => Some(CapRef { index: i as usize }),
        None => None,
    }
}

/// Whether `rules` holds the pair of `ty` and `cap`.
pub open spec fn has_rule(rules: Seq<Rule>, ty: TypeRef, cap: CapRef) -> bool {
    rules.contains(Rule { ty, cap })
}

/// A position that `position` finds is in range and holds the name; where it
/// finds none, no position from `from` on holds it.
pub proof fn lemma_position(names: Seq<Seq<u8>>, name: Seq<u8>, from: int)
    requires
        0 <= from,
    ensures
        match position(names, name, from) {
            Some(i) => from <= i < names.len() && names[i] == name,
            None => forall|j: int| from <= j < names.len() ==> names[j] != name,
        },
    decreases names.len() - from,
{
    if from < names.len() && names[from] != name {
        lemma_position(names, name, from + 1);
    }
}

/// Appending a declaration changes no position that was found, and gives the
/// new name the new last position if it had none.
pub proof fn lemma_position_push(names: Seq<Seq<u8>>, added: Seq<u8>, name: Seq<u8>, from: int)
    requires
        0 <= from <= names.len(),
    ensures
        position(names.push(added), name, from) == match position(names, name, from) {
            Some(i) => Some(i),
            None => if name == added {
                Some(names.len() as int)
            } else {
                None
            },
        },
    decreases names.len() - from,
{
    let grown = names.push(added);
    if from < names.len() {
        assert(grown[from] == names[from]);
        if names[from] != name {
            lemma_position_push(names, added, name, from + 1);
        }
    } else {
        assert(grown[from] == added);
        assert(position(grown, name, from + 1) is None);
    }
}

/// Compares two byte strings.
pub fn same_bytes(a: &[u8], b: &[u8]) -> (same: bool)
    ensures
        same == (a@ == b@),
{
    if a.len() != b.len() {
        return false;
    }
    let mut i: usize = 0;
    while i < a.len()
        invariant
            a@.len() == b@.len(),
            i <= a@.len(),
            forall|j: int| 0 <= j < i ==> a@[j] == b@[j],
        decreases a@.len() - i,
    {
        if a[i] != b[i] {
            return false;
        }
        i = i + 1;
    }
    assert(a@ =~= b@);
    true
}

/// The declared capabilities and the rules that say which type satisfies
/// which of them.
pub struct Registry {
    names: Vec<Vec<u8>>,
    rules: Vec<Rule>,
}

impl Registry {
    /// The declared capability references, in the order of their declaration.
    pub closed spec fn names(&self) -> Seq<Seq<u8>> {
        Seq::new(self.names@.len(), |i: int| self.names@[i]@)
    }

    /// The rules, in the order in which they were added.
    pub closed spec fn rules(&self) -> Seq<Rule> {
        self.rules@
    }

    /// Every declaration is a capability reference, none stands twice, and
    /// every rule speaks of a declared capability.
    pub open spec fn wf(&self) -> bool {
        &&& forall|i: int|
            0 <= i < self.names().len() ==> is_reference(#[trigger] self.names()[i])
        &&& self.names().no_duplicates()
        &&& forall|i: int|
            0 <= i < self.rules().len() ==> (#[trigger] self.rules()[i]).cap.index
                < self.names().len()
    }

    /// Whether the text `name` refers to a declared capability.
    pub open spec fn declares(&self, name: Seq<u8>) -> bool {
        resolve_in(self.names(), name) is Some
    }

    /// What a probe of `ty` for `cap` answers: `true` exactly where a rule
    /// says so.
    pub open spec fn satisfies(&self, ty: TypeRef, cap: CapRef) -> bool {
        has_rule(self.rules(), ty, cap)
    }

    /// A registry without declarations and without rules: every probe answers
    /// `false`.
    pub fn new() -> (reg: Registry)
        ensures
            reg.wf(),
            reg.names() == Seq::<Seq<u8>>::empty(),
            reg.rules() == Seq::<Rule>::empty(),
            forall|name: Seq<u8>| !reg.declares(name),
            forall|ty: TypeRef, cap: CapRef| !reg.satisfies(ty, cap),
    {
        let reg = Registry { names: Vec::new(), rules: Vec::new() };
        assert(reg.names() =~= Seq::<Seq<u8>>::empty());
        reg
    }

    /// Finds the capability that the text `name` refers to: the first
    /// declaration with exactly these bytes.
    pub fn resolve(&self, name: &[u8]) -> (found: Option<CapRef>)
        ensures
            found == resolve_in(self.names(), name@),
            found matches Some(cap) ==> cap.index < self.names().len() && self.names()[cap.index as int]
                == name@,
            found is None ==> !self.names().contains(name@),
    {
        proof {
            lemma_position(self.names(), name@, 0);
        }
        let mut i: usize = 0;
        while i < self.names.len()
            invariant
                i <= self.names@.len(),
                position(self.names(), name@, 0) == position(self.names(), name@, i as int),
            decreases self.names@.len() - i,
        {
            assert(self.names()[i as int] == self.names@[i as int]@);
            if same_bytes(self.names[i].as_slice(), name) {
                return Some(CapRef { index: i });
            }
            i = i + 1;
        }
        None
    }

    /// Declares the capability reference `name` and returns its handle. A name
    /// that is declared already keeps its handle, and nothing changes. Bytes
    /// that are no capability reference are `Error::Malformed`, and nothing
    /// changes.
    pub fn declare(&mut self, name: &[u8]) -> (cap: Result<CapRef, Error>)
        requires
            old(self).wf(),
        ensures
            final(self).wf(),
            final(self).rules() == old(self).rules(),
            cap is Ok <==> is_reference(name@),
            cap is Err ==> cap == Err::<CapRef, Error>(Error::Malformed),
            final(self).names() == if old(self).declares(name@) || cap is Err {
                old(self).names()
            } else {
                old(self).names().push(name@)
            },
            cap matches Ok(c) ==> resolve_in(final(self).names(), name@) == Some(c) && c.index
                < final(self).names().len() && final(self).names()[c.index as int] == name@,
            forall|other: Seq<u8>|
                other != name@ ==> #[trigger] resolve_in(final(self).names(), other) == resolve_in(
                    old(self).names(),
                    other,
                ),
    {
        if !reference(name) {
            return Err(Error::Malformed);
        }
        match self.resolve(name) {
            Some(cap) => Ok(cap),
            None => {
                let ghost before = self.names();
                let ghost rules = self.rules();
                let index = self.names.len();
                self.names.push(slice_to_vec(name));
                proof {
                    assert(self.names() =~= before.push(name@));
                    assert(self.rules() == rules);
                    lemma_position_push(before, name@, name@, 0);
                    assert forall|other: Seq<u8>| other != name@ implies #[trigger] resolve_in(
                        self.names(),
                        other,
                    ) == resolve_in(before, other) by {
                        lemma_position_push(before, name@, other, 0);
                    }
                }
                Ok(CapRef { index })
            },
        }
    }

    /// Adds the rule that `ty` satisfies `cap`. A handle that no declaration
    /// stands behind is refused, and nothing changes.
    pub fn implement(&mut self, ty: TypeRef, cap: CapRef) -> (done: Result<(), Error>)
        requires
            old(self).wf(),
        ensures
            final(self).wf(),
            final(self).names() == old(self).names(),
            done is Ok <==> cap.index < old(self).names().len(),
            done is Err ==> done == Err::<(), Error>(Error::UnknownCapability),
            final(self).rules() == if done is Ok {
                old(self).rules().push(Rule { ty, cap })
            } else {
                old(self).rules()
            },
            forall|t: TypeRef, c: CapRef|
                #[trigger] final(self).satisfies(t, c) == (old(self).satisfies(t, c) || (done is Ok
                    && t == ty && c == cap)),
    {
        if cap.index >= self.names.len() {
            return Err(Error::UnknownCapability);
        }
        let ghost before = self.rules();
        self.rules.push(Rule { ty, cap });
        proof {
            let added = Rule { ty, cap };
            assert forall|t: TypeRef, c: CapRef| #[trigger]
                self.satisfies(t, c) == (has_rule(before, t, c) || (t == ty && c == cap)) by {
                let wanted = Rule { ty: t, cap: c };
                if before.contains(wanted) {
                    let i = choose|i: int| 0 <= i < before.len() && before[i] == wanted;
                    assert(self.rules()[i] == wanted);
                }
                if wanted == added {
                    assert(self.rules()[before.len() as int] == wanted);
                }
            }
        }
        Ok(())
    }

    /// The probe: whether `ty` satisfies `cap`. The answer is `false` unless a
    /// rule for this very pair was added.
    pub fn probe(&self, ty: TypeRef, cap: CapRef) -> (holds: bool)
        ensures
            holds == self.satisfies(ty, cap),
    {
        let mut i: usize = 0;
        while i < self.rules.len()
            invariant
                i <= self.rules@.len(),
                forall|j: int| 0 <= j < i ==> self.rules@[j] != (Rule { ty, cap }),
            decreases self.rules@.len() - i,
        {
            let rule = self.rules[i];
            if rule.ty.id == ty.id && rule.cap.index == cap.index {
                assert(self.rules@[i as int] == (Rule { ty, cap }));
                return true;
            }
            i = i + 1;
        }
        false
    }
}

} // verus!
