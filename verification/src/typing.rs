//! The fixed table of builtin primitive types.
//!
//! The registry is an explicitly constructed, immutable value that the lexer
//! holds by reference; there is no process-wide state.  The single builtin
//! type is the 8-bit unsigned integer `uint8`, whose declared size is one
//! byte.

use vstd::prelude::*;

verus! {

/// A primitive type of the source language.  `size` is the number of bytes a
/// value of the type occupies on the stack; `None` marks a type that is not
/// stack-resident (reserved for future non-primitive types).
#[derive(Debug, Clone, Copy, PartialEq, Eq, Hash)]
pub struct Type {
    pub size: Option<u64>,
}

impl Type {
    /// The 8-bit unsigned integer type, as a spec-level value.
    pub open spec fn uint8_spec() -> Type {
        Type { size: Some(1u64) }
    }

    /// The 8-bit unsigned integer type: one byte on the stack.
    pub fn uint8() -> (t: Type)
        ensures
            t == Type::uint8_spec(),
    {
        Type { size: Some(1) }
    }
}

/// The name of the single builtin type, as a spec-level value.
pub open spec fn uint8_name() -> Seq<char> {
    seq!['u', 'i', 'n', 't', '8']
}

/// The table of builtin types: a read-only mapping from type name to `Type`,
/// built once by `new` and never mutated afterwards.
pub struct TypeRegistry {
    entries: Vec<(String, Type)>,
}

/// The mapping that a list of name/type entries stands for; a later entry for
/// the same name would win, but `TypeRegistry::wf` rules duplicates out.
pub open spec fn entries_map(entries: Seq<(String, Type)>) -> Map<Seq<char>, Type>
    decreases entries.len(),
{
    if entries.len() == 0 {
        Map::empty()
    } else {
        entries_map(entries.drop_last()).insert(entries.last().0@, entries.last().1)
    }
}

impl View for TypeRegistry {
    type V = Map<Seq<char>, Type>;

    closed spec fn view(&self) -> Map<Seq<char>, Type> {
        entries_map(self.entries@)
    }
}

proof fn lemma_entries_map_index(entries: Seq<(String, Type)>, i: int)
    requires
        0 <= i < entries.len(),
        forall|j: int, k: int|
            0 <= j < k < entries.len() ==> entries[j].0@ != entries[k].0@,
    ensures
        entries_map(entries).contains_key(entries[i].0@),
        entries_map(entries)[entries[i].0@] == entries[i].1,
    decreases entries.len(),
{
    if i == entries.len() - 1 {
    } else {
        lemma_entries_map_index(entries.drop_last(), i);
    }
}

proof fn lemma_entries_map_absent(entries: Seq<(String, Type)>, name: Seq<char>)
    requires
        forall|j: int| 0 <= j < entries.len() ==> entries[j].0@ != name,
    ensures
        !entries_map(entries).contains_key(name),
    decreases entries.len(),
{
    if entries.len() > 0 {
        lemma_entries_map_absent(entries.drop_last(), name);
    }
}

impl TypeRegistry {
    /// The table's names are distinct, so each name stands for one type.
    pub closed spec fn wf(&self) -> bool {
        forall|j: int, k: int|
            0 <= j < k < self.entries@.len() ==> self.entries@[j].0@ != self.entries@[k].0@
    }

    /// Builds the table of builtin types: `uint8`, one byte.
    pub fn new() -> (r: TypeRegistry)
        ensures
            r.wf(),
            r@ =~= map![uint8_name() => Type::uint8_spec()],
    {
        let mut entries: Vec<(String, Type)> = Vec::new();
        entries.push((String::from_str("uint8"), Type::uint8()));
        proof {
            reveal_strlit("uint8");
            assert("uint8"@ =~= uint8_name());
            assert(entries@.drop_last() =~= Seq::<(String, Type)>::empty());
            assert(entries_map(entries@.drop_last()) =~= Map::<Seq<char>, Type>::empty());
            assert(entries_map(entries@) =~= map![uint8_name() => Type::uint8_spec()]);
        }
        TypeRegistry { entries }
    }

    /// Looks a type name up in the table.
    pub fn lookup(&self, name: &String) -> (r: Option<Type>)
        requires
            self.wf(),
        ensures
            r is Some <==> self@.contains_key(name@),
            r is Some ==> r->0 == self@[name@],
    {
        let n = self.entries.len();
        let mut i: usize = 0;
        while i < n
            invariant
                n == self.entries@.len(),
                0 <= i <= n,
                self.wf(),
                forall|j: int| 0 <= j < i ==> self.entries@[j].0@ != name@,
            decreases n - i,
        {
            if self.entries[i].0 == *name {
                proof {
                    lemma_entries_map_index(self.entries@, i as int);
                }
                return Some(self.entries[i].1);
            }
            i += 1;
        }
        proof {
            lemma_entries_map_absent(self.entries@, name@);
        }
        None
    }
}

} // verus!
