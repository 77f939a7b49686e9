//! Global bindings registry: a construction-time-populated mapping from
//! binding name to a target-source fragment, consulted as the outermost
//! fallback of identifier resolution.

use vstd::prelude::*;
use crate::CompileError;

verus! {

/// One named intrinsic library: a binding name and the target-language
/// source fragment that implements it.
pub struct GlobalBinding {
    pub name: String,
    pub codegen: String,
}

/// The codegen fragment of the first binding named `x` among `gs[j..]`.
pub open spec fn find_global(gs: Seq<GlobalBinding>, j: int, x: Seq<char>) -> Option<Seq<char>>
    decreases gs.len() - j,
{
    if j < 0 || j >= gs.len() {
        None
    } else if gs[j].name@ == x {
        Some(gs[j].codegen@)
    } else {
        find_global(gs, j + 1, x)
    }
}

/// A registry of global bindings with pairwise-distinct names.
pub struct GlobalRegistry {
    bindings: Vec<GlobalBinding>,
}

impl GlobalRegistry {
    /// The registered bindings, in registration order.
    pub closed spec fn bindings(&self) -> Seq<GlobalBinding> {
        self.bindings@
    }

    /// The registered names, in registration order.
    pub open spec fn names(&self) -> Seq<Seq<char>> {
        self.bindings().map_values(|b: GlobalBinding| b.name@)
    }

    /// Names are pairwise distinct: registration rejects duplicates.
    pub open spec fn wf(&self) -> bool {
        forall|i: int, j: int|
            0 <= i < j < self.names().len() ==> self.names()[i] != self.names()[j]
    }

    /// Whether some binding is registered under `name`.
    pub open spec fn has_name(&self, name: Seq<char>) -> bool {
        self.names().contains(name)
    }

    pub fn new() -> (r: GlobalRegistry)
        ensures
            r.wf(),
            r.bindings() == Seq::<GlobalBinding>::empty(),
    {
        GlobalRegistry { bindings: Vec::new() }
    }

    pub fn len(&self) -> (r: usize)
        ensures
            r == self.bindings().len(),
    {
        self.bindings.len()
    }

    /// Registers a binding. A name already present is a construction-time
    /// error: the registry is left unchanged and no binding is replaced.
    pub fn register(&mut self, b: GlobalBinding) -> (r: Result<(), CompileError>)
        requires
            old(self).wf(),
        ensures
            final(self).wf(),
            old(self).has_name(b.name@) ==> r == Result::<(), CompileError>::Err(
                CompileError::DuplicateBindingName,
            ) && final(self).bindings() == old(self).bindings(),
            !old(self).has_name(b.name@) ==> r == Result::<(), CompileError>::Ok(())
                && final(self).bindings() == old(self).bindings().push(b),
    {
        let n = self.bindings.len();
        for i in 0..n
            invariant
                n == self.bindings().len(),
                self.wf(),
                forall|j: int| 0 <= j < i ==> self.names()[j] != b.name@,
        {
            if self.bindings[i].name == b.name {
                assert(self.names()[i as int] == b.name@);
                return Err(CompileError::DuplicateBindingName);
            }
        }
        assert(!self.has_name(b.name@)) by {
            if self.has_name(b.name@) {
                let k = choose|k: int|
                    0 <= k < self.names().len() && self.names()[k] == b.name@;
            }
        }
        let ghost pre = self.bindings@;
        self.bindings.push(b);
        assert(self.names() =~= pre.map_values(|bb: GlobalBinding| bb.name@).push(b.name@));
        Ok(())
    }

    /// The codegen fragment of the first binding named `x`, scanning in
    /// registration order.
    pub fn lookup_fragment(&self, x: &String) -> (r: Option<String>)
        ensures
            match r {
                Some(c) => find_global(self.bindings(), 0, x@) == Some(c@),
                None => find_global(self.bindings(), 0, x@) is None,
            },
    {
        let n = self.bindings.len();
        let mut j: usize = 0;
        while j < n
            invariant
                0 <= j <= n,
                n == self.bindings().len(),
                find_global(self.bindings(), 0, x@) == find_global(self.bindings(), j as int, x@),
            decreases n - j,
        {
            if self.bindings[j].name == *x {
                return Some(self.bindings[j].codegen.clone());
            }
            j = j + 1;
        }
        None
    }

}

/// The standard I/O library binding: read and write primitives.
pub fn io_global() -> (r: GlobalBinding)
    ensures
        r.name@ == "IO"@,
        r.codegen@ == "js_rt_io()"@,
{
    GlobalBinding { name: String::from_str("IO"), codegen: String::from_str("js_rt_io()") }
}

/// The standard JSON library binding: serialize and deserialize values.
pub fn json_global() -> (r: GlobalBinding)
    ensures
        r.name@ == "JSON"@,
        r.codegen@ == "js_rt_json()"@,
{
    GlobalBinding { name: String::from_str("JSON"), codegen: String::from_str("js_rt_json()") }
}

/// The unique-symbol primitive binding: values equal by identity alone.
pub fn symbol_global() -> (r: GlobalBinding)
    ensures
        r.name@ == "Symbol"@,
        r.codegen@ == "js_rt_symbol()"@,
{
    GlobalBinding { name: String::from_str("Symbol"), codegen: String::from_str("js_rt_symbol()") }
}

} // verus!
