//! The variable store: current values of the named reactive variables, plus
//! the per-window cache of which variables each open window's widget tree
//! references.  Updates for variables no open window references are rejected
//! rather than buffered, so producers that were not yet told to stop cannot
//! grow the store without bound.

use vstd::prelude::*;

verus! {

use crate::error::AppError;
use crate::smap::StrMap;
use crate::value::PrimitiveValue;

/// Current variable values and per-window reference caches.
pub struct EwwState {
    /// Variable name to current value.  Values of variables that fell out of
    /// use stay here; only the reference caches decide what is live.
    pub variables_state: StrMap<PrimitiveValue>,
    /// Open window name to the variables its widget tree references, cached
    /// once at window-open time.
    pub window_refs: StrMap<Vec<String>>,
}

impl EwwState {
    /// Both underlying maps are well-formed.
    pub open spec fn wf(&self) -> bool {
        &&& self.variables_state.wf()
        &&& self.window_refs.wf()
    }

    /// Whether the store holds a value for a variable.
    pub open spec fn var_defined(&self, v: Seq<char>) -> bool {
        self.variables_state.contains_spec(v)
    }

    /// The stored value of a variable (meaningful only when defined).
    pub open spec fn var_value(&self, v: Seq<char>) -> PrimitiveValue {
        self.variables_state.get_spec(v)
    }

    /// Whether a reference cache exists for a window.
    pub open spec fn has_window(&self, w: Seq<char>) -> bool {
        self.window_refs.contains_spec(w)
    }

    /// The cached references of a window (meaningful only when present).
    pub open spec fn refs_of(&self, w: Seq<char>) -> Seq<Seq<char>> {
        self.window_refs.get_spec(w)@.map_values(|s: String| s@)
    }

    /// Whether window `w` is open and references variable `v`.
    pub open spec fn references(&self, w: Seq<char>, v: Seq<char>) -> bool {
        self.has_window(w) && self.refs_of(w).contains(v)
    }

    /// Whether any open window references variable `v`.
    pub open spec fn referenced(&self, v: Seq<char>) -> bool {
        exists|w: Seq<char>| self.references(w, v)
    }

    /// The cached window names, in insertion order.
    pub open spec fn window_names(&self) -> Seq<Seq<char>> {
        self.window_refs.key_seq()
    }

    /// An empty store.
    pub fn new() -> (r: EwwState)
        ensures
            r.wf(),
            forall|v: Seq<char>| !r.var_defined(v),
            forall|w: Seq<char>| !r.has_window(w),
    {
        EwwState { variables_state: StrMap::new(), window_refs: StrMap::new() }
    }

    /// Read a variable's current value.
    pub fn get<'a>(&'a self, name: &String) -> (r: Option<&'a PrimitiveValue>)
        requires
            self.wf(),
        ensures
            match r {
                Option::Some(v) => self.var_defined(name@) && *v == self.var_value(name@),
                Option::None => !self.var_defined(name@),
            },
    {
        self.variables_state.get(name)
    }

    /// Whether the store holds a value for this variable.
    pub fn has_variable(&self, name: &String) -> (r: bool)
        ensures
            r == self.var_defined(name@),
    {
        self.variables_state.contains_key(name)
    }

    /// Store a value without the reference test; used when a window opens and
    /// its variables get their first (placeholder) values.
    pub fn define_variable(&mut self, name: String, value: PrimitiveValue)
        requires
            old(self).wf(),
        ensures
            final(self).wf(),
            final(self).window_refs == old(self).window_refs,
            final(self).var_defined(name@),
            final(self).var_value(name@) == value,
            forall|v: Seq<char>|
                v != name@ ==> final(self).var_defined(v) == old(self).var_defined(v),
            forall|v: Seq<char>|
                v != name@ && old(self).var_defined(v) ==> final(self).var_value(v) == old(
                    self,
                ).var_value(v),
    {
        self.variables_state.insert(name, value);
    }

    /// Whether any open window references this variable.
    pub fn is_referenced(&self, name: &String) -> (r: bool)
        requires
            self.wf(),
        ensures
            r == self.referenced(name@),
    {
        let n = self.window_refs.len();
        let mut i: usize = 0;
        while i < n
            invariant
                self.wf(),
                n == self.window_refs.len_spec(),
                i <= n,
                forall|j: int|
                    0 <= j < i ==> !(#[trigger] self.refs_of(self.window_names()[j])).contains(
                        name@,
                    ),
            decreases n - i,
        {
            let refs = self.window_refs.val_at(i);
            if vec_contains_string(refs, name) {
                proof {
                    assert(self.references(self.window_names()[i as int], name@));
                }
                return true;
            }
            i += 1;
        }
        proof {
            assert forall|w: Seq<char>| !self.references(w, name@) by {
                if self.has_window(w) {
                    self.window_refs.lemma_key_seq_contains(w);
                    self.window_refs.lemma_len();
                    assert(self.window_names().contains(w));
                    let j = choose|j: int|
                        0 <= j < self.window_names().len() && self.window_names()[j] == w;
                    assert(0 <= j < self.window_names().len() && self.window_names()[j] == w);
                    assert(!self.refs_of(self.window_names()[j]).contains(name@));
                }
            };
        }
        false
    }

    /// Update a variable's value.  Fails when no open window references the
    /// variable: stale updates from producers that were not yet stopped are
    /// rejected, never buffered.
    pub fn update_variable(&mut self, fieldname: String, value: PrimitiveValue) -> (r: Result<
        (),
        AppError,
    >)
        requires
            old(self).wf(),
        ensures
            final(self).wf(),
            final(self).window_refs == old(self).window_refs,
            r is Ok <==> old(self).referenced(fieldname@),
            r matches Err(e) ==> {
                &&& *final(self) == *old(self)
                &&& e matches AppError::VarNotReferenced(n) && n@ == fieldname@
            },
            r is Ok ==> {
                &&& final(self).var_defined(fieldname@)
                &&& final(self).var_value(fieldname@) == value
                &&& forall|v: Seq<char>|
                    v != fieldname@ ==> final(self).var_defined(v) == old(self).var_defined(v)
                &&& forall|v: Seq<char>|
                    v != fieldname@ && old(self).var_defined(v) ==> final(self).var_value(v)
                        == old(self).var_value(v)
            },
    {
        if self.is_referenced(&fieldname) {
            self.variables_state.insert(fieldname, value);
            Result::Ok(())
        } else {
            Result::Err(AppError::VarNotReferenced(fieldname))
        }
    }

    /// The variables referenced by one open window, as cached at open time; an
    /// unknown window references nothing.
    pub fn vars_referenced_in(&self, window_name: &String) -> (r: Vec<String>)
        requires
            self.wf(),
        ensures
            self.has_window(window_name@) ==> r@.map_values(|s: String| s@) == self.refs_of(
                window_name@,
            ),
            !self.has_window(window_name@) ==> r@.len() == 0,
    {
        match self.window_refs.get(window_name) {
            Option::Some(refs) => crate::value::clone_string_vec(refs),
            Option::None => Vec::new(),
        }
    }

    /// Install the reference cache for a window that just opened.
    pub fn put_window_refs(&mut self, window_name: String, refs: Vec<String>)
        requires
            old(self).wf(),
        ensures
            final(self).wf(),
            final(self).variables_state == old(self).variables_state,
            final(self).has_window(window_name@),
            final(self).refs_of(window_name@) == refs@.map_values(|s: String| s@),
            forall|w: Seq<char>|
                w != window_name@ ==> final(self).has_window(w) == old(self).has_window(w),
            forall|w: Seq<char>|
                w != window_name@ && old(self).has_window(w) ==> final(self).refs_of(w) == old(
                    self,
                ).refs_of(w),
    {
        self.window_refs.insert(window_name, refs);
    }

    /// Drop the reference cache of a window that closed.  Values stay in the
    /// store; only what counts as referenced changes.
    pub fn clear_window_state(&mut self, window_name: &String)
        requires
            old(self).wf(),
        ensures
            final(self).wf(),
            final(self).variables_state == old(self).variables_state,
            !final(self).has_window(window_name@),
            forall|w: Seq<char>|
                w != window_name@ ==> final(self).has_window(w) == old(self).has_window(w),
            forall|w: Seq<char>|
                w != window_name@ && old(self).has_window(w) ==> final(self).refs_of(w) == old(
                    self,
                ).refs_of(w),
    {
        let _ = self.window_refs.remove(window_name);
    }

    /// Drop every window's reference cache; used when the whole configuration
    /// is replaced.
    pub fn clear_all_window_states(&mut self)
        requires
            old(self).wf(),
        ensures
            final(self).wf(),
            final(self).variables_state == old(self).variables_state,
            forall|w: Seq<char>| !final(self).has_window(w),
    {
        self.window_refs = StrMap::new();
    }

    /// The variable values, for read-only iteration.
    pub fn get_variables<'a>(&'a self) -> (r: &'a StrMap<PrimitiveValue>)
        ensures
            *r == self.variables_state,
    {
        &self.variables_state
    }
}

/// The character sequences of a sequence of strings.
pub open spec fn views_of(s: Seq<String>) -> Seq<Seq<char>> {
    s.map_values(|t: String| t@)
}

/// Whether a vector of strings holds the given string.
pub fn vec_contains_string(v: &Vec<String>, s: &String) -> (r: bool)
    ensures
        r == v@.map_values(|x: String| x@).contains(s@),
{
    let n = v.len();
    let mut i: usize = 0;
    while i < n
        invariant
            n == v@.len(),
            i <= n,
            forall|j: int| 0 <= j < i ==> v@[j]@ != s@,
        decreases n - i,
    {
        if v[i].eq(s) {
            proof {
                assert(v@.map_values(|x: String| x@)[i as int] == s@);
            }
            return true;
        }
        i += 1;
    }
    proof {
        let m = v@.map_values(|x: String| x@);
        assert forall|j: int| 0 <= j < m.len() implies m[j] != s@ by {
            assert(v@[j]@ != s@);
        };
    }
    false
}

} // verus!
