//! The immutable configuration snapshot: window definitions with their
//! geometry and the variables their widget trees reference.  Replacing the
//! snapshot is atomic from the dispatcher's point of view.

use vstd::prelude::*;

verus! {

use crate::error::AppError;
use crate::smap::StrMap;

/// Where a window edge or center is pinned along one axis.
#[derive(Debug, PartialEq, Eq, Clone, Copy, Structural)]
pub enum AnchorAlignment {
    Start,
    Center,
    End,
}

/// Where a window is anchored on the monitor.
#[derive(Debug, PartialEq, Eq, Clone, Copy, Structural)]
pub struct AnchorPoint {
    pub x: AnchorAlignment,
    pub y: AnchorAlignment,
}

/// A length, either absolute pixels or a percentage of the monitor.
#[derive(Debug, PartialEq, Eq, Clone, Copy, Structural)]
pub enum NumWithUnit {
    Pixels(i32),
    Percent(i32),
}

/// A pair of lengths: a position or a size.
#[derive(Debug, PartialEq, Eq, Clone, Copy, Structural)]
pub struct Coords {
    pub x: NumWithUnit,
    pub y: NumWithUnit,
}

/// Whether a window stays above or below normal windows.
#[derive(Debug, PartialEq, Eq, Clone, Copy, Structural)]
pub enum WindowStacking {
    Foreground,
    Background,
}

/// Geometry of a window: anchor, offset from the anchor, and size.
#[derive(Debug, PartialEq, Eq, Clone, Copy, Structural)]
pub struct WindowGeometry {
    pub anchor_point: AnchorPoint,
    pub offset: Coords,
    pub size: Coords,
}

impl WindowGeometry {
    /// The geometry with each part replaced where an override is given.
    pub fn override_if_given(
        self,
        anchor_point: Option<AnchorPoint>,
        offset: Option<Coords>,
        size: Option<Coords>,
    ) -> (r: WindowGeometry)
        ensures
            r.anchor_point == (match anchor_point {
                Option::Some(a) => a,
                Option::None => self.anchor_point,
            }),
            r.offset == (match offset {
                Option::Some(o) => o,
                Option::None => self.offset,
            }),
            r.size == (match size {
                Option::Some(s) => s,
                Option::None => self.size,
            }),
    {
        WindowGeometry {
            anchor_point: match anchor_point {
                Option::Some(a) => a,
                Option::None => self.anchor_point,
            },
            offset: match offset {
                Option::Some(o) => o,
                Option::None => self.offset,
            },
            size: match size {
                Option::Some(s) => s,
                Option::None => self.size,
            },
        }
    }
}

/// A resolved window definition: everything needed to create the window,
/// including the variables its widget tree references.
#[derive(Debug, PartialEq, Clone)]
pub struct EwwWindowDefinition {
    pub name: String,
    pub geometry: WindowGeometry,
    pub stacking: WindowStacking,
    pub focusable: bool,
    pub screen_number: Option<i32>,
    /// Variable names the window's widget tree reads, resolved when the
    /// configuration was produced.
    pub var_refs: Vec<String>,
}

impl EwwWindowDefinition {
    /// The referenced variable names, by their characters.
    pub open spec fn refs_seq(&self) -> Seq<Seq<char>> {
        self.var_refs@.map_values(|s: String| s@)
    }

    /// An owned copy of the definition (the reference vector is rebuilt, so
    /// equality is stated field by field).
    pub fn duplicate(&self) -> (r: EwwWindowDefinition)
        ensures
            r.name == self.name,
            r.geometry == self.geometry,
            r.stacking == self.stacking,
            r.focusable == self.focusable,
            r.screen_number == self.screen_number,
            r.var_refs@ == self.var_refs@,
    {
        let r = EwwWindowDefinition {
            name: self.name.clone(),
            geometry: self.geometry,
            stacking: self.stacking,
            focusable: self.focusable,
            screen_number: self.screen_number,
            var_refs: crate::value::clone_string_vec(&self.var_refs),
        };
        r
    }
}

/// The configuration snapshot: window definitions keyed by window name.
pub struct EwwConfig {
    pub windows: StrMap<EwwWindowDefinition>,
}

impl EwwConfig {
    /// Well-formed: the key of each definition is its name.
    pub open spec fn wf(&self) -> bool {
        &&& self.windows.wf()
        &&& forall|w: Seq<char>|
            self.windows.contains_spec(w) ==> (#[trigger] self.windows.get_spec(w)).name@ == w
    }

    /// Whether a window of this name is defined.
    pub open spec fn has_window(&self, w: Seq<char>) -> bool {
        self.windows.contains_spec(w)
    }

    /// The definition of a window (meaningful only when defined).
    pub open spec fn window_def(&self, w: Seq<char>) -> EwwWindowDefinition {
        self.windows.get_spec(w)
    }

    /// The defined window names, in definition order.
    pub open spec fn window_names(&self) -> Seq<Seq<char>> {
        self.windows.key_seq()
    }

    /// An empty configuration.
    pub fn new() -> (r: EwwConfig)
        ensures
            r.wf(),
            forall|w: Seq<char>| !r.has_window(w),
            r.window_names() == Seq::<Seq<char>>::empty(),
    {
        EwwConfig { windows: StrMap::new() }
    }

    /// Add or replace a window definition, keyed by its name.
    pub fn define_window(&mut self, def: EwwWindowDefinition)
        requires
            old(self).wf(),
        ensures
            final(self).wf(),
            final(self).has_window(def.name@),
            final(self).window_def(def.name@) == def,
            forall|w: Seq<char>|
                w != def.name@ ==> final(self).has_window(w) == old(self).has_window(w),
            forall|w: Seq<char>|
                w != def.name@ && old(self).has_window(w) ==> final(self).window_def(w) == old(
                    self,
                ).window_def(w),
    {
        let name = def.name.clone();
        self.windows.insert(name, def);
    }

    /// Look a window definition up.
    pub fn get_window<'a>(&'a self, name: &String) -> (r: Result<&'a EwwWindowDefinition, AppError>)
        requires
            self.wf(),
        ensures
            match r {
                Result::Ok(d) => self.has_window(name@) && *d == self.window_def(name@),
                Result::Err(e) => !self.has_window(name@) && (e matches AppError::WindowNotInConfig(
                    n,
                ) && n@ == name@),
            },
    {
        match self.windows.get(name) {
            Option::Some(d) => Result::Ok(d),
            Option::None => Result::Err(AppError::WindowNotInConfig(name.clone())),
        }
    }

    /// Check at run time that the snapshot is well-formed; a configuration
    /// handed in from outside is accepted only after this test.
    pub fn validate(&self) -> (r: bool)
        ensures
            r == self.wf(),
    {
        if !self.windows.check_wf() {
            return false;
        }
        let n = self.windows.len();
        let mut i: usize = 0;
        while i < n
            invariant
                self.windows.wf(),
                n == self.windows.len_spec(),
                i <= n,
                forall|j: int|
                    0 <= j < i ==> (#[trigger] self.windows.get_spec(
                        self.windows.key_seq()[j],
                    )).name@ == self.windows.key_seq()[j],
            decreases n - i,
        {
            let name_matches = self.windows.val_at(i).name.eq(self.windows.key_at(i));
            if !name_matches {
                return false;
            }
            i += 1;
        }
        proof {
            assert forall|w: Seq<char>| self.windows.contains_spec(w)
                implies (#[trigger] self.windows.get_spec(w)).name@ == w by {
                self.windows.lemma_key_seq_contains(w);
                self.windows.lemma_len();
                assert(self.windows.key_seq().contains(w));
                let j = choose|j: int|
                    0 <= j < self.windows.key_seq().len() && self.windows.key_seq()[j] == w;
                assert(0 <= j < self.windows.key_seq().len() && self.windows.key_seq()[j]
                    == w);
                assert(self.windows.get_spec(self.windows.key_seq()[j]).name@
                    == self.windows.key_seq()[j]);
            };
        }
        true
    }

    /// The window definitions, for read-only iteration.
    pub fn get_windows<'a>(&'a self) -> (r: &'a StrMap<EwwWindowDefinition>)
        ensures
            *r == self.windows,
            r.key_seq() == self.window_names(),
    {
        &self.windows
    }
}

} // verus!
