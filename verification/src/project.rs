//! A `Project` is a collection of IR modules to be explored.
//!
//! Modules are appended in order and never mutated afterwards. Lookups scan
//! the modules in insertion order. A function name may be defined in at most
//! one module of a project: callers check with `find_duplicate_function`
//! before looking up, and treat a duplicate as a fatal caller error. Named
//! struct types may be declared in several modules; the lookup reconciles
//! the declarations, preferring any concrete definition over an opaque one
//! and any non-empty body over an empty placeholder body, and treats
//! genuinely conflicting definitions as a fatal caller error, checked with
//! `find_struct_conflict`.

use vstd::prelude::*;

use vstd::pervasive::unreached;
use vstd::string::StrSliceExecFns;

use crate::ir::{Function, FunctionV, Module, ModuleV, NamedStructType, NamedStructTypeV,
    StructDef, StructDefV};

verus! {

/// Whether some function of the module bears the given name.
pub open spec fn module_has_func(m: ModuleV, name: Seq<char>) -> bool {
    exists|j: int| 0 <= j < m.functions.len() && (#[trigger] m.functions[j]).name == name
}

/// At most one module of the sequence defines a function of the given name.
pub open spec fn func_in_one_module(p: Seq<ModuleV>, name: Seq<char>) -> bool {
    forall|i1: int, i2: int|
        0 <= i1 < i2 < p.len() ==> !(#[trigger] module_has_func(p[i1], name)
            && #[trigger] module_has_func(p[i2], name))
}

/// The collection of loaded modules, in insertion order.
pub struct Project {
    modules: Vec<Module>,
}

impl View for Project {
    type V = Seq<ModuleV>;

    closed spec fn view(&self) -> Seq<ModuleV> {
        self.modules@.map_values(|m: Module| m@)
    }
}

impl Module {
    /// The first function of this module bearing the given name, if any.
    pub fn get_func_by_name<'a>(&'a self, name: &String) -> (r: Option<&'a Function>)
        ensures
            match r {
                Some(f) => exists|j: int|
                    0 <= j < self@.functions.len() && f@ == self@.functions[j] && f@.name == name@
                        && (forall|j2: int|
                        0 <= j2 < j ==> (#[trigger] self@.functions[j2]).name != name@),
                None => forall|j: int|
                    0 <= j < self@.functions.len() ==> (#[trigger] self@.functions[j]).name
                        != name@,
            },
            (r is Some) == module_has_func(self@, name@),
    {
        let mut j: usize = 0;
        while j < self.functions.len()
            invariant
                0 <= j <= self.functions.len(),
                forall|j2: int| 0 <= j2 < j ==> (#[trigger] self@.functions[j2]).name != name@,
            decreases self.functions.len() - j,
        {
            if self.functions[j].name == *name {
                proof {
                    assert(self@.functions[j as int] == self.functions@[j as int]@);
                }
                return Some(&self.functions[j]);
            }
            j = j + 1;
        }
        None
    }
}

impl Project {
    /// A project holding the given modules, in the given order.
    pub fn from_modules(modules: Vec<Module>) -> (p: Project)
        ensures
            p@ == modules@.map_values(|m: Module| m@),
    {
        Project { modules }
    }

    /// Append one more module.
    pub fn add_module(&mut self, module: Module)
        ensures
            final(self)@ == old(self)@.push(module@),
    {
        self.modules.push(module);
        proof {
            assert(self@ =~= old(self)@.push(self.modules@.last()@));
        }
    }

    /// Search the project for a function with the given name; if one is
    /// found, return it together with the module it was found in. The
    /// function must live in at most one module: two modules defining the
    /// same name is a caller error, which `find_duplicate_function` detects
    /// and which this contract rules out.
    pub fn get_func_by_name<'p>(&'p self, name: &String) -> (r: Option<(&'p Function, &'p Module)>)
        requires
            func_in_one_module(self@, name@),
        ensures
            match r {
                Some(fm) => exists|i: int|
                    0 <= i < self@.len() && #[trigger] module_has_func(self@[i], name@) && fm.1@
                        == self@[i] && (exists|j: int|
                        0 <= j < self@[i].functions.len() && fm.0@ == self@[i].functions[j]
                            && fm.0@.name == name@ && (forall|j2: int|
                            0 <= j2 < j ==> (#[trigger] self@[i].functions[j2]).name != name@)),
                None => forall|i: int|
                    0 <= i < self@.len() ==> !(#[trigger] module_has_func(self@[i], name@)),
            },
            (r is Some) == exists|i: int|
                0 <= i < self@.len() && #[trigger] module_has_func(self@[i], name@),
    {
        let mut i: usize = 0;
        while i < self.modules.len()
            invariant
                0 <= i <= self.modules.len(),
                forall|i2: int| 0 <= i2 < i ==> !(#[trigger] module_has_func(self@[i2], name@)),
            decreases self.modules.len() - i,
        {
            let m = &self.modules[i];
            proof {
                assert(m@ == self@[i as int]);
            }
            match m.get_func_by_name(name) {
                Some(f) => {
                    return Some((f, m));
                },
                None => {},
            }
            i = i + 1;
        }
        None
    }

    /// Search like `get_func_by_name`, but total: when two modules both
    /// define the name, the pair of their positions comes back as the error
    /// instead of the caller having to rule the case out beforehand. The
    /// driver turns the error into the fatal diagnostic naming the function
    /// and both modules.
    pub fn try_get_func_by_name<'p>(&'p self, name: &String) -> (r: Result<
        Option<(&'p Function, &'p Module)>,
        (usize, usize),
    >)
        ensures
            match r {
                Ok(opt) => func_in_one_module(self@, name@) && ((opt is Some) == exists|i: int|
                    0 <= i < self@.len() && #[trigger] module_has_func(self@[i], name@))
                    && match opt {
                    Some(fm) => exists|i: int|
                        0 <= i < self@.len() && #[trigger] module_has_func(self@[i], name@)
                            && fm.1@ == self@[i] && (exists|j: int|
                            0 <= j < self@[i].functions.len() && fm.0@ == self@[i].functions[j]
                                && fm.0@.name == name@ && (forall|j2: int|
                                0 <= j2 < j ==> (#[trigger] self@[i].functions[j2]).name
                                    != name@)),
                    None => forall|i: int|
                        0 <= i < self@.len() ==> !(#[trigger] module_has_func(self@[i], name@)),
                },
                Err(ij) => 0 <= ij.0 < ij.1 < self@.len() && module_has_func(
                    self@[ij.0 as int],
                    name@,
                ) && module_has_func(self@[ij.1 as int], name@),
            },
    {
        match self.find_duplicate_function(name) {
            Some(ij) => Err(ij),
            None => Ok(self.get_func_by_name(name)),
        }
    }

    /// Whether two modules both define a function of the given name: the
    /// project-wide uniqueness check. Returns the first such pair of module
    /// positions, earliest first, or `None` when the name lives in at most
    /// one module and lookups are safe.
    pub fn find_duplicate_function(&self, name: &String) -> (r: Option<(usize, usize)>)
        ensures
            match r {
                Some(ij) => 0 <= ij.0 < ij.1 < self@.len() && module_has_func(
                    self@[ij.0 as int],
                    name@,
                ) && module_has_func(self@[ij.1 as int], name@),
                None => func_in_one_module(self@, name@),
            },
    {
        let mut first_hit: Option<usize> = None;
        let mut i: usize = 0;
        while i < self.modules.len()
            invariant
                0 <= i <= self.modules.len(),
                match first_hit {
                    Some(h) => 0 <= h < i && module_has_func(self@[h as int], name@) && (
                    forall|i2: int|
                        0 <= i2 < i && i2 != h ==> !(#[trigger] module_has_func(
                            self@[i2],
                            name@,
                        ))),
                    None => forall|i2: int|
                        0 <= i2 < i ==> !(#[trigger] module_has_func(self@[i2], name@)),
                },
            decreases self.modules.len() - i,
        {
            let m = &self.modules[i];
            proof {
                assert(m@ == self@[i as int]);
            }
            if m.get_func_by_name(name).is_some() {
                match first_hit {
                    Some(h) => {
                        return Some((h, i));
                    },
                    None => {
                        first_hit = Some(i);
                    },
                }
            }
            i = i + 1;
        }
        None
    }
}

/// The first named-struct entry of a module bearing the given name, if any.
pub open spec fn first_struct_entry(ts: Seq<NamedStructTypeV>, name: Seq<char>) -> Option<
    NamedStructTypeV,
>
    decreases ts.len(),
{
    if ts.len() == 0 {
        None
    } else if ts.first().name == name {
        Some(ts.first())
    } else {
        first_struct_entry(ts.drop_first(), name)
    }
}

/// The outcome of reconciling a struct name over the first `n` modules:
/// nothing declares the name; or one reconciled candidate definition with
/// the module it came from; or two genuinely conflicting concrete
/// definitions, by module position.
pub enum StructScan {
    NoneFound,
    Found { def: Option<StructDefV>, module: int },
    Conflict { first: int, second: int },
}

/// Reconciliation over the first `n` modules, scanned in insertion order:
/// the first declaration found becomes the candidate; an opaque declaration
/// never displaces a candidate; a concrete definition displaces an opaque
/// candidate; two concrete definitions must agree structurally, except that
/// a definition with an empty element list yields to a non-empty one; any
/// other disagreement is a conflict, which is final.
pub open spec fn struct_scan(p: Seq<ModuleV>, name: Seq<char>, n: int) -> StructScan
    decreases n,
{
    if n <= 0 {
        StructScan::NoneFound
    } else {
        let prev = struct_scan(p, name, n - 1);
        match first_struct_entry(p[n - 1].named_struct_types, name) {
            None => prev,
            Some(t) => match prev {
                StructScan::NoneFound => StructScan::Found { def: t.def, module: n - 1 },
                StructScan::Conflict { .. } => prev,
                StructScan::Found { def, module } => match (def, t.def) {
                    (_, None) => prev,
                    (None, Some(d2)) => StructScan::Found { def: Some(d2), module: n - 1 },
                    (Some(d1), Some(d2)) => if d1 == d2 {
                        prev
                    } else if d1.elements.len() == 0 {
                        StructScan::Found { def: Some(d2), module: n - 1 }
                    } else if d2.elements.len() == 0 {
                        prev
                    } else {
                        StructScan::Conflict { first: module, second: n - 1 }
                    },
                },
            },
        }
    }
}

/// A conflict is final: once the scan reaches one, scanning further modules
/// changes nothing.
pub proof fn lemma_scan_conflict_final(p: Seq<ModuleV>, name: Seq<char>, i: int, n: int)
    requires
        0 <= i <= n,
        struct_scan(p, name, i) is Conflict,
    ensures
        struct_scan(p, name, n) == struct_scan(p, name, i),
    decreases n - i,
{
    if n > i {
        lemma_scan_conflict_final(p, name, i, n - 1);
    }
}

/// Structural equality of two struct bodies.
pub fn struct_defs_equal(a: &StructDef, b: &StructDef) -> (r: bool)
    ensures
        r == (a@ == b@),
{
    if a.packed != b.packed {
        return false;
    }
    if a.elements.len() != b.elements.len() {
        return false;
    }
    let mut k: usize = 0;
    while k < a.elements.len()
        invariant
            0 <= k <= a.elements.len(),
            a.elements.len() == b.elements.len(),
            a.packed == b.packed,
            forall|k2: int| 0 <= k2 < k ==> a@.elements[k2] == b@.elements[k2],
        decreases a.elements.len() - k,
    {
        if a.elements[k] != b.elements[k] {
            return false;
        }
        k = k + 1;
    }
    proof {
        assert(a@.elements =~= b@.elements);
        assert(a@ =~= b@);
    }
    true
}

/// The outcome of one project-wide scan, carried by positions so that the
/// caller can point back into the modules.
enum ScanOutcome {
    NotFound,
    FoundAt(usize, usize),
    ConflictAt(usize, usize),
}

impl Module {
    /// Position of the first named-struct entry with the given name.
    fn first_struct_index(&self, name: &String) -> (r: Option<usize>)
        ensures
            match r {
                Some(j) => 0 <= j < self@.named_struct_types.len() && first_struct_entry(
                    self@.named_struct_types,
                    name@,
                ) == Some(self@.named_struct_types[j as int]),
                None => first_struct_entry(self@.named_struct_types, name@) is None,
            },
    {
        let ghost full = self@.named_struct_types;
        proof {
            assert(full.skip(0) =~= full);
        }
        let mut j: usize = 0;
        while j < self.named_struct_types.len()
            invariant
                0 <= j <= self.named_struct_types.len(),
                full == self@.named_struct_types,
                first_struct_entry(full, name@) == first_struct_entry(
                    full.skip(j as int),
                    name@,
                ),
            decreases self.named_struct_types.len() - j,
        {
            proof {
                assert(full.skip(j as int).first() == full[j as int]);
            }
            if self.named_struct_types[j].name == *name {
                proof {
                    assert(full[j as int] == self.named_struct_types@[j as int]@);
                    assert(first_struct_entry(full.skip(j as int), name@) == Some(
                        full[j as int],
                    ));
                }
                return Some(j);
            }
            proof {
                assert(full.skip(j as int).drop_first() =~= full.skip(j as int + 1));
                assert(full[j as int] == self.named_struct_types@[j as int]@);
            }
            j = j + 1;
        }
        proof {
            assert(full.skip(j as int) =~= Seq::<NamedStructTypeV>::empty());
        }
        None
    }
}

impl Project {
    /// Scan all modules and reconcile the declarations of the given struct
    /// name, as `struct_scan` describes.
    fn scan_structs(&self, name: &String) -> (r: ScanOutcome)
        ensures
            match struct_scan(self@, name@, self@.len() as int) {
                StructScan::NoneFound => r is NotFound,
                StructScan::Found { def, module } => r matches ScanOutcome::FoundAt(mi, ti)
                    && mi as int == module && 0 <= module < self@.len() && 0 <= ti
                    < self@[module].named_struct_types.len()
                    && self@[module].named_struct_types[ti as int].def == def,
                StructScan::Conflict { first, second } => r matches ScanOutcome::ConflictAt(f, s)
                    && f as int == first && s as int == second,
            },
    {
        let ghost p = self@;
        let mut outcome = ScanOutcome::NotFound;
        let mut i: usize = 0;
        while i < self.modules.len()
            invariant
                0 <= i <= self.modules.len(),
                p == self@,
                match struct_scan(p, name@, i as int) {
                    StructScan::NoneFound => outcome is NotFound,
                    StructScan::Found { def, module } => outcome matches ScanOutcome::FoundAt(
                        mi,
                        ti,
                    ) && mi as int == module && 0 <= module < i && 0 <= ti
                        < p[module].named_struct_types.len()
                        && p[module].named_struct_types[ti as int].def == def,
                    StructScan::Conflict { first, second } => outcome
                        matches ScanOutcome::ConflictAt(f, s) && f as int == first && s as int
                        == second,
                },
            decreases self.modules.len() - i,
        {
            let m = &self.modules[i];
            proof {
                assert(m@ == p[i as int]);
            }
            match m.first_struct_index(name) {
                None => {
                    proof {
                        assert(struct_scan(p, name@, i as int + 1) == struct_scan(
                            p,
                            name@,
                            i as int,
                        ));
                    }
                },
                Some(ti_new) => {
                    proof {
                        assert(first_struct_entry(p[i as int].named_struct_types, name@)
                            == Some(p[i as int].named_struct_types[ti_new as int]));
                        assert(p[i as int].named_struct_types[ti_new as int]
                            == m.named_struct_types@[ti_new as int]@);
                    }
                    let next: ScanOutcome = match outcome {
                        ScanOutcome::NotFound => ScanOutcome::FoundAt(i, ti_new),
                        ScanOutcome::ConflictAt(f, s) => ScanOutcome::ConflictAt(f, s),
                        ScanOutcome::FoundAt(mi, ti) => {
                            let cand = &self.modules[mi].named_struct_types[ti].def;
                            let found = &m.named_struct_types[ti_new].def;
                            proof {
                                assert(p[mi as int].named_struct_types[ti as int]
                                    == self.modules@[mi as int]@.named_struct_types[ti as int]);
                            }
                            match (cand, found) {
                                (_, Option::None) => ScanOutcome::FoundAt(mi, ti),
                                (Option::None, Option::Some(_)) => ScanOutcome::FoundAt(
                                    i,
                                    ti_new,
                                ),
                                (Option::Some(d1), Option::Some(d2)) => {
                                    if struct_defs_equal(d1, d2) {
                                        ScanOutcome::FoundAt(mi, ti)
                                    } else if d1.elements.len() == 0 {
                                        ScanOutcome::FoundAt(i, ti_new)
                                    } else if d2.elements.len() == 0 {
                                        ScanOutcome::FoundAt(mi, ti)
                                    } else {
                                        ScanOutcome::ConflictAt(mi, i)
                                    }
                                },
                            }
                        },
                    };
                    outcome = next;
                },
            }
            i = i + 1;
        }
        outcome
    }

    /// Search the project for a named struct type with the given name; if
    /// one is found, return the reconciled definition together with the
    /// module it came from. The definition in the pair is absent exactly
    /// when every declaration of the name is opaque. Genuinely conflicting
    /// definitions are a caller error, which `find_struct_conflict` detects
    /// and which this contract rules out.
    pub fn get_named_struct_type_by_name<'p>(&'p self, name: &String) -> (r: Option<
        (&'p Option<StructDef>, &'p Module),
    >)
        requires
            !(struct_scan(self@, name@, self@.len() as int) is Conflict),
        ensures
            match struct_scan(self@, name@, self@.len() as int) {
                StructScan::NoneFound => r is None,
                StructScan::Found { def, module } => r matches Some(dm) && {
                    &&& match *dm.0 {
                        Some(d) => def == Some(d@),
                        None => def is None,
                    }
                    &&& dm.1@ == self@[module]
                },
                StructScan::Conflict { .. } => false,
            },
    {
        match self.scan_structs(name) {
            ScanOutcome::NotFound => None,
            ScanOutcome::FoundAt(mi, ti) => {
                let m = &self.modules[mi];
                proof {
                    assert(m@ == self@[mi as int]);
                    assert(m@.named_struct_types[ti as int]
                        == m.named_struct_types@[ti as int]@);
                }
                Some((&m.named_struct_types[ti].def, m))
            },
            ScanOutcome::ConflictAt(_, _) => unreached(),
        }
    }

    /// Whether two modules define the given struct name with genuinely
    /// conflicting bodies. Returns the module positions of the reconciled
    /// candidate and of the declaration that clashed with it, or `None`
    /// when reconciliation succeeds and lookups are safe.
    pub fn find_struct_conflict(&self, name: &String) -> (r: Option<(usize, usize)>)
        ensures
            match struct_scan(self@, name@, self@.len() as int) {
                StructScan::Conflict { first, second } => r matches Some(fs) && fs.0 as int
                    == first && fs.1 as int == second,
                _ => r is None,
            },
    {
        match self.scan_structs(name) {
            ScanOutcome::ConflictAt(f, s) => Some((f, s)),
            ScanOutcome::NotFound => None,
            ScanOutcome::FoundAt(_, _) => None,
        }
    }

    /// The names of the loaded modules, in insertion order.
    pub fn active_module_names<'p>(&'p self) -> (r: Vec<&'p String>)
        ensures
            r@.len() == self@.len(),
            forall|i: int| 0 <= i < self@.len() ==> (#[trigger] r@[i])@ == self@[i].name,
    {
        let mut r: Vec<&'p String> = Vec::new();
        let mut i: usize = 0;
        while i < self.modules.len()
            invariant
                0 <= i <= self.modules.len(),
                r@.len() == i,
                forall|i2: int| 0 <= i2 < i ==> (#[trigger] r@[i2])@ == self@[i2].name,
            decreases self.modules.len() - i,
        {
            r.push(&self.modules[i].name);
            i = i + 1;
        }
        r
    }

    /// Every function of the project, paired with its owning module:
    /// modules in insertion order, functions in module order.
    pub fn all_functions<'p>(&'p self) -> (r: Vec<(&'p Function, &'p Module)>)
        ensures
            func_pairs_view(r@) == all_funcs(self@),
    {
        let ghost p = self@;
        let mut r: Vec<(&'p Function, &'p Module)> = Vec::new();
        let mut i: usize = 0;
        while i < self.modules.len()
            invariant
                0 <= i <= self.modules.len(),
                p == self@,
                func_pairs_view(r@) == all_funcs(p.subrange(0, i as int)),
            decreases self.modules.len() - i,
        {
            let m = &self.modules[i];
            proof {
                assert(m@ == p[i as int]);
            }
            let mut j: usize = 0;
            while j < m.functions.len()
                invariant
                    0 <= j <= m.functions.len(),
                    p == self@,
                    0 <= i < self.modules.len(),
                    m == &self.modules[i as int],
                    m@ == p[i as int],
                    func_pairs_view(r@) == all_funcs(p.subrange(0, i as int))
                        + funcs_of_module(p[i as int]).subrange(0, j as int),
                decreases m.functions.len() - j,
            {
                let ghost r0 = r@;
                r.push((&m.functions[j], m));
                proof {
                    let t_spec = (m.functions@[j as int]@, m@);
                    let a_part = all_funcs(p.subrange(0, i as int));
                    let b_part = funcs_of_module(p[i as int]);
                    assert(m@.functions[j as int] == m.functions@[j as int]@);
                    assert(b_part[j as int] == t_spec);
                    assert(func_pairs_view(r@) =~= func_pairs_view(r0).push(t_spec));
                    assert(b_part.subrange(0, j as int + 1) =~= b_part.subrange(
                        0,
                        j as int,
                    ).push(t_spec));
                    assert((a_part + b_part.subrange(0, j as int)).push(t_spec) =~= a_part
                        + b_part.subrange(0, j as int).push(t_spec));
                }
                j = j + 1;
            }
            proof {
                assert(funcs_of_module(p[i as int]).subrange(
                    0,
                    funcs_of_module(p[i as int]).len() as int,
                ) =~= funcs_of_module(p[i as int]));
                assert(p.subrange(0, i as int + 1).drop_last() =~= p.subrange(0, i as int));
                assert(p.subrange(0, i as int + 1).last() == p[i as int]);
                assert(all_funcs(p.subrange(0, i as int + 1)) == all_funcs(
                    p.subrange(0, i as int),
                ) + funcs_of_module(p[i as int]));
            }
            i = i + 1;
        }
        proof {
            assert(p.subrange(0, p.len() as int) =~= p);
        }
        r
    }

    /// Every global variable of the project, paired with its owning module.
    pub fn all_global_vars<'p>(&'p self) -> (r: Vec<(&'p crate::ir::GlobalVariable, &'p Module)>)
        ensures
            gvar_pairs_view(r@) == all_gvars(self@),
    {
        let ghost p = self@;
        let mut r: Vec<(&'p crate::ir::GlobalVariable, &'p Module)> = Vec::new();
        let mut i: usize = 0;
        while i < self.modules.len()
            invariant
                0 <= i <= self.modules.len(),
                p == self@,
                gvar_pairs_view(r@) == all_gvars(p.subrange(0, i as int)),
            decreases self.modules.len() - i,
        {
            let m = &self.modules[i];
            proof {
                assert(m@ == p[i as int]);
            }
            let mut j: usize = 0;
            while j < m.global_vars.len()
                invariant
                    0 <= j <= m.global_vars.len(),
                    p == self@,
                    0 <= i < self.modules.len(),
                    m == &self.modules[i as int],
                    m@ == p[i as int],
                    gvar_pairs_view(r@) == all_gvars(p.subrange(0, i as int))
                        + gvars_of_module(p[i as int]).subrange(0, j as int),
                decreases m.global_vars.len() - j,
            {
                let ghost r0 = r@;
                r.push((&m.global_vars[j], m));
                proof {
                    let t_spec = (m.global_vars@[j as int]@, m@);
                    let a_part = all_gvars(p.subrange(0, i as int));
                    let b_part = gvars_of_module(p[i as int]);
                    assert(m@.global_vars[j as int] == m.global_vars@[j as int]@);
                    assert(b_part[j as int] == t_spec);
                    assert(gvar_pairs_view(r@) =~= gvar_pairs_view(r0).push(t_spec));
                    assert(b_part.subrange(0, j as int + 1) =~= b_part.subrange(
                        0,
                        j as int,
                    ).push(t_spec));
                    assert((a_part + b_part.subrange(0, j as int)).push(t_spec) =~= a_part
                        + b_part.subrange(0, j as int).push(t_spec));
                }
                j = j + 1;
            }
            proof {
                assert(gvars_of_module(p[i as int]).subrange(
                    0,
                    gvars_of_module(p[i as int]).len() as int,
                ) =~= gvars_of_module(p[i as int]));
                assert(p.subrange(0, i as int + 1).drop_last() =~= p.subrange(0, i as int));
                assert(p.subrange(0, i as int + 1).last() == p[i as int]);
                assert(all_gvars(p.subrange(0, i as int + 1)) == all_gvars(
                    p.subrange(0, i as int),
                ) + gvars_of_module(p[i as int]));
            }
            i = i + 1;
        }
        proof {
            assert(p.subrange(0, p.len() as int) =~= p);
        }
        r
    }

    /// Every global alias of the project, paired with its owning module.
    pub fn all_global_aliases<'p>(&'p self) -> (r: Vec<(&'p crate::ir::GlobalAlias, &'p Module)>)
        ensures
            galias_pairs_view(r@) == all_galiases(self@),
    {
        let ghost p = self@;
        let mut r: Vec<(&'p crate::ir::GlobalAlias, &'p Module)> = Vec::new();
        let mut i: usize = 0;
        while i < self.modules.len()
            invariant
                0 <= i <= self.modules.len(),
                p == self@,
                galias_pairs_view(r@) == all_galiases(p.subrange(0, i as int)),
            decreases self.modules.len() - i,
        {
            let m = &self.modules[i];
            proof {
                assert(m@ == p[i as int]);
            }
            let mut j: usize = 0;
            while j < m.global_aliases.len()
                invariant
                    0 <= j <= m.global_aliases.len(),
                    p == self@,
                    0 <= i < self.modules.len(),
                    m == &self.modules[i as int],
                    m@ == p[i as int],
                    galias_pairs_view(r@) == all_galiases(p.subrange(0, i as int))
                        + galiases_of_module(p[i as int]).subrange(0, j as int),
                decreases m.global_aliases.len() - j,
            {
                let ghost r0 = r@;
                r.push((&m.global_aliases[j], m));
                proof {
                    let t_spec = (m.global_aliases@[j as int]@, m@);
                    let a_part = all_galiases(p.subrange(0, i as int));
                    let b_part = galiases_of_module(p[i as int]);
                    assert(m@.global_aliases[j as int] == m.global_aliases@[j as int]@);
                    assert(b_part[j as int] == t_spec);
                    assert(galias_pairs_view(r@) =~= galias_pairs_view(r0).push(t_spec));
                    assert(b_part.subrange(0, j as int + 1) =~= b_part.subrange(
                        0,
                        j as int,
                    ).push(t_spec));
                    assert((a_part + b_part.subrange(0, j as int)).push(t_spec) =~= a_part
                        + b_part.subrange(0, j as int).push(t_spec));
                }
                j = j + 1;
            }
            proof {
                assert(galiases_of_module(p[i as int]).subrange(
                    0,
                    galiases_of_module(p[i as int]).len() as int,
                ) =~= galiases_of_module(p[i as int]));
                assert(p.subrange(0, i as int + 1).drop_last() =~= p.subrange(0, i as int));
                assert(p.subrange(0, i as int + 1).last() == p[i as int]);
                assert(all_galiases(p.subrange(0, i as int + 1)) == all_galiases(
                    p.subrange(0, i as int),
                ) + galiases_of_module(p[i as int]));
            }
            i = i + 1;
        }
        proof {
            assert(p.subrange(0, p.len() as int) =~= p);
        }
        r
    }

    /// Every named struct type declaration of the project, as a triple of
    /// name, optional definition (absent when the declaration is opaque)
    /// and owning module.
    pub fn all_named_struct_types<'p>(&'p self) -> (r: Vec<
        (&'p String, &'p Option<StructDef>, &'p Module),
    >)
        ensures
            struct_triples_view(r@) == all_structs(self@),
    {
        let ghost p = self@;
        let mut r: Vec<(&'p String, &'p Option<StructDef>, &'p Module)> = Vec::new();
        let mut i: usize = 0;
        while i < self.modules.len()
            invariant
                0 <= i <= self.modules.len(),
                p == self@,
                struct_triples_view(r@) == all_structs(p.subrange(0, i as int)),
            decreases self.modules.len() - i,
        {
            let m = &self.modules[i];
            proof {
                assert(m@ == p[i as int]);
            }
            let mut j: usize = 0;
            while j < m.named_struct_types.len()
                invariant
                    0 <= j <= m.named_struct_types.len(),
                    p == self@,
                    0 <= i < self.modules.len(),
                    m == &self.modules[i as int],
                    m@ == p[i as int],
                    struct_triples_view(r@) == all_structs(p.subrange(0, i as int))
                        + structs_of_module(p[i as int]).subrange(0, j as int),
                decreases m.named_struct_types.len() - j,
            {
                let entry = &m.named_struct_types[j];
                let ghost r0 = r@;
                r.push((&entry.name, &entry.def, m));
                proof {
                    let t_spec = (entry.name@, opt_def_view(entry.def), m@);
                    let a_part = all_structs(p.subrange(0, i as int));
                    let b_part = structs_of_module(p[i as int]);
                    assert(m@.named_struct_types[j as int] == m.named_struct_types@[j as int]@);
                    assert(opt_def_view(entry.def) == m@.named_struct_types[j as int].def);
                    assert(b_part[j as int] == t_spec);
                    assert(struct_triples_view(r@) =~= struct_triples_view(r0).push(t_spec));
                    assert(b_part.subrange(0, j as int + 1) =~= b_part.subrange(
                        0,
                        j as int,
                    ).push(t_spec));
                    assert((a_part + b_part.subrange(0, j as int)).push(t_spec) =~= a_part
                        + b_part.subrange(0, j as int).push(t_spec));
                }
                j = j + 1;
            }
            proof {
                assert(structs_of_module(p[i as int]).subrange(
                    0,
                    structs_of_module(p[i as int]).len() as int,
                ) =~= structs_of_module(p[i as int]));
                assert(p.subrange(0, i as int + 1).drop_last() =~= p.subrange(0, i as int));
                assert(p.subrange(0, i as int + 1).last() == p[i as int]);
                assert(all_structs(p.subrange(0, i as int + 1)) == all_structs(
                    p.subrange(0, i as int),
                ) + structs_of_module(p[i as int]));
            }
            i = i + 1;
        }
        proof {
            assert(p.subrange(0, p.len() as int) =~= p);
        }
        r
    }
}

/// A vector of function/module pairs, viewed mathematically.
pub open spec fn func_pairs_view(s: Seq<(&Function, &Module)>) -> Seq<(FunctionV, ModuleV)> {
    s.map_values(|t: (&Function, &Module)| (t.0@, t.1@))
}

/// A vector of global-variable/module pairs, viewed mathematically.
pub open spec fn gvar_pairs_view(s: Seq<(&crate::ir::GlobalVariable, &Module)>) -> Seq<
    (crate::ir::GlobalVariableV, ModuleV),
> {
    s.map_values(|t: (&crate::ir::GlobalVariable, &Module)| (t.0@, t.1@))
}

/// A vector of global-alias/module pairs, viewed mathematically.
pub open spec fn galias_pairs_view(s: Seq<(&crate::ir::GlobalAlias, &Module)>) -> Seq<
    (crate::ir::GlobalAliasV, ModuleV),
> {
    s.map_values(|t: (&crate::ir::GlobalAlias, &Module)| (t.0@, t.1@))
}

/// A vector of struct-declaration triples, viewed mathematically.
pub open spec fn struct_triples_view(s: Seq<(&String, &Option<StructDef>, &Module)>) -> Seq<
    (Seq<char>, Option<StructDefV>, ModuleV),
> {
    s.map_values(|t: (&String, &Option<StructDef>, &Module)| (t.0@, opt_def_view(*t.1), t.2@))
}

/// The functions of one module, each paired with the module.
pub open spec fn funcs_of_module(m: ModuleV) -> Seq<(FunctionV, ModuleV)> {
    m.functions.map_values(|f: FunctionV| (f, m))
}

/// Every function of a module sequence, in module order.
pub open spec fn all_funcs(p: Seq<ModuleV>) -> Seq<(FunctionV, ModuleV)>
    decreases p.len(),
{
    if p.len() == 0 {
        Seq::empty()
    } else {
        all_funcs(p.drop_last()) + funcs_of_module(p.last())
    }
}

/// The global variables of one module, each paired with the module.
pub open spec fn gvars_of_module(m: ModuleV) -> Seq<(crate::ir::GlobalVariableV, ModuleV)> {
    m.global_vars.map_values(|g: crate::ir::GlobalVariableV| (g, m))
}

/// Every global variable of a module sequence, in module order.
pub open spec fn all_gvars(p: Seq<ModuleV>) -> Seq<(crate::ir::GlobalVariableV, ModuleV)>
    decreases p.len(),
{
    if p.len() == 0 {
        Seq::empty()
    } else {
        all_gvars(p.drop_last()) + gvars_of_module(p.last())
    }
}

/// The global aliases of one module, each paired with the module.
pub open spec fn galiases_of_module(m: ModuleV) -> Seq<(crate::ir::GlobalAliasV, ModuleV)> {
    m.global_aliases.map_values(|a: crate::ir::GlobalAliasV| (a, m))
}

/// Every global alias of a module sequence, in module order.
pub open spec fn all_galiases(p: Seq<ModuleV>) -> Seq<(crate::ir::GlobalAliasV, ModuleV)>
    decreases p.len(),
{
    if p.len() == 0 {
        Seq::empty()
    } else {
        all_galiases(p.drop_last()) + galiases_of_module(p.last())
    }
}

/// An optional struct body, viewed mathematically.
pub open spec fn opt_def_view(d: Option<StructDef>) -> Option<StructDefV> {
    match d {
        Some(x) => Some(x@),
        None => None,
    }
}

/// The named struct declarations of one module, as name, optional body and
/// module.
pub open spec fn structs_of_module(m: ModuleV) -> Seq<
    (Seq<char>, Option<StructDefV>, ModuleV),
> {
    m.named_struct_types.map_values(|t: NamedStructTypeV| (t.name, t.def, m))
}

/// Every named struct declaration of a module sequence, in module order.
pub open spec fn all_structs(p: Seq<ModuleV>) -> Seq<(Seq<char>, Option<StructDefV>, ModuleV)>
    decreases p.len(),
{
    if p.len() == 0 {
        Seq::empty()
    } else {
        all_structs(p.drop_last()) + structs_of_module(p.last())
    }
}

/// One entry of a scanned directory, as the loader hands it over: the
/// entry's path, whether it is a directory (`None` when that could not be
/// determined, in which case the entry is kept so that the error surfaces
/// when the file is parsed), and whether the caller's exclusion predicate
/// ruled it out.
pub struct DirEntryInfo {
    pub path: String,
    pub is_dir: Option<bool>,
    pub excluded: bool,
}

/// The position of the last occurrence of `c`, if any.
pub open spec fn last_index_of(s: Seq<char>, c: char) -> Option<int>
    decreases s.len(),
{
    if s.len() == 0 {
        None
    } else if s.last() == c {
        Some(s.len() - 1)
    } else {
        last_index_of(s.drop_last(), c)
    }
}

/// What `last_index_of` returns: the occurrence it points at is the last.
pub proof fn lemma_last_index_of(s: Seq<char>, c: char)
    ensures
        match last_index_of(s, c) {
            None => forall|m: int| 0 <= m < s.len() ==> s[m] != c,
            Some(i) => 0 <= i < s.len() && s[i] == c && (forall|m: int|
                i < m < s.len() ==> s[m] != c),
        },
    decreases s.len(),
{
    if s.len() > 0 && s.last() != c {
        lemma_last_index_of(s.drop_last(), c);
        assert(forall|m: int| 0 <= m < s.len() - 1 ==> s[m] == s.drop_last()[m]);
    }
}

/// The extension of a path: the part of its final component after the last
/// dot, provided that dot is neither absent nor the component's first
/// character.
pub open spec fn path_extension(path: Seq<char>) -> Option<Seq<char>> {
    let start = match last_index_of(path, '/') {
        Some(i) => i + 1,
        None => 0,
    };
    let fname = path.subrange(start, path.len() as int);
    match last_index_of(fname, '.') {
        Some(j) => if j > 0 {
            Some(fname.subrange(j + 1, fname.len() as int))
        } else {
            None
        },
        None => None,
    }
}

/// Whether a directory entry is taken up: not a directory (or of unknown
/// kind), bearing the wanted extension, and not excluded.
pub open spec fn entry_selected(e: DirEntryInfo, extn: Seq<char>) -> bool {
    e.is_dir != Some(true) && path_extension(e.path@) == Some(extn) && !e.excluded
}

/// The paths of the selected entries, in directory order.
pub open spec fn selected_paths(es: Seq<DirEntryInfo>, extn: Seq<char>) -> Seq<String>
    decreases es.len(),
{
    if es.len() == 0 {
        Seq::empty()
    } else if entry_selected(es.last(), extn) {
        selected_paths(es.drop_last(), extn).push(es.last().path)
    } else {
        selected_paths(es.drop_last(), extn)
    }
}

/// The last occurrence of `c` at a position at least `from`, if any;
/// related below to `last_index_of` on the suffix starting at `from`.
fn last_index_at_least(s: &String, c: char, from: usize) -> (r: Option<usize>)
    requires
        from <= s@.len(),
    ensures
        ({
            let sub = s@.subrange(from as int, s@.len() as int);
            match r {
                Some(q) => from <= q < s@.len() && last_index_of(sub, c) == Some(q - from),
                None => last_index_of(sub, c) is None,
            }
        }),
{
    let ghost sub = s@.subrange(from as int, s@.len() as int);
    proof {
        lemma_last_index_of(sub, c);
        assert(forall|m: int| 0 <= m < sub.len() ==> #[trigger] sub[m] == s@[m + from]);
    }
    let n: usize = s.as_str().unicode_len();
    let mut k: usize = n;
    while k > from
        invariant
            from <= k <= n,
            n == s@.len(),
            from <= s@.len(),
            sub == s@.subrange(from as int, s@.len() as int),
            forall|q2: int| k <= q2 < n ==> s@[q2] != c,
        decreases k,
    {
        k = k - 1;
        let ch = s.as_str().get_char(k);
        if ch == c {
            proof {
                lemma_last_index_of(sub, c);
                assert(forall|m: int| 0 <= m < sub.len() ==> #[trigger] sub[m] == s@[m + from]);
                assert(sub[k - from] == s@[k as int]);
                assert(last_index_of(sub, c) == Some(k - from));
            }
            return Some(k);
        }
    }
    proof {
        lemma_last_index_of(sub, c);
        assert(forall|m: int| 0 <= m < sub.len() ==> #[trigger] sub[m] == s@[m + from]);
        assert(forall|m: int| 0 <= m < sub.len() ==> #[trigger] sub[m] != c);
        assert(last_index_of(sub, c) is None);
    }
    None
}

/// Whether the path's extension is exactly `extn`.
pub fn path_has_extension(path: &String, extn: &String) -> (r: bool)
    ensures
        r == (path_extension(path@) == Some(extn@)),
{
    let n: usize = path.as_str().unicode_len();
    proof {
        assert(path@.subrange(0, path@.len() as int) =~= path@);
    }
    let start: usize = match last_index_at_least(path, '/', 0) {
        Some(i) => i + 1,
        None => 0,
    };
    let ghost fname = path@.subrange(start as int, path@.len() as int);
    match last_index_at_least(path, '.', start) {
        None => {
            proof {
                assert(path_extension(path@) is None);
            }
            false
        },
        Some(q) => {
            if q == start {
                proof {
                    assert(path_extension(path@) is None);
                }
                false
            } else {
                let ghost j: int = q - start;
                let ghost ext = fname.subrange(j + 1, fname.len() as int);
                proof {
                    assert(path_extension(path@) == Some(ext));
                    assert(forall|t2: int|
                        0 <= t2 < ext.len() ==> #[trigger] ext[t2] == path@[q + 1 + t2]);
                }
                let elen: usize = extn.as_str().unicode_len();
                if n - (q + 1) != elen {
                    proof {
                        assert(ext.len() != extn@.len());
                    }
                    return false;
                }
                let mut t: usize = 0;
                while t < elen
                    invariant
                        0 <= t <= elen,
                        elen == extn@.len(),
                        n == path@.len(),
                        start <= q < n,
                        q + 1 + elen == n,
                        j == q - start,
                        fname == path@.subrange(start as int, path@.len() as int),
                        ext == fname.subrange(j + 1, fname.len() as int),
                        ext.len() == elen,
                        path_extension(path@) == Some(ext),
                        forall|t2: int|
                            0 <= t2 < ext.len() ==> #[trigger] ext[t2] == path@[q + 1 + t2],
                        forall|t2: int| 0 <= t2 < t ==> #[trigger] ext[t2] == extn@[t2],
                    decreases elen - t,
                {
                    if path.as_str().get_char(q + 1 + t) != extn.as_str().get_char(t) {
                        proof {
                            assert(ext[t as int] != extn@[t as int]);
                        }
                        return false;
                    }
                    t = t + 1;
                }
                proof {
                    assert(ext =~= extn@);
                }
                true
            }
        },
    }
}

/// Select from a scanned directory the entries to load: those that are not
/// directories (keeping entries whose kind could not be determined, so that
/// the error surfaces at parse time), carry the wanted extension, and were
/// not excluded. Their paths come back in directory order.
pub fn select_bc_paths(entries: &Vec<DirEntryInfo>, extn: &String) -> (r: Vec<String>)
    ensures
        r@ == selected_paths(entries@, extn@),
{
    let mut r: Vec<String> = Vec::new();
    proof {
        assert(entries@.subrange(0, 0) =~= Seq::<DirEntryInfo>::empty());
    }
    let mut i: usize = 0;
    while i < entries.len()
        invariant
            0 <= i <= entries.len(),
            r@ == selected_paths(entries@.subrange(0, i as int), extn@),
        decreases entries.len() - i,
    {
        let e = &entries[i];
        let not_dir = match e.is_dir {
            Some(true) => false,
            _ => true,
        };
        let keep = not_dir && !e.excluded && path_has_extension(&e.path, extn);
        if keep {
            r.push(e.path.clone());
        }
        proof {
            let pref = entries@.subrange(0, i as int + 1);
            assert(pref.drop_last() =~= entries@.subrange(0, i as int));
            assert(pref.last() == entries@[i as int]);
            assert(keep == entry_selected(entries@[i as int], extn@));
        }
        i = i + 1;
    }
    proof {
        assert(entries@.subrange(0, entries@.len() as int) =~= entries@);
    }
    r
}

/// Function uniqueness: when two modules both define a function of the
/// given name, the project-wide uniqueness that `get_func_by_name` demands
/// fails, so no verified caller can query that name; the driver checks with
/// `find_duplicate_function`, which returns such a pair, and treats it as a
/// fatal caller error.
pub proof fn lemma_function_uniqueness(p: Seq<ModuleV>, name: Seq<char>, i1: int, i2: int)
    requires
        0 <= i1 < i2 < p.len(),
        module_has_func(p[i1], name),
        module_has_func(p[i2], name),
    ensures
        !func_in_one_module(p, name),
{
}

/// Project determinism: every lookup and enumeration above is a function of
/// the loaded modules alone, taken in insertion order. Two projects holding
/// equal module sequences answer every question alike.
pub proof fn lemma_project_determinism(p1: Project, p2: Project, name: Seq<char>)
    requires
        p1@ == p2@,
    ensures
        all_funcs(p1@) == all_funcs(p2@),
        all_gvars(p1@) == all_gvars(p2@),
        all_galiases(p1@) == all_galiases(p2@),
        all_structs(p1@) == all_structs(p2@),
        struct_scan(p1@, name, p1@.len() as int) == struct_scan(p2@, name, p2@.len() as int),
        forall|i: int|
            0 <= i < p1@.len() ==> #[trigger] module_has_func(p1@[i], name) == module_has_func(
                p2@[i],
                name,
            ),
        func_in_one_module(p1@, name) == func_in_one_module(p2@, name),
{
}

} // verus!
