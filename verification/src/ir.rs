//! The IR data that the engine reads: modules, functions, globals, named
//! struct types, and right-hand-side operands.
//!
//! A module here carries exactly what the analysis consumes as plain values:
//! names, integer parameter widths, and named struct definitions reduced to a
//! list of element type fingerprints. The bitcode parser that produces these
//! values lives outside the library; it hands modules over fully built, and
//! they are never mutated afterwards.

use vstd::prelude::*;

verus! {

/// Mathematical view of a `Parameter`.
#[verifier::ext_equal]
pub struct ParameterV {
    pub name: Seq<char>,
    pub bits: u32,
}

/// A parameter of an IR function: its name and its integer bit width.
#[derive(Clone)]
pub struct Parameter {
    pub name: String,
    pub bits: u32,
}

impl View for Parameter {
    type V = ParameterV;

    open spec fn view(&self) -> ParameterV {
        ParameterV { name: self.name@, bits: self.bits }
    }
}

/// Mathematical view of a `Function`.
#[verifier::ext_equal]
pub struct FunctionV {
    pub name: Seq<char>,
    pub parameters: Seq<ParameterV>,
}

/// An IR function: its name and its parameter list.
#[derive(Clone)]
pub struct Function {
    pub name: String,
    pub parameters: Vec<Parameter>,
}

impl View for Function {
    type V = FunctionV;

    open spec fn view(&self) -> FunctionV {
        FunctionV {
            name: self.name@,
            parameters: self.parameters@.map_values(|p: Parameter| p@),
        }
    }
}

/// Mathematical view of a `GlobalVariable`.
#[verifier::ext_equal]
pub struct GlobalVariableV {
    pub name: Seq<char>,
}

/// A global variable of a module, by name.
#[derive(Clone)]
pub struct GlobalVariable {
    pub name: String,
}

impl View for GlobalVariable {
    type V = GlobalVariableV;

    open spec fn view(&self) -> GlobalVariableV {
        GlobalVariableV { name: self.name@ }
    }
}

/// Mathematical view of a `GlobalAlias`.
#[verifier::ext_equal]
pub struct GlobalAliasV {
    pub name: Seq<char>,
}

/// A global alias of a module, by name.
#[derive(Clone)]
pub struct GlobalAlias {
    pub name: String,
}

impl View for GlobalAlias {
    type V = GlobalAliasV;

    open spec fn view(&self) -> GlobalAliasV {
        GlobalAliasV { name: self.name@ }
    }
}

/// Mathematical view of a `StructDef`.
#[verifier::ext_equal]
pub struct StructDefV {
    pub elements: Seq<u64>,
    pub packed: bool,
}

/// The body of a named struct type. Each element type is reduced to a
/// fingerprint so that two definitions can be compared structurally; the
/// packedness flag takes part in that comparison as well.
#[derive(Clone)]
pub struct StructDef {
    pub elements: Vec<u64>,
    pub packed: bool,
}

impl View for StructDef {
    type V = StructDefV;

    open spec fn view(&self) -> StructDefV {
        StructDefV { elements: self.elements@, packed: self.packed }
    }
}

/// Mathematical view of a `NamedStructType`.
#[verifier::ext_equal]
pub struct NamedStructTypeV {
    pub name: Seq<char>,
    pub def: Option<StructDefV>,
}

/// A named struct type as one module declares it. `def` is `None` when the
/// declaration is opaque: a name without a body, which another module may
/// complete.
#[derive(Clone)]
pub struct NamedStructType {
    pub name: String,
    pub def: Option<StructDef>,
}

impl View for NamedStructType {
    type V = NamedStructTypeV;

    open spec fn view(&self) -> NamedStructTypeV {
        NamedStructTypeV {
            name: self.name@,
            def: match self.def {
                Some(d) => Some(d@),
                None => None,
            },
        }
    }
}

/// Mathematical view of a `Module`.
#[verifier::ext_equal]
pub struct ModuleV {
    pub name: Seq<char>,
    pub functions: Seq<FunctionV>,
    pub global_vars: Seq<GlobalVariableV>,
    pub global_aliases: Seq<GlobalAliasV>,
    pub named_struct_types: Seq<NamedStructTypeV>,
}

/// One compilation unit: a name plus its functions, globals, aliases and
/// named struct types, in the order the unit enumerates them.
#[derive(Clone)]
pub struct Module {
    pub name: String,
    pub functions: Vec<Function>,
    pub global_vars: Vec<GlobalVariable>,
    pub global_aliases: Vec<GlobalAlias>,
    pub named_struct_types: Vec<NamedStructType>,
}

impl View for Module {
    type V = ModuleV;

    open spec fn view(&self) -> ModuleV {
        ModuleV {
            name: self.name@,
            functions: self.functions@.map_values(|f: Function| f@),
            global_vars: self.global_vars@.map_values(|g: GlobalVariable| g@),
            global_aliases: self.global_aliases@.map_values(|a: GlobalAlias| a@),
            named_struct_types: self.named_struct_types@.map_values(|t: NamedStructType| t@),
        }
    }
}

/// A right-hand-side IR value as the state machine reads it: an integer
/// constant with its width, a reference to an already-bound SSA value, or
/// something of a category the engine does not support.
#[derive(Clone)]
pub enum Operand {
    /// An integer constant. `value` holds the zero-extended constant.
    Constant { bits: u32, value: u64 },
    /// A non-constant integer value, identified by the key under which the
    /// interpreter bound it in the variable environment.
    Variable { key: u64, bits: u32 },
    /// An operand of a category outside the integer fragment.
    NonInteger,
}

impl Operand {
    /// The bit width of an integer operand.
    pub open spec fn spec_bits(self) -> u32 {
        match self {
            Operand::Constant { bits, .. } => bits,
            Operand::Variable { bits, .. } => bits,
            Operand::NonInteger => 0,
        }
    }

    pub open spec fn is_integer(self) -> bool {
        !(self is NonInteger)
    }
}

} // verus!
