//! Declared interfaces: parameter-type descriptors, function and method
//! descriptors, and the provider that exports them for a callee.

use vstd::prelude::*;
use crate::address::Address;

verus! {

/// A declared parameter kind: a primitive, a named custom kind, or a kind
/// outside the supported set.
#[derive(Clone, Copy, PartialEq, Eq, Structural, Debug)]
pub enum Type {
    Bool,
    I8,
    I16,
    I32,
    I64,
    I128,
    U8,
    U16,
    U32,
    U64,
    U128,
    Str,
    Decimal,
    BigDecimal,
    Address,
    Hash,
    Bucket,
    BucketRef,
    Other,
}

/// A function of a blueprint: its name and declared parameter types.
#[derive(Debug)]
pub struct Function {
    pub name: String,
    pub inputs: Vec<Type>,
}

pub ghost struct FunctionV {
    pub name: Seq<char>,
    pub inputs: Seq<Type>,
}

impl View for Function {
    type V = FunctionV;

    open spec fn view(&self) -> FunctionV {
        FunctionV { name: self.name@, inputs: self.inputs@ }
    }
}

/// A method of a component: its name and declared parameter types.
#[derive(Debug)]
pub struct Method {
    pub name: String,
    pub inputs: Vec<Type>,
}

pub ghost struct MethodV {
    pub name: Seq<char>,
    pub inputs: Seq<Type>,
}

impl View for Method {
    type V = MethodV;

    open spec fn view(&self) -> MethodV {
        MethodV { name: self.name@, inputs: self.inputs@ }
    }
}

/// The declared interface of a blueprint or component.
#[derive(Debug)]
pub struct Blueprint {
    pub functions: Vec<Function>,
    pub methods: Vec<Method>,
}

pub ghost struct BlueprintV {
    pub functions: Seq<FunctionV>,
    pub methods: Seq<MethodV>,
}

impl View for Blueprint {
    type V = BlueprintV;

    open spec fn view(&self) -> BlueprintV {
        BlueprintV {
            functions: Seq::new(self.functions@.len(), |i: int| self.functions@[i]@),
            methods: Seq::new(self.methods@.len(), |i: int| self.methods@[i]@),
        }
    }
}

/// Failure of interface export: the callee or member is unknown.
#[derive(Clone, Copy, PartialEq, Eq, Structural, Debug)]
pub enum AbiExportError {
    NotFound,
}

/// A read-only source of declared interfaces, typically backed by ledger
/// state.  The builder treats its answers as arbitrary: nothing is assumed
/// of an implementation beyond its signature.
pub trait AbiProvider {
    /// The interface of a blueprint of a package.
    fn export_abi(&self, package_address: &Address, blueprint_name: &str) -> Result<
        Blueprint,
        AbiExportError,
    >;

    /// The interface of a component.
    fn export_abi_component(&self, component_address: &Address) -> Result<
        Blueprint,
        AbiExportError,
    >;
}

/// First function of the given name, if any.
pub open spec fn find_function_in(fns: Seq<FunctionV>, name: Seq<char>) -> Option<FunctionV>
    decreases fns.len(),
{
    if fns.len() == 0 {
        None
    } else if fns[0].name == name {
        Some(fns[0])
    } else {
        find_function_in(fns.drop_first(), name)
    }
}

/// First method of the given name, if any.
pub open spec fn find_method_in(ms: Seq<MethodV>, name: Seq<char>) -> Option<MethodV>
    decreases ms.len(),
{
    if ms.len() == 0 {
        None
    } else if ms[0].name == name {
        Some(ms[0])
    } else {
        find_method_in(ms.drop_first(), name)
    }
}

/// An in-memory provider: a fixed table of interfaces, for tests and for
/// builds against a known ledger snapshot.
pub struct BasicAbiProvider {
    blueprints: Vec<(Address, String, Blueprint)>,
    components: Vec<(Address, Blueprint)>,
}

impl BasicAbiProvider {
    /// An empty table.
    pub fn new() -> (r: BasicAbiProvider) {
        BasicAbiProvider { blueprints: Vec::new(), components: Vec::new() }
    }

    /// Registers the interface of a blueprint of a package.
    pub fn add_blueprint(&mut self, package_address: Address, blueprint_name: String, interface: Blueprint) {
        self.blueprints.push((package_address, blueprint_name, interface));
    }

    /// Registers the interface of a component.
    pub fn add_component(&mut self, component_address: Address, interface: Blueprint) {
        self.components.push((component_address, interface));
    }
}

/// A field-for-field copy of a function descriptor.
pub fn copy_blueprint_function(f: &Function) -> (r: Function)
    ensures
        r@ == f@,
{
    let mut inputs: Vec<Type> = Vec::new();
    let mut i: usize = 0;
    while i < f.inputs.len()
        invariant
            i <= f.inputs@.len(),
            inputs@ == f.inputs@.take(i as int),
        decreases f.inputs@.len() - i,
    {
        inputs.push(f.inputs[i]);
        proof {
            assert(f.inputs@.take(i + 1) =~= f.inputs@.take(i as int).push(f.inputs@[i as int]));
        }
        i = i + 1;
    }
    proof {
        assert(f.inputs@.take(f.inputs@.len() as int) =~= f.inputs@);
    }
    Function { name: self_clone_string(&f.name), inputs }
}

/// A field-for-field copy of a method descriptor.
pub fn copy_blueprint_method(m: &Method) -> (r: Method)
    ensures
        r@ == m@,
{
    let mut inputs: Vec<Type> = Vec::new();
    let mut i: usize = 0;
    while i < m.inputs.len()
        invariant
            i <= m.inputs@.len(),
            inputs@ == m.inputs@.take(i as int),
        decreases m.inputs@.len() - i,
    {
        inputs.push(m.inputs[i]);
        proof {
            assert(m.inputs@.take(i + 1) =~= m.inputs@.take(i as int).push(m.inputs@[i as int]));
        }
        i = i + 1;
    }
    proof {
        assert(m.inputs@.take(m.inputs@.len() as int) =~= m.inputs@);
    }
    Method { name: self_clone_string(&m.name), inputs }
}

/// A content-preserving copy of a string.
fn self_clone_string(s: &String) -> (r: String)
    ensures
        r@ == s@,
{
    s.clone()
}

/// A content-preserving copy of an interface.
pub fn copy_blueprint(bp: &Blueprint) -> (r: Blueprint)
    ensures
        r@ == bp@,
{
    let mut functions: Vec<Function> = Vec::new();
    let mut i: usize = 0;
    while i < bp.functions.len()
        invariant
            i <= bp.functions@.len(),
            functions@.len() == i,
            forall|k: int| 0 <= k < i ==> #[trigger] functions@[k]@ == bp.functions@[k]@,
        decreases bp.functions@.len() - i,
    {
        let f = copy_blueprint_function(&bp.functions[i]);
        functions.push(f);
        i = i + 1;
    }
    let mut methods: Vec<Method> = Vec::new();
    let mut j: usize = 0;
    while j < bp.methods.len()
        invariant
            j <= bp.methods@.len(),
            methods@.len() == j,
            forall|k: int| 0 <= k < j ==> #[trigger] methods@[k]@ == bp.methods@[k]@,
        decreases bp.methods@.len() - j,
    {
        let m = copy_blueprint_method(&bp.methods[j]);
        methods.push(m);
        j = j + 1;
    }
    let r = Blueprint { functions, methods };
    proof {
        assert(r@.functions =~= bp@.functions);
        assert(r@.methods =~= bp@.methods);
    }
    r
}

impl AbiProvider for BasicAbiProvider {
    fn export_abi(&self, package_address: &Address, blueprint_name: &str) -> Result<
        Blueprint,
        AbiExportError,
    > {
        let name: String = blueprint_name.to_owned();
        let mut i: usize = 0;
        while i < self.blueprints.len()
            invariant
                i <= self.blueprints@.len(),
            decreases self.blueprints@.len() - i,
        {
            let entry = &self.blueprints[i];
            if entry.0.matches(package_address) && entry.1 == name {
                return Ok(copy_blueprint(&entry.2));
            }
            i = i + 1;
        }
        Err(AbiExportError::NotFound)
    }

    fn export_abi_component(&self, component_address: &Address) -> Result<
        Blueprint,
        AbiExportError,
    > {
        let mut i: usize = 0;
        while i < self.components.len()
            invariant
                i <= self.components@.len(),
            decreases self.components@.len() - i,
        {
            let entry = &self.components[i];
            if entry.0.matches(component_address) {
                return Ok(copy_blueprint(&entry.1));
            }
            i = i + 1;
        }
        Err(AbiExportError::NotFound)
    }
}

} // verus!
