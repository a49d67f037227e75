//! Resolution of a function definition to the parts a guest call needs.

use vstd::prelude::*;
use vstd::std_specs::iter::IteratorSpec;
use crate::error::DefinitionError;
use crate::schema::DataType;
use crate::udf::{exported_symbol, FunctionView, WasmFunctionWrapper};

verus! {

/// The character that parts the module reference from the method name.
pub open spec fn separator() -> char {
    '!'
}

/// Whether position `i` of `s` holds the separator.
pub open spec fn separator_at(s: Seq<char>, i: int) -> bool {
    0 <= i < s.len() && s[i] == separator()
}

/// Whether `s` holds the separator at two different positions.
pub open spec fn separator_repeated(s: Seq<char>) -> bool {
    exists|i: int, j: int| i != j && #[trigger] separator_at(s, i) && #[trigger] separator_at(s, j)
}

/// Whether `s` holds the separator at all.
pub open spec fn separator_present(s: Seq<char>) -> bool {
    exists|i: int| #[trigger] separator_at(s, i)
}

/// The fault of a definition string, or `None` where it is of the form
/// `module!method` with both parts non-empty and exactly one separator.
pub open spec fn reference_fault(s: Seq<char>) -> Option<DefinitionError> {
    if !separator_present(s) {
        Some(DefinitionError::MissingSeparator)
    } else if separator_repeated(s) {
        Some(DefinitionError::DuplicatedSeparator)
    } else if s.first() == separator() {
        Some(DefinitionError::EmptyModule)
    } else if s.last() == separator() {
        Some(DefinitionError::EmptyMethod)
    } else {
        None
    }
}

/// Whether `module` and `method` are the two parts of the definition string `s`.
pub open spec fn splits_into(s: Seq<char>, module: Seq<char>, method: Seq<char>) -> bool {
    &&& s == module + seq![separator()] + method
    &&& module.len() > 0
    &&& method.len() > 0
    &&& !module.contains(separator())
    &&& !method.contains(separator())
}

/// A definition string splits in one way at most.
pub proof fn lemma_split_is_unique(
    s: Seq<char>,
    module: Seq<char>,
    method: Seq<char>,
    other_module: Seq<char>,
    other_method: Seq<char>,
)
    requires
        splits_into(s, module, method),
        splits_into(s, other_module, other_method),
    ensures
        module == other_module,
        method == other_method,
{
    let p = module.len() as int;
    let q = other_module.len() as int;
    assert(s[p] == separator());
    assert(s[q] == separator());
    if p < q {
        assert(other_module[p] == s[p]);
        assert(other_module.contains(separator()));
    }
    if q < p {
        assert(module[q] == s[q]);
        assert(module.contains(separator()));
    }
    assert(module =~= s.subrange(0, p));
    assert(other_module =~= s.subrange(0, q));
    assert(method =~= s.subrange(p + 1, s.len() as int));
    assert(other_method =~= s.subrange(q + 1, s.len() as int));
}

/// A definition string is free of faults exactly where it splits into a
/// module reference and a method name.
pub proof fn lemma_faultless_iff_splits(s: Seq<char>)
    ensures
        reference_fault(s) is None <==> exists|module: Seq<char>, method: Seq<char>|
            #[trigger] splits_into(s, module, method),
{
    if reference_fault(s) is None {
        let p = choose|i: int| #[trigger] separator_at(s, i);
        assert(!separator_at(s, 0));
        assert(!separator_at(s, s.len() - 1));
        let module = s.subrange(0, p);
        let method = s.subrange(p + 1, s.len() as int);
        assert(s =~= module + seq![separator()] + method);
        if module.contains(separator()) {
            let i = choose|i: int| 0 <= i < module.len() && module[i] == separator();
            assert(separator_at(s, i) && separator_at(s, p));
        }
        if method.contains(separator()) {
            let i = choose|i: int| 0 <= i < method.len() && method[i] == separator();
            assert(separator_at(s, p + 1 + i) && separator_at(s, p));
        }
        assert(splits_into(s, module, method));
    }
    if exists|module: Seq<char>, method: Seq<char>| #[trigger] splits_into(s, module, method) {
        let (module, method) = choose|module: Seq<char>, method: Seq<char>| #[trigger]
            splits_into(s, module, method);
        let p = module.len() as int;
        assert(separator_at(s, p));
        assert forall|i: int| #[trigger] separator_at(s, i) implies i == p by {
            if i < p {
                assert(module[i] == s[i]);
                assert(module.contains(separator()));
            }
            if i > p {
                assert(method[i - p - 1] == s[i]);
                assert(method.contains(separator()));
            }
        }
        assert(s.first() == module[0]);
        assert(module.contains(module[0]));
        assert(s.last() == method.last());
        assert(method.contains(method.last()));
    }
}

/// The body of a function definition, in the form in which it was written.
#[derive(Debug, PartialEq, Eq)]
pub enum DefinitionStatement {
    /// A definition between single quotes.
    SingleQuotedDef(String),
    /// A definition between doubled dollar signs.
    DoubleDollarDef(String),
}

/// A statement that declares a function: what the factory reads of it.
#[derive(Debug, PartialEq, Eq)]
pub struct CreateFunction {
    pub name: String,
    pub args: Option<Vec<DataType>>,
    pub return_type: Option<DataType>,
    pub definition: Option<DefinitionStatement>,
}

/// What it takes to register a function: the module to load into a sandbox,
/// the guest function to bind to, and the adapter to hand to the engine.
#[derive(Debug)]
pub struct FunctionPlan {
    pub module: String,
    pub method: String,
    pub function: WasmFunctionWrapper,
}

/// The declared argument types of a statement: none where it names none.
pub open spec fn declared_types(args: Option<Vec<DataType>>) -> Seq<DataType> {
    match args {
        Some(types) => types@,
        None => Seq::empty(),
    }
}

/// Why a statement declares no guest-backed function, or `None` where it
/// declares one.
pub open spec fn statement_fault(statement: CreateFunction) -> Option<DefinitionError> {
    if statement.return_type is None {
        Some(DefinitionError::MissingReturnType)
    } else {
        match statement.definition {
            None => Some(DefinitionError::NotDefined),
            Some(DefinitionStatement::DoubleDollarDef(_)) => Some(
                DefinitionError::UnsupportedDefinition,
            ),
            Some(DefinitionStatement::SingleQuotedDef(path)) => reference_fault(path@),
        }
    }
}

/// Creates guest-backed scalar functions from their definitions.
#[derive(Debug)]
pub struct WasmFunctionFactory {}

impl Default for WasmFunctionFactory {
    fn default() -> (r: Self)
        ensures
            r == (WasmFunctionFactory {}),
    {
        WasmFunctionFactory {}
    }
}

impl WasmFunctionFactory {
    /// Resolves a statement to the plan of its registration. Nothing is
    /// loaded and no adapter is made where the statement is refused.
    pub fn create(&self, statement: CreateFunction) -> (r: Result<FunctionPlan, DefinitionError>)
        ensures
            match r {
                Ok(plan) => {
                    &&& statement_fault(statement) is None
                    &&& statement.definition matches Some(DefinitionStatement::SingleQuotedDef(path))
                    &&& splits_into(path@, plan.module@, plan.method@)
                    &&& plan.function@ == (FunctionView {
                        name: statement.name@,
                        symbol: exported_symbol(plan.method@),
                        argument_types: declared_types(statement.args),
                        return_type: statement.return_type->Some_0,
                    })
                },
                Err(e) => statement_fault(statement) == Some(e),
            },
    {
        let return_type = match statement.return_type {
            None => {
                return Err(DefinitionError::MissingReturnType);
            },
            Some(return_type) => return_type,
        };
        let argument_types = match statement.args {
            Some(types) => types,
            None => Vec::new(),
        };
        let (module, method) = match &statement.definition {
            None => {
                return Err(DefinitionError::NotDefined);
            },
            Some(DefinitionStatement::DoubleDollarDef(_)) => {
                return Err(DefinitionError::UnsupportedDefinition);
            },
            Some(DefinitionStatement::SingleQuotedDef(path)) => {
                match Self::wasm_module_function(path.as_str()) {
                    Err(e) => {
                        return Err(e);
                    },
                    Ok(parts) => parts,
                }
            },
        };
        let function = WasmFunctionWrapper::new(
            statement.name,
            method.as_str(),
            argument_types,
            return_type,
        );
        Ok(FunctionPlan { module, method, function })
    }

    /// Parts a definition string of the form `module!method` into its module
    /// reference and its method name.
    pub fn wasm_module_function(s: &str) -> (r: Result<(String, String), DefinitionError>)
        ensures
            match r {
                Ok((module, method)) => splits_into(s@, module@, method@),
                Err(e) => reference_fault(s@) == Some(e),
            },
            r is Ok <==> reference_fault(s@) is None,
    {
        let n = s.unicode_len();
        let mut first: Option<usize> = None;
        let mut repeated = false;
        let mut count: usize = 0;
        let mut it = s.chars();
        while count < n
            invariant
                n == s@.len(),
                count <= n,
                it.obeys_prophetic_iter_laws(),
                it.remaining() == s@.skip(count as int),
                match first {
                    Some(p) => p < count && separator_at(s@, p as int) && forall|i: int|
                        0 <= i < p ==> !separator_at(s@, i),
                    None => forall|i: int| 0 <= i < count ==> !separator_at(s@, i),
                },
                repeated <==> exists|i: int, j: int|
                    i != j && i < count && j < count && #[trigger] separator_at(s@, i)
                        && #[trigger] separator_at(s@, j),
                repeated ==> first is Some,
                first matches Some(p) ==> (!repeated ==> forall|i: int|
                    p < i < count ==> !separator_at(s@, i)),
            decreases n - count,
        {
            let c = it.next().unwrap();
            assert(c == s@[count as int]);
            if c == '!' {
                match first {
                    None => {
                        first = Some(count);
                    },
                    Some(p) => {
                        assert(separator_at(s@, p as int) && separator_at(s@, count as int));
                        repeated = true;
                    },
                }
            }
            assert(it.remaining() == s@.skip(count + 1));
            count = count + 1;
        }
        match first {
            None => {
                assert(!separator_present(s@));
                Err(DefinitionError::MissingSeparator)
            },
            Some(p) => {
                assert(separator_present(s@));
                if repeated {
                    assert(separator_repeated(s@));
                    Err(DefinitionError::DuplicatedSeparator)
                } else if p == 0 {
                    Err(DefinitionError::EmptyModule)
                } else if p + 1 == count {
                    assert(!separator_at(s@, 0));
                    Err(DefinitionError::EmptyMethod)
                } else {
                    assert(!separator_at(s@, 0));
                    assert(!separator_at(s@, count - 1));
                    let module = s.substring_char(0, p);
                    let method = s.substring_char(p + 1, count);
                    proof {
                        assert(s@ =~= module@ + seq![separator()] + method@);
                        assert(!module@.contains(separator())) by {
                            if module@.contains(separator()) {
                                let i = choose|i: int|
                                    0 <= i < module@.len() && module@[i] == separator();
                                assert(separator_at(s@, i));
                            }
                        }
                        assert(!method@.contains(separator())) by {
                            if method@.contains(separator()) {
                                let i = choose|i: int|
                                    0 <= i < method@.len() && method@[i] == separator();
                                assert(separator_at(s@, p + 1 + i));
                            }
                        }
                    }
                    Ok((module.to_owned(), method.to_owned()))
                }
            },
        }
    }
}

} // verus!
