use vstd::prelude::*;
use crate::env::Publicity;
use crate::lexer::copy_name;
use crate::module::Target;
use crate::types::Ty;

verus! {

/// Where the code of a function comes from and where it can run.
pub struct Implementations {
    /// It has a Gleam body.
    pub gleam: bool,
    pub uses_erlang_externals: bool,
    pub uses_javascript_externals: bool,
    pub can_run_on_erlang: bool,
    pub can_run_on_javascript: bool,
}

impl Implementations {
    /// Whether the code can run on `target`.
    pub open spec fn runs_on(&self, target: Target) -> bool {
        match target {
            Target::Erlang => self.can_run_on_erlang,
            Target::JavaScript => self.can_run_on_javascript,
        }
    }

    /// Whether the code can run on `target`.
    pub fn supports(&self, target: &Target) -> (r: bool)
        ensures
            r == self.runs_on(*target),
    {
        match target {
            Target::Erlang => self.can_run_on_erlang,
            Target::JavaScript => self.can_run_on_javascript,
        }
    }
}

/// What a module level value is.
pub enum ValueConstructorVariant {
    ModuleConstant { module: Vec<char>, name: Vec<char>, implementations: Implementations },
    ModuleFn {
        name: Vec<char>,
        arity: usize,
        module: Vec<char>,
        external_erlang: Option<(Vec<char>, Vec<char>)>,
        external_javascript: Option<(Vec<char>, Vec<char>)>,
        implementations: Implementations,
    },
}

/// A module level value with its type.
pub struct ValueConstructor {
    pub publicity: Publicity,
    pub type_: Ty,
    pub variant: ValueConstructorVariant,
}

/// Whether a module is part of the application or of its tests.
pub enum Origin {
    Src,
    Test,
}

/// Why a value cannot be the `main` function of a module.
pub enum MainFunctionError {
    /// It is a constant, not a function.
    NotAFunction { module: Vec<char> },
    /// It takes arguments.
    WrongArity { module: Vec<char>, arity: usize },
    /// It has no implementation for the target.
    UnsupportedTarget { module: Vec<char>, target: Target },
}

/// Checks that `value` can be run as the `main` function of the module:
/// a module function of no arguments that can run on `target`. The origin
/// of the module does not change the verdict.
pub fn assert_suitable_main_function(
    value: &ValueConstructor,
    module_name: &Vec<char>,
    origin: Origin,
    target: Target,
) -> (r: Result<(), MainFunctionError>)
    ensures
        r is Ok <==> (value.variant matches ValueConstructorVariant::ModuleFn {
            arity,
            implementations,
            ..
        } && arity == 0 && implementations.runs_on(target)),
        r matches Err(MainFunctionError::NotAFunction { module }) ==> module@ == module_name@
            && value.variant is ModuleConstant,
        r matches Err(MainFunctionError::WrongArity { module, arity }) ==> (module@ == module_name@
            && (value.variant matches ValueConstructorVariant::ModuleFn { arity: a, .. } && a
            == arity) && arity != 0),
        r matches Err(MainFunctionError::UnsupportedTarget { module, target: t }) ==> (module@
            == module_name@ && t == target && (value.variant matches ValueConstructorVariant::ModuleFn {
            arity,
            implementations,
            ..
        } && arity == 0 && !implementations.runs_on(target))),
{
    match &value.variant {
        ValueConstructorVariant::ModuleConstant { .. } => {
            Err(MainFunctionError::NotAFunction { module: copy_name(module_name) })
        },
        ValueConstructorVariant::ModuleFn { arity, implementations, .. } => {
            if *arity != 0 {
                Err(MainFunctionError::WrongArity { module: copy_name(module_name), arity: *arity })
            } else if !implementations.supports(&target) {
                Err(MainFunctionError::UnsupportedTarget { module: copy_name(module_name), target })
            } else {
                Ok(())
            }
        },
    }
}

} // verus!
