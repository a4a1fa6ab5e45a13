use vstd::prelude::*;
use crate::text::str_eq;
use crate::value::{raised, ExceptionType, ExceptionValue};

verus! {

/// Whether `name` is one of the built-in modules (`json`, `os` and `re`).
pub open spec fn spec_is_builtin_module(name: Seq<char>) -> bool {
    name == "json"@ || name == "os"@ || name == "re"@
}

/// Whether `name` is one of the built-in modules.
pub fn is_builtin_module(name: &str) -> (res: bool)
    ensures
        res == spec_is_builtin_module(name@),
{
    str_eq(name, "json") || str_eq(name, "os") || str_eq(name, "re")
}

/// Where an imported module comes from.
#[derive(Clone, Copy, PartialEq, Eq, Structural)]
pub enum ModuleSource {
    /// Imported before: the same module object again.
    Loaded,
    /// A built-in module, made now.
    Builtin,
    /// The `asyncio` module that async code imports, made now.
    Asyncio,
    /// A registered extension module, copied now.
    Extension,
}

/// Where `import name` takes the module from: a module imported before
/// comes first, then the built-in modules, then `asyncio`, then the
/// registered extensions; a `RuntimeError` when there is none of that name. `loaded` says whether
/// the machine imported `name` before, and `extension` whether an extension
/// module of that name is registered, with the machine or in the
/// process-wide registry.
pub fn module_source(name: &str, loaded: bool, extension: bool) -> (res: Result<
    ModuleSource,
    ExceptionValue,
>)
    ensures
        loaded ==> res == Ok::<ModuleSource, ExceptionValue>(ModuleSource::Loaded),
        !loaded && spec_is_builtin_module(name@) ==> res == Ok::<ModuleSource, ExceptionValue>(
            ModuleSource::Builtin,
        ),
        !loaded && !spec_is_builtin_module(name@) && name@ == "asyncio"@ ==> res == Ok::<
            ModuleSource,
            ExceptionValue,
        >(ModuleSource::Asyncio),
        !loaded && !spec_is_builtin_module(name@) && name@ != "asyncio"@ && extension ==> res == Ok::<
            ModuleSource,
            ExceptionValue,
        >(ModuleSource::Extension),
        !loaded && !spec_is_builtin_module(name@) && name@ != "asyncio"@ && !extension ==> (res matches Err(e) && raised(e)
            == (ExceptionType::RuntimeError, "No module named '"@ + name@ + "'"@) && e.traceback is None),
{
    if loaded {
        Ok(ModuleSource::Loaded)
    } else if is_builtin_module(name) {
        Ok(ModuleSource::Builtin)
    } else if str_eq(name, "asyncio") {
        Ok(ModuleSource::Asyncio)
    } else if extension {
        Ok(ModuleSource::Extension)
    } else {
        let mut m = String::from_str("No module named '");
        m.append(name);
        m.append("'");
        Err(ExceptionValue::new(ExceptionType::RuntimeError, m))
    }
}

} // verus!
