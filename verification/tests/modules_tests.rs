use quickpython::builtins::{module_source, ModuleSource};
use quickpython::value::ExceptionType;

#[test]
fn test_module_source_order() {
    assert!(module_source("json", true, true).ok() == Some(ModuleSource::Loaded));
    assert!(module_source("json", false, true).ok() == Some(ModuleSource::Builtin));
    assert!(module_source("asyncio", false, true).ok() == Some(ModuleSource::Asyncio));
    assert!(module_source("llm", false, true).ok() == Some(ModuleSource::Extension));
    assert!(module_source("asyncio", false, false).ok() == Some(ModuleSource::Asyncio));
    let e = module_source("nothing", false, false).err().unwrap();
    assert_eq!(e.exception_type, ExceptionType::RuntimeError);
    assert_eq!(e.message, "No module named 'nothing'");
}
