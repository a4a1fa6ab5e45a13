use quickpython::extension::ExtensionRegistry;
use quickpython::is_builtin_module;

#[test]
fn test_builtin_modules() {
    assert!(is_builtin_module("json"));
    assert!(is_builtin_module("os"));
    assert!(is_builtin_module("re"));
    assert!(!is_builtin_module("asyncio"));
    assert!(!is_builtin_module("jso"));
}

#[test]
fn test_register_then_lookup() {
    let mut reg: ExtensionRegistry<u32> = ExtensionRegistry::new();
    assert!(!reg.is_extension_module("llm"));
    assert_eq!(reg.get_extension_module("llm"), None);
    reg.register_extension_module("llm", 7);
    assert!(reg.is_extension_module("llm"));
    assert_eq!(reg.get_extension_module("llm"), Some(&7));
    assert!(!reg.is_extension_module("other"));
}

#[test]
fn test_register_again_replaces() {
    let mut reg: ExtensionRegistry<u32> = ExtensionRegistry::new();
    reg.register_extension_module("a", 1);
    reg.register_extension_module("b", 2);
    reg.register_extension_module("a", 3);
    assert_eq!(reg.get_extension_module("a"), Some(&3));
    assert_eq!(reg.get_extension_module("b"), Some(&2));
}
