use ristretto::class_loader::ClassLoader;
use ristretto::class_path::ClassPath;
use ristretto::error::Error;

fn utf8(bytes: &mut Vec<u8>, text: &str) {
    bytes.push(1);
    bytes.extend_from_slice(&(text.len() as u16).to_be_bytes());
    bytes.extend_from_slice(text.as_bytes());
}

fn class_bytes(name: &str) -> Vec<u8> {
    let mut bytes = vec![0xCA, 0xFE, 0xBA, 0xBE, 0x00, 0x00, 0x00, 0x34, 0x00, 0x05];
    utf8(&mut bytes, name);
    bytes.extend_from_slice(&[7, 0, 1]);
    utf8(&mut bytes, "java/lang/Object");
    bytes.extend_from_slice(&[7, 0, 3]);
    bytes.extend_from_slice(&[0x00, 0x21, 0x00, 0x02, 0x00, 0x04, 0, 0, 0, 0, 0, 0, 0, 0]);
    bytes
}

#[test]
fn test_new() {
    let name = "test";
    let class_loader = ClassLoader::new(name, ClassPath::empty());
    assert_eq!(name, class_loader.name());
    assert_eq!(&ClassPath::empty(), class_loader.class_path());
    assert!(class_loader.parent().is_none());
}

#[test]
fn class_loader_test_default() {
    let class_loader = ClassLoader::default();
    assert_eq!("bootstrap", class_loader.name());
    assert!(class_loader.parent().is_none());
}

#[test]
fn test_equality() {
    let class_loader1 = ClassLoader::new("test", ClassPath::empty());
    let class_loader2 = ClassLoader::new("test", ClassPath::empty());
    assert_eq!(class_loader1.identity_exec(), class_loader2.identity_exec());
}

#[test]
fn test_inequality() {
    let class_loader1 = ClassLoader::new("test1", ClassPath::empty());
    let class_loader2 = ClassLoader::new("test2", ClassPath::empty());
    assert_ne!(class_loader1.identity_exec(), class_loader2.identity_exec());
}

#[test]
fn test_set_parent() {
    let mut class_loader1 = ClassLoader::new("test1", ClassPath::empty());
    let class_loader2 = ClassLoader::new("test2", ClassPath::empty());
    class_loader1.set_parent(Some(class_loader2));
    assert_eq!("test2", class_loader1.parent().expect("parent").name());
}

#[test]
fn delegation_caches_in_bootstrap_only() {
    let mut child = ClassLoader::new("child", ClassPath::empty());
    child.set_parent(Some(ClassLoader::default()));
    let sources = vec![Some(class_bytes("HelloWorld")), None];
    let class = child.load_class("HelloWorld", &sources).expect("loads");
    assert_eq!("HelloWorld", class.name);
    assert_eq!(vec!["bootstrap".to_string()], class.loader);
    assert!(child.defined_class_file("HelloWorld").is_none());
    let bootstrap = child.parent().expect("parent");
    let class_file = bootstrap.defined_class_file("HelloWorld").expect("cached in bootstrap");
    assert_eq!("HelloWorld", class_file.class_name().expect("name"));
}

#[test]
fn child_defines_what_its_parent_cannot() {
    let mut child = ClassLoader::new("child", ClassPath::empty());
    child.set_parent(Some(ClassLoader::default()));
    let sources = vec![None, Some(class_bytes("App"))];
    let class = child.load_class("App", &sources).expect("loads");
    assert_eq!(vec!["child".to_string(), "bootstrap".to_string()], class.loader);
    assert!(child.defined_class_file("App").is_some());
    // cached: a second load needs no source
    let again = child.load_class("App", &vec![None, None]).expect("cached");
    assert_eq!(class, again);
}

#[test]
fn distinct_loaders_give_distinct_classes() {
    let bytes = class_bytes("HelloWorld");
    let mut first = ClassLoader::new("first", ClassPath::empty());
    let mut second = ClassLoader::new("second", ClassPath::empty());
    let a = first.load_class("HelloWorld", &vec![Some(bytes.clone())]).expect("loads");
    let b = second.load_class("HelloWorld", &vec![Some(bytes)]).expect("loads");
    assert_ne!(a, b);
}

#[test]
fn test_load_class_not_found() {
    let mut class_loader = ClassLoader::default();
    let result = class_loader.load_class("Foo", &vec![None]);
    assert!(matches!(result, Err(Error::ClassNotFound(_))));
}

#[test]
fn test_load_class() {
    let mut class_loader = ClassLoader::new("test", ClassPath::parse("classes"));
    let class_name = "HelloWorld";
    let sources = vec![Some(class_bytes(class_name))];
    let class = class_loader.load_class(class_name, &sources).expect("loads");
    let class_file = class_loader.defined_class_file(&class.name).expect("class file");
    assert_eq!(class_name, class_file.class_name().expect("name"));

    // Load the same class again to test caching
    let class = class_loader.load_class(class_name, &vec![None]).expect("cached");
    let class_file = class_loader.defined_class_file(&class.name).expect("class file");
    assert_eq!(class_name, class_file.class_name().expect("name"));
}

#[test]
fn test_load_class_parent() {
    let boot_class_loader = ClassLoader::new("test", ClassPath::parse("classes"));
    let mut class_loader = ClassLoader::new("test", ClassPath::parse("foo"));
    class_loader.set_parent(Some(boot_class_loader));
    let sources = vec![Some(class_bytes("HelloWorld")), None];
    let class = class_loader.load_class("HelloWorld", &sources).expect("loads");
    let parent = class_loader.parent().expect("parent");
    let class_file = parent.defined_class_file(&class.name).expect("class file");
    assert_eq!("HelloWorld", class_file.class_name().expect("name"));
}

#[test]
fn a_class_file_of_another_name_does_not_define_the_class() {
    let mut child = ClassLoader::new("child", ClassPath::empty());
    child.set_parent(Some(ClassLoader::default()));
    let sources = vec![Some(class_bytes("Other")), Some(class_bytes("App"))];
    let class = child.load_class("App", &sources).expect("loads");
    assert_eq!(vec!["child".to_string(), "bootstrap".to_string()], class.loader);
    let wrong = vec![Some(class_bytes("Other")), None];
    assert!(matches!(child.load_class("Missing", &wrong), Err(Error::ClassNotFound(_))));
}
