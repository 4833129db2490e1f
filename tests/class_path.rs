use ristretto::class_path::{ClassPath, ClassPathEntry};

#[test]
fn model_test_default() {
    let class_path_entry = ClassPathEntry::default();
    assert_eq!(class_path_entry.name(), ".");
}

#[test]
fn test_new_directory() {
    let classes_directory = "/tmp".to_string();
    let class_path_entry = ClassPathEntry::new(&classes_directory);
    assert!(matches!(class_path_entry, ClassPathEntry::Directory(_)));
    assert_eq!(class_path_entry.name(), classes_directory);
}

#[test]
fn test_new_jar() {
    let classes_jar = "/etc/passwd".to_string();
    let class_path_entry = ClassPathEntry::new(&classes_jar);
    assert!(matches!(class_path_entry, ClassPathEntry::Jar(_)));
    assert_eq!(class_path_entry.name(), classes_jar);
}

#[test]
fn test_new_url() {
    let url = "https://repo1.maven.org/maven2/org/springframework/boot/spring-boot/3.3.0/spring-boot-3.3.0.jar";
    let class_path_entry = ClassPathEntry::new(url);
    assert!(matches!(class_path_entry, ClassPathEntry::Url(_)));
    assert_eq!(class_path_entry.name(), url);
}

#[test]
fn classify_by_kind() {
    assert!(matches!(ClassPathEntry::classify("http://host/a.jar", true), ClassPathEntry::Url(_)));
    assert!(matches!(ClassPathEntry::classify("lib/a.jar", true), ClassPathEntry::Jar(_)));
    assert!(matches!(ClassPathEntry::classify("lib", false), ClassPathEntry::Directory(_)));
}

#[test]
fn class_path_splits_on_colons() {
    let class_path = ClassPath::parse("a:b/c:d.jar");
    assert_eq!(3, class_path.len());
    assert_eq!("a", class_path.get(0).name());
    assert_eq!("b/c", class_path.get(1).name());
    assert_eq!("d.jar", class_path.get(2).name());
    assert_eq!(1, ClassPath::parse("").len());
}

#[test]
fn directory_class_file_path() {
    let ClassPathEntry::Directory(directory) = ClassPathEntry::classify("classes", false) else {
        panic!("not a directory");
    };
    assert_eq!("classes/java/lang/Object.class", directory.class_file_path("java.lang.Object"));
}
