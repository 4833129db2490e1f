use ristretto::vm::next_phase;
use ristretto::class_file::{ClassFile, Method};
use ristretto::constant_pool::ConstantPool;
use ristretto::vm::{main_method, runtime_source, RuntimeSource};
use ristretto::vm::{
    class_file_version, initialization_phases, internal_class_name, java_major_version,
    manifest_main_class, phase2_succeeded, InitPhase, ThreadIds,
};

#[test]
fn class_file_version_of_java_releases() {
    assert_eq!(21, java_major_version("21.0.2").expect("version"));
    assert_eq!(8, java_major_version("8").expect("version"));
    assert!(java_major_version("").is_err());
    assert!(java_major_version("x.1").is_err());
    assert!(java_major_version("99999").is_err());
    assert_eq!(65, class_file_version(21).expect("fits"));
    assert_eq!(45, class_file_version(1).expect("fits"));
    assert!(class_file_version(u16::MAX).is_err());
}

#[test]
fn initialization_phases_by_version() {
    assert_eq!(vec![InitPhase::InitializeSystemClass], initialization_phases(52));
    let phases = initialization_phases(53);
    assert_eq!(vec![InitPhase::Phase1, InitPhase::Phase2, InitPhase::Phase3], phases);
    assert_eq!("initPhase2", phases[1].method_name());
    assert_eq!("(ZZ)I", phases[1].descriptor());
    assert!(phase2_succeeded(Some(0)));
    assert!(!phase2_succeeded(Some(1)));
    assert!(!phase2_succeeded(None));
}

#[test]
fn thread_ids_start_at_one() {
    let mut ids = ThreadIds::new();
    assert_eq!(1, ids.next_thread_id().expect("id"));
    assert_eq!(2, ids.next_thread_id().expect("id"));
}

#[test]
fn class_names_use_slashes() {
    assert_eq!("java/lang/Object", internal_class_name("java.lang.Object"));
    assert_eq!("int", internal_class_name("int"));
}

#[test]
fn jar_manifest_names_main_class() {
    let lines = vec![
        "Manifest-Version: 1.0".to_string(),
        "Main-Class: HelloWorld".to_string(),
    ];
    assert_eq!(Some("HelloWorld".to_string()), manifest_main_class(&lines));
    assert_eq!(None, manifest_main_class(&vec!["Manifest-Version: 1.0".to_string()]));
}

use ristretto::error::Error;
use ristretto::native_methods::MethodRegistry;

#[test]
fn native_lookup_and_link_errors() {
    let registry = MethodRegistry::new(65);
    assert_eq!(65, registry.java_version());
    assert_eq!(
        "register_natives",
        registry.lookup("java/lang/ClassLoader", "registerNatives", "()V").expect("registered")
    );
    let missing = registry.lookup("java/lang/Nothing", "nothing", "()V");
    assert!(matches!(missing, Err(Error::UnsatisfiedLinkError(_))));
}

#[test]
fn natives_follow_the_release() {
    let java11 = MethodRegistry::new(55);
    let java21 = MethodRegistry::new(65);
    assert!(java11.lookup("jdk/internal/misc/Unsafe", "compareAndSetObject", "(Ljava/lang/Object;JLjava/lang/Object;Ljava/lang/Object;)Z").is_ok());
    assert!(java21.lookup("jdk/internal/misc/Unsafe", "compareAndSetObject", "(Ljava/lang/Object;JLjava/lang/Object;Ljava/lang/Object;)Z").is_err());
    assert!(java21.lookup("jdk/internal/misc/Unsafe", "compareAndSetReference", "(Ljava/lang/Object;JLjava/lang/Object;Ljava/lang/Object;)Z").is_ok());
}

#[test]
fn later_registration_replaces_earlier() {
    let mut registry = MethodRegistry::empty(65);
    registry.register("A", "m", "()V", "first");
    registry.register("A", "m", "()V", "second");
    assert_eq!("second", registry.lookup("A", "m", "()V").expect("registered"));
    assert_eq!(2, registry.len());
}

use ristretto::initialization::{on_event, InitAction, InitEvent, InitState};

#[test]
fn racing_threads_initialize_once() {
    let mut state = InitState::Uninitialized;
    assert_eq!(Some(InitAction::RunInitializer), on_event(&mut state, InitEvent::Use(1)));
    assert_eq!(Some(InitAction::Wait), on_event(&mut state, InitEvent::Use(2)));
    assert_eq!(Some(InitAction::Proceed), on_event(&mut state, InitEvent::Use(1)));
    assert_eq!(None, on_event(&mut state, InitEvent::Completed(2)));
    assert_eq!(InitState::Initializing(1), state);
    assert_eq!(None, on_event(&mut state, InitEvent::Completed(1)));
    assert_eq!(Some(InitAction::Proceed), on_event(&mut state, InitEvent::Use(2)));
    assert_eq!(InitState::Initialized, state);
}

#[test]
fn failed_initialization_fails_later_uses() {
    let mut state = InitState::Uninitialized;
    on_event(&mut state, InitEvent::Use(3));
    on_event(&mut state, InitEvent::Failed(3));
    assert_eq!(Some(InitAction::Fail), on_event(&mut state, InitEvent::Use(4)));
}

use ristretto::vm::{main_class_name, primordial_thread_fields, FieldInit};

#[test]
fn primordial_thread_layout_by_release() {
    let (thread, holder) = primordial_thread_fields(61, 1);
    assert!(holder.is_empty());
    assert!(thread.contains(&("threadStatus", FieldInit::Int(4))));
    assert!(thread.contains(&("priority", FieldInit::Int(5))));
    assert!(thread.contains(&("tid", FieldInit::Long(1))));
    let (thread, holder) = primordial_thread_fields(65, 1);
    assert!(thread.contains(&("holder", FieldInit::Holder)));
    assert!(holder.contains(&("threadStatus", FieldInit::Int(4))));
}

#[test]
fn jar_main_class_is_discovered() {
    let manifest = vec!["Manifest-Version: 1.0".to_string(), "Main-Class: HelloWorld".to_string()];
    assert_eq!(Some("HelloWorld".to_string()), main_class_name(None, Some(&manifest)));
    assert_eq!(Some("Other".to_string()), main_class_name(Some("Other"), Some(&manifest)));
    assert_eq!(None, main_class_name(None, None));
}

#[test]
fn unsafe_natives_of_every_release() {
    for version in [52u16, 55, 61, 65] {
        let registry = MethodRegistry::new(version);
        assert!(registry.lookup("jdk/internal/misc/Unsafe", "compareAndSetInt", "(Ljava/lang/Object;JII)Z").is_ok());
    }
    assert!(MethodRegistry::new(61).lookup("jdk/internal/misc/Unsafe", "loadFence", "()V").is_ok());
    assert!(MethodRegistry::new(65).lookup("jdk/internal/misc/Unsafe", "loadFence", "()V").is_err());
}

#[test]
fn runtime_source_needs_version_or_home() {
    assert_eq!(RuntimeSource::Version("21".to_string()), runtime_source(Some("21"), Some("/jdk")).expect("source"));
    assert_eq!(RuntimeSource::Home("/jdk".to_string()), runtime_source(None, Some("/jdk")).expect("source"));
    assert!(runtime_source(None, None).is_err());
}

#[test]
fn main_method_is_found_or_reported() {
    assert!(matches!(main_method(None), Err(Error::InternalError(_))));
    let mut pool = ConstantPool::new();
    let name = pool.add_utf8("main").expect("added");
    let descriptor = pool.add_utf8("([Ljava/lang/String;)V").expect("added");
    let other = pool.add_utf8("helper").expect("added");
    let method = |name_index| Method { access_flags: 9, name_index, descriptor_index: descriptor, attributes: vec![] };
    let mut class_file = ClassFile {
        minor_version: 0,
        major_version: 52,
        constant_pool: pool,
        access_flags: 0x21,
        this_class: 0,
        super_class: 0,
        interfaces: vec![],
        fields: vec![],
        methods: vec![method(other), method(name)],
        attributes: vec![],
    };
    assert_eq!(1, main_method(Some(&class_file)).expect("found"));
    class_file.methods.pop();
    assert!(matches!(main_method(Some(&class_file)), Err(Error::MethodNotFound { .. })));
}

#[test]
fn bootstrap_phases_stop_on_a_failed_phase2() {
    assert_eq!(Some(InitPhase::InitializeSystemClass), next_phase(52, None, None).expect("first"));
    assert_eq!(None, next_phase(52, Some(InitPhase::InitializeSystemClass), None).expect("done"));
    assert_eq!(Some(InitPhase::Phase1), next_phase(65, None, None).expect("first"));
    assert_eq!(Some(InitPhase::Phase2), next_phase(65, Some(InitPhase::Phase1), None).expect("second"));
    assert_eq!(Some(InitPhase::Phase3), next_phase(65, Some(InitPhase::Phase2), Some(0)).expect("third"));
    assert_eq!(None, next_phase(65, Some(InitPhase::Phase3), None).expect("done"));
    match next_phase(65, Some(InitPhase::Phase2), Some(-3)) {
        Err(Error::InternalError(message)) => assert_eq!("System::initPhase2() call failed: -3", message),
        other => panic!("unexpected {other:?}"),
    }
    match next_phase(65, Some(InitPhase::Phase2), None) {
        Err(Error::InternalError(message)) => assert_eq!("System::initPhase2() call failed: None", message),
        other => panic!("unexpected {other:?}"),
    }
    assert!(next_phase(52, Some(InitPhase::Phase1), None).is_err());
}
