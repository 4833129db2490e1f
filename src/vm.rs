//! The decisions of the virtual machine's bootstrap: the class-file version of a Java
//! release, the order of the class library's initialization, thread identifiers, class
//! names and the main class of a JAR.

use crate::class_path::{has_prefix, starts_with};
use crate::error::Error;
use crate::java_error::{push_signed_decimal, signed_decimal};
use vstd::prelude::*;
use vstd::string::{StrSliceExecFns, StringExecFns};

verus! {

/// The class-file major version of Java 1 is 45: the Java major version plus this offset.
pub const CLASS_FILE_MAJOR_VERSION_OFFSET: u16 = 44;

/// The class-file major version of Java 8, the last release with the single-phase
/// initialization of `java.lang.System`.
pub const JAVA_8_CLASS_FILE_VERSION: u16 = 52;

/// The value of a decimal digit character.
pub open spec fn digit_value(c: char) -> int {
    c as int - '0' as int
}

pub open spec fn is_digit(c: char) -> bool {
    '0' <= c && c <= '9'
}

/// The number written by the decimal digits `s`.
pub open spec fn decimal_value(s: Seq<char>) -> int
    decreases s.len(),
{
    if s.len() == 0 {
        0
    } else {
        decimal_value(s.drop_last()) * 10 + digit_value(s.last())
    }
}

/// The part of `s` before its first `.`, or all of `s`.
pub open spec fn first_component(s: Seq<char>) -> Seq<char>
    decreases s.len(),
{
    if s.len() == 0 {
        s
    } else if s[0] == '.' {
        seq![]
    } else {
        seq![s[0]] + first_component(s.drop_first())
    }
}

/// The Java major version of a version string such as `21.0.2` or `8`: the number
/// before the first `.`; an error where that part is empty, holds a non-digit, or
/// exceeds what a class-file version can hold.
pub fn java_major_version(version: &str) -> (r: Result<u16, Error>)
    ensures
        match r {
            Ok(v) => {
                let c = first_component(version@);
                &&& c.len() > 0
                &&& forall|i: int| 0 <= i < c.len() ==> is_digit(#[trigger] c[i])
                &&& v == decimal_value(c)
                &&& v <= u16::MAX - CLASS_FILE_MAJOR_VERSION_OFFSET
            },
            Err(_) => {
                let c = first_component(version@);
                c.len() == 0 || (exists|i: int| 0 <= i < c.len() && !is_digit(#[trigger] c[i]))
                    || decimal_value(c) > u16::MAX - CLASS_FILE_MAJOR_VERSION_OFFSET
            },
        },
{
    let n = version.unicode_len();
    let mut k: usize = 0;
    while k < n && version.get_char(k) != '.'
        invariant
            n == version@.len(),
            k <= n,
            forall|j: int| 0 <= j < k ==> version@[j] != '.',
        decreases n - k,
    {
        k = k + 1;
    }
    proof {
        lemma_first_component(version@, k as int);
    }
    let ghost c = first_component(version@);
    assert(c == version@.subrange(0, k as int));
    if k == 0 {
        return Err(Error::InvalidOperand {
            expected: String::from_str("a Java version"),
            actual: String::from_str(version),
        });
    }
    let mut value: u32 = 0;
    let mut i: usize = 0;
    while i < k
        invariant
            i <= k <= n,
            n == version@.len(),
            c == version@.subrange(0, k as int),
            c == first_component(version@),
            forall|j: int| 0 <= j < i ==> is_digit(#[trigger] c[j]),
            value == decimal_value(c.subrange(0, i as int)),
            value <= u16::MAX - CLASS_FILE_MAJOR_VERSION_OFFSET,
        decreases k - i,
    {
        let ch = version.get_char(i);
        assert(c[i as int] == ch);
        if ch < '0' || ch > '9' {
            assert(!is_digit(c[i as int]));
            return Err(Error::InvalidOperand {
                expected: String::from_str("a Java version"),
                actual: String::from_str(version),
            });
        }
        let d = (ch as u32) - ('0' as u32);
        assert(c.subrange(0, i + 1).drop_last() =~= c.subrange(0, i as int));
        if value > ((u16::MAX - CLASS_FILE_MAJOR_VERSION_OFFSET) as u32 - d) / 10 {
            proof {
                let m = (u16::MAX - CLASS_FILE_MAJOR_VERSION_OFFSET) as int;
                assert(value * 10 + d > m) by (nonlinear_arith)
                    requires
                        value > (m - d) / 10,
                        0 <= d <= 9,
                        m >= 9,
                ;
                assert(decimal_value(c.subrange(0, i + 1)) == value * 10 + d);
                if forall|j: int| 0 <= j < c.len() ==> is_digit(#[trigger] c[j]) {
                    lemma_decimal_grows(c, i as int + 1);
                }
            }
            return Err(Error::InvalidOperand {
                expected: String::from_str("a Java version"),
                actual: String::from_str(version),
            });
        }
        value = value * 10 + d;
        i = i + 1;
    }
    assert(c.subrange(0, k as int) =~= c);
    Ok(value as u16)
}

/// The first component of `s` ends at its first `.`.
proof fn lemma_first_component(s: Seq<char>, k: int)
    requires
        0 <= k <= s.len(),
        forall|j: int| 0 <= j < k ==> s[j] != '.',
        k == s.len() || s[k] == '.',
    ensures
        first_component(s) == s.subrange(0, k),
    decreases k,
{
    if k == 0 {
        assert(s.subrange(0, 0) =~= first_component(s));
    } else {
        lemma_first_component(s.drop_first(), k - 1);
        assert(s.subrange(0, k) =~= seq![s[0]] + s.drop_first().subrange(0, k - 1));
    }
}

proof fn lemma_decimal_grows(s: Seq<char>, k: int)
    requires
        0 <= k <= s.len(),
        forall|i: int| 0 <= i < s.len() ==> is_digit(#[trigger] s[i]),
    ensures
        decimal_value(s) >= decimal_value(s.subrange(0, k)),
    decreases s.len(),
{
    if s.len() > k {
        lemma_decimal_grows(s.drop_last(), k);
        assert(s.drop_last().subrange(0, k) =~= s.subrange(0, k));
        assert(decimal_value(s.drop_last()) >= 0) by {
            lemma_decimal_nonnegative(s.drop_last());
        }
    } else {
        assert(s.subrange(0, k) =~= s);
    }
}

proof fn lemma_decimal_nonnegative(s: Seq<char>)
    requires
        forall|i: int| 0 <= i < s.len() ==> is_digit(#[trigger] s[i]),
    ensures
        decimal_value(s) >= 0,
    decreases s.len(),
{
    if s.len() > 0 {
        lemma_decimal_nonnegative(s.drop_last());
    }
}

/// The class-file major version of a Java release: its major version plus 44.
pub fn class_file_version(java_major: u16) -> (r: Result<u16, Error>)
    ensures
        java_major + CLASS_FILE_MAJOR_VERSION_OFFSET <= u16::MAX ==> r == Ok::<u16, Error>(
            (java_major + CLASS_FILE_MAJOR_VERSION_OFFSET) as u16,
        ),
        java_major + CLASS_FILE_MAJOR_VERSION_OFFSET > u16::MAX ==> r is Err,
{
    if java_major > u16::MAX - CLASS_FILE_MAJOR_VERSION_OFFSET {
        return Err(Error::InternalError(String::from_str("the Java version is too large")));
    }
    Ok(java_major + CLASS_FILE_MAJOR_VERSION_OFFSET)
}

/// A static method of `java.lang.System` that the bootstrap invokes.
#[derive(Debug, Clone, Copy, PartialEq, Eq, Structural)]
pub enum InitPhase {
    /// `initializeSystemClass()V`, Java 8 and before.
    InitializeSystemClass,
    /// `initPhase1()V`.
    Phase1,
    /// `initPhase2(ZZ)I`, called with `true, true`; it must return 0.
    Phase2,
    /// `initPhase3()V`.
    Phase3,
}

impl InitPhase {
    /// The method's name.
    pub fn method_name(&self) -> (r: &'static str)
        ensures
            r@ == match *self {
                InitPhase::InitializeSystemClass => "initializeSystemClass"@,
                InitPhase::Phase1 => "initPhase1"@,
                InitPhase::Phase2 => "initPhase2"@,
                InitPhase::Phase3 => "initPhase3"@,
            },
    {
        match self {
            InitPhase::InitializeSystemClass => "initializeSystemClass",
            InitPhase::Phase1 => "initPhase1",
            InitPhase::Phase2 => "initPhase2",
            InitPhase::Phase3 => "initPhase3",
        }
    }

    /// The method's descriptor.
    pub fn descriptor(&self) -> (r: &'static str)
        ensures
            r@ == (if *self == InitPhase::Phase2 {
                "(ZZ)I"@
            } else {
                "()V"@
            }),
    {
        match self {
            InitPhase::Phase2 => "(ZZ)I",
            _ => "()V",
        }
    }
}

/// The methods of `java.lang.System` that initialize the class library, in order: one
/// up to Java 8, three phases after it.
pub fn initialization_phases(class_file_version: u16) -> (r: Vec<InitPhase>)
    ensures
        class_file_version <= JAVA_8_CLASS_FILE_VERSION ==> r@ == seq![InitPhase::InitializeSystemClass],
        class_file_version > JAVA_8_CLASS_FILE_VERSION ==> r@ == seq![
            InitPhase::Phase1,
            InitPhase::Phase2,
            InitPhase::Phase3,
        ],
{
    let mut v: Vec<InitPhase> = Vec::new();
    if class_file_version <= JAVA_8_CLASS_FILE_VERSION {
        v.push(InitPhase::InitializeSystemClass);
    } else {
        v.push(InitPhase::Phase1);
        v.push(InitPhase::Phase2);
        v.push(InitPhase::Phase3);
    }
    assert(class_file_version <= JAVA_8_CLASS_FILE_VERSION ==> v@ =~= seq![InitPhase::InitializeSystemClass]);
    assert(class_file_version > JAVA_8_CLASS_FILE_VERSION ==> v@ =~= seq![
        InitPhase::Phase1,
        InitPhase::Phase2,
        InitPhase::Phase3,
    ]);
    v
}

/// Whether what `initPhase2` returned lets the bootstrap go on: an `int` of 0.
pub fn phase2_succeeded(result: Option<i32>) -> (r: bool)
    ensures
        r == (result == Some(0i32)),
{
    match result {
        Option::Some(v) => v == 0,
        Option::None => false,
    }
}

/// The message of a failed `initPhase2`, from what it returned.
pub open spec fn phase2_failure(result: Option<i32>) -> Seq<char> {
    match result {
        Option::Some(v) => "System::initPhase2() call failed: "@ + signed_decimal(v as int),
        Option::None => "System::initPhase2() call failed: None"@,
    }
}

/// The next step of the class library's initialization, given the phase that last
/// completed (`None` before the first) and, for `initPhase2`, the `int` it returned
/// (`None` where it returned none): the phase to invoke next, or `None` when all are
/// done. A failed `initPhase2` ends the bootstrap with `InternalError` and no
/// `initPhase3`; a phase out of order for the release is an `InternalError` too.
pub fn next_phase(class_file_version: u16, last: Option<InitPhase>, result: Option<i32>) -> (r: Result<Option<InitPhase>, Error>)
    ensures
        class_file_version <= JAVA_8_CLASS_FILE_VERSION ==> match last {
            Option::None => r == Ok::<Option<InitPhase>, Error>(Some(InitPhase::InitializeSystemClass)),
            Option::Some(InitPhase::InitializeSystemClass) => r == Ok::<Option<InitPhase>, Error>(None),
            Option::Some(_) => r matches Err(Error::InternalError(_)),
        },
        class_file_version > JAVA_8_CLASS_FILE_VERSION ==> match last {
            Option::None => r == Ok::<Option<InitPhase>, Error>(Some(InitPhase::Phase1)),
            Option::Some(InitPhase::Phase1) => r == Ok::<Option<InitPhase>, Error>(Some(InitPhase::Phase2)),
            Option::Some(InitPhase::Phase2) => if result == Some(0i32) {
                r == Ok::<Option<InitPhase>, Error>(Some(InitPhase::Phase3))
            } else {
                r matches Err(Error::InternalError(m)) && m@ == phase2_failure(result)
            },
            Option::Some(InitPhase::Phase3) => r == Ok::<Option<InitPhase>, Error>(None),
            Option::Some(InitPhase::InitializeSystemClass) => r matches Err(Error::InternalError(_)),
        },
{
    let out_of_order = Err(Error::InternalError(String::from_str("initialization phase out of order")));
    if class_file_version <= JAVA_8_CLASS_FILE_VERSION {
        match last {
            Option::None => Ok(Some(InitPhase::InitializeSystemClass)),
            Option::Some(InitPhase::InitializeSystemClass) => Ok(None),
            Option::Some(_) => out_of_order,
        }
    } else {
        match last {
            Option::None => Ok(Some(InitPhase::Phase1)),
            Option::Some(InitPhase::Phase1) => Ok(Some(InitPhase::Phase2)),
            Option::Some(InitPhase::Phase2) => {
                if phase2_succeeded(result) {
                    Ok(Some(InitPhase::Phase3))
                } else {
                    let mut m = String::from_str("System::initPhase2() call failed: ");
                    match result {
                        Option::Some(v) => push_signed_decimal(&mut m, v as i64),
                        Option::None => {
                            m.append("None");
                            proof {
                                reveal_strlit("System::initPhase2() call failed: ");
                                reveal_strlit("None");
                                reveal_strlit("System::initPhase2() call failed: None");
                            }
                            assert(m@ =~= phase2_failure(result));
                        },
                    }
                    Err(Error::InternalError(m))
                }
            },
            Option::Some(InitPhase::Phase3) => Ok(None),
            Option::Some(InitPhase::InitializeSystemClass) => out_of_order,
        }
    }
}

/// Allocates thread identifiers: 1 for the primordial thread, then counting up.
pub struct ThreadIds {
    next: u64,
}

impl ThreadIds {
    pub closed spec fn next_id(&self) -> u64 {
        self.next
    }

    /// The allocator whose first identifier is 1.
    pub fn new() -> (r: ThreadIds)
        ensures
            r.next_id() == 1,
    {
        ThreadIds { next: 1 }
    }

    /// The next identifier; an error once identifiers are exhausted, where the counter
    /// has wrapped around to 0.
    pub fn next_thread_id(&mut self) -> (r: Result<u64, Error>)
        ensures
            old(self).next_id() == 0 ==> r is Err && final(self).next_id() == 1,
            old(self).next_id() != 0 ==> r == Ok::<u64, Error>(old(self).next_id()),
            final(self).next_id() == (if old(self).next_id() == u64::MAX {
                0
            } else {
                old(self).next_id() + 1
            }),
    {
        let id = self.next;
        self.next = if id == u64::MAX {
            0
        } else {
            id + 1
        };
        if id == 0 {
            return Err(Error::InternalError(String::from_str("Thread identifier overflow")));
        }
        Ok(id)
    }
}

/// `s` with each `.` replaced by `/`.
pub open spec fn slashed(s: Seq<char>) -> Seq<char> {
    s.map_values(|c: char| if c == '.' { '/' } else { c })
}

/// `s` with every `.` replaced by `/`.
fn replace_dots(s: &str) -> (r: String)
    ensures
        r@ == slashed(s@),
{
    proof {
        reveal_strlit("/");
    }
    assert("/"@ =~= seq!['/']);
    let n = s.unicode_len();
    let mut out = String::new();
    let mut i: usize = 0;
    while i < n
        invariant
            n == s@.len(),
            i <= n,
            "/"@ == seq!['/'],
            out@ == slashed(s@.take(i as int)),
        decreases n - i,
    {
        let c = s.get_char(i);
        if c == '.' {
            out.append("/");
        } else {
            let piece = crate::constant_pool::char_string(c);
            out.append(piece.as_str());
        }
        assert(slashed(s@.take(i + 1)) =~= slashed(s@.take(i as int)).push(if c == '.' { '/' } else { c }));
        i = i + 1;
    }
    assert(s@.take(n as int) =~= s@);
    out
}

/// The internal form of a class name: `java.lang.Object` becomes `java/lang/Object`.
pub fn internal_class_name(name: &str) -> (r: String)
    ensures
        r@ == slashed(name@),
{
    replace_dots(name)
}

/// The value of the `Main-Class` attribute among the lines of a JAR manifest: the text
/// after `Main-Class: ` on the first line that starts with it, up to the end of the line.
pub fn manifest_main_class(lines: &Vec<String>) -> (r: Option<String>)
    ensures
        r matches Some(v) ==> exists|i: int|
            0 <= i < lines@.len() && has_prefix(#[trigger] lines@[i]@, "Main-Class: "@) && v@
                == lines@[i]@.subrange(12, lines@[i]@.len() as int) && forall|j: int|
                0 <= j < i ==> !has_prefix(#[trigger] lines@[j]@, "Main-Class: "@),
        r is None ==> forall|i: int|
            0 <= i < lines@.len() ==> !has_prefix(#[trigger] lines@[i]@, "Main-Class: "@),
{
    proof {
        reveal_strlit("Main-Class: ");
    }
    assert("Main-Class: "@.len() == 12);
    let mut i: usize = 0;
    while i < lines.len()
        invariant
            i <= lines@.len(),
            "Main-Class: "@.len() == 12,
            forall|j: int| 0 <= j < i ==> !has_prefix(#[trigger] lines@[j]@, "Main-Class: "@),
        decreases lines@.len() - i,
    {
        let line = lines[i].as_str();
        if starts_with(line, "Main-Class: ") {
            let n = line.unicode_len();
            assert(line@ == lines@[i as int]@);
            assert(n >= 12);
            let value = line.substring_char(12, n);
            let r = String::from_str(value);
            assert(has_prefix(lines@[i as int]@, "Main-Class: "@) && r@ == lines@[i as int]@.subrange(
                12,
                lines@[i as int]@.len() as int,
            ));
            return Some(r);
        }
        i = i + 1;
    }
    None
}

/// The class-file major version of Java 19, where `java.lang.Thread` moved its state into
/// a `FieldHolder` object.
pub const JAVA_19_CLASS_FILE_VERSION: u16 = 63;

/// The status the primordial thread's object records: `RUNNABLE`.
pub const THREAD_STATUS_RUNNABLE: i32 = 4;

/// The normal priority the primordial thread runs at.
pub const NORMAL_PRIORITY: i32 = 5;

/// The initial value of a field of the primordial thread's objects.
#[derive(Debug, Clone, Copy, PartialEq, Eq, Structural)]
pub enum FieldInit {
    Int(i32),
    Long(i64),
    /// The primordial thread group.
    ThreadGroup,
    /// The `FieldHolder` object.
    Holder,
}

/// The fields of the primordial thread's `java.lang.Thread` object, and of its
/// `java.lang.Thread$FieldHolder` object from Java 19 on, with their initial values.
pub open spec fn primordial_layout(class_file_version: u16, thread_id: i64) -> (
    Seq<(Seq<char>, FieldInit)>,
    Seq<(Seq<char>, FieldInit)>,
) {
    if class_file_version < JAVA_19_CLASS_FILE_VERSION {
        (
            seq![
                ("daemon"@, FieldInit::Int(0)),
                ("eetop"@, FieldInit::Long(0)),
                ("group"@, FieldInit::ThreadGroup),
                ("priority"@, FieldInit::Int(NORMAL_PRIORITY)),
                ("stackSize"@, FieldInit::Long(0)),
                ("threadStatus"@, FieldInit::Int(THREAD_STATUS_RUNNABLE)),
                ("tid"@, FieldInit::Long(thread_id)),
            ],
            seq![],
        )
    } else {
        (
            seq![
                ("eetop"@, FieldInit::Long(0)),
                ("holder"@, FieldInit::Holder),
                ("interrupted"@, FieldInit::Int(0)),
                ("tid"@, FieldInit::Long(thread_id)),
            ],
            seq![
                ("daemon"@, FieldInit::Int(0)),
                ("group"@, FieldInit::ThreadGroup),
                ("priority"@, FieldInit::Int(NORMAL_PRIORITY)),
                ("stackSize"@, FieldInit::Long(0)),
                ("threadStatus"@, FieldInit::Int(THREAD_STATUS_RUNNABLE)),
            ],
        )
    }
}

pub open spec fn field_models(v: Seq<(&str, FieldInit)>) -> Seq<(Seq<char>, FieldInit)> {
    v.map_values(|f: (&str, FieldInit)| (f.0@, f.1))
}

/// The fields to set on the primordial thread's `Thread` object and, from Java 19 on,
/// on its `FieldHolder` object, for the thread with identifier `thread_id`.
pub fn primordial_thread_fields(class_file_version: u16, thread_id: i64) -> (r: (
    Vec<(&'static str, FieldInit)>,
    Vec<(&'static str, FieldInit)>,
))
    ensures
        (field_models(r.0@), field_models(r.1@)) == primordial_layout(class_file_version, thread_id),
{
    let mut thread: Vec<(&'static str, FieldInit)> = Vec::new();
    let mut holder: Vec<(&'static str, FieldInit)> = Vec::new();
    if class_file_version < JAVA_19_CLASS_FILE_VERSION {
        thread.push(("daemon", FieldInit::Int(0)));
        thread.push(("eetop", FieldInit::Long(0)));
        thread.push(("group", FieldInit::ThreadGroup));
        thread.push(("priority", FieldInit::Int(NORMAL_PRIORITY)));
        thread.push(("stackSize", FieldInit::Long(0)));
        thread.push(("threadStatus", FieldInit::Int(THREAD_STATUS_RUNNABLE)));
        thread.push(("tid", FieldInit::Long(thread_id)));
    } else {
        thread.push(("eetop", FieldInit::Long(0)));
        thread.push(("holder", FieldInit::Holder));
        thread.push(("interrupted", FieldInit::Int(0)));
        thread.push(("tid", FieldInit::Long(thread_id)));
        holder.push(("daemon", FieldInit::Int(0)));
        holder.push(("group", FieldInit::ThreadGroup));
        holder.push(("priority", FieldInit::Int(NORMAL_PRIORITY)));
        holder.push(("stackSize", FieldInit::Long(0)));
        holder.push(("threadStatus", FieldInit::Int(THREAD_STATUS_RUNNABLE)));
    }
    assert(field_models(thread@) =~= primordial_layout(class_file_version, thread_id).0);
    assert(field_models(holder@) =~= primordial_layout(class_file_version, thread_id).1);
    (thread, holder)
}

/// The main class of a run: the one the configuration names, else the `Main-Class` of
/// the JAR's manifest, where a JAR was given and its manifest names one.
pub fn main_class_name(configured: Option<&str>, jar_manifest: Option<&Vec<String>>) -> (r: Option<String>)
    ensures
        configured matches Some(c) ==> (r matches Some(v) && v@ == c@),
        configured is None && jar_manifest is None ==> r is None,
        configured is None && jar_manifest is Some ==> (r is Some <==> exists|i: int|
            0 <= i < jar_manifest->0@.len() && has_prefix(
                #[trigger] jar_manifest->0@[i]@,
                "Main-Class: "@,
            )),
        configured is None && jar_manifest is Some ==> (r matches Some(v) ==> exists|i: int|
            0 <= i < jar_manifest->0@.len() && has_prefix(
                #[trigger] jar_manifest->0@[i]@,
                "Main-Class: "@,
            ) && v@ == jar_manifest->0@[i]@.subrange(12, jar_manifest->0@[i]@.len() as int)
                && forall|j: int|
                0 <= j < i ==> !has_prefix(#[trigger] jar_manifest->0@[j]@, "Main-Class: "@)),
{
    match configured {
        Option::Some(c) => Some(String::from_str(c)),
        Option::None => match jar_manifest {
            Option::Some(lines) => manifest_main_class(lines),
            Option::None => None,
        },
    }
}

/// Where the class library comes from: a Java release to find or fetch, or a Java home
/// on disk. The release takes precedence, as in the configuration's order.
#[derive(Debug, Clone, PartialEq, Eq)]
pub enum RuntimeSource {
    Version(String),
    Home(String),
}

/// The source of the class library for a configuration; an error where it names neither
/// a Java version nor a Java home.
pub fn runtime_source(java_version: Option<&str>, java_home: Option<&str>) -> (r: Result<RuntimeSource, Error>)
    ensures
        java_version matches Some(v) ==> (r matches Ok(RuntimeSource::Version(s)) && s@ == v@),
        java_version is None ==> (java_home matches Some(h) ==> (r matches Ok(RuntimeSource::Home(s))
            && s@ == h@)),
        java_version is None && java_home is None ==> (r matches Err(Error::InternalError(m)) && m@
            == "Java version or Java home must be specified"@),
{
    match java_version {
        Option::Some(v) => Ok(RuntimeSource::Version(String::from_str(v))),
        Option::None => match java_home {
            Option::Some(h) => Ok(RuntimeSource::Home(String::from_str(h))),
            Option::None => Err(
                Error::InternalError(String::from_str("Java version or Java home must be specified")),
            ),
        },
    }
}

/// The method that `invoke_main` runs: `main([Ljava/lang/String;)V` of the main class.
/// An error where no main class was given, or where it has no such method.
pub fn main_method(main_class: Option<&crate::class_file::ClassFile>) -> (r: Result<usize, Error>)
    ensures
        main_class is None ==> (r matches Err(Error::InternalError(m)) && m@
            == "No main class specified"@),
        main_class matches Some(c) ==> match r {
            Ok(i) => i < c.methods@.len() && crate::class_file::method_is(
                c@,
                i as int,
                vstd::utf8::encode_utf8("main"@),
                vstd::utf8::encode_utf8("([Ljava/lang/String;)V"@),
            ),
            Err(e) => e is MethodNotFound && forall|j: int|
                0 <= j < c.methods@.len() ==> !#[trigger] crate::class_file::method_is(
                    c@,
                    j,
                    vstd::utf8::encode_utf8("main"@),
                    vstd::utf8::encode_utf8("([Ljava/lang/String;)V"@),
                ),
        },
{
    match main_class {
        Option::None => Err(Error::InternalError(String::from_str("No main class specified"))),
        Option::Some(c) => {
            let name = "main".as_bytes();
            let descriptor = "([Ljava/lang/String;)V".as_bytes();
            match c.find_method(name, descriptor) {
                Option::Some(i) => Ok(i),
                Option::None => Err(
                    Error::MethodNotFound {
                        class: String::new(),
                        name: String::from_str("main"),
                        descriptor: String::from_str("([Ljava/lang/String;)V"),
                    },
                ),
            }
        },
    }
}

} // verus!
