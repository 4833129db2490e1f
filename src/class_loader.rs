//! Class loaders: a chain from the bootstrap loader down, each with a class path and a
//! cache of the classes it defined. Loading delegates parent-first.

use crate::class_file::{class_named, decode_class, ClassFile};
use crate::class_path::ClassPath;
use crate::error::Error;
use dashmap::DashMap;
use vstd::prelude::*;
use vstd::string::StringExecFns;

verus! {

#[verifier::external_type_specification]
#[verifier::external_body]
#[verifier::reject_recursive_types(K)]
#[verifier::reject_recursive_types(V)]
#[verifier::reject_recursive_types(S)]
pub struct ExDashMap<K, V, S>(DashMap<K, V, S>);

/// A cache of classes by name.
pub type ClassCache = DashMap<String, usize>;

/// What a class cache holds: for each class name, the index of its class file among
/// those the loader defined.
pub uninterp spec fn cache_contents(m: ClassCache) -> Map<Seq<char>, usize>;

/// Relies on dashmap's `DashMap::new`: a map with no entries.
#[verifier::external_body]
fn new_cache() -> (r: ClassCache)
    ensures
        cache_contents(r).dom() == Set::<Seq<char>>::empty(),
{
    DashMap::new()
}

/// Relies on dashmap's `DashMap::get`: the value under `key`, where there is one.
#[verifier::external_body]
fn cache_get(m: &ClassCache, key: &str) -> (r: Option<usize>)
    ensures
        r == (if cache_contents(*m).contains_key(key@) {
            Some(cache_contents(*m)[key@])
        } else {
            None::<usize>
        }),
{
    m.get(key).map(|entry| *entry.value())
}

/// Relies on dashmap's `DashMap::insert`: `key` then maps to `value`, other keys as before.
#[verifier::external_body]
fn cache_insert(m: &mut ClassCache, key: String, value: usize)
    ensures
        cache_contents(*final(m)) == cache_contents(*old(m)).insert(key@, value),
{
    m.insert(key, value);
}

/// A class as the virtual machine knows it: its name and the loader that defined it,
/// given by the names of that loader and its ancestors, nearest first. Two classes are
/// the same only where both agree.
#[derive(Debug, Clone, PartialEq, Eq)]
pub struct Class {
    pub name: String,
    pub loader: Vec<String>,
}

/// A class loader.
#[derive(Debug)]
pub struct ClassLoader {
    pub name: String,
    pub class_path: ClassPath,
    pub parent: Option<Box<ClassLoader>>,
    pub classes: ClassCache,
    pub class_files: Vec<ClassFile>,
}

impl ClassLoader {
    /// The number of ancestors.
    pub open spec fn depth(&self) -> nat
        decreases self,
    {
        match self.parent {
            Option::Some(p) => p.depth() + 1,
            Option::None => 0,
        }
    }

    /// The names of the loader and its ancestors, nearest first: two loaders are equal
    /// where these agree.
    pub open spec fn identity(&self) -> Seq<Seq<char>>
        decreases self,
    {
        match self.parent {
            Option::Some(p) => seq![self.name@] + p.identity(),
            Option::None => seq![self.name@],
        }
    }

    /// The loader at `level` of the chain, counted from the root: the root is level 0,
    /// this loader level `depth()`.
    pub open spec fn at_level(&self, level: int) -> ClassLoader
        decreases self,
    {
        match self.parent {
            Option::Some(p) => if level >= self.depth() {
                *self
            } else {
                p.at_level(level)
            },
            Option::None => *self,
        }
    }

    /// The classes cached by this loader.
    pub open spec fn cache(&self) -> Map<Seq<char>, usize> {
        cache_contents(self.classes)
    }

    /// The cache of each loader of the chain, root first.
    pub open spec fn caches(&self) -> Seq<Map<Seq<char>, usize>>
        decreases self,
    {
        match self.parent {
            Option::Some(p) => p.caches().push(self.cache()),
            Option::None => seq![self.cache()],
        }
    }

    /// The identity of each loader of the chain, root first.
    pub open spec fn identities(&self) -> Seq<Seq<Seq<char>>>
        decreases self,
    {
        match self.parent {
            Option::Some(p) => p.identities().push(self.identity()),
            Option::None => seq![self.identity()],
        }
    }

    /// Every cached index names a class file the loader holds, in each loader of the chain.
    pub open spec fn wf(&self) -> bool
        decreases self,
    {
        &&& forall|k: Seq<char>| #[trigger] self.cache().contains_key(k) ==> self.cache()[k]
            < self.class_files@.len() && class_named(self.class_files@[self.cache()[k] as int]@, k)
        &&& match self.parent {
            Option::Some(p) => p.wf(),
            Option::None => true,
        }
    }

    /// A loader with no parent and no classes.
    pub fn new(name: &str, class_path: ClassPath) -> (r: ClassLoader)
        ensures
            r.name@ == name@,
            r.class_path == class_path,
            r.parent is None,
            r.cache().dom() == Set::<Seq<char>>::empty(),
            r.depth() == 0,
            r.identity() == seq![name@],
            r.wf(),
    {
        ClassLoader {
            name: String::from_str(name),
            class_path,
            parent: None,
            classes: new_cache(),
            class_files: Vec::new(),
        }
    }

    /// The loader's name.
    pub fn name(&self) -> (r: &str)
        ensures
            r@ == self.name@,
    {
        self.name.as_str()
    }

    /// The loader's class path.
    pub fn class_path(&self) -> (r: &ClassPath)
        ensures
            *r == self.class_path,
    {
        &self.class_path
    }

    /// The parent loader.
    pub fn parent(&self) -> (r: Option<&ClassLoader>)
        ensures
            r == (match self.parent {
                Option::Some(p) => Some(&*p),
                Option::None => None,
            }),
    {
        match &self.parent {
            Option::Some(p) => Some(&**p),
            Option::None => None,
        }
    }

    /// Makes `parent` this loader's parent.
    pub fn set_parent(&mut self, parent: Option<ClassLoader>)
        ensures
            final(self).name == old(self).name,
            final(self).classes == old(self).classes,
            final(self).class_files == old(self).class_files,
            final(self).parent == (match parent {
                Option::Some(p) => Some(Box::new(p)),
                Option::None => None,
            }),
    {
        self.parent = match parent {
            Option::Some(p) => Some(Box::new(p)),
            Option::None => None,
        };
    }

    /// The number of ancestors.
    pub fn depth_exec(&self) -> (r: usize)
        requires
            self.depth() < usize::MAX,
        ensures
            r == self.depth(),
        decreases self,
    {
        match &self.parent {
            Option::Some(p) => p.depth_exec() + 1,
            Option::None => 0,
        }
    }

    /// The names of the loader and its ancestors, nearest first.
    pub fn identity_exec(&self) -> (r: Vec<String>)
        ensures
            r@.map_values(|s: String| s@) == self.identity(),
        decreases self,
    {
        let mut v: Vec<String> = Vec::new();
        v.push(String::from_str(self.name.as_str()));
        match &self.parent {
            Option::Some(p) => {
                let rest = p.identity_exec();
                let mut i: usize = 0;
                while i < rest.len()
                    invariant
                        i <= rest@.len(),
                        v@.map_values(|s: String| s@) =~= seq![self.name@] + rest@.map_values(
                            |s: String| s@,
                        ).take(i as int),
                    decreases rest@.len() - i,
                {
                    let ghost prev = v@.map_values(|s: String| s@);
                    let ghost rm = rest@.map_values(|s: String| s@);
                    v.push(String::from_str(rest[i].as_str()));
                    assert(v@.map_values(|s: String| s@) =~= prev.push(rm[i as int]));
                    assert(rm.take(i + 1) =~= rm.take(i as int).push(rm[i as int]));
                    i = i + 1;
                }
                assert(rest@.map_values(|s: String| s@).take(i as int) =~= rest@.map_values(
                    |s: String| s@,
                ));
            },
            Option::None => {},
        }
        v
    }
}

/// What the class path of each loader of a chain holds under one class name, root first:
/// the bytes of a class file, or nothing.
pub open spec fn source_models(sources: Seq<Option<Vec<u8>>>) -> Seq<Option<Seq<u8>>> {
    sources.map_values(
        |o: Option<Vec<u8>>|
            match o {
                Option::Some(v) => Some(v@),
                Option::None => None,
            },
    )
}

/// Level `i` of the chain can define the class `name`: its class path holds a valid
/// class file whose `this_class` is `name`.
pub open spec fn defines(name: Seq<char>, src: Seq<Option<Seq<u8>>>, i: int) -> bool {
    &&& 0 <= i < src.len()
    &&& src[i] is Some
    &&& decode_class(src[i]->0) is Some
    &&& class_named(decode_class(src[i]->0)->0, name)
}

/// The first level from `i` up to `limit`, root first, that can define the class.
pub open spec fn first_from(name: Seq<char>, src: Seq<Option<Seq<u8>>>, i: int, limit: int) -> Option<int>
    decreases limit + 1 - i,
{
    if i < 0 || i > limit {
        None
    } else if defines(name, src, i) {
        Some(i)
    } else {
        first_from(name, src, i + 1, limit)
    }
}

proof fn lemma_first_extend(name: Seq<char>, src: Seq<Option<Seq<u8>>>, i: int, limit: int)
    requires
        0 <= i <= limit,
    ensures
        first_from(name, src, i, limit) == (match first_from(name, src, i, limit - 1) {
            Option::Some(x) => Some(x),
            Option::None => if defines(name, src, limit) {
                Some(limit)
            } else {
                None
            },
        }),
    decreases limit + 1 - i,
{
    if i < limit {
        lemma_first_extend(name, src, i + 1, limit);
    } else {
        assert(first_from(name, src, limit + 1, limit) is None);
        assert(first_from(name, src, limit, limit - 1) is None);
    }
}

proof fn lemma_first_bounds(name: Seq<char>, src: Seq<Option<Seq<u8>>>, i: int, limit: int)
    requires
        0 <= i,
    ensures
        first_from(name, src, i, limit) matches Some(x) ==> i <= x <= limit && defines(name, src, x),
    decreases limit + 1 - i,
{
    if i <= limit {
        lemma_first_bounds(name, src, i + 1, limit);
    }
}

impl Default for ClassLoader {
    /// The bootstrap loader: named `bootstrap`, with no parent and no class path entries.
    fn default() -> (r: ClassLoader)
        ensures
            r.name@ == "bootstrap"@,
            r.parent is None,
            r.depth() == 0,
            r.cache().dom() == Set::<Seq<char>>::empty(),
            r.wf(),
    {
        ClassLoader::new("bootstrap", ClassPath::empty())
    }
}

/// What loading `name` through `before` does, giving `after` and `r`: the class this
/// loader cached under that name, or else the class defined by the first loader of the
/// chain, root first, that can define it, which caches it; other caches stay as they were.
pub open spec fn load_class_post(
    before: ClassLoader,
    after: ClassLoader,
    name: Seq<char>,
    src: Seq<Option<Seq<u8>>>,
    r: Result<Class, Error>,
) -> bool {
    &&& after.identities() == before.identities()
    &&& after.caches().len() == before.caches().len()
    &&& before.cache().contains_key(name) ==> {
        &&& r matches Ok(c) && c.name@ == name && c.loader@.map_values(|s: String| s@)
            == before.identity()
        &&& after.caches() == before.caches()
    }
    &&& !before.cache().contains_key(name) ==> match first_from(name, src, 0, before.depth() as int) {
        Option::Some(level) => {
            &&& r matches Ok(c) && c.name@ == name && c.loader@.map_values(|s: String| s@)
                == before.identities()[level]
            &&& forall|j: int|
                0 <= j < before.caches().len() && j != level ==> #[trigger] after.caches()[j]
                    == before.caches()[j]
            &&& after.caches()[level] == before.caches()[level].insert(
                name,
                after.caches()[level][name],
            )
        },
        Option::None => r matches Err(Error::ClassNotFound(n)) && n@ == name && after.caches()
            == before.caches(),
    }
}

/// Delegation: where only the root loader's class path holds a class, loading it through
/// any loader that has not cached it gives the class the root loader defines, cached in
/// the root loader's cache and in no other.
pub proof fn lemma_delegation(
    before: ClassLoader,
    after: ClassLoader,
    name: Seq<char>,
    src: Seq<Option<Seq<u8>>>,
    r: Result<Class, Error>,
)
    requires
        before.depth() < src.len(),
        defines(name, src, 0),
        forall|i: int| 0 < i < src.len() ==> !defines(name, src, i),
        !before.cache().contains_key(name),
        load_class_post(before, after, name, src, r),
    ensures
        r matches Ok(c) && c.loader@.map_values(|s: String| s@) == before.identities()[0],
        after.caches()[0].contains_key(name),
        forall|j: int| 0 < j < before.caches().len() ==> #[trigger] after.caches()[j] == before.caches()[j],
{
    before.lemma_chain();
    assert(first_from(name, src, 0, before.depth() as int) == Some(0int));
}

/// Class identity: two loaders that are not equal, each defining a class of the same
/// name itself, from the same bytes or not, give two different classes.
pub proof fn lemma_distinct_loaders(
    a: ClassLoader,
    a_after: ClassLoader,
    b: ClassLoader,
    b_after: ClassLoader,
    name: Seq<char>,
    src_a: Seq<Option<Seq<u8>>>,
    src_b: Seq<Option<Seq<u8>>>,
    ra: Result<Class, Error>,
    rb: Result<Class, Error>,
)
    requires
        a.identity() != b.identity(),
        !a.cache().contains_key(name),
        !b.cache().contains_key(name),
        first_from(name, src_a, 0, a.depth() as int) == Some(a.depth() as int),
        first_from(name, src_b, 0, b.depth() as int) == Some(b.depth() as int),
        load_class_post(a, a_after, name, src_a, ra),
        load_class_post(b, b_after, name, src_b, rb),
    ensures
        ra matches Ok(ca) && rb matches Ok(cb) && ca.loader@.map_values(|s: String| s@)
            != cb.loader@.map_values(|s: String| s@),
{
    a.lemma_chain();
    b.lemma_chain();
}

impl ClassLoader {
    proof fn lemma_chain(&self)
        ensures
            self.caches().len() == self.depth() + 1,
            self.identities().len() == self.depth() + 1,
            self.caches()[self.depth() as int] == self.cache(),
            self.identities()[self.depth() as int] == self.identity(),
        decreases self,
    {
        if let Option::Some(p) = self.parent {
            p.lemma_chain();
        }
    }

    /// Defines the class in the first loader of the chain, root first, whose class path
    /// holds a valid class file under `name`; `sources` gives what each holds.
    fn define_first(&mut self, name: &str, sources: &Vec<Option<Vec<u8>>>) -> (r: Option<Class>)
        requires
            old(self).wf(),
            old(self).depth() < sources@.len(),
        ensures
            final(self).wf(),
            final(self).depth() == old(self).depth(),
            final(self).identities() == old(self).identities(),
            final(self).identity() == old(self).identity(),
            final(self).caches().len() == old(self).caches().len(),
            match first_from(name@, source_models(sources@), 0, old(self).depth() as int) {
                Option::Some(level) => {
                    &&& r matches Some(c) && c.name@ == name@ && c.loader@.map_values(|s: String| s@)
                        == old(self).identities()[level]
                    &&& forall|j: int|
                        0 <= j < old(self).caches().len() && j != level ==> #[trigger] final(self).caches()[j] == old(self).caches()[j]
                    &&& final(self).caches()[level] == old(self).caches()[level].insert(
                        name@,
                        final(self).caches()[level][name@],
                    )
                },
                Option::None => r is None && final(self).caches() == old(self).caches(),
            },
        decreases old(self).depth(),
    {
        proof {
            old(self).lemma_chain();
        }
        let ghost src = source_models(sources@);
        let ghost d = self.depth() as int;
        let parent = self.parent.take();
        let found = match parent {
            Option::Some(mut p) => {
                let ghost op = *p;
                proof {
                    op.lemma_chain();
                }
                let found = p.define_first(name, sources);
                proof {
                    p.lemma_chain();
                }
                self.parent = Some(p);
                proof {
                    assert(self.caches() == p.caches().push(self.cache()));
                    assert(old(self).caches() == op.caches().push(old(self).cache()));
                    assert(self.identities() =~= old(self).identities());
                    match first_from(name@, src, 0, d - 1) {
                        Option::Some(level) => {
                            lemma_first_bounds(name@, src, 0, d - 1);
                            assert forall|j: int|
                                0 <= j < old(self).caches().len() && j != level implies #[trigger] self.caches()[j]
                                    == old(self).caches()[j] by {
                                if j < d {
                                    assert(self.caches()[j] == p.caches()[j]);
                                }
                            }
                        },
                        Option::None => {
                            assert(self.caches() =~= old(self).caches());
                        },
                    }
                }
                found
            },
            Option::None => {
                proof {
                    assert(d == 0);
                }
                None
            },
        };
        proof {
            lemma_first_extend(name@, src, 0, d);
        }
        match found {
            Option::Some(c) => Some(c),
            Option::None => {
                let level = self.depth_exec_bounded(sources.len());
                match &sources[level] {
                    Option::None => None,
                    Option::Some(bytes) => match ClassFile::from_bytes(bytes.as_slice()) {
                        Err(_) => None,
                        Ok(class_file) => {
                            if !class_file.is_named(name) {
                                return None;
                            }
                            let ghost before = *self;
                            let index = self.class_files.len();
                            self.class_files.push(class_file);
                            cache_insert(&mut self.classes, String::from_str(name), index);
                            proof {
                                self.lemma_chain();
                                if self.parent is Some {
                                    let p = self.parent->0;
                                    assert(self.caches() == p.caches().push(self.cache()));
                                    assert(self.identities() == p.identities().push(self.identity()));
                                }
                                assert(self.caches() =~= before.caches().update(d, self.cache()));
                                assert(self.identities() =~= before.identities());
                            }
                            Some(Class { name: String::from_str(name), loader: self.identity_exec() })
                        },
                    },
                }
            },
        }
    }

    /// The number of ancestors, given a bound above it.
    fn depth_exec_bounded(&self, bound: usize) -> (r: usize)
        requires
            self.depth() < bound,
        ensures
            r == self.depth(),
    {
        self.depth_exec()
    }

    /// Loads the class `name`: the class this loader cached under that name, or else
    /// the class defined by the first loader of the chain, root first, whose class path
    /// holds a valid class file under `name`, which that loader then caches. `sources`
    /// gives what the class path of each loader holds under `name`, root first.
    pub fn load_class(&mut self, name: &str, sources: &Vec<Option<Vec<u8>>>) -> (r: Result<
        Class,
        Error,
    >)
        requires
            old(self).wf(),
            sources@.len() == old(self).depth() + 1,
        ensures
            final(self).wf(),
            load_class_post(*old(self), *final(self), name@, source_models(sources@), r),
    {
        proof {
            self.lemma_chain();
        }
        if cache_get(&self.classes, name).is_some() {
            return Ok(Class { name: String::from_str(name), loader: self.identity_exec() });
        }
        match self.define_first(name, sources) {
            Option::Some(c) => Ok(c),
            Option::None => Err(Error::ClassNotFound(String::from_str(name))),
        }
    }

    /// The class file of the class this loader defined under `name`.
    pub fn defined_class_file(&self, name: &str) -> (r: Option<&ClassFile>)
        requires
            self.wf(),
        ensures
            r is Some <==> self.cache().contains_key(name@),
            r matches Some(c) ==> class_named(c@, name@),
    {
        match cache_get(&self.classes, name) {
            Option::Some(index) => {
                assert(self.cache().contains_key(name@));
                Some(&self.class_files[index])
            },
            Option::None => None,
        }
    }
}

} // verus!
