//! The class-bound entity abstraction: a capability implemented by every
//! device-class type, binding a typed object to a directory under a
//! class-scoped pseudo-filesystem root, with enumeration, validated lookup
//! and attribute reading derived from it.

use vstd::prelude::*;
use crate::error::Error;
use crate::fs::SysFs;

verus! {

/// The class root directory of the class named `class_name`.
pub open spec fn spec_root_of(class_name: Seq<char>) -> Seq<char> {
    "/sys/class/"@ + class_name
}

/// A typed handle on one instance directory of a device class.
pub trait SysClass: Sized {
    /// The class subdirectory name, as a specification value.
    spec fn spec_class_name() -> Seq<char>;

    /// The instance's backing directory path.
    spec fn spec_path(&self) -> Seq<char>;

    /// The fixed pseudo-filesystem subdirectory name for this class.
    fn class() -> (r: &'static str)
        ensures
            r@ == Self::spec_class_name(),
    ;

    /// Wraps a path without checking that anything exists there.  It is meant
    /// solely for navigation logic that has already established the path's
    /// validity through the enumeration or derivation that produced it;
    /// queries on a handle made from anywhere else find nothing.
    fn from_path_unchecked(path: String) -> (r: Self)
        ensures
            r.spec_path() == path@,
    ;

    /// The instance's backing directory.
    fn path(&self) -> (r: &str)
        ensures
            r@ == self.spec_path(),
    ;
}

/// The class root directory of `T`, as a fresh string.
fn class_root<T: SysClass>() -> (r: String)
    ensures
        r@ == spec_root_of(T::spec_class_name()),
{
    let mut p = String::from_str("/sys/class/");
    p.append(T::class());
    p
}

/// Enumerates every instance of class `T`: one handle per entry of the class
/// root, in listing order; fails with the listing's error kind when the class
/// root itself cannot be listed.
pub fn all_instances<T: SysClass>(fs: &SysFs) -> (r: Result<Vec<T>, Error>)
    ensures
        match fs.spec_list(spec_root_of(T::spec_class_name())) {
            Ok(names) => r matches Ok(v) && v@.len() == names.len() && (forall|i: int|
                0 <= i < names.len() ==> (#[trigger] v@[i]).spec_path() == spec_root_of(
                    T::spec_class_name(),
                ) + "/"@ + names[i]),
            Err(e) => r == Err::<Vec<T>, Error>(e),
        },
{
    let root = class_root::<T>();
    let names = match fs.list_dir(root.as_str()) {
        Ok(names) => names,
        Err(e) => {
            return Err(e);
        },
    };
    let ghost namesd = names.deep_view();
    let mut v: Vec<T> = Vec::new();
    let mut i: usize = 0;
    while i < names.len()
        invariant
            0 <= i <= names@.len(),
            namesd == names.deep_view(),
            namesd.len() == names@.len(),
            root@ == spec_root_of(T::spec_class_name()),
            v@.len() == i,
            forall|j: int|
                0 <= j < i ==> (#[trigger] v@[j]).spec_path() == spec_root_of(
                    T::spec_class_name(),
                ) + "/"@ + namesd[j],
        decreases names@.len() - i,
    {
        let mut p = root.clone();
        p.append("/");
        p.append(names[i].as_str());
        proof {
            assert(namesd[i as int] == names@[i as int]@);
        }
        v.push(T::from_path_unchecked(p));
        i = i + 1;
    }
    Ok(v)
}

/// Validated single-instance lookup: the instance of class `T` named `name`,
/// or `NotFound` when nothing exists at its place under the class root.
pub fn from_name<T: SysClass>(fs: &SysFs, name: &str) -> (r: Result<T, Error>)
    ensures
        fs.spec_exists(spec_root_of(T::spec_class_name()) + "/"@ + name@) ==> (r matches Ok(b)
            && b.spec_path() == spec_root_of(T::spec_class_name()) + "/"@ + name@),
        !fs.spec_exists(spec_root_of(T::spec_class_name()) + "/"@ + name@) ==> r == Err::<
            T,
            Error,
        >(Error::NotFound),
{
    let mut p = class_root::<T>();
    p.append("/");
    p.append(name);
    if fs.path_exists(p.as_str()) {
        Ok(T::from_path_unchecked(p))
    } else {
        Err(Error::NotFound)
    }
}

/// Reads the attribute file `rel` under the instance directory of `inst`,
/// yielding its raw text or the read's error kind.
pub fn read_attr<T: SysClass>(inst: &T, fs: &SysFs, rel: &str) -> (r: Result<String, Error>)
    ensures
        match r {
            Ok(t) => fs.spec_read(inst.spec_path() + "/"@ + rel@) == Ok::<Seq<char>, Error>(t@),
            Err(e) => fs.spec_read(inst.spec_path() + "/"@ + rel@) == Err::<Seq<char>, Error>(e),
        },
{
    let mut p = String::from_str(inst.path());
    p.append("/");
    p.append(rel);
    match fs.read_file(p.as_str()) {
        Ok(t) => Ok(t.clone()),
        Err(e) => Err(e),
    }
}

} // verus!
