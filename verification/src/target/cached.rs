//! The artifact cache: the text of a program, kept once under a key.
//!
//! An entry is written in three steps. The program is rendered, once, and
//! the place to write it to is the path and the key put together as they are,
//! with nothing in between. Then a new file is created there and filled; that
//! step is not the library's, and fails if there is a file already. Last, the
//! outcome of the writing is taken in: a file that was there already means
//! the program has been cached before, which is no failure of the input or
//! output. A store in memory that creates files in the same way stands in for
//! the file system where none is at hand.

use super::assembler::assembly::Assembly;
use vstd::prelude::*;
use vstd::string::StringExecFns;

verus! {

/// The kinds of failure of input or output that the cache tells apart.
#[derive(Clone, Copy, Debug, PartialEq, Eq, Structural)]
pub enum IoKind {
    AlreadyExists,
    NotFound,
    PermissionDenied,
    Other,
}

/// A failure of input or output: its kind, and what the system said.
#[derive(Debug)]
pub struct IoFailure {
    pub kind: IoKind,
    pub message: String,
}

/// Why a program was not cached.
#[derive(Debug)]
pub enum CachError<E> {
    /// Creating or writing the file failed.
    IOError(IoFailure),
    /// The program could not be rendered.
    AssemblyError(E),
    /// There was an entry under the key already; it was left as it is.
    Mutated,
}

/// What is to be written, and where.
#[derive(Debug)]
pub struct CachePlan {
    pub key: String,
    pub path: String,
    pub bytes: Vec<u8>,
}

/// An entry of the cache: its key, the path of the file behind it, and the
/// bytes that were written there.
#[derive(Debug)]
pub struct Cached {
    key: String,
    path: String,
    bytes: Vec<u8>,
}

/// What the writing of a plan comes to, given how creating and filling the
/// file went.
pub open spec fn concluded<E>(plan: CachePlan, outcome: Result<(), IoFailure>) -> Result<
    (Seq<char>, Seq<char>, Seq<u8>),
    CachError<E>,
> {
    match outcome {
        Ok(()) => Ok((plan.key@, plan.path@, plan.bytes@)),
        Err(failure) => if failure.kind == IoKind::AlreadyExists {
            Err(CachError::Mutated)
        } else {
            Err(CachError::IOError(failure))
        },
    }
}

impl Cached {
    /// The key of the entry.
    pub closed spec fn key(&self) -> Seq<char> {
        self.key@
    }

    /// The path of the file behind the entry.
    pub closed spec fn path(&self) -> Seq<char> {
        self.path@
    }

    /// The bytes of the entry.
    pub closed spec fn contents(&self) -> Seq<u8> {
        self.bytes@
    }

    /// The place of the entry with key `name` under `path`: the two put
    /// together, with no separator in between.
    pub fn full_path(path: &str, name: &str) -> (full: String)
        ensures
            full@ == path@ + name@,
    {
        let mut full = String::from_str(path);
        full.append(name);
        full
    }

    /// Plans the writing of a program under `path` with key `name`, given
    /// what rendering it came to: its bytes, or the error, which is handed on.
    pub fn planned<E>(path: &str, name: &str, rendered: Result<Vec<u8>, E>) -> (r: Result<
        CachePlan,
        CachError<E>,
    >)
        ensures
            match rendered {
                Ok(bytes) => r is Ok && r->Ok_0.bytes@ == bytes@ && r->Ok_0.key@ == name@
                    && r->Ok_0.path@ == path@ + name@,
                Err(error) => r == Err::<CachePlan, CachError<E>>(CachError::AssemblyError(error)),
            },
    {
        match rendered {
            Ok(bytes) => Ok(
                CachePlan { key: String::from_str(name), path: Self::full_path(path, name), bytes },
            ),
            Err(error) => Err(CachError::AssemblyError(error)),
        }
    }

    /// Renders `assembly`, once, and plans the writing of the result under
    /// `path` with key `name`. What the plan holds, or which error comes
    /// back, is what `planned` makes of the rendering.
    pub fn plan<A: Assembly>(path: &str, name: &str, assembly: &A) -> (r: Result<
        CachePlan,
        CachError<A::Error>,
    >)
        ensures
            match r {
                Ok(plan) => plan.key@ == name@ && plan.path@ == path@ + name@,
                Err(CachError::AssemblyError(_)) => true,
                Err(_) => false,
            },
    {
        Self::planned(path, name, assembly.assemble())
    }

    /// Takes in how the writing of `plan` went.
    pub fn conclude<E>(plan: CachePlan, outcome: Result<(), IoFailure>) -> (r: Result<
        Cached,
        CachError<E>,
    >)
        ensures
            match r {
                Ok(entry) => concluded::<E>(plan, outcome) == Ok::<
                    (Seq<char>, Seq<char>, Seq<u8>),
                    CachError<E>,
                >((entry.key(), entry.path(), entry.contents())),
                Err(error) => concluded::<E>(plan, outcome) == Err::<
                    (Seq<char>, Seq<char>, Seq<u8>),
                    CachError<E>,
                >(error),
            },
    {
        match outcome {
            Ok(()) => Ok(Cached { key: plan.key, path: plan.path, bytes: plan.bytes }),
            Err(failure) => match failure.kind {
                IoKind::AlreadyExists => Err(CachError::Mutated),
                _ => Err(CachError::IOError(failure)),
            },
        }
    }

    /// Whether the entry is valid for `key`, given the length of the file
    /// behind it, if there is such a file: the key is that of the entry, and
    /// the file is there and not empty.
    pub fn is_valid(&self, key: &str, stored: Option<usize>) -> (valid: bool)
        ensures
            valid <==> key@ == self.key() && stored is Some && stored->0 > 0,
    {
        let same = String::from_str(key) == self.key;
        match stored {
            Some(length) => same && length > 0,
            None => false,
        }
    }

    /// The bytes of the entry.
    pub fn bytes(&self) -> (bytes: &Vec<u8>)
        ensures
            bytes@ == self.contents(),
    {
        &self.bytes
    }

    /// The path of the file behind the entry.
    pub fn location(&self) -> (path: &String)
        ensures
            path@ == self.path(),
    {
        &self.path
    }

    /// The key of the entry.
    pub fn name(&self) -> (key: &String)
        ensures
            key@ == self.key(),
    {
        &self.key
    }
}

/// The first index at or after `from` of a file at `path`, or the number of
/// files if there is none.
pub open spec fn file_at(files: Seq<(Seq<char>, Seq<u8>)>, path: Seq<char>, from: int) -> int
    decreases files.len() - from,
{
    if 0 <= from < files.len() && files[from].0 != path {
        file_at(files, path, from + 1)
    } else {
        from
    }
}

/// The bytes of the file at `path`, if there is one.
pub open spec fn stored(files: Seq<(Seq<char>, Seq<u8>)>, path: Seq<char>) -> Option<Seq<u8>> {
    let at = file_at(files, path, 0);
    if at < files.len() {
        Some(files[at].1)
    } else {
        None
    }
}

/// The files after an attempt to create a new file at `path` with `bytes`:
/// one more, unless there was one at that path.
pub open spec fn created(
    files: Seq<(Seq<char>, Seq<u8>)>,
    path: Seq<char>,
    bytes: Seq<u8>,
) -> Seq<(Seq<char>, Seq<u8>)> {
    if stored(files, path) is Some {
        files
    } else {
        files.push((path, bytes))
    }
}

/// `file_at` stops at the first file at the path.
pub proof fn lemma_file_at(files: Seq<(Seq<char>, Seq<u8>)>, path: Seq<char>, from: int)
    requires
        0 <= from <= files.len(),
    ensures
        from <= file_at(files, path, from) <= files.len(),
        forall|j: int| from <= j < file_at(files, path, from) ==> (#[trigger] files[j]).0 != path,
        file_at(files, path, from) < files.len() ==> files[file_at(files, path, from)].0 == path,
    decreases files.len() - from,
{
    if from < files.len() && files[from].0 != path {
        lemma_file_at(files, path, from + 1);
    }
}

/// An index with a file at the path, and none before it, is where `file_at`
/// stops.
pub proof fn lemma_file_at_is_first(files: Seq<(Seq<char>, Seq<u8>)>, path: Seq<char>, at: int)
    requires
        0 <= at <= files.len(),
        forall|j: int| 0 <= j < at ==> (#[trigger] files[j]).0 != path,
        at < files.len() ==> files[at].0 == path,
    ensures
        file_at(files, path, 0) == at,
{
    lemma_file_at(files, path, 0);
    let f = file_at(files, path, 0);
    if f < at {
    } else if at < f {
    }
}

/// Creating a file leaves every file that was there as it was, and the new
/// file is there afterwards with the bytes it was created with.
pub proof fn lemma_created(
    files: Seq<(Seq<char>, Seq<u8>)>,
    path: Seq<char>,
    bytes: Seq<u8>,
    other: Seq<char>,
)
    ensures
        stored(files, other) is Some ==> stored(created(files, path, bytes), other) == stored(
            files,
            other,
        ),
        stored(files, path) is None ==> stored(created(files, path, bytes), path) == Some(bytes),
        stored(created(files, path, bytes), path) is Some,
{
    let after = created(files, path, bytes);
    lemma_file_at(files, path, 0);
    lemma_file_at(files, other, 0);
    if stored(files, path) is None {
        lemma_file_at_is_first(after, path, files.len() as int);
        if stored(files, other) is Some {
            let a = file_at(files, other, 0);
            lemma_file_at_is_first(after, other, a);
        }
    }
}

/// Writing twice under one key: once a file has been created at a path,
/// creating another there changes nothing, and the bytes of the first stay.
pub proof fn lemma_no_overwrite(
    files: Seq<(Seq<char>, Seq<u8>)>,
    path: Seq<char>,
    first: Seq<u8>,
    second: Seq<u8>,
)
    requires
        stored(files, path) is None,
    ensures
        stored(created(files, path, first), path) == Some(first),
        created(created(files, path, first), path, second) == created(files, path, first),
        stored(created(created(files, path, first), path, second), path) == Some(first),
{
    lemma_created(files, path, first, path);
}

/// A store of files in memory, in which a file is created once and never
/// changed.
#[derive(Debug)]
pub struct MemoryStore {
    files: Vec<(String, Vec<u8>)>,
}

impl View for MemoryStore {
    type V = Seq<(Seq<char>, Seq<u8>)>;

    closed spec fn view(&self) -> Seq<(Seq<char>, Seq<u8>)> {
        Seq::new(self.files@.len(), |i: int| (self.files@[i].0@, self.files@[i].1@))
    }
}

impl MemoryStore {
    /// A store without files.
    pub fn new() -> (store: Self)
        ensures
            store@ == Seq::<(Seq<char>, Seq<u8>)>::empty(),
    {
        let store = MemoryStore { files: Vec::new() };
        store
    }

    /// Where the file at `path` is, if there is one.
    fn index_of(&self, path: &String) -> (at: Option<usize>)
        ensures
            match at {
                Some(i) => i == file_at(self@, path@, 0) && i < self@.len(),
                None => file_at(self@, path@, 0) == self@.len(),
            },
    {
        let mut i: usize = 0;
        while i < self.files.len()
            invariant
                i <= self.files@.len(),
                self.files@.len() == self@.len(),
                file_at(self@, path@, 0) == file_at(self@, path@, i as int),
            decreases self.files@.len() - i,
        {
            if self.files[i].0 == *path {
                return Some(i);
            }
            i = i + 1;
        }
        None
    }

    /// The bytes of the file at `path`, if there is one.
    pub fn read(&self, path: &str) -> (bytes: Option<&Vec<u8>>)
        ensures
            match bytes {
                Some(b) => stored(self@, path@) == Some(b@),
                None => stored(self@, path@) is None,
            },
    {
        let key = String::from_str(path);
        match self.index_of(&key) {
            Some(i) => Some(&self.files[i].1),
            None => None,
        }
    }

    /// Creates a file at `path` with `bytes`, unless there is one; then
    /// nothing changes, and the failure says that it exists.
    pub fn create_new(&mut self, path: &str, bytes: &Vec<u8>) -> (r: Result<(), IoFailure>)
        ensures
            final(self)@ == created(old(self)@, path@, bytes@),
            match r {
                Ok(()) => stored(old(self)@, path@) is None,
                Err(failure) => stored(old(self)@, path@) is Some && failure.kind
                    == IoKind::AlreadyExists,
            },
    {
        let key = String::from_str(path);
        match self.index_of(&key) {
            Some(_) => Err(
                IoFailure { kind: IoKind::AlreadyExists, message: String::from_str("file exists") },
            ),
            None => {
                let copy = bytes.clone();
                self.files.push((key, copy));
                Ok(())
            },
        }
    }
}

impl Cached {
    /// Caches a program in `store` under `path` with key `name`, given what
    /// rendering it came to.
    ///
    /// If the program could not be rendered, that is the error and the store
    /// is left alone. If there is a file at the place already, the error is
    /// `Mutated` and the store is left alone. Otherwise the file is created
    /// with the bytes of the program, and the entry holds them.
    pub fn write<E>(store: &mut MemoryStore, path: &str, name: &str, rendered: Result<Vec<u8>, E>) -> (r:
        Result<Cached, CachError<E>>)
        ensures
            match rendered {
                Err(error) => r == Err::<Cached, CachError<E>>(CachError::AssemblyError(error))
                    && final(store)@ == old(store)@,
                Ok(bytes) => final(store)@ == created(old(store)@, path@ + name@, bytes@)
                    && match r {
                    Ok(entry) => stored(old(store)@, path@ + name@) is None && entry.key() == name@
                        && entry.path() == path@ + name@ && entry.contents() == bytes@,
                    Err(CachError::Mutated) => stored(old(store)@, path@ + name@) is Some,
                    Err(_) => false,
                },
            },
    {
        let plan = match Self::planned(path, name, rendered) {
            Ok(plan) => plan,
            Err(error) => {
                return Err(error);
            },
        };
        let outcome = store.create_new(plan.path.as_str(), &plan.bytes);
        Self::conclude(plan, outcome)
    }

    /// Renders `assembly`, once, and caches the result in `store` under
    /// `path` with key `name`, as `write` does. The store changes only by
    /// a new file at that place, if at all.
    pub fn new<A: Assembly>(store: &mut MemoryStore, path: &str, name: &str, assembly: &A) -> (r:
        Result<Cached, CachError<A::Error>>)
        ensures
            match r {
                Ok(entry) => stored(old(store)@, path@ + name@) is None && entry.key() == name@
                    && entry.path() == path@ + name@ && final(store)@ == created(
                    old(store)@,
                    path@ + name@,
                    entry.contents(),
                ),
                Err(CachError::Mutated) => stored(old(store)@, path@ + name@) is Some && final(store)@ == old(store)@,
                Err(CachError::AssemblyError(_)) => final(store)@ == old(store)@,
                Err(CachError::IOError(_)) => false,
            },
    {
        Self::write(store, path, name, assembly.assemble())
    }
}

} // verus!
