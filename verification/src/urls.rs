//! Url declarations in nested scopes, over plain strings.
//!
//! A declaration gives a key a path. A path may be written with other keys as
//! its parts, with `::` between them; it is then resolved part by part.

use vstd::prelude::*;
use vstd::hash_map::StringHashMap;
use vstd::string::StringExecFns;
use crate::frontend::text::{
    contains_separator, has_separator, parts_of, separator, split_path, texts,
};

verus! {

/// The declarations of one scope.
pub type Scope = Map<Seq<char>, Seq<char>>;

/// The path of the key in the innermost scope that declares it.
pub open spec fn lookup(scopes: Seq<Scope>, key: Seq<char>) -> Option<Seq<char>>
    decreases scopes.len(),
{
    if scopes.len() == 0 {
        None
    } else if scopes.last().contains_key(key) {
        Some(scopes.last()[key])
    } else {
        lookup(scopes.drop_last(), key)
    }
}

/// The text so far, followed by the next path; `::` stands between them unless the text
/// so far is empty.
pub open spec fn extended(so_far: Seq<char>, path: Seq<char>) -> Seq<char> {
    if so_far.len() > 0 {
        so_far + separator() + path
    } else {
        path
    }
}

/// The paths of all the keys, one after the other; nothing where a key has no path.
pub open spec fn resolved(scopes: Seq<Scope>, keys: Seq<Seq<char>>) -> Option<Seq<char>>
    decreases keys.len(),
{
    if keys.len() == 0 {
        Some(Seq::empty())
    } else {
        match (resolved(scopes, keys.drop_last()), lookup(scopes, keys.last())) {
            (Some(so_far), Some(path)) => Some(extended(so_far, path)),
            _ => None,
        }
    }
}

/// The path of the key, resolved part by part where it has more than one part.
pub open spec fn path_for(scopes: Seq<Scope>, key: Seq<char>) -> Option<Seq<char>> {
    match lookup(scopes, key) {
        Some(path) => if has_separator(path) {
            resolved(scopes, parts_of(path))
        } else {
            Some(path)
        },
        None => None,
    }
}

/// Names with their paths, in nested scopes. The innermost scope is the last.
pub struct HierarchicalName {
    scopes: Vec<StringHashMap<String>>,
}

impl View for HierarchicalName {
    type V = Seq<Scope>;

    closed spec fn view(&self) -> Seq<Scope> {
        Seq::new(self.scopes@.len(), |i: int| self.scopes@[i]@.map_values(|p: String| p@))
    }
}

impl HierarchicalName {
    /// One scope, without declarations.
    pub fn new() -> (names: Self)
        ensures
            names@ == seq![Map::<Seq<char>, Seq<char>>::empty()],
    {
        let mut scopes: Vec<StringHashMap<String>> = Vec::new();
        scopes.push(StringHashMap::new());
        let names = HierarchicalName { scopes };
        proof {
            assert(names.scopes@[0]@.map_values(|p: String| p@) == Map::<
                Seq<char>,
                Seq<char>,
            >::empty());
            assert(names@ == seq![Map::<Seq<char>, Seq<char>>::empty()]);
        }
        names
    }

    /// Opens a scope inside the innermost.
    pub fn push_scope(&mut self)
        ensures
            final(self)@ == old(self)@.push(Map::<Seq<char>, Seq<char>>::empty()),
    {
        self.scopes.push(StringHashMap::new());
        proof {
            let n = old(self).scopes@.len() as int;
            assert(self.scopes@[n]@.map_values(|p: String| p@) == Map::<
                Seq<char>,
                Seq<char>,
            >::empty());
            assert(self@ == old(self)@.push(Map::<Seq<char>, Seq<char>>::empty()));
        }
    }

    /// Closes the innermost scope and forgets its declarations. Without a scope nothing
    /// happens.
    pub fn pop_scope(&mut self)
        ensures
            final(self)@ == (if old(self)@.len() > 0 {
                old(self)@.drop_last()
            } else {
                old(self)@
            }),
    {
        self.scopes.pop();
        proof {
            if old(self)@.len() > 0 {
                assert(self@ == old(self)@.drop_last());
            } else {
                assert(self@ == old(self)@);
            }
        }
    }

    /// Declares the key in the innermost scope, in place of what that scope said of it.
    /// Without a scope nothing happens.
    pub fn add_path(&mut self, key: &str, path: &str)
        ensures
            final(self)@ == (if old(self)@.len() > 0 {
                old(self)@.update(
                    old(self)@.len() - 1,
                    old(self)@.last().insert(key@, path@),
                )
            } else {
                old(self)@
            }),
    {
        match self.scopes.pop() {
            Some(mut scope) => {
                let ghost before = scope@;
                scope.insert(String::from_str(key), String::from_str(path));
                self.scopes.push(scope);
                proof {
                    let n = old(self)@.len() - 1;
                    assert(self.scopes@[n]@.map_values(|p: String| p@) == before.map_values(
                        |p: String| p@,
                    ).insert(key@, path@));
                    assert(self@ == old(self)@.update(n, old(self)@.last().insert(key@, path@)));
                }
            },
            None => {
                proof {
                    assert(self@ == old(self)@);
                }
            },
        }
    }

    /// The path of the key in the innermost scope that declares it.
    pub fn get_path(&self, key: &str) -> (path: Option<String>)
        ensures
            path is Some == lookup(self@, key@) is Some,
            path is Some ==> path->0@ == lookup(self@, key@)->0,
    {
        let mut i: usize = self.scopes.len();
        proof {
            assert(self@.take(i as int) == self@);
        }
        while i > 0
            invariant
                i <= self.scopes.len(),
                lookup(self@, key@) == lookup(self@.take(i as int), key@),
            decreases i,
        {
            proof {
                assert(self@.take(i as int).drop_last() == self@.take(i - 1));
                assert(self@.take(i as int).last() == self@[i - 1]);
            }
            match self.scopes[i - 1].get(key) {
                Some(path) => {
                    return Some(path.clone());
                },
                None => {},
            }
            i -= 1;
        }
        None
    }

    /// The paths of the parts of a composite key, one after the other with `::` between
    /// them; nothing where a part has no path.
    pub fn resolve_composite_key(&self, composite_key: &str) -> (path: Option<String>)
        ensures
            path is Some == resolved(self@, parts_of(composite_key@)) is Some,
            path is Some ==> path->0@ == resolved(self@, parts_of(composite_key@))->0,
    {
        let keys = split_path(composite_key);
        let mut resolved_path = String::new();
        let mut i: usize = 0;
        proof {
            reveal_strlit("::");
            assert(texts(keys@).take(0) == Seq::<Seq<char>>::empty());
        }
        while i < keys.len()
            invariant
                i <= keys.len(),
                "::"@ == separator(),
                texts(keys@) == parts_of(composite_key@),
                resolved(self@, texts(keys@).take(i as int)) == Some(resolved_path@),
            decreases keys.len() - i,
        {
            proof {
                assert(texts(keys@).take(i + 1).drop_last() == texts(keys@).take(i as int));
                assert(texts(keys@).take(i + 1).last() == keys@[i as int]@);
            }
            match self.get_path(keys[i].as_str()) {
                Some(value) => {
                    if !resolved_path.as_str().is_empty() {
                        resolved_path.append("::");
                    }
                    resolved_path.append(value.as_str());
                },
                None => {
                    proof {
                        lemma_unresolved_stays(self@, texts(keys@), i + 1);
                    }
                    return None;
                },
            }
            i += 1;
        }
        proof {
            assert(texts(keys@).take(keys@.len() as int) == texts(keys@));
        }
        Some(resolved_path)
    }
}

/// Once a key has no path, no longer list of keys is resolved.
proof fn lemma_unresolved_stays(scopes: Seq<Scope>, keys: Seq<Seq<char>>, n: int)
    requires
        0 <= n <= keys.len(),
        resolved(scopes, keys.take(n)) is None,
    ensures
        resolved(scopes, keys) is None,
    decreases keys.len(),
{
    if n < keys.len() {
        assert(keys.drop_last().take(n) == keys.take(n));
        lemma_unresolved_stays(scopes, keys.drop_last(), n);
    } else {
        assert(keys.take(n) == keys);
    }
}

/// The url declarations of a program, scope by scope.
pub struct UrlResolver {
    hierarchical_name: HierarchicalName,
}

impl View for UrlResolver {
    type V = Seq<Scope>;

    closed spec fn view(&self) -> Seq<Scope> {
        self.hierarchical_name@
    }
}

impl UrlResolver {
    /// One scope, without declarations.
    pub fn new() -> (resolver: Self)
        ensures
            resolver@ == seq![Map::<Seq<char>, Seq<char>>::empty()],
    {
        UrlResolver { hierarchical_name: HierarchicalName::new() }
    }

    /// Opens a scope inside the innermost.
    pub fn push_scope(&mut self)
        ensures
            final(self)@ == old(self)@.push(Map::<Seq<char>, Seq<char>>::empty()),
    {
        self.hierarchical_name.push_scope();
    }

    /// Closes the innermost scope and forgets its declarations.
    pub fn pop_scope(&mut self)
        ensures
            final(self)@ == (if old(self)@.len() > 0 {
                old(self)@.drop_last()
            } else {
                old(self)@
            }),
    {
        self.hierarchical_name.pop_scope();
    }

    /// Declares that the key stands for the url, in the innermost scope.
    pub fn resolve_url(&mut self, key: &str, url: &str)
        ensures
            final(self)@ == (if old(self)@.len() > 0 {
                old(self)@.update(old(self)@.len() - 1, old(self)@.last().insert(key@, url@))
            } else {
                old(self)@
            }),
    {
        let path = self.extract_path_from_url(url);
        self.hierarchical_name.add_path(key, path.as_str());
    }

    /// The path that a url stands for: the url itself.
    pub fn extract_path_from_url(&self, url: &str) -> (path: String)
        ensures
            path@ == url@,
    {
        String::from_str(url)
    }

    /// The path of the key. A path with several parts is resolved: each part is looked up
    /// as a key of its own.
    pub fn get_path_for_key(&self, key: &str) -> (path: Option<String>)
        ensures
            path is Some == path_for(self@, key@) is Some,
            path is Some ==> path->0@ == path_for(self@, key@)->0,
    {
        match self.hierarchical_name.get_path(key) {
            Some(value) => {
                if contains_separator(value.as_str()) {
                    self.hierarchical_name.resolve_composite_key(value.as_str())
                } else {
                    Some(value)
                }
            },
            None => None,
        }
    }
}

} // verus!
