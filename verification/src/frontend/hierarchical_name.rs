//! Names with their paths, declared in nested scopes and kept in the order of their keys.
//!
//! A key is a text with the span that it was read from. Two keys with the same
//! text are the same key, whatever their spans: the first one declared stays,
//! and takes the path of the second.

use vstd::prelude::*;
use vstd::string::StringExecFns;
use crate::frontend::position::{Span, WithSpan};
use crate::frontend::text::{
    compare_texts, join_path, joined, lemma_text_order_total, lemma_text_order_transitive,
    parts_of, separator, split_path, text_lt, texts, Order,
};

verus! {

/// A text and the span that it was read from.
pub struct Named {
    pub text: Seq<char>,
    pub span: Span,
}

/// A key with the path that it stands for.
pub struct Declaration {
    pub key: Named,
    pub path: Named,
}

/// The text and the span of a string with a span.
pub open spec fn named(w: WithSpan<String>) -> Named {
    Named { text: w.value@, span: w.span }
}

/// The declaration that a pair of key and path makes.
pub open spec fn declaration(entry: (WithSpan<String>, WithSpan<String>)) -> Declaration {
    Declaration { key: named(entry.0), path: named(entry.1) }
}

/// The declarations that a list of pairs makes.
pub open spec fn declarations(entries: Seq<(WithSpan<String>, WithSpan<String>)>) -> Seq<
    Declaration,
> {
    entries.map_values(|e: (WithSpan<String>, WithSpan<String>)| declaration(e))
}

/// The keys grow strictly in the order of strings.
pub open spec fn sorted(scope: Seq<Declaration>) -> bool {
    forall|i: int, j: int|
        0 <= i < j < scope.len() ==> text_lt(
            (#[trigger] scope[i]).key.text,
            (#[trigger] scope[j]).key.text,
        )
}

/// The first place from `from` on whose key does not come before `key`; the length of the
/// scope where all keys come before it.
pub open spec fn place_of(scope: Seq<Declaration>, key: Seq<char>, from: int) -> int
    decreases scope.len() - from,
{
    if from < 0 || from >= scope.len() {
        scope.len() as int
    } else if text_lt(scope[from].key.text, key) {
        place_of(scope, key, from + 1)
    } else {
        from
    }
}

/// The path that the scope declares for the key.
pub open spec fn declared(scope: Seq<Declaration>, key: Seq<char>) -> Option<Named> {
    let p = place_of(scope, key, 0);
    if p < scope.len() && scope[p].key.text == key {
        Some(scope[p].path)
    } else {
        None
    }
}

/// The scope with the key declared: a key that the scope knows keeps its place and its
/// span and takes the new path, a new key goes to its place in the order.
pub open spec fn with_declaration(scope: Seq<Declaration>, key: Named, path: Named) -> Seq<
    Declaration,
> {
    let p = place_of(scope, key.text, 0);
    if p < scope.len() && scope[p].key.text == key.text {
        scope.update(p, Declaration { key: scope[p].key, path })
    } else {
        scope.insert(p, Declaration { key, path })
    }
}

/// The path that the innermost scope with the key declares for it.
pub open spec fn found(scopes: Seq<Seq<Declaration>>, key: Seq<char>) -> Option<Named>
    decreases scopes.len(),
{
    if scopes.len() == 0 {
        None
    } else if declared(scopes.last(), key) is Some {
        declared(scopes.last(), key)
    } else {
        found(scopes.drop_last(), key)
    }
}

/// All declarations: scope by scope from the outermost, each scope in the order of its keys.
pub open spec fn all_declarations(scopes: Seq<Seq<Declaration>>) -> Seq<Declaration>
    decreases scopes.len(),
{
    if scopes.len() == 0 {
        Seq::empty()
    } else {
        all_declarations(scopes.drop_last()) + scopes.last()
    }
}

/// A composite key with the path of its first part written in place of that part.
pub open spec fn rewritten(key: Seq<char>, path: Seq<char>) -> Seq<char> {
    path + separator() + joined(parts_of(key).skip(1))
}

/// Whether rewriting the composite key by the path of its first part, again and again,
/// comes to an end within `n` steps: at a key of one part, or at one whose first part is
/// not declared.
pub open spec fn chain_ends(scopes: Seq<Seq<Declaration>>, key: Seq<char>, n: nat) -> bool
    decreases n,
{
    if parts_of(key).len() <= 1 {
        true
    } else {
        match found(scopes, parts_of(key)[0]) {
            None => true,
            Some(path) => n > 0 && chain_ends(scopes, rewritten(key, path.text), (n - 1) as nat),
        }
    }
}

/// Whether the rewriting of the composite key comes to an end at all.
pub open spec fn rewriting_ends(scopes: Seq<Seq<Declaration>>, key: Seq<char>) -> bool {
    exists|n: nat| chain_ends(scopes, key, n)
}

/// The place of a key is the first whose key does not come before it.
pub proof fn lemma_place_of(scope: Seq<Declaration>, key: Seq<char>, from: int)
    requires
        0 <= from <= scope.len(),
    ensures
        from <= place_of(scope, key, from) <= scope.len(),
        forall|i: int|
            from <= i < place_of(scope, key, from) ==> text_lt(
                (#[trigger] scope[i]).key.text,
                key,
            ),
        place_of(scope, key, from) < scope.len() ==> !text_lt(
            scope[place_of(scope, key, from)].key.text,
            key,
        ),
    decreases scope.len() - from,
{
    if from < scope.len() && text_lt(scope[from].key.text, key) {
        lemma_place_of(scope, key, from + 1);
    }
}

/// A place before which all keys come before `key`, and at which the key does not, is the
/// place of `key`.
pub proof fn lemma_place_is(scope: Seq<Declaration>, key: Seq<char>, p: int)
    requires
        0 <= p <= scope.len(),
        forall|i: int| 0 <= i < p ==> text_lt((#[trigger] scope[i]).key.text, key),
        p < scope.len() ==> !text_lt(scope[p].key.text, key),
    ensures
        place_of(scope, key, 0) == p,
{
    lemma_place_of(scope, key, 0);
    let q = place_of(scope, key, 0);
    if q < p {
        assert(text_lt(scope[q].key.text, key));
    }
    if p < q {
        assert(text_lt(scope[p].key.text, key));
    }
}

/// A scope with one more declaration is in order again, declares the new path for the
/// key, and declares for every other key what it declared before.
pub proof fn lemma_with_declaration(scope: Seq<Declaration>, key: Named, path: Named)
    requires
        sorted(scope),
    ensures
        sorted(with_declaration(scope, key, path)),
        declared(with_declaration(scope, key, path), key.text) == Some(path),
        forall|other: Seq<char>|
            other != key.text ==> #[trigger] declared(
                with_declaration(scope, key, path),
                other,
            ) == declared(scope, other),
{
    let p = place_of(scope, key.text, 0);
    let after = with_declaration(scope, key, path);
    lemma_place_of(scope, key.text, 0);
    if p < scope.len() && scope[p].key.text == key.text {
        assert forall|i: int, j: int| 0 <= i < j < after.len() implies text_lt(
            (#[trigger] after[i]).key.text,
            (#[trigger] after[j]).key.text,
        ) by {
            assert(after[i].key == scope[i].key);
            assert(after[j].key == scope[j].key);
        }
        assert forall|i: int| 0 <= i < p implies text_lt(
            (#[trigger] after[i]).key.text,
            key.text,
        ) by {
            assert(after[i].key == scope[i].key);
        }
        lemma_text_order_total(key.text, key.text);
        lemma_place_is(after, key.text, p);
        assert forall|other: Seq<char>| other != key.text implies #[trigger] declared(
            after,
            other,
        ) == declared(scope, other) by {
            let q = place_of(scope, other, 0);
            lemma_place_of(scope, other, 0);
            assert forall|i: int| 0 <= i < q implies text_lt(
                (#[trigger] after[i]).key.text,
                other,
            ) by {
                assert(after[i].key == scope[i].key);
            }
            if q < scope.len() {
                assert(after[q].key == scope[q].key);
            }
            lemma_place_is(after, other, q);
        }
    } else {
        let new = Declaration { key, path };
        assert(after == scope.insert(p, new));
        assert(after.len() == scope.len() + 1);
        assert forall|i: int| 0 <= i < after.len() implies #[trigger] after[i] == (if i < p {
            scope[i]
        } else if i == p {
            new
        } else {
            scope[i - 1]
        }) by {}
        if p < scope.len() {
            lemma_text_order_total(scope[p].key.text, key.text);
        }
        assert forall|i: int, j: int| 0 <= i < j < after.len() implies text_lt(
            (#[trigger] after[i]).key.text,
            (#[trigger] after[j]).key.text,
        ) by {
            if j < p {
                assert(text_lt(scope[i].key.text, scope[j].key.text));
            } else if j == p {
                assert(text_lt(scope[i].key.text, key.text));
            } else if i == p {
                if j - 1 > p {
                    assert(text_lt(scope[p].key.text, scope[j - 1].key.text));
                    lemma_text_order_transitive(
                        key.text,
                        scope[p].key.text,
                        scope[j - 1].key.text,
                    );
                }
            } else if i < p {
                assert(text_lt(scope[i].key.text, scope[j - 1].key.text));
            } else {
                assert(text_lt(scope[i - 1].key.text, scope[j - 1].key.text));
            }
        }
        assert forall|i: int| 0 <= i < p implies text_lt(
            (#[trigger] after[i]).key.text,
            key.text,
        ) by {
            assert(after[i] == scope[i]);
        }
        lemma_text_order_total(key.text, key.text);
        lemma_place_is(after, key.text, p);
        assert forall|other: Seq<char>| other != key.text implies #[trigger] declared(
            after,
            other,
        ) == declared(scope, other) by {
            let q = place_of(scope, other, 0);
            lemma_place_of(scope, other, 0);
            lemma_text_order_total(key.text, other);
            if text_lt(key.text, other) {
                // The new key comes before `other`: the place of `other` moves by one.
                if q < p {
                    assert(!text_lt(scope[q].key.text, other));
                    assert(text_lt(scope[q].key.text, key.text));
                    lemma_text_order_transitive(scope[q].key.text, key.text, other);
                }
                assert forall|i: int| 0 <= i < q + 1 implies text_lt(
                    (#[trigger] after[i]).key.text,
                    other,
                ) by {
                    if i < p {
                        assert(text_lt(scope[i].key.text, key.text));
                        lemma_text_order_transitive(scope[i].key.text, key.text, other);
                    } else if i > p {
                        assert(text_lt(scope[i - 1].key.text, other));
                    }
                }
                if q < scope.len() {
                    assert(after[q + 1] == scope[q]);
                }
                lemma_place_is(after, other, q + 1);
            } else {
                // `other` comes before the new key: its place is where it was.
                assert(text_lt(other, key.text));
                if q > p {
                    assert(text_lt(scope[p].key.text, other));
                    lemma_text_order_transitive(scope[p].key.text, other, key.text);
                }
                assert forall|i: int| 0 <= i < q implies text_lt(
                    (#[trigger] after[i]).key.text,
                    other,
                ) by {
                    assert(after[i] == scope[i]);
                }
                if q < p {
                    assert(after[q] == scope[q]);
                } else {
                    assert(q == p);
                    lemma_text_order_total(key.text, other);
                }
                lemma_place_is(after, other, q);
                if q == p && q < scope.len() {
                    if scope[q].key.text == other {
                        assert(!text_lt(scope[p].key.text, key.text));
                        lemma_text_order_total(other, key.text);
                    }
                }
            }
        }
    }
}

/// A copy of a string with its span.
pub fn copy_of(w: &WithSpan<String>) -> (copy: WithSpan<String>)
    ensures
        copy == *w,
{
    WithSpan { value: w.value.clone(), span: w.span }
}

/// Names with their paths, in nested scopes. The innermost scope is the last.
#[derive(Debug, PartialEq, Eq)]
pub struct HierarchicalName {
    scopes: Vec<Vec<(WithSpan<String>, WithSpan<String>)>>,
}

impl View for HierarchicalName {
    type V = Seq<Seq<Declaration>>;

    closed spec fn view(&self) -> Seq<Seq<Declaration>> {
        self.scopes@.map_values(
            |scope: Vec<(WithSpan<String>, WithSpan<String>)>| declarations(scope@),
        )
    }
}

/// Every scope is in the order of its keys.
pub open spec fn all_sorted(scopes: Seq<Seq<Declaration>>) -> bool {
    forall|i: int| 0 <= i < scopes.len() ==> sorted(#[trigger] scopes[i])
}

impl HierarchicalName {
    /// Every scope is in the order of its keys.
    pub open spec fn wf(&self) -> bool {
        all_sorted(self@)
    }

    /// One scope, without declarations.
    pub fn new() -> (names: Self)
        ensures
            names@ == seq![Seq::<Declaration>::empty()],
            names.wf(),
    {
        let mut scopes: Vec<Vec<(WithSpan<String>, WithSpan<String>)>> = Vec::new();
        scopes.push(Vec::new());
        let names = HierarchicalName { scopes };
        proof {
            assert(declarations(names.scopes@[0]@) == Seq::<Declaration>::empty());
            assert(names@ == seq![Seq::<Declaration>::empty()]);
        }
        names
    }

    /// Opens a scope inside the innermost.
    pub fn push_scope(&mut self)
        ensures
            final(self)@ == old(self)@.push(Seq::<Declaration>::empty()),
            old(self).wf() ==> final(self).wf(),
    {
        self.scopes.push(Vec::new());
        proof {
            let n = old(self).scopes@.len() as int;
            assert(declarations(self.scopes@[n]@) == Seq::<Declaration>::empty());
            assert(self@ == old(self)@.push(Seq::<Declaration>::empty()));
        }
    }

    /// Closes the innermost scope and forgets its declarations. Without a scope nothing
    /// happens.
    pub fn pop_scope(&mut self)
        ensures
            final(self)@ == (if old(self)@.len() > 0 {
                old(self)@.drop_last()
            } else {
                old(self)@
            }),
            old(self).wf() ==> final(self).wf(),
    {
        self.scopes.pop();
        proof {
            if old(self)@.len() > 0 {
                assert(self@ == old(self)@.drop_last());
            } else {
                assert(self@ == old(self)@);
            }
        }
    }

    /// Declares the key in the innermost scope. Where that scope knows the key's text
    /// already, the key stays as it was declared first and takes the new path. Without a
    /// scope nothing happens.
    pub fn add_path(&mut self, key: &WithSpan<String>, path: &WithSpan<String>)
        ensures
            final(self)@ == (if old(self)@.len() > 0 {
                old(self)@.update(
                    old(self)@.len() - 1,
                    with_declaration(old(self)@.last(), named(*key), named(*path)),
                )
            } else {
                old(self)@
            }),
            old(self).wf() ==> final(self).wf(),
    {
        match self.scopes.pop() {
            Some(mut scope) => {
                let ghost before = declarations(scope@);
                let mut i: usize = 0;
                let mut same = false;
                while i < scope.len()
                    invariant_except_break
                        !same,
                        place_of(before, key.value@, 0) == place_of(before, key.value@, i as int),
                    invariant
                        i <= scope.len(),
                        declarations(scope@) == before,
                    ensures
                        i <= scope.len(),
                        declarations(scope@) == before,
                        place_of(before, key.value@, 0) == i,
                        same == (i < scope.len() && before[i as int].key.text == key.value@),
                    decreases scope.len() - i,
                {
                    proof {
                        assert(before[i as int] == declaration(scope@[i as int]));
                        lemma_text_order_total(before[i as int].key.text, key.value@);
                    }
                    match compare_texts(scope[i].0.value.as_str(), key.value.as_str()) {
                        Order::Before => {
                            i += 1;
                        },
                        Order::Same => {
                            same = true;
                            break ;
                        },
                        Order::After => {
                            break ;
                        },
                    }
                }
                if same {
                    let (first_key, _) = scope.remove(i);
                    let ghost kept = first_key;
                    scope.insert(i, (first_key, copy_of(path)));
                    proof {
                        assert(named(kept) == before[i as int].key);
                        assert(declarations(scope@) == before.update(
                            i as int,
                            Declaration { key: before[i as int].key, path: named(*path) },
                        ));
                    }
                } else {
                    scope.insert(i, (copy_of(key), copy_of(path)));
                    proof {
                        assert(declarations(scope@) == before.insert(
                            i as int,
                            Declaration { key: named(*key), path: named(*path) },
                        ));
                    }
                }
                proof {
                    assert(declarations(scope@) == with_declaration(
                        before,
                        named(*key),
                        named(*path),
                    ));
                    assert(before == old(self)@.last());
                }
                self.scopes.push(scope);
                proof {
                    let n = old(self)@.len() - 1;
                    assert(self@ == old(self)@.update(
                        n,
                        with_declaration(old(self)@.last(), named(*key), named(*path)),
                    ));
                    if old(self).wf() {
                        assert(sorted(old(self)@[n]));
                        lemma_with_declaration(old(self)@.last(), named(*key), named(*path));
                        assert forall|k: int| 0 <= k < self@.len() implies sorted(
                            #[trigger] self@[k],
                        ) by {
                            if k < n {
                                assert(self@[k] == old(self)@[k]);
                            }
                        }
                    }
                }
            },
            None => {
                proof {
                    assert(self@ == old(self)@);
                }
            },
        }
    }

    /// The path of the text in the innermost scope that declares it.
    pub fn get_path_of(&self, key: &str) -> (path: Option<WithSpan<String>>)
        ensures
            path is Some == found(self@, key@) is Some,
            path is Some ==> named(path->0) == found(self@, key@)->0,
    {
        let mut n: usize = self.scopes.len();
        proof {
            assert(self@.take(n as int) == self@);
        }
        while n > 0
            invariant
                n <= self.scopes.len(),
                found(self@, key@) == found(self@.take(n as int), key@),
            decreases n,
        {
            proof {
                assert(self@.take(n as int).drop_last() == self@.take(n - 1));
                assert(self@.take(n as int).last() == self@[n - 1]);
            }
            let scope = &self.scopes[n - 1];
            let ghost view = declarations(scope@);
            let mut i: usize = 0;
            let mut same = false;
            while i < scope.len()
                invariant_except_break
                    !same,
                    place_of(view, key@, 0) == place_of(view, key@, i as int),
                invariant
                    i <= scope.len(),
                    view == declarations(scope@),
                ensures
                    i <= scope.len(),
                    place_of(view, key@, 0) == i,
                    same == (i < scope.len() && view[i as int].key.text == key@),
                decreases scope.len() - i,
            {
                proof {
                    assert(view[i as int] == declaration(scope@[i as int]));
                    lemma_text_order_total(view[i as int].key.text, key@);
                }
                match compare_texts(scope[i].0.value.as_str(), key) {
                    Order::Before => {
                        i += 1;
                    },
                    Order::Same => {
                        same = true;
                        break ;
                    },
                    Order::After => {
                        break ;
                    },
                }
            }
            if same {
                proof {
                    assert(view[i as int] == declaration(scope@[i as int]));
                }
                return Some(copy_of(&scope[i].1));
            }
            n -= 1;
        }
        None
    }

    /// The path of the key in the innermost scope that declares its text. The key's span
    /// plays no part.
    pub fn get_path(&self, key: &WithSpan<String>) -> (path: Option<WithSpan<String>>)
        ensures
            path is Some == found(self@, key.value@) is Some,
            path is Some ==> named(path->0) == found(self@, key.value@)->0,
    {
        self.get_path_of(key.value.as_str())
    }

    /// All declarations: scope by scope from the outermost, each scope in the order of its
    /// keys.
    pub fn entries(&self) -> (all: Vec<(WithSpan<String>, WithSpan<String>)>)
        ensures
            declarations(all@) == all_declarations(self@),
    {
        let mut all: Vec<(WithSpan<String>, WithSpan<String>)> = Vec::new();
        let mut n: usize = 0;
        proof {
            assert(self@.take(0) == Seq::<Seq<Declaration>>::empty());
            assert(declarations(all@) == Seq::<Declaration>::empty());
        }
        while n < self.scopes.len()
            invariant
                n <= self.scopes.len(),
                declarations(all@) == all_declarations(self@.take(n as int)),
            decreases self.scopes.len() - n,
        {
            let scope = &self.scopes[n];
            let ghost so_far = declarations(all@);
            let mut i: usize = 0;
            proof {
                assert(self@.take(n + 1).drop_last() == self@.take(n as int));
                assert(self@.take(n + 1).last() == declarations(scope@));
                assert(declarations(scope@).take(0) == Seq::<Declaration>::empty());
                assert(so_far + Seq::<Declaration>::empty() == so_far);
            }
            while i < scope.len()
                invariant
                    i <= scope.len(),
                    declarations(all@) == so_far + declarations(scope@).take(i as int),
                decreases scope.len() - i,
            {
                let ghost before = all@;
                all.push((copy_of(&scope[i].0), copy_of(&scope[i].1)));
                proof {
                    assert(declarations(all@) == declarations(before).push(
                        declaration(scope@[i as int]),
                    ));
                    assert(declarations(scope@).take(i + 1) == declarations(scope@).take(
                        i as int,
                    ).push(declaration(scope@[i as int])));
                    assert(declarations(all@) == so_far + declarations(scope@).take(i + 1));
                }
                i += 1;
            }
            proof {
                assert(declarations(scope@).take(scope@.len() as int) == declarations(scope@));
            }
            n += 1;
        }
        proof {
            assert(self@.take(self@.len() as int) == self@);
        }
        all
    }

    fn resolve_within(&self, key: &WithSpan<String>, Ghost(n): Ghost<nat>) -> (path: Option<
        WithSpan<String>,
    >)
        requires
            chain_ends(self@, key.value@, n),
        ensures
            path is None,
        decreases n,
    {
        let mut parts = split_path(key.value.as_str());
        if parts.len() > 1 {
            match self.get_path_of(parts[0].as_str()) {
                Some(value) => {
                    let ghost all = texts(parts@);
                    parts.remove(0);
                    proof {
                        assert(texts(parts@) == all.skip(1));
                        reveal_strlit("::");
                    }
                    let rest = join_path(&parts);
                    let mut next = String::from_str(value.value.as_str());
                    next.append("::");
                    next.append(rest.as_str());
                    let next_key = WithSpan::new(next, Span::union(key, &value));
                    proof {
                        assert(next_key.value@ == rewritten(key.value@, named(value).text));
                    }
                    self.resolve_within(&next_key, Ghost((n - 1) as nat))
                },
                None => None,
            }
        } else {
            None
        }
    }

    /// Rewrites a composite key by the path of its first part, as long as that part is
    /// declared and parts follow it. No key is a path in the end: the result is always
    /// `None`.
    pub fn resolve_composite_key(&self, key: &WithSpan<String>) -> (path: Option<
        WithSpan<String>,
    >)
        requires
            rewriting_ends(self@, key.value@),
        ensures
            path is None,
    {
        let ghost n = choose|n: nat| chain_ends(self@, key.value@, n);
        self.resolve_within(key, Ghost(n))
    }
}

} // verus!
