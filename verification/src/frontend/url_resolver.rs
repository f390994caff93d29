//! The url declarations of a program, with the spans that they were read from.

use vstd::prelude::*;
use vstd::string::StringExecFns;
use crate::frontend::hierarchical_name::{
    all_declarations, copy_of, declaration, declarations, named, rewriting_ends,
    with_declaration, Declaration, HierarchicalName, Named,
};
use crate::frontend::position::WithSpan;
use crate::frontend::text::separator;

verus! {

/// The text with every occurrence of `from` replaced by `to`, as `str::replace` finds them.
pub uninterp spec fn replaced(text: Seq<char>, from: Seq<char>, to: Seq<char>) -> Seq<char>;

/// `str::replace`: a new string, the text with every match of `from` replaced by `to`.
#[verifier::external_body]
pub(crate) fn replace_all(text: &str, from: &str, to: &str) -> (result: String)
    ensures
        result@ == replaced(text@, from@, to@),
{
    text.replace(from, to)
}

/// The path of the last declaration whose key is this key, text and span.
pub open spec fn last_declared(all: Seq<Declaration>, key: Named) -> Option<Named>
    decreases all.len(),
{
    if all.len() == 0 {
        None
    } else if all.last().key == key {
        Some(all.last().path)
    } else {
        last_declared(all.drop_last(), key)
    }
}

/// The source with each declared key that stands before `::` replaced by its path, one
/// declaration after the other in their order.
pub open spec fn flattened(all: Seq<Declaration>, source: Seq<char>) -> Seq<char>
    decreases all.len(),
{
    if all.len() == 0 {
        source
    } else {
        replaced(
            flattened(all.drop_last(), source),
            all.last().key.text + separator(),
            all.last().path.text + separator(),
        )
    }
}

/// The url declarations of a program, scope by scope.
#[derive(Debug)]
pub struct UrlResolver {
    hierarchical_name: HierarchicalName,
}

impl View for UrlResolver {
    type V = Seq<Seq<Declaration>>;

    closed spec fn view(&self) -> Seq<Seq<Declaration>> {
        self.hierarchical_name@
    }
}

impl UrlResolver {
    /// One scope, without declarations.
    pub fn new() -> (resolver: Self)
        ensures
            resolver@ == seq![Seq::<Declaration>::empty()],
    {
        UrlResolver { hierarchical_name: HierarchicalName::new() }
    }

    /// Opens a scope inside the innermost.
    pub fn push_scope(&mut self)
        ensures
            final(self)@ == old(self)@.push(Seq::<Declaration>::empty()),
    {
        self.hierarchical_name.push_scope();
    }

    /// Closes the innermost scope and forgets its declarations.
    pub fn pop_scope(&mut self)
        ensures
            final(self)@ == (if old(self)@.len() > 0 {
                old(self)@.drop_last()
            } else {
                old(self)@
            }),
    {
        self.hierarchical_name.pop_scope();
    }

    /// Declares that the key stands for the url, in the innermost scope.
    pub fn resolve_url(&mut self, key: &WithSpan<String>, url: &WithSpan<String>)
        ensures
            final(self)@ == (if old(self)@.len() > 0 {
                old(self)@.update(
                    old(self)@.len() - 1,
                    with_declaration(old(self)@.last(), named(*key), named(*url)),
                )
            } else {
                old(self)@
            }),
    {
        let path = WithSpan::new(url.value.clone(), url.span);
        self.hierarchical_name.add_path(key, &path);
    }

    /// The path that a url stands for: the url itself.
    pub fn extract_path_from_url(&self, url: &str) -> (path: String)
        ensures
            path@ == url@,
    {
        String::from_str(url)
    }

    /// The path of the last declaration, innermost scope first, whose key has this text
    /// and this span.
    pub fn get_path_for_key(&self, key: &WithSpan<String>) -> (path: Option<WithSpan<String>>)
        ensures
            path is Some == last_declared(all_declarations(self@), named(*key)) is Some,
            path is Some ==> named(path->0) == last_declared(
                all_declarations(self@),
                named(*key),
            )->0,
    {
        let all = self.hierarchical_name.entries();
        let ghost view = declarations(all@);
        let mut n: usize = all.len();
        proof {
            assert(view.take(n as int) == view);
        }
        while n > 0
            invariant
                n <= all.len(),
                view == declarations(all@),
                view == all_declarations(self@),
                last_declared(view, named(*key)) == last_declared(
                    view.take(n as int),
                    named(*key),
                ),
            decreases n,
        {
            proof {
                assert(view.take(n as int).drop_last() == view.take(n - 1));
                assert(view.take(n as int).last() == declaration(all@[n - 1]));
            }
            let entry = &all[n - 1];
            if entry.0.value == key.value && entry.0.span == key.span {
                proof {
                    assert(named(entry.0) == named(*key));
                }
                return Some(copy_of(&entry.1));
            }
            proof {
                assert(named(entry.0) != named(*key));
            }
            n -= 1;
        }
        None
    }

    /// The source with each declared key that stands before `::` replaced by its path,
    /// one declaration after the other: scope by scope from the outermost, each scope in
    /// the order of its keys.
    pub fn flatten_source(&self, source_code: &str) -> (result: String)
        requires
            forall|i: int|
                0 <= i < all_declarations(self@).len() ==> rewriting_ends(
                    self@,
                    (#[trigger] all_declarations(self@)[i]).path.text,
                ),
        ensures
            result@ == flattened(all_declarations(self@), source_code@),
    {
        let mut result = String::from_str(source_code);
        let all = self.hierarchical_name.entries();
        let ghost view = declarations(all@);
        let mut i: usize = 0;
        proof {
            reveal_strlit("::");
            assert(view.take(0) == Seq::<Declaration>::empty());
        }
        while i < all.len()
            invariant
                i <= all.len(),
                "::"@ == separator(),
                view == declarations(all@),
                view == all_declarations(self@),
                forall|k: int|
                    0 <= k < view.len() ==> rewriting_ends(
                        self@,
                        (#[trigger] view[k]).path.text,
                    ),
                result@ == flattened(view.take(i as int), source_code@),
            decreases all.len() - i,
        {
            proof {
                assert(view.take(i + 1).drop_last() == view.take(i as int));
                assert(view.take(i + 1).last() == declaration(all@[i as int]));
                assert(view[i as int] == declaration(all@[i as int]));
            }
            let key = &all[i].0;
            let value = &all[i].1;
            let mut from = String::from_str(key.value.as_str());
            from.append("::");
            let to = match self.hierarchical_name.resolve_composite_key(value) {
                Some(composite_value) => {
                    let mut to = String::from_str(composite_value.value.as_str());
                    to.append("::");
                    to
                },
                None => {
                    let mut to = String::from_str(value.value.as_str());
                    to.append("::");
                    to
                },
            };
            result = replace_all(result.as_str(), from.as_str(), to.as_str());
            i += 1;
        }
        proof {
            assert(view.take(view.len() as int) == view);
        }
        result
    }
}

} // verus!
