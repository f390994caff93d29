use sio::frontend::ast::{
    BinaryOperator, HierarchicalName as PathName, LogicalOperator, Param, UnaryOperator,
    UrlComponent, UseItem, Visibility,
};
use sio::frontend::hierarchical_name::{copy_of, HierarchicalName};
use sio::frontend::position::{Span, WithSpan};
use sio::frontend::text::{
    chars_of, compare_texts, contains_separator, join_path, split_path, Order,
};
use sio::frontend::url_resolver::UrlResolver;

fn ws(text: &str, start: u32, end: u32) -> WithSpan<String> {
    WithSpan::new_unchecked(text.to_string(), start, end)
}

#[test]
fn operators_are_written_as_in_the_source() {
    assert_eq!(UnaryOperator::Bang.to_string(), "!");
    assert_eq!(UnaryOperator::Minus.to_string(), "-");
    assert_eq!(BinaryOperator::Slash.to_string(), "/");
    assert_eq!(BinaryOperator::Star.to_string(), "*");
    assert_eq!(BinaryOperator::Plus.to_string(), "+");
    assert_eq!(BinaryOperator::Minus.to_string(), "-");
    assert_eq!(BinaryOperator::Greater.to_string(), ">");
    assert_eq!(BinaryOperator::GreaterEqual.to_string(), ">=");
    assert_eq!(BinaryOperator::Less.to_string(), "<");
    assert_eq!(BinaryOperator::LessEqual.to_string(), "<=");
    assert_eq!(BinaryOperator::BangEqual.to_string(), "!=");
    assert_eq!(BinaryOperator::EqualEqual.to_string(), "==");
    assert_eq!(LogicalOperator::And.to_string(), "&&");
    assert_eq!(LogicalOperator::Or.to_string(), "||");
}

#[test]
fn syntax_parts_compare_by_their_fields() {
    assert_eq!(
        UrlComponent::Identifier(ws("that", 4, 8)),
        UrlComponent::Identifier(ws("that", 4, 8))
    );
    assert_ne!(UrlComponent::Identifier(ws("that", 4, 8)), UrlComponent::String(ws("that", 4, 8)));
    assert_ne!(Visibility::Public, Visibility::Private);
    assert_eq!(Param { name: ws("a", 9, 10) }, Param { name: ws("a", 9, 10) });
    assert_eq!(
        UseItem::Nested { path: vec![ws("a", 0, 1)], items: vec![UseItem::Simple { path: vec![] }] },
        UseItem::Nested { path: vec![ws("a", 0, 1)], items: vec![UseItem::Simple { path: vec![] }] }
    );
}

#[test]
fn path_name_is_written_with_separators() {
    assert_eq!(PathName::new(vec![]).to_string(), "");
    assert_eq!(PathName::new(vec![ws("that", 4, 8)]).to_string(), "that");
    assert_eq!(PathName::new(vec![ws("that", 4, 8), ws("that2", 8, 12)]).to_string(), "that::that2");
    assert_eq!(
        PathName::new(vec![ws("a", 0, 1), ws("", 1, 1), ws("c", 1, 2)]).to_string(),
        "a::::c"
    );
    assert_eq!(PathName::new(vec![ws("a", 0, 1)]).parts, vec![ws("a", 0, 1)]);
}

#[test]
fn texts_split_at_separators_from_the_left() {
    assert_eq!(split_path("a::b"), vec!["a", "b"]);
    assert_eq!(split_path("public_key::type::name"), vec!["public_key", "type", "name"]);
    assert_eq!(split_path("abc"), vec!["abc"]);
    assert_eq!(split_path(""), vec![""]);
    assert_eq!(split_path("::"), vec!["", ""]);
    assert_eq!(split_path("a:::b"), vec!["a", ":b"]);
    assert_eq!(split_path("a::::b"), vec!["a", "", "b"]);
    assert_eq!(split_path("::a"), vec!["", "a"]);
    assert_eq!(split_path("a::"), vec!["a", ""]);
    assert_eq!(split_path("a:b"), vec!["a:b"]);
    assert_eq!(split_path("é::€"), vec!["é", "€"]);
}

#[test]
fn split_agrees_with_the_standard_library() {
    for text in ["", ":", "::", ":::", "::::", "a::b::c", "x:::", ":::x", "é::::😀::"] {
        let expected: Vec<String> = text.split("::").map(|p| p.to_string()).collect();
        assert_eq!(split_path(text), expected);
        assert_eq!(contains_separator(text), text.contains("::"));
        assert_eq!(chars_of(text), text.chars().collect::<Vec<char>>());
    }
}

#[test]
fn join_is_the_inverse_of_split() {
    for text in ["", "::", "a::b::c", "a:::b", "x"] {
        assert_eq!(join_path(&split_path(text)), text);
    }
    assert_eq!(join_path(&vec![]), "");
    assert_eq!(join_path(&vec!["a".to_string(), "b".to_string()]), "a::b");
}

#[test]
fn texts_are_ordered_like_strings() {
    assert_eq!(compare_texts("a", "b"), Order::Before);
    assert_eq!(compare_texts("b", "a"), Order::After);
    assert_eq!(compare_texts("a", "a"), Order::Same);
    assert_eq!(compare_texts("", ""), Order::Same);
    assert_eq!(compare_texts("", "a"), Order::Before);
    assert_eq!(compare_texts("a", ""), Order::After);
    assert_eq!(compare_texts("ab", "abc"), Order::Before);
    assert_eq!(compare_texts("abd", "abc"), Order::After);
    let samples = ["", "a", "ab", "b", "Z", "é", "€", "😀", "a😀", "aé"];
    for x in samples {
        for y in samples {
            let expected = if x < y {
                Order::Before
            } else if x == y {
                Order::Same
            } else {
                Order::After
            };
            assert_eq!(compare_texts(x, y), expected);
        }
    }
}

#[test]
fn declarations_are_kept_in_the_order_of_their_keys() {
    let mut names = HierarchicalName::new();
    names.add_path(&ws("type", 0, 4), &ws("src", 5, 8));
    names.add_path(&ws("app", 10, 13), &ws("a::b", 14, 18));
    names.add_path(&ws("name", 20, 24), &ws("app_name", 25, 33));
    names.push_scope();
    names.add_path(&ws("b", 40, 41), &ws("inner", 42, 47));
    names.add_path(&ws("a", 50, 51), &ws("first", 52, 57));
    assert_eq!(
        names.entries(),
        vec![
            (ws("app", 10, 13), ws("a::b", 14, 18)),
            (ws("name", 20, 24), ws("app_name", 25, 33)),
            (ws("type", 0, 4), ws("src", 5, 8)),
            (ws("a", 50, 51), ws("first", 52, 57)),
            (ws("b", 40, 41), ws("inner", 42, 47)),
        ]
    );
}

#[test]
fn a_known_key_keeps_its_span_and_takes_the_new_path() {
    let mut names = HierarchicalName::new();
    names.add_path(&ws("k", 0, 1), &ws("one", 2, 5));
    names.add_path(&ws("k", 10, 11), &ws("two", 12, 15));
    assert_eq!(names.entries(), vec![(ws("k", 0, 1), ws("two", 12, 15))]);
    assert_eq!(names.get_path(&ws("k", 99, 100)), Some(ws("two", 12, 15)));
}

#[test]
fn spanned_lookup_goes_from_the_innermost_scope_outwards() {
    let mut names = HierarchicalName::new();
    names.add_path(&ws("k", 0, 1), &ws("outer", 2, 7));
    names.add_path(&ws("o", 0, 1), &ws("only", 2, 6));
    names.push_scope();
    names.add_path(&ws("k", 10, 11), &ws("inner", 12, 17));
    assert_eq!(names.get_path(&ws("k", 0, 0)), Some(ws("inner", 12, 17)));
    assert_eq!(names.get_path(&ws("o", 0, 0)), Some(ws("only", 2, 6)));
    assert_eq!(names.get_path_of("missing"), None);
    names.pop_scope();
    assert_eq!(names.get_path_of("k"), Some(ws("outer", 2, 7)));
    names.pop_scope();
    assert_eq!(names.get_path_of("k"), None);
    names.pop_scope();
    names.add_path(&ws("k", 0, 1), &ws("lost", 2, 6));
    assert_eq!(names.entries(), vec![]);
}

#[test]
fn rewriting_a_composite_key_never_yields_a_path() {
    let mut names = HierarchicalName::new();
    names.add_path(&ws("public_key", 0, 10), &ws("sio79", 11, 16));
    names.add_path(&ws("type", 20, 24), &ws("src", 25, 28));
    assert_eq!(names.resolve_composite_key(&ws("public_key::type", 0, 16)), None);
    assert_eq!(names.resolve_composite_key(&ws("public_key", 0, 10)), None);
    assert_eq!(names.resolve_composite_key(&ws("unknown::type", 0, 13)), None);
    assert_eq!(names.resolve_composite_key(&ws("", 0, 0)), None);
}

#[test]
fn a_copy_is_equal_to_what_it_copies() {
    let w = ws("text", 3, 7);
    assert_eq!(copy_of(&w), w);
}

#[test]
fn resolver_finds_keys_by_text_and_span() {
    let mut resolver = UrlResolver::new();
    resolver.resolve_url(&ws("type", 4, 8), &ws("src", 11, 14));
    resolver.push_scope();
    resolver.resolve_url(&ws("type", 20, 24), &ws("bin", 27, 30));
    assert_eq!(resolver.get_path_for_key(&ws("type", 20, 24)), Some(ws("bin", 27, 30)));
    assert_eq!(resolver.get_path_for_key(&ws("type", 4, 8)), Some(ws("src", 11, 14)));
    assert_eq!(resolver.get_path_for_key(&ws("type", 0, 0)), None);
    assert_eq!(resolver.get_path_for_key(&ws("name", 4, 8)), None);
    resolver.pop_scope();
    assert_eq!(resolver.get_path_for_key(&ws("type", 20, 24)), None);
    assert_eq!(resolver.extract_path_from_url("a::b"), "a::b");
}

#[test]
fn flatten_replaces_keys_before_separators() {
    let mut resolver = UrlResolver::new();
    resolver.resolve_url(&ws("public_key", 0, 0), &ws("sio79", 0, 0));
    resolver.resolve_url(&ws("type", 0, 0), &ws("src", 0, 0));
    assert_eq!(
        resolver.flatten_source("corporal public_key::type::Corporal { type }"),
        "corporal sio79::src::Corporal { type }"
    );
    assert_eq!(resolver.flatten_source(""), "");
    assert_eq!(resolver.flatten_source("type:: type::"), "src:: src::");
}

#[test]
fn flatten_replaces_in_the_order_of_the_declarations() {
    // "a" comes first in its scope: its path is rewritten by the declaration of "b".
    let mut resolver = UrlResolver::new();
    resolver.resolve_url(&ws("b", 0, 0), &ws("c", 0, 0));
    resolver.resolve_url(&ws("a", 0, 0), &ws("b", 0, 0));
    assert_eq!(resolver.flatten_source("a::x"), "c::x");

    // "b" comes first: what "c" then brings in is not rewritten again.
    let mut resolver = UrlResolver::new();
    resolver.resolve_url(&ws("c", 0, 0), &ws("b", 0, 0));
    resolver.resolve_url(&ws("b", 0, 0), &ws("z", 0, 0));
    assert_eq!(resolver.flatten_source("c::x b::y"), "b::x z::y");

    // An outer scope comes before an inner one, whatever the keys.
    let mut resolver = UrlResolver::new();
    resolver.resolve_url(&ws("z", 0, 0), &ws("a", 0, 0));
    resolver.push_scope();
    resolver.resolve_url(&ws("a", 0, 0), &ws("q", 0, 0));
    assert_eq!(resolver.flatten_source("z::x"), "q::x");
}

#[test]
fn spans_join_in_a_union() {
    assert_eq!(Span::union(&ws("a", 3, 4), &ws("b", 1, 2)), Span::new_unchecked(1, 4));
}
