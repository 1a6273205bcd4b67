//! What holds of the components of every path.

use crate::path::{
    all_plain, classify, components, components_from, escapes, has_disallowed, is_dot,
    is_plain_name,
    joined_names, joined_paths, lemma_piece_end_bounds, lies_under, names_of, piece_end,
    without_root, Component,
};
use vstd::prelude::*;

verus! {

/// Every path lies under itself.
pub proof fn lemma_lies_under_itself(path: Seq<char>)
    ensures
        lies_under(path, path),
{
}

/// What lies under a path lies under every path that it lies under.
pub proof fn lemma_lies_under_transitive(path: Seq<char>, middle: Seq<char>, base: Seq<char>)
    requires
        lies_under(path, middle),
        lies_under(middle, base),
    ensures
        lies_under(path, base),
{
    let whole = components(path);
    let outer = components(base);
    assert forall|i: int| 0 <= i < outer.len() implies outer[i] == whole[i] by {}
}

/// A slash, or a slash and a dot.
pub open spec fn is_idle_tail(tail: Seq<char>) -> bool {
    tail == seq!['/'] || tail == seq!['/', '.']
}

/// A stretch without a slash that a slash or the end of the text follows is
/// one piece.
proof fn lemma_piece_runs_to_slash(text: Seq<char>, from: int, end: int)
    requires
        0 <= from <= end <= text.len(),
        forall|k: int| from <= k < end ==> text[k] != '/',
        end < text.len() ==> text[end] == '/',
    ensures
        piece_end(text, from) == end,
    decreases end - from,
{
    if from < end {
        lemma_piece_runs_to_slash(text, from + 1, end);
    }
}

/// A tail that begins with a slash leaves the pieces before it as they were.
proof fn lemma_piece_end_before_tail(text: Seq<char>, tail: Seq<char>, from: int)
    requires
        tail.len() > 0,
        tail[0] == '/',
        0 <= from <= text.len(),
    ensures
        piece_end(text + tail, from) == piece_end(text, from),
{
    let longer = text + tail;
    let end = piece_end(text, from);
    lemma_piece_end_bounds(text, from);
    assert forall|k: int| from <= k < end implies longer[k] != '/' by {}
    lemma_piece_runs_to_slash(longer, from, end);
}

/// An idle tail adds no component.
proof fn lemma_idle_tail_has_no_components(text: Seq<char>, tail: Seq<char>)
    requires
        is_idle_tail(tail),
    ensures
        components_from(text + tail, text.len() as int + 1, false) == Seq::<Component>::empty(),
{
    let longer = text + tail;
    let from: int = text.len() as int + 1;
    if tail.len() == 2 {
        lemma_piece_runs_to_slash(longer, from, from + 1);
        assert(components_from(longer, from + 2, false) == Seq::<Component>::empty());
    }
}

/// A slash and a plain name add the name as one component.
proof fn lemma_name_tail_has_one_component(text: Seq<char>, name: Seq<char>)
    requires
        is_plain_name(name),
    ensures
        components_from(text + (seq!['/'] + name), text.len() as int + 1, false) == seq![
            Component::Normal(name),
        ],
{
    let longer = text + (seq!['/'] + name);
    let from: int = text.len() as int + 1;
    let end: int = longer.len() as int;
    assert forall|k: int| from <= k < end implies longer[k] != '/' by {}
    lemma_piece_runs_to_slash(longer, from, end);
    assert(longer.subrange(from, end) == name);
    assert(components_from(longer, end + 1, false) == Seq::<Component>::empty());
}

/// What follows a text after a slash adds its components to those of the
/// text, from any piece of the text on.
proof fn lemma_components_before_tail(
    text: Seq<char>,
    tail: Seq<char>,
    extra: Seq<Component>,
    from: int,
    leading: bool,
)
    requires
        tail.len() > 0,
        tail[0] == '/',
        components_from(text + tail, text.len() as int + 1, false) == extra,
        0 <= from <= text.len(),
    ensures
        components_from(text + tail, from, leading) == components_from(text, from, leading)
            + extra,
    decreases text.len() - from,
{
    let longer = text + tail;
    lemma_piece_end_before_tail(text, tail, from);
    lemma_piece_end_bounds(text, from);
    let end = piece_end(text, from);
    if from < text.len() {
        assert(longer.subrange(from, end) == text.subrange(from, end));
        let rest = components_from(text, end + 1, false);
        if end < text.len() {
            lemma_components_before_tail(text, tail, extra, end + 1, false);
        }
        assert(components_from(longer, end + 1, false) == rest + extra);
        if let Some(component) = classify(text.subrange(from, end), leading) {
            assert(seq![component] + (rest + extra) == seq![component] + rest + extra);
        }
    }
}

/// What follows a path after a slash adds its components to those of the
/// path.
proof fn lemma_components_of_tail(text: Seq<char>, tail: Seq<char>, extra: Seq<Component>)
    requires
        text.len() > 0,
        tail.len() > 0,
        tail[0] == '/',
        components_from(text + tail, text.len() as int + 1, false) == extra,
    ensures
        components(text + tail) == components(text) + extra,
{
    if text[0] == '/' {
        lemma_components_before_tail(text, tail, extra, 1, false);
    } else {
        lemma_components_before_tail(text, tail, extra, 0, true);
    }
}

/// A slash at the end of a path, and a dot after it, change nothing: the
/// path has the components that it had.
pub proof fn lemma_idle_tail_names_the_same(text: Seq<char>, tail: Seq<char>)
    requires
        is_idle_tail(tail),
        text.len() > 0,
    ensures
        components(text + tail) == components(text),
{
    lemma_idle_tail_has_no_components(text, tail);
    lemma_components_of_tail(text, tail, Seq::empty());
}

/// Joined to a root that is not empty, the empty path and `.` both name the
/// root itself.
pub proof fn lemma_empty_and_dot_name_the_root(root: Seq<char>)
    requires
        root.len() > 0,
    ensures
        components(joined_paths(root, without_root(Seq::<char>::empty()))) == components(root),
        components(joined_paths(root, without_root(seq!['.']))) == components(root),
{
    let dot = seq!['.'];
    assert(without_root(dot) == dot);
    if root.last() == '/' {
        let stem = root.drop_last();
        assert(root == stem + seq!['/']);
        assert(root + dot == stem + seq!['/', '.']);
        if stem.len() > 0 {
            lemma_idle_tail_names_the_same(stem, seq!['/']);
            lemma_idle_tail_names_the_same(stem, seq!['/', '.']);
        } else {
            lemma_idle_tail_has_no_components(stem, seq!['/', '.']);
        }
    } else {
        assert(root + seq!['/'] + dot == root + seq!['/', '.']);
        lemma_idle_tail_names_the_same(root, seq!['/']);
        lemma_idle_tail_names_the_same(root, seq!['/', '.']);
    }
}

/// The names among the components from any piece on are plain names.
proof fn lemma_names_from_are_plain(text: Seq<char>, from: int, leading: bool)
    requires
        0 <= from,
    ensures
        all_plain(components_from(text, from, leading)),
    decreases text.len() + 1 - from,
{
    if from < text.len() {
        lemma_piece_end_bounds(text, from);
        let end = piece_end(text, from);
        let piece = text.subrange(from, end);
        lemma_names_from_are_plain(text, end + 1, false);
        assert forall|k: int| 0 <= k < piece.len() implies piece[k] != '/' by {}
    }
}

/// The names among the components of any text are plain names.
pub proof fn lemma_names_are_plain(text: Seq<char>)
    ensures
        all_plain(components(text)),
{
    if text.len() > 0 && text[0] == '/' {
        lemma_names_from_are_plain(text, 1, false);
    } else {
        lemma_names_from_are_plain(text, 0, true);
    }
}

/// A plain name is a path of one component.
proof fn lemma_components_of_name(name: Seq<char>)
    requires
        is_plain_name(name),
    ensures
        components(name) == seq![Component::Normal(name)],
{
    lemma_piece_runs_to_slash(name, 0, name.len() as int);
    assert(name.subrange(0, name.len() as int) == name);
    assert(components_from(name, name.len() as int + 1, false) == Seq::<Component>::empty());
}

/// The plain names of a list are names.
proof fn lemma_names_of_are_names(list: Seq<Component>)
    ensures
        forall|i: int| 0 <= i < names_of(list).len() ==> (#[trigger] names_of(list)[i]) is Normal,
    decreases list.len(),
{
    if list.len() > 0 {
        lemma_names_of_are_names(list.drop_last());
    }
}

/// Plain names joined with slashes are a path whose components are those
/// names: no root marker, no `.` and no `..` comes of joining them.
pub proof fn lemma_joined_names_are_the_components(list: Seq<Component>)
    requires
        all_plain(list),
        !has_disallowed(list),
    ensures
        components(joined_names(list)) == names_of(list),
    decreases list.len(),
{
    if list.len() > 0 {
        let before = list.drop_last();
        assert forall|i: int| 0 <= i < before.len() implies !escapes(#[trigger] before[i]) by {}
        assert(all_plain(before));
        lemma_joined_names_are_the_components(before);
        let text = joined_names(before);
        match list.last() {
            Component::Normal(name) => {
                if text.len() == 0 {
                    lemma_components_of_name(name);
                } else {
                    lemma_name_tail_has_one_component(text, name);
                    lemma_components_of_tail(
                        text,
                        seq!['/'] + name,
                        seq![Component::Normal(name)],
                    );
                    assert(text + seq!['/'] + name == text + (seq!['/'] + name));
                }
            },
            _ => {},
        }
    }
}

/// The path built from text that holds neither the root marker nor `..` is
/// made of the plain names of the text and of nothing else.
pub proof fn lemma_built_path_is_plain(text: Seq<char>)
    requires
        !has_disallowed(components(text)),
    ensures
        components(joined_names(components(text))) == names_of(components(text)),
        forall|i: int|
            0 <= i < names_of(components(text)).len() ==> (#[trigger] names_of(
                components(text),
            )[i]) is Normal,
{
    lemma_names_are_plain(text);
    lemma_joined_names_are_the_components(components(text));
    lemma_names_of_are_names(components(text));
}

/// The pieces of a text that follows `base` and a slash are the pieces of
/// the text.
proof fn lemma_piece_end_after_base(base: Seq<char>, text: Seq<char>, from: int)
    requires
        0 <= from <= text.len(),
    ensures
        piece_end(base + seq!['/'] + text, base.len() + 1 + from) == base.len() + 1 + piece_end(
            text,
            from,
        ),
{
    let whole = base + seq!['/'] + text;
    let shift = base.len() + 1;
    let end = piece_end(text, from);
    lemma_piece_end_bounds(text, from);
    assert forall|k: int| shift + from <= k < shift + end implies whole[k] != '/' by {
        assert(whole[k] == text[k - shift]);
    }
    if end < text.len() {
        assert(whole[shift + end] == text[end]);
    }
    lemma_piece_runs_to_slash(whole, shift + from, shift + end);
}

/// The components of a text that follows `base` and a slash are the
/// components of the text, from any piece on.
proof fn lemma_components_after_base(base: Seq<char>, text: Seq<char>, from: int)
    requires
        0 <= from <= text.len(),
    ensures
        components_from(base + seq!['/'] + text, base.len() + 1 + from, false) == components_from(
            text,
            from,
            false,
        ),
    decreases text.len() - from,
{
    let whole = base + seq!['/'] + text;
    let shift = base.len() + 1;
    if from < text.len() {
        lemma_piece_end_after_base(base, text, from);
        lemma_piece_end_bounds(text, from);
        let end = piece_end(text, from);
        assert(whole.subrange(shift + from, shift + end) == text.subrange(from, end));
        if end < text.len() {
            lemma_components_after_base(base, text, end + 1);
        } else {
            assert(components_from(whole, shift + end + 1, false) == Seq::<Component>::empty());
            assert(components_from(text, end + 1, false) == Seq::<Component>::empty());
        }
    }
}

/// A relative path that is joined to a root has the components of the root
/// and then its own.
pub proof fn lemma_joined_path_extends_root(root: Seq<char>, tail: Seq<char>)
    requires
        root.len() > 0,
        tail.len() > 0,
        tail[0] != '/',
    ensures
        components(joined_paths(root, tail)) == components(root) + components_from(
            tail,
            0,
            false,
        ),
{
    let extra = components_from(tail, 0, false);
    if root.last() == '/' {
        let stem = root.drop_last();
        assert(root == stem + seq!['/']);
        assert(root + tail == stem + seq!['/'] + tail);
        assert(stem + seq!['/'] + tail == stem + (seq!['/'] + tail));
        lemma_components_after_base(stem, tail, 0);
        if stem.len() > 0 {
            lemma_components_of_tail(stem, seq!['/'] + tail, extra);
            lemma_idle_tail_names_the_same(stem, seq!['/']);
        } else {
            assert(components_from(root, 1, false) == Seq::<Component>::empty());
            assert(seq![Component::RootDir] + Seq::<Component>::empty() + extra == seq![
                Component::RootDir,
            ] + extra);
        }
    } else {
        assert(root + seq!['/'] + tail == root + (seq!['/'] + tail));
        lemma_components_after_base(root, tail, 0);
        lemma_components_of_tail(root, seq!['/'] + tail, extra);
    }
}

/// A path of plain names that is joined to a root stays under the root: the
/// path built from text that holds neither the root marker nor `..`, joined
/// to a root that is not empty, has the components of the root and then the
/// plain names of the text, and no other component.
pub proof fn lemma_built_path_extends_root(root: Seq<char>, text: Seq<char>)
    requires
        root.len() > 0,
        !has_disallowed(components(text)),
    ensures
        components(joined_paths(root, without_root(joined_names(components(text)))))
            == components(root) + names_of(components(text)),
        lies_under(joined_paths(root, without_root(joined_names(components(text)))), root),
{
    let built = joined_names(components(text));
    let names = names_of(components(text));
    lemma_built_path_is_plain(text);
    if built.len() == 0 {
        lemma_empty_and_dot_name_the_root(root);
        assert(built == Seq::<char>::empty());
        assert(components(root) + names == components(root));
    } else {
        if built[0] == '/' {
            assert(names[0] is RootDir);
        }
        assert(without_root(built) == built);
        lemma_piece_end_bounds(built, 0);
        if is_dot(built.subrange(0, piece_end(built, 0))) {
            assert(names[0] is CurDir);
        }
        assert(components_from(built, 0, true) == components_from(built, 0, false));
        lemma_joined_path_extends_root(root, built);
    }
    let whole = components(root) + names;
    assert(whole.subrange(0, components(root).len() as int) == components(root));
}

} // verus!
