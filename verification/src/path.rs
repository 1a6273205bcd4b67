//! The syntax of slash-separated paths.
//!
//! A path is text. Its components are what stands between the slashes: a
//! leading slash is the root marker, empty pieces and `.` vanish (but a
//! leading `.` of a relative path stays), `..` names the parent directory and
//! every other piece is a plain name. Whether one path lies under another is
//! decided on components, never on characters, so `/srv/data2` is not under
//! `/srv/data`.

use vstd::prelude::*;

pub mod laws;

verus! {

/// One component of a path, as the contracts see it.
pub enum Component {
    /// The root marker: the path begins with a slash.
    RootDir,
    /// A `.` at the very start of a relative path.
    CurDir,
    /// A `..` piece.
    ParentDir,
    /// A plain name.
    Normal(Seq<char>),
}

/// Where the piece that begins at `from` ends: the index of the next slash,
/// or the length of the text.
pub open spec fn piece_end(text: Seq<char>, from: int) -> int
    recommends
        0 <= from,
    decreases text.len() - from,
{
    if from >= text.len() || text[from] == '/' {
        from
    } else {
        piece_end(text, from + 1)
    }
}

/// A piece ends at the next slash or at the end of the text, and holds no
/// slash.
pub proof fn lemma_piece_end_bounds(text: Seq<char>, from: int)
    requires
        0 <= from <= text.len(),
    ensures
        from <= piece_end(text, from) <= text.len(),
        piece_end(text, from) < text.len() ==> text[piece_end(text, from)] == '/',
        forall|k: int| from <= k < piece_end(text, from) ==> text[k] != '/',
    decreases text.len() - from,
{
    if from < text.len() && text[from] != '/' {
        lemma_piece_end_bounds(text, from + 1);
    }
}

/// The piece is `.`.
pub open spec fn is_dot(piece: Seq<char>) -> bool {
    piece.len() == 1 && piece[0] == '.'
}

/// The piece is `..`.
pub open spec fn is_dot_dot(piece: Seq<char>) -> bool {
    piece.len() == 2 && piece[0] == '.' && piece[1] == '.'
}

/// The component that one piece stands for, if any. `leading` says that the
/// piece opens a relative path.
pub open spec fn classify(piece: Seq<char>, leading: bool) -> Option<Component> {
    if piece.len() == 0 {
        None
    } else if is_dot(piece) {
        if leading {
            Some(Component::CurDir)
        } else {
            None
        }
    } else if is_dot_dot(piece) {
        Some(Component::ParentDir)
    } else {
        Some(Component::Normal(piece))
    }
}

/// The components of the pieces from index `from` on.
pub open spec fn components_from(text: Seq<char>, from: int, leading: bool) -> Seq<Component>
    recommends
        0 <= from,
    decreases text.len() + 1 - from,
{
    if from < 0 || from >= text.len() {
        Seq::empty()
    } else {
        proof {
            lemma_piece_end_bounds(text, from);
        }
        let end = piece_end(text, from);
        let rest = components_from(text, end + 1, false);
        match classify(text.subrange(from, end), leading) {
            Some(component) => seq![component] + rest,
            None => rest,
        }
    }
}

/// The components of a path, in order.
pub open spec fn components(text: Seq<char>) -> Seq<Component> {
    if text.len() > 0 && text[0] == '/' {
        seq![Component::RootDir] + components_from(text, 1, false)
    } else {
        components_from(text, 0, true)
    }
}

/// A component that no relative path of plain names has: the root marker or
/// a step to the parent directory.
pub open spec fn escapes(component: Component) -> bool {
    component is RootDir || component is ParentDir
}

/// Some component of the list is the root marker or a step to the parent
/// directory.
pub open spec fn has_disallowed(list: Seq<Component>) -> bool {
    exists|i: int| 0 <= i < list.len() && escapes(#[trigger] list[i])
}

/// A piece that stands for a plain name: it is not empty, holds no slash and
/// is neither `.` nor `..`.
pub open spec fn is_plain_name(name: Seq<char>) -> bool {
    &&& name.len() > 0
    &&& !is_dot(name)
    &&& !is_dot_dot(name)
    &&& forall|k: int| 0 <= k < name.len() ==> name[k] != '/'
}

/// Every name of the list is a plain name.
pub open spec fn all_plain(list: Seq<Component>) -> bool {
    forall|i: int|
        0 <= i < list.len() ==> ((#[trigger] list[i]) matches Component::Normal(name)
            ==> is_plain_name(name))
}

/// The plain names of the list, in order.
pub open spec fn names_of(list: Seq<Component>) -> Seq<Component>
    decreases list.len(),
{
    if list.len() == 0 {
        Seq::empty()
    } else if list.last() is Normal {
        names_of(list.drop_last()).push(list.last())
    } else {
        names_of(list.drop_last())
    }
}

/// The plain names of the list, in order, with one slash between each two.
pub open spec fn joined_names(list: Seq<Component>) -> Seq<char>
    decreases list.len(),
{
    if list.len() == 0 {
        Seq::empty()
    } else {
        let before = joined_names(list.drop_last());
        match list.last() {
            Component::Normal(name) => if before.len() == 0 {
                name
            } else {
                before + seq!['/'] + name
            },
            _ => before,
        }
    }
}

/// The path is in resolved form: its components are the root marker and
/// then plain names only. Such a path is absolute, and no `..` in it leads
/// back out of a directory that it has entered.
pub open spec fn is_resolved(path: Seq<char>) -> bool {
    &&& components(path).len() > 0
    &&& components(path)[0] is RootDir
    &&& forall|i: int|
        1 <= i < components(path).len() ==> (#[trigger] components(path)[i]) is Normal
}

/// `path` lies under `base`: the components of `base` open those of `path`.
pub open spec fn lies_under(path: Seq<char>, base: Seq<char>) -> bool {
    components(base).is_prefix_of(components(path))
}

/// The number of slashes that open the text.
pub open spec fn leading_slashes(text: Seq<char>) -> int
    decreases text.len(),
{
    if text.len() > 0 && text[0] == '/' {
        1 + leading_slashes(text.skip(1))
    } else {
        0
    }
}

/// The slashes that open a text are slashes, and what follows them is none.
pub proof fn lemma_leading_slashes_bounds(text: Seq<char>)
    ensures
        0 <= leading_slashes(text) <= text.len(),
        forall|k: int| 0 <= k < leading_slashes(text) ==> text[k] == '/',
        leading_slashes(text) < text.len() ==> text[leading_slashes(text)] != '/',
    decreases text.len(),
{
    if text.len() > 0 && text[0] == '/' {
        let rest = text.skip(1);
        lemma_leading_slashes_bounds(rest);
        assert forall|k: int| 0 <= k < leading_slashes(text) implies text[k] == '/' by {
            if k > 0 {
                assert(text[k] == rest[k - 1]);
            }
        }
        if leading_slashes(text) < text.len() {
        }
    }
}

/// The text without the slashes that open it.
pub open spec fn without_root(text: Seq<char>) -> Seq<char> {
    text.skip(leading_slashes(text))
}

/// `tail` appended to the directory `base`: a slash stands between them
/// unless `base` is empty or already ends with one.
pub open spec fn joined_paths(base: Seq<char>, tail: Seq<char>) -> Seq<char> {
    if base.len() == 0 || base.last() == '/' {
        base + tail
    } else {
        base + seq!['/'] + tail
    }
}

/// What kind of component a segment is.
#[derive(Debug, Clone, Copy, PartialEq, Eq, Structural)]
pub enum SegmentKind {
    RootDir,
    CurDir,
    ParentDir,
    Normal,
}

/// A component of a parsed path: its kind and the characters it covers.
#[derive(Debug, Clone, Copy)]
pub struct Segment {
    pub kind: SegmentKind,
    pub start: usize,
    pub end: usize,
}

impl Segment {
    /// The segment covers characters of `text`, and at least one of them
    /// where it is a plain name.
    pub open spec fn fits(self, text: Seq<char>) -> bool {
        &&& self.start <= self.end <= text.len()
        &&& self.kind == SegmentKind::Normal ==> self.start < self.end
    }

    /// The component that the segment stands for in `text`.
    pub open spec fn component(self, text: Seq<char>) -> Component {
        match self.kind {
            SegmentKind::RootDir => Component::RootDir,
            SegmentKind::CurDir => Component::CurDir,
            SegmentKind::ParentDir => Component::ParentDir,
            SegmentKind::Normal => Component::Normal(
                text.subrange(self.start as int, self.end as int),
            ),
        }
    }
}

/// The components that a list of segments stands for in `text`.
pub open spec fn segment_components(segments: Seq<Segment>, text: Seq<char>) -> Seq<Component> {
    Seq::new(segments.len(), |i: int| segments[i].component(text))
}

/// The characters of a string, one by one.
pub fn chars_of(text: &str) -> (chars: Vec<char>)
    ensures
        chars@ == text@,
{
    let mut chars: Vec<char> = Vec::new();
    let source = text.chars();
    for c in it: source
        invariant
            chars@ == it.seq().take(it.index()),
    {
        chars.push(c);
    }
    chars
}

/// Splits a path into its components.
pub fn parse(chars: &Vec<char>) -> (segments: Vec<Segment>)
    ensures
        segment_components(segments@, chars@) == components(chars@),
        forall|i: int| 0 <= i < segments.len() ==> (#[trigger] segments[i]).fits(chars@),
{
    let ghost text = chars@;
    let n = chars.len();
    let mut segments: Vec<Segment> = Vec::new();
    let mut pos: usize = 0;
    let mut leading = true;
    if n > 0 && chars[0] == '/' {
        segments.push(Segment { kind: SegmentKind::RootDir, start: 0, end: 1 });
        pos = 1;
        leading = false;
        assert(segment_components(segments@, text) == seq![Component::RootDir]);
    }
    while pos < n
        invariant
            text == chars@,
            n == text.len(),
            pos <= n,
            segment_components(segments@, text) + components_from(text, pos as int, leading)
                == components(text),
            forall|i: int| 0 <= i < segments.len() ==> (#[trigger] segments[i]).fits(text),
        decreases n - pos,
    {
        let mut end = pos;
        while end < n && chars[end] != '/'
            invariant
                text == chars@,
                n == text.len(),
                pos <= end <= n,
                piece_end(text, pos as int) == piece_end(text, end as int),
            decreases n - end,
        {
            end += 1;
        }
        let ghost before = segment_components(segments@, text);
        let ghost rest = components_from(text, end + 1, false);
        let ghost piece = text.subrange(pos as int, end as int);
        assert(piece_end(text, pos as int) == end);
        let len = end - pos;
        if len == 0 {
            assert(classify(piece, leading) is None);
        } else if len == 1 && chars[pos] == '.' {
            assert(is_dot(piece));
            if leading {
                segments.push(Segment { kind: SegmentKind::CurDir, start: pos, end });
                assert(segment_components(segments@, text) == before + seq![Component::CurDir]);
                assert(before + (seq![Component::CurDir] + rest) == before + seq![
                    Component::CurDir,
                ] + rest);
            }
        } else if len == 2 && chars[pos] == '.' && chars[pos + 1] == '.' {
            assert(is_dot_dot(piece));
            assert(!is_dot(piece));
            segments.push(Segment { kind: SegmentKind::ParentDir, start: pos, end });
            assert(segment_components(segments@, text) == before + seq![Component::ParentDir]);
            assert(before + (seq![Component::ParentDir] + rest) == before + seq![
                Component::ParentDir,
            ] + rest);
        } else {
            assert(!is_dot(piece)) by {
                if len == 1 {
                    assert(piece[0] == text[pos as int]);
                }
            }
            assert(!is_dot_dot(piece)) by {
                if len == 2 {
                    assert(piece[0] == text[pos as int]);
                    assert(piece[1] == text[pos + 1]);
                }
            }
            segments.push(Segment { kind: SegmentKind::Normal, start: pos, end });
            assert(segment_components(segments@, text) == before + seq![Component::Normal(piece)]);
            assert(before + (seq![Component::Normal(piece)] + rest) == before + seq![
                Component::Normal(piece),
            ] + rest);
        }
        leading = false;
        if end < n {
            pos = end + 1;
        } else {
            pos = n;
        }
    }
    assert(segment_components(segments@, text) + Seq::<Component>::empty()
        == segment_components(segments@, text));
    segments
}

/// Whether two stretches of characters hold the same text.
fn same_text(
    left: &Vec<char>,
    left_start: usize,
    left_end: usize,
    right: &Vec<char>,
    right_start: usize,
    right_end: usize,
) -> (same: bool)
    requires
        left_start <= left_end <= left.len(),
        right_start <= right_end <= right.len(),
    ensures
        same == (left@.subrange(left_start as int, left_end as int) == right@.subrange(
            right_start as int,
            right_end as int,
        )),
{
    let ghost a = left@.subrange(left_start as int, left_end as int);
    let ghost b = right@.subrange(right_start as int, right_end as int);
    let len = left_end - left_start;
    if right_end - right_start != len {
        assert(a.len() != b.len());
        return false;
    }
    let mut i: usize = 0;
    while i < len
        invariant
            left_start <= left_end <= left.len(),
            right_start <= right_end <= right.len(),
            len == left_end - left_start,
            len == right_end - right_start,
            a == left@.subrange(left_start as int, left_end as int),
            b == right@.subrange(right_start as int, right_end as int),
            i <= len,
            forall|k: int| 0 <= k < i ==> a[k] == b[k],
        decreases len - i,
    {
        if left[left_start + i] != right[right_start + i] {
            assert(a[i as int] != b[i as int]);
            return false;
        }
        i += 1;
    }
    assert(a =~= b);
    true
}

/// Whether two segments stand for the same component, each in its own text.
fn same_component(left: &Vec<char>, a: Segment, right: &Vec<char>, b: Segment) -> (same: bool)
    requires
        a.fits(left@),
        b.fits(right@),
    ensures
        same == (a.component(left@) == b.component(right@)),
{
    match (a.kind, b.kind) {
        (SegmentKind::RootDir, SegmentKind::RootDir) => true,
        (SegmentKind::CurDir, SegmentKind::CurDir) => true,
        (SegmentKind::ParentDir, SegmentKind::ParentDir) => true,
        (SegmentKind::Normal, SegmentKind::Normal) => same_text(
            left,
            a.start,
            a.end,
            right,
            b.start,
            b.end,
        ),
        _ => false,
    }
}

/// Whether `path` lies under `base`, component by component.
pub fn starts_with(path: &str, base: &str) -> (under: bool)
    ensures
        under == lies_under(path@, base@),
{
    let path_chars = chars_of(path);
    let base_chars = chars_of(base);
    let path_segments = parse(&path_chars);
    let base_segments = parse(&base_chars);
    let ghost whole = components(path@);
    let ghost prefix = components(base@);
    if base_segments.len() > path_segments.len() {
        return false;
    }
    let mut i: usize = 0;
    while i < base_segments.len()
        invariant
            path_chars@ == path@,
            base_chars@ == base@,
            whole == components(path@),
            prefix == components(base@),
            whole == segment_components(path_segments@, path@),
            prefix == segment_components(base_segments@, base@),
            base_segments.len() <= path_segments.len(),
            forall|k: int|
                0 <= k < path_segments.len() ==> (#[trigger] path_segments[k]).fits(path@),
            forall|k: int|
                0 <= k < base_segments.len() ==> (#[trigger] base_segments[k]).fits(base@),
            i <= base_segments.len(),
            forall|k: int| 0 <= k < i ==> prefix[k] == whole[k],
        decreases base_segments.len() - i,
    {
        if !same_component(&base_chars, base_segments[i], &path_chars, path_segments[i]) {
            assert(prefix[i as int] == base_segments[i as int].component(base@));
            assert(whole[i as int] == path_segments[i as int].component(path@));
            assert(whole.subrange(0, prefix.len() as int)[i as int] == whole[i as int]);
            return false;
        }
        i += 1;
    }
    assert(prefix =~= whole.subrange(0, prefix.len() as int));
    true
}

/// Whether `path` is in resolved form: absolute, and without a `..`.
pub fn in_resolved_form(path: &str) -> (resolved: bool)
    ensures
        resolved == is_resolved(path@),
{
    let chars = chars_of(path);
    let segments = parse(&chars);
    let ghost list = components(path@);
    if segments.len() == 0 {
        return false;
    }
    assert(list[0] == segments[0].component(path@));
    match segments[0].kind {
        SegmentKind::RootDir => {},
        _ => {
            return false;
        },
    }
    let mut i: usize = 1;
    while i < segments.len()
        invariant
            chars@ == path@,
            list == components(path@),
            list == segment_components(segments@, path@),
            1 <= i <= segments.len(),
            list[0] is RootDir,
            forall|k: int| 1 <= k < i ==> (#[trigger] list[k]) is Normal,
        decreases segments.len() - i,
    {
        assert(list[i as int] == segments[i as int].component(path@));
        match segments[i].kind {
            SegmentKind::Normal => {},
            _ => {
                return false;
            },
        }
        i += 1;
    }
    true
}

/// The number of slashes that open the text.
pub fn count_leading_slashes(chars: &Vec<char>) -> (count: usize)
    ensures
        count == leading_slashes(chars@),
{
    let ghost text = chars@;
    let mut count: usize = 0;
    assert(text.skip(0) == text);
    while count < chars.len() && chars[count] == '/'
        invariant
            text == chars@,
            count <= chars.len(),
            leading_slashes(text) == count + leading_slashes(text.skip(count as int)),
        decreases chars.len() - count,
    {
        assert(text.skip(count as int).skip(1) == text.skip(count + 1));
        count += 1;
    }
    count
}

/// Appends `tail`, made relative, to the directory `base`.
pub fn join(base: &str, tail: &str) -> (joined: String)
    ensures
        joined@ == joined_paths(base@, without_root(tail@)),
{
    let base_chars = chars_of(base);
    let tail_chars = chars_of(tail);
    let skipped = count_leading_slashes(&tail_chars);
    proof {
        lemma_leading_slashes_bounds(tail@);
    }
    let relative = tail.substring_char(skipped, tail_chars.len());
    assert(relative@ == without_root(tail@));
    let mut joined = String::from_str(base);
    if base_chars.len() > 0 && base_chars[base_chars.len() - 1] != '/' {
        proof {
            reveal_strlit("/");
        }
        joined.append("/");
        assert(joined@ == base@ + seq!['/']);
    }
    joined.append(relative);
    joined
}

} // verus!
