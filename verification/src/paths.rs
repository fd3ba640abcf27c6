//! Unix paths as texts.
use crate::text::{
    cat2, cat3, from_chars, join, lemma_first_index, lemma_split_append, lemma_split_join,
    lemma_split_pieces, opt_view, same, split, split_on, to_chars, views,
};
use vstd::prelude::*;

verus! {

/// One part of a path.
#[derive(Debug)]
pub enum Component {
    /// The root at the start of an absolute path.
    Root,
    /// A `.` at the start of a path.
    CurDir,
    /// A `..`.
    ParentDir,
    /// A name.
    Normal(String),
}

/// What a part of a path stands for.
pub enum ComponentView {
    Root,
    CurDir,
    ParentDir,
    Normal(Seq<char>),
}

impl View for Component {
    type V = ComponentView;

    open spec fn view(&self) -> ComponentView {
        match *self {
            Component::Root => ComponentView::Root,
            Component::CurDir => ComponentView::CurDir,
            Component::ParentDir => ComponentView::ParentDir,
            Component::Normal(name) => ComponentView::Normal(name@),
        }
    }
}

/// What the parts of a path stand for.
pub open spec fn component_views(parts: Seq<Component>) -> Seq<ComponentView> {
    parts.map_values(|c: Component| c@)
}

/// Whether a path is absolute.
pub open spec fn is_absolute(path: Seq<char>) -> bool {
    path.len() > 0 && path[0] == '/'
}

/// The part of a path that a segment between slashes stands for: none for an
/// empty segment and for a dot.
pub open spec fn segment_component(segment: Seq<char>) -> Option<ComponentView> {
    if segment.len() == 0 || segment == "."@ {
        None
    } else if segment == ".."@ {
        Some(ComponentView::ParentDir)
    } else {
        Some(ComponentView::Normal(segment))
    }
}

/// The part that the start of a path stands for, before its segments.
pub open spec fn head_components(path: Seq<char>) -> Seq<ComponentView> {
    if is_absolute(path) {
        seq![ComponentView::Root]
    } else if split(path, '/')[0] == "."@ {
        seq![ComponentView::CurDir]
    } else {
        Seq::empty()
    }
}

/// The parts that segments between slashes stand for.
pub open spec fn body_components(segments: Seq<Seq<char>>) -> Seq<ComponentView> {
    segments.filter_map(|segment: Seq<char>| segment_component(segment))
}

/// The parts of a path: repeated slashes, a slash at the end and dots behind
/// the start do not count.
pub open spec fn components(path: Seq<char>) -> Seq<ComponentView> {
    head_components(path) + body_components(split(path, '/'))
}

/// The part of a path that a segment between slashes stands for.
fn component_of_segment(segment: &String) -> (out: Option<Component>)
    ensures
        match out {
            Some(c) => segment_component(segment@) == Some(c@),
            None => segment_component(segment@) is None,
        },
{
    if segment.as_str().is_empty() || same(segment.as_str(), ".") {
        None
    } else if same(segment.as_str(), "..") {
        Some(Component::ParentDir)
    } else {
        Some(Component::Normal(segment.clone()))
    }
}

pub proof fn lemma_split_not_empty(s: Seq<char>, c: char)
    ensures
        split(s, c).len() > 0,
{
}

/// The parts of a path.
pub fn path_components(path: &str) -> (out: Vec<Component>)
    ensures
        component_views(out@) == components(path@),
{
    let segments = split_on(path, '/');
    let mut out: Vec<Component> = Vec::new();
    proof {
        lemma_split_not_empty(path@, '/');
        assert(views(segments@)[0] == segments@[0]@);
    }
    if starts_with_slash(path) {
        out.push(Component::Root);
    } else if same(segments[0].as_str(), ".") {
        out.push(Component::CurDir);
    }
    let ghost head = head_components(path@);
    proof {
        assert(component_views(out@) =~= head);
        assert(body_components(views(segments@).take(0)) =~= Seq::<ComponentView>::empty());
        assert(head + Seq::<ComponentView>::empty() =~= head);
    }
    let mut i: usize = 0;
    while i < segments.len()
        invariant
            i <= segments@.len(),
            component_views(out@) == head + body_components(views(segments@).take(i as int)),
        decreases segments@.len() - i,
    {
        let ghost before = component_views(out@);
        let ghost prev = views(segments@).take(i as int);
        proof {
            let t = views(segments@).take(i + 1);
            assert(t.drop_last() =~= prev);
            assert(t.last() == segments@[i as int]@);
        }
        match component_of_segment(&segments[i]) {
            Some(c) => {
                out.push(c);
                proof {
                    assert(component_views(out@) =~= before.push(c@));
                    assert(head + (body_components(prev) + seq![c@]) =~= before.push(c@));
                }
            },
            None => {},
        }
        i += 1;
    }
    assert(views(segments@).take(i as int) =~= views(segments@));
    out
}

/// Whether two paths have the same parts.
pub fn same_path(a: &str, b: &str) -> (out: bool)
    ensures
        out == (components(a@) == components(b@)),
{
    let xs = path_components(a);
    let ys = path_components(b);
    assert(component_views(xs@).len() == xs@.len());
    assert(component_views(ys@).len() == ys@.len());
    if xs.len() != ys.len() {
        return false;
    }
    let mut i: usize = 0;
    while i < xs.len()
        invariant
            i <= xs@.len(),
            xs@.len() == ys@.len(),
            component_views(xs@) == components(a@),
            component_views(ys@) == components(b@),
            forall|k: int| 0 <= k < i ==> #[trigger] components(a@)[k] == components(b@)[k],
        decreases xs@.len() - i,
    {
        assert(components(a@)[i as int] == xs@[i as int]@);
        assert(components(b@)[i as int] == ys@[i as int]@);
        let equal = match (&xs[i], &ys[i]) {
            (Component::Root, Component::Root) => true,
            (Component::CurDir, Component::CurDir) => true,
            (Component::ParentDir, Component::ParentDir) => true,
            (Component::Normal(x), Component::Normal(y)) => same(x.as_str(), y.as_str()),
            _ => false,
        };
        if !equal {
            assert(components(a@)[i as int] != components(b@)[i as int]);
            return false;
        }
        i += 1;
    }
    assert(components(a@) =~= components(b@));
    true
}

/// Whether a path is absolute.
pub fn starts_with_slash(path: &str) -> (out: bool)
    ensures
        out == is_absolute(path@),
{
    let cs = to_chars(path);
    cs.len() > 0 && cs[0] == '/'
}

/// The last name of a path.
pub open spec fn file_name(path: Seq<char>) -> Option<Seq<char>> {
    let parts = components(path);
    if parts.len() > 0 && parts.last() is Normal {
        Some(parts.last()->Normal_0)
    } else {
        None
    }
}

/// The last name of a path.
pub fn last_name(path: &str) -> (out: Option<String>)
    ensures
        opt_view(out) == file_name(path@),
{
    let parts = path_components(path);
    if parts.len() == 0 {
        return None;
    }
    let last = parts.len() - 1;
    assert(component_views(parts@)[last as int] == parts@[last as int]@);
    match &parts[last] {
        Component::Normal(name) => Some(name.clone()),
        _ => None,
    }
}

/// The index of the last `c` in `s`, or -1 where there is none.
pub open spec fn last_index(s: Seq<char>, c: char) -> int
    decreases s.len(),
{
    if s.len() == 0 {
        -1
    } else if s.last() == c {
        s.len() - 1
    } else {
        last_index(s.drop_last(), c)
    }
}

/// The index of the last `c`.
fn find_last(cs: &Vec<char>, c: char) -> (out: Option<usize>)
    ensures
        match out {
            Some(i) => i == last_index(cs@, c) && i < cs@.len(),
            None => last_index(cs@, c) == -1,
        },
{
    let mut n: usize = cs.len();
    assert(cs@.take(n as int) =~= cs@);
    while n > 0
        invariant
            n <= cs@.len(),
            last_index(cs@, c) == last_index(cs@.take(n as int), c),
        decreases n,
    {
        assert(cs@.take(n as int).last() == cs@[n - 1]);
        if cs[n - 1] == c {
            return Some(n - 1);
        }
        assert(cs@.take(n as int).drop_last() =~= cs@.take(n - 1));
        n -= 1;
    }
    assert(cs@.take(0) =~= Seq::<char>::empty());
    None
}

/// A file name without its extension: what stands before its last dot, unless
/// that dot is the first character.
pub open spec fn stem(name: Seq<char>) -> Seq<char> {
    if last_index(name, '.') > 0 {
        name.take(last_index(name, '.'))
    } else {
        name
    }
}

/// The extension of a file name: what stands behind its last dot, unless that
/// dot is the first character.
pub open spec fn extension_of_name(name: Seq<char>) -> Option<Seq<char>> {
    if last_index(name, '.') > 0 {
        Some(name.skip(last_index(name, '.') + 1))
    } else {
        None
    }
}

/// The last name of a path without its extension.
pub open spec fn file_stem(path: Seq<char>) -> Option<Seq<char>> {
    match file_name(path) {
        Some(name) => Some(stem(name)),
        None => None,
    }
}

/// The extension of the last name of a path.
pub open spec fn extension(path: Seq<char>) -> Option<Seq<char>> {
    match file_name(path) {
        Some(name) => extension_of_name(name),
        None => None,
    }
}

/// The last name of a path without its extension.
pub fn path_stem(path: &str) -> (out: Option<String>)
    ensures
        opt_view(out) == file_stem(path@),
{
    match last_name(path) {
        Some(name) => {
            let cs = to_chars(name.as_str());
            match find_last(&cs, '.') {
                Some(i) => {
                    if i > 0 {
                        let out = from_chars(&cs, 0, i);
                        assert(out@ =~= name@.take(i as int));
                        return Some(out);
                    }
                },
                None => {},
            }
            Some(name)
        },
        None => None,
    }
}

/// The extension of the last name of a path.
pub fn path_extension(path: &str) -> (out: Option<String>)
    ensures
        opt_view(out) == extension(path@),
{
    match last_name(path) {
        Some(name) => {
            let cs = to_chars(name.as_str());
            match find_last(&cs, '.') {
                Some(i) => {
                    if i > 0 {
                        let end = cs.len();
                        let out = from_chars(&cs, i + 1, end);
                        assert(out@ =~= name@.skip(i + 1));
                        return Some(out);
                    }
                },
                None => {},
            }
            None
        },
        None => None,
    }
}

/// A path behind another one; an absolute path stands for itself.
pub open spec fn join_path(base: Seq<char>, path: Seq<char>) -> Seq<char> {
    if is_absolute(path) {
        path
    } else if base.len() == 0 || base.last() == '/' {
        base + path
    } else {
        base + "/"@ + path
    }
}

/// `path` behind `base`.
pub fn joined_path(base: &str, path: &str) -> (out: String)
    ensures
        out@ == join_path(base@, path@),
{
    if starts_with_slash(path) {
        return path.to_owned();
    }
    let cs = to_chars(base);
    if cs.len() == 0 || cs[cs.len() - 1] == '/' {
        cat2(base, path)
    } else {
        cat3(base, "/", path)
    }
}

/// A name that stands for itself in a path.
pub open spec fn is_plain_name(name: Seq<char>) -> bool {
    name.len() > 0 && !name.contains('/') && name != "."@ && name != ".."@
}

/// The names of a path are plain.
pub proof fn lemma_component_names(path: Seq<char>)
    ensures
        forall|i: int|
            0 <= i < components(path).len() && (#[trigger] components(path)[i]) is Normal
                ==> is_plain_name(components(path)[i]->Normal_0),
{
    let segments = split(path, '/');
    lemma_split_pieces(path, '/');
    lemma_segment_names(segments);
    let body = body_components(segments);
    let head = head_components(path);
    assert forall|i: int|
        0 <= i < components(path).len() && (#[trigger] components(path)[i]) is Normal implies
        is_plain_name(components(path)[i]->Normal_0) by {
        if i >= head.len() {
            assert(components(path)[i] == body[i - head.len()]);
        } else {
            assert(components(path)[i] == head[i]);
        }
    }
}

proof fn lemma_segment_names(segments: Seq<Seq<char>>)
    requires
        forall|i: int| 0 <= i < segments.len() ==> !(#[trigger] segments[i]).contains('/'),
    ensures
        forall|i: int|
            0 <= i < body_components(segments).len() && (#[trigger] body_components(
                segments,
            )[i]) is Normal ==> is_plain_name(body_components(segments)[i]->Normal_0),
    decreases segments.len(),
{
    if segments.len() > 0 {
        let rest = segments.drop_last();
        assert forall|i: int| 0 <= i < rest.len() implies !(#[trigger] rest[i]).contains('/') by {
            assert(rest[i] == segments[i]);
        }
        lemma_segment_names(rest);
        let all = body_components(segments);
        let before = body_components(rest);
        assert(!segments.last().contains('/'));
        assert forall|i: int| 0 <= i < all.len() && (#[trigger] all[i]) is Normal implies
            is_plain_name(all[i]->Normal_0) by {
            if i < before.len() {
                assert(all[i] == before[i]);
            }
        }
    }
}

/// The parts of a path that is made of plain names are those names.
pub proof fn lemma_components_of_names(list: Seq<Seq<char>>)
    requires
        list.len() > 0,
        forall|i: int| 0 <= i < list.len() ==> is_plain_name(#[trigger] list[i]),
    ensures
        components(join(list, "/"@)) == list.map_values(
            |name: Seq<char>| ComponentView::Normal(name),
        ),
{
    reveal_strlit("/");
    assert("/"@ =~= seq!['/']);
    let path = join(list, "/"@);
    lemma_split_join(list, '/');
    lemma_split_pieces(path, '/');
    lemma_first_index(path, '/');
    assert(split(path, '/')[0] == list[0]);
    if is_absolute(path) {
        assert(path.take(0) =~= Seq::<char>::empty());
    }
    lemma_names_filter(list);
    assert(head_components(path) =~= Seq::<ComponentView>::empty());
    assert(components(path) =~= list.map_values(|name: Seq<char>| ComponentView::Normal(name)));
}

proof fn lemma_names_filter(list: Seq<Seq<char>>)
    requires
        forall|i: int| 0 <= i < list.len() ==> is_plain_name(#[trigger] list[i]),
    ensures
        body_components(list) == list.map_values(
            |name: Seq<char>| ComponentView::Normal(name),
        ),
    decreases list.len(),
{
    let g = |name: Seq<char>| ComponentView::Normal(name);
    if list.len() > 0 {
        let rest = list.drop_last();
        assert forall|i: int| 0 <= i < rest.len() implies is_plain_name(#[trigger] rest[i]) by {
            assert(rest[i] == list[i]);
        }
        lemma_names_filter(rest);
        assert(is_plain_name(list[list.len() - 1]));
        assert(body_components(list) =~= body_components(rest) + seq![ComponentView::Normal(
            list.last(),
        )]);
        assert(list.map_values(g) =~= rest.map_values(g) + seq![ComponentView::Normal(
            list.last(),
        )]);
    } else {
        assert(body_components(list) =~= list.map_values(g));
    }
}

/// A name without a slash is one part of a path.
pub proof fn lemma_single_part(name: Seq<char>)
    requires
        is_plain_name(name),
    ensures
        components(name) == seq![ComponentView::Normal(name)],
        split(name, '/') == seq![name],
{
    lemma_first_index(name, '/');
    if is_absolute(name) {
        assert(name[0] == '/');
        assert(name.contains('/'));
    }
    let segments = split(name, '/');
    assert(segments =~= seq![name]);
    assert(segments.drop_last() =~= Seq::<Seq<char>>::empty());
    assert(body_components(segments.drop_last()) =~= Seq::<ComponentView>::empty());
    assert(body_components(segments) =~= seq![ComponentView::Normal(name)]);
    assert(head_components(name) =~= Seq::<ComponentView>::empty());
    assert(components(name) =~= seq![ComponentView::Normal(name)]);
}

pub proof fn lemma_last_index_is(s: Seq<char>, c: char, n: int)
    requires
        0 <= n < s.len(),
        s[n] == c,
        forall|k: int| n < k < s.len() ==> s[k] != c,
    ensures
        last_index(s, c) == n,
    decreases s.len(),
{
    if s.last() != c {
        lemma_last_index_is(s.drop_last(), c, n);
    }
}

// ── Laws ─────────────────────────────────────────────────────────────────────

/// A file name falls apart at its last dot: what stands before it is the stem,
/// what stands behind it the extension.
pub proof fn names_fall_apart_at_their_last_dot(name: Seq<char>, kind: Seq<char>)
    requires
        name.len() > 0,
        !name.contains('/'),
        !kind.contains('/'),
        !kind.contains('.'),
        name != "."@ || kind.len() > 0,
    ensures
        file_name(name + "."@ + kind) == Some(name + "."@ + kind),
        file_stem(name + "."@ + kind) == Some(name),
        extension(name + "."@ + kind) == Some(kind),
{
    reveal_strlit(".");
    reveal_strlit("..");
    let whole = name + "."@ + kind;
    assert(!whole.contains('/')) by {
        if whole.contains('/') {
            let i = choose|i: int| 0 <= i < whole.len() && whole[i] == '/';
            if i < name.len() {
                assert(name[i] == '/');
            } else if i > name.len() {
                assert(kind[i - name.len() - 1] == '/');
            }
        }
    }
    if whole == ".."@ {
        assert(name.len() == 1);
        assert(name[0] == whole[0]);
        assert(name =~= "."@);
    }
    lemma_single_part(whole);
    assert forall|k: int| name.len() < k < whole.len() implies whole[k] != '.' by {
        assert(whole[k] == kind[k - name.len() - 1]);
    }
    lemma_last_index_is(whole, '.', name.len() as int);
    assert(whole.take(name.len() as int) =~= name);
    assert(whole.skip(name.len() as int + 1) =~= kind);
}

/// A name that is joined to a directory lies in it: the parts of the directory
/// come first, then the name.
pub proof fn joined_names_lie_in_their_directory(base: Seq<char>, name: Seq<char>)
    requires
        base.len() > 0,
        base.last() != '/',
        is_plain_name(name),
    ensures
        join_path(base, name) == base + "/"@ + name,
        file_name(join_path(base, name)) == Some(name),
        components(join_path(base, name)) == components(base).push(ComponentView::Normal(name)),
{
    reveal_strlit("/");
    if is_absolute(name) {
        assert(name.contains('/'));
    }
    let whole = join_path(base, name);
    assert(whole =~= base + seq!['/'] + name);
    lemma_split_append(base, name, '/');
    let segments = split(base, '/');
    lemma_split_not_empty(base, '/');
    assert(split(whole, '/') == segments.push(name));
    assert(segments.push(name).drop_last() =~= segments);
    assert(body_components(segments.push(name)) =~= body_components(segments).push(
        ComponentView::Normal(name),
    ));
    assert(whole[0] == base[0]);
    assert(segments.push(name)[0] == segments[0]);
    assert(head_components(whole) == head_components(base));
    assert(components(whole) =~= components(base).push(ComponentView::Normal(name)));
}

/// A path that begins at the root is taken as it is, wherever it is joined to.
pub proof fn absolute_paths_stay(base: Seq<char>, path: Seq<char>)
    requires
        path.len() > 0,
        path[0] == '/',
    ensures
        join_path(base, path) == path,
        components(path).len() > 0,
        components(path)[0] == ComponentView::Root,
{
}

} // verus!
