//! Paths as the system sees them: bytes, with slashes between the names.
//!
//! A path stands for its components. Repeated slashes and a trailing slash add
//! none, nor does a dot that stands for a whole name, except in front.

use vstd::prelude::*;

verus! {

/// The byte between two names.
pub const SLASH: u8 = 47;

/// The byte that stands for the current directory, and twice for the parent.
pub const DOT: u8 = 46;

/// What stands between the slashes of a path.
pub open spec fn segments(path: Seq<u8>) -> Seq<Seq<u8>>
    decreases path.len(),
{
    if path.len() == 0 {
        seq![Seq::empty()]
    } else {
        let before = segments(path.drop_last());
        if path.last() == SLASH {
            before.push(Seq::empty())
        } else {
            before.drop_last().push(before.last().push(path.last()))
        }
    }
}

/// One step of a path.
pub enum ComponentView {
    RootDir,
    CurDir,
    ParentDir,
    Normal(Seq<u8>),
}

/// The step that one segment makes, if any.
pub open spec fn step(segment: Seq<u8>) -> Seq<ComponentView> {
    if segment.len() == 0 || segment == seq![DOT] {
        Seq::empty()
    } else if segment == seq![DOT, DOT] {
        seq![ComponentView::ParentDir]
    } else {
        seq![ComponentView::Normal(segment)]
    }
}

/// The steps that segments make, one after the other.
pub open spec fn steps(segments: Seq<Seq<u8>>) -> Seq<ComponentView>
    decreases segments.len(),
{
    if segments.len() == 0 {
        Seq::empty()
    } else {
        steps(segments.drop_last()) + step(segments.last())
    }
}

/// The path starts at the root.
pub open spec fn is_absolute(path: Seq<u8>) -> bool {
    path.len() > 0 && path[0] == SLASH
}

/// The path starts with a dot that stands for a whole name.
pub open spec fn starts_here(path: Seq<u8>) -> bool {
    path.len() > 0 && path[0] == DOT && (path.len() == 1 || path[1] == SLASH)
}

/// The step in front of all segments, if any.
pub open spec fn lead(path: Seq<u8>) -> Seq<ComponentView> {
    if is_absolute(path) {
        seq![ComponentView::RootDir]
    } else if starts_here(path) {
        seq![ComponentView::CurDir]
    } else {
        Seq::empty()
    }
}

/// The components of a path.
pub open spec fn components_of(path: Seq<u8>) -> Seq<ComponentView> {
    lead(path) + steps(segments(path))
}

/// A path behind another one; an absolute path replaces what is in front of it.
pub open spec fn joined(base: Seq<u8>, path: Seq<u8>) -> Seq<u8> {
    if is_absolute(path) {
        path
    } else if base.len() > 0 && base.last() != SLASH {
        base.push(SLASH) + path
    } else {
        base + path
    }
}

/// One step of a path.
#[derive(Debug, PartialEq, Eq)]
pub enum Component {
    /// The root in front of an absolute path.
    RootDir,
    /// A dot in front of a relative path.
    CurDir,
    /// Two dots.
    ParentDir,
    /// A name.
    Normal(Vec<u8>),
}

impl View for Component {
    type V = ComponentView;

    open spec fn view(&self) -> ComponentView {
        match self {
            Component::RootDir => ComponentView::RootDir,
            Component::CurDir => ComponentView::CurDir,
            Component::ParentDir => ComponentView::ParentDir,
            Component::Normal(name) => ComponentView::Normal(name@),
        }
    }
}

/// The views of components.
pub open spec fn component_views(components: Seq<Component>) -> Seq<ComponentView> {
    Seq::new(components.len(), |i: int| components[i]@)
}

/// Adds the step that a segment makes.
fn push_step(out: &mut Vec<Component>, segment: Vec<u8>)
    ensures
        component_views(final(out)@) == component_views(old(out)@) + step(segment@),
{
    let ghost before = component_views(out@);
    let len = segment.len();
    if len == 0 || (len == 1 && segment[0] == DOT) {
        assert(len == 0 || segment@ =~= seq![DOT]);
        assert(component_views(out@) =~= before + step(segment@));
    } else if len == 2 && segment[0] == DOT && segment[1] == DOT {
        assert(segment@ =~= seq![DOT, DOT]);
        out.push(Component::ParentDir);
        assert(component_views(out@) =~= before + step(segment@));
    } else {
        let ghost name = segment@;
        assert(name != seq![DOT] && name != seq![DOT, DOT]) by {
            if name == seq![DOT] {
                assert(name[0] == DOT && name.len() == 1);
            }
            if name == seq![DOT, DOT] {
                assert(name[0] == DOT && name[1] == DOT && name.len() == 2);
            }
        }
        out.push(Component::Normal(segment));
        assert(component_views(out@) =~= before + step(name));
    }
}

/// The components of a path.
pub fn components(path: &[u8]) -> (r: Vec<Component>)
    ensures
        component_views(r@) == components_of(path@),
        r@.len() == components_of(path@).len(),
        forall|i: int| 0 <= i < r@.len() ==> (#[trigger] r@[i])@ == components_of(path@)[i],
{
    let mut out: Vec<Component> = Vec::new();
    if path.len() > 0 && path[0] == SLASH {
        out.push(Component::RootDir);
    } else if path.len() > 0 && path[0] == DOT && (path.len() == 1 || path[1] == SLASH) {
        out.push(Component::CurDir);
    }
    assert(component_views(out@) =~= lead(path@));
    let mut segment: Vec<u8> = Vec::new();
    let mut i: usize = 0;
    let ghost mut done: Seq<Seq<u8>> = Seq::empty();
    assert(path@.take(0) =~= Seq::empty());
    assert(segments(path@.take(0)) =~= done.push(segment@));
    assert(component_views(out@) =~= lead(path@) + steps(done));
    while i < path.len()
        invariant
            i <= path@.len(),
            segments(path@.take(i as int)) == done.push(segment@),
            component_views(out@) == lead(path@) + steps(done),
        decreases path@.len() - i,
    {
        let byte = path[i];
        assert(path@.take(i + 1).drop_last() =~= path@.take(i as int));
        assert(done.push(segment@).drop_last() =~= done);
        if byte == SLASH {
            let mut ended: Vec<u8> = Vec::new();
            std::mem::swap(&mut ended, &mut segment);
            push_step(&mut out, ended);
            proof {
                assert(component_views(out@) =~= lead(path@) + steps(done.push(ended@)));
                done = done.push(ended@);
            }
        } else {
            segment.push(byte);
        }
        i += 1;
    }
    assert(path@.take(i as int) =~= path@);
    assert(done.push(segment@).drop_last() =~= done);
    let ghost last = segment@;
    push_step(&mut out, segment);
    assert(component_views(out@) =~= lead(path@) + steps(done.push(last)));
    assert forall|i: int| 0 <= i < out@.len() implies (#[trigger] out@[i])@ == components_of(
        path@,
    )[i] by {
        assert(component_views(out@)[i] == out@[i]@);
    }
    out
}

/// A path behind another one; an absolute path replaces what is in front of it.
pub fn join(base: &[u8], path: &[u8]) -> (r: Vec<u8>)
    ensures
        r@ == joined(base@, path@),
{
    let mut out: Vec<u8> = Vec::new();
    if path.len() > 0 && path[0] == SLASH {
        out.extend_from_slice(path);
        assert(out@ =~= path@);
        return out;
    }
    out.extend_from_slice(base);
    assert(out@ =~= base@);
    if base.len() > 0 && base[base.len() - 1] != SLASH {
        out.push(SLASH);
    }
    let ghost front = out@;
    out.extend_from_slice(path);
    assert(out@ =~= front + path@);
    out
}

/// The path has a component to go up from.
pub open spec fn has_parent(path: Seq<u8>) -> bool {
    let components = components_of(path);
    components.len() > 0 && components.last() != ComponentView::RootDir
}

/// The first `len` bytes are the shortest start of the path that has all its
/// components but the last.
pub open spec fn is_parent_len(path: Seq<u8>, len: int) -> bool {
    &&& 0 <= len <= path.len()
    &&& components_of(path.take(len)) == components_of(path).drop_last()
    &&& forall|m: int|
        0 <= m < len ==> components_of(#[trigger] path.take(m)) != components_of(path).drop_last()
}

/// The path without its last component. A root has no parent, nor has an empty path;
/// a single name has the empty path.
pub open spec fn parent_of(path: Seq<u8>) -> Option<Seq<u8>> {
    if has_parent(path) {
        Some(path.take(choose|len: int| is_parent_len(path, len)))
    } else {
        None
    }
}

/// Where the last segment starts.
spec fn last_start(path: Seq<u8>) -> int
    decreases path.len(),
{
    if path.len() == 0 {
        0
    } else if path.last() == SLASH {
        path.len() as int
    } else {
        last_start(path.drop_last())
    }
}

proof fn lemma_last_segment(path: Seq<u8>)
    ensures
        0 <= last_start(path) <= path.len(),
        last_start(path) == 0 || path[last_start(path) - 1] == SLASH,
        forall|i: int| last_start(path) <= i < path.len() ==> path[i] != SLASH,
        segments(path).len() > 0,
        segments(path.take(last_start(path))).len() > 0,
        segments(path.take(last_start(path))).last() == Seq::<u8>::empty(),
        segments(path) == segments(path.take(last_start(path))).drop_last().push(
            path.skip(last_start(path)),
        ),
    decreases path.len(),
{
    let start = last_start(path);
    if path.len() == 0 {
        assert(path.take(0) =~= path);
        assert(path.skip(0) =~= Seq::<u8>::empty());
        assert(segments(path) =~= segments(path).drop_last().push(Seq::empty()));
    } else if path.last() == SLASH {
        lemma_last_segment(path.drop_last());
        assert(path.take(start) =~= path);
        assert(path.skip(start) =~= Seq::<u8>::empty());
        assert(segments(path) =~= segments(path).drop_last().push(Seq::empty()));
    } else {
        let before = path.drop_last();
        lemma_last_segment(before);
        assert(path.take(start) =~= before.take(start));
        assert(path.skip(start) =~= before.skip(start).push(path.last()));
        let front = segments(path.take(start)).drop_last();
        assert(segments(before).drop_last() =~= front);
        assert(segments(before).last() == before.skip(start));
        assert forall|i: int| start <= i < path.len() implies path[i] != SLASH by {
            if i < before.len() {
                assert(path[i] == before[i]);
            }
        }
    }
}

proof fn lemma_empty_path(path: Seq<u8>)
    requires
        path.len() == 0,
    ensures
        steps(segments(path)) == Seq::<ComponentView>::empty(),
        components_of(path) == Seq::<ComponentView>::empty(),
{
    let none: Seq<Seq<u8>> = Seq::empty();
    assert(segments(path).drop_last() =~= none);
    assert(steps(none) =~= Seq::empty());
    assert(steps(segments(path)) =~= Seq::empty());
    assert(components_of(path) =~= Seq::empty());
}

proof fn lemma_segments_behind_slash(front: Seq<u8>, back: Seq<u8>)
    ensures
        segments(front.push(SLASH) + back) == segments(front) + segments(back),
    decreases back.len(),
{
    let whole = front.push(SLASH) + back;
    lemma_last_segment(front);
    if back.len() == 0 {
        assert(whole =~= front.push(SLASH));
        assert(whole.drop_last() =~= front);
        assert(segments(whole) =~= segments(front) + segments(back));
    } else {
        let shorter = back.drop_last();
        lemma_segments_behind_slash(front, shorter);
        lemma_last_segment(shorter);
        assert(whole.drop_last() =~= front.push(SLASH) + shorter);
        let before = segments(front) + segments(shorter);
        assert(before.last() == segments(shorter).last());
        assert(before.drop_last() =~= segments(front) + segments(shorter).drop_last());
        assert(segments(whole) =~= segments(front) + segments(back));
    }
}

proof fn lemma_steps_add(a: Seq<Seq<u8>>, b: Seq<Seq<u8>>)
    ensures
        steps(a + b) == steps(a) + steps(b),
    decreases b.len(),
{
    if b.len() == 0 {
        assert(a + b =~= a);
        assert(steps(a) + steps(b) =~= steps(a));
    } else {
        lemma_steps_add(a, b.drop_last());
        assert((a + b).drop_last() =~= a + b.drop_last());
        assert((a + b).last() == b.last());
        assert(steps(a + b) =~= steps(a) + steps(b));
    }
}

proof fn lemma_steps_kinds(segments: Seq<Seq<u8>>)
    ensures
        forall|i: int|
            0 <= i < steps(segments).len() ==> {
                ||| (#[trigger] steps(segments)[i]) is Normal
                ||| steps(segments)[i] is ParentDir
            },
    decreases segments.len(),
{
    if segments.len() > 0 {
        lemma_steps_kinds(segments.drop_last());
        let before = steps(segments.drop_last());
        assert forall|i: int| 0 <= i < steps(segments).len() implies {
            ||| (#[trigger] steps(segments)[i]) is Normal
            ||| steps(segments)[i] is ParentDir
        } by {
            if i < before.len() {
                assert(steps(segments)[i] == before[i]);
            }
        }
    }
}

/// A start of the path has all its components but the last.
proof fn lemma_parent_exists(path: Seq<u8>) -> (len: int)
    requires
        has_parent(path),
    ensures
        0 <= len <= path.len(),
        components_of(path.take(len)) == components_of(path).drop_last(),
    decreases path.len(),
{
    lemma_last_segment(path);
    let start = last_start(path);
    let front = path.take(start);
    let segment = path.skip(start);
    let inner = segments(front).drop_last();
    assert(segments(path).drop_last() =~= inner);
    assert(steps(segments(path)) == steps(inner) + step(segment));
    assert(steps(segments(front)) =~= steps(inner));
    if path.len() == 0 {
        lemma_empty_path(path);
        0
    } else if path.last() == SLASH {
        let shorter = path.drop_last();
        assert(segments(path).drop_last() =~= segments(shorter));
        assert(steps(segments(path)) =~= steps(segments(shorter)));
        if shorter.len() == 0 {
            lemma_empty_path(shorter);
            assert(components_of(path) =~= seq![ComponentView::RootDir]);
            0
        } else {
            assert(lead(path) == lead(shorter));
            let len = lemma_parent_exists(shorter);
            assert(path.take(len) =~= shorter.take(len));
            len
        }
    } else if step(segment).len() == 0 {
        assert(segment == seq![DOT]);
        if start == 0 {
            assert(path =~= segment);
            lemma_empty_path(front);
            assert(components_of(path) =~= seq![ComponentView::CurDir]);
            assert(components_of(front) =~= components_of(path).drop_last());
            0
        } else {
            assert(lead(path) == lead(front));
            assert(components_of(path) =~= components_of(front));
            let len = lemma_parent_exists(front);
            assert(path.take(len) =~= front.take(len));
            len
        }
    } else {
        if start == 0 {
            assert(path =~= segment);
            if starts_here(path) {
                assert(path =~= seq![DOT]);
            }
            assert(lead(path) == lead(front));
        } else {
            assert(lead(path) == lead(front));
        }
        assert(step(segment).drop_last() =~= Seq::empty());
        assert(components_of(path).drop_last() =~= components_of(front));
        start
    }
}

/// Whether two paths go the same steps.
pub fn same_components(a: &Vec<Component>, b: &Vec<Component>) -> (r: bool)
    ensures
        r == (component_views(a@) == component_views(b@)),
        r == (a@.len() == b@.len() && forall|i: int|
            0 <= i < a@.len() ==> (#[trigger] a@[i])@ == b@[i]@),
{
    if a.len() != b.len() {
        assert(component_views(a@).len() != component_views(b@).len());
        return false;
    }
    let mut i: usize = 0;
    while i < a.len()
        invariant
            i <= a@.len(),
            a@.len() == b@.len(),
            forall|j: int| 0 <= j < i ==> (#[trigger] a@[j])@ == b@[j]@,
        decreases a@.len() - i,
    {
        let same = match (&a[i], &b[i]) {
            (Component::RootDir, Component::RootDir) => true,
            (Component::CurDir, Component::CurDir) => true,
            (Component::ParentDir, Component::ParentDir) => true,
            (Component::Normal(x), Component::Normal(y)) => same_bytes(x, y),
            _ => false,
        };
        if !same {
            assert(component_views(a@)[i as int] != component_views(b@)[i as int]);
            return false;
        }
        i += 1;
    }
    assert(component_views(a@) =~= component_views(b@));
    true
}

/// Whether two names are the same.
pub fn same_bytes(a: &Vec<u8>, b: &Vec<u8>) -> (r: bool)
    ensures
        r == (a@ == b@),
{
    if a.len() != b.len() {
        return false;
    }
    let mut i: usize = 0;
    while i < a.len()
        invariant
            i <= a@.len(),
            a@.len() == b@.len(),
            forall|j: int| 0 <= j < i ==> a@[j] == b@[j],
        decreases a@.len() - i,
    {
        if a[i] != b[i] {
            return false;
        }
        i += 1;
    }
    assert(a@ =~= b@);
    true
}

/// The path without its last component.
pub fn parent(path: &[u8]) -> (r: Option<Vec<u8>>)
    ensures
        r is Some <==> parent_of(path@) is Some,
        r matches Some(up) ==> parent_of(path@) == Some(up@),
        r is Some <==> components_of(path@).len() > 0 && !(components_of(path@).last() is RootDir),
        r matches Some(up) ==> up@.len() <= path@.len() && up@ == path@.take(up@.len() as int),
        r matches Some(up) ==> components_of(up@) == components_of(path@).take(
            components_of(path@).len() - 1,
        ),
        r matches Some(up) ==> forall|m: int|
            0 <= m < up@.len() ==> components_of(#[trigger] path@.take(m)) != components_of(
                path@,
            ).take(components_of(path@).len() - 1),
{
    let mut wanted = components(path);
    match wanted.pop() {
        None => {
            return None;
        },
        Some(Component::RootDir) => {
            return None;
        },
        Some(_) => {},
    }
    let ghost all = components_of(path@);
    assert(component_views(wanted@) =~= all.drop_last());
    let ghost bound = lemma_parent_exists(path@);
    let mut up: Vec<u8> = Vec::new();
    assert(up@ =~= path@.take(0));
    while !same_components(&components(up.as_slice()), &wanted)
        invariant
            component_views(wanted@) == components_of(path@).drop_last(),
            up@.len() <= bound <= path@.len(),
            up@ == path@.take(up@.len() as int),
            components_of(path@.take(bound)) == components_of(path@).drop_last(),
            forall|m: int|
                0 <= m < up@.len() ==> components_of(#[trigger] path@.take(m)) != components_of(
                    path@,
                ).drop_last(),
        decreases path@.len() - up@.len(),
    {
        let ghost len = up@.len() as int;
        up.push(path[up.len()]);
        assert(up@ =~= path@.take(len + 1));
    }
    proof {
        let len = up@.len() as int;
        assert(components_of(path@).take(components_of(path@).len() - 1) =~= components_of(
            path@,
        ).drop_last());
        assert(is_parent_len(path@, len));
        let chosen = choose|len: int| is_parent_len(path@, len);
        assert(chosen == len) by {
            if chosen < len {
                assert(components_of(path@.take(chosen)) != components_of(path@).drop_last());
            }
            if len < chosen {
                assert(components_of(path@.take(len)) != components_of(path@).drop_last());
            }
        }
    }
    Some(up)
}

/// No step of the path leads out of the directory that it is taken in.
pub open spec fn is_safe_relative(path: Seq<u8>) -> bool {
    &&& !is_absolute(path)
    &&& forall|i: int|
        0 <= i < components_of(path).len() ==> {
            ||| (#[trigger] components_of(path)[i]) is Normal
            ||| components_of(path)[i] is CurDir
        }
}

/// A safe path behind a directory stays below it: the directory's own components
/// come first, and nothing but names follows. Behind the empty path, a safe path is
/// itself, with the dot in front where it has one.
pub proof fn law_safe_path_stays_below(base: Seq<u8>, path: Seq<u8>)
    requires
        is_safe_relative(path),
    ensures
        base.len() > 0 || !starts_here(path) ==> components_of(joined(base, path))
            == components_of(base) + steps(segments(path)),
        base.len() == 0 ==> joined(base, path) == path,
        forall|i: int|
            0 <= i < steps(segments(path)).len() ==> (#[trigger] steps(segments(path))[i]) is Normal,
{
    let below = steps(segments(path));
    lemma_steps_kinds(segments(path));
    assert forall|i: int| 0 <= i < below.len() implies (#[trigger] below[i]) is Normal by {
        assert(components_of(path)[lead(path).len() + i] == below[i]);
    }
    if base.len() == 0 {
        assert(joined(base, path) =~= path);
        lemma_empty_path(base);
        if !starts_here(path) {
            assert(components_of(path) =~= components_of(base) + below);
        }
    } else if base.last() != SLASH {
        lemma_segments_behind_slash(base, path);
        lemma_steps_add(segments(base), segments(path));
        assert(lead(joined(base, path)) == lead(base));
        assert(components_of(joined(base, path)) =~= components_of(base) + below);
    } else {
        let front = base.drop_last();
        assert(base =~= front.push(SLASH));
        lemma_segments_behind_slash(front, path);
        lemma_steps_add(segments(front), segments(path));
        assert(segments(base).drop_last() =~= segments(front));
        assert(steps(segments(base)) =~= steps(segments(front)));
        assert(lead(joined(base, path)) == lead(base));
        assert(components_of(joined(base, path)) =~= components_of(base) + below);
    }
}

/// The model of a component is the component itself, with its bytes for a name.
pub proof fn law_model_of_a_component(component: Component)
    ensures
        match component {
            Component::RootDir => component@ == ComponentView::RootDir,
            Component::CurDir => component@ == ComponentView::CurDir,
            Component::ParentDir => component@ == ComponentView::ParentDir,
            Component::Normal(name) => component@ == ComponentView::Normal(name@),
        },
{
}

/// A list of components is modelled one by one.
pub proof fn law_model_of_components(components: Seq<Component>, i: int)
    requires
        0 <= i < components.len(),
    ensures
        component_views(components).len() == components.len(),
        component_views(components)[i] == components[i]@,
{
}

proof fn lemma_single_segment(path: Seq<u8>)
    requires
        forall|i: int| 0 <= i < path.len() ==> path[i] != SLASH,
    ensures
        segments(path) == seq![path],
    decreases path.len(),
{
    if path.len() == 0 {
        assert(path =~= Seq::empty());
        assert(segments(path) =~= seq![path]);
    } else {
        let before = path.drop_last();
        lemma_single_segment(before);
        assert(before.push(path.last()) =~= path);
        assert(segments(path) =~= seq![path]);
    }
}

proof fn lemma_steps_of_one(segment: Seq<u8>)
    ensures
        steps(seq![segment]) == step(segment),
{
    let one = seq![segment];
    let none: Seq<Seq<u8>> = Seq::empty();
    assert(one.drop_last() =~= none);
    assert(steps(none) =~= Seq::empty());
    assert(one.last() == segment);
    assert(steps(one) =~= step(segment));
}

/// A path without a slash is one segment, and a slash stands between segments: these two
/// facts say what the segments of every path are.
pub proof fn law_segments(front: Seq<u8>, back: Seq<u8>)
    ensures
        (forall|i: int| 0 <= i < back.len() ==> back[i] != 47) ==> segments(back) == seq![back],
        segments(front + seq![47u8] + back) == segments(front) + segments(back),
{
    if forall|i: int| 0 <= i < back.len() ==> back[i] != 47 {
        lemma_single_segment(back);
    }
    assert(front + seq![47u8] + back =~= front.push(SLASH) + back);
    lemma_segments_behind_slash(front, back);
}

/// The components of a path without a slash: none where it is empty, the current directory
/// for a dot, the parent for two dots, and else that name.
pub proof fn law_components_of_one_name(name: Seq<u8>)
    requires
        forall|i: int| 0 <= i < name.len() ==> name[i] != 47,
    ensures
        name.len() == 0 ==> components_of(name) == Seq::<ComponentView>::empty(),
        name == seq![46u8] ==> components_of(name) == seq![ComponentView::CurDir],
        name == seq![46u8, 46u8] ==> components_of(name) == seq![ComponentView::ParentDir],
        name.len() > 0 && name != seq![46u8] && name != seq![46u8, 46u8] ==> components_of(name)
            == seq![ComponentView::Normal(name)],
{
    lemma_single_segment(name);
    lemma_steps_of_one(name);
    if starts_here(name) {
        assert(name =~= seq![DOT]);
    }
    if name == seq![DOT, DOT] {
        assert(name.len() == 2 && name[1] == DOT);
    }
    assert(components_of(name) =~= lead(name) + step(name));
    if name.len() == 0 {
        assert(components_of(name) =~= Seq::empty());
    } else if name == seq![DOT] {
        assert(components_of(name) =~= seq![ComponentView::CurDir]);
    } else if name == seq![DOT, DOT] {
        assert(components_of(name) =~= seq![ComponentView::ParentDir]);
    } else {
        assert(components_of(name) =~= seq![ComponentView::Normal(name)]);
    }
}

/// The components of a path with a slash, by what stands behind its last slash: nothing
/// and a dot add none, two dots add the parent, and a name adds itself. In front of the
/// slash stands the path so far, or the root where nothing stands there.
pub proof fn law_components_behind_a_slash(front: Seq<u8>, name: Seq<u8>)
    requires
        forall|i: int| 0 <= i < name.len() ==> name[i] != 47,
    ensures
        ({
            let all = components_of(front + seq![47u8] + name);
            let before = if front.len() == 0 {
                seq![ComponentView::RootDir]
            } else {
                components_of(front)
            };
            &&& name.len() == 0 || name == seq![46u8] ==> all == before
            &&& name == seq![46u8, 46u8] ==> all == before.push(ComponentView::ParentDir)
            &&& name.len() > 0 && name != seq![46u8] && name != seq![46u8, 46u8] ==> all
                == before.push(ComponentView::Normal(name))
        }),
{
    let whole = front + seq![47u8] + name;
    law_segments(front, name);
    lemma_single_segment(name);
    let last = seq![name];
    lemma_steps_add(segments(front), last);
    lemma_steps_of_one(name);
    assert(whole[0] == if front.len() == 0 {
        47
    } else {
        front[0]
    });
    if front.len() == 0 {
        lemma_empty_path(front);
        assert(lead(whole) =~= seq![ComponentView::RootDir]);
    } else {
        if front.len() == 1 {
            assert(whole[1] == 47);
        } else {
            assert(whole[1] == front[1]);
        }
        assert(lead(whole) == lead(front));
    }
    let before = if front.len() == 0 {
        seq![ComponentView::RootDir]
    } else {
        components_of(front)
    };
    if name == seq![DOT] {
        assert(name.len() == 1);
    }
    if name == seq![DOT, DOT] {
        assert(name.len() == 2);
    }
    assert(components_of(whole) =~= before + step(name));
    if name.len() == 0 || name == seq![46u8] {
        assert(components_of(whole) =~= before);
    } else if name == seq![46u8, 46u8] {
        assert(components_of(whole) =~= before.push(ComponentView::ParentDir));
    } else {
        assert(components_of(whole) =~= before.push(ComponentView::Normal(name)));
    }
}

/// Where a path goes behind a base: nowhere if it starts with a slash; else right behind a
/// base that is empty or ends with a slash, and behind one slash otherwise.
pub proof fn law_joined_paths(base: Seq<u8>, path: Seq<u8>)
    ensures
        is_absolute(path) <==> path.len() > 0 && path[0] == 47,
        path.len() > 0 && path[0] == 47 ==> joined(base, path) == path,
        !(path.len() > 0 && path[0] == 47) && base.len() == 0 ==> joined(base, path) == path,
        !(path.len() > 0 && path[0] == 47) && base.len() > 0 && base.last() == 47 ==> joined(
            base,
            path,
        ) == base + path,
        !(path.len() > 0 && path[0] == 47) && base.len() > 0 && base.last() != 47 ==> joined(
            base,
            path,
        ) == base + seq![47u8] + path,
{
    if base.len() == 0 {
        assert(base + path =~= path);
    }
    assert(base.push(SLASH) + path =~= base + seq![47u8] + path);
}

/// A path has a parent exactly where its last component is no root. The parent is the
/// shortest start of the path that has all its components but the last.
pub proof fn law_parents(path: Seq<u8>)
    ensures
        parent_of(path) is Some <==> components_of(path).len() > 0 && !(
        components_of(path).last() is RootDir),
        parent_of(path) matches Some(up) ==> {
            &&& up.len() <= path.len()
            &&& up == path.take(up.len() as int)
            &&& components_of(up) == components_of(path).take(components_of(path).len() - 1)
            &&& forall|m: int|
                0 <= m < up.len() ==> components_of(#[trigger] path.take(m)) != components_of(
                    path,
                ).take(components_of(path).len() - 1)
        },
{
    if has_parent(path) {
        assert(components_of(path).take(components_of(path).len() - 1) =~= components_of(
            path,
        ).drop_last());
        let some = lemma_parent_exists(path);
        let len = lemma_shortest_start(path, components_of(path).drop_last(), some);
        assert(is_parent_len(path, len));
        let chosen = choose|len: int| is_parent_len(path, len);
        assert(is_parent_len(path, chosen));
        let up = path.take(chosen);
        assert(up =~= path.take(up.len() as int));
    }
}

proof fn lemma_shortest_start(path: Seq<u8>, wanted: Seq<ComponentView>, some: int) -> (len: int)
    requires
        0 <= some <= path.len(),
        components_of(path.take(some)) == wanted,
    ensures
        0 <= len <= some,
        components_of(path.take(len)) == wanted,
        forall|m: int| 0 <= m < len ==> components_of(#[trigger] path.take(m)) != wanted,
    decreases some,
{
    if exists|m: int| 0 <= m < some && components_of(#[trigger] path.take(m)) == wanted {
        let m = choose|m: int| 0 <= m < some && components_of(#[trigger] path.take(m)) == wanted;
        lemma_shortest_start(path, wanted, m)
    } else {
        some
    }
}

/// Two dots that make up a whole name start at `i`.
spec fn two_dots_at(path: Seq<u8>, i: int) -> bool {
    &&& 0 <= i && i + 2 <= path.len()
    &&& path[i] == 46 && path[i + 1] == 46
    &&& i == 0 || path[i - 1] == 47
    &&& i + 2 == path.len() || path[i + 2] == 47
}

proof fn lemma_parent_steps(path: Seq<u8>)
    ensures
        steps(segments(path)).contains(ComponentView::ParentDir) <==> exists|i: int| #[trigger]
            two_dots_at(path, i),
    decreases path.len(),
{
    lemma_last_segment(path);
    let start = last_start(path);
    let front = path.take(start);
    let segment = path.skip(start);
    let inner = segments(front).drop_last();
    let up = ComponentView::ParentDir;
    assert(segments(path).drop_last() =~= inner);
    let all = steps(segments(path));
    assert(all == steps(inner) + step(segment));
    assert(step(segment).contains(up) <==> segment == seq![DOT, DOT]) by {
        if segment == seq![DOT, DOT] {
            assert(segment.len() == 2);
            assert(segment[1] == DOT);
            assert(step(segment)[0] == up);
        }
    }
    assert(all.contains(up) <==> steps(inner).contains(up) || step(segment).contains(up)) by {
        if all.contains(up) {
            let i = choose|i: int| 0 <= i < all.len() && all[i] == up;
            if i < steps(inner).len() {
                assert(steps(inner)[i] == up);
            } else {
                assert(step(segment)[i - steps(inner).len()] == up);
            }
        }
        if steps(inner).contains(up) {
            let i = choose|i: int| 0 <= i < steps(inner).len() && steps(inner)[i] == up;
            assert(all[i] == up);
        }
        if step(segment).contains(up) {
            let i = choose|i: int| 0 <= i < step(segment).len() && step(segment)[i] == up;
            assert(all[steps(inner).len() + i] == up);
        }
    }
    assert(segment == seq![DOT, DOT] <==> two_dots_at(path, start)) by {
        if segment == seq![DOT, DOT] {
            assert(segment[0] == DOT && segment[1] == DOT && segment.len() == 2);
        }
        if two_dots_at(path, start) {
            assert(start + 2 == path.len());
            assert(segment =~= seq![DOT, DOT]);
        }
    }
    assert forall|i: int| #[trigger] two_dots_at(path, i) && i != start implies i < start by {
        if i > start {
            assert(path[i - 1] != SLASH);
        }
    }
    if start == 0 {
        assert(front =~= Seq::empty());
        lemma_empty_path(front);
        assert(inner =~= Seq::empty());
        assert(steps(inner) =~= Seq::empty());
    } else {
        let shorter = path.take(start - 1);
        assert(front =~= shorter.push(SLASH));
        assert(front.drop_last() =~= shorter);
        assert(inner =~= segments(shorter));
        lemma_parent_steps(shorter);
        assert forall|i: int| i < start implies (#[trigger] two_dots_at(path, i) <==> two_dots_at(
            shorter,
            i,
        )) by {
            if two_dots_at(path, i) {
                assert(path[start - 1] == SLASH);
                assert(i + 2 <= start - 1);
            }
        }
        if exists|i: int| #[trigger] two_dots_at(path, i) {
            let i = choose|i: int| #[trigger] two_dots_at(path, i);
            if i != start {
                assert(two_dots_at(shorter, i));
            }
        }
        if exists|i: int| #[trigger] two_dots_at(shorter, i) {
            let i = choose|i: int| #[trigger] two_dots_at(shorter, i);
            assert(two_dots_at(path, i));
        }
    }
}

/// A path is safe exactly where it does not start with a slash and no two dots make up a
/// whole name in it. How long the path is, and what else is in it, does not matter.
pub proof fn law_safe_paths_by_their_bytes(path: Seq<u8>)
    ensures
        is_safe_relative(path) <==> {
            &&& !(path.len() > 0 && path[0] == 47)
            &&& forall|i: int|
                0 <= i && i + 2 <= path.len() && #[trigger] path[i] == 46 && path[i + 1] == 46 && (i
                    == 0 || path[i - 1] == 47) ==> i + 2 < path.len() && path[i + 2] != 47
        },
        is_safe_relative(path) <==> {
            &&& !(path.len() > 0 && path[0] == 47)
            &&& forall|i: int|
                0 <= i < components_of(path).len() ==> {
                    ||| (#[trigger] components_of(path)[i]) is Normal
                    ||| components_of(path)[i] is CurDir
                }
        },
{
    lemma_parent_steps(path);
    let all = components_of(path);
    let below = steps(segments(path));
    let up = ComponentView::ParentDir;
    lemma_steps_kinds(segments(path));
    if !is_absolute(path) {
        if below.contains(up) {
            let i = choose|i: int| 0 <= i < below.len() && below[i] == up;
            assert(all[lead(path).len() + i] == up);
            let k = choose|k: int| #[trigger] two_dots_at(path, k);
            assert(path[k] == 46);
        } else {
            assert forall|i: int| 0 <= i < all.len() implies {
                ||| (#[trigger] all[i]) is Normal
                ||| all[i] is CurDir
            } by {
                if i >= lead(path).len() {
                    assert(below[i - lead(path).len()] == all[i]);
                }
            }
            assert forall|i: int|
                0 <= i && i + 2 <= path.len() && #[trigger] path[i] == 46 && path[i + 1] == 46 && (i
                    == 0 || path[i - 1] == 47) implies i + 2 < path.len() && path[i + 2] != 47 by {
                assert(!two_dots_at(path, i));
            }
        }
    }
}

} // verus!
