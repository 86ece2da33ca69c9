//! Paths as `std::path::Path` reads them on Unix: a path is split on `/`,
//! empty pieces and `.` pieces inside it are dropped, a leading `/` is the root
//! and a leading `.` piece is the current directory.

use vstd::prelude::*;
use crate::text::{chars_of, push_char, string_from_chars};
use vstd::string::StringExecFns;

verus! {

/// One component of a path.
pub enum Component {
    RootDir,
    CurDir,
    ParentDir,
    Normal(String),
}

/// The mathematical value of a [`Component`].
pub enum ComponentView {
    RootDir,
    CurDir,
    ParentDir,
    Normal(Seq<char>),
}

impl View for Component {
    type V = ComponentView;

    open spec fn view(&self) -> ComponentView {
        match self {
            Component::RootDir => ComponentView::RootDir,
            Component::CurDir => ComponentView::CurDir,
            Component::ParentDir => ComponentView::ParentDir,
            Component::Normal(s) => ComponentView::Normal(s@),
        }
    }
}

/// The views of a sequence of components.
pub open spec fn component_views(cs: Seq<Component>) -> Seq<ComponentView> {
    cs.map_values(|c: Component| c@)
}

/// Splitting the first `k` characters of `p` on `/`: the pieces closed so far
/// and the piece still open.
pub open spec fn split_prefix(p: Seq<char>, k: int) -> (Seq<Seq<char>>, Seq<char>)
    decreases k,
{
    if k <= 0 {
        (Seq::empty(), Seq::empty())
    } else {
        let (done, cur) = split_prefix(p, k - 1);
        if p[k - 1] == '/' {
            (done.push(cur), Seq::empty())
        } else {
            (done, cur.push(p[k - 1]))
        }
    }
}

/// The pieces of `p` between its `/` characters, empty ones included; there is
/// always at least one.
pub open spec fn segments(p: Seq<char>) -> Seq<Seq<char>> {
    let (done, cur) = split_prefix(p, p.len() as int);
    done.push(cur)
}

/// The component that one piece stands for, or none for an empty or `.` piece.
pub open spec fn segment_component(seg: Seq<char>) -> Option<ComponentView> {
    if seg.len() == 0 || seg == seq!['.'] {
        None
    } else if seg == seq!['.', '.'] {
        Some(ComponentView::ParentDir)
    } else {
        Some(ComponentView::Normal(seg))
    }
}

/// The components that a run of pieces stands for, in order.
pub open spec fn segments_components(segs: Seq<Seq<char>>) -> Seq<ComponentView>
    decreases segs.len(),
{
    if segs.len() == 0 {
        Seq::empty()
    } else {
        let before = segments_components(segs.drop_last());
        match segment_component(segs.last()) {
            Some(c) => before.push(c),
            None => before,
        }
    }
}

/// The components of `p`, as `Path::components` yields them.
pub open spec fn components(p: Seq<char>) -> Seq<ComponentView> {
    let segs = segments(p);
    if p.len() > 0 && p[0] == '/' {
        seq![ComponentView::RootDir] + segments_components(segs)
    } else if segs[0] == seq!['.'] {
        seq![ComponentView::CurDir] + segments_components(segs.drop_first())
    } else {
        segments_components(segs)
    }
}

/// The pieces named by index pairs into `v`.
pub open spec fn pieces(v: Seq<char>, bounds: Seq<(usize, usize)>) -> Seq<Seq<char>> {
    bounds.map_values(|b: (usize, usize)| v.subrange(b.0 as int, b.1 as int))
}

proof fn lemma_split_prefix_len(p: Seq<char>, k: int)
    requires
        0 <= k <= p.len(),
    ensures
        split_prefix(p, k).1.len() <= k,
    decreases k,
{
    if k > 0 {
        lemma_split_prefix_len(p, k - 1);
    }
}

/// Whether every index pair lies within a sequence of length `n`.
pub open spec fn bounds_within(bounds: Seq<(usize, usize)>, n: int) -> bool {
    forall|i: int| 0 <= i < bounds.len() ==> #[trigger] bounds[i].0 <= bounds[i].1 && bounds[i].1 <= n
}

/// Where the pieces of `v` begin and end.
fn segment_bounds(v: &Vec<char>) -> (bounds: Vec<(usize, usize)>)
    ensures
        pieces(v@, bounds@) == segments(v@),
        bounds.len() > 0,
        bounds_within(bounds@, v.len() as int),
{
    let n = v.len();
    let mut bounds: Vec<(usize, usize)> = Vec::new();
    let mut start: usize = 0;
    for i in 0..n
        invariant
            n == v.len(),
            start <= i,
            pieces(v@, bounds@) == split_prefix(v@, i as int).0,
            v@.subrange(start as int, i as int) == split_prefix(v@, i as int).1,
            bounds_within(bounds@, n as int),
    {
        if v[i] == '/' {
            bounds.push((start, i));
            start = i + 1;
            assert(pieces(v@, bounds@) =~= split_prefix(v@, i + 1).0);
            assert(v@.subrange(start as int, i + 1) =~= split_prefix(v@, i + 1).1);
        } else {
            assert(v@.subrange(start as int, i + 1) =~= split_prefix(v@, i + 1).1);
        }
    }
    bounds.push((start, n));
    assert(pieces(v@, bounds@) =~= segments(v@));
    bounds
}

/// Whether `v[a..b]` is the piece `.`.
fn is_dot_piece(v: &Vec<char>, a: usize, b: usize) -> (r: bool)
    requires
        a <= b <= v.len(),
    ensures
        r == (v@.subrange(a as int, b as int) == seq!['.']),
{
    let r = b - a == 1 && v[a] == '.';
    proof {
        let seg = v@.subrange(a as int, b as int);
        if b - a == 1 {
            assert(seg =~= seq![v@[a as int]]);
        }
        if seg == seq!['.'] {
            assert(seg.len() == 1);
            assert(seg[0] == v@[a as int]);
        }
    }
    r
}

/// The component that the piece `v[a..b]` stands for.
fn piece_component(v: &Vec<char>, a: usize, b: usize) -> (c: Option<Component>)
    requires
        a <= b <= v.len(),
    ensures
        match c {
            Some(c) => segment_component(v@.subrange(a as int, b as int)) == Some(c@),
            None => segment_component(v@.subrange(a as int, b as int)) is None,
        },
{
    let ghost seg = v@.subrange(a as int, b as int);
    if b == a || is_dot_piece(v, a, b) {
        None
    } else if b - a == 2 && v[a] == '.' && v[a + 1] == '.' {
        assert(seg =~= seq!['.', '.']);
        Some(Component::ParentDir)
    } else {
        proof {
            if seg == seq!['.', '.'] {
                assert(seg[0] == '.' && seg[1] == '.');
            }
        }
        Some(Component::Normal(string_from_chars(v, a, b)))
    }
}

/// The components of `p`, as `Path::components` yields them.
pub fn components_of(p: &str) -> (cs: Vec<Component>)
    ensures
        component_views(cs@) == components(p@),
{
    let v = chars_of(p);
    let bounds = segment_bounds(&v);
    let ghost segs = segments(v@);
    let mut cs: Vec<Component> = Vec::new();
    let mut start: usize = 0;
    let ghost head: Seq<ComponentView> = Seq::empty();
    if v.len() > 0 && v[0] == '/' {
        cs.push(Component::RootDir);
        proof { head = seq![ComponentView::RootDir]; }
    } else if is_dot_piece(&v, bounds[0].0, bounds[0].1) {
        cs.push(Component::CurDir);
        start = 1;
        proof { head = seq![ComponentView::CurDir]; }
    }
    assert(component_views(cs@) =~= head + segments_components(segs.subrange(start as int, start as int)));
    let m = bounds.len();
    for i in start..m
        invariant
            m == bounds.len() == segs.len(),
            start <= i <= m,
            segs == pieces(v@, bounds@),
            bounds_within(bounds@, v.len() as int),
            component_views(cs@) == head + segments_components(segs.subrange(start as int, i as int)),
    {
        let (a, b) = bounds[i];
        assert(segs.subrange(start as int, i + 1).drop_last() =~= segs.subrange(start as int, i as int));
        assert(segs[i as int] == v@.subrange(a as int, b as int));
        let ghost upto = segs.subrange(start as int, i + 1);
        assert(upto.last() == segs[i as int]);
        match piece_component(&v, a, b) {
            Some(c) => {
                let ghost old_cs = cs@;
                let ghost cv = c@;
                cs.push(c);
                assert(component_views(cs@) =~= component_views(old_cs).push(cv));
                assert(segments_components(upto) == segments_components(upto.drop_last()).push(cv));
                assert(component_views(cs@) =~= head + segments_components(segs.subrange(start as int, i + 1)));
            }
            None => {
                assert(component_views(cs@) =~= head + segments_components(segs.subrange(start as int, i + 1)));
            }
        }
    }
    proof {
        if v.len() > 0 && v@[0] == '/' {
            assert(segs.subrange(0, segs.len() as int) =~= segs);
        } else if start == 1 {
            assert(segs.subrange(1, segs.len() as int) =~= segs.drop_first());
        } else {
            assert(segs.subrange(0, segs.len() as int) =~= segs);
        }
    }
    cs
}


/// Whether every component is a plain name (no root, `.` or `..`).
pub open spec fn all_normal(cs: Seq<ComponentView>) -> bool {
    forall|i: int| 0 <= i < cs.len() ==> #[trigger] cs[i] is Normal
}

/// Whether `p` is made of plain names only: it names something below the
/// directory it is joined to, never the root, never a parent.
pub fn has_only_normal_components(p: &str) -> (b: bool)
    ensures
        b == all_normal(components(p@)),
{
    let cs = components_of(p);
    let ghost views = component_views(cs@);
    let n = cs.len();
    for i in 0..n
        invariant
            n == cs.len(),
            views == component_views(cs@),
            views == components(p@),
            forall|j: int| 0 <= j < i ==> #[trigger] views[j] is Normal,
    {
        match &cs[i] {
            Component::Normal(_) => {},
            _ => {
                assert(views[i as int] == cs@[i as int]@);
                assert(!(views[i as int] is Normal));
                assert(!all_normal(views));
                return false;
            },
        }
    }
    true
}

proof fn lemma_segments_components_normal(segs: Seq<Seq<char>>)
    ensures
        all_normal(segments_components(segs)) <==> (forall|i: int|
            0 <= i < segs.len() ==> #[trigger] segs[i] != seq!['.', '.']),
    decreases segs.len(),
{
    if segs.len() > 0 {
        let before = segs.drop_last();
        lemma_segments_components_normal(before);
        let cs = segments_components(segs);
        let cb = segments_components(before);
        if all_normal(cs) {
            assert forall|i: int| 0 <= i < segs.len() implies #[trigger] segs[i] != seq!['.', '.'] by {
                if i < segs.len() - 1 {
                    assert(before[i] == segs[i]);
                    assert forall|j: int| 0 <= j < cb.len() implies #[trigger] cb[j] is Normal by {
                        assert(cs[j] == cb[j]);
                    }
                } else {
                    if segs.last() == seq!['.', '.'] {
                        assert(seq!['.', '.'].len() == 2 && seq!['.'].len() == 1);
                        assert(segment_component(segs.last()) == Some(ComponentView::ParentDir));
                        assert(cs == cb.push(ComponentView::ParentDir));
                        assert(!(cs[cs.len() - 1] is Normal));
                    }
                }
            }
        }
        if forall|i: int| 0 <= i < segs.len() ==> #[trigger] segs[i] != seq!['.', '.'] {
            assert forall|i: int| 0 <= i < before.len() implies #[trigger] before[i] != seq![
                '.',
                '.',
            ] by {
                assert(before[i] == segs[i]);
            }
            assert(segs[segs.len() - 1] != seq!['.', '.']);
        }
    }
}

/// A path has only plain-name components exactly when it does not start with
/// `/`, its first piece is not `.`, and none of its pieces is `..`: a request
/// can never climb out of the folder it is joined to.
pub proof fn lemma_only_normal_components(p: Seq<char>)
    ensures
        all_normal(components(p)) <==> {
            &&& !(p.len() > 0 && p[0] == '/')
            &&& segments(p)[0] != seq!['.']
            &&& forall|i: int| 0 <= i < segments(p).len() ==> #[trigger] segments(p)[i] != seq!['.', '.']
        },
{
    let segs = segments(p);
    lemma_segments_components_normal(segs);
    if p.len() > 0 && p[0] == '/' {
        assert(!(components(p)[0] is Normal));
    } else if segs[0] == seq!['.'] {
        assert(!(components(p)[0] is Normal));
    } else {
    }
}

/// The last component of `p` when it is a plain name (`Path::file_name`).
pub open spec fn file_name(p: Seq<char>) -> Option<Seq<char>> {
    let cs = components(p);
    if cs.len() > 0 && cs.last() is Normal {
        Some(cs.last()->Normal_0)
    } else {
        None
    }
}

/// Index of the last `.` in `n`, or -1.
pub open spec fn last_dot(n: Seq<char>) -> int
    decreases n.len(),
{
    if n.len() == 0 {
        -1
    } else if n.last() == '.' {
        n.len() - 1
    } else {
        last_dot(n.drop_last())
    }
}

/// The extension of a file name: what follows its last `.`, provided that
/// something precedes that `.`.
pub open spec fn name_extension(n: Seq<char>) -> Option<Seq<char>> {
    let k = last_dot(n);
    if k <= 0 {
        None
    } else {
        Some(n.subrange(k + 1, n.len() as int))
    }
}

/// The extension of `p` (`Path::extension`).
pub open spec fn extension(p: Seq<char>) -> Option<Seq<char>> {
    match file_name(p) {
        Some(n) => name_extension(n),
        None => None,
    }
}

pub(crate) proof fn lemma_last_dot(n: Seq<char>, k: int)
    requires
        -1 <= k < n.len(),
        k >= 0 ==> n[k] == '.',
        forall|j: int| k < j < n.len() ==> #[trigger] n[j] != '.',
    ensures
        last_dot(n) == k,
    decreases n.len(),
{
    if n.len() > 0 && k < n.len() - 1 {
        let m = n.drop_last();
        assert(n.last() != '.');
        assert forall|j: int| k < j < m.len() implies #[trigger] m[j] != '.' by {
            assert(m[j] == n[j]);
        }
        lemma_last_dot(m, k);
    }
}

/// The last component of `p` when it is a plain name.
pub fn file_name_of(p: &str) -> (name: Option<String>)
    ensures
        match name {
            Some(s) => file_name(p@) == Some(s@),
            None => file_name(p@) is None,
        },
{
    let mut cs = components_of(p);
    let ghost views = component_views(cs@);
    match cs.pop() {
        Some(Component::Normal(s)) => {
            assert(views.last() == ComponentView::Normal(s@));
            Some(s)
        },
        Some(c) => {
            assert(views.last() == c@);
            None
        },
        None => None,
    }
}

/// The extension of the file name `n`.
pub fn name_extension_of(n: &str) -> (ext: Option<String>)
    ensures
        match ext {
            Some(e) => name_extension(n@) == Some(e@),
            None => name_extension(n@) is None,
        },
{
    let v = chars_of(n);
    let mut i = v.len();
    while i > 0 && v[i - 1] != '.'
        invariant
            i <= v.len(),
            forall|j: int| i <= j < v.len() ==> #[trigger] v@[j] != '.',
        decreases i,
    {
        i = i - 1;
    }
    proof {
        lemma_last_dot(v@, i - 1);
    }
    if i <= 1 {
        None
    } else {
        Some(string_from_chars(&v, i, v.len()))
    }
}

/// The extension of `p` (`Path::extension`).
pub fn extension_of(p: &str) -> (ext: Option<String>)
    ensures
        match ext {
            Some(e) => extension(p@) == Some(e@),
            None => extension(p@) is None,
        },
{
    match file_name_of(p) {
        Some(n) => name_extension_of(n.as_str()),
        None => None,
    }
}

/// `base` with `rel` pushed onto it (`PathBuf::push`, and so `Path::join`):
/// an absolute `rel` replaces `base`; otherwise a `/` separates the two
/// unless `base` is empty or already ends with one.
pub open spec fn pushed(base: Seq<char>, rel: Seq<char>) -> Seq<char> {
    if rel.len() > 0 && rel[0] == '/' {
        rel
    } else if base.len() == 0 || base.last() == '/' {
        base + rel
    } else {
        base + seq!['/'] + rel
    }
}

/// `base` joined with `rel`.
pub fn join_path(base: &str, rel: &str) -> (joined: String)
    ensures
        joined@ == pushed(base@, rel@),
{
    let b = chars_of(base);
    let r = chars_of(rel);
    if r.len() > 0 && r[0] == '/' {
        return String::from_str(rel);
    }
    let mut out = String::from_str(base);
    if b.len() > 0 && b[b.len() - 1] != '/' {
        push_char(&mut out, '/');
    }
    out.append(rel);
    out
}

/// `p` without the separators and `.` pieces that follow its last name.
pub open spec fn trim_trailing(p: Seq<char>) -> Seq<char>
    decreases p.len(),
{
    if p.len() > 0 && p.last() == '/' {
        trim_trailing(p.drop_last())
    } else if p.len() >= 2 && p.last() == '.' && p[p.len() - 2] == '/' {
        trim_trailing(p.take(p.len() - 2))
    } else {
        p
    }
}

/// What `PathBuf::set_extension("md")` makes of a path whose file name has no
/// extension: the path cut right after its file name, then `.md`; a path
/// without a file name is left as it is.
pub open spec fn with_md_extension(p: Seq<char>) -> Seq<char> {
    if file_name(p) is None {
        p
    } else {
        trim_trailing(p) + seq!['.', 'm', 'd']
    }
}

/// Gives a path whose file name has no extension the extension `md`.
pub fn add_md_extension(p: &str) -> (out: String)
    requires
        extension(p@) is None,
    ensures
        out@ == with_md_extension(p@),
{
    if file_name_of(p).is_none() {
        return String::from_str(p);
    }
    let v = chars_of(p);
    let mut end = v.len();
    assert(v@.take(end as int) =~= v@);
    loop
        invariant
            end <= v.len(),
            trim_trailing(v@) == trim_trailing(v@.take(end as int)),
        ensures
            trim_trailing(v@) == v@.take(end as int),
        decreases end,
    {
        let ghost t = v@.take(end as int);
        if end > 0 && v[end - 1] == '/' {
            assert(t.drop_last() =~= v@.take(end - 1));
            end = end - 1;
        } else if end >= 2 && v[end - 1] == '.' && v[end - 2] == '/' {
            assert(t.take(t.len() - 2) =~= v@.take(end - 2));
            end = end - 2;
        } else {
            assert(trim_trailing(t) == t);
            break;
        }
    }
    let mut out = string_from_chars(&v, 0, end);
    out.append(".md");
    proof {
        assert(v@.subrange(0, end as int) =~= v@.take(end as int));
        reveal_strlit(".md");
        assert(".md"@ =~= seq!['.', 'm', 'd']);
    }
    out
}

/// Whether the components of `base` begin the components of `p`
/// (`Path::starts_with`).
pub open spec fn path_starts_with(p: Seq<char>, base: Seq<char>) -> bool {
    let a = components(p);
    let b = components(base);
    b.len() <= a.len() && a.take(b.len() as int) == b
}

fn component_eq(a: &Component, b: &Component) -> (r: bool)
    ensures
        r == (a@ == b@),
{
    match (a, b) {
        (Component::RootDir, Component::RootDir) => true,
        (Component::CurDir, Component::CurDir) => true,
        (Component::ParentDir, Component::ParentDir) => true,
        (Component::Normal(x), Component::Normal(y)) => *x == *y,
        _ => false,
    }
}

/// Whether `p` lies at or below `base`, component by component.
pub fn starts_with_path(p: &str, base: &str) -> (r: bool)
    ensures
        r == path_starts_with(p@, base@),
{
    let a = components_of(p);
    let b = components_of(base);
    let ghost av = component_views(a@);
    let ghost bv = component_views(b@);
    if b.len() > a.len() {
        return false;
    }
    let n = b.len();
    for i in 0..n
        invariant
            n == b.len() <= a.len(),
            av == component_views(a@),
            bv == component_views(b@),
            av == components(p@),
            bv == components(base@),
            forall|j: int| 0 <= j < i ==> #[trigger] av[j] == bv[j],
    {
        assert(av[i as int] == a@[i as int]@ && bv[i as int] == b@[i as int]@);
        if !component_eq(&a[i], &b[i]) {
            assert(av[i as int] == a@[i as int]@ && bv[i as int] == b@[i as int]@);
            assert(av.take(n as int)[i as int] != bv[i as int]);
            return false;
        }
    }
    assert(av.take(n as int) =~= bv);
    true
}


proof fn lemma_split_prefix_stable(a: Seq<char>, b: Seq<char>, k: int)
    requires
        0 <= k <= a.len(),
    ensures
        split_prefix(a + b, k) == split_prefix(a, k),
    decreases k,
{
    if k > 0 {
        lemma_split_prefix_stable(a, b, k - 1);
        assert((a + b)[k - 1] == a[k - 1]);
    }
}

/// Whether `w` holds no `/`.
pub open spec fn no_slash(w: Seq<char>) -> bool {
    forall|i: int| 0 <= i < w.len() ==> #[trigger] w[i] != '/'
}

proof fn lemma_split_after_slash(a: Seq<char>, w: Seq<char>, k: int)
    requires
        no_slash(w),
        0 <= k <= w.len(),
    ensures
        split_prefix(a + seq!['/'] + w, a.len() + 1 + k) == (segments(a), w.take(k)),
    decreases k,
{
    let q = a + seq!['/'] + w;
    if k == 0 {
        lemma_split_prefix_stable(a, seq!['/'] + w, a.len() as int);
        assert(a + seq!['/'] + w =~= a + (seq!['/'] + w));
        assert(q[a.len() as int] == '/');
        assert(w.take(0) =~= Seq::<char>::empty());
    } else {
        lemma_split_after_slash(a, w, k - 1);
        assert(q[a.len() + k] == w[k - 1]);
        assert(w.take(k - 1).push(w[k - 1]) =~= w.take(k));
    }
}

proof fn lemma_split_no_slash(w: Seq<char>, k: int)
    requires
        no_slash(w),
        0 <= k <= w.len(),
    ensures
        split_prefix(w, k) == (Seq::<Seq<char>>::empty(), w.take(k)),
    decreases k,
{
    if k == 0 {
        assert(w.take(0) =~= Seq::<char>::empty());
    } else {
        lemma_split_no_slash(w, k - 1);
        assert(w.take(k - 1).push(w[k - 1]) =~= w.take(k));
    }
}

proof fn lemma_segments_components_push(segs: Seq<Seq<char>>, w: Seq<char>)
    requires
        segment_component(w) == Some(ComponentView::Normal(w)),
    ensures
        segments_components(segs.push(w)) == segments_components(segs).push(ComponentView::Normal(w)),
{
    assert(segs.push(w).drop_last() =~= segs);
}

/// A plain name pushed onto a path is that path's file name.
pub proof fn lemma_pushed_file_name(p: Seq<char>, w: Seq<char>)
    requires
        no_slash(w),
        w.len() > 0,
        w != seq!['.'],
        w != seq!['.', '.'],
    ensures
        file_name(pushed(p, w)) == Some(w),
{
    let q = pushed(p, w);
    assert(segment_component(w) == Some(ComponentView::Normal(w)));
    let a = if p.len() == 0 {
        p
    } else if p.last() == '/' {
        p.drop_last()
    } else {
        p
    };
    if p.len() == 0 {
        assert(q =~= w);
        lemma_split_no_slash(w, w.len() as int);
        assert(w.take(w.len() as int) =~= w);
        let segs = segments(q);
        assert(segs =~= seq![w]);
        assert(seq![w] =~= Seq::<Seq<char>>::empty().push(w));
        lemma_segments_components_push(Seq::empty(), w);
        if w[0] == '/' {
        } else if segs[0] == seq!['.'] {
        } else {
        }
    } else {
        if p.last() == '/' {
            assert(q =~= a + seq!['/'] + w);
        } else {
            assert(q =~= a + seq!['/'] + w);
        }
        lemma_split_after_slash(a, w, w.len() as int);
        assert(w.take(w.len() as int) =~= w);
        let segs = segments(q);
        assert(segs == segments(a).push(w));
        lemma_segments_components_push(segments(a), w);
        if q.len() > 0 && q[0] == '/' {
            let cs = seq![ComponentView::RootDir] + segments_components(segs);
            assert(cs.last() == ComponentView::Normal(w));
        } else if segs[0] == seq!['.'] {
            let sa = segments(a);
            assert(sa.len() > 0);
            assert(segs.drop_first() =~= sa.drop_first().push(w));
            lemma_segments_components_push(sa.drop_first(), w);
            let cs = seq![ComponentView::CurDir] + segments_components(segs.drop_first());
            assert(cs.last() == ComponentView::Normal(w));
        } else {
        }
    }
}


proof fn lemma_split_concat(a: Seq<char>, b: Seq<char>, k: int)
    requires
        0 <= k <= b.len(),
    ensures
        split_prefix(a + seq!['/'] + b, a.len() + 1 + k) == (segments(a) + split_prefix(b, k).0, split_prefix(b, k).1),
    decreases k,
{
    let q = a + seq!['/'] + b;
    if k == 0 {
        lemma_split_prefix_stable(a, seq!['/'] + b, a.len() as int);
        assert(a + seq!['/'] + b =~= a + (seq!['/'] + b));
        assert(q[a.len() as int] == '/');
        assert(segments(a) + Seq::<Seq<char>>::empty() =~= segments(a));
    } else {
        lemma_split_concat(a, b, k - 1);
        assert(q[a.len() + k] == b[k - 1]);
        let (d, c) = split_prefix(b, k - 1);
        assert((segments(a) + d).push(c) =~= segments(a) + d.push(c));
    }
}

proof fn lemma_segments_concat(a: Seq<char>, b: Seq<char>)
    ensures
        segments(a + seq!['/'] + b) == segments(a) + segments(b),
{
    lemma_split_concat(a, b, b.len() as int);
    let (d, c) = split_prefix(b, b.len() as int);
    assert((a + seq!['/'] + b).len() == a.len() + 1 + b.len());
    assert((segments(a) + d).push(c) =~= segments(a) + d.push(c));
}

proof fn lemma_segments_components_concat(x: Seq<Seq<char>>, y: Seq<Seq<char>>)
    ensures
        segments_components(x + y) == segments_components(x) + segments_components(y),
    decreases y.len(),
{
    if y.len() == 0 {
        assert(x + y =~= x);
        assert(segments_components(x) + Seq::<ComponentView>::empty() =~= segments_components(x));
    } else {
        lemma_segments_components_concat(x, y.drop_last());
        assert((x + y).drop_last() =~= x + y.drop_last());
        assert((x + y).last() == y.last());
        match segment_component(y.last()) {
            Some(c) => {
                assert((segments_components(x) + segments_components(y.drop_last())).push(c)
                    =~= segments_components(x) + segments_components(y.drop_last()).push(c));
            },
            None => {},
        }
    }
}

proof fn lemma_segments_nonempty(p: Seq<char>)
    ensures
        segments(p).len() > 0,
{
}

pub(crate) proof fn lemma_components_after_slash(a: Seq<char>, b: Seq<char>)
    requires
        a.len() > 0,
    ensures
        components(a + seq!['/'] + b) == components(a) + segments_components(segments(b)),
{
    let q = a + seq!['/'] + b;
    lemma_segments_concat(a, b);
    let sa = segments(a);
    let sb = segments(b);
    lemma_segments_nonempty(a);
    assert(q[0] == a[0]);
    assert((sa + sb)[0] == sa[0]);
    if a[0] == '/' {
        lemma_segments_components_concat(sa, sb);
        assert(seq![ComponentView::RootDir] + (segments_components(sa) + segments_components(sb))
            =~= (seq![ComponentView::RootDir] + segments_components(sa)) + segments_components(sb));
    } else if sa[0] == seq!['.'] {
        assert((sa + sb).drop_first() =~= sa.drop_first() + sb);
        lemma_segments_components_concat(sa.drop_first(), sb);
        assert(seq![ComponentView::CurDir] + (segments_components(sa.drop_first()) + segments_components(sb))
            =~= (seq![ComponentView::CurDir] + segments_components(sa.drop_first())) + segments_components(sb));
    } else {
        lemma_segments_components_concat(sa, sb);
    }
}

proof fn lemma_empty_components()
    ensures
        segments(Seq::<char>::empty()) == seq![Seq::<char>::empty()],
        segments_components(seq![Seq::<char>::empty()]) == Seq::<ComponentView>::empty(),
        components(Seq::<char>::empty()) == Seq::<ComponentView>::empty(),
{
    let e = Seq::<char>::empty();
    let se = seq![e];
    assert(segments(e) =~= se);
    assert(se.last() == e);
    assert(segment_component(e) is None);
    assert(se.drop_last() =~= Seq::<Seq<char>>::empty());
    assert(segments_components(Seq::<Seq<char>>::empty()) == Seq::<ComponentView>::empty());
    assert(segments_components(se) == segments_components(se.drop_last()));
    assert(se[0] != seq!['.']) by {
        assert(se[0].len() == 0);
    }
}

/// Joining a path made of plain names to a base extends the base's
/// components by the path's: the joined path lies below the base.
pub proof fn lemma_join_stays_below(base: Seq<char>, rel: Seq<char>)
    requires
        all_normal(components(rel)),
    ensures
        components(pushed(base, rel)) == components(base) + components(rel),
        path_starts_with(pushed(base, rel), base),
{
    lemma_only_normal_components(rel);
    let sr = segments(rel);
    assert(components(rel) == segments_components(sr));
    let q = pushed(base, rel);
    lemma_empty_components();
    if base.len() == 0 {
        assert(q =~= rel);
        assert(base =~= Seq::<char>::empty());
        assert(components(base) + components(rel) =~= components(rel));
    } else if base.last() == '/' {
        let b2 = base.drop_last();
        assert(q =~= b2 + seq!['/'] + rel);
        assert(base =~= b2 + seq!['/'] + Seq::<char>::empty());
        let se = segments(Seq::<char>::empty());
        if b2.len() > 0 {
            lemma_components_after_slash(b2, rel);
            lemma_components_after_slash(b2, Seq::empty());
            assert(components(base) =~= components(b2));
        } else {
            lemma_segments_concat(b2, rel);
            lemma_segments_concat(b2, Seq::empty());
            assert(segments(b2) =~= se);
            lemma_segments_components_concat(se, sr);
            lemma_segments_components_concat(se, se);
            assert(q[0] == '/');
            assert(base[0] == '/');
            assert(components(base) =~= seq![ComponentView::RootDir]);
        }
    } else {
        lemma_components_after_slash(base, rel);
    }
    let cb = components(base);
    assert((cb + components(rel)).take(cb.len() as int) =~= cb);
}


proof fn lemma_open_piece(p: Seq<char>, k: int) -> (start: int)
    requires
        0 <= k <= p.len(),
    ensures
        0 <= start <= k,
        split_prefix(p, k).1 == p.subrange(start, k),
        start == 0 || p[start - 1] == '/',
    decreases k,
{
    if k == 0 {
        assert(p.subrange(0, 0) =~= Seq::<char>::empty());
        0
    } else {
        let s = lemma_open_piece(p, k - 1);
        if p[k - 1] == '/' {
            assert(p.subrange(k, k) =~= Seq::<char>::empty());
            k
        } else {
            assert(p.subrange(s, k - 1).push(p[k - 1]) =~= p.subrange(s, k));
            s
        }
    }
}

proof fn lemma_last_component_of_last_piece(p: Seq<char>)
    requires
        segment_component(segments(p).last()) matches Some(ComponentView::Normal(_)),
        !(segments(p).len() == 1 && segments(p)[0] == seq!['.']),
    ensures
        file_name(p) == Some(segments(p).last()),
{
    let segs = segments(p);
    let l = segs.last();
    assert(segments_components(segs) == segments_components(segs.drop_last()).push(
        ComponentView::Normal(l),
    ));
    if p.len() > 0 && p[0] == '/' {
    } else if segs[0] == seq!['.'] {
        let rest = segs.drop_first();
        assert(rest.len() > 0);
        assert(rest.last() == l);
        assert(segments_components(rest) == segments_components(rest.drop_last()).push(
            ComponentView::Normal(l),
        ));
    } else {
    }
}

/// The path as cut after its file name is what precedes the name and the
/// name itself, the former empty or ending with `/`.
proof fn lemma_trim_ends_with_name(p: Seq<char>) -> (x: Seq<char>)
    requires
        file_name(p) is Some,
    ensures
        trim_trailing(p) == x + file_name(p)->0,
        x.len() == 0 || x.last() == '/',
        no_slash(file_name(p)->0),
    decreases p.len(),
{
    lemma_empty_components();
    if p.len() > 0 && p.last() == '/' {
        let a = p.drop_last();
        assert(p =~= a + seq!['/'] + Seq::<char>::empty());
        if a.len() == 0 {
            assert(p =~= seq!['/']);
            assert(segments(p) =~= seq![Seq::<char>::empty(), Seq::<char>::empty()]) by {
                lemma_segments_concat(a, Seq::<char>::empty());
            }
            assert(components(p) == seq![ComponentView::RootDir] + segments_components(segments(p)));
            assert(segments(p).drop_last() =~= seq![Seq::<char>::empty()]);
            assert(segments_components(segments(p)) == segments_components(seq![Seq::<char>::empty()]));
            assert(components(p) =~= seq![ComponentView::RootDir]);
        }
        lemma_components_after_slash(a, Seq::empty());
        assert(components(p) =~= components(a));
        lemma_trim_ends_with_name(a)
    } else if p.len() >= 2 && p.last() == '.' && p[p.len() - 2] == '/' {
        let a = p.take(p.len() - 2);
        assert(p =~= a + seq!['/'] + seq!['.']);
        let sd = segments(seq!['.']);
        lemma_split_no_slash(seq!['.'], 1);
        assert(seq!['.'].take(1) =~= seq!['.']);
        assert(sd =~= seq![seq!['.']]);
        assert(sd.drop_last() =~= Seq::<Seq<char>>::empty());
        assert(sd.last() == seq!['.']);
        assert(segment_component(seq!['.']) is None);
        assert(segments_components(Seq::<Seq<char>>::empty()) == Seq::<ComponentView>::empty());
        assert(segments_components(sd) == segments_components(sd.drop_last()));
        assert(segments_components(sd) =~= Seq::<ComponentView>::empty());
        if a.len() == 0 {
            lemma_segments_concat(a, seq!['.']);
            let segs = segments(p);
            assert(segs =~= seq![Seq::<char>::empty(), seq!['.']]);
            assert(segs.drop_last() =~= seq![Seq::<char>::empty()]);
            assert(segs.last() == seq!['.']);
            assert(segments_components(segs) == segments_components(segs.drop_last()));
            assert(segments_components(segs) =~= Seq::<ComponentView>::empty());
            assert(components(p) =~= seq![ComponentView::RootDir]);
        }
        lemma_components_after_slash(a, seq!['.']);
        assert(components(p) =~= components(a));
        lemma_trim_ends_with_name(a)
    } else {
        let segs = segments(p);
        let (d, c) = split_prefix(p, p.len() as int);
        let start = lemma_open_piece(p, p.len() as int);
        let l = segs.last();
        assert(l == c);
        let x = p.subrange(0, start);
        assert(p =~= x + l);
        // The last piece is the file name.
        if l.len() == 0 {
            if p.len() == 0 {
                assert(components(p) =~= Seq::<ComponentView>::empty());
            } else {
                assert(start == p.len());
                assert(p[start - 1] == '/');
            }
        }
        assert(l.len() > 0);
        if l == seq!['.'] {
            if start == 0 {
                assert(p =~= seq!['.']);
                lemma_split_no_slash(seq!['.'], 1);
                assert(seq!['.'].take(1) =~= seq!['.']);
                assert(segs =~= seq![seq!['.']]);
                assert(segs.drop_first() =~= Seq::<Seq<char>>::empty());
                assert(components(p) =~= seq![ComponentView::CurDir]);
            } else {
                assert(p[p.len() - 1] == l[0]);
                assert(p[p.len() - 2] == '/');
            }
        }
        if l == seq!['.', '.'] {
            assert(segments_components(segs) == segments_components(segs.drop_last()).push(
                ComponentView::ParentDir,
            ));
            if p.len() > 0 && p[0] == '/' {
                assert(components(p).last() == ComponentView::ParentDir);
            } else if segs[0] == seq!['.'] {
                let rest = segs.drop_first();
                assert(rest.last() == l);
                assert(segments_components(rest) == segments_components(rest.drop_last()).push(
                    ComponentView::ParentDir,
                ));
                assert(components(p).last() == ComponentView::ParentDir);
            } else {
            }
        }
        assert(seq!['.'].len() == 1 && seq!['.', '.'].len() == 2);
        assert(segment_component(l) == Some(ComponentView::Normal(l)));
        if segs.len() == 1 && segs[0] == seq!['.'] {
            assert(l == seq!['.']);
        }
        lemma_last_component_of_last_piece(p);
        assert forall|i: int| 0 <= i < l.len() implies #[trigger] l[i] != '/' by {
            assert(l[i] == p[start + i]);
            assert(split_prefix(p, p.len() as int).1 == c);
            lemma_open_piece_no_slash(p, p.len() as int, start, i);
        }
        x
    }
}

proof fn lemma_open_piece_no_slash(p: Seq<char>, k: int, start: int, i: int)
    requires
        0 <= start <= k <= p.len(),
        split_prefix(p, k).1 == p.subrange(start, k),
        0 <= i < k - start,
    ensures
        p[start + i] != '/',
    decreases k,
{
    lemma_split_prefix_len(p, k);
    if p[k - 1] == '/' {
        assert(split_prefix(p, k).1.len() == 0);
    } else {
        let (d, c) = split_prefix(p, k - 1);
        assert(c.push(p[k - 1]) == p.subrange(start, k));
        if start + i < k - 1 {
            assert(c =~= p.subrange(start, k - 1));
            lemma_open_piece_no_slash(p, k - 1, start, i);
        }
    }
}

/// A file name without extension is given the extension `md`.
pub proof fn lemma_md_extension_added(p: Seq<char>)
    requires
        file_name(p) is Some,
        extension(p) is None,
    ensures
        file_name(with_md_extension(p)) == Some(file_name(p)->0 + seq!['.', 'm', 'd']),
        extension(with_md_extension(p)) == Some(seq!['m', 'd']),
{
    let n = file_name(p)->0;
    let x = lemma_trim_ends_with_name(p);
    let w = n + seq!['.', 'm', 'd'];
    assert(no_slash(w)) by {
        assert forall|i: int| 0 <= i < w.len() implies #[trigger] w[i] != '/' by {
            if i < n.len() {
                assert(w[i] == n[i]);
            }
        }
    }
    assert(n.len() > 0) by {
        let cs = components(p);
        assert(segment_component(n) is Some || true);
        lemma_normal_components_nonempty(p);
    }
    assert(w != seq!['.']) by {
        assert(w.len() != 1);
    }
    assert(w != seq!['.', '.']) by {
        assert(w.len() != 2);
    }
    assert(with_md_extension(p) =~= pushed(x, w));
    lemma_pushed_file_name(x, w);
    lemma_last_dot(w, n.len() as int);
    assert(w.subrange(n.len() as int + 1, w.len() as int) =~= seq!['m', 'd']);
}

proof fn lemma_segments_components_nonempty_names(segs: Seq<Seq<char>>)
    ensures
        forall|i: int|
            0 <= i < segments_components(segs).len() ==> (#[trigger] segments_components(segs)[i] matches ComponentView::Normal(n) ==> n.len() > 0),
    decreases segs.len(),
{
    if segs.len() > 0 {
        lemma_segments_components_nonempty_names(segs.drop_last());
    }
}

proof fn lemma_normal_components_nonempty(p: Seq<char>)
    requires
        file_name(p) is Some,
    ensures
        file_name(p)->0.len() > 0,
{
    let segs = segments(p);
    let cs = components(p);
    if p.len() > 0 && p[0] == '/' {
        lemma_segments_components_nonempty_names(segs);
        assert(cs.last() == segments_components(segs)[segments_components(segs).len() - 1]);
    } else if segs[0] == seq!['.'] {
        lemma_segments_components_nonempty_names(segs.drop_first());
        assert(cs.last() == segments_components(segs.drop_first())[segments_components(segs.drop_first()).len() - 1]);
    } else {
        lemma_segments_components_nonempty_names(segs);
    }
}


/// Pushing a plain name onto a non-empty path adds that name as a component.
pub(crate) proof fn lemma_push_plain_name(p: Seq<char>, w: Seq<char>)
    requires
        p.len() > 0,
        no_slash(w),
        w.len() > 0,
        w != seq!['.'],
        w != seq!['.', '.'],
    ensures
        components(p + seq!['/'] + w) == components(p).push(ComponentView::Normal(w)),
{
    lemma_components_after_slash(p, w);
    lemma_split_no_slash(w, w.len() as int);
    assert(w.take(w.len() as int) =~= w);
    assert(segments(w) =~= Seq::<Seq<char>>::empty().push(w));
    assert(segment_component(w) == Some(ComponentView::Normal(w)));
    lemma_segments_components_push(Seq::empty(), w);
    assert(segments_components(Seq::<Seq<char>>::empty()) == Seq::<ComponentView>::empty());
    assert(components(p) + seq![ComponentView::Normal(w)] =~= components(p).push(ComponentView::Normal(w)));
}

proof fn lemma_split_append(x: Seq<char>, w: Seq<char>, k: int)
    requires
        no_slash(w),
        0 <= k <= w.len(),
    ensures
        split_prefix(x + w, x.len() + k) == (split_prefix(x, x.len() as int).0, split_prefix(x, x.len() as int).1 + w.take(k)),
    decreases k,
{
    if k == 0 {
        lemma_split_prefix_stable(x, w, x.len() as int);
        assert(split_prefix(x, x.len() as int).1 + w.take(0) =~= split_prefix(x, x.len() as int).1);
    } else {
        lemma_split_append(x, w, k - 1);
        assert((x + w)[x.len() + k - 1] == w[k - 1]);
        assert((split_prefix(x, x.len() as int).1 + w.take(k - 1)).push(w[k - 1])
            =~= split_prefix(x, x.len() as int).1 + w.take(k));
    }
}

/// Appending characters other than `/` lengthens the last piece.
pub(crate) proof fn lemma_append_to_last_piece(x: Seq<char>, w: Seq<char>)
    requires
        no_slash(w),
    ensures
        segments(x + w) == segments(x).drop_last().push(segments(x).last() + w),
{
    lemma_split_append(x, w, w.len() as int);
    assert(w.take(w.len() as int) =~= w);
    let (d, c) = split_prefix(x, x.len() as int);
    assert(segments(x).drop_last() =~= d);
    assert((x + w).len() == x.len() + w.len());
}

/// A path of plain names that does not end with `/` or `/.` has its last
/// piece as file name.
pub(crate) proof fn lemma_plain_path_file_name(p: Seq<char>)
    requires
        all_normal(components(p)),
        p.len() > 0,
        p.last() != '/',
        !(p.len() >= 2 && p.last() == '.' && p[p.len() - 2] == '/'),
    ensures
        file_name(p) == Some(segments(p).last()),
        segments(p).last().len() > 0,
        segments(p).last() != seq!['.'],
        segments(p).last() != seq!['.', '.'],
{
    lemma_only_normal_components(p);
    let segs = segments(p);
    let start = lemma_open_piece(p, p.len() as int);
    let l = segs.last();
    assert(l == p.subrange(start, p.len() as int));
    if start == p.len() {
        assert(p[start - 1] == '/');
    }
    assert(l.len() > 0);
    if l == seq!['.'] {
        assert(l.len() == 1);
        assert(p[p.len() - 1] == l[0]);
        if start == 0 {
            assert(segs.len() >= 1);
            lemma_split_no_slash(p, p.len() as int);
            assert(p.take(p.len() as int) =~= p);
            assert(segs =~= seq![p]);
            assert(p =~= l);
            assert(segs[0] == seq!['.']);
        } else {
            assert(p[p.len() - 2] == '/');
        }
    }
    assert(segs[segs.len() - 1] != seq!['.', '.']);
    assert(seq!['.'].len() == 1 && seq!['.', '.'].len() == 2);
    assert(segment_component(l) == Some(ComponentView::Normal(l)));
    lemma_last_component_of_last_piece(p);
}

/// Appending `.md` to such a path keeps it made of plain names.
pub(crate) proof fn lemma_append_md_plain(p: Seq<char>)
    requires
        all_normal(components(p)),
        p.len() > 0,
        p.last() != '/',
        !(p.len() >= 2 && p.last() == '.' && p[p.len() - 2] == '/'),
    ensures
        all_normal(components(p + seq!['.', 'm', 'd'])),
{
    let w = seq!['.', 'm', 'd'];
    let q = p + w;
    lemma_plain_path_file_name(p);
    lemma_only_normal_components(p);
    assert(no_slash(w));
    lemma_append_to_last_piece(p, w);
    let sp = segments(p);
    let sq = segments(q);
    let l2 = sp.last() + w;
    assert(sq.len() == sp.len());
    assert(l2.len() >= 4);
    assert forall|i: int| 0 <= i < sq.len() implies #[trigger] sq[i] != seq!['.', '.'] by {
        if i < sq.len() - 1 {
            assert(sq[i] == sp[i]);
        } else {
            assert(sq[i] == l2);
            assert(seq!['.', '.'].len() == 2);
        }
    }
    assert(sq[0] != seq!['.']) by {
        if sq.len() > 1 {
            assert(sq[0] == sp[0]);
        } else {
            assert(sq[0] == l2);
            assert(seq!['.'].len() == 1);
        }
    }
    assert(q[0] == p[0]);
    lemma_only_normal_components(q);
}


/// A trailing `/` after a non-empty path adds no component.
pub(crate) proof fn lemma_trailing_slash_components(p: Seq<char>)
    requires
        p.len() > 0,
    ensures
        components(p + seq!['/']) == components(p),
{
    lemma_empty_components();
    lemma_components_after_slash(p, Seq::empty());
    assert(p + seq!['/'] + Seq::<char>::empty() =~= p + seq!['/']);
    assert(components(p) + Seq::<ComponentView>::empty() =~= components(p));
}


/// A single plain name is one component.
pub(crate) proof fn lemma_plain_name_components(w: Seq<char>)
    requires
        no_slash(w),
        w.len() > 0,
        w != seq!['.'],
        w != seq!['.', '.'],
    ensures
        components(w) == seq![ComponentView::Normal(w)],
        all_normal(components(w)),
{
    lemma_split_no_slash(w, w.len() as int);
    assert(w.take(w.len() as int) =~= w);
    assert(segments(w) =~= Seq::<Seq<char>>::empty().push(w));
    assert(segment_component(w) == Some(ComponentView::Normal(w)));
    lemma_segments_components_push(Seq::empty(), w);
    assert(segments_components(Seq::<Seq<char>>::empty()) == Seq::<ComponentView>::empty());
    assert(w[0] != '/');
    assert(segments(w)[0] == w);
    assert(Seq::<ComponentView>::empty().push(ComponentView::Normal(w)) =~= seq![ComponentView::Normal(w)]);
}

} // verus!
